use vstd::prelude::*;

use vstd::string::StringExecFns;

verus! {

/// The decimal digit character for a value below ten.
pub open spec fn spec_digit(d: int) -> char {
    if d == 0 {
        '0'
    } else if d == 1 {
        '1'
    } else if d == 2 {
        '2'
    } else if d == 3 {
        '3'
    } else if d == 4 {
        '4'
    } else if d == 5 {
        '5'
    } else if d == 6 {
        '6'
    } else if d == 7 {
        '7'
    } else if d == 8 {
        '8'
    } else {
        '9'
    }
}

/// The decimal writing of a number, most significant digit first.
pub open spec fn spec_decimal(n: int) -> Seq<char>
    decreases n,
{
    if n < 10 {
        seq![spec_digit(n)]
    } else {
        spec_decimal(n / 10).push(spec_digit(n % 10))
    }
}

/// The value of a digit character, or ten for anything else.
pub open spec fn spec_digit_value(c: char) -> int {
    if c == '0' {
        0
    } else if c == '1' {
        1
    } else if c == '2' {
        2
    } else if c == '3' {
        3
    } else if c == '4' {
        4
    } else if c == '5' {
        5
    } else if c == '6' {
        6
    } else if c == '7' {
        7
    } else if c == '8' {
        8
    } else if c == '9' {
        9
    } else {
        10
    }
}

/// Whether every character is a decimal digit.
pub open spec fn spec_all_digits(s: Seq<char>) -> bool {
    forall|i: int| 0 <= i < s.len() ==> spec_digit_value(#[trigger] s[i]) < 10
}

/// The number a digit string writes.
pub open spec fn spec_number(s: Seq<char>) -> int
    decreases s.len(),
{
    if s.len() == 0 {
        0
    } else {
        spec_number(s.drop_last()) * 10 + spec_digit_value(s.last())
    }
}

/// One digit as a string slice.
fn digit_str(d: usize) -> (r: &'static str)
    requires
        d < 10,
    ensures
        r@ =~= seq![spec_digit(d as int)],
{
    proof {
        reveal_strlit("0");
        reveal_strlit("1");
        reveal_strlit("2");
        reveal_strlit("3");
        reveal_strlit("4");
        reveal_strlit("5");
        reveal_strlit("6");
        reveal_strlit("7");
        reveal_strlit("8");
        reveal_strlit("9");
    }
    match d {
        0 => "0",
        1 => "1",
        2 => "2",
        3 => "3",
        4 => "4",
        5 => "5",
        6 => "6",
        7 => "7",
        8 => "8",
        _ => "9",
    }
}

/// Write a number in decimal, as for the checkpoint index file.
pub fn format_usize(n: usize) -> (r: String)
    ensures
        r@ == spec_decimal(n as int),
    decreases n,
{
    if n < 10 {
        let r = String::from_str(digit_str(n));
        proof {
            assert(r@ =~= spec_decimal(n as int));
        }
        r
    } else {
        let head = format_usize(n / 10);
        let r = head.concat(digit_str(n % 10));
        proof {
            assert(r@ =~= spec_decimal(n as int));
        }
        r
    }
}

/// Numbers do not shrink as digits are appended.
proof fn lemma_number_mono(s: Seq<char>, i: int)
    requires
        0 <= i <= s.len(),
        spec_all_digits(s),
    ensures
        spec_number(s.take(i)) <= spec_number(s),
    decreases s.len() - i,
{
    if i < s.len() {
        lemma_number_mono(s, i + 1);
        assert(s.take(i + 1).drop_last() =~= s.take(i));
        assert(s.take(i + 1).last() == s[i]);
        assert(spec_number(s.take(i + 1)) == spec_number(s.take(i)) * 10 + spec_digit_value(
            s[i],
        ));
        assert(spec_all_digits(s.take(i))) by {
            assert(forall|k: int| 0 <= k < i ==> s.take(i)[k] == s[k]);
        }
        lemma_number_nonneg(s.take(i));
        assert(spec_number(s.take(i)) >= 0);
        assert(spec_number(s.take(i)) * 10 >= spec_number(s.take(i))) by (nonlinear_arith)
            requires
                spec_number(s.take(i)) >= 0,
        {
        }
        assert(spec_digit_value(s[i]) >= 0);
    } else {
        assert(s.take(i) =~= s);
    }
}

/// A digit string never writes a negative number.
proof fn lemma_number_nonneg(s: Seq<char>)
    ensures
        spec_number(s) >= 0 || !spec_all_digits(s),
    decreases s.len(),
{
    if s.len() > 0 {
        lemma_number_nonneg(s.drop_last());
        if spec_all_digits(s) {
            assert(spec_all_digits(s.drop_last())) by {
                assert(forall|i: int|
                    0 <= i < s.drop_last().len() ==> s.drop_last()[i] == s[i]);
            }
            assert(spec_number(s.drop_last()) >= 0);
            assert(spec_number(s.drop_last()) * 10 >= 0) by (nonlinear_arith)
                requires
                    spec_number(s.drop_last()) >= 0,
            {
            }
        }
    }
}

/// Read a decimal number, as from the checkpoint index file: the string
/// must be non-empty, all digits, and fit the machine word.
pub fn parse_usize(s: &str) -> (r: Option<usize>)
    ensures
        r == (
            if s@.len() > 0 && spec_all_digits(s@) && spec_number(s@) <= usize::MAX {
                Some(spec_number(s@) as usize)
            } else {
                None::<usize>
            }
        ),
{
    let len = s.unicode_len();
    if len == 0 {
        return None;
    }
    let mut acc: usize = 0;
    let mut i: usize = 0;
    while i < len
        invariant
            i <= len,
            len == s@.len(),
            spec_all_digits(s@.take(i as int)),
            acc == spec_number(s@.take(i as int)),
        decreases len - i,
    {
        let c = s.get_char(i);
        let v = c as u32;
        if v < 48 || v > 57 {
            proof {
                assert(spec_digit_value(s@[i as int]) >= 10) by {
                    reveal_strlit("0");
                }
            }
            return None;
        }
        let d = (v - 48) as usize;
        proof {
            assert(spec_digit_value(s@[i as int]) == d as int);
            assert(s@.take(i + 1).drop_last() =~= s@.take(i as int));
            assert(s@.take(i + 1).last() == s@[i as int]);
        }
        if acc > (usize::MAX - d) / 10 {
            proof {
                assert(spec_number(s@.take(i + 1)) == acc * 10 + d);
                assert(acc * 10 + d > usize::MAX) by (nonlinear_arith)
                    requires
                        acc > ((usize::MAX - d) / 10),
                        0 <= d < 10,
                {
                }
                assert(spec_all_digits(s@.take(i + 1)));
                if spec_all_digits(s@) {
                    lemma_number_mono(s@, i + 1);
                    assert(spec_number(s@) > usize::MAX);
                }
            }
            return None;
        }
        let next = acc * 10 + d;
        proof {
            assert(acc * 10 + d <= usize::MAX) by (nonlinear_arith)
                requires
                    acc <= ((usize::MAX - d) / 10),
                    0 <= d < 10,
            {
            }
        }
        acc = next;
        i = i + 1;
    }
    proof {
        assert(s@.take(len as int) =~= s@);
    }
    Some(acc)
}

/// Law: writing a number and reading it back is the identity, so a
/// checkpoint index survives the round trip through its file.
pub proof fn lemma_decimal_round_trip(n: int)
    requires
        0 <= n <= usize::MAX,
    ensures
        spec_decimal(n).len() > 0,
        spec_all_digits(spec_decimal(n)),
        spec_number(spec_decimal(n)) == n,
    decreases n,
{
    if n < 10 {
        assert(spec_decimal(n) =~= seq![spec_digit(n)]);
        assert(spec_number(spec_decimal(n)) == spec_number(
            spec_decimal(n).drop_last(),
        ) * 10 + spec_digit_value(spec_decimal(n).last()));
        assert(spec_decimal(n).drop_last() =~= Seq::<char>::empty());
    } else {
        lemma_decimal_round_trip(n / 10);
        let d = spec_decimal(n);
        assert(d == spec_decimal(n / 10).push(spec_digit(n % 10)));
        assert(d.drop_last() =~= spec_decimal(n / 10));
        assert(d.last() == spec_digit(n % 10));
        assert(spec_all_digits(d)) by {
            assert(forall|i: int|
                0 <= i < d.len() - 1 ==> d[i] == spec_decimal(n / 10)[i]);
        }
        assert(spec_number(d) == spec_number(spec_decimal(n / 10)) * 10 + spec_digit_value(
            spec_digit(n % 10),
        ));
        assert(spec_digit_value(spec_digit(n % 10)) == n % 10);
        vstd::arithmetic::div_mod::lemma_fundamental_div_mod(n, 10);
    }
}

/// The result of replacing every occurrence of one pattern in a text,
/// left to right, as `str::replace` computes it.
pub uninterp spec fn spec_replaced(s: Seq<char>, pat: Seq<char>, rep: Seq<char>) -> Seq<char>;

/// Relies on str::replace: replaces every occurrence of the pattern,
/// left to right; the result depends on the three arguments alone.
#[verifier::external_body]
fn replace_all(s: &str, pat: &str, rep: &str) -> (r: String)
    ensures
        r@ == spec_replaced(s@, pat@, rep@),
{
    s.replace(pat, rep)
}

/// The placeholder a template key stands behind: the key between double
/// braces, padded with one space on each side.
pub open spec fn spec_placeholder(key: Seq<char>) -> Seq<char> {
    "{{ "@ + key + " }}"@
}

/// Template substitution folded over the pairs, first pair first.
pub open spec fn spec_substituted(s: Seq<char>, pairs: Seq<(Seq<char>, Seq<char>)>) -> Seq<char>
    decreases pairs.len(),
{
    if pairs.len() == 0 {
        s
    } else {
        spec_substituted(
            spec_replaced(s, spec_placeholder(pairs.first().0), pairs.first().1),
            pairs.drop_first(),
        )
    }
}

/// Substitute template variables: for each pair in order, every
/// occurrence of the key's placeholder is replaced by the value. The
/// mechanism is literal text replacement and nothing more.
pub fn substitute_template(content: &str, pairs: &Vec<(String, String)>) -> (r: String)
    ensures
        r@ == spec_substituted(
            content@,
            pairs@.map_values(|p: (String, String)| (p.0@, p.1@)),
        ),
{
    let ghost pv = pairs@.map_values(|p: (String, String)| (p.0@, p.1@));
    let mut current = String::from_str(content);
    proof {
        assert(pv.skip(0) =~= pv);
    }
    let mut i: usize = 0;
    while i < pairs.len()
        invariant
            i <= pairs@.len(),
            spec_substituted(content@, pv) == spec_substituted(current@, pv.skip(i as int)),
        decreases pairs@.len() - i,
    {
        proof {
            assert(pv[i as int] == (pairs@[i as int].0@, pairs@[i as int].1@));
            assert(pv.skip(i as int).first() == pv[i as int]);
            assert(pv.skip(i as int).drop_first() =~= pv.skip(i + 1));
        }
        let pattern = String::from_str("{{ ").concat(pairs[i].0.as_str()).concat(" }}");
        proof {
            assert(pattern@ == spec_placeholder(pv[i as int].0));
        }
        current = replace_all(current.as_str(), pattern.as_str(), pairs[i].1.as_str());
        i = i + 1;
    }
    proof {
        assert(pv.skip(pv.len() as int) =~= Seq::<(Seq<char>, Seq<char>)>::empty());
    }
    current
}

} // verus!
