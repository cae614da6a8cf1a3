use vstd::prelude::*;

use vstd::string::StringExecFns;

verus! {

/// The group indices bound to `name`, in order of appearance.
pub open spec fn spec_indexes_of(s: Seq<(Seq<char>, usize)>, name: Seq<char>) -> Seq<usize>
    decreases s.len(),
{
    if s.len() == 0 {
        Seq::empty()
    } else if s.first().0 == name {
        seq![s.first().1] + spec_indexes_of(s.drop_first(), name)
    } else {
        spec_indexes_of(s.drop_first(), name)
    }
}

/// Appending one pair extends the bound-index sequence by that pair's
/// index exactly when its label matches.
pub proof fn lemma_indexes_of_push(s: Seq<(Seq<char>, usize)>, p: (Seq<char>, usize), name: Seq<char>)
    ensures
        spec_indexes_of(s.push(p), name) == spec_indexes_of(s, name) + (
            if p.0 == name {
                seq![p.1]
            } else {
                Seq::<usize>::empty()
            }
        ),
    decreases s.len(),
{
    if s.len() == 0 {
        let t = s.push(p);
        assert(t.first() == p);
        assert(t.drop_first() =~= Seq::<(Seq<char>, usize)>::empty());
        assert(spec_indexes_of(t.drop_first(), name) == Seq::<usize>::empty());
        assert(spec_indexes_of(s, name) == Seq::<usize>::empty());
        if p.0 == name {
            assert(spec_indexes_of(t, name) == seq![p.1] + Seq::<usize>::empty());
            assert(seq![p.1] + Seq::<usize>::empty()
                =~= Seq::<usize>::empty() + seq![p.1]);
        } else {
            assert(spec_indexes_of(t, name) == Seq::<usize>::empty());
            assert(Seq::<usize>::empty()
                =~= Seq::<usize>::empty() + Seq::<usize>::empty());
        }
    } else {
        lemma_indexes_of_push(s.drop_first(), p, name);
        assert(s.push(p).drop_first() =~= s.drop_first().push(p));
        assert(s.push(p).first() == s.first());
        if s.first().0 == name {
            assert(seq![s.first().1] + (spec_indexes_of(s.drop_first(), name) + (
                if p.0 == name {
                    seq![p.1]
                } else {
                    Seq::<usize>::empty()
                }
            )) =~= (seq![s.first().1] + spec_indexes_of(s.drop_first(), name)) + (
                if p.0 == name {
                    seq![p.1]
                } else {
                    Seq::<usize>::empty()
                }
            ));
        }
    }
}

/// Whether some pair binds `name`.
pub open spec fn spec_has_name(s: Seq<(Seq<char>, usize)>, name: Seq<char>) -> bool {
    exists|i: int| 0 <= i < s.len() && (#[trigger] s[i]).0 == name
}

/// Whether the pair `(name, index)` is bound.
pub open spec fn spec_has_pair(s: Seq<(Seq<char>, usize)>, name: Seq<char>, index: usize) -> bool {
    exists|i: int| 0 <= i < s.len() && #[trigger] s[i] == (name, index)
}

/// A many-to-many relation between group labels and atom sparse
/// indices, with set semantics: what matters is which pairs are bound,
/// not how often.
#[derive(Debug, Clone, PartialEq)]
pub struct GroupName(pub Vec<(String, usize)>);

impl View for GroupName {
    type V = Seq<(Seq<char>, usize)>;

    open spec fn view(&self) -> Seq<(Seq<char>, usize)> {
        self.0@.map_values(|p: (String, usize)| (p.0@, p.1))
    }
}

impl Default for GroupName {
    /// The empty relation.
    fn default() -> (r: Self)
        ensures
            r@ =~= Seq::<(Seq<char>, usize)>::empty(),
    {
        GroupName(Vec::new())
    }
}

impl GroupName {
    /// Bind one pair.
    pub fn push(&mut self, name: String, index: usize)
        ensures
            final(self)@ =~= old(self)@ + seq![(name@, index)],
    {
        self.0.push((name, index));
    }

    /// Bind every pair of `other` as well.
    pub fn extend_with(&mut self, other: &GroupName)
        ensures
            final(self)@ =~= old(self)@ + other@,
    {
        let mut i: usize = 0;
        while i < other.0.len()
            invariant
                i <= other@.len(),
                self@ =~= old(self)@ + other@.take(i as int),
            decreases other@.len() - i,
        {
            let name = other.0[i].0.clone();
            let index = other.0[i].1;
            let ghost prev = self@;
            proof {
                assert(other@[i as int] == (name@, index));
            }
            self.0.push((name, index));
            proof {
                assert(self@ =~= prev + seq![(name@, index)]);
                assert(other@.take(i + 1) =~= other@.take(i as int) + seq![other@[i as int]]);
            }
            i = i + 1;
        }
        proof {
            assert(other@.take(other@.len() as int) =~= other@);
        }
    }

    /// Shift every bound index up by `offset`; the labels stay.
    pub fn offset(self, offset: usize) -> (r: Self)
        requires
            forall|i: int| 0 <= i < self@.len() ==> (#[trigger] self@[i]).1 + offset <= usize::MAX,
        ensures
            r@.len() == self@.len(),
            forall|i: int|
                0 <= i < self@.len() ==> (#[trigger] r@[i])
                    == (self@[i].0, (self@[i].1 + offset) as usize),
    {
        let mut out: Vec<(String, usize)> = Vec::new();
        let mut i: usize = 0;
        while i < self.0.len()
            invariant
                i <= self@.len(),
                out@.len() == i,
                forall|k: int|
                    0 <= k < i ==> ((#[trigger] out@[k]).0@, out@[k].1)
                        == (self@[k].0, (self@[k].1 + offset) as usize),
            decreases self@.len() - i,
        {
            let name = self.0[i].0.clone();
            let index = self.0[i].1;
            proof {
                assert(self@[i as int] == (self.0@[i as int].0@, self.0@[i as int].1));
            }
            out.push((name, index + offset));
            i = i + 1;
        }
        GroupName(out)
    }

    /// The indices bound to `name`, in order of appearance.
    pub fn get_left(&self, name: &String) -> (r: Vec<usize>)
        ensures
            r@ == spec_indexes_of(self@, name@),
    {
        let mut out: Vec<usize> = Vec::new();
        let mut i: usize = 0;
        proof {
            assert(self@.take(0) =~= Seq::<(Seq<char>, usize)>::empty());
        }
        while i < self.0.len()
            invariant
                i <= self@.len(),
                out@ == spec_indexes_of(self@.take(i as int), name@),
            decreases self@.len() - i,
        {
            proof {
                assert(self@[i as int] == (self.0@[i as int].0@, self.0@[i as int].1));
                assert(self@.take(i + 1) =~= self@.take(i as int).push(self@[i as int]));
                lemma_indexes_of_push(self@.take(i as int), self@[i as int], name@);
            }
            if self.0[i].0 == *name {
                out.push(self.0[i].1);
                proof {
                    assert(out@ =~= spec_indexes_of(self@.take(i + 1), name@));
                }
            } else {
                proof {
                    assert(out@ =~= spec_indexes_of(self@.take(i + 1), name@));
                }
            }
            i = i + 1;
        }
        proof {
            assert(self@.take(self@.len() as int) =~= self@);
        }
        out
    }

    /// Whether `name` is bound at all.
    pub fn has_name(&self, name: &String) -> (r: bool)
        ensures
            r == spec_has_name(self@, name@),
    {
        let mut i: usize = 0;
        while i < self.0.len()
            invariant
                i <= self@.len(),
                forall|k: int| 0 <= k < i ==> (#[trigger] self@[k]).0 != name@,
            decreases self@.len() - i,
        {
            proof {
                assert(self@[i as int] == (self.0@[i as int].0@, self.0@[i as int].1));
            }
            if self.0[i].0 == *name {
                return true;
            }
            i = i + 1;
        }
        false
    }

    /// Rename every label by putting `prefix` and an underscore in front
    /// of it; the bound indices stay.
    pub fn prefix_names(&self, prefix: &String) -> (r: Self)
        ensures
            r@.len() == self@.len(),
            forall|i: int|
                0 <= i < self@.len() ==> (#[trigger] r@[i])
                    == (prefix@ + "_"@ + self@[i].0, self@[i].1),
    {
        let mut out: Vec<(String, usize)> = Vec::new();
        let mut i: usize = 0;
        while i < self.0.len()
            invariant
                i <= self@.len(),
                out@.len() == i,
                forall|k: int|
                    0 <= k < i ==> ((#[trigger] out@[k]).0@, out@[k].1)
                        == (prefix@ + "_"@ + self@[k].0, self@[k].1),
            decreases self@.len() - i,
        {
            proof {
                assert(self@[i as int] == (self.0@[i as int].0@, self.0@[i as int].1));
            }
            let renamed = prefix.clone().concat("_").concat(self.0[i].0.as_str());
            out.push((renamed, self.0[i].1));
            i = i + 1;
        }
        GroupName(out)
    }
}

/// An identifier map is well-formed when no name is bound twice.
pub open spec fn id_map_wf(s: Seq<(Seq<char>, usize)>) -> bool {
    forall|i: int, j: int|
        0 <= i < s.len() && 0 <= j < s.len() && i != j
            ==> (#[trigger] s[i]).0 != (#[trigger] s[j]).0
}

/// An injective partial mapping from string identifiers to atom sparse
/// indices.
#[derive(Debug, Clone, PartialEq)]
pub struct IdMap(pub Vec<(String, usize)>);

impl View for IdMap {
    type V = Seq<(Seq<char>, usize)>;

    open spec fn view(&self) -> Seq<(Seq<char>, usize)> {
        self.0@.map_values(|p: (String, usize)| (p.0@, p.1))
    }
}

impl Default for IdMap {
    /// The empty mapping.
    fn default() -> (r: Self)
        ensures
            r@ =~= Seq::<(Seq<char>, usize)>::empty(),
            id_map_wf(r@),
    {
        IdMap(Vec::new())
    }
}

impl IdMap {
    /// The index bound to `name`, if any.
    pub fn get(&self, name: &String) -> (r: Option<usize>)
        ensures
            r is Some <==> spec_has_name(self@, name@),
            match r {
                Some(v) => spec_has_pair(self@, name@, v),
                None => true,
            },
    {
        let mut i: usize = 0;
        while i < self.0.len()
            invariant
                i <= self@.len(),
                forall|k: int| 0 <= k < i ==> (#[trigger] self@[k]).0 != name@,
            decreases self@.len() - i,
        {
            proof {
                assert(self@[i as int] == (self.0@[i as int].0@, self.0@[i as int].1));
            }
            if self.0[i].0 == *name {
                return Some(self.0[i].1);
            }
            i = i + 1;
        }
        None
    }

    /// Bind `name` to `index`, replacing any earlier binding of the same
    /// name.
    pub fn insert(&mut self, name: String, index: usize)
        requires
            id_map_wf(old(self)@),
        ensures
            id_map_wf(final(self)@),
            final(self)@ == spec_insert_pair(old(self)@, name@, index),
    {
        let ghost nv = name@;
        let mut i: usize = 0;
        while i < self.0.len()
            invariant
                i <= self@.len(),
                self@ == old(self)@,
                forall|k: int| 0 <= k < i ==> (#[trigger] self@[k]).0 != nv,
            decreases self@.len() - i,
        {
            proof {
                assert(self@[i as int] == (self.0@[i as int].0@, self.0@[i as int].1));
            }
            if self.0[i].0 == name {
                self.0.set(i, (name, index));
                proof {
                    let s = self@;
                    assert(forall|k: int|
                        0 <= k < s.len() ==> #[trigger] s[k] == (
                            if k == i {
                                (nv, index)
                            } else {
                                old(self)@[k]
                            }
                        ));
                    assert(spec_has_name(old(self)@, nv)) by {
                        assert(old(self)@[i as int].0 == nv);
                    }
                    assert(s =~= spec_insert_pair(old(self)@, nv, index)) by {
                        let mapped = old(self)@.map_values(
                            |p: (Seq<char>, usize)|
                                if p.0 == nv {
                                    (nv, index)
                                } else {
                                    p
                                },
                        );
                        assert forall|k: int| 0 <= k < s.len() implies s[k] == mapped[k] by {
                            if k != i {
                                assert(old(self)@[k].0 != nv);
                            }
                        }
                    }
                }
                return;
            }
            i = i + 1;
        }
        let ghost before = self@;
        self.0.push((name, index));
        proof {
            assert(!spec_has_name(before, nv));
            assert(self@ =~= before.push((nv, index)));
            assert(id_map_wf(self@)) by {
                let s = self@;
                assert forall|x: int, y: int|
                    0 <= x < s.len() && 0 <= y < s.len() && x != y
                    implies (#[trigger] s[x]).0 != (#[trigger] s[y]).0 by {
                    if x < s.len() - 1 && y < s.len() - 1 {
                        assert(s[x] == before[x] && s[y] == before[y]);
                    } else {
                        let small = if x < y {
                            x
                        } else {
                            y
                        };
                        assert(s[small] == before[small]);
                        if s[small].0 == nv {
                            assert(before[small].0 == nv);
                        }
                    }
                }
            }
        }
    }

    /// Shift every bound index up by `offset`; the names stay.
    pub fn offset(self, offset: usize) -> (r: Self)
        requires
            forall|i: int| 0 <= i < self@.len() ==> (#[trigger] self@[i]).1 + offset <= usize::MAX,
        ensures
            r@.len() == self@.len(),
            forall|i: int|
                0 <= i < self@.len() ==> (#[trigger] r@[i])
                    == (self@[i].0, (self@[i].1 + offset) as usize),
    {
        let mut out: Vec<(String, usize)> = Vec::new();
        let mut i: usize = 0;
        while i < self.0.len()
            invariant
                i <= self@.len(),
                out@.len() == i,
                forall|k: int|
                    0 <= k < i ==> ((#[trigger] out@[k]).0@, out@[k].1)
                        == (self@[k].0, (self@[k].1 + offset) as usize),
            decreases self@.len() - i,
        {
            let name = self.0[i].0.clone();
            let index = self.0[i].1;
            proof {
                assert(self@[i as int] == (self.0@[i as int].0@, self.0@[i as int].1));
            }
            out.push((name, index + offset));
            i = i + 1;
        }
        IdMap(out)
    }

}


/// The value bound to `name` (meaningful only under `id_map_wf` and
/// when the name is bound).
pub open spec fn spec_lookup(s: Seq<(Seq<char>, usize)>, name: Seq<char>) -> usize {
    let i = choose|i: int| 0 <= i < s.len() && (#[trigger] s[i]).0 == name;
    s[i].1
}

/// Under well-formedness, every bound pair agrees with the lookup.
pub proof fn lemma_lookup_unique(s: Seq<(Seq<char>, usize)>, name: Seq<char>, v: usize)
    requires
        id_map_wf(s),
        spec_has_pair(s, name, v),
    ensures
        spec_lookup(s, name) == v,
{
    let i = choose|i: int| 0 <= i < s.len() && #[trigger] s[i] == (name, v);
    assert(s[i].0 == name);
    let j = choose|j: int| 0 <= j < s.len() && (#[trigger] s[j]).0 == name;
    assert(i == j);
}

/// Binding a name in an identifier map as a sequence of pairs: where
/// the name is already bound its value is replaced in place, otherwise
/// the pair is appended.
pub open spec fn spec_insert_pair(
    s: Seq<(Seq<char>, usize)>,
    n: Seq<char>,
    v: usize,
) -> Seq<(Seq<char>, usize)> {
    if spec_has_name(s, n) {
        s.map_values(
            |p: (Seq<char>, usize)|
                if p.0 == n {
                    (n, v)
                } else {
                    p
                },
        )
    } else {
        s.push((n, v))
    }
}

/// The merge of two identifier maps as a sequence of pairs: the pairs
/// of `a` in order, each value overridden by `b` where `b` binds the
/// same name, followed by the pairs of `b` whose names `a` does not
/// bind, in order.
pub open spec fn spec_merged_ids(
    a: Seq<(Seq<char>, usize)>,
    b: Seq<(Seq<char>, usize)>,
) -> Seq<(Seq<char>, usize)> {
    a.map_values(
        |p: (Seq<char>, usize)|
            (
                p.0,
                if spec_has_name(b, p.0) {
                    spec_lookup(b, p.0)
                } else {
                    p.1
                },
            ),
    ) + b.filter(|p: (Seq<char>, usize)| !spec_has_name(a, p.0))
}

/// Filtering distributes over appending one element.
pub proof fn lemma_filter_push<T>(s: Seq<T>, p: spec_fn(T) -> bool, x: T)
    ensures
        s.push(x).filter(p) == s.filter(p) + (
            if p(x) {
                seq![x]
            } else {
                Seq::<T>::empty()
            }
        ),
    decreases s.len(),
{
    reveal(Seq::filter);
    if s.len() == 0 {
        assert(s.push(x).drop_last() =~= s);
        assert(s.push(x).last() == x);
        if p(x) {
            assert(s.filter(p) + seq![x] =~= seq![x]);
            assert(s.push(x).filter(p) =~= seq![x]);
        } else {
            assert(s.filter(p) + Seq::<T>::empty() =~= Seq::<T>::empty());
            assert(s.push(x).filter(p) =~= Seq::<T>::empty());
        }
    } else {
        assert(s.push(x).drop_last() =~= s);
        assert(s.push(x).last() == x);
        if p(x) {
            assert(s.push(x).filter(p) =~= s.filter(p) + seq![x]);
        } else {
            assert(s.push(x).filter(p) =~= s.filter(p) + Seq::<T>::empty());
        }
    }
}

/// Filtering a duplicate-free sequence yields a duplicate-free
/// sequence.
pub proof fn lemma_filter_no_dup<T>(s: Seq<T>, p: spec_fn(T) -> bool)
    requires
        s.no_duplicates(),
    ensures
        s.filter(p).no_duplicates(),
    decreases s.len(),
{
    reveal(Seq::filter);
    if s.len() > 0 {
        assert(s.drop_last().no_duplicates());
        lemma_filter_no_dup(s.drop_last(), p);
        if p(s.last()) {
            assert(s.filter(p) == s.drop_last().filter(p).push(s.last()));
            if s.drop_last().filter(p).contains(s.last()) {
                s.drop_last().lemma_filter_contains_rev(p, s.last());
                let w = choose|w: int|
                    0 <= w < s.drop_last().len() && #[trigger] s.drop_last()[w] == s.last();
                assert(s[w] == s[s.len() - 1]);
                assert(false);
            }
            assert forall|x: int, y: int|
                0 <= x < s.filter(p).len() && 0 <= y < s.filter(p).len() && x != y
                implies s.filter(p)[x] != s.filter(p)[y] by {
                let f = s.filter(p);
                let g = s.drop_last().filter(p);
                if x < f.len() - 1 && y < f.len() - 1 {
                    assert(f[x] == g[x] && f[y] == g[y]);
                } else {
                    let (small, big) = if x < y {
                        (x, y)
                    } else {
                        (y, x)
                    };
                    assert(f[big] == s.last());
                    assert(f[small] == g[small]);
                    assert(g.contains(g[small]));
                    if f[small] == s.last() {
                        assert(g.contains(s.last()));
                        assert(false);
                    }
                }
            }
        }
    }
}

impl IdMap {
    /// Whether `name` is bound.
    pub fn has_name(&self, name: &String) -> (r: bool)
        ensures
            r == spec_has_name(self@, name@),
    {
        let mut i: usize = 0;
        while i < self.0.len()
            invariant
                i <= self@.len(),
                forall|k: int| 0 <= k < i ==> (#[trigger] self@[k]).0 != name@,
            decreases self@.len() - i,
        {
            proof {
                assert(self@[i as int] == (self.0@[i as int].0@, self.0@[i as int].1));
            }
            if self.0[i].0 == *name {
                return true;
            }
            i = i + 1;
        }
        false
    }

    /// The merge of `self` and `other`, `other` winning per name, as a
    /// fresh map.
    pub fn merged(&self, other: &IdMap) -> (r: IdMap)
        requires
            id_map_wf(self@),
            id_map_wf(other@),
        ensures
            id_map_wf(r@),
            r@ == spec_merged_ids(self@, other@),
            forall|i: int|
                0 <= i < r@.len() ==> spec_has_pair(self@, (#[trigger] r@[i]).0, r@[i].1)
                    || spec_has_pair(other@, r@[i].0, r@[i].1),
    {
        let ghost av = self@;
        let ghost bv = other@;
        let ghost part1 = av.map_values(
            |p: (Seq<char>, usize)|
                (
                    p.0,
                    if spec_has_name(bv, p.0) {
                        spec_lookup(bv, p.0)
                    } else {
                        p.1
                    },
                ),
        );
        let ghost keep = |p: (Seq<char>, usize)| !spec_has_name(av, p.0);
        let mut out: Vec<(String, usize)> = Vec::new();
        let mut i: usize = 0;
        while i < self.0.len()
            invariant
                i <= av.len(),
                out@.len() == i,
                forall|k: int|
                    0 <= k < i ==> ((#[trigger] out@[k]).0@, out@[k].1) == part1[k],
            decreases av.len() - i,
        {
            proof {
                assert(av[i as int] == (self.0@[i as int].0@, self.0@[i as int].1));
            }
            let name = self.0[i].0.clone();
            let value = match other.get(&name) {
                Some(v) => {
                    proof {
                        lemma_lookup_unique(bv, name@, v);
                    }
                    v
                },
                None => self.0[i].1,
            };
            out.push((name, value));
            i = i + 1;
        }
        let mut j: usize = 0;
        proof {
            assert(bv.take(0) =~= Seq::<(Seq<char>, usize)>::empty());
            assert(bv.take(0).filter(keep) =~= Seq::<(Seq<char>, usize)>::empty()) by {
                reveal(Seq::filter);
            }
        }
        while j < other.0.len()
            invariant
                j <= bv.len(),
                out@.len() >= av.len(),
                forall|k: int|
                    0 <= k < av.len() ==> ((#[trigger] out@[k]).0@, out@[k].1) == part1[k],
                out@.map_values(|p: (String, usize)| (p.0@, p.1)).skip(av.len() as int)
                    == bv.take(j as int).filter(keep),
            decreases bv.len() - j,
        {
            proof {
                assert(bv[j as int] == (other.0@[j as int].0@, other.0@[j as int].1));
            }
            let name = other.0[j].0.clone();
            let ghost before = out@.map_values(|p: (String, usize)| (p.0@, p.1));
            if !self.has_name(&name) {
                let value = other.0[j].1;
                out.push((name, value));
            }
            proof {
                let after = out@.map_values(|p: (String, usize)| (p.0@, p.1));
                lemma_filter_push(bv.take(j as int), keep, bv[j as int]);
                assert(bv.take(j + 1) =~= bv.take(j as int).push(bv[j as int]));
                if keep(bv[j as int]) {
                    assert(after =~= before.push((bv[j as int].0, bv[j as int].1)));
                    assert(after.skip(av.len() as int)
                        =~= before.skip(av.len() as int).push(bv[j as int]));
                    assert(before.skip(av.len() as int).push(bv[j as int])
                        =~= bv.take(j as int).filter(keep) + seq![bv[j as int]]);
                } else {
                    assert(after.skip(av.len() as int)
                        =~= bv.take(j as int).filter(keep));
                }
            }
            j = j + 1;
        }
        let r = IdMap(out);
        proof {
            assert(bv.take(bv.len() as int) =~= bv);
            let rv = r@;
            assert(rv.skip(av.len() as int) == bv.filter(keep));
            assert(rv =~= part1 + bv.filter(keep)) by {
                assert(forall|k: int|
                    0 <= k < av.len() ==> rv[k] == part1[k]);
                assert(forall|k: int|
                    av.len() <= k < rv.len()
                        ==> rv[k] == rv.skip(av.len() as int)[k - av.len()]);
            }
            assert forall|i2: int|
                0 <= i2 < rv.len() implies spec_has_pair(av, (#[trigger] rv[i2]).0, rv[i2].1)
                || spec_has_pair(bv, rv[i2].0, rv[i2].1) by {
                if i2 < av.len() {
                    let p = av[i2];
                    assert(rv[i2] == part1[i2]);
                    if spec_has_name(bv, p.0) {
                        let w = choose|w: int| 0 <= w < bv.len() && (#[trigger] bv[w]).0 == p.0;
                        lemma_lookup_unique(bv, p.0, bv[w].1);
                        assert(bv[w] == (p.0, bv[w].1));
                        assert(spec_has_pair(bv, rv[i2].0, rv[i2].1));
                    } else {
                        assert(av[i2] == (p.0, p.1));
                        assert(spec_has_pair(av, rv[i2].0, rv[i2].1));
                    }
                } else {
                    let f = bv.filter(keep);
                    assert(rv[i2] == f[i2 - av.len()]);
                    assert(f.contains(f[i2 - av.len()]));
                    bv.lemma_filter_contains_rev(keep, f[i2 - av.len()]);
                    assert(bv.contains(f[i2 - av.len()]));
                    let w = choose|w: int| 0 <= w < bv.len() && #[trigger] bv[w] == f[i2 - av.len()];
                    assert(bv[w] == (rv[i2].0, rv[i2].1));
                    assert(spec_has_pair(bv, rv[i2].0, rv[i2].1));
                }
            }
            assert(id_map_wf(rv)) by {
                assert forall|x: int, y: int|
                    0 <= x < rv.len() && 0 <= y < rv.len() && x != y
                    implies (#[trigger] rv[x]).0 != (#[trigger] rv[y]).0 by {
                    let f = bv.filter(keep);
                    if x < av.len() && y < av.len() {
                        assert(rv[x].0 == av[x].0 && rv[y].0 == av[y].0);
                    } else if x >= av.len() && y >= av.len() {
                        assert(rv[x] == f[x - av.len()] && rv[y] == f[y - av.len()]);
                        if rv[x].0 == rv[y].0 {
                            assert(f.contains(f[x - av.len()]));
                            assert(f.contains(f[y - av.len()]));
                            bv.lemma_filter_contains_rev(keep, f[x - av.len()]);
                            bv.lemma_filter_contains_rev(keep, f[y - av.len()]);
                            let wx = choose|w: int|
                                0 <= w < bv.len() && #[trigger] bv[w] == f[x - av.len()];
                            let wy = choose|w: int|
                                0 <= w < bv.len() && #[trigger] bv[w] == f[y - av.len()];
                            assert(bv[wx].0 == bv[wy].0);
                            assert(wx == wy);
                            assert(f[x - av.len()] == f[y - av.len()]);
                            assert(bv.no_duplicates()) by {
                                assert(forall|q: int, w: int|
                                    0 <= q < bv.len() && 0 <= w < bv.len() && q != w
                                        ==> (#[trigger] bv[q]).0 != (#[trigger] bv[w]).0);
                            }
                            lemma_filter_no_dup(bv, keep);
                            assert(false);
                        }
                    } else {
                        let (ai, bi) = if x < av.len() {
                            (x, y)
                        } else {
                            (y, x)
                        };
                        assert(rv[ai].0 == av[ai].0);
                        let f2 = bv.filter(keep);
                        assert(rv[bi] == f2[bi - av.len()]);
                        assert(keep(f2[bi - av.len()]));
                        assert(spec_has_name(av, av[ai].0)) by {
                            assert(av[ai].0 == av[ai].0);
                        }
                    }
                }
            }
        }
        r
    }
}

} // verus!
