use vstd::prelude::*;

use crate::chemistry::{atom_valid, Atom3D};
use crate::group_name::{id_map_wf, spec_has_pair, spec_merged_ids, GroupName, IdMap};
use vstd::string::StrSliceExecFns;

verus! {

/// Reading a sparse list at any index: positions outside the list read
/// as holes.
pub open spec fn spec_read_atom(s: Seq<Option<Atom3D>>, i: int) -> Option<Atom3D> {
    if 0 <= i < s.len() {
        s[i]
    } else {
        None
    }
}

/// How many present-and-valid atoms stand strictly before `end`.
pub open spec fn count_valid(s: Seq<Option<Atom3D>>, end: int) -> nat
    decreases end,
{
    if end <= 0 {
        0
    } else {
        count_valid(s, end - 1) + if atom_valid(s[end - 1]) {
            1nat
        } else {
            0nat
        }
    }
}

/// Counting present-and-valid atoms is monotone in the prefix length.
pub proof fn lemma_count_valid_mono(s: Seq<Option<Atom3D>>, i: int, j: int)
    requires
        i <= j,
    ensures
        count_valid(s, i) <= count_valid(s, j),
    decreases j - i,
{
    if i < j {
        lemma_count_valid_mono(s, i, j - 1);
    }
}

/// Law: the continuous index determines the sparse index. Two
/// present-and-valid positions with the same number of present-and-valid
/// atoms before them are the same position. Together with the contracts
/// of `to_continuous_index` and `from_continuous_index` this yields the
/// round-trip identity
/// `from_continuous_index(to_continuous_index(i).unwrap()).unwrap() == i`
/// for every present-and-valid sparse index `i`.
pub proof fn lemma_continuous_round_trip(s: Seq<Option<Atom3D>>, i: int, j: int)
    requires
        0 <= i < s.len(),
        0 <= j < s.len(),
        atom_valid(s[i]),
        atom_valid(s[j]),
        count_valid(s, i) == count_valid(s, j),
    ensures
        i == j,
{
    if i < j {
        lemma_count_valid_mono(s, i + 1, j);
        assert(count_valid(s, i + 1) == count_valid(s, i) + 1);
    }
    if j < i {
        lemma_count_valid_mono(s, j + 1, i);
        assert(count_valid(s, j + 1) == count_valid(s, j) + 1);
    }
}

/// An index-stable, gap-tolerant vector of atoms. A slot holds either an
/// atom or a hole; the length is explicit and growing fills with holes.
/// The position of a slot (its sparse index) never changes once given.
#[derive(Debug, Clone, PartialEq)]
pub struct SparseAtomList(pub Vec<Option<Atom3D>>);

impl View for SparseAtomList {
    type V = Seq<Option<Atom3D>>;

    open spec fn view(&self) -> Seq<Option<Atom3D>> {
        self.0@
    }
}

impl Default for SparseAtomList {
    /// The empty list.
    fn default() -> (r: Self)
        ensures
            r@ =~= Seq::<Option<Atom3D>>::empty(),
    {
        SparseAtomList(Vec::new())
    }
}

impl SparseAtomList {
    /// A list of `capacity` holes.
    pub fn new(capacity: usize) -> (r: Self)
        ensures
            r@.len() == capacity,
            forall|i: int| 0 <= i < capacity ==> r@[i] is None,
    {
        let mut data: Vec<Option<Atom3D>> = Vec::new();
        let mut n: usize = 0;
        while n < capacity
            invariant
                n <= capacity,
                data@.len() == n,
                forall|i: int| 0 <= i < n ==> data@[i] is None,
            decreases capacity - n,
        {
            data.push(None);
            n = n + 1;
        }
        SparseAtomList(data)
    }

    pub fn len(&self) -> (r: usize)
        ensures
            r == self@.len(),
    {
        self.0.len()
    }

    /// Grow the list to at least `capacity` slots, filling with holes;
    /// a list already long enough is left unchanged.
    pub fn extend_to(&mut self, capacity: usize)
        ensures
            final(self)@.len() == vstd::math::max(old(self)@.len() as int, capacity as int),
            forall|i: int| 0 <= i < old(self)@.len() ==> final(self)@[i] == old(self)@[i],
            forall|i: int| old(self)@.len() <= i < final(self)@.len() ==> final(self)@[i] is None,
    {
        while self.0.len() < capacity
            invariant
                self@.len() >= old(self)@.len(),
                self@.len() <= vstd::math::max(old(self)@.len() as int, capacity as int),
                forall|i: int| 0 <= i < old(self)@.len() ==> self@[i] == old(self)@[i],
                forall|i: int| old(self)@.len() <= i < self@.len() ==> self@[i] is None,
            decreases capacity - self.0.len(),
        {
            self.0.push(None);
        }
    }

    /// Prepend `offset` holes, shifting every sparse index up by `offset`.
    pub fn offset(self, offset: usize) -> (r: Self)
        requires
            offset + self@.len() <= usize::MAX,
        ensures
            r@.len() == offset + self@.len(),
            forall|i: int| 0 <= i < offset ==> r@[i] is None,
            forall|i: int| 0 <= i < self@.len() ==> r@[offset + i] == self@[i],
    {
        let mut data: Vec<Option<Atom3D>> = Vec::new();
        let mut n: usize = 0;
        while n < offset
            invariant
                n <= offset,
                data@.len() == n,
                forall|i: int| 0 <= i < n ==> data@[i] is None,
            decreases offset - n,
        {
            data.push(None);
            n = n + 1;
        }
        let mut tail = self.0;
        let ghost tail_snap = tail@;
        data.append(&mut tail);
        assert(forall|i: int|
            0 <= i < tail_snap.len() ==> data@[offset + i] == tail_snap[i]);
        SparseAtomList(data)
    }

    /// Read the slot at a sparse index; anything outside the list is a
    /// hole.
    pub fn read_atom(&self, index: usize) -> (r: Option<Atom3D>)
        ensures
            r == spec_read_atom(self@, index as int),
    {
        if index < self.0.len() {
            self.0[index]
        } else {
            None
        }
    }

    /// Overwrite the slots `offset .. offset + atoms.len()` with the
    /// given slots, growing the list as required. Slots before and after
    /// the written range keep their value; sparse indices are stable.
    pub fn set_atoms(&mut self, offset: usize, atoms: Vec<Option<Atom3D>>)
        requires
            offset + atoms@.len() <= usize::MAX,
        ensures
            final(self)@.len() == vstd::math::max(
                old(self)@.len() as int,
                offset + atoms@.len(),
            ),
            forall|i: int|
                offset <= i < offset + atoms@.len() ==> final(self)@[i] == atoms@[i - offset],
            forall|i: int|
                0 <= i < final(self)@.len() && !(offset <= i < offset + atoms@.len())
                    ==> final(self)@[i] == spec_read_atom(old(self)@, i),
    {
        self.extend_to(offset + atoms.len());
        let mut idx: usize = 0;
        while idx < atoms.len()
            invariant
                idx <= atoms@.len(),
                offset + atoms@.len() <= self@.len(),
                self@.len() == vstd::math::max(old(self)@.len() as int, offset + atoms@.len()),
                forall|i: int| offset <= i < offset + idx ==> self@[i] == atoms@[i - offset],
                forall|i: int|
                    0 <= i < self@.len() && !(offset <= i < offset + idx)
                        ==> self@[i] == spec_read_atom(old(self)@, i),
            decreases atoms@.len() - idx,
        {
            let slot = atoms[idx];
            self.0.set(offset + idx, slot);
            idx = idx + 1;
        }
    }

    /// Merge `other` over `self`: the list grows to the longer of the
    /// two, and wherever `other` has a present atom it overwrites the
    /// slot, whether or not its element is valid. Holes in `other` leave
    /// `self` alone.
    pub fn migrate(&mut self, other: Self)
        ensures
            final(self)@.len() == vstd::math::max(old(self)@.len() as int, other@.len() as int),
            forall|i: int|
                0 <= i < final(self)@.len() ==> final(self)@[i] == (
                    if 0 <= i < other@.len() && other@[i] is Some {
                        other@[i]
                    } else {
                        spec_read_atom(old(self)@, i)
                    }
                ),
    {
        self.extend_to(other.0.len());
        let mut idx: usize = 0;
        while idx < other.0.len()
            invariant
                idx <= other@.len(),
                other@.len() <= self@.len(),
                self@.len() == vstd::math::max(old(self)@.len() as int, other@.len() as int),
                forall|i: int|
                    0 <= i < idx ==> self@[i] == (
                        if other@[i] is Some {
                            other@[i]
                        } else {
                            spec_read_atom(old(self)@, i)
                        }
                    ),
                forall|i: int|
                    idx <= i < self@.len() ==> self@[i] == spec_read_atom(old(self)@, i),
            decreases other@.len() - idx,
        {
            if other.0[idx].is_some() {
                let slot = other.0[idx];
                self.0.set(idx, slot);
            }
            idx = idx + 1;
        }
    }

    /// Law: merging the empty list into a list leaves it unchanged. The
    /// premises restate the contract of `migrate` for an empty `other`,
    /// so the value after `x.migrate(SparseAtomList::default())` is `x`.
    pub proof fn lemma_migrate_identity(s: Seq<Option<Atom3D>>, merged: Seq<Option<Atom3D>>)
        requires
            merged.len() == s.len(),
            forall|i: int| 0 <= i < merged.len() ==> merged[i] == spec_read_atom(s, i),
        ensures
            merged =~= s,
    {
    }

    /// Borrow the underlying slots.
    pub fn data(&self) -> (r: &Vec<Option<Atom3D>>)
        ensures
            r@ == self@,
    {
        &self.0
    }

    /// Replace the present-and-valid slots, in sparse order, with the
    /// atoms of `list`; every other slot keeps its value. Returns `None`
    /// when `list` holds fewer atoms than the list has present-and-valid
    /// slots.
    pub fn update_from_continuous_list(&self, list: &Vec<Atom3D>) -> (r: Option<Self>)
        ensures
            r is Some <==> count_valid(self@, self@.len() as int) <= list@.len(),
            match r {
                Some(updated) => {
                    &&& updated@.len() == self@.len()
                    &&& forall|i: int|
                        0 <= i < self@.len() ==> updated@[i] == (
                            if atom_valid(self@[i]) {
                                Some(list@[count_valid(self@, i) as int])
                            } else {
                                self@[i]
                            }
                        )
                },
                None => true,
            },
    {
        let mut out: Vec<Option<Atom3D>> = Vec::new();
        let mut taken: usize = 0;
        let mut idx: usize = 0;
        while idx < self.0.len()
            invariant
                idx <= self@.len(),
                out@.len() == idx,
                taken == count_valid(self@, idx as int),
                taken <= list@.len(),
                forall|i: int|
                    0 <= i < idx ==> out@[i] == (
                        if atom_valid(self@[i]) {
                            Some(list@[count_valid(self@, i) as int])
                        } else {
                            self@[i]
                        }
                    ),
            decreases self@.len() - idx,
        {
            let slot = self.0[idx];
            let valid = match slot {
                Some(atom) => 1 <= atom.element && atom.element <= 118,
                None => false,
            };
            if valid {
                if taken >= list.len() {
                    proof {
                        lemma_count_valid_mono(self@, idx + 1, self@.len() as int);
                    }
                    return None;
                }
                out.push(Some(list[taken]));
                taken = taken + 1;
            } else {
                out.push(slot);
            }
            idx = idx + 1;
        }
        Some(SparseAtomList(out))
    }

    /// The continuous index of a sparse index: `Some(k)` exactly when the
    /// slot holds a present-and-valid atom, where `k` counts the
    /// present-and-valid atoms standing before it.
    pub fn to_continuous_index(&self, index: usize) -> (r: Option<usize>)
        ensures
            r is Some <==> atom_valid(spec_read_atom(self@, index as int)),
            match r {
                Some(k) => k == count_valid(self@, index as int),
                None => true,
            },
    {
        let here = self.read_atom(index);
        let valid = match here {
            Some(atom) => 1 <= atom.element && atom.element <= 118,
            None => false,
        };
        if !valid {
            return None;
        }
        let mut count: usize = 0;
        let mut idx: usize = 0;
        while idx < index
            invariant
                idx <= index,
                index < self@.len(),
                count == count_valid(self@, idx as int),
                count <= idx,
            decreases index - idx,
        {
            let slot = self.0[idx];
            let slot_valid = match slot {
                Some(atom) => 1 <= atom.element && atom.element <= 118,
                None => false,
            };
            if slot_valid {
                count = count + 1;
            }
            idx = idx + 1;
        }
        Some(count)
    }

    /// The sparse index of the `index`-th present-and-valid atom, in
    /// sparse order: `Some` exactly when at least `index + 1` slots hold
    /// present-and-valid atoms.
    pub fn from_continuous_index(&self, index: usize) -> (r: Option<usize>)
        ensures
            r is Some <==> index < count_valid(self@, self@.len() as int),
            match r {
                Some(j) => {
                    &&& j < self@.len()
                    &&& atom_valid(self@[j as int])
                    &&& count_valid(self@, j as int) == index
                },
                None => true,
            },
    {
        let mut count: usize = 0;
        let mut idx: usize = 0;
        while idx < self.0.len()
            invariant
                idx <= self@.len(),
                count == count_valid(self@, idx as int),
                count <= index,
            decreases self@.len() - idx,
        {
            let slot = self.0[idx];
            let slot_valid = match slot {
                Some(atom) => 1 <= atom.element && atom.element <= 118,
                None => false,
            };
            if slot_valid {
                if count == index {
                    proof {
                        lemma_count_valid_mono(self@, idx + 1, self@.len() as int);
                    }
                    return Some(idx);
                }
                count = count + 1;
            }
            idx = idx + 1;
        }
        None
    }
}


/// Reading a bond matrix at any pair of indices: pairs outside the
/// matrix read as undeclared.
pub open spec fn spec_read_bond(m: Seq<Seq<Option<u64>>>, a: int, b: int) -> Option<u64> {
    if 0 <= a < m.len() && 0 <= b < m.len() && m[a].len() == m.len() {
        m[a][b]
    } else {
        None
    }
}

/// A well-formed bond matrix is square and symmetric.
pub open spec fn bond_matrix_wf(m: Seq<Seq<Option<u64>>>) -> bool {
    &&& forall|i: int| 0 <= i < m.len() ==> (#[trigger] m[i]).len() == m.len()
    &&& forall|a: int, b: int|
        0 <= a < m.len() && 0 <= b < m.len() ==> #[trigger] m[a][b] == m[b][a]
}

/// A bond order of exactly zero declares the absence of a bond. Orders
/// are carried as 64-bit words; both words that numerically mean zero
/// count as zero.
pub open spec fn spec_zero_order(w: u64) -> bool {
    w == 0u64 || w == 0x8000000000000000u64
}

/// Whether a bond order word means zero.
pub fn zero_order(w: u64) -> (r: bool)
    ensures
        r == spec_zero_order(w),
{
    w == 0u64 || w == 0x8000000000000000u64
}

/// The triples `(continuous index of row, continuous index of column,
/// order)` harvested from the upper triangle of the matrix in row-major
/// order, keeping only pairs whose two atoms are present and valid and
/// whose declared order is not zero.
pub open spec fn spec_continuous_bonds(
    m: Seq<Seq<Option<u64>>>,
    s: Seq<Option<Atom3D>>,
    row: int,
    col: int,
) -> Seq<(usize, usize, u64)>
    decreases m.len() - row, m.len() - col + 1,
{
    if row < 0 || col < row || row >= m.len() {
        Seq::empty()
    } else if col >= m.len() {
        spec_continuous_bonds(m, s, row + 1, row + 1)
    } else {
        let rest = spec_continuous_bonds(m, s, row, col + 1);
        match spec_read_bond(m, row, col) {
            Some(w) => {
                if atom_valid(spec_read_atom(s, row)) && atom_valid(spec_read_atom(s, col))
                    && !spec_zero_order(w) {
                    seq![
                        (count_valid(s, row) as usize, count_valid(s, col) as usize, w),
                    ] + rest
                } else {
                    rest
                }
            },
            None => rest,
        }
    }
}

/// An index-stable, symmetric matrix of optional bond orders. `None`
/// means no bond declared; a zero order means a bond declared absent; a
/// non-zero order is a present bond. Extending the matrix pads with
/// `None`.
#[derive(Debug, Clone, PartialEq)]
pub struct SparseBondMatrix(pub Vec<Vec<Option<u64>>>);

impl View for SparseBondMatrix {
    type V = Seq<Seq<Option<u64>>>;

    open spec fn view(&self) -> Seq<Seq<Option<u64>>> {
        self.0@.map_values(|row: Vec<Option<u64>>| row@)
    }
}

impl Default for SparseBondMatrix {
    /// The empty matrix.
    fn default() -> (r: Self)
        ensures
            r@ =~= Seq::<Seq<Option<u64>>>::empty(),
            bond_matrix_wf(r@),
    {
        SparseBondMatrix(Vec::new())
    }
}

impl SparseBondMatrix {
    /// A square matrix with every slot holding the given value.
    fn filled_with(capacity: usize, value: Option<u64>) -> (r: Self)
        ensures
            r@.len() == capacity,
            bond_matrix_wf(r@),
            forall|a: int, b: int|
                0 <= a < capacity && 0 <= b < capacity ==> spec_read_bond(r@, a, b) == value,
    {
        let mut rows: Vec<Vec<Option<u64>>> = Vec::new();
        let mut i: usize = 0;
        while i < capacity
            invariant
                i <= capacity,
                rows@.len() == i,
                forall|a: int| 0 <= a < i ==> (#[trigger] rows@[a])@.len() == capacity,
                forall|a: int, b: int|
                    0 <= a < i && 0 <= b < capacity ==> (#[trigger] rows@[a]@[b]) == value,
            decreases capacity - i,
        {
            let mut row: Vec<Option<u64>> = Vec::new();
            let mut j: usize = 0;
            while j < capacity
                invariant
                    j <= capacity,
                    row@.len() == j,
                    forall|b: int| 0 <= b < j ==> row@[b] == value,
                decreases capacity - j,
            {
                row.push(value);
                j = j + 1;
            }
            rows.push(row);
            i = i + 1;
        }
        SparseBondMatrix(rows)
    }

    /// A matrix of `capacity` atoms with no bond declared anywhere.
    pub fn new(capacity: usize) -> (r: Self)
        ensures
            r@.len() == capacity,
            bond_matrix_wf(r@),
            forall|a: int, b: int|
                0 <= a < capacity && 0 <= b < capacity ==> spec_read_bond(r@, a, b) is None,
    {
        Self::filled_with(capacity, None)
    }

    /// A matrix of `capacity` atoms with every bond declared absent.
    pub fn new_filled(capacity: usize) -> (r: Self)
        ensures
            r@.len() == capacity,
            bond_matrix_wf(r@),
            forall|a: int, b: int|
                0 <= a < capacity && 0 <= b < capacity
                    ==> spec_read_bond(r@, a, b) == Some(0u64),
    {
        Self::filled_with(capacity, Some(0u64))
    }

    pub fn len(&self) -> (r: usize)
        ensures
            r == self@.len(),
    {
        self.0.len()
    }

    /// Read the declared order between two atoms; any pair outside the
    /// matrix reads as undeclared.
    pub fn read_bond(&self, a: usize, b: usize) -> (r: Option<u64>)
        requires
            bond_matrix_wf(self@),
        ensures
            r == spec_read_bond(self@, a as int, b as int),
    {
        if a < self.0.len() && b < self.0.len() {
            self.0[a][b]
        } else {
            None
        }
    }

    /// Law: reading a bond is symmetric in its two indices.
    pub proof fn lemma_read_bond_symmetric(m: Seq<Seq<Option<u64>>>, a: int, b: int)
        requires
            bond_matrix_wf(m),
        ensures
            spec_read_bond(m, a, b) == spec_read_bond(m, b, a),
    {
    }

    /// The whole row of declared orders around one atom, or `None` when
    /// the atom is outside the matrix.
    pub fn get_neighbors(&self, center: usize) -> (r: Option<Vec<Option<u64>>>)
        requires
            bond_matrix_wf(self@),
        ensures
            r is Some <==> center < self@.len(),
            match r {
                Some(row) => row@ == self@[center as int],
                None => true,
            },
    {
        if center < self.0.len() {
            let source = &self.0[center];
            let mut row: Vec<Option<u64>> = Vec::new();
            let mut j: usize = 0;
            while j < source.len()
                invariant
                    j <= source@.len(),
                    row@.len() == j,
                    forall|b: int| 0 <= b < j ==> row@[b] == source@[b],
                decreases source@.len() - j,
            {
                row.push(source[j]);
                j = j + 1;
            }
            assert(row@ =~= self@[center as int]);
            Some(row)
        } else {
            None
        }
    }

    /// Rebuild the matrix with at least `capacity` atoms, padding new
    /// pairs with `None` and keeping every declared order.
    pub fn extend_to(&mut self, capacity: usize)
        requires
            bond_matrix_wf(old(self)@),
        ensures
            bond_matrix_wf(final(self)@),
            final(self)@.len() == vstd::math::max(old(self)@.len() as int, capacity as int),
            forall|a: int, b: int|
                spec_read_bond(final(self)@, a, b) == spec_read_bond(old(self)@, a, b),
    {
        if self.0.len() >= capacity {
            return;
        }
        let mut rows: Vec<Vec<Option<u64>>> = Vec::new();
        let mut i: usize = 0;
        while i < capacity
            invariant
                i <= capacity,
                capacity > old(self)@.len(),
                self@ == old(self)@,
                rows@.len() == i,
                forall|a: int| 0 <= a < i ==> (#[trigger] rows@[a])@.len() == capacity,
                forall|a: int, b: int|
                    0 <= a < i && 0 <= b < capacity
                        ==> (#[trigger] rows@[a]@[b]) == spec_read_bond(old(self)@, a, b),
            decreases capacity - i,
        {
            let mut row: Vec<Option<u64>> = Vec::new();
            let mut j: usize = 0;
            while j < capacity
                invariant
                    j <= capacity,
                    row@.len() == j,
                    forall|b: int| 0 <= b < j ==> row@[b] == spec_read_bond(old(self)@, i as int, b),
                decreases capacity - j,
            {
                row.push(self.read_bond(i, j));
                j = j + 1;
            }
            rows.push(row);
            i = i + 1;
        }
        self.0 = rows;
    }

    /// Prepend `offset` undeclared atoms: the matrix grows by `offset`
    /// and every declared order moves up by `offset` in both indices.
    /// Every pair with an index below `offset` reads as undeclared.
    pub fn offset(self, offset: usize) -> (r: Self)
        requires
            bond_matrix_wf(self@),
            offset + self@.len() <= usize::MAX,
        ensures
            bond_matrix_wf(r@),
            r@.len() == offset + self@.len(),
            forall|a: int, b: int|
                0 <= a < r@.len() && 0 <= b < r@.len() ==> spec_read_bond(r@, a, b) == (
                    if offset <= a && offset <= b {
                        spec_read_bond(self@, a - offset, b - offset)
                    } else {
                        None
                    }
                ),
    {
        let capacity = offset + self.0.len();
        let mut rows: Vec<Vec<Option<u64>>> = Vec::new();
        let mut i: usize = 0;
        while i < capacity
            invariant
                i <= capacity,
                capacity == offset + self@.len(),
                rows@.len() == i,
                forall|a: int| 0 <= a < i ==> (#[trigger] rows@[a])@.len() == capacity,
                forall|a: int, b: int|
                    0 <= a < i && 0 <= b < capacity ==> (#[trigger] rows@[a]@[b]) == (
                        if offset <= a && offset <= b {
                            spec_read_bond(self@, a - offset, b - offset)
                        } else {
                            None
                        }
                    ),
            decreases capacity - i,
        {
            let mut row: Vec<Option<u64>> = Vec::new();
            let mut j: usize = 0;
            while j < capacity
                invariant
                    j <= capacity,
                    row@.len() == j,
                    forall|b: int| 0 <= b < j ==> row@[b] == (
                        if offset <= i && offset <= b {
                            spec_read_bond(self@, i - offset, b - offset)
                        } else {
                            None
                        }
                    ),
                decreases capacity - j,
            {
                let value = if offset <= i && offset <= j {
                    self.read_bond(i - offset, j - offset)
                } else {
                    None
                };
                row.push(value);
                j = j + 1;
            }
            rows.push(row);
            i = i + 1;
        }
        SparseBondMatrix(rows)
    }

    /// Declare the order between two atoms, in both directions, growing
    /// the matrix so that both indices fit.
    #[verifier::rlimit(50)]
    pub fn set_bond(&mut self, a: usize, b: usize, order: Option<u64>)
        requires
            bond_matrix_wf(old(self)@),
            vstd::math::max(a as int, b as int) + 1 <= usize::MAX,
        ensures
            bond_matrix_wf(final(self)@),
            final(self)@.len() == vstd::math::max(
                old(self)@.len() as int,
                vstd::math::max(a as int, b as int) + 1,
            ),
            spec_read_bond(final(self)@, a as int, b as int) == order,
            spec_read_bond(final(self)@, b as int, a as int) == order,
            forall|x: int, y: int|
                !(x == a && y == b) && !(x == b && y == a)
                    ==> spec_read_bond(final(self)@, x, y) == spec_read_bond(old(self)@, x, y),
    {
        let needed = if a > b {
            a + 1
        } else {
            b + 1
        };
        let capacity = if self.0.len() > needed {
            self.0.len()
        } else {
            needed
        };
        let mut rows: Vec<Vec<Option<u64>>> = Vec::new();
        let mut i: usize = 0;
        while i < capacity
            invariant
                i <= capacity,
                self@ == old(self)@,
                capacity == vstd::math::max(
                    old(self)@.len() as int,
                    vstd::math::max(a as int, b as int) + 1,
                ),
                rows@.len() == i,
                forall|x: int| 0 <= x < i ==> (#[trigger] rows@[x])@.len() == capacity,
                forall|x: int, y: int|
                    0 <= x < i && 0 <= y < capacity ==> (#[trigger] rows@[x]@[y]) == (
                        if (x == a && y == b) || (x == b && y == a) {
                            order
                        } else {
                            spec_read_bond(old(self)@, x, y)
                        }
                    ),
            decreases capacity - i,
        {
            let mut row: Vec<Option<u64>> = Vec::new();
            let mut j: usize = 0;
            while j < capacity
                invariant
                    j <= capacity,
                    row@.len() == j,
                    forall|y: int| 0 <= y < j ==> row@[y] == (
                        if (i == a && y == b) || (i == b && y == a) {
                            order
                        } else {
                            spec_read_bond(old(self)@, i as int, y)
                        }
                    ),
                decreases capacity - j,
            {
                let value = if (i == a && j == b) || (i == b && j == a) {
                    order
                } else {
                    self.read_bond(i, j)
                };
                row.push(value);
                j = j + 1;
            }
            rows.push(row);
            i = i + 1;
        }
        self.0 = rows;
    }

    /// Merge `other` over `self` cell-wise: wherever `other` declares an
    /// order it overrides, and otherwise the old declaration stands. The
    /// matrix grows to the larger of the two sizes.
    pub fn migrate(&mut self, other: &Self)
        requires
            bond_matrix_wf(old(self)@),
            bond_matrix_wf(other@),
        ensures
            bond_matrix_wf(final(self)@),
            final(self)@.len() == vstd::math::max(old(self)@.len() as int, other@.len() as int),
            forall|a: int, b: int|
                0 <= a < final(self)@.len() && 0 <= b < final(self)@.len()
                    ==> spec_read_bond(final(self)@, a, b) == (
                    match spec_read_bond(other@, a, b) {
                        Some(w) => Some(w),
                        None => spec_read_bond(old(self)@, a, b),
                    }
                ),
    {
        let capacity = if self.0.len() > other.0.len() {
            self.0.len()
        } else {
            other.0.len()
        };
        let mut rows: Vec<Vec<Option<u64>>> = Vec::new();
        let mut i: usize = 0;
        while i < capacity
            invariant
                i <= capacity,
                self@ == old(self)@,
                capacity == vstd::math::max(old(self)@.len() as int, other@.len() as int),
                rows@.len() == i,
                forall|a: int| 0 <= a < i ==> (#[trigger] rows@[a])@.len() == capacity,
                forall|a: int, b: int|
                    0 <= a < i && 0 <= b < capacity ==> (#[trigger] rows@[a]@[b]) == (
                        match spec_read_bond(other@, a, b) {
                            Some(w) => Some(w),
                            None => spec_read_bond(old(self)@, a, b),
                        }
                    ),
            decreases capacity - i,
        {
            let mut row: Vec<Option<u64>> = Vec::new();
            let mut j: usize = 0;
            while j < capacity
                invariant
                    j <= capacity,
                    row@.len() == j,
                    forall|b: int| 0 <= b < j ==> row@[b] == (
                        match spec_read_bond(other@, i as int, b) {
                            Some(w) => Some(w),
                            None => spec_read_bond(old(self)@, i as int, b),
                        }
                    ),
                decreases capacity - j,
            {
                let value = match other.read_bond(i, j) {
                    Some(w) => Some(w),
                    None => self.read_bond(i, j),
                };
                row.push(value);
                j = j + 1;
            }
            rows.push(row);
            i = i + 1;
        }
        self.0 = rows;
    }

    /// Law: merging the empty matrix into a matrix leaves every pair
    /// reading as before. The premises restate the contract of `migrate`
    /// for an empty `other`.
    pub proof fn lemma_migrate_identity(m: Seq<Seq<Option<u64>>>, merged: Seq<Seq<Option<u64>>>)
        requires
            bond_matrix_wf(m),
            bond_matrix_wf(merged),
            merged.len() == m.len(),
            forall|a: int, b: int|
                0 <= a < merged.len() && 0 <= b < merged.len()
                    ==> spec_read_bond(merged, a, b) == spec_read_bond(m, a, b),
        ensures
            merged =~~= m,
    {
        assert forall|i: int| 0 <= i < merged.len() implies merged[i] =~= m[i] by {
            assert forall|b: int| 0 <= b < merged.len() implies merged[i][b] == m[i][b] by {
                assert(spec_read_bond(merged, i, b) == spec_read_bond(m, i, b));
            }
        }
    }

    /// Emit the bonds between present-and-valid atoms as triples over
    /// continuous indices, upper triangle in row-major order, skipping
    /// orders that mean zero.
    pub fn to_continuous_list(&self, atom_list: &SparseAtomList) -> (r: Vec<(usize, usize, u64)>)
        requires
            bond_matrix_wf(self@),
        ensures
            r@ == spec_continuous_bonds(self@, atom_list@, 0, 0),
    {
        let mut result: Vec<(usize, usize, u64)> = Vec::new();
        let size = self.0.len();
        let ghost total = spec_continuous_bonds(self@, atom_list@, 0, 0);
        let mut row: usize = 0;
        while row < size
            invariant
                row <= size,
                size == self@.len(),
                total == result@ + spec_continuous_bonds(self@, atom_list@, row as int, row as int),
            decreases size - row,
        {
            let mut col: usize = row;
            while col < size
                invariant
                    row <= col <= size,
                    total == result@
                        + spec_continuous_bonds(self@, atom_list@, row as int, col as int),
                decreases size - col,
            {
                match self.read_bond(row, col) {
                    Some(w) => {
                        let ci = atom_list.to_continuous_index(row);
                        let cj = atom_list.to_continuous_index(col);
                        match (ci, cj) {
                            (Some(ci), Some(cj)) => {
                                if !zero_order(w) {
                                    result.push((ci, cj, w));
                                }
                            },
                            _ => {},
                        }
                    },
                    None => {},
                }
                col = col + 1;
            }
            row = row + 1;
        }
        assert(result@ =~= total) by {
            assert(spec_continuous_bonds(self@, atom_list@, size as int, size as int)
                =~= Seq::empty());
        }
        result
    }
}


/// The aggregate structure: atoms, bonds, optional identifier bindings,
/// optional group bindings, and a title.
#[derive(Debug, Clone, PartialEq)]
pub struct SparseMolecule {
    pub atoms: SparseAtomList,
    pub bonds: SparseBondMatrix,
    pub ids: Option<IdMap>,
    pub groups: Option<GroupName>,
    pub title: String,
}

/// A well-formed molecule: its bond matrix is square and symmetric, its
/// identifier map binds no name twice, and every bound identifier or
/// group index lies inside the atom list.
pub open spec fn mol_wf(m: SparseMolecule) -> bool {
    &&& bond_matrix_wf(m.bonds@)
    &&& match m.ids {
        Some(ids) => id_map_wf(ids@) && forall|i: int|
            0 <= i < ids@.len() ==> (#[trigger] ids@[i]).1 < m.atoms@.len(),
        None => true,
    }
    &&& match m.groups {
        Some(groups) => forall|i: int|
            0 <= i < groups@.len() ==> (#[trigger] groups@[i]).1 < m.atoms@.len(),
        None => true,
    }
}

impl Default for SparseMolecule {
    /// The empty molecule: no atoms, no bonds, no bindings, empty title.
    fn default() -> (r: Self)
        ensures
            r.atoms@ =~= Seq::<Option<Atom3D>>::empty(),
            r.bonds@ =~= Seq::<Seq<Option<u64>>>::empty(),
            r.ids is None,
            r.groups is None,
            r.title@ =~= Seq::<char>::empty(),
            mol_wf(r),
    {
        SparseMolecule {
            atoms: SparseAtomList::default(),
            bonds: SparseBondMatrix::default(),
            ids: None,
            groups: None,
            title: String::new(),
        }
    }
}

impl SparseMolecule {
    /// The length of the molecule is the length of its atom list.
    pub fn len(&self) -> (r: usize)
        ensures
            r == self.atoms@.len(),
    {
        self.atoms.len()
    }

    /// Grow atoms and bonds together to at least `capacity`.
    pub fn extend_to(&mut self, capacity: usize)
        requires
            mol_wf(*old(self)),
        ensures
            mol_wf(*final(self)),
            final(self).atoms@.len() == vstd::math::max(
                old(self).atoms@.len() as int,
                capacity as int,
            ),
            forall|i: int|
                0 <= i < final(self).atoms@.len() ==> final(self).atoms@[i]
                    == spec_read_atom(old(self).atoms@, i),
            final(self).bonds@.len() == vstd::math::max(
                old(self).bonds@.len() as int,
                capacity as int,
            ),
            forall|a: int, b: int|
                spec_read_bond(final(self).bonds@, a, b) == spec_read_bond(old(self).bonds@, a, b),
            final(self).ids == old(self).ids,
            final(self).groups == old(self).groups,
            final(self).title == old(self).title,
    {
        self.atoms.extend_to(capacity);
        self.bonds.extend_to(capacity);
    }

    /// Merge `other` over `self`: atoms and bonds merge index-wise with
    /// `other` overriding wherever it declares something; identifier
    /// bindings merge with `other` winning per name; group bindings
    /// union; a non-empty title of `other` replaces the title.
    pub fn migrate(&mut self, other: Self)
        requires
            mol_wf(*old(self)),
            mol_wf(other),
        ensures
            mol_wf(*final(self)),
            final(self).atoms@.len() == vstd::math::max(
                old(self).atoms@.len() as int,
                other.atoms@.len() as int,
            ),
            forall|i: int|
                0 <= i < final(self).atoms@.len() ==> final(self).atoms@[i] == (
                    if 0 <= i < other.atoms@.len() && other.atoms@[i] is Some {
                        other.atoms@[i]
                    } else {
                        spec_read_atom(old(self).atoms@, i)
                    }
                ),
            final(self).bonds@.len() == vstd::math::max(
                old(self).bonds@.len() as int,
                other.bonds@.len() as int,
            ),
            forall|a: int, b: int|
                0 <= a < final(self).bonds@.len() && 0 <= b < final(self).bonds@.len()
                    ==> spec_read_bond(final(self).bonds@, a, b) == (
                    match spec_read_bond(other.bonds@, a, b) {
                        Some(w) => Some(w),
                        None => spec_read_bond(old(self).bonds@, a, b),
                    }
                ),
            match (old(self).ids, other.ids) {
                (Some(a), Some(b)) => final(self).ids matches Some(m) && id_map_wf(m@)
                    && m@ == spec_merged_ids(a@, b@),
                (None, Some(b)) => final(self).ids matches Some(m) && m@ == b@,
                (Some(a), None) => final(self).ids matches Some(m) && m@ == a@,
                (None, None) => final(self).ids is None,
            },
            match (old(self).groups, other.groups) {
                (Some(a), Some(b)) => final(self).groups matches Some(g) && g@ =~= a@ + b@,
                (None, Some(b)) => final(self).groups matches Some(g) && g@ == b@,
                (Some(a), None) => final(self).groups matches Some(g) && g@ == a@,
                (None, None) => final(self).groups is None,
            },
            final(self).title == (
                if other.title@.len() == 0 {
                    old(self).title
                } else {
                    other.title
                }
            ),
    {
        let ghost g_other = other;
        let SparseMolecule {
            atoms: other_atoms,
            bonds: other_bonds,
            ids: other_ids,
            groups: other_groups,
            title: other_title,
        } = other;
        self.atoms.migrate(other_atoms);
        self.bonds.migrate(&other_bonds);
        match other_ids {
            Some(b) => {
                let merged = match &self.ids {
                    Some(a) => Some(a.merged(&b)),
                    None => None,
                };
                match merged {
                    Some(m) => {
                        self.ids = Some(m);
                    },
                    None => {
                        self.ids = Some(b);
                    },
                }
            },
            None => {},
        }
        match other_groups {
            Some(b) => {
                let mut replace = true;
                if let Some(a) = &mut self.groups {
                    a.extend_with(&b);
                    replace = false;
                }
                if replace {
                    self.groups = Some(b);
                }
            },
            None => {},
        }
        if !other_title.as_str().is_empty() {
            self.title = other_title;
        }
        proof {
            assert(self.atoms@.len() >= old(self).atoms@.len());
            assert(self.atoms@.len() >= g_other.atoms@.len());
            let ghost cur_ids = self.ids;
            match cur_ids {
                Some(m) => {
                    assert forall|i: int|
                        0 <= i < m@.len() implies (#[trigger] m@[i]).1 < self.atoms@.len() by {
                        let n = m@[i].0;
                        let v = m@[i].1;
                        assert(spec_has_pair(m@, n, v)) by {
                            assert(m@[i] == (n, v));
                        }
                        match (old(self).ids, g_other.ids) {
                            (Some(a), Some(b)) => {
                                if spec_has_pair(a@, n, v) {
                                    let k = choose|k: int|
                                        0 <= k < a@.len() && #[trigger] a@[k] == (n, v);
                                    assert(a@[k].1 < old(self).atoms@.len());
                                } else {
                                    assert(spec_has_pair(b@, n, v));
                                    let k = choose|k: int|
                                        0 <= k < b@.len() && #[trigger] b@[k] == (n, v);
                                    assert(b@[k].1 < g_other.atoms@.len());
                                }
                            },
                            (None, Some(b)) => {
                                let k = choose|k: int|
                                    0 <= k < b@.len() && #[trigger] b@[k] == (n, v);
                                assert(b@[k].1 < g_other.atoms@.len());
                            },
                            (Some(a), None) => {
                                let k = choose|k: int|
                                    0 <= k < a@.len() && #[trigger] a@[k] == (n, v);
                                assert(a@[k].1 < old(self).atoms@.len());
                            },
                            (None, None) => {
                                assert(false);
                            },
                        }
                    }
                },
                None => {},
            }
            let ghost cur_groups = self.groups;
            match cur_groups {
                Some(g) => {
                    assert forall|i: int|
                        0 <= i < g@.len() implies (#[trigger] g@[i]).1 < self.atoms@.len() by {
                        match (old(self).groups, g_other.groups) {
                            (Some(a), Some(b)) => {
                                if i < a@.len() {
                                    assert(g@[i] == a@[i]);
                                } else {
                                    assert(g@[i] == b@[i - a@.len()]);
                                }
                            },
                            (None, Some(b)) => {},
                            (Some(a), None) => {},
                            (None, None) => {
                                assert(false);
                            },
                        }
                    }
                },
                None => {},
            }
        }
    }

    /// Law: merging the empty molecule into a molecule leaves it
    /// unchanged. The premises restate the contract of `migrate` for an
    /// `other` equal to the default molecule.
    pub proof fn lemma_migrate_identity(m: SparseMolecule, merged: SparseMolecule)
        requires
            bond_matrix_wf(m.bonds@),
            bond_matrix_wf(merged.bonds@),
            merged.atoms@.len() == m.atoms@.len(),
            forall|i: int|
                0 <= i < merged.atoms@.len() ==> merged.atoms@[i] == spec_read_atom(m.atoms@, i),
            merged.bonds@.len() == m.bonds@.len(),
            forall|a: int, b: int|
                0 <= a < merged.bonds@.len() && 0 <= b < merged.bonds@.len()
                    ==> spec_read_bond(merged.bonds@, a, b) == spec_read_bond(m.bonds@, a, b),
            merged.ids == m.ids,
            merged.groups == m.groups,
            merged.title == m.title,
        ensures
            merged.atoms@ =~= m.atoms@,
            merged.bonds@ =~~= m.bonds@,
    {
        SparseAtomList::lemma_migrate_identity(m.atoms@, merged.atoms@);
        SparseBondMatrix::lemma_migrate_identity(m.bonds@, merged.bonds@);
    }

    /// Shift the whole molecule up by `offset` sparse indices: the atom
    /// list and bond matrix are prepended with holes, and every bound
    /// identifier or group index moves up by `offset`.
    pub fn offset(self, offset: usize) -> (r: Self)
        requires
            mol_wf(self),
            offset + self.atoms@.len() <= usize::MAX,
            offset + self.bonds@.len() <= usize::MAX,
        ensures
            mol_wf(r),
            r.atoms@.len() == offset + self.atoms@.len(),
            forall|i: int| 0 <= i < offset ==> r.atoms@[i] is None,
            forall|i: int| 0 <= i < self.atoms@.len() ==> r.atoms@[offset + i] == self.atoms@[i],
            r.bonds@.len() == offset + self.bonds@.len(),
            forall|a: int, b: int|
                0 <= a < r.bonds@.len() && 0 <= b < r.bonds@.len()
                    ==> spec_read_bond(r.bonds@, a, b) == (
                    if offset <= a && offset <= b {
                        spec_read_bond(self.bonds@, a - offset, b - offset)
                    } else {
                        None
                    }
                ),
            match (self.ids, r.ids) {
                (Some(a), Some(b)) => b@.len() == a@.len() && forall|i: int|
                    0 <= i < a@.len() ==> (#[trigger] b@[i])
                        == (a@[i].0, (a@[i].1 + offset) as usize),
                (None, None) => true,
                _ => false,
            },
            match (self.groups, r.groups) {
                (Some(a), Some(b)) => b@.len() == a@.len() && forall|i: int|
                    0 <= i < a@.len() ==> (#[trigger] b@[i])
                        == (a@[i].0, (a@[i].1 + offset) as usize),
                (None, None) => true,
                _ => false,
            },
            r.title == self.title,
    {
        let SparseMolecule { atoms, bonds, ids, groups, title } = self;
        let ghost old_atoms_len = atoms@.len();
        let atoms = atoms.offset(offset);
        let bonds = bonds.offset(offset);
        let ids = match ids {
            Some(a) => Some(a.offset(offset)),
            None => None,
        };
        let groups = match groups {
            Some(a) => Some(a.offset(offset)),
            None => None,
        };
        let r = SparseMolecule { atoms, bonds, ids, groups, title };
        proof {
            assert(mol_wf(r)) by {
                match r.ids {
                    Some(m) => {
                        assert(id_map_wf(m@)) by {
                            assert(forall|i: int, j: int|
                                0 <= i < m@.len() && 0 <= j < m@.len() && i != j
                                    ==> (#[trigger] m@[i]).0 != (#[trigger] m@[j]).0);
                        }
                    },
                    None => {},
                }
            }
        }
        r
    }
}


impl SparseMolecule {
    /// A deep copy whose every field views equal to the original's.
    pub fn clone_mol(&self) -> (r: Self)
        ensures
            r.atoms@ == self.atoms@,
            r.bonds@ == self.bonds@,
            match (self.ids, r.ids) {
                (Some(a), Some(b)) => a@ == b@,
                (None, None) => true,
                _ => false,
            },
            match (self.groups, r.groups) {
                (Some(a), Some(b)) => a@ == b@,
                (None, None) => true,
                _ => false,
            },
            r.title@ == self.title@,
    {
        let mut atoms: Vec<Option<Atom3D>> = Vec::new();
        let mut i: usize = 0;
        while i < self.atoms.0.len()
            invariant
                i <= self.atoms@.len(),
                atoms@.len() == i,
                forall|k: int| 0 <= k < i ==> atoms@[k] == self.atoms@[k],
            decreases self.atoms@.len() - i,
        {
            atoms.push(self.atoms.0[i]);
            i = i + 1;
        }
        proof {
            assert(atoms@ =~= self.atoms@);
        }
        let mut rows: Vec<Vec<Option<u64>>> = Vec::new();
        let mut a: usize = 0;
        while a < self.bonds.0.len()
            invariant
                a <= self.bonds.0@.len(),
                rows@.len() == a,
                forall|x: int| 0 <= x < a ==> (#[trigger] rows@[x])@ == self.bonds@[x],
            decreases self.bonds.0@.len() - a,
        {
            let source = &self.bonds.0[a];
            let mut row: Vec<Option<u64>> = Vec::new();
            let mut b: usize = 0;
            while b < source.len()
                invariant
                    b <= source@.len(),
                    row@.len() == b,
                    forall|y: int| 0 <= y < b ==> row@[y] == source@[y],
                decreases source@.len() - b,
            {
                row.push(source[b]);
                b = b + 1;
            }
            proof {
                assert(row@ =~= self.bonds@[a as int]);
            }
            rows.push(row);
            a = a + 1;
        }
        let bonds = SparseBondMatrix(rows);
        proof {
            assert(bonds@ =~~= self.bonds@);
        }
        let ids = match &self.ids {
            Some(x) => {
                let mut out: Vec<(String, usize)> = Vec::new();
                let mut k: usize = 0;
                while k < x.0.len()
                    invariant
                        k <= x@.len(),
                        out@.len() == k,
                        forall|q: int|
                            0 <= q < k ==> ((#[trigger] out@[q]).0@, out@[q].1) == x@[q],
                    decreases x@.len() - k,
                {
                    proof {
                        assert(x@[k as int] == (x.0@[k as int].0@, x.0@[k as int].1));
                    }
                    out.push((x.0[k].0.clone(), x.0[k].1));
                    k = k + 1;
                }
                let fresh = IdMap(out);
                proof {
                    assert(fresh@ =~= x@);
                }
                Some(fresh)
            },
            None => None,
        };
        let groups = match &self.groups {
            Some(x) => {
                let mut out: Vec<(String, usize)> = Vec::new();
                let mut k: usize = 0;
                while k < x.0.len()
                    invariant
                        k <= x@.len(),
                        out@.len() == k,
                        forall|q: int|
                            0 <= q < k ==> ((#[trigger] out@[q]).0@, out@[q].1) == x@[q],
                    decreases x@.len() - k,
                {
                    proof {
                        assert(x@[k as int] == (x.0@[k as int].0@, x.0@[k as int].1));
                    }
                    out.push((x.0[k].0.clone(), x.0[k].1));
                    k = k + 1;
                }
                let fresh = GroupName(out);
                proof {
                    assert(fresh@ =~= x@);
                }
                Some(fresh)
            },
            None => None,
        };
        SparseMolecule { atoms: SparseAtomList(atoms), bonds, ids, groups, title: self.title.clone() }
    }
}


impl SparseBondMatrix {
    /// Decide well-formedness: every row as long as the matrix, every
    /// pair declared the same in both directions.
    pub fn check_wf(&self) -> (r: bool)
        ensures
            r == bond_matrix_wf(self@),
    {
        let n = self.0.len();
        let mut a: usize = 0;
        while a < n
            invariant
                a <= n,
                n == self@.len(),
                forall|x: int| 0 <= x < a ==> (#[trigger] self@[x]).len() == n,
            decreases n - a,
        {
            proof {
                assert(self@[a as int] == self.0@[a as int]@);
            }
            if self.0[a].len() != n {
                proof {
                    assert(self@[a as int].len() != self@.len());
                }
                return false;
            }
            a = a + 1;
        }
        let mut a: usize = 0;
        while a < n
            invariant
                a <= n,
                n == self@.len(),
                forall|x: int| 0 <= x < n ==> (#[trigger] self@[x]).len() == n,
                forall|x: int, y: int|
                    0 <= x < a && 0 <= y < n ==> #[trigger] self@[x][y] == self@[y][x],
            decreases n - a,
        {
            let mut b: usize = 0;
            while b < n
                invariant
                    a < n,
                    b <= n,
                    n == self@.len(),
                    forall|x: int| 0 <= x < n ==> (#[trigger] self@[x]).len() == n,
                    forall|y: int| 0 <= y < b ==> #[trigger] self@[a as int][y] == self@[y][a as int],
                decreases n - b,
            {
                proof {
                    assert(self@[a as int] == self.0@[a as int]@);
                    assert(self@[b as int] == self.0@[b as int]@);
                }
                let same = match (self.0[a][b], self.0[b][a]) {
                    (Some(x), Some(y)) => x == y,
                    (None, None) => true,
                    _ => false,
                };
                if !same {
                    proof {
                        assert(self@[a as int][b as int] != self@[b as int][a as int]);
                    }
                    return false;
                }
                b = b + 1;
            }
            a = a + 1;
        }
        proof {
            assert forall|x: int, y: int|
                0 <= x < self@.len() && 0 <= y < self@.len()
                implies #[trigger] self@[x][y] == self@[y][x] by {
            }
        }
        true
    }
}

impl SparseMolecule {
    /// Decide well-formedness: the bond matrix is square and symmetric,
    /// the identifier map binds no name twice, and every bound
    /// identifier or group index lies inside the atom list.
    pub fn check_wf(&self) -> (r: bool)
        ensures
            r == mol_wf(*self),
    {
        if !self.bonds.check_wf() {
            return false;
        }
        let len = self.atoms.len();
        match &self.ids {
            Some(ids) => {
                let mut i: usize = 0;
                while i < ids.0.len()
                    invariant
                        i <= ids@.len(),
                        len == self.atoms@.len(),
                        forall|x: int, y: int|
                            0 <= x < i && 0 <= y < x
                                ==> (#[trigger] ids@[x]).0 != (#[trigger] ids@[y]).0,
                        forall|x: int| 0 <= x < i ==> (#[trigger] ids@[x]).1 < len,
                    decreases ids@.len() - i,
                {
                    proof {
                        assert(ids@[i as int] == (ids.0@[i as int].0@, ids.0@[i as int].1));
                    }
                    if ids.0[i].1 >= len {
                        return false;
                    }
                    let mut j: usize = 0;
                    while j < i
                        invariant
                            j <= i < ids@.len(),
                            forall|y: int| 0 <= y < j ==> (#[trigger] ids@[y]).0 != ids@[i as int].0,
                        decreases i - j,
                    {
                        proof {
                            assert(ids@[j as int] == (ids.0@[j as int].0@, ids.0@[j as int].1));
                        }
                        if ids.0[i].0 == ids.0[j].0 {
                            proof {
                                assert(ids@[i as int].0 == ids@[j as int].0);
                            }
                            return false;
                        }
                        j = j + 1;
                    }
                    i = i + 1;
                }
                proof {
                    assert(id_map_wf(ids@)) by {
                        assert forall|x: int, y: int|
                            0 <= x < ids@.len() && 0 <= y < ids@.len() && x != y
                            implies (#[trigger] ids@[x]).0 != (#[trigger] ids@[y]).0 by {
                            if y < x {
                            } else {
                            }
                        }
                    }
                }
            },
            None => {},
        }
        match &self.groups {
            Some(groups) => {
                let mut i: usize = 0;
                while i < groups.0.len()
                    invariant
                        i <= groups@.len(),
                        len == self.atoms@.len(),
                        forall|x: int| 0 <= x < i ==> (#[trigger] groups@[x]).1 < len,
                    decreases groups@.len() - i,
                {
                    proof {
                        assert(groups@[i as int]
                            == (groups.0@[i as int].0@, groups.0@[i as int].1));
                    }
                    if groups.0[i].1 >= len {
                        return false;
                    }
                    i = i + 1;
                }
            },
            None => {},
        }
        true
    }
}

} // verus!
