use vstd::prelude::*;

use crate::chemistry::{Atom3D, Position, RigidTransform};
use crate::group_name::{
    id_map_wf, spec_has_name, spec_indexes_of, spec_lookup, GroupName, IdMap,
};
use crate::sparse_molecule::{
    bond_matrix_wf, mol_wf, spec_read_atom, spec_read_bond, SparseMolecule,
};

verus! {

/// A structural failure while editing a molecule.
#[derive(Debug, Clone, Copy, PartialEq, Eq, Structural)]
pub enum StructuralError {
    /// A selector named an identifier or group that the molecule does
    /// not bind.
    UnknownSelector,
    /// A selector or binding referred to an index outside the molecule.
    RangeOutOfBounds,
    /// A continuous update ran out of replacement atoms.
    CapacityUnderflow,
}

/// The mathematical model of a molecule: every field as its view.
pub ghost struct MolModel {
    pub atoms: Seq<Option<Atom3D>>,
    pub bonds: Seq<Seq<Option<u64>>>,
    pub ids: Option<Seq<(Seq<char>, usize)>>,
    pub groups: Option<Seq<(Seq<char>, usize)>>,
    pub title: Seq<char>,
}

/// The model of a molecule value.
pub open spec fn mol_model(m: SparseMolecule) -> MolModel {
    MolModel {
        atoms: m.atoms@,
        bonds: m.bonds@,
        ids: match m.ids {
            Some(x) => Some(x@),
            None => None,
        },
        groups: match m.groups {
            Some(x) => Some(x@),
            None => None,
        },
        title: m.title@,
    }
}

/// Atom-list merge: `b` overrides wherever it has a present atom.
pub open spec fn spec_atoms_migrated(
    a: Seq<Option<Atom3D>>,
    b: Seq<Option<Atom3D>>,
) -> Seq<Option<Atom3D>> {
    Seq::new(
        vstd::math::max(a.len() as int, b.len() as int) as nat,
        |i: int|
            if 0 <= i < b.len() && b[i] is Some {
                b[i]
            } else {
                spec_read_atom(a, i)
            },
    )
}

/// Atom-list overwrite of the slots `off .. off + xs.len()`.
pub open spec fn spec_atoms_set(
    a: Seq<Option<Atom3D>>,
    off: int,
    xs: Seq<Option<Atom3D>>,
) -> Seq<Option<Atom3D>> {
    Seq::new(
        vstd::math::max(a.len() as int, off + xs.len()) as nat,
        |i: int|
            if off <= i < off + xs.len() {
                xs[i - off]
            } else {
                spec_read_atom(a, i)
            },
    )
}

/// Bond-matrix merge: `b` overrides wherever it declares an order.
pub open spec fn spec_bonds_migrated(
    a: Seq<Seq<Option<u64>>>,
    b: Seq<Seq<Option<u64>>>,
) -> Seq<Seq<Option<u64>>> {
    let l = vstd::math::max(a.len() as int, b.len() as int);
    Seq::new(
        l as nat,
        |x: int|
            Seq::new(
                l as nat,
                |y: int|
                    match spec_read_bond(b, x, y) {
                        Some(w) => Some(w),
                        None => spec_read_bond(a, x, y),
                    },
            ),
    )
}

/// Bond-matrix shift: `n` undeclared atoms in front.
pub open spec fn spec_bonds_offset(a: Seq<Seq<Option<u64>>>, n: int) -> Seq<Seq<Option<u64>>> {
    let l = n + a.len();
    Seq::new(
        l as nat,
        |x: int|
            Seq::new(l as nat, |y: int| if n <= x && n <= y {
                spec_read_bond(a, x - n, y - n)
            } else {
                None
            }),
    )
}

/// Bond-matrix write of one symmetric pair, growing to fit.
pub open spec fn spec_bonds_set(
    m: Seq<Seq<Option<u64>>>,
    a: int,
    b: int,
    w: Option<u64>,
) -> Seq<Seq<Option<u64>>> {
    let l = vstd::math::max(m.len() as int, vstd::math::max(a, b) + 1);
    Seq::new(
        l as nat,
        |x: int|
            Seq::new(
                l as nat,
                |y: int|
                    if (x == a && y == b) || (x == b && y == a) {
                        w
                    } else {
                        spec_read_bond(m, x, y)
                    },
            ),
    )
}

/// Choosing one atom of a molecule: directly by sparse index, or through
/// the molecule's identifier map.
#[derive(Debug, Clone, PartialEq)]
pub enum SelectOne {
    Index(usize),
    Id(String),
}

/// The sparse index a `SelectOne` resolves to on a model, if any.
pub open spec fn spec_sel_one(s: SelectOne, m: MolModel) -> Option<usize> {
    match s {
        SelectOne::Index(i) => Some(i),
        SelectOne::Id(n) => match m.ids {
            Some(ids) => if spec_has_name(ids, n@) {
                Some(spec_lookup(ids, n@))
            } else {
                None
            },
            None => None,
        },
    }
}

impl SelectOne {
    /// Resolve to a sparse index on a molecule.
    pub fn to_index(&self, m: &SparseMolecule) -> (r: Option<usize>)
        requires
            mol_wf(*m),
        ensures
            r == spec_sel_one(*self, mol_model(*m)),
    {
        match self {
            SelectOne::Index(i) => Some(*i),
            SelectOne::Id(n) => match &m.ids {
                Some(ids) => {
                    let r = ids.get(n);
                    proof {
                        match r {
                            Some(v) => {
                                crate::group_name::lemma_lookup_unique(ids@, n@, v);
                            },
                            None => {},
                        }
                    }
                    r
                },
                None => None,
            },
        }
    }

    /// The atom the selector points at, or `None` when the selector does
    /// not resolve or points at a hole or outside the list.
    pub fn get_atom(&self, m: &SparseMolecule) -> (r: Option<Atom3D>)
        requires
            mol_wf(*m),
        ensures
            r == (match spec_sel_one(*self, mol_model(*m)) {
                Some(i) => spec_read_atom(m.atoms@, i as int),
                None => None,
            }),
    {
        match self.to_index(m) {
            Some(i) => m.atoms.read_atom(i),
            None => None,
        }
    }
}

/// Choosing a set of atoms of a molecule.
#[derive(Debug, Clone, PartialEq)]
pub enum SelectMany {
    /// Every slot of the list.
    All,
    /// The inclusive index range `start ..= end`.
    Range(usize, usize),
    /// An explicit collection of sparse indices.
    Indexes(Vec<usize>),
    /// The members of a named group.
    Group(String),
}

/// The sparse indices a `SelectMany` resolves to on a model, or the
/// structural error it raises: an explicit index or an inclusive range
/// end outside the atom list is out of bounds, and a group label the
/// molecule does not bind is unknown.
pub open spec fn spec_sel_many(s: SelectMany, m: MolModel) -> Result<Seq<usize>, StructuralError> {
    match s {
        SelectMany::All => Ok(Seq::new(m.atoms.len(), |i: int| i as usize)),
        SelectMany::Range(a, b) => if b >= m.atoms.len() {
            Err(StructuralError::RangeOutOfBounds)
        } else if a > b {
            Ok(Seq::empty())
        } else {
            Ok(Seq::new((b - a + 1) as nat, |i: int| (a + i) as usize))
        },
        SelectMany::Indexes(v) => if exists|i: int| 0 <= i < v@.len() && v@[i] >= m.atoms.len() {
            Err(StructuralError::RangeOutOfBounds)
        } else {
            Ok(v@)
        },
        SelectMany::Group(n) => match m.groups {
            Some(g) => if spec_has_name(g, n@) {
                Ok(spec_indexes_of(g, n@))
            } else {
                Err(StructuralError::UnknownSelector)
            },
            None => Err(StructuralError::UnknownSelector),
        },
    }
}

impl SelectMany {
    /// Resolve to the selected sparse indices on a molecule.
    pub fn to_indexes(&self, m: &SparseMolecule) -> (r: Result<Vec<usize>, StructuralError>)
        requires
            mol_wf(*m),
        ensures
            match (r, spec_sel_many(*self, mol_model(*m))) {
                (Ok(v), Ok(s)) => v@ == s,
                (Err(e1), Err(e2)) => e1 == e2,
                _ => false,
            },
            r matches Ok(v) ==> forall|i: int| 0 <= i < v@.len() ==> v@[i] < m.atoms@.len(),
    {
        match self {
            SelectMany::All => {
                let len = m.atoms.len();
                let mut out: Vec<usize> = Vec::new();
                let mut i: usize = 0;
                while i < len
                    invariant
                        i <= len,
                        out@.len() == i,
                        forall|k: int| 0 <= k < i ==> out@[k] == k as usize,
                    decreases len - i,
                {
                    out.push(i);
                    i = i + 1;
                }
                proof {
                    assert(out@ =~= Seq::new(mol_model(*m).atoms.len(), |i: int| i as usize));
                }
                Ok(out)
            },
            SelectMany::Range(a, b) => {
                if *b >= m.atoms.len() {
                    return Err(StructuralError::RangeOutOfBounds);
                }
                if *a > *b {
                    proof {
                        assert(Seq::<usize>::empty() =~= Seq::<usize>::empty());
                    }
                    return Ok(Vec::new());
                }
                let mut out: Vec<usize> = Vec::new();
                let mut i: usize = *a;
                while i <= *b
                    invariant
                        *a <= i <= *b + 1,
                        *b < m.atoms@.len(),
                        out@.len() == i - *a,
                        forall|k: int| 0 <= k < out@.len() ==> out@[k] == (*a + k) as usize,
                    decreases *b + 1 - i,
                {
                    out.push(i);
                    i = i + 1;
                }
                proof {
                    assert(out@ =~= Seq::new((*b - *a + 1) as nat, |i: int| (*a + i) as usize));
                }
                Ok(out)
            },
            SelectMany::Indexes(v) => {
                let len = m.atoms.len();
                let mut out: Vec<usize> = Vec::new();
                let mut i: usize = 0;
                while i < v.len()
                    invariant
                        i <= v@.len(),
                        out@ == v@.take(i as int),
                        forall|k: int| 0 <= k < i ==> v@[k] < m.atoms@.len(),
                    decreases v@.len() - i,
                {
                    let idx = v[i];
                    if idx >= len {
                        return Err(StructuralError::RangeOutOfBounds);
                    }
                    out.push(idx);
                    proof {
                        assert(v@.take(i + 1) =~= v@.take(i as int).push(v@[i as int]));
                    }
                    i = i + 1;
                }
                proof {
                    assert(v@.take(v@.len() as int) =~= v@);
                }
                Ok(out)
            },
            SelectMany::Group(n) => match &m.groups {
                Some(g) => {
                    if g.has_name(n) {
                        let out = g.get_left(n);
                        proof {
                            lemma_indexes_of_bounded(g@, n@, m.atoms@.len() as int);
                        }
                        Ok(out)
                    } else {
                        Err(StructuralError::UnknownSelector)
                    }
                },
                None => Err(StructuralError::UnknownSelector),
            },
        }
    }
}

/// Every index a group binds under a bound stays under that bound when
/// collected per name.
pub proof fn lemma_indexes_of_bounded(s: Seq<(Seq<char>, usize)>, name: Seq<char>, bound: int)
    requires
        forall|i: int| 0 <= i < s.len() ==> (#[trigger] s[i]).1 < bound,
    ensures
        forall|k: int|
            0 <= k < spec_indexes_of(s, name).len() ==> spec_indexes_of(s, name)[k] < bound,
    decreases s.len(),
{
    if s.len() > 0 {
        assert(s.first() == s[0]);
        assert(forall|i: int|
            0 <= i < s.drop_first().len() ==> (#[trigger] s.drop_first()[i]).1 < bound);
        lemma_indexes_of_bounded(s.drop_first(), name, bound);
        let r = spec_indexes_of(s, name);
        let rr = spec_indexes_of(s.drop_first(), name);
        if s.first().0 == name {
            assert(r == seq![s.first().1] + rr);
            assert forall|k: int| 0 <= k < r.len() implies r[k] < bound by {
                if k == 0 {
                    assert(r[0] == s.first().1);
                } else {
                    assert(r[k] == rr[k - 1]);
                }
            }
        } else {
            assert(r == rr);
        }
    }
}


/// One name paired with each of a run of indices, in index order.
pub open spec fn spec_name_pairs(n: Seq<char>, ix: Seq<usize>) -> Seq<(Seq<char>, usize)> {
    ix.map_values(|i: usize| (n, i))
}

/// The group pairs a `GroupMap` layer installs: for each entry in
/// order, its label paired with every selected index; the first entry
/// whose selector fails decides the error.
pub open spec fn spec_group_pairs(
    entries: Seq<(String, SelectMany)>,
    m: MolModel,
) -> Result<Seq<(Seq<char>, usize)>, StructuralError>
    decreases entries.len(),
{
    if entries.len() == 0 {
        Ok(Seq::empty())
    } else {
        match spec_sel_many(entries.first().1, m) {
            Err(e) => Err(e),
            Ok(ix) => match spec_group_pairs(entries.drop_first(), m) {
                Err(e) => Err(e),
                Ok(rest) => Ok(spec_name_pairs(entries.first().0@, ix) + rest),
            },
        }
    }
}

/// Whether every binding of an identifier layer lies inside the atom
/// list.
pub open spec fn spec_ids_ok(pairs: Seq<(String, usize)>, m: MolModel) -> bool {
    forall|i: int| 0 <= i < pairs.len() ==> (#[trigger] pairs[i]).1 < m.atoms.len()
}

/// Identifier bindings installed left to right over a base map.
pub open spec fn spec_ids_inserted(
    base: Seq<(Seq<char>, usize)>,
    pairs: Seq<(String, usize)>,
) -> Seq<(Seq<char>, usize)>
    decreases pairs.len(),
{
    if pairs.len() == 0 {
        base
    } else {
        spec_ids_inserted(
            crate::group_name::spec_insert_pair(base, pairs.first().0@, pairs.first().1),
            pairs.drop_first(),
        )
    }
}

/// Installing bindings left to right treats a trailing binding last.
pub proof fn lemma_ids_inserted_push(
    base: Seq<(Seq<char>, usize)>,
    pairs: Seq<(String, usize)>,
    p: (String, usize),
)
    ensures
        spec_ids_inserted(base, pairs.push(p)) == crate::group_name::spec_insert_pair(
            spec_ids_inserted(base, pairs),
            p.0@,
            p.1,
        ),
    decreases pairs.len(),
{
    if pairs.len() == 0 {
        assert(pairs.push(p).first() == p);
        assert(pairs.push(p).drop_first() =~= Seq::<(String, usize)>::empty());
        let stepped = crate::group_name::spec_insert_pair(base, p.0@, p.1);
        assert(spec_ids_inserted(stepped, pairs.push(p).drop_first()) == stepped);
        assert(spec_ids_inserted(base, pairs) == base);
    } else {
        assert(pairs.push(p).first() == pairs.first());
        assert(pairs.push(p).drop_first() =~= pairs.drop_first().push(p));
        let stepped = crate::group_name::spec_insert_pair(base, pairs.first().0@, pairs.first().1);
        lemma_ids_inserted_push(stepped, pairs.drop_first(), p);
        assert(spec_ids_inserted(base, pairs.push(p))
            == spec_ids_inserted(stepped, pairs.drop_first().push(p)));
        assert(spec_ids_inserted(base, pairs) == spec_ids_inserted(stepped, pairs.drop_first()));
    }
}

/// Installing bindings keeps every bound index under a bound that the
/// base and the new bindings respect.
pub proof fn lemma_ids_inserted_bounded(
    base: Seq<(Seq<char>, usize)>,
    pairs: Seq<(String, usize)>,
    bound: int,
)
    requires
        forall|i: int| 0 <= i < base.len() ==> (#[trigger] base[i]).1 < bound,
        forall|i: int| 0 <= i < pairs.len() ==> (#[trigger] pairs[i]).1 < bound,
    ensures
        forall|i: int|
            0 <= i < spec_ids_inserted(base, pairs).len()
                ==> (#[trigger] spec_ids_inserted(base, pairs)[i]).1 < bound,
    decreases pairs.len(),
{
    if pairs.len() > 0 {
        let n = pairs.first().0@;
        let v = pairs.first().1;
        assert(pairs[0].1 < bound);
        let stepped = crate::group_name::spec_insert_pair(base, n, v);
        assert(forall|i: int| 0 <= i < stepped.len() ==> (#[trigger] stepped[i]).1 < bound) by {
            if crate::group_name::spec_has_name(base, n) {
                assert(forall|i: int|
                    0 <= i < base.len() ==> (#[trigger] stepped[i]) == (
                        if base[i].0 == n {
                            (n, v)
                        } else {
                            base[i]
                        }
                    ));
            } else {
                assert(forall|i: int|
                    0 <= i < stepped.len() ==> (#[trigger] stepped[i]) == (
                        if i < base.len() {
                            base[i]
                        } else {
                            (n, v)
                        }
                    ));
            }
        }
        assert(forall|i: int|
            0 <= i < pairs.drop_first().len()
                ==> (#[trigger] pairs.drop_first()[i]).1 < bound);
        lemma_ids_inserted_bounded(stepped, pairs.drop_first(), bound);
        assert(spec_ids_inserted(base, pairs) == spec_ids_inserted(stepped, pairs.drop_first()));
    }
}

/// Atom-list removal: the listed slots become holes.
pub open spec fn spec_atoms_removed(a: Seq<Option<Atom3D>>, ix: Seq<usize>) -> Seq<
    Option<Atom3D>,
> {
    Seq::new(a.len(), |i: int| if ix.contains(i as usize) {
        None
    } else {
        a[i]
    })
}

/// An immutable edit operation over a molecule.
#[derive(Debug, Clone, PartialEq)]
pub enum Layer {
    /// Merge another molecule over the current one, slot by slot. The
    /// merged molecule is expected to already stand in the combined
    /// index space; building such an overlay from a fragment is done
    /// with `offset` before it is stored.
    Fill(SparseMolecule),
    /// Overwrite one slot, growing the list as required.
    SetAtom { index: usize, atom: Option<Atom3D> },
    /// Declare one bond order symmetrically, growing the matrix as
    /// required.
    SetBond { a: usize, b: usize, order: Option<u64> },
    /// Install group memberships: each entry binds a label to every
    /// index its selector picks.
    GroupMap(Vec<(String, SelectMany)>),
    /// Install identifier bindings, later entries replacing earlier
    /// bindings of the same name.
    IdMap(Vec<(String, usize)>),
    /// Mark the selected slots absent.
    RemoveAtoms(SelectMany),
    /// Declare the bond between two chosen atoms absent.
    RemoveBonds(SelectOne, SelectOne),
    /// Apply a rigid transform to the present atoms of the selected
    /// slots. Evaluating the transform is outside work: filtering such
    /// a layer suspends, and the caller completes it with the moved
    /// positions.
    Isometry { isometry: RigidTransform, select: SelectMany },
}

/// A layer is well-formed when any molecule it carries is.
pub open spec fn layer_wf(l: Layer) -> bool {
    match l {
        Layer::Fill(other) => mol_wf(other),
        _ => true,
    }
}

/// A pure layer is one whose application the library can compute
/// entirely by itself; only a rigid-transform layer is not.
pub open spec fn layer_pure(l: Layer) -> bool {
    !(l is Isometry)
}

/// The machine limits a layer application must respect.
pub open spec fn filter_fits(l: Layer, m: MolModel) -> bool {
    match l {
        Layer::Fill(_) => true,
        Layer::SetAtom { index, .. } => index + 1 <= usize::MAX,
        Layer::SetBond { a, b, .. } => vstd::math::max(a as int, b as int) + 1 <= usize::MAX,
        _ => true,
    }
}

/// The merge of two molecule models: `b` overrides atoms and bonds
/// where it declares them, identifier bindings of `b` win per name,
/// group bindings union, and a non-empty title of `b` replaces the
/// title.
pub open spec fn spec_mol_migrated(a: MolModel, b: MolModel) -> MolModel {
    MolModel {
        atoms: spec_atoms_migrated(a.atoms, b.atoms),
        bonds: spec_bonds_migrated(a.bonds, b.bonds),
        ids: match (a.ids, b.ids) {
            (Some(x), Some(y)) => Some(crate::group_name::spec_merged_ids(x, y)),
            (None, y) => y,
            (x, None) => x,
        },
        groups: match (a.groups, b.groups) {
            (Some(x), Some(y)) => Some(x + y),
            (None, y) => y,
            (x, None) => x,
        },
        title: if b.title.len() == 0 {
            a.title
        } else {
            b.title
        },
    }
}

/// What applying a pure layer to a molecule model yields. For a
/// rigid-transform layer the value of this function carries no meaning:
/// applying one suspends instead (see `Layer::filter`), because the
/// moved positions are computed outside the library.
pub open spec fn spec_filter(l: Layer, m: MolModel) -> Result<MolModel, StructuralError> {
    match l {
        Layer::Fill(other) => Ok(spec_mol_migrated(m, mol_model(other))),
        Layer::SetAtom { index, atom } => Ok(
            MolModel {
                atoms: spec_atoms_set(m.atoms, index as int, seq![atom]),
                bonds: m.bonds,
                ids: m.ids,
                groups: m.groups,
                title: m.title,
            },
        ),
        Layer::SetBond { a, b, order } => Ok(
            MolModel {
                atoms: m.atoms,
                bonds: spec_bonds_set(m.bonds, a as int, b as int, order),
                ids: m.ids,
                groups: m.groups,
                title: m.title,
            },
        ),
        Layer::GroupMap(entries) => match spec_group_pairs(entries@, m) {
            Err(e) => Err(e),
            Ok(pairs) => Ok(
                MolModel {
                    atoms: m.atoms,
                    bonds: m.bonds,
                    ids: m.ids,
                    groups: Some(
                        match m.groups {
                            Some(g) => g + pairs,
                            None => pairs,
                        },
                    ),
                    title: m.title,
                },
            ),
        },
        Layer::IdMap(pairs) => if !spec_ids_ok(pairs@, m) {
            Err(StructuralError::RangeOutOfBounds)
        } else {
            Ok(
                MolModel {
                    atoms: m.atoms,
                    bonds: m.bonds,
                    ids: Some(
                        spec_ids_inserted(
                            match m.ids {
                                Some(x) => x,
                                None => Seq::empty(),
                            },
                            pairs@,
                        ),
                    ),
                    groups: m.groups,
                    title: m.title,
                },
            )
        },
        Layer::RemoveAtoms(sel) => match spec_sel_many(sel, m) {
            Err(e) => Err(e),
            Ok(ix) => Ok(
                MolModel {
                    atoms: spec_atoms_removed(m.atoms, ix),
                    bonds: m.bonds,
                    ids: m.ids,
                    groups: m.groups,
                    title: m.title,
                },
            ),
        },
        Layer::RemoveBonds(sa, sb) => match (spec_sel_one(sa, m), spec_sel_one(sb, m)) {
            (Some(x), Some(y)) => if x >= m.atoms.len() || y >= m.atoms.len() {
                Err(StructuralError::RangeOutOfBounds)
            } else {
                Ok(
                    MolModel {
                        atoms: m.atoms,
                        bonds: spec_bonds_set(m.bonds, x as int, y as int, None),
                        ids: m.ids,
                        groups: m.groups,
                        title: m.title,
                    },
                )
            },
            _ => Err(StructuralError::UnknownSelector),
        },
        Layer::Isometry { .. } => arbitrary(),
    }
}

/// The present atoms among a selection, in selection order: the slots
/// a rigid transform is owed.
pub open spec fn spec_present_targets(ix: Seq<usize>, atoms: Seq<Option<Atom3D>>) -> Seq<usize> {
    ix.filter(|i: usize| spec_read_atom(atoms, i as int) is Some)
}

/// A suspended rigid-transform application: the molecule as it stood,
/// the transform, and the present atoms the transform is owed, in
/// selection order.
#[derive(Debug, Clone, PartialEq)]
pub struct IsometryTask {
    pub molecule: SparseMolecule,
    pub transform: RigidTransform,
    pub targets: Vec<usize>,
}

/// The outcome of applying one layer: either the edited molecule, or a
/// suspended rigid-transform application for the caller to complete.
#[derive(Debug, Clone, PartialEq)]
pub enum Filtered {
    Done(SparseMolecule),
    Pending(IsometryTask),
}

/// Law: layer application is deterministic. A pure layer's outcome is
/// the value of `spec_filter`, a function of the layer and the input
/// alone, so two applications of one layer to one molecule agree.
pub proof fn lemma_filter_deterministic(
    l: Layer,
    m: MolModel,
    r1: Result<MolModel, StructuralError>,
    r2: Result<MolModel, StructuralError>,
)
    requires
        layer_pure(l),
        r1 == spec_filter(l, m),
        r2 == spec_filter(l, m),
    ensures
        r1 == r2,
{
}

impl Layer {
    /// Apply this layer to a molecule. A pure layer yields the edited
    /// molecule or the structural error that `spec_filter` assigns; a
    /// rigid-transform layer yields the suspended task instead, with
    /// the molecule unchanged and the present atoms of the selection as
    /// targets.
    #[verifier::rlimit(100)]
    pub fn filter(&self, m: SparseMolecule) -> (r: Result<Filtered, StructuralError>)
        requires
            mol_wf(m),
            layer_wf(*self),
            filter_fits(*self, mol_model(m)),
        ensures
            layer_pure(*self) ==> (match spec_filter(*self, mol_model(m)) {
                Ok(model) => r matches Ok(Filtered::Done(x)) && mol_wf(x) && mol_model(x)
                    == model,
                Err(e) => r matches Err(e2) && e2 == e,
            }),
            !layer_pure(*self) ==> (match *self {
                Layer::Isometry { isometry, select } => (match spec_sel_many(
                    select,
                    mol_model(m),
                ) {
                    Ok(ix) => r matches Ok(Filtered::Pending(p)) && p.molecule == m
                        && p.transform == isometry && p.targets@ == spec_present_targets(
                        ix,
                        m.atoms@,
                    ),
                    Err(e) => r matches Err(e2) && e2 == e,
                }),
                _ => false,
            }),
    {
        let ghost m0 = mol_model(m);
        match self {
            Layer::Fill(other) => {
                let mut target = m;
                let shifted = other.clone_mol();
                let ghost shifted_model = mol_model(shifted);
                proof {
                    let ghost g_other = *other;
                    let ghost g_shifted = shifted;
                    assert(shifted_model.atoms =~= mol_model(*other).atoms);
                    assert(shifted_model.bonds =~~= mol_model(*other).bonds);
                    match (g_other.ids, g_shifted.ids) {
                        (Some(a), Some(b)) => {
                            assert(b@ == a@);
                        },
                        _ => {},
                    }
                    match (g_other.groups, g_shifted.groups) {
                        (Some(a), Some(b)) => {
                            assert(b@ == a@);
                        },
                        _ => {},
                    }
                    assert(mol_model(shifted) == mol_model(*other));
                    assert(mol_wf(shifted));
                }
                target.migrate(shifted);
                proof {
                    let expect = spec_mol_migrated(m0, shifted_model);
                    assert(target.atoms@ =~= expect.atoms);
                    assert forall|x: int, y: int|
                        0 <= x < expect.bonds.len() && 0 <= y < expect.bonds.len()
                        implies target.bonds@[x][y] == expect.bonds[x][y] by {
                        assert(target.bonds@[x][y] == spec_read_bond(target.bonds@, x, y));
                    }
                    assert(forall|x: int|
                        0 <= x < expect.bonds.len() ==> (#[trigger] target.bonds@[x]).len()
                            == expect.bonds.len());
                    assert(target.bonds@ =~~= expect.bonds);
                    let ghost g_target = target;
                    match (m0.ids, shifted_model.ids, g_target.ids) {
                        (Some(a), Some(b), Some(c)) => {},
                        (None, Some(b), Some(c)) => {
                            assert(c@ == b);
                        },
                        (Some(a), None, Some(c)) => {
                            assert(c@ == a);
                        },
                        _ => {},
                    }
                    match (m0.groups, shifted_model.groups, g_target.groups) {
                        (Some(a), Some(b), Some(c)) => {
                            assert(c@ =~= a + b);
                        },
                        _ => {},
                    }
                    assert(mol_model(target) == expect);
                }
                Ok(Filtered::Done(target))
            },
            Layer::SetAtom { index, atom } => {
                let mut target = m;
                let mut one: Vec<Option<Atom3D>> = Vec::new();
                one.push(*atom);
                target.atoms.set_atoms(*index, one);
                proof {
                    assert(target.atoms@ =~= spec_atoms_set(m0.atoms, *index as int, seq![*atom]));
                    assert(mol_wf(target)) by {
                        assert(target.atoms@.len() >= m0.atoms.len());
                    }
                }
                Ok(Filtered::Done(target))
            },
            Layer::SetBond { a, b, order } => {
                let mut target = m;
                target.bonds.set_bond(*a, *b, *order);
                proof {
                    let bspec = spec_bonds_set(m0.bonds, *a as int, *b as int, *order);
                    assert forall|x: int, y: int|
                        0 <= x < bspec.len() && 0 <= y < bspec.len()
                        implies target.bonds@[x][y] == bspec[x][y] by {
                        assert(target.bonds@[x][y] == spec_read_bond(target.bonds@, x, y));
                    }
                    assert(forall|x: int|
                        0 <= x < bspec.len() ==> (#[trigger] target.bonds@[x]).len()
                            == bspec.len());
                    assert(target.bonds@ =~~= bspec);
                }
                Ok(Filtered::Done(target))
            },
            Layer::GroupMap(entries) => {
                let mut target = m;
                let mut fresh = GroupName(Vec::new());
                let mut e: usize = 0;
                proof {
                    assert(entries@.skip(0) =~= entries@);
                }
                while e < entries.len()
                    invariant
                        e <= entries@.len(),
                        target == m,
                        spec_group_pairs(entries@, m0) == (match spec_group_pairs(
                            entries@.skip(e as int),
                            m0,
                        ) {
                            Ok(rest) => Ok::<_, StructuralError>(fresh@ + rest),
                            Err(err) => Err(err),
                        }),
                        forall|k: int| 0 <= k < fresh@.len()
                            ==> (#[trigger] fresh@[k]).1 < m0.atoms.len(),
                    decreases entries@.len() - e,
                {
                    proof {
                        assert(entries@.skip(e as int).first() == entries@[e as int]);
                        assert(entries@.skip(e as int).drop_first() =~= entries@.skip(e + 1));
                    }
                    let name = &entries[e].0;
                    let ix = match entries[e].1.to_indexes(&target) {
                        Ok(ix) => ix,
                        Err(err) => {
                            return Err(err);
                        },
                    };
                    let ghost fresh0 = fresh@;
                    let mut k: usize = 0;
                    while k < ix.len()
                        invariant
                            k <= ix@.len(),
                            target == m,
                            forall|q: int| 0 <= q < ix@.len() ==> ix@[q] < m0.atoms.len(),
                            fresh@ =~= fresh0 + spec_name_pairs(name@, ix@.take(k as int)),
                        decreases ix@.len() - k,
                    {
                        fresh.push(name.clone(), ix[k]);
                        proof {
                            assert(ix@.take(k + 1) =~= ix@.take(k as int).push(ix@[k as int]));
                            assert(spec_name_pairs(name@, ix@.take(k + 1))
                                =~= spec_name_pairs(name@, ix@.take(k as int)).push(
                                (name@, ix@[k as int]),
                            ));
                        }
                        k = k + 1;
                    }
                    proof {
                        assert(ix@.take(ix@.len() as int) =~= ix@);
                        assert(fresh@ =~= fresh0 + spec_name_pairs(name@, ix@));
                        assert((fresh0 + spec_name_pairs(name@, ix@)) + (match spec_group_pairs(
                            entries@.skip(e + 1),
                            m0,
                        ) {
                            Ok(rest) => rest,
                            Err(_) => Seq::empty(),
                        }) =~= fresh0 + (spec_name_pairs(name@, ix@) + (match spec_group_pairs(
                            entries@.skip(e + 1),
                            m0,
                        ) {
                            Ok(rest) => rest,
                            Err(_) => Seq::empty(),
                        })));
                    }
                    e = e + 1;
                }
                proof {
                    assert(entries@.skip(entries@.len() as int)
                        =~= Seq::<(String, SelectMany)>::empty());
                    assert(fresh@ + Seq::<(Seq<char>, usize)>::empty() =~= fresh@);
                }
                let mut installed = false;
                if let Some(g) = &mut target.groups {
                    g.extend_with(&fresh);
                    installed = true;
                }
                if !installed {
                    target.groups = Some(fresh);
                }
                proof {
                    let expect = spec_filter(*self, m0);
                    let ghost g_target = target;
                    match g_target.groups {
                        Some(g) => {
                            match m0.groups {
                                Some(g0) => {
                                    assert(g@ =~= g0 + (match spec_group_pairs(entries@, m0) {
                                        Ok(p) => p,
                                        Err(_) => Seq::empty(),
                                    }));
                                },
                                None => {},
                            }
                            assert forall|k: int| 0 <= k < g@.len()
                                implies (#[trigger] g@[k]).1 < target.atoms@.len() by {
                                match m0.groups {
                                    Some(g0) => {
                                        if k >= g0.len() {
                                            assert(g@[k] == (match spec_group_pairs(
                                                entries@,
                                                m0,
                                            ) {
                                                Ok(p) => p,
                                                Err(_) => Seq::empty(),
                                            })[k - g0.len()]);
                                        }
                                    },
                                    None => {},
                                }
                            }
                        },
                        None => {
                            assert(false);
                        },
                    }
                    assert(mol_model(target) == (match expect {
                        Ok(model) => model,
                        Err(_) => mol_model(target),
                    }));
                }
                Ok(Filtered::Done(target))
            },
            Layer::IdMap(pairs) => {
                let mut target = m;
                let len = target.atoms.len();
                let mut v: usize = 0;
                while v < pairs.len()
                    invariant
                        v <= pairs@.len(),
                        target == m,
                        len == m0.atoms.len(),
                        forall|k: int| 0 <= k < v ==> (#[trigger] pairs@[k]).1 < m0.atoms.len(),
                    decreases pairs@.len() - v,
                {
                    if pairs[v].1 >= len {
                        proof {
                            assert(!spec_ids_ok(pairs@, m0)) by {
                                assert(pairs@[v as int].1 >= m0.atoms.len());
                            }
                        }
                        return Err(StructuralError::RangeOutOfBounds);
                    }
                    v = v + 1;
                }
                let mut ids = match target.ids {
                    Some(x) => x,
                    None => IdMap(Vec::new()),
                };
                let ghost base = ids@;
                proof {
                    assert(pairs@.take(0) =~= Seq::<(String, usize)>::empty());
                    match m0.ids {
                        Some(x) => {
                            assert(base == x);
                        },
                        None => {
                            assert(base =~= Seq::<(Seq<char>, usize)>::empty());
                        },
                    }
                    assert(spec_ids_ok(pairs@, m0));
                }
                let mut k: usize = 0;
                while k < pairs.len()
                    invariant
                        k <= pairs@.len(),
                        crate::group_name::id_map_wf(ids@),
                        ids@ == spec_ids_inserted(base, pairs@.take(k as int)),
                    decreases pairs@.len() - k,
                {
                    let name = pairs[k].0.clone();
                    let value = pairs[k].1;
                    ids.insert(name, value);
                    proof {
                        assert(pairs@.take(k + 1) =~= pairs@.take(k as int).push(pairs@[k as int]));
                        lemma_ids_inserted_push(base, pairs@.take(k as int), pairs@[k as int]);
                    }
                    k = k + 1;
                }
                proof {
                    assert(pairs@.take(pairs@.len() as int) =~= pairs@);
                    lemma_ids_inserted_bounded(base, pairs@, m0.atoms.len() as int);
                }
                target.ids = Some(ids);
                proof {
                    assert(mol_wf(target));
                    let ghost g_target = target;
                    match (g_target.ids, m0.ids) {
                        (Some(got), Some(x)) => {
                            assert(got@ == spec_ids_inserted(x, pairs@));
                        },
                        (Some(got), None) => {
                            assert(got@ == spec_ids_inserted(Seq::empty(), pairs@)) by {
                                assert(base == Seq::<(Seq<char>, usize)>::empty());
                            }
                        },
                        _ => {
                            assert(false);
                        },
                    }
                    assert(mol_model(target) == (match spec_filter(*self, m0) {
                        Ok(model) => model,
                        Err(_) => mol_model(target),
                    }));
                }
                Ok(Filtered::Done(target))
            },
            Layer::RemoveAtoms(sel) => {
                let mut target = m;
                let ix = match sel.to_indexes(&target) {
                    Ok(ix) => ix,
                    Err(err) => {
                        return Err(err);
                    },
                };
                let ghost orig = target.atoms@;
                let n0 = target.atoms.len();
                let mut k: usize = 0;
                while k < ix.len()
                    invariant
                        k <= ix@.len(),
                        orig.len() == n0,
                        target.bonds == m.bonds,
                        target.ids == m.ids,
                        target.groups == m.groups,
                        target.title == m.title,
                        forall|q: int| 0 <= q < ix@.len() ==> ix@[q] < orig.len(),
                        target.atoms@ =~= spec_atoms_removed(orig, ix@.take(k as int)),
                    decreases ix@.len() - k,
                {
                    let mut one: Vec<Option<Atom3D>> = Vec::new();
                    one.push(None);
                    target.atoms.set_atoms(ix[k], one);
                    proof {
                        assert(ix@.take(k + 1) =~= ix@.take(k as int).push(ix@[k as int]));
                        assert forall|i: int|
                            0 <= i < orig.len() implies target.atoms@[i]
                            == spec_atoms_removed(orig, ix@.take(k + 1))[i] by {
                            if ix@.take(k + 1).contains(i as usize) {
                                if !ix@.take(k as int).contains(i as usize) {
                                    let q = choose|q: int|
                                        0 <= q < ix@.take(k + 1).len()
                                            && #[trigger] ix@.take(k + 1)[q] == i as usize;
                                    if q < k {
                                        assert(ix@.take(k as int)[q] == i as usize);
                                        assert(false);
                                    }
                                    assert(i == ix@[k as int]);
                                }
                            } else {
                                assert(ix@.take(k + 1)[k as int] == ix@[k as int]);
                                assert(i != ix@[k as int]);
                                assert(!ix@.take(k as int).contains(i as usize)) by {
                                    if ix@.take(k as int).contains(i as usize) {
                                        let q = choose|q: int|
                                            0 <= q < ix@.take(k as int).len()
                                                && #[trigger] ix@.take(k as int)[q] == i as usize;
                                        assert(ix@.take(k + 1)[q] == i as usize);
                                    }
                                }
                            }
                        }
                        assert(target.atoms@ =~= spec_atoms_removed(orig, ix@.take(k + 1)));
                    }
                    k = k + 1;
                }
                proof {
                    assert(ix@.take(ix@.len() as int) =~= ix@);
                    assert(mol_wf(target)) by {
                        assert(target.atoms@.len() == orig.len());
                    }
                }
                Ok(Filtered::Done(target))
            },
            Layer::RemoveBonds(sa, sb) => {
                let ia = match sa.to_index(&m) {
                    Some(i) => i,
                    None => {
                        return Err(StructuralError::UnknownSelector);
                    },
                };
                let ib = match sb.to_index(&m) {
                    Some(i) => i,
                    None => {
                        return Err(StructuralError::UnknownSelector);
                    },
                };
                let len = m.atoms.len();
                if ia >= len || ib >= len {
                    return Err(StructuralError::RangeOutOfBounds);
                }
                let mut target = m;
                target.bonds.set_bond(ia, ib, None);
                proof {
                    let bspec = spec_bonds_set(m0.bonds, ia as int, ib as int, None);
                    assert forall|x: int, y: int|
                        0 <= x < bspec.len() && 0 <= y < bspec.len()
                        implies target.bonds@[x][y] == bspec[x][y] by {
                        assert(target.bonds@[x][y] == spec_read_bond(target.bonds@, x, y));
                    }
                    assert(forall|x: int|
                        0 <= x < bspec.len() ==> (#[trigger] target.bonds@[x]).len()
                            == bspec.len());
                    assert(target.bonds@ =~~= bspec);
                }
                Ok(Filtered::Done(target))
            },
            Layer::Isometry { isometry, select } => {
                let ix = match select.to_indexes(&m) {
                    Ok(ix) => ix,
                    Err(err) => {
                        return Err(err);
                    },
                };
                let ghost keep = |i: usize| spec_read_atom(m.atoms@, i as int) is Some;
                let mut targets: Vec<usize> = Vec::new();
                proof {
                    assert(ix@.take(0) =~= Seq::<usize>::empty());
                    assert(ix@.take(0).filter(keep) =~= Seq::<usize>::empty()) by {
                        reveal(Seq::filter);
                    }
                }
                let mut k: usize = 0;
                while k < ix.len()
                    invariant
                        k <= ix@.len(),
                        forall|q: int| 0 <= q < ix@.len() ==> ix@[q] < m.atoms@.len(),
                        targets@ == ix@.take(k as int).filter(keep),
                    decreases ix@.len() - k,
                {
                    let idx = ix[k];
                    let here = m.atoms.read_atom(idx);
                    if here.is_some() {
                        targets.push(idx);
                    }
                    proof {
                        crate::group_name::lemma_filter_push(ix@.take(k as int), keep, ix@[k as int]);
                        assert(ix@.take(k + 1) =~= ix@.take(k as int).push(ix@[k as int]));
                        if keep(ix@[k as int]) {
                            assert(targets@ =~= ix@.take(k as int).filter(keep) + seq![ix@[k as int]]);
                        } else {
                            assert(targets@ =~= ix@.take(k as int).filter(keep)
                                + Seq::<usize>::empty());
                        }
                    }
                    k = k + 1;
                }
                proof {
                    assert(ix@.take(ix@.len() as int) =~= ix@);
                }
                Ok(
                    Filtered::Pending(
                        IsometryTask { molecule: m, transform: *isometry, targets },
                    ),
                )
            },
        }
    }
}

/// Positions written back over present atoms, one write per listed
/// target in order; a later write to the same slot wins. Each written
/// slot keeps its element and takes the new position.
pub open spec fn spec_positions_written(
    a: Seq<Option<Atom3D>>,
    ts: Seq<usize>,
    ps: Seq<Position>,
) -> Seq<Option<Atom3D>>
    decreases ts.len(),
{
    if ts.len() == 0 || ps.len() == 0 {
        a
    } else {
        let i = ts.first() as int;
        let stepped = if 0 <= i < a.len() && a[i] is Some {
            a.update(
                i,
                Some(Atom3D { element: a[i].unwrap().element, position: ps.first() }),
            )
        } else {
            a
        };
        spec_positions_written(stepped, ts.drop_first(), ps.drop_first())
    }
}

/// Complete a suspended rigid-transform application: write the moved
/// positions back onto the task's targets. The caller computed
/// `positions`, one for each target, outside the library; everything
/// else about the molecule stays as it was.
pub fn complete_isometry(task: IsometryTask, positions: &Vec<Position>) -> (r: SparseMolecule)
    requires
        mol_wf(task.molecule),
        positions@.len() == task.targets@.len(),
    ensures
        mol_wf(r),
        r.atoms@ == spec_positions_written(task.molecule.atoms@, task.targets@, positions@),
        r.bonds == task.molecule.bonds,
        r.ids == task.molecule.ids,
        r.groups == task.molecule.groups,
        r.title == task.molecule.title,
{
    let IsometryTask { molecule, transform: _, targets } = task;
    let mut target = molecule;
    let ghost orig = target.atoms@;
    let n0 = target.atoms.len();
    proof {
        assert(targets@.skip(0) =~= targets@);
        assert(positions@.skip(0) =~= positions@);
    }
    let mut k: usize = 0;
    while k < targets.len()
        invariant
            k <= targets@.len(),
            orig.len() == n0,
            positions@.len() == targets@.len(),
            target.bonds == molecule.bonds,
            target.ids == molecule.ids,
            target.groups == molecule.groups,
            target.title == molecule.title,
            target.atoms@.len() == orig.len(),
            spec_positions_written(orig, targets@, positions@) == spec_positions_written(
                target.atoms@,
                targets@.skip(k as int),
                positions@.skip(k as int),
            ),
        decreases targets@.len() - k,
    {
        proof {
            assert(targets@.skip(k as int).first() == targets@[k as int]);
            assert(targets@.skip(k as int).drop_first() =~= targets@.skip(k + 1));
            assert(positions@.skip(k as int).first() == positions@[k as int]);
            assert(positions@.skip(k as int).drop_first() =~= positions@.skip(k + 1));
        }
        let idx = targets[k];
        let here = target.atoms.read_atom(idx);
        match here {
            Some(atom) => {
                let ghost before = target.atoms@;
                let mut one: Vec<Option<Atom3D>> = Vec::new();
                one.push(Some(Atom3D { element: atom.element, position: positions[k] }));
                target.atoms.set_atoms(idx, one);
                proof {
                    assert(target.atoms@ =~= before.update(
                        idx as int,
                        Some(Atom3D { element: before[idx as int].unwrap().element, position: positions@[k as int] }),
                    ));
                }
            },
            None => {},
        }
        k = k + 1;
    }
    proof {
        assert(targets@.skip(targets@.len() as int) =~= Seq::<usize>::empty());
        assert(positions@.skip(targets@.len() as int) =~= Seq::<Position>::empty());
        assert(mol_wf(target)) by {
            assert(target.atoms@.len() == orig.len());
        }
    }
    target
}


/// Whether applying a layer to a molecule respects the machine limits
/// that `filter` demands.
pub fn filter_fits_check(l: &Layer, m: &SparseMolecule) -> (r: bool)
    ensures
        r == filter_fits(*l, mol_model(*m)),
{
    match l {
        Layer::SetAtom { index, .. } => *index < usize::MAX,
        Layer::SetBond { a, b, .. } => {
            let top = if *a > *b {
                *a
            } else {
                *b
            };
            top < usize::MAX
        },
        _ => true,
    }
}


impl Layer {
    /// Decide well-formedness: a merge layer must carry a well-formed
    /// molecule; every other layer is well-formed as it stands.
    pub fn check_wf(&self) -> (r: bool)
        ensures
            r == layer_wf(*self),
    {
        match self {
            Layer::Fill(other) => other.check_wf(),
            _ => true,
        }
    }
}

} // verus!
