use vstd::prelude::*;

use vstd::string::StringExecFns;

use crate::chemistry::Atom3D;
use crate::layer::{mol_model, spec_sel_one, SelectOne};
use crate::sparse_molecule::{
    mol_wf, spec_read_atom, spec_read_bond, SparseAtomList, SparseMolecule,
};

verus! {

/// A failed substituent attachment: one of the four designated atoms
/// could not be found.
#[derive(Debug, Clone, Copy, PartialEq, Eq, Structural)]
pub enum SubstituentError {
    EntryAtomNotFoundInTarget,
    ExitAtomNotFoundInTarget,
    DirectionAtomNotFoundInSubstituent,
    OnBodyAtomNotFoundInSubstituent,
}

/// The sparse index a selector points at, provided an atom is actually
/// present there.
pub open spec fn sel_present_idx(sel: SelectOne, m: SparseMolecule) -> Option<usize> {
    match spec_sel_one(sel, mol_model(m)) {
        Some(i) => if spec_read_atom(m.atoms@, i as int) is Some {
            Some(i)
        } else {
            None
        },
        None => None,
    }
}

/// The four designated atoms of an attachment, as they stand before
/// the substituent is moved.
#[derive(Debug, Clone, Copy, PartialEq, Eq, Structural)]
pub struct AlignmentAtoms {
    pub target_entry: Atom3D,
    pub target_exit: Atom3D,
    pub direction: Atom3D,
    pub on_body: Atom3D,
}

/// A fragment plus the two designated atoms describing how to splice it
/// onto a host: `on_body` is merged into the host's entry position and
/// `direction` defines the fragment's outward direction.
#[derive(Debug, Clone, PartialEq)]
pub struct Substituent {
    pub direction: SelectOne,
    pub on_body: SelectOne,
    pub structure: SparseMolecule,
    pub substituent_name: String,
}

/// What gathering the four alignment atoms yields: the first selector
/// in the order entry, exit, direction, on-body that misses a present
/// atom decides the error.
pub open spec fn spec_alignment(
    sub: Substituent,
    target: SparseMolecule,
    entry: SelectOne,
    exit: SelectOne,
) -> Result<AlignmentAtoms, SubstituentError> {
    match sel_present_idx(entry, target) {
        None => Err(SubstituentError::EntryAtomNotFoundInTarget),
        Some(e) => match sel_present_idx(exit, target) {
            None => Err(SubstituentError::ExitAtomNotFoundInTarget),
            Some(x) => match sel_present_idx(sub.direction, sub.structure) {
                None => Err(SubstituentError::DirectionAtomNotFoundInSubstituent),
                Some(d) => match sel_present_idx(sub.on_body, sub.structure) {
                    None => Err(SubstituentError::OnBodyAtomNotFoundInSubstituent),
                    Some(o) => Ok(
                        AlignmentAtoms {
                            target_entry: target.atoms@[e as int].unwrap(),
                            target_exit: target.atoms@[x as int].unwrap(),
                            direction: sub.structure.atoms@[d as int].unwrap(),
                            on_body: sub.structure.atoms@[o as int].unwrap(),
                        },
                    ),
                },
            },
        },
    }
}

impl Substituent {
    pub fn new(
        direction: SelectOne,
        on_body: SelectOne,
        structure: SparseMolecule,
        substituent_name: String,
    ) -> (r: Self)
        ensures
            r.direction == direction,
            r.on_body == on_body,
            r.structure == structure,
            r.substituent_name == substituent_name,
    {
        Substituent { direction, on_body, structure, substituent_name }
    }

    /// Gather the four designated atoms of an attachment. The rigid
    /// transform that aligns the fragment is computed from these four
    /// positions outside the library.
    pub fn alignment_atoms(
        &self,
        target: &SparseMolecule,
        entry: &SelectOne,
        exit: &SelectOne,
    ) -> (r: Result<AlignmentAtoms, SubstituentError>)
        requires
            mol_wf(*target),
            mol_wf(self.structure),
        ensures
            r == spec_alignment(*self, *target, *entry, *exit),
    {
        let target_entry = match entry.get_atom(target) {
            Some(a) => a,
            None => {
                return Err(SubstituentError::EntryAtomNotFoundInTarget);
            },
        };
        let target_exit = match exit.get_atom(target) {
            Some(a) => a,
            None => {
                return Err(SubstituentError::ExitAtomNotFoundInTarget);
            },
        };
        let direction = match self.direction.get_atom(&self.structure) {
            Some(a) => a,
            None => {
                return Err(SubstituentError::DirectionAtomNotFoundInSubstituent);
            },
        };
        let on_body = match self.on_body.get_atom(&self.structure) {
            Some(a) => a,
            None => {
                return Err(SubstituentError::OnBodyAtomNotFoundInSubstituent);
            },
        };
        Ok(AlignmentAtoms { target_entry, target_exit, direction, on_body })
    }

    /// Build the overlay that splices the moved fragment onto the
    /// target, from the fragment's atom list as it stands after the
    /// rigid transform (`moved`, computed outside the library, same
    /// slots present as the fragment): the fragment is shifted past the
    /// target's last slot, its direction and on-body slots are cleared,
    /// the moved on-body atom is written into the target's entry slot,
    /// every bond around the on-body atom is wired to the entry slot
    /// with its order kept, group labels get the substituent's name as
    /// a prefix, identifier bindings are cleared, and the title becomes
    /// the target's title, an underscore and the substituent's name.
    /// Merging this overlay over the materialized target (`Layer::Fill`)
    /// yields the combined structure.
    #[verifier::rlimit(100)]
    pub fn generate_layer_moved(
        &self,
        target: &SparseMolecule,
        entry: &SelectOne,
        moved: SparseAtomList,
    ) -> (r: Result<SparseMolecule, SubstituentError>)
        requires
            mol_wf(*target),
            mol_wf(self.structure),
            moved@.len() == self.structure.atoms@.len(),
            forall|i: int|
                0 <= i < moved@.len() ==> ((#[trigger] moved@[i]) is Some
                    <==> self.structure.atoms@[i] is Some),
            target.atoms@.len() + self.structure.atoms@.len() <= usize::MAX,
            target.atoms@.len() + self.structure.bonds@.len() <= usize::MAX,
        ensures
            r is Ok <==> (sel_present_idx(*entry, *target) is Some && sel_present_idx(
                self.direction,
                self.structure,
            ) is Some && sel_present_idx(self.on_body, self.structure) is Some),
            sel_present_idx(*entry, *target) is None ==> r == Err::<
                SparseMolecule,
                _,
            >(SubstituentError::EntryAtomNotFoundInTarget),
            sel_present_idx(*entry, *target) is Some && sel_present_idx(
                self.direction,
                self.structure,
            ) is None ==> r == Err::<SparseMolecule, _>(
                SubstituentError::DirectionAtomNotFoundInSubstituent,
            ),
            sel_present_idx(*entry, *target) is Some && sel_present_idx(
                self.direction,
                self.structure,
            ) is Some && sel_present_idx(self.on_body, self.structure) is None ==> r == Err::<
                SparseMolecule,
                _,
            >(SubstituentError::OnBodyAtomNotFoundInSubstituent),
            r matches Ok(out) ==> mol_wf(out) && spec_generated_ok(
                *self,
                *target,
                *entry,
                moved,
                out,
            ),
    {
        let off = target.atoms.len();
        let e_idx = match entry.to_index(target) {
            Some(i) => if i < off && moved_present_probe(target, i) {
                i
            } else {
                return Err(SubstituentError::EntryAtomNotFoundInTarget);
            },
            None => {
                return Err(SubstituentError::EntryAtomNotFoundInTarget);
            },
        };
        let d_idx = match self.direction.to_index(&self.structure) {
            Some(i) => if self.structure.atoms.read_atom(i).is_some() {
                i
            } else {
                return Err(SubstituentError::DirectionAtomNotFoundInSubstituent);
            },
            None => {
                return Err(SubstituentError::DirectionAtomNotFoundInSubstituent);
            },
        };
        let o_idx = match self.on_body.to_index(&self.structure) {
            Some(i) => if self.structure.atoms.read_atom(i).is_some() {
                i
            } else {
                return Err(SubstituentError::OnBodyAtomNotFoundInSubstituent);
            },
            None => {
                return Err(SubstituentError::OnBodyAtomNotFoundInSubstituent);
            },
        };
        let replace_atom = match moved.read_atom(o_idx) {
            Some(a) => a,
            None => {
                return Err(SubstituentError::OnBodyAtomNotFoundInSubstituent);
            },
        };
        let ghost moved_v = moved@;
        let mut sub = self.structure.clone_mol();
        sub.atoms = moved;
        proof {
            assert(mol_wf(sub));
        }
        let mut clear_d: Vec<Option<Atom3D>> = Vec::new();
        clear_d.push(None);
        sub.atoms.set_atoms(d_idx, clear_d);
        let mut clear_o: Vec<Option<Atom3D>> = Vec::new();
        clear_o.push(None);
        sub.atoms.set_atoms(o_idx, clear_o);
        proof {
            assert(mol_wf(sub));
            assert(sub.atoms@.len() == moved_v.len());
            assert(forall|i: int|
                0 <= i < moved_v.len() ==> #[trigger] sub.atoms@[i] == (
                    if i == d_idx || i == o_idx {
                        None
                    } else {
                        moved_v[i]
                    }
                ));
        }
        let ghost sub_cleared = sub.atoms@;
        let mut out = sub.offset(off);
        let ghost at_offset = out;
        proof {
            assert(mol_wf(at_offset));
            assert(at_offset.atoms@.len() == off + self.structure.atoms@.len());
        }
        let mut entry_write: Vec<Option<Atom3D>> = Vec::new();
        entry_write.push(Some(replace_atom));
        out.atoms.set_atoms(e_idx, entry_write);
        let o_off = o_idx + off;
        let ghost bonds_before = out.bonds@;
        let ghost pre_wiring = out;
        match out.bonds.get_neighbors(o_off) {
            Some(row) => {
                let mut j: usize = 0;
                while j < row.len()
                    invariant
                        j <= row@.len(),
                        out.atoms == pre_wiring.atoms,
                        out.groups == pre_wiring.groups,
                        out.ids == pre_wiring.ids,
                        out.title == pre_wiring.title,
                        row@ == bonds_before[o_off as int],
                        o_off < bonds_before.len(),
                        e_idx < off <= o_off,
                        crate::sparse_molecule::bond_matrix_wf(out.bonds@),
                        out.bonds@.len() == bonds_before.len(),
                        forall|x: int, y: int|
                            0 <= x < bonds_before.len() && 0 <= y < bonds_before.len() && x != e_idx
                                && y != e_idx ==> spec_read_bond(out.bonds@, x, y)
                                == spec_read_bond(bonds_before, x, y),
                        forall|y: int|
                            0 <= y < j ==> spec_read_bond(out.bonds@, e_idx as int, y)
                                == spec_read_bond(bonds_before, o_off as int, y),
                        forall|y: int|
                            j <= y < bonds_before.len() && y != e_idx ==> spec_read_bond(
                                out.bonds@,
                                e_idx as int,
                                y,
                            ) == spec_read_bond(bonds_before, e_idx as int, y),
                        j <= e_idx ==> spec_read_bond(out.bonds@, e_idx as int, e_idx as int)
                            == spec_read_bond(bonds_before, e_idx as int, e_idx as int),
                    decreases row@.len() - j,
                {
                    let order = row[j];
                    proof {
                        assert(row@[j as int] == spec_read_bond(
                            bonds_before,
                            o_off as int,
                            j as int,
                        ));
                    }
                    out.bonds.set_bond(e_idx, j, order);
                    j = j + 1;
                }
            },
            None => {},
        }
        let ghost g_before = out.groups;
        let renamed = match &out.groups {
            Some(g) => Some(g.prefix_names(&self.substituent_name)),
            None => None,
        };
        out.groups = renamed;
        out.ids = None;
        out.title = target.title.clone().concat("_").concat(self.substituent_name.as_str());
        proof {
            let ghost cur = out.groups;
            assert(g_before == at_offset.groups);
            assert(out.atoms@.len() == at_offset.atoms@.len());
            match (g_before, cur) {
                (Some(g0), Some(g1)) => {
                    assert(g1@.len() == g0@.len());
                    assert forall|i: int|
                        0 <= i < g1@.len() implies (#[trigger] g1@[i]).1 < out.atoms@.len() by {
                        assert(g1@[i] == (self.substituent_name@ + "_"@ + g0@[i].0, g0@[i].1));
                        assert(g0@[i].1 < at_offset.atoms@.len());
                    }
                },
                (None, None) => {},
                _ => {
                    assert(false);
                },
            }
            assert(mol_wf(out));
            let offi = target.atoms@.len() as int;
            let e = e_idx as int;
            let d = d_idx as int;
            let o = o_idx as int;
            let n = self.structure.atoms@.len() as int;
            assert(sel_present_idx(*entry, *target) == Some(e_idx));
            assert(sel_present_idx(self.direction, self.structure) == Some(d_idx));
            assert(sel_present_idx(self.on_body, self.structure) == Some(o_idx));
            assert(out.atoms@.len() == offi + n);
            assert(out.atoms@[e] == moved@[o]);
            assert(forall|i: int| 0 <= i < offi && i != e ==> (#[trigger] out.atoms@[i]) is None);
            assert forall|i: int|
                0 <= i < n implies (#[trigger] out.atoms@[offi + i]) == (
                if i == d || i == o {
                    None
                } else {
                    moved@[i]
                }
            ) by {
                assert(out.atoms@[offi + i] == spec_read_atom(at_offset.atoms@, offi + i));
                assert(at_offset.atoms@[offi + i] == sub_cleared[i]);
                assert(sub_cleared[i] == (
                    if i == d || i == o {
                        None
                    } else {
                        moved_v[i]
                    }
                ));
            }
            let shifted_bonds = crate::layer::spec_bonds_offset(self.structure.bonds@, offi);
            assert(out.bonds@.len() == offi + self.structure.bonds@.len());
            assert(shifted_bonds.len() == offi + self.structure.bonds@.len());
            assert forall|p: int, q: int|
                spec_read_bond(bonds_before, p, q) == spec_read_bond(shifted_bonds, p, q) by {
                if 0 <= p < shifted_bonds.len() && 0 <= q < shifted_bonds.len() {
                    assert(shifted_bonds[p].len() == shifted_bonds.len());
                    assert(shifted_bonds[p][q] == (
                        if offi <= p && offi <= q {
                            spec_read_bond(self.structure.bonds@, p - offi, q - offi)
                        } else {
                            None
                        }
                    ));
                }
            }
            assert forall|x: int, y: int|
                0 <= x < out.bonds@.len() && 0 <= y < out.bonds@.len()
                implies #[trigger] spec_read_bond(out.bonds@, x, y) == (
                if o + offi < out.bonds@.len() && x == e {
                    spec_read_bond(shifted_bonds, o + offi, y)
                } else if o + offi < out.bonds@.len() && y == e {
                    spec_read_bond(shifted_bonds, o + offi, x)
                } else {
                    spec_read_bond(shifted_bonds, x, y)
                }
            ) by {
                assert(spec_read_bond(out.bonds@, x, y) == spec_read_bond(out.bonds@, y, x)) by {
                    crate::sparse_molecule::SparseBondMatrix::lemma_read_bond_symmetric(
                        out.bonds@,
                        x,
                        y,
                    );
                }
                assert(spec_read_bond(bonds_before, x, y) == spec_read_bond(shifted_bonds, x, y));
                assert(spec_read_bond(bonds_before, o + offi, y)
                    == spec_read_bond(shifted_bonds, o + offi, y));
                assert(spec_read_bond(bonds_before, o + offi, x)
                    == spec_read_bond(shifted_bonds, o + offi, x));
            }
            assert(out.title@ == target.title@ + "_"@ + self.substituent_name@);
        }
        Ok(out)
    }
}

/// Whether the target holds a present atom at a sparse index.
fn moved_present_probe(target: &SparseMolecule, i: usize) -> (r: bool)
    ensures
        r == (spec_read_atom(target.atoms@, i as int) is Some),
{
    target.atoms.read_atom(i).is_some()
}

/// The shape of a successful attachment overlay, stated over the inputs:
/// with `off` the target's length, `e` the entry index, `d` and `o` the
/// fragment's direction and on-body indexes, the overlay holds only
/// holes below `off` except the moved on-body atom standing in the
/// entry slot; above `off` it holds the moved fragment with the
/// direction and on-body slots cleared; every bond around the shifted
/// on-body slot is wired to the entry slot with its order kept and all
/// other pairs read as the shifted fragment declares; group labels are
/// prefixed with the substituent's name; identifier bindings are
/// cleared; and the title is the target's, an underscore and the name.
pub open spec fn spec_generated_ok(
    sub: Substituent,
    target: SparseMolecule,
    entry: SelectOne,
    moved: SparseAtomList,
    out: SparseMolecule,
) -> bool {
    let off = target.atoms@.len() as int;
    let e = sel_present_idx(entry, target).unwrap() as int;
    let d = sel_present_idx(sub.direction, sub.structure).unwrap() as int;
    let o = sel_present_idx(sub.on_body, sub.structure).unwrap() as int;
    let n = sub.structure.atoms@.len() as int;
    let shifted_bonds = crate::layer::spec_bonds_offset(sub.structure.bonds@, off);
    &&& out.atoms@.len() == off + n
    &&& out.atoms@[e] == moved@[o]
    &&& forall|i: int| 0 <= i < off && i != e ==> (#[trigger] out.atoms@[i]) is None
    &&& forall|i: int|
        0 <= i < n ==> (#[trigger] out.atoms@[off + i]) == (
            if i == d || i == o {
                None
            } else {
                moved@[i]
            }
        )
    &&& out.bonds@.len() == off + sub.structure.bonds@.len()
    &&& forall|x: int, y: int|
        0 <= x < out.bonds@.len() && 0 <= y < out.bonds@.len() ==> #[trigger] spec_read_bond(
            out.bonds@,
            x,
            y,
        ) == (
            if o + off < out.bonds@.len() && x == e {
                spec_read_bond(shifted_bonds, o + off, y)
            } else if o + off < out.bonds@.len() && y == e {
                spec_read_bond(shifted_bonds, o + off, x)
            } else {
                spec_read_bond(shifted_bonds, x, y)
            }
        )
    &&& match (sub.structure.groups, out.groups) {
        (Some(g0), Some(g1)) => g1@.len() == g0@.len() && forall|i: int|
            0 <= i < g0@.len() ==> (#[trigger] g1@[i]) == (
                sub.substituent_name@ + "_"@ + g0@[i].0,
                ((g0@[i].1 + off) as usize),
            ),
        (None, None) => true,
        _ => false,
    }
    &&& out.ids is None
    &&& out.title@ == target.title@ + "_"@ + sub.substituent_name@
}

} // verus!
