use vstd::prelude::*;

use vstd::string::StringExecFns;

use crate::chemistry::{atom_valid, element_num_to_symbol, spec_symbol, Position};
use crate::layer::Layer;
use crate::sparse_molecule::{count_valid, mol_wf, SparseMolecule};
use crate::workflow_data::RunnerOutput;
use crate::workspace::{storage_wf, LayerStorage};

verus! {

/// The sparse-to-continuous map of a list: one pair per
/// present-and-valid atom, in sparse order.
pub open spec fn spec_atom_map(s: Seq<Option<crate::chemistry::Atom3D>>, upto: int) -> Seq<
    (usize, usize),
>
    decreases upto,
{
    if upto <= 0 {
        Seq::empty()
    } else if atom_valid(s[upto - 1]) {
        spec_atom_map(s, upto - 1).push(
            ((upto - 1) as usize, count_valid(s, upto - 1) as usize),
        )
    } else {
        spec_atom_map(s, upto - 1)
    }
}

/// Everything an XYZ export needs from one structure: the title, the
/// count of present-and-valid atoms, one line per such atom in sparse
/// order (element symbol and position words), and the sparse-to-
/// continuous atom map.
#[derive(Debug, Clone, PartialEq)]
pub struct XyzDocument {
    pub title: String,
    pub atom_count: usize,
    pub lines: Vec<(String, Position)>,
    pub atom_map: Vec<(usize, usize)>,
}

/// Collect the XYZ export data of a structure: the atom map holds
/// exactly the present-and-valid sparse indices paired with their
/// continuous indices, and one line stands for each of them in order,
/// carrying that atom's position. Writing the lines to a file is the
/// caller's work.
pub fn xyz_document(mol: &SparseMolecule) -> (r: XyzDocument)
    ensures
        r.title@ == mol.title@,
        r.atom_count == count_valid(mol.atoms@, mol.atoms@.len() as int),
        r.atom_map@ == spec_atom_map(mol.atoms@, mol.atoms@.len() as int),
        r.lines@.len() == r.atom_count,
        forall|i: int|
            0 <= i < mol.atoms@.len() && atom_valid(mol.atoms@[i]) ==> (#[trigger] r.lines@[
                count_valid(mol.atoms@, i) as int
            ]).1 == mol.atoms@[i].unwrap().position && r.lines@[
                count_valid(mol.atoms@, i) as int
            ].0@ == spec_symbol(mol.atoms@[i].unwrap().element),
{
    let mut lines: Vec<(String, Position)> = Vec::new();
    let mut atom_map: Vec<(usize, usize)> = Vec::new();
    let mut count: usize = 0;
    let mut i: usize = 0;
    while i < mol.atoms.0.len()
        invariant
            i <= mol.atoms@.len(),
            count <= i,
            count == count_valid(mol.atoms@, i as int),
            lines@.len() == count,
            atom_map@ == spec_atom_map(mol.atoms@, i as int),
            forall|k: int|
                0 <= k < i && atom_valid(mol.atoms@[k]) ==> (#[trigger] lines@[
                    count_valid(mol.atoms@, k) as int
                ]).1 == mol.atoms@[k].unwrap().position && lines@[
                    count_valid(mol.atoms@, k) as int
                ].0@ == spec_symbol(mol.atoms@[k].unwrap().element),
        decreases mol.atoms@.len() - i,
    {
        let slot = mol.atoms.0[i];
        match slot {
            Some(atom) => match element_num_to_symbol(atom.element) {
                Some(symbol) => {
                    lines.push((String::from_str(symbol), atom.position));
                    atom_map.push((i, count));
                    count = count + 1;
                },
                None => {},
            },
            None => {},
        }
        proof {
            assert forall|k: int|
                0 <= k < i + 1 && atom_valid(mol.atoms@[k]) implies (#[trigger] lines@[
                count_valid(mol.atoms@, k) as int
            ]).1 == mol.atoms@[k].unwrap().position && lines@[
                count_valid(mol.atoms@, k) as int
            ].0@ == spec_symbol(mol.atoms@[k].unwrap().element) by {
                if k < i {
                    crate::sparse_molecule::lemma_count_valid_mono(mol.atoms@, k + 1, i as int);
                }
            }
        }
        i = i + 1;
    }
    XyzDocument { title: mol.title.clone(), atom_count: count, lines, atom_map }
}

/// Where the stacks of group `i` of a substituent output begin,
/// counting from the front of the stored block: one layer per window
/// stack, group by group.
pub open spec fn spec_fill_block(window_len: int, i: int) -> int {
    i * window_len
}

/// The `Substituent` runner's bookkeeping, once every attachment
/// overlay has been generated: for each substituent, in the given
/// order, its overlays are stored as merge layers (one per stack of the
/// current window, in window order), and its group holds each window
/// stack extended by the id of its own overlay. The caller parsed the
/// substituent files and computed the overlays; group names follow the
/// given order, which the caller keeps sorted as the output contract
/// asks.
pub fn substituent_output(
    storage: &mut LayerStorage,
    window_stacks: &Vec<Vec<usize>>,
    generated: Vec<(String, Vec<SparseMolecule>)>,
) -> (r: RunnerOutput)
    requires
        storage_wf(old(storage)@),
        forall|i: int|
            0 <= i < generated@.len() ==> (#[trigger] generated@[i]).1@.len()
                == window_stacks@.len(),
        forall|i: int, k: int|
            0 <= i < generated@.len() && 0 <= k < generated@[i].1@.len() ==> mol_wf(
                #[trigger] generated@[i].1@[k],
            ),
        old(storage)@.len() + generated@.len() * window_stacks@.len() <= usize::MAX,
    ensures
        storage_wf(final(storage)@),
        final(storage)@.len() == old(storage)@.len() + generated@.len() * window_stacks@.len(),
        forall|q: int| 0 <= q < old(storage)@.len() ==> final(storage)@[q] == old(storage)@[q],
        forall|i: int, k: int|
            0 <= i < generated@.len() && 0 <= k < window_stacks@.len()
                ==> final(storage)@[
                old(storage)@.len() + spec_fill_block(window_stacks@.len() as int, i) + k
            ] == Some(Layer::Fill((#[trigger] generated@[i].1@[k]))),
        r matches RunnerOutput::Named(groups) && groups@.len() == generated@.len() && forall|
            i: int,
        |
            0 <= i < groups@.len() ==> (#[trigger] groups@[i]).0 == generated@[i].0
                && groups@[i].1@.len() == window_stacks@.len() && forall|k: int|
                0 <= k < window_stacks@.len() ==> (#[trigger] groups@[i].1@[k])@
                    == window_stacks@[k]@.push(
                    (old(storage)@.len() + spec_fill_block(window_stacks@.len() as int, i)
                        + k) as usize,
                ),
{
    let wlen = window_stacks.len();
    let mut out: Vec<(String, Vec<Vec<usize>>)> = Vec::new();
    let mut generated = generated;
    let total = generated.len();
    let ghost input = generated@;
    let ghost start0 = old(storage)@.len() as int;
    let mut i: usize = 0;
    while generated.len() > 0
        invariant
            i <= input.len(),
            input.len() == total,
            generated@ == input.skip(i as int),
            wlen == window_stacks@.len(),
            forall|q: int|
                0 <= q < input.len() ==> (#[trigger] input[q]).1@.len() == wlen,
            forall|q: int, k: int|
                0 <= q < input.len() && 0 <= k < input[q].1@.len() ==> mol_wf(
                    #[trigger] input[q].1@[k],
                ),
            start0 + input.len() * wlen <= usize::MAX,
            storage_wf(storage@),
            storage@.len() == start0 + i * wlen,
            forall|q: int| 0 <= q < start0 ==> storage@[q] == old(storage)@[q],
            forall|q: int, k: int|
                0 <= q < i && 0 <= k < wlen ==> storage@[
                    start0 + spec_fill_block(wlen as int, q) + k
                ] == Some(Layer::Fill((#[trigger] input[q].1@[k]))),
            out@.len() == i,
            forall|q: int|
                0 <= q < i ==> (#[trigger] out@[q]).0 == input[q].0 && out@[q].1@.len() == wlen
                    && forall|k: int|
                    0 <= k < wlen ==> (#[trigger] out@[q].1@[k])@ == window_stacks@[k]@.push(
                        (start0 + spec_fill_block(wlen as int, q) + k) as usize,
                    ),
        decreases generated@.len(),
    {
        proof {
            assert(input.skip(i as int).first() == input[i as int]);
            assert(input.skip(i as int).drop_first() =~= input.skip(i + 1));
            assert((i + 1) * wlen == i * wlen + wlen) by (nonlinear_arith);
            assert(input.len() * wlen >= (i + 1) * wlen) by (nonlinear_arith)
                requires
                    i + 1 <= input.len(),
                    wlen >= 0,
            {
            }
            assert(i * wlen >= 0) by (nonlinear_arith)
                requires
                    i >= 0,
                    wlen >= 0,
            {
            }
        }
        let (name, mols) = generated.remove(0);
        let mut fills: Vec<Layer> = Vec::new();
        let mut mols = mols;
        let ghost mols_in = mols@;
        proof {
            assert(mols_in == input[i as int].1@);
        }
        let mut k: usize = 0;
        while mols.len() > 0
            invariant
                k <= mols_in.len(),
                mols@ == mols_in.skip(k as int),
                forall|q: int| 0 <= q < mols_in.len() ==> mol_wf(#[trigger] mols_in[q]),
                fills@.len() == k,
                forall|q: int|
                    0 <= q < k ==> #[trigger] fills@[q] == Layer::Fill(mols_in[q]),
            decreases mols@.len(),
        {
            proof {
                assert(mols_in.skip(k as int).first() == mols_in[k as int]);
                assert(mols_in.skip(k as int).drop_first() =~= mols_in.skip(k + 1));
            }
            let mol = mols.remove(0);
            fills.push(Layer::Fill(mol));
            k = k + 1;
        }
        let ghost fills_snap = fills@;
        let ghost pre_storage = storage@;
        let (block_start, block_end) = storage.create_layers(fills);
        let mut group: Vec<Vec<usize>> = Vec::new();
        let mut k2: usize = 0;
        while k2 < wlen
            invariant
                k2 <= wlen,
                wlen == window_stacks@.len(),
                block_start + wlen <= usize::MAX,
                group@.len() == k2,
                forall|q: int|
                    0 <= q < k2 ==> (#[trigger] group@[q])@ == window_stacks@[q]@.push(
                        (block_start + q) as usize,
                    ),
            decreases wlen - k2,
        {
            let mut path = crate::workflow_data::copy_path(&window_stacks[k2]);
            path.push(block_start + k2);
            group.push(path);
            k2 = k2 + 1;
        }
        out.push((name, group));
        proof {
            assert forall|q: int, k: int|
                0 <= q < i + 1 && 0 <= k < wlen implies storage@[
                start0 + spec_fill_block(wlen as int, q) + k
            ] == Some(Layer::Fill((#[trigger] input[q].1@[k]))) by {
                assert(q * wlen >= 0) by (nonlinear_arith)
                    requires
                        q >= 0,
                        wlen >= 0,
                {
                }
                assert((q + 1) * wlen == q * wlen + wlen) by (nonlinear_arith);
                assert((q + 1) * wlen <= (i + 1) * wlen) by (nonlinear_arith)
                    requires
                        q + 1 <= i + 1,
                        wlen >= 0,
                {
                }
                if q == i {
                    assert(block_start == start0 + i * wlen);
                    assert(storage@[block_start + k] == Some(fills_snap[k]));
                    assert(fills_snap[k] == Layer::Fill(mols_in[k]));
                } else {
                    assert((q + 1) * wlen <= i * wlen) by (nonlinear_arith)
                        requires
                            q + 1 <= i,
                            wlen >= 0,
                    {
                    }
                    assert(pre_storage[start0 + spec_fill_block(wlen as int, q) + k]
                        == Some(Layer::Fill(input[q].1@[k])));
                    assert(storage@[start0 + spec_fill_block(wlen as int, q) + k]
                        == pre_storage[start0 + spec_fill_block(wlen as int, q) + k]);
                }
            }
        }
        i = i + 1;
    }
    proof {
        assert(input.skip(input.len() as int) =~= Seq::<(String, Vec<SparseMolecule>)>::empty());
    }
    RunnerOutput::Named(out)
}

} // verus!
