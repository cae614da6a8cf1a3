use vstd::prelude::*;

use crate::layer::{
    filter_fits, layer_pure, layer_wf, mol_model, spec_filter, Filtered, IsometryTask, Layer,
    MolModel, StructuralError,
};
use crate::sparse_molecule::{mol_wf, SparseMolecule};

verus! {

/// A failure while materializing a stack.
#[derive(Debug, Clone, Copy, PartialEq, Eq, Structural)]
pub enum LayerStorageError {
    /// The stack named a layer id the store does not hold.
    NoSuchLayer(usize),
    /// A layer application failed structurally.
    FilterError(StructuralError),
}

/// Every layer a store holds is well-formed.
pub open spec fn storage_wf(s: Seq<Option<Layer>>) -> bool {
    forall|i: int|
        0 <= i < s.len() && (#[trigger] s[i]) is Some ==> layer_wf(s[i].unwrap())
}

/// An id is referenced when some stack path names it.
pub open spec fn spec_referenced(stacks: Seq<Vec<usize>>, id: usize) -> bool {
    exists|s: int, k: int|
        0 <= s < stacks.len() && 0 <= k < stacks[s]@.len() && #[trigger] stacks[s]@[k] == id
}

/// An insert-only store of layers keyed by opaque integer ids. Ids are
/// never reused and never renumbered; removing a layer leaves its slot
/// empty.
#[derive(Debug, Clone, PartialEq)]
pub struct LayerStorage(pub Vec<Option<Layer>>);

impl View for LayerStorage {
    type V = Seq<Option<Layer>>;

    open spec fn view(&self) -> Seq<Option<Layer>> {
        self.0@
    }
}

impl Default for LayerStorage {
    /// The empty store.
    fn default() -> (r: Self)
        ensures
            r@ =~= Seq::<Option<Layer>>::empty(),
            storage_wf(r@),
    {
        LayerStorage(Vec::new())
    }
}

impl LayerStorage {
    pub fn len(&self) -> (r: usize)
        ensures
            r == self@.len(),
    {
        self.0.len()
    }

    /// Insert the given layers and hand back the contiguous block of
    /// fresh ids `[start, end)` they received, in order.
    pub fn create_layers(&mut self, layers: Vec<Layer>) -> (r: (usize, usize))
        requires
            storage_wf(old(self)@),
            forall|i: int| 0 <= i < layers@.len() ==> layer_wf(#[trigger] layers@[i]),
            old(self)@.len() + layers@.len() <= usize::MAX,
        ensures
            storage_wf(final(self)@),
            r.0 == old(self)@.len(),
            r.1 == old(self)@.len() + layers@.len(),
            final(self)@.len() == old(self)@.len() + layers@.len(),
            forall|i: int| 0 <= i < old(self)@.len() ==> final(self)@[i] == old(self)@[i],
            forall|i: int|
                0 <= i < layers@.len() ==> final(self)@[old(self)@.len() + i] == Some(
                    layers@[i],
                ),
    {
        let start = self.0.len();
        let mut layers = layers;
        let mut k: usize = 0;
        let ghost input = layers@;
        while layers.len() > 0
            invariant
                k <= input.len(),
                layers@ == input.skip(k as int),
                self@.len() == start + k,
                storage_wf(self@),
                forall|i: int| 0 <= i < start ==> self@[i] == old(self)@[i],
                forall|i: int| 0 <= i < k ==> self@[start + i] == Some(input[i]),
            decreases layers@.len(),
        {
            proof {
                assert(input.skip(k as int).first() == input[k as int]);
                assert(input.skip(k as int).drop_first() =~= input.skip(k + 1));
            }
            let layer = layers.remove(0);
            self.0.push(Some(layer));
            k = k + 1;
        }
        (start, self.0.len())
    }

    /// The layer stored under an id, if the id was ever assigned and
    /// the layer not removed.
    pub fn read_layer(&self, id: usize) -> (r: Option<&Layer>)
        ensures
            match r {
                Some(l) => id < self@.len() && self@[id as int] == Some(*l),
                None => !(id < self@.len() && self@[id as int] is Some),
            },
    {
        if id < self.0.len() {
            self.0[id].as_ref()
        } else {
            None
        }
    }

    /// Clear every layer that no stack of `stacks` references. Ids stay
    /// as they are: a removed layer leaves an empty slot behind.
    pub fn remove_unused(&mut self, stacks: &Vec<Vec<usize>>)
        requires
            storage_wf(old(self)@),
        ensures
            storage_wf(final(self)@),
            final(self)@.len() == old(self)@.len(),
            forall|id: int|
                0 <= id < old(self)@.len() ==> final(self)@[id] == (
                    if spec_referenced(stacks@, id as usize) {
                        old(self)@[id]
                    } else {
                        None
                    }
                ),
    {
        let mut id: usize = 0;
        while id < self.0.len()
            invariant
                id <= self@.len(),
                storage_wf(self@),
                self@.len() == old(self)@.len(),
                forall|i: int| id <= i < self@.len() ==> self@[i] == old(self)@[i],
                forall|i: int|
                    0 <= i < id ==> self@[i] == (
                        if spec_referenced(stacks@, i as usize) {
                            old(self)@[i]
                        } else {
                            None
                        }
                    ),
            decreases self@.len() - id,
        {
            let mut used = false;
            let mut s: usize = 0;
            while s < stacks.len()
                invariant
                    s <= stacks@.len(),
                    used ==> spec_referenced(stacks@, id),
                    !used ==> forall|q: int, k: int|
                        0 <= q < s && 0 <= k < stacks@[q]@.len()
                            ==> #[trigger] stacks@[q]@[k] != id,
                decreases stacks@.len() - s,
            {
                let row = &stacks[s];
                let mut k: usize = 0;
                while k < row.len()
                    invariant
                        k <= row@.len(),
                        row@ == stacks@[s as int]@,
                        s < stacks@.len(),
                        used ==> spec_referenced(stacks@, id),
                        !used ==> forall|q: int| 0 <= q < k ==> row@[q] != id,
                        !used ==> forall|q: int, k2: int|
                            0 <= q < s && 0 <= k2 < stacks@[q]@.len()
                                ==> #[trigger] stacks@[q]@[k2] != id,
                    decreases row@.len() - k,
                {
                    if row[k] == id {
                        used = true;
                        proof {
                            assert(stacks@[s as int]@[k as int] == id);
                        }
                    }
                    k = k + 1;
                }
                proof {
                    if !used {
                        assert(forall|k2: int|
                            0 <= k2 < stacks@[s as int]@.len()
                                ==> #[trigger] stacks@[s as int]@[k2] != id);
                    }
                }
                s = s + 1;
            }
            if !used {
                proof {
                    assert(!spec_referenced(stacks@, id));
                }
                self.0.set(id, None);
            }
            id = id + 1;
        }
    }
}

impl LayerStorage {
    /// Decide well-formedness: every held layer is well-formed.
    pub fn check_wf(&self) -> (r: bool)
        ensures
            r == storage_wf(self@),
    {
        let mut i: usize = 0;
        while i < self.0.len()
            invariant
                i <= self@.len(),
                forall|x: int|
                    0 <= x < i && (#[trigger] self@[x]) is Some ==> layer_wf(self@[x].unwrap()),
            decreases self@.len() - i,
        {
            match &self.0[i] {
                Some(l) => {
                    if !l.check_wf() {
                        proof {
                            assert(self@[i as int] is Some && !layer_wf(self@[i as int].unwrap()));
                        }
                        return false;
                    }
                },
                None => {},
            }
            i = i + 1;
        }
        true
    }
}

/// Folding a base model through the layers a path names, first to last:
/// an empty path yields the base; a path `xs ++ [y]` yields the layer
/// `y` applied to the fold of `xs`. A missing layer or a failing
/// application decides the error.
pub open spec fn spec_materialize(
    base: MolModel,
    layers: Seq<Option<Layer>>,
    path: Seq<usize>,
) -> Result<MolModel, LayerStorageError>
    decreases path.len(),
{
    if path.len() == 0 {
        Ok(base)
    } else {
        let id = path.first();
        if !(id < layers.len() && layers[id as int] is Some) {
            Err(LayerStorageError::NoSuchLayer(id))
        } else {
            match spec_filter(layers[id as int].unwrap(), base) {
                Ok(next) => spec_materialize(next, layers, path.drop_first()),
                Err(e) => Err(LayerStorageError::FilterError(e)),
            }
        }
    }
}

/// A path is computable by the library alone when along it every named
/// layer that exists is pure and every application fits the machine;
/// where a layer is missing or an application fails, the path ends in
/// the same error either way and counts as computable up to it.
pub open spec fn spec_path_ok(base: MolModel, layers: Seq<Option<Layer>>, path: Seq<usize>) -> bool
    decreases path.len(),
{
    if path.len() == 0 {
        true
    } else {
        let id = path.first();
        if !(id < layers.len() && layers[id as int] is Some) {
            true
        } else {
            let l = layers[id as int].unwrap();
            layer_pure(l) && filter_fits(l, base) && (match spec_filter(l, base) {
                Ok(next) => spec_path_ok(next, layers, path.drop_first()),
                Err(_) => true,
            })
        }
    }
}

/// Materializing a concatenated path is materializing the first part
/// and folding the second from its result.
pub proof fn lemma_materialize_append(
    base: MolModel,
    layers: Seq<Option<Layer>>,
    p: Seq<usize>,
    q: Seq<usize>,
)
    ensures
        spec_materialize(base, layers, p + q) == (match spec_materialize(base, layers, p) {
            Ok(m) => spec_materialize(m, layers, q),
            Err(e) => Err(e),
        }),
    decreases p.len(),
{
    if p.len() == 0 {
        assert(p + q =~= q);
    } else {
        assert((p + q).first() == p.first());
        assert((p + q).drop_first() =~= p.drop_first() + q);
        let id = p.first();
        if id < layers.len() && layers[id as int] is Some {
            match spec_filter(layers[id as int].unwrap(), base) {
                Ok(next) => {
                    lemma_materialize_append(next, layers, p.drop_first(), q);
                },
                Err(_) => {},
            }
        }
    }
}

/// Law: materializing the empty path yields the base unchanged.
pub proof fn lemma_materialize_empty(base: MolModel, layers: Seq<Option<Layer>>)
    ensures
        spec_materialize(base, layers, Seq::empty()) == Ok::<MolModel, LayerStorageError>(base),
{
}

/// Law: materializing `xs ++ [y]` applies the layer `y` to the
/// materialization of `xs`: the fold grows one layer at a time at the
/// end of the path.
pub proof fn lemma_materialize_snoc(
    base: MolModel,
    layers: Seq<Option<Layer>>,
    xs: Seq<usize>,
    y: usize,
)
    ensures
        spec_materialize(base, layers, xs.push(y)) == (match spec_materialize(base, layers, xs) {
            Ok(m) => if y < layers.len() && layers[y as int] is Some {
                match spec_filter(layers[y as int].unwrap(), m) {
                    Ok(x) => Ok(x),
                    Err(e) => Err(LayerStorageError::FilterError(e)),
                }
            } else {
                Err(LayerStorageError::NoSuchLayer(y))
            },
            Err(e) => Err(e),
        }),
{
    assert(xs.push(y) =~= xs + seq![y]);
    lemma_materialize_append(base, layers, xs, seq![y]);
    match spec_materialize(base, layers, xs) {
        Ok(m) => {
            assert(seq![y].first() == y);
            assert(seq![y].drop_first() =~= Seq::<usize>::empty());
            if y < layers.len() && layers[y as int] is Some {
                match spec_filter(layers[y as int].unwrap(), m) {
                    Ok(x) => {
                        assert(spec_materialize(x, layers, seq![y].drop_first()) == Ok::<
                            MolModel,
                            LayerStorageError,
                        >(x));
                    },
                    Err(_) => {},
                }
            }
        },
        Err(_) => {},
    }
}

/// A computable path stays computable when one computable step is
/// appended.
pub proof fn lemma_path_ok_snoc(
    base: MolModel,
    layers: Seq<Option<Layer>>,
    xs: Seq<usize>,
    y: usize,
)
    requires
        spec_path_ok(base, layers, xs),
        match spec_materialize(base, layers, xs) {
            Ok(m) => y < layers.len() && layers[y as int] is Some ==> layer_pure(
                layers[y as int].unwrap(),
            ) && filter_fits(layers[y as int].unwrap(), m),
            Err(_) => true,
        },
    ensures
        spec_path_ok(base, layers, xs.push(y)),
    decreases xs.len(),
{
    if xs.len() == 0 {
        assert(xs.push(y).first() == y);
        assert(xs.push(y).drop_first() =~= Seq::<usize>::empty());
        assert(spec_materialize(base, layers, xs) == Ok::<MolModel, LayerStorageError>(base));
        if y < layers.len() && layers[y as int] is Some {
            let l = layers[y as int].unwrap();
            assert(layer_pure(l) && filter_fits(l, base));
            match spec_filter(l, base) {
                Ok(next) => {
                    assert(spec_path_ok(next, layers, xs.push(y).drop_first()));
                },
                Err(_) => {},
            }
        }
    } else {
        assert(xs.push(y).first() == xs.first());
        assert(xs.push(y).drop_first() =~= xs.drop_first().push(y));
        let id = xs.first();
        if id < layers.len() && layers[id as int] is Some {
            let l = layers[id as int].unwrap();
            assert(layer_pure(l) && filter_fits(l, base));
            match spec_filter(l, base) {
                Ok(next) => {
                    assert(spec_materialize(base, layers, xs) == spec_materialize(
                        next,
                        layers,
                        xs.drop_first(),
                    ));
                    lemma_path_ok_snoc(next, layers, xs.drop_first(), y);
                    assert(spec_path_ok(next, layers, xs.drop_first().push(y)));
                },
                Err(_) => {},
            }
        }
    }
}

/// A computable concatenated path has a computable first part, and its
/// second part is computable from the first part's materialization.
pub proof fn lemma_path_ok_append(
    base: MolModel,
    layers: Seq<Option<Layer>>,
    p: Seq<usize>,
    q: Seq<usize>,
)
    requires
        spec_path_ok(base, layers, p + q),
    ensures
        spec_path_ok(base, layers, p),
        match spec_materialize(base, layers, p) {
            Ok(m) => spec_path_ok(m, layers, q),
            Err(_) => true,
        },
    decreases p.len(),
{
    if p.len() == 0 {
        assert(p + q =~= q);
    } else {
        assert((p + q).first() == p.first());
        assert((p + q).drop_first() =~= p.drop_first() + q);
        let id = p.first();
        if id < layers.len() && layers[id as int] is Some {
            let l = layers[id as int].unwrap();
            match spec_filter(l, base) {
                Ok(next) => {
                    lemma_path_ok_append(next, layers, p.drop_first(), q);
                },
                Err(_) => {},
            }
        }
    }
}

/// Along a computable path, the layer standing at any step whose
/// prefix materializes is pure and fits, if it exists at all.
pub proof fn lemma_path_ok_step(
    base: MolModel,
    layers: Seq<Option<Layer>>,
    path: Seq<usize>,
    from: int,
    end: int,
    idx: int,
)
    requires
        0 <= from <= idx < end <= path.len(),
        spec_path_ok(base, layers, path.subrange(from, end)),
        spec_materialize(base, layers, path.subrange(from, idx)) is Ok,
    ensures
        path[idx] < layers.len() && layers[path[idx] as int] is Some ==> layer_pure(
            layers[path[idx] as int].unwrap(),
        ) && filter_fits(
            layers[path[idx] as int].unwrap(),
            spec_materialize(base, layers, path.subrange(from, idx)).unwrap(),
        ),
{
    let p = path.subrange(from, end);
    let head = path.subrange(from, idx);
    let tail = path.subrange(idx, end);
    assert(p =~= head + tail);
    lemma_path_ok_append(base, layers, head, tail);
    let mm = spec_materialize(base, layers, head).unwrap();
    assert(spec_path_ok(mm, layers, tail));
    assert(tail.first() == path[idx]);
}

/// The outcome of walking a stack path: either the materialized
/// molecule, or a suspended rigid-transform application together with
/// the position in the path at which to resume.
#[derive(Debug, Clone, PartialEq)]
pub enum StackOutcome {
    Done(SparseMolecule),
    Suspended { task: IsometryTask, next: usize },
}

/// Walk a stack path from position `from`, folding the base through
/// each named layer. Pure layers are applied outright; at a
/// rigid-transform layer the walk suspends and hands the caller the
/// task, to be completed with `complete_isometry` and resumed here with
/// the completed molecule and the returned position.
///
/// On a path that stays computable (`spec_path_ok`), the result is
/// exactly what `spec_materialize` assigns; a materialized molecule is
/// well-formed whatever the path held.
pub fn read_stack(
    base: SparseMolecule,
    storage: &LayerStorage,
    path: &Vec<usize>,
    from: usize,
) -> (r: Result<StackOutcome, LayerStorageError>)
    requires
        mol_wf(base),
        storage_wf(storage@),
        from <= path@.len(),
    ensures
        r matches Ok(StackOutcome::Done(x)) ==> mol_wf(x),
        spec_path_ok(mol_model(base), storage@, path@.skip(from as int)) ==> (match
            spec_materialize(mol_model(base), storage@, path@.skip(from as int)) {
            Ok(mm) => r matches Ok(StackOutcome::Done(x)) && mol_wf(x) && mol_model(x) == mm,
            Err(e) => r matches Err(e2) && e2 == e,
        }),
        r matches Ok(StackOutcome::Suspended { task, next }) ==> from < next <= path@.len()
            && mol_wf(task.molecule) && spec_path_ok(
            mol_model(base),
            storage@,
            path@.subrange(from as int, next - 1),
        ) && spec_materialize(
            mol_model(base),
            storage@,
            path@.subrange(from as int, next - 1),
        ) == Ok::<MolModel, LayerStorageError>(mol_model(task.molecule)),
        forall|j: int|
            from <= j < path@.len() && spec_path_ok(
                mol_model(base),
                storage@,
                path@.subrange(from as int, j),
            ) && path@[j] < storage@.len() && (#[trigger] storage@[path@[j] as int]) is Some
                && !layer_pure(storage@[path@[j] as int].unwrap()) ==> (match spec_materialize(
                mol_model(base),
                storage@,
                path@.subrange(from as int, j),
            ) {
                Ok(mm) => (match storage@[path@[j] as int].unwrap() {
                    Layer::Isometry { isometry, select } => (match crate::layer::spec_sel_many(
                        select,
                        mm,
                    ) {
                        Ok(ix) => r matches Ok(StackOutcome::Suspended { task, next }) && next == j
                            + 1 && mol_model(task.molecule) == mm && task.transform == isometry
                            && task.targets@ == crate::layer::spec_present_targets(ix, mm.atoms),
                        Err(e) => r matches Err(e2) && e2 == LayerStorageError::FilterError(e),
                    }),
                    _ => true,
                }),
                Err(_) => true,
            }),
    {
        let ghost base_model = mol_model(base);
        let mut current = base;
        let mut i: usize = from;
        proof {
            assert(path@.subrange(from as int, from as int) =~= Seq::<usize>::empty());
        }
        while i < path.len()
            invariant
                from <= i <= path@.len(),
                mol_wf(current),
                spec_path_ok(base_model, storage@, path@.subrange(from as int, i as int)),
                spec_materialize(base_model, storage@, path@.subrange(from as int, i as int))
                    == Ok::<MolModel, LayerStorageError>(mol_model(current)),
            decreases path@.len() - i,
        {
            let id = path[i];
            let ghost prefix = path@.subrange(from as int, i as int);
            proof {
                assert(path@.subrange(from as int, i + 1) =~= prefix.push(id));
                lemma_materialize_snoc(base_model, storage@, prefix, id);
            }
            let layer = match storage.read_layer(id) {
                Some(l) => l,
                None => {
                    proof {
                        lemma_skip_split(path@, from as int, i as int);
                        lemma_materialize_append(
                            base_model,
                            storage@,
                            prefix,
                            path@.skip(i as int),
                        );
                        assert(path@.skip(i as int).first() == id);
                        assert forall|j: int|
                            from <= j < path@.len() && spec_path_ok(
                                base_model,
                                storage@,
                                path@.subrange(from as int, j),
                            ) && path@[j] < storage@.len()
                                && (#[trigger] storage@[path@[j] as int]) is Some
                                && !layer_pure(storage@[path@[j] as int].unwrap())
                            implies spec_materialize(
                            base_model,
                            storage@,
                            path@.subrange(from as int, j),
                        ) is Err by {
                            if spec_materialize(
                                base_model,
                                storage@,
                                path@.subrange(from as int, j),
                            ) is Ok {
                                if j < i {
                                    lemma_path_ok_step(
                                        base_model,
                                        storage@,
                                        path@,
                                        from as int,
                                        i as int,
                                        j,
                                    );
                                } else if j == i {
                                } else {
                                    let mid = path@.subrange(i as int, j);
                                    assert(path@.subrange(from as int, j) =~= prefix + mid);
                                    lemma_materialize_append(base_model, storage@, prefix, mid);
                                    assert(mid.first() == id);
                                }
                            }
                        }
                    }
                    return Err(LayerStorageError::NoSuchLayer(id));
                },
            };
            if !crate::layer::filter_fits_check(layer, &current) {
                proof {
                    lemma_skip_split(path@, from as int, i as int);
                    lemma_materialize_append(base_model, storage@, prefix, path@.skip(i as int));
                    assert(path@.skip(i as int).first() == id);
                    if spec_path_ok(base_model, storage@, path@.skip(from as int)) {
                        lemma_path_ok_append(base_model, storage@, prefix, path@.skip(i as int));
                        assert(false);
                    }
                    assert forall|j: int|
                        from <= j < path@.len() && spec_path_ok(
                            base_model,
                            storage@,
                            path@.subrange(from as int, j),
                        ) && path@[j] < storage@.len()
                            && (#[trigger] storage@[path@[j] as int]) is Some
                            && !layer_pure(storage@[path@[j] as int].unwrap())
                        implies spec_materialize(
                        base_model,
                        storage@,
                        path@.subrange(from as int, j),
                    ) is Err by {
                        if spec_materialize(
                            base_model,
                            storage@,
                            path@.subrange(from as int, j),
                        ) is Ok {
                            if j < i {
                                lemma_path_ok_step(
                                    base_model,
                                    storage@,
                                    path@,
                                    from as int,
                                    i as int,
                                    j,
                                );
                            } else if j == i {
                                assert(*layer is Isometry);
                                assert(filter_fits(*layer, mol_model(current)));
                            } else {
                                assert(path@.subrange(from as int, i as int) =~= prefix);
                                lemma_path_ok_step(
                                    base_model,
                                    storage@,
                                    path@,
                                    from as int,
                                    j,
                                    i as int,
                                );
                            }
                            assert(false);
                        }
                    }
                }
                return Err(LayerStorageError::FilterError(StructuralError::RangeOutOfBounds));
            }
            let ghost pre_model = mol_model(current);
            match layer.filter(current) {
                Err(e) => {
                    proof {
                        lemma_skip_split(path@, from as int, i as int);
                        lemma_materialize_append(base_model, storage@, prefix, path@.skip(i as int));
                        assert(path@.skip(i as int).first() == id);
                        if !layer_pure(*layer) {
                            if spec_path_ok(base_model, storage@, path@.skip(from as int)) {
                                lemma_path_ok_append(
                                    base_model,
                                    storage@,
                                    prefix,
                                    path@.skip(i as int),
                                );
                                assert(false);
                            }
                        }
                        assert(spec_materialize(base_model, storage@, prefix)
                            == Ok::<MolModel, LayerStorageError>(pre_model));
                        assert forall|j: int|
                            from <= j < path@.len() && spec_path_ok(
                                base_model,
                                storage@,
                                path@.subrange(from as int, j),
                            ) && path@[j] < storage@.len()
                                && (#[trigger] storage@[path@[j] as int]) is Some
                                && !layer_pure(storage@[path@[j] as int].unwrap())
                            implies (spec_materialize(
                            base_model,
                            storage@,
                            path@.subrange(from as int, j),
                        ) is Err || j == i) by {
                            if spec_materialize(
                                base_model,
                                storage@,
                                path@.subrange(from as int, j),
                            ) is Ok && j != i {
                                if j < i {
                                    lemma_path_ok_step(
                                        base_model,
                                        storage@,
                                        path@,
                                        from as int,
                                        i as int,
                                        j,
                                    );
                                } else if layer_pure(*layer) {
                                    let mid = path@.subrange(i as int, j);
                                    assert(path@.subrange(from as int, j) =~= prefix + mid);
                                    lemma_materialize_append(base_model, storage@, prefix, mid);
                                    assert(mid.first() == id);
                                } else {
                                    assert(path@.subrange(from as int, i as int) =~= prefix);
                                    lemma_path_ok_step(
                                        base_model,
                                        storage@,
                                        path@,
                                        from as int,
                                        j,
                                        i as int,
                                    );
                                }
                                assert(false);
                            }
                        }
                        assert(path@.subrange(from as int, i as int) =~= prefix);
                    }
                    return Err(LayerStorageError::FilterError(e));
                },
                Ok(Filtered::Done(x)) => {
                    proof {
                        lemma_path_ok_snoc(base_model, storage@, prefix, id);
                    }
                    current = x;
                },
                Ok(Filtered::Pending(task)) => {
                    proof {
                        assert(mol_model(task.molecule) == pre_model);
                        assert(path@.subrange(from as int, (i + 1) - 1) =~= prefix);
                        if spec_path_ok(base_model, storage@, path@.skip(from as int)) {
                            lemma_skip_split(path@, from as int, i as int);
                            lemma_path_ok_append(base_model, storage@, prefix, path@.skip(i as int));
                            assert(path@.skip(i as int).first() == id);
                            assert(false);
                        }
                        assert(!layer_pure(*layer));
                        assert(spec_materialize(base_model, storage@, prefix)
                            == Ok::<MolModel, LayerStorageError>(pre_model));
                        assert forall|j: int|
                            from <= j < path@.len() && spec_path_ok(
                                base_model,
                                storage@,
                                path@.subrange(from as int, j),
                            ) && path@[j] < storage@.len()
                                && (#[trigger] storage@[path@[j] as int]) is Some
                                && !layer_pure(storage@[path@[j] as int].unwrap())
                            implies (spec_materialize(
                            base_model,
                            storage@,
                            path@.subrange(from as int, j),
                        ) is Err || j == i) by {
                            if spec_materialize(
                                base_model,
                                storage@,
                                path@.subrange(from as int, j),
                            ) is Ok && j != i {
                                if j < i {
                                    lemma_path_ok_step(
                                        base_model,
                                        storage@,
                                        path@,
                                        from as int,
                                        i as int,
                                        j,
                                    );
                                } else {
                                    assert(path@.subrange(from as int, i as int) =~= prefix);
                                    lemma_path_ok_step(
                                        base_model,
                                        storage@,
                                        path@,
                                        from as int,
                                        j,
                                        i as int,
                                    );
                                }
                                assert(false);
                            }
                        }
                        assert(path@.subrange(from as int, i as int) =~= prefix);
                    }
                    return Ok(StackOutcome::Suspended { task, next: i + 1 });
                },
            }
            i = i + 1;
        }
        proof {
            assert(path@.subrange(from as int, path@.len() as int) =~= path@.skip(from as int));
            assert forall|j: int|
                from <= j < path@.len() && spec_path_ok(
                    base_model,
                    storage@,
                    path@.subrange(from as int, j),
                ) && path@[j] < storage@.len() && (#[trigger] storage@[path@[j] as int]) is Some
                    && !layer_pure(storage@[path@[j] as int].unwrap())
                implies spec_materialize(
                base_model,
                storage@,
                path@.subrange(from as int, j),
            ) is Err by {
                if spec_materialize(base_model, storage@, path@.subrange(from as int, j)) is Ok {
                    lemma_path_ok_step(
                        base_model,
                        storage@,
                        path@,
                        from as int,
                        path@.len() as int,
                        j,
                    );
                    assert(false);
                }
            }
        }
        Ok(StackOutcome::Done(current))
    }

/// Splitting a suffix at a midpoint.
pub proof fn lemma_skip_split(p: Seq<usize>, from: int, mid: int)
    requires
        0 <= from <= mid <= p.len(),
    ensures
        p.skip(from) =~= p.subrange(from, mid) + p.skip(mid),
{
}

/// A memo of materialized stacks, keyed by the whole path. Sound for a
/// run because the store is insert-only and the base never changes.
#[derive(Debug, Clone, PartialEq)]
pub struct StackCache(pub Vec<(Vec<usize>, SparseMolecule)>);

impl Default for StackCache {
    /// The empty cache.
    fn default() -> (r: Self)
        ensures
            r.0@.len() == 0,
    {
        StackCache(Vec::new())
    }
}

/// Whether two paths hold the same ids.
pub fn paths_equal(a: &Vec<usize>, b: &Vec<usize>) -> (r: bool)
    ensures
        r == (a@ == b@),
{
    if a.len() != b.len() {
        return false;
    }
    let mut i: usize = 0;
    while i < a.len()
        invariant
            i <= a@.len(),
            a@.len() == b@.len(),
            forall|k: int| 0 <= k < i ==> a@[k] == b@[k],
        decreases a@.len() - i,
    {
        if a[i] != b[i] {
            return false;
        }
        i = i + 1;
    }
    proof {
        assert(a@ =~= b@);
    }
    true
}

impl StackCache {
    /// The memo stored under a path: the oldest entry whose path equals
    /// it, or `None` exactly when no entry carries that path.
    pub fn get(&self, path: &Vec<usize>) -> (r: Option<&SparseMolecule>)
        ensures
            r is Some <==> exists|i: int|
                0 <= i < self.0@.len() && (#[trigger] self.0@[i]).0@ == path@,
            match r {
                Some(m) => exists|i: int|
                    0 <= i < self.0@.len() && (#[trigger] self.0@[i]).0@ == path@ && self.0@[i].1
                        == *m && forall|j: int| 0 <= j < i ==> (#[trigger] self.0@[j]).0@ != path@,
                None => true,
            },
    {
        let mut i: usize = 0;
        while i < self.0.len()
            invariant
                i <= self.0@.len(),
                forall|j: int| 0 <= j < i ==> (#[trigger] self.0@[j]).0@ != path@,
            decreases self.0@.len() - i,
        {
            if paths_equal(&self.0[i].0, path) {
                return Some(&self.0[i].1);
            }
            i = i + 1;
        }
        None
    }

    /// Memoize a materialization under its path.
    pub fn insert(&mut self, path: Vec<usize>, molecule: SparseMolecule)
        ensures
            final(self).0@ == old(self).0@.push((path, molecule)),
    {
        self.0.push((path, molecule));
    }
}

} // verus!
