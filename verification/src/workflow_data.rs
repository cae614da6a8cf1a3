use vstd::prelude::*;

use vstd::string::StringExecFns;

use crate::layer::{layer_wf, Layer, SelectOne};
use crate::sparse_molecule::{mol_wf, SparseMolecule};
use crate::substituent::SubstituentError;
use crate::layer::StructuralError;
use crate::workspace::{storage_wf, LayerStorage, LayerStorageError};

verus! {

/// A failure while driving a workflow.
#[derive(Debug, Clone, Copy, PartialEq, Eq, Structural)]
pub enum WorkflowError {
    /// A step asked for a window name that is not bound.
    WindowNotFound,
    /// A window pointed past the end of the stacks array.
    StackIdOutOfRange(usize),
    /// A stack failed to materialize.
    Storage(LayerStorageError),
    /// A substituent attachment failed.
    Substituent(SubstituentError),
    /// A layer application failed structurally.
    Structure(StructuralError),
}

/// A half-open range over the workflow's stacks array.
#[derive(Debug, Clone, Copy, PartialEq, Eq, Structural)]
pub struct Window {
    pub start: usize,
    pub end: usize,
}

/// The window bound to a name: bindings are searched newest first, so
/// binding a name again shadows the older binding.
pub open spec fn win_lookup(s: Seq<(Seq<char>, Window)>, n: Seq<char>) -> Option<Window>
    decreases s.len(),
{
    if s.len() == 0 {
        None
    } else if s.last().0 == n {
        Some(s.last().1)
    } else {
        win_lookup(s.drop_last(), n)
    }
}

/// What one step's runner hands back: a serial block of new stacks, a
/// set of named groups of new stacks, or nothing.
#[derive(Debug, Clone, PartialEq)]
pub enum RunnerOutput {
    Serial(Vec<Vec<usize>>),
    Named(Vec<(String, Vec<Vec<usize>>)>),
    Empty,
}

/// One step's behavior. Adding layers is computed entirely here;
/// attaching substituents needs the files the pattern matches and the
/// aligning transforms; running a command and writing output files is
/// file and process work around the library.
#[derive(Debug, Clone, PartialEq)]
pub enum Runner {
    AddLayers(Vec<Layer>),
    Substituent { entry: SelectOne, exit: SelectOne, file_pattern: String },
    Function { command: String, arguments: Vec<String> },
    OutputXYZ { prefix: String, suffix: String, path_prefix: String, extension: String },
}

/// A step: an optional window to start from, an optional name for the
/// produced window, and the runner to execute.
#[derive(Debug, Clone, PartialEq)]
pub struct Step {
    pub from: Option<String>,
    pub name: Option<String>,
    pub run: Runner,
}

/// The whole state a workflow carries across steps.
#[derive(Debug, Clone, PartialEq)]
pub struct WorkflowData {
    pub base: SparseMolecule,
    pub layers: LayerStorage,
    pub stacks: Vec<Vec<usize>>,
    pub windows: Vec<(String, Window)>,
    pub current_window: Window,
}

/// A well-formed workflow state.
pub open spec fn wd_wf(wd: WorkflowData) -> bool {
    &&& mol_wf(wd.base)
    &&& storage_wf(wd.layers@)
}

/// The view of the bound windows.
pub open spec fn windows_view(wd: WorkflowData) -> Seq<(Seq<char>, Window)> {
    wd.windows@.map_values(|p: (String, Window)| (p.0@, p.1))
}

impl Default for WorkflowData {
    /// The starting state: an empty base, no layers, one empty stack,
    /// and the window `base` covering that one stack, which is also the
    /// current window.
    fn default() -> (r: Self)
        ensures
            wd_wf(r),
            r.base.atoms@.len() == 0,
            r.base.ids is None,
            r.base.groups is None,
            r.layers@.len() == 0,
            r.stacks@.len() == 1,
            r.stacks@[0]@.len() == 0,
            windows_view(r).len() == 1,
            windows_view(r)[0] == ("base"@, Window { start: 0, end: 1 }),
            r.current_window == (Window { start: 0, end: 1 }),
    {
        let mut stacks: Vec<Vec<usize>> = Vec::new();
        stacks.push(Vec::new());
        let mut windows: Vec<(String, Window)> = Vec::new();
        windows.push((String::from_str("base"), Window { start: 0, end: 1 }));
        let r = WorkflowData {
            base: SparseMolecule::default(),
            layers: LayerStorage::default(),
            stacks,
            windows,
            current_window: Window { start: 0, end: 1 },
        };
        proof {
            assert(windows_view(r)[0] == ("base"@, Window { start: 0, end: 1 }));
        }
        r
    }
}

impl WorkflowData {
    /// The starting state for a given base molecule.
    pub fn new(base: SparseMolecule) -> (r: Self)
        requires
            mol_wf(base),
        ensures
            wd_wf(r),
            r.base == base,
            r.layers@.len() == 0,
            r.stacks@.len() == 1,
            r.stacks@[0]@.len() == 0,
            windows_view(r).len() == 1,
            windows_view(r)[0] == ("base"@, Window { start: 0, end: 1 }),
            r.current_window == (Window { start: 0, end: 1 }),
    {
        let mut r = Self::default();
        r.base = base;
        r
    }

    /// The window bound to a name, searching newest bindings first.
    pub fn window_get(&self, name: &String) -> (r: Option<Window>)
        ensures
            r == win_lookup(windows_view(*self), name@),
    {
        let mut i: usize = self.windows.len();
        proof {
            assert(windows_view(*self).take(self.windows@.len() as int) =~= windows_view(*self));
        }
        while i > 0
            invariant
                i <= self.windows@.len(),
                win_lookup(windows_view(*self), name@) == win_lookup(
                    windows_view(*self).take(i as int),
                    name@,
                ),
            decreases i,
        {
            i = i - 1;
            proof {
                let v = windows_view(*self);
                assert(v[i as int] == (self.windows@[i as int].0@, self.windows@[i as int].1));
                assert(v.take(i + 1).last() == v[i as int]);
                assert(v.take(i + 1).drop_last() =~= v.take(i as int));
            }
            if self.windows[i].0 == *name {
                return Some(self.windows[i].1);
            }
        }
        proof {
            assert(windows_view(*self).take(0) =~= Seq::<(Seq<char>, Window)>::empty());
        }
        None
    }

    /// Bind a name to a window; an older binding of the same name is
    /// shadowed. Reports whether such an older binding existed.
    pub fn window_set(&mut self, name: String, w: Window) -> (overwrote: bool)
        ensures
            windows_view(*final(self)) =~= windows_view(*old(self)).push((name@, w)),
            overwrote == (win_lookup(windows_view(*old(self)), name@) is Some),
            final(self).base == old(self).base,
            final(self).layers == old(self).layers,
            final(self).stacks == old(self).stacks,
            final(self).current_window == old(self).current_window,
    {
        let overwrote = self.window_get(&name).is_some();
        self.windows.push((name, w));
        overwrote
    }

    /// The stacks the current window selects, in window order. The
    /// first index pointing past the stacks array decides the error.
    pub fn current_window_stacks(&self) -> (r: Result<Vec<Vec<usize>>, WorkflowError>)
        ensures
            r is Ok <==> (self.current_window.start >= self.current_window.end
                || self.current_window.end <= self.stacks@.len()),
            r matches Ok(v) ==> {
                &&& v@.len() == (if self.current_window.start >= self.current_window.end {
                    0int
                } else {
                    self.current_window.end - self.current_window.start
                })
                &&& forall|k: int|
                    0 <= k < v@.len() ==> (#[trigger] v@[k])@ == self.stacks@[
                        self.current_window.start + k
                    ]@
            },
            r matches Err(e) ==> e == WorkflowError::StackIdOutOfRange(
                if self.current_window.start >= self.stacks@.len() {
                    self.current_window.start
                } else {
                    self.stacks@.len() as usize
                },
            ),
    {
        let mut out: Vec<Vec<usize>> = Vec::new();
        let mut idx = self.current_window.start;
        if idx >= self.current_window.end {
            return Ok(out);
        }
        while idx < self.current_window.end
            invariant
                self.current_window.start <= idx <= self.current_window.end,
                out@.len() == idx - self.current_window.start,
                self.current_window.start < idx ==> idx <= self.stacks@.len(),
                forall|k: int|
                    0 <= k < out@.len() ==> (#[trigger] out@[k])@ == self.stacks@[
                        self.current_window.start + k
                    ]@,
            decreases self.current_window.end - idx,
        {
            if idx >= self.stacks.len() {
                return Err(WorkflowError::StackIdOutOfRange(idx));
            }
            out.push(copy_path(&self.stacks[idx]));
            idx = idx + 1;
        }
        Ok(out)
    }

    /// Point the cursor at a named window, when the step asks for one.
    pub fn resolve_from(&mut self, from: &Option<String>) -> (r: Result<(), WorkflowError>)
        ensures
            final(self).base == old(self).base,
            final(self).layers == old(self).layers,
            final(self).stacks == old(self).stacks,
            final(self).windows == old(self).windows,
            match from {
                Some(n) => match win_lookup(windows_view(*old(self)), n@) {
                    Some(w) => r is Ok && final(self).current_window == w,
                    None => r == Err::<(), WorkflowError>(WorkflowError::WindowNotFound)
                        && final(self).current_window == old(self).current_window,
                },
                None => r is Ok && final(self).current_window == old(self).current_window,
            },
    {
        match from {
            Some(n) => match self.window_get(n) {
                Some(w) => {
                    self.current_window = w;
                    Ok(())
                },
                None => Err(WorkflowError::WindowNotFound),
            },
            None => Ok(()),
        }
    }
}

/// A fresh copy of a stack path.
pub fn copy_path(v: &Vec<usize>) -> (r: Vec<usize>)
    ensures
        r@ == v@,
{
    let mut out: Vec<usize> = Vec::new();
    let mut i: usize = 0;
    while i < v.len()
        invariant
            i <= v@.len(),
            out@ == v@.take(i as int),
        decreases v@.len() - i,
    {
        out.push(v[i]);
        proof {
            assert(v@.take(i + 1) =~= v@.take(i as int).push(v@[i as int]));
        }
        i = i + 1;
    }
    proof {
        assert(v@.take(v@.len() as int) =~= v@);
    }
    out
}

/// The ids `start .. end` as a path segment.
pub open spec fn spec_id_range(start: int, end: int) -> Seq<usize> {
    Seq::new((end - start) as nat, |i: int| (start + i) as usize)
}

/// The `AddLayers` runner: store the given layers and produce, for each
/// stack of the current window, that stack extended by the whole block
/// of fresh ids, in window order.
pub fn execute_add_layers(
    storage: &mut LayerStorage,
    window_stacks: &Vec<Vec<usize>>,
    layers: Vec<Layer>,
) -> (r: RunnerOutput)
    requires
        storage_wf(old(storage)@),
        forall|i: int| 0 <= i < layers@.len() ==> layer_wf(#[trigger] layers@[i]),
        old(storage)@.len() + layers@.len() <= usize::MAX,
    ensures
        storage_wf(final(storage)@),
        final(storage)@.len() == old(storage)@.len() + layers@.len(),
        forall|i: int| 0 <= i < old(storage)@.len() ==> final(storage)@[i] == old(storage)@[i],
        forall|i: int|
            0 <= i < layers@.len() ==> final(storage)@[old(storage)@.len() + i] == Some(
                layers@[i],
            ),
        r matches RunnerOutput::Serial(v) && v@.len() == window_stacks@.len() && forall|k: int|
            0 <= k < v@.len() ==> (#[trigger] v@[k])@ == window_stacks@[k]@ + spec_id_range(
                old(storage)@.len() as int,
                old(storage)@.len() + layers@.len() as int,
            ),
{
    let (start, end) = storage.create_layers(layers);
    let mut out: Vec<Vec<usize>> = Vec::new();
    let mut k: usize = 0;
    while k < window_stacks.len()
        invariant
            k <= window_stacks@.len(),
            start <= end <= usize::MAX,
            out@.len() == k,
            forall|q: int|
                0 <= q < k ==> (#[trigger] out@[q])@ == window_stacks@[q]@ + spec_id_range(
                    start as int,
                    end as int,
                ),
        decreases window_stacks@.len() - k,
    {
        let mut path = copy_path(&window_stacks[k]);
        let ghost base_path = path@;
        let mut id = start;
        while id < end
            invariant
                start <= id <= end,
                path@ == base_path + spec_id_range(start as int, id as int),
            decreases end - id,
        {
            path.push(id);
            proof {
                assert(path@ =~= base_path + spec_id_range(start as int, id + 1));
            }
            id = id + 1;
        }
        proof {
            if start >= end {
                assert(path@ =~= base_path + spec_id_range(start as int, end as int));
            }
        }
        out.push(path);
        k = k + 1;
    }
    RunnerOutput::Serial(out)
}

/// Where the stacks of group `i` begin, counting from the front of the
/// appended block: the total size of the groups before it.
pub open spec fn spec_group_offset(groups: Seq<(String, Vec<Vec<usize>>)>, i: int) -> int
    decreases i,
{
    if i <= 0 {
        0
    } else {
        spec_group_offset(groups, i - 1) + groups[i - 1].1@.len()
    }
}

/// Append a serial block of stacks and move the cursor onto it.
pub fn append_serial(wd: &mut WorkflowData, v: Vec<Vec<usize>>)
    requires
        wd_wf(*old(wd)),
        old(wd).stacks@.len() + v@.len() <= usize::MAX,
    ensures
        wd_wf(*final(wd)),
        final(wd).base == old(wd).base,
        final(wd).layers == old(wd).layers,
        final(wd).windows == old(wd).windows,
        forall|i: int|
            0 <= i < old(wd).stacks@.len() ==> final(wd).stacks@[i] == old(wd).stacks@[i],
        final(wd).stacks@.len() == old(wd).stacks@.len() + v@.len(),
        forall|k: int|
            0 <= k < v@.len() ==> #[trigger] final(wd).stacks@[old(wd).stacks@.len() + k]
                == v@[k],
        final(wd).current_window == (Window {
            start: old(wd).stacks@.len() as usize,
            end: (old(wd).stacks@.len() + v@.len()) as usize,
        }),
{
    let start = wd.stacks.len();
    let mut v = v;
    let ghost input = v@;
    let mut k: usize = 0;
    while v.len() > 0
        invariant
            k <= input.len(),
            v@ == input.skip(k as int),
            wd.stacks@.len() == start + k,
            wd_wf(*wd),
            wd.base == old(wd).base,
            wd.layers == old(wd).layers,
            wd.windows == old(wd).windows,
            forall|i: int| 0 <= i < start ==> wd.stacks@[i] == old(wd).stacks@[i],
            forall|i: int| 0 <= i < k ==> #[trigger] wd.stacks@[start + i] == input[i],
        decreases v@.len(),
    {
        proof {
            assert(input.skip(k as int).first() == input[k as int]);
            assert(input.skip(k as int).drop_first() =~= input.skip(k + 1));
        }
        let path = v.remove(0);
        wd.stacks.push(path);
        k = k + 1;
    }
    wd.current_window = Window { start, end: wd.stacks.len() };
}

/// The window name and range group `i` of a named output receives.
pub open spec fn spec_group_window(
    groups: Seq<(String, Vec<Vec<usize>>)>,
    prefix: Seq<char>,
    start: int,
    i: int,
) -> (Seq<char>, Window) {
    (
        prefix + "_"@ + groups[i].0@,
        Window {
            start: (start + spec_group_offset(groups, i)) as usize,
            end: (start + spec_group_offset(groups, i + 1)) as usize,
        },
    )
}

/// Append one group of a named output and bind its window name.
fn append_one_group(
    wd: &mut WorkflowData,
    groups: &Vec<(String, Vec<Vec<usize>>)>,
    prefix: &String,
    i: usize,
    Ghost(start): Ghost<int>,
)
    requires
        wd_wf(*old(wd)),
        i < groups@.len(),
        start == old(wd).stacks@.len() - spec_group_offset(groups@, i as int),
        old(wd).stacks@.len() + groups@[i as int].1@.len() <= usize::MAX,
    ensures
        wd_wf(*final(wd)),
        final(wd).base == old(wd).base,
        final(wd).layers == old(wd).layers,
        final(wd).current_window == old(wd).current_window,
        forall|q: int|
            0 <= q < old(wd).stacks@.len() ==> final(wd).stacks@[q] == old(wd).stacks@[q],
        final(wd).stacks@.len() == start + spec_group_offset(groups@, i + 1),
        forall|k: int|
            0 <= k < groups@[i as int].1@.len() ==> (#[trigger] final(wd).stacks@[
                old(wd).stacks@.len() + k
            ])@ == groups@[i as int].1@[k]@,
        windows_view(*final(wd)) =~= windows_view(*old(wd)).push(
            spec_group_window(groups@, prefix@, start, i as int),
        ),
{
    proof {
        lemma_group_offset_step(groups@, i as int);
    }
    let group_start = wd.stacks.len();
    let group = &groups[i].1;
    let mut k: usize = 0;
    while k < group.len()
        invariant
            k <= group@.len(),
            group@ == groups@[i as int].1@,
            i < groups@.len(),
            wd_wf(*wd),
            wd.base == old(wd).base,
            wd.layers == old(wd).layers,
            wd.windows@ == old(wd).windows@,
            wd.current_window == old(wd).current_window,
            group_start == old(wd).stacks@.len(),
            group_start + group@.len() <= usize::MAX,
            wd.stacks@.len() == group_start + k,
            forall|q: int| 0 <= q < group_start ==> wd.stacks@[q] == old(wd).stacks@[q],
            forall|k2: int|
                0 <= k2 < k ==> (#[trigger] wd.stacks@[group_start + k2])@ == group@[k2]@,
        decreases group@.len() - k,
    {
        let path = copy_path(&group[k]);
        wd.stacks.push(path);
        k = k + 1;
    }
    let gname = prefix.clone().concat("_").concat(groups[i].0.as_str());
    let ghost wins_before = windows_view(*wd);
    let w = Window { start: group_start, end: wd.stacks.len() };
    wd.windows.push((gname, w));
    proof {
        assert(windows_view(*wd) =~= wins_before.push(
            (prefix@ + "_"@ + groups@[i as int].0@, w),
        ));
    }
}

/// Append a named output: each group in order gets its own subrange and
/// a window named `<prefix>_<group>`; the cursor covers the whole block.
pub fn append_named(
    wd: &mut WorkflowData,
    groups: Vec<(String, Vec<Vec<usize>>)>,
    prefix: &String,
)
    requires
        wd_wf(*old(wd)),
        old(wd).stacks@.len() + spec_group_offset(groups@, groups@.len() as int) <= usize::MAX,
    ensures
        wd_wf(*final(wd)),
        final(wd).base == old(wd).base,
        final(wd).layers == old(wd).layers,
        forall|q: int|
            0 <= q < old(wd).stacks@.len() ==> final(wd).stacks@[q] == old(wd).stacks@[q],
        final(wd).stacks@.len() == old(wd).stacks@.len() + spec_group_offset(
            groups@,
            groups@.len() as int,
        ),
        forall|i: int, k: int|
            0 <= i < groups@.len() && 0 <= k < groups@[i].1@.len()
                ==> final(wd).stacks@[
                old(wd).stacks@.len() + spec_group_offset(groups@, i) + k
            ]@ == (#[trigger] groups@[i].1@[k])@,
        final(wd).current_window == (Window {
            start: old(wd).stacks@.len() as usize,
            end: (old(wd).stacks@.len() + spec_group_offset(
                groups@,
                groups@.len() as int,
            )) as usize,
        }),
        windows_view(*final(wd)) =~= windows_view(*old(wd)) + Seq::new(
            groups@.len(),
            |i: int| spec_group_window(groups@, prefix@, old(wd).stacks@.len() as int, i),
        ),
{
    let start = wd.stacks.len();
    let ghost old_wins = windows_view(*wd);
    let mut i: usize = 0;
    while i < groups.len()
        invariant
            i <= groups@.len(),
            wd_wf(*wd),
            wd.base == old(wd).base,
            wd.layers == old(wd).layers,
            wd.current_window == old(wd).current_window,
            start == old(wd).stacks@.len(),
            start + spec_group_offset(groups@, groups@.len() as int) <= usize::MAX,
            wd.stacks@.len() == start + spec_group_offset(groups@, i as int),
            forall|q: int| 0 <= q < start ==> wd.stacks@[q] == old(wd).stacks@[q],
            forall|q: int, k: int|
                0 <= q < i && 0 <= k < groups@[q].1@.len()
                    ==> wd.stacks@[start + spec_group_offset(groups@, q) + k]@
                    == (#[trigger] groups@[q].1@[k])@,
            windows_view(*wd) =~= old_wins + Seq::new(
                i as nat,
                |q: int| spec_group_window(groups@, prefix@, start as int, q),
            ),
        decreases groups@.len() - i,
    {
        proof {
            lemma_group_offset_nonneg(groups@, i as int);
            lemma_group_offset_step(groups@, i as int);
            lemma_group_offset_mono(groups@, i + 1, groups@.len() as int);
        }
        let ghost wins_before = windows_view(*wd);
        let ghost pre = *wd;
        append_one_group(wd, &groups, prefix, i, Ghost(start as int));
        proof {
            assert(windows_view(*wd) =~= old_wins + Seq::new(
                (i + 1) as nat,
                |q: int| spec_group_window(groups@, prefix@, start as int, q),
            ));
            assert forall|q: int, k: int|
                0 <= q < i + 1 && 0 <= k < groups@[q].1@.len()
                implies wd.stacks@[start + spec_group_offset(groups@, q) + k]@
                == (#[trigger] groups@[q].1@[k])@ by {
                lemma_group_offset_nonneg(groups@, q);
                lemma_group_offset_step(groups@, q);
                lemma_group_offset_mono(groups@, q + 1, i + 1);
                if q < i {
                    lemma_group_offset_mono(groups@, q + 1, i as int);
                    assert(pre.stacks@[start + spec_group_offset(groups@, q) + k]@
                        == groups@[q].1@[k]@);
                    assert(wd.stacks@[start + spec_group_offset(groups@, q) + k]
                        == pre.stacks@[start + spec_group_offset(groups@, q) + k]);
                } else {
                    assert(wd.stacks@[pre.stacks@.len() + k]@ == groups@[i as int].1@[k]@);
                    assert(pre.stacks@.len() == start + spec_group_offset(groups@, q));
                }
            }
        }
        i = i + 1;
    }
    wd.current_window = Window { start, end: wd.stacks.len() };
}

/// Finish one step: append the produced stacks, move the cursor onto
/// the appended block, install the per-group window names of a named
/// output, and, when the step carries a name, bind it to the final
/// cursor window. The result says whether that name was already bound.
pub fn step_finish(
    wd: &mut WorkflowData,
    output: RunnerOutput,
    prefix: &String,
    name: Option<String>,
) -> (overwrote: bool)
    requires
        wd_wf(*old(wd)),
        match output {
            RunnerOutput::Serial(v) => old(wd).stacks@.len() + v@.len() <= usize::MAX,
            RunnerOutput::Named(groups) => old(wd).stacks@.len() + spec_group_offset(
                groups@,
                groups@.len() as int,
            ) <= usize::MAX,
            RunnerOutput::Empty => true,
        },
    ensures
        wd_wf(*final(wd)),
        final(wd).base == old(wd).base,
        final(wd).layers == old(wd).layers,
        forall|i: int|
            0 <= i < old(wd).stacks@.len() ==> final(wd).stacks@[i] == old(wd).stacks@[i],
        match output {
            RunnerOutput::Serial(v) => {
                &&& final(wd).stacks@.len() == old(wd).stacks@.len() + v@.len()
                &&& forall|k: int|
                    0 <= k < v@.len() ==> #[trigger] final(wd).stacks@[
                        old(wd).stacks@.len() + k
                    ] == v@[k]
                &&& final(wd).current_window == (Window {
                    start: old(wd).stacks@.len() as usize,
                    end: (old(wd).stacks@.len() + v@.len()) as usize,
                })
                &&& windows_view(*final(wd)) =~= windows_view(*old(wd)) + (match name {
                    Some(n) => seq![(n@, final(wd).current_window)],
                    None => Seq::empty(),
                })
            },
            RunnerOutput::Named(groups) => {
                &&& final(wd).stacks@.len() == old(wd).stacks@.len() + spec_group_offset(
                    groups@,
                    groups@.len() as int,
                )
                &&& forall|i: int, k: int|
                    0 <= i < groups@.len() && 0 <= k < groups@[i].1@.len()
                        ==> final(wd).stacks@[
                        old(wd).stacks@.len() + spec_group_offset(groups@, i) + k
                    ]@ == (#[trigger] groups@[i].1@[k])@
                &&& final(wd).current_window == (Window {
                    start: old(wd).stacks@.len() as usize,
                    end: (old(wd).stacks@.len() + spec_group_offset(
                        groups@,
                        groups@.len() as int,
                    )) as usize,
                })
                &&& windows_view(*final(wd)) =~= windows_view(*old(wd)) + Seq::new(
                    groups@.len(),
                    |i: int| spec_group_window(
                        groups@,
                        prefix@,
                        old(wd).stacks@.len() as int,
                        i,
                    ),
                ) + (match name {
                    Some(n) => seq![(n@, final(wd).current_window)],
                    None => Seq::empty(),
                })
            },
            RunnerOutput::Empty => {
                &&& final(wd).stacks == old(wd).stacks
                &&& final(wd).current_window == old(wd).current_window
                &&& windows_view(*final(wd)) =~= windows_view(*old(wd)) + (match name {
                    Some(n) => seq![(n@, final(wd).current_window)],
                    None => Seq::empty(),
                })
            },
        },
        overwrote == (match name {
            Some(n) => win_lookup(
                windows_view(*old(wd)) + (match output {
                    RunnerOutput::Named(groups) => Seq::new(
                        groups@.len(),
                        |i: int| spec_group_window(
                            groups@,
                            prefix@,
                            old(wd).stacks@.len() as int,
                            i,
                        ),
                    ),
                    _ => Seq::empty(),
                }),
                n@,
            ) is Some,
            None => false,
        }),
{
    match output {
        RunnerOutput::Serial(v) => {
            append_serial(wd, v);
        },
        RunnerOutput::Named(groups) => {
            append_named(wd, groups, prefix);
        },
        RunnerOutput::Empty => {},
    }
    let ghost wins_mid = windows_view(*wd);
    let ghost had_name = name is Some;
    let mut overwrote = false;
    match name {
        Some(n) => {
            overwrote = wd.window_set(n, wd.current_window);
        },
        None => {},
    }
    proof {
        if !had_name {
            assert(windows_view(*wd) =~= wins_mid + Seq::<(Seq<char>, Window)>::empty());
        }
    }
    overwrote
}

/// Group offsets are monotone.
pub proof fn lemma_group_offset_mono(groups: Seq<(String, Vec<Vec<usize>>)>, i: int, j: int)
    requires
        0 <= i <= j,
    ensures
        spec_group_offset(groups, i) <= spec_group_offset(groups, j),
    decreases j - i,
{
    if i < j {
        lemma_group_offset_mono(groups, i, j - 1);
    }
}

/// One group advances the offset by its own size.
pub proof fn lemma_group_offset_step(groups: Seq<(String, Vec<Vec<usize>>)>, i: int)
    requires
        0 <= i,
    ensures
        spec_group_offset(groups, i + 1) == spec_group_offset(groups, i) + groups[i].1@.len(),
{
}

/// Group offsets are never negative.
pub proof fn lemma_group_offset_nonneg(groups: Seq<(String, Vec<Vec<usize>>)>, i: int)
    ensures
        spec_group_offset(groups, i) >= 0,
    decreases i,
{
    if i > 0 {
        lemma_group_offset_nonneg(groups, i - 1);
    }
}

} // verus!
