//! The steps of an installation: what has to happen on disk and on the
//! network, in order, for a resolved graph to be installed.

use vstd::prelude::*;
use crate::package_id::{PackageId, PackageIdView};
use crate::tree_path::TreePath;

verus! {

/// The two kinds of link file.
#[derive(Clone, Copy, Debug, PartialEq, Eq, Structural)]
pub enum LinkForm {
    /// From the package tree of the root package into the index below it.
    Root,
    /// From one package in the index to another beside it.
    Sibling,
}

/// Why an installation cannot go on: the graph and the registries disagree.
#[derive(Clone, Debug, PartialEq, Eq)]
pub enum InstallError {
    /// The graph names a registry that is not among the known ones.
    UnknownRegistry { registry: String },
    /// The graph records no registry for a package that it needs one for.
    MissingMetadata { package: PackageId },
}

pub enum InstallErrorView {
    UnknownRegistry { registry: Seq<char> },
    MissingMetadata { package: PackageIdView },
}

impl View for InstallError {
    type V = InstallErrorView;

    open spec fn view(&self) -> InstallErrorView {
        match self {
            InstallError::UnknownRegistry { registry } => InstallErrorView::UnknownRegistry {
                registry: registry@,
            },
            InstallError::MissingMetadata { package } => InstallErrorView::MissingMetadata {
                package: package@,
            },
        }
    }
}

/// One step of an installation. The steps of a plan are carried out in
/// order; the first that fails ends the run, and nothing is undone.
#[derive(Clone, Debug, PartialEq, Eq)]
pub enum Step {
    /// Remove the directory and all below it. That there is no such
    /// directory is no failure.
    RemoveDir { path: TreePath },
    /// Create the directory, and those above it that are missing.
    CreateDir { path: TreePath },
    /// Fetch the archive of `dependency` from `registry`, and write the link
    /// of this form to `dependency`, with the entry point that the archive
    /// shows, into the file `path`.
    WriteLink { path: TreePath, registry: String, dependency: PackageId, form: LinkForm },
    /// Hand to a worker: fetch the archive of `package` from `registry`,
    /// create `directory` and unpack the archive into it. The step
    /// is done when the worker has been started. The run waits for its
    /// workers after the last step, in the order in which they were started,
    /// and ends with the first failure it meets there.
    Materialize { package: PackageId, registry: String, directory: TreePath },
    /// End the run with this error.
    Halt { error: InstallError },
}

pub enum StepView {
    RemoveDir { path: Seq<Seq<char>> },
    CreateDir { path: Seq<Seq<char>> },
    WriteLink {
        path: Seq<Seq<char>>,
        registry: Seq<char>,
        dependency: PackageIdView,
        form: LinkForm,
    },
    Materialize { package: PackageIdView, registry: Seq<char>, directory: Seq<Seq<char>> },
    Halt { error: InstallErrorView },
}

impl View for Step {
    type V = StepView;

    open spec fn view(&self) -> StepView {
        match self {
            Step::RemoveDir { path } => StepView::RemoveDir { path: path@ },
            Step::CreateDir { path } => StepView::CreateDir { path: path@ },
            Step::WriteLink { path, registry, dependency, form } => StepView::WriteLink {
                path: path@,
                registry: registry@,
                dependency: dependency@,
                form: *form,
            },
            Step::Materialize { package, registry, directory } => StepView::Materialize {
                package: package@,
                registry: registry@,
                directory: directory@,
            },
            Step::Halt { error } => StepView::Halt { error: error@ },
        }
    }
}

impl Step {
    /// Whether the run ends at this step.
    pub fn is_halt(&self) -> (halt: bool)
        ensures
            halt == (self@ is Halt),
    {
        match self {
            Step::Halt { .. } => true,
            _ => false,
        }
    }

    /// Whether the step has succeeded where its target does not exist: true
    /// of the removal of a directory, and of no other step.
    pub fn tolerates_missing(&self) -> (tolerant: bool)
        ensures
            tolerant == (self@ is RemoveDir),
    {
        match self {
            Step::RemoveDir { .. } => true,
            _ => false,
        }
    }
}

/// The number of workers that the first `upto` steps start: one for each
/// step among them that fetches and unpacks a package.
pub open spec fn worker_count(steps: Seq<StepView>, upto: nat) -> nat
    decreases upto,
{
    if upto == 0 {
        0
    } else if upto <= steps.len() && steps[upto - 1] is Materialize {
        worker_count(steps, (upto - 1) as nat) + 1
    } else {
        worker_count(steps, (upto - 1) as nat)
    }
}

/// No more workers are started than there are steps.
pub proof fn lemma_worker_count_bound(steps: Seq<StepView>, upto: nat)
    ensures
        worker_count(steps, upto) <= upto,
    decreases upto,
{
    if upto > 0 {
        lemma_worker_count_bound(steps, (upto - 1) as nat);
    }
}

/// Whether a sequence of steps ends the run: its last step is a halt.
pub open spec fn halted(steps: Seq<StepView>) -> bool {
    steps.len() > 0 && steps.last() is Halt
}

/// The first `count` parts of a plan, one after the other, up to and
/// including the first part after which the run is halted.
pub open spec fn until_halt(parts: Seq<Seq<StepView>>, count: nat) -> Seq<StepView>
    decreases count,
{
    if count == 0 {
        Seq::empty()
    } else {
        let before = until_halt(parts, (count - 1) as nat);
        if halted(before) {
            before
        } else {
            before + parts[count - 1]
        }
    }
}

/// Once halted, a plan takes no further part.
pub proof fn lemma_until_halt_stays(parts: Seq<Seq<StepView>>, count: nat, later: nat)
    requires
        count <= later,
        halted(until_halt(parts, count)),
    ensures
        until_halt(parts, later) == until_halt(parts, count),
    decreases later,
{
    if count < later {
        lemma_until_halt_stays(parts, count, (later - 1) as nat);
    }
}

/// A plan that is not halted at its end holds each of its parts in full: the
/// steps of part `part` stand in it one after the other, from `start` on.
pub proof fn lemma_until_halt_holds_part(parts: Seq<Seq<StepView>>, count: nat, part: int) -> (start:
    int)
    requires
        0 <= part < count,
        !halted(until_halt(parts, count)),
    ensures
        0 <= start,
        start + parts[part].len() <= until_halt(parts, count).len(),
        until_halt(parts, count).subrange(start, start + parts[part].len()) == parts[part],
    decreases count,
{
    let before = until_halt(parts, (count - 1) as nat);
    if halted(before) {
        assert(false);
        0
    } else if part == count - 1 {
        let start = before.len() as int;
        assert((before + parts[part]).subrange(start, start + parts[part].len()) =~= parts[part]);
        start
    } else {
        let start = lemma_until_halt_holds_part(parts, (count - 1) as nat, part);
        assert((before + parts[count - 1]).subrange(start, start + parts[part].len())
            =~= before.subrange(start, start + parts[part].len()));
        start
    }
}

/// In a plan that is not halted at its end, no part ends in a halt.
pub proof fn lemma_until_halt_part_goes_on(parts: Seq<Seq<StepView>>, count: nat, part: int)
    requires
        0 <= part < count,
        !halted(until_halt(parts, count)),
    ensures
        !halted(parts[part]),
{
    let before = until_halt(parts, part as nat);
    let after = until_halt(parts, (part + 1) as nat);
    if halted(before) {
        lemma_until_halt_stays(parts, part as nat, count);
    }
    if halted(after) {
        lemma_until_halt_stays(parts, (part + 1) as nat, count);
    }
    assert(after == before + parts[part]);
    if halted(parts[part]) {
        assert(after.last() == parts[part].last());
    }
}

/// A plan that is not halted at its end holds every step of each of its
/// parts.
pub proof fn lemma_until_halt_holds_step(
    parts: Seq<Seq<StepView>>,
    count: nat,
    part: int,
    at: int,
)
    requires
        0 <= part < count,
        0 <= at < parts[part].len(),
        !halted(until_halt(parts, count)),
    ensures
        until_halt(parts, count).contains(parts[part][at]),
{
    let start = lemma_until_halt_holds_part(parts, count, part);
    let plan = until_halt(parts, count);
    assert(plan.subrange(start, start + parts[part].len())[at] == plan[start + at]);
}

/// What holds of every step of every part holds of every step of the plan.
pub proof fn lemma_until_halt_keeps(
    parts: Seq<Seq<StepView>>,
    count: nat,
    holds: spec_fn(StepView) -> bool,
)
    requires
        count <= parts.len(),
        forall|part: int, at: int|
            0 <= part < count && 0 <= at < parts[part].len() ==> holds(#[trigger] parts[part][at]),
    ensures
        forall|i: int|
            0 <= i < until_halt(parts, count).len() ==> holds(#[trigger] until_halt(parts, count)[i]),
    decreases count,
{
    if count > 0 {
        lemma_until_halt_keeps(parts, (count - 1) as nat, holds);
        let before = until_halt(parts, (count - 1) as nat);
        let last = parts[count - 1];
        assert forall|i: int| 0 <= i < until_halt(parts, count).len() implies holds(
            #[trigger] until_halt(parts, count)[i],
        ) by {
            if !halted(before) && i >= before.len() {
                assert((before + last)[i] == last[i - before.len()]);
            }
        }
    }
}

/// The workers of two sequences of steps, one after the other, are those of
/// the first and those of the second.
pub proof fn lemma_worker_count_add(first: Seq<StepView>, second: Seq<StepView>)
    ensures
        worker_count(first + second, (first + second).len()) == worker_count(first, first.len())
            + worker_count(second, second.len()),
    decreases second.len(),
{
    let all = first + second;
    if second.len() == 0 {
        assert(all =~= first);
    } else {
        let shorter = second.drop_last();
        lemma_worker_count_add(first, shorter);
        lemma_worker_count_same_prefix(all, first + shorter, (all.len() - 1) as nat);
        lemma_worker_count_same_prefix(second, shorter, (second.len() - 1) as nat);
        assert(all[all.len() - 1] == second[second.len() - 1]);
    }
}

/// The workers of the first `upto` steps depend on these steps alone.
pub proof fn lemma_worker_count_same_prefix(first: Seq<StepView>, second: Seq<StepView>, upto: nat)
    requires
        upto <= first.len(),
        upto <= second.len(),
        forall|i: int| 0 <= i < upto ==> first[i] == second[i],
    ensures
        worker_count(first, upto) == worker_count(second, upto),
    decreases upto,
{
    if upto > 0 {
        lemma_worker_count_same_prefix(first, second, (upto - 1) as nat);
    }
}

/// Steps of which none fetches and unpacks a package start no worker.
pub proof fn lemma_worker_count_none(steps: Seq<StepView>, upto: nat)
    requires
        forall|i: int| 0 <= i < steps.len() ==> !(#[trigger] steps[i] is Materialize),
    ensures
        worker_count(steps, upto) == 0,
    decreases upto,
{
    if upto > 0 {
        lemma_worker_count_none(steps, (upto - 1) as nat);
    }
}

} // verus!
