//! One run of a plan: which step is due, what its outcome means, when the
//! workers are waited for, and how the run ends.

use vstd::prelude::*;
use crate::resolution::views;
use crate::step::{lemma_worker_count_bound, worker_count, Step, StepView};

verus! {

/// How a step, or the wait for a worker, came out.
#[derive(Clone, Copy, Debug, PartialEq, Eq, Structural)]
pub enum Outcome {
    /// It was done.
    Done,
    /// Its target does not exist.
    Missing,
    /// It failed in any other way.
    Failed,
}

/// What made a run fail.
#[derive(Clone, Copy, Debug, PartialEq, Eq, Structural)]
pub enum Cause {
    /// The step at `index` is a halt: its error is the error of the run.
    Halt { index: usize },
    /// The step at `index` failed.
    Step { index: usize },
    /// The worker that was started as number `worker` failed.
    Worker { worker: usize },
}

/// What a run asks for next.
#[derive(Clone, Copy, Debug, PartialEq, Eq, Structural)]
pub enum Directive {
    /// Carry out the step at `index` and report how it came out.
    Perform { index: usize },
    /// Wait for the worker that was started as number `worker`, counted
    /// from zero, and report how it came out.
    Join { worker: usize },
    /// The run is over and all of it was done; `installed` packages were
    /// fetched and unpacked.
    Finished { installed: usize },
    /// The run is over and has failed. Nothing is tried again and nothing
    /// is undone.
    Failed { cause: Cause },
}

/// What contracts say of a run: its plan, how many steps were done, how
/// many workers were waited for, and what made it fail, if anything did.
pub struct RunView {
    pub steps: Seq<StepView>,
    pub position: nat,
    pub joined: nat,
    pub failure: Option<Cause>,
}

/// Whether a step that came out as `outcome` counts as done. A missing
/// target is accepted where a directory was to be removed, and nowhere else.
pub open spec fn accepted(step: StepView, outcome: Outcome) -> bool {
    outcome == Outcome::Done || (outcome == Outcome::Missing && step is RemoveDir)
}

impl RunView {
    /// The run before its first step.
    pub open spec fn start(steps: Seq<StepView>) -> RunView {
        RunView { steps, position: 0, joined: 0, failure: None }
    }

    /// The number of workers that the whole plan starts.
    pub open spec fn workers(self) -> nat {
        worker_count(self.steps, self.steps.len())
    }

    /// What is due: the steps in order, up to a halt; then the workers in
    /// the order in which they were started; then the end.
    pub open spec fn directive(self) -> Directive {
        if let Some(cause) = self.failure {
            Directive::Failed { cause }
        } else if self.position < self.steps.len() {
            if self.steps[self.position as int] is Halt {
                Directive::Failed { cause: Cause::Halt { index: self.position as usize } }
            } else {
                Directive::Perform { index: self.position as usize }
            }
        } else if self.joined < self.workers() {
            Directive::Join { worker: self.joined as usize }
        } else {
            Directive::Finished { installed: self.workers() as usize }
        }
    }

    /// The run after the outcome of what was due is known. The first
    /// failure ends the run; a run that is over stays as it is.
    pub open spec fn report(self, outcome: Outcome) -> RunView {
        if self.failure is Some {
            self
        } else if self.position < self.steps.len() {
            if self.steps[self.position as int] is Halt {
                self
            } else if accepted(self.steps[self.position as int], outcome) {
                RunView { position: self.position + 1, ..self }
            } else {
                RunView { failure: Some(Cause::Step { index: self.position as usize }), ..self }
            }
        } else if self.joined < self.workers() {
            if outcome == Outcome::Done {
                RunView { joined: self.joined + 1, ..self }
            } else {
                RunView { failure: Some(Cause::Worker { worker: self.joined as usize }), ..self }
            }
        } else {
            self
        }
    }

    /// The run after these outcomes were reported one after the other.
    pub open spec fn after(self, outcomes: Seq<Outcome>) -> RunView
        decreases outcomes.len(),
    {
        if outcomes.len() == 0 {
            self
        } else {
            self.after(outcomes.drop_last()).report(outcomes.last())
        }
    }
}

/// A run of the steps of one plan.
#[derive(Debug)]
pub struct Run {
    steps: Vec<Step>,
    workers: usize,
    position: usize,
    joined: usize,
    failure: Option<Cause>,
}

impl View for Run {
    type V = RunView;

    closed spec fn view(&self) -> RunView {
        RunView {
            steps: views(self.steps@),
            position: self.position as nat,
            joined: self.joined as nat,
            failure: self.failure,
        }
    }
}

impl Run {
    /// The steps done are steps of the plan, `workers` is the number of
    /// workers that the plan starts, no more of them were waited for, and a
    /// halt is never recorded as a failure: it is read off the plan.
    #[verifier::type_invariant]
    spec fn consistent(self) -> bool {
        &&& self.position <= self.steps@.len()
        &&& self.workers == worker_count(views(self.steps@), self.steps@.len())
        &&& self.joined <= self.workers
        &&& self.failure matches Some(cause) ==> !(cause is Halt)
    }

    /// A run of `steps`, before its first step.
    pub fn new(steps: Vec<Step>) -> (run: Run)
        ensures
            run@ == RunView::start(views(steps@)),
    {
        let mut workers: usize = 0;
        let mut i: usize = 0;
        while i < steps.len()
            invariant
                i <= steps.len(),
                workers <= i,
                workers == worker_count(views(steps@), i as nat),
            decreases steps.len() - i,
        {
            assert(views(steps@)[i as int] == steps@[i as int]@);
            match &steps[i] {
                Step::Materialize { .. } => {
                    workers += 1;
                },
                _ => {},
            }
            i += 1;
        }
        Run { steps, workers, position: 0, joined: 0, failure: None }
    }

    /// The steps of the plan that is run.
    pub fn steps(&self) -> (steps: &Vec<Step>)
        ensures
            views(steps@) == self@.steps,
    {
        &self.steps
    }

    /// What is due now.
    pub fn directive(&self) -> (directive: Directive)
        ensures
            directive == self@.directive(),
            directive matches Directive::Perform { index } ==> index < self@.steps.len(),
            directive matches Directive::Failed { cause: Cause::Halt { index } }
                ==> index < self@.steps.len(),
    {
        proof {
            use_type_invariant(self);
        }
        if let Some(cause) = self.failure {
            Directive::Failed { cause }
        } else if self.position < self.steps.len() {
            assert(views(self.steps@)[self.position as int] == self.steps@[self.position as int]@);
            if self.steps[self.position].is_halt() {
                Directive::Failed { cause: Cause::Halt { index: self.position } }
            } else {
                Directive::Perform { index: self.position }
            }
        } else if self.joined < self.workers {
            Directive::Join { worker: self.joined }
        } else {
            Directive::Finished { installed: self.workers }
        }
    }

    /// Takes note of how what was due came out.
    pub fn report(&mut self, outcome: Outcome)
        ensures
            final(self)@ == old(self)@.report(outcome),
    {
        proof {
            use_type_invariant(&*self);
        }
        match self.directive() {
            Directive::Perform { index } => {
                assert(index == self.position && index < self.steps@.len());
                assert(views(self.steps@)[index as int] == self.steps@[index as int]@);
                let length = self.steps.len();
                let accepted = match outcome {
                    Outcome::Done => true,
                    Outcome::Missing => self.steps[index].tolerates_missing(),
                    Outcome::Failed => false,
                };
                if accepted {
                    assert(index < length);
                    self.position = index + 1;
                } else {
                    self.failure = Some(Cause::Step { index });
                }
            },
            Directive::Join { worker } => {
                match outcome {
                    Outcome::Done => {
                        self.joined = self.joined + 1;
                    },
                    _ => {
                        self.failure = Some(Cause::Worker { worker });
                    },
                }
            },
            Directive::Finished { .. } => {},
            Directive::Failed { .. } => {},
        }
    }
}

/// A run that is over stays as it is, whatever is reported to it: nothing
/// is tried again after a failure, and nothing follows the end.
pub proof fn lemma_run_that_is_over_stays(run: RunView, outcome: Outcome)
    requires
        run.directive() is Failed || run.directive() is Finished,
    ensures
        run.report(outcome) == run,
{
}

/// What holds of a run as long as nothing has failed: the outcomes came in
/// for the steps in order, each was accepted, and the workers were waited
/// for after the last step, in order.
spec fn in_order(steps: Seq<StepView>, outcomes: Seq<Outcome>, run: RunView) -> bool {
    &&& run.steps == steps
    &&& run.failure is None ==> {
        &&& run.position <= steps.len()
        &&& run.joined <= run.workers()
        &&& run.joined > 0 ==> run.position == steps.len()
        &&& run.position + run.joined <= outcomes.len()
        &&& (run.directive() is Perform || run.directive() is Join) ==> run.position + run.joined
            == outcomes.len()
        &&& forall|i: int| 0 <= i < run.position ==> !(#[trigger] steps[i] is Halt)
        &&& forall|i: int| 0 <= i < run.position ==> accepted(steps[i], #[trigger] outcomes[i])
        &&& forall|j: int|
            0 <= j < run.joined ==> #[trigger] outcomes[steps.len() + j] == Outcome::Done
    }
}

proof fn lemma_run_goes_in_order(steps: Seq<StepView>, outcomes: Seq<Outcome>)
    ensures
        in_order(steps, outcomes, RunView::start(steps).after(outcomes)),
    decreases outcomes.len(),
{
    if outcomes.len() > 0 {
        let earlier = outcomes.drop_last();
        lemma_run_goes_in_order(steps, earlier);
        let before = RunView::start(steps).after(earlier);
        let run = before.report(outcomes.last());
        assert(run == RunView::start(steps).after(outcomes));
        if run.failure is None {
            assert(before.failure is None);
            if before.directive() is Perform {
                assert(outcomes.last() == outcomes[before.position as int]);
            }
            if before.directive() is Join {
                assert(outcomes.last() == outcomes[(steps.len() + before.joined) as int]);
            }
            assert forall|i: int| 0 <= i < run.position implies accepted(
                steps[i],
                #[trigger] outcomes[i],
            ) by {
                if i < before.position {
                    assert(earlier[i] == outcomes[i]);
                }
            }
            assert forall|j: int| 0 <= j < run.joined implies #[trigger] outcomes[steps.len() + j]
                == Outcome::Done by {
                if j < before.joined {
                    assert(earlier[steps.len() + j] == outcomes[steps.len() + j]);
                }
            }
        }
    }
}

/// A run ends well only when all of its plan was done: where the run that
/// began with the first step of `steps` and met `outcomes` is finished, the
/// plan holds no halt, the outcome of every step was accepted, every worker
/// that the plan starts was waited for and was done, and the number reported
/// is the number of these workers.
pub proof fn lemma_finished_run_did_everything(steps: Seq<StepView>, outcomes: Seq<Outcome>)
    requires
        steps.len() <= usize::MAX,
        RunView::start(steps).after(outcomes).directive() is Finished,
    ensures
        RunView::start(steps).after(outcomes).directive() matches Directive::Finished {
            installed,
        } && installed == worker_count(steps, steps.len()),
        outcomes.len() >= steps.len() + worker_count(steps, steps.len()),
        forall|i: int| 0 <= i < steps.len() ==> !(#[trigger] steps[i] is Halt),
        forall|i: int| 0 <= i < steps.len() ==> accepted(steps[i], #[trigger] outcomes[i]),
        forall|j: int|
            0 <= j < worker_count(steps, steps.len()) ==> #[trigger] outcomes[steps.len() + j]
                == Outcome::Done,
{
    lemma_run_goes_in_order(steps, outcomes);
    lemma_worker_count_bound(steps, steps.len());
}

/// The first failure ends the run: where the outcome of a step that was due
/// is not accepted, or a worker that was waited for is not done, the run
/// has failed, with that step or worker as the cause.
pub proof fn lemma_first_failure_ends_run(run: RunView, outcome: Outcome)
    requires
        run.steps.len() <= usize::MAX,
    ensures
        run.directive() matches Directive::Perform { index } ==> (!accepted(
            run.steps[index as int],
            outcome,
        ) ==> run.report(outcome).directive() == (Directive::Failed {
            cause: Cause::Step { index },
        })),
        run.directive() matches Directive::Join { worker } ==> (outcome != Outcome::Done
            ==> run.report(outcome).directive() == (Directive::Failed {
            cause: Cause::Worker { worker },
        })),
{
}

} // verus!
