//! The way through a plan: one step after the other, up to the first that fails.
use vstd::prelude::*;
use crate::command::{run_step, CommandView, Plan, Step, StepView};
use crate::log::LogView;
use crate::paths::HostPath;
use crate::text::optional_text;

verus! {

/// How a step went.
pub enum Outcome {
    /// It was done: the command succeeded, the path exists.
    Done,
    /// It was refused: the command did not succeed, the path does not exist.
    Refused,
    /// It could not be carried out at all.
    Error(String),
}

/// How a step went.
pub enum OutcomeView {
    Done,
    Refused,
    Error(Seq<char>),
}

impl View for Outcome {
    type V = OutcomeView;

    open spec fn view(&self) -> OutcomeView {
        match *self {
            Outcome::Done => OutcomeView::Done,
            Outcome::Refused => OutcomeView::Refused,
            Outcome::Error(e) => OutcomeView::Error(e@),
        }
    }
}

/// What is to be done next.
pub enum Directive<'a> {
    /// Carry out a step.
    Perform(&'a Step),
    /// Remove a file; that this fails does not matter.
    Remove(&'a HostPath),
    /// Nothing: all steps are done.
    Finished,
    /// Nothing: a step failed, with this error.
    Failed(&'a String),
}

/// What is to be done next.
pub enum DirectiveView {
    Perform(StepView),
    Remove(Seq<u8>),
    Finished,
    Failed(Seq<char>),
}

impl<'a> View for Directive<'a> {
    type V = DirectiveView;

    open spec fn view(&self) -> DirectiveView {
        match *self {
            Directive::Perform(step) => DirectiveView::Perform(step@),
            Directive::Remove(path) => DirectiveView::Remove(path@),
            Directive::Finished => DirectiveView::Finished,
            Directive::Failed(error) => DirectiveView::Failed(error@),
        }
    }
}

/// A plan on its way.
pub struct Runner {
    pub plan: Plan,
    pub next: usize,
    /// Whether the step at hand is over but for the file that it leaves behind.
    pub cleaning: bool,
    /// Whether that step was refused.
    pub refused: bool,
    pub error: Option<String>,
}

/// A plan on its way.
pub struct RunnerView {
    pub steps: Seq<StepView>,
    pub next: int,
    pub cleaning: bool,
    pub refused: bool,
    pub error: Option<Seq<char>>,
}

impl View for Runner {
    type V = RunnerView;

    open spec fn view(&self) -> RunnerView {
        RunnerView {
            steps: self.plan@,
            next: self.next as int,
            cleaning: self.cleaning,
            refused: self.refused,
            error: optional_text(self.error),
        }
    }
}

/// The file that a step leaves behind.
pub open spec fn leftover(step: StepView) -> Option<Seq<u8>> {
    match step {
        StepView::Run { cleanup, .. } => cleanup,
        _ => None,
    }
}

/// The error of a step that is refused, for the steps that can be.
pub open spec fn refusal(step: StepView) -> Option<Seq<char>> {
    match step {
        StepView::Run { failure, .. } => Some(failure),
        StepView::Require { failure, .. } => Some(failure),
        _ => None,
    }
}

impl RunnerView {
    /// A plan before its first step.
    pub open spec fn start(steps: Seq<StepView>) -> RunnerView {
        RunnerView { steps, next: 0, cleaning: false, refused: false, error: None }
    }

    /// What every plan on its way keeps to.
    pub open spec fn valid(self) -> bool {
        &&& 0 <= self.next <= self.steps.len()
        &&& self.cleaning ==> self.next < self.steps.len() && leftover(self.steps[self.next]) is Some
        &&& self.refused ==> self.cleaning && refusal(self.steps[self.next]) is Some
    }

    /// Whether nothing is left to do.
    pub open spec fn over(self) -> bool {
        self.error is Some || self.next >= self.steps.len()
    }

    /// What is to be done next.
    pub open spec fn directive(self) -> DirectiveView {
        if self.error is Some {
            DirectiveView::Failed(self.error->0)
        } else if self.next >= self.steps.len() {
            DirectiveView::Finished
        } else if self.cleaning {
            DirectiveView::Remove(leftover(self.steps[self.next])->0)
        } else {
            DirectiveView::Perform(self.steps[self.next])
        }
    }

    /// The step at hand left behind: with its error where it was refused.
    pub open spec fn passed(self, refused: bool) -> RunnerView {
        if refused {
            RunnerView { cleaning: false, refused: false, error: refusal(self.steps[self.next]), ..self }
        } else {
            RunnerView { cleaning: false, refused: false, next: self.next + 1, ..self }
        }
    }

    /// The plan after what was to be done went as `outcome` says.
    pub open spec fn after(self, outcome: OutcomeView) -> RunnerView {
        if self.over() {
            self
        } else if self.cleaning {
            self.passed(self.refused)
        } else {
            let step = self.steps[self.next];
            match outcome {
                OutcomeView::Error(error) => RunnerView { error: Some(error), ..self },
                _ => {
                    let refused = outcome is Refused && refusal(step) is Some;
                    if leftover(step) is Some {
                        RunnerView { cleaning: true, refused, ..self }
                    } else {
                        self.passed(refused)
                    }
                },
            }
        }
    }

    /// The plan after a number of outcomes.
    pub open spec fn after_all(self, outcomes: Seq<OutcomeView>) -> RunnerView
        decreases outcomes.len(),
    {
        if outcomes.len() == 0 {
            self
        } else {
            self.after_all(outcomes.drop_last()).after(outcomes.last())
        }
    }
}

impl Runner {
    /// A plan before its first step.
    pub fn new(plan: Plan) -> (r: Runner)
        ensures
            r@ == RunnerView::start(plan@),
            r@.valid(),
    {
        Runner { plan, next: 0, cleaning: false, refused: false, error: None }
    }

    /// What is to be done next.
    pub fn directive(&self) -> (r: Directive)
        requires
            self@.valid(),
        ensures
            r@ == self@.directive(),
    {
        if let Some(error) = &self.error {
            return Directive::Failed(error);
        }
        if self.next >= self.plan.steps.len() {
            return Directive::Finished;
        }
        let step = &self.plan.steps[self.next];
        assert(step@ == self@.steps[self@.next]);
        if self.cleaning {
            if let Step::Run(run) = step {
                if let Some(path) = &run.cleanup {
                    return Directive::Remove(path);
                }
            }
        }
        Directive::Perform(step)
    }

    /// Goes on after what was to be done went as `outcome` says.
    pub fn advance(&mut self, outcome: Outcome)
        requires
            old(self)@.valid(),
        ensures
            final(self)@ == old(self)@.after(outcome@),
            final(self)@.valid(),
    {
        if self.error.is_some() || self.next >= self.plan.steps.len() {
            return;
        }
        let step = &self.plan.steps[self.next];
        assert(step@ == self@.steps[self@.next]);
        let mut leaves: bool = false;
        let mut failure: Option<String> = None;
        match step {
            Step::Run(run) => {
                leaves = run.cleanup.is_some();
                failure = Some(run.failure.clone());
            },
            Step::Require { path: _, failure: message } => {
                failure = Some(message.clone());
            },
            _ => {},
        }
        let mut refused: bool = self.refused;
        if !self.cleaning {
            match outcome {
                Outcome::Error(error) => {
                    self.error = Some(error);
                    return;
                },
                Outcome::Refused => {
                    refused = failure.is_some();
                },
                Outcome::Done => {
                    refused = false;
                },
            }
            if leaves {
                self.cleaning = true;
                self.refused = refused;
                return;
            }
        }
        self.cleaning = false;
        self.refused = false;
        if refused {
            self.error = failure;
        } else {
            self.next = self.next + 1;
        }
    }
}

/// Nothing is done after a failure: once a step failed, the plan stays failed with that error,
/// whatever comes.
pub proof fn law_failure_is_final(runner: RunnerView, outcomes: Seq<OutcomeView>)
    requires
        runner.error is Some,
    ensures
        runner.after_all(outcomes) == runner,
    decreases outcomes.len(),
{
    if outcomes.len() > 0 {
        law_failure_is_final(runner, outcomes.drop_last());
    }
}

/// What a plan keeps to, it keeps to on all its way, and its steps do not change.
pub proof fn law_runner_stays_valid(steps: Seq<StepView>, outcomes: Seq<OutcomeView>)
    ensures
        RunnerView::start(steps).after_all(outcomes).valid(),
        RunnerView::start(steps).after_all(outcomes).steps == steps,
    decreases outcomes.len(),
{
    if outcomes.len() > 0 {
        law_runner_stays_valid(steps, outcomes.drop_last());
    }
}

/// The steps carried out so far are the first ones of the plan, in its order, each once: a step is
/// carried out only when every step before it was done, and where none failed each outcome but
/// those of removals took the plan one step on.
pub proof fn law_steps_in_order(steps: Seq<StepView>, outcomes: Seq<OutcomeView>)
    ensures
        ({
            let runner = RunnerView::start(steps).after_all(outcomes);
            carried_out(steps, outcomes) == steps.take(
                runner.next + (if runner.cleaning || (runner.error is Some && runner.next < steps.len()) {
                    1int
                } else {
                    0int
                }),
            )
        }),
    decreases outcomes.len(),
{
    let start = RunnerView::start(steps);
    if outcomes.len() == 0 {
        assert(steps.take(0) =~= Seq::empty());
    } else {
        law_steps_in_order(steps, outcomes.drop_last());
        law_runner_stays_valid(steps, outcomes.drop_last());
        let before = start.after_all(outcomes.drop_last());
        if before.directive() is Perform {
            assert(steps.take(before.next).push(steps[before.next]) =~= steps.take(before.next + 1));
        }
    }
}

/// The steps that a plan has carried out after a number of outcomes.
pub open spec fn carried_out(steps: Seq<StepView>, outcomes: Seq<OutcomeView>) -> Seq<StepView>
    decreases outcomes.len(),
{
    if outcomes.len() == 0 {
        Seq::empty()
    } else {
        let before = carried_out(steps, outcomes.drop_last());
        match RunnerView::start(steps).after_all(outcomes.drop_last()).directive() {
            DirectiveView::Perform(step) => before.push(step),
            _ => before,
        }
    }
}

/// A file that a command leaves behind is removed however the command ended, before anything else
/// is done.
pub proof fn law_leftovers_are_removed(runner: RunnerView, outcome: OutcomeView)
    requires
        runner.valid(),
        runner.directive() is Perform,
        leftover(runner.steps[runner.next]) is Some,
        !(outcome is Error),
    ensures
        runner.after(outcome).directive() == DirectiveView::Remove(leftover(runner.steps[runner.next])->0),
{
}

/// A plan fails exactly with the error of the step that was refused, or that could not be carried out.
pub proof fn law_error_is_the_steps_own(runner: RunnerView, outcome: OutcomeView)
    requires
        runner.valid(),
        runner.error is None,
        runner.after(outcome).error is Some,
    ensures
        !runner.over(),
        runner.after(outcome).error == refusal(runner.steps[runner.next]) || outcome == OutcomeView::Error(
            runner.after(outcome).error->0,
        ),
{
}

/// A plan that announces a command and runs it ends as the command does: it finishes if and only if the
/// command succeeds, and fails with the command's own message where it does not. Such are the plans of
/// scripts, of hooks and of the command that an archive runs.
pub proof fn law_announced_commands_decide(
    line: LogView,
    command: CommandView,
    failure: Seq<char>,
    outcome: OutcomeView,
)
    ensures
        ({
            let end = RunnerView::start(seq![StepView::Log(line), run_step(command, failure)]).after_all(
                seq![OutcomeView::Done, outcome],
            );
            end.directive() == match outcome {
                OutcomeView::Done => DirectiveView::Finished,
                OutcomeView::Refused => DirectiveView::Failed(failure),
                OutcomeView::Error(e) => DirectiveView::Failed(e),
            }
        }),
{
    let outcomes = seq![OutcomeView::Done, outcome];
    assert(outcomes.drop_last() =~= seq![OutcomeView::Done]);
    assert(outcomes.drop_last().drop_last() =~= Seq::empty());
    reveal_with_fuel(RunnerView::after_all, 3);
}

/// What becomes of a plan after a step. A step that was done, and a step that cannot be refused, lead on to
/// the next one; a command that did not succeed and a file that is not there end the plan with the error
/// that the step names, and a step that could not be carried out ends it with its own. A file that a
/// command leaves behind is removed before any of that, unless the command could not be started.
pub proof fn law_steps_lead_on_or_end_the_plan(runner: RunnerView, outcome: OutcomeView)
    requires
        runner.valid(),
        !runner.over(),
        !runner.cleaning,
    ensures
        ({
            let step = runner.steps[runner.next];
            let after = runner.after(outcome);
            let leaves = step is Run && step->Run_cleanup is Some;
            let end = if leaves { after.after(OutcomeView::Done) } else { after };
            &&& after.steps == runner.steps
            &&& outcome matches OutcomeView::Error(e) ==> after.directive() == DirectiveView::Failed(e)
            &&& !(outcome is Error) && leaves ==> after.directive() == DirectiveView::Remove(step->Run_cleanup->0)
                && after.next == runner.next && forall|any: OutcomeView| #[trigger] after.after(any) == end
            &&& outcome is Done ==> end.next == runner.next + 1 && end.error is None && !end.cleaning
            &&& outcome is Refused && step is Run ==> end.directive() == DirectiveView::Failed(step->Run_failure)
            &&& outcome is Refused && step is Require ==> end.directive() == DirectiveView::Failed(
                step->Require_failure,
            )
            &&& outcome is Refused && !(step is Run) && !(step is Require) ==> end.next == runner.next + 1
                && end.error is None && !end.cleaning
        }),
{
}

/// A plan begins with its first step, goes on step by step and is finished after its last.
pub proof fn law_plans_are_carried_out_from_the_first_step(steps: Seq<StepView>)
    ensures
        steps.len() == 0 ==> RunnerView::start(steps).directive() == DirectiveView::Finished,
        steps.len() > 0 ==> RunnerView::start(steps).directive() == DirectiveView::Perform(steps[0]),
        forall|runner: RunnerView|
            #![trigger runner.directive()]
            runner.error is None && !runner.cleaning ==> runner.directive() == (if runner.next
                >= runner.steps.len() {
                DirectiveView::Finished
            } else {
                DirectiveView::Perform(runner.steps[runner.next])
            }),
{
}

} // verus!
