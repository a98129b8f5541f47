//! Sequential retryable pipeline execution.
//!
//! A pipeline is an ordered list of steps. Steps run top to bottom; a
//! retryable failure is retried up to the policy's bound and an exhausted
//! or fatal failure fails the whole pipeline, skipping every later step
//! except those designated as cleanup (best-effort, always run on exit,
//! their own errors swallowed). Before a step so marked, the driver asks
//! the queue's checkpoint whether the transaction is still current; if it
//! is not, the run aborts as superseded at once and nothing further runs.
//!
//! Step side effects are external (process invocations, network calls), so
//! execution is a state machine: `next_op` says what the driver must do
//! next — consult the checkpoint, invoke a step, or stop — and
//! `on_checkpoint` / `on_step` advance the machine on the answer. The
//! transition relations `checkpoint_rel` and `step_rel` state exactly what
//! each answer does to the state; the laws at the bottom are proved from
//! them alone.

use crate::outcome::PipelineOutcome;
use crate::outcome::StepOutcome;
use crate::retry::RetryDecision;
use crate::retry::RetryPolicy;
use vstd::prelude::*;

verus! {

/// The static shape of one step in a pipeline.
#[derive(Debug, Clone, Copy, PartialEq, Eq, Structural)]
pub struct StepPlan {
    /// Consult the checkpoint before the first attempt of this step.
    /// Ignored on cleanup steps: checkpoints are never placed before
    /// mandatory cleanup.
    pub checkpoint_before: bool,
    /// A best-effort cleanup step: it still runs after a fatal or
    /// exhausted failure of an earlier step, it is never retried, and its
    /// own failure never changes the pipeline's outcome.
    pub cleanup: bool,
}

/// Where the run stands: executing steps in order, winding down through
/// the remaining cleanup steps after a failure, or finished.
#[derive(Debug, Clone, Copy, PartialEq, Eq, Structural)]
pub enum Mode {
    Main,
    Cleanup,
    Done,
}

/// What the driver must do next.
#[derive(Debug, Clone, Copy, PartialEq, Eq, Structural)]
pub enum NextOp {
    /// Ask the queue whether the transaction is still current, then call
    /// `on_checkpoint` with the answer.
    Checkpoint,
    /// Invoke the step at the current position, then call `on_step` with
    /// its outcome.
    RunStep,
    /// The run is over; the outcome is in `result`.
    Finished,
}

/// The smallest cleanup index at or after `from`, if any.
pub open spec fn next_cleanup(steps: Seq<StepPlan>, from: int) -> Option<int>
    decreases steps.len() - from,
{
    if from < 0 || from >= steps.len() {
        None
    } else if steps[from].cleanup {
        Some(from)
    } else {
        next_cleanup(steps, from + 1)
    }
}

/// One transaction's execution state. The driver repeatedly asks
/// `next_op` and reports answers; `counts` records how often each step
/// has been invoked.
pub struct PipelineRun {
    /// The ordered steps.
    pub steps: Vec<StepPlan>,
    /// The retry policy applied to every step.
    pub policy: RetryPolicy,
    /// Index of the step currently being executed.
    pub pos: usize,
    /// Invocations of the current step so far (all retryable failures).
    pub attempts: u32,
    /// The checkpoint before the current step has already answered
    /// "current".
    pub checked: bool,
    /// Execution phase.
    pub mode: Mode,
    /// The outcome: final in `Done`, the pending failure in `Cleanup`.
    pub result: PipelineOutcome,
    /// Invocations of each step so far.
    pub counts: Vec<u32>,
}

impl PipelineRun {
    pub open spec fn wf(self) -> bool {
        &&& self.policy.wf()
        &&& self.policy.max_attempts < u32::MAX
        &&& self.counts@.len() == self.steps@.len()
        &&& forall|i: int|
            0 <= i < self.counts@.len() ==> #[trigger] self.counts@[i] <= self.policy.max_attempts
        &&& match self.mode {
            Mode::Main => {
                &&& self.pos < self.steps@.len()
                &&& self.attempts < self.policy.max_attempts
                &&& self.counts@[self.pos as int] == self.attempts
                &&& (self.steps@[self.pos as int].cleanup ==> self.attempts == 0)
                &&& forall|j: int|
                    self.pos < j < self.counts@.len() ==> #[trigger] self.counts@[j] == 0
            },
            Mode::Cleanup => {
                &&& self.pos < self.steps@.len()
                &&& self.steps@[self.pos as int].cleanup
                &&& self.counts@[self.pos as int] == 0
                &&& self.result.is_failed()
                &&& forall|j: int|
                    self.pos < j < self.counts@.len() ==> #[trigger] self.counts@[j] == 0
            },
            Mode::Done => true,
        }
    }

    /// What the driver must do next, as a function of the state alone.
    pub open spec fn spec_next_op(self) -> NextOp {
        match self.mode {
            Mode::Done => NextOp::Finished,
            Mode::Cleanup => NextOp::RunStep,
            Mode::Main => if self.steps@[self.pos as int].checkpoint_before && !self.checked
                && !self.steps@[self.pos as int].cleanup {
                NextOp::Checkpoint
            } else {
                NextOp::RunStep
            },
        }
    }

    /// A fresh run positioned before the first step. An empty pipeline is
    /// finished at once, successfully.
    pub fn new(steps: Vec<StepPlan>, policy: RetryPolicy) -> (r: PipelineRun)
        requires
            policy.wf(),
            policy.max_attempts < u32::MAX,
        ensures
            r.wf(),
            r.steps@ == steps@,
            r.policy == policy,
            r.counts@.len() == steps@.len(),
            forall|i: int| 0 <= i < r.counts@.len() ==> #[trigger] r.counts@[i] == 0,
            (if steps@.len() == 0 {
                r.mode == Mode::Done && r.result.is_succeeded()
            } else {
                r.mode == Mode::Main && r.pos == 0 && r.attempts == 0 && !r.checked
            }),
    {
        let n: usize = steps.len();
        let mut counts: Vec<u32> = Vec::new();
        let mut i: usize = 0;
        while i < n
            invariant
                i <= n,
                counts@.len() == i,
                forall|j: int| 0 <= j < i ==> #[trigger] counts@[j] == 0,
            decreases n - i,
        {
            counts.push(0);
            i += 1;
        }
        let mode = if n == 0 {
            Mode::Done
        } else {
            Mode::Main
        };
        PipelineRun {
            steps,
            policy,
            pos: 0,
            attempts: 0,
            checked: false,
            mode,
            result: PipelineOutcome::Succeeded,
            counts,
        }
    }

    /// The executable form of `spec_next_op`.
    pub fn next_op(&self) -> (r: NextOp)
        requires
            self.wf(),
        ensures
            r == self.spec_next_op(),
    {
        match self.mode {
            Mode::Done => NextOp::Finished,
            Mode::Cleanup => NextOp::RunStep,
            Mode::Main => {
                if self.steps[self.pos].checkpoint_before && !self.checked
                    && !self.steps[self.pos].cleanup {
                    NextOp::Checkpoint
                } else {
                    NextOp::RunStep
                }
            },
        }
    }

    /// Reports the checkpoint's answer: still current, or superseded. On
    /// supersession the run aborts at once — no step after this
    /// checkpoint executes.
    pub fn on_checkpoint(&mut self, current: bool)
        requires
            old(self).wf(),
            old(self).spec_next_op() == NextOp::Checkpoint,
        ensures
            final(self).wf(),
            checkpoint_rel(*old(self), current, *final(self)),
    {
        if current {
            self.checked = true;
        } else {
            self.mode = Mode::Done;
            self.result = PipelineOutcome::Superseded;
        }
    }

    /// Reports the outcome of one invocation of the current step.
    pub fn on_step(&mut self, outcome: StepOutcome)
        requires
            old(self).wf(),
            old(self).spec_next_op() == NextOp::RunStep,
        ensures
            final(self).wf(),
            step_rel(*old(self), outcome, *final(self)),
    {
        let n: usize = self.steps.len();
        let c: u32 = self.counts[self.pos];
        self.counts[self.pos] = c + 1;
        match self.mode {
            Mode::Done => {
                proof {
                    assert(false);
                }
            },
            Mode::Cleanup => {
                match find_cleanup(&self.steps, self.pos + 1) {
                    Some(c2) => {
                        self.pos = c2;
                    },
                    None => {
                        self.mode = Mode::Done;
                    },
                }
            },
            Mode::Main => {
                if self.steps[self.pos].cleanup {
                    self.advance();
                } else {
                    match outcome {
                        StepOutcome::Success => {
                            self.advance();
                        },
                        StepOutcome::RetryableError(reason) => {
                            match self.policy.decide(self.attempts + 1) {
                                RetryDecision::Retry(_) => {
                                    self.attempts = self.attempts + 1;
                                },
                                RetryDecision::GiveUp => {
                                    self.fail(reason);
                                },
                            }
                        },
                        StepOutcome::FatalError(reason) => {
                            self.fail(reason);
                        },
                    }
                }
            },
        }
    }

    /// Moves past a step that ended well (or a cleanup step reached in
    /// order, whatever it returned).
    fn advance(&mut self)
        requires
            old(self).mode == Mode::Main,
            old(self).pos < old(self).steps@.len(),
        ensures
            final(self).steps@ == old(self).steps@,
            final(self).policy == old(self).policy,
            final(self).counts@ == old(self).counts@,
            advanced_to(*old(self), *final(self), old(self).pos + 1),
    {
        let n: usize = self.steps.len();
        let p: usize = self.pos + 1;
        if p == n {
            self.mode = Mode::Done;
            self.result = PipelineOutcome::Succeeded;
        } else {
            self.pos = p;
            self.attempts = 0;
            self.checked = false;
        }
    }

    /// Records the pipeline's failure and moves to the first cleanup step
    /// after the current position, or finishes if there is none.
    fn fail(&mut self, reason: String)
        requires
            old(self).mode == Mode::Main,
            old(self).pos < old(self).steps@.len(),
        ensures
            final(self).steps@ == old(self).steps@,
            final(self).policy == old(self).policy,
            final(self).counts@ == old(self).counts@,
            failed_to(*old(self), *final(self), reason@),
            final(self).mode == Mode::Cleanup ==> old(self).pos < final(self).pos
                < final(self).steps@.len() && final(self).steps@[final(self).pos as int].cleanup,
    {
        let n: usize = self.steps.len();
        self.result = PipelineOutcome::Failed(reason);
        match find_cleanup(&self.steps, self.pos + 1) {
            Some(c2) => {
                self.pos = c2;
                self.mode = Mode::Cleanup;
            },
            None => {
                self.mode = Mode::Done;
            },
        }
    }
}

/// Finds the smallest cleanup index at or after `from`.
fn find_cleanup(steps: &Vec<StepPlan>, from: usize) -> (r: Option<usize>)
    requires
        from <= steps@.len(),
    ensures
        match r {
            Some(c) => from <= c < steps@.len() && steps@[c as int].cleanup && next_cleanup(
                steps@,
                from as int,
            ) == Some(c as int),
            None => next_cleanup(steps@, from as int) == None::<int>,
        },
{
    let n: usize = steps.len();
    let mut i: usize = from;
    while i < n
        invariant
            n == steps@.len(),
            from <= i <= n,
            next_cleanup(steps@, from as int) == next_cleanup(steps@, i as int),
        decreases n - i,
    {
        if steps[i].cleanup {
            return Some(i);
        }
        i += 1;
    }
    None
}

/// Steps and policy never change over a run.
pub open spec fn same_config(pre: PipelineRun, post: PipelineRun) -> bool {
    post.steps@ == pre.steps@ && post.policy == pre.policy
}

/// Exactly one invocation of the current step was recorded.
pub open spec fn counts_bumped(pre: PipelineRun, post: PipelineRun) -> bool {
    post.counts@ == pre.counts@.update(
        pre.pos as int,
        (pre.counts@[pre.pos as int] + 1) as u32,
    )
}

/// The run moved on to step `p`: executing it, or finished successfully
/// if no step is left.
pub open spec fn advanced_to(pre: PipelineRun, post: PipelineRun, p: int) -> bool {
    if p == pre.steps@.len() {
        post.mode == Mode::Done && post.result.is_succeeded()
    } else {
        post.mode == Mode::Main && post.pos == p && post.attempts == 0 && post.checked == false
    }
}

/// The run failed with `reason` and wound on to the next cleanup step, or
/// finished if there is none.
pub open spec fn failed_to(pre: PipelineRun, post: PipelineRun, reason: Seq<char>) -> bool {
    &&& post.result.is_failed()
    &&& post.result.reason() == reason
    &&& match next_cleanup(pre.steps@, pre.pos + 1) {
        Some(c) => post.mode == Mode::Cleanup && post.pos == c,
        None => post.mode == Mode::Done,
    }
}

/// Exactly what reporting a step outcome does. From `Main` on an ordinary
/// step: success advances, a retryable failure within the bound retries
/// the same step, an exhausted or fatal failure fails the pipeline with
/// that reason and winds down through cleanup. A cleanup step reached in
/// order advances whatever it returned. From `Cleanup` the answer is
/// ignored and the wind-down continues. No step runs once the machine is
/// `Done`.
pub open spec fn step_rel(pre: PipelineRun, outcome: StepOutcome, post: PipelineRun) -> bool {
    &&& same_config(pre, post)
    &&& counts_bumped(pre, post)
    &&& match pre.mode {
        Mode::Done => false,
        Mode::Cleanup => {
            &&& post.result.is_failed()
            &&& post.result.reason() == pre.result.reason()
            &&& match next_cleanup(pre.steps@, pre.pos + 1) {
                Some(c) => post.mode == Mode::Cleanup && post.pos == c,
                None => post.mode == Mode::Done,
            }
        },
        Mode::Main => {
            if pre.steps@[pre.pos as int].cleanup {
                advanced_to(pre, post, pre.pos + 1)
            } else if outcome.is_success() {
                advanced_to(pre, post, pre.pos + 1)
            } else if outcome.is_retryable() {
                if pre.attempts + 1 < pre.policy.max_attempts {
                    &&& post.mode == Mode::Main
                    &&& post.pos == pre.pos
                    &&& post.attempts == pre.attempts + 1
                    &&& post.checked == pre.checked
                } else {
                    failed_to(pre, post, outcome.reason())
                }
            } else {
                failed_to(pre, post, outcome.reason())
            }
        },
    }
}

/// Exactly what the checkpoint's answer does: "current" unlocks the
/// pending step; "superseded" finishes the run at once with the
/// `Superseded` outcome, no step invoked.
pub open spec fn checkpoint_rel(pre: PipelineRun, current: bool, post: PipelineRun) -> bool {
    &&& same_config(pre, post)
    &&& post.counts@ == pre.counts@
    &&& if current {
        &&& post.mode == pre.mode
        &&& post.pos == pre.pos
        &&& post.attempts == pre.attempts
        &&& post.checked == true
    } else {
        &&& post.mode == Mode::Done
        &&& post.result.is_superseded()
    }
}

/// A cleanup index found by `next_cleanup` lies in range, at or after
/// `from`, and is marked cleanup.
pub proof fn lemma_next_cleanup_some(steps: Seq<StepPlan>, from: int, c: int)
    requires
        next_cleanup(steps, from) == Some(c),
    ensures
        0 <= c < steps.len(),
        from <= c,
        steps[c].cleanup,
    decreases steps.len() - from,
{
    if from < 0 || from >= steps.len() {
    } else if steps[from].cleanup {
    } else {
        lemma_next_cleanup_some(steps, from + 1, c);
    }
}

/// Reporting a step outcome preserves well-formedness.
pub proof fn lemma_step_rel_preserves_wf(pre: PipelineRun, o: StepOutcome, post: PipelineRun)
    requires
        pre.wf(),
        step_rel(pre, o, post),
    ensures
        post.wf(),
{
    if post.mode == Mode::Cleanup {
        match next_cleanup(pre.steps@, pre.pos + 1) {
            Some(c) => lemma_next_cleanup_some(pre.steps@, pre.pos + 1, c),
            None => (),
        }
    }
}

/// Retry bound law: starting an ordinary step afresh, a step that fails
/// retryably on every attempt is invoked exactly `max_attempts` times,
/// after which the pipeline fails with the last observed reason.
pub proof fn lemma_retry_bound(trace: Seq<PipelineRun>, outcomes: Seq<StepOutcome>)
    requires
        trace.len() == outcomes.len() + 1,
        outcomes.len() == trace[0].policy.max_attempts,
        trace[0].wf(),
        trace[0].mode == Mode::Main,
        trace[0].attempts == 0,
        !trace[0].steps@[trace[0].pos as int].cleanup,
        forall|i: int| 0 <= i < outcomes.len() ==> (#[trigger] outcomes[i]).is_retryable(),
        forall|i: int|
            0 <= i < outcomes.len() ==> step_rel(trace[i], #[trigger] outcomes[i], trace[i + 1]),
    ensures
        trace.last().counts@[trace[0].pos as int] == trace[0].policy.max_attempts,
        trace.last().result.is_failed(),
        trace.last().result.reason() == outcomes.last().reason(),
{
    let m: int = trace[0].policy.max_attempts as int;
    lemma_retry_prefix(trace, outcomes, m - 1);
    assert(step_rel(trace[m - 1], outcomes[m - 1], trace[m]));
}

proof fn lemma_retry_prefix(trace: Seq<PipelineRun>, outcomes: Seq<StepOutcome>, t: int)
    requires
        trace.len() == outcomes.len() + 1,
        outcomes.len() == trace[0].policy.max_attempts,
        trace[0].wf(),
        trace[0].mode == Mode::Main,
        trace[0].attempts == 0,
        !trace[0].steps@[trace[0].pos as int].cleanup,
        forall|i: int| 0 <= i < outcomes.len() ==> (#[trigger] outcomes[i]).is_retryable(),
        forall|i: int|
            0 <= i < outcomes.len() ==> step_rel(trace[i], #[trigger] outcomes[i], trace[i + 1]),
        0 <= t < trace[0].policy.max_attempts,
    ensures
        trace[t].wf(),
        trace[t].mode == Mode::Main,
        trace[t].pos == trace[0].pos,
        trace[t].attempts == t,
        trace[t].counts@[trace[0].pos as int] == t,
        trace[t].steps@ == trace[0].steps@,
        trace[t].policy == trace[0].policy,
    decreases t,
{
    if t > 0 {
        lemma_retry_prefix(trace, outcomes, t - 1);
        assert(step_rel(trace[t - 1], outcomes[t - 1], trace[t]));
        lemma_step_rel_preserves_wf(trace[t - 1], outcomes[t - 1], trace[t]);
    }
}

/// Fatal short-circuit law: a step failing fatally on its first attempt
/// has been invoked exactly once, and the pipeline fails at once with
/// that reason, leaving ordinary execution for good.
pub proof fn lemma_fatal_short_circuit(pre: PipelineRun, o: StepOutcome, post: PipelineRun)
    requires
        pre.wf(),
        pre.mode == Mode::Main,
        pre.attempts == 0,
        !pre.steps@[pre.pos as int].cleanup,
        o.is_fatal(),
        step_rel(pre, o, post),
    ensures
        post.wf(),
        post.counts@[pre.pos as int] == 1,
        post.result.is_failed(),
        post.result.reason() == o.reason(),
        post.mode != Mode::Main,
{
    lemma_step_rel_preserves_wf(pre, o, post);
}

/// After a failure the run only winds down: it never returns to ordinary
/// execution, it preserves the failure reason, and it never again invokes
/// a step that is not marked cleanup.
pub proof fn lemma_winddown(s: PipelineRun, o: StepOutcome, s2: PipelineRun)
    requires
        s.wf(),
        s.mode == Mode::Cleanup,
        step_rel(s, o, s2),
    ensures
        s2.wf(),
        s2.mode != Mode::Main,
        s2.result.is_failed(),
        s2.result.reason() == s.result.reason(),
        forall|j: int|
            0 <= j < s.counts@.len() && !s.steps@[j].cleanup ==> s2.counts@[j] == s.counts@[j],
{
    lemma_step_rel_preserves_wf(s, o, s2);
}

/// While winding down, the only step the machine offers is a cleanup
/// step.
pub proof fn lemma_cleanup_offers_only_cleanup(s: PipelineRun)
    requires
        s.wf(),
        s.mode == Mode::Cleanup,
    ensures
        s.spec_next_op() == NextOp::RunStep,
        s.steps@[s.pos as int].cleanup,
{
}

/// A finished run offers nothing but its outcome: no step outcome is
/// ever reported to it again.
pub proof fn lemma_finished_runs_nothing(s: PipelineRun)
    requires
        s.mode == Mode::Done,
    ensures
        s.spec_next_op() == NextOp::Finished,
        forall|o: StepOutcome, s2: PipelineRun| !(#[trigger] step_rel(s, o, s2)),
{
}

} // verus!
