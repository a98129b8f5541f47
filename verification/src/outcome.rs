//! Outcomes of step invocations and of whole pipeline runs.

use vstd::prelude::*;

verus! {

/// Result of one invocation of a step: success, a transient failure the
/// retry policy may absorb, or a failure that cannot succeed without
/// external intervention. The classification is the step author's
/// responsibility; it exists only for the duration of one invocation.
#[derive(Debug, Clone, PartialEq, Eq)]
pub enum StepOutcome {
    Success,
    RetryableError(String),
    FatalError(String),
}

impl StepOutcome {
    pub open spec fn is_success(self) -> bool {
        matches!(self, StepOutcome::Success)
    }

    pub open spec fn is_retryable(self) -> bool {
        matches!(self, StepOutcome::RetryableError(_))
    }

    pub open spec fn is_fatal(self) -> bool {
        matches!(self, StepOutcome::FatalError(_))
    }

    /// The reason carried by a failing outcome; the empty sequence on success.
    pub open spec fn reason(self) -> Seq<char> {
        match self {
            StepOutcome::Success => Seq::empty(),
            StepOutcome::RetryableError(r) => r@,
            StepOutcome::FatalError(r) => r@,
        }
    }
}

/// Terminal outcome of one transaction, delivered exactly once to each
/// submitter: the pipeline succeeded, it failed with a reason (a fatal step
/// error or an exhausted retryable one), or a newer submission for the same
/// key made it obsolete. `Superseded` is not a failure of the pipeline's
/// logic and must stay distinguishable from one.
#[derive(Debug, Clone, PartialEq, Eq)]
pub enum PipelineOutcome {
    Succeeded,
    Failed(String),
    Superseded,
}

impl PipelineOutcome {
    pub open spec fn is_succeeded(self) -> bool {
        matches!(self, PipelineOutcome::Succeeded)
    }

    pub open spec fn is_failed(self) -> bool {
        matches!(self, PipelineOutcome::Failed(_))
    }

    pub open spec fn is_superseded(self) -> bool {
        matches!(self, PipelineOutcome::Superseded)
    }

    /// The reason carried by a failed outcome; the empty sequence otherwise.
    pub open spec fn reason(self) -> Seq<char> {
        match self {
            PipelineOutcome::Failed(r) => r@,
            _ => Seq::empty(),
        }
    }
}

/// How the webhook maps a transaction's outcome to a response status: a
/// pipeline failure is a server error, everything else — success, and
/// supersession, which is not a failure — reports success. (A request
/// whose service label resolves to nothing is the caller's error, mapped
/// to 400 before anything is submitted.)
pub fn status_for_outcome(outcome: &PipelineOutcome) -> (r: u16)
    ensures
        r == (if outcome.is_failed() {
            500u16
        } else {
            200u16
        }),
{
    match outcome {
        PipelineOutcome::Failed(_) => 500,
        _ => 200,
    }
}

} // verus!
