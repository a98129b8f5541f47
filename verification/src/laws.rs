//! The law that spans the queue and the pipeline: what the checkpoint
//! answer of one does to the run of the other.

use crate::outcome::StepOutcome;
use crate::pipeline::checkpoint_rel;
use crate::pipeline::step_rel;
use crate::pipeline::Mode;
use crate::pipeline::NextOp;
use crate::pipeline::PipelineRun;
use crate::queue::SingleFlightQueue;
use vstd::prelude::*;

verus! {

/// Checkpoint correctness law: a transaction whose generation is no
/// longer the newest for its key at the time a checkpoint is reached
/// resolves superseded, and no step at or after that checkpoint executes
/// — its invocation counts never change again. The checkpoint answer fed
/// to the run is exactly what `SingleFlightQueue::is_current` returns for
/// the transaction's key and generation.
pub proof fn lemma_checkpoint_correctness(
    q: SingleFlightQueue,
    k: Seq<char>,
    g: u64,
    pre: PipelineRun,
    post: PipelineRun,
)
    requires
        q.latest(k) != g || !q.tracks(k),
        pre.wf(),
        pre.spec_next_op() == NextOp::Checkpoint,
        checkpoint_rel(pre, (q.tracks(k) && q.latest(k) == g), post),
    ensures
        post.mode == Mode::Done,
        post.result.is_superseded(),
        post.counts@ == pre.counts@,
        post.spec_next_op() == NextOp::Finished,
        forall|o: StepOutcome, s2: PipelineRun| !(#[trigger] step_rel(post, o, s2)),
{
}

} // verus!
