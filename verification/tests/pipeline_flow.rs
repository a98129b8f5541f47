use single_flight::outcome::PipelineOutcome;
use single_flight::outcome::StepOutcome;
use single_flight::pipeline::Mode;
use single_flight::pipeline::NextOp;
use single_flight::pipeline::PipelineRun;
use single_flight::pipeline::StepPlan;
use single_flight::queue::SingleFlightQueue;
use single_flight::retry::RetryPolicy;

fn plain() -> StepPlan {
    StepPlan { checkpoint_before: false, cleanup: false }
}

fn checked() -> StepPlan {
    StepPlan { checkpoint_before: true, cleanup: false }
}

fn cleanup() -> StepPlan {
    StepPlan { checkpoint_before: false, cleanup: true }
}

fn policy(max: u32) -> RetryPolicy {
    RetryPolicy { max_attempts: max, delay_ms: 0 }
}

/// Drives a run to its end against a queue, feeding each invocation of
/// step `i` the next outcome of `scripts[i]`.
fn drive(
    run: &mut PipelineRun,
    queue: &SingleFlightQueue,
    key: &String,
    gen: u64,
    scripts: &mut Vec<Vec<StepOutcome>>,
) -> PipelineOutcome {
    loop {
        match run.next_op() {
            NextOp::Checkpoint => {
                let current = queue.is_current(key, gen);
                run.on_checkpoint(current);
            }
            NextOp::RunStep => {
                let i = run.pos;
                let outcome = scripts[i].remove(0);
                run.on_step(outcome);
            }
            NextOp::Finished => return run.result.clone(),
        }
    }
}

fn solo_queue(key: &String) -> (SingleFlightQueue, u64) {
    let mut q = SingleFlightQueue::new();
    let effect = q.submit(key);
    match effect {
        single_flight::queue::SubmitEffect::Started { gen } => (q, gen),
        _ => panic!("fresh key must start at once"),
    }
}

#[test]
fn all_steps_succeed() {
    let key = "svc-a".to_string();
    let (q, gen) = solo_queue(&key);
    let mut run = PipelineRun::new(vec![plain(), checked(), plain()], policy(3));
    let mut scripts = vec![
        vec![StepOutcome::Success],
        vec![StepOutcome::Success],
        vec![StepOutcome::Success],
    ];
    let result = drive(&mut run, &q, &key, gen, &mut scripts);
    assert_eq!(result, PipelineOutcome::Succeeded);
    assert_eq!(run.counts, vec![1, 1, 1]);
}

#[test]
fn empty_pipeline_succeeds_at_once() {
    let run = PipelineRun::new(vec![], policy(3));
    assert_eq!(run.mode, Mode::Done);
    assert_eq!(run.result, PipelineOutcome::Succeeded);
}

#[test]
fn retry_bound_exhausts_after_max_attempts() {
    // A step that always fails retryably is invoked exactly max_attempts
    // times, then the pipeline fails with the last observed reason.
    let key = "svc-a".to_string();
    let (q, gen) = solo_queue(&key);
    let mut run = PipelineRun::new(vec![plain()], policy(3));
    let mut scripts = vec![vec![
        StepOutcome::RetryableError("flaky".to_string()),
        StepOutcome::RetryableError("flaky".to_string()),
        StepOutcome::RetryableError("still flaky".to_string()),
    ]];
    let result = drive(&mut run, &q, &key, gen, &mut scripts);
    assert_eq!(result, PipelineOutcome::Failed("still flaky".to_string()));
    assert_eq!(run.counts, vec![3]);
}

#[test]
fn pull_recovers_within_retry_bound() {
    // Pipeline = [login: Ok, pull: RetryableError x2 then Ok, up: Ok]
    // with max_attempts = 3: the run succeeds and pull is invoked 3 times.
    let key = "svc-a".to_string();
    let (q, gen) = solo_queue(&key);
    let mut run = PipelineRun::new(vec![plain(), checked(), plain()], policy(3));
    let mut scripts = vec![
        vec![StepOutcome::Success],
        vec![
            StepOutcome::RetryableError("pull timed out".to_string()),
            StepOutcome::RetryableError("pull timed out".to_string()),
            StepOutcome::Success,
        ],
        vec![StepOutcome::Success],
    ];
    let result = drive(&mut run, &q, &key, gen, &mut scripts);
    assert_eq!(result, PipelineOutcome::Succeeded);
    assert_eq!(run.counts, vec![1, 3, 1]);
}

#[test]
fn fatal_error_short_circuits_to_cleanup() {
    // Pipeline = [login: Ok, pull: FatalError("image not found"), up, logout].
    // The result is the fatal reason, `up` is never invoked, and the
    // designated cleanup step still runs.
    let key = "svc-a".to_string();
    let (q, gen) = solo_queue(&key);
    let mut run = PipelineRun::new(
        vec![plain(), checked(), checked(), cleanup()],
        policy(3),
    );
    let mut scripts = vec![
        vec![StepOutcome::Success],
        vec![StepOutcome::FatalError("image not found".to_string())],
        vec![],
        vec![StepOutcome::Success],
    ];
    let result = drive(&mut run, &q, &key, gen, &mut scripts);
    assert_eq!(result, PipelineOutcome::Failed("image not found".to_string()));
    assert_eq!(run.counts, vec![1, 1, 0, 1]);
}

#[test]
fn fatal_step_invoked_exactly_once() {
    let key = "svc-a".to_string();
    let (q, gen) = solo_queue(&key);
    let mut run = PipelineRun::new(vec![plain(), plain()], policy(5));
    let mut scripts = vec![
        vec![StepOutcome::FatalError("broken".to_string())],
        vec![],
    ];
    let result = drive(&mut run, &q, &key, gen, &mut scripts);
    assert_eq!(result, PipelineOutcome::Failed("broken".to_string()));
    assert_eq!(run.counts, vec![1, 0]);
}

#[test]
fn cleanup_failure_never_changes_the_outcome() {
    // A best-effort cleanup step's own failure is swallowed: the pipeline
    // still succeeds.
    let key = "svc-a".to_string();
    let (q, gen) = solo_queue(&key);
    let mut run = PipelineRun::new(vec![plain(), cleanup()], policy(3));
    let mut scripts = vec![
        vec![StepOutcome::Success],
        vec![StepOutcome::FatalError("logout refused".to_string())],
    ];
    let result = drive(&mut run, &q, &key, gen, &mut scripts);
    assert_eq!(result, PipelineOutcome::Succeeded);
    assert_eq!(run.counts, vec![1, 1]);
}

#[test]
fn exhausted_retries_still_run_cleanup() {
    let key = "svc-a".to_string();
    let (q, gen) = solo_queue(&key);
    let mut run = PipelineRun::new(vec![plain(), cleanup()], policy(2));
    let mut scripts = vec![
        vec![
            StepOutcome::RetryableError("no".to_string()),
            StepOutcome::RetryableError("still no".to_string()),
        ],
        vec![StepOutcome::Success],
    ];
    let result = drive(&mut run, &q, &key, gen, &mut scripts);
    assert_eq!(result, PipelineOutcome::Failed("still no".to_string()));
    assert_eq!(run.counts, vec![2, 1]);
}
