use single_flight::outcome::PipelineOutcome;
use single_flight::outcome::StepOutcome;
use single_flight::pipeline::NextOp;
use single_flight::pipeline::PipelineRun;
use single_flight::pipeline::StepPlan;
use single_flight::queue::SingleFlightQueue;
use single_flight::queue::SubmitEffect;
use single_flight::retry::RetryPolicy;

fn policy() -> RetryPolicy {
    RetryPolicy { max_attempts: 3, delay_ms: 0 }
}

#[test]
fn fresh_key_starts_at_once() {
    let mut q = SingleFlightQueue::new();
    let key = "svc-a".to_string();
    match q.submit(&key) {
        SubmitEffect::Started { gen } => assert_eq!(gen, 1),
        other => panic!("expected an immediate start, got {other:?}"),
    }
    assert!(q.is_current(&key, 1));
}

#[test]
fn generations_increase_per_key() {
    let mut q = SingleFlightQueue::new();
    let key = "svc-a".to_string();
    let g1 = match q.submit(&key) {
        SubmitEffect::Started { gen } => gen,
        other => panic!("unexpected {other:?}"),
    };
    let g2 = match q.submit(&key) {
        SubmitEffect::Parked { gen, displaced } => {
            assert_eq!(displaced, None);
            gen
        }
        other => panic!("unexpected {other:?}"),
    };
    let g3 = match q.submit(&key) {
        SubmitEffect::Parked { gen, displaced } => {
            // the middle submission is displaced: superseded without running
            assert_eq!(displaced, Some(g2));
            gen
        }
        other => panic!("unexpected {other:?}"),
    };
    assert!(g1 < g2 && g2 < g3);
    // only the newest generation is current
    assert!(!q.is_current(&key, g1));
    assert!(!q.is_current(&key, g2));
    assert!(q.is_current(&key, g3));
}

#[test]
fn unknown_key_is_never_current() {
    let q = SingleFlightQueue::new();
    let key = "svc-a".to_string();
    assert!(!q.is_current(&key, 1));
    assert_eq!(q.current_gen(&key), None);
}

#[test]
fn current_gen_follows_submissions() {
    let mut q = SingleFlightQueue::new();
    let key = "svc-a".to_string();
    q.submit(&key);
    assert_eq!(q.current_gen(&key), Some(1));
    q.submit(&key);
    assert_eq!(q.current_gen(&key), Some(2));
}

#[test]
fn keys_are_independent() {
    let mut q = SingleFlightQueue::new();
    let a = "svc-a".to_string();
    let b = "svc-b".to_string();
    assert!(matches!(q.submit(&a), SubmitEffect::Started { gen: 1 }));
    assert!(matches!(q.submit(&b), SubmitEffect::Started { gen: 1 }));
    assert!(matches!(q.submit(&a), SubmitEffect::Parked { gen: 2, .. }));
    assert!(q.is_current(&a, 2));
    assert!(q.is_current(&b, 1));
}

#[test]
fn completion_promotes_the_pending_submission() {
    let mut q = SingleFlightQueue::new();
    let key = "svc-a".to_string();
    q.submit(&key);
    q.submit(&key);
    let promoted = q.complete(&key, 1);
    assert_eq!(promoted, Some(2));
    assert!(q.is_current(&key, 2));
    // nothing pending any more: completing removes the record
    let promoted = q.complete(&key, 2);
    assert_eq!(promoted, None);
    assert!(!q.is_current(&key, 1));
    assert!(!q.is_current(&key, 2));
}

#[test]
fn record_removal_lets_a_key_start_over() {
    let mut q = SingleFlightQueue::new();
    let key = "svc-a".to_string();
    q.submit(&key);
    assert_eq!(q.complete(&key, 1), None);
    // the record is gone; a later submission starts a fresh lifetime
    assert!(matches!(q.submit(&key), SubmitEffect::Started { gen: 1 }));
}

#[test]
fn superseded_before_the_pull_checkpoint() {
    // Two submissions for "svc-a" arrive before the first's checkpoint
    // before `pull`: the first resolves superseded without reaching
    // `pull`, the second runs to completion.
    let mut q = SingleFlightQueue::new();
    let key = "svc-a".to_string();
    let steps = vec![
        StepPlan { checkpoint_before: false, cleanup: false },  // login
        StepPlan { checkpoint_before: true, cleanup: false },   // pull
        StepPlan { checkpoint_before: false, cleanup: false },  // up
    ];

    let g1 = match q.submit(&key) {
        SubmitEffect::Started { gen } => gen,
        other => panic!("unexpected {other:?}"),
    };
    let mut first = PipelineRun::new(steps.clone(), policy());

    // the first transaction gets through login …
    assert_eq!(first.next_op(), NextOp::RunStep);
    assert_eq!(first.pos, 0);
    first.on_step(StepOutcome::Success);

    // … then the second submission arrives, before the checkpoint
    let g2 = match q.submit(&key) {
        SubmitEffect::Parked { gen, displaced: None } => gen,
        other => panic!("unexpected {other:?}"),
    };

    // the first transaction reaches the checkpoint before `pull`
    assert_eq!(first.next_op(), NextOp::Checkpoint);
    first.on_checkpoint(q.is_current(&key, g1));
    assert_eq!(first.next_op(), NextOp::Finished);
    assert_eq!(first.result, PipelineOutcome::Superseded);
    assert_eq!(first.counts, vec![1, 0, 0], "no step after the checkpoint ran");

    // its completion promotes the second, which runs to the end
    assert_eq!(q.complete(&key, g1), Some(g2));
    let mut second = PipelineRun::new(steps, policy());
    loop {
        match second.next_op() {
            NextOp::Checkpoint => {
                let current = q.is_current(&key, g2);
                second.on_checkpoint(current);
            }
            NextOp::RunStep => second.on_step(StepOutcome::Success),
            NextOp::Finished => break,
        }
    }
    assert_eq!(second.result, PipelineOutcome::Succeeded);
    assert_eq!(second.counts, vec![1, 1, 1]);
    assert_eq!(q.complete(&key, g2), None);
}

#[test]
fn every_submission_resolves_exactly_once() {
    // Three racing submissions: one outcome is delivered per submission —
    // the displaced one superseded, the first superseded at a checkpoint,
    // the last one successfully.
    let mut q = SingleFlightQueue::new();
    let key = "svc-a".to_string();
    let steps = vec![StepPlan { checkpoint_before: true, cleanup: false }];
    let mut outcomes: Vec<Option<PipelineOutcome>> = vec![None, None, None];

    let g1 = match q.submit(&key) {
        SubmitEffect::Started { gen } => gen,
        other => panic!("unexpected {other:?}"),
    };
    let mut gens = [g1, 0, 0];
    match q.submit(&key) {
        SubmitEffect::Parked { gen, displaced: None } => gens[1] = gen,
        other => panic!("unexpected {other:?}"),
    }
    match q.submit(&key) {
        SubmitEffect::Parked { gen, displaced } => {
            gens[2] = gen;
            // the displaced submission resolves now, exactly once
            assert_eq!(displaced, Some(gens[1]));
            assert!(outcomes[1].is_none());
            outcomes[1] = Some(PipelineOutcome::Superseded);
        }
        other => panic!("unexpected {other:?}"),
    }

    // run the first: superseded at its first checkpoint
    let mut first = PipelineRun::new(steps.clone(), policy());
    assert_eq!(first.next_op(), NextOp::Checkpoint);
    first.on_checkpoint(q.is_current(&key, gens[0]));
    assert_eq!(first.next_op(), NextOp::Finished);
    assert!(outcomes[0].is_none());
    outcomes[0] = Some(first.result.clone());

    // completing the first starts the third (the newest)
    assert_eq!(q.complete(&key, gens[0]), Some(gens[2]));
    let mut third = PipelineRun::new(steps, policy());
    assert_eq!(third.next_op(), NextOp::Checkpoint);
    third.on_checkpoint(q.is_current(&key, gens[2]));
    assert_eq!(third.next_op(), NextOp::RunStep);
    third.on_step(StepOutcome::Success);
    assert_eq!(third.next_op(), NextOp::Finished);
    assert!(outcomes[2].is_none());
    outcomes[2] = Some(third.result.clone());
    assert_eq!(q.complete(&key, gens[2]), None);

    assert_eq!(outcomes[0], Some(PipelineOutcome::Superseded));
    assert_eq!(outcomes[1], Some(PipelineOutcome::Superseded));
    assert_eq!(outcomes[2], Some(PipelineOutcome::Succeeded));
}
