use vinter::orchestrator::{Action, ConfigError, Event, Orchestrator, Phase};

#[test]
fn batch_needs_a_permit() {
    assert_eq!(Orchestrator::new(3, 0).unwrap_err(), ConfigError::ZeroConcurrency);
    assert_eq!(
        Orchestrator::with_concurrency(3, Some(0)).unwrap_err(),
        ConfigError::ZeroConcurrency
    );
}

#[test]
fn batch_starts_with_all_permits_free() {
    let batch = Orchestrator::new(3, 2).unwrap();
    assert_eq!(batch.tests(), 3);
    assert_eq!(batch.permits(), 2);
    assert_eq!(batch.free_permits(), 2);
    assert_eq!(batch.phase(0), Some(Phase::Waiting));
    assert_eq!(batch.phase(2), Some(Phase::Waiting));
    assert_eq!(batch.phase(3), None);
    assert_eq!(batch.failure(), None);
    assert!(!batch.is_complete());
}

#[test]
fn requested_concurrency_is_used() {
    let batch = Orchestrator::with_concurrency(5, Some(4)).unwrap();
    assert_eq!(batch.permits(), 4);
    assert_eq!(batch.tests(), 5);
}

#[test]
fn default_concurrency_comes_from_the_host() {
    match Orchestrator::with_concurrency(2, None) {
        Ok(batch) => {
            assert!(batch.permits() >= 1);
            assert_eq!(batch.free_permits(), batch.permits());
            assert_eq!(batch.tests(), 2);
        }
        Err(e) => assert_eq!(e, ConfigError::ZeroConcurrency),
    }
}

#[test]
fn empty_batch_is_complete() {
    let mut batch = Orchestrator::new(0, 1).unwrap();
    assert!(batch.is_complete());
    assert_eq!(batch.handle(Event::PermitWanted), Action::AllStarted);
}

#[test]
fn admission_is_bounded_by_permits() {
    let mut batch = Orchestrator::new(3, 2).unwrap();
    assert_eq!(batch.handle(Event::PermitWanted), Action::Start { task: 0 });
    assert_eq!(batch.handle(Event::PermitWanted), Action::Start { task: 1 });
    assert_eq!(batch.free_permits(), 0);
    assert_eq!(batch.handle(Event::PermitWanted), Action::Blocked);
    assert_eq!(batch.phase(2), Some(Phase::Waiting));
    assert_eq!(
        batch.handle(Event::TraceReplayFinished { task: 0, ok: true }),
        Action::Extract { task: 0 }
    );
    assert_eq!(batch.free_permits(), 1);
    assert_eq!(batch.phase(0), Some(Phase::Extracting));
    assert_eq!(batch.handle(Event::PermitWanted), Action::Start { task: 2 });
    assert_eq!(batch.handle(Event::PermitWanted), Action::AllStarted);
    assert_eq!(batch.free_permits(), 0);
}

#[test]
fn successful_test_is_merged_and_settled() {
    let mut batch = Orchestrator::new(1, 1).unwrap();
    assert_eq!(batch.handle(Event::PermitWanted), Action::Start { task: 0 });
    assert_eq!(
        batch.handle(Event::TraceReplayFinished { task: 0, ok: true }),
        Action::Extract { task: 0 }
    );
    assert_eq!(
        batch.handle(Event::ExtractionFinished { task: 0, ok: true }),
        Action::MergeCoverage { task: 0 }
    );
    assert_eq!(batch.phase(0), Some(Phase::Merging));
    assert!(!batch.is_complete());
    assert_eq!(
        batch.handle(Event::CoverageMerged { task: 0, ok: true }),
        Action::Settled { task: 0 }
    );
    assert_eq!(batch.phase(0), Some(Phase::Done));
    assert!(batch.is_complete());
    assert_eq!(batch.failure(), None);
    assert_eq!(batch.free_permits(), 1);
}

#[test]
fn first_failure_fails_the_batch_and_the_rest_is_drained() {
    let mut batch = Orchestrator::new(3, 3).unwrap();
    for task in 0..3 {
        assert_eq!(batch.handle(Event::PermitWanted), Action::Start { task });
    }
    assert_eq!(
        batch.handle(Event::TraceReplayFinished { task: 1, ok: false }),
        Action::Fail { task: 1 }
    );
    assert_eq!(batch.failure(), Some(1));
    assert_eq!(batch.free_permits(), 1);
    assert_eq!(batch.phase(1), Some(Phase::Done));
    assert_eq!(
        batch.handle(Event::TraceReplayFinished { task: 0, ok: true }),
        Action::Extract { task: 0 }
    );
    assert_eq!(
        batch.handle(Event::ExtractionFinished { task: 0, ok: true }),
        Action::Drain { task: 0 }
    );
    assert_eq!(
        batch.handle(Event::TraceReplayFinished { task: 2, ok: false }),
        Action::Drain { task: 2 }
    );
    assert_eq!(batch.failure(), Some(1));
    assert!(batch.is_complete());
    assert_eq!(batch.free_permits(), 3);
}

#[test]
fn failed_extraction_and_failed_merge_fail_the_batch() {
    let mut batch = Orchestrator::new(2, 1).unwrap();
    batch.handle(Event::PermitWanted);
    batch.handle(Event::TraceReplayFinished { task: 0, ok: true });
    batch.handle(Event::PermitWanted);
    batch.handle(Event::TraceReplayFinished { task: 1, ok: true });
    assert_eq!(
        batch.handle(Event::ExtractionFinished { task: 1, ok: true }),
        Action::MergeCoverage { task: 1 }
    );
    assert_eq!(
        batch.handle(Event::CoverageMerged { task: 1, ok: false }),
        Action::Fail { task: 1 }
    );
    assert_eq!(
        batch.handle(Event::ExtractionFinished { task: 0, ok: false }),
        Action::Drain { task: 0 }
    );
    assert_eq!(batch.failure(), Some(1));
    assert!(batch.is_complete());

    let mut batch = Orchestrator::new(1, 1).unwrap();
    batch.handle(Event::PermitWanted);
    batch.handle(Event::TraceReplayFinished { task: 0, ok: true });
    assert_eq!(
        batch.handle(Event::ExtractionFinished { task: 0, ok: false }),
        Action::Fail { task: 0 }
    );
    assert_eq!(batch.failure(), Some(0));
}

#[test]
fn events_out_of_turn_are_rejected() {
    let mut batch = Orchestrator::new(2, 1).unwrap();
    assert_eq!(
        batch.handle(Event::TraceReplayFinished { task: 0, ok: true }),
        Action::Rejected
    );
    assert_eq!(
        batch.handle(Event::ExtractionFinished { task: 5, ok: true }),
        Action::Rejected
    );
    batch.handle(Event::PermitWanted);
    assert_eq!(
        batch.handle(Event::ExtractionFinished { task: 0, ok: true }),
        Action::Rejected
    );
    assert_eq!(
        batch.handle(Event::CoverageMerged { task: 0, ok: true }),
        Action::Rejected
    );
    assert_eq!(batch.phase(0), Some(Phase::Tracing));
    assert_eq!(batch.free_permits(), 0);
    assert_eq!(batch.failure(), None);
}
