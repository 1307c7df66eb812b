use mod_launcher::artifact::{SyncError, SyncOutcome};
use mod_launcher::scheduler::{first_failure, BatchScheduler, BATCH_SIZE};

fn outcome_of(index: usize) -> Result<SyncOutcome, SyncError> {
    match index % 3 {
        0 => Ok(SyncOutcome::AlreadyValid),
        1 => Ok(SyncOutcome::Fetched),
        _ => Err(SyncError::Transport(format!("artifact {}", index))),
    }
}

#[test]
fn batch_size_is_four() {
    assert_eq!(BATCH_SIZE, 4);
}

#[test]
fn batches_follow_the_input_in_fours() {
    let mut scheduler = BatchScheduler::new(10);
    assert_eq!(scheduler.total(), 10);
    let mut seen = Vec::new();
    while let Some((from, to)) = scheduler.current_batch() {
        seen.push((from, to));
        for index in from..to {
            scheduler = scheduler.record(index, outcome_of(index));
        }
    }
    assert_eq!(seen, vec![(0, 4), (4, 8), (8, 10)]);
    assert!(scheduler.into_results().is_some());
}

#[test]
fn results_keep_the_order_of_the_input_whatever_the_completion_order() {
    let mut scheduler = BatchScheduler::new(7);
    for index in [3, 1, 0, 2] {
        assert!(scheduler.awaits(index));
        scheduler = scheduler.record(index, outcome_of(index));
        assert!(!scheduler.awaits(index));
    }
    assert_eq!(scheduler.current_batch(), Some((4, 7)));
    for index in [6, 4, 5] {
        scheduler = scheduler.record(index, outcome_of(index));
    }
    assert_eq!(scheduler.current_batch(), None);
    let results = scheduler.into_results().unwrap();
    let expected: Vec<_> = (0..7).map(outcome_of).collect();
    assert_eq!(results, expected);
}

#[test]
fn next_batch_waits_for_the_whole_batch() {
    let mut scheduler = BatchScheduler::new(6);
    for index in [0, 1, 2] {
        scheduler = scheduler.record(index, outcome_of(index));
        assert_eq!(scheduler.current_batch(), Some((0, 4)));
        assert!(!scheduler.awaits(4));
    }
    scheduler = scheduler.record(3, outcome_of(3));
    assert_eq!(scheduler.current_batch(), Some((4, 6)));
    assert!(scheduler.awaits(4));
    assert!(scheduler.awaits(5));
}

#[test]
fn result_for_an_artifact_that_is_not_at_work_is_dropped() {
    let mut scheduler = BatchScheduler::new(6);
    scheduler = scheduler.record(5, Ok(SyncOutcome::Fetched));
    scheduler = scheduler.record(6, Ok(SyncOutcome::Fetched));
    scheduler = scheduler.record(usize::MAX, Ok(SyncOutcome::Fetched));
    scheduler = scheduler.record(0, Ok(SyncOutcome::AlreadyValid));
    scheduler = scheduler.record(0, Err(SyncError::Integrity));
    for index in [1, 2, 3] {
        scheduler = scheduler.record(index, Ok(SyncOutcome::AlreadyValid));
    }
    scheduler = scheduler.record(1, Err(SyncError::Integrity));
    assert_eq!(scheduler.current_batch(), Some((4, 6)));
    scheduler = scheduler.record(4, Ok(SyncOutcome::AlreadyValid));
    scheduler = scheduler.record(5, Err(SyncError::Integrity));
    let results = scheduler.into_results().unwrap();
    assert_eq!(results[0], Ok(SyncOutcome::AlreadyValid));
    assert_eq!(results[1], Ok(SyncOutcome::AlreadyValid));
    assert_eq!(results[5], Err(SyncError::Integrity));
}

#[test]
fn results_are_not_handed_out_before_the_end() {
    let scheduler = BatchScheduler::new(1);
    assert!(scheduler.into_results().is_none());
    let mut scheduler = BatchScheduler::new(5);
    for index in 0..4 {
        scheduler = scheduler.record(index, Ok(SyncOutcome::Fetched));
    }
    assert!(scheduler.into_results().is_none());
}

#[test]
fn nothing_to_synchronize_is_finished_at_once() {
    let scheduler = BatchScheduler::new(0);
    assert_eq!(scheduler.total(), 0);
    assert_eq!(scheduler.current_batch(), None);
    assert!(!scheduler.awaits(0));
    assert_eq!(scheduler.into_results(), Some(Vec::new()));
}

#[test]
fn a_failure_does_not_stop_the_other_artifacts() {
    let mut scheduler = BatchScheduler::new(5);
    scheduler = scheduler.record(0, Err(SyncError::Integrity));
    for index in 1..4 {
        scheduler = scheduler.record(index, Ok(SyncOutcome::Fetched));
    }
    assert_eq!(scheduler.current_batch(), Some((4, 5)));
    scheduler = scheduler.record(4, Ok(SyncOutcome::AlreadyValid));
    let results = scheduler.into_results().unwrap();
    assert_eq!(
        results,
        vec![
            Err(SyncError::Integrity),
            Ok(SyncOutcome::Fetched),
            Ok(SyncOutcome::Fetched),
            Ok(SyncOutcome::Fetched),
            Ok(SyncOutcome::AlreadyValid),
        ]
    );
    assert_eq!(first_failure(&results), Some(0));
}

#[test]
fn first_failure_is_the_earliest_error() {
    let results = vec![
        Ok(SyncOutcome::Fetched),
        Ok(SyncOutcome::AlreadyValid),
        Err(SyncError::Filesystem("full".to_string())),
        Ok(SyncOutcome::Fetched),
        Err(SyncError::Integrity),
    ];
    assert_eq!(first_failure(&results), Some(2));
    assert_eq!(first_failure(&results[..2].iter().map(|_| Ok(SyncOutcome::Fetched)).collect()), None);
    assert_eq!(first_failure(&Vec::new()), None);
}

#[test]
fn exact_multiple_of_the_batch_size_has_no_empty_batch() {
    let mut scheduler = BatchScheduler::new(8);
    let mut batches = 0;
    while let Some((from, to)) = scheduler.current_batch() {
        assert_eq!(to - from, 4);
        batches += 1;
        for index in (from..to).rev() {
            scheduler = scheduler.record(index, Ok(SyncOutcome::Fetched));
        }
    }
    assert_eq!(batches, 2);
    assert_eq!(scheduler.into_results().unwrap().len(), 8);
}
