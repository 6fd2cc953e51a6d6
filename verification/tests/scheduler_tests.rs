use tile_mosaic::scheduler::FetchOutcome;
use tile_mosaic::scheduler::FetchScheduler;

fn ok_outcome(i: usize) -> FetchOutcome {
    FetchOutcome::Fetched { bytes_written: 100 + i as u64, path: format!("tiles/tile_{}.png", i) }
}

#[test]
fn admission_never_exceeds_limit() {
    // 5 tiles under concurrency limit 2: a slot opens only when one
    // of the two in-flight fetches completes.
    let mut s = FetchScheduler::new(5, 2);
    let a = s.try_start();
    let b = s.try_start();
    assert_eq!(a, Some(0));
    assert_eq!(b, Some(1));
    assert_eq!(s.try_start(), None);
    s.complete(0, ok_outcome(0));
    assert_eq!(s.try_start(), Some(2));
    assert_eq!(s.try_start(), None);
    s.complete(1, ok_outcome(1));
    s.complete(2, ok_outcome(2));
    assert_eq!(s.try_start(), Some(3));
    assert_eq!(s.try_start(), Some(4));
    assert_eq!(s.try_start(), None);
    s.complete(3, ok_outcome(3));
    s.complete(4, ok_outcome(4));
    assert!(s.is_done());
    let outcomes = s.finish();
    assert_eq!(outcomes.len(), 5);
}

#[test]
fn one_outcome_per_tile_for_any_limit() {
    // Drive the same 7-tile batch to quiescence under several limits; the
    // peak number in flight never exceeds the limit, and exactly 7 outcomes
    // come out every time.
    for limit in [1usize, 2, 3, 7, 50] {
        let mut s = FetchScheduler::new(7, limit);
        let mut in_flight: Vec<usize> = Vec::new();
        let mut peak: usize = 0;
        loop {
            while let Some(idx) = s.try_start() {
                in_flight.push(idx);
                if in_flight.len() > peak {
                    peak = in_flight.len();
                }
            }
            if in_flight.is_empty() {
                break;
            }
            let idx = in_flight.remove(0);
            s.complete(idx, ok_outcome(idx));
        }
        assert!(s.is_done());
        assert!(peak <= limit);
        assert_eq!(peak, limit.min(7));
        let outcomes = s.finish();
        assert_eq!(outcomes.len(), 7);
        for o in &outcomes {
            assert!(matches!(o, FetchOutcome::Fetched { .. }));
        }
    }
}

#[test]
fn one_failure_does_not_block_other_successes() {
    // Tile 1 comes back 404; every other tile still succeeds.
    let mut s = FetchScheduler::new(3, 3);
    assert_eq!(s.try_start(), Some(0));
    assert_eq!(s.try_start(), Some(1));
    assert_eq!(s.try_start(), Some(2));
    s.complete(1, FetchOutcome::HttpError { status: 404 });
    s.complete(0, ok_outcome(0));
    s.complete(2, ok_outcome(2));
    assert!(s.is_done());
    assert_eq!(s.success_count(), 2);
    assert_eq!(s.failure_count(), 1);
    let outcomes = s.finish();
    assert_eq!(outcomes.len(), 3);
    assert!(matches!(outcomes[0], FetchOutcome::Fetched { .. }));
    match &outcomes[1] {
        FetchOutcome::HttpError { status } => assert_eq!(*status, 404),
        _ => panic!("tile 1 should have failed with its status"),
    }
    assert!(matches!(outcomes[2], FetchOutcome::Fetched { .. }));
}

#[test]
fn completions_can_arrive_out_of_order() {
    let mut s = FetchScheduler::new(4, 4);
    for i in 0..4 {
        assert_eq!(s.try_start(), Some(i));
    }
    s.complete(3, ok_outcome(3));
    s.complete(0, FetchOutcome::TransportError { message: String::from("timed out") });
    s.complete(2, ok_outcome(2));
    s.complete(1, FetchOutcome::WriteError { message: String::from("disk full") });
    assert!(s.is_done());
    assert_eq!(s.success_count(), 2);
    assert_eq!(s.failure_count(), 2);
    let outcomes = s.finish();
    assert!(matches!(outcomes[0], FetchOutcome::TransportError { .. }));
    assert!(matches!(outcomes[1], FetchOutcome::WriteError { .. }));
    assert!(matches!(outcomes[2], FetchOutcome::Fetched { .. }));
    assert!(matches!(outcomes[3], FetchOutcome::Fetched { .. }));
}

#[test]
fn progress_counter_counts_every_completion() {
    let mut s = FetchScheduler::new(2, 1);
    assert_eq!(s.completed_count(), 0);
    let a = s.try_start().unwrap();
    s.complete(a, FetchOutcome::HttpError { status: 500 });
    assert_eq!(s.completed_count(), 1);
    let b = s.try_start().unwrap();
    s.complete(b, ok_outcome(b));
    assert_eq!(s.completed_count(), 2);
}

#[test]
fn empty_batch_is_done_immediately() {
    let mut s = FetchScheduler::new(0, 4);
    assert_eq!(s.try_start(), None);
    assert!(s.is_done());
    let outcomes = s.finish();
    assert_eq!(outcomes.len(), 0);
}
