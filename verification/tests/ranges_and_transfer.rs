use fitgirl_downloader::control::CtrlState;
use fitgirl_downloader::parallel::{finish_parallel, first_part_error, Finish, PartOutcome};
use fitgirl_downloader::ranges::{choose_strategy, plan_parts, PartRange, Strategy};
use fitgirl_downloader::transfer::{
    control_step, stream_failure_message, ControlStep, EndStep, PartTransfer, ResponseStep,
    SingleTransfer, StreamFailure, MAX_RETRIES, SYNC_INTERVAL,
};

#[test]
fn strategy_follows_size_and_connections() {
    assert_eq!(choose_strategy(0, 4), Strategy::Single);
    assert_eq!(choose_strategy(1000, 1), Strategy::Single);
    assert_eq!(choose_strategy(1000, 0), Strategy::Single);
    assert_eq!(choose_strategy(1000, 4), Strategy::Parallel { parts: 4 });
    assert_eq!(choose_strategy(1000, 99), Strategy::Parallel { parts: 8 });
    assert_eq!(choose_strategy(1000, 8), Strategy::Parallel { parts: 8 });
    assert_eq!(choose_strategy(1000, 9), Strategy::Parallel { parts: 8 });
}

#[test]
fn plan_splits_into_equal_parts_with_remainder_last() {
    let p = plan_parts(10, 3);
    assert_eq!(
        p,
        vec![
            PartRange { start: 0, end: 2 },
            PartRange { start: 3, end: 5 },
            PartRange { start: 6, end: 9 }
        ]
    );
}

#[test]
fn plan_never_has_more_parts_than_bytes() {
    let p = plan_parts(3, 8);
    assert_eq!(
        p,
        vec![
            PartRange { start: 0, end: 0 },
            PartRange { start: 1, end: 1 },
            PartRange { start: 2, end: 2 }
        ]
    );
}

#[test]
fn plan_partitions_the_file() {
    for total in [1u64, 2, 7, 100, 1_000_003] {
        for parts in 1u64..=16 {
            let p = plan_parts(total, parts);
            assert_eq!(p.len() as u64, parts.min(total));
            assert_eq!(p[0].start, 0);
            assert_eq!(p.last().unwrap().end, total - 1);
            for w in p.windows(2) {
                assert_eq!(w[1].start, w[0].end + 1);
            }
            let covered: u64 = p.iter().map(|r| r.end - r.start + 1).sum();
            assert_eq!(covered, total);
        }
    }
}

#[test]
fn control_states_map_to_steps() {
    assert_eq!(control_step(CtrlState::Running), ControlStep::Proceed);
    assert_eq!(control_step(CtrlState::Paused), ControlStep::Wait);
    assert_eq!(control_step(CtrlState::Cancelled), ControlStep::Abort);
}

#[test]
fn part_resumes_from_first_missing_byte() {
    let mut t = PartTransfer::new(100, 199);
    assert_eq!(t.part_len(), 100);
    assert_eq!(t.next_from(), Some(100));
    assert_eq!(t.record_chunk(40), None);
    assert_eq!(t.next_from(), Some(140));
    assert_eq!(t.record_chunk(60), Some(100));
    assert_eq!(t.next_from(), None);
    assert_eq!(t.on_stream_end(None), EndStep::Complete);
}

#[test]
fn part_reports_every_sync_interval() {
    let mut t = PartTransfer::new(0, 10 * SYNC_INTERVAL - 1);
    assert_eq!(t.record_chunk(SYNC_INTERVAL - 1), None);
    assert_eq!(t.record_chunk(1), Some(SYNC_INTERVAL));
    assert_eq!(t.record_chunk(10), None);
    assert_eq!(t.last_sync, SYNC_INTERVAL);
    assert_eq!(t.written, SYNC_INTERVAL + 10);
}

#[test]
fn part_responses_are_judged() {
    let t = PartTransfer::new(0, 9);
    assert_eq!(t.on_response(206, 0), ResponseStep::Stream);
    assert_eq!(t.on_response(200, 0), ResponseStep::Stream);
    assert_eq!(t.on_response(200, 5), ResponseStep::Retry { delay_ms: 500 });
    assert_eq!(t.on_response(503, 0), ResponseStep::Retry { delay_ms: 500 });
    let mut last = t;
    for _ in 0..MAX_RETRIES {
        last.retry();
    }
    assert_eq!(last.attempt, MAX_RETRIES);
    assert_eq!(
        last.on_response(503, 0),
        ResponseStep::Fail("HTTP 503 Service Unavailable".to_string())
    );
    assert_eq!(
        last.on_response(200, 5),
        ResponseStep::Fail("Sunucu aralık isteğini desteklemiyor".to_string())
    );
}

#[test]
fn part_backoff_grows_with_attempts() {
    let mut t = PartTransfer::new(0, 9);
    let mut delays = Vec::new();
    for _ in 0..MAX_RETRIES {
        match t.on_stream_end(None) {
            EndStep::Retry { delay_ms } => delays.push(delay_ms),
            other => panic!("unexpected {other:?}"),
        }
        t.retry();
    }
    assert_eq!(delays, vec![500, 1000, 1500, 2000, 2500]);
    assert_eq!(
        t.on_stream_end(None),
        EndStep::Fail("Eksik veri (bağlantı kapandı)".to_string())
    );
    assert_eq!(
        t.on_stream_end(Some(StreamFailure::IdleTimeout)),
        EndStep::Fail("İdare timeout: veri gelmedi".to_string())
    );
}

#[test]
fn stream_failures_have_labels() {
    assert_eq!(stream_failure_message(&StreamFailure::Stream("reset".to_string())), "Stream: reset");
    assert_eq!(stream_failure_message(&StreamFailure::Write("disk full".to_string())), "Write: disk full");
}

#[test]
fn single_stream_reports_at_interval_and_at_end() {
    let mut s = SingleTransfer::new(SYNC_INTERVAL + 5);
    assert_eq!(s.record_chunk(10), None);
    assert_eq!(s.record_chunk(SYNC_INTERVAL - 10), Some(SYNC_INTERVAL));
    assert_eq!(s.record_chunk(5), Some(SYNC_INTERVAL + 5));
    let mut unknown = SingleTransfer::new(0);
    assert_eq!(unknown.record_chunk(5), None);
}

#[test]
fn first_part_error_wins() {
    let outcomes = vec![
        PartOutcome::Done,
        PartOutcome::Failed("HTTP: refused".to_string()),
        PartOutcome::Panicked,
    ];
    assert_eq!(first_part_error(&outcomes), Some("HTTP: refused".to_string()));
    assert_eq!(first_part_error(&vec![PartOutcome::Done, PartOutcome::Panicked]), Some("part task panicked".to_string()));
    assert_eq!(first_part_error(&vec![PartOutcome::Done]), None);
}

#[test]
fn parallel_end_deletes_file_only_when_cancelled() {
    assert!(matches!(finish_parallel(None, CtrlState::Running), Finish::Complete));
    match finish_parallel(Some("Cancelled".to_string()), CtrlState::Running) {
        Finish::Failed { error, delete_file } => {
            assert_eq!(error, "Cancelled");
            assert!(delete_file);
        }
        Finish::Complete => panic!("should fail"),
    }
    match finish_parallel(Some("HTTP 404 Not Found".to_string()), CtrlState::Running) {
        Finish::Failed { delete_file, .. } => assert!(!delete_file),
        Finish::Complete => panic!("should fail"),
    }
    match finish_parallel(Some("Stream: x".to_string()), CtrlState::Cancelled) {
        Finish::Failed { delete_file, .. } => assert!(delete_file),
        Finish::Complete => panic!("should fail"),
    }
}
