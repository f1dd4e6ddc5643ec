use dnstest::scheduler::collect_outcomes;
use dnstest::{DnsServer, ProgressEvent, Scheduler, SpeedTestResult, SpeedTester};

fn outcome(name: &str, latency: Option<u64>) -> SpeedTestResult {
    let server = DnsServer::new(name.to_string(), "192.0.2.1".to_string());
    match latency {
        Some(ms) => SpeedTestResult::success(server, ms, 0),
        None => SpeedTestResult::failure(server, "timeout"),
    }
}

fn tick_of(e: &ProgressEvent) -> Option<usize> {
    match e {
        ProgressEvent::Tick { tested, .. } => Some(*tested),
        _ => None,
    }
}

#[test]
fn test_concurrency_gate_never_exceeds_limit() {
    // any admission order keeps at most `limit` probes in flight
    let mut s = Scheduler::new(5, 2);
    let mut max_in_flight: usize = 0;
    let mut events: Vec<ProgressEvent> = Vec::new();
    let mut launched: usize = 0;
    while !s.can_finish() {
        while s.can_start() {
            s.start_task();
            launched += 1;
            let in_flight = s.started - s.finished;
            assert!(in_flight <= s.limit);
            if in_flight > max_in_flight {
                max_in_flight = in_flight;
            }
        }
        let (e1, e2) = s.record_outcome(outcome("t", Some(10)));
        events.push(e1);
        events.push(e2);
    }
    let done = s.finish();
    events.push(done);
    assert_eq!(launched, 5);
    assert_eq!(max_in_flight, 2);
    assert_eq!(events.len(), 11);
}

#[test]
fn test_stream_has_one_done_and_monotone_ticks() {
    let mut s = Scheduler::new(3, 2);
    let mut events: Vec<ProgressEvent> = Vec::new();
    s.start_task();
    s.start_task();
    assert!(!s.can_start());
    let (e1, e2) = s.record_outcome(outcome("a", Some(10)));
    events.push(e1);
    events.push(e2);
    s.start_task();
    let (e3, e4) = s.record_outcome(outcome("b", Some(20)));
    events.push(e3);
    events.push(e4);
    let (e5, e6) = s.record_outcome(outcome("c", None));
    events.push(e5);
    events.push(e6);
    assert!(s.can_finish());
    events.push(s.finish());

    let done_count = events
        .iter()
        .filter(|e| matches!(e, ProgressEvent::Done))
        .count();
    assert_eq!(done_count, 1);
    assert!(matches!(events.last(), Some(ProgressEvent::Done)));

    let ticks: Vec<usize> = events.iter().filter_map(tick_of).collect();
    assert_eq!(ticks, vec![1, 2, 3]);
    for w in ticks.windows(2) {
        assert!(w[0] <= w[1]);
    }
}

#[test]
fn test_three_target_batch_summary() {
    // A succeeds at 10 ms, B at 20 ms, C times out; two slots
    let mut s = Scheduler::new(3, 2);
    let mut events: Vec<ProgressEvent> = Vec::new();
    s.start_task();
    s.start_task();
    let (e1, e2) = s.record_outcome(outcome("A", Some(10)));
    events.push(e1);
    events.push(e2);
    s.start_task();
    let (e3, e4) = s.record_outcome(outcome("B", Some(20)));
    events.push(e3);
    events.push(e4);
    let (e5, e6) = s.record_outcome(outcome("C", None));
    events.push(e5);
    events.push(e6);
    events.push(s.finish());

    let results = collect_outcomes(events);
    assert_eq!(results.len(), 3);
    let summary = SpeedTester::summarize(&results);
    assert_eq!(summary.total, 3);
    assert_eq!(summary.success, 2);
    assert_eq!(summary.timeout, 1);
    assert_eq!(summary.failed, 0);
    assert_eq!(summary.avg_latency, Some(15));
    assert_eq!(summary.min_latency, Some(10));
    assert_eq!(summary.max_latency, Some(20));
}

#[test]
fn test_deadline_truncates_batch() {
    // 100 targets that never answer: the deadline closes the stream with
    // fewer than 100 outcomes and exactly one Done
    let mut s = Scheduler::new(100, 20);
    let mut events: Vec<ProgressEvent> = Vec::new();
    while s.can_start() {
        s.start_task();
    }
    // a few stragglers do answer before the deadline
    for _ in 0..5 {
        let (e1, e2) = s.record_outcome(outcome("t", Some(30)));
        events.push(e1);
        events.push(e2);
    }
    assert!(!s.can_finish());
    s.deadline_expired();
    assert!(s.can_finish());
    events.push(s.finish());

    let done_count = events
        .iter()
        .filter(|e| matches!(e, ProgressEvent::Done))
        .count();
    assert_eq!(done_count, 1);
    let results = collect_outcomes(events);
    assert!(results.len() < 100);
    assert_eq!(results.len(), 5);
}

#[test]
fn test_collect_outcomes_picks_outcomes_in_order() {
    let events = vec![
        ProgressEvent::Outcome(outcome("x", Some(1))),
        ProgressEvent::Tick { tested: 1, total: 2 },
        ProgressEvent::Outcome(outcome("y", None)),
        ProgressEvent::Tick { tested: 2, total: 2 },
        ProgressEvent::Done,
    ];
    let results = collect_outcomes(events);
    assert_eq!(results.len(), 2);
    assert_eq!(results[0].server.name, "x");
    assert_eq!(results[1].server.name, "y");
}

#[test]
fn test_empty_batch_closes_immediately() {
    let mut s = Scheduler::new(0, 1);
    assert!(!s.can_start());
    assert!(s.can_finish());
    let done = s.finish();
    assert!(matches!(done, ProgressEvent::Done));
}
