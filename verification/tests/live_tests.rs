use dnstest::live::{KeyAction, KeyInput, Screen, SortMode};
use dnstest::{App, DnsServer, ProgressEvent, SpeedTestResult};

fn ok_result(name: &str, ms: u64) -> SpeedTestResult {
    SpeedTestResult::success(
        DnsServer::new(name.to_string(), "192.0.2.7".to_string()),
        ms,
        0,
    )
}

#[test]
fn test_messages_fold_into_view() {
    let mut app = App::new();
    app.begin_test();
    assert!(app.testing);
    app.handle_message(ProgressEvent::Outcome(ok_result("a", 30)));
    app.handle_message(ProgressEvent::Outcome(ok_result("b", 10)));
    assert_eq!(app.tested_count, 2);
    app.handle_message(ProgressEvent::Tick { tested: 2, total: 3 });
    assert_eq!(app.tested_count, 2);
    app.handle_message(ProgressEvent::Outcome(SpeedTestResult::failure(
        DnsServer::new("c".to_string(), "192.0.2.8".to_string()),
        "timeout",
    )));
    app.handle_message(ProgressEvent::Done);
    assert!(!app.testing);
    assert_eq!(app.results.len(), 3);
    // latency order: measured results first, ascending; unmeasured last
    assert_eq!(app.results[0].latency_ms, Some(10));
    assert_eq!(app.results[1].latency_ms, Some(30));
    assert_eq!(app.results[2].latency_ms, None);
}

#[test]
fn test_sort_mode_cycles_and_sorts_by_name() {
    let mut app = App::new();
    app.handle_message(ProgressEvent::Outcome(ok_result("bravo", 5)));
    app.handle_message(ProgressEvent::Outcome(ok_result("alpha", 9)));
    assert_eq!(app.sort_mode, SortMode::Latency);
    let action = app.handle_key(KeyInput::CycleSort);
    assert_eq!(action, KeyAction::Continue);
    assert_eq!(app.sort_mode, SortMode::Name);
    assert_eq!(app.results[0].server.name, "alpha");
    assert_eq!(app.results[1].server.name, "bravo");
    app.handle_key(KeyInput::CycleSort);
    assert_eq!(app.sort_mode, SortMode::Status);
    app.handle_key(KeyInput::CycleSort);
    assert_eq!(app.sort_mode, SortMode::Latency);
}

#[test]
fn test_tab_and_digit_switching() {
    let mut app = App::new();
    assert_eq!(app.current_view, Screen::SpeedTest);
    app.handle_key(KeyInput::Tab);
    assert_eq!(app.current_view, Screen::PollutionCheck);
    assert_eq!(app.tab_index, 1);
    app.handle_key(KeyInput::Tab);
    assert_eq!(app.current_view, Screen::Help);
    app.handle_key(KeyInput::Tab);
    assert_eq!(app.current_view, Screen::SpeedTest);
    app.handle_key(KeyInput::Three);
    assert_eq!(app.current_view, Screen::Help);
    app.handle_key(KeyInput::One);
    assert_eq!(app.current_view, Screen::SpeedTest);
    app.handle_key(KeyInput::Two);
    assert_eq!(app.current_view, Screen::PollutionCheck);
}

#[test]
fn test_quit_and_help_keys() {
    let mut app = App::new();
    assert_eq!(app.handle_key(KeyInput::CtrlC), KeyAction::Quit);
    app.handle_key(KeyInput::Three);
    // on the help screen, quit returns to the results
    assert_eq!(app.handle_key(KeyInput::Quit), KeyAction::Continue);
    assert_eq!(app.current_view, Screen::SpeedTest);
    // elsewhere it leaves the application
    assert_eq!(app.handle_key(KeyInput::Quit), KeyAction::Quit);
    assert!(!app.testing);
}

#[test]
fn test_space_starts_a_run_once() {
    let mut app = App::new();
    app.set_dns_servers(vec![DnsServer::new("a".to_string(), "192.0.2.9".to_string())]);
    assert_eq!(app.handle_key(KeyInput::Space), KeyAction::StartTest);
    app.begin_test();
    assert_eq!(app.total_count, 1);
    assert!(app.testing);
    // while a run is under way, space does nothing
    assert_eq!(app.handle_key(KeyInput::Space), KeyAction::Continue);
}

#[test]
fn test_selection_moves_within_bounds() {
    let mut app = App::new();
    app.handle_message(ProgressEvent::Outcome(ok_result("a", 1)));
    app.handle_message(ProgressEvent::Outcome(ok_result("b", 2)));
    assert_eq!(app.selected_index, 0);
    app.handle_key(KeyInput::Up);
    assert_eq!(app.selected_index, 0);
    app.handle_key(KeyInput::Down);
    assert_eq!(app.selected_index, 1);
    app.handle_key(KeyInput::Down);
    assert_eq!(app.selected_index, 1);
    app.handle_key(KeyInput::Up);
    assert_eq!(app.selected_index, 0);
}

#[test]
fn test_view_stats_recompute_from_results() {
    let mut app = App::new();
    app.handle_message(ProgressEvent::Outcome(ok_result("a", 10)));
    app.handle_message(ProgressEvent::Outcome(ok_result("b", 20)));
    app.handle_message(ProgressEvent::Outcome(SpeedTestResult::failure(
        DnsServer::new("c".to_string(), "192.0.2.8".to_string()),
        "timeout",
    )));
    let (total, success, failed, timeout, avg, min, max) = app.get_stats();
    assert_eq!(total, 3);
    assert_eq!(success, 2);
    assert_eq!(failed, 0);
    assert_eq!(timeout, 1);
    assert_eq!(avg, Some(15));
    assert_eq!(min, Some(10));
    assert_eq!(max, Some(20));
}
