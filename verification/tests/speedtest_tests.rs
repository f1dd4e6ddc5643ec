use dnstest::{DnsServer, Error, SpeedTester};

#[test]
fn test_tester_settings() {
    let tester = SpeedTester::new();
    assert_eq!(tester.timeout_ms, 5000);
    assert_eq!(tester.ping_count, 3);
    let custom = SpeedTester::with_settings(1000, 5);
    assert_eq!(custom.timeout_ms, 1000);
    assert_eq!(custom.ping_count, 5);
    let default = SpeedTester::default();
    assert_eq!(default.ping_count, 3);
}

#[test]
fn test_outcome_mean_and_loss() {
    let tester = SpeedTester::new();
    let server = DnsServer::new("T".to_string(), "192.0.2.3".to_string());
    let r = tester.outcome_from_attempts(server, &vec![10, 20]);
    assert!(r.success);
    assert_eq!(r.latency_ms, Some(15));
    // one of three attempts lost: 333 per mille
    assert_eq!(r.packet_loss, 333);
    assert!(r.error.is_none());
}

#[test]
fn test_outcome_with_no_reply_is_timeout() {
    let tester = SpeedTester::new();
    let server = DnsServer::new("T".to_string(), "192.0.2.3".to_string());
    let r = tester.outcome_from_attempts(server, &vec![]);
    assert!(!r.success);
    assert!(r.is_timeout());
    assert_eq!(r.packet_loss, 1000);
    assert_eq!(r.latency_ms, None);
}

#[test]
fn test_outcome_all_replies_no_loss() {
    let tester = SpeedTester::with_settings(500, 2);
    let server = DnsServer::new("T".to_string(), "192.0.2.3".to_string());
    let r = tester.outcome_from_attempts(server, &vec![8, 9]);
    assert!(r.success);
    assert_eq!(r.latency_ms, Some(8));
    assert_eq!(r.packet_loss, 0);
}

#[test]
fn test_error_messages() {
    assert_eq!(
        Error::network("socket".to_string()).message(),
        "Network error: socket"
    );
    assert_eq!(
        Error::config("missing list".to_string()).message(),
        "Config error: missing list"
    );
    assert_eq!(Error::parse("bad".to_string()).message(), "Parse error: bad");
    assert_eq!(Error::tui("draw".to_string()).message(), "TUI error: draw");
    assert_eq!(Error::Timeout.message(), "Operation timed out");
    assert_eq!(Error::Io("open".to_string()).message(), "IO error: open");
    assert_eq!(
        Error::Json("eof".to_string()).message(),
        "JSON parse error: eof"
    );
    assert_eq!(
        Error::Resolver("refused".to_string()).message(),
        "DNS resolver error: refused"
    );
}

#[test]
fn test_classify_target() {
    let bad = DnsServer::new("X".to_string(), "not-an-ip".to_string());
    let r = SpeedTester::classify_target(&bad).unwrap_err();
    assert_eq!(r.error.as_deref(), Some("invalid address"));

    let v6 = DnsServer::new("X".to_string(), "::1".to_string());
    let r6 = SpeedTester::classify_target(&v6).unwrap_err();
    assert_eq!(r6.error.as_deref(), Some("address family unsupported"));

    let v4 = DnsServer::new("X".to_string(), "127.0.0.1".to_string());
    assert!(SpeedTester::classify_target(&v4).is_ok());
}
