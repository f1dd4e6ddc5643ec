use dnstest::{DnsList, DnsServer, DnsStatus, SpeedTestResult, SpeedTester, TestSummary};

#[test]
fn test_dns_server_creation() {
    let server = DnsServer::new("Test DNS".to_string(), "8.8.8.8".to_string());
    assert_eq!(server.name, "Test DNS");
    assert_eq!(server.ip, "8.8.8.8");
    assert!(server.delay.is_none());
}

#[test]
fn test_dns_server_ip_parse() {
    let server = DnsServer::new("Test".to_string(), "8.8.8.8".to_string());
    let ip = server.ip_addr();
    assert!(ip.is_some());
    assert!(ip.unwrap().is_ipv4());

    let server_v6 = DnsServer::new("Test".to_string(), "::1".to_string());
    let ip_v6 = server_v6.ip_addr();
    assert!(ip_v6.is_some());
    assert!(ip_v6.unwrap().is_ipv6());
}

#[test]
fn test_dns_server_is_ipv4_ipv6() {
    let server_v4 = DnsServer::new("Test".to_string(), "8.8.8.8".to_string());
    assert!(server_v4.is_ipv4());
    assert!(!server_v4.is_ipv6());

    let server_v6 = DnsServer::new("Test".to_string(), "::1".to_string());
    assert!(!server_v6.is_ipv4());
    assert!(server_v6.is_ipv6());
}

#[test]
fn test_dns_list() {
    let list = DnsList::new();
    assert!(list.is_empty());
    assert_eq!(list.len(), 0);

    let servers = vec![
        DnsServer::new("Test1".to_string(), "8.8.8.8".to_string()),
        DnsServer::new("Test2".to_string(), "1.1.1.1".to_string()),
    ];
    let list = DnsList::from_servers(servers);
    assert!(!list.is_empty());
    assert_eq!(list.len(), 2);
}

#[test]
fn test_speedtest_result() {
    let server = DnsServer::new("Test".to_string(), "8.8.8.8".to_string());

    let success_result = SpeedTestResult::success(server.clone(), 10, 0);
    assert!(success_result.success);
    assert_eq!(success_result.latency_ms, Some(10));
    assert!(success_result.error.is_none());

    let failure_result = SpeedTestResult::failure(server.clone(), "timeout");
    assert!(!failure_result.success);
    assert!(failure_result.latency_ms.is_none());
    assert!(failure_result.error.is_some());
}

#[test]
fn test_test_summary() {
    let server = DnsServer::new("Test".to_string(), "8.8.8.8".to_string());
    let result1 = SpeedTestResult::success(server.clone(), 10, 0);
    let result2 = SpeedTestResult::success(server.clone(), 20, 0);
    let result3 = SpeedTestResult::failure(server.clone(), "timeout");

    let results = vec![result1, result2, result3];
    let summary = SpeedTester::summarize(&results);

    assert_eq!(summary.total, 3);
    assert_eq!(summary.success, 2);
    assert_eq!(summary.timeout, 1);
    assert_eq!(summary.avg_latency, Some(15));
    assert_eq!(summary.min_latency, Some(10));
    assert_eq!(summary.max_latency, Some(20));
}

#[test]
fn test_dns_status_classification() {
    assert!(DnsStatus::Success.is_success());
    assert!(!DnsStatus::Success.is_failure());
    assert!(DnsStatus::Failed.is_failure());
    assert!(DnsStatus::Timeout.is_failure());
    assert!(!DnsStatus::Pending.is_success());
    assert!(!DnsStatus::Pending.is_failure());
    assert_eq!(DnsStatus::default(), DnsStatus::Pending);
}

#[test]
fn test_summary_classes_partition_total() {
    // the three outcome classes partition the total after every fold
    let server = DnsServer::new("T".to_string(), "9.9.9.9".to_string());
    let outcomes = vec![
        SpeedTestResult::success(server.clone(), 5, 0),
        SpeedTestResult::failure(server.clone(), "timeout"),
        SpeedTestResult::failure(server.clone(), "address family unsupported"),
        SpeedTestResult::success(server.clone(), 7, 333),
    ];
    let mut summary = TestSummary::new();
    for outcome in &outcomes {
        summary.add_result(outcome);
        assert_eq!(summary.total, summary.success + summary.failed + summary.timeout);
    }
    assert_eq!(summary.total, 4);
    assert_eq!(summary.success, 2);
    assert_eq!(summary.failed, 1);
    assert_eq!(summary.timeout, 1);
}

#[test]
fn test_summary_mean_is_order_independent() {
    // folding the same successes in another order gives the same mean
    let server = DnsServer::new("T".to_string(), "9.9.9.9".to_string());
    let a = SpeedTestResult::success(server.clone(), 12, 0);
    let b = SpeedTestResult::success(server.clone(), 34, 0);
    let c = SpeedTestResult::success(server.clone(), 56, 0);

    let mut s1 = TestSummary::new();
    for r in [&a, &b, &c] {
        s1.add_result(r);
    }
    let mut s2 = TestSummary::new();
    for r in [&c, &a, &b] {
        s2.add_result(r);
    }
    assert_eq!(s1.avg_latency, s2.avg_latency);
    assert_eq!(s1.avg_latency, Some((12 + 34 + 56) / 3));
    assert_eq!(s1.latency_sum, s2.latency_sum);
}

#[test]
fn test_success_rate() {
    let mut summary = TestSummary::new();
    assert_eq!(summary.success_rate(), 0);

    let server = DnsServer::new("T".to_string(), "9.9.9.9".to_string());
    summary.add_result(&SpeedTestResult::success(server.clone(), 5, 0));
    summary.add_result(&SpeedTestResult::success(server.clone(), 5, 0));
    summary.add_result(&SpeedTestResult::failure(server.clone(), "timeout"));
    assert_eq!(summary.success_rate(), 100 * 2 / 3);
}

#[test]
fn test_outcome_invariant_shape() {
    // a successful outcome has a latency and no reason; a failed one the converse
    let server = DnsServer::new("T".to_string(), "9.9.9.9".to_string());
    let ok = SpeedTestResult::success(server.clone(), 3, 0);
    assert!(ok.success && ok.latency_ms.is_some() && ok.error.is_none());
    let bad = SpeedTestResult::failure(server, "invalid address");
    assert!(!bad.success && bad.latency_ms.is_none() && bad.error.is_some());
    assert_eq!(bad.packet_loss, 1000);
    assert!(!bad.is_timeout());
}

#[test]
fn test_is_timeout_reason() {
    let server = DnsServer::new("T".to_string(), "9.9.9.9".to_string());
    let timed_out = SpeedTestResult::failure(server.clone(), "timeout");
    assert!(timed_out.is_timeout());
    let other = SpeedTestResult::failure(server, "invalid address");
    assert!(!other.is_timeout());
}
