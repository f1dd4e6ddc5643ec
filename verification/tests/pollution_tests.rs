use dnstest::pollution::{normalize_domain, select_resolved, trim_trailing_dots};
use dnstest::{IpAddress, PollutionChecker, PollutionResult};

#[test]
fn test_identical_sets_not_polluted() {
    let checker = PollutionChecker::new();
    let sys = vec![IpAddress::V4(1, 1, 1, 1)];
    let pubs = vec![IpAddress::V4(1, 1, 1, 1)];
    assert!(!checker.detect_pollution(&sys, &pubs));
}

#[test]
fn test_divergent_sets_polluted() {
    let checker = PollutionChecker::new();
    let sys = vec![IpAddress::V4(203, 0, 113, 9)];
    let pubs = vec![IpAddress::V4(1, 1, 1, 1)];
    assert!(checker.detect_pollution(&sys, &pubs));
}

#[test]
fn test_empty_system_not_polluted() {
    let checker = PollutionChecker::new();
    let sys: Vec<IpAddress> = vec![];
    let pubs = vec![IpAddress::V4(1, 1, 1, 1)];
    assert!(!checker.detect_pollution(&sys, &pubs));
    let sys2 = vec![IpAddress::V4(203, 0, 113, 9)];
    let pubs2: Vec<IpAddress> = vec![];
    assert!(!checker.detect_pollution(&sys2, &pubs2));
}

#[test]
fn test_allow_list_suppresses_flag() {
    // an answer pointing at a well-known public resolver is not flagged
    let checker = PollutionChecker::new();
    let sys = vec![IpAddress::V4(8, 8, 4, 4)];
    let pubs = vec![IpAddress::V4(1, 0, 0, 1)];
    assert!(!checker.detect_pollution(&sys, &pubs));
}

#[test]
fn test_any_unmatched_address_flags() {
    // one matching address does not excuse an unmatched one
    let checker = PollutionChecker::new();
    let sys = vec![IpAddress::V4(1, 1, 1, 1), IpAddress::V4(203, 0, 113, 9)];
    let pubs = vec![IpAddress::V4(1, 1, 1, 1)];
    assert!(checker.detect_pollution(&sys, &pubs));
}

#[test]
fn test_evaluate_clean_result() {
    let checker = PollutionChecker::new();
    let sys = vec![IpAddress::V4(1, 1, 1, 1)];
    let pubs = vec![IpAddress::V4(1, 1, 1, 1)];
    let r = checker.evaluate("example.com.", sys, pubs);
    assert_eq!(r.domain, "example.com");
    assert!(!r.is_polluted);
    assert_eq!(r.details, "Both returned similar results: [1.1.1.1]");
}

#[test]
fn test_evaluate_polluted_result() {
    let checker = PollutionChecker::new();
    let sys = vec![IpAddress::V4(203, 0, 113, 9)];
    let pubs = vec![IpAddress::V4(1, 1, 1, 1), IpAddress::V4(1, 0, 0, 1)];
    let r = checker.evaluate("example.com", sys, pubs);
    assert_eq!(r.domain, "example.com");
    assert!(r.is_polluted);
    assert_eq!(
        r.details,
        "System DNS returned: [203.0.113.9], Public DNS returned: [1.1.1.1, 1.0.0.1]"
    );
}

#[test]
fn test_normalize_and_trim_domain() {
    assert_eq!(normalize_domain("google.com"), "google.com.");
    assert_eq!(normalize_domain("google.com."), "google.com.");
    assert_eq!(normalize_domain(""), ".");
    assert_eq!(trim_trailing_dots("google.com."), "google.com");
    assert_eq!(trim_trailing_dots("google.com"), "google.com");
    assert_eq!(trim_trailing_dots("a.."), "a");
    assert_eq!(trim_trailing_dots("..."), "");
}

#[test]
fn test_resolution_fallback_policy() {
    let a = vec![IpAddress::V4(1, 2, 3, 4)];
    let b = vec![IpAddress::V6(0, 0, 0, 0, 0, 0, 0, 1)];
    assert_eq!(select_resolved(a.clone(), b.clone()), a);
    assert_eq!(select_resolved(vec![], b.clone()), b);
}

#[test]
fn test_pollution_result_fields() {
    let r = PollutionResult::new(
        "x.org".to_string(),
        vec![IpAddress::V4(9, 9, 9, 9)],
        vec![IpAddress::V4(9, 9, 9, 9)],
        false,
        "detail".to_string(),
    );
    assert_eq!(r.domain, "x.org");
    assert_eq!(r.system_ips, vec![IpAddress::V4(9, 9, 9, 9)]);
    assert_eq!(r.public_ips, vec![IpAddress::V4(9, 9, 9, 9)]);
    assert!(!r.is_polluted);
    assert_eq!(r.details, "detail");
}
