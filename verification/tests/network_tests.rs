use rtools::network::{
    get_service_name, pauses_after, port_count, summarize, Attempt, PingSummary,
};
use rtools::{ConnectivityResult, DnsResult, PortScanResult, RtoolsError};

#[test]
fn connectivity_result_starts_unreachable() {
    let r = ConnectivityResult::new("example.org".to_string(), Some(443));
    assert_eq!(r.host, "example.org");
    assert_eq!(r.port, Some(443));
    assert!(!r.is_reachable);
    assert_eq!(r.response_time_ms, None);
    assert_eq!(r.error_message, None);
    assert!(r.ip_addresses.is_empty());
}

#[test]
fn attempts_are_recorded_until_one_connects() {
    let mut r = ConnectivityResult::new("h".to_string(), Some(80));
    assert!(!r.record_attempt("10.0.0.1".to_string(), Attempt::Failed("refused".to_string())));
    assert_eq!(r.error_message, Some("连接失败: refused".to_string()));
    assert!(!r.is_reachable);
    assert!(!r.record_attempt("10.0.0.2".to_string(), Attempt::TimedOut));
    assert_eq!(r.error_message, Some("连接超时".to_string()));
    assert!(r.record_attempt("10.0.0.3".to_string(), Attempt::Connected(31)));
    assert!(r.is_reachable);
    assert_eq!(r.response_time_ms, Some(31));
    assert_eq!(r.error_message, Some("连接超时".to_string()));
    assert_eq!(r.ip_addresses, vec!["10.0.0.1", "10.0.0.2", "10.0.0.3"]);
    assert_eq!(r.host, "h");
    assert_eq!(r.port, Some(80));
}

#[test]
fn failed_lookup_leaves_a_message() {
    let mut r = ConnectivityResult::new("nowhere".to_string(), None);
    r.lookup_failed("no such host");
    assert_eq!(r.error_message, Some("DNS解析失败: no such host".to_string()));
    assert!(!r.is_reachable);
    assert!(r.ip_addresses.is_empty());
}

#[test]
fn port_scan_result_starts_empty() {
    let r = PortScanResult::new("h".to_string());
    assert_eq!(r.host, "h");
    assert!(r.open_ports.is_empty());
    assert!(r.closed_ports.is_empty());
    assert_eq!(r.scan_time_ms, 0);
    assert_eq!(r.total_ports, 0);
}

#[test]
fn port_scan_sorts_ports_by_answer() {
    let r = PortScanResult::from_answers("h".to_string(), 20, &vec![false, false, true, false, true], 9);
    assert_eq!(r.total_ports, 5);
    assert_eq!(r.open_ports, vec![22, 24]);
    assert_eq!(r.closed_ports, vec![20, 21, 23]);
    assert_eq!(r.scan_time_ms, 9);
    assert_eq!(r.open_ports.len() + r.closed_ports.len(), r.total_ports);

    let r = PortScanResult::from_answers("h".to_string(), 65535, &vec![true], 0);
    assert_eq!(r.open_ports, vec![65535]);
    assert_eq!(port_count(20, 24), 5);
    assert_eq!(port_count(7, 7), 1);
    assert_eq!(port_count(0, 65535), 65536);
}

#[test]
fn dns_result_keeps_each_address_once() {
    let mut d = DnsResult::new("example.org".to_string(), "A".to_string());
    assert_eq!(d.domain, "example.org");
    assert_eq!(d.record_type, "A");
    assert_eq!(d.query_time_ms, 0);
    assert!(d.needs_more());
    d.add_address("1.1.1.1".to_string());
    d.add_address("2.2.2.2".to_string());
    d.add_address("1.1.1.1".to_string());
    assert_eq!(d.ip_addresses, vec!["1.1.1.1", "2.2.2.2"]);
    assert!(!d.needs_more());
    let done = d.finish(5).unwrap();
    assert_eq!(done.query_time_ms, 5);
    assert_eq!(done.ip_addresses, vec!["1.1.1.1", "2.2.2.2"]);
    assert_eq!(done.domain, "example.org");
}

#[test]
fn dns_query_without_address_is_an_error() {
    let d = DnsResult::new("nowhere.invalid".to_string(), "A".to_string());
    let error = d.finish(5).unwrap_err();
    assert!(matches!(error, RtoolsError::NetworkError(_)));
    assert_eq!(error.message(), "网络错误: 无法解析域名: nowhere.invalid");
}

#[test]
fn service_names() {
    let known = [
        (21, "FTP"),
        (22, "SSH"),
        (23, "Telnet"),
        (25, "SMTP"),
        (53, "DNS"),
        (80, "HTTP"),
        (110, "POP3"),
        (143, "IMAP"),
        (443, "HTTPS"),
        (993, "IMAPS"),
        (995, "POP3S"),
        (3306, "MySQL"),
        (5432, "PostgreSQL"),
        (6379, "Redis"),
        (8080, "HTTP-Alt"),
        (8443, "HTTPS-Alt"),
    ];
    for (port, name) in known.iter() {
        assert_eq!(get_service_name(*port), *name);
    }
    assert_eq!(get_service_name(0), "Unknown");
    assert_eq!(get_service_name(81), "Unknown");
    assert_eq!(get_service_name(65535), "Unknown");
}

fn probe(reachable: bool, ms: Option<u128>) -> ConnectivityResult {
    let mut r = ConnectivityResult::new("h".to_string(), Some(80));
    r.is_reachable = reachable;
    r.response_time_ms = ms;
    r
}

#[test]
fn ping_summary() {
    let results = vec![probe(true, Some(10)), probe(false, None), probe(true, Some(25)), probe(true, Some(6))];
    assert_eq!(
        summarize(&results),
        PingSummary { sent: 4, received: 3, lost: 1, average_ms: Some(13) }
    );
    assert_eq!(
        summarize(&vec![probe(false, None), probe(false, None)]),
        PingSummary { sent: 2, received: 0, lost: 2, average_ms: None }
    );
    assert_eq!(
        summarize(&Vec::new()),
        PingSummary { sent: 0, received: 0, lost: 0, average_ms: None }
    );
}

#[test]
fn pauses_lie_between_probes() {
    assert!(pauses_after(0, 4));
    assert!(pauses_after(2, 4));
    assert!(!pauses_after(3, 4));
    assert!(!pauses_after(0, 1));
}
