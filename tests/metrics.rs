use argus::metrics::Metrics;

fn has_line(text: &str, line: &str) -> bool {
    text.lines().any(|l| l == line)
}

#[test]
fn counts_follow_requests() {
    let mut m = Metrics::new();
    for method in ["GET", "GET", "POST"] {
        m.record_request(method);
    }
    let text = m.export();
    assert!(has_line(&text, "argus_total_requests 3"));
    assert!(has_line(&text, "argus_requests_by_method{method=\"GET\"} 2"));
    assert!(has_line(&text, "argus_requests_by_method{method=\"POST\"} 1"));
}

#[test]
fn export_has_total_line() {
    let mut m = Metrics::new();
    m.record_request("GET");
    let text = m.export();
    let line = text
        .lines()
        .find(|l| l.starts_with("argus_total_requests "))
        .unwrap();
    let n: u64 = line["argus_total_requests ".len()..].parse().unwrap();
    assert_eq!(n, 1);
}

#[test]
fn repeated_request_adds_exactly_n() {
    let mut m = Metrics::new();
    m.record_request("PUT");
    for _ in 0..5 {
        m.record_request("GET");
    }
    let text = m.export();
    assert!(has_line(&text, "argus_total_requests 6"));
    assert!(has_line(&text, "argus_requests_by_method{method=\"GET\"} 5"));
    assert!(has_line(&text, "argus_requests_by_method{method=\"PUT\"} 1"));
}

#[test]
fn responses_counted_by_status() {
    let mut m = Metrics::new();
    m.record_response(200);
    m.record_response(200);
    m.record_response(503);
    let text = m.export();
    assert!(has_line(&text, "argus_responses_by_status{status=\"200\"} 2"));
    assert!(has_line(&text, "argus_responses_by_status{status=\"503\"} 1"));
}

#[test]
fn fresh_counters_export_total_zero() {
    let m = Metrics::new();
    assert!(has_line(&m.export(), "argus_total_requests 0"));
}
