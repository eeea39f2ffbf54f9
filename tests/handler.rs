use argus::config::Config;
use argus::handler::{default_body_text, handle, log_record};
use argus::metrics::Metrics;

fn config() -> Config {
    Config {
        listen_addr: "0.0.0.0".to_string(),
        port: 8080,
        response_headers: None,
        response_body: None,
        response_body_file: None,
        filter_routes: None,
        filter_methods: None,
        response_status: None,
        metrics_enabled: true,
    }
}

fn strings(v: &[&str]) -> Vec<String> {
    v.iter().map(|s| s.to_string()).collect()
}

#[test]
fn no_filter_logs_everything() {
    let c = config();
    assert!(c.should_log("GET", "/anything"));
    assert!(c.should_log("DELETE", "/"));
}

#[test]
fn route_filter_alone() {
    let mut c = config();
    c.filter_routes = Some(strings(&["/api"]));
    assert!(c.should_log("GET", "/api/x"));
    assert!(c.should_log("POST", "/api"));
    assert!(!c.should_log("GET", "/other"));
    assert!(!c.should_log("GET", "/ap"));
}

#[test]
fn method_filter_alone() {
    let mut c = config();
    c.filter_methods = Some(strings(&["POST", "PUT"]));
    assert!(c.should_log("PUT", "/x"));
    assert!(!c.should_log("GET", "/x"));
}

#[test]
fn both_filters_need_both() {
    let mut c = config();
    c.filter_routes = Some(strings(&["/api"]));
    c.filter_methods = Some(strings(&["POST"]));
    assert!(c.should_log("POST", "/api/items"));
    assert!(!c.should_log("GET", "/api/items"));
    assert!(!c.should_log("POST", "/other"));
    assert!(!c.should_log("GET", "/other"));
}

#[test]
fn default_response() {
    let c = config();
    let mut m = Metrics::new();
    let r = handle(&c, &mut m, "GET", "/", None);
    assert_eq!(r.status, 200);
    assert_eq!(r.body, "{\"status\":\"ok\"}\n");
    assert!(r.headers.is_empty());
    assert!(r.log);
}

#[test]
fn configured_status_keeps_default_body() {
    let mut c = config();
    c.response_status = Some(404);
    let mut m = Metrics::new();
    let r = handle(&c, &mut m, "GET", "/x", None);
    assert_eq!(r.status, 404);
    assert_eq!(r.body, "{\"status\":\"ok\"}\n");
    assert!(m.export().contains("argus_responses_by_status{status=\"404\"} 1"));
}

#[test]
fn unreadable_body_file_gives_notice() {
    let mut c = config();
    c.response_body_file = Some("/no/such/file".to_string());
    c.response_body = Some("ignored".to_string());
    let mut m = Metrics::new();
    let r = handle(&c, &mut m, "GET", "/", None);
    assert_eq!(r.body, "Error reading file");
}

#[test]
fn body_file_takes_precedence() {
    let mut c = config();
    c.response_body_file = Some("body.txt".to_string());
    c.response_body = Some("ignored".to_string());
    assert_eq!(c.response_body(Some("from file".to_string())), "from file");
}

#[test]
fn configured_body_gets_newline() {
    let mut c = config();
    c.response_body = Some("hello".to_string());
    let mut m = Metrics::new();
    let r = handle(&c, &mut m, "POST", "/", None);
    assert_eq!(r.body, "hello\n");
}

#[test]
fn configured_headers_on_every_response() {
    let c = Config::validate(
        "127.0.0.1".to_string(),
        9000,
        Some("X-Foo: bar, X-Baz: qux".to_string()),
        None,
        None,
        None,
        None,
        None,
        false,
    )
    .unwrap();
    let mut m = Metrics::new();
    for path in ["/", "/a/b"] {
        let r = handle(&c, &mut m, "GET", path, None);
        assert_eq!(
            r.headers,
            vec![
                ("X-Foo".to_string(), "bar".to_string()),
                ("X-Baz".to_string(), "qux".to_string())
            ]
        );
    }
}

#[test]
fn disabled_metrics_count_nothing() {
    let mut c = config();
    c.metrics_enabled = false;
    let mut m = Metrics::new();
    handle(&c, &mut m, "GET", "/", None);
    let text = m.export();
    assert!(text.lines().any(|l| l == "argus_total_requests 0"));
    assert!(!text.contains("argus_requests_by_method"));
    assert!(!text.contains("argus_responses_by_status"));
}

#[test]
fn default_body_is_json() {
    assert_eq!(default_body_text(), "{\"status\":\"ok\"}\n");
}

#[test]
fn log_record_holds_request_details() {
    let line = log_record("2024-01-01T00:00:00+00:00", "GET", "/x?y=1", "{}", "a\"b");
    assert!(!line.contains('\n'));
    let v: serde_json::Value = serde_json::from_str(&line).unwrap();
    assert_eq!(v["timestamp"], "2024-01-01T00:00:00+00:00");
    assert_eq!(v["method"], "GET");
    assert_eq!(v["uri"], "/x?y=1");
    assert_eq!(v["headers"], "{}");
    assert_eq!(v["body"], "a\"b");
}

#[test]
fn repeated_handling_counts_every_call() {
    let mut c = config();
    c.response_status = Some(201);
    let mut m = Metrics::new();
    let first = handle(&c, &mut m, "GET", "/same", None);
    for _ in 0..3 {
        let r = handle(&c, &mut m, "GET", "/same", None);
        assert_eq!(r.status, first.status);
        assert_eq!(r.body, first.body);
        assert_eq!(r.headers, first.headers);
    }
    let text = m.export();
    assert!(text.lines().any(|l| l == "argus_total_requests 4"));
    assert!(text.lines().any(|l| l == "argus_requests_by_method{method=\"GET\"} 4"));
    assert!(text.lines().any(|l| l == "argus_responses_by_status{status=\"201\"} 4"));
}
