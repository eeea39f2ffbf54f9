use argus::config::{parse_headers, parse_methods, parse_status_code, Config};

fn pairs(v: &[(&str, &str)]) -> Vec<(String, String)> {
    v.iter().map(|(k, v)| (k.to_string(), v.to_string())).collect()
}

#[test]
fn headers_are_split_and_trimmed() {
    let r = parse_headers("X-Foo: bar, X-Baz: qux").unwrap();
    assert_eq!(r, pairs(&[("X-Foo", "bar"), ("X-Baz", "qux")]));
}

#[test]
fn header_split_at_first_colon() {
    let r = parse_headers("Location: http://example.com:8080/").unwrap();
    assert_eq!(r, pairs(&[("Location", "http://example.com:8080/")]));
}

#[test]
fn header_order_and_duplicates_kept() {
    let r = parse_headers("A:1,B:2,A:3").unwrap();
    assert_eq!(r, pairs(&[("A", "1"), ("B", "2"), ("A", "3")]));
}

#[test]
fn header_without_colon_is_rejected() {
    assert_eq!(
        parse_headers("X-Foo: bar,broken").unwrap_err(),
        "Invalid header format: broken"
    );
}

#[test]
fn empty_header_list_is_rejected() {
    assert_eq!(parse_headers("").unwrap_err(), "Invalid header format: ");
}

#[test]
fn header_with_control_value_is_rejected() {
    assert_eq!(
        parse_headers("X-Foo: a\u{1}b").unwrap_err(),
        "Invalid header value: a\u{1}b"
    );
}

#[test]
fn header_with_invalid_name_is_rejected() {
    assert_eq!(
        parse_headers("Bad Name: x").unwrap_err(),
        "Invalid header name: Bad Name"
    );
    assert_eq!(parse_headers(": x").unwrap_err(), "Invalid header name: ");
}

#[test]
fn methods_are_upper_cased() {
    assert_eq!(
        parse_methods("get,Post,PATCH").unwrap(),
        vec!["GET".to_string(), "POST".to_string(), "PATCH".to_string()]
    );
}

#[test]
fn extension_method_is_accepted() {
    assert_eq!(parse_methods("purge").unwrap(), vec!["PURGE".to_string()]);
}

#[test]
fn invalid_method_is_rejected() {
    assert_eq!(
        parse_methods("GET,B@D,X Y").unwrap_err(),
        "Invalid HTTP method: B@D"
    );
    assert_eq!(parse_methods("").unwrap_err(), "Invalid HTTP method: ");
}

#[test]
fn status_codes_in_range() {
    assert_eq!(parse_status_code("404"), Ok(404));
    assert_eq!(parse_status_code("100"), Ok(100));
    assert_eq!(parse_status_code("599"), Ok(599));
    assert_eq!(parse_status_code("+201"), Ok(201));
    assert_eq!(parse_status_code("0200"), Ok(200));
}

#[test]
fn status_codes_out_of_range() {
    assert_eq!(parse_status_code("99").unwrap_err(), "Invalid status code: 99");
    assert_eq!(parse_status_code("0099").unwrap_err(), "Invalid status code: 99");
    assert_eq!(parse_status_code("+99").unwrap_err(), "Invalid status code: 99");
    assert_eq!(parse_status_code("00700").unwrap_err(), "Invalid status code: 700");
    assert_eq!(parse_status_code("600").unwrap_err(), "Invalid status code: 600");
    assert_eq!(parse_status_code("1000").unwrap_err(), "Invalid status code: 1000");
    assert_eq!(parse_status_code("70000").unwrap_err(), "Invalid status code: 70000");
    assert_eq!(parse_status_code("abc").unwrap_err(), "Invalid status code: abc");
    assert_eq!(parse_status_code("").unwrap_err(), "Invalid status code: ");
    assert_eq!(parse_status_code("+").unwrap_err(), "Invalid status code: +");
    assert_eq!(parse_status_code("-1").unwrap_err(), "Invalid status code: -1");
}

fn build(
    headers: Option<&str>,
    methods: Option<&str>,
    status: Option<&str>,
) -> Result<Config, String> {
    Config::validate(
        "0.0.0.0".to_string(),
        8080,
        headers.map(|s| s.to_string()),
        None,
        None,
        Some("/api,/v2".to_string()),
        methods.map(|s| s.to_string()),
        status.map(|s| s.to_string()),
        false,
    )
}

#[test]
fn validate_builds_configuration() {
    let c = build(Some("X-A: 1"), Some("get"), Some("404")).unwrap();
    assert_eq!(c.listen_addr, "0.0.0.0");
    assert_eq!(c.port, 8080);
    assert_eq!(c.response_headers, Some(pairs(&[("X-A", "1")])));
    assert_eq!(c.filter_routes, Some(vec!["/api".to_string(), "/v2".to_string()]));
    assert_eq!(c.filter_methods, Some(vec!["GET".to_string()]));
    assert_eq!(c.response_status, Some(404));
    assert!(c.metrics_enabled);
}

#[test]
fn validate_reports_first_error() {
    assert_eq!(
        build(Some("bad"), Some("B@D"), Some("1")).err().unwrap(),
        "Invalid header format: bad"
    );
    assert_eq!(
        build(None, Some("B@D"), Some("1")).err().unwrap(),
        "Invalid HTTP method: B@D"
    );
    assert_eq!(
        build(None, None, Some("001")).err().unwrap(),
        "Invalid status code: 1"
    );
    assert_eq!(
        build(None, None, Some("x1")).err().unwrap(),
        "Invalid status code: x1"
    );
}
