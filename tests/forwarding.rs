use host_proxy::forward::{
    prepare_forward, relay_inbound_headers, relay_outbound_headers, target_url, upstream_status,
    Header, ProxyError,
};

const SAMPLE: &str = "frontend :80\n\
use_backend b1 if { req.hdr(host) -i api.example.com }\n\
backend b1\n\
server s1 10.0.0.5:9000\n";

fn header(name: &str, value: &str) -> Header {
    Header { name: name.to_string(), value: value.to_string() }
}

#[test]
fn get_is_forwarded_to_destination_url() {
    let hs = vec![header("host", "api.example.com"), header("accept", "*/*")];
    let out = prepare_forward(Some(SAMPLE), "api.example.com", "GET".to_string(), "/widgets", &hs, vec![])
        .unwrap();
    assert_eq!(out.url, "http://10.0.0.5:9000/widgets");
    assert_eq!(out.method, "GET");
    assert_eq!(out.headers, hs);
    assert!(out.body.is_empty());
}

#[test]
fn method_and_body_are_preserved() {
    let body = vec![0u8, 1, 2, 255, b'{', b'}'];
    let out = prepare_forward(Some(SAMPLE), "api.example.com", "PATCH".to_string(), "/a?b=c", &vec![], body.clone())
        .unwrap();
    assert_eq!(out.method, "PATCH");
    assert_eq!(out.body, body);
    assert_eq!(out.url, "http://10.0.0.5:9000/a?b=c");
}

#[test]
fn unmatched_host_issues_no_request() {
    let r = prepare_forward(Some(SAMPLE), "other.example.com", "GET".to_string(), "/", &vec![], vec![]);
    assert_eq!(r, Err(ProxyError::NoRouteMatched));
    assert_eq!(ProxyError::NoRouteMatched.status_code(), 500);
}

#[test]
fn missing_config_gives_server_error() {
    let r = prepare_forward(None, "api.example.com", "GET".to_string(), "/", &vec![], vec![]);
    assert_eq!(r, Err(ProxyError::ConfigUnreadable));
    assert_eq!(r.unwrap_err().status_code(), 500);
}

#[test]
fn empty_method_is_refused() {
    let r = prepare_forward(Some(SAMPLE), "api.example.com", String::new(), "/", &vec![], vec![]);
    assert_eq!(r, Err(ProxyError::InvalidMethod));
}

#[test]
fn unreachable_upstream_is_bad_gateway() {
    let e = ProxyError::UpstreamUnreachable;
    assert_eq!(e.status_code(), 502);
    assert_eq!(e.message(), "Bad Gateway");
}

#[test]
fn error_messages_and_statuses() {
    assert_eq!(ProxyError::ConfigInvalid.message(), "Failed to load config");
    assert_eq!(ProxyError::InvalidMethod.message(), "Invalid HTTP method");
    assert_eq!(ProxyError::InvalidStatus.status_code(), 500);
    assert_eq!(ProxyError::UpstreamResponseUnreadable.status_code(), 500);
    assert_eq!(ProxyError::UpstreamResponseUnreadable.message(), "Failed to read response body");
}

#[test]
fn target_url_joins_parts() {
    assert_eq!(target_url("10.0.0.5:9000", "/widgets"), "http://10.0.0.5:9000/widgets");
    assert_eq!(target_url("", ""), "http://");
}

#[test]
fn bad_headers_are_dropped_in_order() {
    let hs = vec![
        header("x-one", "1"),
        header("bad name", "v"),
        header("x-two", "line\u{1}break"),
        header("x-three", "tab\there"),
        header("x-four", "caf\u{e9}"),
        header("x-five", "del\u{7f}"),
    ];
    let expected = vec![header("x-one", "1"), header("x-three", "tab\there"), header("x-four", "caf\u{e9}")];
    assert_eq!(relay_outbound_headers(&hs), expected);
    assert_eq!(relay_inbound_headers(&hs), expected);
    assert!(relay_outbound_headers(&vec![]).is_empty());
}

#[test]
fn upstream_status_range() {
    assert_eq!(upstream_status(200), Ok(200));
    assert_eq!(upstream_status(100), Ok(100));
    assert_eq!(upstream_status(999), Ok(999));
    assert_eq!(upstream_status(99), Err(ProxyError::InvalidStatus));
    assert_eq!(upstream_status(1000), Err(ProxyError::InvalidStatus));
}
