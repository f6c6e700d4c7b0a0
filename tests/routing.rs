use host_proxy::config::{load_config, parse_config, parse_lines, ConfigError};
use host_proxy::forward::{route, ProxyError};

const SAMPLE: &str = "frontend :80\n\
use_backend b1 if { req.hdr(host) -i api.example.com }\n\
backend b1\n\
server s1 10.0.0.5:9000\n";

fn words(line: &str) -> Vec<String> {
    line.split_whitespace().map(|w| w.to_string()).collect()
}

#[test]
fn matching_host_resolves_to_server() {
    let c = parse_config(SAMPLE, "api.example.com");
    assert_eq!(c.frontend_bind, ":80");
    assert_eq!(c.frontend_host_rule.as_deref(), Some("api.example.com"));
    assert_eq!(c.destination, "10.0.0.5:9000");
    assert_eq!(c.resolve(), Some("10.0.0.5:9000".to_string()));
    assert_eq!(c.backends.len(), 1);
    assert_eq!(c.backends[0].name, "b1");
    assert_eq!(c.backends[0].servers, vec!["10.0.0.5:9000".to_string()]);
}

#[test]
fn other_host_has_no_route() {
    let c = parse_config(SAMPLE, "other.example.com");
    assert_eq!(c.destination, "");
    assert_eq!(c.resolve(), None);
    assert_eq!(c.frontend_host_rule, None);
    assert!(c.backends.is_empty());
    assert_eq!(route(Some(SAMPLE), "other.example.com"), Err(ProxyError::NoRouteMatched));
    assert_eq!(ProxyError::NoRouteMatched.status_code(), 500);
}

#[test]
fn host_match_is_exact_and_case_sensitive() {
    assert_eq!(parse_config(SAMPLE, "API.example.com").resolve(), None);
    assert_eq!(parse_config(SAMPLE, "api.example.co").resolve(), None);
    assert_eq!(parse_config(SAMPLE, "").resolve(), None);
}

#[test]
fn only_first_server_after_backend_is_taken() {
    let text = "frontend :80\n\
use_backend pool if { req.hdr(host) -i a.test }\n\
backend pool\n\
server one 10.0.0.1:80\n\
server two 10.0.0.2:80 check\n";
    let c = parse_config(text, "a.test");
    assert_eq!(c.destination, "10.0.0.1:80");
    assert_eq!(c.backends[0].servers, vec!["10.0.0.1:80".to_string()]);
}

#[test]
fn unknown_and_blank_lines_are_skipped() {
    let text = "# routing table\n\n  global\n\
frontend    :8080   \n\
timeout connect 5s\n\
use_backend web if { req.hdr(host) -i site.test }\n\
\n\
backend web\n\
mode http\n\
server w1 192.168.1.9:3000 maxconn 10\n";
    let c = parse_config(text, "site.test");
    assert_eq!(c.frontend_bind, ":8080");
    assert_eq!(c.destination, "192.168.1.9:3000");
}

#[test]
fn backend_of_other_name_is_ignored() {
    let text = "frontend :80\n\
use_backend b1 if { req.hdr(host) -i h.test }\n\
backend b2\n\
server s2 10.9.9.9:1\n";
    let c = parse_config(text, "h.test");
    assert_eq!(c.destination, "");
    assert_eq!(c.backends.len(), 1);
    assert_eq!(c.backends[0].name, "b1");
    assert!(c.backends[0].servers.is_empty());
}

#[test]
fn frontend_line_clears_active_backend() {
    let text = "use_backend b1 if { req.hdr(host) -i h.test }\n\
frontend :80\n\
backend b1\n\
server s1 10.0.0.1:1\n";
    let c = parse_config(text, "h.test");
    assert_eq!(c.destination, "");
    assert_eq!(c.frontend_host_rule.as_deref(), Some("h.test"));
}

#[test]
fn short_rule_line_is_skipped() {
    let text = "frontend :80\nuse_backend b1 if h.test\nbackend b1\nserver s1 10.0.0.1:1\n";
    let c = parse_config(text, "h.test");
    assert_eq!(c.destination, "");
    assert!(c.backends.is_empty());
}

#[test]
fn later_matching_rule_takes_over() {
    let text = "frontend :80\n\
use_backend b1 if { req.hdr(host) -i h.test }\n\
backend b1\n\
server s1 10.0.0.1:1\n\
use_backend b2 if { req.hdr(host) -i h.test }\n\
backend b2\n\
server s2 10.0.0.2:2\n";
    let c = parse_config(text, "h.test");
    assert_eq!(c.destination, "10.0.0.2:2");
    assert_eq!(c.backends.len(), 2);
}

#[test]
fn parse_lines_matches_parse_config() {
    let lines: Vec<Vec<String>> = SAMPLE.lines().map(words).collect();
    let a = parse_lines(&lines, "api.example.com");
    let b = parse_config(SAMPLE, "api.example.com");
    assert_eq!(a, b);
}

#[test]
fn parsing_twice_gives_same_config() {
    let a = parse_config(SAMPLE, "api.example.com");
    let b = parse_config(SAMPLE, "api.example.com");
    assert_eq!(a, b);
    let c = parse_config(SAMPLE, "other.example.com");
    let d = parse_config(SAMPLE, "other.example.com");
    assert_eq!(c, d);
}

#[test]
fn empty_frontend_is_invalid() {
    let text = "use_backend b1 if { req.hdr(host) -i api.example.com }\nbackend b1\nserver s1 10.0.0.5:9000\n";
    assert_eq!(load_config(Some(text), "api.example.com").err(), Some(ConfigError::Invalid));
    assert_eq!(load_config(Some(""), "api.example.com").err(), Some(ConfigError::Invalid));
    assert_eq!(route(Some(text), "api.example.com"), Err(ProxyError::ConfigInvalid));
    assert_eq!(ProxyError::ConfigInvalid.status_code(), 500);
}

#[test]
fn no_backend_recorded_is_invalid() {
    assert_eq!(load_config(Some(SAMPLE), "other.example.com").err(), Some(ConfigError::Invalid));
}

#[test]
fn valid_config_loads() {
    let c = load_config(Some(SAMPLE), "api.example.com").unwrap();
    assert_eq!(c.destination, "10.0.0.5:9000");
}

#[test]
fn matched_rule_without_server_loads_but_has_no_route() {
    let text = "frontend :80\nuse_backend b1 if { req.hdr(host) -i h.test }\n";
    let c = load_config(Some(text), "h.test").unwrap();
    assert_eq!(c.resolve(), None);
    assert_eq!(route(Some(text), "h.test"), Err(ProxyError::NoRouteMatched));
}

#[test]
fn unreadable_config_is_per_request() {
    assert_eq!(load_config(None, "api.example.com").err(), Some(ConfigError::Unreadable));
    let first = route(None, "api.example.com");
    assert_eq!(first, Err(ProxyError::ConfigUnreadable));
    assert_eq!(ProxyError::ConfigUnreadable.status_code(), 500);
    let second = route(Some(SAMPLE), "api.example.com");
    assert_eq!(second, Ok("10.0.0.5:9000".to_string()));
}
