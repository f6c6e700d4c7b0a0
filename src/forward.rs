use vstd::prelude::*;
use vstd::string::*;
use crate::config::{
    lemma_unmatched_host_has_no_route, opt_str_view, parse_config, parse_model, route_of, rule_matches,
    tokenize,
};

verus! {

/// Why a request was answered by the proxy itself rather than relayed.
#[derive(PartialEq, Eq, Structural, Clone, Copy, Debug)]
pub enum ProxyError {
    /// The configuration source could not be read.
    ConfigUnreadable,
    /// The configuration has no frontend bind address or no backend.
    ConfigInvalid,
    /// No rule routes the requested host to a server.
    NoRouteMatched,
    /// The request method has no outbound equivalent.
    InvalidMethod,
    /// The outbound request could not be delivered.
    UpstreamUnreachable,
    /// The upstream answered with a status code that cannot be relayed.
    InvalidStatus,
    /// The upstream's response body could not be read.
    UpstreamResponseUnreadable,
}

impl ProxyError {
    /// The HTTP status that answers the request.
    pub open spec fn spec_status(self) -> u16 {
        match self {
            ProxyError::UpstreamUnreachable => 502,
            _ => 500,
        }
    }

    pub fn status_code(&self) -> (r: u16)
        ensures
            r == self.spec_status(),
    {
        match self {
            ProxyError::UpstreamUnreachable => 502,
            _ => 500,
        }
    }

    /// The body of the answer.
    pub open spec fn spec_message(self) -> Seq<char> {
        match self {
            ProxyError::ConfigUnreadable => "Failed to read config"@,
            ProxyError::ConfigInvalid => "Failed to load config"@,
            ProxyError::NoRouteMatched => "No route matched the requested host"@,
            ProxyError::InvalidMethod => "Invalid HTTP method"@,
            ProxyError::UpstreamUnreachable => "Bad Gateway"@,
            ProxyError::InvalidStatus => "Invalid response status"@,
            ProxyError::UpstreamResponseUnreadable => "Failed to read response body"@,
        }
    }

    pub fn message(&self) -> (r: String)
        ensures
            r@ == self.spec_message(),
            r@.len() > 0,
    {
        let m = match self {
            ProxyError::ConfigUnreadable => "Failed to read config",
            ProxyError::ConfigInvalid => "Failed to load config",
            ProxyError::NoRouteMatched => "No route matched the requested host",
            ProxyError::InvalidMethod => "Invalid HTTP method",
            ProxyError::UpstreamUnreachable => "Bad Gateway",
            ProxyError::InvalidStatus => "Invalid response status",
            ProxyError::UpstreamResponseUnreadable => "Failed to read response body",
        };
        proof {
            reveal_strlit("Failed to read config");
            reveal_strlit("Failed to load config");
            reveal_strlit("No route matched the requested host");
            reveal_strlit("Invalid HTTP method");
            reveal_strlit("Bad Gateway");
            reveal_strlit("Invalid response status");
            reveal_strlit("Failed to read response body");
        }
        m.to_owned()
    }
}

/// One header line, as text.
#[derive(Debug, Clone, PartialEq, Eq)]
pub struct Header {
    pub name: String,
    pub value: String,
}

pub type HeaderModel = (Seq<char>, Seq<char>);

impl Header {
    pub open spec fn view(&self) -> HeaderModel {
        (self.name@, self.value@)
    }
}

pub open spec fn headers_view(hs: Seq<Header>) -> Seq<HeaderModel> {
    hs.map_values(|h: Header| h.view())
}

/// The request to send upstream.
#[derive(Debug, Clone, PartialEq, Eq)]
pub struct OutboundRequest {
    pub method: String,
    pub url: String,
    pub headers: Vec<Header>,
    pub body: Vec<u8>,
}

/// Whether the outbound client accepts `name` as a header name.
pub uninterp spec fn outbound_name_accepted(name: Seq<char>) -> bool;

/// Whether the inbound server accepts `name` as a header name.
pub uninterp spec fn inbound_name_accepted(name: Seq<char>) -> bool;

/// Whether the outbound client accepts `m` as a request method.
pub uninterp spec fn method_accepted(m: Seq<char>) -> bool;

/// A header value is accepted when every character is a tab or is neither a
/// control character nor DEL (characters beyond ASCII are encoded as bytes of
/// 0x80 and above, which are accepted).
pub open spec fn value_accepted(v: Seq<char>) -> bool {
    forall|i: int| 0 <= i < v.len() ==> ((v[i] as u32 >= 32 && v[i] as u32 != 127) || v[i] == '\t')
}

pub open spec fn outbound_ok(h: HeaderModel) -> bool {
    outbound_name_accepted(h.0) && value_accepted(h.1)
}

pub open spec fn inbound_ok(h: HeaderModel) -> bool {
    inbound_name_accepted(h.0) && value_accepted(h.1)
}

/// Relies on `reqwest::header::HeaderName::from_bytes`: whether the name converts.
#[verifier::external_body]
fn outbound_name_check(name: &str) -> (r: bool)
    ensures
        r == outbound_name_accepted(name@),
{
    reqwest::header::HeaderName::from_bytes(name.as_bytes()).is_ok()
}

/// Relies on `reqwest::header::HeaderValue::from_str`: it accepts exactly the
/// texts whose bytes are all tabs or at least 32 and not 127.
#[verifier::external_body]
fn outbound_value_check(value: &str) -> (r: bool)
    ensures
        r == value_accepted(value@),
{
    reqwest::header::HeaderValue::from_str(value).is_ok()
}

/// Relies on `actix_web::http::header::HeaderName`'s `FromStr`: whether the name converts.
#[verifier::external_body]
fn inbound_name_check(name: &str) -> (r: bool)
    ensures
        r == inbound_name_accepted(name@),
{
    name.parse::<actix_web::http::header::HeaderName>().is_ok()
}

/// Relies on `actix_web::http::header::HeaderValue`'s `FromStr`: it accepts exactly
/// the texts whose bytes are all tabs or at least 32 and not 127.
#[verifier::external_body]
fn inbound_value_check(value: &str) -> (r: bool)
    ensures
        r == value_accepted(value@),
{
    value.parse::<actix_web::http::header::HeaderValue>().is_ok()
}

/// Relies on `reqwest::Method::from_bytes`: whether the method converts; an
/// empty method never does.
#[verifier::external_body]
fn method_check(m: &str) -> (r: bool)
    ensures
        r == method_accepted(m@),
        m@.len() == 0 ==> !r,
{
    reqwest::Method::from_bytes(m.as_bytes()).is_ok()
}

/// Relies on `actix_web::http::StatusCode::from_u16`: codes from 100 to 999 are accepted.
#[verifier::external_body]
fn status_check(code: u16) -> (r: bool)
    ensures
        r == (100 <= code && code < 1000),
{
    actix_web::http::StatusCode::from_u16(code).is_ok()
}


/// The outcome of routing a requested host with the configuration text: a text
/// without a frontend bind address is invalid; one that recorded no backend or
/// no server for this host routes nowhere.
pub open spec fn route_model(source: Option<Seq<char>>, host: Seq<char>) -> Result<Seq<char>, ProxyError> {
    match source {
        None => Err(ProxyError::ConfigUnreadable),
        Some(text) => {
            let c = parse_model(tokenize(text), host);
            if c.frontend_bind.len() == 0 {
                Err(ProxyError::ConfigInvalid)
            } else if c.backends.len() == 0 {
                Err(ProxyError::NoRouteMatched)
            } else {
                match route_of(c) {
                    Some(d) => Ok(d),
                    None => Err(ProxyError::NoRouteMatched),
                }
            }
        },
    }
}

pub open spec fn result_view(r: Result<String, ProxyError>) -> Result<Seq<char>, ProxyError> {
    match r {
        Ok(s) => Ok(s@),
        Err(e) => Err(e),
    }
}

/// The destination server for the requested host, from the configuration text
/// (`None` when it could not be read).
pub fn route(source: Option<&str>, host: &str) -> (r: Result<String, ProxyError>)
    ensures
        result_view(r) == route_model(opt_str_view(source), host@),
{
    let text = match source {
        None => {
            return Err(ProxyError::ConfigUnreadable);
        },
        Some(t) => t,
    };
    let config = parse_config(text, host);
    if config.frontend_bind.as_str().is_empty() {
        Err(ProxyError::ConfigInvalid)
    } else if config.backends.len() == 0 {
        Err(ProxyError::NoRouteMatched)
    } else {
        match config.resolve() {
            Some(d) => Ok(d),
            None => Err(ProxyError::NoRouteMatched),
        }
    }
}

/// The outbound URL: plain HTTP to the destination, with the inbound path and query.
pub fn target_url(destination: &str, path_and_query: &str) -> (r: String)
    ensures
        r@ == "http://"@ + destination@ + path_and_query@,
{
    let mut url = "http://".to_owned();
    url.append(destination);
    url.append(path_and_query);
    url
}

/// Keeps, in order, the headers that the outbound client (or, when `outbound` is
/// false, the inbound server) accepts.
fn keep_headers(hs: &Vec<Header>, outbound: bool) -> (r: Vec<Header>)
    ensures
        outbound ==> headers_view(r@) == headers_view(hs@).filter(|h: HeaderModel| outbound_ok(h)),
        !outbound ==> headers_view(r@) == headers_view(hs@).filter(|h: HeaderModel| inbound_ok(h)),
{
    let ghost pred = if outbound {
        |h: HeaderModel| outbound_ok(h)
    } else {
        |h: HeaderModel| inbound_ok(h)
    };
    let ghost v = headers_view(hs@);
    let mut out: Vec<Header> = Vec::new();
    let mut i: usize = 0;
    while i < hs.len()
        invariant
            i <= hs@.len(),
            v == headers_view(hs@),
            pred == (if outbound {
                |h: HeaderModel| outbound_ok(h)
            } else {
                |h: HeaderModel| inbound_ok(h)
            }),
            headers_view(out@) == v.take(i as int).filter(pred),
        decreases hs@.len() - i,
    {
        let h = &hs[i];
        let keep = if outbound {
            outbound_name_check(h.name.as_str()) && outbound_value_check(h.value.as_str())
        } else {
            inbound_name_check(h.name.as_str()) && inbound_value_check(h.value.as_str())
        };
        let ghost before = headers_view(out@);
        proof {
            assert(v.take(i as int + 1).drop_last() =~= v.take(i as int));
            assert(v.take(i as int + 1).last() == h.view());
            reveal_with_fuel(Seq::filter, 1);
            assert(keep == pred(h.view()));
        }
        if keep {
            out.push(Header { name: h.name.clone(), value: h.value.clone() });
            assert(headers_view(out@) =~= before.push(h.view()));
        }
        i = i + 1;
    }
    assert(v.take(i as int) =~= v);
    out
}

/// The inbound request's headers that can be sent upstream, in order; a header
/// whose name or value the outbound client refuses is dropped.
pub fn relay_outbound_headers(hs: &Vec<Header>) -> (r: Vec<Header>)
    ensures
        headers_view(r@) == headers_view(hs@).filter(|h: HeaderModel| outbound_ok(h)),
{
    keep_headers(hs, true)
}

/// The upstream response's headers that can be relayed back, in order; a header
/// whose name or value the inbound server refuses is dropped.
pub fn relay_inbound_headers(hs: &Vec<Header>) -> (r: Vec<Header>)
    ensures
        headers_view(r@) == headers_view(hs@).filter(|h: HeaderModel| inbound_ok(h)),
{
    keep_headers(hs, false)
}

/// Builds the outbound request for an inbound one: routes the host with the
/// configuration text, then checks the method. Method and body are carried over
/// unchanged.
pub fn prepare_forward(
    source: Option<&str>,
    host: &str,
    method: String,
    path_and_query: &str,
    headers: &Vec<Header>,
    body: Vec<u8>,
) -> (r: Result<OutboundRequest, ProxyError>)
    ensures
        match route_model(opt_str_view(source), host@) {
            Err(e) => r == Err::<OutboundRequest, ProxyError>(e),
            Ok(d) => if !method_accepted(method@) {
                r == Err::<OutboundRequest, ProxyError>(ProxyError::InvalidMethod)
            } else {
                &&& r is Ok
                &&& r.unwrap().method@ == method@
                &&& r.unwrap().url@ == "http://"@ + d + path_and_query@
                &&& headers_view(r.unwrap().headers@) == headers_view(headers@).filter(
                    |h: HeaderModel| outbound_ok(h),
                )
                &&& r.unwrap().body@ == body@
            },
        },
{
    let destination = match route(source, host) {
        Ok(d) => d,
        Err(e) => {
            return Err(e);
        },
    };
    let url = target_url(destination.as_str(), path_and_query);
    if !method_check(method.as_str()) {
        return Err(ProxyError::InvalidMethod);
    }
    let headers = relay_outbound_headers(headers);
    Ok(OutboundRequest { method, url, headers, body })
}

/// The status to relay for an upstream response code.
pub fn upstream_status(code: u16) -> (r: Result<u16, ProxyError>)
    ensures
        100 <= code < 1000 ==> r == Ok::<u16, ProxyError>(code),
        !(100 <= code < 1000) ==> r == Err::<u16, ProxyError>(ProxyError::InvalidStatus),
{
    if status_check(code) {
        Ok(code)
    } else {
        Err(ProxyError::InvalidStatus)
    }
}


/// A host that no `use_backend` rule of the configuration text names is answered
/// by the proxy itself with a server error: no request is sent upstream.
pub proof fn lemma_unmatched_host_is_refused(source: Seq<char>, host: Seq<char>)
    requires
        forall|m: int|
            0 <= m < tokenize(source).len() ==> !rule_matches(#[trigger] tokenize(source)[m], host),
    ensures
        route_model(Some(source), host) is Err,
        route_model(Some(source), host)->Err_0.spec_status() == 500,
{
    lemma_unmatched_host_has_no_route(tokenize(source), host);
}

} // verus!
