//! Tests for request parsing: method, resource, version, headers and
//! body.

use simple_http::request::{HttpHeader, HttpRequest, Method, Resource, Version};

#[test]
fn method_get() {
    assert_eq!(Method::new("GET / HTTP/1.1\r\n"), Method::Get);
}

#[test]
fn method_post() {
    assert_eq!(Method::new("POST /x HTTP/1.1\r\n"), Method::Post);
}

#[test]
fn method_unknown_token() {
    assert_eq!(Method::new("PATCH /x HTTP/1.1\r\n"), Method::Uninitialized);
}

#[test]
fn method_without_request_line() {
    assert_eq!(Method::new("no carriage return here"), Method::Uninitialized);
}

#[test]
fn resource_plain() {
    let r = Resource::new("GET /readme.txt HTTP/1.1\r\nHost: x\r\n\r\n").unwrap();
    assert_eq!(r.path, "readme.txt");
}

#[test]
fn resource_strips_all_leading_slashes() {
    let r = Resource::new("GET ///a/b HTTP/1.1\r\n").unwrap();
    assert_eq!(r.path, "a/b");
}

#[test]
fn resource_missing_second_field() {
    assert!(Resource::new("GET /only-one-field\r\n").is_none());
}

#[test]
fn version_http_1_0() {
    assert_eq!(Version::new("GET / HTTP/1.0\r\n").unwrap(), Version::V1_0);
}

#[test]
fn version_http_1_1() {
    assert_eq!(Version::new("GET / HTTP/1.1\r\n").unwrap(), Version::V1_1);
}

#[test]
fn version_http_2() {
    assert_eq!(Version::new("GET / HTTP/2\r\n").unwrap(), Version::V2_0);
    assert_eq!(Version::new("GET / HTTP/2.0\r\n").unwrap(), Version::V2_0);
}

#[test]
fn version_rejected_when_no_token_matches() {
    let r = Version::new("GET / HTTP/9.9\r\nHost: x\r\n\r\n");
    assert!(r.is_err());
    let msg = r.err().unwrap();
    assert!(msg.message().starts_with("Unknown protocol version in GET / HTTP/9.9"));
}

#[test]
fn version_not_a_whole_token_is_rejected() {
    // "xHTTP/1.1" is one token and matches nothing.
    assert!(Version::new("GET / xHTTP/1.1\r\n").is_err());
}

#[test]
fn version_rejected_without_request_line() {
    assert!(Version::new("GET / HTTP/1.1").is_err());
}

#[test]
fn headers_parsed_and_trimmed() {
    let h = HttpHeader::new("GET / HTTP/1.1\r\nHost: example\r\nA:  b \r\n\r\nbody").unwrap();
    assert_eq!(h.headers.len(), 2);
    assert_eq!(h.headers[0], ("Host".to_string(), "example".to_string()));
    assert_eq!(h.headers[1], ("A".to_string(), "b".to_string()));
}

#[test]
fn headers_stop_at_blank_line() {
    let h = HttpHeader::new("GET / HTTP/1.1\r\nHost: x\r\n\r\nno colon line").unwrap();
    assert_eq!(h.headers.len(), 1);
}

#[test]
fn headers_without_colon_become_absent() {
    assert!(HttpHeader::new("GET / HTTP/1.1\r\nbroken line\r\n\r\n").is_none());
}

#[test]
fn header_lookup_last_duplicate_wins() {
    let h = HttpHeader::new("GET / HTTP/1.1\r\nA: first\r\nB: only\r\nA: second\r\n\r\n").unwrap();
    assert_eq!(h.get("A"), Some(&"second".to_string()));
    assert_eq!(h.get("B"), Some(&"only".to_string()));
    assert_eq!(h.get("C"), None);
}

#[test]
fn request_assembles_all_parts() {
    let req = HttpRequest::new("POST /a/b HTTP/1.1\r\nHost: x\r\n\r\npayload").unwrap();
    assert_eq!(req.method, Method::Post);
    assert_eq!(req.resource.path, "a/b");
    assert_eq!(req.version, Version::V1_1);
    assert_eq!(req.headers.headers.len(), 1);
    assert_eq!(req.request_body, "payload");
}

#[test]
fn request_body_empty_without_separator() {
    let req = HttpRequest::new("GET /a HTTP/1.1\r\nHost: x\r\n").unwrap();
    assert_eq!(req.request_body, "");
}

#[test]
fn request_fails_only_on_version() {
    let r = HttpRequest::new("GET /a HTTP/0.9\r\n\r\n");
    assert!(r.is_err());
    let ok = HttpRequest::new("?? ?? HTTP/1.1\r\n\r\n").unwrap();
    assert_eq!(ok.method, Method::Uninitialized);
}
