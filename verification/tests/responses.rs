//! Tests for response construction: the file, directory, not-found
//! and blocked outcomes, and the end-to-end example.

use simple_http::request::{HttpRequest, Version};
use simple_http::response::{AcceptRanges, DirEntry, HttpResponse, ResponseStatus, Target};

fn count_occurrences(haystack: &str, needle: &str) -> usize {
    let mut count = 0;
    let mut rest = haystack;
    while let Some(i) = rest.find(needle) {
        count += 1;
        rest = &rest[i + needle.len()..];
    }
    count
}

#[test]
fn end_to_end_file_request() {
    let req = HttpRequest::new("GET /readme.txt HTTP/1.1\r\nHost: x\r\n\r\n").unwrap();
    let resp = req.response(Target::FileContent(b"hello".to_vec()));
    assert_eq!(resp.status, ResponseStatus::OK);
    assert_eq!(resp.content_length, 5);
    assert_eq!(resp.response_body, b"hello".to_vec());
    assert_eq!(resp.content_type, "text/plain");
    assert_eq!(resp.accept_ranges, AcceptRanges::Bytes);
    assert_eq!(resp.version, Version::V1_1);
    assert_eq!(resp.current_path, "readme.txt");
}

#[test]
fn file_content_type_uses_resolved_name() {
    let req = HttpRequest::new("GET /a/../data.bin HTTP/1.1\r\n\r\n").unwrap();
    let resp = req.response(Target::FileContent(b"xyz".to_vec()));
    assert_eq!(resp.status, ResponseStatus::OK);
    assert_eq!(resp.content_type, "application/octet-stream");
}

#[test]
fn not_found_names_the_requested_path() {
    let req = HttpRequest::new("GET /nope.txt HTTP/1.1\r\n\r\n").unwrap();
    let resp = req.response(Target::Missing);
    assert_eq!(resp.status, ResponseStatus::NotFound);
    assert_eq!(resp.content_type, "text/html");
    let body = String::from_utf8(resp.response_body.clone()).unwrap();
    assert!(body.contains("nope.txt"));
    assert!(body.contains("404 Not Found"));
    assert_eq!(resp.content_length, resp.response_body.len());
    assert_eq!(resp.accept_ranges, AcceptRanges::Absent);
}

#[test]
fn traversal_is_blocked_whatever_the_target_says() {
    let req = HttpRequest::new("GET /../secret HTTP/1.1\r\n\r\n").unwrap();
    let resp = req.response(Target::FileContent(b"leaked".to_vec()));
    assert_eq!(resp.status, ResponseStatus::NotFound);
    assert_eq!(resp.content_length, 0);
    assert!(resp.response_body.is_empty());
    assert_eq!(resp.content_type, "text/plain");
    assert_eq!(resp.accept_ranges, AcceptRanges::Absent);
}

#[test]
fn encoded_traversal_is_blocked_too() {
    let req = HttpRequest::new("GET /%2e%2e/secret HTTP/1.1\r\n\r\n").unwrap();
    let resp = req.response(Target::FileContent(b"leaked".to_vec()));
    assert_eq!(resp.status, ResponseStatus::NotFound);
    assert_eq!(resp.content_length, 0);
}

#[test]
fn directory_listing_has_one_link_per_child() {
    let req = HttpRequest::new("GET /dir HTTP/1.1\r\n\r\n").unwrap();
    let entries = vec![
        DirEntry { name: "a.txt".to_string(), is_dir: false },
        DirEntry { name: "sub".to_string(), is_dir: true },
    ];
    let resp = req.response(Target::Directory(entries));
    assert_eq!(resp.status, ResponseStatus::OK);
    assert_eq!(resp.content_type, "text/html");
    let body = String::from_utf8(resp.response_body.clone()).unwrap();
    assert_eq!(count_occurrences(&body, "<div><a href=\"/dir/a.txt\">a.txt</a></div>"), 1);
    assert_eq!(count_occurrences(&body, "<div><a href=\"/dir/sub\">sub/</a></div>"), 1);
    assert_eq!(count_occurrences(&body, "<div>"), 2);
    // Two child links plus the go-up link, nothing else.
    assert_eq!(count_occurrences(&body, "<a href"), 3);
    assert!(body.contains("<h1>Currently in dir</h1>"));
    assert!(body.contains("Go back up a directory"));
    assert_eq!(resp.content_length, resp.response_body.len());
}

#[test]
fn directory_listing_encodes_child_names_in_hrefs() {
    let req = HttpRequest::new("GET /dir HTTP/1.1\r\n\r\n").unwrap();
    let entries = vec![DirEntry { name: "a b".to_string(), is_dir: false }];
    let resp = req.response(Target::Directory(entries));
    let body = String::from_utf8(resp.response_body.clone()).unwrap();
    assert!(body.contains("<div><a href=\"/dir/a%20b\">a b</a></div>"));
}

#[test]
fn directory_go_up_link_drops_the_last_segment() {
    let req = HttpRequest::new("GET /a/b HTTP/1.1\r\n\r\n").unwrap();
    let resp = req.response(Target::Directory(Vec::new()));
    let body = String::from_utf8(resp.response_body.clone()).unwrap();
    assert!(body.contains("<a href=\"/a\">Go back up a directory</a>"));
}

#[test]
fn empty_directory_lists_no_children() {
    let req = HttpRequest::new("GET /dir HTTP/1.1\r\n\r\n").unwrap();
    let resp = req.response(Target::Directory(Vec::new()));
    let body = String::from_utf8(resp.response_body.clone()).unwrap();
    assert_eq!(count_occurrences(&body, "<div>"), 0);
}

#[test]
fn build_is_idempotent() {
    let raw = "GET /dir HTTP/1.1\r\nHost: x\r\n\r\n";
    let make = || {
        let req = HttpRequest::new(raw).unwrap();
        let entries = vec![
            DirEntry { name: "a.txt".to_string(), is_dir: false },
            DirEntry { name: "sub".to_string(), is_dir: true },
        ];
        req.response(Target::Directory(entries))
    };
    let first = make();
    let second = make();
    assert_eq!(first.response_body, second.response_body);
    assert_eq!(first.status, second.status);
    assert_eq!(first.content_length, second.content_length);
    assert_eq!(first.content_type, second.content_type);
}

#[test]
fn content_length_always_matches_body() {
    let cases: Vec<(&str, Target)> = vec![
        ("GET /readme.txt HTTP/1.1\r\n\r\n", Target::FileContent(b"hello".to_vec())),
        ("GET /nope HTTP/1.1\r\n\r\n", Target::Missing),
        ("GET /../x HTTP/1.1\r\n\r\n", Target::Missing),
        (
            "GET /d HTTP/1.1\r\n\r\n",
            Target::Directory(vec![DirEntry { name: "x".to_string(), is_dir: false }]),
        ),
    ];
    for (raw, target) in cases {
        let req = HttpRequest::new(raw).unwrap();
        let resp = req.response(target);
        assert_eq!(resp.content_length, resp.response_body.len());
    }
}

#[test]
fn direct_construction_matches_request_method() {
    let req = HttpRequest::new("GET /x HTTP/1.1\r\n\r\n").unwrap();
    let via_new = HttpResponse::new(&req, Target::Missing);
    let via_method = req.response(Target::Missing);
    assert_eq!(via_new.response_body, via_method.response_body);
}

#[test]
fn status_text_values() {
    assert_eq!(ResponseStatus::OK.text(), "200 OK");
    assert_eq!(ResponseStatus::NotFound.text(), "404 Not Found");
}

#[test]
fn accept_ranges_text_values() {
    assert_eq!(AcceptRanges::Bytes.text(), "Accept-Ranges: bytes");
    assert_eq!(AcceptRanges::Absent.text(), "Accept-Ranges: none");
}

#[test]
fn version_text_values() {
    assert_eq!(Version::V1_0.text(), "HTTP/1.0");
    assert_eq!(Version::V1_1.text(), "HTTP/1.1");
    assert_eq!(Version::V2_0.text(), "HTTP/2");
}
