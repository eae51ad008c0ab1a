//! Tests for path resolution: percent-decoding, normalization, and
//! traversal containment.

use simple_http::resolve::Resolution;

fn within(requested: &str) -> Vec<String> {
    match Resolution::new(requested) {
        Resolution::Within(v) => v,
        Resolution::Blocked => panic!("unexpectedly blocked: {}", requested),
    }
}

fn blocked(requested: &str) -> bool {
    matches!(Resolution::new(requested), Resolution::Blocked)
}

#[test]
fn plain_path_resolves() {
    assert_eq!(within("a/b/c.txt"), vec!["a", "b", "c.txt"]);
}

#[test]
fn empty_path_resolves_to_root() {
    assert_eq!(within(""), Vec::<String>::new());
}

#[test]
fn dot_and_empty_segments_are_skipped() {
    assert_eq!(within("a/./b//c/"), vec!["a", "b", "c"]);
}

#[test]
fn dotdot_pops_a_segment() {
    assert_eq!(within("a/b/../c"), vec!["a", "c"]);
}

#[test]
fn escape_above_root_is_blocked() {
    assert!(blocked(".."));
    assert!(blocked("../x"));
    assert!(blocked("a/../../x"));
}

#[test]
fn escape_is_blocked_even_when_balanced_later() {
    // The walk dips above the root before coming back down.
    assert!(blocked("../a/b"));
}

#[test]
fn encoded_traversal_is_blocked() {
    assert!(blocked("%2e%2e%2fx"));
    assert!(blocked("a/%2E%2E/%2e%2e/x"));
}

#[test]
fn percent_decoding_applies_before_resolution() {
    assert_eq!(within("a%20b/c"), vec!["a b", "c"]);
    assert_eq!(within("caf%C3%A9"), vec!["café"]);
}

#[test]
fn stray_percent_passes_through() {
    assert_eq!(within("100%"), vec!["100%"]);
}
