//! Tests for content classification: sniffing priority, the safe-text
//! extension allow-list, and the binary fallback.

use simple_http::classify::classify;

const PNG_HEADER: [u8; 12] = [0x89, 0x50, 0x4E, 0x47, 0x0D, 0x0A, 0x1A, 0x0A, 0, 0, 0, 0];

#[test]
fn sniffed_signature_beats_txt_extension() {
    let bytes: Vec<u8> = PNG_HEADER.to_vec();
    assert_eq!(classify(&bytes, "picture.txt"), "image/png");
}

#[test]
fn sniffed_signature_beats_unknown_extension() {
    let bytes: Vec<u8> = PNG_HEADER.to_vec();
    assert_eq!(classify(&bytes, "picture.weird"), "image/png");
}

#[test]
fn text_extensions_fall_back_to_plain_text() {
    let bytes: Vec<u8> = b"hello".to_vec();
    for name in ["a.txt", "a.rs", "a.lock", "a.png", "a.json", "a.TAG", "a.toml", "a.md"] {
        assert_eq!(classify(&bytes, name), "text/plain", "for {}", name);
    }
}

#[test]
fn unknown_extension_falls_back_to_octet_stream() {
    let bytes: Vec<u8> = b"hello".to_vec();
    assert_eq!(classify(&bytes, "a.bin"), "application/octet-stream");
}

#[test]
fn extensionless_name_falls_back_to_octet_stream() {
    let bytes: Vec<u8> = b"hello".to_vec();
    assert_eq!(classify(&bytes, "Makefile"), "application/octet-stream");
}

#[test]
fn hidden_file_has_no_extension() {
    let bytes: Vec<u8> = b"hello".to_vec();
    assert_eq!(classify(&bytes, ".txt"), "application/octet-stream");
}

#[test]
fn last_dot_decides_the_extension() {
    let bytes: Vec<u8> = b"hello".to_vec();
    assert_eq!(classify(&bytes, "a.tar.md"), "text/plain");
    assert_eq!(classify(&bytes, "a.md.tar"), "application/octet-stream");
}
