//! Content classification: a MIME type for a file, determined first by
//! sniffing the leading bytes for known signatures, then by a
//! safe-text extension allow-list, and finally by a generic binary
//! fallback.

use vstd::prelude::*;

use crate::text::{find_last, rfind_char, str_eq};

verus! {

/// The MIME type that signature sniffing yields on given file bytes,
/// if the bytes match a known signature.
pub uninterp spec fn sniffed_mime(b: Seq<u8>) -> Option<Seq<char>>;

/// Relies on `infer::get` and `infer::Type::mime_type`: the matched
/// type, and so its MIME string, is a function of the file bytes
/// alone.
#[verifier::external_body]
fn sniff_mime(bytes: &Vec<u8>) -> (r: Option<String>)
    ensures
        (match sniffed_mime(bytes@) {
            Some(m) => r matches Some(s) && s@ == m,
            None => r is None,
        }),
{
    match infer::get(bytes.as_slice()) {
        Some(t) => Some(t.mime_type().to_string()),
        None => None,
    }
}

/// The extension of a file name: what follows its last `.`, unless the
/// name starts with that dot.
pub open spec fn extension_spec(name: Seq<char>) -> Option<Seq<char>> {
    match find_last(name, '.') {
        None => None,
        Some(j) => if j == 0 {
            None
        } else {
            Some(name.subrange(j + 1, name.len() as int))
        },
    }
}

/// An extension of the safe-text allow-list.
pub open spec fn is_text_ext(ext: Seq<char>) -> bool {
    ||| ext == "txt"@
    ||| ext == "rs"@
    ||| ext == "lock"@
    ||| ext == "png"@
    ||| ext == "json"@
    ||| ext == "TAG"@
    ||| ext == "toml"@
    ||| ext == "md"@
}

/// The MIME type of a file with the given bytes and name: the sniffed
/// type when the bytes match a known signature, else `text/plain` for
/// an allow-listed extension, else `application/octet-stream`.
pub open spec fn classify_spec(b: Seq<u8>, name: Seq<char>) -> Seq<char> {
    match sniffed_mime(b) {
        Some(m) => m,
        None => if (match extension_spec(name) {
            Some(e) => is_text_ext(e),
            None => false,
        }) {
            "text/plain"@
        } else {
            "application/octet-stream"@
        },
    }
}

/// Whether the file name carries an allow-listed text extension.
fn extension_is_text(name: &str) -> (r: bool)
    ensures
        r == (match extension_spec(name@) {
            Some(e) => is_text_ext(e),
            None => false,
        }),
{
    let n = name.unicode_len();
    let j = match rfind_char(name, '.') {
        None => {
            return false;
        },
        Some(j) => j,
    };
    if j == 0 {
        return false;
    }
    let ext = name.substring_char(j + 1, n);
    str_eq(ext, "txt") || str_eq(ext, "rs") || str_eq(ext, "lock") || str_eq(ext, "png") || str_eq(
        ext,
        "json",
    ) || str_eq(ext, "TAG") || str_eq(ext, "toml") || str_eq(ext, "md")
}

/// Determines the MIME type for a file with the given bytes and name.
pub fn classify(bytes: &Vec<u8>, name: &str) -> (r: String)
    ensures
        r@ == classify_spec(bytes@, name@),
{
    match sniff_mime(bytes) {
        Some(m) => m,
        None => {
            if extension_is_text(name) {
                String::from_str("text/plain")
            } else {
                String::from_str("application/octet-stream")
            }
        },
    }
}

/// Classifier priority: bytes that match a known signature are
/// classified by their sniffed type, never by the extension fallback,
/// whatever the file name says.
pub proof fn lemma_sniff_priority(b: Seq<u8>, name: Seq<char>)
    ensures
        (match sniffed_mime(b) {
            Some(m) => classify_spec(b, name) == m,
            None => true,
        }),
{
}

} // verus!
