//! Parsing of a raw HTTP/1.x request: method, resource path, protocol
//! version, headers and body, each with an exact specification over the
//! request text.
//!
//! Malformed input degrades to sentinel values everywhere except the
//! protocol version, whose absence is a hard error.

use vstd::prelude::*;

use crate::text::{find_str, spec_find, str_eq};

verus! {

/// The HTTP method named on the request line.
#[derive(Debug, Clone, Copy, PartialEq, Eq, Structural)]
pub enum Method {
    Get,
    Post,
    Uninitialized,
}

/// The protocol version named on the request line.
#[derive(Debug, Clone, Copy, PartialEq, Eq, Structural)]
pub enum Version {
    V1_0,
    V1_1,
    V2_0,
}

impl Version {
    /// The wire text of this version.
    pub fn text(&self) -> (r: &'static str)
        ensures
            *self == Version::V1_0 ==> r@ == "HTTP/1.0"@,
            *self == Version::V1_1 ==> r@ == "HTTP/1.1"@,
            *self == Version::V2_0 ==> r@ == "HTTP/2"@,
    {
        match self {
            Version::V1_0 => "HTTP/1.0",
            Version::V1_1 => "HTTP/1.1",
            Version::V2_0 => "HTTP/2",
        }
    }
}

/// The request line: everything before the first `\r\n`, if any.
pub open spec fn request_line(s: Seq<char>) -> Option<Seq<char>> {
    match spec_find(s, "\r\n"@, 0) {
        Some(i) => Some(s.subrange(0, i)),
        None => None,
    }
}

/// The method parsed from a raw request: the token before the first
/// space of the request line; anything unrecognized, or the absence of
/// a request line, degrades to `Uninitialized`.
pub open spec fn parsed_method(s: Seq<char>) -> Method {
    match request_line(s) {
        None => Method::Uninitialized,
        Some(line) => match spec_find(line, " "@, 0) {
            None => Method::Uninitialized,
            Some(j) => {
                let tok = line.subrange(0, j);
                if tok == "GET"@ {
                    Method::Get
                } else if tok == "POST"@ {
                    Method::Post
                } else {
                    Method::Uninitialized
                }
            },
        },
    }
}

impl Method {
    /// Parses the method from the raw request text.
    pub fn new(request: &str) -> (m: Method)
        ensures
            m == parsed_method(request@),
    {
        proof {
            reveal_strlit("\r\n");
            reveal_strlit(" ");
        }
        match find_str(request, "\r\n") {
            None => Method::Uninitialized,
            Some(i) => {
                let line = request.substring_char(0, i);
                match find_str(line, " ") {
                    None => Method::Uninitialized,
                    Some(j) => {
                        let tok = line.substring_char(0, j);
                        if str_eq(tok, "GET") {
                            Method::Get
                        } else if str_eq(tok, "POST") {
                            Method::Post
                        } else {
                            Method::Uninitialized
                        }
                    },
                }
            },
        }
    }
}

/// An ASCII whitespace character, the separator between request-line
/// tokens.
pub open spec fn is_ascii_ws(c: char) -> bool {
    c == ' ' || c == '\t' || c == '\n' || c == '\x0C' || c == '\r'
}

/// Whether `tok` stands at position `i` of `line` as a whole
/// whitespace-delimited token.
pub open spec fn token_matches(line: Seq<char>, i: int, tok: Seq<char>) -> bool {
    &&& 0 <= i
    &&& i + tok.len() <= line.len()
    &&& line.subrange(i, i + tok.len() as int) == tok
    &&& (i == 0 || is_ascii_ws(line[i - 1]))
    &&& (i + tok.len() == line.len() || is_ascii_ws(line[i + tok.len()]))
}

/// The version token standing at position `i` of the request line, if
/// any.
pub open spec fn version_at(line: Seq<char>, i: int) -> Option<Version> {
    if token_matches(line, i, "HTTP/1.0"@) {
        Some(Version::V1_0)
    } else if token_matches(line, i, "HTTP/1.1"@) {
        Some(Version::V1_1)
    } else if token_matches(line, i, "HTTP/2"@) || token_matches(line, i, "HTTP/2.0"@) {
        Some(Version::V2_0)
    } else {
        None
    }
}

/// Scans the request line left to right for a version token; the first
/// match wins.
pub open spec fn scan_version(line: Seq<char>, i: int) -> Option<Version>
    decreases line.len() - i + 1,
{
    if i < 0 || i >= line.len() {
        None
    } else {
        match version_at(line, i) {
            Some(v) => Some(v),
            None => scan_version(line, i + 1),
        }
    }
}

/// The version parsed from a raw request, `None` when no recognizable
/// version token appears on the request line.
pub open spec fn parsed_version(s: Seq<char>) -> Option<Version> {
    match request_line(s) {
        None => None,
        Some(line) => scan_version(line, 0),
    }
}

proof fn lemma_scan_none(line: Seq<char>, i: int)
    requires
        0 <= i,
    ensures
        (scan_version(line, i) is None) <==> (forall|k: int|
            i <= k < line.len() ==> #[trigger] version_at(line, k) is None),
    decreases line.len() - i + 1,
{
    if i < line.len() && version_at(line, i) is None {
        lemma_scan_none(line, i + 1);
    }
}

/// Version rejection: parsing the version fails exactly when no
/// position of the request line carries a whole-token match of
/// `HTTP/1.0`, `HTTP/1.1`, `HTTP/2` or `HTTP/2.0` — a request without
/// one gets no default-version fallback.
pub proof fn lemma_version_rejection(s: Seq<char>)
    ensures
        (parsed_version(s) is None) <==> (match request_line(s) {
            None => true,
            Some(line) => forall|k: int| 0 <= k < line.len() ==> #[trigger] version_at(line, k) is None,
        }),
{
    match request_line(s) {
        Some(line) => lemma_scan_none(line, 0),
        None => {},
    }
}

/// The error returned when no recognizable protocol version appears on
/// the request line.
#[derive(Debug)]
pub struct VersionError {
    msg: String,
}

impl View for VersionError {
    type V = Seq<char>;

    closed spec fn view(&self) -> Seq<char> {
        self.msg@
    }
}

impl VersionError {
    /// The human-readable description carried by this error.
    pub fn message(&self) -> (r: &str)
        ensures
            r@ == self@,
    {
        self.msg.as_str()
    }
}

/// Checks whether `tok` stands at position `i` of `line` as a whole
/// token.
fn token_match_at(line: &str, n: usize, i: usize, tok: &str) -> (r: bool)
    requires
        n == line@.len(),
        i < n,
        tok@.len() >= 1,
    ensures
        r == token_matches(line@, i as int, tok@),
{
    let m = tok.unicode_len();
    if m > n || i > n - m {
        return false;
    }
    if i > 0 && !char_is_ascii_ws(line.get_char(i - 1)) {
        return false;
    }
    if i + m < n && !char_is_ascii_ws(line.get_char(i + m)) {
        return false;
    }
    let sub = line.substring_char(i, i + m);
    str_eq(sub, tok)
}

/// Whether `c` is an ASCII whitespace character.
fn char_is_ascii_ws(c: char) -> (r: bool)
    ensures
        r == is_ascii_ws(c),
{
    c == ' ' || c == '\t' || c == '\n' || c == '\x0C' || c == '\r'
}

impl Version {
    /// Parses the protocol version from the raw request text; fails
    /// exactly when no recognizable version token appears on the
    /// request line.
    pub fn new(request: &str) -> (r: Result<Version, VersionError>)
        ensures
            r matches Ok(v) ==> parsed_version(request@) == Some(v),
            r matches Err(e) ==> parsed_version(request@) is None && e@ == "Unknown protocol version in "@
                + request@,
    {
        proof {
            reveal_strlit("\r\n");
        }
        match find_str(request, "\r\n") {
            None => Err(Self::version_error(request)),
            Some(idx) => {
                let line = request.substring_char(0, idx);
                let n = line.unicode_len();
                let mut i: usize = 0;
                while i < n
                    invariant
                        0 <= i <= n,
                        n == line@.len(),
                        request_line(request@) == Some(line@),
                        scan_version(line@, 0) == scan_version(line@, i as int),
                    decreases n - i,
                {
                    proof {
                        reveal_strlit("HTTP/1.0");
                        reveal_strlit("HTTP/1.1");
                        reveal_strlit("HTTP/2");
                        reveal_strlit("HTTP/2.0");
                    }
                    if token_match_at(line, n, i, "HTTP/1.0") {
                        return Ok(Version::V1_0);
                    }
                    if token_match_at(line, n, i, "HTTP/1.1") {
                        return Ok(Version::V1_1);
                    }
                    if token_match_at(line, n, i, "HTTP/2") || token_match_at(line, n, i, "HTTP/2.0") {
                        return Ok(Version::V2_0);
                    }
                    i = i + 1;
                }
                Err(Self::version_error(request))
            },
        }
    }

    /// Builds the error naming the request whose version was not
    /// recognized.
    fn version_error(request: &str) -> (e: VersionError)
        ensures
            e@ == "Unknown protocol version in "@ + request@,
    {
        let mut msg = String::from_str("Unknown protocol version in ");
        msg.append(request);
        VersionError { msg }
    }
}

/// A resource path with all leading `/` characters removed.
pub open spec fn strip_slashes(s: Seq<char>) -> Seq<char>
    decreases s.len(),
{
    if s.len() > 0 && s[0] == '/' {
        strip_slashes(s.drop_first())
    } else {
        s
    }
}

/// The resource path parsed from a raw request: the token between the
/// first and second spaces of the request line, with leading slashes
/// stripped; `None` when the request line lacks a second
/// space-delimited field.
pub open spec fn parsed_resource(s: Seq<char>) -> Option<Seq<char>> {
    match request_line(s) {
        None => None,
        Some(line) => match spec_find(line, " "@, 0) {
            None => None,
            Some(j) => {
                let rest = line.subrange(j + 1, line.len() as int);
                match spec_find(rest, " "@, 0) {
                    None => None,
                    Some(k) => Some(strip_slashes(rest.subrange(0, k))),
                }
            },
        },
    }
}

/// The requested resource: a root-relative path without a leading
/// slash.
#[derive(Debug)]
pub struct Resource {
    pub path: String,
}

impl Resource {
    /// Parses the resource path from the raw request text.
    pub fn new(request: &str) -> (r: Option<Resource>)
        ensures
            r matches Some(res) ==> parsed_resource(request@) == Some(res.path@),
            r is None ==> parsed_resource(request@) is None,
    {
        proof {
            reveal_strlit("\r\n");
            reveal_strlit(" ");
        }
        let idx = match find_str(request, "\r\n") {
            None => {
                return None;
            },
            Some(i) => i,
        };
        let line = request.substring_char(0, idx);
        let j = match find_str(line, " ") {
            None => {
                return None;
            },
            Some(j) => j,
        };
        let rest = line.substring_char(j + 1, line.unicode_len());
        let k = match find_str(rest, " ") {
            None => {
                return None;
            },
            Some(k) => k,
        };
        let raw = rest.substring_char(0, k);
        let m = raw.unicode_len();
        proof {
            assert(raw@.subrange(0, m as int) =~= raw@);
        }
        let mut a: usize = 0;
        while a < m && raw.get_char(a) == '/'
            invariant
                0 <= a <= m,
                m == raw@.len(),
                strip_slashes(raw@) == strip_slashes(raw@.subrange(a as int, m as int)),
            decreases m - a,
        {
            proof {
                let tail = raw@.subrange(a as int, m as int);
                assert(tail.drop_first() =~= raw@.subrange(a + 1, m as int));
            }
            a = a + 1;
        }
        proof {
            let tail = raw@.subrange(a as int, m as int);
            assert(strip_slashes(tail) == tail);
        }
        let stripped = raw.substring_char(a, m);
        Some(Resource { path: String::from_str(stripped) })
    }
}

/// A Unicode whitespace character, as surrounding-whitespace trimming
/// understands it.
pub open spec fn is_ws_char(c: char) -> bool {
    ||| c == ' '
    ||| c == '\t'
    ||| c == '\n'
    ||| c == '\x0B'
    ||| c == '\x0C'
    ||| c == '\r'
    ||| c == '\u{85}'
    ||| c == '\u{A0}'
    ||| c == '\u{1680}'
    ||| (0x2000 <= c as int && c as int <= 0x200A)
    ||| c == '\u{2028}'
    ||| c == '\u{2029}'
    ||| c == '\u{202F}'
    ||| c == '\u{205F}'
    ||| c == '\u{3000}'
}

/// Whether `c` is a Unicode whitespace character.
fn char_is_ws(c: char) -> (r: bool)
    ensures
        r == is_ws_char(c),
{
    let u = c as u32;
    u == 0x20 || (0x09 <= u && u <= 0x0D) || u == 0x85 || u == 0xA0 || u == 0x1680 || (0x2000 <= u
        && u <= 0x200A) || u == 0x2028 || u == 0x2029 || u == 0x202F || u == 0x205F || u == 0x3000
}

/// `s` with leading whitespace removed.
pub open spec fn trim_start_spec(s: Seq<char>) -> Seq<char>
    decreases s.len(),
{
    if s.len() > 0 && is_ws_char(s[0]) {
        trim_start_spec(s.drop_first())
    } else {
        s
    }
}

/// `s` with trailing whitespace removed.
pub open spec fn trim_end_spec(s: Seq<char>) -> Seq<char>
    decreases s.len(),
{
    if s.len() > 0 && is_ws_char(s.last()) {
        trim_end_spec(s.drop_last())
    } else {
        s
    }
}

/// `s` with surrounding whitespace removed.
pub open spec fn trim_spec(s: Seq<char>) -> Seq<char> {
    trim_end_spec(trim_start_spec(s))
}

/// Removes surrounding whitespace from `s`.
pub fn trim_str<'a>(s: &'a str) -> (r: &'a str)
    ensures
        r@ == trim_spec(s@),
{
    let n = s.unicode_len();
    proof {
        assert(s@.subrange(0, n as int) =~= s@);
    }
    let mut a: usize = 0;
    while a < n && char_is_ws(s.get_char(a))
        invariant
            0 <= a <= n,
            n == s@.len(),
            trim_start_spec(s@) == trim_start_spec(s@.subrange(a as int, n as int)),
        decreases n - a,
    {
        proof {
            let tail = s@.subrange(a as int, n as int);
            assert(tail.drop_first() =~= s@.subrange(a + 1, n as int));
        }
        a = a + 1;
    }
    proof {
        let tail = s@.subrange(a as int, n as int);
        assert(trim_start_spec(tail) == tail);
    }
    let mut b: usize = n;
    while b > a && char_is_ws(s.get_char(b - 1))
        invariant
            0 <= a <= b <= n,
            n == s@.len(),
            trim_start_spec(s@) == s@.subrange(a as int, n as int),
            trim_end_spec(s@.subrange(a as int, n as int)) == trim_end_spec(
                s@.subrange(a as int, b as int),
            ),
        decreases b,
    {
        proof {
            let cur = s@.subrange(a as int, b as int);
            assert(cur.last() == s@[b - 1]);
            assert(cur.drop_last() =~= s@.subrange(a as int, b - 1));
        }
        b = b - 1;
    }
    proof {
        let cur = s@.subrange(a as int, b as int);
        assert(trim_end_spec(cur) == cur);
    }
    s.substring_char(a, b)
}

/// A header line split at its first `:`, both sides trimmed; `None`
/// for a line without a colon.
pub open spec fn header_pair(line: Seq<char>) -> Option<(Seq<char>, Seq<char>)> {
    match spec_find(line, ":"@, 0) {
        None => None,
        Some(j) => Some(
            (trim_spec(line.subrange(0, j)), trim_spec(line.subrange(j + 1, line.len() as int))),
        ),
    }
}

/// The header pairs read from the text after the request line:
/// `\r\n`-separated lines up to the first empty line, each split at its
/// first `:`; a colon-less line before that point makes the whole block
/// `None`.
pub open spec fn parse_header_lines(s: Seq<char>) -> Option<Seq<(Seq<char>, Seq<char>)>>
    decreases s.len(),
    via parse_header_lines_decreases
{
    if s.len() == 0 {
        Some(Seq::empty())
    } else {
        match spec_find(s, "\r\n"@, 0) {
            None => match header_pair(s) {
                None => None,
                Some(p) => Some(seq![p]),
            },
            Some(i) => {
                if i == 0 {
                    Some(Seq::empty())
                } else {
                    match header_pair(s.subrange(0, i)) {
                        None => None,
                        Some(p) => match parse_header_lines(s.subrange(i + 2, s.len() as int)) {
                            None => None,
                            Some(rest) => Some(seq![p] + rest),
                        },
                    }
                }
            },
        }
    }
}

#[via_fn]
proof fn parse_header_lines_decreases(s: Seq<char>) {
    reveal_strlit("\r\n");
    crate::text::lemma_spec_find(s, "\r\n"@, 0);
}

/// The headers parsed from a raw request: the lines after the first
/// `\r\n`, up to the first empty line; `None` when the request has no
/// `\r\n` or a header line lacks a colon.
pub open spec fn parsed_headers(s: Seq<char>) -> Option<Seq<(Seq<char>, Seq<char>)>> {
    match spec_find(s, "\r\n"@, 0) {
        None => None,
        Some(i) => parse_header_lines(s.subrange(i + 2, s.len() as int)),
    }
}

/// The request headers: name/value pairs in the order received.
#[derive(Debug)]
pub struct HttpHeader {
    pub headers: Vec<(String, String)>,
}

impl View for HttpHeader {
    type V = Seq<(Seq<char>, Seq<char>)>;

    open spec fn view(&self) -> Seq<(Seq<char>, Seq<char>)> {
        self.headers.deep_view()
    }
}

impl HttpHeader {
    /// Parses the header block from the raw request text.
    pub fn new(request: &str) -> (r: Option<HttpHeader>)
        ensures
            r matches Some(h) ==> parsed_headers(request@) == Some(h@),
            r is None ==> parsed_headers(request@) is None,
    {
        proof {
            reveal_strlit("\r\n");
        }
        let i = match find_str(request, "\r\n") {
            None => {
                return None;
            },
            Some(i) => i,
        };
        let n = request.unicode_len();
        let block = request.substring_char(i + 2, n);
        match Self::parse_block(block) {
            None => None,
            Some(headers) => Some(HttpHeader { headers }),
        }
    }

    /// Parses `\r\n`-separated header lines up to the first empty line.
    fn parse_block(block: &str) -> (r: Option<Vec<(String, String)>>)
        ensures
            r matches Some(v) ==> parse_header_lines(block@) == Some(v.deep_view()),
            r is None ==> parse_header_lines(block@) is None,
    {
        proof {
            reveal_strlit("\r\n");
            reveal_strlit(":");
        }
        let mut rest: &str = block;
        let mut acc: Vec<(String, String)> = Vec::new();
        loop
            invariant
                (match parse_header_lines(rest@) {
                    Some(tail) => parse_header_lines(block@) == Some(acc.deep_view() + tail),
                    None => parse_header_lines(block@) is None,
                }),
                "\r\n"@.len() == 2,
                ":"@.len() == 1,
            decreases rest@.len(),
        {
            let n = rest.unicode_len();
            if n == 0 {
                proof {
                    assert(acc.deep_view() + Seq::<(Seq<char>, Seq<char>)>::empty() =~= acc.deep_view());
                }
                return Some(acc);
            }
            let (line, next, last): (&str, &str, bool) = match find_str(rest, "\r\n") {
                None => (rest, rest, true),
                Some(i) => {
                    if i == 0 {
                        proof {
                            assert(acc.deep_view() + Seq::<(Seq<char>, Seq<char>)>::empty()
                                =~= acc.deep_view());
                        }
                        return Some(acc);
                    }
                    (rest.substring_char(0, i), rest.substring_char(i + 2, n), false)
                },
            };
            let j = match find_str(line, ":") {
                None => {
                    return None;
                },
                Some(j) => j,
            };
            let name = trim_str(line.substring_char(0, j));
            let value = trim_str(line.substring_char(j + 1, line.unicode_len()));
            let ghost old_acc = acc.deep_view();
            acc.push((String::from_str(name), String::from_str(value)));
            proof {
                assert(acc.deep_view() =~= old_acc.push((name@, value@)));
                assert(old_acc.push((name@, value@)) =~= old_acc + seq![(name@, value@)]);
            }
            if last {
                proof {
                    assert(parse_header_lines(rest@) == Some(seq![(name@, value@)]));
                    assert(old_acc + seq![(name@, value@)] =~= acc.deep_view());
                }
                return Some(acc);
            }
            proof {
                let ghost tail_opt = parse_header_lines(next@);
                match tail_opt {
                    Some(tail) => {
                        assert(acc.deep_view() + tail =~= old_acc + (seq![(name@, value@)] + tail));
                    },
                    None => {},
                }
            }
            rest = next;
        }
    }
}

/// The value a header block maps `name` to: of duplicate header
/// names, the last one received wins.
pub open spec fn header_lookup(h: Seq<(Seq<char>, Seq<char>)>, name: Seq<char>) -> Option<
    Seq<char>,
>
    decreases h.len(),
{
    if h.len() == 0 {
        None
    } else if h.last().0 == name {
        Some(h.last().1)
    } else {
        header_lookup(h.drop_last(), name)
    }
}

impl HttpHeader {
    /// Looks a header up by its name; of duplicate names, the last
    /// one received wins.
    pub fn get(&self, name: &str) -> (r: Option<&String>)
        ensures
            r matches Some(v) ==> header_lookup(self@, name@) == Some(v@),
            r is None ==> header_lookup(self@, name@) is None,
    {
        let n = self.headers.len();
        proof {
            assert(self@.subrange(0, n as int) =~= self@);
        }
        let mut i: usize = n;
        while i > 0
            invariant
                0 <= i <= n,
                n == self.headers.len(),
                header_lookup(self@, name@) == header_lookup(self@.subrange(0, i as int), name@),
            decreases i,
        {
            proof {
                let cur = self@.subrange(0, i as int);
                assert(cur.last() == self@[i - 1]);
                assert(self@[i - 1] == (self.headers@[i - 1].0@, self.headers@[i - 1].1@));
                assert(cur.drop_last() =~= self@.subrange(0, i - 1));
            }
            if str_eq(self.headers[i - 1].0.as_str(), name) {
                return Some(&self.headers[i - 1].1);
            }
            i = i - 1;
        }
        None
    }
}

/// The request body: everything strictly after the first blank-line
/// separator, empty when the separator is absent.
pub open spec fn parsed_body(s: Seq<char>) -> Seq<char> {
    match spec_find(s, "\r\n\r\n"@, 0) {
        None => Seq::empty(),
        Some(i) => s.subrange(i + 4, s.len() as int),
    }
}

/// A structured HTTP request.
#[derive(Debug)]
pub struct HttpRequest {
    pub method: Method,
    pub resource: Resource,
    pub version: Version,
    pub headers: HttpHeader,
    pub request_body: String,
}

impl HttpRequest {
    /// Constructs a structured request from the raw request text.
    ///
    /// Every part of the request degrades to a sentinel value when
    /// malformed; only an unrecognizable protocol version is an error.
    pub fn new(request: &str) -> (r: Result<HttpRequest, VersionError>)
        ensures
            r matches Ok(req) ==> {
                &&& parsed_version(request@) == Some(req.version)
                &&& req.method == parsed_method(request@)
                &&& req.resource.path@ == (match parsed_resource(request@) {
                    Some(p) => p,
                    None => Seq::<char>::empty(),
                })
                &&& req.headers@ == (match parsed_headers(request@) {
                    Some(h) => h,
                    None => Seq::<(Seq<char>, Seq<char>)>::empty(),
                })
                &&& req.request_body@ == parsed_body(request@)
            },
            r matches Err(e) ==> parsed_version(request@) is None && e@
                == "Unknown protocol version in "@ + request@,
    {
        proof {
            reveal_strlit("\r\n\r\n");
        }
        let method = Method::new(request);
        let resource = match Resource::new(request) {
            Some(res) => res,
            None => Resource { path: String::new() },
        };
        let version = match Version::new(request) {
            Ok(v) => v,
            Err(e) => {
                return Err(e);
            },
        };
        let headers = match HttpHeader::new(request) {
            Some(h) => h,
            None => {
                let empty: Vec<(String, String)> = Vec::new();
                proof {
                    assert(empty.deep_view() =~= Seq::<(Seq<char>, Seq<char>)>::empty());
                }
                HttpHeader { headers: empty }
            },
        };
        let request_body = match find_str(request, "\r\n\r\n") {
            None => String::new(),
            Some(i) => {
                let n = request.unicode_len();
                String::from_str(request.substring_char(i + 4, n))
            },
        };
        Ok(
            HttpRequest {
                method,
                resource,
                version,
                headers,
                request_body,
            },
        )
    }
}

} // verus!
