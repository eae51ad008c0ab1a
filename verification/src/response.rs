//! Response construction: the structured response for a request, for
//! the four outcomes — traversal blocked, a regular file, a directory
//! listing, and not found — each pinned down exactly.

use vstd::prelude::*;

use crate::classify::{classify, classify_spec};
use crate::request::{HttpRequest, Version};
use crate::resolve::{decode_percent, normalize_decoded, normalized_path, percent_decoded, Resolution};
use crate::text::{
    count_char,
    find_last,
    lemma_count_char_concat,
    lemma_count_char_split,
    rfind_char,
};
use vstd::utf8::encode_utf8;

verus! {

/// The status code of a response.
#[derive(Debug, Clone, Copy, PartialEq, Eq, Structural)]
pub enum ResponseStatus {
    OK,
    NotFound,
}

impl ResponseStatus {
    /// The status line text for this status.
    pub fn text(&self) -> (r: &'static str)
        ensures
            *self == ResponseStatus::OK ==> r@ == "200 OK"@,
            *self == ResponseStatus::NotFound ==> r@ == "404 Not Found"@,
    {
        match self {
            ResponseStatus::OK => "200 OK",
            ResponseStatus::NotFound => "404 Not Found",
        }
    }
}

/// The advisory `Accept-Ranges` value of a response.
#[derive(Debug, Clone, Copy, PartialEq, Eq, Structural)]
pub enum AcceptRanges {
    Bytes,
    Absent,
}

impl AcceptRanges {
    /// The header text for this value.
    pub fn text(&self) -> (r: &'static str)
        ensures
            *self == AcceptRanges::Bytes ==> r@ == "Accept-Ranges: bytes"@,
            *self == AcceptRanges::Absent ==> r@ == "Accept-Ranges: none"@,
    {
        match self {
            AcceptRanges::Bytes => "Accept-Ranges: bytes",
            AcceptRanges::Absent => "Accept-Ranges: none",
        }
    }
}

/// What the filesystem holds at a resolved path: nothing, a regular
/// file's bytes, or a directory's immediate children.
#[derive(Debug)]
pub enum Target {
    Missing,
    FileContent(Vec<u8>),
    Directory(Vec<DirEntry>),
}

/// One immediate child of a listed directory.
#[derive(Debug)]
pub struct DirEntry {
    pub name: String,
    pub is_dir: bool,
}

impl View for DirEntry {
    type V = (Seq<char>, bool);

    open spec fn view(&self) -> (Seq<char>, bool) {
        (self.name@, self.is_dir)
    }
}

impl DeepView for DirEntry {
    type V = (Seq<char>, bool);

    open spec fn deep_view(&self) -> (Seq<char>, bool) {
        self@
    }
}

/// The mathematical value of a `Target`.
#[verifier::ext_equal]
pub enum TargetView {
    Missing,
    FileContent(Seq<u8>),
    Directory(Seq<(Seq<char>, bool)>),
}

impl View for Target {
    type V = TargetView;

    open spec fn view(&self) -> TargetView {
        match self {
            Target::Missing => TargetView::Missing,
            Target::FileContent(b) => TargetView::FileContent(b@),
            Target::Directory(es) => TargetView::Directory(es.deep_view()),
        }
    }
}

/// A structured HTTP response.
#[derive(Debug)]
pub struct HttpResponse {
    pub version: Version,
    pub status: ResponseStatus,
    pub content_length: usize,
    pub accept_ranges: AcceptRanges,
    pub response_body: Vec<u8>,
    pub current_path: String,
    pub content_type: String,
}

/// The mathematical value of an `HttpResponse`.
#[verifier::ext_equal]
pub struct ResponseView {
    pub version: Version,
    pub status: ResponseStatus,
    pub content_length: int,
    pub accept_ranges: AcceptRanges,
    pub response_body: Seq<u8>,
    pub current_path: Seq<char>,
    pub content_type: Seq<char>,
}

impl View for HttpResponse {
    type V = ResponseView;

    open spec fn view(&self) -> ResponseView {
        ResponseView {
            version: self.version,
            status: self.status,
            content_length: self.content_length as int,
            accept_ranges: self.accept_ranges,
            response_body: self.response_body@,
            current_path: self.current_path@,
            content_type: self.content_type@,
        }
    }
}

/// What percent-encoding for a URI component yields on a given text.
pub uninterp spec fn component_encoded(s: Seq<char>) -> Seq<char>;

/// Relies on `url_escape::encode_component`: the encoding is a
/// function of the text alone; it leaves only ASCII alphanumerics and
/// `-_.!~*'()` unescaped and writes everything else as `%XX` triples,
/// so its result is ASCII and free of `<`, `>`, `"`, `&`, `/` and
/// spaces.
#[verifier::external_body]
fn encode_component_str(s: &str) -> (r: String)
    ensures
        r@ == component_encoded(s@),
        forall|i: int|
            0 <= i < r@.len() ==> (#[trigger] r@[i] as int) < 128 && r@[i] != '<' && r@[i] != '>'
                && r@[i] != '"' && r@[i] != '&' && r@[i] != '/' && r@[i] != ' ',
{
    url_escape::encode_component(s).into_owned()
}

/// The requested path with its last `/`-delimited segment removed: the
/// target of the go-up link of a directory listing.
pub open spec fn parent_of(s: Seq<char>) -> Seq<char> {
    match find_last(s, '/') {
        None => Seq::empty(),
        Some(j) => s.subrange(0, j),
    }
}

/// Removes the last `/`-delimited segment of `s`.
fn parent_dir<'a>(s: &'a str) -> (r: &'a str)
    ensures
        r@ == parent_of(s@),
{
    match rfind_char(s, '/') {
        None => {
            let empty = "";
            proof {
                reveal_strlit("");
                assert(empty@ =~= parent_of(s@));
            }
            empty
        },
        Some(j) => s.substring_char(0, j),
    }
}

/// The fixed error page naming a path that was not found.
pub open spec fn not_found_chars(p: Seq<char>) -> Seq<char> {
    "<html><body><h1>404 Not Found</h1><p>The requested resource <strong>"@ + p
        + "</strong> was not found on this server.</p></body></html>"@
}

/// Builds the error page naming a path that was not found.
fn not_found_page(path: &str) -> (r: String)
    ensures
        r@ == not_found_chars(path@),
{
    let mut s = String::from_str(
        "<html><body><h1>404 Not Found</h1><p>The requested resource <strong>",
    );
    s.append(path);
    s.append("</strong> was not found on this server.</p></body></html>");
    proof {
        assert(s@ =~= not_found_chars(path@));
    }
    s
}

/// The frame of a directory listing up to the go-up link: document
/// head, heading naming the displayed directory, and the link to its
/// parent.
pub open spec fn listing_header(d: Seq<char>) -> Seq<char> {
    "<!DOCTYPE html><html><head><meta charset=\"utf-8\"></head><body>"@ + "<h1>Currently in "@ + d
        + "</h1><a href=\"/"@ + component_encoded(parent_of(d))
        + "\">Go back up a directory</a><br><hr>"@
}

/// The link block for one immediate child: its href carries the
/// displayed directory and the percent-encoded child name, its text
/// the name verbatim, with a trailing slash marking a directory.
pub open spec fn entry_chars(d: Seq<char>, name: Seq<char>, is_dir: bool) -> Seq<char> {
    "<div><a href=\"/"@ + d + "/"@ + component_encoded(name) + "\">"@ + name + (if is_dir {
        "/"@
    } else {
        Seq::<char>::empty()
    }) + "</a></div>"@
}

/// One link block per immediate child, in the order given.
pub open spec fn entries_chars(d: Seq<char>, es: Seq<(Seq<char>, bool)>) -> Seq<char>
    decreases es.len(),
{
    if es.len() == 0 {
        Seq::empty()
    } else {
        entries_chars(d, es.drop_last()) + entry_chars(d, es.last().0, es.last().1)
    }
}

/// The whole directory listing page.
pub open spec fn listing_chars(d: Seq<char>, es: Seq<(Seq<char>, bool)>) -> Seq<char> {
    listing_header(d) + entries_chars(d, es) + "</body></html>"@
}

/// Builds the directory listing page for the decoded path `decoded`
/// and its immediate children.
fn listing_page(decoded: &str, entries: &Vec<DirEntry>) -> (r: String)
    ensures
        r@ == listing_chars(decoded@, entries.deep_view()),
{
    let ghost es = entries.deep_view();
    let mut s = String::from_str("<!DOCTYPE html><html><head><meta charset=\"utf-8\"></head><body>");
    s.append("<h1>Currently in ");
    s.append(decoded);
    s.append("</h1><a href=\"/");
    let parent = parent_dir(decoded);
    let enc_parent = encode_component_str(parent);
    s.append(enc_parent.as_str());
    s.append("\">Go back up a directory</a><br><hr>");
    proof {
        assert(s@ =~= listing_header(decoded@));
        assert(es.subrange(0, 0) =~= Seq::<(Seq<char>, bool)>::empty());
        assert(s@ + entries_chars(decoded@, es.subrange(0, 0)) =~= s@);
    }
    let n = entries.len();
    let mut k: usize = 0;
    while k < n
        invariant
            0 <= k <= n,
            n == es.len(),
            es == entries.deep_view(),
            s@ == listing_header(decoded@) + entries_chars(decoded@, es.subrange(0, k as int)),
        decreases n - k,
    {
        let ghost s_before = s@;
        let e = &entries[k];
        proof {
            assert(es[k as int] == (e.name@, e.is_dir));
        }
        s.append("<div><a href=\"/");
        s.append(decoded);
        s.append("/");
        let enc = encode_component_str(e.name.as_str());
        s.append(enc.as_str());
        s.append("\">");
        s.append(e.name.as_str());
        if e.is_dir {
            s.append("/");
        }
        s.append("</a></div>");
        proof {
            assert(s@ =~= s_before + entry_chars(decoded@, e.name@, e.is_dir));
            let next = es.subrange(0, k + 1);
            assert(next.drop_last() =~= es.subrange(0, k as int));
            assert(next.last() == es[k as int]);
            assert(s@ =~= listing_header(decoded@) + entries_chars(decoded@, next));
        }
        k = k + 1;
    }
    s.append("</body></html>");
    proof {
        assert(es.subrange(0, n as int) =~= es);
        assert(s@ =~= listing_chars(decoded@, es));
    }
    s
}

/// The response for a path whose resolution escapes the server root:
/// an empty NotFound.
pub open spec fn blocked_response(path: Seq<char>) -> ResponseView {
    ResponseView {
        version: Version::V1_1,
        status: ResponseStatus::NotFound,
        content_length: 0,
        accept_ranges: AcceptRanges::Absent,
        response_body: Seq::empty(),
        current_path: path,
        content_type: "text/plain"@,
    }
}

/// The response for a contained path that names nothing on disk: the
/// fixed error page naming the requested path.
pub open spec fn missing_response(path: Seq<char>) -> ResponseView {
    let body = encode_utf8(not_found_chars(path));
    ResponseView {
        version: Version::V1_1,
        status: ResponseStatus::NotFound,
        content_length: body.len() as int,
        accept_ranges: AcceptRanges::Absent,
        response_body: body,
        current_path: path,
        content_type: "text/html"@,
    }
}

/// The response for a regular file: its full bytes, classified by
/// content and by the resolved file name.
pub open spec fn file_response(path: Seq<char>, segs: Seq<Seq<char>>, bytes: Seq<u8>) -> ResponseView {
    let name = if segs.len() > 0 {
        segs.last()
    } else {
        Seq::<char>::empty()
    };
    ResponseView {
        version: Version::V1_1,
        status: ResponseStatus::OK,
        content_length: bytes.len() as int,
        accept_ranges: AcceptRanges::Bytes,
        response_body: bytes,
        current_path: path,
        content_type: classify_spec(bytes, name),
    }
}

/// The response for a directory: the generated listing page.
pub open spec fn dir_response(path: Seq<char>, decoded: Seq<char>, es: Seq<(Seq<char>, bool)>) -> ResponseView {
    let body = encode_utf8(listing_chars(decoded, es));
    ResponseView {
        version: Version::V1_1,
        status: ResponseStatus::OK,
        content_length: body.len() as int,
        accept_ranges: AcceptRanges::Absent,
        response_body: body,
        current_path: path,
        content_type: "text/html"@,
    }
}

/// The response built for a requested path against what the filesystem
/// holds at its resolved place: blocked, file, directory or missing.
pub open spec fn built_response(path: Seq<char>, t: TargetView) -> ResponseView {
    let decoded = percent_decoded(path);
    match normalized_path(decoded) {
        None => blocked_response(path),
        Some(segs) => match t {
            TargetView::Missing => missing_response(path),
            TargetView::FileContent(b) => file_response(path, segs, b),
            TargetView::Directory(es) => dir_response(path, decoded, es),
        },
    }
}

impl HttpResponse {
    /// Builds the response for `request` given what the filesystem
    /// holds at its resolved path.
    ///
    /// The caller resolves the requested path first and looks it up;
    /// when the resolution is blocked, `target` is ignored and an
    /// empty NotFound is returned.
    pub fn new(request: &HttpRequest, target: Target) -> (r: HttpResponse)
        ensures
            r@ == built_response(request.resource.path@, target@),
    {
        let path: &str = request.resource.path.as_str();
        let current_path = request.resource.path.clone();
        let decoded = decode_percent(path);
        match normalize_decoded(decoded.as_str()) {
            Resolution::Blocked => {
                let r = HttpResponse {
                    version: Version::V1_1,
                    status: ResponseStatus::NotFound,
                    content_length: 0,
                    accept_ranges: AcceptRanges::Absent,
                    response_body: Vec::new(),
                    current_path,
                    content_type: String::from_str("text/plain"),
                };
                proof {
                    assert(r@ =~= built_response(request.resource.path@, target@));
                }
                r
            },
            Resolution::Within(segs) => match target {
                Target::Missing => {
                    let page = not_found_page(path);
                    let body = page.as_str().as_bytes_vec();
                    let content_length = body.len();
                    let r = HttpResponse {
                        version: Version::V1_1,
                        status: ResponseStatus::NotFound,
                        content_length,
                        accept_ranges: AcceptRanges::Absent,
                        response_body: body,
                        current_path,
                        content_type: String::from_str("text/html"),
                    };
                    proof {
                        assert(r@ =~= built_response(request.resource.path@, target@));
                    }
                    r
                },
                Target::FileContent(bytes) => {
                    let name: &str = if segs.len() > 0 {
                        proof {
                            assert(segs.deep_view()[segs@.len() - 1] == segs@[segs@.len() - 1]@);
                        }
                        segs[segs.len() - 1].as_str()
                    } else {
                        let empty = "";
                        proof {
                            reveal_strlit("");
                            assert(empty@ =~= Seq::<char>::empty());
                        }
                        empty
                    };
                    let content_type = classify(&bytes, name);
                    let content_length = bytes.len();
                    let r = HttpResponse {
                        version: Version::V1_1,
                        status: ResponseStatus::OK,
                        content_length,
                        accept_ranges: AcceptRanges::Bytes,
                        response_body: bytes,
                        current_path,
                        content_type,
                    };
                    proof {
                        assert(r@ =~= built_response(request.resource.path@, target@));
                    }
                    r
                },
                Target::Directory(entries) => {
                    let page = listing_page(decoded.as_str(), &entries);
                    let body = page.as_str().as_bytes_vec();
                    let content_length = body.len();
                    let r = HttpResponse {
                        version: Version::V1_1,
                        status: ResponseStatus::OK,
                        content_length,
                        accept_ranges: AcceptRanges::Absent,
                        response_body: body,
                        current_path,
                        content_type: String::from_str("text/html"),
                    };
                    proof {
                        assert(r@ =~= built_response(request.resource.path@, target@));
                    }
                    r
                },
            },
        }
    }
}

impl HttpRequest {
    /// Builds the response for this request given what the filesystem
    /// holds at its resolved path.
    pub fn response(&self, target: Target) -> (r: HttpResponse)
        ensures
            r@ == built_response(self.resource.path@, target@),
    {
        HttpResponse::new(self, target)
    }
}

/// The link blocks of a listing, one per immediate child.
pub open spec fn blocks_of(d: Seq<char>, es: Seq<(Seq<char>, bool)>) -> Seq<Seq<char>> {
    Seq::new(es.len(), |k: int| entry_chars(d, es[k].0, es[k].1))
}

/// A sequence of blocks laid end to end.
pub open spec fn concat_blocks(bs: Seq<Seq<char>>) -> Seq<char>
    decreases bs.len(),
{
    if bs.len() == 0 {
        Seq::empty()
    } else {
        concat_blocks(bs.drop_last()) + bs.last()
    }
}

proof fn lemma_entries_concat(d: Seq<char>, es: Seq<(Seq<char>, bool)>)
    ensures
        entries_chars(d, es) == concat_blocks(blocks_of(d, es)),
    decreases es.len(),
{
    if es.len() > 0 {
        lemma_entries_concat(d, es.drop_last());
        assert(blocks_of(d, es).drop_last() =~= blocks_of(d, es.drop_last()));
    }
}

/// Directory-listing completeness: the listing page is exactly the
/// fixed frame around one link block per immediate child, in the
/// order given and with nothing in between — so each child gets
/// exactly one link, and nothing deeper than one level appears.
pub proof fn lemma_listing_one_link_per_child(d: Seq<char>, es: Seq<(Seq<char>, bool)>)
    ensures
        blocks_of(d, es).len() == es.len(),
        forall|k: int|
            0 <= k < es.len() ==> #[trigger] blocks_of(d, es)[k] == entry_chars(
                d,
                es[k].0,
                es[k].1,
            ),
        listing_chars(d, es) == listing_header(d) + concat_blocks(blocks_of(d, es))
            + "</body></html>"@,
{
    lemma_entries_concat(d, es);
}

#[verifier::rlimit(60)]
proof fn lemma_frame_counts()
    ensures
        count_char("<!DOCTYPE html><html><head><meta charset=\"utf-8\"></head><body>"@, '<') == 6,
        count_char("<h1>Currently in "@, '<') == 1,
        count_char("</h1><a href=\"/"@, '<') == 2,
        count_char("\">Go back up a directory</a><br><hr>"@, '<') == 3,
        count_char("<div><a href=\"/"@, '<') == 2,
        count_char("\">"@, '<') == 0,
        count_char("</a></div>"@, '<') == 2,
        count_char("</body></html>"@, '<') == 2,
        count_char("/"@, '<') == 0,
{
    reveal_strlit("<!DOCTYPE html><html><head><meta charset=\"utf-8\"></head><body>");
    reveal_strlit("<h1>Currently in ");
    reveal_strlit("</h1><a href=\"/");
    reveal_strlit("\">Go back up a directory</a><br><hr>");
    reveal_strlit("<div><a href=\"/");
    reveal_strlit("\">");
    reveal_strlit("</a></div>");
    reveal_strlit("</body></html>");
    reveal_strlit("/");
    reveal_with_fuel(count_char, 25);
    let a = "<!DOCTYPE html><html><head><meta charset=\"utf-8\"></head><body>"@;
    lemma_count_char_split(a, '<', 22);
    lemma_count_char_split(a.subrange(22, 62), '<', 22);
    assert(a.subrange(22, 62).subrange(0, 22) =~= a.subrange(22, 44));
    assert(a.subrange(22, 62).subrange(22, 40) =~= a.subrange(44, 62));
    assert(count_char(a.subrange(0, 22), '<') == 3);
    assert(count_char(a.subrange(22, 44), '<') == 1);
    assert(count_char(a.subrange(44, 62), '<') == 2);
    let b = "\">Go back up a directory</a><br><hr>"@;
    lemma_count_char_split(b, '<', 18);
    assert(count_char(b.subrange(0, 18), '<') == 0);
    assert(count_char(b.subrange(18, 36), '<') == 3);
}

proof fn lemma_entry_count(d: Seq<char>, name: Seq<char>, is_dir: bool)
    requires
        count_char(d, '<') == 0,
        count_char(name, '<') == 0,
        count_char(component_encoded(name), '<') == 0,
    ensures
        count_char(entry_chars(d, name, is_dir), '<') == 4,
{
    lemma_frame_counts();
    let e = "<div><a href=\"/"@;
    let f = "\">"@;
    let g = "</a></div>"@;
    let enc = component_encoded(name);
    let opt = if is_dir {
        "/"@
    } else {
        Seq::<char>::empty()
    };
    lemma_count_char_concat(e, d, '<');
    lemma_count_char_concat(e + d, "/"@, '<');
    lemma_count_char_concat(e + d + "/"@, enc, '<');
    lemma_count_char_concat(e + d + "/"@ + enc, f, '<');
    lemma_count_char_concat(e + d + "/"@ + enc + f, name, '<');
    lemma_count_char_concat(e + d + "/"@ + enc + f + name, opt, '<');
    lemma_count_char_concat(e + d + "/"@ + enc + f + name + opt, g, '<');
}

proof fn lemma_entries_count(d: Seq<char>, es: Seq<(Seq<char>, bool)>)
    requires
        count_char(d, '<') == 0,
        forall|j: int|
            0 <= j < es.len() ==> count_char((#[trigger] es[j]).0, '<') == 0 && count_char(
                component_encoded(es[j].0),
                '<',
            ) == 0,
    ensures
        count_char(entries_chars(d, es), '<') == 4 * es.len(),
    decreases es.len(),
{
    if es.len() > 0 {
        assert(forall|j: int|
            0 <= j < es.len() - 1 ==> (#[trigger] es.drop_last()[j]) == es[j]);
        lemma_entries_count(d, es.drop_last());
        assert(es.last() == es[es.len() - 1]);
        lemma_entry_count(d, es.last().0, es.last().1);
        lemma_count_char_concat(
            entries_chars(d, es.drop_last()),
            entry_chars(d, es.last().0, es.last().1),
            '<',
        );
    }
}

proof fn lemma_header_count(d: Seq<char>)
    requires
        count_char(d, '<') == 0,
        count_char(component_encoded(parent_of(d)), '<') == 0,
    ensures
        count_char(listing_header(d), '<') == 12,
{
    lemma_frame_counts();
    let a = "<!DOCTYPE html><html><head><meta charset=\"utf-8\"></head><body>"@;
    let b = "<h1>Currently in "@;
    let c = "</h1><a href=\"/"@;
    let e = "\">Go back up a directory</a><br><hr>"@;
    let enc = component_encoded(parent_of(d));
    lemma_count_char_concat(a, b, '<');
    lemma_count_char_concat(a + b, d, '<');
    lemma_count_char_concat(a + b + d, c, '<');
    lemma_count_char_concat(a + b + d + c, enc, '<');
    lemma_count_char_concat(a + b + d + c + enc, e, '<');
}

/// Directory-listing completeness, counted: when neither the displayed
/// path, the child names, nor their encodings hold a `<`, the listing
/// page holds exactly four tags per immediate child — one link block
/// each — besides the fourteen tags of its fixed frame, so no link for
/// anything deeper than one level is emitted.
pub proof fn lemma_listing_link_count(d: Seq<char>, es: Seq<(Seq<char>, bool)>)
    ensures
        (count_char(d, '<') == 0 && count_char(component_encoded(parent_of(d)), '<') == 0 && (
        forall|j: int|
            0 <= j < es.len() ==> count_char((#[trigger] es[j]).0, '<') == 0 && count_char(
                component_encoded(es[j].0),
                '<',
            ) == 0)) ==> count_char(listing_chars(d, es), '<') == 14 + 4 * es.len(),
{
    if count_char(d, '<') == 0 && count_char(component_encoded(parent_of(d)), '<') == 0 && (forall|
        j: int,
    |
        0 <= j < es.len() ==> count_char((#[trigger] es[j]).0, '<') == 0 && count_char(
            component_encoded(es[j].0),
            '<',
        ) == 0) {
        lemma_header_count(d);
        lemma_entries_count(d, es);
        lemma_frame_counts();
        lemma_count_char_concat(listing_header(d), entries_chars(d, es), '<');
        lemma_count_char_concat(
            listing_header(d) + entries_chars(d, es),
            "</body></html>"@,
            '<',
        );
    }
}

/// Idempotence: building twice for the same request against an
/// unchanged filesystem yields identical responses, byte for byte.
pub proof fn lemma_build_idempotent(
    path1: Seq<char>,
    t1: TargetView,
    path2: Seq<char>,
    t2: TargetView,
)
    requires
        path1 == path2,
        t1 == t2,
    ensures
        built_response(path1, t1) == built_response(path2, t2),
{
}

/// Content-Length correctness: every produced response declares
/// exactly the byte length of its body.
pub proof fn lemma_content_length(path: Seq<char>, t: TargetView)
    ensures
        built_response(path, t).content_length == built_response(path, t).response_body.len(),
{
}

/// Not-found: a request whose path resolves inside the root but names
/// nothing on disk is answered with status NotFound and a page that
/// holds the requested path verbatim.
pub proof fn lemma_not_found(path: Seq<char>)
    ensures
        normalized_path(percent_decoded(path)) is Some ==> {
            let r = built_response(path, TargetView::Missing);
            &&& r.status == ResponseStatus::NotFound
            &&& r.response_body == encode_utf8(not_found_chars(path))
            &&& exists|i: int|
                0 <= i && i + path.len() <= not_found_chars(path).len() && #[trigger] not_found_chars(
                    path,
                ).subrange(i, i + path.len() as int) == path
        },
{
    if normalized_path(percent_decoded(path)) is Some {
        let pre = "<html><body><h1>404 Not Found</h1><p>The requested resource <strong>"@;
        assert(not_found_chars(path).subrange(
            pre.len() as int,
            pre.len() + path.len() as int,
        ) =~= path);
    }
}

} // verus!
