//! Path resolution with traversal containment: the requested path is
//! percent-decoded, split into `/`-separated segments, and normalized
//! against the server root, rejecting any path whose `..` segments
//! would climb above it.
//!
//! Normalization is purely lexical and happens exactly once, on the
//! decoded path; a resolution that succeeds yields only plain segments,
//! so the joined path cannot escape the root.

use vstd::prelude::*;

use crate::text::{find_str, spec_find, str_eq};

verus! {

/// What percent-decoding yields on a given text: every `%XX` hex
/// triple of the UTF-8 form becomes the byte `XX`, and the result is
/// read back as UTF-8, lossily.
pub uninterp spec fn percent_decoded(s: Seq<char>) -> Seq<char>;

/// Relies on `percent_encoding::percent_decode_str` together with
/// `PercentDecode::decode_utf8_lossy`: percent-decoding is a function
/// of the input text alone, and a text without `%` holds no encoded
/// triple, so it comes back unchanged.
#[verifier::external_body]
pub(crate) fn decode_percent(s: &str) -> (r: String)
    ensures
        r@ == percent_decoded(s@),
        (forall|i: int| 0 <= i < s@.len() ==> s@[i] != '%') ==> r@ == s@,
{
    percent_encoding::percent_decode_str(s).decode_utf8_lossy().into_owned()
}

/// `s` split on `/`, keeping empty pieces.
pub open spec fn split_slash(s: Seq<char>) -> Seq<Seq<char>>
    decreases s.len(),
    via split_slash_decreases
{
    match spec_find(s, "/"@, 0) {
        None => seq![s],
        Some(i) => seq![s.subrange(0, i)] + split_slash(s.subrange(i + 1, s.len() as int)),
    }
}

#[via_fn]
proof fn split_slash_decreases(s: Seq<char>) {
    reveal_strlit("/");
    crate::text::lemma_spec_find(s, "/"@, 0);
}

/// Walks the segments left to right, skipping empty and `.` segments,
/// letting `..` pop the last kept segment; `None` marks a walk whose
/// `..` would pop past the root.
pub open spec fn norm_rec(segs: Seq<Seq<char>>, i: int, stack: Seq<Seq<char>>) -> Option<
    Seq<Seq<char>>,
>
    decreases segs.len() - i + 1,
{
    if i < 0 || i >= segs.len() {
        Some(stack)
    } else {
        let sg = segs[i];
        if sg == ".."@ {
            if stack.len() == 0 {
                None
            } else {
                norm_rec(segs, i + 1, stack.drop_last())
            }
        } else if sg.len() == 0 || sg == "."@ {
            norm_rec(segs, i + 1, stack)
        } else {
            norm_rec(segs, i + 1, stack.push(sg))
        }
    }
}

/// The normalized form of a decoded path: its kept segments, or `None`
/// when the path escapes the root.
pub open spec fn normalized_path(s: Seq<char>) -> Option<Seq<Seq<char>>> {
    norm_rec(split_slash(s), 0, Seq::empty())
}

/// The outcome of resolving a requested path against the server root.
#[derive(Debug)]
pub enum Resolution {
    /// The path would escape the server root.
    Blocked,
    /// The root-relative segments of the resolved path, none of them
    /// empty, `.` or `..`.
    Within(Vec<String>),
}

/// Splits `s` on `/`, keeping empty pieces.
fn split_on_slash(s: &str) -> (v: Vec<String>)
    ensures
        v.deep_view() == split_slash(s@),
{
    proof {
        reveal_strlit("/");
    }
    let mut rest: &str = s;
    let mut acc: Vec<String> = Vec::new();
    proof {
        assert(acc.deep_view() =~= Seq::<Seq<char>>::empty());
        assert(acc.deep_view() + split_slash(s@) =~= split_slash(s@));
    }
    loop
        invariant
            "/"@.len() == 1,
            acc.deep_view() + split_slash(rest@) == split_slash(s@),
        decreases rest@.len(),
    {
        let ghost old_acc = acc.deep_view();
        let n = rest.unicode_len();
        match find_str(rest, "/") {
            None => {
                acc.push(String::from_str(rest));
                proof {
                    assert(acc.deep_view() =~= old_acc + seq![rest@]);
                }
                return acc;
            },
            Some(i) => {
                let seg = rest.substring_char(0, i);
                acc.push(String::from_str(seg));
                let next = rest.substring_char(i + 1, n);
                proof {
                    assert(acc.deep_view() =~= old_acc + seq![seg@]);
                    assert((old_acc + seq![seg@]) + split_slash(next@) =~= old_acc + (seq![seg@]
                        + split_slash(next@)));
                }
                rest = next;
            },
        }
    }
}

/// Normalizes decoded segments against the root.
fn normalize(segs: &Vec<String>) -> (r: Resolution)
    ensures
        (match r {
            Resolution::Blocked => norm_rec(segs.deep_view(), 0, Seq::empty()) is None,
            Resolution::Within(v) => norm_rec(segs.deep_view(), 0, Seq::empty()) == Some(
                v.deep_view(),
            ),
        }),
{
    let ghost gsegs = segs.deep_view();
    let mut stack: Vec<String> = Vec::new();
    let n = segs.len();
    proof {
        assert(stack.deep_view() =~= Seq::<Seq<char>>::empty());
    }
    let mut i: usize = 0;
    while i < n
        invariant
            0 <= i <= n,
            n == gsegs.len(),
            gsegs == segs.deep_view(),
            norm_rec(gsegs, 0, Seq::empty()) == norm_rec(gsegs, i as int, stack.deep_view()),
        decreases n - i,
    {
        let ghost old_stack = stack.deep_view();
        let sg = &segs[i];
        proof {
            assert(gsegs[i as int] == sg@);
        }
        if str_eq(sg.as_str(), "..") {
            if stack.len() == 0 {
                proof {
                    assert(old_stack.len() == 0);
                }
                return Resolution::Blocked;
            }
            let _popped = stack.pop();
            proof {
                assert(stack.deep_view() =~= old_stack.drop_last());
            }
        } else if sg.unicode_len() == 0 || str_eq(sg.as_str(), ".") {
        } else {
            stack.push(sg.clone());
            proof {
                assert(stack.deep_view() =~= old_stack.push(sg@));
            }
        }
        i = i + 1;
    }
    Resolution::Within(stack)
}

/// Normalizes an already decoded path against the server root.
pub fn normalize_decoded(decoded: &str) -> (r: Resolution)
    ensures
        (match r {
            Resolution::Blocked => normalized_path(decoded@) is None,
            Resolution::Within(v) => normalized_path(decoded@) == Some(v.deep_view()),
        }),
{
    let segs = split_on_slash(decoded);
    normalize(&segs)
}

impl Resolution {
    /// Resolves a requested path: percent-decodes it, then normalizes
    /// the decoded segments against the server root.
    pub fn new(requested: &str) -> (r: Resolution)
        ensures
            (match r {
                Resolution::Blocked => normalized_path(percent_decoded(requested@)) is None,
                Resolution::Within(v) => normalized_path(percent_decoded(requested@)) == Some(
                    v.deep_view(),
                ),
            }),
    {
        let decoded = decode_percent(requested);
        normalize_decoded(decoded.as_str())
    }
}

/// How one segment moves the walk: `..` climbs up one level, empty and
/// `.` stay, anything else descends into a child.
pub open spec fn seg_delta(seg: Seq<char>) -> int {
    if seg == ".."@ {
        -1
    } else if seg.len() == 0 || seg == "."@ {
        0
    } else {
        1
    }
}

/// The depth below the root after the first `k` segments.
pub open spec fn depth_after(segs: Seq<Seq<char>>, k: int) -> int
    decreases k,
{
    if k <= 0 {
        0
    } else {
        depth_after(segs, k - 1) + seg_delta(segs[k - 1])
    }
}

/// A path escapes the root exactly when, at some point of the walk,
/// more `..` segments have been seen than real segments before them.
pub open spec fn escapes(segs: Seq<Seq<char>>) -> bool {
    exists|k: int| 1 <= k <= segs.len() && depth_after(segs, k) < 0
}

proof fn lemma_norm_blocked(segs: Seq<Seq<char>>, i: int, stack: Seq<Seq<char>>)
    requires
        0 <= i <= segs.len(),
        stack.len() == depth_after(segs, i),
        forall|k: int| 0 <= k <= i ==> depth_after(segs, k) >= 0,
    ensures
        (norm_rec(segs, i, stack) is None) <==> (exists|k: int|
            i < k <= segs.len() && depth_after(segs, k) < 0),
    decreases segs.len() - i,
{
    if i == segs.len() {
    } else {
        let sg = segs[i];
        assert(depth_after(segs, i + 1) == depth_after(segs, i) + seg_delta(sg));
        if sg == ".."@ {
            if stack.len() == 0 {
                assert(depth_after(segs, i + 1) < 0);
            } else {
                lemma_norm_blocked(segs, i + 1, stack.drop_last());
                assert(depth_after(segs, i + 1) >= 0);
            }
        } else if sg.len() == 0 || sg == "."@ {
            lemma_norm_blocked(segs, i + 1, stack);
            assert(depth_after(segs, i + 1) >= 0);
        } else {
            lemma_norm_blocked(segs, i + 1, stack.push(sg));
            assert(depth_after(segs, i + 1) >= 0);
        }
    }
}

/// Containment, the blocking direction: a decoded path is rejected
/// exactly when its `..` segments would, at some point of the walk,
/// climb above the server root.
pub proof fn lemma_blocked_iff_escapes(s: Seq<char>)
    ensures
        (normalized_path(s) is None) <==> escapes(split_slash(s)),
{
    lemma_norm_blocked(split_slash(s), 0, Seq::empty());
}

proof fn lemma_norm_clean(segs: Seq<Seq<char>>, i: int, stack: Seq<Seq<char>>)
    requires
        0 <= i <= segs.len(),
        forall|j: int|
            0 <= j < stack.len() ==> (#[trigger] stack[j]).len() > 0 && stack[j] != "."@
                && stack[j] != ".."@,
    ensures
        (match norm_rec(segs, i, stack) {
            Some(v) => forall|j: int|
                0 <= j < v.len() ==> (#[trigger] v[j]).len() > 0 && v[j] != "."@ && v[j] != ".."@,
            None => true,
        }),
    decreases segs.len() - i,
{
    if i < 0 || i >= segs.len() {
    } else {
        let sg = segs[i];
        if sg == ".."@ {
            if stack.len() > 0 {
                lemma_norm_clean(segs, i + 1, stack.drop_last());
            }
        } else if sg.len() == 0 || sg == "."@ {
            lemma_norm_clean(segs, i + 1, stack);
        } else {
            lemma_norm_clean(segs, i + 1, stack.push(sg));
        }
    }
}

/// Containment, the success direction: a resolution that succeeds
/// yields only plain segments — none empty, none `.`, none `..` — so
/// the path they name lies inside or at the server root.
pub proof fn lemma_within_stays_inside(s: Seq<char>)
    ensures
        (match normalized_path(s) {
            Some(v) => forall|j: int|
                0 <= j < v.len() ==> (#[trigger] v[j]).len() > 0 && v[j] != "."@ && v[j] != ".."@,
            None => true,
        }),
{
    lemma_norm_clean(split_slash(s), 0, Seq::empty());
}

} // verus!
