//! Character-level text helpers shared by the parser and the resolver:
//! substring search, string equality, splitting, and trimming, each with
//! an exact specification over `Seq<char>` views.

use vstd::prelude::*;

verus! {

/// The first index `i >= from` at which `pat` occurs in `s`, if any.
pub open spec fn spec_find(s: Seq<char>, pat: Seq<char>, from: int) -> Option<int>
    decreases s.len() - from + 1,
{
    if from < 0 || from + pat.len() > s.len() {
        None
    } else if s.subrange(from, from + pat.len() as int) == pat {
        Some(from)
    } else {
        spec_find(s, pat, from + 1)
    }
}

/// A found index marks a real occurrence, and no occurrence is skipped.
pub proof fn lemma_spec_find(s: Seq<char>, pat: Seq<char>, from: int)
    requires
        0 <= from,
    ensures
        match spec_find(s, pat, from) {
            Some(i) => from <= i && i + pat.len() <= s.len()
                && s.subrange(i, i + pat.len() as int) == pat
                && forall|j: int|
                    from <= j < i ==> #[trigger] s.subrange(j, j + pat.len() as int) != pat,
            None => forall|j: int|
                from <= j && j + pat.len() <= s.len()
                    ==> #[trigger] s.subrange(j, j + pat.len() as int) != pat,
        },
    decreases s.len() - from + 1,
{
    if from + pat.len() > s.len() {
    } else if s.subrange(from, from + pat.len() as int) == pat {
    } else {
        lemma_spec_find(s, pat, from + 1);
    }
}

/// Finds the first occurrence of `pat` in `s`.
pub fn find_str(s: &str, pat: &str) -> (r: Option<usize>)
    requires
        pat@.len() >= 1,
    ensures
        r matches Some(i) ==> spec_find(s@, pat@, 0) == Some(i as int) && i + pat@.len()
            <= s@.len() && s@.subrange(i as int, i + pat@.len() as int) == pat@,
        r is None ==> spec_find(s@, pat@, 0) is None,
{
    let n = s.unicode_len();
    let m = pat.unicode_len();
    if m > n {
        return None;
    }
    let mut i: usize = 0;
    while i <= n - m
        invariant
            0 <= i,
            1 <= m <= n,
            i <= n - m + 1,
            n == s@.len(),
            m == pat@.len(),
            spec_find(s@, pat@, 0) == spec_find(s@, pat@, i as int),
        decreases n - i,
    {
        let mut j: usize = 0;
        let mut matched = true;
        while j < m
            invariant
                0 <= j <= m,
                i + m <= n,
                n == s@.len(),
                m == pat@.len(),
                matched ==> forall|k: int| 0 <= k < j ==> s@[i + k] == pat@[k],
                !matched ==> s@.subrange(i as int, i + m as int) != pat@,
            decreases m - j,
        {
            if s.get_char(i + j) != pat.get_char(j) {
                proof {
                    assert(s@.subrange(i as int, i + m as int)[j as int] != pat@[j as int]);
                }
                matched = false;
            }
            j = j + 1;
        }
        if matched {
            proof {
                assert(s@.subrange(i as int, i + m as int) =~= pat@);
            }
            return Some(i);
        }
        i = i + 1;
    }
    None
}

/// The last index at which `c` occurs in `s`, if any.
pub open spec fn find_last(s: Seq<char>, c: char) -> Option<int>
    decreases s.len(),
{
    if s.len() == 0 {
        None
    } else if s.last() == c {
        Some(s.len() - 1)
    } else {
        find_last(s.drop_last(), c)
    }
}

/// Finds the last occurrence of `c` in `s`.
pub fn rfind_char(s: &str, c: char) -> (r: Option<usize>)
    ensures
        r matches Some(j) ==> find_last(s@, c) == Some(j as int) && j < s@.len() && s@[j as int]
            == c,
        r is None ==> find_last(s@, c) is None,
{
    let n = s.unicode_len();
    proof {
        assert(s@.subrange(0, n as int) =~= s@);
    }
    let mut i: usize = n;
    while i > 0
        invariant
            0 <= i <= n,
            n == s@.len(),
            find_last(s@, c) == find_last(s@.subrange(0, i as int), c),
        decreases i,
    {
        proof {
            let cur = s@.subrange(0, i as int);
            assert(cur.last() == s@[i - 1]);
            assert(cur.drop_last() =~= s@.subrange(0, i - 1));
        }
        if s.get_char(i - 1) == c {
            return Some(i - 1);
        }
        i = i - 1;
    }
    None
}

/// Character-for-character string equality.
pub fn str_eq(a: &str, b: &str) -> (r: bool)
    ensures
        r == (a@ == b@),
{
    let n = a.unicode_len();
    if n != b.unicode_len() {
        proof {
            assert(a@ != b@);
        }
        return false;
    }
    let mut i: usize = 0;
    while i < n
        invariant
            0 <= i <= n,
            n == a@.len(),
            n == b@.len(),
            forall|k: int| 0 <= k < i ==> a@[k] == b@[k],
        decreases n - i,
    {
        if a.get_char(i) != b.get_char(i) {
            return false;
        }
        i = i + 1;
    }
    proof {
        assert(a@ =~= b@);
    }
    true
}

/// How often `c` occurs in `s`.
pub open spec fn count_char(s: Seq<char>, c: char) -> int
    decreases s.len(),
{
    if s.len() == 0 {
        0
    } else {
        (if s[0] == c {
            1int
        } else {
            0int
        }) + count_char(s.drop_first(), c)
    }
}

/// An occurrence count splits at any index.
pub proof fn lemma_count_char_split(s: Seq<char>, c: char, k: int)
    requires
        0 <= k <= s.len(),
    ensures
        count_char(s, c) == count_char(s.subrange(0, k), c) + count_char(
            s.subrange(k, s.len() as int),
            c,
        ),
    decreases k,
{
    if k == 0 {
        assert(s.subrange(0, 0) =~= Seq::<char>::empty());
        assert(s.subrange(0, s.len() as int) =~= s);
    } else {
        let tail = s.drop_first();
        lemma_count_char_split(tail, c, k - 1);
        assert(tail.subrange(0, k - 1) =~= s.subrange(0, k).drop_first());
        assert(tail.subrange(k - 1, tail.len() as int) =~= s.subrange(k, s.len() as int));
        assert(count_char(s.subrange(0, k), c) == (if s.subrange(0, k)[0] == c {
            1int
        } else {
            0int
        }) + count_char(s.subrange(0, k).drop_first(), c));
    }
}

/// Occurrence counts add up over concatenation.
pub proof fn lemma_count_char_concat(a: Seq<char>, b: Seq<char>, c: char)
    ensures
        count_char(a + b, c) == count_char(a, c) + count_char(b, c),
{
    lemma_count_char_split(a + b, c, a.len() as int);
    assert((a + b).subrange(0, a.len() as int) =~= a);
    assert((a + b).subrange(a.len() as int, (a + b).len() as int) =~= b);
}

} // verus!
