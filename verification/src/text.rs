//! Substring search over character sequences, with a leftmost-match
//! specification shared by the splitter and the text utilities.

use vstd::prelude::*;

verus! {

/// True when `pat` occurs in `s` starting at position `i`.
pub open spec fn match_at(s: Seq<char>, pat: Seq<char>, i: int) -> bool {
    0 <= i && i + pat.len() <= s.len() && s.subrange(i, i + pat.len() as int) =~= pat
}

/// True when `pat` occurs somewhere in `s`.
pub open spec fn has_match(s: Seq<char>, pat: Seq<char>) -> bool {
    exists|i: int| match_at(s, pat, i)
}

/// Position of the leftmost occurrence of `pat` in `s` at or after `i`.
pub open spec fn first_match_from(s: Seq<char>, pat: Seq<char>, i: int) -> Option<int>
    decreases s.len() - i,
{
    if i < 0 || i + pat.len() > s.len() {
        None
    } else if match_at(s, pat, i) {
        Some(i)
    } else {
        first_match_from(s, pat, i + 1)
    }
}

/// Position of the leftmost occurrence of `pat` in `s`, if any.
pub open spec fn first_match(s: Seq<char>, pat: Seq<char>) -> Option<int> {
    first_match_from(s, pat, 0)
}

/// What `first_match_from` returns: the leftmost match at or after `i`.
pub proof fn lemma_first_match_from_props(s: Seq<char>, pat: Seq<char>, i: int)
    requires
        i >= 0,
    ensures
        match first_match_from(s, pat, i) {
            Some(j) => i <= j && match_at(s, pat, j) && forall|k: int|
                i <= k < j ==> !match_at(s, pat, k),
            None => forall|k: int| i <= k ==> !match_at(s, pat, k),
        },
    decreases s.len() - i,
{
    if i + pat.len() > s.len() {
        assert forall|k: int| i <= k implies !match_at(s, pat, k) by {}
    } else if match_at(s, pat, i) {
    } else {
        lemma_first_match_from_props(s, pat, i + 1);
    }
}

/// What `first_match` returns: the leftmost match in `s`.
pub proof fn lemma_first_match_props(s: Seq<char>, pat: Seq<char>)
    ensures
        match first_match(s, pat) {
            Some(j) => 0 <= j && match_at(s, pat, j) && forall|k: int|
                0 <= k < j ==> !match_at(s, pat, k),
            None => forall|k: int| !match_at(s, pat, k),
        },
{
    lemma_first_match_from_props(s, pat, 0);
    if first_match(s, pat) is None {
        assert forall|k: int| !match_at(s, pat, k) by {
            if k >= 0 {
                assert(!match_at(s, pat, k));
            }
        }
    }
}

/// A witness match, leftmost among all matches, pins down `first_match`.
pub proof fn lemma_first_match_is(s: Seq<char>, pat: Seq<char>, j: int)
    requires
        match_at(s, pat, j),
        forall|k: int| 0 <= k < j ==> !match_at(s, pat, k),
    ensures
        first_match(s, pat) == Some(j),
{
    lemma_first_match_props(s, pat);
    match first_match(s, pat) {
        Some(m) => {
            if m < j {
                assert(!match_at(s, pat, m));
            }
            if j < m {
                assert(!match_at(s, pat, j));
            }
        },
        None => {
            assert(!match_at(s, pat, j));
        },
    }
}

/// With no match anywhere, `first_match` is `None`.
pub proof fn lemma_first_match_none(s: Seq<char>, pat: Seq<char>)
    requires
        forall|k: int| !match_at(s, pat, k),
    ensures
        first_match(s, pat) is None,
{
    lemma_first_match_props(s, pat);
    if let Some(j) = first_match(s, pat) {
        assert(!match_at(s, pat, j));
    }
}

/// Leftmost occurrence of `pat` in `s`, by character position.
pub fn find_str(s: &str, pat: &str) -> (r: Option<usize>)
    ensures
        match r {
            Some(j) => first_match(s@, pat@) == Some(j as int),
            None => first_match(s@, pat@) is None,
        },
{
    let n = s.unicode_len();
    let m = pat.unicode_len();
    if m > n {
        proof {
            assert forall|k: int| !match_at(s@, pat@, k) by {}
            lemma_first_match_none(s@, pat@);
        }
        return None;
    }
    let mut i: usize = 0;
    while i <= n - m
        invariant
            m <= n,
            n == s@.len(),
            m == pat@.len(),
            i <= n - m + 1,
            forall|k: int| 0 <= k < i ==> !match_at(s@, pat@, k),
        decreases n - m + 1 - i,
    {
        let mut j: usize = 0;
        let mut matched = true;
        while j < m
            invariant
                m <= n,
                n == s@.len(),
                m == pat@.len(),
                i + m <= n,
                j <= m,
                matched ==> forall|t: int| 0 <= t < j ==> s@[i + t] == pat@[t],
                !matched ==> !match_at(s@, pat@, i as int),
            decreases m - j,
        {
            if matched {
                let a = s.get_char(i + j);
                let b = pat.get_char(j);
                if a != b {
                    proof {
                        if match_at(s@, pat@, i as int) {
                            assert(s@.subrange(i as int, i + m as int)[j as int] == pat@[j as int]);
                        }
                    }
                    matched = false;
                }
            }
            j = j + 1;
        }
        if matched {
            proof {
                assert(s@.subrange(i as int, i + m as int) =~= pat@);
                lemma_first_match_is(s@, pat@, i as int);
            }
            return Some(i);
        }
        i = i + 1;
    }
    proof {
        assert forall|k: int| !match_at(s@, pat@, k) by {
            if 0 <= k < i {
                assert(!match_at(s@, pat@, k));
            }
        }
        lemma_first_match_none(s@, pat@);
    }
    None
}

/// True when `p@` is a prefix of `s@`.
pub open spec fn is_prefix_of(p: Seq<char>, s: Seq<char>) -> bool {
    p.len() <= s.len() && s.subrange(0, p.len() as int) =~= p
}

/// Prefix test by character comparison.
pub fn str_starts_with(s: &str, p: &str) -> (r: bool)
    ensures
        r == is_prefix_of(p@, s@),
{
    let n = s.unicode_len();
    let m = p.unicode_len();
    if m > n {
        return false;
    }
    let mut j: usize = 0;
    while j < m
        invariant
            m <= n,
            n == s@.len(),
            m == p@.len(),
            j <= m,
            forall|t: int| 0 <= t < j ==> s@[t] == p@[t],
        decreases m - j,
    {
        if s.get_char(j) != p.get_char(j) {
            proof {
                if is_prefix_of(p@, s@) {
                    assert(s@.subrange(0, m as int)[j as int] == p@[j as int]);
                }
            }
            return false;
        }
        j = j + 1;
    }
    proof {
        assert(s@.subrange(0, m as int) =~= p@);
    }
    true
}

/// Character-wise string equality.
pub fn str_eq(a: &str, b: &str) -> (r: bool)
    ensures
        r == (a@ =~= b@),
{
    let n = a.unicode_len();
    if n != b.unicode_len() {
        return false;
    }
    let mut j: usize = 0;
    while j < n
        invariant
            n == a@.len(),
            n == b@.len(),
            j <= n,
            forall|t: int| 0 <= t < j ==> a@[t] == b@[t],
        decreases n - j,
    {
        if a.get_char(j) != b.get_char(j) {
            proof {
                if a@ =~= b@ {
                    assert(a@[j as int] == b@[j as int]);
                }
            }
            return false;
        }
        j = j + 1;
    }
    proof {
        assert(a@ =~= b@);
    }
    true
}

} // verus!
