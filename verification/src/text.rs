//! Character-level string primitives: equality and naive substring search.

use vstd::prelude::*;

verus! {

/// The pattern `p` occurs in `t` starting at character position `i`.
pub open spec fn matches_at(t: Seq<char>, p: Seq<char>, i: int) -> bool {
    0 <= i && i + p.len() <= t.len() && t.subrange(i, i + p.len()) == p
}

/// The pattern `p` occurs somewhere in `t` as a contiguous substring.
/// An empty pattern occurs in every text.
pub open spec fn has_substring(t: Seq<char>, p: Seq<char>) -> bool {
    exists|i: int| matches_at(t, p, i)
}

/// Character-by-character string equality.
pub fn str_eq(a: &str, b: &str) -> (r: bool)
    ensures
        r == (a@ == b@),
{
    let an = a.unicode_len();
    let bn = b.unicode_len();
    if an != bn {
        return false;
    }
    let mut i: usize = 0;
    while i < an
        invariant
            an == a@.len(),
            an == b@.len(),
            i <= an,
            forall|j: int| 0 <= j < i ==> a@[j] == b@[j],
        decreases an - i,
    {
        if a.get_char(i) != b.get_char(i) {
            return false;
        }
        i += 1;
    }
    proof {
        assert(a@ =~= b@);
    }
    true
}

/// Whether `pat` occurs in `text` starting exactly at character position `i`.
pub fn is_match_at(text: &str, pat: &str, i: usize) -> (r: bool)
    requires
        i + pat@.len() <= text@.len(),
    ensures
        r == matches_at(text@, pat@, i as int),
{
    let tn = text.unicode_len();
    let pn = pat.unicode_len();
    let mut j: usize = 0;
    while j < pn
        invariant
            tn == text@.len(),
            pn == pat@.len(),
            i + pn <= tn,
            j <= pn,
            forall|k: int| 0 <= k < j ==> text@[i + k] == pat@[k],
        decreases pn - j,
    {
        if text.get_char(i + j) != pat.get_char(j) {
            proof {
                let sub = text@.subrange(i as int, i + pat@.len());
                assert(sub[j as int] == text@[i + j]);
                assert(sub != pat@);
            }
            return false;
        }
        j += 1;
    }
    proof {
        assert(text@.subrange(i as int, i + pat@.len()) =~= pat@);
    }
    true
}

/// Naive substring search: whether `pat` occurs anywhere in `text`.
pub fn contains_substring(text: &str, pat: &str) -> (r: bool)
    ensures
        r == has_substring(text@, pat@),
{
    let tn = text.unicode_len();
    let pn = pat.unicode_len();
    if pn > tn {
        proof {
            assert(forall|i: int| !matches_at(text@, pat@, i));
        }
        return false;
    }
    let bound = tn - pn;
    let mut i: usize = 0;
    loop
        invariant
            tn == text@.len(),
            pn == pat@.len(),
            pn <= tn,
            bound == tn - pn,
            i <= bound,
            forall|k: int| 0 <= k < i ==> !matches_at(text@, pat@, k),
        decreases bound - i,
    {
        if is_match_at(text, pat, i) {
            proof {
                assert(matches_at(text@, pat@, i as int));
            }
            return true;
        }
        if i == bound {
            proof {
                assert(forall|k: int| k > bound ==> !matches_at(text@, pat@, k));
            }
            return false;
        }
        i += 1;
    }
}

} // verus!
