//! Lowercasing of text for case-insensitive matching.

use vstd::prelude::*;
use crate::lines::{drop_trailing_cr, first_newline, lemma_first_newline_bounds, lines_of};
use crate::text::{has_substring, matches_at};

verus! {

/// The Unicode lowercase form of `s`, as `str::to_lowercase` computes it.
pub uninterp spec fn lower_of(s: Seq<char>) -> Seq<char>;

/// Every character of `s` is an ASCII character.
pub open spec fn is_ascii_seq(s: Seq<char>) -> bool {
    forall|i: int| 0 <= i < s.len() ==> #[trigger] s[i] <= '\x7f'
}

/// The ASCII lowercase form of a character: `A`..`Z` map to `a`..`z`,
/// everything else is unchanged.
pub open spec fn ascii_lower_char(c: char) -> char {
    if 'A' <= c && c <= 'Z' {
        ((c as u32) + 32) as char
    } else {
        c
    }
}

/// `s` lowercased character by character under the ASCII mapping.
pub open spec fn ascii_lower_seq(s: Seq<char>) -> Seq<char> {
    s.map_values(|c: char| ascii_lower_char(c))
}

/// Relies on alloc's `str::to_lowercase`: the result is the Unicode lowercase
/// form of the input, a function of its characters alone; on ASCII input each
/// character is lowercased in place (`A`..`Z` become `a`..`z`, all other
/// ASCII characters stay as they are).
#[verifier::external_body]
pub(crate) fn lowercase(s: &str) -> (r: String)
    ensures
        r@ == lower_of(s@),
        is_ascii_seq(s@) ==> r@ == ascii_lower_seq(s@),
{
    s.to_lowercase()
}

/// Lowercasing each character preserves substring occurrences: if `p` occurs
/// in `t`, then the per-character ASCII lowercase form of `p` occurs in the
/// per-character ASCII lowercase form of `t`.
pub proof fn lemma_ascii_lower_preserves_substring(t: Seq<char>, p: Seq<char>)
    requires
        has_substring(t, p),
    ensures
        has_substring(ascii_lower_seq(t), ascii_lower_seq(p)),
{
    let i = choose|i: int| matches_at(t, p, i);
    let lt = ascii_lower_seq(t);
    let lp = ascii_lower_seq(p);
    assert(lt.subrange(i, i + lp.len()) =~= lp) by {
        assert forall|j: int| 0 <= j < lp.len() implies lt.subrange(i, i + lp.len())[j]
            == lp[j] by {
            assert(t.subrange(i, i + p.len())[j] == p[j]);
            assert(lt[i + j] == ascii_lower_char(t[i + j]));
        }
    }
    assert(matches_at(lt, lp, i));
}

/// Every line of an ASCII text is itself ASCII.
pub proof fn lemma_lines_of_ascii(s: Seq<char>)
    requires
        is_ascii_seq(s),
    ensures
        forall|k: int| 0 <= k < lines_of(s).len() ==> is_ascii_seq(#[trigger] lines_of(s)[k]),
    decreases s.len(),
{
    if s.len() == 0 {
    } else {
        let i = first_newline(s);
        lemma_first_newline_bounds(s);
        if 0 <= i < s.len() {
            let head = s.take(i);
            assert forall|j: int| 0 <= j < head.len() implies #[trigger] head[j] <= '\x7f' by {
                assert(head[j] == s[j]);
            }
            assert(is_ascii_seq(drop_trailing_cr(head))) by {
                assert forall|j: int| 0 <= j < drop_trailing_cr(head).len() implies #[trigger]
                    drop_trailing_cr(head)[j] <= '\x7f' by {
                    assert(drop_trailing_cr(head)[j] == head[j]);
                }
            }
            let rest = s.skip(i + 1);
            assert forall|j: int| 0 <= j < rest.len() implies #[trigger] rest[j] <= '\x7f' by {
                assert(rest[j] == s[i + 1 + j]);
            }
            lemma_lines_of_ascii(rest);
            assert forall|k: int| 0 <= k < lines_of(s).len() implies is_ascii_seq(
                #[trigger] lines_of(s)[k],
            ) by {
                if k == 0 {
                    assert(lines_of(s)[0] == drop_trailing_cr(head));
                } else {
                    assert(lines_of(s)[k] == lines_of(rest)[k - 1]);
                }
            }
        }
    }
}

} // verus!
