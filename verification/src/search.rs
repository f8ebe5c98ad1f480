//! Line-oriented substring search, case-sensitive and case-insensitive.

use vstd::prelude::*;
use crate::casefold::{
    ascii_lower_seq, is_ascii_seq, lemma_ascii_lower_preserves_substring, lemma_lines_of_ascii,
    lower_of, lowercase,
};
use crate::config::Config;
use crate::lines::{line_views, lines_of, split_lines};
use crate::text::{contains_substring, has_substring};

verus! {

/// Whether a line matches the query under the given case policy: literally,
/// or with both sides lowercased.
pub open spec fn line_matches(l: Seq<char>, q: Seq<char>, case_sensitive: bool) -> bool {
    if case_sensitive {
        has_substring(l, q)
    } else {
        has_substring(lower_of(l), lower_of(q))
    }
}

/// The subsequence of `ls` whose elements match `q` under the given case
/// policy, in their original order.
pub open spec fn matching_lines(ls: Seq<Seq<char>>, q: Seq<char>, case_sensitive: bool) -> Seq<
    Seq<char>,
>
    decreases ls.len(),
{
    if ls.len() == 0 {
        Seq::empty()
    } else if line_matches(ls.last(), q, case_sensitive) {
        matching_lines(ls.drop_last(), q, case_sensitive).push(ls.last())
    } else {
        matching_lines(ls.drop_last(), q, case_sensitive)
    }
}

/// Every reported line is one of the input lines and matches the query.
pub proof fn lemma_matching_lines_sound(ls: Seq<Seq<char>>, q: Seq<char>, case_sensitive: bool)
    ensures
        forall|k: int| 0 <= k < matching_lines(ls, q, case_sensitive).len() ==> ls.contains(
            #[trigger] matching_lines(ls, q, case_sensitive)[k],
        ) && line_matches(matching_lines(ls, q, case_sensitive)[k], q, case_sensitive),
    decreases ls.len(),
{
    if ls.len() == 0 {
    } else {
        lemma_matching_lines_sound(ls.drop_last(), q, case_sensitive);
        let m = matching_lines(ls, q, case_sensitive);
        let md = matching_lines(ls.drop_last(), q, case_sensitive);
        assert forall|k: int| 0 <= k < m.len() implies ls.contains(#[trigger] m[k]) && line_matches(
            m[k],
            q,
            case_sensitive,
        ) by {
            if k < md.len() {
                assert(m[k] == md[k]);
                assert(ls.drop_last().contains(md[k]));
                let w = choose|w: int| 0 <= w < ls.drop_last().len() && ls.drop_last()[w] == md[k];
                assert(ls[w] == md[k]);
            } else {
                assert(m[k] == ls.last());
                assert(ls[ls.len() - 1] == ls.last());
            }
        }
    }
}

/// Every input line that matches the query is reported.
pub proof fn lemma_matching_lines_complete(ls: Seq<Seq<char>>, q: Seq<char>, case_sensitive: bool)
    ensures
        forall|j: int|
            0 <= j < ls.len() && line_matches(#[trigger] ls[j], q, case_sensitive)
                ==> matching_lines(ls, q, case_sensitive).contains(ls[j]),
    decreases ls.len(),
{
    if ls.len() == 0 {
    } else {
        lemma_matching_lines_complete(ls.drop_last(), q, case_sensitive);
        let m = matching_lines(ls, q, case_sensitive);
        let md = matching_lines(ls.drop_last(), q, case_sensitive);
        assert forall|j: int|
            0 <= j < ls.len() && line_matches(#[trigger] ls[j], q, case_sensitive) implies m
            .contains(ls[j]) by {
            if j < ls.len() - 1 {
                assert(ls.drop_last()[j] == ls[j]);
                assert(md.contains(ls[j]));
                let w = choose|w: int| 0 <= w < md.len() && md[w] == ls[j];
                assert(m[w] == ls[j]);
            } else {
                assert(ls[j] == ls.last());
                assert(m.last() == ls.last());
            }
        }
    }
}

/// Returns the lines of `contents` that contain `query` literally, as slices
/// of `contents`, in their original order.
pub fn search_case_sensitive<'a>(query: &str, contents: &'a str) -> (r: Vec<&'a str>)
    ensures
        line_views(r@) == matching_lines(lines_of(contents@), query@, true),
{
    let lines = split_lines(contents);
    let mut results: Vec<&'a str> = Vec::new();
    proof {
        assert(line_views(results@) =~= matching_lines(
            line_views(lines@).take(0),
            query@,
            true,
        ));
    }
    let n = lines.len();
    let mut k: usize = 0;
    while k < n
        invariant
            n == lines@.len(),
            k <= n,
            line_views(lines@) == lines_of(contents@),
            line_views(results@) == matching_lines(line_views(lines@).take(k as int), query@, true),
        decreases n - k,
    {
        let line = lines[k];
        let found = contains_substring(line, query);
        proof {
            let lv = line_views(lines@);
            let kk = k as int;
            assert(lv.take(kk + 1).drop_last() =~= lv.take(kk));
            assert(lv.take(kk + 1).last() == lv[kk]);
            assert(lv[kk] == line@);
            if found {
                assert(line_views(results@.push(line)) =~= line_views(results@).push(line@));
            }
        }
        if found {
            results.push(line);
        }
        k += 1;
    }
    proof {
        assert(line_views(lines@).take(n as int) =~= line_views(lines@));
    }
    results
}

/// When lowering acts character by character on the query and on every line,
/// every line that matches the query literally also matches it
/// case-insensitively.
pub proof fn lemma_sensitive_subset_insensitive(ls: Seq<Seq<char>>, q: Seq<char>)
    requires
        lower_of(q) == ascii_lower_seq(q),
        forall|k: int| 0 <= k < ls.len() ==> lower_of(#[trigger] ls[k]) == ascii_lower_seq(ls[k]),
    ensures
        forall|l: Seq<char>|
            matching_lines(ls, q, true).contains(l) ==> matching_lines(ls, q, false).contains(l),
{
    lemma_matching_lines_sound(ls, q, true);
    lemma_matching_lines_complete(ls, q, false);
    let ms = matching_lines(ls, q, true);
    let mi = matching_lines(ls, q, false);
    assert forall|l: Seq<char>| ms.contains(l) implies mi.contains(l) by {
        let k = choose|k: int| 0 <= k < ms.len() && ms[k] == l;
        assert(ls.contains(l) && has_substring(l, q));
        let w = choose|w: int| 0 <= w < ls.len() && ls[w] == l;
        lemma_ascii_lower_preserves_substring(l, q);
        assert(has_substring(lower_of(ls[w]), lower_of(q)));
        assert(mi.contains(ls[w]));
    }
}

/// Returns the lines of `contents` whose lowercase form contains the
/// lowercase form of `query`, as slices of `contents`, in their original
/// order and with their original casing.  On ASCII input this includes every
/// line that `search_case_sensitive` would report.
pub fn search_case_insensitive<'a>(query: &str, contents: &'a str) -> (r: Vec<&'a str>)
    ensures
        line_views(r@) == matching_lines(lines_of(contents@), query@, false),
        is_ascii_seq(query@) && is_ascii_seq(contents@) ==> forall|l: Seq<char>|
            matching_lines(lines_of(contents@), query@, true).contains(l) ==> matching_lines(
                lines_of(contents@),
                query@,
                false,
            ).contains(l),
{
    let lowered_query = lowercase(query);
    let lines = split_lines(contents);
    let mut results: Vec<&'a str> = Vec::new();
    proof {
        assert(line_views(results@) =~= matching_lines(
            line_views(lines@).take(0),
            query@,
            false,
        ));
    }
    let n = lines.len();
    let mut k: usize = 0;
    while k < n
        invariant
            n == lines@.len(),
            k <= n,
            line_views(lines@) == lines_of(contents@),
            lowered_query@ == lower_of(query@),
            is_ascii_seq(query@) ==> lower_of(query@) == ascii_lower_seq(query@),
            line_views(results@) == matching_lines(
                line_views(lines@).take(k as int),
                query@,
                false,
            ),
            forall|j: int|
                0 <= j < k ==> (is_ascii_seq(#[trigger] line_views(lines@)[j]) ==> lower_of(
                    line_views(lines@)[j],
                ) == ascii_lower_seq(line_views(lines@)[j])),
        decreases n - k,
    {
        let line = lines[k];
        let lowered_line = lowercase(line);
        let found = contains_substring(lowered_line.as_str(), lowered_query.as_str());
        proof {
            let lv = line_views(lines@);
            let kk = k as int;
            assert(lv.take(kk + 1).drop_last() =~= lv.take(kk));
            assert(lv.take(kk + 1).last() == lv[kk]);
            assert(lv[kk] == line@);
            assert(found == line_matches(line@, query@, false));
            if found {
                assert(line_views(results@.push(line)) =~= line_views(results@).push(line@));
            }
        }
        if found {
            results.push(line);
        }
        k += 1;
    }
    proof {
        let lv = line_views(lines@);
        assert(lv.take(n as int) =~= lv);
        if is_ascii_seq(query@) && is_ascii_seq(contents@) {
            lemma_lines_of_ascii(contents@);
            assert forall|j: int| 0 <= j < lv.len() implies lower_of(#[trigger] lv[j])
                == ascii_lower_seq(lv[j]) by {
                assert(is_ascii_seq(lv[j]));
            }
            lemma_sensitive_subset_insensitive(lv, query@);
        }
    }
    results
}

/// Runs the search that a configuration asks for: its query against
/// `contents`, under its case policy.
pub fn run_search<'a>(config: &Config, contents: &'a str) -> (r: Vec<&'a str>)
    ensures
        line_views(r@) == matching_lines(
            lines_of(contents@),
            config.query@,
            config.case_sensitive,
        ),
{
    if config.case_sensitive {
        search_case_sensitive(config.query.as_str(), contents)
    } else {
        search_case_insensitive(config.query.as_str(), contents)
    }
}

} // verus!
