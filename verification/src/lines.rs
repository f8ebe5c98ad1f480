//! Splitting text into lines.
//!
//! A line ends at a `\n` or at a `\r\n` pair; the terminator is not part of
//! the line.  A final terminator is optional: text that ends with one yields
//! the same lines as the same text without it.  A `\r` that is not followed
//! by `\n` is an ordinary character.

use vstd::prelude::*;

verus! {

/// Position of the first `\n` in `s`, or `s.len()` if there is none.
pub open spec fn first_newline(s: Seq<char>) -> int
    decreases s.len(),
{
    if s.len() == 0 {
        0
    } else if s[0] == '\n' {
        0
    } else {
        1 + first_newline(s.skip(1))
    }
}

/// A line as delimited by `\n`, with one trailing `\r` removed.
pub open spec fn drop_trailing_cr(l: Seq<char>) -> Seq<char> {
    if l.len() > 0 && l[l.len() - 1] == '\r' {
        l.drop_last()
    } else {
        l
    }
}

/// The lines of `s`, in order, without their terminators.
pub open spec fn lines_of(s: Seq<char>) -> Seq<Seq<char>>
    decreases s.len(),
{
    if s.len() == 0 {
        Seq::empty()
    } else {
        let i = first_newline(s);
        if 0 <= i < s.len() {
            seq![drop_trailing_cr(s.take(i))] + lines_of(s.skip(i + 1))
        } else {
            seq![s]
        }
    }
}

/// `first_newline` is in bounds, everything before it is not `\n`, and it
/// points at a `\n` whenever one exists.
pub proof fn lemma_first_newline_bounds(s: Seq<char>)
    ensures
        0 <= first_newline(s) <= s.len(),
        forall|j: int| 0 <= j < first_newline(s) ==> s[j] != '\n',
        first_newline(s) < s.len() ==> s[first_newline(s)] == '\n',
    decreases s.len(),
{
    if s.len() == 0 {
    } else if s[0] == '\n' {
    } else {
        lemma_first_newline_bounds(s.skip(1));
        assert(forall|j: int| 1 <= j < first_newline(s) ==> s[j] == s.skip(1)[j - 1]);
    }
}

/// `first_newline` is the unique position with no `\n` before it that either
/// holds a `\n` or is the end of the text.
pub proof fn lemma_first_newline_is(s: Seq<char>, i: int)
    requires
        0 <= i <= s.len(),
        forall|j: int| 0 <= j < i ==> s[j] != '\n',
        i < s.len() ==> s[i] == '\n',
    ensures
        first_newline(s) == i,
    decreases s.len(),
{
    if i == 0 {
    } else {
        assert(s[0] != '\n');
        lemma_first_newline_is(s.skip(1), i - 1);
    }
}

/// The views of a sequence of borrowed string slices.
pub open spec fn line_views(v: Seq<&str>) -> Seq<Seq<char>> {
    v.map_values(|l: &str| l@)
}

/// Splits `s` into its lines, each a slice of `s`.
pub fn split_lines<'a>(s: &'a str) -> (r: Vec<&'a str>)
    ensures
        line_views(r@) == lines_of(s@),
{
    let n = s.unicode_len();
    let mut out: Vec<&'a str> = Vec::new();
    proof {
        assert(s@.skip(0) =~= s@);
        assert(line_views(out@) + lines_of(s@) =~= lines_of(s@));
    }
    let mut start: usize = 0;
    let mut i: usize = 0;
    while i < n
        invariant
            n == s@.len(),
            start <= i <= n,
            line_views(out@) + lines_of(s@.skip(start as int)) == lines_of(s@),
            forall|j: int| start <= j < i ==> s@[j] != '\n',
        decreases n - i,
    {
        let c = s.get_char(i);
        if c == '\n' {
            let end = if i > start && s.get_char(i - 1) == '\r' {
                i - 1
            } else {
                i
            };
            let line = s.substring_char(start, end);
            proof {
                let st = start as int;
                let ii = i as int;
                let rest = s@.skip(st);
                assert(forall|j: int| 0 <= j < ii - st ==> rest[j] == s@[st + j]);
                lemma_first_newline_is(rest, ii - st);
                assert(rest.take(ii - st) =~= s@.subrange(st, ii));
                assert(drop_trailing_cr(s@.subrange(st, ii)) =~= s@.subrange(st, end as int));
                assert(rest.skip(ii - st + 1) =~= s@.skip(ii + 1));
                assert(lines_of(rest) == seq![s@.subrange(st, end as int)] + lines_of(
                    s@.skip(ii + 1),
                ));
                assert(line_views(out@.push(line)) =~= line_views(out@) + seq![line@]);
                assert((line_views(out@) + seq![line@]) + lines_of(s@.skip(ii + 1)) =~= line_views(
                    out@,
                ) + lines_of(rest));
            }
            out.push(line);
            start = i + 1;
        }
        i += 1;
    }
    if start < n {
        let line = s.substring_char(start, n);
        proof {
            let st = start as int;
            let rest = s@.skip(st);
            assert(forall|j: int| 0 <= j < rest.len() ==> rest[j] == s@[st + j]);
            lemma_first_newline_is(rest, rest.len() as int);
            assert(rest =~= s@.subrange(st, n as int));
            assert(lines_of(rest) == seq![s@.subrange(st, n as int)]);
            assert(line_views(out@.push(line)) =~= line_views(out@) + seq![line@]);
        }
        out.push(line);
    } else {
        proof {
            assert(s@.skip(start as int).len() == 0);
            assert(lines_of(s@.skip(start as int)) == Seq::<Seq<char>>::empty());
            assert(line_views(out@) + Seq::<Seq<char>>::empty() =~= line_views(out@));
        }
    }
    out
}

} // verus!
