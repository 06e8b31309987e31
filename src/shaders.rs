use vstd::prelude::*;
use crate::text::{chars_of, index_of_from, index_of_from_exec, lemma_index_of_from, matches_at, occurs_at, slice_text};

verus! {

/// The text that starts an include line of a shader: a line break, then
/// `#include "`.
pub open spec fn include_mark() -> Seq<char> {
    seq!['\n', '#', 'i', 'n', 'c', 'l', 'u', 'd', 'e', ' ', '"']
}

/// The position of the first occurrence of `p` in `s` at or after `i`.
pub open spec fn first_occurrence(s: Seq<char>, p: Seq<char>, i: int) -> Option<int>
    decreases s.len() + 1 - i,
{
    if i < 0 || i > s.len() {
        None
    } else if occurs_at(s, p, i) {
        Some(i)
    } else {
        first_occurrence(s, p, i + 1)
    }
}

/// An include line found in a shader: it spans `start..end` (from the line
/// break before `#include` to the closing quote) and names `path`.
pub struct Include {
    pub start: usize,
    pub end: usize,
    pub path: String,
}

/// The include to expand next: the first include mark, unless that stands
/// at the very start of the text, in which case there is none. The path runs
/// to the next quote, or to the end of the text.
pub open spec fn pending_include(s: Seq<char>) -> Option<(int, int, Seq<char>)> {
    match first_occurrence(s, include_mark(), 0) {
        Some(i) => if i == 0 {
            None
        } else {
            let q = index_of_from(s, '"', i + 11);
            Some((i, if q < s.len() { q + 1 } else { q }, s.subrange(i + 11, q)))
        },
        None => None,
    }
}

/// Finds the include to expand next (see `pending_include`).
pub fn next_include(contents: &str) -> (r: Option<Include>)
    ensures
        match pending_include(contents@) {
            Some((start, end, path)) => r is Some && r->Some_0.start == start && r->Some_0.end == end
                && r->Some_0.path@ == path,
            None => r is None,
        },
{
    let cs = chars_of(contents);
    let mark = vec!['\n', '#', 'i', 'n', 'c', 'l', 'u', 'd', 'e', ' ', '"'];
    assert(mark@ == include_mark());
    let n = cs.len();
    let mut i: usize = 0;
    while i < n && !matches_at(&cs, &mark, i)
        invariant
            cs@ == contents@,
            mark@ == include_mark(),
            n == cs@.len(),
            i <= n,
            first_occurrence(contents@, include_mark(), 0) == first_occurrence(contents@, include_mark(), i as int),
        decreases n - i,
    {
        i = i + 1;
    }
    if !matches_at(&cs, &mark, i) {
        assert(first_occurrence(contents@, include_mark(), i + 1) is None);
        return None;
    }
    if i == 0 {
        return None;
    }
    let q = index_of_from_exec(&cs, '"', i + 11);
    proof {
        lemma_index_of_from(contents@, '"', i + 11);
    }
    let end = if q < n {
        q + 1
    } else {
        q
    };
    Some(Include { start: i, end, path: slice_text(contents, i + 11, q) })
}

/// A shader with one include line expanded: a line whose preceding text ends
/// in a space or a slash is taken for commented out and removed; otherwise
/// the included source, followed by three line breaks, takes its place.
pub open spec fn expanded(s: Seq<char>, start: int, end: int, source: Seq<char>) -> Seq<char> {
    if s[start - 1] == ' ' || s[start - 1] == '/' {
        s.subrange(0, start) + s.subrange(end, s.len() as int)
    } else {
        s.subrange(0, start) + source + "\n\n\n"@ + s.subrange(end, s.len() as int)
    }
}

/// Expands one include line (see `expanded`).
pub fn expand_include(contents: &str, directive: &Include, source: &str) -> (r: String)
    requires
        0 < directive.start <= directive.end <= contents@.len(),
    ensures
        r@ == expanded(contents@, directive.start as int, directive.end as int, source@),
{
    let n = contents.unicode_len();
    let before = contents.get_char(directive.start - 1);
    let mut out = slice_text(contents, 0, directive.start);
    if before != ' ' && before != '/' {
        out.append(source);
        out.append("\n\n\n");
    }
    out.append(contents.substring_char(directive.end, n));
    out
}

} // verus!
