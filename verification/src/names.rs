//! The name of a handler, taken from the path of its type.

use vstd::prelude::*;
use crate::text::{from_chars, to_chars};
use vstd::slice::slice_subrange;

verus! {

/// `::` stands at index `i` of `s`.
pub open spec fn separator_at(s: Seq<char>, i: int) -> bool {
    0 <= i && i + 1 < s.len() && s[i] == ':' && s[i + 1] == ':'
}

/// Where the last segment of `s` starts. Segments are parted by `::`, read
/// from left to right; `start` is where the segment that holds index `i`
/// starts.
pub open spec fn segment_start(s: Seq<char>, i: int, start: int) -> int
    decreases s.len() - i,
{
    if 0 <= i && i + 1 < s.len() {
        if separator_at(s, i) {
            segment_start(s, i + 2, i + 2)
        } else {
            segment_start(s, i + 1, start)
        }
    } else {
        start
    }
}

/// The last of the segments of `s` that `::` parts.
pub open spec fn last_segment(s: Seq<char>) -> Seq<char> {
    s.skip(segment_start(s, 0, 0))
}

/// No `::` stands in `s`.
pub open spec fn no_separator(s: Seq<char>) -> bool {
    forall|i: int| !separator_at(s, i)
}

/// The last segment starts inside the text, and no `::` stands behind its
/// start.
pub proof fn lemma_segment_start(s: Seq<char>, i: int, start: int)
    requires
        0 <= start <= i,
        start <= s.len(),
        forall|k: int| start <= k < i ==> !separator_at(s, k),
    ensures
        start <= segment_start(s, i, start) <= s.len(),
        forall|k: int| segment_start(s, i, start) <= k ==> !separator_at(s, k),
    decreases s.len() - i,
{
    if i + 1 < s.len() {
        if separator_at(s, i) {
            lemma_segment_start(s, i + 2, i + 2);
        } else {
            lemma_segment_start(s, i + 1, start);
        }
    }
}

/// The last segment holds no `::`.
pub proof fn lemma_last_segment_is_whole(s: Seq<char>)
    ensures
        no_separator(last_segment(s)),
{
    lemma_segment_start(s, 0, 0);
    let start = segment_start(s, 0, 0);
    let tail = last_segment(s);
    assert forall|i: int| !separator_at(tail, i) by {
        if separator_at(tail, i) {
            assert(separator_at(s, start + i));
        }
    }
}

/// The name of a handler, given the name of its type: the last of the
/// segments that `::` parts. It holds no `::`.
pub fn function_name(path: &str) -> (r: String)
    ensures
        r@ == last_segment(path@),
        no_separator(r@),
{
    let chars = to_chars(path);
    let mut start: usize = 0;
    let mut i: usize = 0;
    while i < chars.len() && i + 1 < chars.len()
        invariant
            start <= i,
            start <= chars.len(),
            i <= chars.len() + 1,
            segment_start(chars@, 0, 0) == segment_start(chars@, i as int, start as int),
        decreases chars.len() + 1 - i,
    {
        if chars[i] == ':' && chars[i + 1] == ':' {
            i += 2;
            start = i;
        } else {
            i += 1;
        }
    }
    proof {
        lemma_last_segment_is_whole(chars@);
    }
    from_chars(slice_subrange(chars.as_slice(), start, chars.len()))
}

} // verus!
