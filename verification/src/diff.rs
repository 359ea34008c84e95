//! Splitting of a diff hunk header into its line-range part and its
//! context part.
//!
//! A hunk header has the shape `@@ -a,b +c,d @@ context`: the line-range
//! part ends just after the fourth `@`, and everything after it is
//! context. A header with fewer than four `@` characters has an empty
//! line-range part and is all context.

use vstd::prelude::*;

use crate::io::spec_trimmed;
use crate::io::trimmed_str;

verus! {

/// Index just past the fourth `@` of `s`, scanning from `i` with `seen`
/// of them already behind, or `0` when there are fewer than four.
pub open spec fn split_point(s: Seq<char>, i: int, seen: int) -> int
    decreases s.len() - i,
{
    if i < 0 || i >= s.len() {
        0
    } else if s[i] == '@' {
        if seen >= 3 {
            i + 1
        } else {
            split_point(s, i + 1, seen + 1)
        }
    } else {
        split_point(s, i + 1, seen)
    }
}

/// The scan never leaves the string.
proof fn lemma_split_point_bounds(s: Seq<char>, i: int, seen: int)
    requires
        0 <= i <= s.len(),
    ensures
        0 <= split_point(s, i, seen) <= s.len(),
    decreases s.len() - i,
{
    if i < s.len() {
        lemma_split_point_bounds(s, i + 1, seen + 1);
        lemma_split_point_bounds(s, i + 1, seen);
    }
}

/// A hunk header split into its trimmed line-range part and its trimmed
/// context part.
pub open spec fn spec_split_header(s: Seq<char>) -> (Seq<char>, Seq<char>) {
    let e = split_point(s, 0, 0);
    (spec_trimmed(s.subrange(0, e)), spec_trimmed(s.subrange(e, s.len() as int)))
}

/// Splits a hunk header into its line-range part and its context part,
/// both trimmed.
pub fn split_header(header: &str) -> (r: (String, String))
    ensures
        r.0@ == spec_split_header(header@).0,
        r.1@ == spec_split_header(header@).1,
{
    let len = header.unicode_len();
    let mut i: usize = 0;
    let mut seen: u32 = 0;
    let mut lines_end: usize = 0;
    proof {
        lemma_split_point_bounds(header@, 0, 0);
    }
    loop
        invariant_except_break
            lines_end == 0,
        invariant
            i <= len,
            len == header@.len(),
            seen <= 3,
            split_point(header@, 0, 0) == split_point(header@, i as int, seen as int),
        ensures
            lines_end as int == split_point(header@, 0, 0),
            lines_end <= len,
        decreases len - i,
    {
        if i >= len {
            break ;
        }
        let c = header.get_char(i);
        if c == '@' {
            if seen >= 3 {
                lines_end = i + 1;
                break ;
            }
            seen = seen + 1;
        }
        i = i + 1;
    }
    let head = header.substring_char(0, lines_end);
    let tail = header.substring_char(lines_end, len);
    let first = trimmed_str(head);
    let second = trimmed_str(tail);
    (first, second)
}

} // verus!
