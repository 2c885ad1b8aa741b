//! Scanning primitives shared by the instruction and expression tokenizers
//! and the block parser: whitespace runs and string literals.
use vstd::prelude::*;

use crate::text::{is_ascii_ws, is_ascii_ws_char};

verus! {

/// First index at or after `i` (and before `end`) that is not ASCII
/// whitespace, or `end`.
pub open spec fn skip_ws_spec(s: Seq<char>, i: int, end: int) -> int
    decreases end - i,
{
    if i < end && is_ascii_ws(s[i]) {
        skip_ws_spec(s, i + 1, end)
    } else {
        i
    }
}

/// Scans the body of a string literal that starts at `i` (just after the
/// opening quote): a backslash skips the next character, a quote ends the
/// literal. Returns the index just past the closing quote, or `end` if the
/// span ends first, or `end + 1` if the span ends right after a backslash.
pub open spec fn quoted_end(s: Seq<char>, i: int, end: int) -> int
    decreases end + 1 - i,
{
    if i >= end {
        i
    } else if s[i] == '\\' {
        quoted_end(s, i + 2, end)
    } else if s[i] == '"' {
        i + 1
    } else {
        quoted_end(s, i + 1, end)
    }
}

pub proof fn lemma_skip_ws_bounds(s: Seq<char>, i: int, end: int)
    requires
        i <= end,
    ensures
        i <= skip_ws_spec(s, i, end) <= end,
        skip_ws_spec(s, i, end) < end ==> !is_ascii_ws(s[skip_ws_spec(s, i, end)]),
    decreases end - i,
{
    if i < end && is_ascii_ws(s[i]) {
        lemma_skip_ws_bounds(s, i + 1, end);
    }
}

pub proof fn lemma_quoted_end_bounds(s: Seq<char>, i: int, end: int)
    requires
        i <= end,
    ensures
        i <= quoted_end(s, i, end) <= end + 1,
        i < end ==> i < quoted_end(s, i, end),
    decreases end + 1 - i,
{
    if i < end {
        if s[i] == '\\' {
            if i + 2 <= end {
                lemma_quoted_end_bounds(s, i + 2, end);
            } else {
                assert(quoted_end(s, i + 2, end) == i + 2);
            }
        } else if s[i] != '"' {
            lemma_quoted_end_bounds(s, i + 1, end);
        }
    }
}

/// Skips ASCII whitespace in `cs[i..end]`.
pub fn skip_ws(cs: &Vec<char>, i: usize, end: usize) -> (r: usize)
    requires
        i <= end <= cs@.len(),
    ensures
        r == skip_ws_spec(cs@, i as int, end as int),
        i <= r <= end,
{
    proof { lemma_skip_ws_bounds(cs@, i as int, end as int); }
    let mut j = i;
    while j < end && is_ascii_ws_char(cs[j])
        invariant
            i <= j <= end <= cs@.len(),
            skip_ws_spec(cs@, j as int, end as int) == skip_ws_spec(cs@, i as int, end as int),
        decreases end - j,
    {
        j += 1;
    }
    j
}

/// Scans a string literal body starting at `i`; see [`quoted_end`].
pub fn scan_quoted(cs: &Vec<char>, i: usize, end: usize) -> (r: usize)
    requires
        i <= end <= cs@.len(),
        end < usize::MAX,
    ensures
        r == quoted_end(cs@, i as int, end as int),
{
    let mut j = i;
    while j < end
        invariant
            i <= j <= end + 1,
            end <= cs@.len(),
            end < usize::MAX,
            quoted_end(cs@, j as int, end as int) == quoted_end(cs@, i as int, end as int),
        decreases end + 2 - j,
    {
        if cs[j] == '\\' {
            j += 2;
        } else if cs[j] == '"' {
            return j + 1;
        } else {
            j += 1;
        }
    }
    j
}

} // verus!
