//! Range extension over source text.
//!
//! Source text is a sequence of Unicode scalar values; every position is an
//! index into that sequence.  Deleting a comment should also swallow the
//! whitespace that follows it (up to the next visible character), so that no
//! blank residue is left where the comment stood.

use vstd::prelude::*;

verus! {

/// Whether `c` is a whitespace scalar value (the Unicode `White_Space` set).
pub open spec fn is_space_char(c: char) -> bool {
    let u = c as u32;
    (9 <= u && u <= 13) || u == 0x20 || u == 0x85 || u == 0xA0 || u == 0x1680
        || (0x2000 <= u && u <= 0x200A) || u == 0x2028 || u == 0x2029 || u == 0x202F
        || u == 0x205F || u == 0x3000
}

/// Executable test for [`is_space_char`].
pub fn is_space(c: char) -> (r: bool)
    ensures
        r == is_space_char(c),
{
    let u = c as u32;
    (9 <= u && u <= 13) || u == 0x20 || u == 0x85 || u == 0xA0 || u == 0x1680
        || (0x2000 <= u && u <= 0x200A) || u == 0x2028 || u == 0x2029 || u == 0x202F
        || u == 0x205F || u == 0x3000
}

/// The first position at or after `i` holding a non-whitespace character,
/// or the end of the text if only whitespace remains.
pub open spec fn spec_next_non_space(t: Seq<char>, i: int) -> int
    recommends
        0 <= i <= t.len(),
    decreases t.len() - i when 0 <= i <= t.len()
{
    if i >= t.len() {
        i
    } else if !is_space_char(t[i]) {
        i
    } else {
        spec_next_non_space(t, i + 1)
    }
}

/// Every character of `t` in `[start, spec_next_non_space(t, start))` is
/// whitespace, and the result is `t.len()` or sits on a non-whitespace
/// character.
pub proof fn lemma_next_non_space(t: Seq<char>, start: int)
    requires
        0 <= start <= t.len(),
    ensures
        start <= spec_next_non_space(t, start) <= t.len(),
        forall|j: int| start <= j < spec_next_non_space(t, start) ==> is_space_char(t[j]),
        spec_next_non_space(t, start) < t.len() ==> !is_space_char(t[spec_next_non_space(t, start)]),
    decreases t.len() - start,
{
    if start < t.len() && is_space_char(t[start]) {
        lemma_next_non_space(t, start + 1);
    }
}

/// Scans forward from `start` past whitespace and returns the position of the
/// first non-whitespace character, or the end of the text.
pub fn next_non_whitespace_pos(text: &Vec<char>, start: usize) -> (r: usize)
    requires
        start <= text@.len(),
    ensures
        r == spec_next_non_space(text@, start as int),
{
    let mut i = start;
    while i < text.len() && is_space(text[i])
        invariant
            start <= i <= text@.len(),
            spec_next_non_space(text@, start as int) == spec_next_non_space(text@, i as int),
        decreases text@.len() - i,
    {
        i = i + 1;
    }
    i
}

} // verus!
