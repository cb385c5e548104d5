//! Rune (Unicode scalar) offset arithmetic.
//!
//! Element offsets in `content.xml` (`startOffset` / `length`) count Unicode scalars, not
//! UTF-16 code units and not bytes. A Rust `char` is a Unicode scalar, so a string's view
//! (its sequence of `char`s) is exactly the sequence these offsets index.
//!
//! Callers slice the *raw* CDATA by scalar offset first, and only then clean the sliced
//! text; cleaning first would shift every later offset.

use vstd::prelude::*;
use crate::text::chars_of;

verus! {

/// The scalars `[start, start + len)` of `s`, when that range lies inside `s`.
pub open spec fn spec_rune_slice(s: Seq<char>, start: int, len: int) -> Option<Seq<char>> {
    if start + len <= s.len() {
        Some(s.subrange(start, start + len))
    } else {
        None
    }
}

/// The lenient slice: negative `start`/`len` count as 0, and the range is clamped into `s`.
pub open spec fn spec_rune_substring_clamped(s: Seq<char>, start: int, len: int) -> Seq<char> {
    let st = if start < 0 { 0 } else if start > s.len() { s.len() as int } else { start };
    let ln = if len < 0 { 0 } else { len };
    let end = if st + ln > s.len() { s.len() as int } else { st + ln };
    s.subrange(st, end)
}

/// The string made of `chars[from..to]`.
pub fn string_of_range(chars: &Vec<char>, from: usize, to: usize) -> (r: String)
    requires
        from <= to <= chars.len(),
    ensures
        r@ == chars@.subrange(from as int, to as int),
{
    let mut out = String::new();
    let mut i = from;
    while i < to
        invariant
            from <= i <= to <= chars.len(),
            out@ == chars@.subrange(from as int, i as int),
        decreases to - i,
    {
        out.push(chars[i]);
        i = i + 1;
        assert(out@ =~= chars@.subrange(from as int, i as int));
    }
    out
}

/// Total number of Unicode scalars (runes) in `s`.
pub fn rune_len(s: &str) -> (n: usize)
    ensures
        n == s@.len(),
{
    chars_of(s).len()
}

/// The substring of `s` spanning scalars `[start, start + len)`, or `None` when the range
/// extends past the end of `s` (a zero-length slice past the end is out of range too).
pub fn rune_slice(s: &str, start: usize, len: usize) -> (r: Option<String>)
    ensures
        match r {
            Some(t) => spec_rune_slice(s@, start as int, len as int) == Some(t@),
            None => spec_rune_slice(s@, start as int, len as int) is None,
        },
{
    let chars = chars_of(s);
    let total = chars.len();
    let end = match start.checked_add(len) {
        Some(e) => e,
        None => {
            assert(start + len > total);
            return None;
        },
    };
    if end > chars.len() {
        return None;
    }
    Some(string_of_range(&chars, start, end))
}

/// Lenient rune substring for the parser: clamps the range into bounds instead of failing.
/// Negative `start`/`len` are treated as 0, `start` is clamped to the string length, and
/// the end is clamped to the string end.
pub fn rune_substring_clamped(s: &str, start: i64, len: i64) -> (r: String)
    ensures
        r@ == spec_rune_substring_clamped(s@, start as int, len as int),
{
    let chars = chars_of(s);
    let total = chars.len();
    let st: usize = if start < 0 {
        0
    } else if start as u64 >= total as u64 {
        total
    } else {
        start as usize
    };
    let ln: u64 = if len < 0 { 0 } else { len as u64 };
    let end: usize = if ln >= (total - st) as u64 { total } else { st + ln as usize };
    string_of_range(&chars, st, end)
}

/// A strict slice has exactly the requested number of scalars.
pub proof fn lemma_rune_slice_len(s: Seq<char>, start: int, len: int)
    requires
        0 <= start,
        0 <= len,
        spec_rune_slice(s, start, len) is Some,
    ensures
        spec_rune_slice(s, start, len).unwrap().len() == len,
{
}

/// Where the requested range lies inside the string, the lenient slice and the strict
/// slice agree.
pub proof fn lemma_clamped_matches_strict(s: Seq<char>, start: int, len: int)
    requires
        0 <= start,
        0 <= len,
        start + len <= s.len(),
    ensures
        spec_rune_slice(s, start, len) == Some(spec_rune_substring_clamped(s, start, len)),
{
}

/// Two adjacent strict slices concatenate to the slice over their union, so slicing by
/// consecutive runs never loses or duplicates a scalar.
pub proof fn lemma_adjacent_slices_concatenate(s: Seq<char>, start: int, n: int, m: int)
    requires
        0 <= start,
        0 <= n,
        0 <= m,
        start + n + m <= s.len(),
    ensures
        spec_rune_slice(s, start, n).unwrap() + spec_rune_slice(s, start + n, m).unwrap()
            == spec_rune_slice(s, start, n + m).unwrap(),
{
    assert(s.subrange(start, start + n) + s.subrange(start + n, start + n + m) =~= s.subrange(
        start,
        start + n + m,
    ));
}

} // verus!
