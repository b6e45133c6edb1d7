//! Display widths, measured by the `unicode-width` crate.
use vstd::prelude::*;
use unicode_width::UnicodeWidthChar;

verus! {

/// The columns `unicode_width` assigns a single character (`None` for control
/// characters).
pub uninterp spec fn char_columns(c: char) -> Option<usize>;

/// The columns `unicode_width` assigns a whole string of characters.
pub uninterp spec fn text_columns(text: Seq<char>) -> usize;

/// A printable ASCII character (space through tilde).
pub open spec fn is_printable_ascii(c: char) -> bool {
    0x20 <= (c as u32) && (c as u32) < 0x7f
}

/// Calls `UnicodeWidthChar::width`. Its source answers `Some(1)` for printable
/// ASCII, `None` for the C0 and C1 control ranges, and a table value (some
/// width) from U+00A0 on; what that table holds is not stated here.
#[verifier::external_body]
pub(crate) fn char_width(c: char) -> (w: Option<usize>)
    ensures
        w == char_columns(c),
        is_printable_ascii(c) ==> w == Some(1usize),
        ((c as u32) < 0x20 || (0x7f <= (c as u32) && (c as u32) < 0xa0)) ==> w is None,
        0xa0 <= (c as u32) ==> w is Some,
{
    UnicodeWidthChar::width(c)
}

/// Calls `unicode_width::char_iter_width` (the string width of the crate, on a
/// sequence of characters). Its documentation sums the character widths
/// except for ligature and control sequences, none of which consist of
/// printable ASCII only; so a printable ASCII text is as wide as it is long.
/// What it answers for other text is not stated here.
#[verifier::external_body]
pub(crate) fn chars_width(text: &[char]) -> (w: usize)
    ensures
        w == text_columns(text@),
        (forall|i: int| 0 <= i < text@.len() ==> #[trigger] is_printable_ascii(text@[i]))
            ==> w == text@.len(),
{
    unicode_width::char_iter_width(text.iter().copied())
}

/// Display width of `text` in terminal columns, saturated to `u16`.
pub open spec fn display_columns(text: Seq<char>) -> int {
    if text_columns(text) > u16::MAX { u16::MAX as int } else { text_columns(text) as int }
}

/// Display width of `text` in terminal columns, saturated to `u16`.
pub fn display_width(text: &[char]) -> (w: u16)
    ensures
        w as int == display_columns(text@),
{
    let columns = chars_width(text);
    if columns > u16::MAX as usize {
        u16::MAX
    } else {
        columns as u16
    }
}

/// The characters of a string, in order.
pub fn string_chars(s: &str) -> (chars: Vec<char>)
    ensures
        chars@ == s@,
{
    let n = s.unicode_len();
    let mut chars: Vec<char> = Vec::new();
    let mut i: usize = 0;
    while i < n
        invariant
            n == s@.len(),
            i <= n,
            chars@ == s@.subrange(0, i as int),
        decreases n - i,
    {
        chars.push(s.get_char(i));
        i = i + 1;
    }
    chars
}

} // verus!
