//! Display widths of characters and strings, as the `unicode-width` crate
//! computes them.
use vstd::prelude::*;

verus! {

/// The display width `unicode-width` gives a character (`None` for control
/// characters).
pub uninterp spec fn unicode_char_width(c: char) -> Option<usize>;

/// The display width `unicode-width` gives a string.
pub uninterp spec fn unicode_str_width(s: Seq<char>) -> usize;

/// `UnicodeWidthChar::width` of `unicode-width`: the display width of a
/// character, `None` for control characters. Printable ASCII is one column
/// wide, and the C0 and C1 control codes (and DEL) have no width. Its lookup
/// table holds widths of at most 3; what the width of any other character
/// is stays unsaid here.
#[verifier::external_body]
pub(crate) fn char_width(c: char) -> (r: Option<usize>)
    ensures
        r == unicode_char_width(c),
        r matches Some(w) ==> w <= 3,
        ' ' <= c && c < '\u{7f}' ==> r == Some(1usize),
        c < ' ' || ('\u{7f}' <= c && c < '\u{a0}') ==> r is None,
{
    unicode_width::UnicodeWidthChar::width(c)
}

/// `UnicodeWidthStr::width` of `unicode-width`: the display width of a
/// string. A string of characters up to U+00A0 without a carriage return
/// takes one column per character (an empty one none). How the width of
/// other strings is made up (emoji and ligature sequences count specially)
/// stays unsaid here.
#[verifier::external_body]
pub(crate) fn str_width(s: &str) -> (r: usize)
    ensures
        r == unicode_str_width(s@),
        s@.len() == 0 ==> r == 0,
        (forall|i: int| 0 <= i < s@.len() ==> #[trigger] s@[i] <= '\u{a0}' && s@[i] != '\r')
            ==> r == s@.len(),
{
    unicode_width::UnicodeWidthStr::width(s)
}

} // verus!
