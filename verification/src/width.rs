//! Display width of text and removal of terminal escape sequences, both
//! computed by the `console` crate.

use vstd::prelude::*;
use crate::text::{all_whitespace, is_all_whitespace};

verus! {

/// What `console::strip_ansi_codes` leaves of a text: the text without its
/// ANSI escape sequences.
pub uninterp spec fn ansi_stripped(s: Seq<char>) -> Seq<char>;

/// What `console::measure_text_width` returns for a text: the number of
/// terminal columns that it takes, escape sequences counting nothing.
pub uninterp spec fn visual_width(s: Seq<char>) -> nat;

/// Whether `s` holds no character that begins an escape sequence.
pub open spec fn has_no_escape(s: Seq<char>) -> bool {
    forall|i: int| 0 <= i < s.len() ==> #[trigger] s[i] != '\u{1b}' && s[i] != '\u{9b}'
}

/// Whether `s` is made of printable ASCII characters only.
pub open spec fn is_printable_ascii(s: Seq<char>) -> bool {
    forall|i: int| 0 <= i < s.len() ==> 0x20 <= #[trigger] s[i] as u32 <= 0x7e
}

/// Trusted: the body is `console::strip_ansi_codes`. Its result is named
/// `ansi_stripped`. The function looks for an escape sequence only from an
/// escape character (U+001B or U+009B) on, and hands a text without any back
/// as it is.
#[verifier::external_body]
fn strip_ansi_codes(s: &str) -> (stripped: String)
    ensures
        stripped@ == ansi_stripped(s@),
        has_no_escape(s@) ==> stripped@ == s@,
{
    console::strip_ansi_codes(s).into_owned()
}

/// Trusted: the body is `console::measure_text_width`. Its result is named
/// `visual_width`. For a text made of printable ASCII characters only the
/// function returns the number of its characters.
#[verifier::external_body]
fn measure_text_width(s: &str) -> (width: usize)
    ensures
        width == visual_width(s@),
        is_printable_ascii(s@) ==> width == s@.len(),
{
    console::measure_text_width(s)
}

/// The display width of `text`.
pub fn measure(text: &str) -> (width: usize)
    ensures
        width == visual_width(text@),
        is_printable_ascii(text@) ==> width == text@.len(),
{
    measure_text_width(text)
}

/// Whether a line shows nothing: without its escape sequences it holds
/// white space only.
pub open spec fn is_blank(line: Seq<char>) -> bool {
    all_whitespace(ansi_stripped(line))
}

/// Decides `is_blank`. Of a line without an escape character this is to
/// ask whether it holds white space only.
pub fn line_is_blank(line: &str) -> (blank: bool)
    ensures
        blank == is_blank(line@),
        has_no_escape(line@) ==> blank == all_whitespace(line@),
{
    let stripped = strip_ansi_codes(line);
    is_all_whitespace(stripped.as_str())
}

} // verus!
