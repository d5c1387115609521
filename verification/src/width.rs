//! Display width of characters, as the `unicode-width` crate reports it.
use unicode_width::UnicodeWidthChar;
use vstd::prelude::*;

verus! {

/// The width in columns that `unicode-width` gives `ch` (`None` for control
/// characters).
pub uninterp spec fn unicode_char_width(ch: char) -> Option<usize>;

/// `UnicodeWidthChar::width` of `unicode-width`: the crate's documented value,
/// named as a whole; its source gives printable ASCII the width one and the
/// C0 and C1 control characters no width.
#[verifier::external_body]
fn unicode_width_of(ch: char) -> (r: Option<usize>)
    ensures
        r == unicode_char_width(ch),
        0x20 <= (ch as u32) < 0x7f ==> r == Some(1usize),
        (ch as u32) < 0x20 ==> r is None,
        0x7f <= (ch as u32) < 0xa0 ==> r is None,
{
    UnicodeWidthChar::width(ch)
}

/// The number of grid columns a character occupies: its Unicode width,
/// control characters counting as zero and anything wider than two as two.
pub open spec fn spec_char_width(ch: char) -> u16 {
    match unicode_char_width(ch) {
        Some(w) => if w >= 2 {
            2
        } else {
            w as u16
        },
        None => 0,
    }
}

pub fn char_width(ch: char) -> (w: u16)
    ensures
        w == spec_char_width(ch),
        w <= 2,
        0x20 <= (ch as u32) < 0x7f ==> w == 1,
        (ch as u32) < 0x20 ==> w == 0,
{
    match unicode_width_of(ch) {
        Some(w) => if w >= 2 {
            2
        } else {
            w as u16
        },
        None => 0,
    }
}

} // verus!
