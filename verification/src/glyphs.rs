//! Which characters the renderer draws itself (blocks, shades, box lines),
//! which it may hand to a shaper, and the 8x8 bitmap font it falls back on.
use font8x8::UnicodeFonts;
use vstd::prelude::*;

use crate::grid::{blank_cell, Cell};

verus! {

/// Whether `ch` is in a Unicode private use area, where symbol fonts keep
/// their icons.
pub open spec fn spec_is_private_use_symbol(ch: char) -> bool {
    let c = ch as u32;
    (0xe000 <= c <= 0xf8ff) || (0xf0000 <= c <= 0xffffd) || (0x100000 <= c <= 0x10fffd)
}

pub fn is_private_use_symbol(ch: char) -> (r: bool)
    ensures
        r == spec_is_private_use_symbol(ch),
{
    let c = ch as u32;
    (0xe000 <= c && c <= 0xf8ff) || (0xf0000 <= c && c <= 0xffffd) || (0x100000 <= c && c
        <= 0x10fffd)
}

/// The lines of a box-drawing character, as (left, right, up, down) arms
/// from the centre of the cell.
pub open spec fn spec_box_segments(ch: char) -> Option<(bool, bool, bool, bool)> {
    if ch == '\u{2500}' || ch == '\u{2501}' || ch == '\u{254c}' || ch == '\u{254d}' || ch
        == '\u{23ba}' || ch == '\u{23bb}' || ch == '\u{23bc}' || ch == '\u{23bd}' {
        Some((true, true, false, false))
    } else if ch == '\u{2574}' {
        Some((true, false, false, false))
    } else if ch == '\u{2576}' {
        Some((false, true, false, false))
    } else if ch == '\u{2502}' || ch == '\u{2503}' || ch == '\u{254e}' || ch == '\u{254f}'
        || ch == '\u{2506}' || ch == '\u{2507}' || ch == '\u{250a}' || ch == '\u{250b}' {
        Some((false, false, true, true))
    } else if ch == '\u{2575}' {
        Some((false, false, true, false))
    } else if ch == '\u{2577}' {
        Some((false, false, false, true))
    } else if ch == '\u{250c}' || ch == '\u{250f}' || ch == '\u{256d}' {
        Some((false, true, false, true))
    } else if ch == '\u{2510}' || ch == '\u{2513}' || ch == '\u{256e}' {
        Some((true, false, false, true))
    } else if ch == '\u{2514}' || ch == '\u{2517}' || ch == '\u{2570}' {
        Some((false, true, true, false))
    } else if ch == '\u{2518}' || ch == '\u{251b}' || ch == '\u{256f}' {
        Some((true, false, true, false))
    } else if ch == '\u{251c}' || ch == '\u{2523}' {
        Some((false, true, true, true))
    } else if ch == '\u{2524}' || ch == '\u{252b}' {
        Some((true, false, true, true))
    } else if ch == '\u{252c}' || ch == '\u{2533}' {
        Some((true, true, false, true))
    } else if ch == '\u{2534}' || ch == '\u{253b}' {
        Some((true, true, true, false))
    } else if ch == '\u{253c}' || ch == '\u{254b}' {
        Some((true, true, true, true))
    } else {
        None
    }
}

pub fn box_segments(ch: char) -> (r: Option<(bool, bool, bool, bool)>)
    ensures
        r == spec_box_segments(ch),
{
    match ch {
        '\u{2500}' | '\u{2501}' | '\u{254c}' | '\u{254d}' | '\u{23ba}' | '\u{23bb}'
        | '\u{23bc}' | '\u{23bd}' => Some((true, true, false, false)),
        '\u{2574}' => Some((true, false, false, false)),
        '\u{2576}' => Some((false, true, false, false)),
        '\u{2502}' | '\u{2503}' | '\u{254e}' | '\u{254f}' | '\u{2506}' | '\u{2507}'
        | '\u{250a}' | '\u{250b}' => Some((false, false, true, true)),
        '\u{2575}' => Some((false, false, true, false)),
        '\u{2577}' => Some((false, false, false, true)),
        '\u{250c}' | '\u{250f}' | '\u{256d}' => Some((false, true, false, true)),
        '\u{2510}' | '\u{2513}' | '\u{256e}' => Some((true, false, false, true)),
        '\u{2514}' | '\u{2517}' | '\u{2570}' => Some((false, true, true, false)),
        '\u{2518}' | '\u{251b}' | '\u{256f}' => Some((true, false, true, false)),
        '\u{251c}' | '\u{2523}' => Some((false, true, true, true)),
        '\u{2524}' | '\u{252b}' => Some((true, false, true, true)),
        '\u{252c}' | '\u{2533}' => Some((true, true, false, true)),
        '\u{2534}' | '\u{253b}' => Some((true, true, true, false)),
        '\u{253c}' | '\u{254b}' => Some((true, true, true, true)),
        _ => None,
    }
}

/// The block elements the renderer draws as rectangles.
pub open spec fn spec_is_block_element(ch: char) -> bool {
    ch == '\u{2588}' || ch == '\u{2580}' || ch == '\u{2584}' || ch == '\u{258c}' || ch
        == '\u{2590}' || ch == '\u{2598}' || ch == '\u{259d}' || ch == '\u{2596}' || ch
        == '\u{2597}' || ch == '\u{259a}' || ch == '\u{259e}' || ch == '\u{2599}' || ch
        == '\u{259b}' || ch == '\u{259c}' || ch == '\u{259f}'
}

/// The shade characters the renderer draws as dither patterns.
pub open spec fn spec_is_shade(ch: char) -> bool {
    ch == '\u{2591}' || ch == '\u{2592}' || ch == '\u{2593}'
}

/// Whether the renderer draws `ch` itself instead of taking it from a font.
pub open spec fn spec_is_special_cell(ch: char) -> bool {
    spec_is_block_element(ch) || spec_is_shade(ch) || spec_box_segments(ch) is Some
}

pub fn is_special_cell(ch: char) -> (r: bool)
    ensures
        r == spec_is_special_cell(ch),
{
    let listed = match ch {
        '\u{2588}' | '\u{2580}' | '\u{2584}' | '\u{258c}' | '\u{2590}' | '\u{2598}'
        | '\u{259d}' | '\u{2596}' | '\u{2597}' | '\u{259a}' | '\u{259e}' | '\u{2599}'
        | '\u{259b}' | '\u{259c}' | '\u{259f}' | '\u{2591}' | '\u{2592}' | '\u{2593}' => true,
        _ => false,
    };
    listed || box_segments(ch).is_some()
}

/// Whether a cell's text may go to the shaper: not part of a wide
/// character, not blank, not a private-use icon, not drawn geometrically.
pub open spec fn spec_is_shapable_cell(cell: Cell) -> bool {
    !cell.spacer && !cell.wide && cell.ch != ' ' && !spec_is_private_use_symbol(cell.ch)
        && !spec_is_special_cell(cell.ch)
}

pub fn is_shapable_cell(cell: Cell) -> (r: bool)
    ensures
        r == spec_is_shapable_cell(cell),
{
    !cell.spacer && !cell.wide && cell.ch != ' ' && !is_private_use_symbol(cell.ch)
        && !is_special_cell(cell.ch)
}

/// The ASCII pairs that programming fonts commonly join into ligatures.
pub open spec fn is_ligature_pair(previous: char, ch: char) -> bool {
    ||| previous == '=' && (ch == '>' || ch == '=' || ch == '<')
    ||| previous == '<' && (ch == '=' || ch == '-' || ch == '|')
    ||| previous == '>' && ch == '='
    ||| previous == '!' && ch == '='
    ||| previous == '-' && ch == '>'
    ||| previous == '|' && ch == '>'
    ||| previous == ':' && ch == ':'
    ||| previous == '.' && ch == '.'
    ||| previous == 'f' && (ch == 'i' || ch == 'l' || ch == 'f')
}

/// Whether `ch`, after `previous`, may be drawn differently by a shaper:
/// any non-ASCII character, or the second half of a ligature pair.
pub open spec fn spec_char_may_need_shaping(ch: char, previous: char) -> bool {
    ch as u32 >= 0x80 || is_ligature_pair(previous, ch)
}

pub fn char_may_need_shaping(ch: char, previous: char) -> (r: bool)
    ensures
        r == spec_char_may_need_shaping(ch, previous),
{
    if ch as u32 >= 0x80 {
        return true;
    }
    match (previous, ch) {
        ('=', '>') | ('=', '=') | ('=', '<') | ('<', '=') | ('>', '=') | ('!', '=') | ('-', '>')
        | ('<', '-') | ('|', '>') | ('<', '|') | (':', ':') | ('.', '.') | ('f', 'i') | ('f', 'l')
        | ('f', 'f') => true,
        _ => false,
    }
}

/// Whether some character of `chars`, after the one before it (a NUL
/// before the first), may need shaping.
pub open spec fn text_may_need_shaping(chars: Seq<char>) -> bool {
    exists|i: int| 0 <= i < chars.len() && #[trigger] shaping_at(chars, i)
}

/// Whether `chars[i]` may need shaping after the character before it.
pub open spec fn shaping_at(chars: Seq<char>, i: int) -> bool {
    spec_char_may_need_shaping(chars[i], char_before(chars, i))
}

/// The character before `chars[i]`, a NUL before the first.
pub open spec fn char_before(chars: Seq<char>, i: int) -> char {
    if i == 0 {
        '\0'
    } else {
        chars[i - 1]
    }
}

pub fn may_need_shaping(text: &str) -> (r: bool)
    ensures
        r == text_may_need_shaping(text@),
{
    let chars = crate::terminal::collect_chars(text);
    let mut previous = '\0';
    let mut i: usize = 0;
    while i < chars.len()
        invariant
            i <= chars@.len(),
            chars@ == text@,
            previous == char_before(chars@, i as int),
            forall|k: int| 0 <= k < i ==> !#[trigger] shaping_at(chars@, k),
        decreases chars@.len() - i,
    {
        let ch = chars[i];
        if char_may_need_shaping(ch, previous) {
            assert(shaping_at(chars@, i as int));
            return true;
        }
        previous = ch;
        i = i + 1;
    }
    false
}

/// The ASCII character a typographic punctuation mark falls back to when
/// the bitmap font lacks it.
pub open spec fn spec_ascii_glyph_fallback(ch: char) -> Option<char> {
    if ch == '\u{2018}' || ch == '\u{2019}' || ch == '\u{201a}' || ch == '\u{201b}' {
        Some('\'')
    } else if ch == '\u{201c}' || ch == '\u{201d}' || ch == '\u{201e}' || ch == '\u{201f}' {
        Some('"')
    } else if ch == '\u{2010}' || ch == '\u{2011}' || ch == '\u{2012}' || ch == '\u{2013}'
        || ch == '\u{2014}' || ch == '\u{2015}' {
        Some('-')
    } else if ch == '\u{2026}' {
        Some('.')
    } else {
        None
    }
}

pub fn ascii_glyph_fallback(ch: char) -> (r: Option<char>)
    ensures
        r == spec_ascii_glyph_fallback(ch),
{
    match ch {
        '\u{2018}' | '\u{2019}' | '\u{201a}' | '\u{201b}' => Some('\''),
        '\u{201c}' | '\u{201d}' | '\u{201e}' | '\u{201f}' => Some('"'),
        '\u{2010}' | '\u{2011}' | '\u{2012}' | '\u{2013}' | '\u{2014}' | '\u{2015}' => Some('-'),
        '\u{2026}' => Some('.'),
        _ => None,
    }
}

/// The bitmap row or column that pixel `pixel` of a cell `cell_size`
/// pixels long samples: the nearest of the eight, centred.
pub open spec fn spec_sample_bitmap_axis(pixel: int, cell_size: int) -> int {
    let s = (pixel * 8 + cell_size / 2) / cell_size;
    if s < 7 {
        s
    } else {
        7
    }
}

pub fn sample_bitmap_axis(pixel: usize, cell_size: usize) -> (r: usize)
    requires
        cell_size > 0,
        pixel * 8 + cell_size / 2 <= usize::MAX,
    ensures
        r == spec_sample_bitmap_axis(pixel as int, cell_size as int),
        r <= 7,
{
    let s = (pixel * 8 + cell_size / 2) / cell_size;
    if s < 7 {
        s
    } else {
        7
    }
}

/// The 8x8 bitmap that the `BASIC_FONTS` table of font8x8 holds for a
/// character, one byte per row with the leftmost pixel in the lowest bit.
pub uninterp spec fn basic_font_glyph(ch: char) -> Option<Seq<u8>>;

/// The 8x8 bitmap that the `LATIN_FONTS` table of font8x8 holds for a
/// character, one byte per row with the leftmost pixel in the lowest bit.
pub uninterp spec fn latin_font_glyph(ch: char) -> Option<Seq<u8>>;

/// The 8x8 bitmap that the `BOX_FONTS` table of font8x8 holds for a
/// character, one byte per row with the leftmost pixel in the lowest bit.
pub uninterp spec fn box_font_glyph(ch: char) -> Option<Seq<u8>>;

/// The 8x8 bitmap that the `BLOCK_FONTS` table of font8x8 holds for a
/// character, one byte per row with the leftmost pixel in the lowest bit.
pub uninterp spec fn block_font_glyph(ch: char) -> Option<Seq<u8>>;

/// The 8x8 bitmap that the `MISC_FONTS` table of font8x8 holds for a
/// character, one byte per row with the leftmost pixel in the lowest bit.
pub uninterp spec fn misc_font_glyph(ch: char) -> Option<Seq<u8>>;

/// The 8x8 bitmap that the `GREEK_FONTS` table of font8x8 holds for a
/// character, one byte per row with the leftmost pixel in the lowest bit.
pub uninterp spec fn greek_font_glyph(ch: char) -> Option<Seq<u8>>;

/// The 8x8 bitmap that the `HIRAGANA_FONTS` table of font8x8 holds for a
/// character, one byte per row with the leftmost pixel in the lowest bit.
pub uninterp spec fn hiragana_font_glyph(ch: char) -> Option<Seq<u8>>;

/// The 8x8 bitmap that the `SGA_FONTS` table of font8x8 holds for a
/// character, one byte per row with the leftmost pixel in the lowest bit.
pub uninterp spec fn sga_font_glyph(ch: char) -> Option<Seq<u8>>;

pub open spec fn glyph_view(g: Option<[u8; 8]>) -> Option<Seq<u8>> {
    match g {
        Some(rows) => Some(rows@),
        None => None,
    }
}

/// The glyph of `ch` in the bitmap font: the first of font8x8's tables that
/// has it, in the order basic, Latin, box, block, misc, Greek, hiragana, SGA.
pub open spec fn spec_bitmap_glyph(ch: char) -> Option<Seq<u8>> {
    if basic_font_glyph(ch) is Some {
        basic_font_glyph(ch)
    } else if latin_font_glyph(ch) is Some {
        latin_font_glyph(ch)
    } else if box_font_glyph(ch) is Some {
        box_font_glyph(ch)
    } else if block_font_glyph(ch) is Some {
        block_font_glyph(ch)
    } else if misc_font_glyph(ch) is Some {
        misc_font_glyph(ch)
    } else if greek_font_glyph(ch) is Some {
        greek_font_glyph(ch)
    } else if hiragana_font_glyph(ch) is Some {
        hiragana_font_glyph(ch)
    } else {
        sga_font_glyph(ch)
    }
}

/// `BASIC_FONTS.get(ch)` of font8x8 (its `UnicodeFonts` impl): the glyph
/// the table holds for `ch`, if any. Claimed: the result is that glyph,
/// eight rows long.
#[verifier::external_body]
fn basic_glyph(ch: char) -> (r: Option<[u8; 8]>)
    ensures
        glyph_view(r) == basic_font_glyph(ch),
{
    font8x8::BASIC_FONTS.get(ch)
}

/// `LATIN_FONTS.get(ch)` of font8x8 (its `UnicodeFonts` impl): the glyph
/// the table holds for `ch`, if any. Claimed: the result is that glyph,
/// eight rows long.
#[verifier::external_body]
fn latin_glyph(ch: char) -> (r: Option<[u8; 8]>)
    ensures
        glyph_view(r) == latin_font_glyph(ch),
{
    font8x8::LATIN_FONTS.get(ch)
}

/// `BOX_FONTS.get(ch)` of font8x8 (its `UnicodeFonts` impl): the glyph
/// the table holds for `ch`, if any. Claimed: the result is that glyph,
/// eight rows long.
#[verifier::external_body]
fn box_glyph(ch: char) -> (r: Option<[u8; 8]>)
    ensures
        glyph_view(r) == box_font_glyph(ch),
{
    font8x8::BOX_FONTS.get(ch)
}

/// `BLOCK_FONTS.get(ch)` of font8x8 (its `UnicodeFonts` impl): the glyph
/// the table holds for `ch`, if any. Claimed: the result is that glyph,
/// eight rows long.
#[verifier::external_body]
fn block_glyph(ch: char) -> (r: Option<[u8; 8]>)
    ensures
        glyph_view(r) == block_font_glyph(ch),
{
    font8x8::BLOCK_FONTS.get(ch)
}

/// `MISC_FONTS.get(ch)` of font8x8 (its `UnicodeFonts` impl): the glyph
/// the table holds for `ch`, if any. Claimed: the result is that glyph,
/// eight rows long.
#[verifier::external_body]
fn misc_glyph(ch: char) -> (r: Option<[u8; 8]>)
    ensures
        glyph_view(r) == misc_font_glyph(ch),
{
    font8x8::MISC_FONTS.get(ch)
}

/// `GREEK_FONTS.get(ch)` of font8x8 (its `UnicodeFonts` impl): the glyph
/// the table holds for `ch`, if any. Claimed: the result is that glyph,
/// eight rows long.
#[verifier::external_body]
fn greek_glyph(ch: char) -> (r: Option<[u8; 8]>)
    ensures
        glyph_view(r) == greek_font_glyph(ch),
{
    font8x8::GREEK_FONTS.get(ch)
}

/// `HIRAGANA_FONTS.get(ch)` of font8x8 (its `UnicodeFonts` impl): the glyph
/// the table holds for `ch`, if any. Claimed: the result is that glyph,
/// eight rows long.
#[verifier::external_body]
fn hiragana_glyph(ch: char) -> (r: Option<[u8; 8]>)
    ensures
        glyph_view(r) == hiragana_font_glyph(ch),
{
    font8x8::HIRAGANA_FONTS.get(ch)
}

/// `SGA_FONTS.get(ch)` of font8x8 (its `UnicodeFonts` impl): the glyph
/// the table holds for `ch`, if any. Claimed: the result is that glyph,
/// eight rows long.
#[verifier::external_body]
fn sga_glyph(ch: char) -> (r: Option<[u8; 8]>)
    ensures
        glyph_view(r) == sga_font_glyph(ch),
{
    font8x8::SGA_FONTS.get(ch)
}

pub fn bitmap_glyph(ch: char) -> (r: Option<[u8; 8]>)
    ensures
        glyph_view(r) == spec_bitmap_glyph(ch),
{
    let g = basic_glyph(ch);
    if g.is_some() {
        return g;
    }
    let g = latin_glyph(ch);
    if g.is_some() {
        return g;
    }
    let g = box_glyph(ch);
    if g.is_some() {
        return g;
    }
    let g = block_glyph(ch);
    if g.is_some() {
        return g;
    }
    let g = misc_glyph(ch);
    if g.is_some() {
        return g;
    }
    let g = greek_glyph(ch);
    if g.is_some() {
        return g;
    }
    let g = hiragana_glyph(ch);
    if g.is_some() {
        return g;
    }
    sga_glyph(ch)
}

/// How many columns a cell's glyph spreads over: a single-column private-use
/// symbol drawn from a symbol font (`symbol_font`, none when no font has a
/// glyph for it) takes the blank cell after it too, when that cell has the
/// same background; anything else keeps its `base_columns`.
pub open spec fn spec_display_columns(
    row: Seq<Cell>,
    x: u16,
    cols: u16,
    cell: Cell,
    base_columns: u16,
    symbol_font: Option<bool>,
) -> u16 {
    if base_columns > 1 || !spec_is_private_use_symbol(cell.ch) || x + 1 >= cols || symbol_font != Some(
        true,
    ) {
        base_columns
    } else {
        let next = if x + 1 < row.len() {
            row[x + 1]
        } else {
            blank_cell()
        };
        if next.ch == ' ' && !next.wide && !next.spacer && next.style.bg() == cell.style.bg() {
            2
        } else {
            base_columns
        }
    }
}

/// How many columns a cell's glyph spreads over; see `spec_display_columns`.
pub fn display_columns(
    row: &[Cell],
    x: u16,
    cols: u16,
    cell: Cell,
    base_columns: u16,
    symbol_font: Option<bool>,
) -> (r: u16)
    requires
        x < u16::MAX,
    ensures
        r == spec_display_columns(row@, x, cols, cell, base_columns, symbol_font),
{
    if base_columns > 1 || !is_private_use_symbol(cell.ch) || x + 1 >= cols {
        return base_columns;
    }
    match symbol_font {
        Some(true) => {},
        _ => {
            return base_columns;
        },
    }
    let i = (x + 1) as usize;
    let next = if i < row.len() {
        row[i]
    } else {
        Cell::default()
    };
    if next.ch == ' ' && !next.wide && !next.spacer && next.style.background_color() == cell.style.background_color() {
        2
    } else {
        base_columns
    }
}

/// Where a glyph's offset along one axis lands in its cell: a glyph that
/// fits is kept inside the cell, one larger than the cell is centred on it;
/// sizes that are zero or do not fit in an `i16` leave the offset as it is.
pub open spec fn spec_clamp_glyph_axis(offset: i16, glyph_size: u16, cell_size: u16) -> i16 {
    if glyph_size == 0 || glyph_size > 32767 || cell_size == 0 || cell_size > 32767 {
        offset
    } else if glyph_size <= cell_size {
        let room = cell_size - glyph_size;
        if offset < 0 {
            0
        } else if offset > room {
            room as i16
        } else {
            offset
        }
    } else {
        (-((glyph_size - cell_size) / 2)) as i16
    }
}

/// Where a glyph's offset along one axis lands in its cell; see
/// `spec_clamp_glyph_axis`.
pub fn clamp_glyph_axis(offset: i16, glyph_size: u16, cell_size: u16) -> (r: i16)
    ensures
        r == spec_clamp_glyph_axis(offset, glyph_size, cell_size),
{
    if glyph_size == 0 || glyph_size > 32767 || cell_size == 0 || cell_size > 32767 {
        return offset;
    }
    let glyph = glyph_size as i16;
    let cell = cell_size as i16;
    if glyph <= cell {
        let room = cell - glyph;
        if offset < 0 {
            0
        } else if offset > room {
            room
        } else {
            offset
        }
    } else {
        let over = glyph - cell;
        -(over / 2)
    }
}

} // verus!
