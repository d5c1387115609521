//! Font selection: the role a font file plays by its name, the roles a
//! style prefers, and which loaded font draws a character or shapes a run
//! of text.
use vstd::prelude::*;

use crate::grid::{Style, STYLE_BOLD, STYLE_ITALIC};
use crate::terminal::collect_chars;

verus! {

/// The role of a font in a family.
#[derive(Debug, Clone, Copy, PartialEq, Eq, Structural)]
pub enum FontRole {
    Regular,
    Bold,
    Italic,
    BoldItalic,
}

impl FontRole {
    pub fn is_bold(self) -> (r: bool)
        ensures
            r == (self == FontRole::Bold || self == FontRole::BoldItalic),
    {
        match self {
            FontRole::Bold | FontRole::BoldItalic => true,
            _ => false,
        }
    }
}

/// The code of `c` with ASCII capitals made small.
pub open spec fn lower_code(c: char) -> u32 {
    let u = c as u32;
    if 0x41 <= u <= 0x5a {
        (u + 0x20) as u32
    } else {
        u
    }
}

/// Whether `needle` stands in `text` from position `i` on, with ASCII case
/// ignored in `text`.
pub open spec fn matches_at(text: Seq<char>, needle: Seq<char>, i: int) -> bool {
    forall|j: int| 0 <= j < needle.len() ==> lower_code(#[trigger] text[i + j]) == needle[j] as u32
}

/// Whether `needle` occurs in `text` with ASCII case ignored in `text`.
pub open spec fn contains_lowered(text: Seq<char>, needle: Seq<char>) -> bool {
    exists|i: int| 0 <= i && i + needle.len() <= text.len() && #[trigger] matches_at(text, needle, i)
}

/// The role a font file plays by its path: bold with "bold" in it, italic
/// with "italic" or "oblique", ASCII case ignored.
pub open spec fn role_for_path(path: Seq<char>) -> FontRole {
    let bold = contains_lowered(path, "bold"@);
    let italic = contains_lowered(path, "italic"@) || contains_lowered(path, "oblique"@);
    if bold && italic {
        FontRole::BoldItalic
    } else if bold {
        FontRole::Bold
    } else if italic {
        FontRole::Italic
    } else {
        FontRole::Regular
    }
}

/// Whether a font file holds symbols (a Nerd Font symbol set or the
/// standard symbols), by its path.
pub open spec fn symbol_path(path: Seq<char>) -> bool {
    contains_lowered(path, "symbolsnerd"@) || contains_lowered(path, "symbols-nerd"@) || contains_lowered(
        path,
        "nerd-font"@,
    ) || contains_lowered(path, "standardsymbols"@)
}

/// Whether `needle` (lower case) occurs in `text`, ASCII case ignored.
pub fn contains_ignoring_case(text: &Vec<char>, needle: &Vec<char>) -> (r: bool)
    ensures
        r == contains_lowered(text@, needle@),
{
    let n = needle.len();
    let h = text.len();
    if n > h {
        return false;
    }
    let mut i: usize = 0;
    while i <= h - n
        invariant
            n == needle@.len(),
            h == text@.len(),
            n <= h,
            i <= h - n + 1,
            forall|k: int| 0 <= k < i ==> !#[trigger] matches_at(text@, needle@, k),
        decreases h - i,
    {
        let mut j: usize = 0;
        let mut matched = true;
        while j < n
            invariant
                n == needle@.len(),
                h == text@.len(),
                i + n <= h,
                j <= n,
                matched == forall|q: int| 0 <= q < j ==> lower_code(#[trigger] text@[i + q]) == needle@[q] as u32,
            decreases n - j,
        {
            let a = text[i + j] as u32;
            let la: u32 = if 0x41 <= a && a <= 0x5a {
                a + 0x20
            } else {
                a
            };
            if la != needle[j] as u32 {
                matched = false;
            }
            j = j + 1;
        }
        if matched {
            assert(matches_at(text@, needle@, i as int));
            return true;
        }
        i = i + 1;
    }
    proof {
        assert forall|k: int| 0 <= k && k + needle@.len() <= text@.len() implies !#[trigger] matches_at(
            text@,
            needle@,
            k,
        ) by {
            assert(k < i);
        }
    }
    false
}

/// The role a font file plays by its path; see `role_for_path`.
pub fn font_role_from_path(path: &str) -> (r: FontRole)
    ensures
        r == role_for_path(path@),
{
    let text = collect_chars(path);
    let bold = contains_ignoring_case(&text, &collect_chars("bold"));
    let italic = contains_ignoring_case(&text, &collect_chars("italic")) || contains_ignoring_case(
        &text,
        &collect_chars("oblique"),
    );
    if bold && italic {
        FontRole::BoldItalic
    } else if bold {
        FontRole::Bold
    } else if italic {
        FontRole::Italic
    } else {
        FontRole::Regular
    }
}

/// Whether a font file holds symbols, by its path; see `symbol_path`.
pub fn is_symbol_font_path(path: &str) -> (r: bool)
    ensures
        r == symbol_path(path@),
{
    let text = collect_chars(path);
    contains_ignoring_case(&text, &collect_chars("symbolsnerd")) || contains_ignoring_case(
        &text,
        &collect_chars("symbols-nerd"),
    ) || contains_ignoring_case(&text, &collect_chars("nerd-font")) || contains_ignoring_case(
        &text,
        &collect_chars("standardsymbols"),
    )
}

/// The roles a style looks for, best first: its own, then the nearest
/// ones, then the regular face.
pub open spec fn preferred_roles(style: Style) -> Seq<FontRole> {
    let bold = style.has_flag(STYLE_BOLD);
    let italic = style.has_flag(STYLE_ITALIC);
    if bold && italic {
        seq![FontRole::BoldItalic, FontRole::Bold, FontRole::Italic, FontRole::Regular]
    } else if bold {
        seq![FontRole::Bold, FontRole::BoldItalic, FontRole::Regular]
    } else if italic {
        seq![FontRole::Italic, FontRole::BoldItalic, FontRole::Regular]
    } else {
        seq![FontRole::Regular]
    }
}

/// The roles a style looks for; see `preferred_roles`.
pub fn preferred_font_roles(style: Style) -> (r: Vec<FontRole>)
    ensures
        r@ == preferred_roles(style),
{
    let bold = style.bold();
    let italic = style.italic();
    if bold && italic {
        vec![FontRole::BoldItalic, FontRole::Bold, FontRole::Italic, FontRole::Regular]
    } else if bold {
        vec![FontRole::Bold, FontRole::BoldItalic, FontRole::Regular]
    } else if italic {
        vec![FontRole::Italic, FontRole::BoldItalic, FontRole::Regular]
    } else {
        vec![FontRole::Regular]
    }
}

/// The slot of a style in a per-style lookup table: its bold and italic
/// bits.
pub fn font_style_index(style: Style) -> (r: usize)
    ensures
        r == (style.bits() & 3) as usize,
        r < 4,
{
    let flags = style.attribute_bits();
    let bits = flags & 3;
    assert(bits < 4) by (bit_vector)
        requires
            bits == flags & 3,
    ;
    bits as usize
}

/// What the selection needs to know of a loaded font: its role, whether it
/// is a symbol font, and whether it has glyphs for what is being drawn.
#[derive(Debug, Clone, Copy, PartialEq, Eq, Structural)]
pub struct FontCandidate {
    pub role: FontRole,
    pub symbol: bool,
    pub covers: bool,
}

/// Whether `font` can draw: it has the glyphs, has `role` where one is
/// asked for, and is no symbol font where text is shaped.
pub open spec fn font_fits(font: FontCandidate, role: Option<FontRole>, text_font: bool) -> bool {
    &&& font.covers
    &&& (role matches Some(r) ==> font.role == r)
    &&& (text_font ==> !font.symbol)
}

/// The first of `fonts` that fits; see `font_fits`.
pub open spec fn first_fitting(fonts: Seq<FontCandidate>, role: Option<FontRole>, text_font: bool) -> Option<nat>
    decreases fonts.len(),
{
    if fonts.len() == 0 {
        None
    } else {
        match first_fitting(fonts.drop_last(), role, text_font) {
            Some(i) => Some(i),
            None => if font_fits(fonts.last(), role, text_font) {
                Some((fonts.len() - 1) as nat)
            } else {
                None
            },
        }
    }
}

/// The font chosen for the roles `roles[k..]`: the first font of the first
/// role that has one, else the first font that fits with any role.
pub open spec fn chosen_font(roles: Seq<FontRole>, k: int, fonts: Seq<FontCandidate>, text_font: bool) -> Option<nat>
    decreases roles.len() - k,
{
    if k < 0 || k >= roles.len() {
        first_fitting(fonts, None, text_font)
    } else {
        match first_fitting(fonts, Some(roles[k]), text_font) {
            Some(i) => Some(i),
            None => chosen_font(roles, k + 1, fonts, text_font),
        }
    }
}

fn first_fitting_font(fonts: &[FontCandidate], role: Option<FontRole>, text_font: bool) -> (r: Option<usize>)
    ensures
        match r {
            Some(i) => first_fitting(fonts@, role, text_font) == Some(i as nat),
            None => first_fitting(fonts@, role, text_font) is None,
        },
{
    let mut i: usize = 0;
    while i < fonts.len()
        invariant
            i <= fonts@.len(),
            first_fitting(fonts@.subrange(0, i as int), role, text_font) is None,
        decreases fonts@.len() - i,
    {
        let font = fonts[i];
        let fits = font.covers && match role {
            Some(r) => font.role == r,
            None => true,
        } && (!text_font || !font.symbol);
        proof {
            let next = fonts@.subrange(0, i as int + 1);
            assert(next.drop_last() =~= fonts@.subrange(0, i as int));
            assert(next.last() == font);
        }
        if fits {
            proof {
                lemma_first_fitting_prefix(fonts@, role, text_font, i as int + 1);
            }
            return Some(i);
        }
        i = i + 1;
    }
    assert(fonts@.subrange(0, fonts@.len() as int) =~= fonts@);
    None
}

/// A font found in a prefix is the one found in the whole list.
proof fn lemma_first_fitting_prefix(fonts: Seq<FontCandidate>, role: Option<FontRole>, text_font: bool, n: int)
    requires
        0 <= n <= fonts.len(),
        first_fitting(fonts.subrange(0, n), role, text_font) is Some,
    ensures
        first_fitting(fonts, role, text_font) == first_fitting(fonts.subrange(0, n), role, text_font),
    decreases fonts.len() - n,
{
    if n < fonts.len() {
        let longer = fonts.subrange(0, n + 1);
        assert(longer.drop_last() =~= fonts.subrange(0, n));
        lemma_first_fitting_prefix(fonts, role, text_font, n + 1);
    } else {
        assert(fonts.subrange(0, n) =~= fonts);
    }
}

/// The font that draws a character (`text_font` false) or shapes a run of
/// text (`text_font` true, symbol fonts left out) for the roles `roles`,
/// where `fonts` tells which loaded fonts have the glyphs; see
/// `chosen_font`.
pub fn find_font_index(roles: &[FontRole], fonts: &[FontCandidate], text_font: bool) -> (r: Option<usize>)
    ensures
        match r {
            Some(i) => chosen_font(roles@, 0, fonts@, text_font) == Some(i as nat),
            None => chosen_font(roles@, 0, fonts@, text_font) is None,
        },
{
    let mut k: usize = 0;
    while k < roles.len()
        invariant
            k <= roles@.len(),
            chosen_font(roles@, 0, fonts@, text_font) == chosen_font(roles@, k as int, fonts@, text_font),
        decreases roles@.len() - k,
    {
        match first_fitting_font(fonts, Some(roles[k]), text_font) {
            Some(i) => {
                return Some(i);
            },
            None => {},
        }
        k = k + 1;
    }
    first_fitting_font(fonts, None, text_font)
}

} // verus!
