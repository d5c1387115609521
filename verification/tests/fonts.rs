use termite_core::fonts::{
    find_font_index, font_role_from_path, font_style_index, is_symbol_font_path, preferred_font_roles,
    FontCandidate, FontRole,
};
use termite_core::grid::{Style, STYLE_BOLD, STYLE_ITALIC, STYLE_UNDERLINE};

fn style(flags: u8) -> Style {
    let mut style = Style::default();
    style.set_bold(flags & STYLE_BOLD != 0);
    style.set_italic(flags & STYLE_ITALIC != 0);
    style.set_underline(flags & STYLE_UNDERLINE != 0);
    style
}

fn font(role: FontRole, symbol: bool, covers: bool) -> FontCandidate {
    FontCandidate { role, symbol, covers }
}

#[test]
fn font_roles_come_from_the_file_name() {
    assert_eq!(font_role_from_path("/fonts/JetBrainsMono-BoldItalic.ttf"), FontRole::BoldItalic);
    assert_eq!(font_role_from_path("/fonts/DejaVuSans-BOLD.ttf"), FontRole::Bold);
    assert_eq!(font_role_from_path("/fonts/Iosevka-Oblique.otf"), FontRole::Italic);
    assert_eq!(font_role_from_path("/fonts/Iosevka-Regular.ttf"), FontRole::Regular);
}

#[test]
fn symbol_fonts_are_recognised_by_name() {
    assert!(is_symbol_font_path("/fonts/SymbolsNerdFontMono-Regular.ttf"));
    assert!(is_symbol_font_path("/fonts/StandardSymbolsPS.otf"));
    assert!(!is_symbol_font_path("/fonts/NotoSans-Regular.ttf"));
}

#[test]
fn styles_prefer_their_own_role_then_the_nearest() {
    assert_eq!(preferred_font_roles(style(0)), vec![FontRole::Regular]);
    assert_eq!(
        preferred_font_roles(style(STYLE_BOLD)),
        vec![FontRole::Bold, FontRole::BoldItalic, FontRole::Regular]
    );
    assert_eq!(
        preferred_font_roles(style(STYLE_BOLD | STYLE_ITALIC)),
        vec![FontRole::BoldItalic, FontRole::Bold, FontRole::Italic, FontRole::Regular]
    );
}

#[test]
fn style_index_uses_the_bold_and_italic_bits() {
    assert_eq!(font_style_index(style(STYLE_BOLD | STYLE_UNDERLINE)), 1);
    assert_eq!(font_style_index(style(STYLE_ITALIC)), 2);
}

#[test]
fn the_first_font_of_the_best_role_with_the_glyph_wins() {
    let fonts = [
        font(FontRole::Regular, false, true),
        font(FontRole::Bold, false, false),
        font(FontRole::BoldItalic, false, true),
        font(FontRole::Bold, true, true),
    ];
    let bold = [FontRole::Bold, FontRole::BoldItalic, FontRole::Regular];

    assert_eq!(find_font_index(&bold, &fonts, false), Some(3));
    assert_eq!(find_font_index(&bold, &fonts, true), Some(2));
}

#[test]
fn any_font_with_the_glyph_is_the_last_resort() {
    let fonts = [font(FontRole::Italic, false, false), font(FontRole::Italic, false, true)];

    assert_eq!(find_font_index(&[FontRole::Regular], &fonts, false), Some(1));
    assert_eq!(find_font_index(&[FontRole::Regular], &[font(FontRole::Regular, false, false)], false), None);
}
