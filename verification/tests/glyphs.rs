use termite_core::glyphs::{
    ascii_glyph_fallback, bitmap_glyph, box_segments, char_may_need_shaping, clamp_glyph_axis, display_columns,
    is_private_use_symbol,
    is_shapable_cell, is_special_cell, may_need_shaping, sample_bitmap_axis,
};
use termite_core::grid::Cell;
use termite_core::metrics::{
    normalize_zoom_steps, parse_zoom_steps, scaled_metrics, TerminalMetrics, MAX_ZOOM_STEPS,
    MIN_ZOOM_STEPS,
};

#[test]
fn window_backend_non_box_characters_use_font_path() {
    assert_eq!(box_segments('A'), None);
}

#[test]
fn window_backend_smart_punctuation_has_ascii_glyph_fallbacks() {
    assert_eq!(ascii_glyph_fallback('\u{2019}'), Some('\''));
    assert_eq!(ascii_glyph_fallback('\u{201c}'), Some('"'));
    assert_eq!(ascii_glyph_fallback('\u{2014}'), Some('-'));
    assert_eq!(ascii_glyph_fallback('\u{2026}'), Some('.'));
}

#[test]
fn window_backend_bitmap_fallback_sampling_is_centered_for_larger_cells() {
    let metrics = TerminalMetrics::default();
    let samples: Vec<_> = (0..metrics.cell_width as usize)
        .map(|x| sample_bitmap_axis(x, metrics.cell_width as usize))
        .collect();

    assert_eq!(samples.first(), Some(&0));
    assert_eq!(samples.last(), Some(&7));
    assert!(samples.windows(2).all(|pair| pair[0] <= pair[1]));
}

#[test]
fn window_backend_zoom_steps_are_clamped_for_config_and_state() {
    assert_eq!(parse_zoom_steps("3\n"), Some(3));
    assert_eq!(parse_zoom_steps("99"), Some(MAX_ZOOM_STEPS));
    assert_eq!(parse_zoom_steps("-99"), Some(MIN_ZOOM_STEPS));
    assert_eq!(parse_zoom_steps("not zoom"), None);
}

#[test]
fn text_shaping_guard_skips_plain_words_and_accepts_ligature_candidates() {
    assert!(!may_need_shaping("plainWord123"));
    assert!(!may_need_shaping("a=b.c-d/e"));
    assert!(may_need_shaping("=>"));
    assert!(may_need_shaping("office"));
    assert!(may_need_shaping("\u{3bb}x"));
}

#[test]
fn text_shapable_cells_exclude_terminal_geometry_and_wide_cells() {
    assert!(is_shapable_cell(Cell {
        ch: 'a',
        ..Cell::default()
    }));
    assert!(!is_shapable_cell(Cell {
        ch: '\u{2500}',
        ..Cell::default()
    }));
    assert!(!is_shapable_cell(Cell {
        ch: '\u{8868}',
        wide: true,
        ..Cell::default()
    }));
}

#[test]
fn window_backend_bitmap_font_covers_extended_terminal_glyphs() {
    assert!(bitmap_glyph('A').is_some());
    assert!(bitmap_glyph('\u{e9}').is_some());
    assert!(bitmap_glyph('\u{2550}').is_some());
    assert!(bitmap_glyph('\u{2588}').is_some());
    assert!(bitmap_glyph('\u{2591}').is_some());
}

#[test]
fn zoom_scales_metrics_from_base_config() {
    assert_eq!(
        scaled_metrics(
            TerminalMetrics {
                cell_width: 10,
                cell_height: 18,
            },
            2,
        ),
        TerminalMetrics {
            cell_width: 12,
            cell_height: 22,
        }
    );
    assert_eq!(
        scaled_metrics(
            TerminalMetrics {
                cell_width: 7,
                cell_height: 12,
            },
            -4,
        ),
        TerminalMetrics {
            cell_width: 6,
            cell_height: 10,
        }
    );
}

#[test]
fn zoom_parsing_handles_signs_whitespace_and_overflow() {
    assert_eq!(parse_zoom_steps("  +2 \t"), Some(2));
    assert_eq!(parse_zoom_steps("-3"), Some(-3));
    assert_eq!(parse_zoom_steps("-"), None);
    assert_eq!(parse_zoom_steps(""), None);
    assert_eq!(parse_zoom_steps("1 2"), None);
    assert_eq!(parse_zoom_steps("40000"), None);
    assert_eq!(parse_zoom_steps("-32768"), Some(MIN_ZOOM_STEPS));
    assert_eq!(normalize_zoom_steps(5), 5);
    assert_eq!(
        TerminalMetrics {
            cell_width: 0,
            cell_height: 4,
        }
        .normalized(),
        TerminalMetrics {
            cell_width: 1,
            cell_height: 4,
        }
    );
}

#[test]
fn special_cells_cover_blocks_shades_and_box_lines() {
    assert!(is_special_cell('\u{2588}'));
    assert!(is_special_cell('\u{2592}'));
    assert!(is_special_cell('\u{253c}'));
    assert!(!is_special_cell('x'));
    assert_eq!(box_segments('\u{250c}'), Some((false, true, false, true)));
    assert!(is_private_use_symbol('\u{e0b0}'));
    assert!(!is_private_use_symbol('a'));
    assert!(char_may_need_shaping('>', '-'));
    assert!(!char_may_need_shaping('>', 'a'));
}

#[test]
fn glyph_offsets_stay_inside_the_cell_or_centre_large_glyphs() {
    assert_eq!(clamp_glyph_axis(-2, 8, 10), 0);
    assert_eq!(clamp_glyph_axis(5, 8, 10), 2);
    assert_eq!(clamp_glyph_axis(1, 8, 10), 1);
    assert_eq!(clamp_glyph_axis(0, 13, 10), -1);
    assert_eq!(clamp_glyph_axis(3, 0, 10), 3);
    assert_eq!(clamp_glyph_axis(3, 40000, 10), 3);
}

#[test]
fn symbol_glyphs_spread_over_a_following_blank_cell() {
    let symbol = Cell {
        ch: '\u{e0b0}',
        ..Cell::default()
    };
    let row = [symbol, Cell::default()];

    assert_eq!(display_columns(&row, 0, 2, symbol, 1, Some(true)), 2);
    assert_eq!(display_columns(&row, 0, 2, symbol, 1, Some(false)), 1);
    assert_eq!(display_columns(&row, 0, 2, symbol, 1, None), 1);
    assert_eq!(display_columns(&row, 0, 1, symbol, 1, Some(true)), 1);

    let letter = Cell {
        ch: 'a',
        ..Cell::default()
    };
    assert_eq!(display_columns(&[symbol, letter], 0, 2, symbol, 1, Some(true)), 1);
    assert_eq!(display_columns(&row, 0, 2, letter, 1, Some(true)), 1);
}
