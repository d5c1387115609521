use termite_core::metrics::TerminalMetrics;
use termite_core::paint::{
    blend_pixel, draw_bitmap_cell, draw_block_cell, draw_box_cell, draw_shade_cell,
    draw_special_cell, draw_underline_span, fill_cell, fill_cell_span, fill_row, CellPaint,
};

fn paint(metrics: TerminalMetrics) -> CellPaint {
    CellPaint {
        fg: [220, 224, 232],
        bg: [16, 18, 24],
        background_opaque: true,
        metrics,
    }
}

#[test]
fn window_backend_box_drawing_characters_are_drawn_without_font_fallback() {
    let metrics = TerminalMetrics::default();
    let width = metrics.cell_width as usize;
    let mut frame = vec![0; width * metrics.cell_height as usize * 4];

    assert!(draw_box_cell(&mut frame, width, 0, 0, '\u{2500}', paint(metrics)));

    let center_y = metrics.cell_height as usize / 2;
    let center_index = (center_y * width + width / 2) * 4;
    assert_eq!(&frame[center_index..center_index + 3], &[220, 224, 232]);
    assert!(frame.chunks_exact(4).any(|pixel| pixel[..3] == [16, 18, 24]));
}

#[test]
fn window_backend_block_characters_are_drawn_geometrically() {
    let metrics = TerminalMetrics::default();
    let width = metrics.cell_width as usize;
    let mut frame = vec![0; width * metrics.cell_height as usize * 4];

    assert!(draw_block_cell(&mut frame, width, 0, 0, '\u{2584}', paint(metrics)));

    let top_index = (metrics.cell_height as usize / 4 * width + width / 2) * 4;
    let bottom_index = (metrics.cell_height as usize * 3 / 4 * width + width / 2) * 4;
    assert_eq!(&frame[top_index..top_index + 3], &[16, 18, 24]);
    assert_eq!(&frame[bottom_index..bottom_index + 3], &[220, 224, 232]);
}

#[test]
fn window_backend_shade_characters_are_drawn_as_mixed_pixels() {
    let metrics = TerminalMetrics::default();
    let width = metrics.cell_width as usize;
    let mut frame = vec![0; width * metrics.cell_height as usize * 4];

    assert!(draw_shade_cell(&mut frame, width, 0, 0, '\u{2592}', paint(metrics)));

    assert!(frame.chunks_exact(4).any(|pixel| pixel[..3] == [220, 224, 232]));
    assert!(frame.chunks_exact(4).any(|pixel| pixel[..3] == [16, 18, 24]));
}

#[test]
fn special_cells_leave_the_background_alone_and_refuse_letters() {
    let metrics = TerminalMetrics {
        cell_width: 4,
        cell_height: 4,
    };
    let width = 8;
    let mut frame = vec![7; width * 4 * 4];
    assert!(!draw_special_cell(&mut frame, width, 1, 0, 'a', paint(metrics)));
    assert!(frame.iter().all(|byte| *byte == 7));
    assert!(draw_special_cell(&mut frame, width, 1, 0, '\u{2588}', paint(metrics)));
    // The left cell is untouched, the right one fully painted.
    assert_eq!(&frame[0..4], &[7, 7, 7, 7]);
    assert_eq!(&frame[16..20], &[220, 224, 232, 255]);
    assert_eq!(&frame[(3 * width + 7) * 4..(3 * width + 7) * 4 + 4], &[220, 224, 232, 255]);
}

#[test]
fn fills_cover_cells_spans_and_rows() {
    let metrics = TerminalMetrics {
        cell_width: 2,
        cell_height: 2,
    };
    let width = 6;
    let mut frame = vec![0; width * 4 * 4];
    fill_cell(&mut frame, width, 1, 1, [1, 2, 3], metrics);
    assert_eq!(&frame[(2 * width + 2) * 4..(2 * width + 2) * 4 + 4], &[1, 2, 3, 255]);
    assert_eq!(&frame[(2 * width + 1) * 4..(2 * width + 1) * 4 + 4], &[0, 0, 0, 0]);
    fill_cell_span(&mut frame, width, 0, 0, 3, [9, 9, 9], metrics);
    assert!(frame[..width * 2 * 4]
        .chunks_exact(4)
        .all(|pixel| pixel == [9, 9, 9, 255]));
    fill_row(&mut frame, width, 1, [5, 5, 5], metrics);
    assert!(frame[width * 2 * 4..]
        .chunks_exact(4)
        .all(|pixel| pixel == [5, 5, 5, 255]));
    let before = frame.clone();
    fill_row(&mut frame, width, 2, [4, 4, 4], metrics);
    assert_eq!(frame, before);
    draw_underline_span(&mut frame, width, 0, 0, 1, [8, 8, 8], metrics);
    assert_eq!(&frame[0..4], &[8, 8, 8, 255]);
    assert_eq!(&frame[width * 4..width * 4 + 4], &[9, 9, 9, 255]);
}

#[test]
fn bitmap_cells_draw_the_glyph_rows() {
    let metrics = TerminalMetrics {
        cell_width: 8,
        cell_height: 8,
    };
    let width = 8;
    let mut frame = vec![0; width * 8 * 4];
    draw_bitmap_cell(&mut frame, width, 0, 0, '\u{2588}', false, paint(metrics));
    assert!(frame.chunks_exact(4).all(|pixel| pixel == [220, 224, 232, 255]));
    let mut blank = vec![0; width * 8 * 4];
    draw_bitmap_cell(&mut blank, width, 0, 0, ' ', false, paint(metrics));
    assert!(blank.chunks_exact(4).all(|pixel| pixel == [16, 18, 24, 255]));
}

#[test]
fn blending_mixes_colors_by_coverage() {
    let mut pixel = [10, 20, 30, 0];
    blend_pixel(&mut pixel, [200, 100, 50], 128);
    assert_eq!(pixel, [200, 100, 50, 128]);
    let mut opaque = [0, 0, 0, 255];
    blend_pixel(&mut opaque, [255, 255, 255], 51);
    assert_eq!(opaque, [51, 51, 51, 255]);
    let mut untouched = [1, 2, 3, 4];
    blend_pixel(&mut untouched, [255, 255, 255], 0);
    assert_eq!(untouched, [1, 2, 3, 4]);
    let mut full = [1, 2, 3, 4];
    blend_pixel(&mut full, [7, 8, 9], 255);
    assert_eq!(full, [7, 8, 9, 255]);
}

#[test]
fn characters_that_are_not_drawn_leave_even_a_small_frame_alone() {
    let metrics = TerminalMetrics {
        cell_width: 8,
        cell_height: 8,
    };
    let mut frame: Vec<u8> = Vec::new();

    assert!(!draw_block_cell(&mut frame, 8, 5, 5, 'a', paint(metrics)));
    assert!(!draw_shade_cell(&mut frame, 8, 5, 5, 'a', paint(metrics)));
    assert!(!draw_box_cell(&mut frame, 8, 5, 5, 'a', paint(metrics)));
    assert!(!draw_special_cell(&mut frame, 8, 5, 5, 'a', paint(metrics)));
    assert!(frame.is_empty());
}
