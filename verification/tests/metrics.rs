use termite_core::metrics::{buffer_height, buffer_width, frame_len, grid_size, TerminalMetrics};

const METRICS: TerminalMetrics = TerminalMetrics {
    cell_width: 10,
    cell_height: 18,
};

#[test]
fn grid_size_counts_whole_cells() {
    assert_eq!(grid_size(800, 600, METRICS), (80, 33));
}

#[test]
fn grid_size_keeps_one_cell_in_a_tiny_window() {
    assert_eq!(grid_size(5, 5, METRICS), (1, 1));
}

#[test]
fn grid_size_caps_at_the_largest_grid() {
    let thin = TerminalMetrics {
        cell_width: 1,
        cell_height: 18,
    };
    assert_eq!(grid_size(u32::MAX, 18, thin), (u16::MAX, 1));
}

#[test]
fn buffers_are_cells_times_cell_size() {
    assert_eq!(buffer_width(80, METRICS), 800);
    assert_eq!(buffer_height(33, METRICS), 594);
    assert_eq!(frame_len(2, 3, METRICS), 4320);
}
