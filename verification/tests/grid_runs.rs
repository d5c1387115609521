use termite_core::grid::{Grid, Style};
use termite_core::parser::EraseMode;

fn rows_of(grid: &Grid) -> Vec<Vec<char>> {
    let mut rows = Vec::new();
    for y in 0..grid.height() {
        let row = grid.row(y).unwrap();
        rows.push(row.iter().map(|cell| cell.ch).collect());
    }
    rows
}

fn same_screen(a: &Grid, b: &Grid) {
    assert_eq!(rows_of(a), rows_of(b));
    assert_eq!(a.cursor(), b.cursor());
}

#[test]
fn run_with_line_end_matches_run_then_crlf() {
    let style = Style::default();
    let mut fast = Grid::new(6, 2);
    let mut slow = Grid::new(6, 2);
    fast.put_ascii_run(b"x", style);
    slow.put_ascii_run(b"x", style);

    assert!(fast.put_ascii_run_crlf(b"abc", style));
    slow.put_ascii_run(b"abc", style);
    slow.carriage_return_line_feed();
    same_screen(&fast, &slow);
    assert_eq!(fast.cursor().x, 0);
    assert_eq!(fast.cursor().y, 1);

    // On the last row the line feed scrolls, in both.
    assert!(fast.put_ascii_run_crlf(b"de", style));
    slow.put_ascii_run(b"de", style);
    slow.carriage_return_line_feed();
    same_screen(&fast, &slow);
    assert_eq!(rows_of(&fast)[0], vec!['d', 'e', ' ', ' ', ' ', ' ']);
}

#[test]
fn run_with_line_end_refuses_a_run_past_the_margin() {
    let style = Style::default();
    let mut grid = Grid::new(4, 2);
    grid.put_ascii_run(b"ab", style);
    let before = rows_of(&grid);
    let cursor = grid.cursor();
    assert!(!grid.put_ascii_run_crlf(b"cde", style));
    assert_eq!(rows_of(&grid), before);
    assert_eq!(grid.cursor(), cursor);
    assert!(!grid.put_ascii_run_crlf(b"", style));
    assert_eq!(grid.cursor(), cursor);
}

fn filled(width: u16) -> Grid {
    let style = Style::default();
    let mut grid = Grid::new(width, 3);
    grid.put_ascii_run(b"abcdefghijkl", style);
    grid
}

#[test]
fn clearing_from_the_cursor_blanks_the_cursor_cell_and_all_after_it() {
    let mut grid = filled(4);
    grid.move_cursor(2, 1);
    grid.clear_screen(EraseMode::FromCursor);
    let rows = rows_of(&grid);
    assert_eq!(rows[0], vec!['a', 'b', 'c', 'd']);
    assert_eq!(rows[1], vec!['e', 'f', ' ', ' ']);
    assert_eq!(rows[2], vec![' ', ' ', ' ', ' ']);
    assert_eq!((grid.cursor().x, grid.cursor().y), (2, 1));
}

#[test]
fn clearing_to_the_cursor_blanks_all_before_it_and_the_cursor_cell() {
    let mut grid = filled(4);
    grid.move_cursor(2, 1);
    grid.clear_screen(EraseMode::ToCursor);
    let rows = rows_of(&grid);
    assert_eq!(rows[0], vec![' ', ' ', ' ', ' ']);
    assert_eq!(rows[1], vec![' ', ' ', ' ', 'h']);
    assert_eq!(rows[2], vec!['i', 'j', 'k', 'l']);
    assert_eq!((grid.cursor().x, grid.cursor().y), (2, 1));
}

#[test]
fn clearing_the_screen_takes_both_halves_of_a_wide_character_at_the_cursor() {
    let style = Style::default();
    let mut grid = Grid::new(4, 2);
    grid.put_char('a', style);
    grid.put_char('表', style);
    grid.put_char('b', style);
    let mut from = Grid::new(4, 2);
    from.put_char('a', style);
    from.put_char('表', style);
    from.put_char('b', style);

    // The cursor on the second half: clearing from it takes the first half too.
    from.move_cursor(2, 0);
    from.clear_screen(EraseMode::FromCursor);
    assert_eq!(rows_of(&from)[0], vec!['a', ' ', ' ', ' ']);

    // The cursor on the first half: clearing to it takes the second half too.
    grid.move_cursor(1, 0);
    grid.clear_screen(EraseMode::ToCursor);
    assert_eq!(rows_of(&grid)[0], vec![' ', ' ', ' ', 'b']);

    grid.clear_screen(EraseMode::All);
    assert_eq!(rows_of(&grid)[0], vec![' ', ' ', ' ', ' ']);
}

#[test]
fn generation_moves_on_whenever_a_cell_or_the_cursor_changes() {
    let style = Style::default();
    let mut grid = Grid::new(4, 2);
    let start = grid.generation();

    grid.put_char('a', style);
    let after_print = grid.generation();
    assert!(after_print > start);

    grid.move_cursor(0, 1);
    let after_move = grid.generation();
    assert!(after_move > after_print);

    // Clearing a line that is already blank changes nothing, and the
    // generation may stay.
    grid.clear_line(EraseMode::All);
    assert!(grid.generation() >= after_move);
    assert_eq!(rows_of(&grid)[1], vec![' ', ' ', ' ', ' ']);

    grid.move_cursor(0, 0);
    let before_clear = grid.generation();
    grid.clear_line(EraseMode::All);
    assert!(grid.generation() > before_clear);
    assert_eq!(rows_of(&grid)[0], vec![' ', ' ', ' ', ' ']);
}
