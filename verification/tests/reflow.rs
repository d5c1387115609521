use termite_core::grid::Cell;
use termite_core::reflow::reflow_line;

fn text_row(text: &str, width: usize) -> Vec<Cell> {
    let mut row = vec![Cell::default(); width];
    for (x, ch) in text.chars().enumerate() {
        row[x].ch = ch;
    }
    row
}

fn line_text(row: &[Cell]) -> String {
    row.iter().map(|cell| cell.ch).collect()
}

#[test]
fn reflow_line_keeps_narrow_text_in_reading_order() {
    let row = text_row("abcdefg", 10);

    let lines = reflow_line(&row, 3);

    assert_eq!(lines.len(), 3);
    assert_eq!(line_text(&lines[0]), "abc");
    assert_eq!(line_text(&lines[1]), "def");
    assert_eq!(line_text(&lines[2]), "g  ");
}

#[test]
fn reflow_line_of_a_blank_row_is_one_blank_row() {
    let row = text_row("", 5);

    let lines = reflow_line(&row, 4);

    assert_eq!(lines.len(), 1);
    assert_eq!(line_text(&lines[0]), "    ");
}

#[test]
fn reflow_line_fills_exact_rows_without_an_extra_one() {
    let row = text_row("abcdef", 8);

    let lines = reflow_line(&row, 3);

    assert_eq!(lines.len(), 2);
    assert_eq!(line_text(&lines[0]), "abc");
    assert_eq!(line_text(&lines[1]), "def");
}
