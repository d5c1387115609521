use termite_core::damage::DamageRegion;
use termite_core::grid::{Cell, Color, CursorShape, Grid};
use termite_core::identity::{
    default_background_reply, keyboard_protocol_query, primary_device_attributes,
    secondary_device_attributes, version_reply,
};
use termite_core::parser::{ActionSeq, ActionPerformer, MouseTracking, ParserAction, ByteSeq, ParserAdapter};
use termite_core::terminal::TerminalCore;

/// A parser for the tests: vte splits the bytes into sequences and the
/// library's action performer turns them into actions. Test inputs hold
/// whole sequences, so the fast paths may run whenever `fast` is set.
struct VteParser {
    parser: vte::Parser,
    performer: ActionPerformer,
    fast: bool,
}

struct Forward<'a> {
    performer: &'a mut ActionPerformer,
}

impl vte::Perform for Forward<'_> {
    fn print(&mut self, c: char) {
        self.performer.print(c);
    }

    fn execute(&mut self, byte: u8) {
        self.performer.execute(byte);
    }

    fn csi_dispatch(&mut self, params: &vte::Params, intermediates: &[u8], ignore: bool, action: char) {
        let params: Vec<Vec<u16>> = params.iter().map(|param| param.to_vec()).collect();
        self.performer.csi_dispatch(&params, intermediates, ignore, action);
    }

    fn esc_dispatch(&mut self, intermediates: &[u8], ignore: bool, byte: u8) {
        self.performer.esc_dispatch(intermediates, ignore, byte);
    }

    fn osc_dispatch(&mut self, params: &[&[u8]], _bell_terminated: bool) {
        let params: Vec<Vec<u8>> = params.iter().map(|param| param.to_vec()).collect();
        self.performer.osc_dispatch(&params);
    }
}

impl ParserAdapter for VteParser {
    fn parse(&mut self, input: &[u8], actions: &mut Vec<ParserAction>) {
        let mut forward = Forward {
            performer: &mut self.performer,
        };
        self.parser.advance(&mut forward, input);
        actions.append(&mut self.performer.actions);
    }

    fn can_process_ascii_fast_path(&self) -> bool {
        self.fast
    }

    fn fast_path_ok(&self) -> bool {
        self.fast
    }

    // The library's proofs speak of what a parse makes of some input; the
    // program never asks for it when it runs.
    fn parsed(&self, _input: ByteSeq) -> ActionSeq {
        unreachable!()
    }

    fn after_parse(&self, _input: ByteSeq) -> Self {
        unreachable!()
    }
}

fn new_terminal(width: u16, height: u16) -> TerminalCore<VteParser> {
    TerminalCore::with_parser(
        width,
        height,
        VteParser {
            parser: vte::Parser::new(),
            performer: ActionPerformer::new(),
            fast: true,
        },
    )
}

fn new_parsed_terminal(width: u16, height: u16) -> TerminalCore<VteParser> {
    TerminalCore::with_parser(
        width,
        height,
        VteParser {
            parser: vte::Parser::new(),
            performer: ActionPerformer::new(),
            fast: false,
        },
    )
}

fn row_text(grid: &Grid, y: u16) -> String {
    (0..grid.width())
        .map(|x| grid.cell(x, y).unwrap().ch)
        .collect()
}

fn row_slice_text(row: &[Cell]) -> String {
    row.iter().map(|cell| cell.ch).collect()
}

#[test]
fn terminal_empty_input_is_idle_after_initial_damage_drained() {
    let mut terminal = new_terminal(2, 2);
    let _ = terminal.process_pty_input(b"");

    assert!(terminal.process_pty_input(b"").is_idle());
}

#[test]
fn tests_empty_input_is_idle_after_initial_damage_drained() {
    let mut terminal = new_terminal(2, 2);
    let _ = terminal.process_pty_input(b"");

    assert!(terminal.process_pty_input(b"").is_idle());
}

#[test]
fn terminal_printable_input_changes_cells_and_cursor() {
    let mut terminal = new_terminal(3, 2);
    let tick = terminal.process_pty_input(b"ab");

    assert_eq!(terminal.grid().cell(0, 0).unwrap().ch, 'a');
    assert_eq!(terminal.grid().cell(1, 0).unwrap().ch, 'b');
    assert!(!tick.damage.is_empty());
}

#[test]
fn tests_printable_input_changes_cells_and_cursor() {
    let mut terminal = new_terminal(3, 2);
    let tick = terminal.process_pty_input(b"ab");

    assert_eq!(terminal.grid().cell(0, 0).unwrap().ch, 'a');
    assert_eq!(terminal.grid().cell(1, 0).unwrap().ch, 'b');
    assert!(!tick.damage.is_empty());
}

#[test]
fn terminal_fast_ascii_path_handles_plain_controls() {
    let mut terminal = new_terminal(4, 2);
    let _ = terminal.process_pty_input(b"ab\rc\nD");

    assert_eq!(row_text(terminal.grid(), 0), "cb  ");
    assert_eq!(row_text(terminal.grid(), 1), " D  ");
}

#[test]
fn tests_fast_ascii_path_handles_plain_controls() {
    let mut terminal = new_terminal(4, 2);
    let _ = terminal.process_pty_input(b"ab\rc\nD");

    assert_eq!(row_text(terminal.grid(), 0), "cb  ");
    assert_eq!(row_text(terminal.grid(), 1), " D  ");
}

#[test]
fn fast_text_path_handles_utf8_and_plain_controls() {
    let mut terminal = new_terminal(6, 2);
    let _ = terminal.process_pty_input("abλπ\rc\nok".as_bytes());

    assert_eq!(row_text(terminal.grid(), 0), "cbλπ  ");
    assert_eq!(row_text(terminal.grid(), 1), " ok   ");
}

#[test]
fn fast_text_path_wraps_width_one_utf8_like_scalar_writes() {
    let mut terminal = new_terminal(4, 2);
    let _ = terminal.process_pty_input("λπ┌─┐".as_bytes());

    assert_eq!(row_text(terminal.grid(), 0), "λπ┌─");
    assert_eq!(row_text(terminal.grid(), 1), "┐   ");
}

#[test]
fn fast_sgr_path_resumes_fast_text_after_color_sequence() {
    let mut terminal = new_terminal(5, 1);
    let _ = terminal.process_pty_input(b"\x1b[31mred\x1b[0m!");

    assert_eq!(row_text(terminal.grid(), 0), "red! ");
    assert_eq!(
        terminal.grid().cell(0, 0).unwrap().style.foreground,
        Color::Indexed(1)
    );
    assert_eq!(
        terminal.grid().cell(3, 0).unwrap().style.foreground,
        Color::DefaultForeground
    );
}

#[test]
fn terminal_clear_command_sequence_clears_visible_screen() {
    let mut terminal = new_terminal(4, 2);
    let tick = terminal.process_pty_input(b"ab\x1b[2;1Hcd\x1b[H\x1b[J");

    assert_eq!(row_text(terminal.grid(), 0), "    ");
    assert_eq!(row_text(terminal.grid(), 1), "    ");
    assert!(!tick.damage.is_empty());
}

#[test]
fn tests_clear_command_sequence_clears_visible_screen() {
    let mut terminal = new_terminal(4, 2);
    let tick = terminal.process_pty_input(b"ab\x1b[2;1Hcd\x1b[H\x1b[J");

    assert_eq!(row_text(terminal.grid(), 0), "    ");
    assert_eq!(row_text(terminal.grid(), 1), "    ");
    assert!(!tick.damage.is_empty());
}

#[test]
fn terminal_full_clear_sequence_clears_visible_screen() {
    let mut terminal = new_terminal(4, 2);
    let _ = terminal.process_pty_input(b"ab\x1b[2;1Hcd\x1b[H\x1b[2J\x1b[3J");

    assert_eq!(row_text(terminal.grid(), 0), "    ");
    assert_eq!(row_text(terminal.grid(), 1), "    ");
}

#[test]
fn tests_full_clear_sequence_clears_visible_screen() {
    let mut terminal = new_terminal(4, 2);
    let _ = terminal.process_pty_input(b"ab\x1b[2;1Hcd\x1b[H\x1b[2J\x1b[3J");

    assert_eq!(row_text(terminal.grid(), 0), "    ");
    assert_eq!(row_text(terminal.grid(), 1), "    ");
}

#[test]
fn terminal_clear_scrollback_sequence_removes_history() {
    let mut terminal = new_terminal(3, 2);
    let _ = terminal.process_pty_input(b"ab\r\ncd\r\nef");
    assert_eq!(terminal.scrollback_len(), 1);

    let _ = terminal.process_pty_input(b"\x1b[3J");

    assert_eq!(terminal.scrollback_len(), 0);
}

#[test]
fn tests_clear_scrollback_sequence_removes_history() {
    let mut terminal = new_terminal(3, 2);
    let _ = terminal.process_pty_input(b"ab\r\ncd\r\nef");
    assert_eq!(terminal.scrollback_len(), 1);

    let _ = terminal.process_pty_input(b"\x1b[3J");

    assert_eq!(terminal.scrollback_len(), 0);
}

#[test]
fn terminal_reset_sequence_resets_screen_and_cursor() {
    let mut terminal = new_terminal(4, 2);
    let _ = terminal.process_pty_input(b"ab\x1b[2;3Hcd\x1bc");

    assert_eq!(row_text(terminal.grid(), 0), "    ");
    assert_eq!(row_text(terminal.grid(), 1), "    ");
    assert_eq!(terminal.grid().cursor().x, 0);
    assert_eq!(terminal.grid().cursor().y, 0);
}

#[test]
fn tests_reset_sequence_resets_screen_and_cursor() {
    let mut terminal = new_terminal(4, 2);
    let _ = terminal.process_pty_input(b"ab\x1b[2;3Hcd\x1bc");

    assert_eq!(row_text(terminal.grid(), 0), "    ");
    assert_eq!(row_text(terminal.grid(), 1), "    ");
    assert_eq!(terminal.grid().cursor().x, 0);
    assert_eq!(terminal.grid().cursor().y, 0);
}

#[test]
fn terminal_resize_emits_viewport_damage() {
    let mut terminal = new_terminal(3, 2);
    let _ = terminal.process_pty_input(b"");
    let tick = terminal.resize(4, 4);

    assert_eq!(terminal.grid().width(), 4);
    assert!(
        tick.damage
            .regions
            .iter()
            .any(|region| matches!(region, DamageRegion::Viewport))
    );
}

#[test]
fn tests_resize_emits_viewport_damage() {
    let mut terminal = new_terminal(3, 2);
    let _ = terminal.process_pty_input(b"");
    let tick = terminal.resize(4, 4);

    assert_eq!(terminal.grid().width(), 4);
    assert!(
        tick.damage
            .regions
            .iter()
            .any(|region| matches!(region, DamageRegion::Viewport))
    );
}

#[test]
fn terminal_resize_preserves_cell_coordinates() {
    let mut terminal = new_terminal(4, 2);
    let _ = terminal.process_pty_input(b"ab\x1b[2;1Hcd");

    let _ = terminal.resize(6, 3);

    assert_eq!(terminal.grid().cell(0, 0).unwrap().ch, 'a');
    assert_eq!(terminal.grid().cell(1, 0).unwrap().ch, 'b');
    assert_eq!(terminal.grid().cell(0, 1).unwrap().ch, 'c');
    assert_eq!(terminal.grid().cell(1, 1).unwrap().ch, 'd');
}

#[test]
fn tests_resize_preserves_cell_coordinates() {
    let mut terminal = new_terminal(4, 2);
    let _ = terminal.process_pty_input(b"ab\x1b[2;1Hcd");

    let _ = terminal.resize(6, 3);

    assert_eq!(terminal.grid().cell(0, 0).unwrap().ch, 'a');
    assert_eq!(terminal.grid().cell(1, 0).unwrap().ch, 'b');
    assert_eq!(terminal.grid().cell(0, 1).unwrap().ch, 'c');
    assert_eq!(terminal.grid().cell(1, 1).unwrap().ch, 'd');
}

#[test]
fn terminal_resize_truncates_rows_by_coordinates() {
    let mut terminal = new_terminal(5, 2);
    let _ = terminal.process_pty_input(b"abcd\x1b[2;1Hefgh");

    let _ = terminal.resize(2, 2);

    assert_eq!(terminal.grid().cell(0, 0).unwrap().ch, 'a');
    assert_eq!(terminal.grid().cell(1, 0).unwrap().ch, 'b');
    assert_eq!(terminal.grid().cell(0, 1).unwrap().ch, 'e');
    assert_eq!(terminal.grid().cell(1, 1).unwrap().ch, 'f');
}

#[test]
fn tests_resize_truncates_rows_by_coordinates() {
    let mut terminal = new_terminal(5, 2);
    let _ = terminal.process_pty_input(b"abcd\x1b[2;1Hefgh");

    let _ = terminal.resize(2, 2);

    assert_eq!(terminal.grid().cell(0, 0).unwrap().ch, 'a');
    assert_eq!(terminal.grid().cell(1, 0).unwrap().ch, 'b');
    assert_eq!(terminal.grid().cell(0, 1).unwrap().ch, 'e');
    assert_eq!(terminal.grid().cell(1, 1).unwrap().ch, 'f');
}

#[test]
fn terminal_erase_chars_removes_stale_cells() {
    let mut terminal = new_terminal(6, 1);
    let _ = terminal.process_pty_input(b"abcde\x1b[1;2H\x1b[2X");

    assert_eq!(terminal.grid().cell(0, 0).unwrap().ch, 'a');
    assert_eq!(terminal.grid().cell(1, 0).unwrap().ch, ' ');
    assert_eq!(terminal.grid().cell(2, 0).unwrap().ch, ' ');
    assert_eq!(terminal.grid().cell(3, 0).unwrap().ch, 'd');
}

#[test]
fn tests_erase_chars_removes_stale_cells() {
    let mut terminal = new_terminal(6, 1);
    let _ = terminal.process_pty_input(b"abcde\x1b[1;2H\x1b[2X");

    assert_eq!(terminal.grid().cell(0, 0).unwrap().ch, 'a');
    assert_eq!(terminal.grid().cell(1, 0).unwrap().ch, ' ');
    assert_eq!(terminal.grid().cell(2, 0).unwrap().ch, ' ');
    assert_eq!(terminal.grid().cell(3, 0).unwrap().ch, 'd');
}

#[test]
fn terminal_delete_chars_shifts_line_left() {
    let mut terminal = new_terminal(7, 1);
    let _ = terminal.process_pty_input(b"abcdef\x1b[1;3H\x1b[2P");

    assert_eq!(row_text(terminal.grid(), 0), "abef   ");
}

#[test]
fn tests_delete_chars_shifts_line_left() {
    let mut terminal = new_terminal(7, 1);
    let _ = terminal.process_pty_input(b"abcdef\x1b[1;3H\x1b[2P");

    assert_eq!(row_text(terminal.grid(), 0), "abef   ");
}

#[test]
fn terminal_insert_blank_chars_shifts_line_right() {
    let mut terminal = new_terminal(7, 1);
    let _ = terminal.process_pty_input(b"abcdef\x1b[1;3H\x1b[2@");

    assert_eq!(row_text(terminal.grid(), 0), "ab  cde");
}

#[test]
fn tests_insert_blank_chars_shifts_line_right() {
    let mut terminal = new_terminal(7, 1);
    let _ = terminal.process_pty_input(b"abcdef\x1b[1;3H\x1b[2@");

    assert_eq!(row_text(terminal.grid(), 0), "ab  cde");
}

#[test]
fn terminal_delete_and_insert_lines_clear_scrolled_rows() {
    let mut terminal = new_terminal(4, 3);
    let _ = terminal.process_pty_input(b"aaa\x1b[2;1Hbbb\x1b[3;1Hccc\x1b[2;1H\x1b[1M");

    assert_eq!(row_text(terminal.grid(), 0), "aaa ");
    assert_eq!(row_text(terminal.grid(), 1), "ccc ");
    assert_eq!(row_text(terminal.grid(), 2), "    ");

    let _ = terminal.process_pty_input(b"\x1b[2;1H\x1b[1L");
    assert_eq!(row_text(terminal.grid(), 1), "    ");
    assert_eq!(row_text(terminal.grid(), 2), "ccc ");
}

#[test]
fn tests_delete_and_insert_lines_clear_scrolled_rows() {
    let mut terminal = new_terminal(4, 3);
    let _ = terminal.process_pty_input(b"aaa\x1b[2;1Hbbb\x1b[3;1Hccc\x1b[2;1H\x1b[1M");

    assert_eq!(row_text(terminal.grid(), 0), "aaa ");
    assert_eq!(row_text(terminal.grid(), 1), "ccc ");
    assert_eq!(row_text(terminal.grid(), 2), "    ");

    let _ = terminal.process_pty_input(b"\x1b[2;1H\x1b[1L");
    assert_eq!(row_text(terminal.grid(), 1), "    ");
    assert_eq!(row_text(terminal.grid(), 2), "ccc ");
}

#[test]
fn terminal_scroll_up_and_down_apply_to_scroll_region() {
    let mut terminal = new_terminal(4, 4);
    let _ = terminal
        .process_pty_input(b"aaa\x1b[2;1Hbbb\x1b[3;1Hccc\x1b[4;1Hddd\x1b[2;4r\x1b[1;1H\x1b[1S");

    assert_eq!(row_text(terminal.grid(), 0), "aaa ");
    assert_eq!(row_text(terminal.grid(), 1), "ccc ");
    assert_eq!(row_text(terminal.grid(), 2), "ddd ");
    assert_eq!(row_text(terminal.grid(), 3), "    ");

    let _ = terminal.process_pty_input(b"\x1b[1T");
    assert_eq!(row_text(terminal.grid(), 1), "    ");
    assert_eq!(row_text(terminal.grid(), 2), "ccc ");
    assert_eq!(row_text(terminal.grid(), 3), "ddd ");
}

#[test]
fn tests_scroll_up_and_down_apply_to_scroll_region() {
    let mut terminal = new_terminal(4, 4);
    let _ = terminal
        .process_pty_input(b"aaa\x1b[2;1Hbbb\x1b[3;1Hccc\x1b[4;1Hddd\x1b[2;4r\x1b[1;1H\x1b[1S");

    assert_eq!(row_text(terminal.grid(), 0), "aaa ");
    assert_eq!(row_text(terminal.grid(), 1), "ccc ");
    assert_eq!(row_text(terminal.grid(), 2), "ddd ");
    assert_eq!(row_text(terminal.grid(), 3), "    ");

    let _ = terminal.process_pty_input(b"\x1b[1T");
    assert_eq!(row_text(terminal.grid(), 1), "    ");
    assert_eq!(row_text(terminal.grid(), 2), "ccc ");
    assert_eq!(row_text(terminal.grid(), 3), "ddd ");
}

#[test]
fn terminal_csi_cursor_position_writes_at_requested_cell() {
    let mut terminal = new_terminal(4, 3);
    let _ = terminal.process_pty_input(b"\x1b[2;3Hx");

    assert_eq!(terminal.grid().cell(2, 1).unwrap().ch, 'x');
}

#[test]
fn tests_csi_cursor_position_writes_at_requested_cell() {
    let mut terminal = new_terminal(4, 3);
    let _ = terminal.process_pty_input(b"\x1b[2;3Hx");

    assert_eq!(terminal.grid().cell(2, 1).unwrap().ch, 'x');
}

#[test]
fn terminal_line_feed_scrolls_at_bottom() {
    let mut terminal = new_terminal(3, 2);
    let _ = terminal.process_pty_input(b"ab\r\ncd\r\nef");

    assert_eq!(terminal.grid().cell(0, 0).unwrap().ch, 'c');
    assert_eq!(terminal.grid().cell(1, 0).unwrap().ch, 'd');
    assert_eq!(terminal.grid().cell(0, 1).unwrap().ch, 'e');
    assert_eq!(terminal.grid().cell(1, 1).unwrap().ch, 'f');
}

#[test]
fn tests_line_feed_scrolls_at_bottom() {
    let mut terminal = new_terminal(3, 2);
    let _ = terminal.process_pty_input(b"ab\r\ncd\r\nef");

    assert_eq!(terminal.grid().cell(0, 0).unwrap().ch, 'c');
    assert_eq!(terminal.grid().cell(1, 0).unwrap().ch, 'd');
    assert_eq!(terminal.grid().cell(0, 1).unwrap().ch, 'e');
    assert_eq!(terminal.grid().cell(1, 1).unwrap().ch, 'f');
}

#[test]
fn terminal_primary_full_screen_scroll_adds_scrollback() {
    let mut terminal = new_terminal(3, 2);
    let _ = terminal.process_pty_input(b"ab\r\ncd\r\nef");

    assert_eq!(terminal.scrollback_len(), 1);
    assert_eq!(row_slice_text(terminal.scrollback_row(0).unwrap()), "ab");
}

#[test]
fn tests_primary_full_screen_scroll_adds_scrollback() {
    let mut terminal = new_terminal(3, 2);
    let _ = terminal.process_pty_input(b"ab\r\ncd\r\nef");

    assert_eq!(terminal.scrollback_len(), 1);
    assert_eq!(row_slice_text(terminal.scrollback_row(0).unwrap()), "ab");
}

#[test]
fn scrollback_trims_rows_overwritten_with_default_spaces() {
    let mut terminal = new_terminal(5, 2);
    let _ = terminal.process_pty_input(b"abc\r   \r\nx\r\n");

    assert_eq!(terminal.scrollback_len(), 1);
    assert_eq!(row_slice_text(terminal.scrollback_row(0).unwrap()), "");
}

#[test]
fn terminal_alternate_screen_scroll_does_not_add_scrollback() {
    let mut terminal = new_terminal(3, 2);
    let _ = terminal.process_pty_input(b"\x1b[?1049hab\r\ncd\r\nef\x1b[?1049l");

    assert_eq!(terminal.scrollback_len(), 0);
}

#[test]
fn tests_alternate_screen_scroll_does_not_add_scrollback() {
    let mut terminal = new_terminal(3, 2);
    let _ = terminal.process_pty_input(b"\x1b[?1049hab\r\ncd\r\nef\x1b[?1049l");

    assert_eq!(terminal.scrollback_len(), 0);
}

#[test]
fn terminal_line_feed_preserves_column_without_carriage_return() {
    let mut terminal = new_terminal(4, 2);
    let _ = terminal.process_pty_input(b"ab\nc");

    assert_eq!(terminal.grid().cell(0, 0).unwrap().ch, 'a');
    assert_eq!(terminal.grid().cell(1, 0).unwrap().ch, 'b');
    assert_eq!(terminal.grid().cell(2, 1).unwrap().ch, 'c');
}

#[test]
fn tests_line_feed_preserves_column_without_carriage_return() {
    let mut terminal = new_terminal(4, 2);
    let _ = terminal.process_pty_input(b"ab\nc");

    assert_eq!(terminal.grid().cell(0, 0).unwrap().ch, 'a');
    assert_eq!(terminal.grid().cell(1, 0).unwrap().ch, 'b');
    assert_eq!(terminal.grid().cell(2, 1).unwrap().ch, 'c');
}

#[test]
fn terminal_next_line_moves_to_column_zero() {
    let mut terminal = new_terminal(4, 2);
    let _ = terminal.process_pty_input(b"ab\x1bEc");

    assert_eq!(terminal.grid().cell(0, 1).unwrap().ch, 'c');
}

#[test]
fn tests_next_line_moves_to_column_zero() {
    let mut terminal = new_terminal(4, 2);
    let _ = terminal.process_pty_input(b"ab\x1bEc");

    assert_eq!(terminal.grid().cell(0, 1).unwrap().ch, 'c');
}

#[test]
fn terminal_last_column_wrap_is_deferred_until_next_print() {
    let mut terminal = new_terminal(3, 2);
    let _ = terminal.process_pty_input(b"abc");

    assert_eq!(row_text(terminal.grid(), 0), "abc");
    assert_eq!(terminal.grid().cursor().x, 2);
    assert_eq!(terminal.grid().cursor().y, 0);

    let _ = terminal.process_pty_input(b"d");

    assert_eq!(row_text(terminal.grid(), 0), "abc");
    assert_eq!(row_text(terminal.grid(), 1), "d  ");
    assert_eq!(terminal.grid().cursor().x, 1);
    assert_eq!(terminal.grid().cursor().y, 1);
}

#[test]
fn tests_last_column_wrap_is_deferred_until_next_print() {
    let mut terminal = new_terminal(3, 2);
    let _ = terminal.process_pty_input(b"abc");

    assert_eq!(row_text(terminal.grid(), 0), "abc");
    assert_eq!(terminal.grid().cursor().x, 2);
    assert_eq!(terminal.grid().cursor().y, 0);

    let _ = terminal.process_pty_input(b"d");

    assert_eq!(row_text(terminal.grid(), 0), "abc");
    assert_eq!(row_text(terminal.grid(), 1), "d  ");
    assert_eq!(terminal.grid().cursor().x, 1);
    assert_eq!(terminal.grid().cursor().y, 1);
}

#[test]
fn disabled_autowrap_overwrites_last_column() {
    let mut terminal = new_terminal(3, 2);
    let _ = terminal.process_pty_input(b"\x1b[?7labcd");

    assert_eq!(row_text(terminal.grid(), 0), "abd");
    assert_eq!(row_text(terminal.grid(), 1), "   ");
    assert_eq!(terminal.grid().cursor().x, 2);
    assert_eq!(terminal.grid().cursor().y, 0);
}

#[test]
fn terminal_wide_characters_leave_spacer_cells() {
    let mut terminal = new_terminal(4, 1);
    let _ = terminal.process_pty_input("表x".as_bytes());

    assert_eq!(terminal.grid().cell(0, 0).unwrap().ch, '表');
    assert!(terminal.grid().cell(0, 0).unwrap().wide);
    assert!(terminal.grid().cell(1, 0).unwrap().spacer);
    assert_eq!(terminal.grid().cell(2, 0).unwrap().ch, 'x');
}

#[test]
fn tests_wide_characters_leave_spacer_cells() {
    let mut terminal = new_terminal(4, 1);
    let _ = terminal.process_pty_input("表x".as_bytes());

    assert_eq!(terminal.grid().cell(0, 0).unwrap().ch, '表');
    assert!(terminal.grid().cell(0, 0).unwrap().wide);
    assert!(terminal.grid().cell(1, 0).unwrap().spacer);
    assert_eq!(terminal.grid().cell(2, 0).unwrap().ch, 'x');
}

#[test]
fn terminal_writing_over_wide_spacer_clears_the_leading_cell() {
    let mut terminal = new_terminal(4, 1);
    let _ = terminal.process_pty_input("表\x1b[1;2Hx".as_bytes());

    assert_eq!(terminal.grid().cell(0, 0).unwrap().ch, ' ');
    assert!(!terminal.grid().cell(0, 0).unwrap().wide);
    assert_eq!(terminal.grid().cell(1, 0).unwrap().ch, 'x');
    assert!(!terminal.grid().cell(1, 0).unwrap().spacer);
}

#[test]
fn tests_writing_over_wide_spacer_clears_the_leading_cell() {
    let mut terminal = new_terminal(4, 1);
    let _ = terminal.process_pty_input("表\x1b[1;2Hx".as_bytes());

    assert_eq!(terminal.grid().cell(0, 0).unwrap().ch, ' ');
    assert!(!terminal.grid().cell(0, 0).unwrap().wide);
    assert_eq!(terminal.grid().cell(1, 0).unwrap().ch, 'x');
    assert!(!terminal.grid().cell(1, 0).unwrap().spacer);
}

#[test]
fn terminal_sgr_applies_style_to_later_cells() {
    let mut terminal = new_terminal(2, 1);
    let _ = terminal.process_pty_input(b"\x1b[31;1ma");
    let cell = terminal.grid().cell(0, 0).unwrap();

    assert_eq!(cell.style.foreground, Color::Indexed(1));
    assert!(cell.style.bold());
}

#[test]
fn tests_sgr_applies_style_to_later_cells() {
    let mut terminal = new_terminal(2, 1);
    let _ = terminal.process_pty_input(b"\x1b[31;1ma");
    let cell = terminal.grid().cell(0, 0).unwrap();

    assert_eq!(cell.style.foreground, Color::Indexed(1));
    assert!(cell.style.bold());
}

#[test]
fn terminal_alternate_screen_restores_primary_grid() {
    let mut terminal = new_terminal(4, 1);
    let tick = terminal.process_pty_input(b"abc\x1b[?1049hxyz\x1b[?1049l");

    assert_eq!(terminal.grid().cell(0, 0).unwrap().ch, 'a');
    assert_eq!(terminal.grid().cell(1, 0).unwrap().ch, 'b');
    assert_eq!(terminal.grid().cell(2, 0).unwrap().ch, 'c');
    assert!(
        tick.damage
            .regions
            .iter()
            .any(|region| matches!(region, DamageRegion::Viewport))
    );
}

#[test]
fn tests_alternate_screen_restores_primary_grid() {
    let mut terminal = new_terminal(4, 1);
    let tick = terminal.process_pty_input(b"abc\x1b[?1049hxyz\x1b[?1049l");

    assert_eq!(terminal.grid().cell(0, 0).unwrap().ch, 'a');
    assert_eq!(terminal.grid().cell(1, 0).unwrap().ch, 'b');
    assert_eq!(terminal.grid().cell(2, 0).unwrap().ch, 'c');
    assert!(
        tick.damage
            .regions
            .iter()
            .any(|region| matches!(region, DamageRegion::Viewport))
    );
}

#[test]
fn terminal_scroll_region_limits_line_feed_scrolling() {
    let mut terminal = new_terminal(3, 3);
    let _ = terminal.process_pty_input(b"aa\r\nbb\r\ncc\x1b[2;3r\x1b[3;1H\r\nDD");

    assert_eq!(terminal.grid().cell(0, 0).unwrap().ch, 'a');
    assert_eq!(terminal.grid().cell(0, 1).unwrap().ch, 'c');
    assert_eq!(terminal.grid().cell(0, 2).unwrap().ch, 'D');
}

#[test]
fn tests_scroll_region_limits_line_feed_scrolling() {
    let mut terminal = new_terminal(3, 3);
    let _ = terminal.process_pty_input(b"aa\r\nbb\r\ncc\x1b[2;3r\x1b[3;1H\r\nDD");

    assert_eq!(terminal.grid().cell(0, 0).unwrap().ch, 'a');
    assert_eq!(terminal.grid().cell(0, 1).unwrap().ch, 'c');
    assert_eq!(terminal.grid().cell(0, 2).unwrap().ch, 'D');
}

#[test]
fn terminal_extended_sgr_colors_are_applied() {
    let mut terminal = new_terminal(3, 1);
    let _ = terminal.process_pty_input(b"\x1b[38;5;196mA\x1b[48;2;1;2;3mB");

    assert_eq!(
        terminal.grid().cell(0, 0).unwrap().style.foreground,
        Color::Indexed(196)
    );
    assert_eq!(
        terminal.grid().cell(1, 0).unwrap().style.background,
        Color::Rgb(1, 2, 3)
    );
}

#[test]
fn tests_extended_sgr_colors_are_applied() {
    let mut terminal = new_terminal(3, 1);
    let _ = terminal.process_pty_input(b"\x1b[38;5;196mA\x1b[48;2;1;2;3mB");

    assert_eq!(
        terminal.grid().cell(0, 0).unwrap().style.foreground,
        Color::Indexed(196)
    );
    assert_eq!(
        terminal.grid().cell(1, 0).unwrap().style.background,
        Color::Rgb(1, 2, 3)
    );
}

#[test]
fn terminal_cursor_visibility_mode_updates_grid_cursor() {
    let mut terminal = new_terminal(2, 1);
    let _ = terminal.process_pty_input(b"\x1b[?25l");

    assert!(!terminal.grid().cursor().visible);
}

#[test]
fn tests_cursor_visibility_mode_updates_grid_cursor() {
    let mut terminal = new_terminal(2, 1);
    let _ = terminal.process_pty_input(b"\x1b[?25l");

    assert!(!terminal.grid().cursor().visible);
}

#[test]
fn terminal_cursor_shape_sequence_updates_grid_cursor() {
    let mut terminal = new_terminal(2, 1);

    let _ = terminal.process_pty_input(b"\x1b[6 q");
    assert_eq!(terminal.grid().cursor().shape, CursorShape::Beam);

    let _ = terminal.process_pty_input(b"\x1b[4 q");
    assert_eq!(
        terminal.grid().cursor().shape,
        CursorShape::Underline
    );

    let _ = terminal.process_pty_input(b"\x1b[2 q");
    assert_eq!(terminal.grid().cursor().shape, CursorShape::Block);
}

#[test]
fn tests_cursor_shape_sequence_updates_grid_cursor() {
    let mut terminal = new_terminal(2, 1);

    let _ = terminal.process_pty_input(b"\x1b[6 q");
    assert_eq!(terminal.grid().cursor().shape, CursorShape::Beam);

    let _ = terminal.process_pty_input(b"\x1b[4 q");
    assert_eq!(
        terminal.grid().cursor().shape,
        CursorShape::Underline
    );

    let _ = terminal.process_pty_input(b"\x1b[2 q");
    assert_eq!(terminal.grid().cursor().shape, CursorShape::Block);
}

#[test]
fn terminal_synchronized_update_mode_is_tracked() {
    let mut terminal = new_terminal(2, 1);

    let _ = terminal.process_pty_input(b"\x1b[?2026h");
    assert!(terminal.grid().is_synchronized());

    let _ = terminal.process_pty_input(b"\x1b[?2026l");
    assert!(!terminal.grid().is_synchronized());
}

#[test]
fn tests_synchronized_update_mode_is_tracked() {
    let mut terminal = new_terminal(2, 1);

    let _ = terminal.process_pty_input(b"\x1b[?2026h");
    assert!(terminal.grid().is_synchronized());

    let _ = terminal.process_pty_input(b"\x1b[?2026l");
    assert!(!terminal.grid().is_synchronized());
}

#[test]
fn terminal_mouse_modes_are_tracked() {
    let mut terminal = new_terminal(2, 1);

    let _ = terminal.process_pty_input(b"\x1b[?1000;1006h");
    assert_eq!(terminal.mouse().tracking, MouseTracking::Click);
    assert!(terminal.mouse().sgr);

    let _ = terminal.process_pty_input(b"\x1b[?1000l");
    assert_eq!(terminal.mouse().tracking, MouseTracking::Disabled);
    assert!(terminal.mouse().sgr);

    let _ = terminal.process_pty_input(b"\x1b[?1006l");
    assert!(!terminal.mouse().sgr);
}

#[test]
fn tests_mouse_modes_are_tracked() {
    let mut terminal = new_terminal(2, 1);

    let _ = terminal.process_pty_input(b"\x1b[?1000;1006h");
    assert_eq!(terminal.mouse().tracking, MouseTracking::Click);
    assert!(terminal.mouse().sgr);

    let _ = terminal.process_pty_input(b"\x1b[?1000l");
    assert_eq!(terminal.mouse().tracking, MouseTracking::Disabled);
    assert!(terminal.mouse().sgr);

    let _ = terminal.process_pty_input(b"\x1b[?1006l");
    assert!(!terminal.mouse().sgr);
}

#[test]
fn terminal_bracketed_paste_mode_is_tracked() {
    let mut terminal = new_terminal(2, 1);

    let _ = terminal.process_pty_input(b"\x1b[?2004h");
    assert!(terminal.bracketed_paste());

    let _ = terminal.process_pty_input(b"\x1b[?2004l");
    assert!(!terminal.bracketed_paste());
}

#[test]
fn tests_bracketed_paste_mode_is_tracked() {
    let mut terminal = new_terminal(2, 1);

    let _ = terminal.process_pty_input(b"\x1b[?2004h");
    assert!(terminal.bracketed_paste());

    let _ = terminal.process_pty_input(b"\x1b[?2004l");
    assert!(!terminal.bracketed_paste());
}

#[test]
fn terminal_repeat_sequence_reprints_previous_character() {
    let mut terminal = new_terminal(6, 1);
    let _ = terminal.process_pty_input(b"A\x1b[3b");

    assert_eq!(row_text(terminal.grid(), 0), "AAAA  ");
}

#[test]
fn tests_repeat_sequence_reprints_previous_character() {
    let mut terminal = new_terminal(6, 1);
    let _ = terminal.process_pty_input(b"A\x1b[3b");

    assert_eq!(row_text(terminal.grid(), 0), "AAAA  ");
}

#[test]
fn terminal_terminal_queries_emit_pty_responses() {
    let mut terminal = new_terminal(2, 1);

    assert_eq!(
        terminal.process_pty_input(b"\x1b[c").output,
        primary_device_attributes()
    );
    assert_eq!(
        terminal.process_pty_input(b"\x1b[>c").output,
        secondary_device_attributes()
    );
    assert_eq!(
        terminal.process_pty_input(b"\x1b[>q").output,
        version_reply()
    );
    assert_eq!(
        terminal.process_pty_input(b"\x1b[?u").output,
        keyboard_protocol_query()
    );
    assert_eq!(
        terminal.process_pty_input(b"\x1b[?2026$p").output,
        b"\x1b[?2026;2$y"
    );
    assert_eq!(
        terminal.process_pty_input(b"\x1b]11;?\x07").output,
        default_background_reply()
    );
}

#[test]
fn tests_terminal_queries_emit_pty_responses() {
    let mut terminal = new_terminal(2, 1);

    assert_eq!(
        terminal.process_pty_input(b"\x1b[c").output,
        primary_device_attributes()
    );
    assert_eq!(
        terminal.process_pty_input(b"\x1b[>c").output,
        secondary_device_attributes()
    );
    assert_eq!(
        terminal.process_pty_input(b"\x1b[>q").output,
        version_reply()
    );
    assert_eq!(
        terminal.process_pty_input(b"\x1b[?u").output,
        keyboard_protocol_query()
    );
    assert_eq!(
        terminal.process_pty_input(b"\x1b[?2026$p").output,
        b"\x1b[?2026;2$y"
    );
    assert_eq!(
        terminal.process_pty_input(b"\x1b]11;?\x07").output,
        default_background_reply()
    );
}

#[test]
fn terminal_osc52_clipboard_store_is_reported() {
    let mut terminal = new_terminal(2, 1);
    let tick = terminal.process_pty_input(b"\x1b]52;c;aGVsbG8=\x07");

    assert_eq!(tick.clipboard.len(), 1);
    assert_eq!(tick.clipboard[0].clipboard, b'c');
    assert_eq!(tick.clipboard[0].base64, b"aGVsbG8=");
}

#[test]
fn tests_osc52_clipboard_store_is_reported() {
    let mut terminal = new_terminal(2, 1);
    let tick = terminal.process_pty_input(b"\x1b]52;c;aGVsbG8=\x07");

    assert_eq!(tick.clipboard.len(), 1);
    assert_eq!(tick.clipboard[0].clipboard, b'c');
    assert_eq!(tick.clipboard[0].base64, b"aGVsbG8=");
}

#[test]
fn terminal_osc52_empty_selection_defaults_to_clipboard() {
    let mut terminal = new_terminal(2, 1);
    let tick = terminal.process_pty_input(b"\x1b]52;;aGVsbG8=\x07");

    assert_eq!(tick.clipboard[0].clipboard, b'c');
    assert_eq!(tick.clipboard[0].base64, b"aGVsbG8=");
}

#[test]
fn tests_osc52_empty_selection_defaults_to_clipboard() {
    let mut terminal = new_terminal(2, 1);
    let tick = terminal.process_pty_input(b"\x1b]52;;aGVsbG8=\x07");

    assert_eq!(tick.clipboard[0].clipboard, b'c');
    assert_eq!(tick.clipboard[0].base64, b"aGVsbG8=");
}

#[test]
fn terminal_dec_special_graphics_map_tmux_line_drawing() {
    let mut terminal = new_terminal(8, 1);
    let _ = terminal.process_pty_input(b"\x1b(0lqkxmj\x1b(Bq");

    assert_eq!(row_text(terminal.grid(), 0), "┌─┐│└┘q ");
}

#[test]
fn tests_dec_special_graphics_map_tmux_line_drawing() {
    let mut terminal = new_terminal(8, 1);
    let _ = terminal.process_pty_input(b"\x1b(0lqkxmj\x1b(Bq");

    assert_eq!(row_text(terminal.grid(), 0), "┌─┐│└┘q ");
}

#[test]
fn terminal_dec_g1_special_graphics_shift_in_and_out() {
    let mut terminal = new_terminal(5, 1);
    let _ = terminal.process_pty_input(b"\x1b)0\x0ex\x0fq");

    assert_eq!(row_text(terminal.grid(), 0), "│q   ");
}

#[test]
fn tests_dec_g1_special_graphics_shift_in_and_out() {
    let mut terminal = new_terminal(5, 1);
    let _ = terminal.process_pty_input(b"\x1b)0\x0ex\x0fq");

    assert_eq!(row_text(terminal.grid(), 0), "│q   ");
}

#[test]
fn terminal_save_and_restore_cursor_moves_back() {
    let mut terminal = new_terminal(4, 1);
    let _ = terminal.process_pty_input(b"\x1b[3G\x1b[sA\x1b[1G\x1b[uB");

    assert_eq!(terminal.grid().cell(2, 0).unwrap().ch, 'B');
}

#[test]
fn tests_save_and_restore_cursor_moves_back() {
    let mut terminal = new_terminal(4, 1);
    let _ = terminal.process_pty_input(b"\x1b[3G\x1b[sA\x1b[1G\x1b[uB");

    assert_eq!(terminal.grid().cell(2, 0).unwrap().ch, 'B');
}

#[test]
fn tests_resize_reflow_wraps_existing_rows_to_new_width() {
    let mut terminal = new_terminal(6, 3);
    let _ = terminal.process_pty_input(b"abcdef");

    let _ = terminal.resize_reflow(3, 3);

    assert_eq!(row_text(terminal.grid(), 0), "abc");
    assert_eq!(row_text(terminal.grid(), 1), "def");
    assert_eq!(row_text(terminal.grid(), 2), "   ");
}

#[test]
fn tests_resize_reflow_moves_overflow_into_scrollback() {
    let mut terminal = new_terminal(6, 2);
    let _ = terminal.process_pty_input(b"abcdef\x1b[2;1Hghijkl");

    let _ = terminal.resize_reflow(3, 2);

    assert_eq!(terminal.scrollback_len(), 2);
    assert_eq!(row_slice_text(terminal.scrollback_row(0).unwrap()), "abc");
    assert_eq!(row_slice_text(terminal.scrollback_row(1).unwrap()), "def");
    assert_eq!(row_text(terminal.grid(), 0), "ghi");
    assert_eq!(row_text(terminal.grid(), 1), "jkl");
}

#[test]
fn resize_reflow_preserves_wide_character_shape() {
    let mut terminal = new_terminal(6, 2);
    let _ = terminal.process_pty_input("ab表cd".as_bytes());

    let _ = terminal.resize_reflow(4, 3);

    assert_eq!(row_text(terminal.grid(), 0), "ab表 ");
    assert_eq!(row_text(terminal.grid(), 1), "cd  ");
    assert_eq!(row_text(terminal.grid(), 2), "    ");
    assert!(terminal.grid().cell(2, 0).unwrap().wide);
    assert!(terminal.grid().cell(3, 0).unwrap().spacer);
}

#[test]
fn resize_reflow_on_alternate_screen_keeps_coordinates() {
    let mut terminal = new_terminal(6, 2);
    let _ = terminal.process_pty_input(b"\x1b[?1049habcdef");

    let _ = terminal.resize_reflow(3, 2);

    assert_eq!(row_text(terminal.grid(), 0), "abc");
    assert_eq!(row_text(terminal.grid(), 1), "   ");
    assert_eq!(terminal.scrollback_len(), 0);
}

#[test]
fn scrollback_append_keeps_only_capacity_tail() {
    let mut terminal = new_terminal(3, 1);
    terminal.set_scrollback_capacity(2);
    let _ = terminal.process_pty_input(b"aaa\r\nbbb\r\nccc\r\nddd");

    assert_eq!(terminal.scrollback_len(), 2);
    assert_eq!(row_slice_text(terminal.scrollback_row(0).unwrap()), "bbb");
    assert_eq!(row_slice_text(terminal.scrollback_row(1).unwrap()), "ccc");
}

#[test]
fn terminal_resize_reflow_wraps_existing_rows_to_new_width() {
    let mut terminal = new_terminal(6, 3);
    let _ = terminal.process_pty_input(b"abcdef");

    let _ = terminal.resize_reflow(3, 3);

    assert_eq!(row_text(terminal.grid(), 0), "abc");
    assert_eq!(row_text(terminal.grid(), 1), "def");
    assert_eq!(row_text(terminal.grid(), 2), "   ");
}

#[test]
fn terminal_resize_reflow_moves_overflow_into_scrollback() {
    let mut terminal = new_terminal(6, 2);
    let _ = terminal.process_pty_input(b"abcdef\x1b[2;1Hghijkl");

    let _ = terminal.resize_reflow(3, 2);

    assert_eq!(terminal.scrollback_len(), 2);
    assert_eq!(row_slice_text(terminal.scrollback_row(0).unwrap()), "abc");
    assert_eq!(row_slice_text(terminal.scrollback_row(1).unwrap()), "def");
    assert_eq!(row_text(terminal.grid(), 0), "ghi");
    assert_eq!(row_text(terminal.grid(), 1), "jkl");
}

#[test]
fn fast_paths_leave_the_same_screen_as_the_parser() {
    let inputs: [&[u8]; 4] = [
        b"hello world, this wraps around\r\nand scrolls\r\nup",
        b"ab\x1b[31mcd\x1b[0mef\x1b[1;44mgh",
        "wide 表 and ascii after it".as_bytes(),
        b"\x1b[2;3Hxyz\tq\x08r",
    ];
    for input in inputs {
        let mut fast = new_terminal(7, 3);
        let mut slow = new_parsed_terminal(7, 3);
        let _ = fast.process_pty_input(input);
        let _ = slow.process_pty_input(input);
        for y in 0..3 {
            for x in 0..7 {
                assert_eq!(fast.grid().cell(x, y), slow.grid().cell(x, y));
            }
        }
        assert_eq!(fast.grid().cursor(), slow.grid().cursor());
        assert_eq!(fast.scrollback_len(), slow.scrollback_len());
    }
}

#[test]
fn relative_cursor_moves_clamp_and_report_the_move() {
    let mut grid = Grid::new(4, 3);

    let moved = grid.move_cursor_relative(-5, 10).unwrap();
    assert_eq!((moved.0.x, moved.0.y), (0, 0));
    assert_eq!((moved.1.x, moved.1.y), (0, 2));
    assert!(grid.move_cursor_relative(0, 1).is_none());
    let _ = grid.move_cursor_relative(i16::MAX, i16::MIN);
    assert_eq!((grid.cursor().x, grid.cursor().y), (3, 0));
}

#[test]
fn attribute_bits_follow_the_flags() {
    let mut style = termite_core::grid::Style::default();
    assert_eq!(style.attribute_bits(), 0);
    style.set_italic(true);
    style.set_underline(true);
    assert_eq!(style.attribute_bits(), 6);
    style.set_italic(false);
    assert_eq!(style.attribute_bits(), 4);
}

#[test]
fn a_zero_sized_terminal_starts_at_one_cell() {
    let terminal = new_terminal(0, 0);
    assert_eq!(terminal.grid().width(), 1);
    assert_eq!(terminal.grid().height(), 1);
}

/// A parser that makes no actions and records every input it is handed.
struct Recorder {
    seen: std::rc::Rc<std::cell::RefCell<Vec<Vec<u8>>>>,
    fast: bool,
}

impl ParserAdapter for Recorder {
    fn parse(&mut self, input: &[u8], _actions: &mut Vec<ParserAction>) {
        self.seen.borrow_mut().push(input.to_vec());
    }

    fn can_process_ascii_fast_path(&self) -> bool {
        self.fast
    }

    fn fast_path_ok(&self) -> bool {
        self.fast
    }

    // The library's proofs speak of what a parse makes of some input; the
    // program never asks for it when it runs.
    fn parsed(&self, _input: ByteSeq) -> ActionSeq {
        unreachable!()
    }

    fn after_parse(&self, _input: ByteSeq) -> Self {
        unreachable!()
    }
}

fn recorded_inputs(fast: bool, input: &[u8]) -> Vec<Vec<u8>> {
    let seen = std::rc::Rc::new(std::cell::RefCell::new(Vec::new()));
    let mut terminal = TerminalCore::with_parser(
        10,
        2,
        Recorder {
            seen: seen.clone(),
            fast,
        },
    );
    let _ = terminal.process_pty_input(input);
    let inputs = seen.borrow().clone();
    inputs
}

#[test]
fn the_parser_gets_what_the_fast_paths_leave() {
    let input: &[u8] = b"ab\x1b[1mcd\x1b]0;t\x07";
    assert_eq!(recorded_inputs(true, input), vec![b"\x1b]0;t\x07".to_vec()]);
    assert_eq!(recorded_inputs(false, input), vec![input.to_vec()]);
    // Text that the fast paths take whole never reaches the parser.
    assert_eq!(recorded_inputs(true, b"abc"), Vec::<Vec<u8>>::new());
    // Nor does empty input.
    assert_eq!(recorded_inputs(false, b""), Vec::<Vec<u8>>::new());
    // A fast SGR sequence that ends the input leaves the parser nothing.
    assert_eq!(recorded_inputs(true, b"ab\x1b[1m"), vec![Vec::<u8>::new()]);
}
