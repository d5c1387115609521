use termite_core::parser::{ActionSeq, ActionPerformer, ParserAction, ByteSeq, ParserAdapter};
use termite_core::selection::{CellRect, Selection};
use termite_core::terminal::TerminalCore;

/// A parser for the tests: vte splits the bytes into sequences and the
/// library's action performer turns them into actions. Test inputs hold
/// whole sequences, so the fast paths may always run.
struct VteParser {
    parser: vte::Parser,
    performer: ActionPerformer,
}

struct Forward<'a> {
    performer: &'a mut ActionPerformer,
}

impl vte::Perform for Forward<'_> {
    fn print(&mut self, c: char) {
        self.performer.print(c);
    }

    fn execute(&mut self, byte: u8) {
        self.performer.execute(byte);
    }

    fn csi_dispatch(&mut self, params: &vte::Params, intermediates: &[u8], ignore: bool, action: char) {
        let params: Vec<Vec<u16>> = params.iter().map(|param| param.to_vec()).collect();
        self.performer.csi_dispatch(&params, intermediates, ignore, action);
    }

    fn esc_dispatch(&mut self, intermediates: &[u8], ignore: bool, byte: u8) {
        self.performer.esc_dispatch(intermediates, ignore, byte);
    }

    fn osc_dispatch(&mut self, params: &[&[u8]], _bell_terminated: bool) {
        let params: Vec<Vec<u8>> = params.iter().map(|param| param.to_vec()).collect();
        self.performer.osc_dispatch(&params);
    }
}

impl ParserAdapter for VteParser {
    fn parse(&mut self, input: &[u8], actions: &mut Vec<ParserAction>) {
        let mut forward = Forward {
            performer: &mut self.performer,
        };
        self.parser.advance(&mut forward, input);
        actions.append(&mut self.performer.actions);
    }

    fn can_process_ascii_fast_path(&self) -> bool {
        true
    }

    fn fast_path_ok(&self) -> bool {
        true
    }

    // The library's proofs speak of what a parse makes of some input; the
    // program never asks for it when it runs.
    fn parsed(&self, _input: ByteSeq) -> ActionSeq {
        unreachable!()
    }

    fn after_parse(&self, _input: ByteSeq) -> Self {
        unreachable!()
    }
}

fn new_terminal(width: u16, height: u16) -> TerminalCore<VteParser> {
    TerminalCore::with_parser(
        width,
        height,
        VteParser {
            parser: vte::Parser::new(),
            performer: ActionPerformer::new(),
        },
    )
}


#[test]
fn selected_text_trims_row_edges() {
    let mut terminal = new_terminal(5, 2);
    let _ = terminal.process_pty_input(b"abc  \r\nxy   ");
    let selection = Selection {
        anchor: (0, 0),
        focus: (4, 1),
        dragging: false,
    };

    assert_eq!(selection.text(&terminal, 0), "abc\nxy");
}

#[test]
fn selected_scrollback_uses_visible_offset() {
    let mut terminal = new_terminal(3, 2);
    let _ = terminal.process_pty_input(b"aa\r\nbb\r\ncc\r\ndd");
    let selection = Selection {
        anchor: (0, 0),
        focus: (1, 0),
        dragging: false,
    };

    assert_eq!(selection.text(&terminal, 1), "bb");
}

#[test]
fn selection_overlays_cover_rows() {
    let overlays = Selection {
        anchor: (1, 0),
        focus: (2, 1),
        dragging: false,
    }
    .overlay_rects(4);

    assert_eq!(overlays.len(), 2);
    assert_eq!(
        overlays[0],
        CellRect {
            x: 1,
            y: 0,
            width: 3,
            height: 1
        }
    );
}

#[test]
fn large_selection_uses_middle_rect() {
    let overlays = Selection {
        anchor: (1, 0),
        focus: (2, 4),
        dragging: false,
    }
    .overlay_rects(5);

    assert_eq!(overlays.len(), 3);
    assert_eq!(
        overlays[2],
        CellRect {
            x: 0,
            y: 1,
            width: 5,
            height: 3
        }
    );
}

#[test]
fn backwards_selection_reads_in_order_and_skips_spacers() {
    let mut terminal = new_terminal(6, 2);
    let _ = terminal.process_pty_input("a表b\r\ncd".as_bytes());
    let mut selection = Selection::start((1, 1));
    assert!(selection.is_dragging());
    assert!(selection.update((0, 0)));
    assert!(!selection.update((0, 0)));
    selection.finish();
    assert!(!selection.is_dragging());
    assert_eq!(selection.normalized(), ((0, 0), (1, 1)));
    assert_eq!(selection.text(&terminal, 0), "a表b\ncd");
}

#[test]
fn single_line_selection_is_one_rect() {
    let rects = Selection::start((2, 3)).overlay_rects(10);
    assert_eq!(
        rects,
        vec![CellRect {
            x: 2,
            y: 3,
            width: 1,
            height: 1
        }]
    );
}
