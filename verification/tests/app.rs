use termite_core::event::{KeyModifiers, KeyPress};
use termite_core::parser::{ActionSeq, ActionPerformer, ParserAction, ByteSeq, ParserAdapter};
use termite_core::renderer::FrameReason;
use termite_core::terminal_app::{AppAction, TerminalApp};

/// A parser for the tests: vte splits the bytes into sequences and the
/// library's action performer turns them into actions. Test inputs hold
/// whole sequences, so the fast paths may run whenever `fast` is set.
struct VteParser {
    parser: vte::Parser,
    performer: ActionPerformer,
    fast: bool,
}

struct Forward<'a> {
    performer: &'a mut ActionPerformer,
}

impl vte::Perform for Forward<'_> {
    fn print(&mut self, c: char) {
        self.performer.print(c);
    }

    fn execute(&mut self, byte: u8) {
        self.performer.execute(byte);
    }

    fn csi_dispatch(&mut self, params: &vte::Params, intermediates: &[u8], ignore: bool, action: char) {
        let params: Vec<Vec<u16>> = params.iter().map(|param| param.to_vec()).collect();
        self.performer.csi_dispatch(&params, intermediates, ignore, action);
    }

    fn esc_dispatch(&mut self, intermediates: &[u8], ignore: bool, byte: u8) {
        self.performer.esc_dispatch(intermediates, ignore, byte);
    }

    fn osc_dispatch(&mut self, params: &[&[u8]], _bell_terminated: bool) {
        let params: Vec<Vec<u8>> = params.iter().map(|param| param.to_vec()).collect();
        self.performer.osc_dispatch(&params);
    }
}

impl ParserAdapter for VteParser {
    fn parse(&mut self, input: &[u8], actions: &mut Vec<ParserAction>) {
        let mut forward = Forward {
            performer: &mut self.performer,
        };
        self.parser.advance(&mut forward, input);
        actions.append(&mut self.performer.actions);
    }

    fn can_process_ascii_fast_path(&self) -> bool {
        self.fast
    }

    fn fast_path_ok(&self) -> bool {
        self.fast
    }

    // The library's proofs speak of what a parse makes of some input; the
    // program never asks for it when it runs.
    fn parsed(&self, _input: ByteSeq) -> ActionSeq {
        unreachable!()
    }

    fn after_parse(&self, _input: ByteSeq) -> Self {
        unreachable!()
    }
}

fn new_app(cols: u16, rows: u16, width_px: u32, height_px: u32) -> TerminalApp<VteParser> {
    TerminalApp::new(
        cols,
        rows,
        width_px,
        height_px,
        VteParser {
            parser: vte::Parser::new(),
            performer: ActionPerformer::new(),
            fast: true,
        },
    )
}

#[test]
fn pty_bytes_flow_from_core_to_renderer() {
    let mut app = new_app(10, 2, 800, 600);
    let frame = app
        .handle_action(AppAction::PtyBytes(b"hello".to_vec()))
        .unwrap()
        .unwrap();

    assert_eq!(app.terminal().grid().cell(0, 0).unwrap().ch, 'h');
    assert_eq!(frame.plugin_draws, 0);
}

#[test]
fn plugin_animation_does_not_render_without_frame_plugin_or_damage() {
    let mut app = new_app(10, 2, 800, 600);
    let _ = app.handle_action(AppAction::PtyBytes(Vec::new())).unwrap();

    assert!(
        app.handle_action(AppAction::PluginAnimationFrame)
            .unwrap()
            .is_none()
    );
}

#[test]
fn each_drawn_frame_carries_its_reason_and_number() {
    let mut app = new_app(4, 2, 64, 32);
    let first = app.handle_action(AppAction::Exposed).unwrap().unwrap();
    let second = app.handle_action(AppAction::CursorBlink).unwrap().unwrap();

    assert_eq!(first.reason, FrameReason::Exposed);
    assert_eq!(first.frame_index, 1);
    assert_eq!(second.reason, FrameReason::CursorBlink);
    assert_eq!(second.frame_index, 2);
}

#[test]
fn resizing_in_cells_resizes_the_terminal_and_draws() {
    let mut app = new_app(4, 2, 64, 32);
    let frame = app
        .handle_action(AppAction::ResizeCells { width: 6, height: 3 })
        .unwrap()
        .unwrap();

    assert_eq!(frame.reason, FrameReason::Resize);
    assert_eq!(app.terminal().grid().width(), 6);
    assert_eq!(app.terminal().grid().height(), 3);
}

#[test]
fn resizing_in_pixels_keeps_the_grid_and_draws_for_the_resize() {
    let mut app = new_app(4, 2, 64, 32);
    let frame = app
        .handle_action(AppAction::ResizePixels { width: 128, height: 64 })
        .unwrap()
        .unwrap();

    assert_eq!(frame.reason, FrameReason::Resize);
    assert_eq!(app.terminal().grid().width(), 4);
}

#[test]
fn a_key_press_leaves_the_screen_and_draws_for_damage() {
    let mut app = new_app(4, 2, 64, 32);
    let _ = app.handle_action(AppAction::PtyBytes(b"ab".to_vec())).unwrap();
    let key = KeyPress {
        logical_key: "c".to_string(),
        text: Some("c".to_string()),
        modifiers: KeyModifiers::default(),
    };
    let frame = app.handle_action(AppAction::KeyPress(key)).unwrap().unwrap();

    assert_eq!(frame.reason, FrameReason::Damage);
    assert_eq!(app.terminal().grid().cell(0, 0).unwrap().ch, 'a');
    assert_eq!(app.terminal().grid().cell(2, 0).unwrap().ch, ' ');
}
