use termite_core::event::KeyModifiers;
use termite_core::input::{LogicalKey, MouseButton, NamedKey, ZoomAction};
use termite_core::interaction::{KeyOutcome, MouseOutcome, ViewState};
use termite_core::parser::MouseTracking;
use termite_core::selection::Selection;
use termite_core::terminal::MouseState;

fn mods(ctrl: bool, shift: bool) -> KeyModifiers {
    KeyModifiers {
        ctrl,
        alt: false,
        shift,
        super_key: false,
    }
}

fn character(text: &str) -> LogicalKey {
    LogicalKey::Character(text.to_string())
}

fn tracking(tracking: MouseTracking) -> MouseState {
    MouseState { tracking, sgr: false }
}

#[test]
fn shortcuts_ask_for_copy_paste_zoom_and_quit() {
    let mut view = ViewState::new();

    assert_eq!(view.handle_key(&character("C"), mods(true, true), 24, 0, false), KeyOutcome::CopySelection);
    assert_eq!(view.handle_key(&character("v"), mods(true, true), 24, 0, false), KeyOutcome::PasteClipboard);
    assert_eq!(
        view.handle_key(&character("="), mods(true, false), 24, 0, false),
        KeyOutcome::Zoom(ZoomAction::Adjust(1))
    );
    assert_eq!(view.handle_key(&character("q"), mods(true, false), 24, 0, false), KeyOutcome::Quit);
    assert_eq!(view, ViewState::new());
}

#[test]
fn shift_page_keys_scroll_the_view_a_page_within_the_history() {
    let mut view = ViewState::new();
    let page_up = LogicalKey::Named(NamedKey::PageUp);
    let page_down = LogicalKey::Named(NamedKey::PageDown);

    assert_eq!(view.handle_key(&page_up, mods(false, true), 5, 10, false), KeyOutcome::Redraw);
    assert_eq!(view.scroll_offset, 4);
    let _ = view.handle_key(&page_up, mods(false, true), 5, 10, false);
    let _ = view.handle_key(&page_up, mods(false, true), 5, 10, false);
    assert_eq!(view.scroll_offset, 10);
    assert_eq!(view.handle_key(&page_up, mods(false, true), 5, 10, false), KeyOutcome::Nothing);
    assert_eq!(view.handle_key(&page_down, mods(false, true), 5, 10, false), KeyOutcome::Redraw);
    assert_eq!(view.scroll_offset, 6);
}

#[test]
fn the_alternate_screen_does_not_scroll() {
    let mut view = ViewState::new();

    assert!(!view.scroll_view(3, 10, true));
    assert_eq!(view.scroll_offset, 0);
}

#[test]
fn typing_while_scrolled_back_snaps_to_the_screen() {
    let mut view = ViewState::new();
    assert!(view.scroll_view(3, 10, false));
    view.selection = Some(Selection::start((1, 1)));

    let outcome = view.handle_key(&character("a"), mods(false, false), 24, 10, false);

    assert_eq!(
        outcome,
        KeyOutcome::Send {
            bytes: b"a".to_vec(),
            snapped: true
        }
    );
    assert_eq!(view.scroll_offset, 0);
    assert_eq!(view.selection, None);
}

#[test]
fn dragging_the_left_button_selects_when_the_mouse_is_not_tracked() {
    let mut view = ViewState::new();
    let off = tracking(MouseTracking::Disabled);

    assert_eq!(view.handle_mouse_input(true, MouseButton::Left, mods(false, false), off), MouseOutcome::Nothing);
    assert_eq!(view.handle_mouse_move(Some((2, 1)), off), MouseOutcome::Nothing);
    assert_eq!(view.handle_mouse_input(true, MouseButton::Left, mods(false, false), off), MouseOutcome::Redraw);
    assert_eq!(view.handle_mouse_move(Some((4, 1)), off), MouseOutcome::Redraw);
    assert_eq!(view.handle_mouse_move(Some((4, 1)), off), MouseOutcome::Nothing);
    assert_eq!(view.handle_mouse_input(false, MouseButton::Left, mods(false, false), off), MouseOutcome::Redraw);

    let selection = view.selection.unwrap();
    assert_eq!(selection.anchor, (2, 1));
    assert_eq!(selection.focus, (4, 1));
    assert!(!selection.dragging);
}

#[test]
fn a_tracking_child_gets_button_reports() {
    let mut view = ViewState::new();
    let click = tracking(MouseTracking::Click);
    let _ = view.handle_mouse_move(Some((3, 0)), click);

    assert_eq!(
        view.handle_mouse_input(true, MouseButton::Middle, mods(false, false), click),
        MouseOutcome::Report { code: 1, cell: (3, 0), release: false }
    );
    assert_eq!(view.mouse_buttons, 2);
    assert_eq!(
        view.handle_mouse_input(false, MouseButton::Middle, mods(false, false), click),
        MouseOutcome::Report { code: 3, cell: (3, 0), release: true }
    );
    assert_eq!(view.mouse_buttons, 0);
}

#[test]
fn shift_selects_even_when_the_child_tracks_the_mouse() {
    let mut view = ViewState::new();
    let click = tracking(MouseTracking::Click);
    let _ = view.handle_mouse_move(Some((0, 0)), click);

    assert_eq!(view.handle_mouse_input(true, MouseButton::Left, mods(false, true), click), MouseOutcome::Redraw);
    assert!(view.selection.unwrap().dragging);
}

#[test]
fn motion_reports_follow_the_tracking_mode() {
    let mut view = ViewState::new();
    let drag = tracking(MouseTracking::Drag);
    let any = tracking(MouseTracking::Any);

    assert_eq!(view.handle_mouse_move(Some((1, 1)), drag), MouseOutcome::Nothing);
    let _ = view.handle_mouse_input(true, MouseButton::Right, mods(false, false), drag);
    assert_eq!(
        view.handle_mouse_move(Some((2, 1)), drag),
        MouseOutcome::Report { code: 34, cell: (2, 1), release: false }
    );
    assert_eq!(
        view.handle_mouse_move(Some((3, 1)), any),
        MouseOutcome::Report { code: 35, cell: (3, 1), release: false }
    );
    assert_eq!(view.handle_mouse_move(None, any), MouseOutcome::Nothing);
    assert_eq!(view.mouse_position, None);
}

#[test]
fn output_keeps_the_view_within_the_history() {
    let mut view = ViewState::new();
    assert!(view.scroll_view(8, 10, false));

    assert!(view.after_output(false, 5));
    assert_eq!(view.scroll_offset, 5);
    assert!(!view.after_output(false, 5));
    assert!(view.after_output(true, 5));
    assert_eq!(view.scroll_offset, 0);
}
