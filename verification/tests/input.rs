use termite_core::event::KeyModifiers;
use termite_core::input::{
    active_mouse_button, ctrl_byte, encode_key, function_key_sequence, host_ctrl_byte, HostKeyCode, encode_mouse_event, encode_named_key, encode_window_key,
    mouse_cell, paste_bytes, shortcut_key, wheel_axis_codes, wheel_lines, zoom_key_action, LogicalKey,
    NamedKey, ZoomAction,
};
use termite_core::metrics::TerminalMetrics;
use termite_core::parser::MouseTracking;
use termite_core::terminal::MouseState;

fn mods(ctrl: bool, alt: bool, shift: bool) -> KeyModifiers {
    KeyModifiers {
        ctrl,
        alt,
        shift,
        super_key: false,
    }
}

#[test]
fn input_sgr_mouse_encoding_uses_one_based_coordinates() {
    let mouse = MouseState {
        tracking: MouseTracking::Click,
        sgr: true,
    };

    assert_eq!(
        encode_mouse_event(mouse, 0, 2, 3, KeyModifiers::default(), false),
        b"\x1b[<0;3;4M"
    );
    assert_eq!(
        encode_mouse_event(mouse, 0, 2, 3, KeyModifiers::default(), true),
        b"\x1b[<0;3;4m"
    );
}

#[test]
fn input_mouse_encoding_includes_modifiers() {
    let mouse = MouseState {
        tracking: MouseTracking::Click,
        sgr: true,
    };

    assert_eq!(
        encode_mouse_event(mouse, 64, 0, 0, mods(true, false, true), false),
        b"\x1b[<84;1;1M"
    );
}

#[test]
fn input_ctrl_shift_shortcuts_match_case_insensitively() {
    assert!(shortcut_key(
        &LogicalKey::Character("V".to_owned()),
        mods(true, false, true),
        'v'
    ));
}

#[test]
fn window_backend_shifted_minus_character_is_zoom_out_key() {
    assert_eq!(
        zoom_key_action(&LogicalKey::Character("_".to_owned()), mods(true, false, true)),
        Some(ZoomAction::Adjust(-1))
    );
}

#[test]
fn navigation_keys_use_xterm_modifier_encoding() {
    assert_eq!(
        encode_named_key(&NamedKey::ArrowLeft, mods(true, false, true)),
        Some(b"\x1b[1;6D".to_vec())
    );
    assert_eq!(
        encode_named_key(&NamedKey::Delete, mods(false, true, false)),
        Some(b"\x1b[3;3~".to_vec())
    );
    assert_eq!(
        encode_named_key(&NamedKey::Home, KeyModifiers::default()),
        Some(b"\x1b[H".to_vec())
    );
}

#[test]
fn function_keys_use_xterm_sequences() {
    assert_eq!(
        encode_named_key(&NamedKey::F1, KeyModifiers::default()),
        Some(b"\x1bOP".to_vec())
    );
    assert_eq!(
        encode_named_key(&NamedKey::F1, mods(true, false, false)),
        Some(b"\x1b[1;5P".to_vec())
    );
    assert_eq!(
        encode_named_key(&NamedKey::F12, mods(false, false, true)),
        Some(b"\x1b[24;2~".to_vec())
    );
}

#[test]
fn shift_tab_uses_backtab_sequence() {
    assert_eq!(
        encode_named_key(&NamedKey::Tab, mods(false, false, true)),
        Some(b"\x1b[Z".to_vec())
    );
}

#[test]
fn typed_keys_send_utf8_with_alt_prefix() {
    assert_eq!(
        encode_window_key(&LogicalKey::Character("é".to_owned()), KeyModifiers::default()),
        Some("é".as_bytes().to_vec())
    );
    assert_eq!(
        encode_window_key(&LogicalKey::Character("x".to_owned()), mods(false, true, false)),
        Some(b"\x1bx".to_vec())
    );
    assert_eq!(
        encode_window_key(&LogicalKey::Character("c".to_owned()), mods(true, false, false)),
        Some(vec![0x03])
    );
    assert_eq!(
        encode_window_key(&LogicalKey::Character("ab".to_owned()), mods(true, false, false)),
        None
    );
    assert_eq!(
        encode_window_key(&LogicalKey::Character("é".to_owned()), mods(true, false, false)),
        None
    );
    assert_eq!(encode_window_key(&LogicalKey::Unidentified, KeyModifiers::default()), None);
    assert_eq!(
        encode_window_key(&LogicalKey::Named(NamedKey::Enter), mods(false, true, false)),
        Some(b"\x1b\r".to_vec())
    );
    assert_eq!(
        encode_window_key(&LogicalKey::Named(NamedKey::Space), mods(true, false, false)),
        Some(vec![0x00])
    );
    assert_eq!(encode_window_key(&LogicalKey::Named(NamedKey::Other), KeyModifiers::default()), None);
}

#[test]
fn control_bytes_follow_the_keyboard_layout() {
    assert_eq!(ctrl_byte('a'), Some(1));
    assert_eq!(ctrl_byte('Z'), Some(26));
    assert_eq!(ctrl_byte('['), Some(0x1b));
    assert_eq!(ctrl_byte('8'), Some(0x7f));
    assert_eq!(ctrl_byte('~'), Some(0x1e));
    assert_eq!(ctrl_byte('!'), None);
}

#[test]
fn page_and_function_keys_with_modifiers() {
    assert_eq!(
        encode_named_key(&NamedKey::PageUp, KeyModifiers::default()),
        Some(b"\x1b[5~".to_vec())
    );
    assert_eq!(
        encode_named_key(&NamedKey::F5, mods(true, true, true)),
        Some(b"\x1b[15;8~".to_vec())
    );
    assert_eq!(
        encode_named_key(&NamedKey::F4, mods(false, true, false)),
        Some(b"\x1b[1;3S".to_vec())
    );
}

#[test]
fn legacy_mouse_reports_refuse_coordinates_past_a_byte() {
    let mouse = MouseState {
        tracking: MouseTracking::Click,
        sgr: false,
    };
    assert_eq!(
        encode_mouse_event(mouse, 0, 0, 0, KeyModifiers::default(), false),
        vec![0x1b, b'[', b'M', 32, 33, 33]
    );
    assert!(encode_mouse_event(mouse, 0, 223, 0, KeyModifiers::default(), false).is_empty());
    let off = MouseState {
        tracking: MouseTracking::Disabled,
        sgr: true,
    };
    assert!(encode_mouse_event(off, 0, 1, 1, KeyModifiers::default(), false).is_empty());
}

#[test]
fn mouse_helpers_pick_buttons_wheels_and_cells() {
    assert_eq!(active_mouse_button(0b110), 1);
    assert_eq!(active_mouse_button(0), 3);
    assert_eq!(wheel_axis_codes(1, -1), vec![65, 67]);
    assert_eq!(wheel_axis_codes(0, 0), Vec::<u8>::new());
    assert_eq!(wheel_lines(0), 1);
    assert_eq!(wheel_lines(-40), -12);
    assert_eq!(wheel_lines(3), 3);
    let metrics = TerminalMetrics {
        cell_width: 10,
        cell_height: 18,
    };
    assert_eq!(mouse_cell(25, 40, 80, 24, metrics), Some((2, 2)));
    assert_eq!(mouse_cell(25, 40, 2, 24, metrics), None);
}

#[test]
fn zoom_keys_need_control() {
    assert_eq!(
        zoom_key_action(&LogicalKey::Character("+".to_owned()), mods(true, false, false)),
        Some(ZoomAction::Adjust(1))
    );
    assert_eq!(
        zoom_key_action(&LogicalKey::Character("0".to_owned()), mods(true, false, false)),
        Some(ZoomAction::Reset)
    );
    assert_eq!(zoom_key_action(&LogicalKey::Character("+".to_owned()), KeyModifiers::default()), None);
    assert_eq!(
        zoom_key_action(&LogicalKey::Character("++".to_owned()), mods(true, false, false)),
        None
    );
}

#[test]
fn host_keys_encode_like_xterm() {
    assert_eq!(encode_key(HostKeyCode::Left, false, false), Some(b"\x1b[D".to_vec()));
    assert_eq!(encode_key(HostKeyCode::Left, true, false), Some(b"\x1b\x1b[D".to_vec()));
    assert_eq!(encode_key(HostKeyCode::BackTab, false, false), Some(b"\t".to_vec()));
    assert_eq!(encode_key(HostKeyCode::Char('é'), false, false), Some("é".as_bytes().to_vec()));
    assert_eq!(encode_key(HostKeyCode::Char('🦀'), false, false), Some("🦀".as_bytes().to_vec()));
    assert_eq!(encode_key(HostKeyCode::Char('C'), false, true), Some(vec![0x03]));
    assert_eq!(encode_key(HostKeyCode::Char('!'), false, true), Some(Vec::new()));
    assert_eq!(encode_key(HostKeyCode::F(12), false, false), Some(b"\x1b[24~".to_vec()));
    assert_eq!(encode_key(HostKeyCode::F(13), false, false), None);
    assert_eq!(encode_key(HostKeyCode::Other, false, false), None);
}

#[test]
fn host_function_keys_and_control_bytes() {
    assert_eq!(function_key_sequence(1), Some(b"\x1bOP".to_vec()));
    assert_eq!(function_key_sequence(5), Some(b"\x1b[15~".to_vec()));
    assert_eq!(function_key_sequence(0), None);
    assert_eq!(host_ctrl_byte('?'), Some(0x7f));
    assert_eq!(host_ctrl_byte('8'), None);
    assert_eq!(host_ctrl_byte(' '), Some(0));
}

#[test]
fn paste_bytes_wraps_text_in_markers_when_bracketed() {
    assert_eq!(paste_bytes(b"ls\n", true), b"\x1b[200~ls\n\x1b[201~".to_vec());
}

#[test]
fn paste_bytes_sends_plain_text_without_nuls() {
    assert_eq!(paste_bytes(b"a\0b\0", false), b"ab".to_vec());
    assert_eq!(paste_bytes(b"", true), b"\x1b[200~\x1b[201~".to_vec());
}
