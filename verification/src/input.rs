//! What the terminal sends to the child process for keys and mouse events:
//! xterm-style key sequences, control bytes, and mouse reports.
use vstd::prelude::*;
use vstd::string::StringSliceAdditionalSpecFns;

use crate::damage::sat_add16;
use crate::event::KeyModifiers;
use crate::metrics::TerminalMetrics;
use crate::parser::MouseTracking;
use crate::terminal::{collect_chars, decimal, push_decimal, MouseState};

verus! {

/// Keys that are named rather than typed.
#[derive(Debug, Clone, Copy, PartialEq, Eq, Structural)]
pub enum NamedKey {
    Space,
    Enter,
    Backspace,
    Tab,
    Escape,
    ArrowLeft,
    ArrowRight,
    ArrowUp,
    ArrowDown,
    Home,
    End,
    PageUp,
    PageDown,
    Delete,
    Insert,
    F1,
    F2,
    F3,
    F4,
    F5,
    F6,
    F7,
    F8,
    F9,
    F10,
    F11,
    F12,
    Other,
}

/// The logical key of a key event: the text it types, a named key, or a
/// key the terminal does not know.
#[derive(Debug, Clone, PartialEq, Eq)]
pub enum LogicalKey {
    Character(String),
    Named(NamedKey),
    Unidentified,
}

/// Mouse buttons.
#[derive(Debug, Clone, Copy, PartialEq, Eq, Structural)]
pub enum MouseButton {
    Left,
    Middle,
    Right,
    Other,
}

/// What a zoom shortcut asks for.
#[derive(Debug, Clone, Copy, PartialEq, Eq, Structural)]
pub enum ZoomAction {
    Adjust(i16),
    Reset,
}

/// The xterm modifier parameter: one, plus one for Shift, two for Alt and
/// four for Control.
pub open spec fn modifier_number(m: KeyModifiers) -> u8 {
    (1 + (if m.shift {
        1int
    } else {
        0
    }) + (if m.alt {
        2int
    } else {
        0
    }) + (if m.ctrl {
        4int
    } else {
        0
    })) as u8
}

/// The modifier parameter, when some modifier is held.
pub open spec fn spec_modifier_code(m: KeyModifiers) -> Option<u8> {
    if modifier_number(m) > 1 {
        Some(modifier_number(m))
    } else {
        None
    }
}

/// `ESC [ final`, or `ESC [ 1 ; code final` with modifiers.
pub open spec fn csi_final_bytes(final_byte: u8, m: KeyModifiers) -> Seq<u8> {
    match spec_modifier_code(m) {
        Some(code) => seq![0x1bu8, 0x5b, 0x31, 0x3b] + decimal(code as nat) + seq![final_byte],
        None => seq![0x1bu8, 0x5b, final_byte],
    }
}

/// `ESC [ number ~`, or `ESC [ number ; code ~` with modifiers.
pub open spec fn csi_numbered_bytes(number: u8, m: KeyModifiers) -> Seq<u8> {
    match spec_modifier_code(m) {
        Some(code) => seq![0x1bu8, 0x5b] + decimal(number as nat) + seq![0x3bu8] + decimal(
            code as nat,
        ) + seq![0x7eu8],
        None => seq![0x1bu8, 0x5b] + decimal(number as nat) + seq![0x7eu8],
    }
}

/// The number that xterm sends for function keys F5 to F12 (0 for others).
pub open spec fn function_key_number(number: u8) -> u8 {
    if number == 5 {
        15
    } else if number == 6 {
        17
    } else if number == 7 {
        18
    } else if number == 8 {
        19
    } else if number == 9 {
        20
    } else if number == 10 {
        21
    } else if number == 11 {
        23
    } else if number == 12 {
        24
    } else {
        0
    }
}

/// The sequence of function key F`number`: `ESC O P` to `ESC O S` for F1
/// to F4 (`ESC [ 1 ; code P` .. with modifiers), numbered sequences above.
pub open spec fn function_key_bytes(number: u8, m: KeyModifiers) -> Seq<u8> {
    let csi = function_key_number(number);
    if csi != 0 {
        csi_numbered_bytes(csi, m)
    } else if 1 <= number <= 4 {
        let f = (0x4f + number) as u8;
        match spec_modifier_code(m) {
            Some(code) => seq![0x1bu8, 0x5b, 0x31, 0x3b] + decimal(code as nat) + seq![f],
            None => seq![0x1bu8, 0x4f, f],
        }
    } else {
        Seq::empty()
    }
}

/// The code of an ASCII letter in lower case; other codes as they are.
pub open spec fn ascii_lower(code: u32) -> u32 {
    if 0x41 <= code <= 0x5a {
        (code + 0x20) as u32
    } else {
        code
    }
}

/// The control byte that Control with `c` sends: letters give 1 to 26, the
/// keys around them the remaining C0 bytes and DEL.
pub open spec fn spec_ctrl_byte(c: char) -> Option<u8> {
    let l = ascii_lower(c as u32);
    if 0x61 <= l <= 0x7a {
        Some((l - 0x60) as u8)
    } else if l == 0x20 || l == 0x40 || l == 0x32 || l == 0x60 {
        Some(0x00)
    } else if l == 0x5b || l == 0x33 {
        Some(0x1b)
    } else if l == 0x5c || l == 0x34 {
        Some(0x1c)
    } else if l == 0x5d || l == 0x35 {
        Some(0x1d)
    } else if l == 0x5e || l == 0x36 || l == 0x7e {
        Some(0x1e)
    } else if l == 0x5f || l == 0x2f || l == 0x2d || l == 0x37 || l == 0x3d {
        Some(0x1f)
    } else if l == 0x3f || l == 0x38 {
        Some(0x7f)
    } else {
        None
    }
}

/// What a typed key sends: its text in UTF-8, or with Control the control
/// byte of its single character; Alt puts ESC before.
pub open spec fn character_key_bytes(text: Seq<char>, m: KeyModifiers) -> Option<Seq<u8>> {
    let prefix: Seq<u8> = if m.alt {
        seq![0x1bu8]
    } else {
        Seq::empty()
    };
    if m.ctrl {
        if text.len() == 1 {
            match spec_ctrl_byte(text[0]) {
                Some(b) => Some(prefix.push(b)),
                None => None,
            }
        } else {
            None
        }
    } else {
        Some(prefix + vstd::utf8::encode_utf8(text))
    }
}

/// What a named key sends.
pub open spec fn named_key_bytes(key: NamedKey, m: KeyModifiers) -> Option<Seq<u8>> {
    let alt_prefix = (key == NamedKey::Space || key == NamedKey::Enter || key == NamedKey::Backspace
        || key == NamedKey::Escape) && m.alt;
    let prefix: Seq<u8> = if alt_prefix {
        seq![0x1bu8]
    } else {
        Seq::empty()
    };
    match key {
        NamedKey::Space => Some(
            prefix.push(
                if m.ctrl {
                    0x00u8
                } else {
                    0x20u8
                },
            ),
        ),
        NamedKey::Enter => Some(prefix.push(0x0du8)),
        NamedKey::Backspace => Some(prefix.push(0x7fu8)),
        NamedKey::Tab => if m.shift {
            Some(seq![0x1bu8, 0x5b, 0x5a])
        } else {
            Some(seq![0x09u8])
        },
        NamedKey::Escape => Some(prefix.push(0x1bu8)),
        NamedKey::ArrowLeft => Some(csi_final_bytes(0x44, m)),
        NamedKey::ArrowRight => Some(csi_final_bytes(0x43, m)),
        NamedKey::ArrowUp => Some(csi_final_bytes(0x41, m)),
        NamedKey::ArrowDown => Some(csi_final_bytes(0x42, m)),
        NamedKey::Home => Some(csi_final_bytes(0x48, m)),
        NamedKey::End => Some(csi_final_bytes(0x46, m)),
        NamedKey::PageUp => Some(csi_numbered_bytes(5, m)),
        NamedKey::PageDown => Some(csi_numbered_bytes(6, m)),
        NamedKey::Delete => Some(csi_numbered_bytes(3, m)),
        NamedKey::Insert => Some(csi_numbered_bytes(2, m)),
        NamedKey::F1 => Some(function_key_bytes(1, m)),
        NamedKey::F2 => Some(function_key_bytes(2, m)),
        NamedKey::F3 => Some(function_key_bytes(3, m)),
        NamedKey::F4 => Some(function_key_bytes(4, m)),
        NamedKey::F5 => Some(function_key_bytes(5, m)),
        NamedKey::F6 => Some(function_key_bytes(6, m)),
        NamedKey::F7 => Some(function_key_bytes(7, m)),
        NamedKey::F8 => Some(function_key_bytes(8, m)),
        NamedKey::F9 => Some(function_key_bytes(9, m)),
        NamedKey::F10 => Some(function_key_bytes(10, m)),
        NamedKey::F11 => Some(function_key_bytes(11, m)),
        NamedKey::F12 => Some(function_key_bytes(12, m)),
        NamedKey::Other => None,
    }
}

/// The modifier parameter, when some modifier is held.
pub fn modifier_code(m: KeyModifiers) -> (r: Option<u8>)
    ensures
        r == spec_modifier_code(m),
{
    let mut code: u8 = 1;
    if m.shift {
        code = code + 1;
    }
    if m.alt {
        code = code + 2;
    }
    if m.ctrl {
        code = code + 4;
    }
    if code > 1 {
        Some(code)
    } else {
        None
    }
}

fn push_all(out: &mut Vec<u8>, bytes: &[u8])
    ensures
        final(out)@ == old(out)@ + bytes@,
{
    let mut i: usize = 0;
    while i < bytes.len()
        invariant
            i <= bytes@.len(),
            out@ == old(out)@ + bytes@.subrange(0, i as int),
        decreases bytes@.len() - i,
    {
        out.push(bytes[i]);
        i = i + 1;
        assert(out@ =~= old(out)@ + bytes@.subrange(0, i as int));
    }
    assert(bytes@.subrange(0, bytes@.len() as int) =~= bytes@);
}

/// `ESC [ final`, or `ESC [ 1 ; code final` with modifiers.
pub fn csi_modified_final(final_byte: u8, m: KeyModifiers) -> (r: Vec<u8>)
    ensures
        r@ == csi_final_bytes(final_byte, m),
{
    let mut out: Vec<u8> = Vec::new();
    out.push(0x1b);
    out.push(0x5b);
    match modifier_code(m) {
        Some(code) => {
            out.push(0x31);
            out.push(0x3b);
            push_decimal(&mut out, code as u16);
        },
        None => {},
    }
    out.push(final_byte);
    assert(out@ =~= csi_final_bytes(final_byte, m));
    out
}

/// `ESC [ number ~`, or `ESC [ number ; code ~` with modifiers.
pub fn csi_numbered_key(number: u8, m: KeyModifiers) -> (r: Vec<u8>)
    ensures
        r@ == csi_numbered_bytes(number, m),
{
    let mut out: Vec<u8> = Vec::new();
    out.push(0x1b);
    out.push(0x5b);
    push_decimal(&mut out, number as u16);
    match modifier_code(m) {
        Some(code) => {
            out.push(0x3b);
            push_decimal(&mut out, code as u16);
        },
        None => {},
    }
    out.push(0x7e);
    assert(out@ =~= csi_numbered_bytes(number, m));
    out
}

/// The sequence of function key F`number` (empty for numbers it does not
/// know).
pub fn function_key(number: u8, m: KeyModifiers) -> (r: Vec<u8>)
    ensures
        r@ == function_key_bytes(number, m),
{
    let csi: u8 = if number == 5 {
        15
    } else if number == 6 {
        17
    } else if number == 7 {
        18
    } else if number == 8 {
        19
    } else if number == 9 {
        20
    } else if number == 10 {
        21
    } else if number == 11 {
        23
    } else if number == 12 {
        24
    } else {
        0
    };
    if csi != 0 {
        return csi_numbered_key(csi, m);
    }
    if number < 1 || number > 4 {
        return Vec::new();
    }
    let f = 0x4f + number;
    let mut out: Vec<u8> = Vec::new();
    out.push(0x1b);
    match modifier_code(m) {
        Some(code) => {
            out.push(0x5b);
            out.push(0x31);
            out.push(0x3b);
            push_decimal(&mut out, code as u16);
        },
        None => {
            out.push(0x4f);
        },
    }
    out.push(f);
    assert(out@ =~= function_key_bytes(number, m));
    out
}

/// The control byte that Control with `ch` sends.
pub fn ctrl_byte(ch: char) -> (r: Option<u8>)
    ensures
        r == spec_ctrl_byte(ch),
{
    let code = ch as u32;
    let l: u32 = if 0x41 <= code && code <= 0x5a {
        code + 0x20
    } else {
        code
    };
    if 0x61 <= l && l <= 0x7a {
        Some((l - 0x60) as u8)
    } else if l == 0x20 || l == 0x40 || l == 0x32 || l == 0x60 {
        Some(0x00)
    } else if l == 0x5b || l == 0x33 {
        Some(0x1b)
    } else if l == 0x5c || l == 0x34 {
        Some(0x1c)
    } else if l == 0x5d || l == 0x35 {
        Some(0x1d)
    } else if l == 0x5e || l == 0x36 || l == 0x7e {
        Some(0x1e)
    } else if l == 0x5f || l == 0x2f || l == 0x2d || l == 0x37 || l == 0x3d {
        Some(0x1f)
    } else if l == 0x3f || l == 0x38 {
        Some(0x7f)
    } else {
        None
    }
}

/// What a typed key sends, or `None` for a Control combination with no
/// control byte.
pub fn encode_character_key(ch: &str, m: KeyModifiers) -> (r: Option<Vec<u8>>)
    ensures
        match r {
            Some(bytes) => character_key_bytes(ch@, m) == Some(bytes@),
            None => character_key_bytes(ch@, m) is None,
        },
{
    let mut bytes: Vec<u8> = Vec::new();
    if m.alt {
        bytes.push(0x1b);
    }
    if m.ctrl {
        let chars = collect_chars(ch);
        if chars.len() == 1 {
            match ctrl_byte(chars[0]) {
                Some(b) => {
                    bytes.push(b);
                },
                None => {
                    return None;
                },
            }
        } else {
            return None;
        }
    } else {
        push_all(&mut bytes, ch.as_bytes());
    }
    proof {
        let prefix: Seq<u8> = if m.alt {
            seq![0x1bu8]
        } else {
            Seq::empty()
        };
        if m.ctrl {
            assert(bytes@ =~= prefix.push(spec_ctrl_byte(ch@[0])->0));
        } else {
            assert(ch.spec_bytes() == vstd::utf8::encode_utf8(ch@));
            assert(bytes@ =~= prefix + vstd::utf8::encode_utf8(ch@));
        }
    }
    Some(bytes)
}

/// What a named key sends, or `None` for a key the terminal does not send.
pub fn encode_named_key(key: &NamedKey, m: KeyModifiers) -> (r: Option<Vec<u8>>)
    ensures
        match r {
            Some(bytes) => named_key_bytes(*key, m) == Some(bytes@),
            None => named_key_bytes(*key, m) is None,
        },
{
    let mut bytes: Vec<u8> = Vec::new();
    let alt_prefix = (*key == NamedKey::Space || *key == NamedKey::Enter || *key == NamedKey::Backspace
        || *key == NamedKey::Escape) && m.alt;
    if alt_prefix {
        bytes.push(0x1b);
    }
    match key {
        NamedKey::Space => {
            if m.ctrl {
                bytes.push(0x00);
            } else {
                bytes.push(0x20);
            }
        },
        NamedKey::Enter => {
            bytes.push(0x0d);
        },
        NamedKey::Backspace => {
            bytes.push(0x7f);
        },
        NamedKey::Tab => {
            if m.shift {
                let r = vec![0x1bu8, 0x5b, 0x5a];
                assert(r@ =~= seq![0x1bu8, 0x5b, 0x5a]);
                return Some(r);
            }
            bytes.push(0x09);
        },
        NamedKey::Escape => {
            bytes.push(0x1b);
        },
        NamedKey::ArrowLeft => {
            return Some(csi_modified_final(0x44, m));
        },
        NamedKey::ArrowRight => {
            return Some(csi_modified_final(0x43, m));
        },
        NamedKey::ArrowUp => {
            return Some(csi_modified_final(0x41, m));
        },
        NamedKey::ArrowDown => {
            return Some(csi_modified_final(0x42, m));
        },
        NamedKey::Home => {
            return Some(csi_modified_final(0x48, m));
        },
        NamedKey::End => {
            return Some(csi_modified_final(0x46, m));
        },
        NamedKey::PageUp => {
            return Some(csi_numbered_key(5, m));
        },
        NamedKey::PageDown => {
            return Some(csi_numbered_key(6, m));
        },
        NamedKey::Delete => {
            return Some(csi_numbered_key(3, m));
        },
        NamedKey::Insert => {
            return Some(csi_numbered_key(2, m));
        },
        NamedKey::F1 => {
            return Some(function_key(1, m));
        },
        NamedKey::F2 => {
            return Some(function_key(2, m));
        },
        NamedKey::F3 => {
            return Some(function_key(3, m));
        },
        NamedKey::F4 => {
            return Some(function_key(4, m));
        },
        NamedKey::F5 => {
            return Some(function_key(5, m));
        },
        NamedKey::F6 => {
            return Some(function_key(6, m));
        },
        NamedKey::F7 => {
            return Some(function_key(7, m));
        },
        NamedKey::F8 => {
            return Some(function_key(8, m));
        },
        NamedKey::F9 => {
            return Some(function_key(9, m));
        },
        NamedKey::F10 => {
            return Some(function_key(10, m));
        },
        NamedKey::F11 => {
            return Some(function_key(11, m));
        },
        NamedKey::F12 => {
            return Some(function_key(12, m));
        },
        NamedKey::Other => {
            return None;
        },
    }
    proof {
        let prefix: Seq<u8> = if alt_prefix {
            seq![0x1bu8]
        } else {
            Seq::empty()
        };
        assert(bytes@ =~= prefix.push(bytes@.last()));
    }
    Some(bytes)
}

/// What a key sends to the child process, or `None` when it sends nothing.
pub fn encode_window_key(key: &LogicalKey, m: KeyModifiers) -> (r: Option<Vec<u8>>)
    ensures
        match key {
            LogicalKey::Character(text) => match r {
                Some(bytes) => character_key_bytes(text@, m) == Some(bytes@),
                None => character_key_bytes(text@, m) is None,
            },
            LogicalKey::Named(named) => match r {
                Some(bytes) => named_key_bytes(*named, m) == Some(bytes@),
                None => named_key_bytes(*named, m) is None,
            },
            LogicalKey::Unidentified => r is None,
        },
{
    match key {
        LogicalKey::Character(text) => encode_character_key(text.as_str(), m),
        LogicalKey::Named(named) => encode_named_key(named, m),
        LogicalKey::Unidentified => None,
    }
}

/// Whether a key with Control and Shift held types `target`, in either case.
pub open spec fn is_shortcut(key: LogicalKey, m: KeyModifiers, target: char) -> bool {
    &&& m.ctrl
    &&& m.shift
    &&& key matches LogicalKey::Character(text) && text@.len() == 1 && ascii_lower(text@[0] as u32)
        == ascii_lower(target as u32)
}

/// Whether a key with Control and Shift held types `target`, in either case.
pub fn shortcut_key(key: &LogicalKey, m: KeyModifiers, target: char) -> (r: bool)
    ensures
        r == is_shortcut(*key, m, target),
{
    if !(m.ctrl && m.shift) {
        return false;
    }
    match key {
        LogicalKey::Character(text) => {
            let chars = collect_chars(text.as_str());
            if chars.len() != 1 {
                return false;
            }
            let a = chars[0] as u32;
            let b = target as u32;
            let la: u32 = if 0x41 <= a && a <= 0x5a {
                a + 0x20
            } else {
                a
            };
            let lb: u32 = if 0x41 <= b && b <= 0x5a {
                b + 0x20
            } else {
                b
            };
            la == lb
        },
        _ => false,
    }
}

/// The zoom that a key with Control held asks for: `+` or `=` zoom in, `-`
/// or `_` zoom out, `0` resets.
pub open spec fn spec_zoom_key_action(key: LogicalKey, m: KeyModifiers) -> Option<ZoomAction> {
    if !m.ctrl {
        None
    } else {
        match key {
            LogicalKey::Character(text) => if text@ == seq!['+'] || text@ == seq!['='] {
                Some(ZoomAction::Adjust(1))
            } else if text@ == seq!['-'] || text@ == seq!['_'] {
                Some(ZoomAction::Adjust(-1i16))
            } else if text@ == seq!['0'] {
                Some(ZoomAction::Reset)
            } else {
                None
            },
            _ => None,
        }
    }
}

pub fn zoom_key_action(key: &LogicalKey, m: KeyModifiers) -> (r: Option<ZoomAction>)
    ensures
        r == spec_zoom_key_action(*key, m),
{
    if !m.ctrl {
        return None;
    }
    match key {
        LogicalKey::Character(text) => {
            let chars = collect_chars(text.as_str());
            if chars.len() != 1 {
                proof {
                    assert(chars@.len() != seq!['+'].len());
                }
                return None;
            }
            let c = chars[0];
            proof {
                assert(text@ =~= seq![c]);
            }
            if c == '+' || c == '=' {
                Some(ZoomAction::Adjust(1))
            } else if c == '-' || c == '_' {
                Some(ZoomAction::Adjust(-1))
            } else if c == '0' {
                Some(ZoomAction::Reset)
            } else {
                proof {
                    assert(text@ != seq!['+'] && text@ != seq!['='] && text@ != seq!['-']
                        && text@ != seq!['_'] && text@ != seq!['0']) by {
                        assert(text@[0] == c);
                        assert(seq!['+'][0] == '+');
                        assert(seq!['='][0] == '=');
                        assert(seq!['-'][0] == '-');
                        assert(seq!['_'][0] == '_');
                        assert(seq!['0'][0] == '0');
                    }
                }
                None
            }
        },
        _ => None,
    }
}

/// The button number of a mouse report.
pub fn mouse_button_code(button: MouseButton) -> (r: Option<u8>)
    ensures
        r == (match button {
            MouseButton::Left => Some(0u8),
            MouseButton::Middle => Some(1u8),
            MouseButton::Right => Some(2u8),
            MouseButton::Other => None,
        }),
{
    match button {
        MouseButton::Left => Some(0),
        MouseButton::Middle => Some(1),
        MouseButton::Right => Some(2),
        MouseButton::Other => None,
    }
}

/// The lowest of the three buttons whose bit is set in `buttons`, or 3
/// (the release code) when none is.
pub fn active_mouse_button(buttons: u8) -> (r: u8)
    ensures
        r == (if buttons & 1 != 0 {
            0u8
        } else if buttons & 2 != 0 {
            1u8
        } else if buttons & 4 != 0 {
            2u8
        } else {
            3u8
        }),
{
    if buttons & 1 != 0 {
        0
    } else if buttons & 2 != 0 {
        1
    } else if buttons & 4 != 0 {
        2
    } else {
        3
    }
}

/// The wheel button codes for a scroll whose horizontal and vertical amounts
/// have the signs `horizontal` and `vertical`: 64 up, 65 down, 67 right, 66
/// left.
pub fn wheel_axis_codes(horizontal: i8, vertical: i8) -> (r: Vec<u8>)
    ensures
        r@ == (if vertical > 0 {
            seq![64u8]
        } else if vertical < 0 {
            seq![65u8]
        } else {
            Seq::empty()
        }) + (if horizontal > 0 {
            seq![67u8]
        } else if horizontal < 0 {
            seq![66u8]
        } else {
            Seq::empty()
        }),
{
    let mut codes: Vec<u8> = Vec::new();
    if vertical > 0 {
        codes.push(64);
    } else if vertical < 0 {
        codes.push(65);
    }
    let ghost first = codes@;
    if horizontal > 0 {
        codes.push(67);
    } else if horizontal < 0 {
        codes.push(66);
    }
    proof {
        if horizontal > 0 {
            assert(codes@ =~= first + seq![67u8]);
        } else if horizontal < 0 {
            assert(codes@ =~= first + seq![66u8]);
        } else {
            assert(codes@ =~= first + Seq::<u8>::empty());
        }
    }
    codes
}

/// The lines one wheel step scrolls, from the rounded amount: at least one
/// line, at most twelve either way.
pub fn wheel_lines(rounded: isize) -> (r: isize)
    ensures
        r == (if rounded == 0 {
            1isize
        } else if rounded < -12 {
            -12isize
        } else if rounded > 12 {
            12isize
        } else {
            rounded
        }),
{
    let lines = if rounded == 0 {
        1
    } else {
        rounded
    };
    if lines < -12 {
        -12
    } else if lines > 12 {
        12
    } else {
        lines
    }
}

/// The cell under a point `(x, y)` pixels from the top left of the grid, if
/// it is inside the grid.
pub fn mouse_cell(x: u32, y: u32, cols: u16, rows: u16, metrics: TerminalMetrics) -> (r: Option<
    (u16, u16),
>)
    requires
        metrics.cell_width > 0,
        metrics.cell_height > 0,
    ensures
        r == (if ((x / metrics.cell_width) as u16) < cols && ((y / metrics.cell_height) as u16)
            < rows {
            Some(((x / metrics.cell_width) as u16, (y / metrics.cell_height) as u16))
        } else {
            None
        }),
{
    let cx = (x / metrics.cell_width) as u16;
    let cy = (y / metrics.cell_height) as u16;
    if cx < cols && cy < rows {
        Some((cx, cy))
    } else {
        None
    }
}

/// The modifier bits of a mouse report: 4 for Shift, 8 for Alt, 16 for
/// Control.
pub open spec fn spec_mouse_modifier_bits(m: KeyModifiers) -> u8 {
    ((if m.shift {
        4int
    } else {
        0
    }) + (if m.alt {
        8int
    } else {
        0
    }) + (if m.ctrl {
        16int
    } else {
        0
    })) as u8
}

pub fn mouse_modifier_bits(m: KeyModifiers) -> (r: u8)
    ensures
        r == spec_mouse_modifier_bits(m),
{
    let mut bits: u8 = 0;
    if m.shift {
        assert((bits | 4) == bits + 4) by (bit_vector)
            requires
                bits == 0,
        ;
        bits = bits | 4;
    }
    if m.alt {
        assert((bits | 8) == bits + 8) by (bit_vector)
            requires
                bits == 0 || bits == 4,
        ;
        bits = bits | 8;
    }
    if m.ctrl {
        assert((bits | 16) == bits + 16) by (bit_vector)
            requires
                bits == 0 || bits == 4 || bits == 8 || bits == 12,
        ;
        bits = bits | 16;
    }
    bits
}

/// The keys of a key event read from a host terminal.
#[derive(Debug, Clone, Copy, PartialEq, Eq, Structural)]
pub enum HostKeyCode {
    Backspace,
    Enter,
    Left,
    Right,
    Up,
    Down,
    Home,
    End,
    PageUp,
    PageDown,
    Tab,
    BackTab,
    Delete,
    Insert,
    Esc,
    Char(char),
    F(u8),
    Other,
}

/// The control byte that Control with `c` sends from a host terminal:
/// letters give 1 to 26, and a few punctuation keys the rest of C0 and DEL.
pub open spec fn spec_host_ctrl_byte(c: char) -> Option<u8> {
    let l = ascii_lower(c as u32);
    if 0x61 <= l <= 0x7a {
        Some((l - 0x60) as u8)
    } else if l == 0x20 || l == 0x40 || l == 0x32 {
        Some(0x00)
    } else if l == 0x5b {
        Some(0x1b)
    } else if l == 0x5c {
        Some(0x1c)
    } else if l == 0x5d {
        Some(0x1d)
    } else if l == 0x5e {
        Some(0x1e)
    } else if l == 0x5f {
        Some(0x1f)
    } else if l == 0x3f {
        Some(0x7f)
    } else {
        None
    }
}

/// The sequence of function key F`n` from a host terminal, for F1 to F12.
pub open spec fn spec_function_key_sequence(n: u8) -> Option<Seq<u8>> {
    if 1 <= n <= 4 {
        Some(seq![0x1bu8, 0x4f, (0x4f + n) as u8])
    } else if 5 <= n <= 12 {
        Some(seq![0x1bu8, 0x5b] + decimal(function_key_number(n) as nat) + seq![0x7eu8])
    } else {
        None
    }
}

/// What a key read from a host terminal sends: Alt puts ESC before, Control
/// with a character its control byte (nothing when it has none).
pub open spec fn host_key_bytes(code: HostKeyCode, alt: bool, ctrl: bool) -> Option<Seq<u8>> {
    let prefix: Seq<u8> = if alt {
        seq![0x1bu8]
    } else {
        Seq::empty()
    };
    match code {
        HostKeyCode::Backspace => Some(prefix.push(0x7f)),
        HostKeyCode::Enter => Some(prefix.push(0x0d)),
        HostKeyCode::Left => Some(prefix + seq![0x1bu8, 0x5b, 0x44]),
        HostKeyCode::Right => Some(prefix + seq![0x1bu8, 0x5b, 0x43]),
        HostKeyCode::Up => Some(prefix + seq![0x1bu8, 0x5b, 0x41]),
        HostKeyCode::Down => Some(prefix + seq![0x1bu8, 0x5b, 0x42]),
        HostKeyCode::Home => Some(prefix + seq![0x1bu8, 0x5b, 0x48]),
        HostKeyCode::End => Some(prefix + seq![0x1bu8, 0x5b, 0x46]),
        HostKeyCode::PageUp => Some(prefix + seq![0x1bu8, 0x5b, 0x35, 0x7e]),
        HostKeyCode::PageDown => Some(prefix + seq![0x1bu8, 0x5b, 0x36, 0x7e]),
        HostKeyCode::Tab | HostKeyCode::BackTab => Some(prefix.push(0x09)),
        HostKeyCode::Delete => Some(prefix + seq![0x1bu8, 0x5b, 0x33, 0x7e]),
        HostKeyCode::Insert => Some(prefix + seq![0x1bu8, 0x5b, 0x32, 0x7e]),
        HostKeyCode::Esc => Some(prefix.push(0x1b)),
        HostKeyCode::Char(c) => if ctrl {
            match spec_host_ctrl_byte(c) {
                Some(b) => Some(prefix.push(b)),
                None => Some(prefix),
            }
        } else {
            Some(prefix + vstd::utf8::encode_utf8(seq![c]))
        },
        HostKeyCode::F(n) => match spec_function_key_sequence(n) {
            Some(seq) => Some(prefix + seq),
            None => None,
        },
        HostKeyCode::Other => None,
    }
}

/// The control byte that Control with `ch` sends from a host terminal.
pub fn host_ctrl_byte(ch: char) -> (r: Option<u8>)
    ensures
        r == spec_host_ctrl_byte(ch),
{
    let code = ch as u32;
    let l: u32 = if 0x41 <= code && code <= 0x5a {
        code + 0x20
    } else {
        code
    };
    if 0x61 <= l && l <= 0x7a {
        Some((l - 0x60) as u8)
    } else if l == 0x20 || l == 0x40 || l == 0x32 {
        Some(0x00)
    } else if l == 0x5b {
        Some(0x1b)
    } else if l == 0x5c {
        Some(0x1c)
    } else if l == 0x5d {
        Some(0x1d)
    } else if l == 0x5e {
        Some(0x1e)
    } else if l == 0x5f {
        Some(0x1f)
    } else if l == 0x3f {
        Some(0x7f)
    } else {
        None
    }
}

/// The sequence of function key F`n` from a host terminal, for F1 to F12.
pub fn function_key_sequence(n: u8) -> (r: Option<Vec<u8>>)
    ensures
        match r {
            Some(bytes) => spec_function_key_sequence(n) == Some(bytes@),
            None => spec_function_key_sequence(n) is None,
        },
{
    if n >= 1 && n <= 4 {
        let f = 0x4f + n;
        let r = vec![0x1bu8, 0x4f, f];
        assert(r@ =~= seq![0x1bu8, 0x4f, (0x4f + n) as u8]);
        Some(r)
    } else if n >= 5 && n <= 12 {
        let mut out: Vec<u8> = Vec::new();
        out.push(0x1b);
        out.push(0x5b);
        let number: u16 = if n == 5 {
            15
        } else if n == 6 {
            17
        } else if n == 7 {
            18
        } else if n == 8 {
            19
        } else if n == 9 {
            20
        } else if n == 10 {
            21
        } else if n == 11 {
            23
        } else {
            24
        };
        push_decimal(&mut out, number);
        out.push(0x7e);
        assert(out@ =~= seq![0x1bu8, 0x5b] + decimal(function_key_number(n) as nat) + seq![0x7eu8]);
        Some(out)
    } else {
        None
    }
}

/// Appends the UTF-8 encoding of `c` to `out`.
fn push_utf8(out: &mut Vec<u8>, c: char)
    ensures
        final(out)@ == old(out)@ + vstd::utf8::encode_utf8(seq![c]),
{
    let v = c as u32;
    proof {
        assert(seq![c].drop_first() =~= Seq::<char>::empty());
        assert(vstd::utf8::encode_utf8(seq![c]) == vstd::utf8::encode_scalar(v) + vstd::utf8::encode_utf8(
            Seq::<char>::empty(),
        ));
        assert(vstd::utf8::encode_utf8(seq![c]) =~= vstd::utf8::encode_scalar(v));
    }
    if v <= 0x7f {
        out.push((v & 0x7f) as u8);
    } else if v <= 0x7ff {
        out.push(0xc0 | ((v >> 6) & 0x1f) as u8);
        out.push(0x80 | (v & 0x3f) as u8);
    } else if v <= 0xffff {
        out.push(0xe0 | ((v >> 12) & 0x0f) as u8);
        out.push(0x80 | ((v >> 6) & 0x3f) as u8);
        out.push(0x80 | (v & 0x3f) as u8);
    } else {
        out.push(0xf0 | ((v >> 18) & 0x7) as u8);
        out.push(0x80 | ((v >> 12) & 0x3f) as u8);
        out.push(0x80 | ((v >> 6) & 0x3f) as u8);
        out.push(0x80 | (v & 0x3f) as u8);
    }
    proof {
        assert(v <= 0x10ffff);
        assert(!(0xd800 <= v <= 0xdfff));
    }
    assert(out@ =~= old(out)@ + vstd::utf8::encode_scalar(v));
}

/// What a key read from a host terminal sends, or `None` for a key that
/// sends nothing.
pub fn encode_key(code: HostKeyCode, alt: bool, ctrl: bool) -> (r: Option<Vec<u8>>)
    ensures
        match r {
            Some(bytes) => host_key_bytes(code, alt, ctrl) == Some(bytes@),
            None => host_key_bytes(code, alt, ctrl) is None,
        },
{
    let mut bytes: Vec<u8> = Vec::new();
    if alt {
        bytes.push(0x1b);
    }
    let ghost prefix = bytes@;
    match code {
        HostKeyCode::Backspace => bytes.push(0x7f),
        HostKeyCode::Enter => bytes.push(0x0d),
        HostKeyCode::Left => push_all(&mut bytes, &[0x1bu8, 0x5b, 0x44]),
        HostKeyCode::Right => push_all(&mut bytes, &[0x1bu8, 0x5b, 0x43]),
        HostKeyCode::Up => push_all(&mut bytes, &[0x1bu8, 0x5b, 0x41]),
        HostKeyCode::Down => push_all(&mut bytes, &[0x1bu8, 0x5b, 0x42]),
        HostKeyCode::Home => push_all(&mut bytes, &[0x1bu8, 0x5b, 0x48]),
        HostKeyCode::End => push_all(&mut bytes, &[0x1bu8, 0x5b, 0x46]),
        HostKeyCode::PageUp => push_all(&mut bytes, &[0x1bu8, 0x5b, 0x35, 0x7e]),
        HostKeyCode::PageDown => push_all(&mut bytes, &[0x1bu8, 0x5b, 0x36, 0x7e]),
        HostKeyCode::Tab | HostKeyCode::BackTab => bytes.push(0x09),
        HostKeyCode::Delete => push_all(&mut bytes, &[0x1bu8, 0x5b, 0x33, 0x7e]),
        HostKeyCode::Insert => push_all(&mut bytes, &[0x1bu8, 0x5b, 0x32, 0x7e]),
        HostKeyCode::Esc => bytes.push(0x1b),
        HostKeyCode::Char(c) => {
            if ctrl {
                match host_ctrl_byte(c) {
                    Some(b) => bytes.push(b),
                    None => {},
                }
            } else {
                push_utf8(&mut bytes, c);
            }
        },
        HostKeyCode::F(n) => {
            match function_key_sequence(n) {
                Some(seq) => push_all(&mut bytes, seq.as_slice()),
                None => {
                    return None;
                },
            }
        },
        HostKeyCode::Other => {
            return None;
        },
    }
    proof {
        let expected = host_key_bytes(code, alt, ctrl)->0;
        assert(bytes@ =~= expected);
    }
    Some(bytes)
}

/// The report of a mouse event for the child process: nothing while it does
/// not track the mouse; `ESC [ < code ; col ; row M` (`m` on release) in SGR
/// mode; else `ESC [ M` and the three values plus 32 as bytes, or nothing
/// when one does not fit a byte. Columns and rows count from one.
pub open spec fn mouse_report_bytes(
    mouse: MouseState,
    code: u8,
    x: u16,
    y: u16,
    m: KeyModifiers,
    release: bool,
) -> Seq<u8> {
    if mouse.tracking == MouseTracking::Disabled {
        Seq::empty()
    } else {
        let c = code + spec_mouse_modifier_bits(m);
        let col = sat_add16(x, 1);
        let row = sat_add16(y, 1);
        if mouse.sgr {
            seq![0x1bu8, 0x5b, 0x3c] + decimal(c as nat) + seq![0x3bu8] + decimal(col as nat) + seq![
                0x3bu8,
            ] + decimal(row as nat) + seq![
                if release {
                    0x6du8
                } else {
                    0x4du8
                },
            ]
        } else if c + 32 > 255 || sat_add16(col, 32) > 255 || sat_add16(row, 32) > 255 {
            Seq::empty()
        } else {
            seq![0x1bu8, 0x5b, 0x4d, (c + 32) as u8, (col + 32) as u8, (row + 32) as u8]
        }
    }
}

/// Reports a mouse event to the child process as its mouse mode asks.
pub fn encode_mouse_event(
    mouse: MouseState,
    code: u8,
    x: u16,
    y: u16,
    m: KeyModifiers,
    release: bool,
) -> (r: Vec<u8>)
    requires
        code + spec_mouse_modifier_bits(m) <= 255,
    ensures
        r@ == mouse_report_bytes(mouse, code, x, y, m, release),
{
    if mouse.tracking == MouseTracking::Disabled {
        return Vec::new();
    }
    let c = code + mouse_modifier_bits(m);
    let col = x.saturating_add(1);
    let row = y.saturating_add(1);
    if mouse.sgr {
        let mut out: Vec<u8> = Vec::new();
        out.push(0x1b);
        out.push(0x5b);
        out.push(0x3c);
        push_decimal(&mut out, c as u16);
        out.push(0x3b);
        push_decimal(&mut out, col);
        out.push(0x3b);
        push_decimal(&mut out, row);
        out.push(
            if release {
                0x6d
            } else {
                0x4d
            },
        );
        proof {
            assert(out@ =~= mouse_report_bytes(mouse, code, x, y, m, release));
        }
        out
    } else {
        if c as u16 + 32 > 255 {
            return Vec::new();
        }
        let col32 = col.saturating_add(32);
        if col32 > 255 {
            return Vec::new();
        }
        let row32 = row.saturating_add(32);
        if row32 > 255 {
            return Vec::new();
        }
        let r = vec![0x1bu8, 0x5b, 0x4d, (c as u16 + 32) as u8, col32 as u8, row32 as u8];
        proof {
            assert(r@ =~= mouse_report_bytes(mouse, code, x, y, m, release));
        }
        r
    }
}

/// `bytes` without its NUL bytes.
pub open spec fn without_nuls(bytes: Seq<u8>) -> Seq<u8>
    decreases bytes.len(),
{
    if bytes.len() == 0 {
        Seq::empty()
    } else if bytes.last() == 0 {
        without_nuls(bytes.drop_last())
    } else {
        without_nuls(bytes.drop_last()).push(bytes.last())
    }
}

/// The marker that opens a bracketed paste: `ESC [ 200 ~`.
pub open spec fn paste_start() -> Seq<u8> {
    seq![0x1bu8, 0x5bu8, 0x32u8, 0x30u8, 0x30u8, 0x7eu8]
}

/// The marker that closes a bracketed paste: `ESC [ 201 ~`.
pub open spec fn paste_end() -> Seq<u8> {
    seq![0x1bu8, 0x5bu8, 0x32u8, 0x30u8, 0x31u8, 0x7eu8]
}

/// The bytes that pasting `text` sends to the child: its bytes without
/// NULs, between the bracketed-paste markers when the child asked for them.
pub open spec fn spec_paste_bytes(text: Seq<u8>, bracketed: bool) -> Seq<u8> {
    if bracketed {
        paste_start() + without_nuls(text) + paste_end()
    } else {
        without_nuls(text)
    }
}

/// The bytes that pasting `text` sends to the child; see `spec_paste_bytes`.
pub fn paste_bytes(text: &[u8], bracketed: bool) -> (r: Vec<u8>)
    ensures
        r@ == spec_paste_bytes(text@, bracketed),
{
    let mut bytes: Vec<u8> = Vec::new();
    if bracketed {
        bytes.push(0x1b);
        bytes.push(0x5b);
        bytes.push(0x32);
        bytes.push(0x30);
        bytes.push(0x30);
        bytes.push(0x7e);
    }
    let ghost head = bytes@;
    assert(head == (if bracketed { paste_start() } else { Seq::<u8>::empty() }));
    let mut i: usize = 0;
    while i < text.len()
        invariant
            i <= text@.len(),
            bytes@ == head + without_nuls(text@.subrange(0, i as int)),
        decreases text@.len() - i,
    {
        proof {
            let next = text@.subrange(0, i as int + 1);
            assert(next.drop_last() =~= text@.subrange(0, i as int));
            assert(next.last() == text@[i as int]);
        }
        if text[i] != 0 {
            bytes.push(text[i]);
        }
        i = i + 1;
        assert(bytes@ =~= head + without_nuls(text@.subrange(0, i as int)));
    }
    assert(text@.subrange(0, text@.len() as int) =~= text@);
    if bracketed {
        let ghost body = bytes@;
        bytes.push(0x1b);
        bytes.push(0x5b);
        bytes.push(0x32);
        bytes.push(0x30);
        bytes.push(0x31);
        bytes.push(0x7e);
        assert(bytes@ =~= body + paste_end());
    } else {
        assert(bytes@ =~= without_nuls(text@));
    }
    bytes
}


/// Whether `bytes` is `ESC [`, then anything, then the final byte `f`.
pub open spec fn csi_ending_in(bytes: Option<Seq<u8>>, f: u8) -> bool {
    match bytes {
        Some(b) => b.len() >= 3 && b[0] == 0x1b && b[1] == 0x5b && b[b.len() - 1] == f,
        None => false,
    }
}

/// The arrow keys: each sends `ESC [` and a final byte of its own, `A` for
/// up, `B` for down, `C` for right and `D` for left (with the modifier
/// parameter between when a modifier is held), so no two arrows send the
/// same bytes; with no modifier held the sequence is exactly those three
/// bytes.
pub proof fn lemma_arrow_keys(m: KeyModifiers)
    ensures
        csi_ending_in(named_key_bytes(NamedKey::ArrowUp, m), 0x41),
        csi_ending_in(named_key_bytes(NamedKey::ArrowDown, m), 0x42),
        csi_ending_in(named_key_bytes(NamedKey::ArrowRight, m), 0x43),
        csi_ending_in(named_key_bytes(NamedKey::ArrowLeft, m), 0x44),
        !m.shift && !m.alt && !m.ctrl ==> {
            &&& named_key_bytes(NamedKey::ArrowUp, m) == Some(seq![0x1bu8, 0x5b, 0x41])
            &&& named_key_bytes(NamedKey::ArrowDown, m) == Some(seq![0x1bu8, 0x5b, 0x42])
            &&& named_key_bytes(NamedKey::ArrowRight, m) == Some(seq![0x1bu8, 0x5b, 0x43])
            &&& named_key_bytes(NamedKey::ArrowLeft, m) == Some(seq![0x1bu8, 0x5b, 0x44])
        },
{
    assert forall|f: u8| csi_ending_in(Some(#[trigger] csi_final_bytes(f, m)), f) by {
        match spec_modifier_code(m) {
            Some(code) => {
                let b = seq![0x1bu8, 0x5b, 0x31, 0x3b] + decimal(code as nat) + seq![f];
                assert(b[b.len() - 1] == f);
            },
            None => {},
        }
    }
    assert(csi_ending_in(Some(csi_final_bytes(0x41, m)), 0x41));
    assert(csi_ending_in(Some(csi_final_bytes(0x42, m)), 0x42));
    assert(csi_ending_in(Some(csi_final_bytes(0x43, m)), 0x43));
    assert(csi_ending_in(Some(csi_final_bytes(0x44, m)), 0x44));
}

/// A legacy (not SGR) mouse report is `ESC [ M`, then the button code with
/// the modifier bits plus 32, then the column plus 33, then the row plus 33
/// (columns and rows count from one and are offset by 32), in that order;
/// when one of those values does not fit a byte, nothing is sent.
pub proof fn lemma_legacy_mouse_report(
    mouse: MouseState,
    code: u8,
    x: u16,
    y: u16,
    m: KeyModifiers,
    release: bool,
)
    requires
        mouse.tracking != MouseTracking::Disabled,
        !mouse.sgr,
    ensures
        ({
            let c = code + spec_mouse_modifier_bits(m);
            let r = mouse_report_bytes(mouse, code, x, y, m, release);
            &&& c + 32 <= 255 && x + 33 <= 255 && y + 33 <= 255 ==> r == seq![
                0x1bu8,
                0x5b,
                0x4d,
                (c + 32) as u8,
                (x + 33) as u8,
                (y + 33) as u8,
            ]
            &&& !(c + 32 <= 255 && x + 33 <= 255 && y + 33 <= 255) ==> r.len() == 0
        }),
{
}

/// An SGR mouse report is `ESC [ <`, the button code with the modifier bits
/// in decimal, `;`, the column plus one in decimal, `;`, the row plus one in
/// decimal, and `M` for a press or `m` for a release.
pub proof fn lemma_sgr_mouse_report(
    mouse: MouseState,
    code: u8,
    x: u16,
    y: u16,
    m: KeyModifiers,
    release: bool,
)
    requires
        mouse.tracking != MouseTracking::Disabled,
        mouse.sgr,
        x < 65535,
        y < 65535,
    ensures
        mouse_report_bytes(mouse, code, x, y, m, release) == seq![0x1bu8, 0x5b, 0x3c] + decimal(
            (code + spec_mouse_modifier_bits(m)) as nat,
        ) + seq![0x3bu8] + decimal((x + 1) as nat) + seq![0x3bu8] + decimal((y + 1) as nat) + seq![
            if release {
                0x6du8
            } else {
                0x4du8
            },
        ],
{
}


/// The bytes of the named keys with no modifier held, as xterm sends them.
pub proof fn lemma_unmodified_named_keys(m: KeyModifiers)
    requires
        !m.shift,
        !m.alt,
        !m.ctrl,
    ensures
        named_key_bytes(NamedKey::Space, m) == Some(seq![0x20u8]),
        named_key_bytes(NamedKey::Enter, m) == Some(seq![0x0du8]),
        named_key_bytes(NamedKey::Backspace, m) == Some(seq![0x7fu8]),
        named_key_bytes(NamedKey::Tab, m) == Some(seq![0x09u8]),
        named_key_bytes(NamedKey::Escape, m) == Some(seq![0x1bu8]),
        named_key_bytes(NamedKey::Home, m) == Some(seq![0x1bu8, 0x5b, 0x48]),
        named_key_bytes(NamedKey::End, m) == Some(seq![0x1bu8, 0x5b, 0x46]),
        named_key_bytes(NamedKey::Insert, m) == Some(seq![0x1bu8, 0x5b, 0x32, 0x7e]),
        named_key_bytes(NamedKey::Delete, m) == Some(seq![0x1bu8, 0x5b, 0x33, 0x7e]),
        named_key_bytes(NamedKey::PageUp, m) == Some(seq![0x1bu8, 0x5b, 0x35, 0x7e]),
        named_key_bytes(NamedKey::PageDown, m) == Some(seq![0x1bu8, 0x5b, 0x36, 0x7e]),
        named_key_bytes(NamedKey::F1, m) == Some(seq![0x1bu8, 0x4f, 0x50]),
        named_key_bytes(NamedKey::F2, m) == Some(seq![0x1bu8, 0x4f, 0x51]),
        named_key_bytes(NamedKey::F3, m) == Some(seq![0x1bu8, 0x4f, 0x52]),
        named_key_bytes(NamedKey::F4, m) == Some(seq![0x1bu8, 0x4f, 0x53]),
        named_key_bytes(NamedKey::F5, m) == Some(seq![0x1bu8, 0x5b, 0x31, 0x35, 0x7e]),
        named_key_bytes(NamedKey::F6, m) == Some(seq![0x1bu8, 0x5b, 0x31, 0x37, 0x7e]),
        named_key_bytes(NamedKey::F7, m) == Some(seq![0x1bu8, 0x5b, 0x31, 0x38, 0x7e]),
        named_key_bytes(NamedKey::F8, m) == Some(seq![0x1bu8, 0x5b, 0x31, 0x39, 0x7e]),
        named_key_bytes(NamedKey::F9, m) == Some(seq![0x1bu8, 0x5b, 0x32, 0x30, 0x7e]),
        named_key_bytes(NamedKey::F10, m) == Some(seq![0x1bu8, 0x5b, 0x32, 0x31, 0x7e]),
        named_key_bytes(NamedKey::F11, m) == Some(seq![0x1bu8, 0x5b, 0x32, 0x33, 0x7e]),
        named_key_bytes(NamedKey::F12, m) == Some(seq![0x1bu8, 0x5b, 0x32, 0x34, 0x7e]),
        named_key_bytes(NamedKey::Other, m) is None,
{
    assert(spec_modifier_code(m) is None);
    reveal_with_fuel(decimal, 3);
    assert(decimal(2) == seq![0x32u8]);
    assert(decimal(3) == seq![0x33u8]);
    assert(decimal(5) == seq![0x35u8]);
    assert(decimal(6) == seq![0x36u8]);
    assert(decimal(15) == seq![0x31u8, 0x35]);
    assert(decimal(17) == seq![0x31u8, 0x37]);
    assert(decimal(18) == seq![0x31u8, 0x38]);
    assert(decimal(19) == seq![0x31u8, 0x39]);
    assert(decimal(20) == seq![0x32u8, 0x30]);
    assert(decimal(21) == seq![0x32u8, 0x31]);
    assert(decimal(23) == seq![0x32u8, 0x33]);
    assert(decimal(24) == seq![0x32u8, 0x34]);
    assert(seq![0x1bu8, 0x5b] + seq![0x32u8] + seq![0x7eu8] =~= seq![0x1bu8, 0x5b, 0x32, 0x7e]);
    assert(seq![0x1bu8, 0x5b] + seq![0x33u8] + seq![0x7eu8] =~= seq![0x1bu8, 0x5b, 0x33, 0x7e]);
    assert(seq![0x1bu8, 0x5b] + seq![0x35u8] + seq![0x7eu8] =~= seq![0x1bu8, 0x5b, 0x35, 0x7e]);
    assert(seq![0x1bu8, 0x5b] + seq![0x36u8] + seq![0x7eu8] =~= seq![0x1bu8, 0x5b, 0x36, 0x7e]);
    assert(seq![0x1bu8, 0x5b] + seq![0x31u8, 0x35] + seq![0x7eu8] =~= seq![0x1bu8, 0x5b, 0x31, 0x35, 0x7e]);
    assert(seq![0x1bu8, 0x5b] + seq![0x31u8, 0x37] + seq![0x7eu8] =~= seq![0x1bu8, 0x5b, 0x31, 0x37, 0x7e]);
    assert(seq![0x1bu8, 0x5b] + seq![0x31u8, 0x38] + seq![0x7eu8] =~= seq![0x1bu8, 0x5b, 0x31, 0x38, 0x7e]);
    assert(seq![0x1bu8, 0x5b] + seq![0x31u8, 0x39] + seq![0x7eu8] =~= seq![0x1bu8, 0x5b, 0x31, 0x39, 0x7e]);
    assert(seq![0x1bu8, 0x5b] + seq![0x32u8, 0x30] + seq![0x7eu8] =~= seq![0x1bu8, 0x5b, 0x32, 0x30, 0x7e]);
    assert(seq![0x1bu8, 0x5b] + seq![0x32u8, 0x31] + seq![0x7eu8] =~= seq![0x1bu8, 0x5b, 0x32, 0x31, 0x7e]);
    assert(seq![0x1bu8, 0x5b] + seq![0x32u8, 0x33] + seq![0x7eu8] =~= seq![0x1bu8, 0x5b, 0x32, 0x33, 0x7e]);
    assert(seq![0x1bu8, 0x5b] + seq![0x32u8, 0x34] + seq![0x7eu8] =~= seq![0x1bu8, 0x5b, 0x32, 0x34, 0x7e]);
    let e: Seq<u8> = Seq::empty();
    assert(e.push(0x20u8) =~= seq![0x20u8]);
    assert(e.push(0x0du8) =~= seq![0x0du8]);
    assert(e.push(0x7fu8) =~= seq![0x7fu8]);
    assert(e.push(0x1bu8) =~= seq![0x1bu8]);
}


/// Control with a letter sends the letter's place in the alphabet (Ctrl-A
/// is 1, Ctrl-Z is 26), whatever its case, from the window and from a host
/// terminal alike; Alt puts ESC before it.
pub proof fn lemma_control_letters(c: char, m: KeyModifiers)
    requires
        ('a' <= c <= 'z') || ('A' <= c <= 'Z'),
        m.ctrl,
    ensures
        ({
            let place: int = if c <= 'Z' {
                c as int - 0x40
            } else {
                c as int - 0x60
            };
            let prefix: Seq<u8> = if m.alt {
                seq![0x1bu8]
            } else {
                Seq::empty()
            };
            &&& 1 <= place <= 26
            &&& character_key_bytes(seq![c], m) == Some(prefix.push(place as u8))
            &&& host_key_bytes(HostKeyCode::Char(c), m.alt, true) == Some(prefix.push(place as u8))
        }),
{
}

/// Keys read from a host terminal: the arrows send `ESC [` and `A` (up),
/// `B` (down), `C` (right), `D` (left); Enter sends CR and Backspace DEL;
/// and Alt puts ESC before whatever the key sends without it.
pub proof fn lemma_host_keys(code: HostKeyCode, ctrl: bool)
    ensures
        host_key_bytes(HostKeyCode::Up, false, ctrl) == Some(seq![0x1bu8, 0x5b, 0x41]),
        host_key_bytes(HostKeyCode::Down, false, ctrl) == Some(seq![0x1bu8, 0x5b, 0x42]),
        host_key_bytes(HostKeyCode::Right, false, ctrl) == Some(seq![0x1bu8, 0x5b, 0x43]),
        host_key_bytes(HostKeyCode::Left, false, ctrl) == Some(seq![0x1bu8, 0x5b, 0x44]),
        host_key_bytes(HostKeyCode::Enter, false, ctrl) == Some(seq![0x0du8]),
        host_key_bytes(HostKeyCode::Backspace, false, ctrl) == Some(seq![0x7fu8]),
        match host_key_bytes(code, false, ctrl) {
            Some(b) => host_key_bytes(code, true, ctrl) == Some(seq![0x1bu8] + b),
            None => host_key_bytes(code, true, ctrl) is None,
        },
{
    let e: Seq<u8> = Seq::empty();
    assert(e + seq![0x1bu8, 0x5b, 0x41] =~= seq![0x1bu8, 0x5b, 0x41]);
    assert(e + seq![0x1bu8, 0x5b, 0x42] =~= seq![0x1bu8, 0x5b, 0x42]);
    assert(e + seq![0x1bu8, 0x5b, 0x43] =~= seq![0x1bu8, 0x5b, 0x43]);
    assert(e + seq![0x1bu8, 0x5b, 0x44] =~= seq![0x1bu8, 0x5b, 0x44]);
    assert(e.push(0x0du8) =~= seq![0x0du8]);
    assert(e.push(0x7fu8) =~= seq![0x7fu8]);
    let a = seq![0x1bu8];
    match code {
        HostKeyCode::Char(c) => {
            if ctrl {
                match spec_host_ctrl_byte(c) {
                    Some(b) => assert(a.push(b) =~= a + e.push(b)),
                    None => assert(a =~= a + e),
                }
            } else {
                assert(a + vstd::utf8::encode_utf8(seq![c]) =~= a + (e + vstd::utf8::encode_utf8(
                    seq![c],
                )));
            }
        },
        HostKeyCode::F(n) => {
            match spec_function_key_sequence(n) {
                Some(sq) => assert(a + sq =~= a + (e + sq)),
                None => {},
            }
        },
        HostKeyCode::Other => {},
        _ => {
            assert(a.push(0x7fu8) =~= a + e.push(0x7fu8));
            assert(a.push(0x0du8) =~= a + e.push(0x0du8));
            assert(a.push(0x09u8) =~= a + e.push(0x09u8));
            assert(a.push(0x1bu8) =~= a + e.push(0x1bu8));
            assert forall|t: Seq<u8>| a + t =~= a + (e + t) by {}
        },
    }
}

/// Pasted text reaches the child without its NUL bytes and otherwise
/// unchanged, in order; in bracketed-paste mode between `ESC [ 200 ~` and
/// `ESC [ 201 ~`.
pub proof fn lemma_paste_keeps_text(text: Seq<u8>)
    ensures
        forall|i: int| 0 <= i < without_nuls(text).len() ==> #[trigger] without_nuls(text)[i] != 0,
        (forall|i: int| 0 <= i < text.len() ==> #[trigger] text[i] != 0) ==> without_nuls(text) == text,
        spec_paste_bytes(text, false) == without_nuls(text),
        spec_paste_bytes(text, true) == seq![0x1bu8, 0x5b, 0x32, 0x30, 0x30, 0x7e] + without_nuls(text)
            + seq![0x1bu8, 0x5b, 0x32, 0x30, 0x31, 0x7e],
    decreases text.len(),
{
    if text.len() > 0 {
        lemma_paste_keeps_text(text.drop_last());
        if forall|i: int| 0 <= i < text.len() ==> #[trigger] text[i] != 0 {
            assert(forall|i: int| 0 <= i < text.drop_last().len() ==> #[trigger] text.drop_last()[i] == text[i]);
            assert(text.last() != 0);
            assert(text.drop_last().push(text.last()) =~= text);
        }
    } else {
        assert(text =~= Seq::<u8>::empty());
    }
}

} // verus!
