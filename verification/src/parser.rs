//! The actions that the escape-sequence parser hands to the terminal.
use vstd::prelude::*;

use crate::grid::{Color, CursorShape};
use crate::identity::{
    default_background_reply, keyboard_protocol_query, primary_device_attributes,
    secondary_device_attributes, spec_default_background_reply, spec_keyboard_protocol_query,
    spec_primary_device_attributes, spec_secondary_device_attributes, spec_version_reply,
    version_reply,
};

verus! {

#[derive(Debug, Clone, Copy, PartialEq, Eq, Structural)]
pub enum EraseMode {
    FromCursor,
    ToCursor,
    All,
}

#[derive(Debug, Clone, Copy, PartialEq, Eq, Structural)]
pub enum MouseTracking {
    Disabled,
    Click,
    Drag,
    Any,
}

impl Default for MouseTracking {
    fn default() -> (r: Self)
        ensures
            r == MouseTracking::Disabled,
    {
        MouseTracking::Disabled
    }
}

#[derive(Debug, Clone, Copy, PartialEq, Eq, Structural)]
pub enum TerminalMode {
    AlternateScreen,
    CursorVisible,
    MouseTracking(MouseTracking),
    SgrMouse,
    BracketedPaste,
    SynchronizedUpdate,
    Wrap,
}

#[derive(Debug, Clone, Copy, PartialEq, Eq, Structural)]
pub enum StyleUpdate {
    Foreground(Color),
    Background(Color),
    Bold(bool),
    Italic(bool),
    Underline(bool),
}

#[derive(Debug, Clone, PartialEq, Eq)]
pub enum ParserAction {
    Print(char),
    PrintAscii(Vec<u8>),
    PrintText(String),
    Tab,
    LineFeed,
    NextLine,
    CarriageReturn,
    Backspace,
    Reset,
    ScreenAlignment,
    Repeat(u16),
    MoveCursor { x: u16, y: u16 },
    MoveCursorRelative { dx: i16, dy: i16 },
    SaveCursor,
    RestoreCursor,
    ReverseIndex,
    SetScrollRegion { top: u16, bottom: u16 },
    ClearScreen(EraseMode),
    ClearScrollback,
    ClearLine(EraseMode),
    EraseChars(u16),
    DeleteChars(u16),
    InsertBlankChars(u16),
    DeleteLines(u16),
    InsertBlankLines(u16),
    ScrollUp(u16),
    ScrollDown(u16),
    SetMode { mode: TerminalMode, enabled: bool },
    SetCursorShape(CursorShape),
    SetStyle(StyleUpdate),
    ClipboardStore { clipboard: u8, base64: Vec<u8> },
    ReportMode(u16),
    Respond(Vec<u8>),
    ResetStyle,
}


/// A sequence of bytes, as the parser's specification speaks of it.
pub type ByteSeq = Seq<u8>;

/// A sequence of parser actions, as the parser's specification speaks of it.
pub type ActionSeq = Seq<ParserAction>;

/// Turns bytes from the child process into actions. The terminal calls
/// `parse` with what its own fast paths did not take.
///
/// A parser is deterministic: what it makes of some input, and the state it
/// is left in, depend on its state and the input alone. An implementation
/// names them with the three specification functions below; they are read
/// only by proofs and never called when the program runs.
pub trait ParserAdapter: Sized {
    /// Whether the parser sits between sequences, so that plain text and
    /// simple SGR sequences may bypass it.
    spec fn fast_path_ok(&self) -> bool;

    /// The actions that this parser makes of `input`.
    spec fn parsed(&self, input: ByteSeq) -> ActionSeq;

    /// The parser after it has taken `input`.
    spec fn after_parse(&self, input: ByteSeq) -> Self;

    /// Appends the actions of `input` to `actions`.
    fn parse(&mut self, input: &[u8], actions: &mut Vec<ParserAction>)
        ensures
            final(actions)@ == old(actions)@ + old(self).parsed(input@),
            *final(self) == old(self).after_parse(input@),
    ;

    /// Whether the parser sits between sequences, so that plain text and
    /// simple SGR sequences may bypass it.
    fn can_process_ascii_fast_path(&self) -> (r: bool)
        ensures
            r == self.fast_path_ok(),
    ;
}

/// Abstract value of a parser action: byte and text payloads as sequences.
pub enum ActionView {
    Print(char),
    PrintAscii(Seq<u8>),
    PrintText(Seq<char>),
    Tab,
    LineFeed,
    NextLine,
    CarriageReturn,
    Backspace,
    Reset,
    ScreenAlignment,
    Repeat(u16),
    MoveCursor { x: u16, y: u16 },
    MoveCursorRelative { dx: i16, dy: i16 },
    SaveCursor,
    RestoreCursor,
    ReverseIndex,
    SetScrollRegion { top: u16, bottom: u16 },
    ClearScreen(EraseMode),
    ClearScrollback,
    ClearLine(EraseMode),
    EraseChars(u16),
    DeleteChars(u16),
    InsertBlankChars(u16),
    DeleteLines(u16),
    InsertBlankLines(u16),
    ScrollUp(u16),
    ScrollDown(u16),
    SetMode { mode: TerminalMode, enabled: bool },
    SetCursorShape(CursorShape),
    SetStyle(StyleUpdate),
    ClipboardStore { clipboard: u8, base64: Seq<u8> },
    ReportMode(u16),
    Respond(Seq<u8>),
    ResetStyle,
}

impl View for ParserAction {
    type V = ActionView;

    open spec fn view(&self) -> ActionView {
        match self {
            ParserAction::Print(c) => ActionView::Print(*c),
            ParserAction::PrintAscii(b) => ActionView::PrintAscii(b@),
            ParserAction::PrintText(t) => ActionView::PrintText(t@),
            ParserAction::Tab => ActionView::Tab,
            ParserAction::LineFeed => ActionView::LineFeed,
            ParserAction::NextLine => ActionView::NextLine,
            ParserAction::CarriageReturn => ActionView::CarriageReturn,
            ParserAction::Backspace => ActionView::Backspace,
            ParserAction::Reset => ActionView::Reset,
            ParserAction::ScreenAlignment => ActionView::ScreenAlignment,
            ParserAction::Repeat(n) => ActionView::Repeat(*n),
            ParserAction::MoveCursor { x, y } => ActionView::MoveCursor { x: *x, y: *y },
            ParserAction::MoveCursorRelative { dx, dy } => ActionView::MoveCursorRelative {
                dx: *dx,
                dy: *dy,
            },
            ParserAction::SaveCursor => ActionView::SaveCursor,
            ParserAction::RestoreCursor => ActionView::RestoreCursor,
            ParserAction::ReverseIndex => ActionView::ReverseIndex,
            ParserAction::SetScrollRegion { top, bottom } => ActionView::SetScrollRegion {
                top: *top,
                bottom: *bottom,
            },
            ParserAction::ClearScreen(m) => ActionView::ClearScreen(*m),
            ParserAction::ClearScrollback => ActionView::ClearScrollback,
            ParserAction::ClearLine(m) => ActionView::ClearLine(*m),
            ParserAction::EraseChars(n) => ActionView::EraseChars(*n),
            ParserAction::DeleteChars(n) => ActionView::DeleteChars(*n),
            ParserAction::InsertBlankChars(n) => ActionView::InsertBlankChars(*n),
            ParserAction::DeleteLines(n) => ActionView::DeleteLines(*n),
            ParserAction::InsertBlankLines(n) => ActionView::InsertBlankLines(*n),
            ParserAction::ScrollUp(n) => ActionView::ScrollUp(*n),
            ParserAction::ScrollDown(n) => ActionView::ScrollDown(*n),
            ParserAction::SetMode { mode, enabled } => ActionView::SetMode {
                mode: *mode,
                enabled: *enabled,
            },
            ParserAction::SetCursorShape(s) => ActionView::SetCursorShape(*s),
            ParserAction::SetStyle(u) => ActionView::SetStyle(*u),
            ParserAction::ClipboardStore { clipboard, base64 } => ActionView::ClipboardStore {
                clipboard: *clipboard,
                base64: base64@,
            },
            ParserAction::ReportMode(m) => ActionView::ReportMode(*m),
            ParserAction::Respond(b) => ActionView::Respond(b@),
            ParserAction::ResetStyle => ActionView::ResetStyle,
        }
    }
}

/// The abstract values of a list of actions.
pub open spec fn actions_view(actions: Seq<ParserAction>) -> Seq<ActionView> {
    actions.map_values(|a: ParserAction| a@)
}

/// The parameters of a control sequence, each with its sub-parameters.
pub open spec fn params_view(params: Seq<Vec<u16>>) -> Seq<Seq<u16>> {
    Seq::new(params.len(), |i: int| params[i]@)
}

/// The character that printing `ch` shows, in the DEC special graphics set
/// when `line_drawing` is on.
pub open spec fn spec_map_printed_char(ch: char, line_drawing: bool) -> char {
    if !line_drawing {
        ch
    } else {
        match ch {
            '`' => '\u{25c6}',
            'a' => '\u{2592}',
            'f' => '\u{b0}',
            'g' => '\u{b1}',
            'j' => '\u{2518}',
            'k' => '\u{2510}',
            'l' => '\u{250c}',
            'm' => '\u{2514}',
            'n' => '\u{253c}',
            'o' => '\u{23ba}',
            'p' => '\u{23bb}',
            'q' => '\u{2500}',
            'r' => '\u{23bc}',
            's' => '\u{23bd}',
            't' => '\u{251c}',
            'u' => '\u{2524}',
            'v' => '\u{2534}',
            'w' => '\u{252c}',
            'x' => '\u{2502}',
            'y' => '\u{2264}',
            'z' => '\u{2265}',
            '{' => '\u{3c0}',
            '|' => '\u{2260}',
            '}' => '\u{a3}',
            '~' => '\u{b7}',
            _ => ch,
        }
    }
}

pub fn map_printed_char(ch: char, line_drawing: bool) -> (r: char)
    ensures
        r == spec_map_printed_char(ch, line_drawing),
{
    if !line_drawing {
        return ch;
    }
    match ch {
        '`' => '\u{25c6}',
        'a' => '\u{2592}',
        'f' => '\u{b0}',
        'g' => '\u{b1}',
        'j' => '\u{2518}',
        'k' => '\u{2510}',
        'l' => '\u{250c}',
        'm' => '\u{2514}',
        'n' => '\u{253c}',
        'o' => '\u{23ba}',
        'p' => '\u{23bb}',
        'q' => '\u{2500}',
        'r' => '\u{23bc}',
        's' => '\u{23bd}',
        't' => '\u{251c}',
        'u' => '\u{2524}',
        'v' => '\u{2534}',
        'w' => '\u{252c}',
        'x' => '\u{2502}',
        'y' => '\u{2264}',
        'z' => '\u{2265}',
        '{' => '\u{3c0}',
        '|' => '\u{2260}',
        '}' => '\u{a3}',
        '~' => '\u{b7}',
        _ => ch,
    }
}

/// Whether the intermediates mark a private (DEC) sequence.
pub fn is_private(intermediates: &[u8]) -> (r: bool)
    ensures
        r == intermediates@.contains(0x3fu8),
{
    contains_byte(intermediates, 0x3f)
}

pub fn contains_byte(bytes: &[u8], b: u8) -> (r: bool)
    ensures
        r == bytes@.contains(b),
{
    let mut i: usize = 0;
    while i < bytes.len()
        invariant
            i <= bytes@.len(),
            forall|k: int| 0 <= k < i ==> bytes@[k] != b,
        decreases bytes@.len() - i,
    {
        if bytes[i] == b {
            assert(bytes@[i as int] == b);
            return true;
        }
        i = i + 1;
    }
    false
}

/// The parameter at `index` (its first sub-parameter), or `default` when it
/// is absent or zero.
pub open spec fn spec_param(params: Seq<Seq<u16>>, index: int, default: u16) -> u16 {
    if 0 <= index < params.len() && params[index].len() > 0 && params[index][0] != 0 {
        params[index][0]
    } else {
        default
    }
}

pub fn param(params: &Vec<Vec<u16>>, index: usize, default: u16) -> (r: u16)
    ensures
        r == spec_param(params_view(params@), index as int, default),
{
    if index < params.len() && params[index].len() > 0 && params[index][0] != 0 {
        params[index][0]
    } else {
        default
    }
}

/// A parameter as a signed distance, capped at `i16::MAX`.
pub open spec fn spec_amount(params: Seq<Seq<u16>>, index: int, default: u16) -> i16 {
    let p = spec_param(params, index, default);
    if p > 32767 {
        32767
    } else {
        p as i16
    }
}

pub fn amount(params: &Vec<Vec<u16>>, index: usize, default: u16) -> (r: i16)
    ensures
        r == spec_amount(params_view(params@), index as int, default),
{
    let p = param(params, index, default);
    if p > 32767 {
        32767
    } else {
        p as i16
    }
}

pub open spec fn spec_erase_mode(params: Seq<Seq<u16>>) -> EraseMode {
    let p = spec_param(params, 0, 0);
    if p == 1 {
        EraseMode::ToCursor
    } else if p == 2 || p == 3 {
        EraseMode::All
    } else {
        EraseMode::FromCursor
    }
}

pub fn erase_mode(params: &Vec<Vec<u16>>) -> (r: EraseMode)
    ensures
        r == spec_erase_mode(params_view(params@)),
{
    match param(params, 0, 0) {
        1 => EraseMode::ToCursor,
        2 | 3 => EraseMode::All,
        _ => EraseMode::FromCursor,
    }
}

/// All sub-parameters of `params[i..]`, in order.
pub open spec fn flatten_from(params: Seq<Seq<u16>>, i: int) -> Seq<u16>
    decreases params.len() - i,
{
    if i >= params.len() || i < 0 {
        Seq::empty()
    } else {
        params[i] + flatten_from(params, i + 1)
    }
}

pub open spec fn cap_u8(v: u16) -> u8 {
    if v > 255 {
        255
    } else {
        v as u8
    }
}

/// The colour of an extended colour sequence (`5;n` or `2;r;g;b`) starting at
/// `codes[j]`, and the position after what it consumed.
pub open spec fn spec_extended_color(codes: Seq<u16>, j: int) -> (Option<Color>, int) {
    if j >= codes.len() {
        (None, j)
    } else if codes[j] == 5 {
        if j + 1 < codes.len() {
            (Some(Color::Indexed(cap_u8(codes[j + 1]))), j + 2)
        } else {
            (None, codes.len() as int)
        }
    } else if codes[j] == 2 {
        if j + 3 < codes.len() {
            (
                Some(Color::Rgb(cap_u8(codes[j + 1]), cap_u8(codes[j + 2]), cap_u8(codes[j + 3]))),
                j + 4,
            )
        } else {
            (None, codes.len() as int)
        }
    } else {
        (None, j + 1)
    }
}

/// The style actions of the SGR codes `codes[i..]`.
pub open spec fn sgr_from(codes: Seq<u16>, i: int) -> Seq<ActionView>
    decreases codes.len() - i,
{
    if i >= codes.len() || i < 0 {
        Seq::empty()
    } else {
        let code = codes[i];
        if code == 38 || code == 48 {
            let (color, next) = spec_extended_color(codes, i + 1);
            let rest = if next > i {
                sgr_from(codes, next)
            } else {
                Seq::empty()
            };
            match color {
                Some(c) => seq![
                    ActionView::SetStyle(
                        if code == 38 {
                            StyleUpdate::Foreground(c)
                        } else {
                            StyleUpdate::Background(c)
                        },
                    ),
                ] + rest,
                None => rest,
            }
        } else {
            let one: Seq<ActionView> = if code == 0 {
                seq![ActionView::ResetStyle]
            } else if code == 1 {
                seq![ActionView::SetStyle(StyleUpdate::Bold(true))]
            } else if code == 3 {
                seq![ActionView::SetStyle(StyleUpdate::Italic(true))]
            } else if code == 4 {
                seq![ActionView::SetStyle(StyleUpdate::Underline(true))]
            } else if code == 22 {
                seq![ActionView::SetStyle(StyleUpdate::Bold(false))]
            } else if code == 23 {
                seq![ActionView::SetStyle(StyleUpdate::Italic(false))]
            } else if code == 24 {
                seq![ActionView::SetStyle(StyleUpdate::Underline(false))]
            } else if 30 <= code <= 37 {
                seq![ActionView::SetStyle(StyleUpdate::Foreground(Color::Indexed((code - 30) as u8)))]
            } else if code == 39 {
                seq![ActionView::SetStyle(StyleUpdate::Foreground(Color::DefaultForeground))]
            } else if 40 <= code <= 47 {
                seq![ActionView::SetStyle(StyleUpdate::Background(Color::Indexed((code - 40) as u8)))]
            } else if code == 49 {
                seq![ActionView::SetStyle(StyleUpdate::Background(Color::DefaultBackground))]
            } else if 90 <= code <= 97 {
                seq![
                    ActionView::SetStyle(StyleUpdate::Foreground(Color::Indexed((code - 90 + 8) as u8))),
                ]
            } else if 100 <= code <= 107 {
                seq![
                    ActionView::SetStyle(
                        StyleUpdate::Background(Color::Indexed((code - 100 + 8) as u8)),
                    ),
                ]
            } else {
                Seq::empty()
            };
            one + sgr_from(codes, i + 1)
        }
    }
}

/// The actions of an SGR sequence (`CSI ... m`).
pub open spec fn sgr_actions(params: Seq<Seq<u16>>) -> Seq<ActionView> {
    if params.len() == 0 {
        seq![ActionView::ResetStyle]
    } else {
        sgr_from(flatten_from(params, 0), 0)
    }
}

/// The mode that a DEC private mode number names.
pub open spec fn spec_mode_of(code: u16) -> Option<TerminalMode> {
    if code == 7 {
        Some(TerminalMode::Wrap)
    } else if code == 25 {
        Some(TerminalMode::CursorVisible)
    } else if code == 1000 {
        Some(TerminalMode::MouseTracking(MouseTracking::Click))
    } else if code == 1002 {
        Some(TerminalMode::MouseTracking(MouseTracking::Drag))
    } else if code == 1003 {
        Some(TerminalMode::MouseTracking(MouseTracking::Any))
    } else if code == 1006 {
        Some(TerminalMode::SgrMouse)
    } else if code == 2004 {
        Some(TerminalMode::BracketedPaste)
    } else if code == 2026 {
        Some(TerminalMode::SynchronizedUpdate)
    } else if code == 47 || code == 1047 || code == 1049 {
        Some(TerminalMode::AlternateScreen)
    } else {
        None
    }
}

/// The mode actions of `params[i..]` (`CSI ? ... h` or `l`).
pub open spec fn mode_actions_from(params: Seq<Seq<u16>>, i: int, enabled: bool) -> Seq<ActionView>
    decreases params.len() - i,
{
    if i >= params.len() || i < 0 {
        Seq::empty()
    } else {
        let one: Seq<ActionView> = if params[i].len() > 0 {
            match spec_mode_of(params[i][0]) {
                Some(mode) => seq![ActionView::SetMode { mode, enabled }],
                None => Seq::empty(),
            }
        } else {
            Seq::empty()
        };
        one + mode_actions_from(params, i + 1, enabled)
    }
}

pub open spec fn spec_cursor_shape(params: Seq<Seq<u16>>) -> CursorShape {
    let p = spec_param(params, 0, 1);
    if p == 3 || p == 4 {
        CursorShape::Underline
    } else if p == 5 || p == 6 {
        CursorShape::Beam
    } else {
        CursorShape::Block
    }
}

/// `u16::MAX` in a cursor move keeps that coordinate.
pub open spec fn keep() -> u16 {
    u16::MAX
}

/// The actions of an unprefixed control sequence ending in `action`.
pub open spec fn plain_csi_actions(params: Seq<Seq<u16>>, action: char) -> Seq<ActionView> {
    let p1 = spec_param(params, 0, 1);
    let a1 = spec_amount(params, 0, 1);
    if action == '@' {
        seq![ActionView::InsertBlankChars(p1)]
    } else if action == 'A' {
        seq![ActionView::MoveCursorRelative { dx: 0, dy: (-a1) as i16 }]
    } else if action == 'B' || action == 'e' {
        seq![ActionView::MoveCursorRelative { dx: 0, dy: a1 }]
    } else if action == 'C' {
        seq![ActionView::MoveCursorRelative { dx: a1, dy: 0 }]
    } else if action == 'D' {
        seq![ActionView::MoveCursorRelative { dx: (-a1) as i16, dy: 0 }]
    } else if action == 'E' {
        seq![
            ActionView::MoveCursorRelative { dx: 0, dy: a1 },
            ActionView::MoveCursor { x: 0, y: keep() },
        ]
    } else if action == 'F' {
        seq![
            ActionView::MoveCursorRelative { dx: 0, dy: (-a1) as i16 },
            ActionView::MoveCursor { x: 0, y: keep() },
        ]
    } else if action == 'G' {
        seq![ActionView::MoveCursor { x: sat_sub1(p1), y: keep() }]
    } else if action == 'H' || action == 'f' {
        seq![ActionView::MoveCursor { x: sat_sub1(spec_param(params, 1, 1)), y: sat_sub1(p1) }]
    } else if action == 'J' {
        if spec_param(params, 0, 0) == 3 {
            seq![ActionView::ClearScreen(spec_erase_mode(params)), ActionView::ClearScrollback]
        } else {
            seq![ActionView::ClearScreen(spec_erase_mode(params))]
        }
    } else if action == 'K' {
        seq![ActionView::ClearLine(spec_erase_mode(params))]
    } else if action == 'L' {
        seq![ActionView::InsertBlankLines(p1)]
    } else if action == 'M' {
        seq![ActionView::DeleteLines(p1)]
    } else if action == 'P' {
        seq![ActionView::DeleteChars(p1)]
    } else if action == 'S' {
        seq![ActionView::ScrollUp(p1)]
    } else if action == 'T' {
        seq![ActionView::ScrollDown(p1)]
    } else if action == 'X' {
        seq![ActionView::EraseChars(p1)]
    } else if action == 'b' {
        seq![ActionView::Repeat(p1)]
    } else if action == 'c' {
        seq![ActionView::Respond(spec_primary_device_attributes())]
    } else if action == 'd' {
        seq![ActionView::MoveCursor { x: keep(), y: sat_sub1(p1) }]
    } else if action == 'm' {
        sgr_actions(params)
    } else if action == 'r' {
        seq![
            ActionView::SetScrollRegion {
                top: sat_sub1(p1),
                bottom: sat_sub1(spec_param(params, 1, u16::MAX)),
            },
        ]
    } else if action == 's' {
        seq![ActionView::SaveCursor]
    } else if action == 'u' {
        seq![ActionView::RestoreCursor]
    } else {
        Seq::empty()
    }
}

pub open spec fn sat_sub1(v: u16) -> u16 {
    if v >= 1 {
        (v - 1) as u16
    } else {
        0
    }
}

/// The actions of a complete control sequence (`CSI`).
pub open spec fn csi_actions(
    params: Seq<Seq<u16>>,
    intermediates: Seq<u8>,
    ignore: bool,
    action: char,
) -> Seq<ActionView> {
    let private = intermediates.contains(0x3fu8);
    if ignore {
        Seq::empty()
    } else if private && (action == 'h' || action == 'l') {
        mode_actions_from(params, 0, action == 'h')
    } else if private && action == 'u' {
        seq![ActionView::Respond(spec_keyboard_protocol_query())]
    } else if intermediates == seq![0x20u8] && action == 'q' {
        seq![ActionView::SetCursorShape(spec_cursor_shape(params))]
    } else if intermediates == seq![0x3eu8] && action == 'c' {
        seq![ActionView::Respond(spec_secondary_device_attributes())]
    } else if intermediates == seq![0x3eu8] && action == 'q' {
        seq![ActionView::Respond(spec_version_reply())]
    } else if action == 'p' && intermediates.contains(0x24u8) {
        seq![ActionView::ReportMode(spec_param(params, 0, 0))]
    } else if intermediates.len() != 0 {
        Seq::empty()
    } else {
        plain_csi_actions(params, action)
    }
}

/// The charset state that an escape sequence leaves.
pub struct CharsetView {
    pub g0_line_drawing: bool,
    pub g1_line_drawing: bool,
    pub use_g1: bool,
}

/// The actions of an escape sequence.
pub open spec fn esc_actions(intermediates: Seq<u8>, ignore: bool, byte: u8) -> Seq<ActionView> {
    if ignore {
        Seq::empty()
    } else if (intermediates == seq![0x28u8] || intermediates == seq![0x29u8]) && (byte == 0x30
        || byte == 0x42) {
        Seq::empty()
    } else if intermediates == seq![0x23u8] {
        if byte == 0x38 {
            seq![ActionView::ScreenAlignment]
        } else {
            Seq::empty()
        }
    } else if intermediates.len() != 0 {
        Seq::empty()
    } else if byte == 0x63 {
        seq![ActionView::Reset]
    } else if byte == 0x37 {
        seq![ActionView::SaveCursor]
    } else if byte == 0x38 {
        seq![ActionView::RestoreCursor]
    } else if byte == 0x44 {
        seq![ActionView::LineFeed]
    } else if byte == 0x45 {
        seq![ActionView::NextLine]
    } else if byte == 0x4d {
        seq![ActionView::ReverseIndex]
    } else {
        Seq::empty()
    }
}

/// The actions of an operating-system command (`OSC`).
pub open spec fn osc_actions(params: Seq<Seq<u8>>) -> Seq<ActionView> {
    if params.len() == 2 && params[0] == seq![0x31u8, 0x31] && params[1] == seq![0x3fu8] {
        seq![ActionView::Respond(spec_default_background_reply())]
    } else if params.len() == 3 && params[0] == seq![0x35u8, 0x32] && params[2] != seq![0x3fu8] {
        seq![
            ActionView::ClipboardStore {
                clipboard: if params[1].len() > 0 {
                    params[1][0]
                } else {
                    0x63
                },
                base64: params[2],
            },
        ]
    } else {
        Seq::empty()
    }
}

/// The actions of a C0 control byte.
pub open spec fn execute_actions(byte: u8) -> Seq<ActionView> {
    if byte == 0x0a || byte == 0x0b || byte == 0x0c {
        seq![ActionView::LineFeed]
    } else if byte == 0x0d {
        seq![ActionView::CarriageReturn]
    } else if byte == 0x09 {
        seq![ActionView::Tab]
    } else if byte == 0x08 {
        seq![ActionView::Backspace]
    } else {
        Seq::empty()
    }
}


/// Collects the actions of parsed input and keeps the charset state that
/// `ESC ( 0`, `ESC ) 0`, shift-in and shift-out change.
pub struct ActionPerformer {
    pub actions: Vec<ParserAction>,
    pub g0_line_drawing: bool,
    pub g1_line_drawing: bool,
    pub use_g1: bool,
}

impl ActionPerformer {
    /// Whether printed characters currently go through the line-drawing set.
    pub open spec fn line_drawing(&self) -> bool {
        if self.use_g1 {
            self.g1_line_drawing
        } else {
            self.g0_line_drawing
        }
    }

    /// The charsets are left as they were.
    pub open spec fn same_charsets(&self, other: &Self) -> bool {
        &&& self.g0_line_drawing == other.g0_line_drawing
        &&& self.g1_line_drawing == other.g1_line_drawing
        &&& self.use_g1 == other.use_g1
    }

    pub fn new() -> (r: Self)
        ensures
            r.actions@.len() == 0,
            !r.g0_line_drawing,
            !r.g1_line_drawing,
            !r.use_g1,
    {
        ActionPerformer {
            actions: Vec::new(),
            g0_line_drawing: false,
            g1_line_drawing: false,
            use_g1: false,
        }
    }

    fn push(&mut self, action: ParserAction)
        ensures
            actions_view(final(self).actions@) == actions_view(old(self).actions@).push(action@),
            final(self).same_charsets(old(self)),
    {
        self.actions.push(action);
        proof {
            assert(actions_view(self.actions@) =~= actions_view(old(self).actions@).push(action@));
        }
    }

    /// A printable character, mapped through the active charset.
    pub fn print(&mut self, ch: char)
        ensures
            actions_view(final(self).actions@) == actions_view(old(self).actions@).push(
                ActionView::Print(spec_map_printed_char(ch, old(self).line_drawing())),
            ),
            final(self).same_charsets(old(self)),
    {
        let line_drawing = if self.use_g1 {
            self.g1_line_drawing
        } else {
            self.g0_line_drawing
        };
        self.push(ParserAction::Print(map_printed_char(ch, line_drawing)));
    }

    /// A C0 control byte: line feeds, carriage return, tab and backspace
    /// become actions; shift-out and shift-in select G1 and G0.
    pub fn execute(&mut self, byte: u8)
        ensures
            actions_view(final(self).actions@) == actions_view(old(self).actions@) + execute_actions(
                byte,
            ),
            final(self).g0_line_drawing == old(self).g0_line_drawing,
            final(self).g1_line_drawing == old(self).g1_line_drawing,
            final(self).use_g1 == (if byte == 0x0e {
                true
            } else if byte == 0x0f {
                false
            } else {
                old(self).use_g1
            }),
    {
        let ghost before = actions_view(self.actions@);
        if byte == 0x0a || byte == 0x0b || byte == 0x0c {
            self.push(ParserAction::LineFeed);
        } else if byte == 0x0d {
            self.push(ParserAction::CarriageReturn);
        } else if byte == 0x09 {
            self.push(ParserAction::Tab);
        } else if byte == 0x08 {
            self.push(ParserAction::Backspace);
        } else if byte == 0x0e {
            self.use_g1 = true;
        } else if byte == 0x0f {
            self.use_g1 = false;
        }
        proof {
            assert(actions_view(self.actions@) =~= before + execute_actions(byte));
        }
    }

    fn relative(&mut self, dx: i16, dy: i16)
        ensures
            actions_view(final(self).actions@) == actions_view(old(self).actions@).push(
                ActionView::MoveCursorRelative { dx, dy },
            ),
            final(self).same_charsets(old(self)),
    {
        self.push(ParserAction::MoveCursorRelative { dx, dy });
    }

    /// A complete control sequence.
    pub fn csi_dispatch(
        &mut self,
        params: &Vec<Vec<u16>>,
        intermediates: &[u8],
        ignore: bool,
        action: char,
    )
        ensures
            actions_view(final(self).actions@) == actions_view(old(self).actions@) + csi_actions(
                params_view(params@),
                intermediates@,
                ignore,
                action,
            ),
            final(self).same_charsets(old(self)),
    {
        let ghost before = actions_view(self.actions@);
        let ghost pv = params_view(params@);
        if ignore {
            assert(actions_view(self.actions@) =~= before + csi_actions(pv, intermediates@, ignore, action));
            return;
        }
        let private = is_private(intermediates);
        if private && (action == 'h' || action == 'l') {
            self.mode(params, action == 'h');
            return;
        }
        if private && action == 'u' {
            let reply = keyboard_protocol_query();
            self.push(ParserAction::Respond(reply));
            assert(actions_view(self.actions@) =~= before + csi_actions(pv, intermediates@, ignore, action));
            return;
        }
        let single = intermediates.len() == 1;
        if single && intermediates[0] == 0x20 && action == 'q' {
            assert(intermediates@ =~= seq![0x20u8]);
            self.cursor_shape(params);
            assert(actions_view(self.actions@) =~= before + csi_actions(pv, intermediates@, ignore, action));
            return;
        }
        if single && intermediates[0] == 0x3e && (action == 'c' || action == 'q') {
            assert(intermediates@ =~= seq![0x3eu8]);
            let reply = if action == 'c' {
                secondary_device_attributes()
            } else {
                version_reply()
            };
            self.push(ParserAction::Respond(reply));
            assert(actions_view(self.actions@) =~= before + csi_actions(pv, intermediates@, ignore, action));
            return;
        }
        proof {
            if intermediates@ == seq![0x20u8] {
                assert(intermediates@[0] == 0x20);
            }
            if intermediates@ == seq![0x3eu8] {
                assert(intermediates@[0] == 0x3e);
            }
        }
        if action == 'p' && contains_byte(intermediates, 0x24) {
            let mode = param(params, 0, 0);
            self.push(ParserAction::ReportMode(mode));
            assert(actions_view(self.actions@) =~= before + csi_actions(pv, intermediates@, ignore, action));
            return;
        }
        if intermediates.len() != 0 {
            assert(actions_view(self.actions@) =~= before + csi_actions(pv, intermediates@, ignore, action));
            return;
        }
        self.plain_csi(params, action);
    }

    fn plain_csi(&mut self, params: &Vec<Vec<u16>>, action: char)
        ensures
            actions_view(final(self).actions@) == actions_view(old(self).actions@)
                + plain_csi_actions(params_view(params@), action),
            final(self).same_charsets(old(self)),
    {
        let ghost before = actions_view(self.actions@);
        let ghost pv = params_view(params@);
        let p1 = param(params, 0, 1);
        let a1 = amount(params, 0, 1);
        if action == '@' {
            self.push(ParserAction::InsertBlankChars(p1));
        } else if action == 'A' {
            self.relative(0, -a1);
        } else if action == 'B' || action == 'e' {
            self.relative(0, a1);
        } else if action == 'C' {
            self.relative(a1, 0);
        } else if action == 'D' {
            self.relative(-a1, 0);
        } else if action == 'E' || action == 'F' {
            let dy = if action == 'E' {
                a1
            } else {
                -a1
            };
            self.relative(0, dy);
            self.push(ParserAction::MoveCursor { x: 0, y: u16::MAX });
        } else if action == 'G' {
            self.push(ParserAction::MoveCursor { x: p1.saturating_sub(1), y: u16::MAX });
        } else if action == 'H' || action == 'f' {
            let column = param(params, 1, 1);
            self.push(ParserAction::MoveCursor { x: column.saturating_sub(1), y: p1.saturating_sub(1) });
        } else if action == 'J' {
            let mode = erase_mode(params);
            self.push(ParserAction::ClearScreen(mode));
            if param(params, 0, 0) == 3 {
                self.push(ParserAction::ClearScrollback);
            }
        } else if action == 'K' {
            let mode = erase_mode(params);
            self.push(ParserAction::ClearLine(mode));
        } else if action == 'L' {
            self.push(ParserAction::InsertBlankLines(p1));
        } else if action == 'M' {
            self.push(ParserAction::DeleteLines(p1));
        } else if action == 'P' {
            self.push(ParserAction::DeleteChars(p1));
        } else if action == 'S' {
            self.push(ParserAction::ScrollUp(p1));
        } else if action == 'T' {
            self.push(ParserAction::ScrollDown(p1));
        } else if action == 'X' {
            self.push(ParserAction::EraseChars(p1));
        } else if action == 'b' {
            self.push(ParserAction::Repeat(p1));
        } else if action == 'c' {
            let reply = primary_device_attributes();
            self.push(ParserAction::Respond(reply));
        } else if action == 'd' {
            self.push(ParserAction::MoveCursor { x: u16::MAX, y: p1.saturating_sub(1) });
        } else if action == 'm' {
            self.sgr(params);
        } else if action == 'r' {
            let bottom = param(params, 1, u16::MAX);
            self.push(ParserAction::SetScrollRegion { top: p1.saturating_sub(1), bottom: bottom.saturating_sub(1) });
        } else if action == 's' {
            self.push(ParserAction::SaveCursor);
        } else if action == 'u' {
            self.push(ParserAction::RestoreCursor);
        }
        proof {
            assert(actions_view(self.actions@) =~= before + plain_csi_actions(pv, action));
        }
    }

    fn cursor_shape(&mut self, params: &Vec<Vec<u16>>)
        ensures
            actions_view(final(self).actions@) == actions_view(old(self).actions@).push(
                ActionView::SetCursorShape(spec_cursor_shape(params_view(params@))),
            ),
            final(self).same_charsets(old(self)),
    {
        let p = param(params, 0, 1);
        let shape = if p == 3 || p == 4 {
            CursorShape::Underline
        } else if p == 5 || p == 6 {
            CursorShape::Beam
        } else {
            CursorShape::Block
        };
        self.push(ParserAction::SetCursorShape(shape));
    }

    fn mode(&mut self, params: &Vec<Vec<u16>>, enabled: bool)
        ensures
            actions_view(final(self).actions@) == actions_view(old(self).actions@)
                + mode_actions_from(params_view(params@), 0, enabled),
            final(self).same_charsets(old(self)),
    {
        let ghost before = actions_view(self.actions@);
        let ghost pv = params_view(params@);
        let mut i: usize = 0;
        while i < params.len()
            invariant
                i <= params@.len(),
                pv == params_view(params@),
                actions_view(self.actions@) + mode_actions_from(pv, i as int, enabled) == before
                    + mode_actions_from(pv, 0, enabled),
                self.same_charsets(old(self)),
            decreases params@.len() - i,
        {
            let ghost mid = actions_view(self.actions@);
            assert(pv[i as int] == params@[i as int]@);
            if params[i].len() > 0 {
                let code = params[i][0];
                let mode = mode_of(code);
                if let Some(m) = mode {
                    self.push(ParserAction::SetMode { mode: m, enabled });
                }
            }
            proof {
                let one: Seq<ActionView> = if pv[i as int].len() > 0 {
                    match spec_mode_of(pv[i as int][0]) {
                        Some(mode) => seq![ActionView::SetMode { mode, enabled }],
                        None => Seq::empty(),
                    }
                } else {
                    Seq::empty()
                };
                assert(mode_actions_from(pv, i as int, enabled) == one + mode_actions_from(
                    pv,
                    i + 1,
                    enabled,
                ));
                assert(actions_view(self.actions@) =~= mid + one);
                assert(mid + (one + mode_actions_from(pv, i + 1, enabled)) =~= (mid + one)
                    + mode_actions_from(pv, i + 1, enabled));
            }
            i = i + 1;
        }
        proof {
            assert(mode_actions_from(pv, i as int, enabled) =~= Seq::empty());
            assert(actions_view(self.actions@) =~= actions_view(self.actions@) + mode_actions_from(
                pv,
                i as int,
                enabled,
            ));
        }
    }

    fn sgr(&mut self, params: &Vec<Vec<u16>>)
        ensures
            actions_view(final(self).actions@) == actions_view(old(self).actions@) + sgr_actions(
                params_view(params@),
            ),
            final(self).same_charsets(old(self)),
    {
        if params.len() == 0 {
            self.push(ParserAction::ResetStyle);
            return;
        }
        let ghost before = actions_view(self.actions@);
        let codes = flatten_params(params);
        let mut i: usize = 0;
        while i < codes.len()
            invariant
                i <= codes@.len(),
                codes@ == flatten_from(params_view(params@), 0),
                actions_view(self.actions@) + sgr_from(codes@, i as int) == before + sgr_from(
                    codes@,
                    0,
                ),
                self.same_charsets(old(self)),
            decreases codes@.len() - i,
        {
            let ghost mid = actions_view(self.actions@);
            let next = self.sgr_step(&codes, i);
            proof {
                assert(mid + sgr_from(codes@, i as int) =~= actions_view(self.actions@) + sgr_from(
                    codes@,
                    next as int,
                )) by {
                    let step = actions_view(self.actions@).subrange(mid.len() as int, actions_view(self.actions@).len() as int);
                    assert(actions_view(self.actions@) =~= mid + step);
                    assert(mid + (step + sgr_from(codes@, next as int)) =~= (mid + step) + sgr_from(codes@, next as int));
                }
            }
            i = next;
        }
        proof {
            assert(sgr_from(codes@, i as int) =~= Seq::empty());
            assert(actions_view(self.actions@) =~= actions_view(self.actions@) + sgr_from(
                codes@,
                i as int,
            ));
        }
    }

    /// Applies the SGR code at `codes[i]` (and the colour it introduces) and
    /// tells where the next code starts.
    fn sgr_step(&mut self, codes: &Vec<u16>, i: usize) -> (next: usize)
        requires
            i < codes@.len(),
        ensures
            i < next <= codes@.len(),
            actions_view(old(self).actions@) + sgr_from(codes@, i as int) == actions_view(
                final(self).actions@,
            ) + sgr_from(codes@, next as int),
            actions_view(old(self).actions@).len() <= actions_view(final(self).actions@).len(),
            actions_view(final(self).actions@).subrange(0, actions_view(old(self).actions@).len() as int)
                == actions_view(old(self).actions@),
            final(self).same_charsets(old(self)),
    {
        let ghost before = actions_view(self.actions@);
        let _len = codes.len();
        let code = codes[i];
        if code == 38 || code == 48 {
            let (color, next) = extended_color(codes, i + 1);
            match color {
                Some(c) => {
                    let update = if code == 38 {
                        StyleUpdate::Foreground(c)
                    } else {
                        StyleUpdate::Background(c)
                    };
                    self.push(ParserAction::SetStyle(update));
                },
                None => {},
            }
            proof {
                assert(actions_view(self.actions@).subrange(0, before.len() as int) =~= before);
                match color {
                    Some(c) => {
                        let one = seq![ActionView::SetStyle(
                            if code == 38 {
                                StyleUpdate::Foreground(c)
                            } else {
                                StyleUpdate::Background(c)
                            },
                        )];
                        assert(actions_view(self.actions@) =~= before + one);
                        assert(before + (one + sgr_from(codes@, next as int)) =~= (before + one)
                            + sgr_from(codes@, next as int));
                    },
                    None => {},
                }
            }
            return next;
        }
        if code == 0 {
            self.push(ParserAction::ResetStyle);
        } else if code == 1 {
            self.push(ParserAction::SetStyle(StyleUpdate::Bold(true)));
        } else if code == 3 {
            self.push(ParserAction::SetStyle(StyleUpdate::Italic(true)));
        } else if code == 4 {
            self.push(ParserAction::SetStyle(StyleUpdate::Underline(true)));
        } else if code == 22 {
            self.push(ParserAction::SetStyle(StyleUpdate::Bold(false)));
        } else if code == 23 {
            self.push(ParserAction::SetStyle(StyleUpdate::Italic(false)));
        } else if code == 24 {
            self.push(ParserAction::SetStyle(StyleUpdate::Underline(false)));
        } else if 30 <= code && code <= 37 {
            self.push(ParserAction::SetStyle(StyleUpdate::Foreground(Color::Indexed((code - 30) as u8))));
        } else if code == 39 {
            self.push(ParserAction::SetStyle(StyleUpdate::Foreground(Color::DefaultForeground)));
        } else if 40 <= code && code <= 47 {
            self.push(ParserAction::SetStyle(StyleUpdate::Background(Color::Indexed((code - 40) as u8))));
        } else if code == 49 {
            self.push(ParserAction::SetStyle(StyleUpdate::Background(Color::DefaultBackground)));
        } else if 90 <= code && code <= 97 {
            self.push(ParserAction::SetStyle(StyleUpdate::Foreground(Color::Indexed((code - 90 + 8) as u8))));
        } else if 100 <= code && code <= 107 {
            self.push(ParserAction::SetStyle(StyleUpdate::Background(Color::Indexed((code - 100 + 8) as u8))));
        }
        proof {
            let after = actions_view(self.actions@);
            let step = after.subrange(before.len() as int, after.len() as int);
            assert(after =~= before + step);
            assert(after.subrange(0, before.len() as int) =~= before);
            assert(before + (step + sgr_from(codes@, i + 1)) =~= after + sgr_from(codes@, i + 1));
        }
        i + 1
    }

    /// An escape sequence.
    pub fn esc_dispatch(&mut self, intermediates: &[u8], ignore: bool, byte: u8)
        ensures
            actions_view(final(self).actions@) == actions_view(old(self).actions@) + esc_actions(
                intermediates@,
                ignore,
                byte,
            ),
            final(self).g0_line_drawing == (if !ignore && intermediates@ == seq![0x28u8] && (byte
                == 0x30 || byte == 0x42) {
                byte == 0x30
            } else {
                old(self).g0_line_drawing
            }),
            final(self).g1_line_drawing == (if !ignore && intermediates@ == seq![0x29u8] && (byte
                == 0x30 || byte == 0x42) {
                byte == 0x30
            } else {
                old(self).g1_line_drawing
            }),
            final(self).use_g1 == old(self).use_g1,
    {
        let ghost before = actions_view(self.actions@);
        proof {
            if intermediates@ == seq![0x28u8] || intermediates@ == seq![0x29u8] || intermediates@
                == seq![0x23u8] {
                assert(intermediates@.len() == 1);
            }
        }
        if ignore {
            assert(actions_view(self.actions@) =~= before + esc_actions(intermediates@, ignore, byte));
            return;
        }
        let single = intermediates.len() == 1;
        if single && (intermediates[0] == 0x28 || intermediates[0] == 0x29) && (byte == 0x30 || byte
            == 0x42) {
            if intermediates[0] == 0x28 {
                assert(intermediates@ =~= seq![0x28u8]);
                self.g0_line_drawing = byte == 0x30;
            } else {
                assert(intermediates@ =~= seq![0x29u8]);
                self.g1_line_drawing = byte == 0x30;
            }
            assert(actions_view(self.actions@) =~= before + esc_actions(intermediates@, ignore, byte));
            return;
        }
        if single && intermediates[0] == 0x23 {
            assert(intermediates@ =~= seq![0x23u8]);
            if byte == 0x38 {
                self.push(ParserAction::ScreenAlignment);
            }
            assert(actions_view(self.actions@) =~= before + esc_actions(intermediates@, ignore, byte));
            return;
        }
        if intermediates.len() != 0 {
            proof {
                if intermediates@ == seq![0x28u8] || intermediates@ == seq![0x29u8] {
                    assert(intermediates@[0] == 0x28 || intermediates@[0] == 0x29);
                }
            }
            assert(actions_view(self.actions@) =~= before + esc_actions(intermediates@, ignore, byte));
            return;
        }
        if byte == 0x63 {
            self.push(ParserAction::Reset);
        } else if byte == 0x37 {
            self.push(ParserAction::SaveCursor);
        } else if byte == 0x38 {
            self.push(ParserAction::RestoreCursor);
        } else if byte == 0x44 {
            self.push(ParserAction::LineFeed);
        } else if byte == 0x45 {
            self.push(ParserAction::NextLine);
        } else if byte == 0x4d {
            self.push(ParserAction::ReverseIndex);
        }
        assert(actions_view(self.actions@) =~= before + esc_actions(intermediates@, ignore, byte));
    }

    /// An operating-system command, its parameters split at `;`.
    pub fn osc_dispatch(&mut self, params: &Vec<Vec<u8>>)
        ensures
            actions_view(final(self).actions@) == actions_view(old(self).actions@) + osc_actions(
                Seq::new(params@.len(), |i: int| params@[i]@),
            ),
            final(self).same_charsets(old(self)),
    {
        let ghost before = actions_view(self.actions@);
        let ghost pv = Seq::new(params@.len(), |i: int| params@[i]@);
        if params.len() == 2 && bytes_eq2(&params[0], 0x31, 0x31) && params[1].len() == 1
            && params[1][0] == 0x3f {
            assert(pv[1] =~= seq![0x3fu8]);
            let reply = default_background_reply();
            self.push(ParserAction::Respond(reply));
        } else if params.len() == 3 && bytes_eq2(&params[0], 0x35, 0x32) && !(params[2].len() == 1
            && params[2][0] == 0x3f) {
            proof {
                if pv[2] == seq![0x3fu8] {
                    assert(params@[2]@[0] == 0x3f);
                }
            }
            let clipboard = if params[1].len() > 0 {
                params[1][0]
            } else {
                0x63
            };
            let base64 = copy_bytes(&params[2]);
            self.push(ParserAction::ClipboardStore { clipboard, base64 });
        } else {
            proof {
                if pv.len() == 2 && pv[0] == seq![0x31u8, 0x31] && pv[1] == seq![0x3fu8] {
                    assert(params@[1]@[0] == 0x3f);
                }
                if pv.len() == 3 && pv[0] == seq![0x35u8, 0x32] && pv[2] != seq![0x3fu8] {
                    assert(!(params@[2]@.len() == 1 && params@[2]@[0] == 0x3f)) by {
                        if params@[2]@.len() == 1 && params@[2]@[0] == 0x3f {
                            assert(params@[2]@ =~= seq![0x3fu8]);
                        }
                    }
                }
            }
        }
        assert(actions_view(self.actions@) =~= before + osc_actions(pv));
    }
}

/// Whether `bytes` is exactly the two bytes `a`, `b`.
fn bytes_eq2(bytes: &Vec<u8>, a: u8, b: u8) -> (r: bool)
    ensures
        r == (bytes@ == seq![a, b]),
{
    if bytes.len() == 2 && bytes[0] == a && bytes[1] == b {
        assert(bytes@ =~= seq![a, b]);
        true
    } else {
        false
    }
}

fn copy_bytes(bytes: &Vec<u8>) -> (r: Vec<u8>)
    ensures
        r@ == bytes@,
{
    let mut out: Vec<u8> = Vec::new();
    let mut i: usize = 0;
    while i < bytes.len()
        invariant
            i <= bytes@.len(),
            out@ == bytes@.subrange(0, i as int),
        decreases bytes@.len() - i,
    {
        out.push(bytes[i]);
        i = i + 1;
        assert(out@ =~= bytes@.subrange(0, i as int));
    }
    assert(bytes@.subrange(0, i as int) =~= bytes@);
    out
}

/// The mode a DEC private mode number names.
pub fn mode_of(code: u16) -> (r: Option<TerminalMode>)
    ensures
        r == spec_mode_of(code),
{
    if code == 7 {
        Some(TerminalMode::Wrap)
    } else if code == 25 {
        Some(TerminalMode::CursorVisible)
    } else if code == 1000 {
        Some(TerminalMode::MouseTracking(MouseTracking::Click))
    } else if code == 1002 {
        Some(TerminalMode::MouseTracking(MouseTracking::Drag))
    } else if code == 1003 {
        Some(TerminalMode::MouseTracking(MouseTracking::Any))
    } else if code == 1006 {
        Some(TerminalMode::SgrMouse)
    } else if code == 2004 {
        Some(TerminalMode::BracketedPaste)
    } else if code == 2026 {
        Some(TerminalMode::SynchronizedUpdate)
    } else if code == 47 || code == 1047 || code == 1049 {
        Some(TerminalMode::AlternateScreen)
    } else {
        None
    }
}

/// All sub-parameters of a control sequence, in order.
pub fn flatten_params(params: &Vec<Vec<u16>>) -> (r: Vec<u16>)
    ensures
        r@ == flatten_from(params_view(params@), 0),
{
    let ghost pv = params_view(params@);
    let mut out: Vec<u16> = Vec::new();
    let mut i: usize = 0;
    while i < params.len()
        invariant
            i <= params@.len(),
            pv == params_view(params@),
            out@ + flatten_from(pv, i as int) == flatten_from(pv, 0),
        decreases params@.len() - i,
    {
        let ghost prev = out@;
        let mut j: usize = 0;
        let len = params[i].len();
        while j < len
            invariant
                i < params@.len(),
                len == params@[i as int]@.len(),
                j <= len,
                out@ == prev + params@[i as int]@.subrange(0, j as int),
            decreases len - j,
        {
            out.push(params[i][j]);
            j = j + 1;
            assert(out@ =~= prev + params@[i as int]@.subrange(0, j as int));
        }
        proof {
            assert(params@[i as int]@.subrange(0, j as int) =~= pv[i as int]);
            assert(flatten_from(pv, i as int) == pv[i as int] + flatten_from(pv, i + 1));
            assert(prev + (pv[i as int] + flatten_from(pv, i + 1)) =~= out@ + flatten_from(pv, i + 1));
        }
        i = i + 1;
    }
    proof {
        assert(flatten_from(pv, i as int) =~= Seq::empty());
        assert(out@ + flatten_from(pv, i as int) =~= out@);
    }
    out
}

fn cap_to_u8(v: u16) -> (r: u8)
    ensures
        r == cap_u8(v),
{
    if v > 255 {
        255
    } else {
        v as u8
    }
}

/// The colour of an extended colour sequence starting at `codes[j]`, and the
/// position after what it consumed.
pub fn extended_color(codes: &Vec<u16>, j: usize) -> (r: (Option<Color>, usize))
    requires
        j <= codes@.len(),
    ensures
        (r.0, r.1 as int) == spec_extended_color(codes@, j as int),
        j <= r.1 <= codes@.len(),
        j < codes@.len() ==> j < r.1,
{
    let len = codes.len();
    if j >= len {
        (None, j)
    } else if codes[j] == 5 {
        if len - j > 1 {
            (Some(Color::Indexed(cap_to_u8(codes[j + 1]))), j + 2)
        } else {
            (None, len)
        }
    } else if codes[j] == 2 {
        if len - j > 3 {
            (
                Some(
                    Color::Rgb(
                        cap_to_u8(codes[j + 1]),
                        cap_to_u8(codes[j + 2]),
                        cap_to_u8(codes[j + 3]),
                    ),
                ),
                j + 4,
            )
        } else {
            (None, len)
        }
    } else {
        (None, j + 1)
    }
}


/// The cursor-movement sequences: `CSI n A` moves the cursor `n` rows up
/// (toward row 0), `CSI n B` the same number of rows down, `CSI n C` that
/// many columns right and `CSI n D` left. A missing or zero `n` counts as
/// one; an `n` beyond what an `i16` holds counts as the largest it holds.
pub proof fn lemma_cursor_movement_directions(params: Seq<Seq<u16>>)
    ensures
        ({
            let n: int = if params.len() > 0 && params[0].len() > 0 && params[0][0] != 0 {
                params[0][0] as int
            } else {
                1
            };
            let k: int = if n > 32767 {
                32767
            } else {
                n
            };
            &&& 1 <= k <= 32767
            &&& csi_actions(params, Seq::empty(), false, 'A') == seq![
                ActionView::MoveCursorRelative { dx: 0, dy: (-k) as i16 },
            ]
            &&& csi_actions(params, Seq::empty(), false, 'B') == seq![
                ActionView::MoveCursorRelative { dx: 0, dy: k as i16 },
            ]
            &&& csi_actions(params, Seq::empty(), false, 'C') == seq![
                ActionView::MoveCursorRelative { dx: k as i16, dy: 0 },
            ]
            &&& csi_actions(params, Seq::empty(), false, 'D') == seq![
                ActionView::MoveCursorRelative { dx: (-k) as i16, dy: 0 },
            ]
        }),
{
    let e: Seq<u8> = Seq::empty();
    assert(!e.contains(0x3fu8));
    assert(seq![0x20u8].len() == 1 && seq![0x3eu8].len() == 1);
    assert(e != seq![0x20u8]);
    assert(e != seq![0x3eu8]);
    assert(!e.contains(0x24u8));
}


/// The first parameters of a sequence as positions: parameter `i`, or one
/// when it is missing or zero.
pub open spec fn position_param(params: Seq<Seq<u16>>, i: int) -> int {
    if 0 <= i < params.len() && params[i].len() > 0 && params[i][0] != 0 {
        params[i][0] as int
    } else {
        1
    }
}

/// The cursor-position sequences count rows and columns from one:
/// `CSI row ; col H` (and `f`) moves the cursor to column `col - 1` of row
/// `row - 1`; `CSI col G` moves it to column `col - 1` of its row and
/// `CSI row d` to row `row - 1` in its column (`keep()` marks the
/// coordinate that stays).
pub proof fn lemma_cursor_position_order(params: Seq<Seq<u16>>)
    ensures
        ({
            let first = position_param(params, 0);
            let second = position_param(params, 1);
            &&& csi_actions(params, Seq::empty(), false, 'H') == seq![
                ActionView::MoveCursor { x: (second - 1) as u16, y: (first - 1) as u16 },
            ]
            &&& csi_actions(params, Seq::empty(), false, 'f') == seq![
                ActionView::MoveCursor { x: (second - 1) as u16, y: (first - 1) as u16 },
            ]
            &&& csi_actions(params, Seq::empty(), false, 'G') == seq![
                ActionView::MoveCursor { x: (first - 1) as u16, y: keep() },
            ]
            &&& csi_actions(params, Seq::empty(), false, 'd') == seq![
                ActionView::MoveCursor { x: keep(), y: (first - 1) as u16 },
            ]
        }),
{
    let e: Seq<u8> = Seq::empty();
    assert(!e.contains(0x3fu8));
    assert(seq![0x20u8].len() == 1 && seq![0x3eu8].len() == 1);
    assert(e != seq![0x20u8]);
    assert(e != seq![0x3eu8]);
    assert(!e.contains(0x24u8));
}


/// The C0 controls: line feed, vertical tab and form feed feed a line,
/// carriage return returns the carriage, horizontal tab moves to the next
/// tab stop, backspace steps back; other controls (bell, NUL and the rest)
/// do nothing on the screen.
pub proof fn lemma_control_bytes(byte: u8)
    ensures
        byte == 0x0a || byte == 0x0b || byte == 0x0c ==> execute_actions(byte) == seq![ActionView::LineFeed],
        byte == 0x0d ==> execute_actions(byte) == seq![ActionView::CarriageReturn],
        byte == 0x09 ==> execute_actions(byte) == seq![ActionView::Tab],
        byte == 0x08 ==> execute_actions(byte) == seq![ActionView::Backspace],
        !(0x08 <= byte <= 0x0d) ==> execute_actions(byte).len() == 0,
{
}

/// The escape sequences without intermediates: `ESC D` feeds a line
/// (index), `ESC E` starts the next line, `ESC M` moves up a line (reverse
/// index), `ESC 7` and `ESC 8` save and restore the cursor, `ESC c` resets;
/// `ESC # 8` fills the screen for the alignment test.
pub proof fn lemma_escape_sequences()
    ensures
        esc_actions(Seq::empty(), false, 0x44) == seq![ActionView::LineFeed],
        esc_actions(Seq::empty(), false, 0x45) == seq![ActionView::NextLine],
        esc_actions(Seq::empty(), false, 0x4d) == seq![ActionView::ReverseIndex],
        esc_actions(Seq::empty(), false, 0x37) == seq![ActionView::SaveCursor],
        esc_actions(Seq::empty(), false, 0x38) == seq![ActionView::RestoreCursor],
        esc_actions(Seq::empty(), false, 0x63) == seq![ActionView::Reset],
        esc_actions(seq![0x23u8], false, 0x38) == seq![ActionView::ScreenAlignment],
{
    let e: Seq<u8> = Seq::empty();
    assert(seq![0x28u8].len() == 1 && seq![0x29u8].len() == 1 && seq![0x23u8].len() == 1);
    assert(e != seq![0x28u8] && e != seq![0x29u8] && e != seq![0x23u8]);
    assert(seq![0x23u8] != seq![0x28u8] && seq![0x23u8] != seq![0x29u8]) by {
        assert(seq![0x23u8][0] == 0x23);
        assert(seq![0x28u8][0] == 0x28);
        assert(seq![0x29u8][0] == 0x29);
    }
}

/// What a one-parameter SGR sequence `CSI code m` does: 0 resets the
/// style; 1, 3 and 4 turn bold, italic and underline on and 22, 23 and 24
/// off; 30 to 37 pick foreground colour 0 to 7 and 90 to 97 the bright
/// colours 8 to 15; 40 to 47 and 100 to 107 do the same for the background;
/// 39 and 49 restore the default colours. `CSI m` resets too.
pub proof fn lemma_sgr_single_codes(code: u16)
    ensures
        sgr_actions(Seq::empty()) == seq![ActionView::ResetStyle],
        ({
            let r = sgr_actions(seq![seq![code]]);
            let set = |u: StyleUpdate| seq![ActionView::SetStyle(u)];
            &&& code == 0 ==> r == seq![ActionView::ResetStyle]
            &&& code == 1 ==> r == set(StyleUpdate::Bold(true))
            &&& code == 3 ==> r == set(StyleUpdate::Italic(true))
            &&& code == 4 ==> r == set(StyleUpdate::Underline(true))
            &&& code == 22 ==> r == set(StyleUpdate::Bold(false))
            &&& code == 23 ==> r == set(StyleUpdate::Italic(false))
            &&& code == 24 ==> r == set(StyleUpdate::Underline(false))
            &&& 30 <= code <= 37 ==> r == set(StyleUpdate::Foreground(Color::Indexed((code - 30) as u8)))
            &&& 90 <= code <= 97 ==> r == set(StyleUpdate::Foreground(Color::Indexed((code - 82) as u8)))
            &&& 40 <= code <= 47 ==> r == set(StyleUpdate::Background(Color::Indexed((code - 40) as u8)))
            &&& 100 <= code <= 107 ==> r == set(
                StyleUpdate::Background(Color::Indexed((code - 92) as u8)),
            )
            &&& code == 39 ==> r == set(StyleUpdate::Foreground(Color::DefaultForeground))
            &&& code == 49 ==> r == set(StyleUpdate::Background(Color::DefaultBackground))
        }),
{
    let params = seq![seq![code]];
    reveal_with_fuel(flatten_from, 2);
    assert(flatten_from(params, 1) == Seq::<u16>::empty());
    assert(flatten_from(params, 0) =~= seq![code]);
    reveal_with_fuel(sgr_from, 2);
    assert(sgr_from(seq![code], 1) == Seq::<ActionView>::empty());
}

/// The extended colours: `CSI 38 ; 5 ; n m` picks foreground colour `n` of
/// the 256-colour palette and `CSI 38 ; 2 ; r ; g ; b m` the colour with
/// those red, green and blue values; 48 does the same for the background.
pub proof fn lemma_sgr_extended_colors(n: u8, r: u8, g: u8, b: u8)
    ensures
        sgr_actions(seq![seq![38u16], seq![5u16], seq![n as u16]]) == seq![
            ActionView::SetStyle(StyleUpdate::Foreground(Color::Indexed(n))),
        ],
        sgr_actions(seq![seq![48u16], seq![5u16], seq![n as u16]]) == seq![
            ActionView::SetStyle(StyleUpdate::Background(Color::Indexed(n))),
        ],
        sgr_actions(seq![seq![38u16], seq![2u16], seq![r as u16], seq![g as u16], seq![b as u16]])
            == seq![ActionView::SetStyle(StyleUpdate::Foreground(Color::Rgb(r, g, b)))],
        sgr_actions(seq![seq![48u16], seq![2u16], seq![r as u16], seq![g as u16], seq![b as u16]])
            == seq![ActionView::SetStyle(StyleUpdate::Background(Color::Rgb(r, g, b)))],
{
    reveal_with_fuel(flatten_from, 6);
    reveal_with_fuel(sgr_from, 2);
    let fg5 = seq![seq![38u16], seq![5u16], seq![n as u16]];
    let bg5 = seq![seq![48u16], seq![5u16], seq![n as u16]];
    let fg2 = seq![seq![38u16], seq![2u16], seq![r as u16], seq![g as u16], seq![b as u16]];
    let bg2 = seq![seq![48u16], seq![2u16], seq![r as u16], seq![g as u16], seq![b as u16]];
    assert(flatten_from(fg5, 3) == Seq::<u16>::empty());
    assert(flatten_from(fg5, 0) =~= seq![38u16, 5, n as u16]);
    assert(flatten_from(bg5, 3) == Seq::<u16>::empty());
    assert(flatten_from(bg5, 0) =~= seq![48u16, 5, n as u16]);
    assert(flatten_from(fg2, 5) == Seq::<u16>::empty());
    assert(flatten_from(fg2, 0) =~= seq![38u16, 2, r as u16, g as u16, b as u16]);
    assert(flatten_from(bg2, 5) == Seq::<u16>::empty());
    assert(flatten_from(bg2, 0) =~= seq![48u16, 2, r as u16, g as u16, b as u16]);
    assert(sgr_from(seq![38u16, 5, n as u16], 3) == Seq::<ActionView>::empty());
    assert(sgr_from(seq![48u16, 5, n as u16], 3) == Seq::<ActionView>::empty());
    assert(sgr_from(seq![38u16, 2, r as u16, g as u16, b as u16], 5) == Seq::<ActionView>::empty());
    assert(sgr_from(seq![48u16, 2, r as u16, g as u16, b as u16], 5) == Seq::<ActionView>::empty());
}


/// Erasing in the display and in the line: parameter 0 (or none) erases
/// from the cursor to the end, 1 from the start to the cursor, 2 all of it;
/// `CSI 3 J` erases all of the display and the scrollback too.
pub proof fn lemma_erase_sequences(p: u16)
    ensures
        ({
            let params = seq![seq![p]];
            let mode = if p == 1 {
                EraseMode::ToCursor
            } else if p == 2 || p == 3 {
                EraseMode::All
            } else {
                EraseMode::FromCursor
            };
            &&& p != 3 ==> csi_actions(params, Seq::empty(), false, 'J') == seq![ActionView::ClearScreen(mode)]
            &&& p == 3 ==> csi_actions(params, Seq::empty(), false, 'J') == seq![
                ActionView::ClearScreen(EraseMode::All),
                ActionView::ClearScrollback,
            ]
            &&& csi_actions(params, Seq::empty(), false, 'K') == seq![ActionView::ClearLine(mode)]
            &&& csi_actions(Seq::empty(), Seq::empty(), false, 'J') == seq![
                ActionView::ClearScreen(EraseMode::FromCursor),
            ]
            &&& csi_actions(Seq::empty(), Seq::empty(), false, 'K') == seq![
                ActionView::ClearLine(EraseMode::FromCursor),
            ]
        }),
{
    let e: Seq<u8> = Seq::empty();
    assert(!e.contains(0x3fu8));
    assert(seq![0x20u8].len() == 1 && seq![0x3eu8].len() == 1);
    assert(e != seq![0x20u8]);
    assert(e != seq![0x3eu8]);
    assert(!e.contains(0x24u8));
}

/// OSC 52 stores clipboard data: `OSC 52 ; c ; data` stores `data` (still
/// base64) for clipboard `c`, for the clipboard `c` (0x63) when none is
/// named; a query (`?` as the data) stores nothing. `OSC 11 ; ?` is answered
/// with the default background colour.
pub proof fn lemma_osc_sequences(target: Seq<u8>, data: Seq<u8>)
    requires
        data != seq![0x3fu8],
    ensures
        osc_actions(seq![seq![0x35u8, 0x32], target, data]) == seq![
            ActionView::ClipboardStore {
                clipboard: if target.len() > 0 {
                    target[0]
                } else {
                    0x63
                },
                base64: data,
            },
        ],
        osc_actions(seq![seq![0x35u8, 0x32], target, seq![0x3fu8]]).len() == 0,
        osc_actions(seq![seq![0x31u8, 0x31], seq![0x3fu8]]) == seq![
            ActionView::Respond(spec_default_background_reply()),
        ],
{
    assert(seq![seq![0x35u8, 0x32], target, data].len() == 3);
    assert(seq![seq![0x35u8, 0x32], target, data][0] == seq![0x35u8, 0x32]);
    assert(seq![seq![0x35u8, 0x32], target, data][2] == data);
    assert(seq![seq![0x35u8, 0x32], target, seq![0x3fu8]][2] == seq![0x3fu8]);
    assert(seq![seq![0x31u8, 0x31], seq![0x3fu8]][0] == seq![0x31u8, 0x31]);
    assert(seq![seq![0x35u8, 0x32], target, data].len() != 2);
}

} // verus!
