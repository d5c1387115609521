//! The terminal state machine: it applies parser actions to the grid, keeps
//! the alternate screen, scrollback, modes and pending replies, and hands
//! out what changed at each tick.
use std::collections::VecDeque;
use vstd::prelude::*;
use vstd::slice::slice_subrange;

use crate::damage::{drained_regions, empty_state, max16, DamageBatch};
use crate::grid::{
    ascii_crlf_fits, ascii_crlf_state, resize_state,
    clear_line_state, clear_screen_state, crlf_state, cursor_shape_state, cursor_visible_state,
    erase_chars_state, min_nat, move_cursor_state, new_state, put_char_state, put_tab_state,
    repeat_put_state, reverse_index_state, screen_alignment_state, set_scroll_region_state,
    shift_chars_state, shift_lines_state, spec_clamp_add, state_wf, viewport_damage,
    ascii_run_state, Cell, Cursor, Grid, GridState, Style, SCROLLED_ROW_POOL_LIMIT, STYLE_BOLD,
    STYLE_ITALIC, STYLE_UNDERLINE,
};
use crate::grid::{
    clamp_int, delete_chars_state, delete_lines_state, insert_blank_chars_state,
    insert_blank_lines_state, move_cursor_relative_state, scroll_down_state, scroll_up_state,
};
use crate::grid::Color;
use crate::parser::{
    actions_view, ActionView, EraseMode, MouseTracking, ParserAction, ParserAdapter, StyleUpdate,
    TerminalMode,
};

verus! {

/// How many scrolled-off rows the primary screen keeps.
pub const DEFAULT_SCROLLBACK_LINES: usize = 10_000;

/// What one step of the terminal produced.
#[derive(Debug, Clone, PartialEq, Eq)]
pub struct CoreTick {
    pub damage: DamageBatch,
    pub output: Vec<u8>,
    pub clipboard: Vec<ClipboardStore>,
}

impl CoreTick {
    /// Whether nothing on screen changed.
    pub fn is_idle(&self) -> (r: bool)
        ensures
            r == (self.damage.regions@.len() == 0),
    {
        self.damage.is_empty()
    }
}

/// A request of the child process to store base64 text in a clipboard.
#[derive(Debug, Clone, PartialEq, Eq)]
pub struct ClipboardStore {
    pub clipboard: u8,
    pub base64: Vec<u8>,
}

#[derive(Debug, Clone, Copy, PartialEq, Eq, Structural)]
pub struct MouseState {
    pub tracking: MouseTracking,
    pub sgr: bool,
}

impl Default for MouseState {
    fn default() -> (r: Self)
        ensures
            r == default_mouse(),
    {
        MouseState { tracking: MouseTracking::Disabled, sgr: false }
    }
}

pub open spec fn default_mouse() -> MouseState {
    MouseState { tracking: MouseTracking::Disabled, sgr: false }
}

/// Counters of the work the terminal did while profiling was on.
#[derive(Debug, Clone, Copy, PartialEq, Eq, Structural)]
pub struct CoreProfile {
    pub fast_sgr_calls: u64,
    pub fast_text_calls: u64,
    pub parser_bytes: u64,
    pub actions: u64,
}

impl Default for CoreProfile {
    fn default() -> (r: Self)
        ensures
            r == zero_profile(),
    {
        CoreProfile { fast_sgr_calls: 0, fast_text_calls: 0, parser_bytes: 0, actions: 0 }
    }
}

pub open spec fn zero_profile() -> CoreProfile {
    CoreProfile { fast_sgr_calls: 0, fast_text_calls: 0, parser_bytes: 0, actions: 0 }
}

/// Abstract state of a terminal.
#[verifier::ext_equal]
pub struct TerminalState {
    pub grid: GridState,
    pub alternate: Option<GridState>,
    pub scrollback: Seq<Seq<Cell>>,
    pub scrollback_capacity: nat,
    pub style: Style,
    pub saved_cursor: Option<Cursor>,
    pub last_printed: char,
    pub mouse: MouseState,
    pub bracketed_paste: bool,
    pub clipboard: Seq<(u8, Seq<u8>)>,
    pub output: Seq<u8>,
}

/// A terminal: the visible grid, the primary grid while the alternate
/// screen is shown, scrollback and modes, driven by a parser `P`.
pub struct TerminalCore<P> {
    grid: Grid,
    alternate_grid: Option<Grid>,
    scrollback: VecDeque<Vec<Cell>>,
    scrollback_capacity: usize,
    parser: P,
    style: Style,
    saved_cursor: Option<Cursor>,
    last_printed: char,
    mouse: MouseState,
    bracketed_paste: bool,
    clipboard: Vec<ClipboardStore>,
    output: Vec<u8>,
    actions: Vec<ParserAction>,
    profile_enabled: bool,
    profile: CoreProfile,
}

pub open spec fn rows_of(rows: Seq<Vec<Cell>>) -> Seq<Seq<Cell>> {
    Seq::new(rows.len(), |i: int| rows[i]@)
}

pub open spec fn clipboard_view(stores: Seq<ClipboardStore>) -> Seq<(u8, Seq<u8>)> {
    Seq::new(stores.len(), |i: int| (stores[i].clipboard, stores[i].base64@))
}

impl<P> View for TerminalCore<P> {
    type V = TerminalState;

    closed spec fn view(&self) -> TerminalState {
        TerminalState {
            grid: self.grid@,
            alternate: match self.alternate_grid {
                Some(g) => Some(g@),
                None => None,
            },
            scrollback: rows_of(self.scrollback@),
            scrollback_capacity: self.scrollback_capacity as nat,
            style: self.style,
            saved_cursor: self.saved_cursor,
            last_printed: self.last_printed,
            mouse: self.mouse,
            bracketed_paste: self.bracketed_paste,
            clipboard: clipboard_view(self.clipboard@),
            output: self.output@,
        }
    }
}

/// A consistent terminal state: well-formed grids of at least one row and
/// column, and no more scrollback than its capacity.
pub open spec fn terminal_wf(t: TerminalState) -> bool {
    &&& state_wf(t.grid)
    &&& t.grid.width > 0
    &&& t.grid.height > 0
    &&& match t.alternate {
        Some(a) => state_wf(a) && a.width > 0 && a.height > 0,
        None => true,
    }
    &&& t.scrollback.len() <= t.scrollback_capacity
}

/// A fresh terminal of `width` by `height`.
pub open spec fn new_terminal_state(width: u16, height: u16) -> TerminalState {
    TerminalState {
        grid: new_state(width, height),
        alternate: None,
        scrollback: Seq::empty(),
        scrollback_capacity: DEFAULT_SCROLLBACK_LINES as nat,
        style: Style::default_spec(),
        saved_cursor: None,
        last_printed: ' ',
        mouse: default_mouse(),
        bracketed_paste: false,
        clipboard: Seq::empty(),
        output: Seq::empty(),
    }
}

pub open spec fn with_grid(t: TerminalState, g: GridState) -> TerminalState {
    TerminalState { grid: g, ..t }
}

/// The style after an SGR update.
pub open spec fn style_update(style: Style, update: StyleUpdate) -> Style {
    match update {
        StyleUpdate::Foreground(c) => style.with_foreground(c),
        StyleUpdate::Background(c) => style.with_background(c),
        StyleUpdate::Bold(on) => style.with_flag(STYLE_BOLD, on),
        StyleUpdate::Italic(on) => style.with_flag(STYLE_ITALIC, on),
        StyleUpdate::Underline(on) => style.with_flag(STYLE_UNDERLINE, on),
    }
}

/// A mode change.
pub open spec fn set_mode_state(t: TerminalState, mode: TerminalMode, enabled: bool) -> TerminalState {
    let g = t.grid;
    match mode {
        TerminalMode::AlternateScreen => {
            if enabled && t.alternate is None {
                TerminalState {
                    saved_cursor: Some(g.cursor),
                    alternate: Some(g),
                    grid: new_state(g.width, g.height),
                    ..t
                }
            } else if !enabled && t.alternate is Some {
                let primary = t.alternate->0;
                let restored = match t.saved_cursor {
                    Some(c) => move_cursor_state(primary, c.x, c.y),
                    None => primary,
                };
                TerminalState { grid: viewport_damage(restored), alternate: None, ..t }
            } else {
                t
            }
        },
        TerminalMode::CursorVisible => with_grid(t, cursor_visible_state(g, enabled)),
        TerminalMode::MouseTracking(tracking) => TerminalState {
            mouse: MouseState {
                tracking: if enabled {
                    tracking
                } else if t.mouse.tracking == tracking {
                    MouseTracking::Disabled
                } else {
                    t.mouse.tracking
                },
                ..t.mouse
            },
            ..t
        },
        TerminalMode::SgrMouse => TerminalState { mouse: MouseState { sgr: enabled, ..t.mouse }, ..t },
        TerminalMode::BracketedPaste => TerminalState { bracketed_paste: enabled, ..t },
        TerminalMode::SynchronizedUpdate => with_grid(t, GridState { synchronized: enabled, ..g }),
        TerminalMode::Wrap => with_grid(
            t,
            GridState {
                wrap: enabled,
                pending_wrap: if enabled {
                    g.pending_wrap
                } else {
                    false
                },
                ..g
            },
        ),
    }
}

/// A full reset (`ESC c`): a blank screen of the same size, primary screen,
/// no scrollback, default style and modes. Replies not yet handed out stay.
pub open spec fn reset_state(t: TerminalState) -> TerminalState {
    TerminalState {
        grid: new_state(t.grid.width, t.grid.height),
        alternate: None,
        scrollback: Seq::empty(),
        style: Style::default_spec(),
        saved_cursor: None,
        last_printed: ' ',
        mouse: default_mouse(),
        bracketed_paste: false,
        ..t
    }
}

/// The decimal digits of `n`, most significant first.
pub open spec fn decimal(n: nat) -> Seq<u8>
    decreases n,
{
    if n < 10 {
        seq![(0x30 + n) as u8]
    } else {
        decimal(n / 10).push((0x30 + n % 10) as u8)
    }
}

/// The reply to a mode report request (`CSI ? mode $ p`):
/// `ESC [ ? mode ; status $ y`, where the status of synchronized updates
/// (mode 2026) is 1 when on and 2 when off, and 0 for other modes.
pub open spec fn report_mode_reply(mode: u16, synchronized: bool) -> Seq<u8> {
    let status: u8 = if mode == 2026 {
        if synchronized {
            0x31
        } else {
            0x32
        }
    } else {
        0x30
    };
    seq![0x1bu8, 0x5b, 0x3f] + decimal(mode as nat) + seq![0x3bu8, status, 0x24, 0x79]
}

/// One step of printing text at `chars[i]`: a run of printable ASCII goes
/// to the grid as an ASCII run, any other character on its own. Gives the
/// state after it and where the next step starts.
#[verifier::opaque]
pub open spec fn print_text_step(t: TerminalState, chars: Seq<char>, i: int) -> (TerminalState, int) {
    if is_printable_ascii_char(chars[i]) {
        let end = printable_run_end(chars, i);
        let bytes = Seq::new((end - i) as nat, |k: int| chars[i + k] as u8);
        (
            TerminalState {
                grid: ascii_run_state(t.grid, bytes, t.style, 0),
                last_printed: chars[end - 1],
                ..t
            },
            end,
        )
    } else {
        (
            TerminalState { grid: put_char_state(t.grid, chars[i], t.style), last_printed: chars[i], ..t },
            i + 1,
        )
    }
}

pub proof fn lemma_print_text_step(t: TerminalState, chars: Seq<char>, i: int)
    requires
        0 <= i < chars.len(),
    ensures
        i < print_text_step(t, chars, i).1 <= chars.len(),
{
    reveal(print_text_step);
    lemma_printable_run_end(chars, i);
}

/// Printing the characters of `chars[i..]`.
pub open spec fn print_text_state(t: TerminalState, chars: Seq<char>, i: int) -> TerminalState
    decreases chars.len() - i,
{
    if i < 0 || i >= chars.len() {
        t
    } else {
        proof {
            lemma_print_text_step(t, chars, i);
        }
        let (t2, j) = print_text_step(t, chars, i);
        print_text_state(t2, chars, j)
    }
}

pub open spec fn is_printable_ascii_char(c: char) -> bool {
    0x20 <= c as u32 && c as u32 <= 0x7e
}

/// The end of the run of printable ASCII characters that starts at `i`.
pub open spec fn printable_run_end(chars: Seq<char>, i: int) -> int
    decreases chars.len() - i,
{
    if i < 0 || i >= chars.len() || !is_printable_ascii_char(chars[i]) {
        i
    } else {
        printable_run_end(chars, i + 1)
    }
}

pub proof fn lemma_printable_run_end(chars: Seq<char>, i: int)
    requires
        0 <= i <= chars.len(),
    ensures
        i <= printable_run_end(chars, i) <= chars.len(),
        i < chars.len() && is_printable_ascii_char(chars[i]) ==> i < printable_run_end(chars, i),
        forall|k: int|
            i <= k < printable_run_end(chars, i) ==> is_printable_ascii_char(#[trigger] chars[k]),
        printable_run_end(chars, i) < chars.len() ==> !is_printable_ascii_char(
            chars[printable_run_end(chars, i)],
        ),
    decreases chars.len() - i,
{
    if i < chars.len() && is_printable_ascii_char(chars[i]) {
        lemma_printable_run_end(chars, i + 1);
    }
}

/// Whether an action only moves the cursor or changes cursor settings.
pub open spec fn is_cursor_action(a: ActionView) -> bool {
    match a {
        ActionView::NextLine | ActionView::CarriageReturn | ActionView::Backspace
        | ActionView::ReverseIndex | ActionView::SetScrollRegion { .. }
        | ActionView::MoveCursor { .. } | ActionView::MoveCursorRelative { .. }
        | ActionView::SetCursorShape(_) => true,
        _ => false,
    }
}

/// Whether an action erases or shifts cells of the grid.
pub open spec fn is_edit_action(a: ActionView) -> bool {
    match a {
        ActionView::Tab | ActionView::LineFeed | ActionView::ScreenAlignment
        | ActionView::ClearScreen(_) | ActionView::ClearLine(_) | ActionView::EraseChars(_)
        | ActionView::DeleteChars(_) | ActionView::InsertBlankChars(_)
        | ActionView::DeleteLines(_) | ActionView::InsertBlankLines(_) | ActionView::ScrollUp(_)
        | ActionView::ScrollDown(_) => true,
        _ => false,
    }
}

/// Whether an action only changes the grid.
pub open spec fn is_grid_action(a: ActionView) -> bool {
    is_cursor_action(a) || is_edit_action(a)
}

/// The grid after an action that only moves the cursor or changes cursor settings.
pub open spec fn cursor_action_state(g: GridState, a: ActionView) -> GridState {
    match a {
        ActionView::NextLine => crlf_state(g),
        ActionView::CarriageReturn => move_cursor_state(g, 0, g.cursor.y),
        ActionView::Backspace => if g.cursor.x > 0 {
            move_cursor_state(g, (g.cursor.x - 1) as u16, g.cursor.y)
        } else {
            g
        },
        ActionView::ReverseIndex => reverse_index_state(g),
        ActionView::SetScrollRegion { top, bottom } => set_scroll_region_state(g, top, bottom),
        ActionView::MoveCursor { x, y } => move_cursor_state(
            g,
            if x == u16::MAX {
                g.cursor.x
            } else {
                x
            },
            if y == u16::MAX {
                g.cursor.y
            } else {
                y
            },
        ),
        ActionView::MoveCursorRelative { dx, dy } => move_cursor_relative_state(g, dx, dy),
        ActionView::SetCursorShape(shape) => cursor_shape_state(g, shape),
        _ => g,
    }
}

/// The grid after an action that erases or shifts cells.
pub open spec fn edit_action_state(g: GridState, style: Style, a: ActionView) -> GridState {
    match a {
        ActionView::Tab => put_tab_state(g, style),
        ActionView::LineFeed => put_char_state(g, '\n', style),
        ActionView::ScreenAlignment => screen_alignment_state(g, style),
        ActionView::ClearScreen(mode) => clear_screen_state(g, mode),
        ActionView::ClearLine(mode) => clear_line_state(g, mode),
        ActionView::EraseChars(n) => erase_chars_state(g, n),
        ActionView::DeleteChars(n) => delete_chars_state(g, n),
        ActionView::InsertBlankChars(n) => insert_blank_chars_state(g, n),
        ActionView::DeleteLines(n) => delete_lines_state(g, n),
        ActionView::InsertBlankLines(n) => insert_blank_lines_state(g, n),
        ActionView::ScrollUp(n) => scroll_up_state(g, n),
        ActionView::ScrollDown(n) => scroll_down_state(g, n),
        _ => g,
    }
}

/// The grid after an action that only changes the grid.
pub open spec fn grid_action_state(g: GridState, style: Style, a: ActionView) -> GridState {
    if is_cursor_action(a) {
        cursor_action_state(g, a)
    } else {
        edit_action_state(g, style, a)
    }
}

/// Whether an action prints characters.
pub open spec fn is_print_action(a: ActionView) -> bool {
    match a {
        ActionView::Print(_) | ActionView::PrintAscii(_) | ActionView::PrintText(_)
        | ActionView::Repeat(_) => true,
        _ => false,
    }
}

/// The effect of an action that prints characters.
pub open spec fn print_action_state(t: TerminalState, a: ActionView) -> TerminalState {
    match a {
        ActionView::Print(ch) => TerminalState {
            grid: put_char_state(t.grid, ch, t.style),
            last_printed: ch,
            ..t
        },
        ActionView::PrintAscii(bytes) => TerminalState {
            grid: ascii_run_state(t.grid, bytes, t.style, 0),
            last_printed: if bytes.len() > 0 {
                bytes.last() as char
            } else {
                t.last_printed
            },
            ..t
        },
        ActionView::PrintText(chars) => print_text_state(t, chars, 0),
        ActionView::Repeat(n) => with_grid(
            t,
            repeat_put_state(t.grid, t.last_printed, t.style, n as nat),
        ),
        _ => t,
    }
}

/// The effect of an action that changes terminal state beside the grid.
pub open spec fn state_action_state(t: TerminalState, a: ActionView) -> TerminalState {
    match a {
        ActionView::Reset => reset_state(t),
        ActionView::SaveCursor => TerminalState { saved_cursor: Some(t.grid.cursor), ..t },
        ActionView::RestoreCursor => match t.saved_cursor {
            Some(c) => with_grid(t, move_cursor_state(t.grid, c.x, c.y)),
            None => t,
        },
        ActionView::ClearScrollback => TerminalState { scrollback: Seq::empty(), ..t },
        ActionView::SetMode { mode, enabled } => set_mode_state(t, mode, enabled),
        ActionView::SetStyle(update) => TerminalState { style: style_update(t.style, update), ..t },
        ActionView::ClipboardStore { clipboard, base64 } => TerminalState {
            clipboard: t.clipboard.push((clipboard, base64)),
            ..t
        },
        ActionView::ReportMode(mode) => TerminalState {
            output: t.output + report_mode_reply(mode, t.grid.synchronized),
            ..t
        },
        ActionView::Respond(bytes) => TerminalState { output: t.output + bytes, ..t },
        ActionView::ResetStyle => TerminalState { style: Style::default_spec(), ..t },
        _ => t,
    }
}

/// The effect of one parser action.
#[verifier::opaque]
pub open spec fn apply_action_state(t: TerminalState, a: ActionView) -> TerminalState {
    if is_grid_action(a) {
        with_grid(t, grid_action_state(t.grid, t.style, a))
    } else if is_print_action(a) {
        print_action_state(t, a)
    } else {
        state_action_state(t, a)
    }
}

/// The style after one code of a fast SGR sequence, or `None` for a code
/// that the fast path leaves to the parser.
pub open spec fn fast_code_style(style: Style, code: u16) -> Option<Style> {
    if code == 0 {
        Some(Style::default_spec())
    } else if code == 1 {
        Some(style.with_flag(STYLE_BOLD, true))
    } else if code == 3 {
        Some(style.with_flag(STYLE_ITALIC, true))
    } else if code == 4 {
        Some(style.with_flag(STYLE_UNDERLINE, true))
    } else if code == 22 {
        Some(style.with_flag(STYLE_BOLD, false))
    } else if code == 23 {
        Some(style.with_flag(STYLE_ITALIC, false))
    } else if code == 24 {
        Some(style.with_flag(STYLE_UNDERLINE, false))
    } else if 30 <= code <= 37 {
        Some(style.with_foreground(Color::Indexed((code - 30) as u8)))
    } else if code == 39 {
        Some(style.with_foreground(Color::DefaultForeground))
    } else if 40 <= code <= 47 {
        Some(style.with_background(Color::Indexed((code - 40) as u8)))
    } else if code == 49 {
        Some(style.with_background(Color::DefaultBackground))
    } else if 90 <= code <= 97 {
        Some(style.with_foreground(Color::Indexed((code - 90 + 8) as u8)))
    } else if 100 <= code <= 107 {
        Some(style.with_background(Color::Indexed((code - 100 + 8) as u8)))
    } else {
        None
    }
}

pub open spec fn is_digit(b: u8) -> bool {
    0x30 <= b <= 0x39
}

/// The index of the first `;` at or after `i`, or the length of `p`.
pub open spec fn segment_end(p: Seq<u8>, i: int) -> int
    decreases p.len() - i,
{
    if i < 0 || i >= p.len() || p[i] == 0x3b {
        i
    } else {
        segment_end(p, i + 1)
    }
}

pub proof fn lemma_segment_end(p: Seq<u8>, i: int)
    requires
        0 <= i <= p.len(),
    ensures
        i <= segment_end(p, i) <= p.len(),
        forall|q: int| i <= q < segment_end(p, i) ==> #[trigger] p[q] != 0x3b,
        segment_end(p, i) < p.len() ==> p[segment_end(p, i)] == 0x3b,
    decreases p.len() - i,
{
    if i < p.len() && p[i] != 0x3b {
        lemma_segment_end(p, i + 1);
    }
}

/// The decimal value of the digits `p[i..j]`, or `None` when it does not
/// fit in 16 bits; an empty segment is code 0.
pub open spec fn segment_value(p: Seq<u8>, i: int, j: int) -> Option<u16>
    decreases j - i,
{
    if j <= i {
        Some(0)
    } else {
        match segment_value(p, i, j - 1) {
            Some(v) => if v * 10 + (p[j - 1] - 0x30) <= u16::MAX {
                Some((v * 10 + (p[j - 1] - 0x30)) as u16)
            } else {
                None
            },
            None => None,
        }
    }
}

/// The style after the `;`-separated codes of `p[i..]`.
pub open spec fn fast_sgr_codes(style: Style, p: Seq<u8>, i: int) -> Option<Style>
    decreases p.len() - i,
{
    if i < 0 || i > p.len() {
        None
    } else {
        proof {
            lemma_segment_end(p, i);
        }
        let j = segment_end(p, i);
        match segment_value(p, i, j) {
            None => None,
            Some(code) => match fast_code_style(style, code) {
                None => None,
                Some(next) => if j >= p.len() {
                    Some(next)
                } else {
                    fast_sgr_codes(next, p, j + 1)
                },
            },
        }
    }
}

/// The index of the first `m` in `input` at or after `i`.
pub open spec fn first_m(input: Seq<u8>, i: int) -> Option<int>
    decreases input.len() - i,
{
    if i < 0 || i >= input.len() {
        None
    } else if input[i] == 0x6d {
        Some(i)
    } else {
        first_m(input, i + 1)
    }
}

/// What the fast SGR path does with input that starts with `ESC [`: the
/// style it sets and the bytes it takes, or `None` when it leaves the
/// sequence to the parser. Only digits and `;` may stand before the `m`.
pub open spec fn fast_sgr_result(style: Style, input: Seq<u8>) -> Option<(Style, nat)> {
    match first_m(input, 2) {
        None => None,
        Some(m) => {
            let p = input.subrange(2, m);
            if exists|k: int| 0 <= k < p.len() && !is_digit(#[trigger] p[k]) && p[k] != 0x3b {
                None
            } else if p.len() == 0 {
                Some((Style::default_spec(), 3))
            } else {
                match fast_sgr_codes(style, p, 0) {
                    None => None,
                    Some(s) => Some((s, (m + 1) as nat)),
                }
            }
        },
    }
}

/// The style after a fast SGR attempt: codes before the one that stopped
/// it stay applied.
pub open spec fn fast_sgr_partial(style: Style, p: Seq<u8>, i: int) -> Style
    decreases p.len() - i,
{
    if i < 0 || i > p.len() {
        style
    } else {
        proof {
            lemma_segment_end(p, i);
        }
        let j = segment_end(p, i);
        match segment_value(p, i, j) {
            None => style,
            Some(code) => match fast_code_style(style, code) {
                None => style,
                Some(next) => if j >= p.len() {
                    next
                } else {
                    fast_sgr_partial(next, p, j + 1)
                },
            },
        }
    }
}

/// The style that the fast SGR path leaves, whether or not it takes the
/// sequence.
pub open spec fn fast_sgr_style(style: Style, input: Seq<u8>) -> Style {
    match first_m(input, 2) {
        None => style,
        Some(m) => {
            let p = input.subrange(2, m);
            if exists|k: int| 0 <= k < p.len() && !is_digit(#[trigger] p[k]) && p[k] != 0x3b {
                style
            } else if p.len() == 0 {
                Style::default_spec()
            } else {
                fast_sgr_partial(style, p, 0)
            }
        },
    }
}

pub open spec fn is_printable_byte(b: u8) -> bool {
    0x20 <= b <= 0x7e
}

/// The end of the run of printable ASCII bytes that starts at `i`.
pub open spec fn byte_run_end(input: Seq<u8>, i: int) -> int
    decreases input.len() - i,
{
    if i < 0 || i >= input.len() || !is_printable_byte(input[i]) {
        i
    } else {
        byte_run_end(input, i + 1)
    }
}

pub open spec fn is_continuation(b: u8) -> bool {
    0x80 <= b <= 0xbf
}

/// The character that the UTF-8 sequence at `input[i]` encodes and its
/// length in bytes, or `None` when no valid sequence of two to four bytes
/// starts there (RFC 3629).
pub open spec fn spec_decode_utf8(input: Seq<u8>, i: int) -> Option<(char, nat)> {
    if i < 0 || i >= input.len() {
        None
    } else {
        let b0 = input[i];
        if 0xc2 <= b0 <= 0xdf && i + 1 < input.len() && is_continuation(input[i + 1]) {
            Some((((b0 - 0xc0) * 64 + (input[i + 1] - 0x80)) as char, 2))
        } else if 0xe0 <= b0 <= 0xef && i + 2 < input.len() && is_continuation(input[i + 1])
            && is_continuation(input[i + 2]) && (b0 != 0xe0 || input[i + 1] >= 0xa0) && (b0 != 0xed
            || input[i + 1] <= 0x9f) {
            Some(
                (
                    ((b0 - 0xe0) * 4096 + (input[i + 1] - 0x80) * 64 + (input[i + 2] - 0x80)) as char,
                    3,
                ),
            )
        } else if 0xf0 <= b0 <= 0xf4 && i + 3 < input.len() && is_continuation(input[i + 1])
            && is_continuation(input[i + 2]) && is_continuation(input[i + 3]) && (b0 != 0xf0
            || input[i + 1] >= 0x90) && (b0 != 0xf4 || input[i + 1] <= 0x8f) {
            Some(
                (
                    ((b0 - 0xf0) * 262144 + (input[i + 1] - 0x80) * 4096 + (input[i + 2] - 0x80)
                        * 64 + (input[i + 3] - 0x80)) as char,
                    4,
                ),
            )
        } else {
            None
        }
    }
}

/// Whether `c` is a control character (Unicode category Cc).
pub open spec fn is_control_spec(c: char) -> bool {
    c as u32 <= 0x1f || (0x7f <= c as u32 && c as u32 <= 0x9f)
}

/// The character at `input[i]` when a valid UTF-8 sequence encodes one that
/// is not a control character, with the sequence's length.
pub open spec fn decoded_printable(input: Seq<u8>, i: int) -> Option<(char, nat)> {
    match spec_decode_utf8(input, i) {
        Some((ch, n)) => if is_control_spec(ch) {
            None
        } else {
            Some((ch, n))
        },
        None => None,
    }
}

/// One step of the fast text path at `input[i]`: the state after it and
/// where the next step starts, or `None` when the byte is left to the parser.
#[verifier::opaque]
pub open spec fn fast_text_step(t: TerminalState, input: Seq<u8>, i: int) -> Option<(TerminalState, int)> {
    let g = t.grid;
    let b = input[i];
    if is_printable_byte(b) {
        let end = byte_run_end(input, i);
        let run = input.subrange(i, end);
        let t1 = TerminalState { last_printed: input[end - 1] as char, ..t };
        if end + 1 < input.len() && input[end] == 0x0d && input[end + 1] == 0x0a && ascii_crlf_fits(
            g,
            run,
        ) {
            Some((with_grid(t1, ascii_crlf_state(g, run, t.style)), end + 2))
        } else {
            Some((with_grid(t1, ascii_run_state(g, run, t.style, 0)), end))
        }
    } else if decoded_printable(input, i) is Some {
        let (ch, n) = decoded_printable(input, i)->0;
        Some((TerminalState { grid: put_char_state(g, ch, t.style), last_printed: ch, ..t }, i + n))
    } else if b == 0x0d && i + 1 < input.len() && input[i + 1] == 0x0a {
        Some((with_grid(t, crlf_state(g)), i + 2))
    } else if b == 0x0a || b == 0x0b || b == 0x0c {
        Some((with_grid(t, put_char_state(g, '\n', t.style)), i + 1))
    } else if b == 0x0d {
        Some((with_grid(t, move_cursor_state(g, 0, g.cursor.y)), i + 1))
    } else if b == 0x09 {
        Some((with_grid(t, put_tab_state(g, t.style)), i + 1))
    } else if b == 0x08 {
        Some((
            if g.cursor.x > 0 {
                with_grid(t, move_cursor_state(g, (g.cursor.x - 1) as u16, g.cursor.y))
            } else {
                t
            },
            i + 1,
        ))
    } else {
        None
    }
}

pub proof fn lemma_byte_run_end(input: Seq<u8>, i: int)
    requires
        0 <= i <= input.len(),
    ensures
        i <= byte_run_end(input, i) <= input.len(),
        i < input.len() && is_printable_byte(input[i]) ==> i < byte_run_end(input, i),
    decreases input.len() - i,
{
    if i < input.len() && is_printable_byte(input[i]) {
        lemma_byte_run_end(input, i + 1);
    }
}

pub proof fn lemma_fast_text_step(t: TerminalState, input: Seq<u8>, i: int)
    requires
        0 <= i < input.len(),
    ensures
        fast_text_step(t, input, i) matches Some((t2, j)) ==> i < j <= input.len(),
{
    reveal(fast_text_step);
    lemma_byte_run_end(input, i);
}

/// The fast text path from `input[i]`: the state it leaves and where it
/// stopped.
pub open spec fn fast_text_from(t: TerminalState, input: Seq<u8>, i: int) -> (TerminalState, int)
    decreases input.len() - i,
{
    if i < 0 || i >= input.len() {
        (t, i)
    } else {
        proof {
            lemma_fast_text_step(t, input, i);
        }
        match fast_text_step(t, input, i) {
            None => (t, i),
            Some((t2, j)) => fast_text_from(t2, input, j),
        }
    }
}

/// The effect of a resize on both screens.
pub open spec fn resized_state(t: TerminalState, width: u16, height: u16) -> TerminalState {
    TerminalState {
        grid: resize_state(t.grid, width, height),
        alternate: match t.alternate {
            Some(a) => Some(resize_state(a, width, height)),
            None => None,
        },
        ..t
    }
}

/// A resize of the primary screen that rewraps its lines (the alternate
/// screen, when active, resizes both screens in place).
pub open spec fn reflowed_state(t: TerminalState, width: u16, height: u16) -> TerminalState {
    if t.alternate is Some {
        resized_state(t, width, height)
    } else {
        TerminalState { grid: crate::reflow::reflow_state(t.grid, width, height), ..t }
    }
}

/// The effect of a list of actions, in order.
pub open spec fn apply_actions_state(t: TerminalState, actions: Seq<ActionView>) -> TerminalState
    decreases actions.len(),
{
    if actions.len() == 0 {
        t
    } else {
        apply_action_state(apply_actions_state(t, actions.drop_last()), actions.last())
    }
}

/// The scrollback after `rows` scrolled off the primary screen: the newest
/// `capacity` rows of the old scrollback followed by `rows`.
pub open spec fn appended_scrollback(
    scrollback: Seq<Seq<Cell>>,
    rows: Seq<Seq<Cell>>,
    capacity: nat,
) -> Seq<Seq<Cell>> {
    let all = scrollback + rows;
    if rows.len() == 0 || capacity == 0 {
        scrollback
    } else if all.len() <= capacity {
        all
    } else {
        all.subrange(all.len() - capacity, all.len() as int)
    }
}

/// How many row buffers a scrollback append gives back for reuse.
pub open spec fn recycled_count(scrollback_len: nat, rows_len: nat, capacity: nat) -> nat {
    if rows_len == 0 || capacity == 0 {
        rows_len
    } else if scrollback_len + rows_len <= capacity {
        0
    } else {
        (scrollback_len + rows_len - capacity) as nat
    }
}

/// The state after a tick: scrolled rows moved to scrollback (primary screen
/// only), damage, replies and clipboard requests handed out.
pub open spec fn tick_state(t: TerminalState) -> TerminalState {
    let g = t.grid;
    let recycled = if t.alternate is None {
        recycled_count(t.scrollback.len(), g.scrolled.len(), t.scrollback_capacity)
    } else {
        g.scrolled.len()
    };
    TerminalState {
        grid: GridState {
            scrolled: Seq::empty(),
            pool_len: min_nat(g.pool_len + recycled, SCROLLED_ROW_POOL_LIMIT as nat),
            damage: empty_state(),
            ..g
        },
        scrollback: if t.alternate is None {
            appended_scrollback(t.scrollback, g.scrolled, t.scrollback_capacity)
        } else {
            t.scrollback
        },
        clipboard: Seq::empty(),
        output: Seq::empty(),
        ..t
    }
}

/// `tick` hands out what `t` had pending.
pub open spec fn tick_reports(t: TerminalState, tick: CoreTick) -> bool {
    &&& tick.damage.generation == t.grid.generation
    &&& tick.damage.regions@ == drained_regions(t.grid.damage)
    &&& tick.output@ == t.output
    &&& clipboard_view(tick.clipboard@) == t.clipboard
}

/// Applying two lists of actions one after the other is applying their
/// concatenation.
pub proof fn lemma_apply_actions_append(t: TerminalState, a: Seq<ActionView>, b: Seq<ActionView>)
    ensures
        apply_actions_state(t, a + b) == apply_actions_state(apply_actions_state(t, a), b),
    decreases b.len(),
{
    if b.len() == 0 {
        assert(a + b =~= a);
    } else {
        lemma_apply_actions_append(t, a, b.drop_last());
        assert((a + b).drop_last() =~= a + b.drop_last());
        assert((a + b).last() == b.last());
    }
}

/// A tick hands out everything pending: a second tick right after it
/// reports no damage, no replies and no clipboard requests, and changes
/// nothing.
pub proof fn lemma_tick_drains(t: TerminalState, tick: CoreTick)
    requires
        terminal_wf(t),
        tick_reports(tick_state(t), tick),
    ensures
        tick_state(tick_state(t)) == tick_state(t),
        tick.damage.regions@.len() == 0,
        tick.output@.len() == 0,
        tick.clipboard@.len() == 0,
{
    let t1 = tick_state(t);
    assert(t1.grid.scrolled.len() == 0);
    assert(t1.scrollback.len() <= t1.scrollback_capacity) by {
        if t.alternate is None && t.grid.scrolled.len() > 0 && t.scrollback_capacity > 0 {
            let all = t.scrollback + t.grid.scrolled;
            assert(all.len() > t.scrollback_capacity ==> all.subrange(
                all.len() - t.scrollback_capacity,
                all.len() as int,
            ).len() == t.scrollback_capacity);
        }
    }
    assert(tick_state(t1).grid =~= t1.grid);
    assert(tick_state(t1) =~= t1);
    assert(clipboard_view(tick.clipboard@).len() == tick.clipboard@.len());
}

impl<P: ParserAdapter> TerminalCore<P> {
    pub closed spec fn wf(&self) -> bool {
        &&& self.grid.wf()
        &&& self.grid@.width > 0
        &&& self.grid@.height > 0
        &&& match self.alternate_grid {
            Some(a) => a.wf() && a@.width > 0 && a@.height > 0,
            None => true,
        }
        &&& self.scrollback@.len() <= self.scrollback_capacity
    }

    /// A well-formed terminal has a consistent abstract state.
    pub proof fn lemma_wf_state(&self)
        requires
            self.wf(),
        ensures
            terminal_wf(self@),
    {
        self.grid.lemma_wf_state();
        match self.alternate_grid {
            Some(a) => a.lemma_wf_state(),
            None => {},
        }
    }

    /// A terminal of `width` by `height` cells that parses with `parser`;
    /// a side of zero is taken as one, as a resize takes it, so that every
    /// edit the child process can ask for (erasing to the cursor, deleting
    /// characters) has a cell to act on.
    pub fn with_parser(width: u16, height: u16, parser: P) -> (r: Self)
        ensures
            r.wf(),
            r@ == new_terminal_state(crate::damage::max16(width, 1), crate::damage::max16(height, 1)),
            r.profile() == zero_profile(),
    {
        let width = if width >= 1 {
            width
        } else {
            1
        };
        let height = if height >= 1 {
            height
        } else {
            1
        };
        let r = TerminalCore {
            grid: Grid::new(width, height),
            alternate_grid: None,
            scrollback: VecDeque::new(),
            scrollback_capacity: DEFAULT_SCROLLBACK_LINES,
            parser,
            style: Style::default(),
            saved_cursor: None,
            last_printed: ' ',
            mouse: MouseState::default(),
            bracketed_paste: false,
            clipboard: Vec::new(),
            output: Vec::new(),
            actions: Vec::new(),
            profile_enabled: false,
            profile: CoreProfile::default(),
        };
        assert(r@ =~= new_terminal_state(width, height));
        r
    }

    pub closed spec fn profile(&self) -> CoreProfile {
        self.profile
    }

    pub closed spec fn profiling(&self) -> bool {
        self.profile_enabled
    }

    /// The parser as it stands.
    pub closed spec fn parser_state(&self) -> P {
        self.parser
    }

    pub fn grid(&self) -> (r: &Grid)
        requires
            self.wf(),
        ensures
            r.wf(),
            r@ == self@.grid,
    {
        &self.grid
    }

    pub fn mouse(&self) -> (r: MouseState)
        ensures
            r == self@.mouse,
    {
        self.mouse
    }

    pub fn bracketed_paste(&self) -> (r: bool)
        ensures
            r == self@.bracketed_paste,
    {
        self.bracketed_paste
    }

    pub fn is_alternate_screen(&self) -> (r: bool)
        ensures
            r == (self@.alternate is Some),
    {
        self.alternate_grid.is_some()
    }

    pub fn scrollback_len(&self) -> (r: usize)
        ensures
            r == self@.scrollback.len(),
    {
        self.scrollback.len()
    }

    /// Row `index` of the scrollback, oldest first.
    pub fn scrollback_row(&self, index: usize) -> (r: Option<&[Cell]>)
        ensures
            r matches Some(row) ==> index < self@.scrollback.len() && row@ == self@.scrollback[index as int],
            r is None ==> index >= self@.scrollback.len(),
    {
        if index < self.scrollback.len() {
            Some(self.scrollback[index].as_slice())
        } else {
            None
        }
    }

    /// Leaves synchronized-update mode, repainting everything if it was on.
    pub fn disable_synchronized_update(&mut self)
        requires
            old(self).wf(),
        ensures
            final(self).wf(),
            final(self)@ == (if old(self)@.grid.synchronized {
                with_grid(
                    old(self)@,
                    viewport_damage(GridState { synchronized: false, ..old(self)@.grid }),
                )
            } else {
                old(self)@
            }),
    {
        if self.grid.is_synchronized() {
            self.grid.set_synchronized(false);
            self.grid.invalidate();
        }
        assert(self@ =~= (if old(self)@.grid.synchronized {
            with_grid(old(self)@, viewport_damage(GridState { synchronized: false, ..old(self)@.grid }))
        } else {
            old(self)@
        }));
    }

    /// Keeps at most `capacity` rows of history from now on (the rows already
    /// kept must fit).
    pub fn set_scrollback_capacity(&mut self, capacity: usize)
        requires
            old(self).wf(),
            old(self)@.scrollback.len() <= capacity,
        ensures
            final(self).wf(),
            final(self)@ == (TerminalState { scrollback_capacity: capacity as nat, ..old(self)@ }),
    {
        self.scrollback_capacity = capacity;
    }

    pub fn set_profile_enabled(&mut self, enabled: bool)
        requires
            old(self).wf(),
        ensures
            final(self).wf(),
            final(self)@ == old(self)@,
            final(self).profiling() == enabled,
            final(self).profile() == old(self).profile(),
    {
        self.profile_enabled = enabled;
    }

    /// The counters gathered since the last drain; they start again from zero.
    pub fn drain_profile(&mut self) -> (r: CoreProfile)
        requires
            old(self).wf(),
        ensures
            final(self).wf(),
            final(self)@ == old(self)@,
            r == old(self).profile(),
            final(self).profile() == zero_profile(),
            final(self).profiling() == old(self).profiling(),
            final(self).parser_state() == old(self).parser_state(),
    {
        let r = self.profile;
        self.profile = CoreProfile::default();
        r
    }

    fn apply_style(&mut self, update: StyleUpdate)
        requires
            old(self).wf(),
        ensures
            final(self).wf(),
            final(self)@ == (TerminalState { style: style_update(old(self)@.style, update), ..old(self)@ }),
            final(self).profile() == old(self).profile(),
            final(self).profiling() == old(self).profiling(),
            final(self).parser_state() == old(self).parser_state(),
    {
        match update {
            StyleUpdate::Foreground(color) => self.style.set_foreground(color),
            StyleUpdate::Background(color) => self.style.set_background(color),
            StyleUpdate::Bold(enabled) => self.style.set_bold(enabled),
            StyleUpdate::Italic(enabled) => self.style.set_italic(enabled),
            StyleUpdate::Underline(enabled) => self.style.set_underline(enabled),
        }
        assert(self@ =~= (TerminalState { style: style_update(old(self)@.style, update), ..old(self)@ }));
    }

    fn set_mode(&mut self, mode: TerminalMode, enabled: bool)
        requires
            old(self).wf(),
        ensures
            final(self).wf(),
            final(self)@ == set_mode_state(old(self)@, mode, enabled),
            final(self).profile() == old(self).profile(),
            final(self).profiling() == old(self).profiling(),
            final(self).parser_state() == old(self).parser_state(),
    {
        match mode {
            TerminalMode::AlternateScreen => {
                if enabled && self.alternate_grid.is_none() {
                    self.saved_cursor = Some(self.grid.cursor());
                    let mut replacement = Grid::new(self.grid.width(), self.grid.height());
                    std::mem::swap(&mut self.grid, &mut replacement);
                    self.alternate_grid = Some(replacement);
                } else if !enabled && self.alternate_grid.is_some() {
                    let taken = self.alternate_grid.take();
                    match taken {
                        Some(primary) => {
                            self.grid = primary;
                        },
                        None => {},
                    }
                    match self.saved_cursor {
                        Some(cursor) => {
                            let _ = self.grid.move_cursor(cursor.x, cursor.y);
                        },
                        None => {},
                    }
                    self.grid.invalidate();
                }
            },
            TerminalMode::CursorVisible => self.grid.set_cursor_visible(enabled),
            TerminalMode::MouseTracking(tracking) => {
                self.mouse.tracking = if enabled {
                    tracking
                } else if self.mouse.tracking == tracking {
                    MouseTracking::Disabled
                } else {
                    self.mouse.tracking
                };
            },
            TerminalMode::SgrMouse => self.mouse.sgr = enabled,
            TerminalMode::BracketedPaste => self.bracketed_paste = enabled,
            TerminalMode::SynchronizedUpdate => self.grid.set_synchronized(enabled),
            TerminalMode::Wrap => self.grid.set_wrap(enabled),
        }
        assert(self@ =~= set_mode_state(old(self)@, mode, enabled));
    }

    fn reset(&mut self)
        requires
            old(self).wf(),
        ensures
            final(self).wf(),
            final(self)@ == reset_state(old(self)@),
            final(self).profile() == old(self).profile(),
            final(self).profiling() == old(self).profiling(),
            final(self).parser_state() == old(self).parser_state(),
    {
        let width = self.grid.width();
        let height = self.grid.height();
        self.grid = Grid::new(width, height);
        self.alternate_grid = None;
        self.scrollback.clear();
        self.style = Style::default();
        self.saved_cursor = None;
        self.last_printed = ' ';
        self.mouse = MouseState::default();
        self.bracketed_paste = false;
        assert(self@ =~= reset_state(old(self)@));
    }

    fn report_mode(&mut self, mode: u16)
        requires
            old(self).wf(),
        ensures
            final(self).wf(),
            final(self)@ == (TerminalState {
                output: old(self)@.output + report_mode_reply(mode, old(self)@.grid.synchronized),
                ..old(self)@
            }),
            final(self).profile() == old(self).profile(),
            final(self).profiling() == old(self).profiling(),
            final(self).parser_state() == old(self).parser_state(),
    {
        let status: u8 = if mode == 2026 {
            if self.grid.is_synchronized() {
                0x31
            } else {
                0x32
            }
        } else {
            0x30
        };
        self.output.push(0x1b);
        self.output.push(0x5b);
        self.output.push(0x3f);
        push_decimal(&mut self.output, mode);
        self.output.push(0x3b);
        self.output.push(status);
        self.output.push(0x24);
        self.output.push(0x79);
        assert(self.output@ =~= old(self)@.output + report_mode_reply(mode, old(self)@.grid.synchronized));
        assert(self@ =~= (TerminalState {
            output: old(self)@.output + report_mode_reply(mode, old(self)@.grid.synchronized),
            ..old(self)@
        }));
    }
}

impl<P: ParserAdapter> TerminalCore<P> {
    /// Applies one parser action.
    pub fn apply_action(&mut self, action: ParserAction)
        requires
            old(self).wf(),
        ensures
            final(self).wf(),
            final(self)@ == apply_action_state(old(self)@, action@),
            final(self).profile() == old(self).profile(),
            final(self).profiling() == old(self).profiling(),
            final(self).parser_state() == old(self).parser_state(),
    {
        proof {
            reveal(apply_action_state);
        }
        if is_grid_action_exec(&action) {
            self.apply_grid_action(action);
        } else if is_print_action_exec(&action) {
            self.apply_print_action(action);
        } else {
            self.apply_state_action(action);
        }
    }

    #[verifier::rlimit(60)]
    #[verifier::spinoff_prover]
    fn apply_print_action(&mut self, action: ParserAction)
        requires
            old(self).wf(),
            is_print_action(action@),
        ensures
            final(self).wf(),
            final(self)@ == print_action_state(old(self)@, action@),
            final(self).profile() == old(self).profile(),
            final(self).profiling() == old(self).profiling(),
            final(self).parser_state() == old(self).parser_state(),
    {
        match action {
            ParserAction::Print(ch) => self.print(ch),
            ParserAction::PrintAscii(bytes) => self.print_ascii(bytes),
            ParserAction::PrintText(text) => self.process_print_text(text.as_str()),
            ParserAction::Repeat(count) => self.repeat_last(count),
            _ => {},
        }
    }

    #[verifier::spinoff_prover]
    fn apply_state_action(&mut self, action: ParserAction)
        requires
            old(self).wf(),
            !is_grid_action(action@),
            !is_print_action(action@),
        ensures
            final(self).wf(),
            final(self)@ == state_action_state(old(self)@, action@),
            final(self).profile() == old(self).profile(),
            final(self).profiling() == old(self).profiling(),
            final(self).parser_state() == old(self).parser_state(),
    {
        let ghost t = self@;
        let ghost a = action@;
        match action {
            ParserAction::Reset => self.reset(),
            ParserAction::SaveCursor => {
                self.saved_cursor = Some(self.grid.cursor());
                assert(self@ =~= state_action_state(t, a));
            },
            ParserAction::RestoreCursor => {
                match self.saved_cursor {
                    Some(cursor) => {
                        let _ = self.grid.move_cursor(cursor.x, cursor.y);
                    },
                    None => {},
                }
                assert(self@ =~= state_action_state(t, a));
            },
            ParserAction::ClearScrollback => {
                self.scrollback.clear();
                assert(self@ =~= state_action_state(t, a));
            },
            ParserAction::SetMode { mode, enabled } => self.set_mode(mode, enabled),
            ParserAction::SetStyle(update) => self.apply_style(update),
            ParserAction::ClipboardStore { clipboard, base64 } => {
                self.clipboard.push(ClipboardStore { clipboard, base64 });
                assert(self@ =~= state_action_state(t, a));
            },
            ParserAction::ReportMode(mode) => self.report_mode(mode),
            ParserAction::Respond(bytes) => {
                let mut bytes = bytes;
                self.output.append(&mut bytes);
                assert(self@ =~= state_action_state(t, a));
            },
            ParserAction::ResetStyle => {
                self.style = Style::default();
                assert(self@ =~= state_action_state(t, a));
            },
            _ => {},
        }
    }

    fn print(&mut self, ch: char)
        requires
            old(self).wf(),
        ensures
            final(self).wf(),
            final(self)@ == (TerminalState {
                grid: put_char_state(old(self)@.grid, ch, old(self)@.style),
                last_printed: ch,
                ..old(self)@
            }),
            final(self).profile() == old(self).profile(),
            final(self).profiling() == old(self).profiling(),
            final(self).parser_state() == old(self).parser_state(),
    {
        let _ = self.grid.put_char(ch, self.style);
        self.last_printed = ch;
        assert(self@ == (TerminalState {
            grid: put_char_state(old(self)@.grid, ch, old(self)@.style),
            last_printed: ch,
            ..old(self)@
        }));
    }

    fn print_ascii(&mut self, bytes: Vec<u8>)
        requires
            old(self).wf(),
        ensures
            final(self).wf(),
            final(self)@ == (TerminalState {
                grid: ascii_run_state(old(self)@.grid, bytes@, old(self)@.style, 0),
                last_printed: if bytes@.len() > 0 {
                    bytes@.last() as char
                } else {
                    old(self)@.last_printed
                },
                ..old(self)@
            }),
            final(self).profile() == old(self).profile(),
            final(self).profiling() == old(self).profiling(),
            final(self).parser_state() == old(self).parser_state(),
    {
        self.grid.put_ascii_run(bytes.as_slice(), self.style);
        if bytes.len() > 0 {
            self.last_printed = bytes[bytes.len() - 1] as char;
        }
        assert(self@ =~= (TerminalState {
            grid: ascii_run_state(old(self)@.grid, bytes@, old(self)@.style, 0),
            last_printed: if bytes@.len() > 0 {
                bytes@.last() as char
            } else {
                old(self)@.last_printed
            },
            ..old(self)@
        }));
    }

    fn repeat_last(&mut self, count: u16)
        requires
            old(self).wf(),
        ensures
            final(self).wf(),
            final(self)@ == with_grid(
                old(self)@,
                repeat_put_state(old(self)@.grid, old(self)@.last_printed, old(self)@.style, count as nat),
            ),
            final(self).profile() == old(self).profile(),
            final(self).profiling() == old(self).profiling(),
            final(self).parser_state() == old(self).parser_state(),
    {
        let ch = self.last_printed;
        let style = self.style;
        let ghost t = self@;
        let mut i: u16 = 0;
        while i < count
            invariant
                self.wf(),
                i <= count,
                self@ == with_grid(t, repeat_put_state(t.grid, ch, style, i as nat)),
                ch == t.last_printed,
                style == t.style,
                self.profile() == old(self).profile(),
                self.profiling() == old(self).profiling(),
                self.parser_state() == old(self).parser_state(),
            decreases count - i,
        {
            self.repeat_step(ch, style);
            i = i + 1;
        }
    }

    fn repeat_step(&mut self, ch: char, style: Style)
        requires
            old(self).wf(),
        ensures
            final(self).wf(),
            final(self)@ == with_grid(old(self)@, put_char_state(old(self)@.grid, ch, style)),
            final(self).profile() == old(self).profile(),
            final(self).profiling() == old(self).profiling(),
            final(self).parser_state() == old(self).parser_state(),
    {
        let _ = self.grid.put_char(ch, style);
        assert(self@ =~= with_grid(old(self)@, put_char_state(old(self)@.grid, ch, style)));
    }

    /// Applies an action that only changes the grid.
    #[verifier::spinoff_prover]
    fn apply_grid_action(&mut self, action: ParserAction)
        requires
            old(self).wf(),
            is_grid_action(action@),
        ensures
            final(self).wf(),
            final(self)@ == with_grid(old(self)@, grid_action_state(old(self)@.grid, old(self)@.style, action@)),
            final(self).profile() == old(self).profile(),
            final(self).profiling() == old(self).profiling(),
            final(self).parser_state() == old(self).parser_state(),
    {
        let style = self.style;
        let ghost a = action@;
        let ghost t = self@;
        let mut grid = Grid::new(1, 1);
        std::mem::swap(&mut grid, &mut self.grid);
        if is_cursor_action_exec(&action) {
            apply_cursor_action(&mut grid, action);
        } else {
            apply_edit_action(&mut grid, style, action);
        }
        std::mem::swap(&mut grid, &mut self.grid);
        assert(self@ =~= with_grid(t, grid_action_state(t.grid, t.style, a)));
    }

    /// Applies `actions` in order.
    pub fn apply_actions(&mut self, actions: Vec<ParserAction>)
        requires
            old(self).wf(),
        ensures
            final(self).wf(),
            final(self)@ == apply_actions_state(old(self)@, actions_view(actions@)),
            final(self).profile() == old(self).profile(),
            final(self).profiling() == old(self).profiling(),
            final(self).parser_state() == old(self).parser_state(),
    {
        let ghost t = self@;
        let ghost all = actions_view(actions@);
        let total = actions.len();
        let pending = reversed(actions);
        let mut pending = pending;
        let ghost n = all.len();
        let mut done: usize = 0;
        while pending.len() > 0
            invariant
                self.wf(),
                done + pending@.len() == n,
                n == all.len(),
                n == total,
                all == actions_view(actions@),
                forall|k: int| 0 <= k < pending@.len() ==> #[trigger] pending@[k]@ == all[n - 1 - k],
                self@ == apply_actions_state(t, all.subrange(0, done as int)),
                self.profile() == old(self).profile(),
                self.profiling() == old(self).profiling(),
                self.parser_state() == old(self).parser_state(),
            decreases pending@.len(),
        {
            let ghost before = pending@;
            let action = pending.pop().unwrap();
            assert(action@ == all[done as int]);
            self.apply_action(action);
            proof {
                let prefix = all.subrange(0, done + 1);
                assert(prefix.drop_last() =~= all.subrange(0, done as int));
                assert(prefix.last() == all[done as int]);
                assert forall|k: int| 0 <= k < pending@.len() implies #[trigger] pending@[k]@ == all[n - 1 - k] by {
                    assert(pending@[k] == before[k]);
                }
            }
            done = done + 1;
        }
        assert(all.subrange(0, done as int) =~= all);
    }

    /// Prints text: runs of printable ASCII as runs, other characters one
    /// at a time.
    fn process_print_text(&mut self, text: &str)
        requires
            old(self).wf(),
        ensures
            final(self).wf(),
            final(self)@ == print_text_state(old(self)@, text@, 0),
            final(self).profile() == old(self).profile(),
            final(self).profiling() == old(self).profiling(),
            final(self).parser_state() == old(self).parser_state(),
    {
        let chars = collect_chars(text);
        let ghost cs = chars@;
        let len = chars.len();
        let mut index: usize = 0;
        while index < len
            invariant
                self.wf(),
                len == cs.len(),
                cs == chars@,
                cs == text@,
                index <= len,
                print_text_state(self@, cs, index as int) == print_text_state(old(self)@, cs, 0),
                self.profile() == old(self).profile(),
                self.profiling() == old(self).profiling(),
                self.parser_state() == old(self).parser_state(),
            decreases len - index,
        {
            index = self.print_text_step(&chars, index);
        }
    }

    fn print_text_step(&mut self, chars: &Vec<char>, index: usize) -> (next: usize)
        requires
            old(self).wf(),
            index < chars@.len(),
        ensures
            final(self).wf(),
            (final(self)@, next as int) == print_text_step(old(self)@, chars@, index as int),
            index < next <= chars@.len(),
            final(self).profile() == old(self).profile(),
            final(self).profiling() == old(self).profiling(),
            final(self).parser_state() == old(self).parser_state(),
    {
        proof {
            reveal(print_text_step);
        }
        let ghost before = self@;
        let ghost cs = chars@;
        let len = chars.len();
        let c = chars[index];
        if is_printable_char(c) {
            let start = index;
            let mut end = index;
            let mut run: Vec<u8> = Vec::new();
            proof {
                lemma_printable_run_end(cs, start as int);
            }
            while end < len && is_printable_char(chars[end])
                invariant
                    len == cs.len(),
                    cs == chars@,
                    start <= end <= len,
                    end <= printable_run_end(cs, start as int),
                    start < len,
                    is_printable_ascii_char(cs[start as int]),
                    forall|k: int| start <= k < end ==> is_printable_ascii_char(#[trigger] cs[k]),
                    run@ == Seq::new((end - start) as nat, |k: int| cs[start + k] as u8),
                decreases len - end,
            {
                proof {
                    lemma_run_end_step(cs, start as int, end as int);
                }
                run.push(chars[end] as u8);
                end = end + 1;
                assert(run@ =~= Seq::new((end - start) as nat, |k: int| cs[start + k] as u8));
            }
            proof {
                lemma_run_end_exit(cs, start as int, end as int);
            }
            self.grid.put_ascii_run(run.as_slice(), self.style);
            self.last_printed = chars[end - 1];
            assert(self@ =~= print_text_step(before, cs, index as int).0);
            end
        } else {
            let _ = self.grid.put_char(c, self.style);
            self.last_printed = c;
            assert(self@ =~= print_text_step(before, cs, index as int).0);
            index + 1
        }
    }
}

impl<P: ParserAdapter> TerminalCore<P> {
    /// Moves rows that scrolled off the primary screen into scrollback,
    /// dropping the oldest beyond its capacity; gives back the row buffers
    /// it no longer keeps.
    fn append_scrollback_rows(&mut self, rows: Vec<Vec<Cell>>) -> (recycled: Vec<Vec<Cell>>)
        requires
            old(self).wf(),
        ensures
            final(self).wf(),
            final(self)@ == (TerminalState {
                scrollback: appended_scrollback(
                    old(self)@.scrollback,
                    rows_of(rows@),
                    old(self)@.scrollback_capacity,
                ),
                ..old(self)@
            }),
            recycled@.len() == recycled_count(
                old(self)@.scrollback.len(),
                rows@.len(),
                old(self)@.scrollback_capacity,
            ),
            final(self).profile() == old(self).profile(),
            final(self).profiling() == old(self).profiling(),
            final(self).parser_state() == old(self).parser_state(),
    {
        let ghost t = self@;
        let capacity = self.scrollback_capacity;
        let count = rows.len();
        if count == 0 || capacity == 0 {
            return rows;
        }
        let mut scrollback: VecDeque<Vec<Cell>> = VecDeque::new();
        std::mem::swap(&mut scrollback, &mut self.scrollback);
        let ghost sb_raw = scrollback@;
        let ghost rows_raw = rows@;
        let (kept, recycled) = append_rows(scrollback, rows, capacity);
        self.scrollback = kept;
        proof {
            lemma_appended_rows(sb_raw, rows_raw, capacity as nat);
        }
        assert(self@ =~= (TerminalState {
            scrollback: appended_scrollback(t.scrollback, rows_of(rows_raw), t.scrollback_capacity),
            ..t
        }));
        recycled
    }

    /// Hands out what changed: scrolled rows go to scrollback (on the primary
    /// screen), and damage, replies and clipboard requests are drained.
    fn tick(&mut self) -> (r: CoreTick)
        requires
            old(self).wf(),
        ensures
            final(self).wf(),
            final(self)@ == tick_state(old(self)@),
            tick_reports(old(self)@, r),
            final(self).profile() == old(self).profile(),
            final(self).profiling() == old(self).profiling(),
            final(self).parser_state() == old(self).parser_state(),
    {
        let ghost t = self@;
        if self.alternate_grid.is_none() {
            let scrolled_rows = self.grid.drain_scrolled_rows();
            let recycled_rows = self.append_scrollback_rows(scrolled_rows);
            self.grid.recycle_scrolled_rows(recycled_rows);
        } else {
            let scrolled_rows = self.grid.drain_scrolled_rows();
            self.grid.recycle_scrolled_rows(scrolled_rows);
        }
        let damage = self.grid.drain_damage();
        let mut output: Vec<u8> = Vec::new();
        std::mem::swap(&mut output, &mut self.output);
        let mut clipboard: Vec<ClipboardStore> = Vec::new();
        std::mem::swap(&mut clipboard, &mut self.clipboard);
        assert(self@ =~= tick_state(t));
        CoreTick { damage, output, clipboard }
    }
}

/// The rows that an append to scrollback keeps, as buffers: the newest
/// `capacity` of `scrollback` followed by `rows`.
pub open spec fn kept_rows(scrollback: Seq<Vec<Cell>>, rows: Seq<Vec<Cell>>, capacity: nat) -> Seq<Vec<Cell>> {
    let all = scrollback + rows;
    if all.len() <= capacity {
        all
    } else {
        all.subrange(all.len() - capacity, all.len() as int)
    }
}

proof fn lemma_appended_rows(scrollback: Seq<Vec<Cell>>, rows: Seq<Vec<Cell>>, capacity: nat)
    requires
        rows.len() > 0,
        capacity > 0,
    ensures
        rows_of(kept_rows(scrollback, rows, capacity)) == appended_scrollback(
            rows_of(scrollback),
            rows_of(rows),
            capacity,
        ),
{
    let all = scrollback + rows;
    assert(rows_of(all) =~= rows_of(scrollback) + rows_of(rows));
    if all.len() > capacity {
        assert(rows_of(all.subrange(all.len() - capacity, all.len() as int)) =~= rows_of(all).subrange(
            all.len() - capacity,
            all.len() as int,
        ));
    }
}

/// Appends `rows` to `scrollback`, keeping at most `capacity` rows; returns
/// what it keeps and the buffers of the rows it drops.
fn append_rows(scrollback: VecDeque<Vec<Cell>>, rows: Vec<Vec<Cell>>, capacity: usize) -> (r: (
    VecDeque<Vec<Cell>>,
    Vec<Vec<Cell>>,
))
    requires
        scrollback@.len() <= capacity,
        rows@.len() > 0,
        capacity > 0,
    ensures
        r.0@ == kept_rows(scrollback@, rows@, capacity as nat),
        r.0@.len() <= capacity,
        r.1@.len() == recycled_count(scrollback@.len(), rows@.len(), capacity as nat),
{
    let ghost sb = scrollback@;
    let ghost new_rows = rows@;
    let ghost all = sb + new_rows;
    let mut kept = scrollback;
    let mut recycled: Vec<Vec<Cell>> = Vec::new();
    let sb_len = kept.len();
    let count = rows.len();
    let room = capacity - sb_len;
    let drop = if count > room {
        count - room
    } else {
        0
    };
    let from_scrollback = if drop < sb_len {
        drop
    } else {
        sb_len
    };
    let mut i: usize = 0;
    while i < from_scrollback
        invariant
            i <= from_scrollback <= sb_len,
            sb_len == sb.len(),
            kept@ == sb.subrange(i as int, sb.len() as int),
            recycled@.len() == i,
        decreases from_scrollback - i,
    {
        let row = kept.pop_front().unwrap();
        recycled.push(row);
        i = i + 1;
    }
    let from_rows = drop - from_scrollback;
    let mut pending = reversed(rows);
    let mut j: usize = 0;
    while pending.len() > 0
        invariant
            j + pending@.len() == count,
            count == new_rows.len(),
            forall|k: int| 0 <= k < pending@.len() ==> #[trigger] pending@[k] == new_rows[count - 1 - k],
            from_rows <= count,
            j <= from_rows ==> kept@ == sb.subrange(from_scrollback as int, sb.len() as int),
            j <= from_rows ==> recycled@.len() == from_scrollback + j,
            j > from_rows ==> kept@ == sb.subrange(from_scrollback as int, sb.len() as int)
                + new_rows.subrange(from_rows as int, j as int),
            j > from_rows ==> recycled@.len() == from_scrollback + from_rows,
        decreases pending@.len(),
    {
        let row = pending.pop().unwrap();
        if j < from_rows {
            recycled.push(row);
        } else {
            let ghost before = kept@;
            kept.push_back(row);
            proof {
                let base = sb.subrange(from_scrollback as int, sb.len() as int);
                if j == from_rows {
                    assert(kept@ =~= base + new_rows.subrange(from_rows as int, j + 1));
                } else {
                    assert(base + new_rows.subrange(from_rows as int, j + 1) =~= (base
                        + new_rows.subrange(from_rows as int, j as int)).push(new_rows[j as int]));
                }
            }
        }
        j = j + 1;
    }
    proof {
        let base = sb.subrange(from_scrollback as int, sb.len() as int);
        if count <= from_rows {
            assert(false);
        }
        if all.len() <= capacity {
            assert(kept@ =~= all);
        } else {
            assert(kept@ =~= all.subrange(all.len() - capacity, all.len() as int));
        }
    }
    (kept, recycled)
}

/// One pass of the fast paths over `input` from `t`: the state after it,
/// the bytes it took and whether the text path took them. An SGR sequence
/// that the fast SGR path takes goes first; otherwise text is written (after
/// the style change of an SGR sequence it left).
pub open spec fn fast_step(t: TerminalState, input: Seq<u8>) -> (TerminalState, int, bool) {
    let sgr = input.len() >= 2 && input[0] == 0x1b && input[1] == 0x5b;
    if sgr && fast_sgr_result(t.style, input) is Some {
        (
            TerminalState { style: fast_sgr_style(t.style, input), ..t },
            match fast_sgr_result(t.style, input) {
                Some((_, n)) => n as int,
                None => 0,
            },
            false,
        )
    } else {
        let t1 = if sgr {
            TerminalState { style: fast_sgr_style(t.style, input), ..t }
        } else {
            t
        };
        let (t2, n) = fast_text_from(t1, input, 0);
        (t2, n, true)
    }
}

/// `k` passes of the fast paths over `input` from `t`: the state they
/// leave, where the rest of the input starts, whether they took all of it
/// by text, and whether they stopped (a pass that took nothing, or the end
/// of the input). A pass after they stopped changes nothing.
pub open spec fn fast_passes(t: TerminalState, input: Seq<u8>, k: nat) -> (TerminalState, int, bool, bool)
    decreases k,
{
    if k == 0 {
        (t, 0, false, false)
    } else {
        let (t1, start, done, halted) = fast_passes(t, input, (k - 1) as nat);
        if done || halted || start < 0 || start >= input.len() {
            (t1, start, done, true)
        } else {
            let rest = input.subrange(start, input.len() as int);
            let (t2, n, by_text) = fast_step(t1, rest);
            if n <= 0 || n > rest.len() {
                (t2, start, false, true)
            } else if by_text && n == rest.len() {
                (t2, input.len() as int, true, true)
            } else {
                (t2, start + n, false, false)
            }
        }
    }
}

/// Passes of the fast paths never undo a stop: once `k` passes have
/// stopped, more passes change nothing.
pub proof fn lemma_fast_passes_stay(t: TerminalState, input: Seq<u8>, k: nat, m: nat)
    requires
        fast_passes(t, input, k).3,
        k <= m,
    ensures
        fast_passes(t, input, m) == fast_passes(t, input, k),
    decreases m - k,
{
    if k < m {
        lemma_fast_passes_stay(t, input, k, (m - 1) as nat);
    }
}

/// Every pass that does not stop takes at least one byte, so the passes stop
/// by the time they outnumber the bytes; they only stop with all taken by
/// text when they are done.
pub proof fn lemma_fast_passes_progress(t: TerminalState, input: Seq<u8>, k: nat)
    ensures
        0 <= fast_passes(t, input, k).1 <= input.len(),
        fast_passes(t, input, k).2 ==> fast_passes(t, input, k).3,
        !fast_passes(t, input, k).3 ==> fast_passes(t, input, k).1 >= k,
    decreases k,
{
    if k > 0 {
        lemma_fast_passes_progress(t, input, (k - 1) as nat);
    }
}

/// Where the fast paths end over `input` from `t` when the parser lets them
/// run (`ok`): the state they leave, where the rest of the input starts and
/// whether text took all of it. When the parser does not let them run,
/// nothing is taken.
pub open spec fn fast_prefix(t: TerminalState, input: Seq<u8>, ok: bool) -> (TerminalState, int, bool) {
    if !ok {
        (t, 0, false)
    } else {
        let (t1, start, done, halted) = fast_passes(t, input, input.len() + 1);
        (t1, start, done)
    }
}

/// The bytes of `input` that the fast paths leave to the parser.
pub open spec fn parser_input<P: ParserAdapter>(t: TerminalState, input: Seq<u8>, parser: P) -> Seq<u8> {
    let (t1, start, done) = fast_prefix(t, input, parser.fast_path_ok());
    input.subrange(start, input.len() as int)
}

/// Whether `input` reaches the parser at all: it is not empty and the fast
/// paths did not take all of it.
pub open spec fn parser_called<P: ParserAdapter>(t: TerminalState, input: Seq<u8>, parser: P) -> bool {
    input.len() > 0 && !fast_prefix(t, input, parser.fast_path_ok()).2
}

/// The state that `input` from the child process leaves before the tick:
/// what the fast paths left, with the parser's actions for the rest of the
/// input applied when the rest reached the parser.
pub open spec fn pty_input_state<P: ParserAdapter>(t: TerminalState, input: Seq<u8>, parser: P) -> TerminalState {
    if input.len() == 0 {
        t
    } else {
        let (t1, start, done) = fast_prefix(t, input, parser.fast_path_ok());
        if done {
            t1
        } else {
            apply_actions_state(t1, actions_view(parser.parsed(parser_input(t, input, parser))))
        }
    }
}

/// The parser after `input` from the child process.
pub open spec fn pty_parser_after<P: ParserAdapter>(t: TerminalState, input: Seq<u8>, parser: P) -> P {
    if parser_called(t, input, parser) {
        parser.after_parse(parser_input(t, input, parser))
    } else {
        parser
    }
}

impl<P: ParserAdapter> TerminalCore<P> {
    /// Takes bytes from the child process: plain text and simple SGR
    /// sequences go straight to the grid while the parser sits between
    /// sequences; the parser gets the rest, and its actions are applied.
    /// Then the terminal ticks.
    pub fn process_pty_input(&mut self, input: &[u8]) -> (r: CoreTick)
        requires
            old(self).wf(),
        ensures
            final(self).wf(),
            final(self)@ == tick_state(pty_input_state(old(self)@, input@, old(self).parser_state())),
            tick_reports(pty_input_state(old(self)@, input@, old(self).parser_state()), r),
            final(self).parser_state() == pty_parser_after(old(self)@, input@, old(self).parser_state()),
    {
        let ghost p0 = self.parser_state();
        if input.len() == 0 {
            return self.tick();
        }
        let ghost t0 = self@;
        let ghost mut k: nat = 0;
        let len = input.len();
        let mut start: usize = 0;
        let mut stop = false;
        while !stop && start < len && self.parser.can_process_ascii_fast_path()
            invariant
                self.wf(),
                start <= len,
                len == input@.len(),
                len > 0,
                t0 == old(self)@,
                p0 == old(self).parser_state(),
                self.parser_state() == p0,
                !p0.fast_path_ok() ==> k == 0,
                k <= len,
                fast_passes(t0, input@, k) == (self@, start as int, false, stop),
            decreases len - start + (if stop {
                0int
            } else {
                1int
            }),
        {
            proof {
                lemma_fast_passes_progress(t0, input@, k);
            }
            let rest = slice_subrange(input, start, len);
            let ghost before = self@;
            let (consumed, by_text) = self.fast_path_step(rest);
            proof {
                assert(rest@ == input@.subrange(start as int, len as int));
                assert((self@, consumed as int, by_text) == fast_step(before, rest@));
                k = k + 1;
            }
            if consumed == 0 {
                stop = true;
            } else {
                if by_text && consumed == rest.len() {
                    let ghost mid = self@;
                    proof {
                        lemma_fast_passes_progress(t0, input@, k);
                        lemma_fast_passes_stay(t0, input@, k, (len + 1) as nat);
                        assert(fast_prefix(t0, input@, true) == (mid, len as int, true));
                        assert(pty_input_state(t0, input@, p0) == mid);
                    }
                    let r = self.tick();
                    return r;
                }
                start = start + consumed;
            }
        }
        proof {
            lemma_fast_passes_progress(t0, input@, k);
            if p0.fast_path_ok() {
                if stop {
                    lemma_fast_passes_stay(t0, input@, k, (len + 1) as nat);
                } else {
                    assert(start == len);
                    assert(fast_passes(t0, input@, k + 1) == (self@, start as int, false, true));
                    lemma_fast_passes_stay(t0, input@, k + 1, (len + 1) as nat);
                }
                assert(fast_prefix(t0, input@, true) == (self@, start as int, false));
            }
            assert(fast_prefix(t0, input@, p0.fast_path_ok()) == (self@, start as int, false));
        }
        let rest = slice_subrange(input, start, len);
        let mut actions: Vec<ParserAction> = Vec::new();
        self.parser.parse(rest, &mut actions);
        proof {
            assert(rest@ == parser_input(t0, input@, p0));
            assert(actions@ =~= p0.parsed(rest@));
        }
        if self.profile_enabled {
            self.profile.parser_bytes = self.profile.parser_bytes.wrapping_add(rest.len() as u64);
            self.profile.actions = self.profile.actions.wrapping_add(actions.len() as u64);
        }
        self.apply_actions(actions);
        let ghost mid = self@;
        assert(pty_input_state(t0, input@, p0) == mid);
        let r = self.tick();
        r
    }

    /// One pass of the fast paths over `input`: an SGR sequence when one
    /// starts it and the fast path takes it, else text. Tells how many bytes
    /// it took and whether the text path took them.
    fn fast_path_step(&mut self, input: &[u8]) -> (r: (usize, bool))
        requires
            old(self).wf(),
            input@.len() > 0,
        ensures
            final(self).wf(),
            final(self).parser_state() == old(self).parser_state(),
            r.0 <= input@.len(),
            ({
                let sgr = input@.len() >= 2 && input@[0] == 0x1b && input@[1] == 0x5b;
                if sgr && fast_sgr_result(old(self)@.style, input@) is Some {
                    &&& final(self)@ == (TerminalState {
                        style: fast_sgr_style(old(self)@.style, input@),
                        ..old(self)@
                    })
                    &&& Some(r.0 as nat) == (match fast_sgr_result(old(self)@.style, input@) {
                        Some((_, n)) => Some(n),
                        None => None::<nat>,
                    })
                    &&& !r.1
                } else {
                    let t1 = if sgr {
                        TerminalState { style: fast_sgr_style(old(self)@.style, input@), ..old(self)@ }
                    } else {
                        old(self)@
                    };
                    &&& (final(self)@, r.0 as int) == fast_text_from(t1, input@, 0)
                    &&& r.1
                }
            }),
    {
        let len = input.len();
        if len >= 2 && input[0] == 0x1b && input[1] == 0x5b {
            if self.profile_enabled {
                self.profile.fast_sgr_calls = self.profile.fast_sgr_calls.wrapping_add(1);
            }
            match self.process_fast_sgr(input) {
                Some(n) => {
                    return (n, false);
                },
                None => {},
            }
        }
        if self.profile_enabled {
            self.profile.fast_text_calls = self.profile.fast_text_calls.wrapping_add(1);
        }
        let consumed = self.process_fast_text(input);
        (consumed, true)
    }

    /// Resizes both screens (each dimension at least one cell) and ticks.
    pub fn resize(&mut self, width: u16, height: u16) -> (r: CoreTick)
        requires
            old(self).wf(),
        ensures
            final(self).wf(),
            final(self).parser_state() == old(self).parser_state(),
            final(self)@ == tick_state(resized_state(old(self)@, width, height)),
            tick_reports(resized_state(old(self)@, width, height), r),
    {
        let ghost t = self@;
        let _ = self.grid.resize(width, height);
        let mut alternate: Option<Grid> = None;
        std::mem::swap(&mut alternate, &mut self.alternate_grid);
        match alternate {
            Some(mut grid) => {
                let _ = grid.resize(width, height);
                self.alternate_grid = Some(grid);
            },
            None => {},
        }
        assert(self@ =~= resized_state(t, width, height));
        self.tick()
    }

    /// Resizes, rewrapping the primary screen's lines to the new width; on the
    /// alternate screen it resizes as `resize` does. Then ticks.
    pub fn resize_reflow(&mut self, width: u16, height: u16) -> (r: CoreTick)
        requires
            old(self).wf(),
        ensures
            final(self).wf(),
            final(self).parser_state() == old(self).parser_state(),
            final(self)@ == tick_state(reflowed_state(old(self)@, width, height)),
            tick_reports(reflowed_state(old(self)@, width, height), r),
    {
        if self.alternate_grid.is_some() {
            return self.resize(width, height);
        }
        let ghost t = self@;
        let _ = self.grid.resize_reflow(width, height);
        assert(self@ =~= reflowed_state(t, width, height));
        self.tick()
    }

    /// Applies one code of a fast SGR sequence; `false` (and no change) for
    /// a code the fast path leaves to the parser.
    fn apply_fast_sgr_code(&mut self, code: u16) -> (ok: bool)
        requires
            old(self).wf(),
        ensures
            final(self).wf(),
            ok == (fast_code_style(old(self)@.style, code) is Some),
            final(self)@ == (match fast_code_style(old(self)@.style, code) {
                Some(style) => TerminalState { style, ..old(self)@ },
                None => old(self)@,
            }),
            final(self).profile() == old(self).profile(),
            final(self).profiling() == old(self).profiling(),
            final(self).parser_state() == old(self).parser_state(),
    {
        let ghost t = self@;
        if code == 0 {
            self.style = Style::default();
        } else if code == 1 {
            self.style.set_bold(true);
        } else if code == 3 {
            self.style.set_italic(true);
        } else if code == 4 {
            self.style.set_underline(true);
        } else if code == 22 {
            self.style.set_bold(false);
        } else if code == 23 {
            self.style.set_italic(false);
        } else if code == 24 {
            self.style.set_underline(false);
        } else if 30 <= code && code <= 37 {
            self.style.set_foreground(Color::Indexed((code - 30) as u8));
        } else if code == 39 {
            self.style.set_foreground(Color::DefaultForeground);
        } else if 40 <= code && code <= 47 {
            self.style.set_background(Color::Indexed((code - 40) as u8));
        } else if code == 49 {
            self.style.set_background(Color::DefaultBackground);
        } else if 90 <= code && code <= 97 {
            self.style.set_foreground(Color::Indexed((code - 90 + 8) as u8));
        } else if 100 <= code && code <= 107 {
            self.style.set_background(Color::Indexed((code - 100 + 8) as u8));
        } else {
            return false;
        }
        assert(self@ =~= TerminalState { style: fast_code_style(t.style, code)->0, ..t });
        true
    }

    /// The fast path for an SGR sequence at the start of `input` (which
    /// starts with `ESC [`): the bytes it took, or `None` when the parser
    /// must handle the sequence. Codes before one it cannot handle stay
    /// applied; the parser applies them again.
    fn process_fast_sgr(&mut self, input: &[u8]) -> (r: Option<usize>)
        requires
            old(self).wf(),
            input@.len() >= 2,
            input@[0] == 0x1b,
            input@[1] == 0x5b,
        ensures
            final(self).wf(),
            final(self)@ == (TerminalState { style: fast_sgr_style(old(self)@.style, input@), ..old(self)@ }),
            r == (match fast_sgr_result(old(self)@.style, input@) {
                Some((_, n)) => Some(n as usize),
                None => None::<usize>,
            }),
            r matches Some(n) ==> 3 <= n <= input@.len(),
            r is Some ==> fast_sgr_result(old(self)@.style, input@) == Some(
                (final(self)@.style, r->0 as nat),
            ),
            final(self).profile() == old(self).profile(),
            final(self).profiling() == old(self).profiling(),
            final(self).parser_state() == old(self).parser_state(),
    {
        let ghost t = self@;
        let len = input.len();
        let m = find_m(input);
        if m >= len {
            return None;
        }
        let p = slice_subrange(input, 2, m);
        let ghost pv = p@;
        assert(pv =~= input@.subrange(2, m as int));
        let plen = p.len();
        let mut k: usize = 0;
        while k < plen
            invariant
                self.wf(),
                self@ == t,
                self.profile() == old(self).profile(),
                self.profiling() == old(self).profiling(),
                self.parser_state() == old(self).parser_state(),
                2 <= m < len,
                len == input@.len(),
                first_m(input@, 2) == Some(m as int),
                pv == input@.subrange(2, m as int),
                k <= plen,
                plen == pv.len(),
                pv == p@,
                forall|q: int| 0 <= q < k ==> is_digit(#[trigger] pv[q]) || pv[q] == 0x3b,
            decreases plen - k,
        {
            let b = p[k];
            if !(0x30 <= b && b <= 0x39) && b != 0x3b {
                assert(!is_digit(pv[k as int]) && pv[k as int] != 0x3b);
                assert(self@ =~= TerminalState { style: fast_sgr_style(t.style, input@), ..t });
                return None;
            }
            k = k + 1;
        }
        if plen == 0 {
            self.style = Style::default();
            assert(self@ =~= TerminalState { style: fast_sgr_style(t.style, input@), ..t });
            return Some(3);
        }
        let mut i: usize = 0;
        loop
            invariant
                self.wf(),
                i <= plen,
                plen == pv.len(),
                pv == p@,
                plen > 0,
                2 <= m < len,
                len == input@.len(),
                first_m(input@, 2) == Some(m as int),
                pv == input@.subrange(2, m as int),
                forall|q: int| 0 <= q < plen ==> is_digit(#[trigger] pv[q]) || pv[q] == 0x3b,
                t == old(self)@,
                fast_sgr_codes(self@.style, pv, i as int) == fast_sgr_codes(t.style, pv, 0),
                fast_sgr_partial(self@.style, pv, i as int) == fast_sgr_partial(t.style, pv, 0),
                self@ == (TerminalState { style: self@.style, ..t }),
                self.profile() == old(self).profile(),
                self.profiling() == old(self).profiling(),
                self.parser_state() == old(self).parser_state(),
            decreases plen - i,
        {
            let j = find_semicolon(p, i);
            proof {
                lemma_segment_end(pv, i as int);
            }
            let code = parse_sgr_code(p, i, j);
            match code {
                None => {
                    assert(self@ =~= TerminalState { style: fast_sgr_style(t.style, input@), ..t });
                    return None;
                },
                Some(c) => {
                    if !self.apply_fast_sgr_code(c) {
                        assert(self@ =~= TerminalState { style: fast_sgr_style(t.style, input@), ..t });
                        return None;
                    }
                },
            }
            if j >= plen {
                assert(self@ =~= TerminalState { style: fast_sgr_style(t.style, input@), ..t });
                return Some(m + 1);
            }
            i = j + 1;
        }
    }

    /// The fast path for text and simple controls at the start of `input`:
    /// how many bytes it took.
    fn process_fast_text(&mut self, input: &[u8]) -> (consumed: usize)
        requires
            old(self).wf(),
        ensures
            final(self).wf(),
            (final(self)@, consumed as int) == fast_text_from(old(self)@, input@, 0),
            consumed <= input@.len(),
            final(self).profile() == old(self).profile(),
            final(self).profiling() == old(self).profiling(),
            final(self).parser_state() == old(self).parser_state(),
    {
        let len = input.len();
        let mut index: usize = 0;
        while index < len
            invariant
                self.wf(),
                index <= len,
                len == input@.len(),
                fast_text_from(self@, input@, index as int) == fast_text_from(old(self)@, input@, 0),
                self.profile() == old(self).profile(),
                self.profiling() == old(self).profiling(),
                self.parser_state() == old(self).parser_state(),
            decreases len - index,
        {
            proof {
                lemma_fast_text_step(self@, input@, index as int);
            }
            match self.fast_text_step(input, index) {
                Some(next) => {
                    index = next;
                },
                None => {
                    return index;
                },
            }
        }
        index
    }

    /// One step of the fast text path at `input[index]`.
    #[verifier::rlimit(60)]
    #[verifier::spinoff_prover]
    fn fast_text_step(&mut self, input: &[u8], index: usize) -> (r: Option<usize>)
        requires
            old(self).wf(),
            index < input@.len(),
        ensures
            final(self).wf(),
            match fast_text_step(old(self)@, input@, index as int) {
                Some((t2, j)) => r == Some(j as usize) && final(self)@ == t2 && index < j <= input@.len(),
                None => r is None && final(self)@ == old(self)@,
            },
            final(self).profile() == old(self).profile(),
            final(self).profiling() == old(self).profiling(),
            final(self).parser_state() == old(self).parser_state(),
    {
        proof {
            reveal(fast_text_step);
            lemma_byte_run_end(input@, index as int);
        }
        let ghost t = self@;
        let len = input.len();
        let b = input[index];
        let style = self.style;
        if 0x20 <= b && b <= 0x7e {
            let end = printable_end(input, index);
            let run = slice_subrange(input, index, end);
            self.last_printed = input[end - 1] as char;
            if len - end > 1 && input[end] == 0x0d && input[end + 1] == 0x0a {
                if self.grid.put_ascii_run_crlf(run, style) {
                    return Some(end + 2);
                }
            }
            self.grid.put_ascii_run(run, style);
            return Some(end);
        }
        match decode_utf8_char(input, index) {
            Some((ch, n)) => {
                if !is_control(ch) {
                    let _ = self.grid.put_char(ch, style);
                    self.last_printed = ch;
                    return Some(index + n);
                }
            },
            None => {},
        }
        if b == 0x0d && len - index > 1 && input[index + 1] == 0x0a {
            self.grid.carriage_return_line_feed();
            Some(index + 2)
        } else if b == 0x0a || b == 0x0b || b == 0x0c {
            let _ = self.grid.put_char('\n', style);
            Some(index + 1)
        } else if b == 0x0d {
            let y = self.grid.cursor().y;
            let _ = self.grid.move_cursor(0, y);
            Some(index + 1)
        } else if b == 0x09 {
            self.grid.put_tab(style);
            Some(index + 1)
        } else if b == 0x08 {
            let cursor = self.grid.cursor();
            if cursor.x > 0 {
                let _ = self.grid.move_cursor(cursor.x - 1, cursor.y);
            }
            Some(index + 1)
        } else {
            None
        }
    }
}

/// The index of the first `m` from index 2 on, or the length.
fn find_m(input: &[u8]) -> (m: usize)
    requires
        input@.len() >= 2,
    ensures
        2 <= m <= input@.len(),
        m < input@.len() ==> first_m(input@, 2) == Some(m as int),
        m == input@.len() ==> first_m(input@, 2) is None,
{
    let len = input.len();
    let mut m: usize = 2;
    while m < len && input[m] != 0x6d
        invariant
            2 <= m <= len,
            len == input@.len(),
            first_m(input@, 2) == first_m(input@, m as int),
        decreases len - m,
    {
        m = m + 1;
    }
    m
}

/// The index of the first `;` at or after `i`, or the length.
fn find_semicolon(p: &[u8], i: usize) -> (j: usize)
    requires
        i <= p@.len(),
    ensures
        j as int == segment_end(p@, i as int),
        i <= j <= p@.len(),
{
    let len = p.len();
    let mut j = i;
    while j < len && p[j] != 0x3b
        invariant
            i <= j <= len,
            len == p@.len(),
            segment_end(p@, i as int) == segment_end(p@, j as int),
        decreases len - j,
    {
        j = j + 1;
    }
    j
}

/// The decimal value of the digits `p[i..j]`, or `None` past `u16::MAX`.
fn parse_sgr_code(p: &[u8], i: usize, j: usize) -> (r: Option<u16>)
    requires
        i <= j <= p@.len(),
        forall|q: int| i <= q < j ==> is_digit(#[trigger] p@[q]),
    ensures
        r == segment_value(p@, i as int, j as int),
{
    let mut value: u16 = 0;
    let mut k = i;
    while k < j
        invariant
            i <= k <= j,
            j <= p@.len(),
            forall|q: int| i <= q < j ==> is_digit(#[trigger] p@[q]),
            segment_value(p@, i as int, k as int) == Some(value),
        decreases j - k,
    {
        let digit = p[k] - 0x30;
        assert(is_digit(p@[k as int]));
        match value.checked_mul(10) {
            None => {
                proof {
                    lemma_segment_none(p@, i as int, k as int + 1, j as int);
                }
                return None;
            },
            Some(tens) => match tens.checked_add(digit as u16) {
                None => {
                    proof {
                        lemma_segment_none(p@, i as int, k as int + 1, j as int);
                    }
                    return None;
                },
                Some(next) => {
                    value = next;
                },
            },
        }
        k = k + 1;
    }
    Some(value)
}

proof fn lemma_segment_none(p: Seq<u8>, i: int, k: int, j: int)
    requires
        i < k <= j,
        segment_value(p, i, k) is None,
    ensures
        segment_value(p, i, j) is None,
    decreases j - k,
{
    if k < j {
        lemma_segment_none(p, i, k + 1, j);
    }
}

/// The end of the run of printable ASCII bytes that starts at `i`.
fn printable_end(input: &[u8], i: usize) -> (end: usize)
    requires
        i < input@.len(),
        is_printable_byte(input@[i as int]),
    ensures
        end as int == byte_run_end(input@, i as int),
        i < end <= input@.len(),
{
    let len = input.len();
    let mut end = i;
    while end < len && 0x20 <= input[end] && input[end] <= 0x7e
        invariant
            i <= end <= len,
            len == input@.len(),
            byte_run_end(input@, i as int) == byte_run_end(input@, end as int),
            end == i ==> is_printable_byte(input@[i as int]),
        decreases len - end,
    {
        end = end + 1;
    }
    end
}

/// Whether `c` is a control character (Unicode category Cc).
fn is_control(c: char) -> (r: bool)
    ensures
        r == is_control_spec(c),
{
    let v = c as u32;
    v <= 0x1f || (0x7f <= v && v <= 0x9f)
}

/// `char::from_u32`: the character with scalar value `v`, or `None` when
/// `v` is a surrogate or beyond `0x10FFFF`, as std documents.
#[verifier::external_body]
fn char_from_u32(v: u32) -> (r: Option<char>)
    ensures
        r == (if v <= 0x10ffff && !(0xd800 <= v <= 0xdfff) {
            Some(v as char)
        } else {
            None::<char>
        }),
{
    char::from_u32(v)
}

/// The character that the UTF-8 sequence at `input[index]` encodes, and its
/// length.
fn decode_utf8_char(input: &[u8], index: usize) -> (r: Option<(char, usize)>)
    requires
        index < input@.len(),
    ensures
        r == (match spec_decode_utf8(input@, index as int) {
            Some((c, n)) => Some((c, n as usize)),
            None => None::<(char, usize)>,
        }),
{
    let len = input.len();
    let b0 = input[index];
    let rest = len - index;
    let v: u32;
    let n: usize;
    if 0xc2 <= b0 && b0 <= 0xdf && rest > 1 && 0x80 <= input[index + 1] && input[index + 1] <= 0xbf {
        v = (b0 as u32 - 0xc0) * 64 + (input[index + 1] as u32 - 0x80);
        n = 2;
    } else if 0xe0 <= b0 && b0 <= 0xef && rest > 2 && 0x80 <= input[index + 1] && input[index + 1]
        <= 0xbf && 0x80 <= input[index + 2] && input[index + 2] <= 0xbf && (b0 != 0xe0 || input[index
        + 1] >= 0xa0) && (b0 != 0xed || input[index + 1] <= 0x9f) {
        v = (b0 as u32 - 0xe0) * 4096 + (input[index + 1] as u32 - 0x80) * 64 + (input[index + 2] as u32
            - 0x80);
        n = 3;
    } else if 0xf0 <= b0 && b0 <= 0xf4 && rest > 3 && 0x80 <= input[index + 1] && input[index + 1]
        <= 0xbf && 0x80 <= input[index + 2] && input[index + 2] <= 0xbf && 0x80 <= input[index + 3]
        && input[index + 3] <= 0xbf && (b0 != 0xf0 || input[index + 1] >= 0x90) && (b0 != 0xf4
        || input[index + 1] <= 0x8f) {
        v = (b0 as u32 - 0xf0) * 262144 + (input[index + 1] as u32 - 0x80) * 4096 + (input[index
            + 2] as u32 - 0x80) * 64 + (input[index + 3] as u32 - 0x80);
        n = 4;
    } else {
        return None;
    }
    match char_from_u32(v) {
        Some(c) => Some((c, n)),
        None => None,
    }
}

/// Whether an action only changes the grid.
fn is_grid_action_exec(action: &ParserAction) -> (r: bool)
    ensures
        r == is_grid_action(action@),
{
    is_cursor_action_exec(action) || is_edit_action_exec(action)
}

fn is_cursor_action_exec(action: &ParserAction) -> (r: bool)
    ensures
        r == is_cursor_action(action@),
{
    match action {
        ParserAction::NextLine | ParserAction::CarriageReturn | ParserAction::Backspace
        | ParserAction::ReverseIndex | ParserAction::SetScrollRegion { .. }
        | ParserAction::MoveCursor { .. } | ParserAction::MoveCursorRelative { .. }
        | ParserAction::SetCursorShape(_) => true,
        _ => false,
    }
}

fn is_edit_action_exec(action: &ParserAction) -> (r: bool)
    ensures
        r == is_edit_action(action@),
{
    match action {
        ParserAction::Tab | ParserAction::LineFeed | ParserAction::ScreenAlignment
        | ParserAction::ClearScreen(_) | ParserAction::ClearLine(_) | ParserAction::EraseChars(_)
        | ParserAction::DeleteChars(_) | ParserAction::InsertBlankChars(_)
        | ParserAction::DeleteLines(_) | ParserAction::InsertBlankLines(_)
        | ParserAction::ScrollUp(_) | ParserAction::ScrollDown(_) => true,
        _ => false,
    }
}

fn is_print_action_exec(action: &ParserAction) -> (r: bool)
    ensures
        r == is_print_action(action@),
{
    match action {
        ParserAction::Print(_) | ParserAction::PrintAscii(_) | ParserAction::PrintText(_)
        | ParserAction::Repeat(_) => true,
        _ => false,
    }
}

/// Applies an action that only moves the cursor or changes cursor settings.
fn apply_cursor_action(grid: &mut Grid, action: ParserAction)
    requires
        old(grid).wf(),
        is_cursor_action(action@),
    ensures
        final(grid).wf(),
        final(grid)@.width == old(grid)@.width,
        final(grid)@.height == old(grid)@.height,
        final(grid)@ == cursor_action_state(old(grid)@, action@),
{
    match action {
        ParserAction::NextLine => grid.carriage_return_line_feed(),
        ParserAction::CarriageReturn => {
            let y = grid.cursor().y;
            let _ = grid.move_cursor(0, y);
        },
        ParserAction::Backspace => {
            let cursor = grid.cursor();
            if cursor.x > 0 {
                let _ = grid.move_cursor(cursor.x - 1, cursor.y);
            }
        },
        ParserAction::ReverseIndex => grid.reverse_index(),
        ParserAction::SetScrollRegion { top, bottom } => grid.set_scroll_region(top, bottom),
        ParserAction::MoveCursor { x, y } => {
            let cursor = grid.cursor();
            let x = if x == u16::MAX {
                cursor.x
            } else {
                x
            };
            let y = if y == u16::MAX {
                cursor.y
            } else {
                y
            };
            let _ = grid.move_cursor(x, y);
        },
        ParserAction::MoveCursorRelative { dx, dy } => {
            let _ = grid.move_cursor_relative(dx, dy);
        },
        ParserAction::SetCursorShape(shape) => grid.set_cursor_shape(shape),
        _ => {},
    }
}

/// Applies an action that erases or shifts cells.
#[verifier::rlimit(60)]
#[verifier::spinoff_prover]
fn apply_edit_action(grid: &mut Grid, style: Style, action: ParserAction)
    requires
        old(grid).wf(),
        old(grid)@.width > 0,
        old(grid)@.height > 0,
        is_edit_action(action@),
    ensures
        final(grid).wf(),
        final(grid)@.width == old(grid)@.width,
        final(grid)@.height == old(grid)@.height,
        final(grid)@ == edit_action_state(old(grid)@, style, action@),
{
    match action {
        ParserAction::Tab => grid.put_tab(style),
        ParserAction::LineFeed => {
            let _ = grid.put_char('\n', style);
        },
        ParserAction::ScreenAlignment => grid.screen_alignment(style),
        ParserAction::ClearScreen(mode) => grid.clear_screen(mode),
        ParserAction::ClearLine(mode) => grid.clear_line(mode),
        ParserAction::EraseChars(count) => grid.erase_chars(count),
        ParserAction::DeleteChars(count) => grid.delete_chars(count),
        ParserAction::InsertBlankChars(count) => grid.insert_blank_chars(count),
        ParserAction::DeleteLines(count) => grid.delete_lines(count),
        ParserAction::InsertBlankLines(count) => grid.insert_blank_lines(count),
        ParserAction::ScrollUp(count) => grid.scroll_up(count),
        ParserAction::ScrollDown(count) => grid.scroll_down(count),
        _ => {},
    }
}

/// `items` in reverse order.
fn reversed<T>(items: Vec<T>) -> (r: Vec<T>)
    ensures
        r@.len() == items@.len(),
        forall|k: int| 0 <= k < items@.len() ==> #[trigger] r@[k] == items@[items@.len() - 1 - k],
{
    let mut source = items;
    let mut out: Vec<T> = Vec::new();
    let ghost n = items@.len();
    while source.len() > 0
        invariant
            source@.len() + out@.len() == n,
            source@ == items@.subrange(0, source@.len() as int),
            n == items@.len(),
            forall|k: int| 0 <= k < out@.len() ==> #[trigger] out@[k] == items@[n - 1 - k],
        decreases source@.len(),
    {
        let item = source.pop().unwrap();
        out.push(item);
        assert(source@ =~= items@.subrange(0, source@.len() as int));
    }
    out
}

/// The characters of `text`, in order.
pub fn collect_chars(text: &str) -> (r: Vec<char>)
    ensures
        r@ == text@,
{
    let mut out: Vec<char> = Vec::new();
    for c in it: text.chars()
        invariant
            out@.len() == it.index(),
            forall|i: int| 0 <= i < it.index() ==> out@[i] == it.seq()[i],
    {
        out.push(c);
    }
    proof {
        broadcast use vstd::string::axiom_spec_iter;
        assert(out@ =~= text@);
    }
    out
}

fn is_printable_char(c: char) -> (r: bool)
    ensures
        r == is_printable_ascii_char(c),
{
    let v = c as u32;
    0x20 <= v && v <= 0x7e
}

proof fn lemma_run_end_step(chars: Seq<char>, start: int, index: int)
    requires
        0 <= start <= index < chars.len(),
        index <= printable_run_end(chars, start),
        is_printable_ascii_char(chars[index]),
        forall|k: int| start <= k < index ==> is_printable_ascii_char(#[trigger] chars[k]),
    ensures
        index + 1 <= printable_run_end(chars, start),
    decreases index - start,
{
    if start < index {
        lemma_run_end_step(chars, start + 1, index);
    } else {
        lemma_printable_run_end(chars, index + 1);
    }
}

proof fn lemma_run_end_exit(chars: Seq<char>, start: int, index: int)
    requires
        0 <= start <= index <= chars.len(),
        index <= printable_run_end(chars, start),
        index == chars.len() || !is_printable_ascii_char(chars[index]),
    ensures
        index == printable_run_end(chars, start),
{
    lemma_printable_run_end(chars, start);
}

/// Appends the decimal digits of `n` to `out`.
pub fn push_decimal(out: &mut Vec<u8>, n: u16)
    ensures
        final(out)@ == old(out)@ + decimal(n as nat),
    decreases n,
{
    if n >= 10 {
        push_decimal(out, n / 10);
    }
    out.push(0x30 + (n % 10) as u8);
    proof {
        if n >= 10 {
            assert(decimal(n as nat) == decimal((n / 10) as nat).push((0x30 + n % 10) as u8));
        }
    }
    assert(out@ =~= old(out)@ + decimal(n as nat));
}


/// How the cursor actions move the cursor: a carriage return goes to
/// column 0 of the same row, a backspace one column left (not past column
/// 0), a relative move by `(dx, dy)` that many columns right and rows down
/// (left and up for negative values) and an absolute move to the given
/// column and row (a coordinate given as `u16::MAX` stays), always kept on
/// the screen; none of them changes a cell. Restoring right after saving
/// puts the cursor back where it was.
#[verifier::spinoff_prover]
pub proof fn lemma_cursor_actions(t: TerminalState, x: u16, y: u16, dx: i16, dy: i16)
    requires
        terminal_wf(t),
    ensures
        ({
            let g = t.grid;
            let w = g.width as int;
            let h = g.height as int;
            let cx = g.cursor.x as int;
            let cy = g.cursor.y as int;
            let cr = apply_action_state(t, ActionView::CarriageReturn).grid;
            let bs = apply_action_state(t, ActionView::Backspace).grid;
            let rel = apply_action_state(t, ActionView::MoveCursorRelative { dx, dy }).grid;
            let abs = apply_action_state(t, ActionView::MoveCursor { x, y }).grid;
            &&& cr.cursor.x == 0 && cr.cursor.y == cy && cr.rows == g.rows
            &&& bs.cursor.x == (if cx > 0 {
                cx - 1
            } else {
                0
            }) && bs.cursor.y == cy && bs.rows == g.rows
            &&& rel.cursor.x == clamp_int(cx + dx, w - 1) && rel.cursor.y == clamp_int(cy + dy, h - 1)
            &&& rel.rows == g.rows
            &&& abs.cursor.x == (if x == u16::MAX {
                cx
            } else {
                clamp_int(x as int, w - 1)
            })
            &&& abs.cursor.y == (if y == u16::MAX {
                cy
            } else {
                clamp_int(y as int, h - 1)
            })
            &&& abs.rows == g.rows
            &&& apply_action_state(
                apply_action_state(t, ActionView::SaveCursor),
                ActionView::RestoreCursor,
            ).grid.cursor == g.cursor
        }),
{
    let g = t.grid;
    lemma_apply_cursor_action_grid(t, ActionView::CarriageReturn);
    lemma_apply_cursor_action_grid(t, ActionView::Backspace);
    lemma_apply_cursor_action_grid(t, ActionView::MoveCursorRelative { dx, dy });
    lemma_apply_cursor_action_grid(t, ActionView::MoveCursor { x, y });
    lemma_apply_save_restore(t);
    let mx = if x == u16::MAX {
        g.cursor.x
    } else {
        x
    };
    let my = if y == u16::MAX {
        g.cursor.y
    } else {
        y
    };
    crate::grid::lemma_cursor_on_grid(g);
    crate::grid::lemma_cursor_moves(g, x, y, dx, dy);
    crate::grid::lemma_cursor_moves(g, 0, g.cursor.y, dx, dy);
    if g.cursor.x > 0 {
        crate::grid::lemma_cursor_moves(g, (g.cursor.x - 1) as u16, g.cursor.y, dx, dy);
    }
    crate::grid::lemma_cursor_moves(g, mx, my, dx, dy);
    crate::grid::lemma_cursor_moves(g, g.cursor.x, g.cursor.y, dx, dy);
}

/// A cursor action changes only the grid, as `cursor_action_state` says.
proof fn lemma_apply_cursor_action_grid(t: TerminalState, a: ActionView)
    requires
        is_cursor_action(a),
    ensures
        apply_action_state(t, a) == with_grid(t, cursor_action_state(t.grid, a)),
{
    reveal(apply_action_state);
}

/// Saving the cursor records it; restoring moves the cursor to it.
proof fn lemma_apply_save_restore(t: TerminalState)
    ensures
        apply_action_state(t, ActionView::SaveCursor) == (TerminalState {
            saved_cursor: Some(t.grid.cursor),
            ..t
        }),
        apply_action_state(apply_action_state(t, ActionView::SaveCursor), ActionView::RestoreCursor)
            == with_grid(
            apply_action_state(t, ActionView::SaveCursor),
            move_cursor_state(t.grid, t.grid.cursor.x, t.grid.cursor.y),
        ),
{
    reveal(apply_action_state);
}


/// What each SGR update does to the style: a colour update sets that
/// colour and keeps the other colour and the attributes; an attribute
/// update turns that attribute on or off and keeps the colours and the
/// other two attributes.
pub proof fn lemma_style_updates(s: Style, c: Color, on: bool)
    ensures
        style_update(s, StyleUpdate::Foreground(c)).fg() == c,
        style_update(s, StyleUpdate::Foreground(c)).bg() == s.bg(),
        style_update(s, StyleUpdate::Foreground(c)).bits() == s.bits(),
        style_update(s, StyleUpdate::Background(c)).bg() == c,
        style_update(s, StyleUpdate::Background(c)).fg() == s.fg(),
        style_update(s, StyleUpdate::Background(c)).bits() == s.bits(),
        ({
            let b = style_update(s, StyleUpdate::Bold(on));
            let i = style_update(s, StyleUpdate::Italic(on));
            let u = style_update(s, StyleUpdate::Underline(on));
            &&& b.has_flag(STYLE_BOLD) == on && i.has_flag(STYLE_ITALIC) == on && u.has_flag(
                STYLE_UNDERLINE,
            ) == on
            &&& b.has_flag(STYLE_ITALIC) == s.has_flag(STYLE_ITALIC)
            &&& b.has_flag(STYLE_UNDERLINE) == s.has_flag(STYLE_UNDERLINE)
            &&& i.has_flag(STYLE_BOLD) == s.has_flag(STYLE_BOLD)
            &&& i.has_flag(STYLE_UNDERLINE) == s.has_flag(STYLE_UNDERLINE)
            &&& u.has_flag(STYLE_BOLD) == s.has_flag(STYLE_BOLD)
            &&& u.has_flag(STYLE_ITALIC) == s.has_flag(STYLE_ITALIC)
            &&& b.fg() == s.fg() && b.bg() == s.bg()
            &&& i.fg() == s.fg() && i.bg() == s.bg()
            &&& u.fg() == s.fg() && u.bg() == s.bg()
        }),
{
    broadcast use crate::grid::group_style_parts;
    let x = s.bits();
    assert(((x | 1u8) & 1u8 != 0) && ((x & !1u8) & 1u8 == 0) && ((x | 1u8) & 2u8 == x & 2u8) && ((
    x & !1u8) & 2u8 == x & 2u8) && ((x | 1u8) & 4u8 == x & 4u8) && ((x & !1u8) & 4u8 == x & 4u8))
        by (bit_vector);
    assert(((x | 2u8) & 2u8 != 0) && ((x & !2u8) & 2u8 == 0) && ((x | 2u8) & 1u8 == x & 1u8) && ((
    x & !2u8) & 1u8 == x & 1u8) && ((x | 2u8) & 4u8 == x & 4u8) && ((x & !2u8) & 4u8 == x & 4u8))
        by (bit_vector);
    assert(((x | 4u8) & 4u8 != 0) && ((x & !4u8) & 4u8 == 0) && ((x | 4u8) & 1u8 == x & 1u8) && ((
    x & !4u8) & 1u8 == x & 1u8) && ((x | 4u8) & 2u8 == x & 2u8) && ((x & !4u8) & 2u8 == x & 2u8))
        by (bit_vector);
}

} // verus!
