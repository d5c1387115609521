//! The window's decisions on user input: what a key or a mouse event does to
//! the view's scroll position and selection, and what it asks of the window
//! (copy, paste, zoom, quit, a redraw, bytes or a mouse report for the child
//! process).
use vstd::prelude::*;

use crate::event::KeyModifiers;
use crate::input::{
    active_mouse_button, character_key_bytes, encode_window_key, is_shortcut, mouse_button_code,
    named_key_bytes, shortcut_key, spec_zoom_key_action, zoom_key_action, LogicalKey, MouseButton,
    NamedKey, ZoomAction,
};
use crate::parser::MouseTracking;
use crate::selection::Selection;
use crate::terminal::{collect_chars, MouseState};

verus! {

/// How far back the view is scrolled into the scrollback, the selection,
/// the mouse buttons held (bit `n` for button `n`) and the cell under the
/// mouse.
#[derive(Debug, Clone, Copy, PartialEq, Eq)]
pub struct ViewState {
    pub scroll_offset: usize,
    pub selection: Option<Selection>,
    pub mouse_buttons: u8,
    pub mouse_position: Option<(u16, u16)>,
}

/// What a key asks of the window.
#[derive(Debug, Clone, PartialEq, Eq)]
pub enum KeyOutcome {
    /// Nothing to do.
    Nothing,
    /// Copy the selection to the clipboard.
    CopySelection,
    /// Paste the clipboard into the child process.
    PasteClipboard,
    Zoom(ZoomAction),
    Quit,
    /// The view scrolled: draw it again.
    Redraw,
    /// Send `bytes` to the child process; `snapped` when the view jumped
    /// back from the scrollback to the screen.
    Send { bytes: Vec<u8>, snapped: bool },
}

/// What a mouse event asks of the window.
#[derive(Debug, Clone, Copy, PartialEq, Eq)]
pub enum MouseOutcome {
    Nothing,
    /// The selection changed: draw it again.
    Redraw,
    /// Report button `code` at `cell` to the child process.
    Report { code: u8, cell: (u16, u16), release: bool },
}

/// The offset a view at `offset` reaches when scrolled `delta` rows back
/// (forward when negative), between the screen and the oldest history row.
pub open spec fn scrolled_offset(offset: nat, delta: int, history_len: nat) -> nat {
    let moved = offset + delta;
    if moved < 0 {
        0
    } else if moved > history_len {
        history_len
    } else {
        moved as nat
    }
}

/// The view after scrolling it `delta` rows over `history_len` rows of
/// history: the alternate screen does not scroll; a scroll that moves the
/// view drops the selection.
pub open spec fn scrolled_view(v: ViewState, delta: int, history_len: nat, alternate: bool) -> ViewState {
    let next = scrolled_offset(v.scroll_offset as nat, delta, history_len);
    if alternate || next == v.scroll_offset {
        v
    } else {
        ViewState { scroll_offset: next as usize, selection: None, ..v }
    }
}

/// The rows a page scroll moves in a window `rows` rows tall.
pub open spec fn page_lines(rows: u16) -> int {
    if rows >= 2 {
        rows - 1
    } else {
        1
    }
}

/// What a key sends to the child process.
pub open spec fn window_key_bytes(key: LogicalKey, m: KeyModifiers) -> Option<Seq<u8>> {
    match key {
        LogicalKey::Character(text) => character_key_bytes(text@, m),
        LogicalKey::Named(named) => named_key_bytes(named, m),
        LogicalKey::Unidentified => None,
    }
}

/// Whether `key` is Control-Q.
pub open spec fn is_quit_key(key: LogicalKey, m: KeyModifiers) -> bool {
    &&& m.ctrl
    &&& key matches LogicalKey::Character(text) && text@ == seq!['q']
}

/// The bit of mouse button `code` (0, 1 or 2).
pub open spec fn button_bit(code: u8) -> u8 {
    if code == 0 {
        1
    } else if code == 1 {
        2
    } else {
        4
    }
}

/// Scrolling keeps the view within the history, and a scroll that stays
/// within it is undone by the opposite scroll.
pub proof fn lemma_scroll_within_history(offset: nat, delta: int, history_len: nat)
    ensures
        scrolled_offset(offset, delta, history_len) <= history_len,
        offset <= history_len && 0 <= offset + delta <= history_len ==> scrolled_offset(
            scrolled_offset(offset, delta, history_len),
            -delta,
            history_len,
        ) == offset,
{
}

impl ViewState {
    /// The view of the screen, with no selection, no button held and no
    /// cell under the mouse.
    pub fn new() -> (r: Self)
        ensures
            r == (ViewState { scroll_offset: 0, selection: None, mouse_buttons: 0, mouse_position: None }),
    {
        ViewState { scroll_offset: 0, selection: None, mouse_buttons: 0, mouse_position: None }
    }

    /// Scrolls the view `delta` rows back (forward when negative) over
    /// `history_len` rows of history; tells whether it moved.
    pub fn scroll_view(&mut self, delta: isize, history_len: usize, alternate: bool) -> (moved: bool)
        ensures
            *final(self) == scrolled_view(*old(self), delta as int, history_len as nat, alternate),
            moved == (*final(self) != *old(self)),
    {
        if alternate {
            return false;
        }
        let moved: i128 = self.scroll_offset as i128 + delta as i128;
        let next: usize = if moved < 0 {
            0
        } else if moved > history_len as i128 {
            history_len
        } else {
            moved as usize
        };
        if next == self.scroll_offset {
            return false;
        }
        self.scroll_offset = next;
        self.selection = None;
        true
    }

    /// Keeps the view valid after output: the alternate screen shows no
    /// scrollback, and a view scrolled further back than the history reaches
    /// moves to its oldest row. Tells whether the view moved.
    pub fn after_output(&mut self, alternate: bool, history_len: usize) -> (moved: bool)
        ensures
            ({
                let o = old(self).scroll_offset;
                let live = if alternate {
                    0
                } else {
                    o
                };
                let next = if live > history_len {
                    history_len
                } else {
                    live
                };
                &&& *final(self) == (ViewState { scroll_offset: next, ..*old(self) })
                &&& moved == (next != o)
            }),
    {
        let before = self.scroll_offset;
        if alternate && self.scroll_offset != 0 {
            self.scroll_offset = 0;
        }
        if self.scroll_offset > history_len {
            self.scroll_offset = history_len;
        }
        self.scroll_offset != before
    }

    /// Brings the view back to the screen, dropping the selection; tells
    /// whether it was scrolled back.
    pub fn snap_to_live(&mut self) -> (snapped: bool)
        ensures
            snapped == (old(self).scroll_offset != 0),
            *final(self) == (if snapped {
                ViewState { scroll_offset: 0, selection: None, ..*old(self) }
            } else {
                *old(self)
            }),
    {
        if self.scroll_offset == 0 {
            return false;
        }
        self.scroll_offset = 0;
        self.selection = None;
        true
    }

    /// What a key press does: Control-Shift-C copies, Control-Shift-V
    /// pastes, the zoom keys zoom, Control-Q quits, Shift-PageUp and
    /// Shift-PageDown scroll the view a page in a window `rows` rows tall;
    /// any other key that sends bytes drops the selection, brings the view
    /// back to the screen and sends them.
    pub fn handle_key(
        &mut self,
        key: &LogicalKey,
        m: KeyModifiers,
        rows: u16,
        history_len: usize,
        alternate: bool,
    ) -> (r: KeyOutcome)
        ensures
            if is_shortcut(*key, m, 'c') {
                r == KeyOutcome::CopySelection && *final(self) == *old(self)
            } else if is_shortcut(*key, m, 'v') {
                r == KeyOutcome::PasteClipboard && *final(self) == *old(self)
            } else if spec_zoom_key_action(*key, m) is Some {
                r == KeyOutcome::Zoom(spec_zoom_key_action(*key, m)->0) && *final(self) == *old(self)
            } else if is_quit_key(*key, m) {
                r == KeyOutcome::Quit && *final(self) == *old(self)
            } else if m.shift && (*key == LogicalKey::Named(NamedKey::PageUp) || *key
                == LogicalKey::Named(NamedKey::PageDown)) {
                let delta = if *key == LogicalKey::Named(NamedKey::PageUp) {
                    page_lines(rows)
                } else {
                    -page_lines(rows)
                };
                &&& *final(self) == scrolled_view(*old(self), delta, history_len as nat, alternate)
                &&& r == (if *final(self) != *old(self) {
                    KeyOutcome::Redraw
                } else {
                    KeyOutcome::Nothing
                })
            } else {
                match window_key_bytes(*key, m) {
                    None => r == KeyOutcome::Nothing && *final(self) == *old(self),
                    Some(bytes) => {
                        &&& r matches KeyOutcome::Send { bytes: sent, snapped } && sent@ == bytes
                            && snapped == (old(self).scroll_offset != 0)
                        &&& *final(self) == (ViewState { scroll_offset: 0, selection: None, ..*old(self) })
                    },
                }
            },
    {
        if shortcut_key(key, m, 'c') {
            return KeyOutcome::CopySelection;
        }
        if shortcut_key(key, m, 'v') {
            return KeyOutcome::PasteClipboard;
        }
        match zoom_key_action(key, m) {
            Some(z) => {
                return KeyOutcome::Zoom(z);
            },
            None => {},
        }
        if m.ctrl {
            match key {
                LogicalKey::Character(text) => {
                    let chars = collect_chars(text.as_str());
                    if chars.len() == 1 && chars[0] == 'q' {
                        proof {
                            assert(text@ =~= seq!['q']);
                        }
                        return KeyOutcome::Quit;
                    }
                    proof {
                        if text@ == seq!['q'] {
                            assert(chars@[0] == 'q');
                        }
                    }
                },
                _ => {},
            }
        }
        if m.shift {
            let page: isize = if rows >= 2 {
                (rows - 1) as isize
            } else {
                1
            };
            match key {
                LogicalKey::Named(NamedKey::PageUp) => {
                    let moved = self.scroll_view(page, history_len, alternate);
                    return if moved {
                        KeyOutcome::Redraw
                    } else {
                        KeyOutcome::Nothing
                    };
                },
                LogicalKey::Named(NamedKey::PageDown) => {
                    let moved = self.scroll_view(-page, history_len, alternate);
                    return if moved {
                        KeyOutcome::Redraw
                    } else {
                        KeyOutcome::Nothing
                    };
                },
                _ => {},
            }
        }
        match encode_window_key(key, m) {
            None => KeyOutcome::Nothing,
            Some(bytes) => {
                self.selection = None;
                let snapped = self.snap_to_live();
                KeyOutcome::Send { bytes, snapped }
            },
        }
    }

    /// What pressing (or releasing) a mouse button does over the cell under
    /// the mouse: the left button selects while Shift is held or the child
    /// does not track the mouse; otherwise a tracking child gets a report
    /// (release code 3 for a release).
    pub fn handle_mouse_input(&mut self, pressed: bool, button: MouseButton, m: KeyModifiers, mouse: MouseState) -> (r:
        MouseOutcome)
        ensures
            match (old(self).mouse_position, button) {
                (None, _) => r == MouseOutcome::Nothing && *final(self) == *old(self),
                (_, MouseButton::Other) => r == MouseOutcome::Nothing && *final(self) == *old(self),
                (Some(cell), _) => {
                    let code: u8 = match button {
                        MouseButton::Left => 0,
                        MouseButton::Middle => 1,
                        _ => 2,
                    };
                    let buttons = if pressed {
                        old(self).mouse_buttons | button_bit(code)
                    } else {
                        old(self).mouse_buttons & !button_bit(code)
                    };
                    if button == MouseButton::Left && (m.shift || mouse.tracking == MouseTracking::Disabled) {
                        &&& r == MouseOutcome::Redraw
                        &&& *final(self) == (ViewState {
                            mouse_buttons: buttons,
                            selection: if pressed {
                                Some(Selection { anchor: cell, focus: cell, dragging: true })
                            } else {
                                match old(self).selection {
                                    Some(s) => Some(Selection { dragging: false, ..s }),
                                    None => None,
                                }
                            },
                            ..*old(self)
                        })
                    } else {
                        &&& *final(self) == (ViewState { mouse_buttons: buttons, ..*old(self) })
                        &&& r == (if mouse.tracking == MouseTracking::Disabled {
                            MouseOutcome::Nothing
                        } else {
                            MouseOutcome::Report {
                                code: if pressed {
                                    code
                                } else {
                                    3
                                },
                                cell,
                                release: !pressed,
                            }
                        })
                    }
                },
            },
    {
        let cell = match self.mouse_position {
            Some(cell) => cell,
            None => {
                return MouseOutcome::Nothing;
            },
        };
        let code = match mouse_button_code(button) {
            Some(code) => code,
            None => {
                return MouseOutcome::Nothing;
            },
        };
        let bit: u8 = if code == 0 {
            1
        } else if code == 1 {
            2
        } else {
            4
        };
        if pressed {
            self.mouse_buttons = self.mouse_buttons | bit;
        } else {
            self.mouse_buttons = self.mouse_buttons & !bit;
        }
        if button == MouseButton::Left && (m.shift || mouse.tracking == MouseTracking::Disabled) {
            if pressed {
                self.selection = Some(Selection::start(cell));
            } else {
                match self.selection {
                    Some(s) => {
                        let mut s = s;
                        s.finish();
                        self.selection = Some(s);
                    },
                    None => {},
                }
            }
            return MouseOutcome::Redraw;
        }
        if mouse.tracking == MouseTracking::Disabled {
            return MouseOutcome::Nothing;
        }
        MouseOutcome::Report {
            code: if pressed {
                code
            } else {
                3
            },
            cell,
            release: !pressed,
        }
    }

    /// What moving the mouse to `cell` (none outside the grid) does: a
    /// selection being dragged follows it; otherwise a child that tracks all
    /// motion, or drags while a button is held, gets a motion report.
    pub fn handle_mouse_move(&mut self, cell: Option<(u16, u16)>, mouse: MouseState) -> (r: MouseOutcome)
        ensures
            match cell {
                None => r == MouseOutcome::Nothing && *final(self) == (ViewState {
                    mouse_position: None,
                    ..*old(self)
                }),
                Some(c) => if old(self).mouse_position == Some(c) {
                    r == MouseOutcome::Nothing && *final(self) == *old(self)
                } else {
                    match old(self).selection {
                        Some(s) if s.dragging => {
                            &&& *final(self) == (ViewState {
                                mouse_position: Some(c),
                                selection: Some(Selection { focus: c, ..s }),
                                ..*old(self)
                            })
                            &&& r == (if s.focus != c {
                                MouseOutcome::Redraw
                            } else {
                                MouseOutcome::Nothing
                            })
                        },
                        _ => {
                            &&& *final(self) == (ViewState { mouse_position: Some(c), ..*old(self) })
                            &&& r == (if mouse.tracking == MouseTracking::Any {
                                MouseOutcome::Report { code: 35, cell: c, release: false }
                            } else if mouse.tracking == MouseTracking::Drag && old(self).mouse_buttons != 0 {
                                MouseOutcome::Report {
                                    code: (32 + (if old(self).mouse_buttons & 1 != 0 {
                                        0u8
                                    } else if old(self).mouse_buttons & 2 != 0 {
                                        1u8
                                    } else if old(self).mouse_buttons & 4 != 0 {
                                        2u8
                                    } else {
                                        3u8
                                    })) as u8,
                                    cell: c,
                                    release: false,
                                }
                            } else {
                                MouseOutcome::Nothing
                            })
                        },
                    }
                },
            },
    {
        let c = match cell {
            Some(c) => c,
            None => {
                self.mouse_position = None;
                return MouseOutcome::Nothing;
            },
        };
        match self.mouse_position {
            Some(p) => {
                if p.0 == c.0 && p.1 == c.1 {
                    return MouseOutcome::Nothing;
                }
            },
            None => {},
        }
        self.mouse_position = Some(c);
        match self.selection {
            Some(s) => {
                if s.is_dragging() {
                    let mut s = s;
                    let moved = s.update(c);
                    self.selection = Some(s);
                    return if moved {
                        MouseOutcome::Redraw
                    } else {
                        MouseOutcome::Nothing
                    };
                }
            },
            None => {},
        }
        if mouse.tracking == MouseTracking::Any {
            MouseOutcome::Report { code: 35, cell: c, release: false }
        } else if mouse.tracking == MouseTracking::Drag && self.mouse_buttons != 0 {
            let button = active_mouse_button(self.mouse_buttons);
            MouseOutcome::Report { code: button + 32, cell: c, release: false }
        } else {
            MouseOutcome::Nothing
        }
    }
}

} // verus!
