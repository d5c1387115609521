//! Events that the core reports to its observers, and their kinds.
use vstd::prelude::*;

use crate::grid::{Cell, Cursor};

verus! {

#[derive(Debug, Clone, Copy, PartialEq, Eq, Hash, Structural)]
pub enum CoreEventKind {
    KeyPress,
    CursorMoved,
    CellChanged,
    LineChanged,
    ViewportChanged,
    ModeChanged,
    SelectionChanged,
    TitleChanged,
    Bell,
}

#[derive(Debug, Clone, Copy, PartialEq, Eq, Structural)]
pub struct CursorPosition {
    pub x: u16,
    pub y: u16,
}

impl From<Cursor> for CursorPosition {
    fn from(value: Cursor) -> (r: Self) {
        CursorPosition { x: value.x, y: value.y }
    }
}

impl vstd::std_specs::convert::FromSpecImpl<Cursor> for CursorPosition {
    open spec fn obeys_from_spec() -> bool {
        true
    }

    open spec fn from_spec(value: Cursor) -> CursorPosition {
        CursorPosition { x: value.x, y: value.y }
    }
}

#[derive(Debug, Clone, Copy, Default, PartialEq, Eq, Structural)]
pub struct KeyModifiers {
    pub ctrl: bool,
    pub alt: bool,
    pub shift: bool,
    pub super_key: bool,
}

#[derive(Debug, Clone, PartialEq, Eq)]
pub struct KeyPress {
    pub logical_key: String,
    pub text: Option<String>,
    pub modifiers: KeyModifiers,
}

#[derive(Debug, Clone, PartialEq, Eq)]
pub enum CoreEvent {
    KeyPress(KeyPress),
    CursorMoved { previous: CursorPosition, current: CursorPosition },
    CellChanged { x: u16, y: u16, cell: Cell },
    LineChanged { y: u16 },
    ViewportChanged,
    ModeChanged { name: &'static str, enabled: bool },
    SelectionChanged,
    TitleChanged(String),
    Bell,
}

/// The kind of an event: its variant, without the payload.
pub open spec fn event_kind(event: CoreEvent) -> CoreEventKind {
    match event {
        CoreEvent::KeyPress(_) => CoreEventKind::KeyPress,
        CoreEvent::CursorMoved { .. } => CoreEventKind::CursorMoved,
        CoreEvent::CellChanged { .. } => CoreEventKind::CellChanged,
        CoreEvent::LineChanged { .. } => CoreEventKind::LineChanged,
        CoreEvent::ViewportChanged => CoreEventKind::ViewportChanged,
        CoreEvent::ModeChanged { .. } => CoreEventKind::ModeChanged,
        CoreEvent::SelectionChanged => CoreEventKind::SelectionChanged,
        CoreEvent::TitleChanged(_) => CoreEventKind::TitleChanged,
        CoreEvent::Bell => CoreEventKind::Bell,
    }
}

impl CoreEvent {
    pub fn kind(&self) -> (r: CoreEventKind)
        ensures
            r == event_kind(*self),
    {
        match self {
            CoreEvent::KeyPress(_) => CoreEventKind::KeyPress,
            CoreEvent::CursorMoved { .. } => CoreEventKind::CursorMoved,
            CoreEvent::CellChanged { .. } => CoreEventKind::CellChanged,
            CoreEvent::LineChanged { .. } => CoreEventKind::LineChanged,
            CoreEvent::ViewportChanged => CoreEventKind::ViewportChanged,
            CoreEvent::ModeChanged { .. } => CoreEventKind::ModeChanged,
            CoreEvent::SelectionChanged => CoreEventKind::SelectionChanged,
            CoreEvent::TitleChanged(_) => CoreEventKind::TitleChanged,
            CoreEvent::Bell => CoreEventKind::Bell,
        }
    }
}

} // verus!
