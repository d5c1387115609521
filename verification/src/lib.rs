//! The core of a terminal emulator: a character grid with damage tracking,
//! the decisions of an escape-sequence parser and the terminal state machine
//! that applies them, plus the pure pieces of the renderer and its plugins.
pub mod damage;
pub mod event;
pub mod grid;
pub mod identity;
pub mod parser;
pub mod row;
pub mod width;
pub mod terminal;
pub mod plugins_api;
pub mod plugins_host;
pub mod theme;
pub mod glyphs;
pub mod metrics;
pub mod paint;
pub mod reflow;
pub mod renderer;
pub mod input;
pub mod selection;
pub mod render_damage;
pub mod terminal_app;
pub mod interaction;
pub mod frame_schedule;
pub mod fonts;
pub mod clipboard;
pub mod plugin_sdk;
pub mod pty_batch;
