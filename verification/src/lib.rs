//! Marqi: the logic of a live-preview terminal Markdown editor.

pub mod action;
pub mod app;
pub mod block_cache;
pub mod block_index;
pub mod buffer;
pub mod bytes;
pub mod cells;
pub mod cli;
pub mod clipboard;
pub mod color;
pub mod config;
pub mod cursor;
pub mod diagnostics;
pub mod editor;
pub mod edits;
pub mod fence;
pub mod format_laws;
pub mod formatting;
pub mod fuzzy;
pub mod history;
pub mod laws;
pub mod layout;
pub mod line_index;
pub mod line_input;
pub mod list_marker;
pub mod live;
pub mod markdown;
pub mod matches;
pub mod navigation;
pub mod outline;
pub mod pattern;
pub mod render;
pub mod rope;
pub mod row_cache;
pub mod search;
pub mod session;
pub mod smart_edit;
pub mod strings;
pub mod style;
pub mod table;
pub mod teardown;
pub mod text;
pub mod ui;
