//! Markdown parsing, highlighting, themes and preview rendering.

pub mod ast;
pub mod flow;
pub mod grid;
pub mod highlight;
pub mod highlight_laws;
pub mod laws;
pub mod preview;
pub mod theme;
pub mod tokenizer;
