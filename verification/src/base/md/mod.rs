//! Markdown rendering.

pub mod table;
