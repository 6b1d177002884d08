//! Markdown preview: novel-specific preprocessing, rendering and punctuation markup.

pub mod parser;
pub mod properties;
pub mod renderer;
