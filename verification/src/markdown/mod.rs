//! Conversion of the document model to Markdown.

pub mod cells;
pub mod config;
pub mod document;
pub mod escape;
pub mod format;
pub mod formula;
pub mod list;
pub mod presentation;
pub mod rectangles;
pub mod rendered;
pub mod spans;
pub mod table;
pub mod traits;
pub mod unicode;
pub mod writer;
