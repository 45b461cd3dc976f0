//! Rendering of a format-agnostic document model to Markdown.
//!
//! The model (paragraphs, runs, tables, slides) is handed over by whatever parsed
//! the source file. The renderer computes merged-cell layouts, keeps the inline
//! markers minimal across runs, normalizes list markers, and writes the same
//! text whether it works on one thread or on several.

pub mod common;
pub mod document;
pub mod error;
pub mod markdown;
pub mod parallel;
pub mod presentation;
pub mod text;
