//! Values shared by documents and presentations.

use vstd::prelude::*;

verus! {

/// Where a run stands relative to the baseline.
#[derive(Debug, Clone, Copy, PartialEq, Eq)]
pub enum VerticalPosition {
    Normal,
    Superscript,
    Subscript,
}

/// What the math converter made of the math markup attached to a run or a paragraph.
#[derive(Debug, Clone, PartialEq, Eq)]
pub enum MathPayload {
    /// The formula as LaTeX.
    Latex(String),
    /// The converter failed on the markup.
    ConversionFailed,
    /// The markup could not be read into a form that the converter takes.
    Unreadable,
    /// No converter is available.
    Unsupported,
}

/// The front matter of a document or presentation.
#[derive(Debug, Clone, PartialEq, Eq)]
pub struct Metadata {
    /// The YAML front matter, or the message of the failure to generate it.
    pub front_matter: Result<String, String>,
}

} // verus!
