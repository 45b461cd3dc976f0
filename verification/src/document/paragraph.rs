//! Paragraphs.

use vstd::prelude::*;
use crate::common::MathPayload;
use crate::document::run::Run;
use crate::error::Error;

verus! {

/// A paragraph: its plain text, its runs, and the formulas that stand directly in it.
#[derive(Debug, Clone, PartialEq, Eq)]
pub struct Paragraph {
    pub text: Result<String, Error>,
    pub runs: Result<Vec<Run>, Error>,
    /// Display formulas: children of the paragraph itself, not of one of its runs.
    pub display_formulas: Result<Vec<MathPayload>, Error>,
}

} // verus!
