//! The document model that the renderer reads: paragraphs, runs, tables.
//!
//! Every value holds what the provider of the document handed over: a text or a
//! property, or the error that the provider reported for it.

pub mod paragraph;
pub mod run;
pub mod table;

use vstd::prelude::*;
use crate::common::Metadata;
use crate::error::Error;
use paragraph::Paragraph;
use table::Table;

verus! {

/// One element of a document, in document order.
#[derive(Debug, Clone, PartialEq, Eq)]
pub enum DocumentElement {
    Paragraph(Paragraph),
    Table(Table),
}

/// A document: its front matter and its elements in the order in which they are rendered.
#[derive(Debug, Clone, PartialEq, Eq)]
pub struct Document {
    pub metadata: Result<Metadata, Error>,
    pub elements: Result<Vec<DocumentElement>, Error>,
}

} // verus!
