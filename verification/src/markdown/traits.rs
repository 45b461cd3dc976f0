//! The conversion that documents, presentations and their parts share.

use vstd::prelude::*;
use crate::error::{Error, ErrorView, text_outcome};
use crate::markdown::config::MarkdownOptions;

verus! {

/// Conversion to Markdown.
pub trait ToMarkdown {
    /// What the options and the value must meet for the conversion: an indent
    /// width for list levels, and tables whose rows are no wider than a `usize`
    /// can hold.
    spec fn renderable(&self, options: MarkdownOptions) -> bool;

    /// The Markdown of the value, or the first error of reading it.
    spec fn markdown(&self, options: MarkdownOptions) -> Result<Seq<char>, ErrorView>;

    /// Convert to Markdown with the given options.
    fn to_markdown_with_options(&self, options: &MarkdownOptions) -> (r: Result<String, Error>)
        requires
            self.renderable(*options),
        ensures
            text_outcome(r) == self.markdown(*options),
    ;
}

} // verus!
