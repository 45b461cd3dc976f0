//! The presentation model that the renderer reads.

use vstd::prelude::*;
use crate::common::Metadata;
use crate::error::Error;

verus! {

/// The text of one slide, with the number of the slide.
#[derive(Debug, Clone, PartialEq, Eq)]
pub struct SlideText {
    pub number: usize,
    pub text: String,
}

/// A slide.
#[derive(Debug, Clone, PartialEq, Eq)]
pub struct Slide {
    pub text: Result<String, Error>,
}

/// A presentation: its front matter, if it has one, and the texts of its slides
/// in the order in which they are rendered.
#[derive(Debug, Clone, PartialEq, Eq)]
pub struct Presentation {
    pub metadata: Result<Option<Metadata>, Error>,
    pub slide_texts: Result<Vec<SlideText>, Error>,
}

} // verus!
