//! Text runs.

use vstd::prelude::*;
use vstd::string::*;
use crate::common::{MathPayload, VerticalPosition};
use crate::error::{Error, ErrorKind, ErrorView, outcome, text_outcome};

verus! {

/// A run of a legacy binary document.
#[derive(Debug, Clone, PartialEq, Eq)]
pub struct DocRun {
    pub text: Result<String, Error>,
    pub bold: Option<bool>,
    pub italic: Option<bool>,
    pub strikethrough: Option<bool>,
    pub vertical_position: VerticalPosition,
    pub formula: Option<MathPayload>,
}

/// A run of a zipped XML document, whose every property is parsed on demand and may fail.
#[derive(Debug, Clone, PartialEq, Eq)]
pub struct DocxRun {
    pub text: Result<String, Error>,
    pub bold: Result<Option<bool>, Error>,
    pub italic: Result<Option<bool>, Error>,
    pub strikethrough: Result<Option<bool>, Error>,
    pub vertical_position: Result<Option<VerticalPosition>, Error>,
    pub formula: Result<Option<MathPayload>, Error>,
}

/// A run of a rich-text document.
#[derive(Debug, Clone, PartialEq, Eq)]
pub struct RtfRun {
    pub text: String,
    pub bold: Option<bool>,
    pub italic: Option<bool>,
    pub strikethrough: Option<bool>,
    pub vertical_position: Option<VerticalPosition>,
}

/// A run of an open-document text.
#[derive(Debug, Clone, PartialEq, Eq)]
pub struct OdtRun {
    /// The text, or the message of the failure to read it.
    pub text: Result<String, String>,
    pub bold: Option<bool>,
    pub italic: Option<bool>,
    pub strikethrough: Option<bool>,
    pub vertical_position: Option<VerticalPosition>,
}

/// A text run in a paragraph.
#[derive(Debug, Clone, PartialEq, Eq)]
pub enum Run {
    Doc(DocRun),
    Docx(DocxRun),
    /// A run of a page-layout document, which has a text and no formatting.
    Pages(String),
    Rtf(RtfRun),
    Odt(OdtRun),
}

/// A vertical position as a run reports it: `Normal` is the absence of one.
pub open spec fn raised_or_lowered(p: VerticalPosition) -> Option<VerticalPosition> {
    match p {
        VerticalPosition::Normal => None,
        _ => Some(p),
    }
}

/// A vertical position that may be absent, as a run reports it: `Normal` is the
/// absence of one.
pub open spec fn off_the_baseline(p: Option<VerticalPosition>) -> Option<VerticalPosition> {
    match p {
        Some(pos) => raised_or_lowered(pos),
        None => None,
    }
}

/// The vertical position as a run reports it.
fn report_position(p: Option<VerticalPosition>) -> (r: Option<VerticalPosition>)
    ensures
        r == off_the_baseline(p),
{
    match p {
        Some(VerticalPosition::Superscript) => Some(VerticalPosition::Superscript),
        Some(VerticalPosition::Subscript) => Some(VerticalPosition::Subscript),
        Some(VerticalPosition::Normal) => None,
        None => None,
    }
}

impl Run {
    /// The text of the run, or the error of reading it.
    pub open spec fn spec_text(&self) -> Result<Seq<char>, ErrorView> {
        match *self {
            Run::Doc(r) => text_outcome(r.text),
            Run::Docx(r) => text_outcome(r.text),
            Run::Pages(t) => Ok(t@),
            Run::Rtf(r) => Ok(r.text@),
            Run::Odt(r) => match r.text {
                Ok(t) => Ok(t@),
                Err(m) => Err(
                    ErrorView {
                        kind: ErrorKind::Parse,
                        message: "Failed to get run text: "@ + m@,
                    },
                ),
            },
        }
    }

    /// Whether the run is bold: unset, off or on.
    pub open spec fn spec_bold(&self) -> Result<Option<bool>, ErrorView> {
        match *self {
            Run::Doc(r) => Ok(r.bold),
            Run::Docx(r) => outcome(r.bold),
            Run::Pages(_) => Ok(None),
            Run::Rtf(r) => Ok(r.bold),
            Run::Odt(r) => Ok(r.bold),
        }
    }

    /// Whether the run is italic: unset, off or on.
    pub open spec fn spec_italic(&self) -> Result<Option<bool>, ErrorView> {
        match *self {
            Run::Doc(r) => Ok(r.italic),
            Run::Docx(r) => outcome(r.italic),
            Run::Pages(_) => Ok(None),
            Run::Rtf(r) => Ok(r.italic),
            Run::Odt(r) => Ok(r.italic),
        }
    }

    /// Whether the run is struck through: unset, off or on.
    pub open spec fn spec_strikethrough(&self) -> Result<Option<bool>, ErrorView> {
        match *self {
            Run::Doc(r) => Ok(r.strikethrough),
            Run::Docx(r) => outcome(r.strikethrough),
            Run::Pages(_) => Ok(None),
            Run::Rtf(r) => Ok(r.strikethrough),
            Run::Odt(r) => Ok(r.strikethrough),
        }
    }

    /// The vertical position of the run: superscript, subscript, or `None` where
    /// the run stands on the baseline or says nothing. It is never `Normal`.
    pub open spec fn spec_vertical_position(&self) -> Result<Option<VerticalPosition>, ErrorView> {
        match *self {
            Run::Doc(r) => Ok(raised_or_lowered(r.vertical_position)),
            Run::Docx(r) => match r.vertical_position {
                Ok(p) => Ok(off_the_baseline(p)),
                Err(e) => Err(e@),
            },
            Run::Pages(_) => Ok(None),
            Run::Rtf(r) => Ok(off_the_baseline(r.vertical_position)),
            Run::Odt(r) => Ok(off_the_baseline(r.vertical_position)),
        }
    }

    /// The math attached to the run, if any.
    pub open spec fn spec_formula(&self) -> Result<Option<MathPayload>, ErrorView> {
        match *self {
            Run::Doc(r) => Ok(r.formula),
            Run::Docx(r) => outcome(r.formula),
            _ => Ok(None),
        }
    }

    /// Get the text content of the run.
    pub fn text(&self) -> (r: Result<String, Error>)
        ensures
            text_outcome(r) == self.spec_text(),
    {
        match self {
            Run::Doc(r) => clone_text(&r.text),
            Run::Docx(r) => clone_text(&r.text),
            Run::Pages(text) => Ok(text.clone()),
            Run::Rtf(r) => Ok(r.text.clone()),
            Run::Odt(r) => match &r.text {
                Ok(t) => Ok(t.clone()),
                Err(m) => {
                    let mut message = String::from_str("Failed to get run text: ");
                    message.append(m.as_str());
                    Err(Error::ParseError(message))
                },
            },
        }
    }

    /// Check if the run is bold.
    pub fn bold(&self) -> (r: Result<Option<bool>, Error>)
        ensures
            outcome(r) == self.spec_bold(),
    {
        match self {
            Run::Doc(r) => Ok(r.bold),
            Run::Docx(r) => clone_flag(&r.bold),
            Run::Pages(_) => Ok(None),
            Run::Rtf(r) => Ok(r.bold),
            Run::Odt(r) => Ok(r.bold),
        }
    }

    /// Check if the run is italic.
    pub fn italic(&self) -> (r: Result<Option<bool>, Error>)
        ensures
            outcome(r) == self.spec_italic(),
    {
        match self {
            Run::Doc(r) => Ok(r.italic),
            Run::Docx(r) => clone_flag(&r.italic),
            Run::Pages(_) => Ok(None),
            Run::Rtf(r) => Ok(r.italic),
            Run::Odt(r) => Ok(r.italic),
        }
    }

    /// Check if the run is strikethrough.
    pub fn strikethrough(&self) -> (r: Result<Option<bool>, Error>)
        ensures
            outcome(r) == self.spec_strikethrough(),
    {
        match self {
            Run::Doc(r) => Ok(r.strikethrough),
            Run::Docx(r) => clone_flag(&r.strikethrough),
            Run::Pages(_) => Ok(None),
            Run::Rtf(r) => Ok(r.strikethrough),
            Run::Odt(r) => Ok(r.strikethrough),
        }
    }

    /// Get the vertical position of the run (superscript/subscript).
    ///
    /// Returns the vertical positioning if specified, `None` if normal.
    pub fn vertical_position(&self) -> (r: Result<Option<VerticalPosition>, Error>)
        ensures
            outcome(r) == self.spec_vertical_position(),
            r != Ok::<_, Error>(Some(VerticalPosition::Normal)),
    {
        match self {
            Run::Doc(r) => {
                let pos = match r.vertical_position {
                    VerticalPosition::Normal => None,
                    pos => Some(pos),
                };
                Ok(pos)
            },
            Run::Docx(r) => match &r.vertical_position {
                Ok(Some(VerticalPosition::Superscript)) => Ok(Some(VerticalPosition::Superscript)),
                Ok(Some(VerticalPosition::Subscript)) => Ok(Some(VerticalPosition::Subscript)),
                Ok(Some(VerticalPosition::Normal)) => Ok(None),
                Ok(None) => Ok(None),
                Err(e) => Err(e.clone()),
            },
            Run::Pages(_) => Ok(None),
            Run::Rtf(r) => Ok(report_position(r.vertical_position)),
            Run::Odt(r) => Ok(report_position(r.vertical_position)),
        }
    }

    /// Get the math attached to the run, if any.
    pub fn formula(&self) -> (r: Result<Option<&MathPayload>, Error>)
        ensures
            match r {
                Ok(Some(p)) => self.spec_formula() == Ok::<_, ErrorView>(Some(*p)),
                Ok(None) => self.spec_formula() == Ok::<_, ErrorView>(None::<MathPayload>),
                Err(e) => self.spec_formula() == Err::<Option<MathPayload>, _>(e@),
            },
    {
        match self {
            Run::Doc(r) => match &r.formula {
                Some(p) => Ok(Some(p)),
                None => Ok(None),
            },
            Run::Docx(r) => match &r.formula {
                Ok(Some(p)) => Ok(Some(p)),
                Ok(None) => Ok(None),
                Err(e) => Err(e.clone()),
            },
            _ => Ok(None),
        }
    }
}

/// A copy of a text or of the error in its place.
pub fn clone_text(t: &Result<String, Error>) -> (r: Result<String, Error>)
    ensures
        r == *t,
{
    match t {
        Ok(s) => Ok(s.clone()),
        Err(e) => Err(e.clone()),
    }
}

/// A copy of a tri-state flag or of the error in its place.
pub fn clone_flag(f: &Result<Option<bool>, Error>) -> (r: Result<Option<bool>, Error>)
    ensures
        r == *f,
{
    match f {
        Ok(v) => Ok(*v),
        Err(e) => Err(e.clone()),
    }
}

} // verus!
