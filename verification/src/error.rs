//! Failures that a render can surface.

use vstd::prelude::*;
use vstd::string::*;

verus! {

/// What went wrong while a document was read or written.
#[derive(Debug, PartialEq, Eq)]
pub enum Error {
    /// The source could not be parsed into the requested text or property.
    ParseError(String),
    /// Any other failure, described by its message.
    Other(String),
}

/// The kind of an [`Error`], without its message.
#[derive(Debug, Clone, Copy, PartialEq, Eq, Structural)]
pub enum ErrorKind {
    Parse,
    Other,
}

/// An [`Error`] as a mathematical value: its kind and the characters of its message.
pub struct ErrorView {
    pub kind: ErrorKind,
    pub message: Seq<char>,
}

impl View for Error {
    type V = ErrorView;

    open spec fn view(&self) -> ErrorView {
        match *self {
            Error::ParseError(m) => ErrorView { kind: ErrorKind::Parse, message: m@ },
            Error::Other(m) => ErrorView { kind: ErrorKind::Other, message: m@ },
        }
    }
}

impl Clone for Error {
    fn clone(&self) -> (r: Self)
        ensures
            r == *self,
    {
        match self {
            Error::ParseError(m) => Error::ParseError(m.clone()),
            Error::Other(m) => Error::Other(m.clone()),
        }
    }
}

impl Error {
    /// The kind of this error.
    pub fn kind(&self) -> (k: ErrorKind)
        ensures
            k == self@.kind,
    {
        match self {
            Error::ParseError(_) => ErrorKind::Parse,
            Error::Other(_) => ErrorKind::Other,
        }
    }

    /// The message that this error carries.
    pub fn message(&self) -> (m: String)
        ensures
            m@ == self@.message,
    {
        match self {
            Error::ParseError(m) => m.clone(),
            Error::Other(m) => m.clone(),
        }
    }
}

/// `Result::clone` of std: the copy is made by the `clone` of whichever side is held.
/// Nothing is claimed of the result.
pub assume_specification<T: Clone, E: Clone>[ <Result<T, E> as Clone>::clone ](
    r: &Result<T, E>,
) -> Result<T, E>
;

/// The view of a result whose error is an [`Error`]: the value as it is, the error by its view.
pub open spec fn outcome<T>(r: Result<T, Error>) -> Result<T, ErrorView> {
    match r {
        Ok(v) => Ok(v),
        Err(e) => Err(e@),
    }
}

/// The view of a result that holds a text or an [`Error`].
pub open spec fn text_outcome(r: Result<String, Error>) -> Result<Seq<char>, ErrorView> {
    match r {
        Ok(s) => Ok(s@),
        Err(e) => Err(e@),
    }
}

} // verus!
