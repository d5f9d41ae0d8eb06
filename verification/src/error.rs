//! Crate-wide error type.

use crate::text::joined;
use vstd::prelude::*;

verus! {

/// Why an operation failed.
#[derive(Debug)]
pub enum Error {
    InvalidArgument(String),
    NotFound(String),
    Parse(String),
    Msg(String),
}

/// What an [`Error`] stands for.
pub enum ErrorView {
    InvalidArgument(Seq<char>),
    NotFound(Seq<char>),
    Parse(Seq<char>),
    Msg(Seq<char>),
}

impl View for Error {
    type V = ErrorView;

    open spec fn view(&self) -> ErrorView {
        match self {
            Error::InvalidArgument(m) => ErrorView::InvalidArgument(m@),
            Error::NotFound(m) => ErrorView::NotFound(m@),
            Error::Parse(m) => ErrorView::Parse(m@),
            Error::Msg(m) => ErrorView::Msg(m@),
        }
    }
}

/// The text shown for an error.
pub open spec fn error_text(e: ErrorView) -> Seq<char> {
    match e {
        ErrorView::InvalidArgument(m) => "invalid argument: "@ + m,
        ErrorView::NotFound(m) => "not found: "@ + m,
        ErrorView::Parse(m) => "parse error: "@ + m,
        ErrorView::Msg(m) => m,
    }
}

/// What a result stands for.
pub open spec fn outcome<T: View>(r: Result<T, Error>) -> Result<T::V, ErrorView> {
    match r {
        Ok(t) => Ok(t@),
        Err(e) => Err(e@),
    }
}

impl Error {
    pub fn invalid_argument(msg: &str) -> (e: Self)
        ensures
            e@ == ErrorView::InvalidArgument(msg@),
    {
        Self::InvalidArgument(msg.to_owned())
    }

    pub fn not_found(msg: &str) -> (e: Self)
        ensures
            e@ == ErrorView::NotFound(msg@),
    {
        Self::NotFound(msg.to_owned())
    }

    pub fn parse(msg: &str) -> (e: Self)
        ensures
            e@ == ErrorView::Parse(msg@),
    {
        Self::Parse(msg.to_owned())
    }

    pub fn msg(msg: &str) -> (e: Self)
        ensures
            e@ == ErrorView::Msg(msg@),
    {
        Self::Msg(msg.to_owned())
    }

    /// Writes the error for a reader.
    pub fn to_text(&self) -> (s: String)
        ensures
            s@ == error_text(self@),
    {
        match self {
            Error::InvalidArgument(m) => joined("invalid argument: ", m.as_str()),
            Error::NotFound(m) => joined("not found: ", m.as_str()),
            Error::Parse(m) => joined("parse error: ", m.as_str()),
            Error::Msg(m) => m.clone(),
        }
    }
}

} // verus!
