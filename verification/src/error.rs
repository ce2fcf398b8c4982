//! The ways in which reading a map fails.

use vstd::prelude::*;

verus! {

/// What the XML decoder reported when it gave up: where, and why.
#[derive(Debug, PartialEq, Eq)]
pub struct DecodeError {
    /// Line of the document, counted from nought.
    pub row: u64,
    /// Column in that line, counted from nought.
    pub column: u64,
    /// The decoder's own description.
    pub message: String,
}

/// The model of a [`DecodeError`].
pub struct DecodeErrorView {
    pub row: u64,
    pub column: u64,
    pub message: Seq<char>,
}

impl View for DecodeError {
    type V = DecodeErrorView;

    open spec fn view(&self) -> DecodeErrorView {
        DecodeErrorView { row: self.row, column: self.column, message: self.message@ }
    }
}

impl Clone for DecodeError {
    fn clone(&self) -> (r: Self)
        ensures
            r@ == self@,
    {
        DecodeError { row: self.row, column: self.column, message: self.message.clone() }
    }
}

/// Why a word of a document names no value of its kind.
#[derive(Debug, PartialEq, Eq, Clone, Copy, Structural)]
pub enum ParseTileError {
    /// The word names no colour.
    ColorError,
    /// The word names no orientation.
    OrientationError,
}

/// Why a map could not be read.
#[derive(Debug, PartialEq, Eq, Clone)]
pub enum TiledError {
    /// The document is not well-formed XML.
    XmlDecodingError(DecodeError),
    /// An element lacks an attribute it must have, or one of its values has the wrong form.
    MalformedAttributes(String),
    /// The document, or an element, ended before it was complete.
    PrematureEnd(String),
    /// Anything else.
    Other(String),
}

/// The model of a [`TiledError`].
pub enum Failure {
    XmlDecodingError(DecodeErrorView),
    MalformedAttributes(Seq<char>),
    PrematureEnd(Seq<char>),
    Other(Seq<char>),
}

impl View for TiledError {
    type V = Failure;

    open spec fn view(&self) -> Failure {
        match self {
            TiledError::XmlDecodingError(e) => Failure::XmlDecodingError(e@),
            TiledError::MalformedAttributes(m) => Failure::MalformedAttributes(m@),
            TiledError::PrematureEnd(m) => Failure::PrematureEnd(m@),
            TiledError::Other(m) => Failure::Other(m@),
        }
    }
}

impl Failure {
    /// The text that the failure carries.
    pub open spec fn message(self) -> Seq<char> {
        match self {
            Failure::XmlDecodingError(e) => e.message,
            Failure::MalformedAttributes(m) => m,
            Failure::PrematureEnd(m) => m,
            Failure::Other(m) => m,
        }
    }
}

impl TiledError {
    /// The text that the error carries: the decoder's description, or the reader's own.
    pub fn message(&self) -> (m: String)
        ensures
            m@ == self@.message(),
    {
        match self {
            TiledError::XmlDecodingError(e) => e.message.clone(),
            TiledError::MalformedAttributes(m) => m.clone(),
            TiledError::PrematureEnd(m) => m.clone(),
            TiledError::Other(m) => m.clone(),
        }
    }

    /// A [`TiledError::MalformedAttributes`] that says `message`.
    pub fn malformed(message: &str) -> (e: TiledError)
        ensures
            e@ == Failure::MalformedAttributes(message@),
    {
        TiledError::MalformedAttributes(message.to_owned())
    }

    /// A [`TiledError::PrematureEnd`] that says `message`.
    pub fn premature(message: &str) -> (e: TiledError)
        ensures
            e@ == Failure::PrematureEnd(message@),
    {
        TiledError::PrematureEnd(message.to_owned())
    }

    /// A [`TiledError::Other`] that says `message`.
    pub fn other(message: &str) -> (e: TiledError)
        ensures
            e@ == Failure::Other(message@),
    {
        TiledError::Other(message.to_owned())
    }
}

} // verus!
