//! Errors of the transaction tools.
use vstd::prelude::*;

verus! {

/// Errors of reading and converting transactions.
#[derive(Debug)]
pub enum LibraryError {
    /// The input could not be read (its text is the I/O error's message).
    InputOutputError(String),
    /// A record could not be parsed.
    ParseError(String),
    /// The data or a format name is not what the tools know.
    FormatError(String),
}

/// The abstract value of a [`LibraryError`]: its variant and message.
pub enum LibraryErrorView {
    InputOutput(Seq<char>),
    Parse(Seq<char>),
    Format(Seq<char>),
}

impl View for LibraryError {
    type V = LibraryErrorView;

    open spec fn view(&self) -> LibraryErrorView {
        match self {
            LibraryError::InputOutputError(m) => LibraryErrorView::InputOutput(m@),
            LibraryError::ParseError(m) => LibraryErrorView::Parse(m@),
            LibraryError::FormatError(m) => LibraryErrorView::Format(m@),
        }
    }
}

/// The text that a [`LibraryError`] displays.
pub open spec fn error_message(e: LibraryErrorView) -> Seq<char> {
    match e {
        LibraryErrorView::InputOutput(m) => "Invalid input: "@ + m,
        LibraryErrorView::Parse(m) => "Parse error: "@ + m,
        LibraryErrorView::Format(m) => "Format error: "@ + m,
    }
}

impl LibraryError {
    /// The text that this error displays.
    pub fn to_message(&self) -> (s: String)
        ensures
            s@ == error_message(self@),
    {
        let (prefix, m) = match self {
            LibraryError::InputOutputError(m) => ("Invalid input: ", m),
            LibraryError::ParseError(m) => ("Parse error: ", m),
            LibraryError::FormatError(m) => ("Format error: ", m),
        };
        let mut s = prefix.to_owned();
        s.append(m.as_str());
        s
    }
}

} // verus!
