//! Errors of the quote-streaming service.
use vstd::prelude::*;

verus! {

/// Errors of the quote-streaming service.
#[derive(Debug)]
pub enum LibraryError {
    /// Input could not be read (its text is the I/O error's message).
    InputOutputError(String),
    ParseError(String),
    InvalidCommandError(String),
    InvalidUdpError(String),
    EmptyTickersError(String),
    UnknownTickerError(String),
    SystemTimeError(String),
}

/// The abstract value of a [`LibraryError`]: its variant and text.
pub enum ServiceErrorView {
    InputOutput(Seq<char>),
    Parse(Seq<char>),
    InvalidCommand(Seq<char>),
    InvalidUdp(Seq<char>),
    EmptyTickers(Seq<char>),
    UnknownTicker(Seq<char>),
    SystemTime(Seq<char>),
}

impl View for LibraryError {
    type V = ServiceErrorView;

    open spec fn view(&self) -> ServiceErrorView {
        match self {
            LibraryError::InputOutputError(m) => ServiceErrorView::InputOutput(m@),
            LibraryError::ParseError(m) => ServiceErrorView::Parse(m@),
            LibraryError::InvalidCommandError(m) => ServiceErrorView::InvalidCommand(m@),
            LibraryError::InvalidUdpError(m) => ServiceErrorView::InvalidUdp(m@),
            LibraryError::EmptyTickersError(m) => ServiceErrorView::EmptyTickers(m@),
            LibraryError::UnknownTickerError(m) => ServiceErrorView::UnknownTicker(m@),
            LibraryError::SystemTimeError(m) => ServiceErrorView::SystemTime(m@),
        }
    }
}

/// The text that an error displays.
pub open spec fn service_error_message(e: ServiceErrorView) -> Seq<char> {
    match e {
        ServiceErrorView::InputOutput(m) => "input/output error: "@ + m,
        ServiceErrorView::Parse(m) => "parse error: "@ + m,
        ServiceErrorView::InvalidCommand(m) => "invalid command: "@ + m,
        ServiceErrorView::InvalidUdp(m) => "invalid UDP address: "@ + m,
        ServiceErrorView::EmptyTickers(m) => "empty ticker list: "@ + m,
        ServiceErrorView::UnknownTicker(m) => "unknown ticker: "@ + m,
        ServiceErrorView::SystemTime(m) => "system time error: "@ + m,
    }
}

impl LibraryError {
    /// The text that this error displays.
    pub fn to_message(&self) -> (s: String)
        ensures
            s@ == service_error_message(self@),
    {
        let (prefix, m) = match self {
            LibraryError::InputOutputError(m) => ("input/output error: ", m),
            LibraryError::ParseError(m) => ("parse error: ", m),
            LibraryError::InvalidCommandError(m) => ("invalid command: ", m),
            LibraryError::InvalidUdpError(m) => ("invalid UDP address: ", m),
            LibraryError::EmptyTickersError(m) => ("empty ticker list: ", m),
            LibraryError::UnknownTickerError(m) => ("unknown ticker: ", m),
            LibraryError::SystemTimeError(m) => ("system time error: ", m),
        };
        let mut s = prefix.to_owned();
        s.append(m.as_str());
        s
    }
}

} // verus!
