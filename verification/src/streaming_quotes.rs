//! The message logic of a quote-streaming service: ticker lists, client
//! commands, quote lines and the decisions of a client session.

pub mod errors;
pub mod laws;
pub mod protocol;
pub mod quote;
pub mod tickers;
