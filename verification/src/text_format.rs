//! Text-format reading and writing in which lines are taken as they are
//! (no lower-casing before the fields are read).
use crate::error::LibraryError;
use crate::format::{list_result, plain_text, read_text_records, text_result};
use crate::model::{views, Transaction};
use vstd::prelude::*;
use vstd::utf8::encode_utf8;

verus! {

/// Reads transactions from the text format; lines are read as they are.
pub fn read_text(input: &[u8]) -> (r: Result<Vec<Transaction>, LibraryError>)
    ensures
        list_result(r) == text_result(input@, false),
{
    read_text_records(input, false)
}

/// Writes transactions in the text format: one line per record.
pub fn write_text(transactions: &[Transaction]) -> (r: Vec<u8>)
    ensures
        r@ == encode_utf8(plain_text(views(transactions@))),
{
    crate::format::write_text(transactions)
}

} // verus!
