//! CSV reading and writing in which record lines are taken as they are
//! (no lower-casing before the fields are read).
use crate::error::LibraryError;
use crate::format::{csv_result, csv_text, list_result, read_csv_records};
use crate::model::{views, Transaction};
use vstd::prelude::*;
use vstd::utf8::encode_utf8;

verus! {

/// Reads transactions from CSV; record lines are read as they are.
pub fn read_csv(input: &[u8]) -> (r: Result<Vec<Transaction>, LibraryError>)
    ensures
        list_result(r) == csv_result(input@, false),
{
    read_csv_records(input, false)
}

/// Writes transactions as CSV: the header line, then one line per record.
pub fn write_csv(transactions: &[Transaction]) -> (r: Vec<u8>)
    ensures
        r@ == encode_utf8(csv_text(views(transactions@))),
{
    crate::format::write_csv(transactions)
}

} // verus!
