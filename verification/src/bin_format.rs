//! The binary format on its own.
use crate::error::LibraryError;
use crate::format::{bin_bytes, bin_result, list_result};
use crate::model::{views, Transaction};
use vstd::prelude::*;

verus! {

/// Reads transactions from the binary format.
pub fn read_bin(input: &[u8]) -> (r: Result<Vec<Transaction>, LibraryError>)
    ensures
        list_result(r) == bin_result(input@),
{
    crate::format::read_bin(input)
}

/// Writes transactions in the binary format.
pub fn write_bin(transactions: &[Transaction]) -> (r: Vec<u8>)
    ensures
        r@ == bin_bytes(views(transactions@)),
{
    crate::format::write_bin(transactions)
}

} // verus!
