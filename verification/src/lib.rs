//! Reading, writing, converting and comparing lists of financial
//! transactions in three formats (CSV, text, binary), and the message
//! logic of a small quote-streaming service.

pub mod bin_format;
pub mod csv_format;
pub mod decimal;
pub mod error;
pub mod format;
pub mod laws;
pub mod model;
pub mod streaming_quotes;
pub mod text;
pub mod text_format;

pub use error::LibraryError;
pub use format::Format;
pub use model::{Transaction, TransactionDifference, TransactionDiffernce, TransactionKind};

use crate::decimal::{i64_to_string, int_text};
use crate::error::LibraryErrorView;
use crate::format::{
    bin_bytes, bin_result, csv_result, csv_text, list_result, plain_text, read_bin, read_csv,
    read_text, text_result, write_bin, write_csv, write_text,
};
use crate::model::{kind_text, views, DifferenceView, TransactionView};
use vstd::prelude::*;
use vstd::utf8::encode_utf8;

verus! {

/// What reading `input` in `format` gives.
pub open spec fn read_result(input: Seq<u8>, format: Format) -> Result<
    Seq<TransactionView>,
    LibraryErrorView,
> {
    match format {
        Format::Csv => csv_result(input, true),
        Format::Text => text_result(input, true),
        Format::Bin => bin_result(input),
    }
}

/// The bytes that writing `ts` in `format` gives.
pub open spec fn written_bytes(ts: Seq<TransactionView>, format: Format) -> Seq<u8> {
    match format {
        Format::Csv => encode_utf8(csv_text(ts)),
        Format::Text => encode_utf8(plain_text(ts)),
        Format::Bin => bin_bytes(ts),
    }
}

/// Reads transactions in the given format.
pub fn read_transactions(input: &[u8], format: Format) -> (r: Result<Vec<Transaction>, LibraryError>)
    ensures
        list_result(r) == read_result(input@, format),
{
    match format {
        Format::Csv => read_csv(input),
        Format::Text => read_text(input),
        Format::Bin => read_bin(input),
    }
}

/// Writes transactions in the given format.
pub fn write_transactions(format: Format, transactions: &[Transaction]) -> (r: Vec<u8>)
    ensures
        r@ == written_bytes(views(transactions@), format),
{
    match format {
        Format::Csv => write_csv(transactions),
        Format::Text => write_text(transactions),
        Format::Bin => write_bin(transactions),
    }
}

/// Reads `input` in one format and writes the transactions in another;
/// on a read error nothing is written and the error is returned.
pub fn convert(input: &[u8], input_format: Format, output_format: Format) -> (r: Result<
    Vec<u8>,
    LibraryError,
>)
    ensures
        match read_result(input@, input_format) {
            Ok(ts) => r matches Ok(out) && out@ == written_bytes(ts, output_format),
            Err(e) => r matches Err(err) && err@ == e,
        },
{
    let transactions = match read_transactions(input, input_format) {
        Ok(ts) => ts,
        Err(e) => return Err(e),
    };
    Ok(write_transactions(output_format, transactions.as_slice()))
}

/// The first field in which two transactions differ, at `position`.
pub open spec fn field_difference(a: TransactionView, b: TransactionView, position: nat) -> Option<
    DifferenceView,
> {
    if a.date != b.date {
        Some(DifferenceView::Field { position, field: "date"@, left: a.date, right: b.date })
    } else if a.category != b.category {
        Some(
            DifferenceView::Field {
                position,
                field: "category"@,
                left: a.category,
                right: b.category,
            },
        )
    } else if a.kind != b.kind {
        Some(
            DifferenceView::Field {
                position,
                field: "kind"@,
                left: kind_text(a.kind),
                right: kind_text(b.kind),
            },
        )
    } else if a.amount != b.amount {
        Some(
            DifferenceView::Field {
                position,
                field: "amount"@,
                left: int_text(a.amount as int),
                right: int_text(b.amount as int),
            },
        )
    } else {
        None
    }
}

/// The first difference between `left` and `right` from index `i` on:
/// the first position (counted from 1) with a differing field, or else a
/// length mismatch, or else none.
pub open spec fn first_difference(left: Seq<TransactionView>, right: Seq<TransactionView>, i: int) -> Option<
    DifferenceView,
>
    decreases left.len() - i,
{
    if i < 0 || i >= left.len() || i >= right.len() {
        if left.len() != right.len() {
            Some(DifferenceView::Length { left_len: left.len(), right_len: right.len() })
        } else {
            None
        }
    } else {
        match field_difference(left[i], right[i], (i + 1) as nat) {
            Some(d) => Some(d),
            None => first_difference(left, right, i + 1),
        }
    }
}

/// The abstract value of an optional difference.
pub open spec fn difference_view(d: Option<TransactionDifference>) -> Option<DifferenceView> {
    match d {
        Some(x) => Some(x@),
        None => None,
    }
}

/// Compares two lists of transactions and returns their first difference,
/// if any.
pub fn compare_transactions(left: &[Transaction], right: &[Transaction]) -> (r: Option<
    TransactionDifference,
>)
    ensures
        difference_view(r) == first_difference(views(left@), views(right@), 0),
{
    let ghost l = views(left@);
    let ghost rt = views(right@);
    let min_len = if left.len() < right.len() {
        left.len()
    } else {
        right.len()
    };
    let mut index: usize = 0;
    while index < min_len
        invariant
            min_len <= left@.len(),
            min_len <= right@.len(),
            min_len == left@.len() || min_len == right@.len(),
            index <= min_len,
            l == views(left@),
            rt == views(right@),
            first_difference(l, rt, 0) == first_difference(l, rt, index as int),
        decreases min_len - index,
    {
        let position = index + 1;
        let a = &left[index];
        let b = &right[index];
        assert(l[index as int] == a@);
        assert(rt[index as int] == b@);
        if a.date != b.date {
            return Some(
                TransactionDifference::FieldMismatch {
                    position,
                    field: "date",
                    left: a.date.clone(),
                    right: b.date.clone(),
                },
            );
        }
        if a.category != b.category {
            return Some(
                TransactionDifference::FieldMismatch {
                    position,
                    field: "category",
                    left: a.category.clone(),
                    right: b.category.clone(),
                },
            );
        }
        if a.kind != b.kind {
            return Some(
                TransactionDifference::FieldMismatch {
                    position,
                    field: "kind",
                    left: a.kind.as_str().to_owned(),
                    right: b.kind.as_str().to_owned(),
                },
            );
        }
        if a.amount != b.amount {
            return Some(
                TransactionDifference::FieldMismatch {
                    position,
                    field: "amount",
                    left: i64_to_string(a.amount),
                    right: i64_to_string(b.amount),
                },
            );
        }
        index = index + 1;
    }
    if left.len() != right.len() {
        return Some(
            TransactionDifference::LengthMismatch { left_len: left.len(), right_len: right.len() },
        );
    }
    None
}

} // verus!
