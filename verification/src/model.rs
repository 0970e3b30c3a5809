//! Transactions and the differences between two lists of them.
use crate::decimal::{nat_text, usize_to_string};
use vstd::prelude::*;

verus! {

/// Whether money came in or went out.
#[derive(Debug, Clone, Copy, PartialEq, Eq, Structural)]
pub enum TransactionKind {
    Income,
    Expense,
}

/// The name under which a kind is written.
pub open spec fn kind_text(k: TransactionKind) -> Seq<char> {
    match k {
        TransactionKind::Income => "income"@,
        TransactionKind::Expense => "expense"@,
    }
}

impl TransactionKind {
    /// The name under which this kind is written: `income` or `expense`.
    pub fn as_str(&self) -> (s: &'static str)
        ensures
            s@ == kind_text(*self),
    {
        match self {
            TransactionKind::Income => "income",
            TransactionKind::Expense => "expense",
        }
    }
}

/// One financial transaction.
#[derive(Debug, Clone, PartialEq)]
pub struct Transaction {
    pub date: String,
    pub category: String,
    pub kind: TransactionKind,
    pub amount: i64,
}

/// The abstract value of a [`Transaction`].
#[verifier::ext_equal]
pub struct TransactionView {
    pub date: Seq<char>,
    pub category: Seq<char>,
    pub kind: TransactionKind,
    pub amount: i64,
}

impl View for Transaction {
    type V = TransactionView;

    open spec fn view(&self) -> TransactionView {
        TransactionView {
            date: self.date@,
            category: self.category@,
            kind: self.kind,
            amount: self.amount,
        }
    }
}

/// The abstract values of a list of transactions.
pub open spec fn views(ts: Seq<Transaction>) -> Seq<TransactionView> {
    ts.map_values(|t: Transaction| t@)
}

impl Transaction {
    /// A transaction with the given fields.
    pub fn new(date: &str, category: &str, kind: TransactionKind, amount: i64) -> (t: Self)
        ensures
            t@ == (TransactionView { date: date@, category: category@, kind, amount }),
    {
        Transaction { date: date.to_owned(), category: category.to_owned(), kind, amount }
    }
}

/// The first way in which two lists of transactions differ.
#[derive(Debug, Clone, PartialEq, Eq)]
pub enum TransactionDifference {
    /// The lists agree on every common position but have different lengths.
    LengthMismatch { left_len: usize, right_len: usize },
    /// At `position` (counted from 1) the field named `field` differs; `left`
    /// and `right` are its two values as text.
    FieldMismatch { position: usize, field: &'static str, left: String, right: String },
}

/// The name under which the difference type was first published.
pub type TransactionDiffernce = TransactionDifference;

/// The abstract value of a [`TransactionDifference`].
pub enum DifferenceView {
    Length { left_len: nat, right_len: nat },
    Field { position: nat, field: Seq<char>, left: Seq<char>, right: Seq<char> },
}

impl View for TransactionDifference {
    type V = DifferenceView;

    open spec fn view(&self) -> DifferenceView {
        match self {
            TransactionDifference::LengthMismatch { left_len, right_len } => DifferenceView::Length {
                left_len: *left_len as nat,
                right_len: *right_len as nat,
            },
            TransactionDifference::FieldMismatch { position, field, left, right } =>
                DifferenceView::Field {
                position: *position as nat,
                field: field@,
                left: left@,
                right: right@,
            },
        }
    }
}

/// The text that a difference displays.
pub open spec fn difference_message(d: DifferenceView) -> Seq<char> {
    match d {
        DifferenceView::Length { left_len, right_len } => "Different number of transactions: "@
            + nat_text(left_len) + " != "@ + nat_text(right_len),
        DifferenceView::Field { position, field, left, right } => "Transactions differ at position "@
            + nat_text(position) + ": "@ + field + ": "@ + left + " != "@ + right,
    }
}

impl TransactionDifference {
    /// The text that this difference displays.
    pub fn to_message(&self) -> (s: String)
        ensures
            s@ == difference_message(self@),
    {
        match self {
            TransactionDifference::LengthMismatch { left_len, right_len } => {
                let mut s = "Different number of transactions: ".to_owned();
                s.append(usize_to_string(*left_len).as_str());
                s.append(" != ");
                s.append(usize_to_string(*right_len).as_str());
                s
            },
            TransactionDifference::FieldMismatch { position, field, left, right } => {
                let mut s = "Transactions differ at position ".to_owned();
                s.append(usize_to_string(*position).as_str());
                s.append(": ");
                s.append(field);
                s.append(": ");
                s.append(left.as_str());
                s.append(" != ");
                s.append(right.as_str());
                s
            },
        }
    }
}

} // verus!
