use crate::money::{amount_text, format_amount};
use crate::numerals::{append_numeral, numeral};
use crate::user::{Amount, UserName};
use vstd::prelude::*;
use vstd::string::StringExecFns;

verus! {

/// Why a transaction, or an operation on a ledger, was refused.
#[derive(Debug, PartialEq, Eq)]
pub enum TransactionError {
    /// Every benefit is an explicit sum, and together they fall short of
    /// what was contributed: nobody is left to absorb the difference.
    InsufficientBenefits { specified: Amount, spent: Amount },
    /// The explicit sums alone exceed what was contributed.
    ExcessBenefits { specified: Amount, spent: Amount },
    /// The transaction involves a user who has no balance on the ledger.
    UnknownUser(UserName),
    /// No transaction on the ledger carries this id.
    UnknownTransactionId(usize),
    /// A total, a share, a balance or the id counter would leave the range
    /// that the ledger can represent.
    Overflow,
}

/// The mathematical content of a [`TransactionError`]: names as sequences
/// of characters, numbers as integers.
pub enum Failure {
    InsufficientBenefits { specified: int, spent: int },
    ExcessBenefits { specified: int, spent: int },
    UnknownUser(Seq<char>),
    UnknownTransactionId(int),
    Overflow,
}

impl View for TransactionError {
    type V = Failure;

    open spec fn view(&self) -> Failure {
        match *self {
            TransactionError::InsufficientBenefits { specified, spent } => {
                Failure::InsufficientBenefits { specified: specified as int, spent: spent as int }
            },
            TransactionError::ExcessBenefits { specified, spent } => {
                Failure::ExcessBenefits { specified: specified as int, spent: spent as int }
            },
            TransactionError::UnknownUser(name) => Failure::UnknownUser(name@),
            TransactionError::UnknownTransactionId(id) => Failure::UnknownTransactionId(id as int),
            TransactionError::Overflow => Failure::Overflow,
        }
    }
}

/// A failure in words.
pub open spec fn failure_text(failure: Failure) -> Seq<char> {
    match failure {
        Failure::InsufficientBenefits { specified, spent } => "too few benefits specified: "@
            + amount_text(specified) + " out of "@ + amount_text(spent) + " spent"@,
        Failure::ExcessBenefits { specified, spent } => "too many benefits specified: "@
            + amount_text(specified) + " out of "@ + amount_text(spent) + " spent"@,
        Failure::UnknownUser(name) => "no such user: "@ + name,
        Failure::UnknownTransactionId(id) => "no such transaction id: "@ + numeral(id as nat, 10),
        Failure::Overflow => "amount out of range"@,
    }
}

impl TransactionError {
    /// The error in words: see `failure_text`.
    pub fn to_string(&self) -> (text: String)
        ensures
            text@ == failure_text(self@),
    {
        match self {
            TransactionError::InsufficientBenefits { specified, spent } => {
                let mut text = String::from_str("too few benefits specified: ");
                text.append(format_amount(*specified).as_str());
                text.append(" out of ");
                text.append(format_amount(*spent).as_str());
                text.append(" spent");
                text
            },
            TransactionError::ExcessBenefits { specified, spent } => {
                let mut text = String::from_str("too many benefits specified: ");
                text.append(format_amount(*specified).as_str());
                text.append(" out of ");
                text.append(format_amount(*spent).as_str());
                text.append(" spent");
                text
            },
            TransactionError::UnknownUser(name) => {
                let mut text = String::from_str("no such user: ");
                text.append(name.as_str());
                text
            },
            TransactionError::UnknownTransactionId(id) => {
                let mut text = String::from_str("no such transaction id: ");
                append_numeral(&mut text, *id as u64, 10);
                text
            },
            TransactionError::Overflow => String::from_str("amount out of range"),
        }
    }
}

} // verus!
