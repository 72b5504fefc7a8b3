//! A ledger of shared expenses: who paid, who benefits, and what each
//! participant owes or is owed as a result.
//!
//! A [`Transaction`] records one event and says how it changes the balance
//! of each user. A [`Ledger`] holds the users, their running balances and
//! the history of transactions, and from time to time recomputes the
//! balances from the history. What the two do is stated over the
//! mathematics in `split` and `books`; `laws` holds what follows for every
//! transaction and every ledger.
//!
//! Everything here is proved but the reading of the clock in `clock`, which
//! is left to the `chrono` crate and of which nothing is claimed.

pub mod arguments;
pub mod balances;
pub mod books;
pub mod clock;
pub mod error;
pub mod hex;
pub mod json_store;
pub mod laws;
pub mod ledger;
pub mod money;
pub mod numerals;
pub mod split;
pub mod sums;
pub mod transaction;
pub mod user;

pub use crate::clock::Timestamp;
pub use crate::error::{Failure, TransactionError};
pub use crate::json_store::JsonStore;
pub use crate::ledger::Ledger;
pub use crate::transaction::{Benefit, Transaction};
pub use crate::user::{Amount, User, UserName};
