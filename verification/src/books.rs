//! What applying transactions does to a set of balances, as mathematics:
//! one transaction at a time, and a whole history replayed from nothing.

use crate::error::Failure;
use crate::split::{involved, names_of, representable, split, total_paid, Name};
use crate::transaction::Transaction;
use vstd::prelude::*;

verus! {

/// The figures that transactions act on: the balance of every user, and
/// the sum of all spending that was not a direct transfer.
#[verifier::ext_equal]
pub struct Books {
    pub total_spend: int,
    pub balances: Map<Name, int>,
}

/// The first of `names` that is not among `known`, if there is one.
pub open spec fn first_unknown(names: Seq<Name>, known: Set<Name>) -> Option<Name>
    decreases names.len(),
{
    if names.len() == 0 {
        None
    } else {
        match first_unknown(names.drop_last(), known) {
            Some(name) => Some(name),
            None => if known.contains(names.last()) {
                None
            } else {
                Some(names.last())
            },
        }
    }
}

/// The users that a transaction names, contributors first, in the order
/// in which it names them.
pub open spec fn parties(transaction: Transaction) -> Seq<Name> {
    names_of(transaction.paid()) + names_of(transaction.owed())
}

/// Balances after each has taken the change that `changes` holds for its
/// user. No user is added.
pub open spec fn settle(balances: Map<Name, int>, changes: Map<Name, int>) -> Map<Name, int> {
    Map::new(
        |u: Name| balances.contains_key(u),
        |u: Name|
            if changes.contains_key(u) {
                balances[u] + changes[u]
            } else {
                balances[u]
            },
    )
}

/// The spending total after a transaction: a direct transfer leaves it as
/// it is, anything else adds what was contributed.
pub open spec fn spend_after(total_spend: int, transaction: Transaction) -> int {
    if transaction.is_direct {
        total_spend
    } else {
        total_spend + total_paid(transaction.paid())
    }
}

/// The books after one transaction, or the reason why it cannot be
/// applied: the transaction cannot be split; or it names a user without a
/// balance (the first such user is reported); or a balance that it changes,
/// or the spending total, would not be representable.
pub open spec fn apply(books: Books, transaction: Transaction) -> Result<Books, Failure> {
    match split(transaction.paid(), transaction.owed()) {
        Err(failure) => Err(failure),
        Ok(changes) => match first_unknown(parties(transaction), books.balances.dom()) {
            Some(name) => Err(Failure::UnknownUser(name)),
            None => {
                let after = Books {
                    total_spend: spend_after(books.total_spend, transaction),
                    balances: settle(books.balances, changes),
                };
                if representable(after.total_spend) && forall|u: Name| #[trigger]
                    changes.contains_key(u) ==> representable(after.balances[u]) {
                    Ok(after)
                } else {
                    Err(Failure::Overflow)
                }
            },
        },
    }
}

/// The books before any transaction: nothing spent, every user at zero.
pub open spec fn opening(users: Set<Name>) -> Books {
    Books { total_spend: 0, balances: Map::new(|u: Name| users.contains(u), |u: Name| 0int) }
}

/// The books that a history leads to from the opening books of `users`,
/// its transactions applied in order; or the first failure on the way.
pub open spec fn replay(users: Set<Name>, history: Seq<Transaction>) -> Result<Books, Failure>
    decreases history.len(),
{
    if history.len() == 0 {
        Ok(opening(users))
    } else {
        match replay(users, history.drop_last()) {
            Err(failure) => Err(failure),
            Ok(books) => apply(books, history.last()),
        }
    }
}

/// A name that is unknown in the first `k` names is the first unknown of
/// the whole list too.
pub proof fn lemma_first_unknown_stays(names: Seq<Name>, known: Set<Name>, k: int)
    requires
        0 <= k <= names.len(),
        first_unknown(names.take(k), known) is Some,
    ensures
        first_unknown(names, known) == first_unknown(names.take(k), known),
    decreases names.len() - k,
{
    if k < names.len() {
        assert(names.take(k + 1).drop_last() =~= names.take(k));
        lemma_first_unknown_stays(names, known, k + 1);
    } else {
        assert(names.take(k) =~= names);
    }
}

/// A history whose first `k` transactions fail to replay fails as a whole,
/// in the same way.
pub proof fn lemma_replay_failure_stays(users: Set<Name>, history: Seq<Transaction>, k: int)
    requires
        0 <= k <= history.len(),
        replay(users, history.take(k)) is Err,
    ensures
        replay(users, history) == replay(users, history.take(k)),
    decreases history.len() - k,
{
    if k < history.len() {
        assert(history.take(k + 1).drop_last() =~= history.take(k));
        lemma_replay_failure_stays(users, history, k + 1);
    } else {
        assert(history.take(k) =~= history);
    }
}

/// Where no name is unknown, every name is known.
pub proof fn lemma_all_known(names: Seq<Name>, known: Set<Name>)
    requires
        first_unknown(names, known) is None,
    ensures
        forall|i: int| 0 <= i < names.len() ==> known.contains(#[trigger] names[i]),
    decreases names.len(),
{
    if names.len() > 0 {
        lemma_all_known(names.drop_last(), known);
        assert forall|i: int| 0 <= i < names.len() implies known.contains(#[trigger] names[i]) by {
            if i < names.len() - 1 {
                assert(names.drop_last()[i] == names[i]);
            }
        }
    }
}

/// The users involved in a transaction are the ones it names.
pub proof fn lemma_parties_involved(transaction: Transaction, user: Name)
    ensures
        involved(transaction.paid(), transaction.owed()).contains(user) <==> parties(
            transaction,
        ).contains(user),
{
    let payers = names_of(transaction.paid());
    let takers = names_of(transaction.owed());
    let all = parties(transaction);
    if payers.contains(user) {
        let at = choose|at: int| 0 <= at < payers.len() && payers[at] == user;
        assert(all[at] == user);
    }
    if takers.contains(user) {
        let at = choose|at: int| 0 <= at < takers.len() && takers[at] == user;
        assert(all[payers.len() + at] == user);
    }
}

/// Where every name is known, none is unknown.
pub proof fn lemma_none_unknown(names: Seq<Name>, known: Set<Name>)
    requires
        forall|i: int| 0 <= i < names.len() ==> known.contains(#[trigger] names[i]),
    ensures
        first_unknown(names, known) is None,
    decreases names.len(),
{
    if names.len() > 0 {
        lemma_none_unknown(names.drop_last(), known);
    }
}

/// Books with one more user, who starts from zero.
pub open spec fn books_with_user(books: Books, name: Name) -> Books {
    Books {
        total_spend: books.total_spend,
        balances: if books.balances.contains_key(name) {
            books.balances
        } else {
            books.balances.insert(name, 0)
        },
    }
}

/// A transaction that applies to some books applies as well when one more
/// user has a balance, and leaves that balance as it was.
pub proof fn lemma_apply_with_user(books: Books, transaction: Transaction, name: Name)
    requires
        apply(books, transaction) is Ok,
        !books.balances.contains_key(name),
    ensures
        apply(Books { balances: books.balances.insert(name, 0), ..books }, transaction) == Ok::<
            Books,
            Failure,
        >(
            Books {
                balances: apply(books, transaction)->Ok_0.balances.insert(name, 0),
                ..apply(books, transaction)->Ok_0
            },
        ),
{
    let wider = Books { balances: books.balances.insert(name, 0), ..books };
    let changes = split(transaction.paid(), transaction.owed())->Ok_0;
    let names = parties(transaction);
    lemma_all_known(names, books.balances.dom());
    lemma_none_unknown(names, wider.balances.dom());
    lemma_parties_involved(transaction, name);
    assert(settle(wider.balances, changes) =~= settle(books.balances, changes).insert(name, 0));
}

/// A history that replays for some users replays as well when one more
/// user has a balance; that user ends at zero, all else is the same.
pub proof fn lemma_replay_with_user(users: Set<Name>, history: Seq<Transaction>, name: Name)
    requires
        replay(users, history) is Ok,
    ensures
        replay(users.insert(name), history) == Ok::<Books, Failure>(
            books_with_user(replay(users, history)->Ok_0, name),
        ),
        replay(users, history)->Ok_0.balances.dom() == users,
    decreases history.len(),
{
    if history.len() == 0 {
        assert(opening(users.insert(name)).balances =~= books_with_user(
            opening(users),
            name,
        ).balances);
    } else {
        lemma_replay_with_user(users, history.drop_last(), name);
        if !users.contains(name) {
            let before = replay(users, history.drop_last())->Ok_0;
            lemma_apply_with_user(before, history.last(), name);
        }
    }
}

} // verus!
