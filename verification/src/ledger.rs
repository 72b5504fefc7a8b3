//! The ledger: its users, their running balances, and the history of
//! transactions that produced them.

use crate::balances::UserAmountMap;
use crate::books::{
    apply, first_unknown, lemma_all_known, lemma_first_unknown_stays, lemma_parties_involved,
    lemma_replay_failure_stays, opening, parties, replay, Books,
};
use crate::clock::Timestamp;
use crate::error::{Failure, TransactionError};
use crate::split::{even_share, lemma_to_set_push, named, named_borrowed, narrow, Name};
use crate::transaction::{
    undoes, AmountPerUser, Benefit, BenefitPerUser, Transaction, TransactionResult,
};
use crate::user::{Amount, User, UserName};
use vstd::prelude::*;

verus! {

/// After every so many transactions the ledger recomputes its figures from
/// its history.
pub const CONSISTENCY_CHECK_INTERVAL: usize = 100;

/// The names of a list of users, in order.
pub open spec fn user_names(users: Seq<User>) -> Seq<Name> {
    users.map_values(|u: User| u.name@)
}

/// The names of a list of borrowed users, in order.
pub open spec fn borrowed_user_names(users: Seq<&User>) -> Seq<Name> {
    users.map_values(|u: &User| u.name@)
}

/// The names of a list of strings, in order.
pub open spec fn texts(names: Seq<&str>) -> Seq<Name> {
    names.map_values(|n: &str| n@)
}

/// What a ledger holds, as mathematics.
#[verifier::ext_equal]
pub struct LedgerView {
    /// The id that the next transaction will get.
    pub next_id: int,
    /// The running balance of every user: positive where the user is owed,
    /// negative where the user owes.
    pub balances: Map<Name, int>,
    pub users: Set<Name>,
    /// Every transaction that was applied, oldest first.
    pub transactions: Seq<Transaction>,
    /// The sum of all spending that was not a direct transfer.
    pub total_spend: int,
}

impl LedgerView {
    /// A new ledger for `names`: every balance zero, nothing recorded, the
    /// first id 1.
    pub open spec fn fresh(names: Seq<Name>) -> LedgerView {
        LedgerView {
            next_id: 1,
            balances: opening(names.to_set()).balances,
            users: names.to_set(),
            transactions: Seq::empty(),
            total_spend: 0,
        }
    }

    /// The ledger after `name` was added: the user is there, with a
    /// balance of zero unless there was one already.
    pub open spec fn with_user(self, name: Name) -> LedgerView {
        LedgerView {
            users: self.users.insert(name),
            balances: if self.balances.contains_key(name) {
                self.balances
            } else {
                self.balances.insert(name, 0)
            },
            ..self
        }
    }

    /// The figures that transactions act on.
    pub open spec fn books(self) -> Books {
        Books { total_spend: self.total_spend, balances: self.balances }
    }

    /// The ledger with its figures replaced.
    pub open spec fn with_books(self, books: Books) -> LedgerView {
        LedgerView { total_spend: books.total_spend, balances: books.balances, ..self }
    }

    /// The ledger with its figures recomputed from its history, every user
    /// that has a balance starting from zero; or the failure that replaying
    /// the history meets. The figures it had do not matter.
    pub open spec fn reconciled(self) -> Result<LedgerView, Failure> {
        match replay(self.balances.dom(), self.transactions) {
            Err(failure) => Err(failure),
            Ok(books) => Ok(self.with_books(books)),
        }
    }

    /// The ledger after `transaction` was added, or the reason why it is
    /// refused.
    ///
    /// The transaction must apply to the present figures. It then enters
    /// the history under the next id. Where that brings the length of the
    /// history to a multiple of the check interval, the figures are those
    /// of the whole history replayed, and a failure of the replay refuses
    /// the transaction; otherwise they are the present figures with the
    /// transaction applied.
    pub open spec fn record(self, transaction: Transaction) -> Result<LedgerView, Failure> {
        match apply(self.books(), transaction) {
            Err(failure) => Err(failure),
            Ok(applied) => {
                if self.next_id >= usize::MAX || self.transactions.len() >= usize::MAX {
                    Err(Failure::Overflow)
                } else {
                    let entered = LedgerView {
                        next_id: self.next_id + 1,
                        transactions: self.transactions.push(
                            Transaction { id: self.next_id as usize, ..transaction },
                        ),
                        ..self
                    };
                    if entered.transactions.len() % (CONSISTENCY_CHECK_INTERVAL as nat) == 0 {
                        entered.reconciled()
                    } else {
                        Ok(entered.with_books(applied))
                    }
                }
            },
        }
    }
}

/// Whether `transaction` is the expense that these parts make: not
/// direct, without an id, dated `time` where one is given.
pub open spec fn is_expense(
    transaction: Transaction,
    contributions: Seq<(&str, Amount)>,
    benefits: Seq<(&str, Benefit)>,
    description: Seq<char>,
    time: Option<Timestamp>,
) -> bool {
    &&& transaction.paid() == named_borrowed(contributions)
    &&& transaction.owed() == named_borrowed(benefits)
    &&& transaction.description@ == description
    &&& !transaction.is_direct
    &&& transaction.id == 0
    &&& time matches Some(at) ==> transaction.datetime == at
}

/// Whether `transaction` is the direct transfer of `amount` from `from` to
/// `to`, without an id, dated `time` where one is given.
pub open spec fn is_transfer(
    transaction: Transaction,
    from: Name,
    to: Name,
    amount: Amount,
    description: Seq<char>,
    time: Option<Timestamp>,
) -> bool {
    &&& transaction.paid() == seq![(from, amount)]
    &&& transaction.owed() == seq![(to, Benefit::Sum(amount))]
    &&& transaction.description@ == description
    &&& transaction.is_direct
    &&& transaction.id == 0
    &&& time matches Some(at) ==> transaction.datetime == at
}

/// Where the oldest transaction with the id given stands in a history.
pub open spec fn position_of_id(history: Seq<Transaction>, id: usize) -> Option<int>
    decreases history.len(),
{
    if history.len() == 0 {
        None
    } else {
        match position_of_id(history.drop_last(), id) {
            Some(at) => Some(at),
            None => if history.last().id == id {
                Some(history.len() - 1)
            } else {
                None
            },
        }
    }
}

/// An id found among the first `k` transactions is found in the same
/// place in the whole history.
pub proof fn lemma_position_stays(history: Seq<Transaction>, id: usize, k: int)
    requires
        0 <= k <= history.len(),
        position_of_id(history.take(k), id) is Some,
    ensures
        position_of_id(history, id) == position_of_id(history.take(k), id),
    decreases history.len() - k,
{
    if k < history.len() {
        assert(history.take(k + 1).drop_last() =~= history.take(k));
        lemma_position_stays(history, id, k + 1);
    } else {
        assert(history.take(k) =~= history);
    }
}

/// The map that a list of pairs stands for when a later pair replaces an
/// earlier one of the same name.
pub open spec fn collected(entries: Seq<(Name, Amount)>) -> Map<Name, int>
    decreases entries.len(),
{
    if entries.len() == 0 {
        Map::empty()
    } else {
        collected(entries.drop_last()).insert(entries.last().0, entries.last().1 as int)
    }
}

/// Balances with a zero added for every one of `users` that has none.
pub open spec fn seeded(balances: Map<Name, int>, users: Set<Name>) -> Map<Name, int> {
    Map::new(
        |u: Name| balances.contains_key(u) || users.contains(u),
        |u: Name|
            if balances.contains_key(u) {
                balances[u]
            } else {
                0
            },
    )
}

/// Whether one of `users` is called `name`.
fn has_user(users: &Vec<User>, name: &String) -> (known: bool)
    ensures
        known == user_names(users@).contains(name@),
{
    let mut i: usize = 0;
    while i < users.len()
        invariant
            i <= users.len(),
            forall|k: int| 0 <= k < i ==> user_names(users@)[k] != name@,
        decreases users.len() - i,
    {
        if users[i].name == *name {
            assert(user_names(users@)[i as int] == name@);
            return true;
        }
        i += 1;
    }
    false
}

/// A group of users with their running balances and the transactions that
/// led to them. Every user has a balance.
pub struct Ledger {
    next_id: usize,
    balances: UserAmountMap,
    users: Vec<User>,
    transactions: Vec<Transaction>,
    total_spend: Amount,
}

impl View for Ledger {
    type V = LedgerView;

    closed spec fn view(&self) -> LedgerView {
        LedgerView {
            next_id: self.next_id as int,
            balances: self.balances@,
            users: user_names(self.users@).to_set(),
            transactions: self.transactions@,
            total_spend: self.total_spend as int,
        }
    }
}

impl Ledger {
    #[verifier::type_invariant]
    spec fn every_user_once_with_balance(&self) -> bool {
        &&& user_names(self.users@).no_duplicates()
        &&& forall|i: int|
            0 <= i < self.users.len() ==> self.balances@.contains_key(
                #[trigger] user_names(self.users@)[i],
            )
    }

    /// A ledger for the users named, each with a balance of zero. A name
    /// given twice counts once.
    pub fn new(user_names: Vec<&str>) -> (ledger: Ledger)
        ensures
            ledger@ == LedgerView::fresh(texts(user_names@)),
    {
        let mut users: Vec<User> = Vec::new();
        let mut balances = UserAmountMap::new();
        let mut i: usize = 0;
        while i < user_names.len()
            invariant
                i <= user_names.len(),
                self::user_names(users@).no_duplicates(),
                self::user_names(users@).to_set() == texts(user_names@).take(i as int).to_set(),
                balances@ == opening(texts(user_names@).take(i as int).to_set()).balances,
            decreases user_names.len() - i,
        {
            let name: &str = user_names[i];
            let ghost seen = texts(user_names@).take(i as int);
            let ghost more = texts(user_names@).take(i as int + 1);
            proof {
                assert(more =~= seen.push(name@));
                lemma_to_set_push(seen, name@);
            }
            if !balances.contains_key(name) {
                let ghost before = self::user_names(users@);
                users.push(User::new(name));
                balances.insert(name.to_owned(), 0);
                proof {
                    assert(self::user_names(users@) =~= before.push(name@));
                    lemma_to_set_push(before, name@);
                }
            }
            i += 1;
        }
        assert(texts(user_names@).take(i as int) =~= texts(user_names@));
        let ledger =
            Ledger { next_id: 1, balances, users, transactions: Vec::new(), total_spend: 0 };
        ledger
    }

    /// The users, in the order in which they were added.
    pub fn get_users(&self) -> (users: Vec<&User>)
        ensures
            borrowed_user_names(users@).no_duplicates(),
            borrowed_user_names(users@).to_set() == self@.users,
            self@.users.subset_of(self@.balances.dom()),
    {
        proof {
            use_type_invariant(self);
        }
        let mut users: Vec<&User> = Vec::new();
        let mut i: usize = 0;
        while i < self.users.len()
            invariant
                i <= self.users.len(),
                users.len() == i,
                forall|k: int| 0 <= k < i ==> *(#[trigger] users[k]) == self.users[k],
            decreases self.users.len() - i,
        {
            users.push(&self.users[i]);
            i += 1;
        }
        assert(borrowed_user_names(users@) =~= user_names(self.users@));
        users
    }

    /// A copy of the balances as they stand.
    pub fn get_balances(&self) -> (balances: UserAmountMap)
        ensures
            balances@ == self@.balances,
    {
        self.balances.clone()
    }

    /// Every transaction that was applied, oldest first.
    pub fn get_transactions(&self) -> (transactions: &Vec<Transaction>)
        ensures
            transactions@ == self@.transactions,
    {
        &self.transactions
    }

    /// The sum of all spending that was not a direct transfer.
    pub fn total_spend(&self) -> (total: Amount)
        ensures
            total == self@.total_spend,
    {
        self.total_spend
    }

    /// The id that the next transaction will get.
    pub fn next_id(&self) -> (id: usize)
        ensures
            id == self@.next_id,
    {
        self.next_id
    }

    /// Adds the user `name`, with a balance of zero unless the name has a
    /// balance already.
    pub fn add_user(&mut self, name: &str)
        ensures
            final(self)@ == old(self)@.with_user(name@),
    {
        proof {
            use_type_invariant(&*self);
        }
        let ghost before = user_names(self.users@);
        if !self.balances.contains_key(name) {
            let mut balances = self.balances.clone();
            balances.insert(name.to_owned(), 0);
            self.balances = balances;
        }
        if !has_user(&self.users, &name.to_owned()) {
            let mut users: Vec<User> = Vec::new();
            core::mem::swap(&mut self.users, &mut users);
            users.push(User::new(name));
            proof {
                assert(user_names(users@) =~= before.push(name@));
                lemma_to_set_push(before, name@);
            }
            self.users = users;
        }
    }

    /// The first user that `transaction` names and `balances` does not
    /// hold, contributors looked at first.
    pub fn unknown_user(balances: &UserAmountMap, transaction: &Transaction) -> (stranger: Option<
        UserName,
    >)
        ensures
            match stranger {
                Some(name) => first_unknown(parties(*transaction), balances@.dom()) == Some(name@),
                None => first_unknown(parties(*transaction), balances@.dom()) is None,
            },
    {
        let ghost names = parties(*transaction);
        let ghost known = balances@.dom();
        let mut i: usize = 0;
        while i < transaction.contributions.len()
            invariant
                i <= transaction.contributions.len(),
                names == parties(*transaction),
                known == balances@.dom(),
                first_unknown(names.take(i as int), known) is None,
            decreases transaction.contributions.len() - i,
        {
            proof {
                assert(names.take(i as int + 1).drop_last() =~= names.take(i as int));
            }
            if !balances.contains_key(transaction.contributions[i].0.as_str()) {
                proof {
                    lemma_first_unknown_stays(names, known, i as int + 1);
                }
                return Some(transaction.contributions[i].0.clone());
            }
            i += 1;
        }
        let before: usize = i;
        let mut j: usize = 0;
        while j < transaction.benefits.len()
            invariant
                j <= transaction.benefits.len(),
                before == transaction.contributions.len(),
                names == parties(*transaction),
                known == balances@.dom(),
                first_unknown(names.take(before + j), known) is None,
            decreases transaction.benefits.len() - j,
        {
            proof {
                assert(names.take(before + j + 1).drop_last() =~= names.take(before + j));
            }
            if !balances.contains_key(transaction.benefits[j].0.as_str()) {
                proof {
                    lemma_first_unknown_stays(names, known, before + j + 1);
                }
                return Some(transaction.benefits[j].0.clone());
            }
            j += 1;
        }
        assert(names.take(before + j) =~= names);
        None
    }

    /// The figures after `transaction`: the spending total grown by what
    /// was contributed, unless the transaction is direct, and each balance
    /// changed by what `balance_updates` gives for its user. The figures
    /// passed in are left as they are.
    ///
    /// Fails as `balance_updates` does; with `UnknownUser` where the
    /// transaction names a user without a balance; and with `Overflow`
    /// where a changed balance or the total would not be representable.
    pub fn apply_transaction(
        total_spend: Amount,
        balances: &UserAmountMap,
        transaction: &Transaction,
    ) -> (after: TransactionResult<(Amount, UserAmountMap)>)
        ensures
            match after {
                Ok((total, sums)) => {
                    &&& apply(
                        Books { total_spend: total_spend as int, balances: balances@ },
                        *transaction,
                    ) == Ok::<Books, Failure>(
                        Books { total_spend: total as int, balances: sums@ },
                    )
                    &&& sums@.dom() == balances@.dom()
                },
                Err(error) => apply(
                    Books { total_spend: total_spend as int, balances: balances@ },
                    *transaction,
                ) == Err::<Books, Failure>(error@),
            },
    {
        let balance_updates = match transaction.balance_updates() {
            Ok(changes) => changes,
            Err(error) => {
                return Err(error);
            },
        };
        match Ledger::unknown_user(balances, transaction) {
            Some(name) => {
                return Err(TransactionError::UnknownUser(name));
            },
            None => {},
        }
        let total: Option<Amount> = if transaction.is_direct {
            narrow(total_spend as i128)
        } else {
            narrow(total_spend as i128 + transaction.total_spending())
        };
        let sums = balances.settled(&balance_updates);
        proof {
            lemma_all_known(parties(*transaction), balances@.dom());
            assert forall|u: Name| #[trigger]
                balance_updates@.contains_key(u) implies balances@.contains_key(u) by {
                lemma_parties_involved(*transaction, u);
            }
        }
        match (total, sums) {
            (Some(total), Some(sums)) => {
                Ok((total, sums))
            },
            _ => Err(TransactionError::Overflow),
        }
    }

    /// The figures that `transactions` lead to when every user of
    /// `balances` starts from zero, whatever `balances` holds for them.
    pub fn replayed(balances: &UserAmountMap, transactions: &Vec<Transaction>) -> (after:
        TransactionResult<(Amount, UserAmountMap)>)
        ensures
            match after {
                Ok((total, sums)) => {
                    &&& replay(balances@.dom(), transactions@) == Ok::<Books, Failure>(
                        Books { total_spend: total as int, balances: sums@ },
                    )
                    &&& sums@.dom() == balances@.dom()
                },
                Err(error) => replay(balances@.dom(), transactions@) == Err::<Books, Failure>(
                    error@,
                ),
            },
    {
        let mut new_balances = balances.zeroed();
        let mut new_total: Amount = 0;
        let mut i: usize = 0;
        while i < transactions.len()
            invariant
                i <= transactions.len(),
                new_balances@.dom() == balances@.dom(),
                replay(balances@.dom(), transactions@.take(i as int)) == Ok::<Books, Failure>(
                    Books { total_spend: new_total as int, balances: new_balances@ },
                ),
            decreases transactions.len() - i,
        {
            proof {
                assert(transactions@.take(i as int + 1).drop_last() =~= transactions@.take(
                    i as int,
                ));
            }
            match Ledger::apply_transaction(new_total, &new_balances, &transactions[i]) {
                Ok((total, sums)) => {
                    new_total = total;
                    new_balances = sums;
                },
                Err(error) => {
                    proof {
                        lemma_replay_failure_stays(balances@.dom(), transactions@, i as int + 1);
                    }
                    return Err(error);
                },
            }
            i += 1;
        }
        assert(transactions@.take(i as int) =~= transactions@);
        Ok((new_total, new_balances))
    }

    /// Recomputes the balances and the spending total from the history,
    /// every user that has a balance starting from zero. What the ledger
    /// held for them before does not enter into the result.
    ///
    /// Fails, and changes nothing, where the history cannot be replayed.
    pub fn reapply_all(&mut self) -> (outcome: TransactionResult<()>)
        ensures
            match outcome {
                Ok(()) => old(self)@.reconciled() == Ok::<LedgerView, Failure>(final(self)@),
                Err(error) => old(self)@.reconciled() == Err::<LedgerView, Failure>(error@)
                    && *final(self) == *old(self),
            },
    {
        proof {
            use_type_invariant(&*self);
        }
        match Ledger::replayed(&self.balances, &self.transactions) {
            Ok((new_total, new_balances)) => {
                self.total_spend = new_total;
                self.balances = new_balances;
                Ok(())
            },
            Err(error) => Err(error),
        }
    }

    /// Whether a history of `count` transactions is due for a check of the
    /// figures against it.
    pub fn needs_consistency_check(count: usize) -> (due: bool)
        ensures
            due == (count as nat % (CONSISTENCY_CHECK_INTERVAL as nat) == 0),
    {
        count % CONSISTENCY_CHECK_INTERVAL == 0
    }

    /// Applies `transaction` to the balances and enters it into the
    /// history under the next id.
    ///
    /// When the history thereby reaches a multiple of
    /// `CONSISTENCY_CHECK_INTERVAL`, the figures are recomputed from the
    /// whole history; at any other length they are the present figures
    /// with the transaction applied. On any failure the ledger is left
    /// exactly as it was.
    pub fn add_transaction(&mut self, transaction: Transaction) -> (outcome: TransactionResult<()>)
        ensures
            match outcome {
                Ok(()) => old(self)@.record(transaction) == Ok::<LedgerView, Failure>(final(self)@),
                Err(error) => old(self)@.record(transaction) == Err::<LedgerView, Failure>(error@)
                    && *final(self) == *old(self),
            },
    {
        proof {
            use_type_invariant(&*self);
        }
        let applied = match Ledger::apply_transaction(
            self.total_spend,
            &self.balances,
            &transaction,
        ) {
            Ok(figures) => figures,
            Err(error) => {
                return Err(error);
            },
        };
        if self.next_id == usize::MAX || self.transactions.len() == usize::MAX {
            return Err(TransactionError::Overflow);
        }
        let mut entered = transaction;
        entered.id = self.next_id;
        let ghost history = self.transactions@.push(entered);
        proof {
            assert(history.drop_last() =~= self.transactions@);
        }
        let (total, balances) = if Ledger::needs_consistency_check(self.transactions.len() + 1) {
            let replayed = match Ledger::replayed(&self.balances, &self.transactions) {
                Ok(figures) => figures,
                Err(error) => {
                    return Err(error);
                },
            };
            match Ledger::apply_transaction(replayed.0, &replayed.1, &entered) {
                Ok(figures) => figures,
                Err(error) => {
                    return Err(error);
                },
            }
        } else {
            applied
        };
        let mut transactions: Vec<Transaction> = Vec::new();
        core::mem::swap(&mut self.transactions, &mut transactions);
        transactions.push(entered);
        self.transactions = transactions;
        self.next_id = self.next_id + 1;
        self.total_spend = total;
        self.balances = balances;
        Ok(())
    }

    /// Records an expense: a transaction that is not direct, made of the
    /// parts given, dated `time` or now. It is added as `add_transaction`
    /// adds it.
    pub fn add_expense(
        &mut self,
        contributions: AmountPerUser<&str>,
        benefits: BenefitPerUser<&str>,
        description: &str,
        time: Option<Timestamp>,
    ) -> (outcome: TransactionResult<()>)
        ensures
            exists|transaction: Transaction|
                {
                    &&& #[trigger] is_expense(
                        transaction,
                        contributions@,
                        benefits@,
                        description@,
                        time,
                    )
                    &&& match outcome {
                        Ok(()) => old(self)@.record(transaction) == Ok::<LedgerView, Failure>(
                            final(self)@,
                        ),
                        Err(error) => old(self)@.record(transaction) == Err::<LedgerView, Failure>(
                            error@,
                        ) && *final(self) == *old(self),
                    }
                },
    {
        let transaction = Transaction::new(contributions, benefits, description, false, None, time);
        assert(is_expense(transaction, contributions@, benefits@, description@, time));
        self.add_transaction(transaction)
    }

    /// Records a direct transfer of `amount` from `from` to `to`: a direct
    /// transaction with `from` as its one contributor and `to` as its one
    /// beneficiary, by the explicit sum `amount`, dated `time` or now. It
    /// is added as `add_transaction` adds it.
    pub fn add_transfer(
        &mut self,
        from: &str,
        to: &str,
        amount: Amount,
        description: &str,
        time: Option<Timestamp>,
    ) -> (outcome: TransactionResult<()>)
        ensures
            exists|transaction: Transaction|
                {
                    &&& #[trigger] is_transfer(transaction, from@, to@, amount, description@, time)
                    &&& match outcome {
                        Ok(()) => old(self)@.record(transaction) == Ok::<LedgerView, Failure>(
                            final(self)@,
                        ),
                        Err(error) => old(self)@.record(transaction) == Err::<LedgerView, Failure>(
                            error@,
                        ) && *final(self) == *old(self),
                    }
                },
    {
        let mut contributions: AmountPerUser<&str> = Vec::new();
        contributions.push((from, amount));
        let mut benefits: BenefitPerUser<&str> = Vec::new();
        benefits.push((to, Benefit::Sum(amount)));
        let transaction = Transaction::new(contributions, benefits, description, true, None, time);
        proof {
            assert(transaction.paid() =~= seq![(from@, amount)]);
            assert(transaction.owed() =~= seq![(to@, Benefit::Sum(amount))]);
            assert(is_transfer(transaction, from@, to@, amount, description@, time));
        }
        self.add_transaction(transaction)
    }

    /// Undoes the transaction with the id given by adding its reversal,
    /// which becomes a transaction of its own. With several transactions
    /// under one id, the oldest is meant.
    ///
    /// Fails with `UnknownTransactionId` where no transaction has that id,
    /// as `reverse` does where the transaction cannot be reversed, and as
    /// `add_transaction` does where the reversal cannot be added. On any
    /// failure the ledger is left exactly as it was.
    pub fn reverse_by_id(&mut self, id: usize) -> (outcome: TransactionResult<()>)
        ensures
            match position_of_id(old(self)@.transactions, id) {
                None => outcome matches Err(error) && error@ == Failure::UnknownTransactionId(
                    id as int,
                ) && *final(self) == *old(self),
                Some(at) => {
                    let undone = old(self)@.transactions[at];
                    match even_share(undone.paid(), undone.owed()) {
                        Err(failure) => outcome matches Err(error) && error@ == failure
                            && *final(self) == *old(self),
                        Ok(_) => exists|undo: Transaction|
                            {
                                &&& #[trigger] undoes(undo, undone)
                                &&& match outcome {
                                    Ok(()) => old(self)@.record(undo) == Ok::<LedgerView, Failure>(
                                        final(self)@,
                                    ),
                                    Err(error) => old(self)@.record(undo) == Err::<
                                        LedgerView,
                                        Failure,
                                    >(error@) && *final(self) == *old(self),
                                }
                            },
                    }
                },
            },
    {
        let mut i: usize = 0;
        while i < self.transactions.len()
            invariant
                i <= self.transactions.len(),
                *self == *old(self),
                position_of_id(self.transactions@.take(i as int), id) is None,
            decreases self.transactions.len() - i,
        {
            proof {
                let longer = self.transactions@.take(i as int + 1);
                assert(longer.drop_last() =~= self.transactions@.take(i as int));
            }
            if self.transactions[i].id == id {
                proof {
                    lemma_position_stays(self.transactions@, id, i as int + 1);
                }
                let undo = match self.transactions[i].reverse() {
                    Ok(undo) => undo,
                    Err(error) => {
                        return Err(error);
                    },
                };
                return self.add_transaction(undo);
            }
            i += 1;
        }
        assert(self.transactions@.take(i as int) =~= self.transactions@);
        Err(TransactionError::UnknownTransactionId(id))
    }

    /// Puts a ledger together from figures that were kept elsewhere.
    ///
    /// Of several balances under one name the last counts, of several
    /// users of one name the first. A user without a balance gets a balance
    /// of zero. Nothing is checked against the history: `reapply_all` does
    /// that.
    pub fn from_parts(
        next_id: usize,
        balances: Vec<(UserName, Amount)>,
        users: Vec<User>,
        transactions: Vec<Transaction>,
        total_spend: Amount,
    ) -> (ledger: Ledger)
        ensures
            ledger@ == (LedgerView {
                next_id: next_id as int,
                balances: seeded(collected(named(balances@)), user_names(users@).to_set()),
                users: user_names(users@).to_set(),
                transactions: transactions@,
                total_spend: total_spend as int,
            }),
    {
        let mut held = UserAmountMap::new();
        let mut i: usize = 0;
        while i < balances.len()
            invariant
                i <= balances.len(),
                held@ == collected(named(balances@).take(i as int)),
            decreases balances.len() - i,
        {
            proof {
                assert(named(balances@).take(i as int + 1).drop_last() =~= named(balances@).take(
                    i as int,
                ));
            }
            held.insert(balances[i].0.clone(), balances[i].1);
            i += 1;
        }
        assert(named(balances@).take(i as int) =~= named(balances@));
        let ghost given = held@;
        let ghost all = user_names(users@);
        let mut kept: Vec<User> = Vec::new();
        let mut j: usize = 0;
        while j < users.len()
            invariant
                j <= users.len(),
                all == user_names(users@),
                user_names(kept@).no_duplicates(),
                user_names(kept@).to_set() == all.take(j as int).to_set(),
                held@ == seeded(given, all.take(j as int).to_set()),
            decreases users.len() - j,
        {
            let ghost name = all[j as int];
            let ghost seen = all.take(j as int);
            let ghost more = all.take(j as int + 1);
            proof {
                assert(more =~= seen.push(name));
                lemma_to_set_push(seen, name);
            }
            if !has_user(&kept, &users[j].name) {
                let ghost before = user_names(kept@);
                kept.push(User { name: users[j].name.clone() });
                proof {
                    assert(user_names(kept@) =~= before.push(name));
                    lemma_to_set_push(before, name);
                }
            }
            if !held.contains_key(users[j].name.as_str()) {
                held.insert(users[j].name.clone(), 0);
            }
            j += 1;
        }
        assert(all.take(j as int) =~= all);
        Ledger { next_id, balances: held, users: kept, transactions, total_spend }
    }
}

} // verus!
