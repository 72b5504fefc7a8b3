//! One financial event: who paid how much, who benefits and how.

use crate::balances::UserAmountMap;
use crate::clock::{current_time, Timestamp};
use crate::error::{Failure, TransactionError};
use crate::hex::{hex_padded, hex_text, undo_description, undo_label};
use crate::money::{amount_text, format_amount};
use crate::split::{
    delta, deltas, due, even_count, even_share, lemma_names_grow, named, named_borrowed,
    names_of, narrow, owed_by, paid_by, reclaimed, repaid, representable, split, total_fixed,
    total_paid, Name,
};
use crate::user::{Amount, UserName};
use vstd::prelude::*;
use vstd::string::StringExecFns;

verus! {

/// A beneficiary's part of a transaction.
#[derive(Clone, Copy, PartialEq, Eq, Debug, Structural)]
pub enum Benefit {
    /// An explicit amount.
    Sum(Amount),
    /// An equal part of what the explicit amounts leave over.
    Even,
}

/// A benefit in words: the amount of an explicit sum, or `Even`.
pub open spec fn benefit_text(benefit: Benefit) -> Seq<char> {
    match benefit {
        Benefit::Sum(amount) => amount_text(amount as int),
        Benefit::Even => "Even"@,
    }
}

impl Benefit {
    /// The benefit in words: see `benefit_text`.
    pub fn to_string(&self) -> (text: String)
        ensures
            text@ == benefit_text(*self),
    {
        match self {
            Benefit::Sum(amount) => format_amount(*amount),
            Benefit::Even => String::from_str("Even"),
        }
    }
}

/// Amounts per user, in the order given.
pub type AmountPerUser<T> = Vec<(T, Amount)>;

/// Benefits per user, in the order given.
pub type BenefitPerUser<T> = Vec<(T, Benefit)>;

/// What an operation gives where it may be refused.
pub type TransactionResult<T> = Result<T, TransactionError>;

/// A record of one financial event.
#[derive(Clone, Debug, PartialEq, Eq)]
pub struct Transaction {
    /// Assigned by the ledger on insertion; 0 until then.
    pub id: usize,
    pub datetime: Timestamp,
    pub contributions: AmountPerUser<UserName>,
    pub benefits: BenefitPerUser<UserName>,
    /// A direct transfer does not count as spending.
    pub is_direct: bool,
    pub description: String,
}

/// Whether `undo` is the reversal of `undone`. Each beneficiary of
/// `undone` contributes what the benefit came to, an even share counted at
/// the amount that `undone` gives it; each contributor benefits by the
/// explicit sum of what they paid. The reversal is not direct, has no id
/// yet, and is described as `Undo` with the id of `undone`.
pub open spec fn undoes(undo: Transaction, undone: Transaction) -> bool {
    &&& even_share(undone.paid(), undone.owed()) is Ok
    &&& undo.paid() == repaid(undone.owed(), even_share(undone.paid(), undone.owed())->Ok_0)
    &&& undo.owed() == reclaimed(undone.paid())
    &&& undo.id == 0
    &&& !undo.is_direct
    &&& undo.description@ == undo_label(undone.id as nat)
}

/// The contributions in words: for each, the name, a colon, the amount
/// and a semicolon.
pub open spec fn contributions_text(paid: Seq<(Name, Amount)>) -> Seq<char>
    decreases paid.len(),
{
    if paid.len() == 0 {
        Seq::empty()
    } else {
        contributions_text(paid.drop_last()) + paid.last().0 + ": "@ + amount_text(
            paid.last().1 as int,
        ) + "; "@
    }
}

/// The benefits in words: for each, the name, a colon, the benefit and a
/// semicolon.
pub open spec fn benefits_text(owed: Seq<(Name, Benefit)>) -> Seq<char>
    decreases owed.len(),
{
    if owed.len() == 0 {
        Seq::empty()
    } else {
        benefits_text(owed.drop_last()) + owed.last().0 + ": "@ + benefit_text(owed.last().1)
            + "; "@
    }
}

/// A transaction on one line: the id in hexadecimal and a tab, the time
/// as the caller words it, then the contributions, the benefits and the
/// description, each after the label that the caller gives it.
pub open spec fn line_text(
    transaction: Transaction,
    time: Seq<char>,
    from: Seq<char>,
    to: Seq<char>,
    about: Seq<char>,
) -> Seq<char> {
    hex_padded(transaction.id as nat) + "\t"@ + time + " "@ + from + ": "@ + contributions_text(
        transaction.paid(),
    ) + to + ": "@ + benefits_text(transaction.owed()) + about + ": "@
        + transaction.description@
}

/// Copies a list of pairs, giving each borrowed name an owner.
pub fn to_owned_users<T: Copy>(entries: &Vec<(&str, T)>) -> (owned: Vec<(UserName, T)>)
    ensures
        named(owned@) == named_borrowed(entries@),
{
    let mut owned: Vec<(UserName, T)> = Vec::new();
    let mut i: usize = 0;
    while i < entries.len()
        invariant
            i <= entries.len(),
            owned.len() == i,
            forall|j: int|
                0 <= j < i ==> owned[j].0@ == entries[j].0@ && owned[j].1 == entries[j].1,
        decreases entries.len() - i,
    {
        let name: &str = entries[i].0;
        owned.push((name.to_owned(), entries[i].1));
        i += 1;
    }
    owned
}

impl Transaction {
    /// The contributions, each name taken as its characters.
    pub open spec fn paid(&self) -> Seq<(Name, Amount)> {
        named(self.contributions@)
    }

    /// The benefits, each name taken as its characters.
    pub open spec fn owed(&self) -> Seq<(Name, Benefit)> {
        named(self.benefits@)
    }

    /// Builds a transaction from its parts, without judging them. A missing
    /// id is 0, a missing time is the present moment.
    pub fn new(
        contributions: AmountPerUser<&str>,
        benefits: BenefitPerUser<&str>,
        description: &str,
        direct: bool,
        opt_id: Option<usize>,
        opt_time: Option<Timestamp>,
    ) -> (transaction: Transaction)
        ensures
            transaction.paid() == named_borrowed(contributions@),
            transaction.owed() == named_borrowed(benefits@),
            transaction.description@ == description@,
            transaction.is_direct == direct,
            transaction.id == (match opt_id {
                Some(id) => id,
                None => 0,
            }),
            opt_time matches Some(at) ==> transaction.datetime == at,
    {
        let datetime = match opt_time {
            None => current_time(),
            Some(time) => time,
        };
        let id: usize = match opt_id {
            None => 0,
            Some(number) => number,
        };
        Transaction {
            id,
            datetime,
            contributions: to_owned_users(&contributions),
            benefits: to_owned_users(&benefits),
            is_direct: direct,
            description: description.to_owned(),
        }
    }

    /// The sum of all contributions, whatever else holds of the
    /// transaction. It is exact: the result is wide enough for any list.
    pub fn total_spending(&self) -> (total: i128)
        ensures
            total == total_paid(self.paid()),
    {
        let mut total: i128 = 0;
        let mut i: usize = 0;
        while i < self.contributions.len()
            invariant
                i <= self.contributions.len(),
                total == total_paid(self.paid().take(i as int)),
                -(i as int) * 0x8000_0000_0000_0000 <= total <= (i as int) * 0x8000_0000_0000_0000,
            decreases self.contributions.len() - i,
        {
            proof {
                let next = self.paid().take(i as int + 1);
                assert(next.drop_last() =~= self.paid().take(i as int));
            }
            total = total + self.contributions[i].1 as i128;
            i += 1;
        }
        assert(self.paid().take(i as int) =~= self.paid());
        total
    }

    /// The sum of all explicit benefits; an even share adds nothing to it.
    pub fn specified_benefits(&self) -> (total: i128)
        ensures
            total == total_fixed(self.owed()),
    {
        let mut total: i128 = 0;
        let mut i: usize = 0;
        while i < self.benefits.len()
            invariant
                i <= self.benefits.len(),
                total == total_fixed(self.owed().take(i as int)),
                -(i as int) * 0x8000_0000_0000_0000 <= total <= (i as int) * 0x8000_0000_0000_0000,
            decreases self.benefits.len() - i,
        {
            proof {
                let next = self.owed().take(i as int + 1);
                assert(next.drop_last() =~= self.owed().take(i as int));
            }
            match self.benefits[i].1 {
                Benefit::Sum(value) => {
                    total = total + value as i128;
                },
                Benefit::Even => {},
            }
            i += 1;
        }
        assert(self.owed().take(i as int) =~= self.owed());
        total
    }

    /// The number of benefits that are even shares.
    pub fn num_even_benefits(&self) -> (count: usize)
        ensures
            count == even_count(self.owed()),
    {
        let mut count: usize = 0;
        let mut i: usize = 0;
        while i < self.benefits.len()
            invariant
                i <= self.benefits.len(),
                count == even_count(self.owed().take(i as int)),
                count <= i,
            decreases self.benefits.len() - i,
        {
            proof {
                let next = self.owed().take(i as int + 1);
                assert(next.drop_last() =~= self.owed().take(i as int));
            }
            match self.benefits[i].1 {
                Benefit::Even => {
                    count = count + 1;
                },
                Benefit::Sum(_) => {},
            }
            i += 1;
        }
        assert(self.owed().take(i as int) =~= self.owed());
        count
    }

    /// The amount of one even share: what the explicit benefits leave of
    /// the spending, divided among the even shares and rounded down.
    ///
    /// Fails with `ExcessBenefits` where the explicit benefits exceed the
    /// spending, with `InsufficientBenefits` where something is left and no
    /// even share takes it, and with `Overflow` where a total or the share
    /// is not representable. With nothing left and no even share the result
    /// is 0.
    pub fn benefits_per_even(&self) -> (share: TransactionResult<Amount>)
        ensures
            match share {
                Ok(amount) => even_share(self.paid(), self.owed()) == Ok::<int, Failure>(
                    amount as int,
                ),
                Err(error) => even_share(self.paid(), self.owed()) == Err::<int, Failure>(error@),
            },
    {
        let spending = self.total_spending();
        let specified_benefits = self.specified_benefits();
        let (spent, specified) = match (narrow(spending), narrow(specified_benefits)) {
            (Some(spent), Some(specified)) => (spent, specified),
            _ => {
                return Err(TransactionError::Overflow);
            },
        };
        if specified > spent {
            return Err(TransactionError::ExcessBenefits { specified, spent });
        }
        let num_evens = self.num_even_benefits();
        let total_amount_evens: i128 = spending - specified_benefits;
        if num_evens == 0 {
            if total_amount_evens > 0 {
                return Err(TransactionError::InsufficientBenefits { specified, spent });
            }
            return Ok(0);
        }
        match narrow(total_amount_evens / (num_evens as i128)) {
            Some(amount) => Ok(amount),
            None => Err(TransactionError::Overflow),
        }
    }

    /// Everything that `user` contributed.
    fn contributed_by(&self, user: &String) -> (total: i128)
        ensures
            total == paid_by(self.paid(), user@),
            -(self.paid().len() as int) * 0x8000_0000_0000_0000 <= total,
            total <= (self.paid().len() as int) * 0x8000_0000_0000_0000,
    {
        let mut total: i128 = 0;
        let mut i: usize = 0;
        while i < self.contributions.len()
            invariant
                i <= self.contributions.len(),
                total == paid_by(self.paid().take(i as int), user@),
                -(i as int) * 0x8000_0000_0000_0000 <= total <= (i as int) * 0x8000_0000_0000_0000,
            decreases self.contributions.len() - i,
        {
            proof {
                let next = self.paid().take(i as int + 1);
                assert(next.drop_last() =~= self.paid().take(i as int));
            }
            if self.contributions[i].0 == *user {
                total = total + self.contributions[i].1 as i128;
            }
            i += 1;
        }
        assert(self.paid().take(i as int) =~= self.paid());
        total
    }

    /// Everything that `user` owes when an even share comes to `share`.
    fn benefit_of(&self, share: Amount, user: &String) -> (total: i128)
        ensures
            total == owed_by(self.owed(), share as int, user@),
            -(self.owed().len() as int) * 0x8000_0000_0000_0000 <= total,
            total <= (self.owed().len() as int) * 0x8000_0000_0000_0000,
    {
        let mut total: i128 = 0;
        let mut i: usize = 0;
        while i < self.benefits.len()
            invariant
                i <= self.benefits.len(),
                total == owed_by(self.owed().take(i as int), share as int, user@),
                -(i as int) * 0x8000_0000_0000_0000 <= total <= (i as int) * 0x8000_0000_0000_0000,
            decreases self.benefits.len() - i,
        {
            proof {
                let next = self.owed().take(i as int + 1);
                assert(next.drop_last() =~= self.owed().take(i as int));
            }
            if self.benefits[i].0 == *user {
                let final_benefit: Amount = match self.benefits[i].1 {
                    Benefit::Sum(value) => value,
                    Benefit::Even => share,
                };
                total = total + final_benefit as i128;
            }
            i += 1;
        }
        assert(self.owed().take(i as int) =~= self.owed());
        total
    }

    /// Enters the balance change of `user` unless it is there already.
    /// Returns `false`, and enters nothing, where that change is not
    /// representable.
    fn enter_change(&self, share: Amount, user: &String, changes: &mut UserAmountMap) -> (entered:
        bool)
        requires
            forall|u: Name| #[trigger]
                old(changes)@.contains_key(u) ==> old(changes)@[u] == delta(
                    self.paid(),
                    self.owed(),
                    share as int,
                    u,
                ),
        ensures
            entered == representable(delta(self.paid(), self.owed(), share as int, user@)),
            entered ==> final(changes)@ == old(changes)@.insert(
                user@,
                delta(self.paid(), self.owed(), share as int, user@),
            ),
            !entered ==> final(changes)@ == old(changes)@,
    {
        let paid = self.contributed_by(user);
        let owed = self.benefit_of(share, user);
        let change = match paid.checked_sub(owed) {
            Some(difference) => narrow(difference),
            None => None,
        };
        match change {
            Some(amount) => {
                if !changes.contains_key(user.as_str()) {
                    changes.insert(user.clone(), amount);
                }
                true
            },
            None => false,
        }
    }

    /// The change of balance that the transaction brings to each user it
    /// names: what they contributed less what they owe, repeated entries
    /// of one user adding up.
    ///
    /// Fails as `benefits_per_even` does, and with `Overflow` where some
    /// user's change is not representable.
    pub fn balance_updates(&self) -> (updates: TransactionResult<UserAmountMap>)
        ensures
            match updates {
                Ok(changes) => split(self.paid(), self.owed()) == Ok::<Map<Name, int>, Failure>(
                    changes@,
                ),
                Err(error) => split(self.paid(), self.owed()) == Err::<Map<Name, int>, Failure>(
                    error@,
                ),
            },
    {
        let benefit_per_even = match self.benefits_per_even() {
            Ok(share) => share,
            Err(error) => {
                return Err(error);
            },
        };
        let ghost share = benefit_per_even as int;
        let mut balance_delta = UserAmountMap::new();
        let mut i: usize = 0;
        while i < self.contributions.len()
            invariant
                i <= self.contributions.len(),
                even_share(self.paid(), self.owed()) == Ok::<int, Failure>(share),
                share == benefit_per_even,
                balance_delta@.dom() == names_of(self.paid().take(i as int)).to_set(),
                forall|u: Name| #[trigger]
                    balance_delta@.contains_key(u) ==> balance_delta@[u] == delta(
                        self.paid(),
                        self.owed(),
                        share,
                        u,
                    ) && representable(delta(self.paid(), self.owed(), share, u)),
            decreases self.contributions.len() - i,
        {
            let ghost user = self.paid()[i as int].0;
            proof {
                lemma_names_grow(self.paid(), i as int);
                assert(names_of(self.paid())[i as int] == user);
            }
            if !self.enter_change(benefit_per_even, &self.contributions[i].0, &mut balance_delta) {
                return Err(TransactionError::Overflow);
            }
            i += 1;
        }
        assert(self.paid().take(i as int) =~= self.paid());
        let mut j: usize = 0;
        while j < self.benefits.len()
            invariant
                j <= self.benefits.len(),
                even_share(self.paid(), self.owed()) == Ok::<int, Failure>(share),
                share == benefit_per_even,
                balance_delta@.dom() == names_of(self.paid()).to_set().union(
                    names_of(self.owed().take(j as int)).to_set(),
                ),
                forall|u: Name| #[trigger]
                    balance_delta@.contains_key(u) ==> balance_delta@[u] == delta(
                        self.paid(),
                        self.owed(),
                        share,
                        u,
                    ) && representable(delta(self.paid(), self.owed(), share, u)),
            decreases self.benefits.len() - j,
        {
            let ghost user = self.owed()[j as int].0;
            proof {
                lemma_names_grow(self.owed(), j as int);
                assert(names_of(self.owed())[j as int] == user);
            }
            if !self.enter_change(benefit_per_even, &self.benefits[j].0, &mut balance_delta) {
                return Err(TransactionError::Overflow);
            }
            j += 1;
        }
        assert(self.owed().take(j as int) =~= self.owed());
        assert(balance_delta@ =~= deltas(self.paid(), self.owed(), share));
        Ok(balance_delta)
    }

    /// The transaction on one line: see `line_text`. The time is not
    /// worded here, since that goes by the reader's time zone, and the labels
    /// are taken as given, so that the caller may set them off.
    pub fn render(&self, time: &str, from: &str, to: &str, about: &str) -> (line: String)
        ensures
            line@ == line_text(*self, time@, from@, to@, about@),
    {
        let mut line = hex_text(self.id);
        line.append("\t");
        line.append(time);
        line.append(" ");
        line.append(from);
        line.append(": ");
        let ghost head = line@;
        let mut i: usize = 0;
        while i < self.contributions.len()
            invariant
                i <= self.contributions.len(),
                line@ == head + contributions_text(self.paid().take(i as int)),
            decreases self.contributions.len() - i,
        {
            proof {
                let next = self.paid().take(i as int + 1);
                assert(next.drop_last() =~= self.paid().take(i as int));
            }
            line.append(self.contributions[i].0.as_str());
            line.append(": ");
            line.append(format_amount(self.contributions[i].1).as_str());
            line.append("; ");
            i += 1;
        }
        assert(self.paid().take(i as int) =~= self.paid());
        line.append(to);
        line.append(": ");
        let ghost middle = line@;
        let mut j: usize = 0;
        while j < self.benefits.len()
            invariant
                j <= self.benefits.len(),
                line@ == middle + benefits_text(self.owed().take(j as int)),
            decreases self.benefits.len() - j,
        {
            proof {
                let next = self.owed().take(j as int + 1);
                assert(next.drop_last() =~= self.owed().take(j as int));
            }
            line.append(self.benefits[j].0.as_str());
            line.append(": ");
            line.append(self.benefits[j].1.to_string().as_str());
            line.append("; ");
            j += 1;
        }
        assert(self.owed().take(j as int) =~= self.owed());
        line.append(about);
        line.append(": ");
        line.append(self.description.as_str());
        line
    }

    /// The transaction that undoes this one, dated now: see `undoes`.
    ///
    /// Fails exactly as `benefits_per_even` does.
    pub fn reverse(&self) -> (undo: TransactionResult<Transaction>)
        ensures
            match undo {
                Ok(reversed) => undoes(reversed, *self),
                Err(error) => even_share(self.paid(), self.owed()) == Err::<int, Failure>(error@),
            },
    {
        let benefit_per_even = match self.benefits_per_even() {
            Ok(share) => share,
            Err(error) => {
                return Err(error);
            },
        };
        let mut contributions: AmountPerUser<UserName> = Vec::new();
        let mut i: usize = 0;
        while i < self.benefits.len()
            invariant
                i <= self.benefits.len(),
                contributions.len() == i,
                forall|k: int|
                    0 <= k < i ==> (#[trigger] contributions[k]).0@ == self.benefits[k].0@
                        && contributions[k].1 == due(self.benefits[k].1, benefit_per_even as int),
            decreases self.benefits.len() - i,
        {
            let amount: Amount = match self.benefits[i].1 {
                Benefit::Sum(number) => number,
                Benefit::Even => benefit_per_even,
            };
            contributions.push((self.benefits[i].0.clone(), amount));
            i += 1;
        }
        let mut benefits: BenefitPerUser<UserName> = Vec::new();
        let mut j: usize = 0;
        while j < self.contributions.len()
            invariant
                j <= self.contributions.len(),
                benefits.len() == j,
                forall|k: int|
                    0 <= k < j ==> (#[trigger] benefits[k]).0@ == self.contributions[k].0@
                        && benefits[k].1 == Benefit::Sum(self.contributions[k].1),
            decreases self.contributions.len() - j,
        {
            benefits.push((self.contributions[j].0.clone(), Benefit::Sum(self.contributions[j].1)));
            j += 1;
        }
        let reversed = Transaction {
            id: 0,
            datetime: current_time(),
            contributions,
            benefits,
            is_direct: false,
            description: undo_description(self.id),
        };
        assert(reversed.paid() =~= repaid(self.owed(), benefit_per_even as int));
        assert(reversed.owed() =~= reclaimed(self.paid()));
        Ok(reversed)
    }
}

} // verus!
