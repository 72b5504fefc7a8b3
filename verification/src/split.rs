//! The arithmetic of one transaction, over plain sequences: what was paid,
//! what is owed, how the remainder is shared, and the change of balance
//! that results for each user.

use crate::error::Failure;
use crate::transaction::Benefit;
use crate::user::Amount;
use vstd::prelude::*;

verus! {

/// A user's name, as contracts see it.
pub type Name = Seq<char>;

/// The largest magnitude that an amount may have.
pub const AMOUNT_LIMIT: Amount = 0x7fff_ffff_ffff_ffff;

/// An amount is representable when it and its negation both fit an
/// `Amount`.
pub open spec fn representable(v: int) -> bool {
    -AMOUNT_LIMIT <= v <= AMOUNT_LIMIT
}

/// The entries of a list of pairs, each name taken as its characters.
pub open spec fn named<T>(entries: Seq<(String, T)>) -> Seq<(Name, T)> {
    entries.map_values(|e: (String, T)| (e.0@, e.1))
}

/// The same for a list whose names are borrowed.
pub open spec fn named_borrowed<T>(entries: Seq<(&str, T)>) -> Seq<(Name, T)> {
    entries.map_values(|e: (&str, T)| (e.0@, e.1))
}

/// The names of a list of pairs, in order.
pub open spec fn names_of<T>(entries: Seq<(Name, T)>) -> Seq<Name> {
    entries.map_values(|e: (Name, T)| e.0)
}

/// The sum of all contributions.
pub open spec fn total_paid(paid: Seq<(Name, Amount)>) -> int
    decreases paid.len(),
{
    if paid.len() == 0 {
        0
    } else {
        total_paid(paid.drop_last()) + paid.last().1
    }
}

/// What a benefit adds to the explicitly specified total: its sum, or
/// nothing for an even share.
pub open spec fn fixed_part(benefit: Benefit) -> int {
    match benefit {
        Benefit::Sum(v) => v as int,
        Benefit::Even => 0,
    }
}

/// The sum of all explicit benefits.
pub open spec fn total_fixed(owed: Seq<(Name, Benefit)>) -> int
    decreases owed.len(),
{
    if owed.len() == 0 {
        0
    } else {
        total_fixed(owed.drop_last()) + fixed_part(owed.last().1)
    }
}

/// The number of benefits that are even shares.
pub open spec fn even_count(owed: Seq<(Name, Benefit)>) -> nat
    decreases owed.len(),
{
    if owed.len() == 0 {
        0
    } else {
        even_count(owed.drop_last()) + if owed.last().1 is Even { 1nat } else { 0nat }
    }
}

/// The amount that each even share comes to, or the reason why the
/// transaction cannot be split.
///
/// Both totals must be representable. The explicit benefits must not exceed
/// what was paid. What is left after them is divided among the even shares,
/// rounding down; with no even share, nothing may be left.
pub open spec fn even_share(paid: Seq<(Name, Amount)>, owed: Seq<(Name, Benefit)>) -> Result<
    int,
    Failure,
> {
    let spent = total_paid(paid);
    let specified = total_fixed(owed);
    let evens = even_count(owed);
    if !representable(spent) || !representable(specified) {
        Err(Failure::Overflow)
    } else if specified > spent {
        Err(Failure::ExcessBenefits { specified, spent })
    } else if evens == 0 {
        if spent - specified > 0 {
            Err(Failure::InsufficientBenefits { specified, spent })
        } else {
            Ok(0)
        }
    } else if !representable((spent - specified) / (evens as int)) {
        Err(Failure::Overflow)
    } else {
        Ok((spent - specified) / (evens as int))
    }
}

/// What one benefit comes to, given the amount of an even share.
pub open spec fn due(benefit: Benefit, share: int) -> int {
    match benefit {
        Benefit::Sum(v) => v as int,
        Benefit::Even => share,
    }
}

/// Everything that `user` paid: repeated contributions add up.
pub open spec fn paid_by(paid: Seq<(Name, Amount)>, user: Name) -> int
    decreases paid.len(),
{
    if paid.len() == 0 {
        0
    } else {
        paid_by(paid.drop_last(), user) + if paid.last().0 == user {
            paid.last().1 as int
        } else {
            0
        }
    }
}

/// Everything that `user` owes: repeated benefits add up.
pub open spec fn owed_by(owed: Seq<(Name, Benefit)>, share: int, user: Name) -> int
    decreases owed.len(),
{
    if owed.len() == 0 {
        0
    } else {
        owed_by(owed.drop_last(), share, user) + if owed.last().0 == user {
            due(owed.last().1, share)
        } else {
            0
        }
    }
}

/// The users that a transaction names, as contributors or beneficiaries.
pub open spec fn involved(paid: Seq<(Name, Amount)>, owed: Seq<(Name, Benefit)>) -> Set<Name> {
    names_of(paid).to_set().union(names_of(owed).to_set())
}

/// The change of `user`'s balance: what they paid less what they owe.
pub open spec fn delta(
    paid: Seq<(Name, Amount)>,
    owed: Seq<(Name, Benefit)>,
    share: int,
    user: Name,
) -> int {
    paid_by(paid, user) - owed_by(owed, share, user)
}

/// The change of balance of every user involved.
pub open spec fn deltas(paid: Seq<(Name, Amount)>, owed: Seq<(Name, Benefit)>, share: int) -> Map<
    Name,
    int,
> {
    Map::new(|u: Name| involved(paid, owed).contains(u), |u: Name| delta(paid, owed, share, u))
}

/// The balance changes of a transaction, or the reason why it has none:
/// the failure of `even_share`, or `Overflow` where some user's change is
/// not representable.
pub open spec fn split(paid: Seq<(Name, Amount)>, owed: Seq<(Name, Benefit)>) -> Result<
    Map<Name, int>,
    Failure,
> {
    match even_share(paid, owed) {
        Err(failure) => Err(failure),
        Ok(share) => {
            if forall|u: Name|
                involved(paid, owed).contains(u) ==> representable(
                    #[trigger] delta(paid, owed, share, u),
                ) {
                Ok(deltas(paid, owed, share))
            } else {
                Err(Failure::Overflow)
            }
        },
    }
}

/// The contributions of the reversal: every beneficiary pays back what
/// the benefit came to.
pub open spec fn repaid(owed: Seq<(Name, Benefit)>, share: int) -> Seq<(Name, Amount)> {
    owed.map_values(|e: (Name, Benefit)| (e.0, due(e.1, share) as Amount))
}

/// The benefits of the reversal: every contributor is owed back, as an
/// explicit sum, what they paid.
pub open spec fn reclaimed(paid: Seq<(Name, Amount)>) -> Seq<(Name, Benefit)> {
    paid.map_values(|e: (Name, Amount)| (e.0, Benefit::Sum(e.1)))
}

/// The amount that a wide integer stands for, if it is representable.
pub fn narrow(wide: i128) -> (amount: Option<Amount>)
    ensures
        match amount {
            Some(a) => a == wide && representable(wide as int),
            None => !representable(wide as int),
        },
{
    if -(AMOUNT_LIMIT as i128) <= wide && wide <= AMOUNT_LIMIT as i128 {
        Some(wide as Amount)
    } else {
        None
    }
}

/// The names of a list with one more at its end are the names of the list
/// and that one.
pub proof fn lemma_to_set_push(names: Seq<Name>, name: Name)
    ensures
        names.push(name).to_set() == names.to_set().insert(name),
        !names.contains(name) && names.no_duplicates() ==> names.push(name).no_duplicates(),
{
    let longer = names.push(name);
    assert forall|u: Name| longer.to_set().contains(u) <==> names.to_set().insert(name).contains(
        u,
    ) by {
        if names.contains(u) {
            let at = choose|at: int| 0 <= at < names.len() && names[at] == u;
            assert(longer[at] == u);
        }
        if u == name {
            assert(longer[names.len() as int] == u);
        }
    }
}

/// The names of the first `i + 1` entries are those of the first `i` and
/// the name of entry `i`.
pub proof fn lemma_names_grow<T>(entries: Seq<(Name, T)>, i: int)
    requires
        0 <= i < entries.len(),
    ensures
        names_of(entries.take(i + 1)).to_set() == names_of(entries.take(i)).to_set().insert(
            entries[i].0,
        ),
{
    assert(names_of(entries.take(i + 1)) =~= names_of(entries.take(i)).push(entries[i].0));
    lemma_to_set_push(names_of(entries.take(i)), entries[i].0);
}

} // verus!
