//! Sums over finite sets of users, and what the per-user amounts of a
//! transaction add up to.

use crate::split::{due, even_count, names_of, owed_by, paid_by, total_fixed, total_paid, Name};
use crate::transaction::Benefit;
use crate::user::Amount;
use vstd::prelude::*;

verus! {

/// The sum of `amount(u)` over every `u` of a finite set.
pub open spec fn sum_over(users: Set<Name>, amount: spec_fn(Name) -> int) -> int
    decreases users.len(),
    when users.finite()
    via sum_over_decreases
{
    if users.len() == 0 {
        0
    } else {
        let u = users.choose();
        amount(u) + sum_over(users.remove(u), amount)
    }
}

#[via_fn]
proof fn sum_over_decreases(users: Set<Name>, amount: spec_fn(Name) -> int) {
    if users.len() != 0 {
        lemma_pick(users);
    }
}

/// A finite set that is not empty holds the element that `choose` picks,
/// and is smaller without it.
pub proof fn lemma_pick(users: Set<Name>)
    requires
        users.finite(),
        users.len() != 0,
    ensures
        users.contains(users.choose()),
        users.remove(users.choose()).finite(),
        users.remove(users.choose()).len() == users.len() - 1,
{
    broadcast use vstd::set::group_set_axioms;

}

/// The sum of all values of a finite map.
pub open spec fn total_of(amounts: Map<Name, int>) -> int
    decreases amounts.dom().len(),
    when amounts.dom().finite()
    via total_of_decreases
{
    if amounts.dom().len() == 0 {
        0
    } else {
        let u = amounts.dom().choose();
        amounts[u] + total_of(amounts.remove(u))
    }
}

#[via_fn]
proof fn total_of_decreases(amounts: Map<Name, int>) {
    if amounts.dom().len() != 0 {
        lemma_pick(amounts.dom());
    }
}

/// The values of a finite map sum to the sum, over its keys, of any
/// amounts that agree with it there.
pub proof fn lemma_total_is_sum(amounts: Map<Name, int>, amount: spec_fn(Name) -> int)
    requires
        amounts.dom().finite(),
        forall|u: Name| amounts.contains_key(u) ==> #[trigger] amount(u) == amounts[u],
    ensures
        total_of(amounts) == sum_over(amounts.dom(), amount),
    decreases amounts.dom().len(),
{
    if amounts.dom().len() != 0 {
        let u = amounts.dom().choose();
        lemma_pick(amounts.dom());
        lemma_total_is_sum(amounts.remove(u), amount);
    }
}

/// Amounts that agree on every user of the set have the same sum.
pub proof fn lemma_sum_agrees(
    users: Set<Name>,
    one: spec_fn(Name) -> int,
    other: spec_fn(Name) -> int,
)
    requires
        users.finite(),
        forall|u: Name| users.contains(u) ==> #[trigger] one(u) == other(u),
    ensures
        sum_over(users, one) == sum_over(users, other),
    decreases users.len(),
{
    if users.len() != 0 {
        lemma_pick(users);
        lemma_sum_agrees(users.remove(users.choose()), one, other);
    }
}

/// Where each amount is the difference of two others, so is the sum.
pub proof fn lemma_sum_of_differences(
    users: Set<Name>,
    difference: spec_fn(Name) -> int,
    one: spec_fn(Name) -> int,
    other: spec_fn(Name) -> int,
)
    requires
        users.finite(),
        forall|u: Name| users.contains(u) ==> #[trigger] difference(u) == one(u) - other(u),
    ensures
        sum_over(users, difference) == sum_over(users, one) - sum_over(users, other),
    decreases users.len(),
{
    if users.len() != 0 {
        lemma_pick(users);
        lemma_sum_of_differences(users.remove(users.choose()), difference, one, other);
    }
}

/// Where each amount is the sum of two others, so is the sum.
pub proof fn lemma_sum_of_sums(
    users: Set<Name>,
    sum: spec_fn(Name) -> int,
    one: spec_fn(Name) -> int,
    other: spec_fn(Name) -> int,
)
    requires
        users.finite(),
        forall|u: Name| users.contains(u) ==> #[trigger] sum(u) == one(u) + other(u),
    ensures
        sum_over(users, sum) == sum_over(users, one) + sum_over(users, other),
    decreases users.len(),
{
    if users.len() != 0 {
        lemma_pick(users);
        lemma_sum_of_sums(users.remove(users.choose()), sum, one, other);
    }
}

/// Amounts that are zero for everyone but `user` sum to what `user` has
/// where the user is in the set, and to nothing where not.
pub proof fn lemma_sum_of_one(users: Set<Name>, amount: spec_fn(Name) -> int, user: Name)
    requires
        users.finite(),
        forall|u: Name| users.contains(u) && u != user ==> #[trigger] amount(u) == 0,
    ensures
        sum_over(users, amount) == if users.contains(user) {
            amount(user)
        } else {
            0
        },
    decreases users.len(),
{
    if users.len() != 0 {
        lemma_pick(users);
        lemma_sum_of_one(users.remove(users.choose()), amount, user);
    }
}

/// What all benefits come to when an even share is `share`.
pub open spec fn total_due(owed: Seq<(Name, Benefit)>, share: int) -> int
    decreases owed.len(),
{
    if owed.len() == 0 {
        0
    } else {
        total_due(owed.drop_last(), share) + due(owed.last().1, share)
    }
}

/// All benefits together are the explicit ones and one share for each
/// even one.
pub proof fn lemma_total_due(owed: Seq<(Name, Benefit)>, share: int)
    ensures
        total_due(owed, share) == total_fixed(owed) + even_count(owed) * share,
    decreases owed.len(),
{
    if owed.len() != 0 {
        lemma_total_due(owed.drop_last(), share);
        let fewer = even_count(owed.drop_last()) as int;
        let count = even_count(owed) as int;
        if owed.last().1 is Even {
            assert(count * share == fewer * share + share) by (nonlinear_arith)
                requires
                    count == fewer + 1,
            ;
        }
    } else {
        assert(even_count(owed) * share == 0) by (nonlinear_arith)
            requires
                even_count(owed) == 0,
        ;
    }
}

/// What the users of a set paid adds up to everything that was paid, if
/// every contributor is in the set.
pub proof fn lemma_paid_adds_up(
    paid: Seq<(Name, Amount)>,
    users: Set<Name>,
    amount: spec_fn(Name) -> int,
)
    requires
        users.finite(),
        names_of(paid).to_set().subset_of(users),
        forall|u: Name| users.contains(u) ==> #[trigger] amount(u) == paid_by(paid, u),
    ensures
        sum_over(users, amount) == total_paid(paid),
    decreases paid.len(),
{
    if paid.len() == 0 {
        lemma_sum_of_one(users, amount, arbitrary());
    } else {
        let rest = paid.drop_last();
        let last = paid.last();
        assert forall|u: Name| names_of(rest).to_set().contains(u) implies users.contains(u) by {
            let at = choose|at: int| 0 <= at < names_of(rest).len() && names_of(rest)[at] == u;
            assert(names_of(paid)[at] == u);
        }
        assert(names_of(paid)[paid.len() - 1] == last.0);
        let earlier = |u: Name| paid_by(rest, u);
        let latest = |u: Name|
            if u == last.0 {
                last.1 as int
            } else {
                0int
            };
        lemma_paid_adds_up(rest, users, earlier);
        lemma_sum_of_one(users, latest, last.0);
        lemma_sum_of_sums(users, amount, earlier, latest);
    }
}

/// What the users of a set owe adds up to everything that is owed, if
/// every beneficiary is in the set.
pub proof fn lemma_owed_adds_up(
    owed: Seq<(Name, Benefit)>,
    share: int,
    users: Set<Name>,
    amount: spec_fn(Name) -> int,
)
    requires
        users.finite(),
        names_of(owed).to_set().subset_of(users),
        forall|u: Name| users.contains(u) ==> #[trigger] amount(u) == owed_by(owed, share, u),
    ensures
        sum_over(users, amount) == total_due(owed, share),
    decreases owed.len(),
{
    if owed.len() == 0 {
        lemma_sum_of_one(users, amount, arbitrary());
    } else {
        let rest = owed.drop_last();
        let last = owed.last();
        assert forall|u: Name| names_of(rest).to_set().contains(u) implies users.contains(u) by {
            let at = choose|at: int| 0 <= at < names_of(rest).len() && names_of(rest)[at] == u;
            assert(names_of(owed)[at] == u);
        }
        assert(names_of(owed)[owed.len() - 1] == last.0);
        let earlier = |u: Name| owed_by(rest, share, u);
        let latest = |u: Name|
            if u == last.0 {
                due(last.1, share)
            } else {
                0int
            };
        lemma_owed_adds_up(rest, share, users, earlier);
        lemma_sum_of_one(users, latest, last.0);
        lemma_sum_of_sums(users, amount, earlier, latest);
    }
}

} // verus!
