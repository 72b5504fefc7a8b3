//! What holds of every transaction and every ledger.

use crate::books::{apply, lemma_replay_with_user, replay, settle, spend_after, Books};
use crate::error::Failure;
use crate::hex::{hex_number, hex_padded};
use crate::ledger::{LedgerView, CONSISTENCY_CHECK_INTERVAL};
use crate::money::{
    amount_text, first_point, lemma_first_point_stays, text_amount, unsigned_amount,
};
use crate::numerals::{
    digit_char, digit_of, lemma_leading_zeros, lemma_numeral_digits, lemma_numeral_reads_back,
    numeral, numeral_value,
};
use crate::split::{
    delta, deltas, even_count, even_share, involved, names_of, owed_by, paid_by, reclaimed,
    repaid, representable, split, total_fixed, total_paid, Name,
};
use crate::sums::{
    lemma_owed_adds_up, lemma_paid_adds_up, lemma_sum_of_differences, lemma_total_due,
    lemma_total_is_sum, total_due, total_of,
};
use crate::transaction::{undoes, Benefit, Transaction};
use crate::user::Amount;
use vstd::prelude::*;

verus! {

/// The balance changes of a transaction that splits add up to what was
/// paid less what all benefits come to.
pub proof fn lemma_changes_add_up(
    paid: Seq<(Name, Amount)>,
    owed: Seq<(Name, Benefit)>,
    share: int,
)
    ensures
        deltas(paid, owed, share).dom().finite(),
        total_of(deltas(paid, owed, share)) == total_paid(paid) - total_due(owed, share),
{
    broadcast use vstd::seq_lib::seq_to_set_is_finite, vstd::set::group_set_axioms;

    let users = involved(paid, owed);
    let changes = deltas(paid, owed, share);
    assert(changes.dom() =~= users);
    let change = |u: Name| delta(paid, owed, share, u);
    let gave = |u: Name| paid_by(paid, u);
    let took = |u: Name| owed_by(owed, share, u);
    lemma_total_is_sum(changes, change);
    lemma_paid_adds_up(paid, users, gave);
    lemma_owed_adds_up(owed, share, users, took);
    lemma_sum_of_differences(users, change, gave, took);
}

/// A transaction whose benefits are all explicit sums, adding up to
/// exactly what was contributed, is a closed system: it splits, and the
/// changes of all balances sum to zero. (Left out: a transaction with a
/// figure that is not representable, which is refused.)
pub proof fn closed_system(transaction: Transaction)
    requires
        even_count(transaction.owed()) == 0,
        total_fixed(transaction.owed()) == total_paid(transaction.paid()),
        split(transaction.paid(), transaction.owed()) != Err::<Map<Name, int>, Failure>(
            Failure::Overflow,
        ),
    ensures
        split(transaction.paid(), transaction.owed()) is Ok,
        total_of(split(transaction.paid(), transaction.owed())->Ok_0) == 0,
{
    let paid = transaction.paid();
    let owed = transaction.owed();
    lemma_changes_add_up(paid, owed, 0);
    lemma_total_due(owed, 0);
}

/// Whatever a transaction splits into, the changes of all balances sum to
/// what the even shares leave undivided: the remainder of the division,
/// which is zero where there is no even share.
pub proof fn changes_sum_to_remainder(transaction: Transaction)
    requires
        split(transaction.paid(), transaction.owed()) is Ok,
    ensures
        total_of(split(transaction.paid(), transaction.owed())->Ok_0) == if even_count(
            transaction.owed(),
        ) == 0 {
            0
        } else {
            (total_paid(transaction.paid()) - total_fixed(transaction.owed())) % (even_count(
                transaction.owed(),
            ) as int)
        },
{
    let paid = transaction.paid();
    let owed = transaction.owed();
    let share = even_share(paid, owed)->Ok_0;
    let left = total_paid(paid) - total_fixed(owed);
    let evens = even_count(owed) as int;
    lemma_changes_add_up(paid, owed, share);
    lemma_total_due(owed, share);
    if evens != 0 {
        assert(left == evens * (left / evens) + left % evens) by (nonlinear_arith)
            requires
                evens > 0,
        ;
    }
}

/// Explicit benefits that exceed what was contributed are refused, and
/// the refusal carries both totals. (Left out: totals that are not
/// representable.)
pub proof fn excess_benefits_refused(transaction: Transaction)
    requires
        representable(total_paid(transaction.paid())),
        representable(total_fixed(transaction.owed())),
        total_fixed(transaction.owed()) > total_paid(transaction.paid()),
    ensures
        split(transaction.paid(), transaction.owed()) == Err::<Map<Name, int>, Failure>(
            Failure::ExcessBenefits {
                specified: total_fixed(transaction.owed()),
                spent: total_paid(transaction.paid()),
            },
        ),
{
}

/// Spending that the explicit benefits leave over is refused where no
/// even share takes it. (Left out: totals that are not representable.)
pub proof fn unallotted_spending_refused(transaction: Transaction)
    requires
        representable(total_paid(transaction.paid())),
        representable(total_fixed(transaction.owed())),
        total_paid(transaction.paid()) - total_fixed(transaction.owed()) > 0,
        even_count(transaction.owed()) == 0,
    ensures
        split(transaction.paid(), transaction.owed()) == Err::<Map<Name, int>, Failure>(
            Failure::InsufficientBenefits {
                specified: total_fixed(transaction.owed()),
                spent: total_paid(transaction.paid()),
            },
        ),
{
}

/// Reconciling goes by the history and by who has a balance, never by the
/// figures: two ledgers that agree on those reconcile to the same figures,
/// or fail alike, however their figures differ.
pub proof fn reconciliation_ignores_figures(one: LedgerView, other: LedgerView)
    requires
        one.transactions == other.transactions,
        one.balances.dom() == other.balances.dom(),
    ensures
        match one.reconciled() {
            Ok(restored) => other.reconciled() is Ok && other.reconciled()->Ok_0.balances
                == restored.balances && other.reconciled()->Ok_0.total_spend
                == restored.total_spend,
            Err(failure) => other.reconciled() == Err::<LedgerView, Failure>(failure),
        },
{
}

/// Reconciling undoes any damage to the figures. Where a ledger holds the
/// figures of its history, and another differs from it only in the
/// balances it holds for the same users and in its spending total,
/// reconciling the other gives the first.
pub proof fn reconciliation_restores(ledger: LedgerView, spoiled: LedgerView)
    requires
        ledger.reconciled() == Ok::<LedgerView, Failure>(ledger),
        spoiled.transactions == ledger.transactions,
        spoiled.balances.dom() == ledger.balances.dom(),
        spoiled.users == ledger.users,
        spoiled.next_id == ledger.next_id,
    ensures
        spoiled.reconciled() == Ok::<LedgerView, Failure>(ledger),
{
}

/// Reconciling twice is reconciling once.
pub proof fn reconciliation_is_idempotent(ledger: LedgerView)
    requires
        ledger.reconciled() is Ok,
    ensures
        ledger.reconciled()->Ok_0.reconciled() == ledger.reconciled(),
{
    lemma_replay_with_user(ledger.balances.dom(), ledger.transactions, arbitrary());
}

/// A ledger whose figures are those of its history keeps such figures
/// when a transaction is added: what the periodic check restores is what
/// the ledger holds anyway, unless something else changed its figures.
pub proof fn figures_follow_history(ledger: LedgerView, transaction: Transaction)
    requires
        ledger.reconciled() == Ok::<LedgerView, Failure>(ledger),
        ledger.record(transaction) is Ok,
    ensures
        ledger.record(transaction)->Ok_0.reconciled() == ledger.record(transaction),
{
    let entered = Transaction { id: ledger.next_id as usize, ..transaction };
    let history = ledger.transactions.push(entered);
    assert(history.drop_last() =~= ledger.transactions);
    lemma_replay_with_user(ledger.balances.dom(), ledger.transactions, arbitrary());
    let applied = apply(ledger.books(), transaction)->Ok_0;
    assert(applied.balances.dom() =~= ledger.balances.dom());
}

/// A new ledger holds the figures of its history, which is empty.
pub proof fn new_figures_follow_history(names: Seq<Name>)
    ensures
        LedgerView::fresh(names).reconciled() == Ok::<LedgerView, Failure>(
            LedgerView::fresh(names),
        ),
{
    let ledger = LedgerView::fresh(names);
    assert(ledger.balances.dom() =~= names.to_set());
}

/// A ledger whose figures are those of its history keeps such figures
/// when a user is added.
pub proof fn figures_follow_history_with_user(ledger: LedgerView, name: Name)
    requires
        ledger.reconciled() == Ok::<LedgerView, Failure>(ledger),
    ensures
        ledger.with_user(name).reconciled() == Ok::<LedgerView, Failure>(ledger.with_user(name)),
{
    lemma_replay_with_user(ledger.balances.dom(), ledger.transactions, name);
}

/// When the figures are checked against the history. The transaction that
/// brings the history to a multiple of the check interval leaves the
/// figures of the whole history replayed from zero, whatever the ledger
/// held before. Any other transaction changes only the balances of the
/// users it involves, each by the change it brings, so that a balance which
/// was wrong by some amount is still wrong by that amount.
pub proof fn check_falls_on_interval(ledger: LedgerView, transaction: Transaction)
    requires
        ledger.record(transaction) is Ok,
    ensures
        ({
            let after = ledger.record(transaction)->Ok_0;
            let changes = split(transaction.paid(), transaction.owed())->Ok_0;
            if (ledger.transactions.len() + 1) % (CONSISTENCY_CHECK_INTERVAL as nat) == 0 {
                replay(ledger.balances.dom(), after.transactions) == Ok::<Books, Failure>(
                    after.books(),
                )
            } else {
                &&& after.total_spend == spend_after(ledger.total_spend, transaction)
                &&& after.balances == settle(ledger.balances, changes)
                &&& forall|u: Name| #[trigger]
                    ledger.balances.contains_key(u) ==> after.balances[u] - ledger.balances[u]
                        == if changes.contains_key(u) {
                        changes[u]
                    } else {
                        0
                    }
            }
        }),
{
}

/// What the beneficiaries pay back in the reversal is what their benefits
/// came to.
proof fn lemma_repaid(owed: Seq<(Name, Benefit)>, share: int, user: Name)
    requires
        representable(share),
    ensures
        paid_by(repaid(owed, share), user) == owed_by(owed, share, user),
        total_paid(repaid(owed, share)) == total_due(owed, share),
    decreases owed.len(),
{
    if owed.len() > 0 {
        assert(repaid(owed, share).drop_last() =~= repaid(owed.drop_last(), share));
        lemma_repaid(owed.drop_last(), share, user);
    }
}

/// What the contributors are owed back in the reversal is what they paid,
/// all of it in explicit sums.
proof fn lemma_reclaimed(paid: Seq<(Name, Amount)>, user: Name)
    ensures
        owed_by(reclaimed(paid), 0, user) == paid_by(paid, user),
        total_fixed(reclaimed(paid)) == total_paid(paid),
        even_count(reclaimed(paid)) == 0,
    decreases paid.len(),
{
    if paid.len() > 0 {
        assert(reclaimed(paid).drop_last() =~= reclaimed(paid.drop_last()));
        lemma_reclaimed(paid.drop_last(), user);
    }
}

/// The reversal of a transaction names the users that the transaction
/// names.
proof fn lemma_reversal_involves_same(
    paid: Seq<(Name, Amount)>,
    owed: Seq<(Name, Benefit)>,
    share: int,
)
    ensures
        involved(repaid(owed, share), reclaimed(paid)) == involved(paid, owed),
{
    assert(names_of(repaid(owed, share)) =~= names_of(owed));
    assert(names_of(reclaimed(paid)) =~= names_of(paid));
}

/// Reversal round trip: where a transaction splits and its even shares
/// leave nothing undivided, its reversal splits too, among the same users,
/// and changes every balance by the opposite amount. (Left out: a
/// transaction whose even shares leave a remainder. Its reversal takes
/// back less than was paid and is refused for its excess benefits.)
pub proof fn reversal_negates(transaction: Transaction, undo: Transaction)
    requires
        split(transaction.paid(), transaction.owed()) is Ok,
        undoes(undo, transaction),
        even_count(transaction.owed()) != 0 ==> (total_paid(transaction.paid()) - total_fixed(
            transaction.owed(),
        )) % (even_count(transaction.owed()) as int) == 0,
    ensures
        split(undo.paid(), undo.owed()) is Ok,
        split(undo.paid(), undo.owed())->Ok_0.dom() == split(
            transaction.paid(),
            transaction.owed(),
        )->Ok_0.dom(),
        forall|user: Name| #[trigger]
            split(transaction.paid(), transaction.owed())->Ok_0.contains_key(user) ==> split(
                undo.paid(),
                undo.owed(),
            )->Ok_0[user] == -split(transaction.paid(), transaction.owed())->Ok_0[user],
{
    let paid = transaction.paid();
    let owed = transaction.owed();
    let share = even_share(paid, owed)->Ok_0;
    let back = undo.paid();
    let claims = undo.owed();
    let left = total_paid(paid) - total_fixed(owed);
    let evens = even_count(owed) as int;
    lemma_repaid(owed, share, arbitrary());
    lemma_reclaimed(paid, arbitrary());
    lemma_total_due(owed, share);
    if evens != 0 {
        assert(left == evens * (left / evens) + left % evens) by (nonlinear_arith)
            requires
                evens > 0,
        ;
    }
    lemma_reversal_involves_same(paid, owed, share);
    assert forall|u: Name| delta(back, claims, 0, u) == -delta(paid, owed, share, u) by {
        lemma_repaid(owed, share, u);
        lemma_reclaimed(paid, u);
    }
}

/// An id reads back from the hexadecimal digits that show it.
pub proof fn hex_reads_back(id: nat)
    ensures
        hex_number(hex_padded(id)) == Some(id),
{
    let digits = numeral(id, 16);
    lemma_numeral_reads_back(id, 16);
    lemma_numeral_digits(id, 16, 0);
    if digits.len() < 4 {
        let zeros = (4 - digits.len()) as nat;
        lemma_leading_zeros(zeros, digits, 16);
    }
}

/// A text without a point has no first point.
proof fn lemma_no_point(text: Seq<char>)
    requires
        forall|i: int| 0 <= i < text.len() ==> text[i] != '.',
    ensures
        first_point(text) is None,
    decreases text.len(),
{
    if text.len() > 0 {
        lemma_no_point(text.drop_last());
    }
}

/// A digit reads back as its value.
proof fn lemma_digit_reads_back(d: int)
    requires
        0 <= d < 16,
    ensures
        digit_of(digit_char(d)) == Some(d),
{
}

/// Two decimal digits read back as the number below a hundred that they
/// show.
proof fn lemma_two_digits(v: nat)
    requires
        v < 100,
    ensures
        numeral_value(seq![digit_char((v / 10) as int), digit_char((v % 10) as int)], 10) == Some(
            v,
        ),
{
    let tens = digit_char((v / 10) as int);
    let ones = digit_char((v % 10) as int);
    let text = seq![tens, ones];
    lemma_digit_reads_back((v / 10) as int);
    lemma_digit_reads_back((v % 10) as int);
    assert(text.drop_last() =~= seq![tens]);
    assert(numeral_value(seq![tens], 10) == Some(v / 10));
}

/// Whole units, a point and two digits read as the units and the
/// hundredths together.
proof fn lemma_unsigned_parts(units: Seq<char>, part: Seq<char>, whole: nat, fraction: nat)
    requires
        forall|i: int| 0 <= i < units.len() ==> units[i] != '.',
        numeral_value(units, 10) == Some(whole),
        numeral_value(part, 10) == Some(fraction),
        part.len() == 2,
    ensures
        unsigned_amount(units + seq!['.'] + part) == Some(whole * 100 + fraction),
{
    let text = units + seq!['.'] + part;
    let point = units.len() as int;
    lemma_no_point(units);
    assert(text.take(point + 1).drop_last() =~= units);
    lemma_first_point_stays(text, point + 1);
    assert(text.take(point) =~= units);
    assert(text.skip(point + 1) =~= part);
}

/// A digit is neither a sign nor a point.
proof fn lemma_digit_is_plain(c: char)
    requires
        digit_of(c) is Some,
    ensures
        c != '-',
        c != '+',
        c != '.',
{
}

/// The text of an amount that is not negative: units, point, hundredths.
proof fn lemma_amount_text_parts(magnitude: nat)
    ensures
        amount_text(magnitude as int) == numeral(magnitude / 100, 10) + seq!['.'] + seq![
            digit_char((magnitude % 100 / 10) as int),
            digit_char((magnitude % 100 % 10) as int),
        ],
{
}

/// An amount without sign reads back from its text.
proof fn lemma_magnitude_reads_back(magnitude: nat)
    ensures
        unsigned_amount(amount_text(magnitude as int)) == Some(magnitude),
        amount_text(magnitude as int).len() > 0,
        amount_text(magnitude as int)[0] != '-',
        amount_text(magnitude as int)[0] != '+',
{
    let units = numeral(magnitude / 100, 10);
    let part = seq![
        digit_char((magnitude % 100 / 10) as int),
        digit_char((magnitude % 100 % 10) as int),
    ];
    let text = units + seq!['.'] + part;
    lemma_amount_text_parts(magnitude);
    lemma_numeral_reads_back(magnitude / 100, 10);
    assert forall|i: int| 0 <= i < units.len() implies units[i] != '.' by {
        lemma_numeral_digits(magnitude / 100, 10, i);
        lemma_digit_is_plain(units[i]);
    }
    assert(text[0] != '-' && text[0] != '+') by {
        lemma_numeral_digits(magnitude / 100, 10, 0);
        lemma_digit_is_plain(units[0]);
    }
    lemma_two_digits(magnitude % 100);
    lemma_unsigned_parts(units, part, magnitude / 100, magnitude % 100);
}

/// An amount reads back from the text that shows it.
pub proof fn amount_reads_back(amount: int)
    ensures
        text_amount(amount_text(amount)) == Some(amount),
{
    if amount < 0 {
        let shown = amount_text(-amount);
        lemma_magnitude_reads_back((-amount) as nat);
        assert(amount_text(amount).skip(1) =~= shown);
    } else {
        lemma_magnitude_reads_back(amount as nat);
    }
}

} // verus!
