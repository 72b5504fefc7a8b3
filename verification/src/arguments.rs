//! The parts of an expense as they are given on a command line: words that
//! are names and words that are amounts.

use crate::money::{parse_amount, text_amount};
use crate::split::{named_borrowed, representable, Name};
use crate::transaction::{AmountPerUser, Benefit, BenefitPerUser};
use crate::user::Amount;
use vstd::prelude::*;
use vstd::string::StringExecFns;

verus! {

/// Why a list of words does not describe contributions or benefits.
#[derive(Debug, PartialEq, Eq)]
pub enum ArgumentError {
    /// A contributor's name is not followed by an amount.
    UnpairedContribution,
    /// The word where a contributor's amount should stand is no amount.
    NotANumber(String),
    /// An amount stands where no beneficiary precedes it.
    AmountWithoutUser(String),
}

/// The mathematical content of an [`ArgumentError`].
pub enum ArgumentFailure {
    UnpairedContribution,
    NotANumber(Seq<char>),
    AmountWithoutUser(Seq<char>),
}

impl View for ArgumentError {
    type V = ArgumentFailure;

    open spec fn view(&self) -> ArgumentFailure {
        match *self {
            ArgumentError::UnpairedContribution => ArgumentFailure::UnpairedContribution,
            ArgumentError::NotANumber(word) => ArgumentFailure::NotANumber(word@),
            ArgumentError::AmountWithoutUser(word) => ArgumentFailure::AmountWithoutUser(word@),
        }
    }
}

/// A failure in words.
pub open spec fn argument_failure_text(failure: ArgumentFailure) -> Seq<char> {
    match failure {
        ArgumentFailure::UnpairedContribution => "Contributions must be pairs of name and amount"@,
        ArgumentFailure::NotANumber(_) => "Must be a number"@,
        ArgumentFailure::AmountWithoutUser(word) => "Expected a user before "@ + word,
    }
}

impl ArgumentError {
    /// The error in words: see `argument_failure_text`.
    pub fn to_string(&self) -> (text: String)
        ensures
            text@ == argument_failure_text(self@),
    {
        match self {
            ArgumentError::UnpairedContribution => String::from_str(
                "Contributions must be pairs of name and amount",
            ),
            ArgumentError::NotANumber(_) => String::from_str("Must be a number"),
            ArgumentError::AmountWithoutUser(word) => {
                let mut text = String::from_str("Expected a user before ");
                text.append(word.as_str());
                text
            },
        }
    }
}

/// The words of a list of strings.
pub open spec fn words(arguments: Seq<String>) -> Seq<Seq<char>> {
    arguments.map_values(|word: String| word@)
}

/// The amount that a word stands for, if it is a representable amount.
pub open spec fn word_amount(word: Seq<char>) -> Option<Amount> {
    match text_amount(word) {
        Some(amount) => if representable(amount) {
            Some(amount as Amount)
        } else {
            None
        },
        None => None,
    }
}

/// The contributions that a list of words describes: names and amounts
/// in turn. The first pair that is incomplete, or whose second word is no
/// amount, decides the failure.
pub open spec fn contributions_of(words: Seq<Seq<char>>) -> Result<
    Seq<(Name, Amount)>,
    ArgumentFailure,
>
    decreases words.len(),
{
    if words.len() == 0 {
        Ok(Seq::empty())
    } else if words.len() % 2 == 1 {
        match contributions_of(words.drop_last()) {
            Err(failure) => Err(failure),
            Ok(_) => Err(ArgumentFailure::UnpairedContribution),
        }
    } else {
        match contributions_of(words.take(words.len() - 2)) {
            Err(failure) => Err(failure),
            Ok(pairs) => match word_amount(words.last()) {
                Some(amount) => Ok(pairs.push((words[words.len() - 2], amount))),
                None => Err(ArgumentFailure::NotANumber(words.last())),
            },
        }
    }
}

/// Benefits read so far, and the beneficiary whose benefit is still open.
pub struct Reading {
    pub benefits: Seq<(Name, Benefit)>,
    pub pending: Option<Name>,
}

/// The benefits read with the open one settled as an even share.
pub open spec fn closed(reading: Reading) -> Seq<(Name, Benefit)> {
    match reading.pending {
        Some(user) => reading.benefits.push((user, Benefit::Even)),
        None => reading.benefits,
    }
}

/// What reading a list of words leaves. A word that is an amount gives the
/// beneficiary before it an explicit sum, and fails where no beneficiary
/// is open. Any other word is a beneficiary, and settles the one that was
/// open as an even share.
pub open spec fn reading_of(words: Seq<Seq<char>>) -> Result<Reading, ArgumentFailure>
    decreases words.len(),
{
    if words.len() == 0 {
        Ok(Reading { benefits: Seq::empty(), pending: None })
    } else {
        match reading_of(words.drop_last()) {
            Err(failure) => Err(failure),
            Ok(reading) => match word_amount(words.last()) {
                Some(amount) => match reading.pending {
                    Some(user) => Ok(
                        Reading {
                            benefits: reading.benefits.push((user, Benefit::Sum(amount))),
                            pending: None,
                        },
                    ),
                    None => Err(ArgumentFailure::AmountWithoutUser(words.last())),
                },
                None => Ok(Reading { benefits: closed(reading), pending: Some(words.last()) }),
            },
        }
    }
}

/// The benefits that a list of words describes: each name is a
/// beneficiary, by the explicit sum that follows it or, where none
/// follows, by an even share.
pub open spec fn benefits_of(words: Seq<Seq<char>>) -> Result<
    Seq<(Name, Benefit)>,
    ArgumentFailure,
> {
    match reading_of(words) {
        Err(failure) => Err(failure),
        Ok(reading) => Ok(closed(reading)),
    }
}

/// A failure among the first `k` words is the failure of the whole list.
pub proof fn lemma_contributions_failure_stays(words: Seq<Seq<char>>, k: int)
    requires
        0 <= k <= words.len(),
        k % 2 == 0,
        contributions_of(words.take(k)) is Err,
    ensures
        contributions_of(words) == contributions_of(words.take(k)),
    decreases words.len() - k,
{
    if k == words.len() {
        assert(words.take(k) =~= words);
    } else if k + 1 < words.len() {
        assert(words.take(k + 2).take(k) =~= words.take(k));
        lemma_contributions_failure_stays(words, k + 2);
    }
}

/// A failure among the first `k` words is the failure of the whole list.
pub proof fn lemma_reading_failure_stays(words: Seq<Seq<char>>, k: int)
    requires
        0 <= k <= words.len(),
        reading_of(words.take(k)) is Err,
    ensures
        reading_of(words) == reading_of(words.take(k)),
    decreases words.len() - k,
{
    if k < words.len() {
        assert(words.take(k + 1).drop_last() =~= words.take(k));
        lemma_reading_failure_stays(words, k + 1);
    } else {
        assert(words.take(k) =~= words);
    }
}

/// Reads contributions from words that give names and amounts in turn.
pub fn parse_contributors<'a>(arguments: &'a Vec<String>) -> (contributions: Result<
    AmountPerUser<&'a str>,
    ArgumentError,
>)
    ensures
        match contributions {
            Ok(pairs) => contributions_of(words(arguments@)) == Ok::<
                Seq<(Name, Amount)>,
                ArgumentFailure,
            >(named_borrowed(pairs@)),
            Err(error) => contributions_of(words(arguments@)) == Err::<
                Seq<(Name, Amount)>,
                ArgumentFailure,
            >(error@),
        },
{
    let ghost all = words(arguments@);
    let mut contributions: AmountPerUser<&'a str> = Vec::new();
    let mut i: usize = 0;
    assert(named_borrowed(contributions@) =~= Seq::empty());
    while i < arguments.len()
        invariant
            i <= arguments.len(),
            i % 2 == 0,
            all == words(arguments@),
            contributions_of(all.take(i as int)) == Ok::<Seq<(Name, Amount)>, ArgumentFailure>(
                named_borrowed(contributions@),
            ),
        decreases arguments.len() - i,
    {
        if arguments.len() - i < 2 {
            return Err(ArgumentError::UnpairedContribution);
        }
        let ghost pair = all.take(i as int + 2);
        proof {
            assert(pair.take(pair.len() - 2) =~= all.take(i as int));
        }
        let user_name: &'a str = arguments[i].as_str();
        match parse_amount(arguments[i + 1].as_str()) {
            Some(amount) => {
                let ghost before = named_borrowed(contributions@);
                contributions.push((user_name, amount));
                assert(named_borrowed(contributions@) =~= before.push((user_name@, amount)));
            },
            None => {
                proof {
                    lemma_contributions_failure_stays(all, i as int + 2);
                }
                return Err(ArgumentError::NotANumber(arguments[i + 1].clone()));
            },
        }
        i += 2;
    }
    assert(all.take(i as int) =~= all);
    Ok(contributions)
}

/// Reads benefits from words: a name alone is an even share, a name
/// followed by an amount an explicit sum.
pub fn parse_beneficiaries<'a>(arguments: &'a Vec<String>) -> (beneficiaries: Result<
    BenefitPerUser<&'a str>,
    ArgumentError,
>)
    ensures
        match beneficiaries {
            Ok(pairs) => benefits_of(words(arguments@)) == Ok::<
                Seq<(Name, Benefit)>,
                ArgumentFailure,
            >(named_borrowed(pairs@)),
            Err(error) => benefits_of(words(arguments@)) == Err::<
                Seq<(Name, Benefit)>,
                ArgumentFailure,
            >(error@),
        },
{
    let ghost all = words(arguments@);
    let mut beneficiaries: BenefitPerUser<&'a str> = Vec::new();
    let mut prev_user: Option<&'a str> = None;
    let mut i: usize = 0;
    assert(named_borrowed(beneficiaries@) =~= Seq::empty());
    while i < arguments.len()
        invariant
            i <= arguments.len(),
            all == words(arguments@),
            reading_of(all.take(i as int)) == Ok::<Reading, ArgumentFailure>(
                Reading {
                    benefits: named_borrowed(beneficiaries@),
                    pending: match prev_user {
                        Some(user) => Some(user@),
                        None => None,
                    },
                },
            ),
        decreases arguments.len() - i,
    {
        proof {
            assert(all.take(i as int + 1).drop_last() =~= all.take(i as int));
        }
        let ghost before = named_borrowed(beneficiaries@);
        match parse_amount(arguments[i].as_str()) {
            Some(amount) => {
                match prev_user {
                    None => {
                        proof {
                            lemma_reading_failure_stays(all, i as int + 1);
                        }
                        return Err(ArgumentError::AmountWithoutUser(arguments[i].clone()));
                    },
                    Some(user) => {
                        beneficiaries.push((user, Benefit::Sum(amount)));
                        assert(named_borrowed(beneficiaries@) =~= before.push(
                            (user@, Benefit::Sum(amount)),
                        ));
                        prev_user = None;
                    },
                }
            },
            None => {
                if let Some(user) = prev_user {
                    beneficiaries.push((user, Benefit::Even));
                    assert(named_borrowed(beneficiaries@) =~= before.push((user@, Benefit::Even)));
                }
                prev_user = Some(arguments[i].as_str());
            },
        }
        i += 1;
    }
    assert(all.take(i as int) =~= all);
    let ghost before = named_borrowed(beneficiaries@);
    if let Some(user) = prev_user {
        beneficiaries.push((user, Benefit::Even));
        assert(named_borrowed(beneficiaries@) =~= before.push((user@, Benefit::Even)));
    }
    Ok(beneficiaries)
}

} // verus!
