//! Amounts as text. An amount counts hundredths; as text it is written in
//! whole units with a decimal point.

use crate::numerals::{append_numeral, digit_char, numeral, numeral_value, parse_numeral};
use crate::split::{representable, AMOUNT_LIMIT};
use crate::user::Amount;
use vstd::prelude::*;
use vstd::string::{StrSliceExecFns, StringExecFns};

verus! {

/// How a user stands with the others.
#[derive(Clone, Copy, Debug, PartialEq, Eq, Structural)]
pub enum Standing {
    /// The balance is negative: the user owes.
    Owes,
    /// The balance is zero.
    Settled,
    /// The balance is positive: the user is owed.
    IsOwed,
}

/// How a user with the balance given stands.
pub fn standing(balance: Amount) -> (stands: Standing)
    ensures
        balance < 0 <==> stands == Standing::Owes,
        balance == 0 <==> stands == Standing::Settled,
        balance > 0 <==> stands == Standing::IsOwed,
{
    if balance < 0 {
        Standing::Owes
    } else if balance > 0 {
        Standing::IsOwed
    } else {
        Standing::Settled
    }
}

/// An amount as text: a `-` where it is negative, the whole units, a
/// point, and two digits of hundredths.
pub open spec fn amount_text(amount: int) -> Seq<char> {
    let magnitude = if amount < 0 {
        -amount
    } else {
        amount
    };
    let sign = if amount < 0 {
        seq!['-']
    } else {
        Seq::<char>::empty()
    };
    sign + numeral((magnitude / 100) as nat, 10) + seq![
        '.',
        digit_char(magnitude % 100 / 10),
        digit_char(magnitude % 10),
    ]
}

/// Where the first point of a text stands.
pub open spec fn first_point(text: Seq<char>) -> Option<int>
    decreases text.len(),
{
    if text.len() == 0 {
        None
    } else {
        match first_point(text.drop_last()) {
            Some(at) => Some(at),
            None => if text.last() == '.' {
                Some(text.len() - 1)
            } else {
                None
            },
        }
    }
}

/// The amount that a text without sign stands for: whole units in decimal
/// digits, and after them either nothing, or a point and one or two digits.
pub open spec fn unsigned_amount(body: Seq<char>) -> Option<nat> {
    match first_point(body) {
        None => match numeral_value(body, 10) {
            Some(units) => Some(units * 100),
            None => None,
        },
        Some(point) => {
            let part = body.skip(point + 1);
            match (numeral_value(body.take(point), 10), numeral_value(part, 10)) {
                (Some(units), Some(fraction)) => if part.len() == 1 {
                    Some(units * 100 + fraction * 10)
                } else if part.len() == 2 {
                    Some(units * 100 + fraction)
                } else {
                    None
                },
                _ => None,
            }
        },
    }
}

/// The amount that a text stands for, if it is one: a `-`, a `+` or
/// nothing, and then an amount without sign.
pub open spec fn text_amount(text: Seq<char>) -> Option<int> {
    if text.len() > 0 && text[0] == '-' {
        match unsigned_amount(text.skip(1)) {
            Some(magnitude) => Some(-(magnitude as int)),
            None => None,
        }
    } else if text.len() > 0 && text[0] == '+' {
        match unsigned_amount(text.skip(1)) {
            Some(magnitude) => Some(magnitude as int),
            None => None,
        }
    } else {
        match unsigned_amount(text) {
            Some(magnitude) => Some(magnitude as int),
            None => None,
        }
    }
}

/// A point found among the first `k` characters is the first point of
/// the whole text.
pub proof fn lemma_first_point_stays(text: Seq<char>, k: int)
    requires
        0 <= k <= text.len(),
        first_point(text.take(k)) is Some,
    ensures
        first_point(text) == first_point(text.take(k)),
    decreases text.len() - k,
{
    if k < text.len() {
        assert(text.take(k + 1).drop_last() =~= text.take(k));
        lemma_first_point_stays(text, k + 1);
    } else {
        assert(text.take(k) =~= text);
    }
}

/// Writes an amount as text: see `amount_text`.
pub fn format_amount(amount: Amount) -> (text: String)
    ensures
        text@ == amount_text(amount as int),
{
    let mut text = String::new();
    let magnitude: u64 = if amount < 0 {
        proof {
            reveal_strlit("-");
        }
        text.append("-");
        (-(amount as i128)) as u64
    } else {
        amount as u64
    };
    append_numeral(&mut text, magnitude / 100, 10);
    proof {
        reveal_strlit(".");
    }
    text.append(".");
    append_numeral(&mut text, magnitude % 100 / 10, 10);
    append_numeral(&mut text, magnitude % 10, 10);
    text
}

/// Reads the characters of `text` from `from` on as an amount without
/// sign.
fn parse_unsigned(text: &str, from: usize) -> (magnitude: Option<u64>)
    requires
        from <= text@.len(),
    ensures
        match magnitude {
            Some(m) => unsigned_amount(text@.skip(from as int)) == Some(m as nat) && m
                <= AMOUNT_LIMIT,
            None => match unsigned_amount(text@.skip(from as int)) {
                Some(m) => m > AMOUNT_LIMIT,
                None => true,
            },
        },
{
    let length = text.unicode_len();
    let ghost body = text@.skip(from as int);
    let mut point: usize = from;
    while point < length && text.get_char(point) != '.'
        invariant
            from <= point <= length == text@.len(),
            body == text@.skip(from as int),
            first_point(body.take(point - from)) is None,
        decreases length - point,
    {
        proof {
            assert(body.take(point - from + 1).drop_last() =~= body.take(point - from));
        }
        point += 1;
    }
    if point == length {
        proof {
            assert(body.take(point - from) =~= body);
        }
        return match parse_numeral(text, from, length, 10) {
            Some(units) => {
                if units <= AMOUNT_LIMIT as u64 / 100 {
                    Some(units * 100)
                } else {
                    None
                }
            },
            None => None,
        };
    }
    proof {
        assert(body.take(point - from + 1).drop_last() =~= body.take(point - from));
        lemma_first_point_stays(body, point - from + 1);
        assert(text@.subrange(from as int, point as int) =~= body.take(point - from));
        assert(text@.subrange(point + 1, length as int) =~= body.skip(point - from + 1));
    }
    let places = length - point - 1;
    if places != 1 && places != 2 {
        return None;
    }
    let units = parse_numeral(text, from, point, 10);
    let fraction = parse_numeral(text, point + 1, length, 10);
    match (units, fraction) {
        (Some(units), Some(fraction)) => {
            let hundredths: u128 = if places == 1 {
                fraction as u128 * 10
            } else {
                fraction as u128
            };
            let magnitude: u128 = units as u128 * 100 + hundredths;
            if magnitude <= AMOUNT_LIMIT as u128 {
                Some(magnitude as u64)
            } else {
                None
            }
        },
        _ => None,
    }
}

/// Reads an amount from text: see `text_amount`. `None` where the text is
/// no amount, or an amount that is not representable.
pub fn parse_amount(text: &str) -> (amount: Option<Amount>)
    ensures
        match amount {
            Some(a) => text_amount(text@) == Some(a as int) && representable(a as int),
            None => match text_amount(text@) {
                Some(a) => !representable(a),
                None => true,
            },
        },
{
    let length = text.unicode_len();
    if length > 0 && text.get_char(0) == '-' {
        match parse_unsigned(text, 1) {
            Some(magnitude) => Some(-(magnitude as i64)),
            None => None,
        }
    } else if length > 0 && text.get_char(0) == '+' {
        match parse_unsigned(text, 1) {
            Some(magnitude) => Some(magnitude as i64),
            None => None,
        }
    } else {
        assert(text@.skip(0) =~= text@);
        match parse_unsigned(text, 0) {
            Some(magnitude) => Some(magnitude as i64),
            None => None,
        }
    }
}

} // verus!
