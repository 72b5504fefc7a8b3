//! Transaction ids are shown and read in hexadecimal.

use crate::numerals::{append_numeral, numeral, numeral_value, parse_numeral};
use vstd::prelude::*;
use vstd::string::{StrSliceExecFns, StringExecFns};

verus! {

/// The hexadecimal digits of `n`, lower case, with zeros in front up to a
/// width of four.
pub open spec fn hex_padded(n: nat) -> Seq<char> {
    let digits = numeral(n, 16);
    if digits.len() < 4 {
        Seq::new((4 - digits.len()) as nat, |i: int| '0') + digits
    } else {
        digits
    }
}

/// The description of the transaction that undoes transaction `id`.
pub open spec fn undo_label(id: nat) -> Seq<char> {
    "Undo "@ + hex_padded(id)
}

/// The number that a text stands for in hexadecimal: digits in either
/// case, and before them a `+` or nothing.
pub open spec fn hex_number(text: Seq<char>) -> Option<nat> {
    if text.len() > 0 && text[0] == '+' {
        numeral_value(text.skip(1), 16)
    } else {
        numeral_value(text, 16)
    }
}

/// An id as it is displayed: in hexadecimal, at least four digits wide.
pub fn hex_text(id: usize) -> (text: String)
    ensures
        text@ == hex_padded(id as nat),
{
    let mut digits = String::new();
    append_numeral(&mut digits, id as u64, 16);
    let width = digits.as_str().unicode_len();
    let mut text = String::new();
    let mut zeros: usize = 0;
    while width < 4 && zeros < 4 - width
        invariant
            width == numeral(id as nat, 16).len(),
            width < 4 ==> zeros <= 4 - width,
            width >= 4 ==> zeros == 0,
            text@ == Seq::new(zeros as nat, |i: int| '0'),
        decreases 4 - zeros,
    {
        proof {
            reveal_strlit("0");
        }
        text.append("0");
        zeros += 1;
    }
    text.append(digits.as_str());
    text
}

/// The description of the transaction that undoes transaction `id`:
/// `Undo` and the id as it is displayed.
pub fn undo_description(id: usize) -> (text: String)
    ensures
        text@ == undo_label(id as nat),
{
    let mut text = String::from_str("Undo ");
    text.append(hex_text(id).as_str());
    text
}

/// Reads a transaction id as it is displayed: in hexadecimal. `None`
/// where the text is no hexadecimal number, or one too large for an id.
pub fn parse_hex_to_int(arg: &str) -> (id: Option<usize>)
    ensures
        match id {
            Some(v) => hex_number(arg@) == Some(v as nat),
            None => match hex_number(arg@) {
                Some(v) => v > usize::MAX,
                None => true,
            },
        },
{
    let length = arg.unicode_len();
    let from: usize = if length > 0 && arg.get_char(0) == '+' {
        1
    } else {
        0
    };
    proof {
        assert(arg@.subrange(0, length as int) =~= arg@);
    }
    match parse_numeral(arg, from, length, 16) {
        Some(value) => {
            if value <= usize::MAX as u64 {
                Some(value as usize)
            } else {
                None
            }
        },
        None => None,
    }
}

} // verus!
