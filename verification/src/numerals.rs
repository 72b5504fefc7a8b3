//! Numbers written out in digits, in any base from two to sixteen.

use vstd::prelude::*;
use vstd::string::StringExecFns;

verus! {

/// The digit for a value below 16; letters are lower case.
pub open spec fn digit_char(d: int) -> char {
    if d == 0 {
        '0'
    } else if d == 1 {
        '1'
    } else if d == 2 {
        '2'
    } else if d == 3 {
        '3'
    } else if d == 4 {
        '4'
    } else if d == 5 {
        '5'
    } else if d == 6 {
        '6'
    } else if d == 7 {
        '7'
    } else if d == 8 {
        '8'
    } else if d == 9 {
        '9'
    } else if d == 10 {
        'a'
    } else if d == 11 {
        'b'
    } else if d == 12 {
        'c'
    } else if d == 13 {
        'd'
    } else if d == 14 {
        'e'
    } else {
        'f'
    }
}

/// The value of a digit; letters count in either case.
pub open spec fn digit_of(c: char) -> Option<int> {
    if c == '0' {
        Some(0)
    } else if c == '1' {
        Some(1)
    } else if c == '2' {
        Some(2)
    } else if c == '3' {
        Some(3)
    } else if c == '4' {
        Some(4)
    } else if c == '5' {
        Some(5)
    } else if c == '6' {
        Some(6)
    } else if c == '7' {
        Some(7)
    } else if c == '8' {
        Some(8)
    } else if c == '9' {
        Some(9)
    } else if c == 'a' || c == 'A' {
        Some(10)
    } else if c == 'b' || c == 'B' {
        Some(11)
    } else if c == 'c' || c == 'C' {
        Some(12)
    } else if c == 'd' || c == 'D' {
        Some(13)
    } else if c == 'e' || c == 'E' {
        Some(14)
    } else if c == 'f' || c == 'F' {
        Some(15)
    } else {
        None
    }
}

/// The digits of `n` in the base given, most significant first, without
/// leading zeros (a single `0` for zero).
pub open spec fn numeral(n: nat, base: nat) -> Seq<char>
    decreases n,
{
    if n < base || base < 2 {
        seq![digit_char(n as int)]
    } else {
        proof {
            lemma_quotient_smaller(n as int, base as int);
        }
        numeral(n / base, base).push(digit_char((n % base) as int))
    }
}

/// The number that a text of digits stands for in the base given, if it
/// is one: at least one character, each a digit below the base.
pub open spec fn numeral_value(text: Seq<char>, base: nat) -> Option<nat>
    decreases text.len(),
{
    if text.len() == 0 {
        None
    } else {
        match digit_of(text.last()) {
            Some(d) => if d >= base {
                None
            } else if text.len() == 1 {
                Some(d as nat)
            } else {
                match numeral_value(text.drop_last(), base) {
                    Some(v) => Some(v * base + d as nat),
                    None => None,
                }
            },
            None => None,
        }
    }
}

/// Dividing by a base leaves less.
pub proof fn lemma_quotient_smaller(n: int, base: int)
    requires
        2 <= base <= n,
    ensures
        0 <= n / base < n,
{
    assert(0 <= n / base < n) by (nonlinear_arith)
        requires
            2 <= base <= n,
    ;
}

/// Reading back what was written gives the number that was written.
pub proof fn lemma_numeral_reads_back(n: nat, base: nat)
    requires
        2 <= base <= 16,
    ensures
        numeral_value(numeral(n, base), base) == Some(n),
        numeral(n, base).len() >= 1,
    decreases n,
{
    if n >= base {
        lemma_numeral_reads_back(n / base, base);
        let text = numeral(n, base);
        assert(text.drop_last() =~= numeral(n / base, base));
        assert(n == (n / base) * base + n % base) by (nonlinear_arith)
            requires
                base > 0,
        ;
    }
}

/// Every character of a numeral is a digit below the base.
pub proof fn lemma_numeral_digits(n: nat, base: nat, i: int)
    requires
        2 <= base <= 16,
        0 <= i < numeral(n, base).len(),
    ensures
        digit_of(numeral(n, base)[i]) is Some,
        digit_of(numeral(n, base)[i])->Some_0 < base,
    decreases n,
{
    if n >= base {
        lemma_quotient_smaller(n as int, base as int);
        if i < numeral(n / base, base).len() {
            lemma_numeral_digits(n / base, base, i);
        }
    }
}

/// Zeros in front of a numeral leave its value as it is.
pub proof fn lemma_leading_zeros(zeros: nat, text: Seq<char>, base: nat)
    requires
        2 <= base <= 16,
        numeral_value(text, base) is Some,
    ensures
        numeral_value(Seq::new(zeros, |i: int| '0') + text, base) == numeral_value(text, base),
    decreases text.len(), zeros,
{
    let padding = Seq::new(zeros, |i: int| '0');
    let padded = padding + text;
    if zeros != 0 && text.len() == 1 {
        let fewer = Seq::new((zeros - 1) as nat, |i: int| '0');
        assert(padded.drop_last() =~= fewer + seq!['0']);
        lemma_leading_zeros((zeros - 1) as nat, seq!['0'], base);
        assert(0 * base == 0) by (nonlinear_arith);
    } else if zeros != 0 {
        assert(padded.drop_last() =~= padding + text.drop_last());
        lemma_leading_zeros(zeros, text.drop_last(), base);
    }
}

/// Every beginning of a numeral is a numeral, of a value no greater.
pub proof fn lemma_numeral_beginnings(text: Seq<char>, base: nat, k: int)
    requires
        numeral_value(text, base) is Some,
        1 <= k <= text.len(),
    ensures
        numeral_value(text.take(k), base) is Some,
        numeral_value(text.take(k), base)->Some_0 <= numeral_value(text, base)->Some_0,
    decreases text.len(),
{
    if k == text.len() {
        assert(text.take(k) =~= text);
    } else {
        assert(text.drop_last().take(k) =~= text.take(k));
        lemma_numeral_beginnings(text.drop_last(), base, k);
        let v = numeral_value(text.drop_last(), base)->Some_0;
        assert(v <= v * base) by (nonlinear_arith)
            requires
                base >= 1,
                v >= 0,
        ;
    }
}

/// The text of one digit.
fn digit_text(d: u64) -> (text: &'static str)
    requires
        d < 16,
    ensures
        text@ == seq![digit_char(d as int)],
{
    proof {
        reveal_strlit("0");
        reveal_strlit("1");
        reveal_strlit("2");
        reveal_strlit("3");
        reveal_strlit("4");
        reveal_strlit("5");
        reveal_strlit("6");
        reveal_strlit("7");
        reveal_strlit("8");
        reveal_strlit("9");
        reveal_strlit("a");
        reveal_strlit("b");
        reveal_strlit("c");
        reveal_strlit("d");
        reveal_strlit("e");
        reveal_strlit("f");
    }
    let text = if d == 0 {
        "0"
    } else if d == 1 {
        "1"
    } else if d == 2 {
        "2"
    } else if d == 3 {
        "3"
    } else if d == 4 {
        "4"
    } else if d == 5 {
        "5"
    } else if d == 6 {
        "6"
    } else if d == 7 {
        "7"
    } else if d == 8 {
        "8"
    } else if d == 9 {
        "9"
    } else if d == 10 {
        "a"
    } else if d == 11 {
        "b"
    } else if d == 12 {
        "c"
    } else if d == 13 {
        "d"
    } else if d == 14 {
        "e"
    } else {
        "f"
    };
    text
}

/// The value of one digit.
fn digit_value(c: char) -> (d: Option<u64>)
    ensures
        match d {
            Some(v) => digit_of(c) == Some(v as int),
            None => digit_of(c) is None,
        },
{
    if c == '0' {
        Some(0)
    } else if c == '1' {
        Some(1)
    } else if c == '2' {
        Some(2)
    } else if c == '3' {
        Some(3)
    } else if c == '4' {
        Some(4)
    } else if c == '5' {
        Some(5)
    } else if c == '6' {
        Some(6)
    } else if c == '7' {
        Some(7)
    } else if c == '8' {
        Some(8)
    } else if c == '9' {
        Some(9)
    } else if c == 'a' || c == 'A' {
        Some(10)
    } else if c == 'b' || c == 'B' {
        Some(11)
    } else if c == 'c' || c == 'C' {
        Some(12)
    } else if c == 'd' || c == 'D' {
        Some(13)
    } else if c == 'e' || c == 'E' {
        Some(14)
    } else if c == 'f' || c == 'F' {
        Some(15)
    } else {
        None
    }
}

/// Writes the digits of `n` in the base given at the end of `text`.
pub(crate) fn append_numeral(text: &mut String, n: u64, base: u64)
    requires
        2 <= base <= 16,
    ensures
        final(text)@ == old(text)@ + numeral(n as nat, base as nat),
    decreases n,
{
    if n >= base {
        proof {
            lemma_quotient_smaller(n as int, base as int);
        }
        append_numeral(text, n / base, base);
    }
    proof {
        assert(n < base ==> n % base == n) by (nonlinear_arith)
            requires
                0 <= n,
                0 < base,
        ;
    }
    text.append(digit_text(n % base));
}

/// Reads the characters of `text` from `from` up to `to` as a number in
/// the base given. `None` where they are no numeral, or one of a number too
/// large for the result.
pub(crate) fn parse_numeral(text: &str, from: usize, to: usize, base: u64) -> (number: Option<u64>)
    requires
        2 <= base <= 16,
        from <= to <= text@.len(),
    ensures
        match number {
            Some(v) => numeral_value(text@.subrange(from as int, to as int), base as nat) == Some(
                v as nat,
            ),
            None => match numeral_value(text@.subrange(from as int, to as int), base as nat) {
                Some(v) => v > u64::MAX,
                None => true,
            },
        },
{
    let ghost digits = text@.subrange(from as int, to as int);
    if from == to {
        return None;
    }
    let mut value: u64 = 0;
    let mut i: usize = from;
    while i < to
        invariant
            from <= i <= to <= text@.len(),
            2 <= base <= 16,
            digits == text@.subrange(from as int, to as int),
            i == from ==> value == 0,
            i > from ==> numeral_value(digits.take(i - from), base as nat) == Some(value as nat),
        decreases to - i,
    {
        let c = text.get_char(i);
        let ghost longer = digits.take(i - from + 1);
        proof {
            assert(longer.drop_last() =~= digits.take(i - from));
        }
        let d = match digit_value(c) {
            Some(d) => d,
            None => {
                proof {
                    if numeral_value(digits, base as nat) is Some {
                        lemma_numeral_beginnings(digits, base as nat, i - from + 1);
                    }
                }
                return None;
            },
        };
        if d >= base {
            proof {
                if numeral_value(digits, base as nat) is Some {
                    lemma_numeral_beginnings(digits, base as nat, i - from + 1);
                }
            }
            return None;
        }
        let next = match value.checked_mul(base) {
            Some(scaled) => scaled.checked_add(d),
            None => None,
        };
        match next {
            Some(next) => {
                value = next;
            },
            None => {
                proof {
                    if numeral_value(digits, base as nat) is Some {
                        lemma_numeral_beginnings(digits, base as nat, i - from + 1);
                    }
                }
                return None;
            },
        }
        i += 1;
    }
    assert(digits.take(i - from) =~= digits);
    Some(value)
}

} // verus!
