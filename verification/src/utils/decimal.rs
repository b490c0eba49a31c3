//! Unsigned decimal numbers in text.

use vstd::prelude::*;

verus! {

/// The value of an ASCII decimal digit.
pub open spec fn digit_value(c: char) -> Option<nat> {
    if '0' <= c <= '9' {
        Some((c as nat - '0' as nat) as nat)
    } else {
        None
    }
}

/// The number that `digits` write in base ten, most significant digit first; `None` where one
/// of them is not an ASCII digit. No digits write zero.
pub open spec fn decimal_value(digits: Seq<char>) -> Option<nat>
    decreases digits.len(),
{
    if digits.len() == 0 {
        Some(0)
    } else {
        match (decimal_value(digits.drop_last()), digit_value(digits.last())) {
            (Some(value), Some(digit)) => Some(10 * value + digit),
            _ => None,
        }
    }
}

/// The `u32` that `text` writes: an optional `+`, then one or more ASCII digits whose value is
/// at most `u32::MAX`. Anything else writes no number.
pub open spec fn u32_of(text: Seq<char>) -> Option<u32> {
    let digits = if text.len() > 0 && text[0] == '+' {
        text.skip(1)
    } else {
        text
    };
    if digits.len() == 0 {
        None
    } else {
        match decimal_value(digits) {
            Some(value) => if value <= u32::MAX {
                Some(value as u32)
            } else {
                None
            },
            None => None,
        }
    }
}

/// A longer run of digits writes no smaller a number than its beginning, and is no number
/// where its beginning is none.
pub proof fn lemma_decimal_value_grows(digits: Seq<char>, n: int)
    requires
        0 <= n <= digits.len(),
    ensures
        decimal_value(digits.take(n)) is None ==> decimal_value(digits) is None,
        decimal_value(digits) is Some ==> decimal_value(digits.take(n))->Some_0 <= decimal_value(
            digits,
        )->Some_0,
    decreases digits.len(),
{
    if n == digits.len() {
        assert(digits.take(n) =~= digits);
    } else {
        lemma_decimal_value_grows(digits.drop_last(), n);
        assert(digits.drop_last().take(n) =~= digits.take(n));
    }
}

/// Reads a `u32` from `text` as `str::parse::<u32>` does.
pub fn parse_u32(text: &str) -> (number: Option<u32>)
    ensures
        number == u32_of(text@),
{
    let length = text.unicode_len();
    let start: usize = if length > 0 && text.get_char(0) == '+' {
        1
    } else {
        0
    };
    if start == length {
        return None;
    }
    let ghost digits = text@.skip(start as int);
    let mut value: u32 = 0;
    let mut at: usize = start;
    while at < length
        invariant
            start <= at <= length,
            length == text@.len(),
            digits == (if text@.len() > 0 && text@[0] == '+' {
                text@.skip(1)
            } else {
                text@
            }),
            digits.len() == length - start,
            forall|i: int| 0 <= i < digits.len() ==> digits[i] == text@[start + i],
            decimal_value(digits.take(at - start)) == Some(value as nat),
        decreases length - at,
    {
        let c = text.get_char(at);
        proof {
            lemma_decimal_value_grows(digits, at - start + 1);
            assert(digits.take(at - start + 1).drop_last() =~= digits.take(at - start));
        }
        if c < '0' || c > '9' {
            return None;
        }
        let digit: u32 = c as u32 - '0' as u32;
        if value > (u32::MAX - digit) / 10 {
            return None;
        }
        value = 10 * value + digit;
        at = at + 1;
    }
    proof {
        assert(digits.take(at - start) =~= digits);
    }
    Some(value)
}

} // verus!
