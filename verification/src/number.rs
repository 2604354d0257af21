//! Decimal integers in byte text.

use vstd::prelude::*;
use vstd::slice::slice_subrange;

verus! {

/// The plus sign that may stand before an integer.
pub const PLUS: u8 = 43;

/// The minus sign that may stand before an integer.
pub const MINUS: u8 = 45;

/// The digit zero; the other digits follow it.
pub const ZERO: u8 = 48;

/// Whether a byte is one of the digits `0` to `9`.
pub open spec fn is_digit(b: u8) -> bool {
    ZERO <= b <= ZERO + 9
}

/// Whether every byte of a text is a digit.
pub open spec fn all_digits(s: Seq<u8>) -> bool {
    forall|i: int| 0 <= i < s.len() ==> is_digit(#[trigger] s[i])
}

/// What a digit counts for; a byte that is no digit counts for nothing.
pub open spec fn digit_value(b: u8) -> nat {
    if is_digit(b) {
        (b - ZERO) as nat
    } else {
        0
    }
}

/// The number that a run of digits denotes in base ten.
pub open spec fn decimal_value(digits: Seq<u8>) -> nat
    decreases digits.len(),
{
    if digits.len() == 0 {
        0
    } else {
        decimal_value(digits.drop_last()) * 10 + digit_value(digits.last())
    }
}

/// The number that `s` denotes, where `s` is one digit or more and the number
/// is at most `limit`.
pub open spec fn magnitude(s: Seq<u8>, limit: nat) -> Option<nat> {
    if s.len() > 0 && all_digits(s) && decimal_value(s) <= limit {
        Some(decimal_value(s))
    } else {
        None
    }
}

/// The integer that `s` denotes as a count that cannot be negative: digits,
/// with or without a plus sign before them, and a value that an `i32` holds.
pub open spec fn unsigned_value(s: Seq<u8>) -> Option<int> {
    let digits = if s.len() > 0 && s[0] == PLUS {
        s.skip(1)
    } else {
        s
    };
    match magnitude(digits, i32::MAX as nat) {
        Some(n) => Some(n as int),
        None => None,
    }
}

/// The integer that `s` denotes: digits, with or without a sign before
/// them, and a value that an `i32` holds.
pub open spec fn signed_value(s: Seq<u8>) -> Option<int> {
    if s.len() > 0 && s[0] == MINUS {
        match magnitude(s.skip(1), (i32::MAX as nat) + 1) {
            Some(n) => Some(-(n as int)),
            None => None,
        }
    } else {
        unsigned_value(s)
    }
}

/// What is read fits the type it is read into: a count is between 0 and the
/// largest `i32`, an integer between the smallest and the largest.
pub proof fn lemma_values_fit(s: Seq<u8>)
    ensures
        unsigned_value(s) matches Some(n) ==> 0 <= n <= i32::MAX,
        signed_value(s) matches Some(n) ==> i32::MIN <= n <= i32::MAX,
{
}

/// A run of digits denotes at least what any of its prefixes denotes.
pub proof fn lemma_decimal_value_grows(digits: Seq<u8>, n: int)
    requires
        0 <= n <= digits.len(),
    ensures
        decimal_value(digits.take(n)) <= decimal_value(digits),
    decreases digits.len() - n,
{
    if n == digits.len() {
        assert(digits.take(n) =~= digits);
    } else {
        lemma_decimal_value_grows(digits, n + 1);
        assert(digits.take(n + 1).drop_last() =~= digits.take(n));
    }
}

/// Reads a run of digits that denotes at most `limit`.
fn parse_magnitude(s: &[u8], limit: u64) -> (r: Option<u64>)
    requires
        limit <= 0x1_0000_0000,
    ensures
        match r {
            Some(n) => magnitude(s@, limit as nat) == Some(n as nat),
            None => magnitude(s@, limit as nat) is None,
        },
{
    if s.len() == 0 {
        return None;
    }
    let mut value: u64 = 0;
    let mut at: usize = 0;
    while at < s.len()
        invariant
            at <= s.len(),
            limit <= 0x1_0000_0000,
            value <= limit,
            value == decimal_value(s@.take(at as int)),
            all_digits(s@.take(at as int)),
        decreases s.len() - at,
    {
        let b: u8 = s[at];
        if b < ZERO || b > ZERO + 9 {
            proof {
                assert(!is_digit(s@[at as int]));
            }
            return None;
        }
        let next: u64 = value * 10 + (b - ZERO) as u64;
        proof {
            assert(s@.take(at + 1).drop_last() =~= s@.take(at as int));
            assert(next == decimal_value(s@.take(at + 1)));
            assert forall|i: int| 0 <= i < at + 1 implies is_digit(#[trigger] s@.take(at + 1)[i]) by {
                if i < at {
                    assert(s@.take(at as int)[i] == s@.take(at + 1)[i]);
                }
            }
        }
        if next > limit {
            proof {
                lemma_decimal_value_grows(s@, at + 1);
            }
            return None;
        }
        value = next;
        at = at + 1;
    }
    proof {
        assert(s@.take(at as int) =~= s@);
    }
    Some(value)
}

/// Reads a count that cannot be negative.
pub fn parse_unsigned(s: &[u8]) -> (r: Option<i32>)
    ensures
        match r {
            Some(n) => unsigned_value(s@) == Some(n as int),
            None => unsigned_value(s@) is None,
        },
{
    let digits: &[u8] = if s.len() > 0 && s[0] == PLUS {
        let rest = slice_subrange(s, 1, s.len());
        proof {
            assert(rest@ =~= s@.skip(1));
        }
        rest
    } else {
        s
    };
    match parse_magnitude(digits, 0x7fff_ffff) {
        Some(n) => Some(n as i32),
        None => None,
    }
}

/// Reads an integer.
pub fn parse_signed(s: &[u8]) -> (r: Option<i32>)
    ensures
        match r {
            Some(n) => signed_value(s@) == Some(n as int),
            None => signed_value(s@) is None,
        },
{
    if s.len() > 0 && s[0] == MINUS {
        let rest = slice_subrange(s, 1, s.len());
        proof {
            assert(rest@ =~= s@.skip(1));
        }
        match parse_magnitude(rest, 0x8000_0000) {
            Some(n) => {
                let wide: i64 = -(n as i64);
                Some(wide as i32)
            },
            None => None,
        }
    } else {
        parse_unsigned(s)
    }
}

} // verus!
