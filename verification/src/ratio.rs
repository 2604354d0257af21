//! Whole-number percentages.

use vstd::prelude::*;

verus! {

/// The quotient of `a` by `b`, rounded toward zero.
pub open spec fn quotient_toward_zero(a: int, b: int) -> int
    recommends
        b != 0,
{
    if a >= 0 && b > 0 {
        a / b
    } else if a < 0 && b > 0 {
        -((-a) / b)
    } else if a >= 0 && b < 0 {
        -(a / (-b))
    } else {
        (-a) / (-b)
    }
}

/// `part` as a percentage of `whole`, rounded toward zero; 0 where `whole`
/// is 0.
pub open spec fn percent(part: int, whole: int) -> int {
    if whole == 0 {
        0
    } else {
        quotient_toward_zero(100 * part, whole)
    }
}

/// A part that is not negative, of a whole that is positive, is a percentage
/// that is not negative.
pub proof fn lemma_percent_not_negative(part: int, whole: int)
    requires
        whole > 0,
        0 <= part,
    ensures
        0 <= percent(part, whole),
{
    assert(0 <= (100 * part) / whole) by (nonlinear_arith)
        requires
            whole > 0,
            0 <= part,
    ;
}

/// A part between nothing and the whole is between 0 and 100 percent.
pub proof fn lemma_percent_of_a_part(part: int, whole: int)
    requires
        whole > 0,
        0 <= part <= whole,
    ensures
        0 <= percent(part, whole) <= 100,
{
    assert(0 <= (100 * part) / whole <= 100) by (nonlinear_arith)
        requires
            whole > 0,
            0 <= part <= whole,
    ;
}

/// A percentage is no further from zero than a hundred times the part.
pub proof fn lemma_percent_magnitude(part: int, whole: int)
    ensures
        part >= 0 ==> -100 * part <= percent(part, whole) <= 100 * part,
        part < 0 ==> 100 * part <= percent(part, whole) <= -100 * part,
{
    if whole != 0 {
        let a: int = if part >= 0 {
            100 * part
        } else {
            -100 * part
        };
        let b: int = if whole > 0 {
            whole
        } else {
            -whole
        };
        assert(0 <= a / b <= a) by (nonlinear_arith)
            requires
                a >= 0,
                b > 0,
        ;
    }
}

/// Computes `part` as a percentage of `whole`.
pub(crate) fn percent_of(part: i128, whole: i128) -> (p: i128)
    requires
        -0x1_0000_0000_0000_0000_0000_0000 <= part <= 0x1_0000_0000_0000_0000_0000_0000,
        i128::MIN < whole,
    ensures
        p == percent(part as int, whole as int),
{
    if whole == 0 {
        return 0;
    }
    let scaled: i128 = 100 * part;
    let dividend: u128 = if scaled >= 0 {
        scaled as u128
    } else {
        (-scaled) as u128
    };
    let divisor: u128 = if whole > 0 {
        whole as u128
    } else {
        (-whole) as u128
    };
    let magnitude: u128 = dividend / divisor;
    proof {
        assert(magnitude <= dividend) by (nonlinear_arith)
            requires
                magnitude == dividend / divisor,
                divisor > 0,
        ;
    }
    if (scaled >= 0) == (whole > 0) {
        magnitude as i128
    } else {
        -(magnitude as i128)
    }
}

} // verus!
