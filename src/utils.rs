use vstd::prelude::*;
use crate::error::AmmErrorCode;
use crate::math::{
    checked_mul_div, lemma_product_bound, mul_div_result, narrow, wide_checked_add,
    wide_checked_div, wide_checked_mul, widen,
};

verus! {

/// `floor(y * a / (x + a))` when `x + a` is not zero; `Overflow` otherwise.
/// The quotient never exceeds `y`, so no other failure is possible.
pub open spec fn amount_out_result(x: u64, y: u64, a: u64) -> Result<u64, AmmErrorCode> {
    if x + a == 0 {
        Err(AmmErrorCode::Overflow)
    } else {
        Ok((y * a / (x + a)) as u64)
    }
}

/// How much of `x` must go in alongside `a` of `y` to keep the ratio `x : y`:
/// `floor(x * a / y)`.
pub fn calculate_desired_amount_deposit(x: u64, y: u64, a: u64) -> (r: Result<u64, AmmErrorCode>)
    ensures
        r == mul_div_result(x, a, y),
{
    checked_mul_div(x, a, y)
}

/// What comes out of the `y` side when `a` goes into the `x` side of a
/// constant-product pool: `floor(y * a / (x + a))`, the sum taken in 256 bits.
pub fn calculate_desired_amount_withdraw(x: u64, y: u64, a: u64) -> (r: Result<u64, AmmErrorCode>)
    ensures
        r == amount_out_result(x, y, a),
        r matches Ok(v) ==> v <= y,
{
    proof {
        lemma_product_bound(y, a);
    }
    let product = match wide_checked_mul(widen(y), widen(a)) {
        Some(p) => p,
        None => return Err(AmmErrorCode::Overflow),
    };
    let sum = match wide_checked_add(widen(x), widen(a)) {
        Some(s) => s,
        None => return Err(AmmErrorCode::Overflow),
    };
    let quotient = match wide_checked_div(product, sum) {
        Some(q) => q,
        None => return Err(AmmErrorCode::Overflow),
    };
    proof {
        let d = x + a;
        assert(y * a / d <= y) by (nonlinear_arith)
            requires
                d > 0,
                a <= d,
                y >= 0,
                a >= 0,
        {
            assert(y * a <= y * d);
            vstd::arithmetic::div_mod::lemma_div_is_ordered(y * a, y * d, d);
            vstd::arithmetic::div_mod::lemma_div_by_multiple(y as int, d);
        }
    }
    narrow(quotient)
}

/// What `s` shares of a supply of `t` redeem from reserves `x` and `y`:
/// `(floor(x * s / t), floor(y * s / t))`.
pub fn calculate_x_y_amount_return(x: u64, y: u64, s: u64, t: u64) -> (r: Result<(u64, u64), AmmErrorCode>)
    ensures
        r matches Ok((ax, ay)) ==> mul_div_result(x, s, t) == Ok::<u64, AmmErrorCode>(ax)
            && mul_div_result(y, s, t) == Ok::<u64, AmmErrorCode>(ay),
        r matches Err(e) ==> e == AmmErrorCode::Overflow && (mul_div_result(x, s, t) is Err
            || mul_div_result(y, s, t) is Err),
{
    let amount_x = checked_mul_div(x, s, t)?;
    let amount_y = checked_mul_div(y, s, t)?;
    Ok((amount_x, amount_y))
}

} // verus!
