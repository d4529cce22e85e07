use vstd::prelude::*;
use crate::error::AmmErrorCode;
use crate::liquidity::{lemma_floor_at_most, PoolReserves};
use crate::math::{checked_mul_div, mul_div_result};
use crate::utils::{amount_out_result, calculate_desired_amount_withdraw};

verus! {

/// Basis points in a whole: a fee of `fee_bps` keeps `fee_bps / 10000` of the input.
pub const BPS_DENOMINATOR: u64 = 10000;

/// The input side's reserve and the output side's reserve of a swap.
pub open spec fn swap_sides(r: PoolReserves, a_to_b: bool) -> (u64, u64) {
    if a_to_b {
        (r.reserve_a, r.reserve_b)
    } else {
        (r.reserve_b, r.reserve_a)
    }
}

/// The part of the input that prices the trade:
/// `floor(amount_in * (10000 - fee_bps) / 10000)`.
pub open spec fn fee_adjusted_result(amount_in: u64, fee_bps: u16) -> Result<u64, AmmErrorCode> {
    mul_div_result(amount_in, (10000 - fee_bps) as u64, 10000)
}

/// The output of a swap of `amount_in` against the reserves read before the
/// trade: `floor(y * f / (x + f))` with `f` the fee-adjusted input, `x` the
/// input side and `y` the output side. Refused when the trader holds less
/// than `amount_in`, and when the output is below `min_amount_out`.
pub open spec fn swap_result(
    r: PoolReserves,
    fee_bps: u16,
    a_to_b: bool,
    balance_in: u64,
    amount_in: u64,
    min_amount_out: u64,
) -> Result<u64, AmmErrorCode> {
    let (x, y) = swap_sides(r, a_to_b);
    if amount_in > balance_in {
        Err(AmmErrorCode::InsufficientBalance)
    } else {
        match fee_adjusted_result(amount_in, fee_bps) {
            Err(e) => Err(e),
            Ok(f) => match amount_out_result(x, y, f) {
                Err(e) => Err(e),
                Ok(out) => if out < min_amount_out {
                    Err(AmmErrorCode::InvalidParams)
                } else {
                    Ok(out)
                },
            },
        }
    }
}

impl PoolReserves {
    /// The state once `amount_in` has landed on the input side and
    /// `amount_out` has left the output side.
    pub open spec fn after_swap(&self, a_to_b: bool, amount_in: u64, amount_out: u64) -> PoolReserves {
        if a_to_b {
            PoolReserves {
                reserve_a: (self.reserve_a + amount_in) as u64,
                reserve_b: (self.reserve_b - amount_out) as u64,
                lp_supply: self.lp_supply,
            }
        } else {
            PoolReserves {
                reserve_a: (self.reserve_a - amount_out) as u64,
                reserve_b: (self.reserve_b + amount_in) as u64,
                lp_supply: self.lp_supply,
            }
        }
    }
}

/// The part of `amount_in` left once the fee is taken.
pub fn fee_adjusted_input(amount_in: u64, fee_bps: u16) -> (r: Result<u64, AmmErrorCode>)
    requires
        fee_bps < 10000,
    ensures
        r == fee_adjusted_result(amount_in, fee_bps),
{
    checked_mul_div(amount_in, BPS_DENOMINATOR - fee_bps as u64, BPS_DENOMINATOR)
}

/// Prices a swap: the amount to pay out of the output reserve for
/// `amount_in` paid into the input reserve (`a_to_b` names the direction).
pub fn swap(
    reserves: &PoolReserves,
    fee_bps: u16,
    a_to_b: bool,
    balance_in: u64,
    amount_in: u64,
    min_amount_out: u64,
) -> (r: Result<u64, AmmErrorCode>)
    requires
        fee_bps < 10000,
    ensures
        r == swap_result(*reserves, fee_bps, a_to_b, balance_in, amount_in, min_amount_out),
{
    let (x, y) = if a_to_b {
        (reserves.reserve_a, reserves.reserve_b)
    } else {
        (reserves.reserve_b, reserves.reserve_a)
    };
    if amount_in > balance_in {
        return Err(AmmErrorCode::InsufficientBalance);
    }
    let amount_in_minus_fees = fee_adjusted_input(amount_in, fee_bps)?;
    let amount_out = calculate_desired_amount_withdraw(x, y, amount_in_minus_fees)?;
    if amount_out < min_amount_out {
        return Err(AmmErrorCode::InvalidParams);
    }
    Ok(amount_out)
}

/// A swap never lowers the product of the reserves: with `x`, `y` the input
/// and output reserves before the trade, `(x + amount_in) * (y - amount_out) >= x * y`,
/// and the output never exceeds `y`.
pub proof fn lemma_swap_keeps_product(
    r: PoolReserves,
    fee_bps: u16,
    a_to_b: bool,
    balance_in: u64,
    amount_in: u64,
    min_amount_out: u64,
)
    requires
        fee_bps < 10000,
        swap_result(r, fee_bps, a_to_b, balance_in, amount_in, min_amount_out) is Ok,
    ensures
        ({
            let (x, y) = swap_sides(r, a_to_b);
            let out = swap_result(r, fee_bps, a_to_b, balance_in, amount_in, min_amount_out)->Ok_0;
            &&& out <= y
            &&& (x + amount_in) * (y - out) >= x * y
        }),
{
    let (x, y) = swap_sides(r, a_to_b);
    let keep = 10000 - fee_bps;
    let f = amount_in * keep / 10000;
    assert(f <= amount_in) by (nonlinear_arith)
        requires
            f == amount_in * keep / 10000,
            0 <= keep <= 10000,
            amount_in >= 0,
    {
        assert(amount_in * keep <= amount_in * 10000);
    }
    assert(fee_adjusted_result(amount_in, fee_bps) == Ok::<u64, AmmErrorCode>(f as u64));
    let out = y * f / (x + f);
    lemma_product_grows(x as int, y as int, f as int, amount_in as int, out);
}

proof fn lemma_product_grows(x: int, y: int, f: int, a: int, out: int)
    requires
        x >= 0,
        y >= 0,
        0 <= f <= a,
        x + f > 0,
        out == y * f / (x + f),
    ensures
        out <= y,
        (x + a) * (y - out) >= x * y,
{
    let d = x + f;
    vstd::arithmetic::div_mod::lemma_fundamental_div_mod(y * f, d);
    assert(out * d <= y * f) by (nonlinear_arith)
        requires
            d > 0,
            y * f == d * out + (y * f) % d,
            (y * f) % d >= 0,
    ;
    assert(out <= y) by (nonlinear_arith)
        requires
            d > 0,
            out * d <= y * f,
            f <= d,
            y >= 0,
    ;
    assert((x + a) * (y - out) >= x * y) by (nonlinear_arith)
        requires
            d == x + f,
            out * d <= y * f,
            out <= y,
            f <= a,
            x >= 0,
    {
        assert((x + a) * (y - out) >= d * (y - out));
        assert(d * (y - out) == d * y - d * out);
    }
}


/// A swap against a consistent pool that holds liquidity leaves it
/// consistent: the output reserve never drains to zero.
pub proof fn lemma_swap_keeps_consistency(
    r: PoolReserves,
    fee_bps: u16,
    a_to_b: bool,
    balance_in: u64,
    amount_in: u64,
    min_amount_out: u64,
)
    requires
        r.is_consistent(),
        !r.is_empty(),
        fee_bps < 10000,
        swap_result(r, fee_bps, a_to_b, balance_in, amount_in, min_amount_out) is Ok,
        swap_sides(r, a_to_b).0 + amount_in <= u64::MAX,
    ensures
        ({
            let out = swap_result(r, fee_bps, a_to_b, balance_in, amount_in, min_amount_out)->Ok_0;
            &&& out < swap_sides(r, a_to_b).1
            &&& r.after_swap(a_to_b, amount_in, out).is_consistent()
        }),
{
    let (x, y) = swap_sides(r, a_to_b);
    let f = fee_adjusted_result(amount_in, fee_bps)->Ok_0;
    assert(y * f < y * (x + f) && y * f >= 0) by (nonlinear_arith)
        requires
            x > 0,
            y > 0,
            f >= 0,
    ;
    lemma_floor_at_most(y * f, x + f, y - 1);
}

} // verus!
