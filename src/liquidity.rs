use vstd::prelude::*;
use crate::error::AmmErrorCode;
use crate::math::{checked_mul_div, integer_sqrt, isqrt, lemma_isqrt, mul_div_result, wide_mul};
use crate::utils::{calculate_desired_amount_deposit, calculate_x_y_amount_return};

verus! {

/// A reading of a pool's live state, taken before the operation changes it:
/// the two reserve balances and the total supply of LP shares.
#[derive(Debug, Clone, Copy, PartialEq, Eq, Structural)]
pub struct PoolReserves {
    pub reserve_a: u64,
    pub reserve_b: u64,
    pub lp_supply: u64,
}

/// What a provider puts in and the shares minted for it.
#[derive(Debug, Clone, Copy, PartialEq, Eq, Structural)]
pub struct LiquidityDeposit {
    pub amount_a: u64,
    pub amount_b: u64,
    pub shares: u64,
}

/// What a provider takes out for the shares burned, and whether the
/// provider's share account is left empty and is to be closed.
#[derive(Debug, Clone, Copy, PartialEq, Eq, Structural)]
pub struct LiquidityWithdrawal {
    pub amount_a: u64,
    pub amount_b: u64,
    pub close_share_account: bool,
}

impl PoolReserves {
    /// No reserves and no shares: the first deposit sets the price.
    pub open spec fn is_empty(&self) -> bool {
        self.reserve_a == 0 && self.reserve_b == 0 && self.lp_supply == 0
    }

    /// Shares exist exactly when both reserves hold something.
    pub open spec fn is_consistent(&self) -> bool {
        &&& (self.lp_supply == 0) == (self.reserve_a == 0)
        &&& (self.reserve_a == 0) == (self.reserve_b == 0)
    }

    /// The state once a deposit has landed and its shares are minted.
    pub open spec fn after_deposit(&self, d: LiquidityDeposit) -> PoolReserves {
        PoolReserves {
            reserve_a: (self.reserve_a + d.amount_a) as u64,
            reserve_b: (self.reserve_b + d.amount_b) as u64,
            lp_supply: (self.lp_supply + d.shares) as u64,
        }
    }

    /// The state once `shares` are burned and the withdrawal is paid out.
    pub open spec fn after_withdrawal(&self, w: LiquidityWithdrawal, shares: u64) -> PoolReserves {
        PoolReserves {
            reserve_a: (self.reserve_a - w.amount_a) as u64,
            reserve_b: (self.reserve_b - w.amount_b) as u64,
            lp_supply: (self.lp_supply - shares) as u64,
        }
    }
}

pub open spec fn min_u64(a: u64, b: u64) -> u64 {
    if a <= b { a } else { b }
}

/// The amounts a deposit capped at `(max_a, max_b)` puts in. An empty pool
/// takes both caps as they are. Otherwise the pair follows the reserve ratio:
/// `ideal_a = floor(reserve_a * max_b / reserve_b)`; when `max_a >= ideal_a`
/// the deposit is `(ideal_a, max_b)`, else `(max_a, floor(reserve_b * max_a / reserve_a))`.
pub open spec fn deposit_amounts_result(r: PoolReserves, max_a: u64, max_b: u64) -> Result<(u64, u64), AmmErrorCode> {
    if r.is_empty() {
        Ok((max_a, max_b))
    } else {
        match mul_div_result(r.reserve_a, max_b, r.reserve_b) {
            Err(e) => Err(e),
            Ok(ideal_a) => if max_a >= ideal_a {
                Ok((ideal_a, max_b))
            } else {
                match mul_div_result(r.reserve_b, max_a, r.reserve_a) {
                    Err(e) => Err(e),
                    Ok(ideal_b) => Ok((max_a, ideal_b)),
                }
            },
        }
    }
}

/// The shares minted for a deposit of `(amount_a, amount_b)`: the floor of
/// the geometric mean when no shares exist yet, else
/// `floor(amount_a * lp_supply / reserve_a)`.
pub open spec fn minted_shares_result(r: PoolReserves, amount_a: u64, amount_b: u64) -> Result<u64, AmmErrorCode> {
    if r.lp_supply == 0 {
        Ok(isqrt((amount_a * amount_b) as nat) as u64)
    } else {
        mul_div_result(amount_a, r.lp_supply, r.reserve_a)
    }
}

/// A deposit of at most `desired` on each side, capped again by the
/// provider's balances. A deposit that would put nothing in on one side is
/// refused.
pub open spec fn add_liquidity_result(
    r: PoolReserves,
    balance_a: u64,
    balance_b: u64,
    desired_a: u64,
    desired_b: u64,
) -> Result<LiquidityDeposit, AmmErrorCode> {
    match deposit_amounts_result(r, min_u64(desired_a, balance_a), min_u64(desired_b, balance_b)) {
        Err(e) => Err(e),
        Ok((a, b)) => if a == 0 || b == 0 {
            Err(AmmErrorCode::DepositTooSmall)
        } else {
            match minted_shares_result(r, a, b) {
                Err(e) => Err(e),
                Ok(s) => Ok(LiquidityDeposit { amount_a: a, amount_b: b, shares: s }),
            }
        },
    }
}

/// Burning `shares` out of a holding of `lp_balance` pays
/// `(floor(reserve_a * shares / lp_supply), floor(reserve_b * shares / lp_supply))`.
/// Refused when the holding is too small, when a step overflows, and when
/// either side would pay nothing.
pub open spec fn remove_liquidity_result(r: PoolReserves, lp_balance: u64, shares: u64) -> Result<LiquidityWithdrawal, AmmErrorCode> {
    if shares > lp_balance {
        Err(AmmErrorCode::InsufficientBalance)
    } else {
        match (mul_div_result(r.reserve_a, shares, r.lp_supply), mul_div_result(r.reserve_b, shares, r.lp_supply)) {
            (Ok(a), Ok(b)) => if a == 0 || b == 0 {
                Err(AmmErrorCode::ZeroAmount)
            } else {
                Ok(LiquidityWithdrawal { amount_a: a, amount_b: b, close_share_account: shares == lp_balance })
            },
            _ => Err(AmmErrorCode::Overflow),
        }
    }
}

/// The amounts a deposit capped at `(max_a, max_b)` puts into the pool.
pub fn deposit_amounts(reserves: &PoolReserves, max_a: u64, max_b: u64) -> (r: Result<(u64, u64), AmmErrorCode>)
    ensures
        r == deposit_amounts_result(*reserves, max_a, max_b),
{
    if reserves.lp_supply == 0 && reserves.reserve_a == 0 && reserves.reserve_b == 0 {
        return Ok((max_a, max_b));
    }
    let ideal_a = calculate_desired_amount_deposit(reserves.reserve_a, reserves.reserve_b, max_b)?;
    if max_a >= ideal_a {
        Ok((ideal_a, max_b))
    } else {
        let ideal_b = calculate_desired_amount_deposit(reserves.reserve_b, reserves.reserve_a, max_a)?;
        Ok((max_a, ideal_b))
    }
}

/// The shares minted for a deposit of `(amount_a, amount_b)`.
pub fn shares_to_mint(reserves: &PoolReserves, amount_a: u64, amount_b: u64) -> (r: Result<u64, AmmErrorCode>)
    ensures
        r == minted_shares_result(*reserves, amount_a, amount_b),
{
    if reserves.lp_supply == 0 {
        Ok(integer_sqrt(wide_mul(amount_a, amount_b)))
    } else {
        checked_mul_div(amount_a, reserves.lp_supply, reserves.reserve_a)
    }
}

/// Plans a deposit: the amounts to move from the provider into the reserves
/// and the shares to mint to the provider.
pub fn add_liquidity(
    reserves: &PoolReserves,
    balance_a: u64,
    balance_b: u64,
    desired_a: u64,
    desired_b: u64,
) -> (r: Result<LiquidityDeposit, AmmErrorCode>)
    ensures
        r == add_liquidity_result(*reserves, balance_a, balance_b, desired_a, desired_b),
{
    let max_a = if desired_a > balance_a { balance_a } else { desired_a };
    let max_b = if desired_b > balance_b { balance_b } else { desired_b };
    let (amount_a, amount_b) = deposit_amounts(reserves, max_a, max_b)?;
    if amount_a == 0 || amount_b == 0 {
        return Err(AmmErrorCode::DepositTooSmall);
    }
    let shares = shares_to_mint(reserves, amount_a, amount_b)?;
    Ok(LiquidityDeposit { amount_a, amount_b, shares })
}

/// Plans a withdrawal: the shares to burn, the amounts to pay out of the
/// reserves, and whether the provider's share account is then closed.
pub fn remove_liquidity(reserves: &PoolReserves, lp_balance: u64, shares: u64) -> (r: Result<LiquidityWithdrawal, AmmErrorCode>)
    ensures
        r == remove_liquidity_result(*reserves, lp_balance, shares),
{
    if shares > lp_balance {
        return Err(AmmErrorCode::InsufficientBalance);
    }
    let (amount_a, amount_b) = calculate_x_y_amount_return(
        reserves.reserve_a,
        reserves.reserve_b,
        shares,
        reserves.lp_supply,
    )?;
    if amount_a == 0 || amount_b == 0 {
        return Err(AmmErrorCode::ZeroAmount);
    }
    Ok(LiquidityWithdrawal { amount_a, amount_b, close_share_account: lp_balance - shares == 0 })
}


/// `n / d <= q` whenever `n < (q + 1) * d`.
pub(crate) proof fn lemma_floor_at_most(n: int, d: int, q: int)
    requires
        n >= 0,
        d > 0,
        q >= 0,
        n < (q + 1) * d,
    ensures
        n / d <= q,
{
    vstd::arithmetic::div_mod::lemma_fundamental_div_mod(n, d);
    assert(n / d <= q) by (nonlinear_arith)
        requires
            d > 0,
            n == d * (n / d) + n % d,
            n % d >= 0,
            n < (q + 1) * d,
    {
        if n / d > q {
            assert(d * (n / d) >= d * (q + 1));
        }
    }
}

/// `(n / d) * d <= n` for a positive divisor.
proof fn lemma_floor_times(n: int, d: int)
    requires
        n >= 0,
        d > 0,
    ensures
        (n / d) * d <= n,
        n < (n / d + 1) * d,
{
    vstd::arithmetic::div_mod::lemma_fundamental_div_mod(n, d);
    assert((n / d) * d <= n && n < (n / d + 1) * d) by (nonlinear_arith)
        requires
            d > 0,
            n == d * (n / d) + n % d,
            0 <= n % d < d,
    ;
}

/// Redeeming at once all the shares a deposit minted pays back at most the
/// deposit on each side, with reserves `ra + da`, `rb + db` and supply `t + s`.
/// What it needs of the deposit: `s * ra <= da * t` and `rb * da < (db + 1) * ra`.
proof fn lemma_redeem_at_most(ra: int, rb: int, t: int, da: int, db: int, s: int)
    requires
        ra > 0,
        rb >= 0,
        t > 0,
        da >= 0,
        db >= 0,
        s >= 0,
        s * ra <= da * t,
        rb * da < (db + 1) * ra,
    ensures
        (ra + da) * s / (t + s) <= da,
        (rb + db) * s / (t + s) <= db,
{
    assert((ra + da) * s < (da + 1) * (t + s)) by (nonlinear_arith)
        requires
            s * ra <= da * t,
            t > 0,
            s >= 0,
            da >= 0,
    ;
    assert((ra + da) * s >= 0 && (rb + db) * s >= 0) by (nonlinear_arith)
        requires
            ra > 0,
            rb >= 0,
            da >= 0,
            db >= 0,
            s >= 0,
    ;
    lemma_floor_at_most((ra + da) * s, t + s, da);
    assert(rb * s < (db + 1) * t) by (nonlinear_arith)
        requires
            ra > 0,
            rb >= 0,
            s * ra <= da * t,
            rb * da < (db + 1) * ra,
            t > 0,
    {
        assert(rb * (s * ra) <= rb * (da * t));
        assert(rb * (da * t) < (db + 1) * ra * t);
    }
    assert((rb + db) * s < (db + 1) * (t + s)) by (nonlinear_arith)
        requires
            rb * s < (db + 1) * t,
            s >= 0,
            db >= 0,
    ;
    lemma_floor_at_most((rb + db) * s, t + s, db);
}

/// Adding liquidity to a pool that already holds some, then at once
/// removing exactly the shares minted, returns no more than was deposited on
/// either side: rounding may leave dust in the pool but never creates value.
/// The removal either pays out or is refused because one side rounds to zero.
pub proof fn lemma_add_then_remove_returns_at_most_deposit(
    r: PoolReserves,
    balance_a: u64,
    balance_b: u64,
    desired_a: u64,
    desired_b: u64,
)
    requires
        r.reserve_a > 0,
        r.reserve_b > 0,
        r.lp_supply > 0,
        add_liquidity_result(r, balance_a, balance_b, desired_a, desired_b) is Ok,
        ({
            let d = add_liquidity_result(r, balance_a, balance_b, desired_a, desired_b)->Ok_0;
            &&& r.reserve_a + d.amount_a <= u64::MAX
            &&& r.reserve_b + d.amount_b <= u64::MAX
            &&& r.lp_supply + d.shares <= u64::MAX
        }),
    ensures
        ({
            let d = add_liquidity_result(r, balance_a, balance_b, desired_a, desired_b)->Ok_0;
            match remove_liquidity_result(r.after_deposit(d), d.shares, d.shares) {
                Ok(w) => w.amount_a <= d.amount_a && w.amount_b <= d.amount_b,
                Err(e) => e == AmmErrorCode::ZeroAmount,
            }
        }),
{
    let d = add_liquidity_result(r, balance_a, balance_b, desired_a, desired_b)->Ok_0;
    let ra = r.reserve_a as int;
    let rb = r.reserve_b as int;
    let t = r.lp_supply as int;
    let da = d.amount_a as int;
    let db = d.amount_b as int;
    let s = d.shares as int;
    let max_a = min_u64(desired_a, balance_a);
    let max_b = min_u64(desired_b, balance_b);
    assert(s == da * t / ra);
    assert(da * t >= 0) by (nonlinear_arith)
        requires
            da >= 0,
            t >= 0,
    ;
    lemma_floor_times(da * t, ra);
    let ideal_a = (ra * max_b) / rb;
    assert(ra * max_b >= 0) by (nonlinear_arith)
        requires
            ra >= 0,
            max_b >= 0,
    ;
    lemma_floor_times(ra * max_b, rb);
    if max_a >= ideal_a {
        assert(da == ideal_a && db == max_b);
        assert(rb * da < (db + 1) * ra) by (nonlinear_arith)
            requires
                da * rb <= ra * db,
                ra > 0,
        ;
    } else {
        assert(da == max_a);
        assert(rb * max_a >= 0) by (nonlinear_arith)
            requires
                rb >= 0,
                max_a >= 0,
        ;
        lemma_floor_times(rb * max_a, ra);
        assert(db == rb * max_a / ra);
        assert(rb * da < (db + 1) * ra);
    }
    lemma_redeem_at_most(ra, rb, t, da, db, s);
}


/// A deposit into a consistent pool leaves it consistent: the first deposit
/// into an empty pool mints at least one share, and later ones only add.
pub proof fn lemma_add_keeps_consistency(
    r: PoolReserves,
    balance_a: u64,
    balance_b: u64,
    desired_a: u64,
    desired_b: u64,
)
    requires
        r.is_consistent(),
        add_liquidity_result(r, balance_a, balance_b, desired_a, desired_b) is Ok,
        ({
            let d = add_liquidity_result(r, balance_a, balance_b, desired_a, desired_b)->Ok_0;
            &&& r.reserve_a + d.amount_a <= u64::MAX
            &&& r.reserve_b + d.amount_b <= u64::MAX
            &&& r.lp_supply + d.shares <= u64::MAX
        }),
    ensures
        r.after_deposit(add_liquidity_result(r, balance_a, balance_b, desired_a, desired_b)->Ok_0).is_consistent(),
{
    let d = add_liquidity_result(r, balance_a, balance_b, desired_a, desired_b)->Ok_0;
    if r.lp_supply == 0 {
        let n = (d.amount_a * d.amount_b) as nat;
        assert(n >= 1) by (nonlinear_arith)
            requires
                d.amount_a >= 1,
                d.amount_b >= 1,
                n == d.amount_a * d.amount_b,
        ;
        assert(n <= 0xffff_ffff_ffff_ffff * 0xffff_ffff_ffff_ffff) by (nonlinear_arith)
            requires
                n == d.amount_a * d.amount_b,
                d.amount_a <= 0xffff_ffff_ffff_ffff,
                d.amount_b <= 0xffff_ffff_ffff_ffff,
        ;
        lemma_isqrt(n);
        let q = isqrt(n) as int;
        assert(1 <= q <= u64::MAX) by (nonlinear_arith)
            requires
                q >= 0,
                q * q <= n,
                n < (q + 1) * (q + 1),
                1 <= n <= 0xffff_ffff_ffff_ffff * 0xffff_ffff_ffff_ffff,
        {
            if q >= 0x1_0000_0000_0000_0000 {
                assert(q * q >= 0x1_0000_0000_0000_0000int * 0x1_0000_0000_0000_0000int);
            }
        }
        assert(d.shares == q);
    }
}

/// Redeeming shares from a consistent pool, out of a holding no larger than
/// the supply, pays out no more than the reserves and leaves the pool
/// consistent: it empties only when the last share is burned.
pub proof fn lemma_remove_keeps_consistency(r: PoolReserves, lp_balance: u64, shares: u64)
    requires
        r.is_consistent(),
        lp_balance <= r.lp_supply,
        remove_liquidity_result(r, lp_balance, shares) is Ok,
    ensures
        ({
            let w = remove_liquidity_result(r, lp_balance, shares)->Ok_0;
            &&& w.amount_a <= r.reserve_a
            &&& w.amount_b <= r.reserve_b
            &&& shares <= r.lp_supply
            &&& r.after_withdrawal(w, shares).is_consistent()
        }),
{
    let w = remove_liquidity_result(r, lp_balance, shares)->Ok_0;
    let t = r.lp_supply as int;
    let s = shares as int;
    assert(t > 0);
    if s == t {
        assert(r.reserve_a * s / t == r.reserve_a) by (nonlinear_arith)
            requires
                s == t,
                t > 0,
        {
            vstd::arithmetic::div_mod::lemma_div_by_multiple(r.reserve_a as int, t);
        }
        assert(r.reserve_b * s / t == r.reserve_b) by (nonlinear_arith)
            requires
                s == t,
                t > 0,
        {
            vstd::arithmetic::div_mod::lemma_div_by_multiple(r.reserve_b as int, t);
        }
    } else {
        let ra = r.reserve_a as int;
        let rb = r.reserve_b as int;
        assert(ra * s < ra * t && rb * s < rb * t && ra * s >= 0 && rb * s >= 0) by (nonlinear_arith)
            requires
                0 <= s < t,
                ra > 0,
                rb > 0,
        ;
        lemma_floor_at_most(ra * s, t, ra - 1);
        lemma_floor_at_most(rb * s, t, rb - 1);
    }
}

} // verus!
