use basic_amm::error::AmmErrorCode;
use basic_amm::liquidity::{
    add_liquidity, deposit_amounts, remove_liquidity, shares_to_mint, LiquidityDeposit,
    LiquidityWithdrawal, PoolReserves,
};
use basic_amm::math::{checked_mul_div, integer_sqrt, wide_mul};
use basic_amm::swap::{fee_adjusted_input, swap};
use basic_amm::utils::{
    calculate_desired_amount_deposit, calculate_desired_amount_withdraw,
    calculate_x_y_amount_return,
};

fn reserves(a: u64, b: u64, t: u64) -> PoolReserves {
    PoolReserves { reserve_a: a, reserve_b: b, lp_supply: t }
}

#[test]
fn empty_pool_first_deposit_seeds_shares_with_geometric_mean() {
    let r = reserves(0, 0, 0);
    let d = add_liquidity(&r, 1_000, 1_000, 100, 400).unwrap();
    assert_eq!(d, LiquidityDeposit { amount_a: 100, amount_b: 400, shares: 200 });
    assert_eq!(integer_sqrt(100 * 400), 200);
}

#[test]
fn non_empty_pool_deposit_follows_reserve_ratio() {
    let r = reserves(100, 400, 200);
    assert_eq!(calculate_desired_amount_deposit(100, 400, 1000), Ok(250));
    assert_eq!(calculate_desired_amount_deposit(400, 100, 50), Ok(200));
    assert_eq!(deposit_amounts(&r, 50, 1000), Ok((50, 200)));
    let d = add_liquidity(&r, 10_000, 10_000, 50, 1000).unwrap();
    assert_eq!(d, LiquidityDeposit { amount_a: 50, amount_b: 200, shares: 100 });
}

#[test]
fn deposit_takes_ideal_a_branch_at_equality() {
    let r = reserves(100, 400, 200);
    assert_eq!(deposit_amounts(&r, 25, 100), Ok((25, 100)));
    assert_eq!(deposit_amounts(&r, 30, 100), Ok((25, 100)));
}

#[test]
fn deposit_is_capped_by_balances() {
    let r = reserves(100, 400, 200);
    let d = add_liquidity(&r, 10, 10_000, 50, 1000).unwrap();
    assert_eq!(d, LiquidityDeposit { amount_a: 10, amount_b: 40, shares: 20 });
}

#[test]
fn zero_sided_deposit_is_refused() {
    assert_eq!(add_liquidity(&reserves(0, 0, 0), 100, 100, 0, 5), Err(AmmErrorCode::DepositTooSmall));
    assert_eq!(add_liquidity(&reserves(100, 400, 200), 100, 100, 0, 5), Err(AmmErrorCode::DepositTooSmall));
}

#[test]
fn deposit_against_a_drained_reserve_overflows() {
    assert_eq!(deposit_amounts(&reserves(5, 0, 10), 1, 1), Err(AmmErrorCode::Overflow));
}

#[test]
fn shares_for_later_deposits_are_proportional() {
    assert_eq!(shares_to_mint(&reserves(100, 400, 200), 50, 200), Ok(100));
    assert_eq!(shares_to_mint(&reserves(0, 0, 0), 3, 3), Ok(3));
    assert_eq!(shares_to_mint(&reserves(0, 0, 0), 2, 5), Ok(3));
}

#[test]
fn swap_a_to_b_prices_with_fee_on_input() {
    let r = reserves(100, 400, 200);
    assert_eq!(fee_adjusted_input(10, 30), Ok(9));
    assert_eq!(calculate_desired_amount_withdraw(100, 400, 9), Ok(33));
    assert_eq!(swap(&r, 30, true, 10, 10, 0), Ok(33));
    assert_eq!(swap(&r, 30, true, 10, 10, 33), Ok(33));
}

#[test]
fn swap_b_to_a_uses_b_as_input_side() {
    let r = reserves(100, 400, 200);
    // floor(40 * 9970 / 10000) = 39; floor(100 * 39 / 439) = 8
    assert_eq!(swap(&r, 30, false, 40, 40, 1), Ok(8));
}

#[test]
fn swap_below_minimum_output_is_refused() {
    let r = reserves(100, 400, 200);
    assert_eq!(swap(&r, 30, true, 10, 10, 34), Err(AmmErrorCode::InvalidParams));
}

#[test]
fn swap_beyond_balance_is_refused() {
    let r = reserves(100, 400, 200);
    assert_eq!(swap(&r, 30, true, 9, 10, 0), Err(AmmErrorCode::InsufficientBalance));
}

#[test]
fn swap_against_empty_pool_with_nothing_in_overflows() {
    assert_eq!(swap(&reserves(0, 0, 0), 30, true, 0, 0, 0), Err(AmmErrorCode::Overflow));
}

#[test]
fn swap_keeps_reserve_product() {
    let r = reserves(100, 400, 200);
    let out = swap(&r, 30, true, 10, 10, 0).unwrap();
    assert!((100 + 10) * (400 - out) >= 100 * 400);
    let big = reserves(u64::MAX / 2, u64::MAX / 3, 7);
    let out = swap(&big, 0, true, u64::MAX / 2, u64::MAX / 2, 0).unwrap();
    assert!((u64::MAX / 2) as u128 * 2 * ((u64::MAX / 3 - out) as u128) >= (u64::MAX / 2) as u128 * (u64::MAX / 3) as u128);
}

#[test]
fn remove_liquidity_pays_proportional_amounts() {
    let r = reserves(150, 600, 300);
    assert_eq!(calculate_x_y_amount_return(150, 600, 100, 300), Ok((50, 200)));
    let w = remove_liquidity(&r, 100, 100).unwrap();
    assert_eq!(w, LiquidityWithdrawal { amount_a: 50, amount_b: 200, close_share_account: true });
    let w = remove_liquidity(&r, 250, 100).unwrap();
    assert_eq!(w, LiquidityWithdrawal { amount_a: 50, amount_b: 200, close_share_account: false });
}

#[test]
fn remove_more_than_held_is_refused() {
    assert_eq!(remove_liquidity(&reserves(150, 600, 300), 99, 100), Err(AmmErrorCode::InsufficientBalance));
}

#[test]
fn remove_that_rounds_to_zero_is_refused() {
    assert_eq!(remove_liquidity(&reserves(1, 600, 300), 10, 1), Err(AmmErrorCode::ZeroAmount));
}

#[test]
fn remove_from_pool_without_shares_overflows() {
    assert_eq!(remove_liquidity(&reserves(150, 600, 0), 0, 0), Err(AmmErrorCode::Overflow));
    assert_eq!(calculate_x_y_amount_return(150, 600, 1, 0), Err(AmmErrorCode::Overflow));
}

#[test]
fn add_then_remove_returns_at_most_the_deposit() {
    let cases: [(PoolReserves, u64, u64); 4] = [
        (reserves(100, 400, 200), 50, 1000),
        (reserves(3, 2, 3), 2, 1_000_000),
        (reserves(7, 1000, 13), 1_000, 333),
        (reserves(999_983, 17, 1_234), 500_000, 5),
    ];
    for (r, want_a, want_b) in cases {
        let d = add_liquidity(&r, u64::MAX, u64::MAX, want_a, want_b).unwrap();
        let after = reserves(r.reserve_a + d.amount_a, r.reserve_b + d.amount_b, r.lp_supply + d.shares);
        match remove_liquidity(&after, d.shares, d.shares) {
            Ok(w) => {
                assert!(w.amount_a <= d.amount_a);
                assert!(w.amount_b <= d.amount_b);
            }
            Err(e) => assert_eq!(e, AmmErrorCode::ZeroAmount),
        }
    }
}

#[test]
fn add_then_remove_keeps_dust_in_pool() {
    let r = reserves(3, 2, 3);
    let d = add_liquidity(&r, 100, 100, 2, 1_000_000).unwrap();
    assert_eq!(d, LiquidityDeposit { amount_a: 2, amount_b: 1, shares: 2 });
    let w = remove_liquidity(&reserves(5, 3, 5), 2, 2).unwrap();
    assert_eq!((w.amount_a, w.amount_b), (2, 1));
}

#[test]
fn mul_div_is_exact_or_overflows() {
    let max = u64::MAX;
    assert_eq!(checked_mul_div(max, max, max), Ok(max));
    assert_eq!(checked_mul_div(max, max, 1), Err(AmmErrorCode::Overflow));
    assert_eq!(checked_mul_div(max, 2, 3), Ok(((max as u128) * 2 / 3) as u64));
    assert_eq!(checked_mul_div(max - 1, max, max - 1), Ok(max));
    assert_eq!(checked_mul_div(max, max - 1, max - 2), Err(AmmErrorCode::Overflow));
    assert_eq!(checked_mul_div(7, 3, 0), Err(AmmErrorCode::Overflow));
    assert_eq!(checked_mul_div(10, 9970, 10000), Ok(9));
}

#[test]
fn wide_mul_keeps_full_product() {
    assert_eq!(wide_mul(u64::MAX, u64::MAX), (u64::MAX as u128) * (u64::MAX as u128));
    assert_eq!(wide_mul(100, 400), 40_000);
}

#[test]
fn integer_sqrt_is_floor_of_root() {
    assert_eq!(integer_sqrt(0), 0);
    assert_eq!(integer_sqrt(1), 1);
    assert_eq!(integer_sqrt(3), 1);
    assert_eq!(integer_sqrt(39_999), 199);
    assert_eq!(integer_sqrt(40_000), 200);
    assert_eq!(integer_sqrt(u128::MAX), u64::MAX);
    let n: u128 = 123_456_789_012_345_678_901_234_567;
    let r = integer_sqrt(n) as u128;
    assert!(r * r <= n && n < (r + 1) * (r + 1));
}

#[test]
fn withdraw_amount_is_below_output_reserve() {
    assert_eq!(calculate_desired_amount_withdraw(0, 400, 9), Ok(400));
    assert_eq!(calculate_desired_amount_withdraw(0, 400, 0), Err(AmmErrorCode::Overflow));
    assert_eq!(calculate_desired_amount_withdraw(u64::MAX, u64::MAX, u64::MAX), Ok(u64::MAX / 2));
}

#[test]
fn integer_sqrt_never_decreases() {
    let mut previous = 0u64;
    for n in 0u128..2_000 {
        let r = integer_sqrt(n);
        assert!(r >= previous);
        previous = r;
    }
    assert!(integer_sqrt(u128::MAX - 1) <= integer_sqrt(u128::MAX));
}
