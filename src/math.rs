use vstd::prelude::*;
use spl_math::uint::U256;
use crate::error::AmmErrorCode;

verus! {

/// 2^64: the weight of one 64-bit word.
pub open spec fn word_base() -> int {
    0x1_0000_0000_0000_0000int
}

/// 2^256: one more than the largest 256-bit value.
pub open spec fn wide_limit() -> int {
    0x1_0000_0000_0000_0000_0000_0000_0000_0000_0000_0000_0000_0000_0000_0000_0000_0000_0000_0000_0000_0000int
}

/// The number held by four little-endian 64-bit words.
pub open spec fn words_value(w: [u64; 4]) -> nat {
    (w@[0] + w@[1] * word_base() + w@[2] * (word_base() * word_base())
        + w@[3] * (word_base() * word_base() * word_base())) as nat
}

/// Relies on `U256::from(u64)`: the value lands in the lowest word.
#[verifier::external_body]
pub(crate) fn widen(v: u64) -> (r: [u64; 4])
    ensures
        words_value(r) == v,
{
    U256::from(v).0
}

/// Relies on `U256::from(u128)`: the value is kept whole.
#[verifier::external_body]
fn widen_u128(v: u128) -> (r: [u64; 4])
    ensures
        words_value(r) == v,
{
    U256::from(v).0
}

/// Relies on `U256::checked_mul`: the exact product, or `None` when it needs more than 256 bits.
#[verifier::external_body]
pub(crate) fn wide_checked_mul(a: [u64; 4], b: [u64; 4]) -> (r: Option<[u64; 4]>)
    ensures
        r is None <==> words_value(a) * words_value(b) >= wide_limit(),
        r matches Some(p) ==> words_value(p) == words_value(a) * words_value(b),
{
    U256(a).checked_mul(U256(b)).map(|p| p.0)
}

/// Relies on `U256::checked_add`: the exact sum, or `None` when it needs more than 256 bits.
#[verifier::external_body]
pub(crate) fn wide_checked_add(a: [u64; 4], b: [u64; 4]) -> (r: Option<[u64; 4]>)
    ensures
        r is None <==> words_value(a) + words_value(b) >= wide_limit(),
        r matches Some(p) ==> words_value(p) == words_value(a) + words_value(b),
{
    U256(a).checked_add(U256(b)).map(|p| p.0)
}

/// Relies on `U256::checked_div`: the floor of the quotient, or `None` for a zero divisor.
#[verifier::external_body]
pub(crate) fn wide_checked_div(a: [u64; 4], b: [u64; 4]) -> (r: Option<[u64; 4]>)
    ensures
        r is None <==> words_value(b) == 0,
        r matches Some(q) ==> words_value(q) == words_value(a) / words_value(b),
{
    U256(a).checked_div(U256(b)).map(|q| q.0)
}

/// Relies on `U256::integer_sqrt`: the largest `n` with `n * n <= a`.
#[verifier::external_body]
fn wide_integer_sqrt(a: [u64; 4]) -> (r: [u64; 4])
    ensures
        words_value(r) * words_value(r) <= words_value(a),
        words_value(a) < (words_value(r) + 1) * (words_value(r) + 1),
{
    U256(a).integer_sqrt().0
}

/// Relies on `U256::as_u64`, which panics unless the value fits in 64 bits.
#[verifier::external_body]
fn wide_as_u64(a: [u64; 4]) -> (r: u64)
    requires
        words_value(a) <= u64::MAX,
    ensures
        r == words_value(a),
{
    U256(a).as_u64()
}

proof fn lemma_fits_word(w: [u64; 4])
    ensures
        words_value(w) <= u64::MAX <==> (w@[1] == 0 && w@[2] == 0 && w@[3] == 0),
{
    let b = word_base();
    assert(w@[1] * b >= 0 && w@[2] * (b * b) >= 0 && w@[3] * (b * b * b) >= 0) by (nonlinear_arith)
        requires
            b > 0,
            w@[1] >= 0,
            w@[2] >= 0,
            w@[3] >= 0,
    ;
    assert((w@[1] != 0 || w@[2] != 0 || w@[3] != 0) ==> w@[1] * b + w@[2] * (b * b) + w@[3] * (b * b * b) >= b)
        by (nonlinear_arith)
        requires
            b > 1,
            w@[1] >= 0,
            w@[2] >= 0,
            w@[3] >= 0,
    ;
}

/// A 256-bit value brought back to 64 bits, or `Overflow` when it does not fit.
pub(crate) fn narrow(w: [u64; 4]) -> (r: Result<u64, AmmErrorCode>)
    ensures
        words_value(w) <= u64::MAX ==> r == Ok::<u64, AmmErrorCode>(words_value(w) as u64),
        words_value(w) > u64::MAX ==> r == Err::<u64, AmmErrorCode>(AmmErrorCode::Overflow),
{
    proof {
        lemma_fits_word(w);
    }
    if w[1] == 0 && w[2] == 0 && w[3] == 0 {
        Ok(wide_as_u64(w))
    } else {
        Err(AmmErrorCode::Overflow)
    }
}


/// `floor(a * b / c)` when `c` is not zero and the quotient fits in 64 bits;
/// `Overflow` otherwise. Never a wrapped value.
pub open spec fn mul_div_result(a: u64, b: u64, c: u64) -> Result<u64, AmmErrorCode> {
    if c == 0 || a * b / (c as int) > u64::MAX {
        Err(AmmErrorCode::Overflow)
    } else {
        Ok((a * b / (c as int)) as u64)
    }
}

/// Whether `r` is the floor of the square root of `n`.
pub open spec fn is_integer_sqrt(n: int, r: int) -> bool {
    r >= 0 && r * r <= n && n < (r + 1) * (r + 1)
}

/// The floor of the square root of `n`.
pub open spec fn isqrt(n: nat) -> nat
    decreases n,
{
    if n == 0 {
        0
    } else {
        let r = isqrt((n - 1) as nat);
        if (r + 1) * (r + 1) <= n {
            r + 1
        } else {
            r
        }
    }
}

pub proof fn lemma_isqrt(n: nat)
    ensures
        is_integer_sqrt(n as int, isqrt(n) as int),
    decreases n,
{
    if n > 0 {
        lemma_isqrt((n - 1) as nat);
        let r = isqrt((n - 1) as nat);
        assert((r + 1) * (r + 1) > n ==> n < (r + 1) * (r + 1));
        assert((r + 1) * (r + 1) <= n ==> n < (r + 2) * (r + 2)) by (nonlinear_arith)
            requires
                n - 1 < (r + 1) * (r + 1),
                r >= 0,
        ;
    }
}

/// The floor of a square root is unique.
pub proof fn lemma_integer_sqrt_unique(n: int, r: int, s: int)
    requires
        is_integer_sqrt(n, r),
        is_integer_sqrt(n, s),
    ensures
        r == s,
{
    assert(r == s) by (nonlinear_arith)
        requires
            r >= 0,
            s >= 0,
            r * r <= n,
            n < (r + 1) * (r + 1),
            s * s <= n,
            n < (s + 1) * (s + 1),
    {
        if r < s {
            assert((r + 1) * (r + 1) <= s * s);
        } else if s < r {
            assert((s + 1) * (s + 1) <= r * r);
        }
    }
}

/// The floor of the square root never decreases as its input grows.
pub proof fn lemma_isqrt_monotonic(n: nat, m: nat)
    requires
        n <= m,
    ensures
        isqrt(n) <= isqrt(m),
{
    lemma_isqrt(n);
    lemma_isqrt(m);
    let a = isqrt(n) as int;
    let b = isqrt(m) as int;
    assert(a <= b) by (nonlinear_arith)
        requires
            a >= 0,
            b >= 0,
            a * a <= n,
            n <= m,
            m < (b + 1) * (b + 1),
    {
        if a > b {
            assert((b + 1) * (b + 1) <= a * a);
        }
    }
}

pub(crate) proof fn lemma_product_bound(a: u64, b: u64)
    ensures
        0 <= a * b <= u128::MAX,
        a * b < wide_limit(),
{
    assert(0 <= a * b <= 0xffff_ffff_ffff_ffff * 0xffff_ffff_ffff_ffff) by (nonlinear_arith)
        requires
            0 <= a <= 0xffff_ffff_ffff_ffff,
            0 <= b <= 0xffff_ffff_ffff_ffff,
    ;
}

/// The full product of two 64-bit values.
pub fn wide_mul(a: u64, b: u64) -> (r: u128)
    ensures
        r == a * b,
{
    proof {
        lemma_product_bound(a, b);
    }
    (a as u128) * (b as u128)
}

/// `floor(a * b / c)`, with the product held in 256 bits.
pub fn checked_mul_div(a: u64, b: u64, c: u64) -> (r: Result<u64, AmmErrorCode>)
    ensures
        r == mul_div_result(a, b, c),
        r matches Ok(v) ==> c > 0 && v == a * b / (c as int),
        r matches Err(e) ==> e == AmmErrorCode::Overflow,
{
    proof {
        lemma_product_bound(a, b);
    }
    let product = match wide_checked_mul(widen(a), widen(b)) {
        Some(p) => p,
        None => return Err(AmmErrorCode::Overflow),
    };
    let quotient = match wide_checked_div(product, widen(c)) {
        Some(q) => q,
        None => return Err(AmmErrorCode::Overflow),
    };
    narrow(quotient)
}

/// The floor of the square root of `n`.
pub fn integer_sqrt(n: u128) -> (r: u64)
    ensures
        is_integer_sqrt(n as int, r as int),
        r == isqrt(n as nat),
{
    let root = wide_integer_sqrt(widen_u128(n));
    proof {
        let v = words_value(root) as int;
        assert(v <= u64::MAX) by (nonlinear_arith)
            requires
                v >= 0,
                v * v <= n,
                n <= u128::MAX,
        {
            if v > u64::MAX {
                assert(v * v >= 0x1_0000_0000_0000_0000int * 0x1_0000_0000_0000_0000int);
            }
        }
        lemma_isqrt(n as nat);
        lemma_integer_sqrt_unique(n as int, v, isqrt(n as nat) as int);
    }
    wide_as_u64(root)
}

} // verus!
