//! Pool arithmetic: the integer square root used by the liquidity bootstrap
//! rule, and the constant-product facts behind the swap formula.

use vstd::prelude::*;

use vstd::arithmetic::div_mod::{
    lemma_fundamental_div_mod, lemma_mod_division_less_than_divisor,
};

verus! {

/// `r` is the integer square root of `n`.
pub open spec fn is_floor_sqrt(n: int, r: int) -> bool {
    0 <= r && r * r <= n < (r + 1) * (r + 1)
}

/// The integer square root of a nonnegative `n`.
pub open spec fn floor_sqrt(n: int) -> int {
    choose|r: int| is_floor_sqrt(n, r)
}

/// The integer square root exists.
pub proof fn lemma_floor_sqrt_exists(n: int)
    requires
        0 <= n,
    ensures
        is_floor_sqrt(n, floor_sqrt(n)),
    decreases n,
{
    if n == 0 {
        assert(is_floor_sqrt(0, 0));
    } else {
        lemma_floor_sqrt_exists(n - 1);
        let r = floor_sqrt(n - 1);
        if (r + 1) * (r + 1) <= n {
            assert(is_floor_sqrt(n, r + 1)) by (nonlinear_arith)
                requires
                    is_floor_sqrt(n - 1, r),
                    (r + 1) * (r + 1) <= n,
            ;
        } else {
            assert(is_floor_sqrt(n, r));
        }
    }
}

/// The integer square root is unique.
pub proof fn lemma_floor_sqrt_unique(n: int, r1: int, r2: int)
    by (nonlinear_arith)
    requires
        is_floor_sqrt(n, r1),
        is_floor_sqrt(n, r2),
    ensures
        r1 == r2,
{
}

/// The integer square root of `x`: the largest `r` with `r * r <= x`.
pub fn isqrt_u128(x: u128) -> (r: u128)
    ensures
        is_floor_sqrt(x as int, r as int),
        r as int == floor_sqrt(x as int),
{
    let mut lo: u128 = 0;
    let mut hi: u128 = 0x1_0000_0000_0000_0000;
    while lo + 1 < hi
        invariant
            lo < hi <= 0x1_0000_0000_0000_0000,
            (lo as int) * (lo as int) <= x as int,
            (hi as int) * (hi as int) > x as int,
        decreases hi - lo,
    {
        let mid = lo + (hi - lo) / 2;
        assert((mid as int) * (mid as int) <= u128::MAX) by (nonlinear_arith)
            requires
                mid < 0x1_0000_0000_0000_0000,
        ;
        let sq = mid * mid;
        if sq <= x {
            lo = mid;
        } else {
            hi = mid;
        }
    }
    proof {
        assert(is_floor_sqrt(x as int, lo as int));
        lemma_floor_sqrt_exists(x as int);
        lemma_floor_sqrt_unique(x as int, lo as int, floor_sqrt(x as int));
    }
    lo
}

/// A withdrawal of `lp_amt` LP units only empties a positive reserve when
/// the whole supply is withdrawn: `floor(lp_amt * r / supply) == r` forces
/// `lp_amt == supply`.
pub proof fn lemma_full_withdrawal(lp_amt: int, r: int, supply: int)
    requires
        0 < supply,
        0 <= lp_amt <= supply,
        0 < r,
        lp_amt * r / supply == r,
    ensures
        lp_amt == supply,
{
    let p = lp_amt * r;
    assert(p >= 0) by (nonlinear_arith)
        requires
            p == lp_amt * r && lp_amt >= 0 && r >= 0,
    ;
    lemma_fundamental_div_mod(p, supply);
    lemma_mod_division_less_than_divisor(p, supply);
    let m = p % supply;
    assert(lp_amt == supply) by (nonlinear_arith)
        requires
            p == lp_amt * r && supply * r + m == p && 0 <= m && supply > 0 && r > 0 && lp_amt
                <= supply,
    ;
}

/// A swap only empties the output reserve when the input reserve is
/// already empty: `floor(r * x / (r + x)) >= r` forces `r == 0`.
pub proof fn lemma_drain_requires_empty(r: int, x: int)
    requires
        0 <= r,
        0 <= x,
        r + x > 0,
        r * x / (r + x) >= r,
    ensures
        r == 0,
{
    let p = r * x;
    let d = r + x;
    assert(p >= 0) by (nonlinear_arith)
        requires
            p == r * x && r >= 0 && x >= 0,
    ;
    lemma_fundamental_div_mod(p, d);
    lemma_mod_division_less_than_divisor(p, d);
    let q = p / d;
    let m = p % d;
    assert(r == 0) by (nonlinear_arith)
        requires
            p == r * x && d == r + x && d * q + m == p && 0 <= m && d > 0 && q >= r && r >= 0,
    ;
}

/// The constant-product invariant: a swap that charges `x_in` of the input
/// asset, prices the trade over an effective input of `x_eff <= x_in`, and
/// pays out `floor(r_out * x_eff / (r_in + x_eff))`, never decreases the
/// product of the two reserves.
pub proof fn lemma_constant_product(r_in: int, r_out: int, x_eff: int, x_in: int, out: int)
    requires
        0 <= r_in,
        0 <= r_out,
        0 <= x_eff <= x_in,
        r_in + x_eff > 0,
        out == (r_out * x_eff) / (r_in + x_eff),
    ensures
        0 <= out <= r_out,
        (r_in + x_in) * (r_out - out) >= r_in * r_out,
{
    let d = r_in + x_eff;
    let p = r_out * x_eff;
    assert(p >= 0) by (nonlinear_arith)
        requires
            p == r_out * x_eff && r_out >= 0 && x_eff >= 0,
    ;
    lemma_fundamental_div_mod(p, d);
    lemma_mod_division_less_than_divisor(p, d);
    let m = p % d;
    assert(out >= 0) by (nonlinear_arith)
        requires
            d * out + m == p && 0 <= m < d && p >= 0 && d > 0,
    ;
    assert(out <= r_out) by (nonlinear_arith)
        requires
            d * out + m == p && 0 <= m && p == r_out * x_eff && x_eff <= d && d > 0 && r_out >= 0,
    ;
    assert((r_in + x_in) * (r_out - out) >= r_in * r_out) by (nonlinear_arith)
        requires
            d == r_in + x_eff && d * out + m == r_out * x_eff && 0 <= m && x_eff <= x_in && r_out
                - out >= 0 && r_in >= 0 && d > 0,
    ;
}

} // verus!
