//! Exact integer arithmetic helpers: floor square root, truncating
//! division and saturation, with the spec functions the rest of the crate
//! states its contracts over.

use vstd::prelude::*;

verus! {

/// Floor of the square root of `n`: the unique `r` with
/// `r * r <= n < (r + 1) * (r + 1)`.
pub open spec fn sqrt_floor(n: nat) -> nat
    decreases n,
{
    if n == 0 {
        0
    } else {
        let r = sqrt_floor((n - 1) as nat);
        if (r + 1) * (r + 1) <= n {
            r + 1
        } else {
            r
        }
    }
}

/// `sqrt_floor` is bracketed by the two adjacent squares.
pub proof fn lemma_sqrt_floor_bounds(n: nat)
    ensures
        sqrt_floor(n) * sqrt_floor(n) <= n,
        n < (sqrt_floor(n) + 1) * (sqrt_floor(n) + 1),
    decreases n,
{
    let s = sqrt_floor(n);
    if n == 0 {
        assert(s == 0);
        assert(s * s <= n && n < (s + 1) * (s + 1)) by (nonlinear_arith)
            requires
                s == 0,
                n == 0,
        ;
    } else {
        lemma_sqrt_floor_bounds((n - 1) as nat);
        let r = sqrt_floor((n - 1) as nat);
        if (r + 1) * (r + 1) <= n {
            assert(s == r + 1);
            assert(s * s <= n && n < (s + 1) * (s + 1)) by (nonlinear_arith)
                requires
                    s == r + 1,
                    (r + 1) * (r + 1) <= n,
                    (n - 1) < (r + 1) * (r + 1),
            ;
        } else {
            assert(s == r);
            assert(s * s <= n && n < (s + 1) * (s + 1)) by (nonlinear_arith)
                requires
                    s == r,
                    r * r <= n - 1,
                    !((r + 1) * (r + 1) <= n),
                    n >= 1,
            ;
        }
    }
}

/// A positive number has a positive floor square root.
pub proof fn lemma_sqrt_floor_pos(n: nat)
    requires
        1 <= n,
    ensures
        1 <= sqrt_floor(n),
{
    lemma_sqrt_floor_bounds(n);
    let s = sqrt_floor(n);
    if s == 0 {
        assert(false) by (nonlinear_arith)
            requires
                s == 0,
                n < (s + 1) * (s + 1),
                1 <= n,
        ;
    }
}

/// Any `r` bracketed by adjacent squares around `n` is `sqrt_floor(n)`.
pub proof fn lemma_sqrt_floor_unique(n: nat, r: nat)
    requires
        r * r <= n,
        n < (r + 1) * (r + 1),
    ensures
        sqrt_floor(n) == r,
{
    lemma_sqrt_floor_bounds(n);
    let s = sqrt_floor(n);
    if s < r {
        assert(false) by (nonlinear_arith)
            requires
                s + 1 <= r,
                r * r <= n,
                n < (s + 1) * (s + 1),
        ;
    }
    if r < s {
        assert(false) by (nonlinear_arith)
            requires
                r + 1 <= s,
                s * s <= n,
                n < (r + 1) * (r + 1),
        ;
    }
}

/// Integer square root by bisection.
pub fn isqrt64(n: u64) -> (r: u64)
    ensures
        r == sqrt_floor(n as nat),
        r <= 4_294_967_296u64,
{
    let mut lo: u64 = 0;
    let mut hi: u64 = 4_294_967_296;
    proof {
        assert((lo as nat) * (lo as nat) <= n as nat && (n as nat) < (hi as nat) * (hi as nat))
            by (nonlinear_arith)
            requires
                lo == 0,
                hi == 4_294_967_296u64,
                n <= 18_446_744_073_709_551_615u64,
        ;
    }
    while lo + 1 < hi
        invariant
            lo < hi,
            hi <= 4_294_967_296u64,
            (lo as nat) * (lo as nat) <= n as nat,
            (n as nat) < (hi as nat) * (hi as nat),
        decreases hi - lo,
    {
        let mid: u64 = lo + (hi - lo) / 2;
        proof {
            assert(lo < mid && mid < hi);
            assert((mid as u128) * (mid as u128) < 340_282_366_920_938_463_463_374_607_431_768_211_455u128)
                by (nonlinear_arith)
                requires
                    mid as u128 <= 4_294_967_296u128,
            ;
        }
        if (mid as u128) * (mid as u128) <= n as u128 {
            proof {
                assert((mid as nat) * (mid as nat) == (mid as u128) * (mid as u128));
            }
            lo = mid;
        } else {
            proof {
                assert((mid as nat) * (mid as nat) == (mid as u128) * (mid as u128));
            }
            hi = mid;
        }
    }
    proof {
        assert(hi == lo + 1);
        lemma_sqrt_floor_unique(n as nat, lo as nat);
    }
    lo
}

/// Saturate `v` into `[-limit, limit]`.
pub open spec fn spec_clamp(v: int, limit: int) -> int {
    if v < -limit {
        -limit
    } else if v > limit {
        limit
    } else {
        v
    }
}

/// Saturating narrowing of an `i128` into `[-limit, limit]`.
pub fn clamp128(v: i128, limit: i64) -> (r: i64)
    requires
        limit >= 0,
    ensures
        r == spec_clamp(v as int, limit as int),
{
    if v < -(limit as i128) {
        -limit
    } else if v > limit as i128 {
        limit
    } else {
        v as i64
    }
}

/// Division truncated toward zero, for a positive divisor.
pub open spec fn spec_div_trunc(n: int, d: int) -> int {
    if n >= 0 {
        n / d
    } else {
        -((-n) / d)
    }
}

/// The magnitude of a truncating quotient never exceeds the magnitude of
/// the dividend (positive divisor).
pub proof fn lemma_div_trunc_bound(n: int, d: int)
    requires
        d >= 1,
    ensures
        n >= 0 ==> 0 <= spec_div_trunc(n, d) <= n,
        n < 0 ==> n <= spec_div_trunc(n, d) <= 0,
{
    if n >= 0 {
        vstd::arithmetic::div_mod::lemma_div_nonincreasing(n, d);
        vstd::arithmetic::div_mod::lemma_div_pos_is_pos(n, d);
    } else {
        vstd::arithmetic::div_mod::lemma_div_nonincreasing(-n, d);
        vstd::arithmetic::div_mod::lemma_div_pos_is_pos(-n, d);
    }
}

/// Truncating division of an `i128` by a positive divisor.
pub fn div_trunc(n: i128, d: i128) -> (r: i128)
    requires
        d > 0,
        n > i128::MIN,
    ensures
        r == spec_div_trunc(n as int, d as int),
{
    proof {
        lemma_div_trunc_bound(n as int, d as int);
    }
    if n >= 0 {
        let q: u128 = (n as u128) / (d as u128);
        q as i128
    } else {
        let m: u128 = ((-n) as u128) / (d as u128);
        -(m as i128)
    }
}

} // verus!
