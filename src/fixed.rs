//! Fixed-point scalar arithmetic: one world unit is `SCALE` ticks of an `i64`,
//! every stored quantity stays within `[-LIMIT, LIMIT]`, and intermediate
//! results are computed in `i128`.
use vstd::prelude::*;

verus! {

/// Number of fixed-point ticks in one world unit.
pub const SCALE: i64 = 1_000_000;

/// Largest magnitude of any stored coordinate, velocity or acceleration.
pub const LIMIT: i64 = 1_000_000_000_000;

pub open spec fn abs(x: int) -> int {
    if x < 0 {
        -x
    } else {
        x
    }
}

/// Saturation of `x` into `[-LIMIT, LIMIT]`.
pub open spec fn clamp(x: int) -> int {
    if x > LIMIT {
        LIMIT as int
    } else if x < -LIMIT {
        -LIMIT
    } else {
        x
    }
}

/// Division rounding toward zero.
pub open spec fn tdiv(a: int, b: int) -> int
    recommends
        b > 0,
{
    if a >= 0 {
        a / b
    } else {
        -((-a) / b)
    }
}

/// `r` is the integer square root of `n`.
pub open spec fn is_isqrt(n: int, r: int) -> bool {
    0 <= r && r * r <= n && n < (r + 1) * (r + 1)
}

/// The integer square root of a non-negative `n`.
pub open spec fn isqrt(n: int) -> int {
    choose|r: int| is_isqrt(n, r)
}

pub proof fn lemma_isqrt_unique(n: int, a: int, b: int)
    requires
        is_isqrt(n, a),
        is_isqrt(n, b),
    ensures
        a == b,
{
    if a < b {
        assert((a + 1) * (a + 1) <= b * b) by (nonlinear_arith)
            requires
                0 <= a,
                a + 1 <= b,
        ;
    } else if b < a {
        assert((b + 1) * (b + 1) <= a * a) by (nonlinear_arith)
            requires
                0 <= b,
                b + 1 <= a,
        ;
    }
}

/// Every non-negative integer has an integer square root.
pub proof fn lemma_isqrt(n: int)
    requires
        n >= 0,
    ensures
        is_isqrt(n, isqrt(n)),
    decreases n,
{
    if n == 0 {
        assert(is_isqrt(0, 0));
    } else {
        lemma_isqrt(n - 1);
        let r = isqrt(n - 1);
        if (r + 1) * (r + 1) <= n {
            assert(n < (r + 2) * (r + 2)) by (nonlinear_arith)
                requires
                    0 <= r,
                    n - 1 < (r + 1) * (r + 1),
            ;
            assert(is_isqrt(n, r + 1));
        } else {
            assert(is_isqrt(n, r));
        }
    }
}

pub proof fn lemma_tdiv_bound(a: int, b: int)
    requires
        b >= 1,
    ensures
        abs(tdiv(a, b)) <= abs(a),
        a >= 0 ==> tdiv(a, b) >= 0,
        a <= 0 ==> tdiv(a, b) <= 0,
{
    if a >= 0 {
        assert(a / b <= a) by (nonlinear_arith)
            requires
                a >= 0,
                b >= 1,
        ;
        assert(a / b >= 0) by (nonlinear_arith)
            requires
                a >= 0,
                b >= 1,
        ;
    } else {
        assert((-a) / b <= -a) by (nonlinear_arith)
            requires
                -a >= 0,
                b >= 1,
        ;
        assert((-a) / b >= 0) by (nonlinear_arith)
            requires
                -a >= 0,
                b >= 1,
        ;
    }
}

/// Saturates an intermediate result into the stored range.
pub fn clamp_wide(x: i128) -> (r: i64)
    ensures
        r == clamp(x as int),
{
    if x > LIMIT as i128 {
        LIMIT
    } else if x < -(LIMIT as i128) {
        -LIMIT
    } else {
        x as i64
    }
}

/// Division of `a` by a positive `b`, rounding toward zero.
pub fn div_trunc(a: i128, b: i128) -> (r: i128)
    requires
        b > 0,
        a > i128::MIN,
    ensures
        r == tdiv(a as int, b as int),
        abs(r as int) <= abs(a as int),
{
    proof {
        lemma_tdiv_bound(a as int, b as int);
    }
    if a >= 0 {
        a / b
    } else {
        let m: i128 = -a;
        -(m / b)
    }
}

/// Bound on the radicand of `sqrt_floor`.
pub const SQRT_BOUND: i128 = 1_000_000_000_000_000_000_000_000_000;

/// Integer square root by bisection.
pub fn sqrt_floor(n: i128) -> (r: i128)
    requires
        0 <= n < SQRT_BOUND,
    ensures
        r == isqrt(n as int),
        is_isqrt(n as int, r as int),
{
    let mut lo: i128 = 0;
    let mut hi: i128 = 1_000_000_000_000_000;
    assert(hi * hi == 1_000_000_000_000_000_000_000_000_000_000) by (nonlinear_arith)
        requires
            hi == 1_000_000_000_000_000,
    ;
    while hi - lo > 1
        invariant
            0 <= lo < hi <= 1_000_000_000_000_000,
            lo * lo <= n,
            n < hi * hi,
        decreases hi - lo,
    {
        let mid: i128 = lo + (hi - lo) / 2;
        assert(mid * mid <= 1_000_000_000_000_000 * 1_000_000_000_000_000) by (nonlinear_arith)
            requires
                0 <= mid <= 1_000_000_000_000_000,
        ;
        if mid * mid <= n {
            lo = mid;
        } else {
            hi = mid;
        }
    }
    proof {
        assert(is_isqrt(n as int, lo as int));
        lemma_isqrt_unique(n as int, lo as int, isqrt(n as int));
    }
    lo
}


/// The integer square root is monotone.
pub proof fn lemma_isqrt_monotone(a: int, b: int)
    requires
        0 <= a <= b,
    ensures
        isqrt(a) <= isqrt(b),
{
    lemma_isqrt(a);
    lemma_isqrt(b);
    let x = isqrt(a);
    let y = isqrt(b);
    if y < x {
        assert((y + 1) * (y + 1) <= x * x) by (nonlinear_arith)
            requires
                0 <= y,
                y + 1 <= x,
        ;
    }
}

} // verus!
