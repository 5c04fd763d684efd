//! Fixed-point scalars: the unit, the extent of the world, and the integer
//! operations (clamping, truncating division, square root) that every other
//! module builds on.

use vstd::prelude::*;

verus! {

/// Number of ticks in one world unit. Every coordinate and length in the
/// library is an integer number of ticks.
pub const UNIT: i64 = 65536;

/// Largest magnitude a coordinate can take: 2^31 world units.
pub const WORLD_LIMIT: i64 = 0x8000_0000_0000;

/// Whether a coordinate lies in the world.
pub open spec fn in_world(x: int) -> bool {
    -WORLD_LIMIT <= x <= WORLD_LIMIT
}

/// The nearest coordinate in the world.
pub open spec fn clamp_world(x: int) -> int {
    if x < -WORLD_LIMIT {
        -(WORLD_LIMIT as int)
    } else if x > WORLD_LIMIT {
        WORLD_LIMIT as int
    } else {
        x
    }
}

/// Brings a wide intermediate result back into the world.
pub fn clamp_to_world(x: i128) -> (r: i64)
    ensures
        r == clamp_world(x as int),
        in_world(r as int),
{
    if x < -(WORLD_LIMIT as i128) {
        -WORLD_LIMIT
    } else if x > WORLD_LIMIT as i128 {
        WORLD_LIMIT
    } else {
        x as i64
    }
}

/// Quotient of `n` by a positive `d`, rounded toward zero.
pub open spec fn trunc_div(n: int, d: int) -> int
    recommends
        d > 0,
{
    if n >= 0 {
        n / d
    } else {
        -((-n) / d)
    }
}

/// Divides rounding toward zero, so that a value and its negation lose the
/// same fraction.
pub fn div_toward_zero(n: i128, d: i128) -> (q: i128)
    requires
        d > 0,
        n > i128::MIN,
    ensures
        q == trunc_div(n as int, d as int),
{
    if n >= 0 {
        n / d
    } else {
        let m: i128 = -n;
        let p: i128 = m / d;
        -p
    }
}

/// Whether `r` is the square root of `n` rounded down.
pub open spec fn is_floor_sqrt(n: int, r: int) -> bool {
    0 <= r && r * r <= n < (r + 1) * (r + 1)
}

/// The square root of a non-negative `n`, rounded down.
pub open spec fn isqrt(n: int) -> int {
    choose|r: int| is_floor_sqrt(n, r)
}

/// The square root of a non-negative `n`, rounded up.
pub open spec fn isqrt_ceil(n: int) -> int {
    if isqrt(n) * isqrt(n) == n {
        isqrt(n)
    } else {
        isqrt(n) + 1
    }
}

/// A floor square root of `n`, found by counting up to `n`.
proof fn lemma_floor_sqrt_exists(n: int) -> (r: int)
    requires
        n >= 0,
    ensures
        is_floor_sqrt(n, r),
    decreases n,
{
    if n == 0 {
        assert(is_floor_sqrt(0, 0)) by (nonlinear_arith);
        0
    } else {
        let s = lemma_floor_sqrt_exists(n - 1);
        let r = s + 1;
        if r * r <= n {
            assert((r + 1) * (r + 1) > r * r) by (nonlinear_arith)
                requires
                    r >= 0,
            ;
            r
        } else {
            s
        }
    }
}

/// Squares grow with their non-negative base.
pub proof fn lemma_square_monotonic(a: int, b: int)
    by (nonlinear_arith)
    requires
        0 <= a <= b,
    ensures
        a * a <= b * b,
{
}

/// Every non-negative integer has a floor square root, and `isqrt` is it.
pub proof fn lemma_isqrt(n: int)
    requires
        n >= 0,
    ensures
        is_floor_sqrt(n, isqrt(n)),
{
    let r = lemma_floor_sqrt_exists(n);
    assert(is_floor_sqrt(n, r));
}

/// The floor square root is unique.
pub proof fn lemma_isqrt_unique(n: int, r: int)
    requires
        is_floor_sqrt(n, r),
    ensures
        isqrt(n) == r,
{
    lemma_isqrt(n);
    let s = isqrt(n);
    if s < r {
        lemma_square_monotonic(s + 1, r);
    } else if r < s {
        lemma_square_monotonic(r + 1, s);
    }
}

/// Square root rounded down.
pub fn sqrt_floor(n: u128) -> (r: u64)
    ensures
        r == isqrt(n as int),
{
    let mut lo: u64 = 0;
    let mut hi: u64 = u64::MAX;
    while lo < hi
        invariant
            lo <= hi,
            (lo as int) * (lo as int) <= n,
            n < (hi as int + 1) * (hi as int + 1),
        decreases hi - lo,
    {
        let mid: u64 = lo + (hi - lo - 1) / 2 + 1;
        assert((mid as int) * (mid as int) <= u128::MAX) by (nonlinear_arith)
            requires
                0 <= mid <= u64::MAX,
        ;
        let sq: u128 = (mid as u128) * (mid as u128);
        if sq <= n {
            lo = mid;
        } else {
            hi = mid - 1;
        }
    }
    proof {
        lemma_isqrt_unique(n as int, lo as int);
    }
    lo
}

/// The magnitude of an integer.
pub open spec fn magnitude(a: int) -> int {
    if a >= 0 {
        a
    } else {
        -a
    }
}

/// A square is bounded by the square of any bound on the magnitude of its base.
pub proof fn lemma_square_bounded(a: int, b: int)
    by (nonlinear_arith)
    requires
        -b <= a <= b,
    ensures
        0 <= a * a <= b * b,
{
}

/// A non-negative number whose square stays under `b * b` stays under `b`.
pub proof fn lemma_root_bounded(r: int, n: int, b: int)
    by (nonlinear_arith)
    requires
        0 <= r,
        0 <= b,
        r * r <= n,
        n < b * b,
    ensures
        r < b,
{
}

/// A product is bounded by the product of bounds on its factors.
pub proof fn lemma_product_bounded(a: int, amax: int, b: int, bmax: int)
    by (nonlinear_arith)
    requires
        -amax <= a <= amax,
        -bmax <= b <= bmax,
    ensures
        -(amax * bmax) <= a * b <= amax * bmax,
{
}

/// Of two numbers whose squares sum to at most `r * r`, each has magnitude
/// at most `r`.
pub proof fn lemma_component_bounded(a: int, b: int, r: int)
    by (nonlinear_arith)
    requires
        r >= 0,
        a * a + b * b <= r * r,
    ensures
        -r <= a <= r,
{
}

/// The rounded-up root of a positive number is positive, and its square
/// reaches the number while the square below it does not.
pub proof fn lemma_ceil_sqrt_positive(n: int)
    requires
        n > 0,
    ensures
        isqrt_ceil(n) > 0,
        isqrt_ceil(n) * isqrt_ceil(n) >= n,
        (isqrt_ceil(n) - 1) * (isqrt_ceil(n) - 1) < n,
{
    lemma_isqrt(n);
    let f = isqrt(n);
    if f * f != n {
        assert((f + 1 - 1) * (f + 1 - 1) == f * f);
    } else {
        assert(f > 0) by (nonlinear_arith)
            requires
                f * f == n,
                n > 0,
                f >= 0,
        ;
        assert((f - 1) * (f - 1) < f * f) by (nonlinear_arith)
            requires
                f > 0,
        ;
    }
}

/// Multiplying a truncated quotient back by the divisor falls short of the
/// dividend in magnitude, by less than the divisor.
pub proof fn lemma_trunc_div_scaled(m: int, n: int)
    requires
        n > 0,
    ensures
        (trunc_div(m, n) * n) * (trunc_div(m, n) * n) <= m * m,
        m >= 0 ==> 0 <= trunc_div(m, n) * n <= m < (trunc_div(m, n) + 1) * n,
        m < 0 ==> 0 >= trunc_div(m, n) * n >= m > (trunc_div(m, n) - 1) * n,
{
    let q = trunc_div(m, n);
    if m >= 0 {
        assert(0 <= q * n <= m < (q + 1) * n) by (nonlinear_arith)
            requires
                n > 0,
                m >= 0,
                q == m / n,
        ;
        lemma_square_bounded(q * n, m);
    } else {
        let p = (-m) / n;
        assert(0 <= p * n <= -m < (p + 1) * n) by (nonlinear_arith)
            requires
                n > 0,
                -m >= 0,
                p == (-m) / n,
        ;
        assert(q * n == -(p * n) && (q - 1) * n == -((p + 1) * n)) by (nonlinear_arith)
            requires
                q == -p,
        ;
        lemma_square_bounded(q * n, -m);
        assert((-m) * (-m) == m * m) by (nonlinear_arith);
    }
}

/// A truncated quotient by a positive divisor is no larger in magnitude than
/// its dividend.
pub proof fn lemma_trunc_div_bounded(n: int, d: int, bound: int)
    requires
        d > 0,
        -bound <= n <= bound,
    ensures
        -bound <= trunc_div(n, d) <= bound,
{
    if n >= 0 {
        assert(0 <= n / d <= n) by (nonlinear_arith)
            requires
                n >= 0,
                d > 0,
        ;
    } else {
        assert(0 <= (-n) / d <= -n) by (nonlinear_arith)
            requires
                -n >= 0,
                d > 0,
        ;
    }
}

} // verus!
