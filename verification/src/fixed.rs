//! Saturating fixed-point scalar arithmetic: the numeric bedrock of the
//! tracer.  A scalar is stored as `raw = value * SCALE`; every division
//! rounds toward negative infinity, and every geometric result is clamped
//! into the coordinate band `[-COORD_LIMIT, COORD_LIMIT]`.

use vstd::prelude::*;
use vstd::arithmetic::div_mod::lemma_fundamental_div_mod;

verus! {

/// Raw units in 1.0: a scalar `v` is stored as the integer `v * SCALE`.
pub const SCALE: i64 = 1_000_000;

/// Largest magnitude (raw units) a coordinate of a point or vector may
/// take; results outside the band saturate to the nearest end.
pub const COORD_LIMIT: i64 = 500_000_000;

/// Largest magnitude (raw units) accepted for a ray parameter `t`.
pub const T_LIMIT: i64 = 1_000_000_000_000;

/// Largest magnitude accepted for a quadratic coefficient, chosen so that
/// the discriminant `b*b - 4*a*c` stays below `SQRT_ARG_LIMIT`.
pub const COEFF_LIMIT: i64 = 2_000_000_000_000_000_000;

/// `2^126`: arguments to the integer square root must stay below this so
/// that the binary search can square its upper bound without overflow.
pub const SQRT_ARG_LIMIT: i128 = 85070591730234615865843651857942052864;

/// Clamp `x` into `[-bound, bound]`.
pub open spec fn clamp_to(x: int, bound: int) -> int {
    if x < -bound {
        -bound
    } else if x > bound {
        bound
    } else {
        x
    }
}

/// Clamp `x` into `[lo, hi]`.
pub open spec fn clamp_range(x: int, lo: int, hi: int) -> int {
    if x < lo {
        lo
    } else if x > hi {
        hi
    } else {
        x
    }
}

/// Clamp a coordinate into the band `[-COORD_LIMIT, COORD_LIMIT]`.
pub open spec fn clamp_coord(x: int) -> int {
    clamp_to(x, COORD_LIMIT as int)
}

/// Division rounding toward negative infinity (the rounding used by every
/// fixed-point operation of this crate); 0 when the divisor is 0.
pub open spec fn fdiv(n: int, d: int) -> int {
    if d > 0 {
        n / d
    } else if d < 0 {
        (-n) / (-d)
    } else {
        0
    }
}

/// `r` is the integer square root of `x`: the largest integer whose square
/// does not exceed `x`.
pub open spec fn is_sqrt(x: int, r: int) -> bool {
    0 <= r && r * r <= x && x < (r + 1) * (r + 1)
}

/// The integer square root of `x` (meaningful for `x >= 0`).
pub open spec fn sqrt_floor(x: int) -> int {
    choose|r: int| is_sqrt(x, r)
}

/// Any witness of `is_sqrt` is the value of `sqrt_floor`.
pub proof fn lemma_sqrt_floor_unique(x: int, r: int)
    requires
        is_sqrt(x, r),
    ensures
        sqrt_floor(x) == r,
{
    assert(exists|s: int| is_sqrt(x, s));
    let s = sqrt_floor(x);
    assert(is_sqrt(x, s));
    assert(s == r) by (nonlinear_arith)
        requires
            is_sqrt(x, s),
            is_sqrt(x, r),
    ;
}

/// Every nonnegative integer has an integer square root, so `sqrt_floor`
/// satisfies its defining property.
pub proof fn lemma_sqrt_exists(x: int)
    requires
        0 <= x,
    ensures
        is_sqrt(x, sqrt_floor(x)),
    decreases x,
{
    if x == 0 {
        assert(is_sqrt(0, 0));
    } else {
        lemma_sqrt_exists(x - 1);
        let r = sqrt_floor(x - 1);
        if x < (r + 1) * (r + 1) {
            assert(is_sqrt(x, r));
        } else {
            assert(x == (r + 1) * (r + 1));
            assert((r + 1) * (r + 1) < (r + 2) * (r + 2)) by (nonlinear_arith)
                requires
                    0 <= r,
            ;
            assert(is_sqrt(x, r + 1));
        }
    }
    assert(exists|r: int| is_sqrt(x, r));
}

/// The square root of a perfect square `k * k` is `|k|`.
pub proof fn lemma_sqrt_of_square(k: int)
    ensures
        sqrt_floor(k * k) == if k >= 0 { k } else { -k },
{
    let a = if k >= 0 { k } else { -k };
    assert(0 <= a && a * a <= k * k && k * k < (a + 1) * (a + 1)) by (nonlinear_arith)
        requires
            a == if k >= 0 { k } else { -k },
    ;
    assert(is_sqrt(k * k, a));
    lemma_sqrt_floor_unique(k * k, a);
}

/// The integer square root never decreases as its argument grows.
pub proof fn lemma_sqrt_monotone(x: int, y: int)
    requires
        0 <= x <= y,
        is_sqrt(x, sqrt_floor(x)),
        is_sqrt(y, sqrt_floor(y)),
    ensures
        sqrt_floor(x) <= sqrt_floor(y),
{
    let a = sqrt_floor(x);
    let b = sqrt_floor(y);
    assert(a <= b) by (nonlinear_arith)
        requires
            is_sqrt(x, a),
            is_sqrt(y, b),
            0 <= x <= y,
    ;
}

/// A quotient with a positive divisor obeys any multiple bound on the
/// numerator: `-b*d <= n <= b*d` gives `-b <= fdiv(n, d) <= b`.
pub proof fn lemma_fdiv_bounds(n: int, d: int, b: int)
    requires
        0 < d,
        0 <= b,
        -(b * d) <= n <= b * d,
    ensures
        -b <= fdiv(n, d) <= b,
{
    vstd::arithmetic::div_mod::lemma_div_is_ordered(-(b * d), n, d);
    vstd::arithmetic::div_mod::lemma_div_is_ordered(n, b * d, d);
    vstd::arithmetic::div_mod::lemma_div_multiples_vanish(b, d);
    vstd::arithmetic::div_mod::lemma_div_multiples_vanish(-b, d);
    assert(d * b == b * d) by (nonlinear_arith);
    assert(d * -b == -(b * d)) by (nonlinear_arith);
}

/// A fixed-point fraction `q` in `[0, SCALE]` raised to the power `e`,
/// one floor-rounded multiply per step (`SCALE` encodes 1.0).
pub open spec fn pow_unit(q: int, e: nat) -> int
    decreases e,
{
    if e == 0 {
        SCALE as int
    } else {
        fdiv(q * pow_unit(q, (e - 1) as nat), SCALE as int)
    }
}

/// A fraction in `[0, SCALE]` raised to any power stays in `[0, SCALE]`.
pub proof fn lemma_pow_unit_bounds(q: int, e: nat)
    requires
        0 <= q <= SCALE,
    ensures
        0 <= pow_unit(q, e) <= SCALE,
    decreases e,
{
    if e != 0 {
        lemma_pow_unit_bounds(q, (e - 1) as nat);
        let prev = pow_unit(q, (e - 1) as nat);
        assert(0 <= q * prev <= (SCALE as int) * (SCALE as int)) by (nonlinear_arith)
            requires
                0 <= q <= SCALE,
                0 <= prev <= SCALE,
        ;
        vstd::arithmetic::div_mod::lemma_div_pos_is_pos(q * prev, SCALE as int);
        lemma_fdiv_bounds(q * prev, SCALE as int, SCALE as int);
    }
}

/// Compute `pow_unit` by repeated multiplication; the result stays in
/// `[0, SCALE]`.
pub fn pow_unit_exec(q: i64, e: u32) -> (r: i64)
    requires
        0 <= q <= SCALE,
    ensures
        r == pow_unit(q as int, e as nat),
        0 <= r <= SCALE,
{
    let mut acc: i64 = SCALE;
    let mut i: u32 = 0;
    while i < e
        invariant
            0 <= q <= SCALE,
            i <= e,
            acc == pow_unit(q as int, i as nat),
            0 <= acc <= SCALE,
        decreases e - i,
    {
        proof {
            assert(0 <= q * acc <= (SCALE as int) * (SCALE as int)) by (nonlinear_arith)
                requires
                    0 <= q <= SCALE,
                    0 <= acc <= SCALE,
            ;
        }
        let prod: i64 = q * acc;
        acc = prod / SCALE;
        i = i + 1;
    }
    acc
}

/// Saturate an `i128` into the coordinate band.
pub fn clamp_coord_exec(x: i128) -> (r: i64)
    ensures
        r == clamp_coord(x as int),
{
    if x < -(COORD_LIMIT as i128) {
        -COORD_LIMIT
    } else if x > COORD_LIMIT as i128 {
        COORD_LIMIT
    } else {
        x as i64
    }
}

/// Division of `i128` values rounding toward negative infinity.
pub fn div_floor(n: i128, d: i128) -> (r: i128)
    requires
        0 < d,
        i128::MIN < n,
    ensures
        r == fdiv(n as int, d as int),
{
    if n >= 0 {
        n / d
    } else {
        let q = (-n) / d;
        let rem = (-n) % d;
        proof {
            lemma_fundamental_div_mod(-n as int, d as int);
            if rem == 0 {
                assert((n as int) / (d as int) == -q) by (nonlinear_arith)
                    requires
                        d > 0,
                        -n == d * q,
                ;
            } else {
                assert((n as int) / (d as int) == -q - 1) by (nonlinear_arith)
                    requires
                        d > 0,
                        0 < rem < d,
                        -n == d * q + rem,
                ;
            }
        }
        if rem == 0 {
            -q
        } else {
            -q - 1
        }
    }
}

/// Saturate an `i64` into the coordinate band.
pub fn clamp_coord_i64(x: i64) -> (r: i64)
    ensures
        r == clamp_coord(x as int),
{
    if x < -COORD_LIMIT {
        -COORD_LIMIT
    } else if x > COORD_LIMIT {
        COORD_LIMIT
    } else {
        x
    }
}

/// Floor division for a divisor of either sign.
pub fn div_floor_signed(n: i128, d: i128) -> (r: i128)
    requires
        d != 0,
        i128::MIN < n,
        i128::MIN < d,
    ensures
        r == fdiv(n as int, d as int),
{
    if d > 0 {
        div_floor(n, d)
    } else {
        div_floor(-n, -d)
    }
}

/// Integer square root by binary search.
pub fn isqrt(x: i128) -> (r: i128)
    requires
        0 <= x < SQRT_ARG_LIMIT,
    ensures
        is_sqrt(x as int, r as int),
        r == sqrt_floor(x as int),
{
    let mut lo: i128 = 0;
    let mut hi: i128 = 9_223_372_036_854_775_808;  // 2^63, whose square is 2^126
    proof {
        assert(hi * hi == SQRT_ARG_LIMIT) by (nonlinear_arith)
            requires
                hi == 9_223_372_036_854_775_808int,
        ;
    }
    while lo + 1 < hi
        invariant
            0 <= lo < hi <= 9_223_372_036_854_775_808,
            lo * lo <= x,
            x < hi * hi,
        decreases hi - lo,
    {
        let mid = lo + (hi - lo) / 2;
        proof {
            assert(lo < mid < hi);
            assert(mid * mid < i128::MAX) by (nonlinear_arith)
                requires
                    0 < mid < 9_223_372_036_854_775_808int,
            ;
        }
        let sq = mid * mid;
        if sq <= x {
            lo = mid;
        } else {
            hi = mid;
        }
    }
    proof {
        assert(is_sqrt(x as int, lo as int));
        lemma_sqrt_floor_unique(x as int, lo as int);
    }
    lo
}

}
