//! Integer plane geometry: the vector type all positions and velocities use,
//! clipped arithmetic, sign-aware division, and an integer square root.

use vstd::prelude::*;
use crate::WORLD_LIMIT;

verus! {

/// A two-dimensional vector of integer world units.
#[derive(Clone, Copy, Debug, PartialEq, Eq, Structural)]
pub struct Vec2i {
    pub x: i64,
    pub y: i64,
}

/// The clipped value of `v`: cut to `[-WORLD_LIMIT, WORLD_LIMIT]`.
pub open spec fn clip(v: int) -> int {
    if v > WORLD_LIMIT as int {
        WORLD_LIMIT as int
    } else if v < -(WORLD_LIMIT as int) {
        -(WORLD_LIMIT as int)
    } else {
        v
    }
}

/// `v` lies within the world bound.
pub open spec fn bounded(v: int) -> bool {
    -(WORLD_LIMIT as int) <= v <= WORLD_LIMIT as int
}

/// Both components of `v` lie within the world bound.
pub open spec fn in_world(v: Vec2i) -> bool {
    bounded(v.x as int) && bounded(v.y as int)
}

/// Quotient of `a` by `b`, rounded toward zero (the machine division).
pub open spec fn div_trunc(a: int, b: int) -> int {
    if a >= 0 {
        a / b
    } else {
        -((-a) / b)
    }
}

/// Quotient of `a` by `b`, rounded away from zero.
pub open spec fn div_away(a: int, b: int) -> int {
    if a >= 0 {
        (a + b - 1) / b
    } else {
        -((-a + b - 1) / b)
    }
}

/// `v` cut to the interval `[lo, hi]`.
pub open spec fn clamp(v: int, lo: int, hi: int) -> int {
    if v < lo {
        lo
    } else if v > hi {
        hi
    } else {
        v
    }
}

/// Cut `v` to the interval `[lo, hi]`.
pub fn clamp_i64(v: i64, lo: i64, hi: i64) -> (r: i64)
    requires
        lo <= hi,
    ensures
        r as int == clamp(v as int, lo as int, hi as int),
{
    if v < lo {
        lo
    } else if v > hi {
        hi
    } else {
        v
    }
}

/// Squared distance between `a` and `b`.
pub open spec fn dist_sq(a: Vec2i, b: Vec2i) -> int {
    (a.x - b.x) * (a.x - b.x) + (a.y - b.y) * (a.y - b.y)
}

/// Cut `v` to the world bound.
pub fn clip_i128(v: i128) -> (r: i64)
    ensures
        r as int == clip(v as int),
{
    if v > WORLD_LIMIT as i128 {
        WORLD_LIMIT
    } else if v < -(WORLD_LIMIT as i128) {
        -WORLD_LIMIT
    } else {
        v as i64
    }
}

/// Machine division with an explicit sign split, so that the result is the
/// mathematical quotient rounded toward zero.
pub fn div_trunc_i128(a: i128, b: i128) -> (r: i128)
    requires
        b > 0,
        a > i128::MIN,
    ensures
        r as int == div_trunc(a as int, b as int),
        a >= 0 ==> 0 <= r <= a,
        a < 0 ==> a <= r <= 0,
{
    proof {
        if a >= 0 {
            vstd::arithmetic::div_mod::lemma_div_pos_is_pos(a as int, b as int);
            vstd::arithmetic::div_mod::lemma_div_nonincreasing(a as int, b as int);
        } else {
            vstd::arithmetic::div_mod::lemma_div_pos_is_pos(-(a as int), b as int);
            vstd::arithmetic::div_mod::lemma_div_nonincreasing(-(a as int), b as int);
        }
    }
    if a >= 0 {
        a / b
    } else {
        -((-a) / b)
    }
}

/// Division rounding away from zero.
pub fn div_away_i128(a: i128, b: i128) -> (r: i128)
    requires
        0 < b <= 0x7fff_ffff_ffff_ffff,
        -0x1_0000_0000_0000_0000_0000_0000 <= a <= 0x1_0000_0000_0000_0000_0000_0000,
    ensures
        r as int == div_away(a as int, b as int),
        a >= 0 ==> 0 <= r <= a + 1,
        a < 0 ==> a - 1 <= r <= 0,
{
    proof {
        let ai = a as int;
        let bi = b as int;
        if a >= 0 {
            assert(ai <= (ai + 1) * bi) by (nonlinear_arith)
                requires
                    ai >= 0,
                    bi >= 1,
            ;
            assert(0 <= (ai + 1) * bi) by (nonlinear_arith)
                requires
                    ai >= 0,
                    bi >= 1,
            ;
            lemma_div_away_bound(ai, bi, ai + 1);
        } else {
            assert(-((-ai + 1) * bi) <= ai) by (nonlinear_arith)
                requires
                    ai < 0,
                    bi >= 1,
            ;
            assert(ai <= (-ai + 1) * bi) by (nonlinear_arith)
                requires
                    ai < 0,
                    bi >= 1,
            ;
            lemma_div_away_bound(ai, bi, -ai + 1);
        }
    }
    if a >= 0 {
        (a + (b - 1)) / b
    } else {
        -((-a + (b - 1)) / b)
    }
}

/// Squared distance, computed without overflow.
pub fn dist_sq_i128(a: Vec2i, b: Vec2i) -> (r: i128)
    requires
        -2_000_000_000 <= a.x <= 2_000_000_000,
        -2_000_000_000 <= a.y <= 2_000_000_000,
        -2_000_000_000 <= b.x <= 2_000_000_000,
        -2_000_000_000 <= b.y <= 2_000_000_000,
    ensures
        r as int == dist_sq(a, b),
        0 <= r <= 0x2_0000_0000_0000_0000,
{
    let dx: i128 = a.x as i128 - b.x as i128;
    let dy: i128 = a.y as i128 - b.y as i128;
    proof {
        assert(0 <= dx * dx <= 0x1_0000_0000_0000_0000 && 0 <= dy * dy <= 0x1_0000_0000_0000_0000)
            by (nonlinear_arith)
            requires
                -4_000_000_000 <= dx <= 4_000_000_000,
                -4_000_000_000 <= dy <= 4_000_000_000;
    }
    dx * dx + dy * dy
}

/// `r` is the integer square root of `n`.
pub open spec fn is_sqrt_floor(n: int, r: int) -> bool {
    0 <= r && r * r <= n && n < (r + 1) * (r + 1)
}

/// The integer square root of a non-negative `n`.
pub open spec fn sqrt_floor(n: int) -> int {
    choose|r: int| is_sqrt_floor(n, r)
}

/// The integer square root is unique, so any witness is `sqrt_floor`.
pub proof fn lemma_sqrt_floor_unique(n: int, r: int)
    requires
        is_sqrt_floor(n, r),
    ensures
        sqrt_floor(n) == r,
{
    assert(is_sqrt_floor(n, sqrt_floor(n)));
    let rp = sqrt_floor(n);
    assert(rp == r) by (nonlinear_arith)
        requires
            0 <= r,
            r * r <= n,
            n < (r + 1) * (r + 1),
            0 <= rp,
            rp * rp <= n,
            n < (rp + 1) * (rp + 1),
    ;
}

/// `div_away` never rounds toward zero: its result times the divisor is at
/// least the dividend in magnitude, with the dividend's sign.
pub proof fn lemma_div_away_magnitude(a: int, b: int)
    requires
        b > 0,
    ensures
        a >= 0 ==> 0 <= div_away(a, b) && div_away(a, b) * b >= a,
        a < 0 ==> div_away(a, b) <= 0 && div_away(a, b) * b <= a,
{
    if a >= 0 {
        let q = (a + b - 1) / b;
        vstd::arithmetic::div_mod::lemma_fundamental_div_mod(a + b - 1, b);
        vstd::arithmetic::div_mod::lemma_remainder_upper(a + b - 1, b);
        vstd::arithmetic::div_mod::lemma_remainder_lower(a + b - 1, b);
        assert(b * q == a + b - 1 - ((a + b - 1) % b));
        assert((a + b - 1) % b < b);
        assert(b * q >= a);
        vstd::arithmetic::div_mod::lemma_div_pos_is_pos(a + b - 1, b);
        assert(q * b == b * q) by (nonlinear_arith);
    } else {
        let m = -a;
        let q = (m + b - 1) / b;
        vstd::arithmetic::div_mod::lemma_fundamental_div_mod(m + b - 1, b);
        vstd::arithmetic::div_mod::lemma_remainder_upper(m + b - 1, b);
        vstd::arithmetic::div_mod::lemma_remainder_lower(m + b - 1, b);
        assert(b * q >= m);
        vstd::arithmetic::div_mod::lemma_div_pos_is_pos(m + b - 1, b);
        assert(div_away(a, b) == -q);
        assert((-q) * b == -(b * q)) by (nonlinear_arith);
    }
}

/// A magnitude bound on `div_away`: if the dividend is at most `k` times
/// the divisor in magnitude, the quotient is at most `k` in magnitude.
pub proof fn lemma_div_away_bound(a: int, b: int, k: int)
    requires
        b > 0,
        k >= 0,
        -(k * b) <= a <= k * b,
    ensures
        -k <= div_away(a, b) <= k,
{
    lemma_div_away_magnitude(a, b);
    if a >= 0 {
        let q = (a + b - 1) / b;
        vstd::arithmetic::div_mod::lemma_fundamental_div_mod(a + b - 1, b);
        vstd::arithmetic::div_mod::lemma_remainder_lower(a + b - 1, b);
        assert(b * q <= a + b - 1);
        assert(a + b - 1 < (k + 1) * b) by (nonlinear_arith)
            requires
                a <= k * b,
                b > 0,
        ;
        assert(q < k + 1) by (nonlinear_arith)
            requires
                b * q < (k + 1) * b,
                b > 0,
        ;
    } else {
        let m = -a;
        let q = (m + b - 1) / b;
        vstd::arithmetic::div_mod::lemma_fundamental_div_mod(m + b - 1, b);
        vstd::arithmetic::div_mod::lemma_remainder_lower(m + b - 1, b);
        assert(b * q <= m + b - 1);
        assert(m + b - 1 < (k + 1) * b) by (nonlinear_arith)
            requires
                m <= k * b,
                b > 0,
        ;
        assert(q < k + 1) by (nonlinear_arith)
            requires
                b * q < (k + 1) * b,
                b > 0,
        ;
        assert(div_away(a, b) == -q);
    }
}

/// A magnitude bound on `div_trunc`, as for `lemma_div_away_bound`.
pub proof fn lemma_div_trunc_bound(a: int, b: int, k: int)
    requires
        b > 0,
        k >= 0,
        -(k * b) <= a <= k * b,
    ensures
        -k <= div_trunc(a, b) <= k,
{
    assert(k * b == b * k) by (nonlinear_arith);
    if a >= 0 {
        vstd::arithmetic::div_mod::lemma_div_pos_is_pos(a, b);
        vstd::arithmetic::div_mod::lemma_div_is_ordered(a, k * b, b);
        vstd::arithmetic::div_mod::lemma_div_multiples_vanish(k, b);
        assert((b * k) / b == k);
    } else {
        let m = -a;
        vstd::arithmetic::div_mod::lemma_div_pos_is_pos(m, b);
        vstd::arithmetic::div_mod::lemma_div_is_ordered(m, k * b, b);
        vstd::arithmetic::div_mod::lemma_div_multiples_vanish(k, b);
        assert((b * k) / b == k);
    }
}

/// Integer square root: the greatest `r` with `r * r <= n`.
pub fn isqrt_u64(n: u64) -> (r: u64)
    ensures
        r * r <= n < (r + 1) * (r + 1),
        r <= 0x1_0000_0000,
        n >= 1 ==> r >= 1,
{
    let mut lo: u64 = 0;
    let mut hi: u64 = 0x1_0000_0000;
    proof {
        assert((0x1_0000_0000 as int) * (0x1_0000_0000 as int) > u64::MAX as int);
    }
    while lo + 1 < hi
        invariant
            lo < hi <= 0x1_0000_0000,
            lo * lo <= n,
            n < hi * hi,
        decreases hi - lo,
    {
        let mid = lo + (hi - lo) / 2;
        proof {
            assert((mid as int) * (mid as int) <= 0x1_0000_0000_0000_0000) by (nonlinear_arith)
                requires 0 <= mid <= 0x1_0000_0000;
        }
        let sq: u128 = (mid as u128) * (mid as u128);
        if sq <= n as u128 {
            lo = mid;
        } else {
            hi = mid;
        }
    }
    proof {
        if n >= 1 && lo == 0 {
            assert(hi == 1);
            assert(hi * hi == 1) by (nonlinear_arith)
                requires hi == 1;
        }
    }
    lo
}

} // verus!
