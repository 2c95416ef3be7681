//! Fixed-point 2D geometry: vectors, integer square roots and exact division.
//!
//! Coordinates are `i64` sub-units (`constants::UNIT` sub-units per linear
//! unit).  Distances are floor square roots of exact squared distances, so
//! every geometric quantity in the core is a well-defined integer.

use vstd::prelude::*;
use vstd::arithmetic::div_mod::lemma_fundamental_div_mod;

verus! {

/// Largest coordinate magnitude allowed for path vertices.
pub const COORD_LIMIT: i64 = 1_000_000_000_000;

/// Largest coordinate magnitude allowed for entity positions.
pub const POS_LIMIT: i64 = 100_000_000_000_000;

/// Largest velocity component magnitude, in sub-units per second.
pub const VEL_LIMIT: i64 = 20_000_000_000;

/// Upper bound on the floor distance between any two in-range positions.
pub const DIST_MAX: i64 = 300_000_000_000_000;

/// A 2D point or vector in sub-unit coordinates.
#[derive(Clone, Copy, Debug, PartialEq, Eq, Structural)]
pub struct Vec2i {
    pub x: i64,
    pub y: i64,
}

impl Vec2i {
    pub fn new(x: i64, y: i64) -> (r: Vec2i)
        ensures
            r == (Vec2i { x, y }),
    {
        Vec2i { x, y }
    }
}

/// The point fits in the range allowed for path vertices.
pub open spec fn in_coord_range(v: Vec2i) -> bool {
    -COORD_LIMIT <= v.x <= COORD_LIMIT && -COORD_LIMIT <= v.y <= COORD_LIMIT
}

/// The point fits in the range allowed for entity positions.
pub open spec fn in_pos_range(v: Vec2i) -> bool {
    -POS_LIMIT <= v.x <= POS_LIMIT && -POS_LIMIT <= v.y <= POS_LIMIT
}

/// Exact squared Euclidean distance between two points.
pub open spec fn dist_sq(a: Vec2i, b: Vec2i) -> int {
    (b.x - a.x) * (b.x - a.x) + (b.y - a.y) * (b.y - a.y)
}

/// Floor of the mathematical square root of `n` (0 for negative `n`).
pub open spec fn sqrt_floor(n: int) -> int
    decreases n,
{
    if n <= 0 {
        0
    } else {
        let r = sqrt_floor(n - 1);
        if (r + 1) * (r + 1) <= n {
            r + 1
        } else {
            r
        }
    }
}

/// `sqrt_floor` is characterized by `r * r <= n < (r + 1) * (r + 1)`.
pub proof fn lemma_sqrt_floor(n: int)
    requires
        n >= 0,
    ensures
        sqrt_floor(n) >= 0,
        sqrt_floor(n) * sqrt_floor(n) <= n,
        n < (sqrt_floor(n) + 1) * (sqrt_floor(n) + 1),
    decreases n,
{
    if n > 0 {
        lemma_sqrt_floor(n - 1);
        let r = sqrt_floor(n - 1);
        if (r + 1) * (r + 1) <= n {
            assert((r + 1) * (r + 1) < (r + 2) * (r + 2)) by (nonlinear_arith)
                requires
                    r >= 0,
            ;
        }
    }
}

/// Any `r` satisfying the square-root bracketing equals `sqrt_floor(n)`.
pub proof fn lemma_sqrt_floor_unique(n: int, r: int)
    requires
        n >= 0,
        r >= 0,
        r * r <= n,
        n < (r + 1) * (r + 1),
    ensures
        r == sqrt_floor(n),
{
    lemma_sqrt_floor(n);
    let s = sqrt_floor(n);
    if r < s {
        assert((r + 1) * (r + 1) <= s * s) by (nonlinear_arith)
            requires
                0 <= r,
                r + 1 <= s,
        ;
    }
    if s < r {
        assert((s + 1) * (s + 1) <= r * r) by (nonlinear_arith)
            requires
                0 <= s,
                s + 1 <= r,
        ;
    }
}

/// If `n` lies under `(b + 1)^2` then its floor square root is at most `b`.
pub proof fn lemma_sqrt_floor_le(n: int, b: int)
    requires
        0 <= n,
        0 <= b,
        n < (b + 1) * (b + 1),
    ensures
        sqrt_floor(n) <= b,
{
    lemma_sqrt_floor(n);
    let s = sqrt_floor(n);
    if b < s {
        assert((b + 1) * (b + 1) <= s * s) by (nonlinear_arith)
            requires
                0 <= b,
                b + 1 <= s,
        ;
    }
}

/// `sqrt_floor` is monotone.
pub proof fn lemma_sqrt_floor_mono(a: int, b: int)
    requires
        0 <= a <= b,
    ensures
        sqrt_floor(a) <= sqrt_floor(b),
{
    lemma_sqrt_floor(a);
    lemma_sqrt_floor(b);
    let sa = sqrt_floor(a);
    let sb = sqrt_floor(b);
    if sb < sa {
        assert((sb + 1) * (sb + 1) <= sa * sa) by (nonlinear_arith)
            requires
                0 <= sb,
                sb + 1 <= sa,
        ;
    }
}

/// A quotient `t * d / l` with `|t| <= l` is bounded by `|d|`.
pub proof fn lemma_mul_div_bounds(t: int, d: int, l: int)
    requires
        0 < l,
        -l <= t <= l,
    ensures
        d >= 0 && t >= 0 ==> 0 <= t * d / l <= d,
        d < 0 && t >= 0 ==> d <= t * d / l <= 0,
        d >= 0 && t < 0 ==> -d <= t * d / l <= 0,
        d < 0 && t < 0 ==> 0 <= t * d / l <= -d,
{
    let q = t * d / l;
    let r = t * d % l;
    lemma_fundamental_div_mod(t * d, l);
    if d >= 0 && t >= 0 {
        assert(0 <= t * d <= l * d) by (nonlinear_arith)
            requires
                0 <= t <= l,
                d >= 0,
        ;
        assert(0 <= q <= d) by (nonlinear_arith)
            requires
                t * d == l * q + r,
                0 <= r < l,
                l > 0,
                0 <= t * d <= l * d,
        ;
    } else if d < 0 && t >= 0 {
        assert(l * d <= t * d <= 0) by (nonlinear_arith)
            requires
                0 <= t <= l,
                d < 0,
        ;
        assert(d <= q <= 0) by (nonlinear_arith)
            requires
                t * d == l * q + r,
                0 <= r < l,
                l > 0,
                l * d <= t * d <= 0,
        ;
    } else if d >= 0 && t < 0 {
        assert(l * (-d) <= t * d <= 0) by (nonlinear_arith)
            requires
                -l <= t < 0,
                d >= 0,
        ;
        assert(-d <= q <= 0) by (nonlinear_arith)
            requires
                t * d == l * q + r,
                0 <= r < l,
                l > 0,
                l * (-d) <= t * d <= 0,
        ;
    } else {
        assert(0 <= t * d <= l * (-d)) by (nonlinear_arith)
            requires
                -l <= t < 0,
                d < 0,
        ;
        assert(0 <= q <= -d) by (nonlinear_arith)
            requires
                t * d == l * q + r,
                0 <= r < l,
                l > 0,
                0 <= t * d <= l * (-d),
        ;
    }
}

/// A quotient's magnitude: `|a| <= m` and `qb * b >= m` bound `a / b`
/// within `[-qb - 1, qb]`.
pub proof fn lemma_div_mag(a: int, b: int, m: int, qb: int)
    requires
        b >= 1,
        0 <= m,
        -m <= a <= m,
        0 <= qb,
        qb * b >= m,
    ensures
        -(qb + 1) <= a / b <= qb,
{
    let q = a / b;
    let r = a % b;
    lemma_fundamental_div_mod(a, b);
    assert(-(qb + 1) <= q <= qb) by (nonlinear_arith)
        requires
            a == b * q + r,
            0 <= r < b,
            b >= 1,
            -m <= a <= m,
            0 <= m,
            0 <= qb,
            qb * b >= m,
    ;
}

/// Floor square root of a `u128`, by bisection.
pub fn isqrt(n: u128) -> (r: u64)
    ensures
        r == sqrt_floor(n as int),
        (r as int) * (r as int) <= n as int,
        (n as int) < (r as int + 1) * (r as int + 1),
{
    let mut lo: u128 = 0;
    let mut hi: u128 = 0x1_0000_0000_0000_0000;
    proof {
        assert((hi as int) * (hi as int) > n as int) by (nonlinear_arith)
            requires
                hi == 0x1_0000_0000_0000_0000u128,
                n <= u128::MAX,
        ;
    }
    while lo + 1 < hi
        invariant
            lo < hi <= 0x1_0000_0000_0000_0000u128,
            (lo as int) * (lo as int) <= n as int,
            (n as int) < (hi as int) * (hi as int),
        decreases hi - lo,
    {
        let mid = lo + (hi - lo) / 2;
        proof {
            assert(lo < mid < hi);
            assert((mid as int) * (mid as int) < 0x1_0000_0000_0000_0000_0000_0000_0000_0000)
                by (nonlinear_arith)
                requires
                    mid <= 0xffff_ffff_ffff_ffffu128,
            ;
        }
        if mid * mid <= n {
            lo = mid;
        } else {
            hi = mid;
        }
    }
    proof {
        lemma_sqrt_floor_unique(n as int, lo as int);
    }
    lo as u64
}

/// Floor distance between two points.
pub open spec fn dist_spec(a: Vec2i, b: Vec2i) -> int {
    sqrt_floor(dist_sq(a, b))
}

/// Exact floor distance between two in-range points.
pub fn dist(a: Vec2i, b: Vec2i) -> (r: i64)
    requires
        in_pos_range(a),
        in_pos_range(b),
    ensures
        r == dist_spec(a, b),
        0 <= r <= DIST_MAX,
{
    let dx: i64 = b.x - a.x;
    let dy: i64 = b.y - a.y;
    proof {
        assert(0 <= (dx as int) * (dx as int) <= 40_000_000_000_000_000_000_000_000_000i128)
            by (nonlinear_arith)
            requires
                -200_000_000_000_000 <= dx <= 200_000_000_000_000,
        ;
        assert(0 <= (dy as int) * (dy as int) <= 40_000_000_000_000_000_000_000_000_000i128)
            by (nonlinear_arith)
            requires
                -200_000_000_000_000 <= dy <= 200_000_000_000_000,
        ;
    }
    let sq: i128 = (dx as i128) * (dx as i128) + (dy as i128) * (dy as i128);
    let r64 = isqrt(sq as u128);
    proof {
        assert(dist_sq(a, b) < (DIST_MAX + 1) * (DIST_MAX + 1)) by (nonlinear_arith)
            requires
                dist_sq(a, b) == (dx as int) * (dx as int) + (dy as int) * (dy as int),
                (dx as int) * (dx as int) <= 40_000_000_000_000_000_000_000_000_000i128,
                (dy as int) * (dy as int) <= 40_000_000_000_000_000_000_000_000_000i128,
                DIST_MAX == 300_000_000_000_000i64,
        ;
        lemma_sqrt_floor_le(dist_sq(a, b), DIST_MAX as int);
    }
    r64 as i64
}

/// Euclidean division (the `/` of specifications) on `i128`.
pub fn div_euclid_i128(a: i128, b: i128) -> (q: i128)
    requires
        b > 0,
    ensures
        q == (a as int) / (b as int),
        a >= 0 ==> 0 <= q <= a,
        a < 0 ==> a <= q <= 0,
{
    proof {
        lemma_fundamental_div_mod(a as int, b as int);
        let q = (a as int) / (b as int);
        let r = (a as int) % (b as int);
        assert(a >= 0 ==> 0 <= q <= a) by (nonlinear_arith)
            requires
                a == b * q + r,
                0 <= r < b,
                b >= 1,
        ;
        assert(a < 0 ==> a <= q <= 0) by (nonlinear_arith)
            requires
                a == b * q + r,
                0 <= r < b,
                b >= 1,
        ;
    }
    match a.checked_div_euclid(b) {
        Some(q) => q,
        None => vstd::pervasive::unreached(),
    }
}

/// Euclidean remainder (the `%` of specifications) on `i64`, positive divisor.
pub fn rem_euclid_i64(a: i64, b: i64) -> (r: i64)
    requires
        b > 0,
    ensures
        r == (a as int) % (b as int),
        0 <= r < b,
{
    proof {
        lemma_fundamental_div_mod(a as int, b as int);
        vstd::arithmetic::div_mod::lemma_mod_bound(a as int, b as int);
    }
    match a.checked_rem_euclid(b) {
        Some(r) => r,
        None => vstd::pervasive::unreached(),
    }
}

/// Clamp `v` into `[lo, hi]`.
pub open spec fn clamp_spec(v: int, lo: int, hi: int) -> int {
    if v < lo {
        lo
    } else if v > hi {
        hi
    } else {
        v
    }
}

/// Clamp `v` into `[lo, hi]`.
pub fn clamp(v: i64, lo: i64, hi: i64) -> (r: i64)
    requires
        lo <= hi,
    ensures
        r == clamp_spec(v as int, lo as int, hi as int),
{
    if v < lo {
        lo
    } else if v > hi {
        hi
    } else {
        v
    }
}

} // verus!
