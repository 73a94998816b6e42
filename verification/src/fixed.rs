//! Fixed-point numbers.
//!
//! Every length, coordinate and angle of the scene is a signed integer that
//! counts sixteen-bit fractions: `ONE` units make one pixel, or one radian.
//! The limits below keep every intermediate product of the geometry inside
//! 128 bits, so that no operation of the library can overflow.

use vstd::prelude::*;

verus! {

/// The number of units in one pixel, and in one radian.
pub const ONE: i64 = 65536;

/// Largest magnitude of a coordinate of a ray: 16384 pixels.
pub const COORD_LIMIT: i64 = 0x4000_0000;

/// Largest magnitude of a coordinate of an object's centre: 4096 pixels.
pub const POS_LIMIT: i64 = 0x1000_0000;

/// Largest radius of an object: 16384 pixels.
pub const RADIUS_LIMIT: i64 = 0x4000_0000;

/// Largest diameter of a collimated beam: 4096 pixels.
pub const DIAMETER_LIMIT: i64 = 0x1000_0000;

/// Largest width and height of the canvas: 8192 pixels.
pub const EXTENT_LIMIT: i64 = 0x2000_0000;

/// Largest magnitude of an angle: 65536 radians.
pub const ANGLE_LIMIT: i64 = 0x1_0000_0000;

/// Largest number of rays that one emitter can hold.
pub const RAY_LIMIT: usize = 0x7fff_ffff;

/// `v` lies in `[-limit, limit]`.
pub open spec fn within(v: int, limit: int) -> bool {
    -limit <= v <= limit
}

/// The whole number of pixels `px`, in units.
pub fn from_pixels(px: i32) -> (r: i64)
    ensures
        r == px * ONE,
{
    (px as i64) * ONE
}

/// The quotient of `a` by `b`, rounded towards minus infinity.
pub fn floor_div(a: i128, b: i128) -> (q: i128)
    requires
        b > 0,
        a > i128::MIN,
    ensures
        q == a / b,
{
    if a >= 0 {
        a / b
    } else {
        let m: i128 = -a;
        let q0: i128 = m / b;
        let r0: i128 = m % b;
        assert(m == q0 * b + r0 && 0 <= r0 < b) by (nonlinear_arith)
            requires
                m >= 0,
                b > 0,
                q0 == m / b,
                r0 == m % b,
        ;
        if r0 == 0 {
            assert(a / b == -q0) by (nonlinear_arith)
                requires
                    a == -m,
                    m == q0 * b + r0,
                    r0 == 0,
                    b > 0,
            ;
            -q0
        } else {
            assert(a / b == -q0 - 1) by (nonlinear_arith)
                requires
                    a == -m,
                    m == q0 * b + r0,
                    0 < r0 < b,
            ;
            -q0 - 1
        }
    }
}

/// The product of two fixed-point numbers: `a * b / ONE`, rounded towards
/// minus infinity.
pub open spec fn scale(a: int, b: int) -> int {
    (a * b) / (ONE as int)
}

/// Scaling by a factor of magnitude at most one does not grow the magnitude.
pub proof fn lemma_scale_bound(a: int, b: int, limit: int)
    requires
        within(a, ONE as int),
        within(b, limit),
        0 <= limit,
    ensures
        within(scale(a, b), limit),
{
    let p = a * b;
    assert(-(limit * 65536) <= p <= limit * 65536) by (nonlinear_arith)
        requires
            p == a * b,
            -65536 <= a <= 65536,
            -limit <= b <= limit,
            0 <= limit,
    ;
    assert(-limit <= p / 65536 <= limit);
}

/// `scale(a, b)`, for a factor `a` of magnitude at most one and a length
/// `b` of at most 16384 pixels.
pub fn scale_exec(a: i64, b: i64) -> (r: i64)
    requires
        within(a as int, ONE as int),
        within(b as int, COORD_LIMIT as int),
    ensures
        r == scale(a as int, b as int),
        within(r as int, COORD_LIMIT as int),
{
    proof {
        lemma_scale_bound(a as int, b as int, COORD_LIMIT as int);
        assert(-(0x4000_0000 * 65536) <= a * b <= 0x4000_0000 * 65536) by (nonlinear_arith)
            requires
                -65536 <= a <= 65536,
                -0x4000_0000 <= b <= 0x4000_0000,
        ;
    }
    let p: i128 = (a as i128) * (b as i128);
    let q: i128 = floor_div(p, ONE as i128);
    q as i64
}

/// The integer square root: the largest `r` with `r * r <= n`.
pub open spec fn is_sqrt_floor(n: int, r: int) -> bool {
    0 <= r && r * r <= n < (r + 1) * (r + 1)
}

/// The integer square root is unique.
pub proof fn lemma_sqrt_floor_unique(n: int, r1: int, r2: int)
    requires
        is_sqrt_floor(n, r1),
        is_sqrt_floor(n, r2),
    ensures
        r1 == r2,
{
    if r1 < r2 {
        assert((r1 + 1) * (r1 + 1) <= r2 * r2) by (nonlinear_arith)
            requires
                0 <= r1,
                r1 + 1 <= r2,
        ;
    } else if r2 < r1 {
        assert((r2 + 1) * (r2 + 1) <= r1 * r1) by (nonlinear_arith)
            requires
                0 <= r2,
                r2 + 1 <= r1,
        ;
    }
}

/// The integer square root of `n`: the square root rounded down.
pub open spec fn sqrt_floor(n: int) -> int {
    choose|r: int| is_sqrt_floor(n, r)
}

/// Every natural number has an integer square root.
pub proof fn lemma_sqrt_floor_exists(n: int)
    requires
        n >= 0,
    ensures
        is_sqrt_floor(n, sqrt_floor(n)),
    decreases n,
{
    if n == 0 {
        assert(is_sqrt_floor(0, 0));
    } else {
        lemma_sqrt_floor_exists(n - 1);
        let r = sqrt_floor(n - 1);
        if (r + 1) * (r + 1) <= n {
            assert((r + 1) * (r + 1) < (r + 2) * (r + 2)) by (nonlinear_arith)
                requires
                    r >= 0,
            ;
            assert(is_sqrt_floor(n, r + 1));
        } else {
            assert(is_sqrt_floor(n, r));
        }
    }
}

/// A number that meets the definition of the integer square root is it.
pub proof fn lemma_sqrt_floor_is(n: int, r: int)
    requires
        is_sqrt_floor(n, r),
    ensures
        sqrt_floor(n) == r,
{
    lemma_sqrt_floor_unique(n, sqrt_floor(n), r);
}

/// The quotient of `n` by `d`, rounded to the nearest integer; a quotient
/// half-way between two integers is rounded up.
pub open spec fn round_div(n: int, d: int) -> int {
    (2 * n + d) / (2 * d)
}

/// A fraction of a length, rounded, lies between nothing and the length:
/// for `0 <= k <= a`, `round_div(v * k, a)` lies between `0` and `v`.
pub proof fn lemma_round_div_between(v: int, k: int, a: int)
    requires
        a > 0,
        0 <= k <= a,
    ensures
        v >= 0 ==> 0 <= round_div(v * k, a) <= v,
        v <= 0 ==> v <= round_div(v * k, a) <= 0,
        k == a ==> round_div(v * k, a) == v,
        k == 0 ==> round_div(v * k, a) == 0,
{
    let n = v * k;
    if v >= 0 {
        assert(0 <= n <= v * a) by (nonlinear_arith)
            requires
                n == v * k,
                0 <= k <= a,
                v >= 0,
        ;
        assert(0 <= (2 * n + a) / (2 * a) <= v) by (nonlinear_arith)
            requires
                0 <= n <= v * a,
                a > 0,
        ;
    }
    if v <= 0 {
        assert(v * a <= n <= 0) by (nonlinear_arith)
            requires
                n == v * k,
                0 <= k <= a,
                v <= 0,
        ;
        assert(v <= (2 * n + a) / (2 * a) <= 0) by (nonlinear_arith)
            requires
                v * a <= n <= 0,
                a > 0,
        ;
    }
    if k == a {
        assert((2 * (v * a) + a) / (2 * a) == v) by (nonlinear_arith)
            requires
                a > 0,
        ;
    }
    if k == 0 {
        assert(v * 0 == 0);
        assert((2 * 0 + a) / (2 * a) == 0) by (nonlinear_arith)
            requires
                a > 0,
        ;
    }
}

/// `round_div(n, d)`, for operands whose double fits.
pub fn round_div_exec(n: i128, d: i128) -> (q: i128)
    requires
        d > 0,
        d <= 0x1_0000_0000_0000_0000,
        -0x1_0000_0000_0000_0000_0000_0000_0000 <= n <= 0x1_0000_0000_0000_0000_0000_0000_0000,
    ensures
        q == round_div(n as int, d as int),
{
    floor_div(2 * n + d, 2 * d)
}

/// Computes the integer square root of `n` by bisection.
pub fn isqrt(n: u128) -> (r: u128)
    ensures
        is_sqrt_floor(n as int, r as int),
        r == sqrt_floor(n as int),
        r < 0x1_0000_0000_0000_0000,
{
    let mut lo: u128 = 0;
    let mut hi: u128 = 0x1_0000_0000_0000_0000;
    assert(hi * hi > n) by (nonlinear_arith)
        requires
            hi == 0x1_0000_0000_0000_0000,
            n <= u128::MAX,
    ;
    while hi - lo > 1
        invariant
            lo < hi <= 0x1_0000_0000_0000_0000,
            lo * lo <= n < hi * hi,
        decreases hi - lo,
    {
        let mid: u128 = lo + (hi - lo) / 2;
        assert(mid * mid <= 0xffff_ffff_ffff_ffff * 0xffff_ffff_ffff_ffff) by (nonlinear_arith)
            requires
                0 <= mid <= 0xffff_ffff_ffff_ffff,
        ;
        if mid * mid <= n {
            lo = mid;
        } else {
            hi = mid;
        }
    }
    proof {
        lemma_sqrt_floor_is(n as int, lo as int);
    }
    lo
}

} // verus!
