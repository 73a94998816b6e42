//! Sine and cosine of a fixed-point angle.
//!
//! An angle counts `ONE` units to the radian. A quarter turn is `pi / 2`
//! rounded to `QUARTER_TURN` units, and the half and the full turn are its
//! multiples, so that the sine and cosine of every multiple of a quarter turn
//! are exact. Inside the first half of a quarter turn both functions are the
//! Taylor polynomials of degree seven and six, evaluated exactly and rounded
//! once, to the nearest unit.

use vstd::prelude::*;
use crate::fixed::{ONE, floor_div, within};

verus! {

/// A quarter of a turn: `pi / 2`, in units.
pub const QUARTER_TURN: i64 = 102944;

/// Half a turn: `pi`, in units.
pub const HALF_TURN: i64 = 205888;

/// A full turn: `2 * pi`, in units.
pub const FULL_TURN: i64 = 411776;

/// Half of a quarter turn: the largest angle that the polynomials take.
pub const OCTANT: i64 = 51472;

/// `5040 * ONE^6`: the common denominator of the sine polynomial.
pub open spec fn sin_denominator() -> int {
    399309939071892261471461509693440
}

/// `5040 * ONE^6 * x - 840 * ONE^4 * x^3 + 42 * ONE^2 * x^5 - x^7`:
/// the sine polynomial of `x / ONE`, times `ONE * sin_denominator()`.
pub open spec fn sin_numerator(x: int) -> int {
    let u = x * x;
    let u2 = u * u;
    let u3 = u2 * u;
    x * (399309939071892261471461509693440 - 15495265021916023357440 * u + 180388626432 * u2 - u3)
}

/// `720 * ONE^5`: the common denominator of the cosine polynomial.
pub open spec fn cos_denominator() -> int {
    870426590122533005788446720
}

/// `720 * ONE^6 - 360 * ONE^4 * x^2 + 30 * ONE^2 * x^4 - x^6`:
/// the cosine polynomial of `x / ONE`, times `ONE * cos_denominator()`.
pub open spec fn cos_numerator(x: int) -> int {
    let u = x * x;
    let u2 = u * u;
    let u3 = u2 * u;
    57044277010270323067351644241920 - 6640827866535438581760 * u + 128849018880 * u2 - u3
}

/// The sine of an angle `x` in the first octant, `0 <= x <= OCTANT`:
/// `x - x^3/3! + x^5/5! - x^7/7!`, rounded to the nearest unit.
pub open spec fn sin_octant(x: int) -> int {
    (sin_numerator(x) + sin_denominator() / 2) / sin_denominator()
}

/// The cosine of an angle `x` in the first octant, `0 <= x <= OCTANT`:
/// `1 - x^2/2! + x^4/4! - x^6/6!`, rounded to the nearest unit.
pub open spec fn cos_octant(x: int) -> int {
    (cos_numerator(x) + cos_denominator() / 2) / cos_denominator()
}

/// The sine of an angle in the first quadrant, `0 <= x <= QUARTER_TURN`.
pub open spec fn sin_quadrant(x: int) -> int {
    if x <= OCTANT {
        sin_octant(x)
    } else {
        cos_octant(QUARTER_TURN - x)
    }
}

/// The cosine of an angle in the first quadrant, `0 <= x <= QUARTER_TURN`.
pub open spec fn cos_quadrant(x: int) -> int {
    if x <= OCTANT {
        cos_octant(x)
    } else {
        sin_octant(QUARTER_TURN - x)
    }
}

/// The sine of any angle, in units.
pub open spec fn sin_spec(angle: int) -> int {
    let r = angle % (FULL_TURN as int);
    let x = r % (QUARTER_TURN as int);
    if r < QUARTER_TURN {
        sin_quadrant(x)
    } else if r < 2 * QUARTER_TURN {
        cos_quadrant(x)
    } else if r < 3 * QUARTER_TURN {
        -sin_quadrant(x)
    } else {
        -cos_quadrant(x)
    }
}

/// The cosine of any angle, in units.
pub open spec fn cos_spec(angle: int) -> int {
    let r = angle % (FULL_TURN as int);
    let x = r % (QUARTER_TURN as int);
    if r < QUARTER_TURN {
        cos_quadrant(x)
    } else if r < 2 * QUARTER_TURN {
        -sin_quadrant(x)
    } else if r < 3 * QUARTER_TURN {
        -cos_quadrant(x)
    } else {
        sin_quadrant(x)
    }
}

/// Bounds of the even powers of an angle of the first octant.
proof fn lemma_powers(x: int, u: int, u2: int, u3: int)
    requires
        0 <= x <= OCTANT,
        u == x * x,
        u2 == u * u,
        u3 == u2 * u,
    ensures
        0 <= u <= 2649366784,
        0 <= u2 <= 2649366784 * u,
        0 <= u3 <= 2649366784 * u2,
        u2 <= 7019144356162502656,
        u3 <= 18596287919736908476166598656,
{
    assert(0 <= u <= 2649366784) by (nonlinear_arith)
        requires
            0 <= x <= 51472,
            u == x * x,
    ;
    assert(0 <= u2 <= 2649366784 * u) by (nonlinear_arith)
        requires
            0 <= u <= 2649366784,
            u2 == u * u,
    ;
    assert(0 <= u3 <= 2649366784 * u2) by (nonlinear_arith)
        requires
            0 <= u <= 2649366784,
            0 <= u2,
            u3 == u2 * u,
    ;
}

/// In the first octant the sine lies between zero and the angle.
pub proof fn lemma_sin_octant_bounds(x: int)
    requires
        0 <= x <= OCTANT,
    ensures
        0 <= sin_numerator(x) <= x * sin_denominator(),
        0 <= sin_octant(x) <= x,
{
    let u = x * x;
    let u2 = u * u;
    let u3 = u2 * u;
    lemma_powers(x, u, u2, u3);
    let p = 399309939071892261471461509693440 - 15495265021916023357440 * u + 180388626432 * u2 - u3;
    assert(0 <= p <= 399309939071892261471461509693440);
    assert(sin_numerator(x) == x * p);
    assert(0 <= x * p <= x * 399309939071892261471461509693440) by (nonlinear_arith)
        requires
            0 <= x,
            0 <= p <= 399309939071892261471461509693440,
    ;
}

/// In the first octant the cosine lies between zero and one.
pub proof fn lemma_cos_octant_bounds(x: int)
    requires
        0 <= x <= OCTANT,
    ensures
        0 <= cos_numerator(x) <= ONE * cos_denominator(),
        0 <= cos_octant(x) <= ONE,
{
    let u = x * x;
    let u2 = u * u;
    let u3 = u2 * u;
    lemma_powers(x, u, u2, u3);
}

/// The sine and cosine of every angle lie between minus one and one.
pub proof fn lemma_unit_bounds(angle: int)
    ensures
        within(sin_spec(angle), ONE as int),
        within(cos_spec(angle), ONE as int),
{
    let r = angle % (FULL_TURN as int);
    let x = r % (QUARTER_TURN as int);
    if x <= OCTANT {
        lemma_sin_octant_bounds(x);
        lemma_cos_octant_bounds(x);
    } else {
        lemma_sin_octant_bounds(QUARTER_TURN - x);
        lemma_cos_octant_bounds(QUARTER_TURN - x);
    }
}

/// At the multiples of a quarter turn the sine and cosine are exact.
pub proof fn lemma_axes()
    ensures
        cos_spec(0) == ONE && sin_spec(0) == 0,
        cos_spec(QUARTER_TURN as int) == 0 && sin_spec(QUARTER_TURN as int) == ONE,
        cos_spec(HALF_TURN as int) == -ONE && sin_spec(HALF_TURN as int) == 0,
        cos_spec(3 * QUARTER_TURN) == 0 && sin_spec(3 * QUARTER_TURN) == -ONE,
{
    assert(sin_numerator(0) == 0);
    assert(cos_numerator(0) == 57044277010270323067351644241920) by {
        lemma_powers(0, 0, 0, 0);
    }
    assert(sin_octant(0) == 0);
    assert(cos_octant(0) == 65536);
}

/// Both functions repeat after a full turn.
pub proof fn lemma_periodic(angle: int, turns: int)
    ensures
        sin_spec(angle + turns * FULL_TURN) == sin_spec(angle),
        cos_spec(angle + turns * FULL_TURN) == cos_spec(angle),
{
    vstd::arithmetic::div_mod::lemma_mod_multiples_vanish(turns, angle, FULL_TURN as int);
    assert(turns * FULL_TURN + angle == angle + turns * FULL_TURN);
}

/// The cosine is even and the sine is odd.
pub proof fn lemma_symmetry(angle: int)
    ensures
        cos_spec(-angle) == cos_spec(angle),
        sin_spec(-angle) == -sin_spec(angle),
{
    let full = FULL_TURN as int;
    let r = angle % full;
    let m = (-angle) % full;
    assert(m == (if r == 0 {
        0
    } else {
        full - r
    })) by {
        vstd::arithmetic::div_mod::lemma_fundamental_div_mod(angle, full);
        vstd::arithmetic::div_mod::lemma_fundamental_div_mod(-angle, full);
        let q = angle / full;
        if r == 0 {
            vstd::arithmetic::div_mod::lemma_fundamental_div_mod_converse(-angle, full, -q, 0);
        } else {
            vstd::arithmetic::div_mod::lemma_fundamental_div_mod_converse(
                -angle,
                full,
                -q - 1,
                full - r,
            );
        }
    }
    assert(sin_numerator(0) == 0);
    let u: int = 51472int * 51472int;
    assert(u == 2649366784);
    assert(u * u == 7019144356162502656) by (nonlinear_arith)
        requires
            u == 2649366784,
    ;
    assert((u * u) * u == 18596287909318000243118178304) by (nonlinear_arith)
        requires
            u == 2649366784,
    ;
    assert(cos_numerator(51472) == 40336101818169056678792507949056);
    assert(sin_numerator(51472) == 18504434984409276641982444787881476096);
    assert(sin_octant(OCTANT as int) == 46341);
    assert(cos_octant(OCTANT as int) == 46341);
    assert(cos_octant(0) == 65536);
    assert(sin_octant(0) == 0);
}

/// The square of a sum of four terms with alternating signs.
proof fn lemma_square_of_four(t0: int, t1: int, t2: int, t3: int)
    ensures
        (t0 - t1 + t2 - t3) * (t0 - t1 + t2 - t3) == t0 * t0 + t1 * t1 + t2 * t2 + t3 * t3 - 2 * (t0
            * t1) + 2 * (t0 * t2) - 2 * (t0 * t3) - 2 * (t1 * t2) + 2 * (t1 * t3) - 2 * (t2 * t3),
{
    let p = t0 - t1;
    let q = t2 - t3;
    assert((p + q) * (p + q) == p * p + 2 * (p * q) + q * q) by (nonlinear_arith);
    assert(p * p == t0 * t0 - 2 * (t0 * t1) + t1 * t1) by (nonlinear_arith)
        requires
            p == t0 - t1,
    ;
    assert(q * q == t2 * t2 - 2 * (t2 * t3) + t3 * t3) by (nonlinear_arith)
        requires
            q == t2 - t3,
    ;
    assert(p * q == t0 * t2 - t0 * t3 - t1 * t2 + t1 * t3) by (nonlinear_arith)
        requires
            p == t0 - t1,
            q == t2 - t3,
    ;
}

/// The powers of `u` up to the seventh, as products of lower powers.
proof fn lemma_monomials(u: int, u2: int, u3: int, m4: int, m5: int, m6: int, m7: int)
    requires
        u2 == u * u,
        u3 == u2 * u,
        m4 == u2 * u2,
        m5 == m4 * u,
        m6 == m5 * u,
        m7 == m6 * u,
    ensures
        u * u2 == u3,
        u * u3 == m4,
        u3 * u == m4,
        u2 * u3 == m5,
        u * m4 == m5,
        u3 * u3 == m6,
        u * m5 == m6,
        u * m6 == m7,
{
    assert(u * u2 == u3) by (nonlinear_arith)
        requires
            u3 == u2 * u,
    ;
    assert(u3 * u == m4 && u * u3 == m4) by (nonlinear_arith)
        requires
            u2 == u * u,
            u3 == u2 * u,
            m4 == u2 * u2,
    ;
    assert(u2 * u3 == m5) by (nonlinear_arith)
        requires
            u3 == u2 * u,
            m4 == u2 * u2,
            m5 == m4 * u,
    ;
    assert(u * m4 == m5) by (nonlinear_arith)
        requires
            m5 == m4 * u,
    ;
    assert(u3 * u3 == m6) by (nonlinear_arith)
        requires
            u3 * u == m4,
            u2 * u3 == m5,
            u3 == u2 * u,
            m6 == m5 * u,
    ;
    assert(u * m5 == m6) by (nonlinear_arith)
        requires
            m6 == m5 * u,
    ;
    assert(u * m6 == m7) by (nonlinear_arith)
        requires
            m7 == m6 * u,
    ;
}

/// A constant times a power, times another constant times a power.
proof fn lemma_term_product(a: int, p: int, b: int, q: int, pq: int)
    requires
        p * q == pq,
    ensures
        (a * p) * (b * q) == (a * b) * pq,
{
    let ab = a * b;
    assert((a * p) * (b * q) == ab * (p * q)) by (nonlinear_arith)
        requires
            ab == a * b,
    ;
}

/// The square of `a0 - a1 u + a2 u^2 - u^3`, written out in powers of `u`.
proof fn lemma_cubic_squared(
    a0: int,
    a1: int,
    a2: int,
    u: int,
    u2: int,
    u3: int,
    m4: int,
    m5: int,
    m6: int,
    m7: int,
)
    requires
        u2 == u * u,
        u3 == u2 * u,
        m4 == u2 * u2,
        m5 == m4 * u,
        m6 == m5 * u,
        m7 == m6 * u,
    ensures
        (a0 - a1 * u + a2 * u2 - u3) * (a0 - a1 * u + a2 * u2 - u3) == a0 * a0 - (2 * (a0 * a1))
            * u + (a1 * a1 + 2 * (a0 * a2)) * u2 - (2 * a0 + 2 * (a1 * a2)) * u3 + (a2 * a2 + 2
            * a1) * m4 - (2 * a2) * m5 + m6,
{
    lemma_monomials(u, u2, u3, m4, m5, m6, m7);
    let t1 = a1 * u;
    let t2 = a2 * u2;
    lemma_square_of_four(a0, t1, t2, u3);
    lemma_term_product(a1, u, a1, u, u2);
    lemma_term_product(a2, u2, a2, u2, m4);
    lemma_term_product(a1, u, a2, u2, u3);
    lemma_term_product(a1, u, 1, u3, m4);
    lemma_term_product(a2, u2, 1, u3, m5);
    assert(1 * u3 == u3);
    assert(a0 * t1 == (a0 * a1) * u) by (nonlinear_arith)
        requires
            t1 == a1 * u,
    ;
    assert(a0 * t2 == (a0 * a2) * u2) by (nonlinear_arith)
        requires
            t2 == a2 * u2,
    ;
    assert((a1 * 1) * m4 == a1 * m4 && (a2 * 1) * m5 == a2 * m5) by (nonlinear_arith);
    assert((2 * (a0 * a1)) * u == 2 * ((a0 * a1) * u)) by (nonlinear_arith);
    assert((a1 * a1 + 2 * (a0 * a2)) * u2 == (a1 * a1) * u2 + 2 * ((a0 * a2) * u2))
        by (nonlinear_arith);
    assert((2 * a0 + 2 * (a1 * a2)) * u3 == 2 * (a0 * u3) + 2 * ((a1 * a2) * u3))
        by (nonlinear_arith);
    assert((a2 * a2 + 2 * a1) * m4 == (a2 * a2) * m4 + 2 * (a1 * m4)) by (nonlinear_arith);
    assert((2 * a2) * m5 == 2 * (a2 * m5)) by (nonlinear_arith);
}

/// The sum of the squares of the two polynomials, each over its
/// denominator, differs from one by a multiple of the eighth power of the
/// angle: `49 ONE^2 C^2 + S^2 - ONE^2 D^2 = u^4 (u^3 - 35 ONE^2 u^2 +
/// 504 ONE^4 u - 1260 ONE^6)`, for `C` and `S` the numerators of the cosine
/// and sine, `D` the denominator of the sine and `u` the square of the
/// angle.
proof fn lemma_pythagoras_residual(x: int)
    requires
        0 <= x <= OCTANT,
    ensures
        ({
            let u = x * x;
            let u2 = u * u;
            let m4 = u2 * u2;
            let residual = 210453397504 * (cos_numerator(x) * cos_numerator(x)) + sin_numerator(x)
                * sin_numerator(x) - 4294967296 * (sin_denominator() * sin_denominator());
            &&& 0 <= m4 <= 49268387492647913937421226185207054336
            &&& -(99827484767973065367865377423360 * m4) <= residual <= 0
        }),
{
    let u = x * x;
    let u2 = u * u;
    let u3 = u2 * u;
    let m4 = u2 * u2;
    let m5 = m4 * u;
    let m6 = m5 * u;
    let m7 = m6 * u;
    lemma_powers(x, u, u2, u3);
    lemma_monomials(u, u2, u3, m4, m5, m6, m7);
    let a0 = 57044277010270323067351644241920int;
    let a1 = 6640827866535438581760int;
    let a2 = 128849018880int;
    let b0 = 399309939071892261471461509693440int;
    let b1 = 15495265021916023357440int;
    let b2 = 180388626432int;
    let cn = cos_numerator(x);
    let p = b0 - b1 * u + b2 * u2 - u3;
    let sn = sin_numerator(x);
    assert(cn == a0 - a1 * u + a2 * u2 - u3);
    assert(sn == x * p);
    lemma_cubic_squared(a0, a1, a2, u, u2, u3, m4, m5, m6, m7);
    lemma_cubic_squared(b0, b1, b2, u, u2, u3, m4, m5, m6, m7);
    let cc = cn * cn;
    let pp = p * p;
    assert(cc == 3254049539624455307972473236990854270107461062410155491485286400
        - 757642448792340072796790217280121117389635430278758400 * u
        + 58800793003938166486471132164209546939596800 * u2 - 1825416864328650338155252615741440
        * u3 + 29883725399409473617920 * m4 - 257698037760 * m5 + m6);
    assert(pp == 159448427441598310090651188612551859235265592058097619082779033600
        - 12374826663608221189014240215575311584030712027886387200 * u
        + 384165180959062687711611396806169040005365760 * u2
        - 6388959025150276183543384155095040 * u3 + 63530586589855695765504 * m4 - 360777252864
        * m5 + m6);
    assert(sn * sn == u * pp) by (nonlinear_arith)
        requires
            sn == x * p,
            u == x * x,
            pp == p * p,
    ;
    assert(u * pp == 159448427441598310090651188612551859235265592058097619082779033600 * u
        - 12374826663608221189014240215575311584030712027886387200 * u2
        + 384165180959062687711611396806169040005365760 * u3
        - 6388959025150276183543384155095040 * m4 + 63530586589855695765504 * m5 - 360777252864
        * m6 + m7) by (nonlinear_arith)
        requires
            pp == 159448427441598310090651188612551859235265592058097619082779033600
                - 12374826663608221189014240215575311584030712027886387200 * u
                + 384165180959062687711611396806169040005365760 * u2
                - 6388959025150276183543384155095040 * u3 + 63530586589855695765504 * m4
                - 360777252864 * m5 + m6,
            u * u == u2,
            u * u2 == u3,
            u * u3 == m4,
            u * m4 == m5,
            u * m5 == m6,
            u * m6 == m7,
    ;
    let residual = 210453397504 * cc + sn * sn - 4294967296 * (b0 * b0);
    assert(b0 * b0 == 159448427441598310090651188612551859235265592058097619082779033600);
    assert(residual == m7 - 150323855360 * m6 + 9297159013149614014464 * m5
        - 99827484767973065367865377423360 * m4);
    // Each power is at most the square of ONE times the power before.
    assert(0 <= m4 <= 49268387492647913937421226185207054336) by (nonlinear_arith)
        requires
            m4 == u2 * u2,
            0 <= u2 <= 7019144356162502656,
    ;
    assert(0 <= m5 <= 2649366784 * m4) by (nonlinear_arith)
        requires
            m5 == m4 * u,
            0 <= m4,
            0 <= u <= 2649366784,
    ;
    assert(0 <= m6 <= 2649366784 * m5) by (nonlinear_arith)
        requires
            m6 == m5 * u,
            0 <= m5,
            0 <= u <= 2649366784,
    ;
    assert(0 <= m7 <= 2649366784 * m6) by (nonlinear_arith)
        requires
            m7 == m6 * u,
            0 <= m6,
            0 <= u <= 2649366784,
    ;
}

/// In the first octant the cosine and the sine are the two coordinates of
/// a point at distance one from the origin, but for the rounding and the
/// terms that the polynomials leave out: the sum of their squares differs
/// from the square of `ONE` by at most three times `ONE`.
pub proof fn lemma_octant_unit_length(x: int)
    requires
        0 <= x <= OCTANT,
    ensures
        within(
            cos_octant(x) * cos_octant(x) + sin_octant(x) * sin_octant(x) - ONE * ONE,
            3 * ONE,
        ),
{
    let one = ONE as int;
    let dc = cos_denominator();
    let ds = sin_denominator();
    let cn = cos_numerator(x);
    let sn = sin_numerator(x);
    let c = cos_octant(x);
    let s = sin_octant(x);
    lemma_sin_octant_bounds(x);
    lemma_cos_octant_bounds(x);
    lemma_pythagoras_residual(x);
    let u = x * x;
    let u2 = u * u;
    let m4 = u2 * u2;
    let residual = 210453397504 * (cn * cn) + sn * sn - 4294967296 * (ds * ds);
    let dd = ds * ds;
    assert(dd == 159448427441598310090651188612551859235265592058097619082779033600);
    assert(-(99827484767973065367865377423360 * 49268387492647913937421226185207054336)
        <= -(99827484767973065367865377423360 * m4));
    assert(-31000 * dd <= residual <= 0);
    // The rounding of the two quotients.
    let ec = dc * c - cn;
    let es = ds * s - sn;
    assert(-dc < 2 * ec <= dc);
    assert(-ds < 2 * es <= ds);
    assert(ds == 458752 * dc);
    // 49 ONE^2 (dc c)^2 + (ds s)^2 = ds^2 (c^2 + s^2).
    let dcc = dc * c;
    let dss = ds * s;
    assert(210453397504 * (dcc * dcc) == dd * (c * c)) by {
        assert(dcc * dcc == (dc * dc) * (c * c)) by (nonlinear_arith)
            requires
                dcc == dc * c,
        ;
        assert(210453397504 * (dc * dc) == dd);
        assert(210453397504 * ((dc * dc) * (c * c)) == (210453397504 * (dc * dc)) * (c * c))
            by (nonlinear_arith);
    }
    assert(dss * dss == dd * (s * s)) by (nonlinear_arith)
        requires
            dss == ds * s,
            dd == ds * ds,
    ;
    assert(dcc * dcc == cn * cn + 2 * (cn * ec) + ec * ec) by (nonlinear_arith)
        requires
            dcc == cn + ec,
    ;
    assert(dss * dss == sn * sn + 2 * (sn * es) + es * es) by (nonlinear_arith)
        requires
            dss == sn + es,
    ;
    // The cross terms and the squares of the roundings.
    assert(-(65536 * dc) * dc <= 2 * (cn * ec) <= (65536 * dc) * dc) by (nonlinear_arith)
        requires
            0 <= cn <= 65536 * dc,
            -dc < 2 * ec <= dc,
    ;
    assert(0 <= 4 * (ec * ec) <= dc * dc) by (nonlinear_arith)
        requires
            -dc < 2 * ec <= dc,
    ;
    assert(-(51472 * ds) * ds <= 2 * (sn * es) <= (51472 * ds) * ds) by (nonlinear_arith)
        requires
            0 <= sn <= x * ds,
            0 <= x <= 51472,
            -ds < 2 * es <= ds,
            ds > 0,
    ;
    assert(0 <= 4 * (es * es) <= ds * ds) by (nonlinear_arith)
        requires
            -ds < 2 * es <= ds,
    ;
    assert((65536 * dc) * dc == 65536 * (dc * dc)) by (nonlinear_arith);
    assert((51472 * ds) * ds == 51472 * dd) by (nonlinear_arith)
        requires
            dd == ds * ds,
    ;
    let t = c * c + s * s - one * one;
    assert(dd * t == dd * (c * c) + dd * (s * s) - dd * (one * one)) by (nonlinear_arith)
        requires
            t == c * c + s * s - one * one,
    ;
    assert(one * one == 4294967296);
    assert(dd * t == residual + 210453397504 * (2 * (cn * ec) + ec * ec) + 2 * (sn * es) + es
        * es);
    assert(-150000 * dd <= dd * t <= 150000 * dd);
    assert(-150000 <= t <= 150000) by (nonlinear_arith)
        requires
            dd > 0,
            -150000 * dd <= dd * t <= 150000 * dd,
    ;
}

/// The cosine and the sine of every angle are the two coordinates of a
/// point at distance one from the origin, but for the rounding: the sum of
/// their squares differs from the square of `ONE` by at most three times
/// `ONE`, so that the distance differs from `ONE` by less than two units.
pub proof fn lemma_unit_length(angle: int)
    ensures
        within(
            cos_spec(angle) * cos_spec(angle) + sin_spec(angle) * sin_spec(angle) - ONE * ONE,
            3 * ONE,
        ),
{
    let r = angle % (FULL_TURN as int);
    let x = r % (QUARTER_TURN as int);
    let y = if x <= OCTANT {
        x
    } else {
        QUARTER_TURN - x
    };
    lemma_octant_unit_length(y);
    let c = cos_octant(y);
    let s = sin_octant(y);
    assert((-c) * (-c) == c * c && (-s) * (-s) == s * s) by (nonlinear_arith);
}

/// Evaluates the two polynomials at an angle of the first octant.
fn octant(x: i64) -> (r: (i64, i64))
    requires
        0 <= x <= OCTANT,
    ensures
        r.0 == cos_octant(x as int),
        r.1 == sin_octant(x as int),
        0 <= r.0 <= ONE,
        0 <= r.1 <= ONE,
{
    let xw: i128 = x as i128;
    assert(0 <= xw * xw <= 2649366784) by (nonlinear_arith)
        requires
            0 <= xw <= 51472,
    ;
    let u: i128 = xw * xw;
    proof {
        lemma_powers(x as int, u as int, u * u, u * u * u);
        lemma_sin_octant_bounds(x as int);
        lemma_cos_octant_bounds(x as int);
    }
    let u2: i128 = u * u;
    let u3: i128 = u2 * u;
    let sin_p: i128 = 399309939071892261471461509693440 - 15495265021916023357440 * u
        + 180388626432 * u2 - u3;
    assert(0 <= sin_p <= 399309939071892261471461509693440);
    assert(0 <= xw * sin_p <= 51472 * 399309939071892261471461509693440) by (nonlinear_arith)
        requires
            0 <= xw <= 51472,
            0 <= sin_p <= 399309939071892261471461509693440,
    ;
    let sin_n: i128 = xw * sin_p;
    let cos_n: i128 = 57044277010270323067351644241920 - 6640827866535438581760 * u
        + 128849018880 * u2 - u3;
    let s: i128 = floor_div(
        sin_n + 199654969535946130735730754846720,
        399309939071892261471461509693440,
    );
    let c: i128 = floor_div(cos_n + 435213295061266502894223360, 870426590122533005788446720);
    (c as i64, s as i64)
}

/// Evaluates the cosine and sine of an angle of the first quadrant.
fn quadrant(x: i64) -> (r: (i64, i64))
    requires
        0 <= x < QUARTER_TURN,
    ensures
        r.0 == cos_quadrant(x as int),
        r.1 == sin_quadrant(x as int),
        0 <= r.0 <= ONE,
        0 <= r.1 <= ONE,
{
    if x <= OCTANT {
        octant(x)
    } else {
        let (c, s) = octant(QUARTER_TURN - x);
        (s, c)
    }
}

/// The cosine and the sine of `angle`, as a pair.
pub fn cos_sin(angle: i64) -> (r: (i64, i64))
    ensures
        r.0 == cos_spec(angle as int),
        r.1 == sin_spec(angle as int),
        within(r.0 as int, ONE as int),
        within(r.1 as int, ONE as int),
{
    let turns: i128 = floor_div(angle as i128, FULL_TURN as i128);
    let rem: i64 = (angle as i128 - turns * (FULL_TURN as i128)) as i64;
    assert(rem == (angle as int) % (FULL_TURN as int));
    let quarter: i64 = rem / QUARTER_TURN;
    let x: i64 = rem % QUARTER_TURN;
    let (c, s) = quadrant(x);
    if quarter == 0 {
        (c, s)
    } else if quarter == 1 {
        (-s, c)
    } else if quarter == 2 {
        (-c, -s)
    } else {
        (s, -c)
    }
}

/// The cosine of `angle`.
pub fn cos_fixed(angle: i64) -> (r: i64)
    ensures
        r == cos_spec(angle as int),
        within(r as int, ONE as int),
{
    cos_sin(angle).0
}

/// The sine of `angle`.
pub fn sin_fixed(angle: i64) -> (r: i64)
    ensures
        r == sin_spec(angle as int),
        within(r as int, ONE as int),
{
    cos_sin(angle).1
}

} // verus!
