//! Fixed-point circular functions.
//!
//! Angles are raw scalars in millionths of a radian. The half-turn constant
//! `PI_FX` is the library's value of pi; a full turn is `TAU_FX = 2 * PI_FX`.
//!
//! The sine of an angle in the first half-turn is computed by the rational
//! approximant `16 z / (5 pi^2 - 4 z)` with `z = x (pi - x)`, which is exact
//! at `0`, `pi / 2` and `pi` and stays within the unit everywhere; the other
//! half-turn follows by odd symmetry, and the cosine by a quarter-turn
//! shift. The arctangent on the unit interval uses the quadratic approximant
//! `t (pi / 4 + k (1 - t))`, exact at `0` and `1`; `atan2_fx` reduces every
//! quadrant to it. The contracts state the computed value exactly over the
//! integers, together with the range, sign and special-value facts the rest
//! of the library builds on.

use vstd::prelude::*;
use crate::fixed::{SCALE, tdiv, tmul, in_i64};
use crate::fixed::{lemma_tdiv_exact, lemma_tdiv_bounds, lemma_tdiv_mono};
use vstd::arithmetic::div_mod::{
    lemma_div_of0, lemma_div_pos_is_pos, lemma_fundamental_div_mod,
    lemma_mod_division_less_than_divisor,
};

verus! {

/// Half turn: pi in millionths of a radian.
pub const PI_FX: i64 = 3_141_592;

/// Quarter turn.
pub const HALF_PI_FX: i64 = 1_570_796;

/// Eighth of a turn: pi / 4.
pub const QUARTER_PI_FX: i64 = 785_398;

/// Full turn: 2 * pi in millionths of a radian.
pub const TAU_FX: i64 = 6_283_184;

/// Adjustment coefficient of the arctangent approximant.
pub const ATAN_ADJ_FX: i64 = 273_000;

/// Sine over the first half-turn: the rational approximant on `[0, pi]`.
pub open spec fn sin_half_spec(x: int) -> int
    recommends
        0 <= x <= PI_FX as int,
{
    let p = PI_FX as int;
    let z = x * (p - x);
    tdiv(16 * z * (SCALE as int), 5 * p * p - 4 * z)
}

/// Sine of a normalized angle in `[0, TAU_FX)`.
pub open spec fn sin_spec(a: int) -> int
    recommends
        0 <= a < TAU_FX as int,
{
    if a <= PI_FX as int {
        sin_half_spec(a)
    } else {
        -sin_half_spec(a - PI_FX as int)
    }
}

/// Cosine of a normalized angle: sine shifted by a quarter turn.
pub open spec fn cos_spec(a: int) -> int
    recommends
        0 <= a < TAU_FX as int,
{
    let b = a + HALF_PI_FX as int;
    if b < TAU_FX as int {
        sin_spec(b)
    } else {
        sin_spec(b - TAU_FX as int)
    }
}

/// The landmark values of the sine and cosine: the four quarter-turn points
/// are exact.
pub proof fn lemma_trig_landmarks()
    ensures
        sin_spec(0) == 0,
        sin_spec(HALF_PI_FX as int) == SCALE as int,
        sin_spec(PI_FX as int) == 0,
        sin_spec(PI_FX as int + HALF_PI_FX as int) == -(SCALE as int),
        cos_spec(0) == SCALE as int,
        cos_spec(HALF_PI_FX as int) == 0,
        cos_spec(PI_FX as int) == -(SCALE as int),
        cos_spec(PI_FX as int + HALF_PI_FX as int) == 0,
{
    let p = PI_FX as int;
    let hp = HALF_PI_FX as int;
    let s = SCALE as int;
    assert(0 * (p - 0) == 0 && p * (p - p) == 0 && hp * (p - hp) == 2_467_400_073_616)
        by (nonlinear_arith)
        requires
            p == 3_141_592,
            hp == 1_570_796,
    ;
    let den0 = 5 * p * p - 4 * (0 * (p - 0));
    let denh = 5 * p * p - 4 * (hp * (p - hp));
    assert(den0 == 49_348_001_472_320 && denh == 39_478_401_177_856) by (nonlinear_arith)
        requires
            p == 3_141_592,
            den0 == 5 * p * p - 4 * (0 * (p - 0)),
            denh == 5 * p * p - 4 * (hp * (p - hp)),
            hp * (p - hp) == 2_467_400_073_616,
    ;
    lemma_div_of0(den0);
    assert(16 * (hp * (p - hp)) * s == s * denh) by (nonlinear_arith)
        requires
            hp * (p - hp) == 2_467_400_073_616,
            denh == 39_478_401_177_856,
            s == 1_000_000,
    ;
    lemma_tdiv_exact(s, denh);
    assert(sin_half_spec(0) == 0);
    assert(sin_half_spec(hp) == s);
    assert(sin_half_spec(p) == 0);
}

/// The half-turn approximant stays within the unit interval and is
/// non-negative on its whole domain.
pub proof fn lemma_sin_half_range(x: int)
    requires
        0 <= x <= PI_FX as int,
    ensures
        0 <= sin_half_spec(x) <= SCALE as int,
{
    let p = PI_FX as int;
    let hp = HALF_PI_FX as int;
    let s = SCALE as int;
    let z = x * (p - x);
    let num = 16 * z * s;
    let den = 5 * p * p - 4 * z;
    assert(0 <= z <= 2_467_400_073_616 && den >= 39_478_401_177_856 && num == 16 * z * 1_000_000
        && den == 5 * 9_869_600_294_464 - 4 * z) by (nonlinear_arith)
        requires
            0 <= x <= p,
            p == 2 * hp,
            hp == 1_570_796,
            s == 1_000_000,
            z == x * (p - x),
            num == 16 * z * s,
            den == 5 * p * p - 4 * z,
    ;
    assert(num >= 0 && num <= 1_000_000 * den) by (nonlinear_arith)
        requires
            0 <= z <= 2_467_400_073_616,
            num == 16 * z * 1_000_000,
            den == 5 * 9_869_600_294_464 - 4 * z,
    ;
    lemma_div_pos_is_pos(num, den);
    lemma_tdiv_mono(num, s * den, den);
    lemma_tdiv_exact(s, den);
}

/// Signs of the sine and cosine by quadrant, and both within the unit.
pub proof fn lemma_trig_range(a: int)
    requires
        0 <= a < TAU_FX as int,
    ensures
        -(SCALE as int) <= sin_spec(a) <= SCALE as int,
        -(SCALE as int) <= cos_spec(a) <= SCALE as int,
        a <= PI_FX as int ==> sin_spec(a) >= 0,
        a >= PI_FX as int ==> sin_spec(a) <= 0,
        a <= HALF_PI_FX as int ==> cos_spec(a) >= 0,
        HALF_PI_FX as int <= a <= PI_FX as int + HALF_PI_FX as int ==> cos_spec(a) <= 0,
        a >= PI_FX as int + HALF_PI_FX as int ==> cos_spec(a) >= 0,
{
    lemma_trig_landmarks();
    if a <= PI_FX as int {
        lemma_sin_half_range(a);
    } else {
        lemma_sin_half_range(a - PI_FX as int);
    }
    let b = a + HALF_PI_FX as int;
    let c = if b < TAU_FX as int {
        b
    } else {
        b - TAU_FX as int
    };
    if c <= PI_FX as int {
        lemma_sin_half_range(c);
    } else {
        lemma_sin_half_range(c - PI_FX as int);
    }
}

/// One quadrant of the circle identity: at complementary arguments the
/// squared approximant values sum to one unit squared, within a narrow
/// band.
#[verifier::rlimit(80)]
proof fn lemma_band_quarter(u: int)
    requires
        0 <= u <= HALF_PI_FX as int,
    ensures
        994_000_000_000 <= sin_half_spec(u) * sin_half_spec(u) + sin_half_spec(
            u + HALF_PI_FX as int,
        ) * sin_half_spec(u + HALF_PI_FX as int) <= 1_002_000_000_000,
{
    let p = PI_FX as int;
    let hp = HALF_PI_FX as int;
    let s = SCALE as int;
    let z1 = u * (p - u);
    let z2 = (u + hp) * (p - (u + hp));
    assert(z2 == hp * hp - u * u && 0 <= z1 <= hp * hp && 0 <= z2 <= hp * hp && p * p
        == 9_869_600_294_464 && hp * hp == 2_467_400_073_616) by (nonlinear_arith)
        requires
            p == 2 * hp,
            hp == 1_570_796,
            0 <= u <= hp,
            z1 == u * (p - u),
            z2 == (u + hp) * (p - (u + hp)),
    ;
    let d1 = 5 * p * p - 4 * z1;
    let d2 = 5 * p * p - 4 * z2;
    let n1 = 16 * z1 * s;
    let n2 = 16 * z2 * s;
    lemma_fundamental_div_mod(n1, d1);
    lemma_mod_division_less_than_divisor(n1, d1);
    lemma_fundamental_div_mod(n2, d2);
    lemma_mod_division_less_than_divisor(n2, d2);
    let b1 = n1 / d1;
    let b2 = n2 / d2;
    let r1 = n1 % d1;
    let r2 = n2 % d2;
    assert(d1 * b1 == b1 * d1 && d2 * b2 == b2 * d2) by (nonlinear_arith);
    assert(994_000_000_000 <= b1 * b1 + b2 * b2 <= 1_002_000_000_000) by (nonlinear_arith)
        requires
            0 <= u <= 1_570_796,
            b1 * (5 * 3_141_592 * 3_141_592 - 4 * (u * (3_141_592 - u))) + r1 == 16 * (u * (
            3_141_592 - u)) * 1_000_000,
            0 <= r1 < 5 * 3_141_592 * 3_141_592 - 4 * (u * (3_141_592 - u)),
            b2 * (5 * 3_141_592 * 3_141_592 - 4 * (1_570_796 * 1_570_796 - u * u)) + r2 == 16 * (
            1_570_796 * 1_570_796 - u * u) * 1_000_000,
            0 <= r2 < 5 * 3_141_592 * 3_141_592 - 4 * (1_570_796 * 1_570_796 - u * u),
    ;
    assert(sin_half_spec(u) == b1);
    assert(sin_half_spec(u + hp) == b2);
}

/// The circle identity within a band: for every normalized angle, the
/// fixed-point squares of the sine and the cosine sum to one unit, within
/// about half a percent either way.
pub proof fn lemma_sin_cos_band(a: int)
    requires
        0 <= a < TAU_FX as int,
    ensures
        993_000 <= tmul(sin_spec(a), sin_spec(a)) + tmul(cos_spec(a), cos_spec(a)) <= 1_002_000,
{
    let p = PI_FX as int;
    let hp = HALF_PI_FX as int;
    let s = SCALE as int;
    let sv = sin_spec(a);
    let cv = cos_spec(a);
    lemma_trig_landmarks();
    if a <= hp {
        lemma_band_quarter(a);
        assert(sv == sin_half_spec(a) && cv == sin_half_spec(a + hp));
    } else if a <= p {
        let u = a - hp;
        lemma_band_quarter(u);
        let q1 = sin_half_spec(u);
        let q2 = sin_half_spec(u + hp);
        assert(sv == q2 && cv == -q1);
        assert((-q1) * (-q1) == q1 * q1) by (nonlinear_arith);
    } else if a <= p + hp {
        let u = a - p;
        lemma_band_quarter(u);
        let q1 = sin_half_spec(u);
        let q2 = sin_half_spec(u + hp);
        assert(sv == -q1);
        if a == p + hp {
            assert(cv == 0 && q2 == 0);
        } else {
            assert(cv == -q2);
        }
        assert((-q1) * (-q1) == q1 * q1 && (-q2) * (-q2) == q2 * q2 && 0 * 0 == 0)
            by (nonlinear_arith);
    } else {
        let u = a - p - hp;
        lemma_band_quarter(u);
        let q1 = sin_half_spec(u);
        let q2 = sin_half_spec(u + hp);
        assert(sv == -q2 && cv == q1);
        assert((-q2) * (-q2) == q2 * q2) by (nonlinear_arith);
    }
    assert(994_000_000_000 <= sv * sv + cv * cv <= 1_002_000_000_000);
    assert(sv * sv >= 0 && cv * cv >= 0) by (nonlinear_arith);
    lemma_tdiv_bounds(sv * sv, s);
    lemma_tdiv_bounds(cv * cv, s);
}

/// The unit-interval arctangent stays inside its eighth of a turn.
pub proof fn lemma_atan_unit_range(u: int)
    requires
        0 <= u <= SCALE as int,
    ensures
        0 <= atan_unit_spec(u) <= QUARTER_PI_FX as int,
{
    let s = SCALE as int;
    let k = ATAN_ADJ_FX as int;
    let qp = QUARTER_PI_FX as int;
    let w = tmul(k, s - u);
    crate::fixed::lemma_tmul_small(k, s - u);
    lemma_tdiv_bounds(k * (s - u), s);
    assert(0 <= u * (qp + w) && u * (qp + w) <= s * qp) by (nonlinear_arith)
        requires
            0 <= u <= s,
            0 <= w,
            w * s <= k * (s - u),
            k <= qp,
            0 < qp,
            0 < s,
    ;
    lemma_div_pos_is_pos(u * (qp + w), s);
    lemma_tdiv_mono(u * (qp + w), s * qp, s);
    lemma_tdiv_exact(qp, s);
    assert(s * qp == qp * s) by (nonlinear_arith);
}

/// The positive-quadrant arctangent stays inside its quarter turn.
pub proof fn lemma_atan_pos_range(y: int, x: int)
    requires
        y > 0,
        x > 0,
    ensures
        0 <= atan_pos_spec(y, x) <= HALF_PI_FX as int,
{
    let s = SCALE as int;
    if y <= x {
        assert(0 < y * s <= x * s) by (nonlinear_arith)
            requires
                0 < y <= x,
                0 < s,
        ;
        lemma_div_pos_is_pos(y * s, x);
        lemma_tdiv_mono(y * s, x * s, x);
        lemma_tdiv_exact(s, x);
        lemma_atan_unit_range(tdiv(y * s, x));
    } else {
        assert(0 < x * s <= y * s) by (nonlinear_arith)
            requires
                0 < x <= y,
                0 < s,
        ;
        lemma_div_pos_is_pos(x * s, y);
        lemma_tdiv_mono(x * s, y * s, y);
        lemma_tdiv_exact(s, y);
        lemma_atan_unit_range(tdiv(x * s, y));
    }
}

/// The orientation of a point lies in the quarter turn of its quadrant.
pub proof fn lemma_atan2_range(y: int, x: int)
    ensures
        0 <= atan2_spec(y, x) < TAU_FX as int,
        x >= 0 && y >= 0 ==> 0 <= atan2_spec(y, x) <= HALF_PI_FX as int,
        x <= 0 && y >= 0 ==> HALF_PI_FX as int <= atan2_spec(y, x) <= PI_FX as int || (y == 0 && x
            == 0),
        x <= 0 && y <= 0 ==> (PI_FX as int <= atan2_spec(y, x) <= PI_FX as int + HALF_PI_FX as int)
            || (x == 0 && y == 0),
        x >= 0 && y <= 0 ==> atan2_spec(y, x) == 0 || PI_FX as int + HALF_PI_FX as int <= atan2_spec(
            y,
            x,
        ) < TAU_FX as int,
{
    if y != 0 && x != 0 {
        if x > 0 && y > 0 {
            lemma_atan_pos_range(y, x);
        } else if x < 0 && y > 0 {
            lemma_atan_pos_range(y, -x);
        } else if x < 0 {
            lemma_atan_pos_range(-y, -x);
        } else {
            lemma_atan_pos_range(-y, x);
        }
    }
}

/// Sine over `[0, pi]`: non-negative, at most one unit, exact at the three
/// landmark angles.
fn sin_half(x: i64) -> (r: i64)
    requires
        0 <= x <= PI_FX,
    ensures
        r == sin_half_spec(x as int),
        0 <= r <= SCALE,
        x == 0 ==> r == 0,
        x == PI_FX ==> r == 0,
        x == HALF_PI_FX ==> r == SCALE,
{
    let p: i128 = PI_FX as i128;
    proof {
        let hp = HALF_PI_FX as int;
        assert(0 <= (x as int) * (PI_FX as int - x as int) <= hp * hp
            && hp * hp == 2_467_400_073_616
            && (x == PI_FX ==> (x as int) * (PI_FX as int - x as int) == 0)
            && (x == 0 ==> (x as int) * (PI_FX as int - x as int) == 0)
            && (x == HALF_PI_FX ==> (x as int) * (PI_FX as int - x as int)
                == 2_467_400_073_616)
            && (p as int) * (p as int) == 9_869_600_294_464) by (nonlinear_arith)
            requires
                0 <= x as int <= PI_FX as int,
                PI_FX as int == 2 * hp,
                hp == 1_570_796,
                p as int == PI_FX as int,
        ;
    }
    let z: i128 = (x as i128) * (p - x as i128);
    proof {
        assert(z as int == (x as int) * (PI_FX as int - x as int)) by (nonlinear_arith)
            requires
                z as int == (x as int) * (p as int - x as int),
                p as int == PI_FX as int,
        ;
    }
    let num: i128 = z * 16_000_000;
    let den: i128 = 5 * (p * p) - 4 * z;
    proof {
        let zi = z as int;
        let s = SCALE as int;
        assert(den as int >= 39_478_401_177_856 && num as int <= 1_000_000 * (den as int)
            && num as int >= 0) by (nonlinear_arith)
            requires
                0 <= zi <= 2_467_400_073_616,
                num as int == 16 * zi * 1_000_000,
                den as int == 5 * 9_869_600_294_464 - 4 * zi,
        ;
        lemma_div_pos_is_pos(num as int, den as int);
        lemma_tdiv_mono(num as int, s * (den as int), den as int);
        lemma_tdiv_exact(s, den as int);
        if x == 0 || x == PI_FX {
            lemma_div_of0(den as int);
        }
        if x == HALF_PI_FX {
            assert(num as int == 1_000_000 * (den as int)) by (nonlinear_arith)
                requires
                    zi == 2_467_400_073_616,
                    num as int == 16 * zi * 1_000_000,
                    den as int == 5 * 9_869_600_294_464 - 4 * zi,
            ;
        }
        assert(num as int / den as int <= s);
    }
    let r: i128 = num / den;
    r as i64
}

/// Sine of a normalized angle: odd around the half turn, exact at the four
/// landmark angles.
pub fn sin_fx(a: i64) -> (r: i64)
    requires
        0 <= a < TAU_FX,
    ensures
        r == sin_spec(a as int),
        -SCALE <= r <= SCALE,
        a <= PI_FX ==> r >= 0,
        a >= PI_FX ==> r <= 0,
        a == 0 ==> r == 0,
        a == HALF_PI_FX ==> r == SCALE,
        a == PI_FX ==> r == 0,
        a == PI_FX + HALF_PI_FX ==> r == -SCALE,
{
    if a <= PI_FX {
        sin_half(a)
    } else {
        let s = sin_half(a - PI_FX);
        -s
    }
}

/// Cosine of a normalized angle, exact at the four landmark angles.
pub fn cos_fx(a: i64) -> (r: i64)
    requires
        0 <= a < TAU_FX,
    ensures
        r == cos_spec(a as int),
        -SCALE <= r <= SCALE,
        a == 0 ==> r == SCALE,
        a == HALF_PI_FX ==> r == 0,
        a == PI_FX ==> r == -SCALE,
        a == PI_FX + HALF_PI_FX ==> r == 0,
{
    let b = a + HALF_PI_FX;
    if b < TAU_FX {
        sin_fx(b)
    } else {
        sin_fx(b - TAU_FX)
    }
}

/// Arctangent on the unit interval: the quadratic approximant, scaled.
pub open spec fn atan_unit_spec(u: int) -> int
    recommends
        0 <= u <= SCALE as int,
{
    tdiv(u * (QUARTER_PI_FX as int + tmul(ATAN_ADJ_FX as int, SCALE as int - u)), SCALE as int)
}

/// Arctangent of a ratio in `[0, 1]`: lands in `[0, pi / 4]`, exact at the
/// ends.
fn atan_unit(u: i64) -> (r: i64)
    requires
        0 <= u <= SCALE,
    ensures
        r == atan_unit_spec(u as int),
        0 <= r <= QUARTER_PI_FX,
        u == 0 ==> r == 0,
        u == SCALE ==> r == QUARTER_PI_FX,
{
    let s = SCALE as i128;
    proof {
        let k = ATAN_ADJ_FX as int;
        let si = SCALE as int;
        let ui = u as int;
        assert(0 <= k * (si - ui) <= k * si) by (nonlinear_arith)
            requires
                0 <= ui <= si,
                k == 273_000,
        ;
    }
    let w: i128 = ((ATAN_ADJ_FX as i128) * (s - u as i128)) / s;
    proof {
        let k = ATAN_ADJ_FX as int;
        let si = SCALE as int;
        let ui = u as int;
        lemma_div_pos_is_pos(k * (si - ui), si);
        lemma_tdiv_bounds(k * (si - ui), si);
        lemma_tdiv_mono(k * (si - ui), k * si, si);
        lemma_tdiv_exact(k, si);
        // w * s never exceeds k * (s - u), which bounds the final quotient.
        assert((w as int) * si <= k * (si - ui));
    }
    let inner: i128 = (QUARTER_PI_FX as i128) + w;
    proof {
        let qp = QUARTER_PI_FX as int;
        let k = ATAN_ADJ_FX as int;
        let si = SCALE as int;
        let ui = u as int;
        let wi = w as int;
        assert(0 <= ui * (qp + wi) && ui * (qp + wi) <= si * qp) by (nonlinear_arith)
            requires
                0 <= ui <= si,
                0 <= wi,
                wi * si <= k * (si - ui),
                k <= qp,
                0 < qp,
                0 < si,
        ;
        lemma_div_pos_is_pos(ui * (qp + wi), si);
        lemma_tdiv_mono(ui * (qp + wi), si * qp, si);
        lemma_tdiv_exact(qp, si);
        assert(si * qp == qp * si) by (nonlinear_arith);
        if u == SCALE {
            assert(wi == 0);
            assert(ui * (qp + 0) == qp * si) by (nonlinear_arith)
                requires
                    ui == si,
            ;
        }
    }
    let r: i128 = ((u as i128) * inner) / s;
    r as i64
}

/// Arctangent of `y / x` in the open first quadrant: lands in `[0, pi / 2]`.
fn atan_pos(y: i128, x: i128) -> (r: i64)
    requires
        0 < y <= i64::MAX as i128 + 1,
        0 < x <= i64::MAX as i128 + 1,
    ensures
        r == atan_pos_spec(y as int, x as int),
        0 <= r <= HALF_PI_FX,
{
    let s = SCALE as i128;
    if y <= x {
        let u: i128 = (y * s) / x;
        proof {
            let yi = y as int;
            let xi = x as int;
            let si = SCALE as int;
            assert(0 < yi * si <= xi * si) by (nonlinear_arith)
                requires
                    0 < yi <= xi,
                    0 < si,
            ;
            lemma_div_pos_is_pos(yi * si, xi);
            lemma_tdiv_mono(yi * si, xi * si, xi);
            lemma_tdiv_exact(si, xi);
        }
        atan_unit(u as i64)
    } else {
        let u: i128 = (x * s) / y;
        proof {
            let yi = y as int;
            let xi = x as int;
            let si = SCALE as int;
            assert(0 < xi * si <= yi * si) by (nonlinear_arith)
                requires
                    0 < xi <= yi,
                    0 < si,
            ;
            lemma_div_pos_is_pos(xi * si, yi);
            lemma_tdiv_mono(xi * si, yi * si, yi);
            lemma_tdiv_exact(si, yi);
        }
        let t = atan_unit(u as i64);
        HALF_PI_FX - t
    }
}

/// Arctangent of `y / x` for positive arguments.
pub open spec fn atan_pos_spec(y: int, x: int) -> int
    recommends
        y > 0,
        x > 0,
{
    if y <= x {
        atan_unit_spec(tdiv(y * (SCALE as int), x))
    } else {
        HALF_PI_FX as int - atan_unit_spec(tdiv(x * (SCALE as int), y))
    }
}

/// Orientation of the point `(x, y)`, as a normalized angle in
/// `[0, TAU_FX)`. Axes are exact; every quadrant lands in its own quarter
/// turn; the origin is folded to zero.
pub open spec fn atan2_spec(y: int, x: int) -> int {
    let hp = HALF_PI_FX as int;
    let p = PI_FX as int;
    let tau = TAU_FX as int;
    if y == 0 {
        if x >= 0 {
            0
        } else {
            p
        }
    } else if x == 0 {
        if y > 0 {
            hp
        } else {
            p + hp
        }
    } else if x > 0 && y > 0 {
        atan_pos_spec(y, x)
    } else if x < 0 && y > 0 {
        p - atan_pos_spec(y, -x)
    } else if x < 0 {
        p + atan_pos_spec(-y, -x)
    } else {
        let t = atan_pos_spec(-y, x);
        if t == 0 {
            0
        } else {
            tau - t
        }
    }
}

/// Orientation of the point `(x, y)`: exact on the axes, in the matching
/// quarter turn elsewhere.
pub fn atan2_fx(y: i64, x: i64) -> (r: i64)
    ensures
        r == atan2_spec(y as int, x as int),
        0 <= r < TAU_FX,
        y == 0 && x >= 0 ==> r == 0,
        y == 0 && x < 0 ==> r == PI_FX,
        x == 0 && y > 0 ==> r == HALF_PI_FX,
        x == 0 && y < 0 ==> r == PI_FX + HALF_PI_FX,
        y > 0 && x > 0 ==> 0 <= r <= HALF_PI_FX,
        y > 0 && x < 0 ==> HALF_PI_FX <= r <= PI_FX,
        y < 0 && x < 0 ==> PI_FX <= r <= PI_FX + HALF_PI_FX,
        y < 0 && x > 0 ==> r == 0 || PI_FX + HALF_PI_FX <= r < TAU_FX,
{
    let yw: i128 = y as i128;
    let xw: i128 = x as i128;
    if y == 0 {
        if x >= 0 {
            0
        } else {
            PI_FX
        }
    } else if x == 0 {
        if y > 0 {
            HALF_PI_FX
        } else {
            PI_FX + HALF_PI_FX
        }
    } else if x > 0 && y > 0 {
        atan_pos(yw, xw)
    } else if x < 0 && y > 0 {
        PI_FX - atan_pos(yw, -xw)
    } else if x < 0 {
        PI_FX + atan_pos(-yw, -xw)
    } else {
        let t = atan_pos(-yw, xw);
        if t == 0 {
            0
        } else {
            TAU_FX - t
        }
    }
}

} // verus!
