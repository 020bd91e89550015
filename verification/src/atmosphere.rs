//! International Standard Atmosphere, normalized to sea level.
//!
//! Below the tropopause the temperature falls linearly and the pressure
//! follows the barometric power law; at and above it the temperature is
//! pinned and the pressure decays exponentially. Density is taken from
//! pressure by the ideal-gas ratio to the sea-level value, so the
//! normalized density equals the pressure ratio, exactly one unit at sea
//! level.
//!
//! The power law's fractional exponent and the exponential are evaluated by
//! short fixed-point series — a log around one, a four-term exponential
//! polynomial, and repeated multiplication by `exp(-1)` — whose exact
//! integer values the spec functions below pin down.

use vstd::prelude::*;
use crate::fixed::{SCALE, in_i64, tdiv, tmul, fdiv};
use crate::fixed::{
    fx_mul_total, fx_div_total, lemma_tdiv_bounds, lemma_tdiv_cap, lemma_tdiv_exact,
    lemma_tdiv_mono, lemma_tmul_neg, lemma_tmul_small, lemma_tmul_nonneg_mono, lemma_tmul_unit,
    lemma_tmul_zero, abs_int,
};
use vstd::arithmetic::div_mod::{
    lemma_div_is_ordered_by_denominator, lemma_div_of0, lemma_div_pos_is_pos,
};

verus! {

/// Sea-level temperature, millionths of a kelvin.
pub const T0_FX: i64 = 288_150_000;

/// Tropopause temperature.
pub const T11_FX: i64 = 216_650_000;

/// Temperature lapse rate, millionths of a kelvin per metre.
pub const LAPSE_FX: i64 = 6_500;

/// Tropopause altitude, millionths of a metre.
pub const H11_FX: i64 = 11_000_000_000;

/// Sea-level density, millionths of a kilogram per cubic metre.
pub const RHO0_FX: i64 = 1_225_000;

/// Pressure ratio at the tropopause.
pub const PR11_FX: i64 = 223_360;

/// Fractional part of the barometric exponent `g / (L R) = 5.255786`.
pub const POW_FRAC_FX: i64 = 255_786;

/// Isothermal decay rate `g / (R T11)` in billionths per metre.
pub const ISO_RATE_FX: i64 = 157_686;

/// The unit e-folding factor `exp(-1)`.
pub const EXP_NEG1_FX: i64 = 367_879;

/// Sutherland constant, millionths of a kelvin.
pub const SUTH_C_FX: i64 = 110_400_000;

/// Domain floor of the model: one kilometre below sea level.
pub const ALT_MIN_FX: i64 = -1_000_000_000;

/// Temperature at an altitude: linear lapse below the tropopause, pinned
/// above it.
pub open spec fn temp_at(h: int) -> int {
    if h <= H11_FX as int {
        T0_FX as int - tmul(LAPSE_FX as int, h)
    } else {
        T11_FX as int
    }
}

/// Temperature ratio to sea level.
pub open spec fn bratio_spec(h: int) -> int {
    fdiv(temp_at(h), T0_FX as int)
}

/// Logarithm of a ratio near one: `2 (w + w^3 / 3)` with
/// `w = (b - 1) / (b + 1)`.
pub open spec fn ln_spec(b: int) -> int {
    let s = SCALE as int;
    let w = fdiv(b - s, b + s);
    let w3 = tmul(tmul(w, w), w);
    2 * w + tdiv(2 * w3, 3)
}

/// Four-term exponential polynomial around zero.
pub open spec fn expf_spec(x: int) -> int {
    let x2 = tmul(x, x);
    let x3 = tmul(x2, x);
    let x4 = tmul(x3, x);
    SCALE as int + x + tdiv(x2, 2) + tdiv(x3, 6) + tdiv(x4, 24)
}

/// Fifth power of a scalar.
pub open spec fn pow5_spec(b: int) -> int {
    let b2 = tmul(b, b);
    let b4 = tmul(b2, b2);
    tmul(b4, b)
}

/// Repeated multiplication by `exp(-1)`.
pub open spec fn exp_steps_spec(r: int, n: nat) -> int
    decreases n,
{
    if n == 0 {
        r
    } else {
        exp_steps_spec(tmul(r, EXP_NEG1_FX as int), (n - 1) as nat)
    }
}

/// `exp(-e)` for a non-negative scalar: the fractional part by the
/// polynomial on a quarter argument squared twice, the integer part by
/// e-folding; zero once past forty-five e-foldings.
pub open spec fn exp_neg_spec(e: int) -> int
    recommends
        e >= 0,
{
    let s = SCALE as int;
    let n = e / s;
    if n >= 45 {
        0
    } else {
        let q = expf_spec(-tdiv(e % s, 4));
        exp_steps_spec(tmul(tmul(q, q), tmul(q, q)), n as nat)
    }
}

/// Pressure ratio below the tropopause: the temperature ratio raised to
/// `g / (L R)`, split into a fifth power and a fractional power.
pub open spec fn tropo_ratio_spec(h: int) -> int {
    let b = bratio_spec(h);
    tmul(pow5_spec(b), expf_spec(tmul(ln_spec(b), POW_FRAC_FX as int)))
}

/// Pressure ratio at or above the tropopause: isothermal exponential decay
/// from the tropopause value.
pub open spec fn iso_ratio_spec(h: int) -> int {
    let e = tdiv((h - H11_FX as int) * (ISO_RATE_FX as int), 1_000_000_000);
    tmul(PR11_FX as int, exp_neg_spec(e))
}

/// Normalized density (equal to the pressure ratio) at an altitude.
pub open spec fn atmo_ratio_spec(h: int) -> int {
    if h <= H11_FX as int {
        tropo_ratio_spec(h)
    } else {
        iso_ratio_spec(h)
    }
}

/// Viscosity ratio to sea level at an altitude, by Sutherland's law.
pub open spec fn visc_ratio_spec(h: int) -> int {
    let t = temp_at(h);
    let b = fdiv(t, T0_FX as int);
    let sq = crate::geom::sqrt_floor(b * (SCALE as int));
    tmul(tmul(b, sq), fdiv(T0_FX as int + SUTH_C_FX as int, t + SUTH_C_FX as int))
}

/// Division with a stated magnitude cap on the quotient.
fn fx_div_total_bounded(a: i64, d: i64, c: i64) -> (r: i64)
    requires
        d > 0,
        c >= 0,
        -(c as int * d as int) <= a as int * (SCALE as int) <= c as int * d as int,
    ensures
        r == fdiv(a as int, d as int),
        -c <= r <= c,
{
    proof {
        lemma_tdiv_cap(a as int * (SCALE as int), d as int, c as int);
    }
    fx_div_total(a, d)
}

/// Multiplication of two factors of magnitude at most one unit.
fn fx_mul_total_small(a: i64, b: i64) -> (r: i64)
    requires
        -SCALE <= a <= SCALE,
        -SCALE <= b <= SCALE,
    ensures
        r == tmul(a as int, b as int),
        -abs_int(a as int) <= r <= abs_int(a as int),
        a >= 0 && b >= 0 ==> 0 <= r <= a,
        a <= 0 && b >= 0 ==> a <= r <= 0,
{
    proof {
        lemma_tmul_small(a as int, b as int);
    }
    fx_mul_total(a, b)
}

/// Logarithm of a ratio near one.
fn ln_ratio(b: i64) -> (r: i64)
    requires
        700_000 <= b <= 1_030_000,
    ensures
        r == ln_spec(b as int),
        -540_000 <= r <= 540_000,
        b >= SCALE ==> r >= 0,
        b <= SCALE ==> r <= 0,
        b == SCALE ==> r == 0,
{
    let w = fx_div_total_bounded(b - SCALE, b + SCALE, 200_000);
    let w2 = fx_mul_total_small(w, w);
    proof {
        assert((w as int) * (w as int) >= 0) by (nonlinear_arith);
        lemma_div_pos_is_pos((w as int) * (w as int), SCALE as int);
    }
    let w3 = fx_mul_total_small(w2, w);
    proof {
        lemma_tdiv_bounds(2 * (w3 as int), 3);
        if b >= SCALE {
            lemma_div_pos_is_pos((b - SCALE) as int * (SCALE as int), b as int + SCALE as int);
        }
        if b <= SCALE {
            lemma_tdiv_mono((b - SCALE) as int * (SCALE as int), 0, b as int + SCALE as int);
            lemma_div_of0(b as int + SCALE as int);
            assert((w2 as int) * (w as int) == (w as int) * (w2 as int)) by (nonlinear_arith);
            lemma_tmul_small(w as int, w2 as int);
        }
        if b == SCALE {
            lemma_tmul_zero(w2 as int);
            lemma_tmul_zero(w as int);
            lemma_div_of0(3);
        }
    }
    2 * w + (2 * w3) / 3
}

/// The exponential polynomial around zero: positive, exact at zero, and at
/// most one unit on non-positive arguments.
fn expf(x: i64) -> (r: i64)
    requires
        -250_000 <= x <= 250_000,
    ensures
        r == expf_spec(x as int),
        0 < r <= 1_500_000,
        x <= 0 ==> r <= SCALE,
        x == 0 ==> r == SCALE,
{
    let x2 = fx_mul_total_small(x, x);
    proof {
        assert((x as int) * (x as int) >= 0) by (nonlinear_arith);
        lemma_div_pos_is_pos((x as int) * (x as int), SCALE as int);
    }
    let x3 = fx_mul_total_small(x2, x);
    let x4 = fx_mul_total_small(x3, x);
    proof {
        lemma_tdiv_bounds(x2 as int, 2);
        lemma_tdiv_bounds(x3 as int, 6);
        lemma_tdiv_bounds(x4 as int, 24);
        lemma_tdiv_mono(x2 as int, 250_000, 2);
        lemma_tdiv_mono(x3 as int, 250_000, 6);
        lemma_tdiv_mono(x4 as int, 250_000, 24);
        if x == 0 {
            lemma_tmul_zero(0);
            lemma_div_of0(2);
            lemma_div_of0(6);
            lemma_div_of0(24);
        }
        if x < 0 {
            assert((x2 as int) * (x as int) == (x as int) * (x2 as int)) by (nonlinear_arith);
            lemma_tmul_small(x as int, x2 as int);
            lemma_tdiv_mono(x4 as int, -(x3 as int), 24);
            lemma_div_is_ordered_by_denominator(-(x3 as int), 6, 24);
        }
    }
    SCALE + x + x2 / 2 + x3 / 6 + x4 / 24
}

/// Fifth power of a non-negative ratio near one.
fn pow5(b: i64) -> (r: i64)
    requires
        0 <= b <= 1_030_000,
    ensures
        r == pow5_spec(b as int),
        0 <= r <= 1_160_000,
        b <= SCALE ==> r <= b,
        b == SCALE ==> r == SCALE,
{
    proof {
        lemma_tmul_nonneg_mono(b as int, 1_030_000, b as int, 1_030_000);
        assert(tmul(1_030_000, 1_030_000) == 1_060_900);
    }
    let b2 = fx_mul_total(b, b);
    proof {
        lemma_tmul_nonneg_mono(b2 as int, 1_060_900, b2 as int, 1_060_900);
        assert(tmul(1_060_900, 1_060_900) == 1_125_508);
    }
    let b4 = fx_mul_total(b2, b2);
    proof {
        lemma_tmul_nonneg_mono(b4 as int, 1_125_508, b as int, 1_030_000);
        assert(tmul(1_125_508, 1_030_000) == 1_159_273);
        if b <= SCALE {
            lemma_tmul_small(b as int, b as int);
            lemma_tmul_small(b2 as int, b2 as int);
            assert((b4 as int) * (b as int) == (b as int) * (b4 as int)) by (nonlinear_arith);
            lemma_tmul_small(b as int, b4 as int);
        }
        if b == SCALE {
            lemma_tmul_unit(SCALE as int);
            lemma_tmul_unit(b2 as int);
            lemma_tmul_unit(b4 as int);
        }
    }
    let b5 = fx_mul_total(b4, b);
    b5
}

/// `exp(-e)` for a non-negative scalar: always within the unit interval.
fn exp_neg(e: i64) -> (r: i64)
    requires
        e >= 0,
    ensures
        r == exp_neg_spec(e as int),
        0 <= r <= SCALE,
{
    let n = e / SCALE;
    if n >= 45 {
        return 0;
    }
    let frac = e % SCALE;
    proof {
        lemma_tdiv_bounds(frac as int, 4);
    }
    let q = expf(-(frac / 4));
    let qq = fx_mul_total_small(q, q);
    let r4 = fx_mul_total_small(qq, qq);
    let mut r = r4;
    let mut i: i64 = 0;
    while i < n
        invariant
            0 <= i <= n < 45,
            0 <= r <= SCALE,
            exp_steps_spec(r as int, (n - i) as nat) == exp_steps_spec(r4 as int, n as nat),
        decreases n - i,
    {
        let rn = fx_mul_total_small(r, EXP_NEG1_FX);
        r = rn;
        i = i + 1;
    }
    r
}

/// Normalized atmospheric density: the pressure ratio to sea level. One
/// unit exactly at sea level; never above one unit for non-negative
/// altitudes; bounded just above one unit down to the domain floor.
pub fn atmo_density(altitude: i64) -> (r: i64)
    requires
        altitude >= ALT_MIN_FX,
    ensures
        r == atmo_ratio_spec(altitude as int),
        0 <= r <= 1_800_000,
        altitude >= 0 ==> r <= SCALE,
        altitude == 0 ==> r == SCALE,
{
    if altitude <= H11_FX {
        let h = altitude;
        proof {
            let hi = h as int;
            assert(-(71_500_000i64 as int * 1_000_000) <= (LAPSE_FX as int) * hi
                <= 71_500_000i64 as int * 1_000_000) by (nonlinear_arith)
                requires
                    -1_000_000_000 <= hi <= 11_000_000_000,
                    LAPSE_FX as int == 6_500,
            ;
            lemma_tdiv_cap((LAPSE_FX as int) * hi, SCALE as int, 71_500_000);
            if hi >= 0 {
                assert((LAPSE_FX as int) * hi >= 0) by (nonlinear_arith)
                    requires
                        hi >= 0,
                        LAPSE_FX as int == 6_500,
                ;
                lemma_div_pos_is_pos((LAPSE_FX as int) * hi, SCALE as int);
            }
        }
        let tl = fx_mul_total(LAPSE_FX, h);
        let temp = T0_FX - tl;
        proof {
            let ti = temp as int;
            let t0 = T0_FX as int;
            assert(-(1_030_000i64 as int * t0) <= ti * (SCALE as int) <= 1_030_000i64 as int * t0)
                by (nonlinear_arith)
                requires
                    0 < ti <= 296_650_000,
                    t0 == 288_150_000,
            ;
            assert(ti * (SCALE as int) >= 216_650_000_000_000) by (nonlinear_arith)
                requires
                    ti >= 216_650_000,
            ;
            lemma_tdiv_mono(216_650_000_000_000, ti * (SCALE as int), t0);
            assert(tdiv(216_650_000_000_000, 288_150_000) == 751_865);
            if temp <= T0_FX {
                assert(ti * (SCALE as int) <= t0 * (SCALE as int)) by (nonlinear_arith)
                    requires
                        ti <= t0,
                ;
                lemma_tdiv_mono(ti * (SCALE as int), t0 * (SCALE as int), t0);
                assert(t0 * (SCALE as int) == (SCALE as int) * t0) by (nonlinear_arith);
                lemma_tdiv_exact(SCALE as int, t0);
            }
        }
        let b = fx_div_total_bounded(temp, T0_FX, 1_030_000);
        let lnb = ln_ratio(b);
        proof {
            lemma_tmul_small(lnb as int, POW_FRAC_FX as int);
            if lnb >= 0 {
                lemma_tmul_nonneg_mono(lnb as int, 540_000, POW_FRAC_FX as int, 255_786);
                assert(tmul(540_000, 255_786) == 138_124);
            } else {
                lemma_tmul_nonneg_mono(-lnb as int, 540_000, POW_FRAC_FX as int, 255_786);
                lemma_tmul_neg(lnb as int, POW_FRAC_FX as int);
                assert(tmul(540_000, 255_786) == 138_124);
            }
        }
        let ex = fx_mul_total(lnb, POW_FRAC_FX);
        let ef = expf(ex);
        let p5 = pow5(b);
        proof {
            lemma_tmul_nonneg_mono(p5 as int, 1_160_000, ef as int, 1_500_000);
            assert(tmul(1_160_000, 1_500_000) == 1_740_000);
            if h >= 0 {
                lemma_tmul_small(p5 as int, ef as int);
            }
            if h == 0 {
                lemma_tmul_zero(LAPSE_FX as int);
                lemma_tmul_zero(POW_FRAC_FX as int);
                lemma_tmul_unit(SCALE as int);
            }
        }
        let r = fx_mul_total(p5, ef);
        r
    } else {
        let d = altitude - H11_FX;
        proof {
            let di = d as int;
            assert(0 <= di * (ISO_RATE_FX as int)
                && di * (ISO_RATE_FX as int) <= 1_500_000_000_000_000i64 as int * 1_000_000_000)
                by (nonlinear_arith)
                requires
                    0 < di <= 0x7FFF_FFFF_FFFF_FFFFi64 as int,
                    ISO_RATE_FX as int == 157_686,
            ;
            lemma_tdiv_cap(di * (ISO_RATE_FX as int), 1_000_000_000, 1_500_000_000_000_000);
            lemma_div_pos_is_pos(di * (ISO_RATE_FX as int), 1_000_000_000);
        }
        let num: i128 = (d as i128) * (ISO_RATE_FX as i128);
        let e: i128 = num / 1_000_000_000;
        let en = exp_neg(e as i64);
        proof {
            lemma_tmul_small(PR11_FX as int, en as int);
        }
        let r = fx_mul_total(PR11_FX, en);
        r
    }
}

/// Absolute air density: the sea-level value scaled by the normalized
/// ratio, in millionths of a kilogram per cubic metre.
pub fn isa_density(altitude: i64) -> (r: i64)
    requires
        altitude >= ALT_MIN_FX,
    ensures
        r == tmul(RHO0_FX as int, atmo_ratio_spec(altitude as int)),
        0 <= r <= RHO0_FX + 1_000_000,
{
    let ratio = atmo_density(altitude);
    proof {
        lemma_tmul_nonneg_mono(RHO0_FX as int, RHO0_FX as int, ratio as int, 1_800_000);
        assert(tmul(1_225_000, 1_800_000) == 2_205_000);
    }
    fx_mul_total(RHO0_FX, ratio)
}

/// Dynamic-viscosity ratio to sea level, by Sutherland's law on the ISA
/// temperature: strictly positive, near one.
pub fn viscosity_ratio(altitude: i64) -> (r: i64)
    requires
        altitude >= ALT_MIN_FX,
    ensures
        r == visc_ratio_spec(altitude as int),
        600_000 <= r <= 1_300_000,
{
    let temp = if altitude <= H11_FX {
        proof {
            let hi = altitude as int;
            assert(-(71_500_000i64 as int * 1_000_000) <= (LAPSE_FX as int) * hi
                <= 71_500_000i64 as int * 1_000_000) by (nonlinear_arith)
                requires
                    -1_000_000_000 <= hi <= 11_000_000_000,
                    LAPSE_FX as int == 6_500,
            ;
            lemma_tdiv_cap((LAPSE_FX as int) * hi, SCALE as int, 71_500_000);
        }
        let tl = fx_mul_total(LAPSE_FX, altitude);
        T0_FX - tl
    } else {
        T11_FX
    };
    proof {
        let ti = temp as int;
        let t0 = T0_FX as int;
        assert(-(1_030_000i64 as int * t0) <= ti * (SCALE as int) <= 1_030_000i64 as int * t0)
            by (nonlinear_arith)
            requires
                0 < ti <= 296_650_000,
                t0 == 288_150_000,
        ;
        lemma_tdiv_cap(ti * (SCALE as int), t0, 1_030_000);
        assert(ti * (SCALE as int) >= 216_650_000_000_000) by (nonlinear_arith)
            requires
                ti >= 216_650_000,
        ;
        lemma_tdiv_mono(216_650_000_000_000, ti * (SCALE as int), t0);
        assert(tdiv(216_650_000_000_000, 288_150_000) == 751_865);
        lemma_div_pos_is_pos(ti * (SCALE as int), t0);
    }
    let b = fx_div_total(temp, T0_FX);
    proof {
        assert(0 <= (b as int) * (SCALE as int) <= 1_030_000_000_000) by (nonlinear_arith)
            requires
                0 <= b as int <= 1_030_000,
        ;
    }
    let bs: i128 = (b as i128) * (SCALE as i128);
    let sq = crate::geom::isqrt_u128(bs as u128);
    proof {
        crate::geom::lemma_sqrt_floor((b as int) * (SCALE as int));
        let rq = crate::geom::sqrt_floor((b as int) * (SCALE as int));
        assert(rq <= 1_015_000) by (nonlinear_arith)
            requires
                rq >= 0,
                rq * rq <= 1_030_000_000_000,
        ;
        assert(rq >= 866_000) by (nonlinear_arith)
            requires
                rq >= 0,
                (b as int) * (SCALE as int) >= 751_865_000_000,
                (b as int) * (SCALE as int) < (rq + 1) * (rq + 1),
        ;
        assert((b as int) * (SCALE as int) >= 751_865_000_000) by (nonlinear_arith)
            requires
                b as int >= 751_865,
        ;
        lemma_tmul_nonneg_mono(b as int, 1_030_000, rq, 1_015_000);
        lemma_tmul_nonneg_mono(751_865, b as int, 866_000, rq);
        assert(tmul(1_030_000, 1_015_000) == 1_045_450);
        assert(tmul(751_865, 866_000) == 651_115);
    }
    let b15 = fx_mul_total(b, sq as i64);
    let tc = temp + SUTH_C_FX;
    proof {
        let ti = tc as int;
        let nm = (T0_FX + SUTH_C_FX) as int;
        assert(0 < nm * (SCALE as int) <= 1_300_000i64 as int * 327_050_000) by (nonlinear_arith)
            requires
                nm == 398_550_000,
        ;
        lemma_tdiv_cap(nm * (SCALE as int), ti, 1_300_000);
        lemma_div_is_ordered_by_denominator(nm * (SCALE as int), 327_050_000, ti);
        assert(nm * (SCALE as int) == 398_550_000_000_000) by (nonlinear_arith)
            requires
                nm == 398_550_000,
        ;
        assert(tdiv(398_550_000_000_000, 327_050_000) == 1_218_621);
        lemma_div_is_ordered_by_denominator(nm * (SCALE as int), ti, 407_050_000);
        assert(tdiv(398_550_000_000_000, 407_050_000) == 979_118);
        lemma_div_pos_is_pos(nm * (SCALE as int), ti);
    }
    let factor = fx_div_total(T0_FX + SUTH_C_FX, tc);
    proof {
        lemma_tmul_nonneg_mono(b15 as int, 1_045_450, factor as int, 1_218_621);
        assert(tmul(1_045_450, 1_218_621) == 1_274_007);
        lemma_tmul_nonneg_mono(651_115, b15 as int, 979_118, factor as int);
        assert(tmul(651_115, 979_118) == 637_518);
    }
    let r = fx_mul_total(b15, factor);
    r
}

} // verus!
