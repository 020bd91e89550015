//! Fixed-point scalar arithmetic.
//!
//! A scalar is an `i64` holding `value * SCALE`, i.e. millionths.
//! Multiplication and division of scalars round toward zero, exactly as the
//! spec functions `tmul` and `fdiv` describe; the checked entry points
//! return `None` precisely when the mathematical result does not fit in an
//! `i64`.

use vstd::prelude::*;
use vstd::arithmetic::div_mod::{
    lemma_div_is_ordered, lemma_div_multiples_vanish, lemma_div_of0, lemma_div_pos_is_pos,
    lemma_fundamental_div_mod, lemma_mod_division_less_than_divisor,
};

verus! {

/// Number of raw steps per unit: a raw value counts millionths.
pub const SCALE: i64 = 1_000_000;

/// Whether a mathematical integer fits in an `i64`.
pub open spec fn in_i64(x: int) -> bool {
    i64::MIN <= x <= i64::MAX
}

/// Division rounding toward zero, for a positive divisor.
pub open spec fn tdiv(x: int, d: int) -> int
    recommends
        d > 0,
{
    if x >= 0 {
        x / d
    } else {
        -((-x) / d)
    }
}

/// Product of two fixed-point scalars: `a * b` rescaled, rounded toward zero.
pub open spec fn tmul(a: int, b: int) -> int {
    tdiv(a * b, SCALE as int)
}

/// Quotient of two fixed-point scalars (any nonzero divisor): `a / d`
/// rescaled, rounded toward zero.
pub open spec fn fdiv(a: int, d: int) -> int
    recommends
        d != 0,
{
    if d >= 0 {
        tdiv(a * (SCALE as int), d)
    } else {
        -tdiv(a * (SCALE as int), -d)
    }
}

/// An exact multiple divides back to its factor.
pub proof fn lemma_tdiv_exact(q: int, d: int)
    requires
        d > 0,
    ensures
        tdiv(q * d, d) == q,
{
    if q >= 0 {
        lemma_div_multiples_vanish(q, d);
        assert(q * d == d * q) by (nonlinear_arith);
    } else {
        assert((-q) * d == -(q * d) && (-q) * d == d * (-q)) by (nonlinear_arith);
        lemma_div_multiples_vanish(-q, d);
    }
}

/// Rounding toward zero never increases magnitude: `|tdiv(x, d) * d| <= |x|`,
/// and the quotient carries the sign of `x`.
pub proof fn lemma_tdiv_bounds(x: int, d: int)
    requires
        d > 0,
    ensures
        x >= 0 ==> 0 <= tdiv(x, d) <= x,
        x <= 0 ==> x <= tdiv(x, d) <= 0,
        tdiv(x, d) * d <= x || x < 0,
        x >= 0 ==> x - d < tdiv(x, d) * d <= x,
        x <= 0 ==> x <= tdiv(x, d) * d < x + d,
{
    if x >= 0 {
        lemma_div_pos_is_pos(x, d);
        lemma_fundamental_div_mod(x, d);
        lemma_mod_division_less_than_divisor(x, d);
        assert(x / d <= x) by (nonlinear_arith)
            requires
                x >= 0,
                d > 0,
                x / d >= 0,
                x == d * (x / d) + x % d,
                x % d >= 0,
        ;
    } else {
        let y = -x;
        lemma_div_pos_is_pos(y, d);
        lemma_fundamental_div_mod(y, d);
        lemma_mod_division_less_than_divisor(y, d);
        assert(y / d <= y) by (nonlinear_arith)
            requires
                y > 0,
                d > 0,
                y / d >= 0,
                y == d * (y / d) + y % d,
                y % d >= 0,
        ;
        assert((-(y / d)) * d == -(d * (y / d))) by (nonlinear_arith);
    }
}

/// Truncating division is monotone in the dividend.
pub proof fn lemma_tdiv_mono(x1: int, x2: int, d: int)
    requires
        d > 0,
        x1 <= x2,
    ensures
        tdiv(x1, d) <= tdiv(x2, d),
{
    if x1 >= 0 {
        lemma_div_is_ordered(x1, x2, d);
    } else if x2 <= 0 {
        lemma_div_is_ordered(-x2, -x1, d);
    } else {
        lemma_div_pos_is_pos(-x1, d);
        lemma_div_pos_is_pos(x2, d);
    }
}

/// A quotient with a dividend inside `c` multiples of the divisor stays
/// inside `[-c, c]`.
pub proof fn lemma_tdiv_cap(x: int, d: int, c: int)
    requires
        d > 0,
        c >= 0,
        -(c * d) <= x <= c * d,
    ensures
        -c <= tdiv(x, d) <= c,
{
    lemma_tdiv_mono(x, c * d, d);
    lemma_tdiv_mono(-(c * d), x, d);
    lemma_tdiv_exact(c, d);
    lemma_tdiv_exact(-c, d);
    assert((-c) * d == -(c * d)) by (nonlinear_arith);
}

/// Negating a factor negates the product.
pub proof fn lemma_tmul_neg(a: int, b: int)
    ensures
        tmul(-a, b) == -tmul(a, b),
{
    let s = SCALE as int;
    assert((-a) * b == -(a * b)) by (nonlinear_arith);
    if a * b >= 0 {
        assert(tdiv(-(a * b), s) == -tdiv(a * b, s));
    } else {
        assert(tdiv(-(a * b), s) == -tdiv(a * b, s));
    }
}

/// A scalar times the negated unit is its negation.
pub proof fn lemma_tmul_neg_unit(a: int)
    ensures
        tmul(a, -(SCALE as int)) == -a,
{
    let s = SCALE as int;
    assert(a * (-s) == -(a * s) && (-a) * s == -(a * s)) by (nonlinear_arith);
    lemma_tdiv_exact(a, s);
    lemma_tdiv_exact(-a, s);
}

/// A scalar times the unit is itself.
pub proof fn lemma_tmul_unit(a: int)
    ensures
        tmul(a, SCALE as int) == a,
        tmul(SCALE as int, a) == a,
{
    lemma_tdiv_exact(a, SCALE as int);
    assert(a * (SCALE as int) == (SCALE as int) * a) by (nonlinear_arith);
}

/// Multiplying by zero gives zero.
pub proof fn lemma_tmul_zero(a: int)
    ensures
        tmul(a, 0) == 0,
        tmul(0, a) == 0,
{
    assert(a * 0 == 0) by (nonlinear_arith);
    assert(0 * a == 0) by (nonlinear_arith);
}

/// Multiplying by a factor of magnitude at most one unit never increases
/// magnitude.
pub proof fn lemma_tmul_small(a: int, b: int)
    requires
        -(SCALE as int) <= b <= SCALE as int,
    ensures
        a >= 0 && b >= 0 ==> 0 <= tmul(a, b) <= a,
        a <= 0 && b >= 0 ==> a <= tmul(a, b) <= 0,
        a >= 0 && b <= 0 ==> -a <= tmul(a, b) <= 0,
        -abs_int(a) <= tmul(a, b) <= abs_int(a),
{
    let s = SCALE as int;
    assert(-(abs_int(a) * s) <= a * b <= abs_int(a) * s) by (nonlinear_arith)
        requires
            -s <= b <= s,
            abs_int(a) == if a >= 0 { a } else { -a },
    ;
    lemma_tdiv_mono(a * b, abs_int(a) * s, s);
    lemma_tdiv_mono(-(abs_int(a) * s), a * b, s);
    lemma_tdiv_exact(abs_int(a), s);
    lemma_tdiv_exact(-abs_int(a), s);
    assert((-abs_int(a)) * s == -(abs_int(a) * s)) by (nonlinear_arith);
    if a >= 0 && b >= 0 {
        assert(a * b >= 0) by (nonlinear_arith)
            requires
                a >= 0,
                b >= 0,
        ;
        lemma_div_pos_is_pos(a * b, s);
    }
    if a <= 0 && b >= 0 {
        assert(a * b <= 0) by (nonlinear_arith)
            requires
                a <= 0,
                b >= 0,
        ;
        lemma_tdiv_mono(a * b, 0, s);
        lemma_div_of0(s);
    }
    if a >= 0 && b <= 0 {
        assert(a * b <= 0) by (nonlinear_arith)
            requires
                a >= 0,
                b <= 0,
        ;
        lemma_tdiv_mono(a * b, 0, s);
        lemma_div_of0(s);
    }
}

/// Magnitude of an integer.
pub open spec fn abs_int(x: int) -> int {
    if x >= 0 {
        x
    } else {
        -x
    }
}

/// Product of non-negative scalars is non-negative and monotone in each
/// factor.
pub proof fn lemma_tmul_nonneg_mono(a1: int, a2: int, b1: int, b2: int)
    requires
        0 <= a1 <= a2,
        0 <= b1 <= b2,
    ensures
        0 <= tmul(a1, b1) <= tmul(a2, b2),
{
    let s = SCALE as int;
    assert(0 <= a1 * b1 <= a2 * b2) by (nonlinear_arith)
        requires
            0 <= a1 <= a2,
            0 <= b1 <= b2,
    ;
    lemma_div_pos_is_pos(a1 * b1, s);
    lemma_tdiv_mono(a1 * b1, a2 * b2, s);
}

/// Checked fixed-point addition.
pub fn fx_add(a: i64, b: i64) -> (r: Option<i64>)
    ensures
        r == if in_i64(a + b) {
            Some((a + b) as i64)
        } else {
            None::<i64>
        },
{
    a.checked_add(b)
}

/// Checked fixed-point subtraction.
pub fn fx_sub(a: i64, b: i64) -> (r: Option<i64>)
    ensures
        r == if in_i64(a - b) {
            Some((a - b) as i64)
        } else {
            None::<i64>
        },
{
    a.checked_sub(b)
}

/// Checked fixed-point multiplication: `None` exactly when `tmul` of the
/// arguments leaves the `i64` range.
pub fn fx_mul(a: i64, b: i64) -> (r: Option<i64>)
    ensures
        r == if in_i64(tmul(a as int, b as int)) {
            Some(tmul(a as int, b as int) as i64)
        } else {
            None::<i64>
        },
{
    proof {
        assert((a as i128) * (b as i128) <= i128::MAX && (a as i128) * (b as i128)
            >= i128::MIN) by (nonlinear_arith)
            requires
                i64::MIN <= a <= i64::MAX,
                i64::MIN <= b <= i64::MAX,
        ;
    }
    let p: i128 = (a as i128) * (b as i128);
    let q: i128 = p / (SCALE as i128);
    if i64::MIN as i128 <= q && q <= i64::MAX as i128 {
        Some(q as i64)
    } else {
        None
    }
}

/// Fixed-point multiplication for callers that have already bounded the
/// product.
pub fn fx_mul_total(a: i64, b: i64) -> (r: i64)
    requires
        in_i64(tmul(a as int, b as int)),
    ensures
        r == tmul(a as int, b as int),
{
    let r = fx_mul(a, b);
    match r {
        Some(v) => v,
        None => {
            proof {
                assert(false);
            }
            0
        },
    }
}

/// Checked fixed-point division: `None` exactly when the divisor is zero
/// or the quotient leaves the `i64` range.
pub fn fx_div(a: i64, d: i64) -> (r: Option<i64>)
    ensures
        r == if d != 0 && in_i64(fdiv(a as int, d as int)) {
            Some(fdiv(a as int, d as int) as i64)
        } else {
            None::<i64>
        },
{
    if d == 0 {
        return None;
    }
    proof {
        assert((a as i128) * (SCALE as i128) <= i128::MAX && (a as i128) * (SCALE as i128)
            >= i128::MIN) by (nonlinear_arith)
            requires
                i64::MIN <= a <= i64::MAX,
        ;
    }
    let p: i128 = (a as i128) * (SCALE as i128);
    let q: i128 = if d > 0 {
        proof {
            lemma_tdiv_bounds(p as int, d as int);
        }
        p / (d as i128)
    } else {
        let dp: i128 = -(d as i128);
        proof {
            lemma_tdiv_bounds(p as int, dp as int);
        }
        -(p / dp)
    };
    if i64::MIN as i128 <= q && q <= i64::MAX as i128 {
        Some(q as i64)
    } else {
        None
    }
}

/// Fixed-point division for callers that have already bounded the quotient.
pub fn fx_div_total(a: i64, d: i64) -> (r: i64)
    requires
        d > 0,
        in_i64(fdiv(a as int, d as int)),
    ensures
        r == fdiv(a as int, d as int),
{
    let r = fx_div(a, d);
    match r {
        Some(v) => v,
        None => {
            proof {
                assert(false);
            }
            0
        },
    }
}

} // verus!

