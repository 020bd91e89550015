//! Generic fixed-step fourth-order Runge-Kutta integration.
//!
//! The integrator works over any state algebra with addition, scalar
//! multiplication and scalar division (`State`), and over any derivative
//! function with a specified value (`Deriv`). All arithmetic is checked:
//! `rk4` returns `None` exactly when some intermediate leaves machine
//! range, and otherwise returns precisely the value of `rk4_spec` — the
//! classical update `x + (k1 + 2 k2 + 2 k3 + k4) / 6`.

use vstd::prelude::*;
use crate::fixed::{SCALE, in_i64, tdiv, tmul, fdiv, fx_add, fx_mul, fx_div};
use crate::fixed::{lemma_tdiv_exact, lemma_tmul_small};
use crate::geom::{Vector, Kinematics};

verus! {

/// One half, in fixed point.
pub const HALF_FX: i64 = 500_000;

/// Two, in fixed point.
pub const TWO_FX: i64 = 2_000_000;

/// Six, in fixed point.
pub const SIX_FX: i64 = 6_000_000;

/// A state algebra: addition, scalar multiplication and scalar division,
/// each checked against machine range and pinned to an exact model.
pub trait State: Sized + Copy {
    /// Whether the sum stays in range.
    spec fn can_plus(self, other: Self) -> bool;

    /// The sum.
    spec fn plus_spec(self, other: Self) -> Self;

    /// Checked addition.
    fn plus(self, other: Self) -> (r: Option<Self>)
        ensures
            r == if self.can_plus(other) {
                Some(self.plus_spec(other))
            } else {
                None::<Self>
            },
    ;

    /// Whether the scalar multiple stays in range.
    spec fn can_times(self, k: i64) -> bool;

    /// The scalar multiple.
    spec fn times_spec(self, k: i64) -> Self;

    /// Checked scalar multiplication.
    fn times(self, k: i64) -> (r: Option<Self>)
        ensures
            r == if self.can_times(k) {
                Some(self.times_spec(k))
            } else {
                None::<Self>
            },
    ;

    /// Whether the scalar quotient is defined and stays in range.
    spec fn can_over(self, k: i64) -> bool;

    /// The scalar quotient.
    spec fn over_spec(self, k: i64) -> Self;

    /// Checked scalar division.
    fn over(self, k: i64) -> (r: Option<Self>)
        ensures
            r == if self.can_over(k) {
                Some(self.over_spec(k))
            } else {
                None::<Self>
            },
    ;
}

/// A derivative function over a state algebra, with a specified domain and
/// value.
pub trait Deriv<T: State> {
    /// Whether the derivative is defined (all its arithmetic in range) at a
    /// point.
    spec fn ok(&self, t: i64, x: T) -> bool;

    /// The value of the derivative at a point.
    spec fn at(&self, t: i64, x: T) -> T;

    /// Checked evaluation.
    fn eval(&self, t: i64, x: T) -> (r: Option<T>)
        ensures
            r == if self.ok(t, x) {
                Some(self.at(t, x))
            } else {
                None::<T>
            },
    ;
}

impl State for i64 {
    open spec fn can_plus(self, other: i64) -> bool {
        in_i64(self + other)
    }

    open spec fn plus_spec(self, other: i64) -> i64 {
        (self + other) as i64
    }

    fn plus(self, other: i64) -> (r: Option<i64>) {
        fx_add(self, other)
    }

    open spec fn can_times(self, k: i64) -> bool {
        in_i64(tmul(self as int, k as int))
    }

    open spec fn times_spec(self, k: i64) -> i64 {
        tmul(self as int, k as int) as i64
    }

    fn times(self, k: i64) -> (r: Option<i64>) {
        fx_mul(self, k)
    }

    open spec fn can_over(self, k: i64) -> bool {
        k != 0 && in_i64(fdiv(self as int, k as int))
    }

    open spec fn over_spec(self, k: i64) -> i64 {
        fdiv(self as int, k as int) as i64
    }

    fn over(self, k: i64) -> (r: Option<i64>) {
        fx_div(self, k)
    }
}

impl State for Vector {
    open spec fn can_plus(self, other: Vector) -> bool {
        in_i64(self.x + other.x) && in_i64(self.y + other.y)
    }

    open spec fn plus_spec(self, other: Vector) -> Vector {
        Vector { x: (self.x + other.x) as i64, y: (self.y + other.y) as i64 }
    }

    fn plus(self, other: Vector) -> (r: Option<Vector>) {
        self.add(other)
    }

    open spec fn can_times(self, k: i64) -> bool {
        in_i64(tmul(self.x as int, k as int)) && in_i64(tmul(self.y as int, k as int))
    }

    open spec fn times_spec(self, k: i64) -> Vector {
        Vector { x: tmul(self.x as int, k as int) as i64, y: tmul(self.y as int, k as int) as i64 }
    }

    fn times(self, k: i64) -> (r: Option<Vector>) {
        self.scale(k)
    }

    open spec fn can_over(self, k: i64) -> bool {
        k != 0 && in_i64(fdiv(self.x as int, k as int)) && in_i64(fdiv(self.y as int, k as int))
    }

    open spec fn over_spec(self, k: i64) -> Vector {
        Vector { x: fdiv(self.x as int, k as int) as i64, y: fdiv(self.y as int, k as int) as i64 }
    }

    fn over(self, k: i64) -> (r: Option<Vector>) {
        self.div_by(k)
    }
}

impl State for Kinematics {
    open spec fn can_plus(self, other: Kinematics) -> bool {
        self.vec.can_plus(other.vec) && in_i64(self.ang + other.ang)
    }

    open spec fn plus_spec(self, other: Kinematics) -> Kinematics {
        Kinematics { vec: self.vec.plus_spec(other.vec), ang: (self.ang + other.ang) as i64 }
    }

    fn plus(self, other: Kinematics) -> (r: Option<Kinematics>) {
        let vec = self.vec.plus(other.vec)?;
        let ang = fx_add(self.ang, other.ang)?;
        Some(Kinematics { vec, ang })
    }

    open spec fn can_times(self, k: i64) -> bool {
        self.vec.can_times(k) && in_i64(tmul(self.ang as int, k as int))
    }

    open spec fn times_spec(self, k: i64) -> Kinematics {
        Kinematics { vec: self.vec.times_spec(k), ang: tmul(self.ang as int, k as int) as i64 }
    }

    fn times(self, k: i64) -> (r: Option<Kinematics>) {
        let vec = self.vec.times(k)?;
        let ang = fx_mul(self.ang, k)?;
        Some(Kinematics { vec, ang })
    }

    open spec fn can_over(self, k: i64) -> bool {
        self.vec.can_over(k) && k != 0 && in_i64(fdiv(self.ang as int, k as int))
    }

    open spec fn over_spec(self, k: i64) -> Kinematics {
        Kinematics { vec: self.vec.over_spec(k), ang: fdiv(self.ang as int, k as int) as i64 }
    }

    fn over(self, k: i64) -> (r: Option<Kinematics>) {
        let vec = self.vec.over(k)?;
        let ang = fx_div(self.ang, k)?;
        Some(Kinematics { vec, ang })
    }
}

/// Whether every step of the Runge-Kutta update is defined and in range.
pub open spec fn rk4_ok<T: State, D: Deriv<T>>(f: &D, x: T, t: i64, h: i64) -> bool {
    let h2 = tdiv(h as int, 2);
    let t2 = (t + h2) as i64;
    let t3 = (t + h) as i64;
    let k1 = f.at(t, x).times_spec(h);
    let x2 = x.plus_spec(k1.times_spec(HALF_FX));
    let k2 = f.at(t2, x2).times_spec(h);
    let x3 = x.plus_spec(k2.times_spec(HALF_FX));
    let k3 = f.at(t2, x3).times_spec(h);
    let x4 = x.plus_spec(k3);
    let k4 = f.at(t3, x4).times_spec(h);
    let sum = k1.plus_spec(k2.times_spec(TWO_FX)).plus_spec(k3.times_spec(TWO_FX)).plus_spec(k4);
    &&& in_i64(t + h2)
    &&& in_i64(t + h)
    &&& f.ok(t, x)
    &&& f.at(t, x).can_times(h)
    &&& k1.can_times(HALF_FX)
    &&& x.can_plus(k1.times_spec(HALF_FX))
    &&& f.ok(t2, x2)
    &&& f.at(t2, x2).can_times(h)
    &&& k2.can_times(HALF_FX)
    &&& x.can_plus(k2.times_spec(HALF_FX))
    &&& f.ok(t2, x3)
    &&& f.at(t2, x3).can_times(h)
    &&& x.can_plus(k3)
    &&& f.ok(t3, x4)
    &&& f.at(t3, x4).can_times(h)
    &&& k2.can_times(TWO_FX)
    &&& k3.can_times(TWO_FX)
    &&& k1.can_plus(k2.times_spec(TWO_FX))
    &&& k1.plus_spec(k2.times_spec(TWO_FX)).can_plus(k3.times_spec(TWO_FX))
    &&& k1.plus_spec(k2.times_spec(TWO_FX)).plus_spec(k3.times_spec(TWO_FX)).can_plus(k4)
    &&& sum.can_over(SIX_FX)
    &&& x.can_plus(sum.over_spec(SIX_FX))
}

/// The Runge-Kutta update: `x + (k1 + 2 k2 + 2 k3 + k4) / 6` with the four
/// stage derivatives taken at `t`, twice at `t + h / 2`, and at `t + h`.
pub open spec fn rk4_spec<T: State, D: Deriv<T>>(f: &D, x: T, t: i64, h: i64) -> T {
    let h2 = tdiv(h as int, 2);
    let t2 = (t + h2) as i64;
    let t3 = (t + h) as i64;
    let k1 = f.at(t, x).times_spec(h);
    let x2 = x.plus_spec(k1.times_spec(HALF_FX));
    let k2 = f.at(t2, x2).times_spec(h);
    let x3 = x.plus_spec(k2.times_spec(HALF_FX));
    let k3 = f.at(t2, x3).times_spec(h);
    let x4 = x.plus_spec(k3);
    let k4 = f.at(t3, x4).times_spec(h);
    let sum = k1.plus_spec(k2.times_spec(TWO_FX)).plus_spec(k3.times_spec(TWO_FX)).plus_spec(k4);
    x.plus_spec(sum.over_spec(SIX_FX))
}

/// One fixed Runge-Kutta step of size `h` from state `x` at time `t`:
/// exactly the specified update, or `None` exactly when some intermediate
/// leaves machine range.
pub fn rk4<T: State, D: Deriv<T>>(f: &D, x: T, t: i64, h: i64) -> (r: Option<T>)
    ensures
        r == if rk4_ok(f, x, t, h) {
            Some(rk4_spec(f, x, t, h))
        } else {
            None::<T>
        },
{
    let h2 = h / 2;
    let t2 = t.checked_add(h2)?;
    let t3 = t.checked_add(h)?;
    let d1 = f.eval(t, x)?;
    let k1 = d1.times(h)?;
    let k1h = k1.times(HALF_FX)?;
    let x2 = x.plus(k1h)?;
    let d2 = f.eval(t2, x2)?;
    let k2 = d2.times(h)?;
    let k2h = k2.times(HALF_FX)?;
    let x3 = x.plus(k2h)?;
    let d3 = f.eval(t2, x3)?;
    let k3 = d3.times(h)?;
    let x4 = x.plus(k3)?;
    let d4 = f.eval(t3, x4)?;
    let k4 = d4.times(h)?;
    let s2 = k2.times(TWO_FX)?;
    let s3 = k3.times(TWO_FX)?;
    let p1 = k1.plus(s2)?;
    let p2 = p1.plus(s3)?;
    let sum = p2.plus(k4)?;
    let inc = sum.over(SIX_FX)?;
    x.plus(inc)
}

/// A constant scalar derivative.
pub struct ConstDeriv {
    pub c: i64,
}

impl Deriv<i64> for ConstDeriv {
    open spec fn ok(&self, t: i64, x: i64) -> bool {
        true
    }

    open spec fn at(&self, t: i64, x: i64) -> i64 {
        self.c
    }

    fn eval(&self, t: i64, x: i64) -> (r: Option<i64>) {
        Some(self.c)
    }
}

/// A linear scalar derivative: the state times a fixed rate, as in
/// exponential growth or decay.
pub struct ScaleDeriv {
    pub k: i64,
}

impl Deriv<i64> for ScaleDeriv {
    open spec fn ok(&self, t: i64, x: i64) -> bool {
        in_i64(tmul(self.k as int, x as int))
    }

    open spec fn at(&self, t: i64, x: i64) -> i64 {
        tmul(self.k as int, x as int) as i64
    }

    fn eval(&self, t: i64, x: i64) -> (r: Option<i64>) {
        fx_mul(self.k, x)
    }
}

/// The arithmetic facts behind constant-derivative exactness, for one
/// scalar component: the halved stage stays in range, doubling is exact,
/// and the sum of the four equal stages divides back to one stage.
pub proof fn lemma_rk4_const_component(k: int, x0: int)
    requires
        in_i64(k),
        in_i64(x0),
        in_i64(6 * k),
        in_i64(x0 + k),
    ensures
        in_i64(tmul(k, HALF_FX as int)),
        in_i64(x0 + tmul(k, HALF_FX as int)),
        tmul(k, TWO_FX as int) == 2 * k,
        in_i64(k + 2 * k),
        in_i64(k + 2 * k + 2 * k),
        in_i64(k + 2 * k + 2 * k + k),
        fdiv(6 * k, SIX_FX as int) == k,
{
    let s = SCALE as int;
    lemma_tmul_small(k, HALF_FX as int);
    assert(tmul(k, TWO_FX as int) == 2 * k) by {
        assert(k * (TWO_FX as int) == (2 * k) * s) by (nonlinear_arith)
            requires
                TWO_FX as int == 2 * s,
        ;
        lemma_tdiv_exact(2 * k, s);
    }
    assert(fdiv(6 * k, SIX_FX as int) == k) by {
        assert((6 * k) * s == k * (SIX_FX as int)) by (nonlinear_arith)
            requires
                SIX_FX as int == 6 * s,
        ;
        lemma_tdiv_exact(k, SIX_FX as int);
    }
}

/// On a constant derivative the Runge-Kutta step is exact: integrating
/// `dx/dt = c` over a step `h` gives exactly `x + c * h`, whatever the step
/// size, whenever the arithmetic fits the machine.
pub proof fn lemma_rk4_exact_on_constant(f: &ConstDeriv, x: i64, t: i64, h: i64)
    requires
        in_i64(t + tdiv(h as int, 2)),
        in_i64(t + h),
        in_i64(tmul(f.c as int, h as int)),
        in_i64(6 * tmul(f.c as int, h as int)),
        in_i64(x + tmul(f.c as int, h as int)),
    ensures
        rk4_ok(f, x, t, h),
        rk4_spec(f, x, t, h) == (x + tmul(f.c as int, h as int)) as i64,
{
    let k = tmul(f.c as int, h as int);
    lemma_rk4_const_component(k, x as int);
    assert(rk4_ok(f, x, t, h));
    assert(rk4_spec(f, x, t, h) == (x + k) as i64);
}

} // verus!
