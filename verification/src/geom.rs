//! Planar geometry primitives: vectors and normalized angles.
//!
//! A `Vector` is a pair of fixed-point coordinates. An `Angle` is a phase in
//! millionths of a radian, kept in `[0, TAU_FX)` by construction and by
//! every addition and subtraction. Magnitudes come from an exact integer
//! square root; orientations from the fixed-point arctangent.

use vstd::prelude::*;
use crate::fixed::{SCALE, in_i64, tdiv, tmul, fdiv, fx_add, fx_sub, fx_mul, fx_div};
use crate::fixed::{lemma_tdiv_exact, lemma_tdiv_mono, lemma_tmul_small, abs_int};
use crate::trig::{PI_FX, HALF_PI_FX, TAU_FX, sin_spec, cos_spec, atan2_spec, sin_fx, cos_fx, atan2_fx};
use vstd::arithmetic::div_mod::{
    lemma_div_pos_is_pos, lemma_fundamental_div_mod, lemma_fundamental_div_mod_converse_mod,
    lemma_mod_division_less_than_divisor,
};

verus! {

/// The integer square root, rounded down.
pub open spec fn sqrt_floor(n: int) -> int
    recommends
        n >= 0,
    decreases n,
{
    if n <= 0 {
        0
    } else {
        let r = sqrt_floor(n - 1);
        if (r + 1) * (r + 1) <= n {
            r + 1
        } else {
            r
        }
    }
}

/// `sqrt_floor` is characterized by the two bracketing squares.
pub proof fn lemma_sqrt_floor(n: int)
    requires
        n >= 0,
    ensures
        sqrt_floor(n) >= 0,
        sqrt_floor(n) * sqrt_floor(n) <= n,
        n < (sqrt_floor(n) + 1) * (sqrt_floor(n) + 1),
    decreases n,
{
    if n == 0 {
        assert(sqrt_floor(0) == 0);
    } else {
        lemma_sqrt_floor(n - 1);
        let r = sqrt_floor(n - 1);
        if (r + 1) * (r + 1) <= n {
            assert(n - 1 < (r + 1) * (r + 1));
            assert(n < (r + 2) * (r + 2)) by (nonlinear_arith)
                requires
                    r >= 0,
                    n <= (r + 1) * (r + 1),
            ;
        }
    }
}

/// Any integer bracketed the same way equals `sqrt_floor`.
pub proof fn lemma_sqrt_unique(n: int, r: int)
    requires
        n >= 0,
        r >= 0,
        r * r <= n,
        n < (r + 1) * (r + 1),
    ensures
        r == sqrt_floor(n),
{
    lemma_sqrt_floor(n);
    let q = sqrt_floor(n);
    if r < q {
        assert((r + 1) * (r + 1) <= q * q) by (nonlinear_arith)
            requires
                0 <= r,
                r + 1 <= q,
        ;
    } else if q < r {
        assert((q + 1) * (q + 1) <= r * r) by (nonlinear_arith)
            requires
                0 <= q,
                q + 1 <= r,
        ;
    }
}

/// Exact integer square root of a wide operand, by bisection.
pub fn isqrt_u128(n: u128) -> (r: u64)
    ensures
        r as int == sqrt_floor(n as int),
{
    let mut lo: u128 = 0;
    let mut hi: u128 = 0xFFFF_FFFF_FFFF_FFFF;
    proof {
        assert((hi as int + 1) * (hi as int + 1) > n as int) by (nonlinear_arith)
            requires
                hi as int == 0xFFFF_FFFF_FFFF_FFFFu64 as int,
                n as int <= u128::MAX as int,
        ;
    }
    while lo < hi
        invariant
            0 <= lo <= hi <= 0xFFFF_FFFF_FFFF_FFFFu64 as u128,
            (lo as int) * (lo as int) <= n as int,
            (n as int) < (hi as int + 1) * (hi as int + 1),
        decreases hi - lo,
    {
        let mid: u128 = lo + (hi - lo + 1) / 2;
        proof {
            assert((mid as int) * (mid as int) < u128::MAX as int) by (nonlinear_arith)
                requires
                    0 <= mid as int <= 0xFFFF_FFFF_FFFF_FFFFu64 as int,
            ;
        }
        if mid * mid <= n {
            lo = mid;
        } else {
            hi = mid - 1;
        }
    }
    proof {
        lemma_sqrt_unique(n as int, lo as int);
    }
    lo as u64
}

/// A planar vector of fixed-point coordinates.
#[derive(Clone, Copy, PartialEq, Eq, Structural, Debug)]
pub struct Vector {
    pub x: i64,
    pub y: i64,
}

/// An angle normalized to `[0, TAU_FX)` millionths of a radian.
#[derive(Clone, Copy, Debug)]
pub struct Angle {
    raw: i64,
}

impl View for Angle {
    type V = int;

    closed spec fn view(&self) -> int {
        self.raw as int
    }
}

/// Reduction of a raw phase into `[0, TAU_FX)`.
pub open spec fn norm_angle(r: int) -> int {
    r % (TAU_FX as int)
}

/// Fixed-point radians to fixed-point degrees.
pub open spec fn rad_to_deg(a: int) -> int {
    tdiv(a * 180 * (SCALE as int), PI_FX as int)
}

/// Fixed-point degrees to fixed-point radians.
pub open spec fn deg_to_rad(d: int) -> int {
    tdiv(d * (PI_FX as int), 180 * (SCALE as int))
}

/// The vector of a magnitude and a normalized direction.
pub open spec fn polar_spec(m: int, a: int) -> Vector
    recommends
        in_i64(m),
        0 <= a < TAU_FX as int,
{
    Vector { x: tmul(m, cos_spec(a)) as i64, y: tmul(m, sin_spec(a)) as i64 }
}

/// Normalize a raw phase into `[0, TAU_FX)`.
pub fn norm_rad(r: i64) -> (n: i64)
    ensures
        n == norm_angle(r as int),
        0 <= n < TAU_FX,
{
    let t = TAU_FX as i128;
    if r >= 0 {
        let n = (r as i128) % t;
        proof {
            lemma_mod_division_less_than_divisor(r as int, TAU_FX as int);
        }
        n as i64
    } else {
        let y: i128 = -(r as i128);
        let k: i128 = y % t;
        proof {
            let yi = y as int;
            let ti = TAU_FX as int;
            lemma_fundamental_div_mod(yi, ti);
            lemma_mod_division_less_than_divisor(yi, ti);
            let q = yi / ti;
            let ki = yi % ti;
            if ki == 0 {
                assert((-q) * ti + 0 == -(ti * q)) by (nonlinear_arith);
                lemma_fundamental_div_mod_converse_mod(r as int, ti, -q, 0);
            } else {
                assert((-q - 1) * ti + (ti - ki) == -(ti * q) - ki) by (nonlinear_arith);
                lemma_fundamental_div_mod_converse_mod(r as int, ti, -q - 1, ti - ki);
            }
        }
        if k == 0 {
            0
        } else {
            (t - k) as i64
        }
    }
}

impl Vector {
    /// The vector with the given coordinates.
    pub fn new(x: i64, y: i64) -> (v: Vector)
        ensures
            v == (Vector { x, y }),
    {
        Vector { x, y }
    }

    /// The vector of magnitude `m` pointing along the raw phase `r`
    /// millionths of a radian. A factor of magnitude at most one unit keeps
    /// each coordinate within `m`, so this is total.
    pub fn from_radians(m: i64, r: i64) -> (v: Vector)
        requires
            m > i64::MIN,
        ensures
            v == polar_spec(m as int, norm_angle(r as int)),
            v.x == tmul(m as int, cos_spec(norm_angle(r as int))),
            v.y == tmul(m as int, sin_spec(norm_angle(r as int))),
    {
        let a = norm_rad(r);
        let c = cos_fx(a);
        let s = sin_fx(a);
        proof {
            lemma_tmul_small(m as int, c as int);
            lemma_tmul_small(m as int, s as int);
        }
        let px = fx_mul(m, c);
        let py = fx_mul(m, s);
        match (px, py) {
            (Some(x), Some(y)) => Vector { x, y },
            _ => {
                proof {
                    assert(false);
                }
                Vector { x: 0, y: 0 }
            },
        }
    }

    /// The vector of magnitude `m` pointing along the raw phase `d`
    /// millionths of a degree.
    pub fn from_degrees(m: i64, d: i64) -> (v: Vector)
        requires
            m > i64::MIN,
        ensures
            v == polar_spec(m as int, norm_angle(deg_to_rad(d as int))),
    {
        let r = deg_rad_exec(d);
        Vector::from_radians(m, r)
    }

    /// The unit vector of this vector's orientation.
    pub fn unit(&self) -> (u: Vector)
        ensures
            u == polar_spec(SCALE as int, atan2_spec(self.y as int, self.x as int)),
    {
        let a = self.orientation();
        let r = a.rad();
        proof {
            vstd::arithmetic::div_mod::lemma_small_mod(r as nat, TAU_FX as nat);
        }
        Vector::from_radians(SCALE, r)
    }

    /// Dot product of two fixed-point vectors, `None` exactly when a step
    /// leaves the `i64` range.
    pub fn dot(self, other: Vector) -> (r: Option<i64>)
        ensures
            r == if dot_fits(self, other) {
                Some(dot_spec(self, other) as i64)
            } else {
                None::<i64>
            },
    {
        let a = fx_mul(self.x, other.x)?;
        let b = fx_mul(self.y, other.y)?;
        fx_add(a, b)
    }

    /// Planar cross product (the z-component), `None` exactly when a step
    /// leaves the `i64` range.
    pub fn cross(self, other: Vector) -> (r: Option<i64>)
        ensures
            r == if cross_fits(self, other) {
                Some(cross_spec(self, other) as i64)
            } else {
                None::<i64>
            },
    {
        let a = fx_mul(self.x, other.y)?;
        let b = fx_mul(self.y, other.x)?;
        fx_sub(a, b)
    }

    /// First coordinate.
    pub fn x(&self) -> (r: i64)
        ensures
            r == self.x,
    {
        self.x
    }

    /// Second coordinate.
    pub fn y(&self) -> (r: i64)
        ensures
            r == self.y,
    {
        self.y
    }

    /// Euclidean length, rounded down to a whole number of millionths.
    pub fn magnitude(&self) -> (r: u64)
        ensures
            r as int == mag_spec(*self),
    {
        proof {
            assert(0 <= (self.x as int) * (self.x as int)
                <= 85070591730234615865843651857942052864 && 0 <= (self.y as int) * (self.y as int)
                <= 85070591730234615865843651857942052864) by (nonlinear_arith)
                requires
                    -9223372036854775808 <= self.x as int <= 9223372036854775807,
                    -9223372036854775808 <= self.y as int <= 9223372036854775807,
            ;
        }
        let px: i128 = (self.x as i128) * (self.x as i128);
        let py: i128 = (self.y as i128) * (self.y as i128);
        let sum: u128 = (px as u128) + (py as u128);
        isqrt_u128(sum)
    }

    /// Orientation angle via the fixed-point arctangent.
    pub fn orientation(&self) -> (a: Angle)
        ensures
            a@ == atan2_spec(self.y as int, self.x as int),
    {
        let r = atan2_fx(self.y, self.x);
        Angle { raw: r }
    }

    /// Componentwise sum, `None` exactly when a coordinate overflows.
    pub fn add(self, other: Vector) -> (r: Option<Vector>)
        ensures
            r == if in_i64(self.x + other.x) && in_i64(self.y + other.y) {
                Some(Vector { x: (self.x + other.x) as i64, y: (self.y + other.y) as i64 })
            } else {
                None::<Vector>
            },
    {
        let x = fx_add(self.x, other.x)?;
        let y = fx_add(self.y, other.y)?;
        Some(Vector { x, y })
    }

    /// Componentwise difference, `None` exactly when a coordinate overflows.
    pub fn sub(self, other: Vector) -> (r: Option<Vector>)
        ensures
            r == if in_i64(self.x - other.x) && in_i64(self.y - other.y) {
                Some(Vector { x: (self.x - other.x) as i64, y: (self.y - other.y) as i64 })
            } else {
                None::<Vector>
            },
    {
        let x = fx_sub(self.x, other.x)?;
        let y = fx_sub(self.y, other.y)?;
        Some(Vector { x, y })
    }

    /// Scalar multiple, `None` exactly when a coordinate overflows.
    pub fn scale(self, k: i64) -> (r: Option<Vector>)
        ensures
            r == if in_i64(tmul(self.x as int, k as int)) && in_i64(tmul(self.y as int, k as int)) {
                Some(Vector {
                    x: tmul(self.x as int, k as int) as i64,
                    y: tmul(self.y as int, k as int) as i64,
                })
            } else {
                None::<Vector>
            },
    {
        let x = fx_mul(self.x, k)?;
        let y = fx_mul(self.y, k)?;
        Some(Vector { x, y })
    }

    /// Scalar quotient, `None` exactly when the divisor is zero or a
    /// coordinate overflows.
    pub fn div_by(self, k: i64) -> (r: Option<Vector>)
        ensures
            r == if k != 0 && in_i64(fdiv(self.x as int, k as int)) && in_i64(
                fdiv(self.y as int, k as int),
            ) {
                Some(Vector {
                    x: fdiv(self.x as int, k as int) as i64,
                    y: fdiv(self.y as int, k as int) as i64,
                })
            } else {
                None::<Vector>
            },
    {
        let x = fx_div(self.x, k)?;
        let y = fx_div(self.y, k)?;
        Some(Vector { x, y })
    }
}

/// Value of the dot product.
pub open spec fn dot_spec(a: Vector, b: Vector) -> int {
    tmul(a.x as int, b.x as int) + tmul(a.y as int, b.y as int)
}

/// Whether every step of the dot product stays in range.
pub open spec fn dot_fits(a: Vector, b: Vector) -> bool {
    in_i64(tmul(a.x as int, b.x as int)) && in_i64(tmul(a.y as int, b.y as int)) && in_i64(
        dot_spec(a, b),
    )
}

/// Value of the planar cross product.
pub open spec fn cross_spec(a: Vector, b: Vector) -> int {
    tmul(a.x as int, b.y as int) - tmul(a.y as int, b.x as int)
}

/// Whether every step of the cross product stays in range.
pub open spec fn cross_fits(a: Vector, b: Vector) -> bool {
    in_i64(tmul(a.x as int, b.y as int)) && in_i64(tmul(a.y as int, b.x as int)) && in_i64(
        cross_spec(a, b),
    )
}

/// Length of a vector: the rounded-down root of the coordinate squares.
pub open spec fn mag_spec(v: Vector) -> int {
    sqrt_floor((v.x as int) * (v.x as int) + (v.y as int) * (v.y as int))
}

/// Fixed-point degrees to radians, exec form.
fn deg_rad_exec(d: i64) -> (r: i64)
    ensures
        r == deg_to_rad(d as int),
{
    proof {
        let di = d as int;
        let p = PI_FX as int;
        assert(-(170_000_000_000_000_000 * 180_000_000) <= di * p
            <= 170_000_000_000_000_000 * 180_000_000) by (nonlinear_arith)
            requires
                i64::MIN <= di <= i64::MAX,
                p == 3_141_592,
        ;
        crate::fixed::lemma_tdiv_cap(di * p, 180_000_000, 170_000_000_000_000_000);
    }
    let num: i128 = (d as i128) * (PI_FX as i128);
    let den: i128 = 180 * (SCALE as i128);
    let r: i128 = num / den;
    r as i64
}

impl Angle {
    /// Normalization invariant: the stored phase is inside one turn.
    #[verifier::type_invariant]
    spec fn inv(self) -> bool {
        0 <= self.raw < TAU_FX
    }

    /// The angle of a raw phase in millionths of a degree.
    pub fn from_degrees(degrees: i64) -> (a: Angle)
        ensures
            a@ == norm_angle(deg_to_rad(degrees as int)),
    {
        let r = deg_rad_exec(degrees);
        Angle::from_radians(r)
    }

    /// The angle of a raw phase in millionths of a radian, normalized into
    /// `[0, TAU_FX)`.
    pub fn from_radians(radians: i64) -> (a: Angle)
        ensures
            a@ == norm_angle(radians as int),
    {
        let n = norm_rad(radians);
        Angle { raw: n }
    }

    /// The orientation of a vector.
    pub fn from_vector(vector: &Vector) -> (a: Angle)
        ensures
            a@ == atan2_spec(vector.y as int, vector.x as int),
    {
        vector.orientation()
    }

    /// The half turn.
    pub fn pi() -> (a: Angle)
        ensures
            a@ == PI_FX as int,
    {
        Angle { raw: PI_FX }
    }

    /// The unit vector pointing along this angle.
    pub fn unit(&self) -> (u: Vector)
        ensures
            u == polar_spec(SCALE as int, self@),
    {
        let r = self.rad();
        proof {
            vstd::arithmetic::div_mod::lemma_small_mod(r as nat, TAU_FX as nat);
        }
        Vector::from_radians(SCALE, r)
    }

    /// The phase in millionths of a radian, inside `[0, TAU_FX)`: every
    /// constructed angle reads back normalized.
    pub fn rad(&self) -> (r: i64)
        ensures
            r == self@,
            0 <= r < TAU_FX,
    {
        proof {
            use_type_invariant(self);
        }
        self.raw
    }

    /// The phase in millionths of a degree, inside `[0, 360 degrees)`.
    pub fn deg(&self) -> (r: i64)
        ensures
            r == rad_to_deg(self@),
            0 <= r < 360_000_000,
    {
        proof {
            use_type_invariant(self);
        }
        let num: i128 = (self.raw as i128) * 180 * (SCALE as i128);
        let r: i128 = num / (PI_FX as i128);
        proof {
            let a = self.raw as int;
            let p = PI_FX as int;
            lemma_div_pos_is_pos(a * 180 * (SCALE as int), p);
            lemma_tdiv_mono(a * 180 * (SCALE as int), 359_999_999 * p, p);
            lemma_tdiv_exact(359_999_999, p);
        }
        r as i64
    }

    /// The phase in signed millionths of a degree, inside
    /// `(-180 degrees, 180 degrees]`.
    pub fn nice_deg(&self) -> (r: i64)
        ensures
            r == nice_deg_spec(self@),
            -180_000_000 < r <= 180_000_000,
    {
        let d = self.deg();
        if d > 180_000_000 {
            d - 360_000_000
        } else {
            d
        }
    }

    /// Sum of two angles, renormalized.
    pub fn add(self, other: Angle) -> (r: Angle)
        ensures
            r@ == norm_angle(self@ + other@),
    {
        proof {
            use_type_invariant(&self);
            use_type_invariant(&other);
        }
        let s = self.raw + other.raw;
        let n = if s >= TAU_FX {
            s - TAU_FX
        } else {
            s
        };
        proof {
            if s >= TAU_FX {
                lemma_fundamental_div_mod_converse_mod(s as int, TAU_FX as int, 1, s - TAU_FX);
            } else {
                vstd::arithmetic::div_mod::lemma_small_mod(s as nat, TAU_FX as nat);
            }
        }
        Angle { raw: n }
    }

    /// Difference of two angles, renormalized: no shortest-path choice is
    /// made, the result is again a phase in `[0, TAU_FX)`.
    pub fn sub(self, other: Angle) -> (r: Angle)
        ensures
            r@ == norm_angle(self@ - other@),
    {
        proof {
            use_type_invariant(&self);
            use_type_invariant(&other);
        }
        let d = self.raw - other.raw;
        let n = if d < 0 {
            d + TAU_FX
        } else {
            d
        };
        proof {
            if d < 0 {
                lemma_fundamental_div_mod_converse_mod(d as int, TAU_FX as int, -1, d + TAU_FX);
            } else {
                vstd::arithmetic::div_mod::lemma_small_mod(d as nat, TAU_FX as nat);
            }
        }
        Angle { raw: n }
    }
}

/// A kinematic state: a linear component and an angular component. One
/// value stands for a pose (position and orientation phase), another for a
/// rate (velocity and angular velocity); both share the same algebra, so
/// the same integrator advances either.
#[derive(Clone, Copy, PartialEq, Eq, Structural, Debug)]
pub struct Kinematics {
    pub vec: Vector,
    pub ang: i64,
}

impl Kinematics {
    /// A pose from a position vector and a normalized orientation.
    pub fn new(vec: Vector, angle: Angle) -> (k: Kinematics)
        ensures
            k.vec == vec,
            k.ang == angle@,
    {
        let ang = angle.rad();
        Kinematics { vec, ang }
    }

    /// A kinematic state from a vector and a raw angular scalar.
    pub fn new_raw(vec: Vector, ang: i64) -> (k: Kinematics)
        ensures
            k == (Kinematics { vec, ang }),
    {
        Kinematics { vec, ang }
    }

    /// First linear coordinate.
    pub fn x(&self) -> (r: i64)
        ensures
            r == self.vec.x,
    {
        self.vec.x
    }

    /// Second linear coordinate.
    pub fn y(&self) -> (r: i64)
        ensures
            r == self.vec.y,
    {
        self.vec.y
    }

    /// The angular component as a normalized angle.
    pub fn angle(&self) -> (a: Angle)
        ensures
            a@ == norm_angle(self.ang as int),
    {
        Angle::from_radians(self.ang)
    }

    /// Orientation of the linear component.
    pub fn direction(&self) -> (a: Angle)
        ensures
            a@ == atan2_spec(self.vec.y as int, self.vec.x as int),
    {
        self.vec.orientation()
    }

    /// Length of the linear component.
    pub fn magnitude(&self) -> (r: u64)
        ensures
            r as int == mag_spec(self.vec),
    {
        self.vec.magnitude()
    }
}

/// The angle holding a given normalized phase, for specifications.
pub closed spec fn spec_angle(a: int) -> Angle {
    Angle { raw: a as i64 }
}

/// The phase of a specification-built angle.
pub proof fn lemma_spec_angle(a: int)
    requires
        in_i64(a),
    ensures
        spec_angle(a)@ == a,
{
}

/// Two angles with one phase are one angle.
pub proof fn lemma_angle_eq(a: Angle, b: Angle)
    requires
        a@ == b@,
    ensures
        a == b,
{
}

/// Signed-degree form of a normalized phase.
pub open spec fn nice_deg_spec(a: int) -> int {
    let d = rad_to_deg(a);
    if d > 180_000_000 {
        d - 360_000_000
    } else {
        d
    }
}

/// The polar form of a zero magnitude is the zero vector, whatever the
/// direction.
pub proof fn lemma_polar_zero()
    ensures
        forall|a: int| #[trigger] polar_spec(0, a) == (Vector { x: 0, y: 0 }),
{
    assert forall|a: int| #[trigger] polar_spec(0, a) == (Vector { x: 0, y: 0 }) by {
        crate::fixed::lemma_tmul_zero(cos_spec(a));
        crate::fixed::lemma_tmul_zero(sin_spec(a));
    }
}

/// The unit vector of any direction has length one within about half a
/// percent: the fixed-point squares of its coordinates sum into a narrow
/// band around one unit. With the quadrant law below, this is the
/// quantitative half of direction reconstruction: scaling the unit vector
/// of `v.orientation()` by `|v|` reproduces `v`'s direction to that
/// tolerance.
pub proof fn lemma_unit_norm_band(a: int)
    requires
        0 <= a < TAU_FX as int,
    ensures
        993_000 <= tmul(polar_spec(SCALE as int, a).x as int, polar_spec(SCALE as int, a).x as int)
            + tmul(polar_spec(SCALE as int, a).y as int, polar_spec(SCALE as int, a).y as int)
            <= 1_002_000,
{
    crate::trig::lemma_sin_cos_band(a);
    crate::trig::lemma_trig_range(a);
    crate::fixed::lemma_tmul_unit(cos_spec(a));
    crate::fixed::lemma_tmul_unit(sin_spec(a));
}

/// The polar form of a non-negative magnitude points into the closed
/// quadrant of its orientation.
pub proof fn lemma_polar_quadrant(m: int, a: int)
    requires
        m >= 0,
        in_i64(m),
        0 <= a < TAU_FX as int,
    ensures
        a <= HALF_PI_FX as int ==> polar_spec(m, a).x >= 0 && polar_spec(m, a).y >= 0,
        HALF_PI_FX as int <= a <= PI_FX as int ==> polar_spec(m, a).x <= 0 && polar_spec(m, a).y
            >= 0,
        PI_FX as int <= a <= PI_FX as int + HALF_PI_FX as int ==> polar_spec(m, a).x <= 0
            && polar_spec(m, a).y <= 0,
        a >= PI_FX as int + HALF_PI_FX as int ==> polar_spec(m, a).x >= 0 && polar_spec(m, a).y
            <= 0,
{
    crate::trig::lemma_trig_range(a);
    lemma_tmul_small(m, cos_spec(a));
    lemma_tmul_small(m, sin_spec(a));
}

/// Orientation, unit direction and magnitude reconstruct any vector into
/// its own closed quadrant: the rebuilt vector never flips the sign of
/// either coordinate.
pub proof fn lemma_polar_reconstructs_quadrant(v: Vector)
    requires
        in_i64(mag_spec(v)),
    ensures
        v.x >= 0 && v.y >= 0 ==> polar_spec(mag_spec(v), atan2_spec(v.y as int, v.x as int)).x >= 0
            && polar_spec(mag_spec(v), atan2_spec(v.y as int, v.x as int)).y >= 0,
        v.x <= 0 && v.y >= 0 ==> polar_spec(mag_spec(v), atan2_spec(v.y as int, v.x as int)).x <= 0
            && polar_spec(mag_spec(v), atan2_spec(v.y as int, v.x as int)).y >= 0,
        v.x <= 0 && v.y <= 0 ==> polar_spec(mag_spec(v), atan2_spec(v.y as int, v.x as int)).x <= 0
            && polar_spec(mag_spec(v), atan2_spec(v.y as int, v.x as int)).y <= 0,
        v.x >= 0 && v.y <= 0 ==> polar_spec(mag_spec(v), atan2_spec(v.y as int, v.x as int)).x >= 0
            && polar_spec(mag_spec(v), atan2_spec(v.y as int, v.x as int)).y <= 0,
{
    let xi = v.x as int;
    let yi = v.y as int;
    let n = xi * xi + yi * yi;
    assert(xi * xi >= 0 && yi * yi >= 0 && (xi == 0 && yi == 0 ==> n == 0)) by (nonlinear_arith)
        requires
            n == xi * xi + yi * yi,
    ;
    lemma_sqrt_floor(n);
    let m = mag_spec(v);
    crate::trig::lemma_atan2_range(yi, xi);
    lemma_polar_quadrant(m, atan2_spec(yi, xi));
    if atan2_spec(yi, xi) == 0 {
        // a shallow direction rounds to phase zero, whose sine is zero
        crate::trig::lemma_trig_landmarks();
        crate::fixed::lemma_tmul_zero(m);
    }
    if xi == 0 && yi == 0 {
        assert(m == 0);
        lemma_polar_zero();
    }
}

/// Orientation, unit vector and magnitude reconstruct an axis-aligned
/// vector exactly: the polar form of `(|v|, atan2(v))` is `v` itself on all
/// four half-axes.
pub proof fn lemma_polar_reconstructs_axes(v: Vector)
    requires
        v.x == 0 || v.y == 0,
    ensures
        polar_spec(mag_spec(v), atan2_spec(v.y as int, v.x as int)) == v,
{
    crate::trig::lemma_trig_landmarks();
    let xi = v.x as int;
    let yi = v.y as int;
    let s = SCALE as int;
    assert(abs_int(xi) * abs_int(xi) == xi * xi && xi * xi < (abs_int(xi) + 1) * (abs_int(xi) + 1)
        && abs_int(yi) * abs_int(yi) == yi * yi && yi * yi < (abs_int(yi) + 1) * (abs_int(yi) + 1))
        by (nonlinear_arith)
        requires
            abs_int(xi) == if xi >= 0 {
                xi
            } else {
                -xi
            },
            abs_int(yi) == if yi >= 0 {
                yi
            } else {
                -yi
            },
    ;
    if v.y == 0 {
        assert(yi * yi == 0) by (nonlinear_arith)
            requires
                yi == 0,
        ;
        lemma_sqrt_unique(xi * xi + yi * yi, abs_int(xi));
        let m = mag_spec(v);
        assert(m == abs_int(xi));
        if v.x >= 0 {
            crate::fixed::lemma_tmul_unit(m);
            crate::fixed::lemma_tmul_zero(m);
        } else {
            crate::fixed::lemma_tmul_neg_unit(m);
            crate::fixed::lemma_tmul_zero(m);
        }
    } else {
        assert(xi * xi == 0) by (nonlinear_arith)
            requires
                xi == 0,
        ;
        lemma_sqrt_unique(xi * xi + yi * yi, abs_int(yi));
        let m = mag_spec(v);
        assert(m == abs_int(yi));
        if v.y > 0 {
            crate::fixed::lemma_tmul_unit(m);
            crate::fixed::lemma_tmul_zero(m);
        } else {
            crate::fixed::lemma_tmul_neg_unit(m);
            crate::fixed::lemma_tmul_zero(m);
        }
    }
}

} // verus!
