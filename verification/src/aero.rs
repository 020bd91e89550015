//! Aerofoil force model and vehicle dynamics.
//!
//! An aerofoil turns the owning vehicle's kinematic state into lift, drag
//! and a pitching moment, through its coefficient tables indexed by the
//! angle of attack in degrees. A vehicle combines a wing and an elevator
//! with gravity and thrust into net force and moment, and advances its
//! rate and pose by the Runge-Kutta integrator.
//!
//! Every force path is checked arithmetic: each function returns `None`
//! exactly when its `..._fits` predicate fails, and otherwise exactly the
//! value of its spec function.

use vstd::prelude::*;
use crate::fixed::{SCALE, in_i64, tdiv, tmul, fdiv, fx_add, fx_sub, fx_mul, fx_div};
use crate::fixed::{lemma_tdiv_cap, lemma_tmul_small, lemma_tmul_zero};
use crate::geom::{
    Vector, Angle, Kinematics, norm_angle, rad_to_deg, polar_spec, mag_spec, cross_spec,
    cross_fits, dot_spec, dot_fits, lemma_polar_zero,
};
use crate::trig::{PI_FX, HALF_PI_FX, atan2_spec};
use crate::interpolate::{Linear, interp_spec, interp_fits};
use crate::atmosphere::{atmo_ratio_spec, atmo_density, ALT_MIN_FX};
use crate::rk4::{State, Deriv, rk4, rk4_ok, rk4_spec, HALF_FX};
use vstd::arithmetic::div_mod::lemma_div_pos_is_pos;

verus! {

/// Standard gravity, millionths of a metre per second squared.
pub const G_FX: i64 = 9_810_000;

/// How thrust is produced: a fixed magnitude along the body axis, or — the
/// control-augmented variant — a magnitude chosen to cancel the component
/// of the net aerodynamic force tangential to the velocity direction,
/// pointed against that component.
#[derive(Clone, Copy, PartialEq, Eq, Structural, Debug)]
pub enum Thrust {
    Fixed(i64),
    CancelTangential,
}

/// A lifting surface: area, chord, a pitch offset for control deflection,
/// and shared references to its three coefficient tables.
pub struct Aerofoil<'a> {
    pub area: i64,
    pub chord: i64,
    pub pitch: Angle,
    pub cl: &'a Linear,
    pub cd: &'a Linear,
    pub cm: &'a Linear,
}

impl<'a> Clone for Aerofoil<'a> {
    fn clone(&self) -> (r: Self)
        ensures
            r == *self,
    {
        Aerofoil {
            area: self.area,
            chord: self.chord,
            pitch: self.pitch,
            cl: self.cl,
            cd: self.cd,
            cm: self.cm,
        }
    }
}

impl<'a> Copy for Aerofoil<'a> {

}

/// Angle of attack of an aerofoil on a vehicle: body orientation plus pitch
/// offset, minus the free-stream direction.
pub open spec fn aoa_spec(a: Aerofoil, k: Kinematics, dk: Kinematics) -> int {
    let body = norm_angle(k.ang as int);
    let pitched = norm_angle(body + a.pitch@);
    norm_angle(pitched - atan2_spec(dk.vec.y as int, dk.vec.x as int))
}

/// Dynamic pressure: half the normalized density at the vehicle's altitude
/// times the squared speed.
pub open spec fn q_spec(k: Kinematics, dk: Kinematics) -> int {
    let msq = tmul(mag_spec(dk.vec), mag_spec(dk.vec));
    tmul(msq, tmul(HALF_FX as int, atmo_ratio_spec(k.vec.y as int)))
}

/// Whether the dynamic pressure is defined: altitude above the atmosphere
/// model's floor and the squared speed in range.
pub open spec fn q_fits(k: Kinematics, dk: Kinematics) -> bool {
    k.vec.y >= ALT_MIN_FX && in_i64(tmul(mag_spec(dk.vec), mag_spec(dk.vec)))
}

/// Lift (or drag) coefficient of an aerofoil at the current angle of
/// attack, read from a table in degrees.
pub open spec fn coef_spec(t: Seq<(i64, i64)>, a: Aerofoil, k: Kinematics, dk: Kinematics) -> int {
    interp_spec(t, rad_to_deg(aoa_spec(a, k, dk)))
}

/// Magnitude of an aerodynamic force: area times coefficient times dynamic
/// pressure.
pub open spec fn force_mag_spec(t: Seq<(i64, i64)>, a: Aerofoil, k: Kinematics, dk: Kinematics) -> int {
    tmul(tmul(a.area as int, coef_spec(t, a, k, dk)), q_spec(k, dk))
}

/// Whether an aerodynamic force magnitude is defined and in range.
pub open spec fn force_mag_fits(t: Seq<(i64, i64)>, a: Aerofoil, k: Kinematics, dk: Kinematics) -> bool {
    let c = coef_spec(t, a, k, dk);
    &&& q_fits(k, dk)
    &&& interp_fits(t, rad_to_deg(aoa_spec(a, k, dk)))
    &&& in_i64(tmul(a.area as int, c))
    &&& in_i64(force_mag_spec(t, a, k, dk))
    &&& force_mag_spec(t, a, k, dk) > i64::MIN
}

/// The lift force: normal to the direction of motion.
pub open spec fn lift_spec(a: Aerofoil, k: Kinematics, dk: Kinematics) -> Vector {
    let dir = atan2_spec(dk.vec.y as int, dk.vec.x as int);
    polar_spec(force_mag_spec(a.cl@, a, k, dk), norm_angle(dir + HALF_PI_FX as int))
}

/// The drag force: against the direction of motion.
pub open spec fn drag_spec(a: Aerofoil, k: Kinematics, dk: Kinematics) -> Vector {
    let dir = atan2_spec(dk.vec.y as int, dk.vec.x as int);
    polar_spec(force_mag_spec(a.cd@, a, k, dk), norm_angle(dir + PI_FX as int))
}

/// The pitching moment: a free moment, force magnitude times chord.
pub open spec fn moment_spec(a: Aerofoil, k: Kinematics, dk: Kinematics) -> int {
    tmul(force_mag_spec(a.cm@, a, k, dk), a.chord as int)
}

/// Whether the pitching moment is defined and in range.
pub open spec fn moment_fits(a: Aerofoil, k: Kinematics, dk: Kinematics) -> bool {
    force_mag_fits(a.cm@, a, k, dk) && in_i64(moment_spec(a, k, dk))
}

impl<'a> Aerofoil<'a> {
    /// An aerofoil from its geometry, pitch offset and coefficient tables.
    pub fn new(area: i64, chord: i64, pitch: Angle, cl: &'a Linear, cd: &'a Linear, cm: &'a Linear)
        -> (a: Aerofoil<'a>)
        ensures
            a.area == area,
            a.chord == chord,
            a.pitch == pitch,
            a.cl == cl,
            a.cd == cd,
            a.cm == cm,
    {
        Aerofoil { area, chord, pitch, cl, cd, cm }
    }

    /// Deflect the control surface: replace the pitch offset.
    pub fn set_pitch(&mut self, pitch: Angle)
        ensures
            final(self).pitch == pitch,
            final(self).area == old(self).area,
            final(self).chord == old(self).chord,
            final(self).cl == old(self).cl,
            final(self).cd == old(self).cd,
            final(self).cm == old(self).cm,
    {
        self.pitch = pitch;
    }

    /// Angle of attack relative to the body state `k` and rate `dk`.
    pub fn aoa(&self, k: &Kinematics, dk: &Kinematics) -> (r: Angle)
        ensures
            r@ == aoa_spec(*self, *k, *dk),
    {
        let body = k.angle();
        let pitched = body.add(self.pitch);
        pitched.sub(dk.direction())
    }

    /// Dynamic pressure from altitude and speed: non-negative, zero at zero
    /// speed.
    pub fn dyn_pressure(&self, k: &Kinematics, dk: &Kinematics) -> (r: Option<i64>)
        ensures
            r == if q_fits(*k, *dk) {
                Some(q_spec(*k, *dk) as i64)
            } else {
                None::<i64>
            },
            q_fits(*k, *dk) ==> 0 <= q_spec(*k, *dk) <= i64::MAX,
    {
        if k.vec.y < ALT_MIN_FX {
            return None;
        }
        let rho = atmo_density(k.vec.y);
        proof {
            lemma_tdiv_cap((HALF_FX as int) * (rho as int), SCALE as int, 900_000);
            assert(0 <= (HALF_FX as int) * (rho as int) <= 900_000i64 as int * 1_000_000)
                by (nonlinear_arith)
                requires
                    0 <= rho as int <= 1_800_000,
                    HALF_FX as int == 500_000,
            ;
            lemma_div_pos_is_pos((HALF_FX as int) * (rho as int), SCALE as int);
        }
        let halfrho = crate::fixed::fx_mul_total(HALF_FX, rho);
        let m = dk.vec.magnitude();
        proof {
            let mi = m as int;
            assert(0 <= mi * mi <= 340_282_366_920_938_463_463_374_607_431_768_211_455u128 as int)
                by (nonlinear_arith)
                requires
                    0 <= mi <= 18_446_744_073_709_551_615u64 as int,
            ;
        }
        let msq_wide: u128 = ((m as u128) * (m as u128)) / 1_000_000;
        if msq_wide > i64::MAX as u128 {
            return None;
        }
        let msq = msq_wide as i64;
        proof {
            lemma_tmul_small(msq as int, halfrho as int);
        }
        Some(crate::fixed::fx_mul_total(msq, halfrho))
    }

    /// The lift force: area times lift coefficient times dynamic pressure,
    /// normal to the direction of motion. Zero speed gives zero force.
    pub fn lift_force(&self, k: &Kinematics, dk: &Kinematics) -> (r: Option<Vector>)
        ensures
            r == if force_mag_fits(self.cl@, *self, *k, *dk) {
                Some(lift_spec(*self, *k, *dk))
            } else {
                None::<Vector>
            },
    {
        let dir = dk.direction();
        let mag = self.force_mag(self.cl, k, dk)?;
        Some(Vector::from_radians(mag, dir.rad() + HALF_PI_FX))
    }

    /// The drag force: area times drag coefficient times dynamic pressure,
    /// against the direction of motion.
    pub fn drag_force(&self, k: &Kinematics, dk: &Kinematics) -> (r: Option<Vector>)
        ensures
            r == if force_mag_fits(self.cd@, *self, *k, *dk) {
                Some(drag_spec(*self, *k, *dk))
            } else {
                None::<Vector>
            },
    {
        let dir = dk.direction();
        let mag = self.force_mag(self.cd, k, dk)?;
        Some(Vector::from_radians(mag, dir.rad() + PI_FX))
    }

    /// The pitching moment: force magnitude from the moment table times the
    /// chord; a free moment with no line of action.
    pub fn pitching_moment(&self, k: &Kinematics, dk: &Kinematics) -> (r: Option<i64>)
        ensures
            r == if moment_fits(*self, *k, *dk) {
                Some(moment_spec(*self, *k, *dk) as i64)
            } else {
                None::<i64>
            },
    {
        let mag = self.force_mag(self.cm, k, dk)?;
        fx_mul(mag, self.chord)
    }

    /// Magnitude of an aerodynamic force from one coefficient table.
    fn force_mag(&self, t: &Linear, k: &Kinematics, dk: &Kinematics) -> (r: Option<i64>)
        ensures
            r == if force_mag_fits(t@, *self, *k, *dk) {
                Some(force_mag_spec(t@, *self, *k, *dk) as i64)
            } else {
                None::<i64>
            },
            r is Some ==> force_mag_spec(t@, *self, *k, *dk) > i64::MIN,
    {
        let a = self.aoa(k, dk);
        let c = t.interpolate(a.deg())?;
        let q = self.dyn_pressure(k, dk)?;
        let ac = fx_mul(self.area, c)?;
        let m = fx_mul(ac, q)?;
        if m == i64::MIN {
            return None;
        }
        Some(m)
    }
}

/// A planar rigid vehicle: mass, length, the derived moment of inertia of
/// a uniform rod, a pose, a rate, two aerofoils, and a thrust law.
pub struct Vehicle<'a> {
    pub mass: i64,
    pub length: i64,
    pub moment: i64,
    pub position: Kinematics,
    pub motion: Kinematics,
    pub wing: Aerofoil<'a>,
    pub elev: Aerofoil<'a>,
    pub thrust: Thrust,
}

impl<'a> Clone for Vehicle<'a> {
    fn clone(&self) -> (r: Self)
        ensures
            r == *self,
    {
        Vehicle {
            mass: self.mass,
            length: self.length,
            moment: self.moment,
            position: self.position,
            motion: self.motion,
            wing: self.wing,
            elev: self.elev,
            thrust: self.thrust,
        }
    }
}

impl<'a> Copy for Vehicle<'a> {

}

/// Moment of inertia of a uniform rod about its centre.
pub open spec fn rod_moment_spec(mass: int, length: int) -> int {
    tdiv(tmul(mass, tmul(length, length)), 12)
}

/// Whether a vehicle can be built: positive mass, non-negative length, and
/// the inertia arithmetic in range.
pub open spec fn vehicle_fits(mass: int, length: int) -> bool {
    &&& mass > 0
    &&& length >= 0
    &&& in_i64(tmul(length, length))
    &&& in_i64(tmul(mass, tmul(length, length)))
}

/// Net aerodynamic force of both surfaces: wing lift and drag plus
/// elevator lift and drag.
pub open spec fn aero_force_spec(v: Vehicle, k: Kinematics, dk: Kinematics) -> Vector {
    let fw = lift_spec(v.wing, k, dk).plus_spec(drag_spec(v.wing, k, dk));
    let fe = lift_spec(v.elev, k, dk).plus_spec(drag_spec(v.elev, k, dk));
    fw.plus_spec(fe)
}

/// Whether the net aerodynamic force is defined and in range.
pub open spec fn aero_force_fits(v: Vehicle, k: Kinematics, dk: Kinematics) -> bool {
    let lw = lift_spec(v.wing, k, dk);
    let dw = drag_spec(v.wing, k, dk);
    let le = lift_spec(v.elev, k, dk);
    let de = drag_spec(v.elev, k, dk);
    &&& force_mag_fits(v.wing.cl@, v.wing, k, dk)
    &&& force_mag_fits(v.wing.cd@, v.wing, k, dk)
    &&& force_mag_fits(v.elev.cl@, v.elev, k, dk)
    &&& force_mag_fits(v.elev.cd@, v.elev, k, dk)
    &&& lw.can_plus(dw)
    &&& le.can_plus(de)
    &&& lw.plus_spec(dw).can_plus(le.plus_spec(de))
}

/// Elevator force alone: its lift plus its drag.
pub open spec fn elev_force_spec(v: Vehicle, k: Kinematics, dk: Kinematics) -> Vector {
    lift_spec(v.elev, k, dk).plus_spec(drag_spec(v.elev, k, dk))
}

/// The thrust vector: either the fixed magnitude along the body axis, or
/// the free-stream unit vector scaled to cancel the tangential component
/// of the net aerodynamic force.
pub open spec fn thrust_spec(v: Vehicle, k: Kinematics, dk: Kinematics) -> Vector {
    match v.thrust {
        Thrust::Fixed(m) => polar_spec(m as int, norm_angle(k.ang as int)),
        Thrust::CancelTangential => {
            let fsu = polar_spec(SCALE as int, atan2_spec(dk.vec.y as int, dk.vec.x as int));
            fsu.times_spec((0 - dot_spec(fsu, aero_force_spec(v, k, dk))) as i64)
        },
    }
}

/// Whether the thrust vector is defined and in range.
pub open spec fn thrust_fits(v: Vehicle, k: Kinematics, dk: Kinematics) -> bool {
    match v.thrust {
        Thrust::Fixed(m) => m > i64::MIN,
        Thrust::CancelTangential => {
            let fsu = polar_spec(SCALE as int, atan2_spec(dk.vec.y as int, dk.vec.x as int));
            let comp = dot_spec(fsu, aero_force_spec(v, k, dk));
            dot_fits(fsu, aero_force_spec(v, k, dk)) && in_i64(0 - comp) && fsu.can_times(
                (0 - comp) as i64,
            )
        },
    }
}

/// The weight vector: mass times standard gravity, straight down.
pub open spec fn weight_spec(v: Vehicle) -> Vector {
    Vector { x: 0, y: (0 - tmul(v.mass as int, G_FX as int)) as i64 }
}

/// Position of the elevator: half the vehicle length behind the nose along
/// the body axis.
pub open spec fn lever_spec(v: Vehicle, k: Kinematics) -> Vector {
    polar_spec(tdiv(v.length as int, 2), norm_angle(norm_angle(k.ang as int) + PI_FX as int))
}

/// Net force on the vehicle: aerodynamic forces, thrust, and weight.
pub open spec fn net_force_spec(v: Vehicle, k: Kinematics, dk: Kinematics) -> Vector {
    aero_force_spec(v, k, dk).plus_spec(thrust_spec(v, k, dk)).plus_spec(weight_spec(v))
}

/// Net moment on the vehicle: both pitching moments plus the elevator
/// force crossed with its lever arm.
pub open spec fn net_moment_spec(v: Vehicle, k: Kinematics, dk: Kinematics) -> int {
    moment_spec(v.wing, k, dk) + moment_spec(v.elev, k, dk) + cross_spec(
        lever_spec(v, k),
        elev_force_spec(v, k, dk),
    )
}

/// Acceleration of the vehicle: net force over mass, net moment over the
/// moment of inertia.
pub open spec fn accel_spec(v: Vehicle, k: Kinematics, dk: Kinematics) -> Kinematics {
    let f = net_force_spec(v, k, dk);
    Kinematics {
        vec: f.over_spec(v.mass),
        ang: fdiv(net_moment_spec(v, k, dk), v.moment as int) as i64,
    }
}

/// Whether the whole dynamics computation is defined and in range.
pub open spec fn dyn_fits(v: Vehicle, k: Kinematics, dk: Kinematics) -> bool {
    let fa = aero_force_spec(v, k, dk);
    let f = net_force_spec(v, k, dk);
    let mw = moment_spec(v.wing, k, dk);
    let me = moment_spec(v.elev, k, dk);
    let cr = cross_spec(lever_spec(v, k), elev_force_spec(v, k, dk));
    &&& aero_force_fits(v, k, dk)
    &&& thrust_fits(v, k, dk)
    &&& in_i64(tmul(v.mass as int, G_FX as int))
    &&& in_i64(0 - tmul(v.mass as int, G_FX as int))
    &&& fa.can_plus(thrust_spec(v, k, dk))
    &&& fa.plus_spec(thrust_spec(v, k, dk)).can_plus(weight_spec(v))
    &&& moment_fits(v.wing, k, dk)
    &&& moment_fits(v.elev, k, dk)
    &&& v.length >= 0
    &&& cross_fits(lever_spec(v, k), elev_force_spec(v, k, dk))
    &&& in_i64(mw + me)
    &&& in_i64(mw + me + cr)
    &&& f.can_over(v.mass)
    &&& v.moment != 0
    &&& in_i64(fdiv(mw + me + cr, v.moment as int))
}

impl<'a> Vehicle<'a> {
    /// A vehicle from its parameters: `None` when the mass is not positive,
    /// the length negative, or the rod inertia out of range.
    pub fn new(
        mass: i64,
        length: i64,
        position: Kinematics,
        motion: Kinematics,
        wing: Aerofoil<'a>,
        elev: Aerofoil<'a>,
        thrust: Thrust,
    ) -> (r: Option<Vehicle<'a>>)
        ensures
            r == if vehicle_fits(mass as int, length as int) {
                Some(
                    (Vehicle {
                        mass,
                        length,
                        moment: rod_moment_spec(mass as int, length as int) as i64,
                        position,
                        motion,
                        wing,
                        elev,
                        thrust,
                    }),
                )
            } else {
                None::<Vehicle<'a>>
            },
    {
        if mass <= 0 || length < 0 {
            return None;
        }
        let ll = fx_mul(length, length)?;
        let mll = fx_mul(mass, ll)?;
        proof {
            crate::fixed::lemma_tdiv_bounds(mll as int, 12);
        }
        let moment = mll / 12;
        Some(Vehicle { mass, length, moment, position, motion, wing, elev, thrust })
    }

    /// Angle of attack of the body: orientation minus direction of motion.
    pub fn aoa(&self) -> (r: Angle)
        ensures
            r@ == norm_angle(
                norm_angle(self.position.ang as int) - atan2_spec(
                    self.motion.vec.y as int,
                    self.motion.vec.x as int,
                ),
            ),
    {
        let body = self.position.angle();
        body.sub(self.motion.direction())
    }

    /// Net force and moment turned into linear and angular acceleration,
    /// at pose `k` and rate `dk`.
    pub fn calculate_dynamics(&self, k: &Kinematics, dk: &Kinematics) -> (r: Option<Kinematics>)
        ensures
            r == if dyn_fits(*self, *k, *dk) {
                Some(accel_spec(*self, *k, *dk))
            } else {
                None::<Kinematics>
            },
    {
        let lw = self.wing.lift_force(k, dk)?;
        let dw = self.wing.drag_force(k, dk)?;
        let le = self.elev.lift_force(k, dk)?;
        let de = self.elev.drag_force(k, dk)?;
        let fw = lw.add(dw)?;
        let fe = le.add(de)?;
        let fa = fw.add(fe)?;
        let body = k.angle();
        let t = match self.thrust {
            Thrust::Fixed(m) => {
                if m == i64::MIN {
                    return None;
                }
                Vector::from_radians(m, body.rad())
            },
            Thrust::CancelTangential => {
                let fsu = dk.direction().unit();
                let comp = fsu.dot(fa)?;
                let neg = fx_sub(0, comp)?;
                fsu.scale(neg)?
            },
        };
        let wmag = fx_mul(self.mass, G_FX)?;
        let nwmag = fx_sub(0, wmag)?;
        let w = Vector::new(0, nwmag);
        let f = fa.add(t)?.add(w)?;
        let mw = self.wing.pitching_moment(k, dk)?;
        let me = self.elev.pitching_moment(k, dk)?;
        if self.length < 0 {
            return None;
        }
        proof {
            crate::fixed::lemma_tdiv_bounds(self.length as int, 2);
        }
        let re = Vector::from_radians(self.length / 2, body.rad() + PI_FX);
        let cr = re.cross(fe)?;
        let m1 = fx_add(mw, me)?;
        let m = fx_add(m1, cr)?;
        let av = f.over(self.mass)?;
        let aa = fx_div(m, self.moment)?;
        Some(Kinematics { vec: av, ang: aa })
    }

    /// One Runge-Kutta step of size `h`: rate first, from the acceleration
    /// at the current pose, then pose, from the updated rate held constant
    /// over the step. On arithmetic failure the vehicle is unchanged.
    pub fn step(&mut self, h: i64) -> (r: bool)
        ensures
            r == step_ok(*old(self), h),
            r ==> *final(self) == step_spec(*old(self), h),
            !r ==> *final(self) == *old(self),
    {
        proof {
            reveal(step_ok);
            reveal(step_spec);
        }
        let f = VehicleAccel { veh: *self };
        let m2o = rk4(&f, self.motion, 0, h);
        let m2 = match m2o {
            Some(v) => v,
            None => {
                return false;
            },
        };
        let g = ConstKin { c: m2 };
        let p2o = rk4(&g, self.position, 0, h);
        let p2 = match p2o {
            Some(v) => v,
            None => {
                return false;
            },
        };
        self.motion = m2;
        self.position = p2;
        true
    }

    /// Advance the vehicle over a span `dt`, split into `substeps` equal
    /// Runge-Kutta steps. All-or-nothing: on arithmetic failure the vehicle
    /// is restored unchanged and the call reports `false`.
    pub fn apply_dynamics(&mut self, dt: i64, substeps: u16) -> (r: bool)
        requires
            substeps >= 1,
        ensures
            r == advance_ok(*old(self), tdiv(dt as int, substeps as int) as i64, substeps as nat),
            r ==> *final(self) == advance_spec(
                *old(self),
                tdiv(dt as int, substeps as int) as i64,
                substeps as nat,
            ),
            !r ==> *final(self) == *old(self),
    {
        let h = dt / (substeps as i64);
        let saved_pos = self.position;
        let saved_mot = self.motion;
        let ghost v0 = *self;
        let mut i: u16 = 0;
        while i < substeps
            invariant
                0 <= i <= substeps,
                v0 == *old(self),
                h == tdiv(dt as int, substeps as int),
                advance_ok(v0, h, i as nat),
                *self == advance_spec(v0, h, i as nat),
                saved_pos == v0.position,
                saved_mot == v0.motion,
            decreases substeps - i,
        {
            let ok = self.step(h);
            if !ok {
                proof {
                    lemma_advance_fields(v0, h, i as nat);
                    lemma_advance_blocked(v0, h, i as nat, substeps as nat);
                }
                self.position = saved_pos;
                self.motion = saved_mot;
                proof {
                    assert(*self == v0);
                }
                return false;
            }
            proof {
                lemma_advance_snoc(v0, h, i as nat);
            }
            i = i + 1;
        }
        true
    }

    /// Proportional pitch trim: nudge the elevator pitch by `gain` times
    /// the signed degree error between the body orientation and the
    /// reversed net aerodynamic force direction. On arithmetic failure the
    /// vehicle is unchanged.
    pub fn trim_elevator(&mut self, gain: i64) -> (r: bool)
        ensures
            r == trim_ok(*old(self), gain),
            r ==> final(self).elev.pitch@ == trim_pitch_spec(*old(self), gain),
            r ==> *final(self) == trimmed_spec(*old(self), gain),
            !r ==> *final(self) == *old(self),
    {
        let k = self.position;
        let dk = self.motion;
        let lw = match self.wing.lift_force(&k, &dk) {
            Some(v) => v,
            None => {
                return false;
            },
        };
        let dw = match self.wing.drag_force(&k, &dk) {
            Some(v) => v,
            None => {
                return false;
            },
        };
        let le = match self.elev.lift_force(&k, &dk) {
            Some(v) => v,
            None => {
                return false;
            },
        };
        let de = match self.elev.drag_force(&k, &dk) {
            Some(v) => v,
            None => {
                return false;
            },
        };
        let fw = match lw.add(dw) {
            Some(v) => v,
            None => {
                return false;
            },
        };
        let fe = match le.add(de) {
            Some(v) => v,
            None => {
                return false;
            },
        };
        let fa = match fw.add(fe) {
            Some(v) => v,
            None => {
                return false;
            },
        };
        let nx = match fx_sub(0, fa.x()) {
            Some(v) => v,
            None => {
                return false;
            },
        };
        let ny = match fx_sub(0, fa.y()) {
            Some(v) => v,
            None => {
                return false;
            },
        };
        let target = Vector::new(nx, ny).orientation();
        let err = self.position.angle().sub(target).nice_deg();
        let delta = match fx_mul(gain, err) {
            Some(v) => v,
            None => {
                return false;
            },
        };
        let np = self.elev.pitch.add(Angle::from_degrees(delta));
        self.elev.set_pitch(np);
        proof {
            crate::geom::lemma_spec_angle(trim_pitch_spec(*old(self), gain));
            crate::geom::lemma_angle_eq(
                np,
                crate::geom::spec_angle(trim_pitch_spec(*old(self), gain)),
            );
        }
        true
    }
}

/// Derivative of the rate: the vehicle's acceleration, at its current pose,
/// as a function of a candidate rate.
pub struct VehicleAccel<'a> {
    pub veh: Vehicle<'a>,
}

impl<'a> Deriv<Kinematics> for VehicleAccel<'a> {
    open spec fn ok(&self, t: i64, x: Kinematics) -> bool {
        dyn_fits(self.veh, self.veh.position, x)
    }

    open spec fn at(&self, t: i64, x: Kinematics) -> Kinematics {
        accel_spec(self.veh, self.veh.position, x)
    }

    fn eval(&self, t: i64, x: Kinematics) -> (r: Option<Kinematics>) {
        self.veh.calculate_dynamics(&self.veh.position, &x)
    }
}

/// Constant kinematic derivative: a rate held fixed while the pose
/// advances.
pub struct ConstKin {
    pub c: Kinematics,
}

impl Deriv<Kinematics> for ConstKin {
    open spec fn ok(&self, t: i64, x: Kinematics) -> bool {
        true
    }

    open spec fn at(&self, t: i64, x: Kinematics) -> Kinematics {
        self.c
    }

    fn eval(&self, t: i64, x: Kinematics) -> (r: Option<Kinematics>) {
        Some(self.c)
    }
}

/// Whether one whole step is defined: both integrations in range.
#[verifier::opaque]
pub open spec fn step_ok(v: Vehicle, h: i64) -> bool {
    let f = VehicleAccel { veh: v };
    &&& rk4_ok(&f, v.motion, 0, h)
    &&& rk4_ok(&(ConstKin { c: rk4_spec(&f, v.motion, 0, h) }), v.position, 0, h)
}

/// One whole step: the new rate from the acceleration, the new pose from
/// the new rate.
#[verifier::opaque]
pub open spec fn step_spec(v: Vehicle, h: i64) -> Vehicle {
    let f = VehicleAccel { veh: v };
    let m2 = rk4_spec(&f, v.motion, 0, h);
    let p2 = rk4_spec(&(ConstKin { c: m2 }), v.position, 0, h);
    Vehicle {
        mass: v.mass,
        length: v.length,
        moment: v.moment,
        position: p2,
        motion: m2,
        wing: v.wing,
        elev: v.elev,
        thrust: v.thrust,
    }
}

/// Whether `n` successive steps are all defined.
pub open spec fn advance_ok(v: Vehicle, h: i64, n: nat) -> bool
    decreases n,
{
    n == 0 || (step_ok(v, h) && advance_ok(step_spec(v, h), h, (n - 1) as nat))
}

/// The state after `n` successive steps.
pub open spec fn advance_spec(v: Vehicle, h: i64, n: nat) -> Vehicle
    decreases n,
{
    if n == 0 {
        v
    } else {
        advance_spec(step_spec(v, h), h, (n - 1) as nat)
    }
}

/// One step changes only the pose and the rate.
pub proof fn lemma_step_fields(v: Vehicle, h: i64)
    ensures
        step_spec(v, h).mass == v.mass,
        step_spec(v, h).length == v.length,
        step_spec(v, h).moment == v.moment,
        step_spec(v, h).wing == v.wing,
        step_spec(v, h).elev == v.elev,
        step_spec(v, h).thrust == v.thrust,
{
    reveal(step_spec);
}

/// Advancing changes only the pose and the rate.
pub proof fn lemma_advance_fields(v: Vehicle, h: i64, n: nat)
    ensures
        advance_spec(v, h, n).mass == v.mass,
        advance_spec(v, h, n).length == v.length,
        advance_spec(v, h, n).moment == v.moment,
        advance_spec(v, h, n).wing == v.wing,
        advance_spec(v, h, n).elev == v.elev,
        advance_spec(v, h, n).thrust == v.thrust,
    decreases n,
{
    if n > 0 {
        lemma_step_fields(v, h);
        lemma_advance_fields(step_spec(v, h), h, (n - 1) as nat);
    }
}

/// Appending one more step to an advance.
pub proof fn lemma_advance_snoc(v: Vehicle, h: i64, n: nat)
    requires
        advance_ok(v, h, n),
        step_ok(advance_spec(v, h, n), h),
    ensures
        advance_ok(v, h, n + 1),
        advance_spec(v, h, n + 1) == step_spec(advance_spec(v, h, n), h),
    decreases n,
{
    assert(advance_spec(v, h, n + 1) == advance_spec(step_spec(v, h), h, n));
    assert(advance_ok(v, h, n + 1) == (step_ok(v, h) && advance_ok(step_spec(v, h), h, n)));
    if n == 0 {
        assert(advance_spec(v, h, 0) == v);
        assert(advance_spec(step_spec(v, h), h, 0) == step_spec(v, h));
        assert(advance_ok(step_spec(v, h), h, 0));
    } else {
        lemma_advance_snoc(step_spec(v, h), h, (n - 1) as nat);
        assert(advance_spec(v, h, n) == advance_spec(step_spec(v, h), h, (n - 1) as nat));
        assert(advance_ok(v, h, n) == (step_ok(v, h) && advance_ok(step_spec(v, h), h, (n - 1) as nat)));
    }
}

/// A failing step inside the span blocks the whole advance.
pub proof fn lemma_advance_blocked(v: Vehicle, h: i64, i: nat, n: nat)
    requires
        advance_ok(v, h, i),
        !step_ok(advance_spec(v, h, i), h),
        i < n,
    ensures
        !advance_ok(v, h, n),
    decreases i,
{
    if i > 0 {
        lemma_advance_blocked(step_spec(v, h), h, (i - 1) as nat, (n - 1) as nat);
    }
}

/// Whether the trim computation is defined and in range.
pub open spec fn trim_ok(v: Vehicle, gain: i64) -> bool {
    let fa = aero_force_spec(v, v.position, v.motion);
    &&& aero_force_fits(v, v.position, v.motion)
    &&& in_i64(0 - fa.x)
    &&& in_i64(0 - fa.y)
    &&& in_i64(tmul(gain as int, trim_err_spec(v)))
}

/// Signed degree error between the body orientation and the reversed net
/// aerodynamic force direction.
pub open spec fn trim_err_spec(v: Vehicle) -> int {
    let fa = aero_force_spec(v, v.position, v.motion);
    let target = atan2_spec(0 - fa.y, 0 - fa.x);
    crate::geom::nice_deg_spec(norm_angle(norm_angle(v.position.ang as int) - target))
}

/// The trimmed elevator pitch: the old pitch nudged by `gain` times the
/// error, in degrees.
pub open spec fn trim_pitch_spec(v: Vehicle, gain: i64) -> int {
    let delta = tmul(gain as int, trim_err_spec(v));
    norm_angle(v.elev.pitch@ + norm_angle(crate::geom::deg_to_rad(delta)))
}

/// The vehicle after a proportional pitch trim: the elevator pitch offset
/// replaced, everything else unchanged.
pub open spec fn trimmed_spec(v: Vehicle, gain: i64) -> Vehicle {
    Vehicle {
        mass: v.mass,
        length: v.length,
        moment: v.moment,
        position: v.position,
        motion: v.motion,
        wing: v.wing,
        elev: Aerofoil {
            area: v.elev.area,
            chord: v.elev.chord,
            pitch: crate::geom::spec_angle(trim_pitch_spec(v, gain)),
            cl: v.elev.cl,
            cd: v.elev.cd,
            cm: v.elev.cm,
        },
        thrust: v.thrust,
    }
}

/// With both aerofoil areas zero and no thrust, the vehicle is a pure
/// ballistic body: the model acceleration is standard gravity straight
/// down, with no angular acceleration.
pub proof fn lemma_ballistic_accel(v: Vehicle, k: Kinematics, dk: Kinematics)
    requires
        v.wing.area == 0,
        v.elev.area == 0,
        v.thrust == Thrust::Fixed(0),
        v.mass > 0,
        v.moment > 0,
        (v.mass as int * (G_FX as int)) % (SCALE as int) == 0,
        in_i64(tmul(v.mass as int, G_FX as int)),
    ensures
        accel_spec(v, k, dk).vec.x == 0,
        accel_spec(v, k, dk).vec.y == -G_FX,
        accel_spec(v, k, dk).ang == 0,
{
    let s = SCALE as int;
    let mg = tmul(v.mass as int, G_FX as int);
    lemma_zero_force_mag(v.wing, k, dk);
    lemma_zero_force_mag(v.elev, k, dk);
    lemma_polar_zero();
    lemma_tmul_zero(v.wing.chord as int);
    lemma_tmul_zero(v.elev.chord as int);
    let lv = lever_spec(v, k);
    lemma_tmul_zero(lv.x as int);
    lemma_tmul_zero(lv.y as int);
    assert(cross_spec(lv, elev_force_spec(v, k, dk)) == 0);
    // the weight is the only force; dividing restores standard gravity
    assert(v.mass as int * (G_FX as int) >= 0) by (nonlinear_arith)
        requires
            v.mass as int > 0,
            G_FX as int == 9_810_000,
    ;
    vstd::arithmetic::div_mod::lemma_fundamental_div_mod(v.mass as int * (G_FX as int), s);
    assert(mg * s == v.mass as int * (G_FX as int)) by (nonlinear_arith)
        requires
            (v.mass as int * (G_FX as int)) % s == 0,
            v.mass as int * (G_FX as int) == s * ((v.mass as int * (G_FX as int)) / s) + (v.mass
                as int * (G_FX as int)) % s,
            mg == (v.mass as int * (G_FX as int)) / s,
    ;
    assert((0 - mg) * s == -(mg * s) && -(v.mass as int * (G_FX as int)) == (-(G_FX as int)) * (
    v.mass as int)) by (nonlinear_arith);
    crate::fixed::lemma_tdiv_exact(-(G_FX as int), v.mass as int);
    assert(fdiv(0 - mg, v.mass as int) == -(G_FX as int));
    lemma_div_pos_is_pos(0, v.mass as int);
    vstd::arithmetic::div_mod::lemma_div_of0(v.mass as int);
    assert(0 * s == 0) by (nonlinear_arith);
    assert(fdiv(0, v.mass as int) == 0);
    vstd::arithmetic::div_mod::lemma_div_of0(v.moment as int);
    assert(fdiv(0, v.moment as int) == 0);
}

/// A pure ballistic step: with zero aerofoil areas and no thrust, one
/// defined step leaves the horizontal rate and the spin alone, adds exactly
/// one step of standard gravity to the vertical rate, and advances the pose
/// by exactly one step of the updated rate.
pub proof fn lemma_ballistic_step(v: Vehicle, h: i64)
    requires
        v.wing.area == 0,
        v.elev.area == 0,
        v.thrust == Thrust::Fixed(0),
        v.mass > 0,
        v.moment > 0,
        (v.mass as int * (G_FX as int)) % (SCALE as int) == 0,
        in_i64(tmul(v.mass as int, G_FX as int)),
        step_ok(v, h),
    ensures
        step_spec(v, h).motion.vec.x == v.motion.vec.x,
        step_spec(v, h).motion.vec.y == v.motion.vec.y + tmul(-(G_FX as int), h as int),
        step_spec(v, h).motion.ang == v.motion.ang,
        step_spec(v, h).position.vec.x == v.position.vec.x + tmul(
            step_spec(v, h).motion.vec.x as int,
            h as int,
        ),
        step_spec(v, h).position.vec.y == v.position.vec.y + tmul(
            step_spec(v, h).motion.vec.y as int,
            h as int,
        ),
        step_spec(v, h).position.ang == v.position.ang + tmul(
            step_spec(v, h).motion.ang as int,
            h as int,
        ),
{
    reveal(step_ok);
    reveal(step_spec);
    let s = SCALE as int;
    let g = VehicleAccel { veh: v };
    let m = v.motion;
    let h2 = tdiv(h as int, 2);
    let t2 = (0 + h2) as i64;
    let t3 = (0 + h as int) as i64;
    let a1 = g.at(0, m);
    let k1 = a1.times_spec(h);
    let x2 = m.plus_spec(k1.times_spec(HALF_FX));
    let k2 = g.at(t2, x2).times_spec(h);
    let x3 = m.plus_spec(k2.times_spec(HALF_FX));
    let k3 = g.at(t2, x3).times_spec(h);
    let x4 = m.plus_spec(k3);
    let k4 = g.at(t3, x4).times_spec(h);
    lemma_ballistic_accel(v, v.position, m);
    lemma_ballistic_accel(v, v.position, x2);
    lemma_ballistic_accel(v, v.position, x3);
    lemma_ballistic_accel(v, v.position, x4);
    lemma_tmul_zero(h as int);
    let ky = tmul(-(G_FX as int), h as int);
    lemma_double_exact(0);
    lemma_double_exact(ky);
    lemma_sixth_exact(0);
    lemma_sixth_exact(ky);
    assert(k1 == k2 && k2 == k3 && k3 == k4);
    let m2 = rk4_spec(&g, m, 0, h);
    assert(m2.vec.x == m.vec.x && m2.vec.y == m.vec.y + ky && m2.ang == m.ang);
    // the pose then advances with the new rate held constant
    let cg = ConstKin { c: m2 };
    let p = v.position;
    let kx2 = tmul(m2.vec.x as int, h as int);
    let ky2 = tmul(m2.vec.y as int, h as int);
    let ka2 = tmul(m2.ang as int, h as int);
    lemma_double_exact(kx2);
    lemma_double_exact(ky2);
    lemma_double_exact(ka2);
    lemma_sixth_exact(kx2);
    lemma_sixth_exact(ky2);
    lemma_sixth_exact(ka2);
    let p2 = rk4_spec(&cg, p, 0, h);
    assert(p2.vec.x == p.vec.x + kx2 && p2.vec.y == p.vec.y + ky2 && p2.ang == p.ang + ka2);
}

/// Doubling in fixed point is exact.
proof fn lemma_double_exact(k: int)
    ensures
        tmul(k, crate::rk4::TWO_FX as int) == 2 * k,
{
    assert(k * (crate::rk4::TWO_FX as int) == (2 * k) * (SCALE as int)) by (nonlinear_arith)
        requires
            crate::rk4::TWO_FX as int == 2 * (SCALE as int),
    ;
    crate::fixed::lemma_tdiv_exact(2 * k, SCALE as int);
}

/// Dividing six equal stages by six is exact.
proof fn lemma_sixth_exact(k: int)
    ensures
        fdiv(6 * k, crate::rk4::SIX_FX as int) == k,
{
    assert((6 * k) * (SCALE as int) == k * (crate::rk4::SIX_FX as int)) by (nonlinear_arith)
        requires
            crate::rk4::SIX_FX as int == 6 * (SCALE as int),
    ;
    crate::fixed::lemma_tdiv_exact(k, crate::rk4::SIX_FX as int);
}

/// A zero-area aerofoil produces no force magnitude.
pub proof fn lemma_zero_force_mag(a: Aerofoil, k: Kinematics, dk: Kinematics)
    requires
        a.area == 0,
    ensures
        force_mag_spec(a.cl@, a, k, dk) == 0,
        force_mag_spec(a.cd@, a, k, dk) == 0,
        force_mag_spec(a.cm@, a, k, dk) == 0,
        lift_spec(a, k, dk) == (Vector { x: 0, y: 0 }),
        drag_spec(a, k, dk) == (Vector { x: 0, y: 0 }),
        moment_spec(a, k, dk) == 0,
{
    lemma_tmul_zero(coef_spec(a.cl@, a, k, dk));
    lemma_tmul_zero(coef_spec(a.cd@, a, k, dk));
    lemma_tmul_zero(coef_spec(a.cm@, a, k, dk));
    lemma_tmul_zero(q_spec(k, dk));
    lemma_tmul_zero(a.chord as int);
    lemma_polar_zero();
}


} // verus!
