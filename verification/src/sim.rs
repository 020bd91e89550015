//! Fixed-step simulation driver.
//!
//! Each driver step applies the pitch-trim control law (when a gain is
//! set), advances the vehicle by one span of Runge-Kutta substeps, and at a
//! fixed decimation interval records a sample of the state. The run ends on
//! ground impact (altitude at or below zero), on an exhausted step budget,
//! or on a numeric halt: out-of-range arithmetic stops the run explicitly
//! instead of poisoning every later state.

use vstd::prelude::*;
use crate::fixed::{in_i64, tdiv, tmul, fdiv, fx_mul, fx_div};
use crate::geom::{Kinematics, Vector, norm_angle, nice_deg_spec, mag_spec, sqrt_floor};
use crate::trig::atan2_spec;
use crate::atmosphere::{visc_ratio_spec, viscosity_ratio, ALT_MIN_FX};
use crate::aero::{G_FX, Vehicle, advance_ok, advance_spec, trimmed_spec, trim_ok};

verus! {

/// Reynolds scale: sea-level density over sea-level dynamic viscosity.
pub const RE_CONST_FX: i64 = 68_474_000_000;

/// Why a run ended.
#[derive(Clone, Copy, PartialEq, Eq, Structural, Debug)]
pub enum Outcome {
    /// The vehicle's altitude reached zero or below.
    GroundImpact,
    /// The step budget ran out with the vehicle still aloft.
    BudgetExhausted,
    /// A control or integration step left machine range.
    NumericHalt,
}

/// Driver parameters: the span and substep count of each step, the step
/// budget, the sampling interval, and the trim gain (zero disables the
/// control law).
#[derive(Clone, Copy, PartialEq, Eq, Structural, Debug)]
pub struct SimConfig {
    pub dt: i64,
    pub substeps: u16,
    pub max_steps: u32,
    pub sample_every: u32,
    pub trim_gain: i64,
}

/// One recorded state: time, position, orientation phase, the magnitude of
/// the signed angle of attack in degrees, speed, load factor, and Reynolds
/// number.
#[derive(Clone, Copy, PartialEq, Eq, Structural, Debug)]
pub struct Sample {
    pub time: i64,
    pub x: i64,
    pub y: i64,
    pub ang: i64,
    pub aoa_abs_deg: i64,
    pub speed: u64,
    pub gforce: i64,
    pub reynolds: i64,
}

/// The control phase of a driver step: the trim law when a gain is set,
/// the identity otherwise.
pub open spec fn ctrl_spec(v: Vehicle, cfg: SimConfig) -> Vehicle {
    if cfg.trim_gain == 0 {
        v
    } else {
        trimmed_spec(v, cfg.trim_gain)
    }
}

/// Whether the control phase is defined.
pub open spec fn ctrl_ok(v: Vehicle, cfg: SimConfig) -> bool {
    cfg.trim_gain == 0 || trim_ok(v, cfg.trim_gain)
}

/// The substep size of the configuration.
pub open spec fn substep_spec(cfg: SimConfig) -> i64 {
    tdiv(cfg.dt as int, cfg.substeps as int) as i64
}

/// One whole driver step: control, then one advance span.
pub open spec fn drive_spec(v: Vehicle, cfg: SimConfig) -> Vehicle {
    advance_spec(ctrl_spec(v, cfg), substep_spec(cfg), cfg.substeps as nat)
}

/// Whether one whole driver step is defined.
pub open spec fn drive_ok(v: Vehicle, cfg: SimConfig) -> bool {
    ctrl_ok(v, cfg) && advance_ok(ctrl_spec(v, cfg), substep_spec(cfg), cfg.substeps as nat)
}

/// The state after `n` driver steps.
pub open spec fn run_state(v: Vehicle, cfg: SimConfig, n: nat) -> Vehicle
    decreases n,
{
    if n == 0 {
        v
    } else {
        run_state(drive_spec(v, cfg), cfg, (n - 1) as nat)
    }
}

/// Whether `n` driver steps are all defined.
pub open spec fn run_ok(v: Vehicle, cfg: SimConfig, n: nat) -> bool
    decreases n,
{
    n == 0 || (drive_ok(v, cfg) && run_ok(drive_spec(v, cfg), cfg, (n - 1) as nat))
}

/// Whether a state is still aloft.
pub open spec fn aloft(v: Vehicle) -> bool {
    v.position.vec.y > 0
}

/// The signed angle of attack of a state, in millionths of a degree.
pub open spec fn aoa_nice_spec(v: Vehicle) -> int {
    nice_deg_spec(
        norm_angle(
            norm_angle(v.position.ang as int) - atan2_spec(
                v.motion.vec.y as int,
                v.motion.vec.x as int,
            ),
        ),
    )
}

/// Reynolds number of a state: density ratio over viscosity ratio, times
/// speed, wing chord and the sea-level Reynolds scale.
pub open spec fn reynolds_spec(v: Vehicle) -> int {
    let ratio = fdiv(crate::atmosphere::atmo_ratio_spec(v.position.vec.y as int), visc_ratio_spec(v.position.vec.y as int));
    tmul(tmul(ratio, mag_spec(v.motion.vec)), tmul(v.wing.chord as int, RE_CONST_FX as int))
}

/// Whether the Reynolds computation stays in machine range.
pub open spec fn reynolds_fits(v: Vehicle) -> bool {
    let ratio = fdiv(crate::atmosphere::atmo_ratio_spec(v.position.vec.y as int), visc_ratio_spec(v.position.vec.y as int));
    &&& v.position.vec.y >= ALT_MIN_FX
    &&& in_i64(mag_spec(v.motion.vec))
    &&& in_i64(fdiv(crate::atmosphere::atmo_ratio_spec(v.position.vec.y as int), visc_ratio_spec(v.position.vec.y as int)))
    &&& in_i64(tmul(ratio, mag_spec(v.motion.vec)))
    &&& in_i64(tmul(v.wing.chord as int, RE_CONST_FX as int))
    &&& in_i64(reynolds_spec(v))
}

/// Load factor over one driver step: the finite-difference acceleration
/// between two successive rates, with gravity added back, in units of
/// standard gravity.
pub open spec fn gforce_spec(prev: Kinematics, cur: Kinematics, dt: i64) -> int
    recommends
        dt >= 1,
{
    let ax = fdiv(cur.vec.x - prev.vec.x, dt as int);
    let ay = fdiv(cur.vec.y - prev.vec.y, dt as int) + G_FX as int;
    fdiv(sqrt_floor(ax * ax + ay * ay), G_FX as int)
}

/// Whether the load-factor computation stays in machine range.
pub open spec fn gforce_fits(prev: Kinematics, cur: Kinematics, dt: i64) -> bool {
    let ax = fdiv(cur.vec.x - prev.vec.x, dt as int);
    let ay = fdiv(cur.vec.y - prev.vec.y, dt as int) + G_FX as int;
    &&& in_i64(cur.vec.x - prev.vec.x)
    &&& in_i64(cur.vec.y - prev.vec.y)
    &&& in_i64(fdiv(cur.vec.x - prev.vec.x, dt as int))
    &&& in_i64(fdiv(cur.vec.y - prev.vec.y, dt as int))
    &&& in_i64(ay)
    &&& in_i64(sqrt_floor(ax * ax + ay * ay))
    &&& in_i64(gforce_spec(prev, cur, dt))
}

/// Elapsed time after `n` driver steps, saturating at the machine limit.
pub open spec fn time_of(n: nat, dt: i64) -> i64 {
    if n * dt as nat <= i64::MAX as nat {
        (n * dt as nat) as i64
    } else {
        i64::MAX
    }
}

/// The sample of a state at a time, with the rate before the latest step
/// for the load factor: the load factor and the Reynolds number are
/// recorded as zero when their arithmetic leaves machine range.
pub open spec fn sample_spec(prev: Kinematics, v: Vehicle, dt: i64, time: i64) -> Sample {
    Sample {
        time,
        x: v.position.vec.x,
        y: v.position.vec.y,
        ang: norm_angle(v.position.ang as int) as i64,
        aoa_abs_deg: crate::fixed::abs_int(aoa_nice_spec(v)) as i64,
        speed: mag_spec(v.motion.vec) as u64,
        gforce: if gforce_fits(prev, v.motion, dt) {
            gforce_spec(prev, v.motion, dt) as i64
        } else {
            0
        },
        reynolds: if reynolds_fits(v) {
            reynolds_spec(v) as i64
        } else {
            0
        },
    }
}

/// Record the current state as a sample.
fn take_sample(prev: &Kinematics, v: &Vehicle, dt: i64, time: i64) -> (s: Sample)
    requires
        dt >= 1,
    ensures
        s == sample_spec(*prev, *v, dt, time),
{
    let ang = v.position.angle().rad();
    let aoa = v.aoa().nice_deg();
    let aoa_abs = if aoa < 0 {
        -aoa
    } else {
        aoa
    };
    let speed = v.motion.magnitude();
    let gforce = gforce_checked(prev, &v.motion, dt);
    let reynolds = reynolds_checked(v);
    Sample {
        time,
        x: v.position.vec.x,
        y: v.position.vec.y,
        ang,
        aoa_abs_deg: aoa_abs,
        speed,
        gforce,
        reynolds,
    }
}

/// Load factor over one step, or zero out of range.
fn gforce_checked(prev: &Kinematics, cur: &Kinematics, dt: i64) -> (r: i64)
    requires
        dt >= 1,
    ensures
        r == if gforce_fits(*prev, *cur, dt) {
            gforce_spec(*prev, *cur, dt) as i64
        } else {
            0
        },
{
    let dx = match crate::fixed::fx_sub(cur.vec.x, prev.vec.x) {
        Some(t) => t,
        None => {
            return 0;
        },
    };
    let dy = match crate::fixed::fx_sub(cur.vec.y, prev.vec.y) {
        Some(t) => t,
        None => {
            return 0;
        },
    };
    let ax = match fx_div(dx, dt) {
        Some(t) => t,
        None => {
            return 0;
        },
    };
    let ayr = match fx_div(dy, dt) {
        Some(t) => t,
        None => {
            return 0;
        },
    };
    let ay = match crate::fixed::fx_add(ayr, G_FX) {
        Some(t) => t,
        None => {
            return 0;
        },
    };
    let m = Vector::new(ax, ay).magnitude();
    if m > i64::MAX as u64 {
        return 0;
    }
    match fx_div(m as i64, G_FX) {
        Some(t) => t,
        None => 0,
    }
}

/// Reynolds number of the current state, or zero out of range.
fn reynolds_checked(v: &Vehicle) -> (r: i64)
    ensures
        r == if reynolds_fits(*v) {
            reynolds_spec(*v) as i64
        } else {
            0
        },
{
    if v.position.vec.y < ALT_MIN_FX {
        return 0;
    }
    let rho = crate::atmosphere::atmo_density(v.position.vec.y);
    let mu = viscosity_ratio(v.position.vec.y);
    let ratio = match fx_div(rho, mu) {
        Some(t) => t,
        None => {
            return 0;
        },
    };
    let m = v.motion.magnitude();
    if m > i64::MAX as u64 {
        return 0;
    }
    let rm = match fx_mul(ratio, m as i64) {
        Some(t) => t,
        None => {
            return 0;
        },
    };
    let cc = match fx_mul(v.wing.chord, RE_CONST_FX) {
        Some(t) => t,
        None => {
            return 0;
        },
    };
    match fx_mul(rm, cc) {
        Some(t) => t,
        None => 0,
    }
}

/// Run the simulation: repeat driver steps until ground impact, an
/// exhausted budget, or a numeric halt, sampling every `sample_every`-th
/// step. Returns the number of steps taken, why the run ended, and the
/// samples; the vehicle is left in the state those report.
pub fn simulate(v: &mut Vehicle, cfg: SimConfig) -> (r: (u32, Outcome, Vec<Sample>))
    requires
        cfg.substeps >= 1,
        cfg.sample_every >= 1,
        cfg.dt >= 1,
    ensures
        r.0 <= cfg.max_steps,
        run_ok(*old(v), cfg, r.0 as nat),
        *final(v) == run_state(*old(v), cfg, r.0 as nat),
        forall|j: nat| j < r.0 as nat ==> aloft(#[trigger] run_state(*old(v), cfg, j)),
        r.1 == Outcome::GroundImpact ==> !aloft(*final(v)),
        r.1 == Outcome::BudgetExhausted ==> r.0 == cfg.max_steps && aloft(*final(v)),
        r.1 == Outcome::NumericHalt ==> !drive_ok(*final(v), cfg) && aloft(*final(v)),
        r.2@.len() == (r.0 as nat + cfg.sample_every as nat - 1) / (cfg.sample_every as int),
        forall|k: nat|
            k < r.2@.len() ==> r.2@[k as int] == sample_spec(
                run_state(*old(v), cfg, k * cfg.sample_every as nat).motion,
                run_state(*old(v), cfg, k * cfg.sample_every as nat + 1),
                cfg.dt,
                time_of(k * cfg.sample_every as nat + 1, cfg.dt),
            ),
{
    let ghost v00 = *v;
    let mut samples: Vec<Sample> = Vec::new();
    let mut i: u32 = 0;
    proof {
        vstd::arithmetic::div_mod::lemma_basic_div(
            cfg.sample_every as int - 1,
            cfg.sample_every as int,
        );
    }
    loop
        invariant
            cfg.substeps >= 1,
            cfg.sample_every >= 1,
            cfg.dt >= 1,
            v00 == *old(v),
            0 <= i <= cfg.max_steps,
            run_ok(v00, cfg, i as nat),
            *v == run_state(v00, cfg, i as nat),
            forall|j: nat| j < i as nat ==> aloft(#[trigger] run_state(v00, cfg, j)),
            samples@.len() == (i as nat + cfg.sample_every as nat - 1) / (cfg.sample_every as int),
            forall|k: nat|
                k < samples@.len() ==> samples@[k as int] == sample_spec(
                    run_state(v00, cfg, k * cfg.sample_every as nat).motion,
                    run_state(v00, cfg, k * cfg.sample_every as nat + 1),
                    cfg.dt,
                    time_of(k * cfg.sample_every as nat + 1, cfg.dt),
                ),
        decreases cfg.max_steps - i,
    {
        if v.position.vec.y <= 0 {
            return (i, Outcome::GroundImpact, samples);
        }
        if i >= cfg.max_steps {
            return (i, Outcome::BudgetExhausted, samples);
        }
        let saved = *v;
        let ghost vs = *v;
        if cfg.trim_gain != 0 {
            let ok = v.trim_elevator(cfg.trim_gain);
            if !ok {
                return (i, Outcome::NumericHalt, samples);
            }
        }
        let ok = v.apply_dynamics(cfg.dt, cfg.substeps);
        if !ok {
            *v = saved;
            return (i, Outcome::NumericHalt, samples);
        }
        proof {
            assert(*v == drive_spec(vs, cfg));
            lemma_run_snoc(v00, cfg, i as nat);
        }
        i = i + 1;
        if (i - 1) % cfg.sample_every == 0 {
            let time = compute_time(i, cfg.dt);
            let s = take_sample(&saved.motion, v, cfg.dt, time);
            samples.push(s);
            proof {
                lemma_sample_count(i as nat, cfg.sample_every as nat);
            }
        } else {
            proof {
                lemma_sample_count_skip(i as nat, cfg.sample_every as nat);
            }
        }
    }
}

/// The elapsed time of step `i`, saturating at the machine limit.
fn compute_time(i: u32, dt: i64) -> (t: i64)
    requires
        dt >= 1,
    ensures
        t == time_of(i as nat, dt),
{
    proof {
        assert(0 <= (i as int) * (dt as int)
            && (i as int) * (dt as int) <= 4_294_967_295i128 as int * (i64::MAX as int))
            by (nonlinear_arith)
            requires
                0 <= i as int <= 4_294_967_295i128 as int,
                1 <= dt as int <= i64::MAX as int,
        ;
    }
    let p: i128 = (i as i128) * (dt as i128);
    if p > i64::MAX as i128 {
        i64::MAX
    } else {
        p as i64
    }
}

/// Appending one driver step to a run.
proof fn lemma_run_snoc(v: Vehicle, cfg: SimConfig, n: nat)
    requires
        run_ok(v, cfg, n),
        drive_ok(run_state(v, cfg, n), cfg),
    ensures
        run_ok(v, cfg, n + 1),
        run_state(v, cfg, n + 1) == drive_spec(run_state(v, cfg, n), cfg),
    decreases n,
{
    assert(run_state(v, cfg, n + 1) == run_state(drive_spec(v, cfg), cfg, n));
    assert(run_ok(v, cfg, n + 1) == (drive_ok(v, cfg) && run_ok(drive_spec(v, cfg), cfg, n)));
    if n == 0 {
        assert(run_state(v, cfg, 0) == v);
        assert(run_state(drive_spec(v, cfg), cfg, 0) == drive_spec(v, cfg));
        assert(run_ok(drive_spec(v, cfg), cfg, 0));
    } else {
        lemma_run_snoc(drive_spec(v, cfg), cfg, (n - 1) as nat);
        assert(run_state(v, cfg, n) == run_state(drive_spec(v, cfg), cfg, (n - 1) as nat));
        assert(run_ok(v, cfg, n) == (drive_ok(v, cfg) && run_ok(drive_spec(v, cfg), cfg, (n
            - 1) as nat)));
    }
}

/// After a step whose index is on the decimation grid, one more sample is
/// due.
proof fn lemma_sample_count(i: nat, every: nat)
    requires
        every >= 1,
        i >= 1,
        (i - 1) % (every as int) == 0,
    ensures
        (i + every - 1) / (every as int) == (i - 1 + every - 1) / (every as int) + 1,
        ((i - 1 + every - 1) / (every as int)) * (every as int) + 1 == i,
{
    let e = every as int;
    let q = (i - 1) / e;
    vstd::arithmetic::div_mod::lemma_fundamental_div_mod(i - 1, e);
    assert(i - 1 == e * q);
    assert((q * e + (e - 1)) / e == q) by {
        vstd::arithmetic::div_mod::lemma_fundamental_div_mod_converse_div(q * e + (e - 1), e, q, e - 1);
    }
    assert((q * e + e) / e == q + 1) by {
        assert((q + 1) * e + 0 == q * e + e) by (nonlinear_arith);
        vstd::arithmetic::div_mod::lemma_fundamental_div_mod_converse_div(
            q * e + e,
            e,
            q + 1,
            0,
        );
    }
    assert(e * q == q * e) by (nonlinear_arith);
}

/// After a step whose index is off the decimation grid, the sample count
/// stands.
proof fn lemma_sample_count_skip(i: nat, every: nat)
    requires
        every >= 1,
        i >= 1,
        (i - 1) % (every as int) != 0,
    ensures
        (i + every - 1) / (every as int) == (i - 1 + every - 1) / (every as int),
{
    let e = every as int;
    let q = (i - 1) / e;
    let m = (i - 1) % e;
    vstd::arithmetic::div_mod::lemma_fundamental_div_mod(i - 1, e);
    vstd::arithmetic::div_mod::lemma_mod_division_less_than_divisor(i - 1, e);
    assert((q * e + (m + e - 1)) / e == q + 1) by {
        assert((q + 1) * e + (m - 1) == q * e + (m + e - 1)) by (nonlinear_arith);
        vstd::arithmetic::div_mod::lemma_fundamental_div_mod_converse_div(
            q * e + (m + e - 1),
            e,
            q + 1,
            m - 1,
        );
    }
    assert((q * e + (m + e)) / e == q + 1) by {
        assert((q + 1) * e + m == q * e + (m + e)) by (nonlinear_arith);
        vstd::arithmetic::div_mod::lemma_fundamental_div_mod_converse_div(
            q * e + (m + e),
            e,
            q + 1,
            m,
        );
    }
    assert(e * q == q * e) by (nonlinear_arith);
}

} // verus!
