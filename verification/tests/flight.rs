use flightsim::aero::{Aerofoil, Thrust, Vehicle};
use flightsim::geom::{Angle, Kinematics, Vector};
use flightsim::interpolate::Linear;
use flightsim::sim::{simulate, Outcome, SimConfig};
use flightsim::fixed::SCALE;

fn flat_table() -> Linear {
    Linear::new(vec![(0, 0), (360_000_000, 0)])
}

fn lift_table() -> Linear {
    // 0.1 of coefficient per degree around zero, tabulated over a full turn
    Linear::new(vec![
        (0, 0),
        (20_000_000, 2_000_000),
        (180_000_000, 0),
        (340_000_000, -2_000_000),
        (360_000_000, 0),
    ])
}

fn drag_table() -> Linear {
    Linear::new(vec![
        (0, 10_000),
        (20_000_000, 50_000),
        (180_000_000, 1_000_000),
        (340_000_000, 50_000),
        (360_000_000, 10_000),
    ])
}

#[test]
fn vehicle_construction_derives_rod_inertia() {
    let z = flat_table();
    let wing = Aerofoil::new(0, 0, Angle::from_degrees(0), &z, &z, &z);
    let elev = Aerofoil::new(0, 0, Angle::from_degrees(0), &z, &z, &z);
    let pose = Kinematics::new_raw(Vector::new(0, 0), 0);
    let rate = Kinematics::new_raw(Vector::new(0, 0), 0);
    // mass 1000 kg, length 10 m: inertia 1000 * 100 / 12
    let v = Vehicle::new(1_000_000_000, 10_000_000, pose, rate, wing, elev, Thrust::Fixed(0)).unwrap();
    assert_eq!(v.moment, 8_333_333_333);
    let wing2 = Aerofoil::new(0, 0, Angle::from_degrees(0), &z, &z, &z);
    let elev2 = Aerofoil::new(0, 0, Angle::from_degrees(0), &z, &z, &z);
    assert!(Vehicle::new(0, 10_000_000, pose, rate, wing2, elev2, Thrust::Fixed(0)).is_none());
}

#[test]
fn dynamic_pressure_is_half_density_speed_squared() {
    let z = flat_table();
    let foil = Aerofoil::new(0, 0, Angle::from_degrees(0), &z, &z, &z);
    // sea level, 10 m/s: q = 0.5 * 1.0 * 100 = 50 units
    let k = Kinematics::new_raw(Vector::new(0, 0), 0);
    let dk = Kinematics::new_raw(Vector::new(10_000_000, 0), 0);
    assert_eq!(foil.dyn_pressure(&k, &dk), Some(50_000_000));
    // zero speed: zero dynamic pressure, no singularity
    let still = Kinematics::new_raw(Vector::new(0, 0), 0);
    assert_eq!(foil.dyn_pressure(&k, &still), Some(0));
}

#[test]
fn lift_is_normal_and_drag_opposes_motion() {
    let cl = lift_table();
    let cd = drag_table();
    let cm = flat_table();
    // 2 square metres at 10 degrees of attack in a 10 m/s stream at sea
    // level: cl = 1.0, lift = 2 * 1.0 * 50 = 100 units, straight up
    let foil = Aerofoil::new(2_000_000, 1_000_000, Angle::from_degrees(0), &cl, &cd, &cm);
    let k = Kinematics::new(Vector::new(0, 0), Angle::from_degrees(10_000_000));
    let dk = Kinematics::new_raw(Vector::new(10_000_000, 0), 0);
    let lift = foil.lift_force(&k, &dk).unwrap();
    assert_eq!(lift.x(), 0);
    assert_eq!(lift.y(), 99_999_400);
    // drag at that table point: 2 * 0.03 * 50 = 3 units, against motion
    let drag = foil.drag_force(&k, &dk).unwrap();
    assert_eq!(drag.y(), 0);
    assert_eq!(drag.x(), -2_999_900);
    // zero velocity degenerates to zero force, not an error
    let still = Kinematics::new_raw(Vector::new(0, 0), 0);
    let l0 = foil.lift_force(&k, &still).unwrap();
    assert_eq!((l0.x(), l0.y()), (0, 0));
}

#[test]
fn elevator_deflection_moves_the_angle_of_attack() {
    let cl = lift_table();
    let cd = drag_table();
    let cm = flat_table();
    let mut foil = Aerofoil::new(2_000_000, 1_000_000, Angle::from_degrees(0), &cl, &cd, &cm);
    let k = Kinematics::new(Vector::new(0, 0), Angle::from_degrees(10_000_000));
    let dk = Kinematics::new_raw(Vector::new(10_000_000, 0), 0);
    let before = foil.aoa(&k, &dk).nice_deg();
    foil.set_pitch(Angle::from_degrees(-3_000_000));
    let after = foil.aoa(&k, &dk).nice_deg();
    assert!((before - 10_000_000).abs() < 1_000);
    assert!((after - 7_000_000).abs() < 1_000);
}

#[test]
fn ballistic_drop_reaches_ground_at_the_expected_time() {
    // zero aerofoil areas and no thrust from 100 m of rest: pure gravity,
    // impact at sqrt(2 * 100 / 9.81) = 4.515 s of fall
    let z = flat_table();
    let wing = Aerofoil::new(0, 0, Angle::from_degrees(0), &z, &z, &z);
    let elev = Aerofoil::new(0, 0, Angle::from_degrees(0), &z, &z, &z);
    let pose = Kinematics::new_raw(Vector::new(0, 100_000_000), 0);
    let rate = Kinematics::new_raw(Vector::new(0, 0), 0);
    let mut v = Vehicle::new(1_000_000_000, 10_000_000, pose, rate, wing, elev, Thrust::Fixed(0)).unwrap();
    let cfg = SimConfig {
        dt: 10_000,
        substeps: 1,
        max_steps: 10_000,
        sample_every: 100,
        trim_gain: 0,
    };
    let (steps, outcome, samples) = simulate(&mut v, cfg);
    assert_eq!(outcome, Outcome::GroundImpact);
    assert_eq!(steps, 452);
    assert!(v.position.vec.y <= 0);
    // impact speed g t = 44.3 m/s downward
    assert_eq!(v.motion.vec.y, -44_341_200);
    assert_eq!(v.motion.vec.x, 0);
    // decimated samples: steps 1, 101, 201, 301, 401
    assert_eq!(samples.len(), 5);
    assert_eq!(samples[0].time, 10_000);
    assert_eq!(samples[0].x, 0);
    assert!(samples[0].y < 100_000_000);
    assert_eq!(samples[0].ang, 0);
    assert_eq!(samples[0].aoa_abs_deg, 90_000_000);
    assert!(samples[0].speed > 0);
    // free fall: the finite-difference acceleration is exactly gravity, so
    // the felt load factor vanishes
    assert_eq!(samples[0].gforce, 0);
    assert_eq!(samples[4].gforce, 0);
    assert_eq!(samples[4].time, 401 * 10_000);
    assert!(samples[4].y > 0);
}

#[test]
fn level_flight_with_lift_pushes_upward_then_noses_down() {
    // positive lift coefficient at a small positive angle of attack: the
    // initial aerodynamic force beats gravity and the moment turns the nose
    // down toward trim
    let cl = lift_table();
    let cd = drag_table();
    let cm = flat_table();
    let wing = Aerofoil::new(20_000_000, 2_000_000, Angle::from_degrees(0), &cl, &cd, &cm);
    let elev = Aerofoil::new(4_000_000, 1_000_000, Angle::from_degrees(0), &cl, &cd, &cm);
    let pose = Kinematics::new(Vector::new(0, 1_000_000_000), Angle::from_degrees(2_000_000));
    let rate = Kinematics::new_raw(Vector::new(100_000_000, 0), 0);
    let v = Vehicle::new(1_000_000_000, 10_000_000, pose, rate, wing, elev, Thrust::Fixed(0)).unwrap();
    let lift = v.wing.lift_force(&v.position, &v.motion).unwrap();
    assert!(lift.y() > 0);
    let accel = v.calculate_dynamics(&v.position, &v.motion).unwrap();
    // net upward: aerodynamic lift exceeds weight at this speed
    assert!(accel.vec.y > 0);
    // restoring moment: angle of attack driven back down
    assert!(accel.ang < 0);
    // after a short advance the angle of attack has decayed
    let before = v.aoa().nice_deg();
    let mut v2 = v;
    assert!(v2.apply_dynamics(100_000, 10));
    let after = v2.aoa().nice_deg();
    assert!(before > 1_990_000);
    assert!(after < before / 2 + 100_000);
}

#[test]
fn lifting_flight_records_a_positive_load_factor() {
    // one driver step of the lifting vehicle: the felt acceleration is
    // about 2.1 units of gravity, recorded exactly by the sample
    let cl = lift_table();
    let cd = drag_table();
    let cm = flat_table();
    let wing = Aerofoil::new(20_000_000, 2_000_000, Angle::from_degrees(0), &cl, &cd, &cm);
    let elev = Aerofoil::new(4_000_000, 1_000_000, Angle::from_degrees(0), &cl, &cd, &cm);
    let pose = Kinematics::new(Vector::new(0, 1_000_000_000), Angle::from_degrees(2_000_000));
    let rate = Kinematics::new_raw(Vector::new(100_000_000, 0), 0);
    let mut v = Vehicle::new(1_000_000_000, 10_000_000, pose, rate, wing, elev, Thrust::Fixed(0))
        .unwrap();
    let cfg = SimConfig {
        dt: 10_000,
        substeps: 10,
        max_steps: 1,
        sample_every: 1,
        trim_gain: 0,
    };
    let (steps, _outcome, samples) = simulate(&mut v, cfg);
    assert_eq!(steps, 1);
    assert_eq!(samples.len(), 1);
    assert_eq!(samples[0].gforce, 2_136_026);
    assert!(samples[0].reynolds > 0);
}

#[test]
fn trim_law_deflects_the_elevator() {
    let cl = lift_table();
    let cd = drag_table();
    let cm = flat_table();
    let wing = Aerofoil::new(20_000_000, 2_000_000, Angle::from_degrees(0), &cl, &cd, &cm);
    let elev = Aerofoil::new(4_000_000, 1_000_000, Angle::from_degrees(0), &cl, &cd, &cm);
    let pose = Kinematics::new(Vector::new(0, 1_000_000_000), Angle::from_degrees(2_000_000));
    let rate = Kinematics::new_raw(Vector::new(100_000_000, 0), 0);
    let mut v = Vehicle::new(1_000_000_000, 10_000_000, pose, rate, wing, elev, Thrust::Fixed(0)).unwrap();
    assert!(v.trim_elevator(100_000));
    assert_eq!(v.elev.pitch.rad(), 153_295);
}

#[test]
fn budget_runs_out_while_still_aloft() {
    let z = flat_table();
    let wing = Aerofoil::new(0, 0, Angle::from_degrees(0), &z, &z, &z);
    let elev = Aerofoil::new(0, 0, Angle::from_degrees(0), &z, &z, &z);
    let pose = Kinematics::new_raw(Vector::new(0, 100_000_000), 0);
    let rate = Kinematics::new_raw(Vector::new(0, 0), 0);
    let mut v = Vehicle::new(1_000_000_000, 10_000_000, pose, rate, wing, elev, Thrust::Fixed(0)).unwrap();
    let cfg = SimConfig {
        dt: 10_000,
        substeps: 1,
        max_steps: 3,
        sample_every: 1,
        trim_gain: 0,
    };
    let (steps, outcome, samples) = simulate(&mut v, cfg);
    assert_eq!(outcome, Outcome::BudgetExhausted);
    assert_eq!(steps, 3);
    assert_eq!(samples.len(), 3);
    assert_eq!(v.position.vec.y, 99_994_114);
    assert_eq!(v.motion.vec.y, -294_300);
}

#[test]
fn absurd_speed_halts_the_run_numerically() {
    // a squared speed beyond machine range trips the explicit guard
    let z = flat_table();
    let wing = Aerofoil::new(1_000_000, 1_000_000, Angle::from_degrees(0), &z, &z, &z);
    let elev = Aerofoil::new(1_000_000, 1_000_000, Angle::from_degrees(0), &z, &z, &z);
    let pose = Kinematics::new_raw(Vector::new(0, 100_000_000), 0);
    let rate = Kinematics::new_raw(Vector::new(4_000_000_000_000_000_000, 0), 0);
    let mut v = Vehicle::new(1_000_000_000, 10_000_000, pose, rate, wing, elev, Thrust::Fixed(0)).unwrap();
    let cfg = SimConfig {
        dt: 10_000,
        substeps: 1,
        max_steps: 10,
        sample_every: 1,
        trim_gain: 0,
    };
    let (steps, outcome, _samples) = simulate(&mut v, cfg);
    assert_eq!(outcome, Outcome::NumericHalt);
    assert_eq!(steps, 0);
    assert_eq!(v.motion.vec.x, 4_000_000_000_000_000_000);
}

#[test]
fn cancelling_thrust_nulls_the_tangential_force() {
    // the control-augmented thrust law opposes the tangential aerodynamic
    // component exactly; with motion along the axis the horizontal
    // acceleration vanishes
    let cl = lift_table();
    let cd = drag_table();
    let cm = flat_table();
    let wing = Aerofoil::new(20_000_000, 2_000_000, Angle::from_degrees(0), &cl, &cd, &cm);
    let elev = Aerofoil::new(4_000_000, 1_000_000, Angle::from_degrees(0), &cl, &cd, &cm);
    let pose = Kinematics::new(Vector::new(0, 1_000_000_000), Angle::from_degrees(2_000_000));
    let rate = Kinematics::new_raw(Vector::new(100_000_000, 0), 0);
    let v = Vehicle::new(
        1_000_000_000,
        10_000_000,
        pose,
        rate,
        wing,
        elev,
        Thrust::CancelTangential,
    )
    .unwrap();
    let accel = v.calculate_dynamics(&v.position, &v.motion).unwrap();
    assert_eq!(accel.vec.x, 0);
    assert_eq!(accel.vec.y, 11_477_334);
    assert_eq!(accel.ang, -2_132_703);
}
