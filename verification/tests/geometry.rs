use flightsim::geom::{Angle, Kinematics, Vector};
use flightsim::trig::{HALF_PI_FX, PI_FX, TAU_FX};
use flightsim::fixed::SCALE;

#[test]
fn angle_normalizes_into_one_turn() {
    // phases from far outside one turn always read back inside [0, tau)
    let cases: [i64; 7] = [
        0,
        1,
        -1,
        TAU_FX,
        10 * TAU_FX + 123,
        -5 * TAU_FX - 7,
        i64::MIN + 1,
    ];
    for &r in cases.iter() {
        let a = Angle::from_radians(r);
        let got = a.rad();
        assert!(0 <= got && got < TAU_FX);
    }
    assert_eq!(Angle::from_radians(-1_000_000).rad(), TAU_FX - 1_000_000);
    assert_eq!(Angle::from_radians(TAU_FX + 5).rad(), 5);
}

#[test]
fn angle_degree_conversions() {
    assert_eq!(Angle::pi().deg(), 180_000_000);
    assert_eq!(Angle::pi().nice_deg(), 180_000_000);
    assert_eq!(Angle::from_degrees(90_000_000).rad(), HALF_PI_FX);
    // the signed form maps a reflex angle just past half a turn negative
    let a = Angle::from_degrees(270_000_000);
    assert!(a.nice_deg() < 0);
    assert!(-90_100_000 < a.nice_deg() && a.nice_deg() < -89_900_000);
}

#[test]
fn angle_sum_and_difference_renormalize() {
    let a = Angle::from_radians(TAU_FX - 100);
    let b = Angle::from_radians(300);
    assert_eq!(a.add(b).rad(), 200);
    let c = Angle::from_radians(100);
    let d = Angle::from_radians(300);
    // no shortest-path choice: a small negative difference wraps forward
    assert_eq!(c.sub(d).rad(), TAU_FX - 200);
}

#[test]
fn vector_algebra_is_exact() {
    let a = Vector::new(2 * SCALE, 3 * SCALE);
    let b = Vector::new(4 * SCALE, 5 * SCALE);
    assert_eq!(a.dot(b), Some(23 * SCALE));
    assert_eq!(a.cross(b), Some(-2 * SCALE));
    let s = a.add(b).unwrap();
    assert_eq!((s.x(), s.y()), (6 * SCALE, 8 * SCALE));
    let d = a.sub(b).unwrap();
    assert_eq!((d.x(), d.y()), (-2 * SCALE, -2 * SCALE));
    let m = a.scale(2 * SCALE).unwrap();
    assert_eq!((m.x(), m.y()), (4 * SCALE, 6 * SCALE));
    let q = a.div_by(2 * SCALE).unwrap();
    assert_eq!((q.x(), q.y()), (SCALE, 3 * SCALE / 2));
}

#[test]
fn scalar_division_accepts_negative_divisors() {
    // componentwise quotient for any nonzero scalar, rounded toward zero
    let a = Vector::new(2 * SCALE, 3 * SCALE);
    let q = a.div_by(-2 * SCALE).unwrap();
    assert_eq!((q.x(), q.y()), (-SCALE, -(3 * SCALE) / 2));
    assert_eq!(flightsim::fixed::fx_div(7 * SCALE, -2 * SCALE), Some(-(7 * SCALE) / 2));
    assert_eq!(flightsim::fixed::fx_div(-7 * SCALE, -2 * SCALE), Some(7 * SCALE / 2));
    assert_eq!(flightsim::fixed::fx_div(SCALE, 0), None);
    // scaling and dividing by one nonzero scalar round-trips exactly here
    let w = a.scale(-2 * SCALE).unwrap().div_by(-2 * SCALE).unwrap();
    assert_eq!((w.x(), w.y()), (a.x(), a.y()));
}

#[test]
fn magnitude_of_pythagorean_triple_is_exact() {
    let v = Vector::new(3 * SCALE, 4 * SCALE);
    assert_eq!(v.magnitude(), 5 * SCALE as u64);
    assert_eq!(Vector::new(0, 0).magnitude(), 0);
}

#[test]
fn orientation_is_exact_on_axes() {
    assert_eq!(Vector::new(5, 0).orientation().rad(), 0);
    assert_eq!(Vector::new(0, 2).orientation().rad(), HALF_PI_FX);
    assert_eq!(Vector::new(-1, 0).orientation().rad(), PI_FX);
    assert_eq!(Vector::new(0, -7).orientation().rad(), PI_FX + HALF_PI_FX);
    // the degenerate zero vector folds to phase zero
    assert_eq!(Vector::new(0, 0).orientation().rad(), 0);
}

#[test]
fn polar_reconstruction_is_exact_on_axes() {
    let v = Vector::new(7 * SCALE, 0);
    let u = v.unit();
    assert_eq!((u.x(), u.y()), (SCALE, 0));
    let w = Vector::from_radians(v.magnitude() as i64, v.orientation().rad());
    assert_eq!((w.x(), w.y()), (v.x(), v.y()));
    let v2 = Vector::new(0, -3 * SCALE);
    let w2 = Vector::from_radians(v2.magnitude() as i64, v2.orientation().rad());
    assert_eq!((w2.x(), w2.y()), (v2.x(), v2.y()));
}

#[test]
fn polar_reconstruction_close_off_axis() {
    // direction reconstructed through orientation, unit and magnitude stays
    // within a percent of the vector itself
    let v = Vector::new(3 * SCALE, 4 * SCALE);
    let m = v.magnitude() as i64;
    let w = Vector::from_radians(m, v.orientation().rad());
    assert!((w.x() - v.x()).abs() < m / 100);
    assert!((w.y() - v.y()).abs() < m / 100);
    let v2 = Vector::new(-2 * SCALE, 5 * SCALE);
    let m2 = v2.magnitude() as i64;
    let w2 = Vector::from_radians(m2, v2.orientation().rad());
    assert!((w2.x() - v2.x()).abs() < m2 / 100);
    assert!((w2.y() - v2.y()).abs() < m2 / 100);
}

#[test]
fn quarter_turn_unit_vectors_are_exact() {
    let east = Angle::from_radians(0).unit();
    assert_eq!((east.x(), east.y()), (SCALE, 0));
    let north = Angle::from_radians(HALF_PI_FX).unit();
    assert_eq!((north.x(), north.y()), (0, SCALE));
    let west = Angle::pi().unit();
    assert_eq!((west.x(), west.y()), (-SCALE, 0));
    let south = Angle::from_radians(PI_FX + HALF_PI_FX).unit();
    assert_eq!((south.x(), south.y()), (0, -SCALE));
}

#[test]
fn from_vector_matches_orientation() {
    let v = Vector::new(0, 9 * SCALE);
    assert_eq!(Angle::from_vector(&v).rad(), v.orientation().rad());
    assert_eq!(Angle::from_vector(&v).rad(), HALF_PI_FX);
}

#[test]
fn polar_form_accepts_degrees() {
    let v = Vector::from_degrees(2 * SCALE, 180_000_000);
    assert_eq!((v.x(), v.y()), (-2 * SCALE, 0));
}

#[test]
fn kinematics_exposes_its_parts() {
    let k = Kinematics::new(Vector::new(7, 9), Angle::from_radians(HALF_PI_FX));
    assert_eq!((k.x(), k.y()), (7, 9));
    assert_eq!(k.angle().rad(), HALF_PI_FX);
    let dk = Kinematics::new_raw(Vector::new(3 * SCALE, 4 * SCALE), 42);
    assert_eq!(dk.magnitude(), 5 * SCALE as u64);
    assert_eq!(dk.ang, 42);
    assert_eq!(dk.direction().rad(), Vector::new(3 * SCALE, 4 * SCALE).orientation().rad());
}

#[test]
fn unit_vectors_have_near_unit_length() {
    // the proved band: the squared coordinates of a unit vector sum to one
    // unit within about half a percent, at every phase
    let mut a: i64 = 0;
    while a < TAU_FX {
        let u = Angle::from_radians(a).unit();
        let n = ((u.x() as i128) * (u.x() as i128) + (u.y() as i128) * (u.y() as i128)) / 1_000_000;
        assert!(993_000 <= n && n <= 1_002_000);
        a += 1009;
    }
}
