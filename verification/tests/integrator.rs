use flightsim::rk4::{rk4, ConstDeriv, ScaleDeriv};
use flightsim::fixed::SCALE;

#[test]
fn constant_derivative_is_integrated_exactly() {
    // dx/dt = c over a step h lands exactly on x + c h, whatever the step
    let f = ConstDeriv { c: 3 * SCALE };
    assert_eq!(rk4(&f, 10 * SCALE, 0, 250_000), Some(10_750_000));
    assert_eq!(rk4(&f, 10 * SCALE, 0, SCALE), Some(13 * SCALE));
    assert_eq!(rk4(&f, 10 * SCALE, 5 * SCALE, 7 * SCALE), Some(31 * SCALE));
    let g = ConstDeriv { c: -2 * SCALE };
    assert_eq!(rk4(&g, SCALE, 0, 500_000), Some(0));
}

#[test]
fn zero_derivative_keeps_the_state() {
    let f = ConstDeriv { c: 0 };
    assert_eq!(rk4(&f, 123_456, 0, 10_000), Some(123_456));
}

fn decay_to_one_second(h: i64, steps: u32) -> i64 {
    // dx/dt = -x from one unit, integrated over one unit of time
    let f = ScaleDeriv { k: -SCALE };
    let mut x = SCALE;
    for _ in 0..steps {
        x = rk4(&f, x, 0, h).unwrap();
    }
    x
}

#[test]
fn exponential_decay_converges_superlinearly() {
    // the true value exp(-1) is 367879.44 millionths
    let coarse = decay_to_one_second(500_000, 2);
    let fine = decay_to_one_second(100_000, 10);
    assert_eq!(coarse, 368_171);
    assert_eq!(fine, 367_885);
    let truth: i64 = 367_879;
    let err_coarse = (coarse - truth).abs();
    let err_fine = (fine - truth).abs();
    // a five-fold finer step shrinks the error far more than five-fold
    assert!(err_coarse > 5 * err_fine);
    assert!(err_coarse > 25 * err_fine);
}
