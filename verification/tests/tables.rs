use flightsim::interpolate::{Linear, table_ok};

#[test]
fn validity_check_matches_the_table_rules() {
    assert!(table_ok(&vec![(0, 0), (10_000_000, 1_000_000)]));
    assert!(!table_ok(&vec![(0, 0)]));
    assert!(!table_ok(&vec![]));
    assert!(!table_ok(&vec![(0, 0), (0, 1)]));
    assert!(!table_ok(&vec![(5, 0), (3, 1), (9, 2)]));
}

#[test]
fn interpolation_is_exact_at_samples() {
    let t = Linear::new(vec![
        (-10_000_000, -2_000_000),
        (0, 500_000),
        (10_000_000, 1_000_000),
        (30_000_000, 250_000),
    ]);
    assert_eq!(t.interpolate(-10_000_000), Some(-2_000_000));
    assert_eq!(t.interpolate(0), Some(500_000));
    assert_eq!(t.interpolate(10_000_000), Some(1_000_000));
    assert_eq!(t.interpolate(30_000_000), Some(250_000));
}

#[test]
fn interpolation_blends_linearly_between_samples() {
    // the table (0, 0.0), (10, 1.0): halfway gives exactly one half
    let t = Linear::new(vec![(0, 0), (10_000_000, 1_000_000)]);
    assert_eq!(t.interpolate(5_000_000), Some(500_000));
    assert_eq!(t.interpolate(2_500_000), Some(250_000));
    let t2 = Linear::new(vec![(0, 1_000_000), (4_000_000, 3_000_000), (8_000_000, 0)]);
    assert_eq!(t2.interpolate(2_000_000), Some(2_000_000));
    assert_eq!(t2.interpolate(6_000_000), Some(1_500_000));
}

#[test]
fn interpolation_extrapolates_past_both_ends() {
    // past either end the last segment's line continues, with no clamping
    let t = Linear::new(vec![(0, 0), (10_000_000, 1_000_000)]);
    assert_eq!(t.interpolate(20_000_000), Some(2_000_000));
    assert_eq!(t.interpolate(-10_000_000), Some(-1_000_000));
    let t2 = Linear::new(vec![(0, 0), (10_000_000, 1_000_000), (20_000_000, 0)]);
    assert_eq!(t2.interpolate(30_000_000), Some(-1_000_000));
}

#[test]
fn interpolation_overflow_reports_none() {
    let t = Linear::new(vec![(0, 0), (1, i64::MAX)]);
    assert_eq!(t.interpolate(i64::MAX), None);
}
