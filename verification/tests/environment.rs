use flightsim::atmosphere::{atmo_density, isa_density, viscosity_ratio, H11_FX, RHO0_FX};
use flightsim::fixed::SCALE;

#[test]
fn density_ratio_is_one_at_sea_level() {
    assert_eq!(atmo_density(0), SCALE);
}

#[test]
fn density_ratio_matches_the_standard_atmosphere() {
    // tabulated pressure ratio at one kilometre is 0.886998
    let d1 = atmo_density(1_000_000_000);
    assert!(885_000 <= d1 && d1 <= 889_000);
    // and 0.533415 at five kilometres
    let d5 = atmo_density(5_000_000_000);
    assert!(531_000 <= d5 && d5 <= 536_000);
    // the isothermal branch: 0.054032 at twenty kilometres
    let d20 = atmo_density(20_000_000_000);
    assert!(53_000 <= d20 && d20 <= 55_500);
}

#[test]
fn density_ratio_decreases_with_altitude() {
    let mut prev = atmo_density(-1_000_000_000);
    let steps: [i64; 6] = [0, 2_000_000_000, 6_000_000_000, H11_FX, 15_000_000_000, 30_000_000_000];
    for &h in steps.iter() {
        let d = atmo_density(h);
        assert!(d < prev);
        assert!(d >= 0);
        prev = d;
    }
}

#[test]
fn density_ratio_extends_below_sea_level() {
    let d = atmo_density(-500_000_000);
    assert!(d > SCALE);
    assert!(d < 1_100_000);
}

#[test]
fn viscosity_ratio_is_one_at_sea_level() {
    assert_eq!(viscosity_ratio(0), SCALE);
}

#[test]
fn viscosity_ratio_falls_with_cold_air() {
    // Sutherland's law at five kilometres: about 0.9099
    let v5 = viscosity_ratio(5_000_000_000);
    assert!(905_000 <= v5 && v5 <= 915_000);
    let v20 = viscosity_ratio(20_000_000_000);
    assert!(v20 < v5);
    assert!(v20 > 600_000);
}

#[test]
fn absolute_density_scales_the_ratio() {
    assert_eq!(isa_density(0), RHO0_FX);
    // the pressure-ratio convention: 1.225 * 0.5331 = 0.6531 kg/m3 at 5 km
    let d5 = isa_density(5_000_000_000);
    assert!(650_000 <= d5 && d5 <= 660_000);
}
