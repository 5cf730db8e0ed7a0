use light_transport::film::Film;
use light_transport::integrator::{parse_wavelength_bounds, Bounds1D, IntegratorType, RenderSettings};
use light_transport::mis::{power_heuristic, Weight};

fn frac(w: Weight) -> f64 {
    w.num as f64 / w.den as f64
}

#[test]
fn power_heuristic_zero_density_gets_no_weight() {
    assert_eq!(power_heuristic(0, 5), Weight { num: 0, den: 25 });
    assert_eq!(frac(power_heuristic(0, 1)), 0.0);
}

#[test]
fn power_heuristic_equal_densities_share() {
    assert_eq!(frac(power_heuristic(7, 7)), 0.5);
    assert_eq!(frac(power_heuristic(u32::MAX, u32::MAX)), 0.5);
}

#[test]
fn power_heuristic_weights_add_to_one() {
    for (a, b) in [(1u32, 2u32), (3, 4), (100, 1), (u32::MAX, 1), (0, 9)] {
        let w = power_heuristic(a, b);
        let v = power_heuristic(b, a);
        assert_eq!(w.num * v.den + v.num * w.den, w.den * v.den);
    }
    assert_eq!(power_heuristic(3, 4), Weight { num: 9, den: 25 });
    assert_eq!(power_heuristic(0, 0), Weight { num: 0, den: 1 });
}

#[test]
fn film_starts_black() {
    let f = Film::new(4, 3);
    assert_eq!(f.buffer.len(), 36);
    assert!(f.buffer.iter().all(|v| *v == 0));
    assert!(Film::new(0, 5).buffer.is_empty());
}

#[test]
fn splats_sum_and_saturate() {
    let mut f = Film::new(2, 1);
    f.add_splats(&vec![(0, 10), (0, 20), (5, 200), (5, 100), (3, 1)]);
    assert_eq!(f.buffer, vec![30, 0, 0, 1, 0, 255]);
}

#[test]
fn splat_order_does_not_matter() {
    let a = vec![(0usize, 100u8), (1, 3), (2, 250)];
    let b = vec![(0usize, 200u8), (2, 1), (1, 4)];
    let mut f = Film::new(1, 1);
    f.add_splats(&a);
    f.add_splats(&b);
    let mut g = Film::new(1, 1);
    g.add_splats(&b);
    g.add_splats(&a);
    assert_eq!(f.buffer, g.buffer);
    assert_eq!(f.buffer, vec![255, 7, 251]);
}

#[test]
fn integrator_names() {
    assert_eq!(IntegratorType::from_string("PT"), IntegratorType::PathTracing);
    assert_eq!(IntegratorType::from_string("LT"), IntegratorType::LightTracing);
    assert_eq!(IntegratorType::from_string("BDPT"), IntegratorType::BDPT);
    assert_eq!(IntegratorType::from_string("MLT"), IntegratorType::MLT);
    assert_eq!(IntegratorType::from_string("SPPM"), IntegratorType::PathTracing);
    assert_eq!(IntegratorType::from_string(""), IntegratorType::PathTracing);
    assert_eq!(IntegratorType::from_string("BDP"), IntegratorType::PathTracing);
}

fn settings(bounds: Option<(u32, u32)>) -> RenderSettings {
    RenderSettings {
        min_bounces: None,
        max_bounces: Some(4),
        russian_roulette: None,
        light_samples: None,
        only_direct: None,
        wavelength_bounds: bounds,
    }
}

#[test]
fn wavelength_bounds_merge() {
    let default = Bounds1D { lower: 380, upper: 780 };
    assert_eq!(parse_wavelength_bounds(&vec![], default), default);
    assert_eq!(parse_wavelength_bounds(&vec![settings(None)], default), default);
    let merged = parse_wavelength_bounds(
        &vec![settings(None), settings(Some((500, 600))), settings(Some((450, 700))), settings(Some((550, 650)))],
        default,
    );
    assert_eq!(merged, Bounds1D { lower: 450, upper: 700 });
}
