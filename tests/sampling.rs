use light_transport::sample::{
    stratify, RandomSampler, Sample1D, Sampler, StratifiedSampler, SAMPLE_SCALE,
};

fn function(x: f64) -> f64 {
    x * x - x + 1.0
}

fn unit(x: u32) -> f64 {
    x as f64 / SAMPLE_SCALE as f64
}

#[test]
fn test_random_sampler_1d() {
    let mut sampler = Box::new(RandomSampler::new());
    let mut s = 0.0;
    for _i in 0..1000000 {
        let sample = sampler.draw_1d();
        let x = unit(sample.x);
        assert!(0.0 <= x && x < 1.0, "{}", x);
        s += function(x);
    }
    println!("{}", s / 1000000.0);
}

#[test]
fn test_stratified_sampler_1d() {
    let mut sampler = Box::new(StratifiedSampler::new(10, 10, 10));
    let mut s = 0.0;
    for _i in 0..1000000 {
        let sample = sampler.draw_1d();
        let x = unit(sample.x);
        assert!(0.0 <= x && x < 1.0, "{}", x);
        s += function(x);
    }
    println!("{}", s / 1000000.0);
}

#[test]
fn test_stratified_sampler_2d() {
    let mut sampler = Box::new(StratifiedSampler::new(10, 10, 10));

    for _i in 0..1000000 {
        let sample = sampler.draw_2d();
        let (x, y) = (unit(sample.x), unit(sample.y));
        assert!(0.0 <= x && x <= 1.0, "{}", x);
        assert!(0.0 <= y && y <= 1.0, "{}", y);
    }
}

#[test]
fn test_stratified_sampler_3d() {
    let mut sampler = Box::new(StratifiedSampler::new(10, 10, 10));

    for _i in 0..1000000 {
        let sample = sampler.draw_3d();
        let (x, y, z) = (unit(sample.x), unit(sample.y), unit(sample.z));
        assert!(0.0 <= x && x <= 1.0, "{}", x);
        assert!(0.0 <= y && y <= 1.0, "{}", y);
        assert!(0.0 <= z && z <= 1.0, "{}", z);
    }
}

#[test]
fn stratify_exact_values() {
    // Stratum 3 of 10 at offset one half: (3 + 0.5) / 10 = 0.35 of 2^32.
    assert_eq!(stratify(0x8000_0000, 3, 10), 1503238553);
    assert_eq!(stratify(0, 0, 1), 0);
    assert_eq!(stratify(u32::MAX, 0, 1), u32::MAX);
    assert_eq!(stratify(0, 1, 2), 0x8000_0000);
    // The last stratum ends just below 1.
    assert_eq!(stratify(u32::MAX, 9, 10), 4294967295);
    assert_eq!(stratify(7, 1, 3), 1431655767);
}

#[test]
fn stratified_round_visits_each_stratum_once() {
    let mut sampler = StratifiedSampler::new(8, 4, 2);
    for _round in 0..5 {
        let mut seen = vec![false; 8];
        for _ in 0..8 {
            let s = sampler.draw_1d();
            let stratum = (s.x as u64 * 8 / SAMPLE_SCALE) as usize;
            assert!(!seen[stratum]);
            seen[stratum] = true;
        }
        assert!(seen.iter().all(|b| *b));
        assert_eq!(sampler.indices[0], 0);
    }
}

#[test]
fn stratified_2d_cells_cover_grid() {
    let mut sampler = StratifiedSampler::new(3, 5, 1);
    let mut seen = vec![false; 15];
    for _ in 0..15 {
        let s = sampler.draw_2d();
        let cx = (s.x as u64 * 3 / SAMPLE_SCALE) as usize;
        let cy = (s.y as u64 * 5 / SAMPLE_SCALE) as usize;
        let cell = cy * 3 + cx;
        assert!(!seen[cell]);
        seen[cell] = true;
    }
    assert!(seen.iter().all(|b| *b));
}

#[test]
fn stratified_3d_cells_cover_grid() {
    let mut sampler = StratifiedSampler::new(2, 3, 4);
    let mut seen = vec![false; 24];
    for _ in 0..24 {
        let s = sampler.draw_3d();
        let cx = (s.x as u64 * 2 / SAMPLE_SCALE) as usize;
        let cy = (s.y as u64 * 3 / SAMPLE_SCALE) as usize;
        let cz = (s.z as u64 * 4 / SAMPLE_SCALE) as usize;
        let cell = cz * 6 + cy * 2 + cx;
        assert!(!seen[cell]);
        seen[cell] = true;
    }
    assert!(seen.iter().all(|b| *b));
}

#[test]
fn new_sampler_layout() {
    let s = StratifiedSampler::new(2, 3, 4);
    assert_eq!(s.dims, [2, 3, 4]);
    assert_eq!(s.indices, [0, 0, 0]);
    assert_eq!(s.first, vec![0, 1]);
    assert_eq!(s.second, (0..6).collect::<Vec<usize>>());
    assert_eq!(s.third, (0..24).collect::<Vec<usize>>());
}

#[test]
fn shuffled_strata_stay_a_permutation() {
    let mut sampler = StratifiedSampler::new(16, 1, 1);
    sampler.draw_1d();
    let mut order = sampler.first.clone();
    order.sort();
    assert_eq!(order, (0..16).collect::<Vec<usize>>());
}

#[test]
fn strata_order_is_reshuffled_each_round() {
    let mut sampler = StratifiedSampler::new(16, 1, 1);
    let ascending: Vec<usize> = (0..16).collect();
    let mut reordered = false;
    for _round in 0..4 {
        sampler.draw_1d();
        if sampler.first != ascending {
            reordered = true;
        }
        for _ in 0..15 {
            sampler.draw_1d();
        }
    }
    assert!(reordered);
}

#[test]
fn random_samples_vary() {
    let draws: Vec<u32> = (0..64).map(|_| Sample1D::new_random_sample().x).collect();
    assert!(draws.iter().any(|x| *x != draws[0]));
}
