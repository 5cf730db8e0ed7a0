use light_transport::aabb::{Point3, Ray};
use light_transport::instance::MaterialId;
use light_transport::integrator::{Bounds1D, PathTracingIntegrator};
use light_transport::pt::{choose_light_kind, path_radiance, sample_wavelength, VertexLight};
use light_transport::sample::{Sample1D, Sample2D, Sample3D, Sampler, SeededSampler};
use light_transport::sppm::{PhotonMap, SPPMIntegrator};
use light_transport::walk::{
    random_walk, russian_roulette, scatter_throughput, walk_step, Bounce, LightSample,
    LightSourceType, Scene, SurfaceHit, TransportMode, Vertex, VertexType, MAX_THROUGHPUT,
    THROUGHPUT_ONE,
};

const ONE: u64 = THROUGHPUT_ONE;

/// A sampler that replays a fixed stream of values.
struct Replay {
    values: Vec<u32>,
    next: usize,
}

impl Replay {
    fn new(values: Vec<u32>) -> Self {
        Replay { values, next: 0 }
    }
    fn take(&mut self) -> u32 {
        let v = self.values[self.next % self.values.len()];
        self.next += 1;
        v
    }
}

impl Sampler for Replay {
    fn inv(&self) -> bool {
        true
    }
    fn draw_1d(&mut self) -> Sample1D {
        Sample1D { x: self.take() }
    }
    fn draw_2d(&mut self) -> Sample2D {
        Sample2D { x: self.take(), y: self.take() }
    }
    fn draw_3d(&mut self) -> Sample3D {
        Sample3D { x: self.take(), y: self.take(), z: self.take() }
    }
}

fn hit_at(x: i32, light: bool) -> SurfaceHit {
    SurfaceHit {
        point: Point3::new(x, 0, 0),
        normal: Point3::new(0, 0, 1),
        material_id: MaterialId::Material(1),
        instance_id: 4,
        is_light: light,
    }
}

/// An enclosed, purely diffuse scene of unit albedo: every bounce meets a
/// wall and scatters with `weight == pdf`, so throughput is unchanged.
struct Enclosure {
    bounces: i32,
    emission: u64,
    lights: usize,
}

impl Scene for Enclosure {
    fn bounce(&mut self, ray: Ray, _wavelength: u32, _mode: TransportMode) -> Bounce {
        self.bounces += 1;
        Bounce::Scattered {
            hit: hit_at(self.bounces, false),
            next: ray,
            weight: 1 << 16,
            pdf: 1 << 16,
            pdf_backward: 1 << 16,
        }
    }
    fn emission(&mut self, _v: &Vertex, _prev: &Vertex) -> u64 {
        self.emission
    }
    fn light_pdf(&mut self, _v: &Vertex, _prev: &Vertex) -> u32 {
        1 << 16
    }
    fn light_count(&self) -> usize {
        self.lights
    }
    fn env_sampling_probability(&self) -> u32 {
        0
    }
    fn sample_emission(&mut self, _env: bool, _w: u32) -> Option<(Vertex, Ray)> {
        let v = Vertex {
            vertex_type: VertexType::LightSource(LightSourceType::Instance),
            wavelength: 550,
            point: Point3::new(0, 0, 0),
            normal: Point3::new(0, 0, 1),
            material_id: MaterialId::Light(0),
            instance_id: 1,
            throughput: 2 * ONE,
            pdf_forward: 1,
            pdf_backward: 1,
        };
        Some((v, Ray::new(Point3::new(0, 0, 0), Point3::new(0, 0, 1))))
    }
    fn sample_light(&mut self, _v: &Vertex, _prev: &Vertex, _env: bool) -> Option<LightSample> {
        Some(LightSample {
            reflectance: 1 << 16,
            emission: ONE,
            light_pdf: 1 << 16,
            scatter_pdf: 0,
            visible: true,
        })
    }
}

fn camera_vertex() -> Vertex {
    Vertex {
        vertex_type: VertexType::Camera,
        wavelength: 500,
        point: Point3::new(0, 0, 0),
        normal: Point3::new(1, 0, 0),
        material_id: MaterialId::Camera(0),
        instance_id: 0,
        throughput: ONE,
        pdf_forward: 0,
        pdf_backward: 0,
    }
}

fn ray() -> Ray {
    Ray::new(Point3::new(0, 0, 0), Point3::new(1, 0, 0))
}

#[test]
fn roulette_survival_matches_probability() {
    // Throughput one half: half of the sample range survives.
    let half = ONE / 2;
    assert_eq!(russian_roulette(half, 0), Some(ONE));
    assert_eq!(russian_roulette(half, (half - 1) as u32), Some(ONE));
    assert_eq!(russian_roulette(half, half as u32), None);
    assert_eq!(russian_roulette(half, u32::MAX), None);
    // At or above one the path always goes on, unchanged.
    assert_eq!(russian_roulette(3 * ONE, u32::MAX), Some(3 * ONE));
    assert_eq!(russian_roulette(ONE, u32::MAX), Some(ONE));
    // At zero it never does.
    assert_eq!(russian_roulette(0, 0), None);
    // Counting over an even grid of samples gives the configured rate.
    let quarter = ONE / 4;
    let survivors = (0..1024u64)
        .filter(|i| russian_roulette(quarter, (i * (ONE / 1024)) as u32).is_some())
        .count();
    assert_eq!(survivors, 256);
}

#[test]
fn scatter_throughput_formula_and_cap() {
    assert_eq!(scatter_throughput(ONE, 3, 4), 3 * ONE / 4);
    assert_eq!(scatter_throughput(ONE, 10, 10), ONE);
    assert_eq!(scatter_throughput(MAX_THROUGHPUT, 4, 1), MAX_THROUGHPUT);
    assert_eq!(scatter_throughput(7, 0, 9), 0);
}

#[test]
fn walk_step_decisions() {
    let (v, next) = walk_step(0, 0, ray(), 500, ONE, Bounce::Escaped, 0);
    assert_eq!(v.vertex_type, VertexType::LightSource(LightSourceType::Environment));
    assert!(next.is_none());
    let (v, next) = walk_step(0, 0, ray(), 500, ONE, Bounce::Absorbed(hit_at(1, true)), 0);
    assert_eq!(v.vertex_type, VertexType::LightSource(LightSourceType::Instance));
    assert_eq!(v.pdf_forward, 0);
    assert!(next.is_none());
    let zero_pdf = Bounce::Scattered { hit: hit_at(1, false), next: ray(), weight: 1, pdf: 0, pdf_backward: 0 };
    assert!(walk_step(0, 0, ray(), 500, ONE, zero_pdf, 0).1.is_none());
    let half = Bounce::Scattered { hit: hit_at(1, false), next: ray(), weight: 1, pdf: 2, pdf_backward: 5 };
    // Before the roulette threshold the scaled throughput goes on as it is.
    let (v, next) = walk_step(0, 3, ray(), 500, ONE, half, u32::MAX);
    assert_eq!(v.throughput, ONE);
    assert_eq!(v.pdf_forward, 2);
    assert_eq!(v.pdf_backward, 5);
    assert_eq!(next.unwrap().1, ONE / 2);
    // From it on, roulette decides and reweights.
    assert!(walk_step(3, 3, ray(), 500, ONE, half, u32::MAX).1.is_none());
    assert_eq!(walk_step(3, 3, ray(), 500, ONE, half, 0).1.unwrap().1, ONE);
}

#[test]
fn diffuse_enclosure_walks_stay_bounded() {
    let mut sampler = Replay::new(vec![0, 1 << 31, 3 << 30, 12345, u32::MAX]);
    for walk in 0..10_000u32 {
        let mut scene = Enclosure { bounces: 0, emission: 0, lights: 0 };
        let mut path = vec![camera_vertex()];
        let start = ONE >> (walk % 8);
        let n = random_walk(ray(), 500, 8, start, TransportMode::Importance, &mut sampler, &mut scene, &mut path, 2);
        assert!(n <= 8);
        assert_eq!(path.len(), 1 + n as usize);
        assert_eq!(path[1].throughput, start);
        for v in &path[1..] {
            assert!(v.throughput <= MAX_THROUGHPUT);
        }
    }
}

#[test]
fn walk_without_roulette_runs_to_max_bounces() {
    let mut sampler = Replay::new(vec![u32::MAX]);
    let mut scene = Enclosure { bounces: 0, emission: 0, lights: 0 };
    let mut path = Vec::new();
    let n = random_walk(ray(), 500, 6, ONE, TransportMode::Radiance, &mut sampler, &mut scene, &mut path, 100);
    assert_eq!(n, 6);
    assert_eq!(path.len(), 6);
    assert!(path.iter().all(|v| v.throughput == ONE && v.pdf_forward == 1 << 16));
}

#[test]
fn path_radiance_weights_emission() {
    let cam = camera_vertex();
    let mut light = camera_vertex();
    light.vertex_type = VertexType::LightSource(LightSourceType::Instance);
    light.throughput = ONE;
    // Previous vertex without a sampling density: full emission.
    let infos = vec![
        VertexLight { emission: 0, light_pdf: 0, direct: 0 },
        VertexLight { emission: 2 * ONE, light_pdf: 3, direct: 0 },
    ];
    assert_eq!(path_radiance(&vec![cam, light], &infos, 4, false), 2 * ONE);
    // With densities 1 and 1 the power heuristic halves it.
    let mut cam2 = cam;
    cam2.pdf_forward = 3;
    assert_eq!(path_radiance(&vec![cam2, light], &infos, 4, false), ONE);
    // No light samples: full emission again.
    assert_eq!(path_radiance(&vec![cam2, light], &infos, 0, false), 2 * ONE);
}

#[test]
fn path_radiance_averages_direct_light_and_stops_early() {
    let cam = camera_vertex();
    let mut s1 = camera_vertex();
    s1.vertex_type = VertexType::Surface;
    let mut s2 = s1;
    s2.throughput = ONE / 2;
    let infos = vec![
        VertexLight { emission: 0, light_pdf: 0, direct: 0 },
        VertexLight { emission: 0, light_pdf: 0, direct: 8 * ONE },
        VertexLight { emission: 0, light_pdf: 0, direct: 4 * ONE },
    ];
    let path = vec![cam, s1, s2];
    assert_eq!(path_radiance(&path, &infos, 4, false), 3 * ONE);
    assert_eq!(path_radiance(&path, &infos, 4, true), 2 * ONE);
    assert_eq!(path_radiance(&vec![cam], &infos[..1].to_vec(), 4, false), 0);
}

#[test]
fn direct_illumination_guards() {
    let s = LightSample { reflectance: 1 << 16, emission: ONE, light_pdf: 1 << 16, scatter_pdf: 1 << 16, visible: true };
    assert_eq!(PathTracingIntegrator::estimate_direct_illumination(ONE, Some(s)), ONE / 2);
    let blocked = LightSample { visible: false, ..s };
    assert_eq!(PathTracingIntegrator::estimate_direct_illumination(ONE, Some(blocked)), 0);
    let zero = LightSample { light_pdf: 0, ..s };
    assert_eq!(PathTracingIntegrator::estimate_direct_illumination(ONE, Some(zero)), 0);
    assert_eq!(PathTracingIntegrator::estimate_direct_illumination(ONE, None), 0);
    let only_light = LightSample { scatter_pdf: 0, ..s };
    assert_eq!(PathTracingIntegrator::estimate_direct_illumination(ONE, Some(only_light)), ONE);
}

#[test]
fn light_kind_choice() {
    assert_eq!(choose_light_kind(2, 1 << 30, 0), Some(true));
    assert_eq!(choose_light_kind(2, 1 << 30, 1 << 31), Some(false));
    assert_eq!(choose_light_kind(0, 1, u32::MAX), Some(true));
    assert_eq!(choose_light_kind(0, 0, 0), None);
}

#[test]
fn wavelength_sampling() {
    let b = Bounds1D { lower: 380, upper: 780 };
    assert_eq!(sample_wavelength(b, 0), 380);
    assert_eq!(sample_wavelength(b, 1 << 31), 580);
    assert_eq!(sample_wavelength(b, u32::MAX), 779);
}

fn pt(only_direct: bool) -> PathTracingIntegrator {
    PathTracingIntegrator {
        min_bounces: 2,
        max_bounces: 4,
        russian_roulette: true,
        light_samples: 2,
        only_direct,
        wavelength_bounds: Bounds1D { lower: 380, upper: 780 },
    }
}

#[test]
fn path_tracing_is_deterministic_for_equal_streams() {
    let stream = vec![7, 1 << 31, 99, 3 << 30, 0, 12, u32::MAX];
    let run = || {
        let mut sampler = Replay::new(stream.clone());
        let mut scene = Enclosure { bounces: 0, emission: ONE / 8, lights: 1 };
        pt(false).color(&mut sampler, &mut scene, ray())
    };
    let a = run();
    let b = run();
    assert_eq!(a, b);
    assert!(a.0 >= 380 && a.0 < 780);
    assert!(a.1 > 0);
}

#[test]
fn only_direct_counts_first_vertex() {
    let mut sampler = Replay::new(vec![u32::MAX]);
    let mut scene = Enclosure { bounces: 0, emission: 0, lights: 1 };
    let (_, e) = pt(true).color(&mut sampler, &mut scene, ray());
    // Two light samples of one each (the material cannot sample the light's
    // direction, so light sampling gets the full weight), averaged.
    assert_eq!(e, ONE);
}

#[test]
fn photon_collection_size_is_sum_of_beams() {
    let mut v = camera_vertex();
    v.point = Point3::new(1, 2, 3);
    let beams = vec![vec![v; 3], vec![], vec![v; 5]];
    let map = PhotonMap::from_beams(&beams);
    assert_eq!(map.photons.len(), 8);
    assert_eq!(map.photons.len(), beams.len() * 8 / 3);
}

#[test]
fn sppm_preprocess_and_gather() {
    let mut integrator = SPPMIntegrator {
        max_bounces: 3,
        russian_roulette: true,
        camera_samples: 1,
        wavelength_bounds: Bounds1D { lower: 380, upper: 780 },
        gather_radius2: 4,
        photon_map: None,
    };
    let mut sampler = Replay::new(vec![0, u32::MAX, 1 << 31]);
    let mut scene = Enclosure { bounces: 0, emission: 0, lights: 1 };
    integrator.preprocess(&mut scene, &mut sampler, 100);
    let map = integrator.photon_map.as_ref().unwrap();
    assert!(map.photons.len() <= 100 * 4);
    assert!(map.photons.len() >= 100);
    assert!(map.photons.iter().all(|p| p.throughput <= MAX_THROUGHPUT));
    // Photons at distance at most 2 from (1, 0, 0).
    let near = map.photons.iter().filter(|p| {
        let (dx, dy, dz) = (p.point.x as i64 - 1, p.point.y as i64, p.point.z as i64);
        dx * dx + dy * dy + dz * dz <= 4
    });
    let expected: u64 = near.map(|p| p.throughput).sum::<u64>().min(MAX_THROUGHPUT);
    assert_eq!(map.gather(Point3::new(1, 0, 0), 4), expected);
    assert!(expected > 0);
    let (_, e) = integrator.color(&mut sampler, &mut scene, ray(), 100);
    assert!(e <= MAX_THROUGHPUT);
}

#[test]
fn light_loop_zero_cases_and_sum() {
    let mut v = camera_vertex();
    v.vertex_type = VertexType::Surface;
    let prev = camera_vertex();
    let mut scene = Enclosure { bounces: 0, emission: 0, lights: 1 };
    let mut sampler = Replay::new(vec![u32::MAX]);
    let integrator = pt(false);
    // Neither lights nor environment: nothing, and no draw.
    assert_eq!(integrator.estimate_direct_illumination_with_loop(&v, &prev, 0, 0, &mut scene, &mut sampler), 0);
    assert_eq!(sampler.next, 0);
    // No light samples: nothing, and no draw.
    let mut none = pt(false);
    none.light_samples = 0;
    assert_eq!(none.estimate_direct_illumination_with_loop(&v, &prev, 1, 0, &mut scene, &mut sampler), 0);
    assert_eq!(sampler.next, 0);
    // Two samples of one each (full weight), summed, one draw per sample.
    assert_eq!(integrator.estimate_direct_illumination_with_loop(&v, &prev, 1, 0, &mut scene, &mut sampler), 2 * ONE);
    assert_eq!(sampler.next, 2);
    // Environment only: no draws.
    assert_eq!(integrator.estimate_direct_illumination_with_loop(&v, &prev, 0, 7, &mut scene, &mut sampler), 2 * ONE);
    assert_eq!(sampler.next, 2);
}

#[test]
fn seeded_samplers_repeat_and_color_is_deterministic() {
    let mut a = SeededSampler::new(42);
    let mut b = SeededSampler::new(42);
    let mut c = SeededSampler::new(43);
    let xa: Vec<u32> = (0..16).map(|_| a.draw_1d().x).collect();
    let xb: Vec<u32> = (0..16).map(|_| b.draw_1d().x).collect();
    let xc: Vec<u32> = (0..16).map(|_| c.draw_1d().x).collect();
    assert_eq!(xa, xb);
    assert_ne!(xa, xc);
    let run = |seed: u64| {
        let mut sampler = SeededSampler::new(seed);
        let mut scene = Enclosure { bounces: 0, emission: ONE / 8, lights: 1 };
        let r = pt(false).color(&mut sampler, &mut scene, ray());
        (r, sampler.draw_1d().x)
    };
    assert_eq!(run(7), run(7));
}

#[test]
fn camera_walk_of_zero_bounces_is_dark() {
    let mut p = pt(false);
    p.max_bounces = 0;
    let mut sampler = Replay::new(vec![1 << 31]);
    let mut scene = Enclosure { bounces: 0, emission: ONE, lights: 1 };
    assert_eq!(p.color(&mut sampler, &mut scene, ray()), (580, 0));
    assert_eq!(scene.bounces, 0);
}

#[test]
fn beams_start_at_lights() {
    let mut integrator = SPPMIntegrator {
        max_bounces: 2,
        russian_roulette: false,
        camera_samples: 1,
        wavelength_bounds: Bounds1D { lower: 380, upper: 780 },
        gather_radius2: 4,
        photon_map: None,
    };
    let mut sampler = Replay::new(vec![0, u32::MAX]);
    let mut scene = Enclosure { bounces: 0, emission: 0, lights: 1 };
    integrator.preprocess(&mut scene, &mut sampler, 10);
    let photons = &integrator.photon_map.as_ref().unwrap().photons;
    // Without roulette every beam is a light vertex and two bounces.
    assert_eq!(photons.len(), 30);
    for beam in photons.chunks(3) {
        assert!(matches!(beam[0].vertex_type, VertexType::LightSource(_)));
        assert_eq!(beam[0].throughput, 2 * ONE);
        assert!(beam[1..].iter().all(|v| v.vertex_type == VertexType::Surface));
    }
}
