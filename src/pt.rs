//! The unidirectional path tracer: a camera walk, emission weighted by
//! multiple importance sampling and next-event estimation at each surface.
//!
//! Energies share the throughput's fixed-point unit and cap.

use vstd::prelude::*;
use crate::aabb::Ray;
use crate::instance::MaterialId;
use crate::integrator::{Bounds1D, PathTracingIntegrator};
use crate::mis::{Weight, lemma_power_heuristic_laws, power_heuristic, power_weight};
use crate::sample::{SAMPLE_SCALE, Sampler};
use crate::walk::{
    LightSample, LightSourceType, MAX_THROUGHPUT, Scene, THROUGHPUT_ONE, TransportMode, Vertex,
    VertexType, is_walk, random_walk, scatter_throughput, scattered_throughput,
};

verus! {

/// An estimator that turns one camera ray into one radiance sample: a
/// wavelength and the energy carried at it.
pub trait SamplerIntegrator {
    /// The estimator's settings are usable.
    spec fn ready(&self) -> bool;

    fn is_ready(&self) -> (r: bool)
        ensures
            r == self.ready(),
    ;

    fn color<S: Scene, R: Sampler>(&self, sampler: &mut R, world: &mut S, camera_ray: Ray) -> (r: (
        u32,
        u64,
    ))
        requires
            self.ready(),
            old(sampler).inv(),
        ensures
            final(sampler).inv(),
            r.1 <= MAX_THROUGHPUT,
    ;
}

/// `x` capped at the largest energy.
pub open spec fn cap(x: u64) -> u64 {
    if x > MAX_THROUGHPUT {
        MAX_THROUGHPUT
    } else {
        x
    }
}

/// The fixed-point product `a · b`, inputs and result capped.
pub open spec fn fp_mul(a: u64, b: u64) -> u64 {
    let q = (cap(a) as int * cap(b) as int) / THROUGHPUT_ONE as int;
    if q > MAX_THROUGHPUT as int {
        MAX_THROUGHPUT
    } else {
        q as u64
    }
}

/// `e` scaled by the weight `w`, rounded down.
pub open spec fn weighted(e: u64, w: Weight) -> u64 {
    ((cap(e) as int * w.num as int) / w.den as int) as u64
}

/// `a + b`, capped.
pub open spec fn sat_add(a: u64, b: u64) -> u64 {
    cap(if a as int + b as int > MAX_THROUGHPUT as int {
        MAX_THROUGHPUT
    } else {
        (a + b) as u64
    })
}

fn cap_energy(x: u64) -> (r: u64)
    ensures
        r == cap(x),
{
    if x > MAX_THROUGHPUT {
        MAX_THROUGHPUT
    } else {
        x
    }
}

fn mul_energy(a: u64, b: u64) -> (r: u64)
    ensures
        r == fp_mul(a, b),
        r <= MAX_THROUGHPUT,
{
    let (x, y) = (cap_energy(a) as u128, cap_energy(b) as u128);
    assert(x * y <= 0x1_0000_0000_0000_0000_0000_0000int) by (nonlinear_arith)
        requires
            x <= 0x1_0000_0000_0000,
            y <= 0x1_0000_0000_0000,
    ;
    let q = x * y / (THROUGHPUT_ONE as u128);
    if q > MAX_THROUGHPUT as u128 {
        MAX_THROUGHPUT
    } else {
        q as u64
    }
}

fn apply_weight(e: u64, w: Weight) -> (r: u64)
    requires
        w.den > 0,
        w.num <= w.den,
        w.den <= 0x2_0000_0000_0000_0000,
    ensures
        r == weighted(e, w),
        r <= cap(e),
{
    let x = cap_energy(e) as u128;
    assert(x * w.den <= 0x2_0000_0000_0000_0000_0000_0000_0000int) by (nonlinear_arith)
        requires
            x <= 0x1_0000_0000_0000,
            w.den <= 0x2_0000_0000_0000_0000,
    ;
    assert(x * w.num <= x * w.den) by (nonlinear_arith)
        requires
            w.num <= w.den,
    ;
    let q = x * w.num / w.den;
    assert(q <= x) by (nonlinear_arith)
        requires
            q == (x * w.num) as int / w.den as int,
            x * w.num <= x * w.den,
            w.den > 0,
    ;
    q as u64
}

fn add_energy(a: u64, b: u64) -> (r: u64)
    ensures
        r == sat_add(a, b),
        r <= MAX_THROUGHPUT,
{
    if a as u128 + b as u128 > MAX_THROUGHPUT as u128 {
        MAX_THROUGHPUT
    } else {
        cap_energy(a + b)
    }
}

/// The weight of emission reached by BSDF sampling from `prev`, against
/// reaching it by light sampling.
pub open spec fn emission_weight(prev: Vertex, info: VertexLight) -> Weight {
    power_weight(prev.pdf_forward, info.light_pdf)
}

/// The weight of a light sample, against reaching its light by BSDF
/// sampling.
pub open spec fn light_weight(l: LightSample) -> Weight {
    power_weight(l.light_pdf, l.scatter_pdf)
}

/// The estimator's two strategies share each light direction: where a
/// light sample and a BSDF-sampled hit of the light have the same two
/// densities, the weight the estimator gives the hit's emission and the
/// weight it gives the light sample add up to one, as fractions. One of
/// the densities must be positive.
pub proof fn lemma_strategy_weights_sum_to_one(prev: Vertex, info: VertexLight, l: LightSample)
    requires
        l.light_pdf == info.light_pdf,
        l.scatter_pdf == prev.pdf_forward,
        prev.pdf_forward > 0 || info.light_pdf > 0,
    ensures
        emission_weight(prev, info).num * light_weight(l).den + light_weight(l).num
            * emission_weight(prev, info).den == emission_weight(prev, info).den * light_weight(
            l,
        ).den,
{
    lemma_power_heuristic_laws(prev.pdf_forward, info.light_pdf);
}

/// One next-event estimate: the sampled light's emission, carried by the
/// throughput and the reflectance over the light density, and weighted
/// against BSDF sampling by the power heuristic. A missing sample, a zero
/// density or a blocked shadow ray contribute nothing.
pub open spec fn direct_estimate(throughput: u64, s: Option<LightSample>) -> u64 {
    match s {
        None => 0,
        Some(l) => {
            if l.light_pdf == 0 || !l.visible {
                0
            } else {
                weighted(
                    fp_mul(
                        scattered_throughput(cap(throughput), l.reflectance, l.light_pdf),
                        l.emission,
                    ),
                    light_weight(l),
                )
            }
        },
    }
}

/// Whether one light sample goes to the environment (`Some(true)`), to the
/// lights (`Some(false)`) or nowhere (`None`): with lights present the
/// uniform `x` picks the environment with the configured probability;
/// without, the environment is sampled when its probability is positive.
pub open spec fn light_choice(light_count: usize, env_probability: u32, x: u32) -> Option<bool> {
    if light_count > 0 {
        Some(x < env_probability)
    } else if env_probability > 0 {
        Some(true)
    } else {
        None
    }
}

pub fn choose_light_kind(light_count: usize, env_probability: u32, x: u32) -> (r: Option<bool>)
    ensures
        r == light_choice(light_count, env_probability, x),
{
    if light_count > 0 {
        Some(x < env_probability)
    } else if env_probability > 0 {
        Some(true)
    } else {
        None
    }
}

/// What the scene reported for one path vertex.
#[derive(Clone, Copy, Debug)]
pub struct VertexLight {
    /// The radiance leaving the vertex toward the previous one.
    pub emission: u64,
    /// The density of reaching the vertex by light sampling.
    pub light_pdf: u32,
    /// The sum of the next-event estimates made at the vertex.
    pub direct: u64,
}

/// The contribution of vertex `v`, reached from `prev`: the environment's
/// radiance, or emitted light (weighted by the power heuristic against
/// light sampling unless the previous vertex had no sampling density or no
/// light samples are taken) plus the average of the next-event estimates
/// at a surface.
pub open spec fn vertex_term(v: Vertex, prev: Vertex, info: VertexLight, light_samples: u16) -> u64 {
    if v.vertex_type == VertexType::LightSource(LightSourceType::Environment) {
        fp_mul(info.emission, v.throughput)
    } else {
        let e = if info.emission == 0 {
            0
        } else if prev.pdf_forward == 0 || light_samples == 0 {
            fp_mul(v.throughput, info.emission)
        } else {
            weighted(fp_mul(v.throughput, info.emission), emission_weight(prev, info))
        };
        let d = if v.vertex_type == VertexType::Surface && light_samples > 0 {
            (cap(info.direct) as int / light_samples as int) as u64
        } else {
            0
        };
        sat_add(e, d)
    }
}

/// The sum of the contributions of vertices `1..n`.
pub open spec fn radiance_upto(
    path: Seq<Vertex>,
    infos: Seq<VertexLight>,
    light_samples: u16,
    n: int,
) -> u64
    decreases n,
{
    if n <= 1 {
        0
    } else {
        sat_add(
            radiance_upto(path, infos, light_samples, n - 1),
            vertex_term(path[n - 1], path[n - 2], infos[n - 1], light_samples),
        )
    }
}

/// The vertices that count: all, or with `only_direct` the first after the
/// camera.
pub open spec fn counted(len: int, only_direct: bool) -> int {
    if only_direct && len > 2 {
        2
    } else {
        len
    }
}

/// The radiance estimate of a camera path.
pub open spec fn path_radiance_spec(
    path: Seq<Vertex>,
    infos: Seq<VertexLight>,
    light_samples: u16,
    only_direct: bool,
) -> u64 {
    radiance_upto(path, infos, light_samples, counted(path.len() as int, only_direct))
}

fn vertex_contribution(v: &Vertex, prev: &Vertex, info: &VertexLight, light_samples: u16) -> (r: u64)
    ensures
        r == vertex_term(*v, *prev, *info, light_samples),
        r <= MAX_THROUGHPUT,
{
    if v.vertex_type == VertexType::LightSource(LightSourceType::Environment) {
        return mul_energy(info.emission, v.throughput);
    }
    let e = if info.emission == 0 {
        0
    } else if prev.pdf_forward == 0 || light_samples == 0 {
        mul_energy(v.throughput, info.emission)
    } else {
        apply_weight(
            mul_energy(v.throughput, info.emission),
            power_heuristic(prev.pdf_forward, info.light_pdf),
        )
    };
    let d = if v.vertex_type == VertexType::Surface && light_samples > 0 {
        cap_energy(info.direct) / (light_samples as u64)
    } else {
        0
    };
    add_energy(e, d)
}

/// Sums the contributions of a camera path's vertices after the camera;
/// with `only_direct`, of the first one only.
pub fn path_radiance(
    path: &Vec<Vertex>,
    infos: &Vec<VertexLight>,
    light_samples: u16,
    only_direct: bool,
) -> (r: u64)
    requires
        infos.len() == path.len(),
    ensures
        r == path_radiance_spec(path@, infos@, light_samples, only_direct),
        r <= MAX_THROUGHPUT,
{
    let n: usize = if only_direct && path.len() > 2 {
        2
    } else {
        path.len()
    };
    let mut sum: u64 = 0;
    let mut k: usize = 1;
    while k < n
        invariant
            1 <= k,
            n == counted(path.len() as int, only_direct),
            n <= path.len(),
            infos.len() == path.len(),
            k <= n || n <= 1,
            n <= 1 ==> k == 1,
            sum == radiance_upto(path@, infos@, light_samples, k as int),
            sum <= MAX_THROUGHPUT,
        decreases n - k,
    {
        let c = vertex_contribution(&path[k], &path[k - 1], &infos[k], light_samples);
        sum = add_energy(sum, c);
        k += 1;
    }
    assert(n <= 1 ==> radiance_upto(path@, infos@, light_samples, n as int) == 0);
    assert(n > 1 ==> k == n);
    sum
}

/// A wavelength drawn uniformly from `bounds` with the uniform `x`.
pub open spec fn wavelength_of(bounds: Bounds1D, x: u32) -> int {
    bounds.lower + ((bounds.upper - bounds.lower) * x) / SAMPLE_SCALE as int
}

pub fn sample_wavelength(bounds: Bounds1D, x: u32) -> (lambda: u32)
    requires
        bounds.lower <= bounds.upper,
    ensures
        lambda == wavelength_of(bounds, x),
        bounds.lower <= lambda <= bounds.upper,
        bounds.lower < bounds.upper ==> lambda < bounds.upper,
{
    let span = (bounds.upper - bounds.lower) as u64;
    assert(span * x <= span * 0xffff_ffff) by (nonlinear_arith)
        requires
            x <= 0xffff_ffff,
    ;
    let offset = span * (x as u64) / SAMPLE_SCALE;
    assert(offset <= span && (span > 0 ==> offset < span)) by (nonlinear_arith)
        requires
            offset == span * x / 0x1_0000_0000,
            x < 0x1_0000_0000,
    ;
    bounds.lower + offset as u32
}

impl PathTracingIntegrator {
    /// One next-event estimate at a vertex of throughput `throughput` from
    /// the light sample `s`.
    pub fn estimate_direct_illumination(throughput: u64, s: Option<LightSample>) -> (r: u64)
        ensures
            r == direct_estimate(throughput, s),
            r <= MAX_THROUGHPUT,
    {
        match s {
            None => 0,
            Some(l) => {
                if l.light_pdf == 0 || !l.visible {
                    0
                } else {
                    let carried = scatter_throughput(
                        cap_energy(throughput),
                        l.reflectance,
                        l.light_pdf,
                    );
                    let r = apply_weight(
                        mul_energy(carried, l.emission),
                        power_heuristic(l.light_pdf, l.scatter_pdf),
                    );
                    r
                }
            },
        }
    }

    /// The sum of the next-event estimates at `v`: `light_samples` of
    /// them, each from the lights or the environment as `light_choice`
    /// decides, or none when there is neither a light nor an environment to
    /// sample. `light_count` and `env_probability` are the scene's.
    pub fn estimate_direct_illumination_with_loop<S: Scene, R: Sampler>(
        &self,
        v: &Vertex,
        prev: &Vertex,
        light_count: usize,
        env_probability: u32,
        world: &mut S,
        sampler: &mut R,
    ) -> (r: u64)
        requires
            old(sampler).inv(),
        ensures
            final(sampler).inv(),
            r <= MAX_THROUGHPUT,
            (self.light_samples == 0 || (light_count == 0 && env_probability == 0)) ==> r == 0
                && *final(sampler) == *old(sampler),
            exists|ests: Seq<Option<LightSample>>|
                ests.len() == samples_taken(self.light_samples, light_count, env_probability)
                    && r == #[trigger] direct_sum(v.throughput, ests),
    {
        if light_count == 0 && env_probability == 0 {
            assert(direct_sum(v.throughput, seq![]) == 0);
            return 0;
        }
        let ghost s0 = *sampler;
        let ghost mut ests: Seq<Option<LightSample>> = seq![];
        let mut sum: u64 = 0;
        let mut i: u16 = 0;
        while i < self.light_samples
            invariant
                sampler.inv(),
                sum <= MAX_THROUGHPUT,
                !(light_count == 0 && env_probability == 0),
                i <= self.light_samples,
                ests.len() == i,
                sum == direct_sum(v.throughput, ests),
                i == 0 ==> *sampler == s0,
            decreases self.light_samples - i,
        {
            let x = if light_count > 0 {
                sampler.draw_1d().x
            } else {
                0
            };
            match choose_light_kind(light_count, env_probability, x) {
                Some(from_environment) => {
                    let s = world.sample_light(v, prev, from_environment);
                    let e = PathTracingIntegrator::estimate_direct_illumination(v.throughput, s);
                    proof {
                        assert(ests.push(s).drop_last() =~= ests);
                        ests = ests.push(s);
                    }
                    sum = add_energy(sum, e);
                },
                None => {},
            }
            i += 1;
        }
        sum
    }

    /// One radiance sample along `camera_ray`: a wavelength drawn from the
    /// configured bounds and the energy that the camera walk gathers at it.
    pub fn color<S: Scene, R: Sampler>(&self, sampler: &mut R, world: &mut S, camera_ray: Ray) -> (r: (
        u32,
        u64,
    ))
        requires
            old(sampler).inv(),
            self.wavelength_bounds.lower <= self.wavelength_bounds.upper,
        ensures
            final(sampler).inv(),
            self.wavelength_bounds.lower <= r.0 <= self.wavelength_bounds.upper,
            exists|x: u32| r.0 == #[trigger] wavelength_of(self.wavelength_bounds, x),
            r.1 <= MAX_THROUGHPUT,
            self.max_bounces == 0 ==> r.1 == 0,
            exists|p: Seq<Vertex>, infos: Seq<VertexLight>|
                {
                    &&& 1 <= p.len() <= self.max_bounces + 1
                    &&& p[0] == camera_vertex(camera_ray, r.0)
                    &&& is_walk(
                        p.drop_first(),
                        camera_ray,
                        r.0,
                        THROUGHPUT_ONE,
                        self.roulette_start() as int,
                        self.max_bounces as int,
                    )
                    &&& infos.len() == p.len()
                    &&& forall|k: int|
                        counted(p.len() as int, self.only_direct) <= k < p.len() ==> #[trigger] infos[k]
                            == no_light()
                    &&& r.1 == #[trigger] path_radiance_spec(
                        p,
                        infos,
                        self.light_samples,
                        self.only_direct,
                    )
                },
    {
        let lambda = sample_wavelength(self.wavelength_bounds, sampler.draw_1d().x);
        let mut path: Vec<Vertex> = Vec::new();
        path.push(
            Vertex {
                vertex_type: VertexType::Camera,
                wavelength: lambda,
                point: camera_ray.origin,
                normal: camera_ray.direction,
                material_id: MaterialId::Camera(0),
                instance_id: 0,
                throughput: THROUGHPUT_ONE,
                pdf_forward: 0,
                pdf_backward: 0,
            },
        );
        let ghost cam = path@;
        // Without roulette the walk ends only by `max_bounces`.
        let roulette_from = if self.russian_roulette {
            self.min_bounces
        } else {
            self.max_bounces
        };
        let _ = random_walk(
            camera_ray,
            lambda,
            self.max_bounces,
            THROUGHPUT_ONE,
            TransportMode::Importance,
            sampler,
            world,
            &mut path,
            roulette_from,
        );
        proof {
            assert(path@.drop_first() =~= path@.subrange(1, path.len() as int));
        }
        let n: usize = if self.only_direct && path.len() > 2 {
            2
        } else {
            path.len()
        };
        let light_count = world.light_count();
        let env_probability = world.env_sampling_probability();
        let mut infos: Vec<VertexLight> = Vec::new();
        infos.push(VertexLight { emission: 0, light_pdf: 0, direct: 0 });
        let mut k: usize = 1;
        while k < path.len()
            invariant
                1 <= k <= path.len(),
                infos.len() == k,
                sampler.inv(),
                n == counted(path.len() as int, self.only_direct),
                n >= 1 || path.len() == 0,
                forall|j: int| n <= j < k ==> #[trigger] infos@[j] == no_light(),
            decreases path.len() - k,
        {
            let v = path[k];
            let prev = path[k - 1];
            let mut info = VertexLight { emission: 0, light_pdf: 0, direct: 0 };
            if k < n {
                info.emission = world.emission(&v, &prev);
                if info.emission > 0 && prev.pdf_forward > 0 && self.light_samples > 0
                    && v.vertex_type != VertexType::LightSource(LightSourceType::Environment) {
                    info.light_pdf = world.light_pdf(&v, &prev);
                }
                if v.vertex_type == VertexType::Surface && self.light_samples > 0 {
                    info.direct = self.estimate_direct_illumination_with_loop(
                        &v,
                        &prev,
                        light_count,
                        env_probability,
                        world,
                        sampler,
                    );
                }
            }
            infos.push(info);
            k += 1;
        }
        let e = path_radiance(&path, &infos, self.light_samples, self.only_direct);
        proof {
            assert(path@[0] == cam[0]);
            if self.max_bounces == 0 {
                assert(path.len() == 1);
            }
        }
        (lambda, e)
    }
}

/// The camera vertex that starts a path along `ray` at `wavelength`.
pub open spec fn camera_vertex(ray: Ray, wavelength: u32) -> Vertex {
    Vertex {
        vertex_type: VertexType::Camera,
        wavelength,
        point: ray.origin,
        normal: ray.direction,
        material_id: MaterialId::Camera(0),
        instance_id: 0,
        throughput: THROUGHPUT_ONE,
        pdf_forward: 0,
        pdf_backward: 0,
    }
}

/// A vertex for which the scene was asked nothing.
pub open spec fn no_light() -> VertexLight {
    VertexLight { emission: 0, light_pdf: 0, direct: 0 }
}

/// The capped sum of the next-event estimates for the light samples `ests`.
pub open spec fn direct_sum(t: u64, ests: Seq<Option<LightSample>>) -> u64
    decreases ests.len(),
{
    if ests.len() == 0 {
        0
    } else {
        sat_add(direct_sum(t, ests.drop_last()), direct_estimate(t, ests.last()))
    }
}

/// How many light samples the loop takes: none without lights and
/// environment, else `light_samples`.
pub open spec fn samples_taken(light_samples: u16, light_count: usize, env_probability: u32) -> nat {
    if light_count == 0 && env_probability == 0 {
        0
    } else {
        light_samples as nat
    }
}

impl PathTracingIntegrator {
    /// The bounce from which roulette may end the camera walk: never when
    /// roulette is off.
    pub open spec fn roulette_start(&self) -> u16 {
        if self.russian_roulette {
            self.min_bounces
        } else {
            self.max_bounces
        }
    }
}

impl SamplerIntegrator for PathTracingIntegrator {
    open spec fn ready(&self) -> bool {
        self.wavelength_bounds.lower <= self.wavelength_bounds.upper
    }

    fn is_ready(&self) -> bool {
        self.wavelength_bounds.lower <= self.wavelength_bounds.upper
    }

    fn color<S: Scene, R: Sampler>(&self, sampler: &mut R, world: &mut S, camera_ray: Ray) -> (u32, u64) {
        PathTracingIntegrator::color(self, sampler, world, camera_ray)
    }
}

} // verus!
