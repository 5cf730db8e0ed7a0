//! The random walk shared by the estimators: a path built bounce by bounce
//! by intersection, material sampling and Russian roulette.
//!
//! Throughput and densities are unsigned fixed-point values with
//! `THROUGHPUT_ONE` standing for 1; throughput is capped at
//! `MAX_THROUGHPUT`, so it stays finite and non-negative at every step.

use vstd::prelude::*;
use vstd::set_lib::{lemma_int_range, set_int_range};
use crate::aabb::{Point3, Ray, Vec3};
use crate::instance::MaterialId;
use crate::sample::{SAMPLE_SCALE, Sampler};

verus! {

/// The fixed-point unit of throughput.
pub const THROUGHPUT_ONE: u64 = 0x1_0000_0000;

/// The cap on throughput: 65536 in units of `THROUGHPUT_ONE`.
pub const MAX_THROUGHPUT: u64 = 0x1_0000_0000_0000;

/// Whether a walk carries importance from the camera or radiance from a
/// light.
#[derive(Clone, Copy, Debug, PartialEq, Eq, Structural)]
pub enum TransportMode {
    Importance,
    Radiance,
}

#[derive(Clone, Copy, Debug, PartialEq, Eq, Structural)]
pub enum LightSourceType {
    Instance,
    Environment,
}

#[derive(Clone, Copy, Debug, PartialEq, Eq, Structural)]
pub enum VertexType {
    Camera,
    Surface,
    LightSource(LightSourceType),
}

/// One node of a light path.
#[derive(Clone, Copy, Debug)]
pub struct Vertex {
    pub vertex_type: VertexType,
    pub wavelength: u32,
    pub point: Point3,
    pub normal: Vec3,
    pub material_id: MaterialId,
    pub instance_id: usize,
    /// The throughput with which the path arrives here.
    pub throughput: u64,
    /// The density of the direction sampled here; 0 where the path ends.
    pub pdf_forward: u32,
    /// The density of sampling the reverse direction.
    pub pdf_backward: u32,
}

/// A surface point that a ray met.
#[derive(Clone, Copy, Debug)]
pub struct SurfaceHit {
    pub point: Point3,
    pub normal: Vec3,
    pub material_id: MaterialId,
    pub instance_id: usize,
    /// The surface emits light.
    pub is_light: bool,
}

/// What one bounce met, as the scene reports it.
#[derive(Clone, Copy, Debug)]
pub enum Bounce {
    /// The ray left the scene and sees the environment.
    Escaped,
    /// The ray met a surface whose material produced no outgoing direction.
    Absorbed(SurfaceHit),
    /// The ray met a surface and the material sampled `next`, with
    /// `weight = f(wi, wo) |cos θ|` and densities `pdf` (of `next`) and
    /// `pdf_backward`, `weight` and `pdf` in one fixed-point unit.
    Scattered { hit: SurfaceHit, next: Ray, weight: u64, pdf: u32, pdf_backward: u32 },
}

/// One light sample for shading a surface point, its shadow ray tested.
#[derive(Clone, Copy, Debug)]
pub struct LightSample {
    /// `f(wi, wo) |cos θ|` toward the light, in the unit of `light_pdf`.
    pub reflectance: u64,
    /// The radiance the light sends toward the shading point.
    pub emission: u64,
    /// The density of this light sample, light pick included.
    pub light_pdf: u32,
    /// The density with which the material samples the same direction.
    pub scatter_pdf: u32,
    /// The shadow ray reached the light unoccluded.
    pub visible: bool,
}

/// What the estimators ask of the scene (world, materials and lights).
/// Nothing is assumed of the answers.
pub trait Scene {
    /// Traces `ray` one bounce and, at a surface, samples the material.
    fn bounce(&mut self, ray: Ray, wavelength: u32, mode: TransportMode) -> Bounce;

    /// The radiance leaving `v` toward `prev`; for an environment vertex,
    /// what the environment sends along the escaped ray.
    fn emission(&mut self, v: &Vertex, prev: &Vertex) -> u64;

    /// The density of reaching `v` from `prev` by sampling a light.
    fn light_pdf(&mut self, v: &Vertex, prev: &Vertex) -> u32;

    /// The number of lights.
    fn light_count(&self) -> usize;

    /// The probability, in units of `2^-32`, of sampling the environment
    /// rather than a light.
    fn env_sampling_probability(&self) -> u32;

    /// Samples light leaving a light (the environment when
    /// `from_environment`): the start vertex, whose throughput is the
    /// emitted energy, and the ray it leaves along.
    fn sample_emission(&mut self, from_environment: bool, wavelength_sample: u32) -> Option<
        (Vertex, Ray),
    >;

    /// Samples a light (the environment when `from_environment`) for
    /// shading `v`, reached from `prev`.
    fn sample_light(&mut self, v: &Vertex, prev: &Vertex, from_environment: bool) -> Option<
        LightSample,
    >;
}

pub open spec fn min_nat(a: int, b: int) -> int {
    if a <= b {
        a
    } else {
        b
    }
}

/// The throughput after a scattering event: `t · weight / pdf`, rounded
/// down and capped.
pub open spec fn scattered_throughput(t: u64, weight: u64, pdf: u32) -> u64 {
    min_nat((t as int * weight as int) / pdf as int, MAX_THROUGHPUT as int) as u64
}

pub fn scatter_throughput(throughput: u64, weight: u64, pdf: u32) -> (r: u64)
    requires
        pdf > 0,
        throughput <= MAX_THROUGHPUT,
    ensures
        r == scattered_throughput(throughput, weight, pdf),
        r <= MAX_THROUGHPUT,
{
    let (a, b) = (throughput as u128, weight as u128);
    assert(a * b <= 0x1_0000_0000_0000_0000_0000_0000_0000int) by (nonlinear_arith)
        requires
            a <= 0x1_0000_0000_0000,
            b <= 0xffff_ffff_ffff_ffff,
    ;
    let product = a * b;
    let q = product / (pdf as u128);
    if q >= MAX_THROUGHPUT as u128 {
        MAX_THROUGHPUT
    } else {
        q as u64
    }
}

/// The probability, in sample units of `2^-32`, that roulette lets a path
/// of throughput `t` go on: `min(t, 1)`.
pub open spec fn survival(t: u64) -> int {
    min_nat(t as int, THROUGHPUT_ONE as int)
}

/// Russian roulette with uniform sample `u / 2^32`: the path goes on when
/// `u` falls below the survival probability, and its throughput is then
/// divided by that probability.
pub open spec fn roulette(t: u64, u: int) -> Option<u64> {
    if u < survival(t) {
        Some(
            if t >= THROUGHPUT_ONE {
                t
            } else {
                THROUGHPUT_ONE
            },
        )
    } else {
        None
    }
}

/// Plays Russian roulette on `throughput` with the uniform `sample`;
/// `None` ends the path, `Some` gives the reweighted throughput.
pub fn russian_roulette(throughput: u64, sample: u32) -> (r: Option<u64>)
    ensures
        r == roulette(throughput, sample as int),
{
    let p: u64 = if throughput >= THROUGHPUT_ONE {
        THROUGHPUT_ONE
    } else {
        throughput
    };
    if (sample as u64) < p {
        // Dividing by the survival probability `p / 1` leaves `1` when
        // `p < 1`, and the throughput itself otherwise.
        if throughput >= THROUGHPUT_ONE {
            Some(throughput)
        } else {
            Some(THROUGHPUT_ONE)
        }
    } else {
        None
    }
}

/// Roulette survives with exactly the survival probability: of the `2^32`
/// equally likely sample values, those that let a path of throughput `t`
/// go on are the first `survival(t)`, so their share is `min(t, 1)`. The
/// surviving throughput divided by one over that share is the throughput
/// before, so the estimate stays unbiased where `0 < t < 1`.
pub proof fn lemma_roulette_survival_rate(t: u64)
    ensures
        Set::new(|u: int| 0 <= u < SAMPLE_SCALE && roulette(t, u) is Some) == set_int_range(
            0,
            survival(t),
        ),
        Set::new(|u: int| 0 <= u < SAMPLE_SCALE && roulette(t, u) is Some).len() == survival(t),
        0 < t < THROUGHPUT_ONE ==> roulette(t, 0) == Some(THROUGHPUT_ONE),
{
    assert(Set::new(|u: int| 0 <= u < SAMPLE_SCALE && roulette(t, u) is Some) =~= set_int_range(
        0,
        survival(t),
    ));
    lemma_int_range(0, survival(t));
}

/// The throughput with which the walk goes on from a vertex of throughput
/// `t` at bounce index `bounce`, whose material sampled with weight `w` and
/// density `pdf`, roulette drawing `u` from bounce `min_bounces` on; `None`
/// when roulette ends the walk.
pub open spec fn carried(bounce: int, min_bounces: int, t: u64, w: u64, pdf: u32, u: int) -> Option<
    u64,
> {
    let s = scattered_throughput(t, w, pdf);
    if bounce >= min_bounces {
        roulette(s, u)
    } else {
        Some(s)
    }
}

/// In `path`, the walk went from vertex `j` to vertex `j + 1`, started at
/// `first`, with the throughput `carried` gives for some material weight
/// and roulette sample.
pub open spec fn carried_on(path: Seq<Vertex>, first: int, j: int, min_bounces: int) -> bool {
    exists|w: u64, u: u32|
        #[trigger] carried(
            j - first,
            min_bounces,
            path[j].throughput,
            w,
            path[j].pdf_forward,
            u as int,
        ) == Some(path[j + 1].throughput)
}

/// What the walk does after one bounce at bounce index `bounce`: `None`
/// ends it, `Some((ray, t))` goes on along `ray` with throughput `t`. A
/// miss, an absorption and a non-positive density end the walk; otherwise
/// the throughput is scattered and, from bounce `min_bounces` on, put to
/// roulette with sample `u`.
pub open spec fn next_step(
    bounce: int,
    min_bounces: int,
    t: u64,
    b: Bounce,
    u: int,
) -> Option<(Ray, u64)> {
    match b {
        Bounce::Scattered { next, weight, pdf, .. } => {
            if pdf == 0 {
                None
            } else {
                match carried(bounce, min_bounces, t, weight, pdf, u) {
                    Some(r) => Some((next, r)),
                    None => None,
                }
            }
        },
        _ => None,
    }
}

/// The vertex recorded for a bounce reached with throughput `t`.
pub open spec fn bounce_vertex(ray: Ray, wavelength: u32, t: u64, b: Bounce) -> Vertex {
    match b {
        Bounce::Escaped => Vertex {
            vertex_type: VertexType::LightSource(LightSourceType::Environment),
            wavelength,
            point: ray.origin,
            normal: ray.direction,
            material_id: MaterialId::Light(0),
            instance_id: 0,
            throughput: t,
            pdf_forward: 0,
            pdf_backward: 0,
        },
        Bounce::Absorbed(hit) => surface_vertex(hit, wavelength, t, 0, 0),
        Bounce::Scattered { hit, pdf, pdf_backward, .. } => surface_vertex(
            hit,
            wavelength,
            t,
            pdf,
            pdf_backward,
        ),
    }
}

pub open spec fn surface_vertex(
    hit: SurfaceHit,
    wavelength: u32,
    t: u64,
    pdf_forward: u32,
    pdf_backward: u32,
) -> Vertex {
    Vertex {
        vertex_type: if hit.is_light {
            VertexType::LightSource(LightSourceType::Instance)
        } else {
            VertexType::Surface
        },
        wavelength,
        point: hit.point,
        normal: hit.normal,
        material_id: hit.material_id,
        instance_id: hit.instance_id,
        throughput: t,
        pdf_forward,
        pdf_backward,
    }
}

/// Records the vertex of a bounce and decides how the walk goes on.
pub fn walk_step(
    bounce: u16,
    min_bounces: u16,
    ray: Ray,
    wavelength: u32,
    throughput: u64,
    b: Bounce,
    u: u32,
) -> (r: (Vertex, Option<(Ray, u64)>))
    requires
        throughput <= MAX_THROUGHPUT,
    ensures
        r.0 == bounce_vertex(ray, wavelength, throughput, b),
        r.1 == next_step(bounce as int, min_bounces as int, throughput, b, u as int),
        r.1 matches Some((_, t)) ==> t <= MAX_THROUGHPUT,
{
    match b {
        Bounce::Escaped => {
            let v = Vertex {
                vertex_type: VertexType::LightSource(LightSourceType::Environment),
                wavelength,
                point: ray.origin,
                normal: ray.direction,
                material_id: MaterialId::Light(0),
                instance_id: 0,
                throughput,
                pdf_forward: 0,
                pdf_backward: 0,
            };
            (v, None)
        },
        Bounce::Absorbed(hit) => (make_surface_vertex(hit, wavelength, throughput, 0, 0), None),
        Bounce::Scattered { hit, next, weight, pdf, pdf_backward } => {
            let v = make_surface_vertex(hit, wavelength, throughput, pdf, pdf_backward);
            if pdf == 0 {
                return (v, None);
            }
            let s = scatter_throughput(throughput, weight, pdf);
            if bounce >= min_bounces {
                match russian_roulette(s, u) {
                    Some(t) => (v, Some((next, t))),
                    None => (v, None),
                }
            } else {
                (v, Some((next, s)))
            }
        },
    }
}

fn make_surface_vertex(
    hit: SurfaceHit,
    wavelength: u32,
    t: u64,
    pdf_forward: u32,
    pdf_backward: u32,
) -> (v: Vertex)
    ensures
        v == surface_vertex(hit, wavelength, t, pdf_forward, pdf_backward),
{
    Vertex {
        vertex_type: if hit.is_light {
            VertexType::LightSource(LightSourceType::Instance)
        } else {
            VertexType::Surface
        },
        wavelength,
        point: hit.point,
        normal: hit.normal,
        material_id: hit.material_id,
        instance_id: hit.instance_id,
        throughput: t,
        pdf_forward,
        pdf_backward,
    }
}

/// The walk from `ray` with throughput `t` at bounce index `bounce`, when
/// the scene answers the bounces with `answers` and roulette draws
/// `samples`: the vertices recorded, one per answer used, and how the walk
/// would go on after them (`None` once it has ended).
pub open spec fn walk_from(
    ray: Ray,
    wavelength: u32,
    t: u64,
    bounce: int,
    min_bounces: int,
    answers: Seq<Bounce>,
    samples: Seq<u32>,
) -> (Seq<Vertex>, Option<(Ray, u64)>)
    decreases answers.len(),
{
    if answers.len() == 0 || samples.len() == 0 {
        (seq![], Some((ray, t)))
    } else {
        let b = answers[0];
        let v = bounce_vertex(ray, wavelength, t, b);
        match next_step(bounce, min_bounces, t, b, samples[0] as int) {
            None => (seq![v], None),
            Some((r, t2)) => {
                let rest = walk_from(
                    r,
                    wavelength,
                    t2,
                    bounce + 1,
                    min_bounces,
                    answers.drop_first(),
                    samples.drop_first(),
                );
                (seq![v] + rest.0, rest.1)
            },
        }
    }
}

/// `steps` is a complete walk from `ray` with throughput `t`: what
/// `walk_from` records for some scene answers and roulette samples, one of
/// each per vertex, and the walk either ended at its last vertex or made
/// all `max_bounces` bounces.
pub open spec fn is_walk(
    steps: Seq<Vertex>,
    ray: Ray,
    wavelength: u32,
    t: u64,
    min_bounces: int,
    max_bounces: int,
) -> bool {
    exists|answers: Seq<Bounce>, samples: Seq<u32>|
        {
            let w = #[trigger] walk_from(ray, wavelength, t, 0, min_bounces, answers, samples);
            &&& answers.len() == steps.len()
            &&& samples.len() == steps.len()
            &&& w.0 == steps
            &&& steps.len() <= max_bounces
            &&& (steps.len() == max_bounces || w.1 is None)
        }
}

/// One more answer extends a walk that has not ended by one vertex.
proof fn lemma_walk_extend(
    ray: Ray,
    wavelength: u32,
    t: u64,
    bounce: int,
    min_bounces: int,
    answers: Seq<Bounce>,
    samples: Seq<u32>,
    b: Bounce,
    u: u32,
    r: Ray,
    tr: u64,
)
    requires
        answers.len() == samples.len(),
        walk_from(ray, wavelength, t, bounce, min_bounces, answers, samples).1 == Some((r, tr)),
    ensures
        walk_from(ray, wavelength, t, bounce, min_bounces, answers.push(b), samples.push(u)) == (
        walk_from(ray, wavelength, t, bounce, min_bounces, answers, samples).0.push(
            bounce_vertex(r, wavelength, tr, b),
        ), next_step(bounce + answers.len(), min_bounces, tr, b, u as int)),
    decreases answers.len(),
{
    let a2 = answers.push(b);
    let s2 = samples.push(u);
    if answers.len() == 0 {
        assert(a2.drop_first() =~= Seq::<Bounce>::empty());
        assert(s2.drop_first() =~= Seq::<u32>::empty());
        let v = bounce_vertex(r, wavelength, tr, b);
        assert(ray == r && t == tr);
        assert(seq![v] + Seq::<Vertex>::empty() =~= seq![v]);
        assert(Seq::<Vertex>::empty().push(v) =~= seq![v]);
        match next_step(bounce, min_bounces, t, b, u as int) {
            None => {},
            Some((r2, t2)) => {
                assert(walk_from(
                    r2,
                    wavelength,
                    t2,
                    bounce + 1,
                    min_bounces,
                    a2.drop_first(),
                    s2.drop_first(),
                ) == (Seq::<Vertex>::empty(), Some((r2, t2))));
            },
        }
    } else {
        assert(a2[0] == answers[0]);
        assert(s2[0] == samples[0]);
        assert(a2.drop_first() =~= answers.drop_first().push(b));
        assert(s2.drop_first() =~= samples.drop_first().push(u));
        let v = bounce_vertex(ray, wavelength, t, answers[0]);
        match next_step(bounce, min_bounces, t, answers[0], samples[0] as int) {
            None => {},
            Some((r1, t1)) => {
                lemma_walk_extend(
                    r1,
                    wavelength,
                    t1,
                    bounce + 1,
                    min_bounces,
                    answers.drop_first(),
                    samples.drop_first(),
                    b,
                    u,
                    r,
                    tr,
                );
                let rest = walk_from(
                    r1,
                    wavelength,
                    t1,
                    bounce + 1,
                    min_bounces,
                    answers.drop_first(),
                    samples.drop_first(),
                );
                assert(walk_from(ray, wavelength, t, bounce, min_bounces, answers, samples) == (seq![v]
                    + rest.0, rest.1));
                assert(walk_from(ray, wavelength, t, bounce, min_bounces, a2, s2) == (seq![v]
                    + walk_from(
                    r1,
                    wavelength,
                    t1,
                    bounce + 1,
                    min_bounces,
                    a2.drop_first(),
                    s2.drop_first(),
                ).0, walk_from(
                    r1,
                    wavelength,
                    t1,
                    bounce + 1,
                    min_bounces,
                    a2.drop_first(),
                    s2.drop_first(),
                ).1));
                assert(seq![v] + rest.0.push(bounce_vertex(r, wavelength, tr, b)) =~= (seq![v]
                    + rest.0).push(bounce_vertex(r, wavelength, tr, b)));
            },
        }
    }
}

/// A vertex from which the walk went on: a surface that sampled a
/// direction of positive density.
pub open spec fn continued_from(v: Vertex) -> bool {
    &&& v.vertex_type != VertexType::LightSource(LightSourceType::Environment)
    &&& v.vertex_type != VertexType::Camera
    &&& v.pdf_forward > 0
}

/// Extends `path` by a walk from `ray`: one vertex per bounce, at most
/// `max_bounces`, each recording the throughput with which the path
/// arrives. The walk ends at a miss (with an environment vertex), at an
/// absorption, at a non-positive density, by roulette or after
/// `max_bounces`. Returns the number of bounces made.
pub fn random_walk<S: Scene, R: Sampler>(
    ray: Ray,
    wavelength: u32,
    max_bounces: u16,
    throughput: u64,
    mode: TransportMode,
    sampler: &mut R,
    world: &mut S,
    path: &mut Vec<Vertex>,
    min_bounces: u16,
) -> (bounces: u16)
    requires
        old(sampler).inv(),
        throughput <= MAX_THROUGHPUT,
    ensures
        final(sampler).inv(),
        bounces <= max_bounces,
        final(path).len() == old(path).len() + bounces,
        forall|j: int| 0 <= j < old(path).len() ==> final(path)[j] == old(path)[j],
        forall|j: int|
            old(path).len() <= j < final(path).len() ==> (#[trigger] final(path)[j]).throughput
                <= MAX_THROUGHPUT && final(path)[j].wavelength == wavelength,
        forall|j: int|
            old(path).len() <= j < final(path).len() - 1 ==> continued_from(
                #[trigger] final(path)[j],
            ),
        bounces > 0 ==> final(path)[old(path).len() as int].throughput == throughput,
        max_bounces > 0 ==> bounces >= 1,
        is_walk(
            final(path)@.subrange(old(path).len() as int, final(path).len() as int),
            ray,
            wavelength,
            throughput,
            min_bounces as int,
            max_bounces as int,
        ),
        forall|j: int|
            old(path).len() <= j < final(path).len() - 1 ==> #[trigger] carried_on(
                final(path)@,
                old(path).len() as int,
                j,
                min_bounces as int,
            ),
{
    let ghost start = path@;
    let ghost ray0 = ray;
    let ghost mut answers: Seq<Bounce> = seq![];
    let ghost mut samples: Seq<u32> = seq![];
    let mut ray = ray;
    let mut beta = throughput;
    let mut bounce: u16 = 0;
    let mut done = false;
    while bounce < max_bounces && !done
        invariant
            sampler.inv(),
            answers.len() == bounce,
            samples.len() == bounce,
            done ==> bounce > 0,
            walk_from(ray0, wavelength, throughput, 0, min_bounces as int, answers, samples).0
                == path@.subrange(start.len() as int, path.len() as int),
            walk_from(ray0, wavelength, throughput, 0, min_bounces as int, answers, samples).1
                == (if done {
                None
            } else {
                Some((ray, beta))
            }),
            beta <= MAX_THROUGHPUT,
            bounce <= max_bounces,
            path.len() == start.len() + bounce,
            forall|j: int| 0 <= j < start.len() ==> path[j] == start[j],
            forall|j: int|
                start.len() <= j < path.len() ==> (#[trigger] path[j]).throughput <= MAX_THROUGHPUT
                    && path[j].wavelength == wavelength,
            forall|j: int| start.len() <= j < path.len() - 1 ==> continued_from(#[trigger] path[j]),
            !done && bounce > 0 ==> continued_from(path[path.len() - 1]),
            bounce > 0 ==> path[start.len() as int].throughput == throughput,
            bounce == 0 ==> beta == throughput,
            forall|j: int|
                start.len() <= j < path.len() - 1 ==> #[trigger] carried_on(
                    path@,
                    start.len() as int,
                    j,
                    min_bounces as int,
                ),
            !done && bounce > 0 ==> exists|w: u64, u: u32|
                #[trigger] carried(
                    bounce - 1,
                    min_bounces as int,
                    path[path.len() - 1].throughput,
                    w,
                    path[path.len() - 1].pdf_forward,
                    u as int,
                ) == Some(beta),
        decreases max_bounces - bounce,
    {
        let b = world.bounce(ray, wavelength, mode);
        let u = sampler.draw_1d().x;
        let (v, next) = walk_step(bounce, min_bounces, ray, wavelength, beta, b, u);
        let ghost before = path@;
        proof {
            lemma_walk_extend(
                ray0,
                wavelength,
                throughput,
                0,
                min_bounces as int,
                answers,
                samples,
                b,
                u,
                ray,
                beta,
            );
            answers = answers.push(b);
            samples = samples.push(u);
        }
        path.push(v);
        proof {
            assert(path@.subrange(start.len() as int, path.len() as int) =~= before.subrange(
                start.len() as int,
                before.len() as int,
            ).push(v));
            assert forall|j: int| start.len() <= j < path.len() - 1 implies #[trigger] carried_on(
                path@,
                start.len() as int,
                j,
                min_bounces as int,
            ) by {
                if j < before.len() - 1 {
                    assert(path[j] == before[j] && path[j + 1] == before[j + 1]);
                    assert(carried_on(before, start.len() as int, j, min_bounces as int));
                } else {
                    assert(path[j] == before[before.len() - 1]);
                    assert(path[j + 1] == v);
                }
            }
        }
        match next {
            Some((r, t)) => {
                assert(v.pdf_forward > 0);
                ray = r;
                beta = t;
            },
            None => {
                done = true;
            },
        }
        bounce += 1;
        proof {
            if !done {
                if let Bounce::Scattered { weight, .. } = b {
                    assert(carried(
                        bounce - 1,
                        min_bounces as int,
                        path[path.len() - 1].throughput,
                        weight,
                        path[path.len() - 1].pdf_forward,
                        u as int,
                    ) == Some(beta));
                }
            }
        }
    }
    proof {
        let w = walk_from(ray0, wavelength, throughput, 0, min_bounces as int, answers, samples);
        assert(answers.len() == bounce && samples.len() == bounce && w.0 == path@.subrange(
            start.len() as int,
            path.len() as int,
        ) && (bounce == max_bounces || w.1 is None));
    }
    bounce
}

} // verus!
