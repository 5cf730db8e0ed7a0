//! Stochastic progressive photon mapping: light walks deposit photons,
//! camera walks gather them.

use vstd::prelude::*;
use crate::aabb::{Point3, Ray};
use crate::instance::MaterialId;
use crate::integrator::Bounds1D;
use crate::pt::{cap, choose_light_kind, sample_wavelength, wavelength_of};
use crate::sample::Sampler;
use crate::walk::{
    LightSourceType, MAX_THROUGHPUT, Scene, THROUGHPUT_ONE, TransportMode, Vertex, VertexType,
    is_walk, random_walk,
};

verus! {

/// All beams' vertices, beam after beam.
pub open spec fn flatten_beams(beams: Seq<Vec<Vertex>>) -> Seq<Vertex>
    decreases beams.len(),
{
    if beams.len() == 0 {
        seq![]
    } else {
        flatten_beams(beams.drop_last()) + beams.last()@
    }
}

/// The sum of the beams' lengths.
pub open spec fn total_length(beams: Seq<Vec<Vertex>>) -> nat
    decreases beams.len(),
{
    if beams.len() == 0 {
        0
    } else {
        total_length(beams.drop_last()) + beams.last()@.len()
    }
}

/// Every vertex of `s` has its throughput within the cap.
pub open spec fn energies_bounded(s: Seq<Vertex>) -> bool {
    forall|k: int| 0 <= k < s.len() ==> (#[trigger] s[k]).throughput <= MAX_THROUGHPUT
}

/// The deposited photons, shared read-only once built.
pub struct PhotonMap {
    pub photons: Vec<Vertex>,
}

/// The squared distance between two points.
pub open spec fn dist2(a: Point3, b: Point3) -> int {
    (a.x - b.x) * (a.x - b.x) + (a.y - b.y) * (a.y - b.y) + (a.z - b.z) * (a.z - b.z)
}

/// The energy of the photons within squared distance `r2` of `p` among
/// the first `n`, capped.
pub open spec fn gathered(photons: Seq<Vertex>, p: Point3, r2: u128, n: int) -> u64
    decreases n,
{
    if n <= 0 {
        0
    } else {
        let rest = gathered(photons, p, r2, n - 1);
        if dist2(photons[n - 1].point, p) <= r2 {
            let s = rest as int + cap(photons[n - 1].throughput) as int;
            if s > MAX_THROUGHPUT as int {
                MAX_THROUGHPUT
            } else {
                s as u64
            }
        } else {
            rest
        }
    }
}

fn distance_squared(a: Point3, b: Point3) -> (r: u128)
    ensures
        r == dist2(a, b),
{
    let dx = (a.x as i64 - b.x as i64) as i128;
    let dy = (a.y as i64 - b.y as i64) as i128;
    let dz = (a.z as i64 - b.z as i64) as i128;
    assert(dx * dx <= 0x4_0000_0000_0000_0000 && dy * dy <= 0x4_0000_0000_0000_0000 && dz * dz
        <= 0x4_0000_0000_0000_0000 && 0 <= dx * dx && 0 <= dy * dy && 0 <= dz * dz)
        by (nonlinear_arith)
        requires
            -0x1_0000_0000 <= dx <= 0x1_0000_0000,
            -0x1_0000_0000 <= dy <= 0x1_0000_0000,
            -0x1_0000_0000 <= dz <= 0x1_0000_0000,
    ;
    (dx * dx + dy * dy + dz * dz) as u128
}

impl PhotonMap {
    /// Collects the beams' vertices, beam after beam.
    pub fn from_beams(beams: &Vec<Vec<Vertex>>) -> (m: PhotonMap)
        ensures
            m.photons@ == flatten_beams(beams@),
    {
        let mut photons: Vec<Vertex> = Vec::new();
        let mut i: usize = 0;
        while i < beams.len()
            invariant
                0 <= i <= beams.len(),
                photons@ == flatten_beams(beams@.subrange(0, i as int)),
            decreases beams.len() - i,
        {
            let ghost before = photons@;
            let beam = &beams[i];
            let mut j: usize = 0;
            while j < beam.len()
                invariant
                    0 <= j <= beam.len(),
                    photons@ == before + beam@.subrange(0, j as int),
                decreases beam.len() - j,
            {
                photons.push(beam[j]);
                assert(beam@.subrange(0, j + 1) =~= beam@.subrange(0, j as int).push(beam[j as int]));
                j += 1;
            }
            assert(beam@.subrange(0, beam.len() as int) =~= beam@);
            assert(beams@.subrange(0, i + 1).drop_last() =~= beams@.subrange(0, i as int));
            i += 1;
        }
        assert(beams@.subrange(0, beams.len() as int) =~= beams@);
        PhotonMap { photons }
    }

    /// The energy of the photons within squared distance `radius2` of
    /// `point`, capped.
    pub fn gather(&self, point: Point3, radius2: u128) -> (r: u64)
        ensures
            r == gathered(self.photons@, point, radius2, self.photons.len() as int),
            r <= MAX_THROUGHPUT,
    {
        let mut sum: u64 = 0;
        let mut i: usize = 0;
        while i < self.photons.len()
            invariant
                0 <= i <= self.photons.len(),
                sum == gathered(self.photons@, point, radius2, i as int),
                sum <= MAX_THROUGHPUT,
            decreases self.photons.len() - i,
        {
            let photon = self.photons[i];
            if distance_squared(photon.point, point) <= radius2 {
                let e = if photon.throughput > MAX_THROUGHPUT {
                    MAX_THROUGHPUT
                } else {
                    photon.throughput
                };
                sum = if sum as u128 + e as u128 > MAX_THROUGHPUT as u128 {
                    MAX_THROUGHPUT
                } else {
                    sum + e
                };
            }
            i += 1;
        }
        sum
    }
}

/// The photon collection holds every vertex of every beam, in order: its
/// size is the sum of the beams' lengths, that is the number of beams
/// times their average length. Photons keep their beams' bounds: with
/// every beam's energies within the cap, every photon's is.
pub proof fn lemma_photon_collection(beams: Seq<Vec<Vertex>>)
    ensures
        flatten_beams(beams).len() == total_length(beams),
        (forall|i: int| 0 <= i < beams.len() ==> energies_bounded(#[trigger] beams[i]@))
            ==> energies_bounded(flatten_beams(beams)),
    decreases beams.len(),
{
    if beams.len() > 0 {
        let rest = beams.drop_last();
        lemma_photon_collection(rest);
        if forall|i: int| 0 <= i < beams.len() ==> energies_bounded(#[trigger] beams[i]@) {
            assert forall|i: int| 0 <= i < rest.len() implies energies_bounded(
                #[trigger] rest[i]@,
            ) by {
                assert(rest[i] == beams[i]);
            }
            assert(energies_bounded(beams[beams.len() - 1]@));
            let f = flatten_beams(beams);
            let fr = flatten_beams(rest);
            assert forall|k: int| 0 <= k < f.len() implies (#[trigger] f[k]).throughput
                <= MAX_THROUGHPUT by {
                if k >= fr.len() {
                    assert(f[k] == beams.last()@[k - fr.len()]);
                }
            }
        }
    }
}

/// A traced beam: empty (its light gave no emission sample), or a
/// light-source vertex within the energy cap followed by a complete walk
/// from it, `max_bounces + 1` vertices at most.
pub open spec fn light_beam(beam: Seq<Vertex>, max_bounces: int, roulette_from: int) -> bool {
    beam.len() == 0 || {
        &&& beam[0].vertex_type matches VertexType::LightSource(_)
        &&& beam[0].throughput <= MAX_THROUGHPUT
        &&& 1 <= beam.len() <= max_bounces + 1
        &&& exists|ray: Ray|
            #[trigger] is_walk(
                beam.drop_first(),
                ray,
                beam[0].wavelength,
                beam[0].throughput,
                roulette_from,
                max_bounces,
            )
    }
}

/// The photon-mapping estimator's settings and photon map.
pub struct SPPMIntegrator {
    pub max_bounces: u16,
    pub russian_roulette: bool,
    pub camera_samples: u16,
    pub wavelength_bounds: Bounds1D,
    /// The squared radius within which photons are gathered.
    pub gather_radius2: u128,
    pub photon_map: Option<PhotonMap>,
}

impl SPPMIntegrator {
    /// The bounce from which roulette may end a light walk: from the first
    /// bounce, or never when roulette is off.
    pub open spec fn roulette_start(&self) -> u16 {
        if self.russian_roulette {
            0
        } else {
            self.max_bounces
        }
    }

    /// Traces `num_beams` light walks, each from a light or the
    /// environment as `light_choice` decides, and collects their vertices
    /// as the photon map. A beam whose light yields no emission sample
    /// stays empty.
    pub fn preprocess<S: Scene, R: Sampler>(&mut self, world: &mut S, sampler: &mut R, num_beams: usize)
        requires
            old(sampler).inv(),
        ensures
            final(sampler).inv(),
            final(self).photon_map matches Some(m) && m.photons.len() <= num_beams * (
            old(self).max_bounces + 1) && energies_bounded(m.photons@) && exists|
                beams: Seq<Vec<Vertex>>,
            |
                {
                    &&& beams.len() == num_beams
                    &&& m.photons@ == #[trigger] flatten_beams(beams)
                    &&& forall|i: int|
                        0 <= i < beams.len() ==> light_beam(
                            #[trigger] beams[i]@,
                            old(self).max_bounces as int,
                            old(self).roulette_start() as int,
                        )
                },
            final(self).russian_roulette == old(self).russian_roulette,
            final(self).max_bounces == old(self).max_bounces,
            final(self).wavelength_bounds == old(self).wavelength_bounds,
            final(self).gather_radius2 == old(self).gather_radius2,
    {
        let mut beams: Vec<Vec<Vertex>> = Vec::new();
        let light_count = world.light_count();
        let env_probability = world.env_sampling_probability();
        let roulette_from = if self.russian_roulette {
            0
        } else {
            self.max_bounces
        };
        let mut b: usize = 0;
        while b < num_beams
            invariant
                sampler.inv(),
                b <= num_beams,
                beams.len() == b,
                forall|i: int|
                    0 <= i < beams.len() ==> energies_bounded(#[trigger] beams[i]@)
                        && beams[i].len() <= self.max_bounces + 1,
                total_length(beams@) <= b * (self.max_bounces + 1),
                roulette_from == self.roulette_start(),
                forall|i: int|
                    0 <= i < beams.len() ==> light_beam(
                        #[trigger] beams[i]@,
                        self.max_bounces as int,
                        self.roulette_start() as int,
                    ),
            decreases num_beams - b,
        {
            let wavelength_sample = sampler.draw_1d().x;
            let x = sampler.draw_1d().x;
            let mut beam: Vec<Vertex> = Vec::new();
            match choose_light_kind(light_count, env_probability, x) {
                Some(from_environment) => {
                    match world.sample_emission(from_environment, wavelength_sample) {
                        Some((start, ray)) => {
                            let energy = if start.throughput > MAX_THROUGHPUT {
                                MAX_THROUGHPUT
                            } else {
                                start.throughput
                            };
                            let kind = if from_environment {
                                LightSourceType::Environment
                            } else {
                                LightSourceType::Instance
                            };
                            let start = Vertex {
                                vertex_type: VertexType::LightSource(kind),
                                throughput: energy,
                                ..start
                            };
                            beam.push(start);
                            let _ = random_walk(
                                ray,
                                start.wavelength,
                                self.max_bounces,
                                energy,
                                TransportMode::Radiance,
                                sampler,
                                world,
                                &mut beam,
                                roulette_from,
                            );
                            proof {
                                assert(beam@.drop_first() =~= beam@.subrange(1, beam.len() as int));
                                assert(beam@[0] == start);
                                assert(is_walk(
                                    beam@.drop_first(),
                                    ray,
                                    beam@[0].wavelength,
                                    beam@[0].throughput,
                                    self.roulette_start() as int,
                                    self.max_bounces as int,
                                ));
                            }
                        },
                        None => {},
                    }
                },
                None => {},
            }
            proof {
                assert(energies_bounded(beam@));
                assert(light_beam(beam@, self.max_bounces as int, self.roulette_start() as int));
            }
            let ghost old_beams = beams@;
            beams.push(beam);
            proof {
                assert(beams@.drop_last() =~= old_beams);
                assert forall|i: int| 0 <= i < beams.len() implies light_beam(
                    #[trigger] beams[i]@,
                    self.max_bounces as int,
                    self.roulette_start() as int,
                ) by {
                    if i < b {
                        assert(beams[i] == old_beams[i]);
                    }
                }
                assert((b + 1) * (self.max_bounces + 1) == b * (self.max_bounces + 1) + (
                self.max_bounces + 1)) by (nonlinear_arith);
            }
            b += 1;
        }
        let map = PhotonMap::from_beams(&beams);
        proof {
            lemma_photon_collection(beams@);
        }
        self.photon_map = Some(map);
        proof {
            assert(flatten_beams(beams@) == map.photons@);
        }
    }

    /// One sample along `camera_ray`: a wavelength from the configured
    /// bounds, a one-bounce camera walk, and the photon energy gathered
    /// around the surface it reaches, per beam traced.
    pub fn color<S: Scene, R: Sampler>(
        &self,
        sampler: &mut R,
        world: &mut S,
        camera_ray: Ray,
        num_beams: u64,
    ) -> (r: (u32, u64))
        requires
            old(sampler).inv(),
            self.wavelength_bounds.lower <= self.wavelength_bounds.upper,
        ensures
            final(sampler).inv(),
            self.wavelength_bounds.lower <= r.0 <= self.wavelength_bounds.upper,
            exists|x: u32| r.0 == #[trigger] wavelength_of(self.wavelength_bounds, x),
            r.1 <= MAX_THROUGHPUT,
            (num_beams == 0 || self.photon_map is None) ==> r.1 == 0,
            r.1 == 0 || (self.photon_map matches Some(m) && exists|p: Point3|
                r.1 as int == (#[trigger] gathered(
                    m.photons@,
                    p,
                    self.gather_radius2,
                    m.photons.len() as int,
                )) as int / num_beams as int),
    {
        let lambda = sample_wavelength(self.wavelength_bounds, sampler.draw_1d().x);
        let mut path: Vec<Vertex> = Vec::new();
        path.push(
            Vertex {
                vertex_type: VertexType::Camera,
                wavelength: lambda,
                point: camera_ray.origin,
                normal: camera_ray.direction,
                material_id: MaterialId::Camera(0),
                instance_id: 0,
                throughput: THROUGHPUT_ONE,
                pdf_forward: 0,
                pdf_backward: 0,
            },
        );
        let _ = random_walk(
            camera_ray,
            lambda,
            1,
            THROUGHPUT_ONE,
            TransportMode::Importance,
            sampler,
            world,
            &mut path,
            0,
        );
        if path.len() < 2 || num_beams == 0 {
            return (lambda, 0);
        }
        let hit = path[1];
        if hit.vertex_type != VertexType::Surface {
            return (lambda, 0);
        }
        match &self.photon_map {
            Some(map) => {
                let energy = map.gather(hit.point, self.gather_radius2);
                proof {
                    assert((energy / num_beams) as int == gathered(
                        map.photons@,
                        hit.point,
                        self.gather_radius2,
                        map.photons.len() as int,
                    ) as int / num_beams as int);
                }
                (lambda, energy / num_beams)
            },
            None => (lambda, 0),
        }
    }
}

} // verus!
