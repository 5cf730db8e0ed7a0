//! Samplers: uniform draws in `[0, 1)` as 32-bit fixed-point fractions,
//! independent or stratified.
//!
//! A stratified sampler splits each dimension into strata and visits them
//! in a freshly shuffled order each round, drawing uniformly inside the
//! current stratum.

use rand::seq::SliceRandom;
use rand::{RngCore, SeedableRng};
use vstd::prelude::*;

verus! {

broadcast use vstd::seq_lib::group_to_multiset_ensures;

/// Relies on `rand::random`: a value drawn from the thread-local generator.
/// Nothing is promised of it beyond its type.
pub assume_specification<T>[ rand::random::<T> ]() -> T
    where
        rand::distributions::Standard: rand::distributions::Distribution<T>,
;

/// Relies on rand's `SliceRandom::shuffle`, run with the thread-local
/// generator: a pass of swaps, so the vector ends up a permutation of
/// itself.
#[verifier::external_body]
fn shuffle_strata(v: &mut Vec<usize>)
    ensures
        final(v)@.to_multiset() == old(v)@.to_multiset(),
        final(v).len() == old(v).len(),
{
    v.shuffle(&mut rand::thread_rng());
}

/// rand's standard generator, held as an opaque value.
#[verifier::external_type_specification]
#[verifier::external_body]
pub struct ExStdRng(rand::rngs::StdRng);

/// Relies on rand's `SeedableRng::seed_from_u64` for `StdRng`: a generator
/// whose stream is fixed by the seed. Nothing is promised of the stream.
#[verifier::external_body]
fn seeded_generator(seed: u64) -> rand::rngs::StdRng {
    rand::rngs::StdRng::seed_from_u64(seed)
}

/// Relies on rand's `RngCore::next_u32` for `StdRng`: the next value of the
/// generator's stream. Nothing is promised of it beyond its type.
#[verifier::external_body]
fn next_word(rng: &mut rand::rngs::StdRng) -> u32 {
    rng.next_u32()
}

/// The fixed-point unit: a sample `x` stands for `x / 2^32`.
pub const SAMPLE_SCALE: u64 = 0x1_0000_0000;

/// The largest number of strata a stratified sampler takes in all.
pub const MAX_STRATA: usize = 0x100_0000;

#[derive(Clone, Copy, Debug, PartialEq, Eq, Structural)]
pub struct Sample1D {
    pub x: u32,
}

#[derive(Clone, Copy, Debug, PartialEq, Eq, Structural)]
pub struct Sample2D {
    pub x: u32,
    pub y: u32,
}

#[derive(Clone, Copy, Debug, PartialEq, Eq, Structural)]
pub struct Sample3D {
    pub x: u32,
    pub y: u32,
    pub z: u32,
}

impl Sample1D {
    pub fn new_random_sample() -> Sample1D {
        Sample1D { x: rand::random::<u32>() }
    }
}

impl Sample2D {
    pub fn new_random_sample() -> Sample2D {
        let x = rand::random::<u32>();
        let y = rand::random::<u32>();
        Sample2D { x, y }
    }
}

impl Sample3D {
    pub fn new_random_sample() -> Sample3D {
        let x = rand::random::<u32>();
        let y = rand::random::<u32>();
        let z = rand::random::<u32>();
        Sample3D { x, y, z }
    }
}

/// What every sampler offers. `inv` is the sampler's own well-formedness.
pub trait Sampler {
    spec fn inv(&self) -> bool;

    fn draw_1d(&mut self) -> (s: Sample1D)
        requires
            old(self).inv(),
        ensures
            final(self).inv(),
    ;

    fn draw_2d(&mut self) -> (s: Sample2D)
        requires
            old(self).inv(),
        ensures
            final(self).inv(),
    ;

    fn draw_3d(&mut self) -> (s: Sample3D)
        requires
            old(self).inv(),
        ensures
            final(self).inv(),
    ;
}

/// Independent uniform draws.
pub struct RandomSampler {}

impl RandomSampler {
    pub fn new() -> RandomSampler {
        RandomSampler {  }
    }
}

impl Sampler for RandomSampler {
    open spec fn inv(&self) -> bool {
        true
    }

    fn draw_1d(&mut self) -> Sample1D {
        Sample1D::new_random_sample()
    }

    fn draw_2d(&mut self) -> Sample2D {
        Sample2D::new_random_sample()
    }

    fn draw_3d(&mut self) -> Sample3D {
        Sample3D::new_random_sample()
    }
}

/// Independent uniform draws from a generator seeded explicitly: two
/// samplers made from one seed draw the same values.
pub struct SeededSampler {
    rng: rand::rngs::StdRng,
}

impl SeededSampler {
    pub fn new(seed: u64) -> SeededSampler {
        SeededSampler { rng: seeded_generator(seed) }
    }
}

impl Sampler for SeededSampler {
    open spec fn inv(&self) -> bool {
        true
    }

    fn draw_1d(&mut self) -> Sample1D {
        Sample1D { x: next_word(&mut self.rng) }
    }

    fn draw_2d(&mut self) -> Sample2D {
        let x = next_word(&mut self.rng);
        let y = next_word(&mut self.rng);
        Sample2D { x, y }
    }

    fn draw_3d(&mut self) -> Sample3D {
        let x = next_word(&mut self.rng);
        let y = next_word(&mut self.rng);
        let z = next_word(&mut self.rng);
        Sample3D { x, y, z }
    }
}

/// The point at offset `u / 2^32` inside stratum `idx` of `width` equal
/// strata of `[0, 1)`, that is `(idx + u / 2^32) / width`, in fixed point
/// and rounded down.
pub open spec fn stratum_point(u: u32, idx: int, width: int) -> int {
    (idx * SAMPLE_SCALE + u) / width
}

/// `x` is a point of stratum `idx` of `width`, for some offset.
pub open spec fn in_stratum(x: u32, idx: int, width: int) -> bool {
    exists|u: u32| x as int == #[trigger] stratum_point(u, idx, width)
}

/// The point at offset `u` inside stratum `idx` of `width`.
pub fn stratify(u: u32, idx: usize, width: usize) -> (x: u32)
    requires
        idx < width,
        width <= MAX_STRATA,
    ensures
        x as int == stratum_point(u, idx as int, width as int),
        x * width <= idx * SAMPLE_SCALE + u < (x + 1) * width,
{
    let num: u64 = (idx as u64) * SAMPLE_SCALE + (u as u64);
    let w = width as u64;
    let q = num / w;
    proof {
        let (n, ww, i, qq) = (num as int, w as int, idx as int, q as int);
        assert(n < ww * 0x1_0000_0000) by (nonlinear_arith)
            requires
                n == i * 0x1_0000_0000 + u,
                i < ww,
                u < 0x1_0000_0000,
        ;
        assert(qq * ww <= n < (qq + 1) * ww) by (nonlinear_arith)
            requires
                qq == n / ww,
                ww > 0,
        ;
        assert(qq < 0x1_0000_0000) by (nonlinear_arith)
            requires
                qq * ww <= n,
                n < ww * 0x1_0000_0000,
                ww > 0,
        ;
    }
    q as u32
}

/// The indices `0..n`.
pub open spec fn range_seq(n: nat) -> Seq<usize> {
    Seq::new(n, |i: int| i as usize)
}

/// The strata order `s` is a permutation of `0..n`.
pub open spec fn is_strata_order(s: Seq<usize>, n: nat) -> bool {
    s.to_multiset() == range_seq(n).to_multiset()
}

proof fn lemma_strata_order_bounded(s: Seq<usize>, n: nat)
    requires
        is_strata_order(s, n),
    ensures
        s.len() == n,
        forall|j: int| 0 <= j < s.len() ==> (#[trigger] s[j]) < n,
{
    assert(s.to_multiset().len() == s.len());
    assert(range_seq(n).to_multiset().len() == n);
    assert forall|j: int| 0 <= j < s.len() implies (#[trigger] s[j]) < n by {
        assert(s.to_multiset().count(s[j]) > 0);
        assert(range_seq(n).contains(s[j]));
    }
}

/// Stratified draws over `dims[0]` strata in one dimension,
/// `dims[0] * dims[1]` in two and `dims[0] * dims[1] * dims[2]` in three.
/// `first`, `second` and `third` hold the current order of strata and
/// `indices` the position reached in each.
pub struct StratifiedSampler {
    pub dims: [usize; 3],
    pub indices: [usize; 3],
    pub first: Vec<usize>,
    pub second: Vec<usize>,
    pub third: Vec<usize>,
}

impl StratifiedSampler {
    pub open spec fn width(&self) -> int {
        self.dims[0] as int
    }

    pub open spec fn depth(&self) -> int {
        self.dims[1] as int
    }

    pub open spec fn height(&self) -> int {
        self.dims[2] as int
    }

    pub open spec fn wf(&self) -> bool {
        &&& self.width() >= 1
        &&& self.depth() >= 1
        &&& self.height() >= 1
        &&& self.width() * self.depth() * self.height() <= MAX_STRATA
        &&& is_strata_order(self.first@, self.width() as nat)
        &&& is_strata_order(self.second@, (self.width() * self.depth()) as nat)
        &&& is_strata_order(self.third@, (self.width() * self.depth() * self.height()) as nat)
        &&& self.indices[0] < self.first.len()
        &&& self.indices[1] < self.second.len()
        &&& self.indices[2] < self.third.len()
    }

    /// A sampler with `xdim`, `ydim` and `zdim` strata along its three
    /// dimensions, strata in increasing order until the first shuffle.
    pub fn new(xdim: usize, ydim: usize, zdim: usize) -> (s: StratifiedSampler)
        requires
            xdim >= 1,
            ydim >= 1,
            zdim >= 1,
            xdim * ydim * zdim <= MAX_STRATA,
        ensures
            s.wf(),
            s.dims@ == seq![xdim, ydim, zdim],
            s.indices@ == seq![0usize, 0usize, 0usize],
            s.first@ == range_seq(xdim as nat),
            s.second@ == range_seq((xdim * ydim) as nat),
            s.third@ == range_seq((xdim * ydim * zdim) as nat),
    {
        assert(xdim <= xdim * ydim <= xdim * ydim * zdim) by (nonlinear_arith)
            requires
                ydim >= 1,
                zdim >= 1,
                xdim >= 1,
        ;
        let first = ascending(xdim);
        let second = ascending(xdim * ydim);
        let third = ascending(xdim * ydim * zdim);
        let s = StratifiedSampler {
            dims: [xdim, ydim, zdim],
            indices: [0, 0, 0],
            first,
            second,
            third,
        };
        assert(s.dims@ =~= seq![xdim, ydim, zdim]);
        assert(s.indices@ =~= seq![0usize, 0usize, 0usize]);
        s
    }

    /// Draws in the next stratum of `[0, 1)`, shuffling the strata order
    /// whenever a round starts.
    pub fn draw_1d(&mut self) -> (s: Sample1D)
        requires
            old(self).wf(),
        ensures
            final(self).wf(),
            final(self).dims == old(self).dims,
            final(self).second == old(self).second,
            final(self).third == old(self).third,
            final(self).indices[1] == old(self).indices[1],
            final(self).indices[2] == old(self).indices[2],
            final(self).indices[0] == (old(self).indices[0] + 1) % old(self).width(),
            old(self).indices[0] != 0 ==> final(self).first@ == old(self).first@,
            in_stratum(
                s.x,
                final(self).first@[old(self).indices[0] as int] as int,
                old(self).width(),
            ),
    {
        if self.indices[0] == 0 {
            shuffle_strata(&mut self.first);
        }
        proof {
            lemma_strata_order_bounded(self.first@, self.width() as nat);
            lemma_dims_bounded(self.width(), self.depth(), self.height());
            lemma_advance(self.indices[0] as int, self.width());
        }
        let width = self.dims[0];
        let position = self.indices[0];
        let idx = self.first[position];
        let next = if position + 1 >= width {
            0
        } else {
            position + 1
        };
        self.indices = [next, self.indices[1], self.indices[2]];
        let u = rand::random::<u32>();
        let x = stratify(u, idx, width);
        assert(x as int == stratum_point(u, idx as int, width as int));
        Sample1D { x }
    }

    /// Draws in the next cell of a `width` by `depth` grid over `[0, 1)²`.
    pub fn draw_2d(&mut self) -> (s: Sample2D)
        requires
            old(self).wf(),
        ensures
            final(self).wf(),
            final(self).dims == old(self).dims,
            final(self).first == old(self).first,
            final(self).third == old(self).third,
            final(self).indices[0] == old(self).indices[0],
            final(self).indices[2] == old(self).indices[2],
            final(self).indices[1] == (old(self).indices[1] + 1) % (old(self).width()
                * old(self).depth()),
            old(self).indices[1] != 0 ==> final(self).second@ == old(self).second@,
            ({
                let cell = final(self).second@[old(self).indices[1] as int] as int;
                &&& in_stratum(s.x, cell % old(self).width(), old(self).width())
                &&& in_stratum(s.y, cell / old(self).width(), old(self).depth())
            }),
    {
        if self.indices[1] == 0 {
            shuffle_strata(&mut self.second);
        }
        proof {
            lemma_dims_bounded(self.width(), self.depth(), self.height());
            lemma_strata_order_bounded(self.second@, (self.width() * self.depth()) as nat);
            lemma_advance(self.indices[1] as int, self.width() * self.depth());
        }
        let width = self.dims[0];
        let depth = self.dims[1];
        let count = width * depth;
        let position = self.indices[1];
        let idx = self.second[position];
        let next = if position + 1 >= count {
            0
        } else {
            position + 1
        };
        self.indices = [self.indices[0], next, self.indices[2]];
        let (cx, cy) = (idx % width, idx / width);
        proof {
            lemma_div_lt(idx as int, width as int, depth as int);
        }
        let u = rand::random::<u32>();
        let v = rand::random::<u32>();
        let x = stratify(u, cx, width);
        let y = stratify(v, cy, depth);
        assert(x as int == stratum_point(u, cx as int, width as int));
        assert(y as int == stratum_point(v, cy as int, depth as int));
        Sample2D { x, y }
    }

    /// Draws in the next cell of a `width` by `depth` by `height` grid over
    /// `[0, 1)³`; cell `c` has coordinates `c % width`,
    /// `(c / width) % depth` and `c / (depth * width)`.
    pub fn draw_3d(&mut self) -> (s: Sample3D)
        requires
            old(self).wf(),
        ensures
            final(self).wf(),
            final(self).dims == old(self).dims,
            final(self).first == old(self).first,
            final(self).second == old(self).second,
            final(self).indices[0] == old(self).indices[0],
            final(self).indices[1] == old(self).indices[1],
            final(self).indices[2] == (old(self).indices[2] + 1) % (old(self).width()
                * old(self).depth() * old(self).height()),
            old(self).indices[2] != 0 ==> final(self).third@ == old(self).third@,
            ({
                let cell = final(self).third@[old(self).indices[2] as int] as int;
                let (w, d, h) = (old(self).width(), old(self).depth(), old(self).height());
                &&& in_stratum(s.x, cell % w, w)
                &&& in_stratum(s.y, (cell / w) % d, d)
                &&& in_stratum(s.z, cell / (d * w), h)
            }),
    {
        if self.indices[2] == 0 {
            shuffle_strata(&mut self.third);
        }
        proof {
            lemma_dims_bounded(self.width(), self.depth(), self.height());
            lemma_strata_order_bounded(
                self.third@,
                (self.width() * self.depth() * self.height()) as nat,
            );
            lemma_advance(self.indices[2] as int, self.width() * self.depth() * self.height());
        }
        let width = self.dims[0];
        let depth = self.dims[1];
        let height = self.dims[2];
        let count = width * depth * height;
        let position = self.indices[2];
        let idx = self.third[position];
        let next = if position + 1 >= count {
            0
        } else {
            position + 1
        };
        self.indices = [self.indices[0], self.indices[1], next];
        proof {
            assert(width * depth * height == (depth * width) * height) by (nonlinear_arith);
            assert(depth * width == width * depth && depth * width >= 1) by (nonlinear_arith)
                requires
                    width >= 1,
                    depth >= 1,
            ;
            lemma_div_lt(idx as int, (depth * width) as int, height as int);
        }
        let cz = idx / (depth * width);
        let cy = (idx / width) % depth;
        let cx = idx % width;
        let u = rand::random::<u32>();
        let v = rand::random::<u32>();
        let t = rand::random::<u32>();
        let x = stratify(u, cx, width);
        let y = stratify(v, cy, depth);
        let z = stratify(t, cz, height);
        assert(x as int == stratum_point(u, cx as int, width as int));
        assert(y as int == stratum_point(v, cy as int, depth as int));
        assert(z as int == stratum_point(t, cz as int, height as int));
        Sample3D { x, y, z }
    }
}

impl Sampler for StratifiedSampler {
    open spec fn inv(&self) -> bool {
        self.wf()
    }

    fn draw_1d(&mut self) -> Sample1D {
        StratifiedSampler::draw_1d(self)
    }

    fn draw_2d(&mut self) -> Sample2D {
        StratifiedSampler::draw_2d(self)
    }

    fn draw_3d(&mut self) -> Sample3D {
        StratifiedSampler::draw_3d(self)
    }
}

/// `a / b < c` when `a < b * c`.
proof fn lemma_div_lt(a: int, b: int, c: int)
    requires
        0 <= a < b * c,
        b > 0,
    ensures
        a / b < c,
{
    let q = a / b;
    assert(q * b <= a) by (nonlinear_arith)
        requires
            q == a / b,
            b > 0,
            a >= 0,
    ;
    assert(q < c) by (nonlinear_arith)
        requires
            q * b <= a,
            a < b * c,
            b > 0,
    ;
}

/// Advancing a position `p < n` wraps it round to 0 after `n - 1`.
proof fn lemma_advance(p: int, n: int)
    requires
        0 <= p < n,
    ensures
        (if p + 1 >= n {
            0
        } else {
            p + 1
        }) == (p + 1) % n,
{
    if p + 1 >= n {
        vstd::arithmetic::div_mod::lemma_mod_self_0(n);
    } else {
        vstd::arithmetic::div_mod::lemma_small_mod((p + 1) as nat, n as nat);
    }
}

proof fn lemma_dims_bounded(w: int, d: int, h: int)
    requires
        w >= 1,
        d >= 1,
        h >= 1,
        w * d * h <= MAX_STRATA,
    ensures
        w <= w * d <= w * d * h,
        d <= w * d,
        h <= w * d * h,
        w * d <= MAX_STRATA,
{
    assert(w <= w * d <= w * d * h) by (nonlinear_arith)
        requires
            w >= 1,
            d >= 1,
            h >= 1,
    ;
    assert(d <= w * d && h <= w * d * h) by (nonlinear_arith)
        requires
            w >= 1,
            d >= 1,
            h >= 1,
    ;
}

/// The vector `0, 1, ..., n - 1`.
fn ascending(n: usize) -> (v: Vec<usize>)
    ensures
        v@ == range_seq(n as nat),
{
    let mut v: Vec<usize> = Vec::new();
    let mut i: usize = 0;
    while i < n
        invariant
            0 <= i <= n,
            v@ == range_seq(i as nat),
        decreases n - i,
    {
        v.push(i);
        assert(v@ =~= range_seq((i + 1) as nat));
        i += 1;
    }
    v
}

} // verus!
