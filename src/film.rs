//! An 8-bit RGB film and order-independent accumulation of splatted
//! samples into it.

use vstd::prelude::*;

verus! {

/// A film of `3 * width * height` channel values.
pub struct Film {
    pub buffer: Vec<u8>,
}

/// One splatted contribution: a buffer position and the amount to add.
pub type Splat = (usize, u8);

/// The sum of all amounts in `splats` aimed at position `p`.
pub open spec fn splat_total(splats: Seq<Splat>, p: int) -> nat
    decreases splats.len(),
{
    if splats.len() == 0 {
        0
    } else {
        let last = splats.last();
        splat_total(splats.drop_last(), p) + if last.0 as int == p {
            last.1 as nat
        } else {
            0
        }
    }
}

/// `v` capped at the largest channel value.
pub open spec fn saturate(v: int) -> u8 {
    if v >= 255 {
        255
    } else {
        v as u8
    }
}

/// The buffer after adding every splat, each channel capped at 255.
pub open spec fn accumulated(buffer: Seq<u8>, splats: Seq<Splat>) -> Seq<u8> {
    Seq::new(buffer.len(), |p: int| saturate(buffer[p] + splat_total(splats, p)))
}

impl Film {
    /// A black film of `width` by `height` pixels, three channels each.
    pub fn new(width: usize, height: usize) -> (film: Film)
        requires
            3 * width * height <= usize::MAX,
        ensures
            film.buffer@ == Seq::new((3 * width * height) as nat, |i: int| 0u8),
    {
        assert(3 * width <= 3 * width * height || height == 0) by (nonlinear_arith);
        let capacity: usize = if height == 0 {
            0
        } else {
            3 * width * height
        };
        assert(capacity == 3 * width * height) by (nonlinear_arith)
            requires
                height == 0 ==> capacity == 0,
                height != 0 ==> capacity == 3 * width * height,
        ;
        let mut buffer: Vec<u8> = Vec::with_capacity(capacity);
        let mut i: usize = 0;
        while i < capacity
            invariant
                0 <= i <= capacity,
                buffer@ == Seq::new(i as nat, |j: int| 0u8),
            decreases capacity - i,
        {
            buffer.push(0);
            assert(buffer@ =~= Seq::new((i + 1) as nat, |j: int| 0u8));
            i += 1;
        }
        Film { buffer }
    }

    /// Adds each splat's amount to its position, capping at 255.
    pub fn add_splats(&mut self, splats: &Vec<Splat>)
        requires
            forall|k: int| 0 <= k < splats.len() ==> (#[trigger] splats[k]).0 < old(self).buffer.len(),
        ensures
            final(self).buffer@ == accumulated(old(self).buffer@, splats@),
    {
        let ghost start = self.buffer@;
        let mut k: usize = 0;
        while k < splats.len()
            invariant
                0 <= k <= splats.len(),
                self.buffer.len() == start.len(),
                forall|q: int| 0 <= q < splats.len() ==> (#[trigger] splats[q]).0 < start.len(),
                self.buffer@ == accumulated(start, splats@.subrange(0, k as int)),
            decreases splats.len() - k,
        {
            let (p, amount) = splats[k];
            let current = self.buffer[p];
            let next: u8 = if current as u16 + amount as u16 >= 255 {
                255
            } else {
                current + amount
            };
            self.buffer.set(p, next);
            proof {
                let prev = splats@.subrange(0, k as int);
                let cur = splats@.subrange(0, k + 1);
                assert(cur.drop_last() =~= prev);
                assert(cur.last() == splats@[k as int]);
                assert(self.buffer@ =~= accumulated(start, cur));
            }
            k += 1;
        }
        assert(splats@.subrange(0, splats.len() as int) =~= splats@);
    }
}

/// Splatting is independent of task order: adding the splats of one task
/// and then another gives the same film as adding them the other way round,
/// so workers may deliver their samples in any order.
pub proof fn lemma_splat_order_independent(buffer: Seq<u8>, first: Seq<Splat>, second: Seq<Splat>)
    ensures
        accumulated(accumulated(buffer, first), second) == accumulated(
            accumulated(buffer, second),
            first,
        ),
{
    assert(accumulated(accumulated(buffer, first), second) =~= accumulated(
        accumulated(buffer, second),
        first,
    ));
}

} // verus!
