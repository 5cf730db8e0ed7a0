//! Axis-aligned bounding boxes and an exact slab test.
//!
//! Coordinates are integers and ray parameters are exact rationals, so the
//! test decides membership exactly, including rays that run parallel to an
//! axis (a zero direction component).

use vstd::prelude::*;

verus! {

/// A point (or, as `Vec3`, a direction) with integer coordinates.
#[derive(Clone, Copy, Debug, PartialEq, Eq, Structural)]
pub struct Point3 {
    pub x: i32,
    pub y: i32,
    pub z: i32,
}

/// A direction with integer components.
pub type Vec3 = Point3;

impl Point3 {
    pub fn new(x: i32, y: i32, z: i32) -> (r: Point3)
        ensures
            r == (Point3 { x, y, z }),
    {
        Point3 { x, y, z }
    }
}

/// A ray `origin + t * direction`.
#[derive(Clone, Copy, Debug, PartialEq, Eq, Structural)]
pub struct Ray {
    pub origin: Point3,
    pub direction: Vec3,
}

impl Ray {
    pub fn new(origin: Point3, direction: Vec3) -> (r: Ray)
        ensures
            r == (Ray { origin, direction }),
    {
        Ray { origin, direction }
    }
}

/// A ray parameter, the rational `num / den`; well formed when `den > 0`.
#[derive(Clone, Copy, Debug)]
pub struct Time {
    pub num: i64,
    pub den: u32,
}

impl Time {
    pub open spec fn wf(self) -> bool {
        self.den > 0
    }

    pub open spec fn n(self) -> int {
        self.num as int
    }

    pub open spec fn d(self) -> int {
        self.den as int
    }

    pub fn new(num: i64, den: u32) -> (r: Time)
        requires
            den > 0,
        ensures
            r.num == num,
            r.den == den,
            r.wf(),
    {
        Time { num, den }
    }

    /// Whether `self <= other` as rationals.
    pub fn le(&self, other: &Time) -> (r: bool)
        requires
            self.wf(),
            other.wf(),
        ensures
            r == time_le(*self, *other),
    {
        let (an, ad, bn, bd) = (self.num as i128, self.den as i128, other.num as i128, other.den as i128);
        proof {
            assert(-0x8000_0000_0000_0000_0000_0000 <= an * bd <= 0x8000_0000_0000_0000_0000_0000)
                by (nonlinear_arith)
                requires
                    -0x8000_0000_0000_0000 <= an <= 0x8000_0000_0000_0000,
                    0 <= bd <= 0x1_0000_0000,
            ;
            assert(-0x8000_0000_0000_0000_0000_0000 <= bn * ad <= 0x8000_0000_0000_0000_0000_0000)
                by (nonlinear_arith)
                requires
                    -0x8000_0000_0000_0000 <= bn <= 0x8000_0000_0000_0000,
                    0 <= ad <= 0x1_0000_0000,
            ;
        }
        an * bd <= bn * ad
    }
}

/// `a <= b` as rationals (both denominators positive).
pub open spec fn time_le(a: Time, b: Time) -> bool {
    a.n() * b.d() <= b.n() * a.d()
}

/// `a <= t <= b`.
pub open spec fn within(a: Time, b: Time, t: Time) -> bool {
    time_le(a, t) && time_le(t, b)
}

pub proof fn lemma_time_le_trans(a: Time, b: Time, c: Time)
    requires
        a.wf(),
        b.wf(),
        c.wf(),
        time_le(a, b),
        time_le(b, c),
    ensures
        time_le(a, c),
{
    let (an, ad, bn, bd, cn, cd) = (a.n(), a.d(), b.n(), b.d(), c.n(), c.d());
    assert(an * bd * cd <= bn * ad * cd) by (nonlinear_arith)
        requires
            an * bd <= bn * ad,
            cd > 0,
    ;
    assert(bn * cd * ad <= cn * bd * ad) by (nonlinear_arith)
        requires
            bn * cd <= cn * bd,
            ad > 0,
    ;
    assert(an * cd * bd <= cn * ad * bd) by (nonlinear_arith)
        requires
            an * bd * cd <= bn * ad * cd,
            bn * cd * ad <= cn * bd * ad,
    ;
    assert(an * cd <= cn * ad) by (nonlinear_arith)
        requires
            an * cd * bd <= cn * ad * bd,
            bd > 0,
    ;
}

/// An axis-aligned box, the points `p` with `min <= p <= max` on every
/// axis. A box whose `min` exceeds its `max` on some axis holds no point;
/// `AABB::empty` is the reserved such box.
#[derive(Clone, Copy, Debug, PartialEq, Eq, Structural)]
pub struct AABB {
    pub min: Point3,
    pub max: Point3,
}

/// Types that can report a bounding box of themselves.
pub trait HasBoundingBox {
    fn bounding_box(&self) -> AABB;
}

/// On one axis: `lo <= o + v * t <= hi`, with `t = num / den`, multiplied
/// through by `den > 0`.
pub open spec fn axis_inside(lo: i32, hi: i32, o: i32, v: i32, t: Time) -> bool {
    lo * t.d() <= o * t.d() + v * t.n() && o * t.d() + v * t.n() <= hi * t.d()
}

/// The point of `r` at parameter `t` lies in `b`.
pub open spec fn inside_at(b: AABB, r: Ray, t: Time) -> bool {
    &&& axis_inside(b.min.x, b.max.x, r.origin.x, r.direction.x, t)
    &&& axis_inside(b.min.y, b.max.y, r.origin.y, r.direction.y, t)
    &&& axis_inside(b.min.z, b.max.z, r.origin.z, r.direction.z, t)
}

/// `t` lies in `[t0, t1]` and the ray's point at `t` lies in `b`.
pub open spec fn hit_at(b: AABB, r: Ray, t0: Time, t1: Time, t: Time) -> bool {
    t.wf() && within(t0, t1, t) && inside_at(b, r, t)
}

/// The ray meets the box for some parameter in `[t0, t1]`.
pub open spec fn hits(b: AABB, r: Ray, t0: Time, t1: Time) -> bool {
    exists|t: Time| #[trigger] hit_at(b, r, t0, t1, t)
}

/// The result of `hit`: `None` exactly when the ray misses, and otherwise
/// the exact interval of parameters at which it is inside.
pub open spec fn hit_interval_exact(
    b: AABB,
    r: Ray,
    t0: Time,
    t1: Time,
    res: Option<(Time, Time)>,
) -> bool {
    &&& res.is_some() == hits(b, r, t0, t1)
    &&& res matches Some((a, e)) ==> {
        &&& a.wf()
        &&& e.wf()
        &&& forall|t: Time| t.wf() ==> (#[trigger] hit_at(b, r, t0, t1, t) <==> within(a, e, t))
    }
}

/// `outer` holds `inner` coordinate by coordinate.
pub open spec fn encloses(outer: AABB, inner: AABB) -> bool {
    &&& outer.min.x <= inner.min.x && inner.max.x <= outer.max.x
    &&& outer.min.y <= inner.min.y && inner.max.y <= outer.max.y
    &&& outer.min.z <= inner.min.z && inner.max.z <= outer.max.z
}

pub open spec fn min_i32(a: i32, b: i32) -> i32 {
    if a <= b { a } else { b }
}

pub open spec fn max_i32(a: i32, b: i32) -> i32 {
    if a >= b { a } else { b }
}

/// The smallest box holding both boxes.
pub open spec fn union_spec(a: AABB, b: AABB) -> AABB {
    AABB {
        min: Point3 {
            x: min_i32(a.min.x, b.min.x),
            y: min_i32(a.min.y, b.min.y),
            z: min_i32(a.min.z, b.min.z),
        },
        max: Point3 {
            x: max_i32(a.max.x, b.max.x),
            y: max_i32(a.max.y, b.max.y),
            z: max_i32(a.max.z, b.max.z),
        },
    }
}

pub open spec fn empty_spec() -> AABB {
    AABB {
        min: Point3 { x: i32::MAX, y: i32::MAX, z: i32::MAX },
        max: Point3 { x: i32::MIN, y: i32::MIN, z: i32::MIN },
    }
}

/// What one axis allows of the ray parameter.
pub enum Slab {
    /// No parameter: the ray runs parallel to the slab, outside it.
    Never,
    /// Every parameter: the ray runs parallel to the slab, inside it.
    Always,
    /// The parameters from `enter` to `exit`.
    Between(Time, Time),
}

pub open spec fn slab_allows(s: Slab, t: Time) -> bool {
    match s {
        Slab::Never => false,
        Slab::Always => true,
        Slab::Between(enter, exit) => within(enter, exit, t),
    }
}

pub open spec fn slab_wf(s: Slab) -> bool {
    match s {
        Slab::Between(enter, exit) => enter.wf() && exit.wf(),
        _ => true,
    }
}

/// The parameters at which `o + v * t` lies in `[lo, hi]`.
fn slab(lo: i32, hi: i32, o: i32, v: i32) -> (s: Slab)
    ensures
        slab_wf(s),
        forall|t: Time| t.wf() ==> (#[trigger] axis_inside(lo, hi, o, v, t) <==> slab_allows(s, t)),
{
    if v == 0 {
        if lo <= o && o <= hi {
            assert forall|t: Time| t.wf() implies #[trigger] axis_inside(lo, hi, o, v, t) by {
                let d = t.d();
                assert(lo * d <= o * d) by (nonlinear_arith)
                    requires
                        lo <= o,
                        d > 0,
                ;
                assert(o * d <= hi * d) by (nonlinear_arith)
                    requires
                        o <= hi,
                        d > 0,
                ;
            }
            Slab::Always
        } else {
            assert forall|t: Time| t.wf() implies !#[trigger] axis_inside(lo, hi, o, v, t) by {
                let d = t.d();
                if o < lo {
                    assert(o * d < lo * d) by (nonlinear_arith)
                        requires
                            o < lo,
                            d > 0,
                    ;
                } else {
                    assert(hi * d < o * d) by (nonlinear_arith)
                        requires
                            hi < o,
                            d > 0,
                    ;
                }
            }
            Slab::Never
        }
    } else if v > 0 {
        let enter = Time { num: lo as i64 - o as i64, den: v as u32 };
        let exit = Time { num: hi as i64 - o as i64, den: v as u32 };
        assert forall|t: Time| t.wf() implies (#[trigger] axis_inside(lo, hi, o, v, t)
            <==> within(enter, exit, t)) by {
            let (n, d) = (t.n(), t.d());
            assert((lo - o) * d == lo * d - o * d) by (nonlinear_arith);
            assert((hi - o) * d == hi * d - o * d) by (nonlinear_arith);
            assert(v * n == n * v) by (nonlinear_arith);
        }
        Slab::Between(enter, exit)
    } else {
        let w: i64 = -(v as i64);
        let enter = Time { num: o as i64 - hi as i64, den: w as u32 };
        let exit = Time { num: o as i64 - lo as i64, den: w as u32 };
        assert forall|t: Time| t.wf() implies (#[trigger] axis_inside(lo, hi, o, v, t)
            <==> within(enter, exit, t)) by {
            let (n, d) = (t.n(), t.d());
            assert((o - hi) * d == o * d - hi * d) by (nonlinear_arith);
            assert((o - lo) * d == o * d - lo * d) by (nonlinear_arith);
            assert(n * w == -(v * n)) by (nonlinear_arith)
                requires
                    w == -v,
            ;
        }
        Slab::Between(enter, exit)
    }
}

/// The later of two times.
fn later(a: Time, b: Time) -> (r: Time)
    requires
        a.wf(),
        b.wf(),
    ensures
        r.wf(),
        forall|t: Time| t.wf() ==> (time_le(r, t) <==> (time_le(a, t) && time_le(b, t))),
{
    if a.le(&b) {
        assert forall|t: Time| t.wf() && time_le(b, t) implies time_le(a, t) by {
            lemma_time_le_trans(a, b, t);
        }
        b
    } else {
        assert(time_le(b, a)) by (nonlinear_arith)
            requires
                !(a.n() * b.d() <= b.n() * a.d()),
        ;
        assert forall|t: Time| t.wf() && time_le(a, t) implies time_le(b, t) by {
            lemma_time_le_trans(b, a, t);
        }
        a
    }
}

/// The earlier of two times.
fn earlier(a: Time, b: Time) -> (r: Time)
    requires
        a.wf(),
        b.wf(),
    ensures
        r.wf(),
        forall|t: Time| t.wf() ==> (time_le(t, r) <==> (time_le(t, a) && time_le(t, b))),
{
    if a.le(&b) {
        assert forall|t: Time| t.wf() && time_le(t, a) implies time_le(t, b) by {
            lemma_time_le_trans(t, a, b);
        }
        a
    } else {
        assert(time_le(b, a)) by (nonlinear_arith)
            requires
                !(a.n() * b.d() <= b.n() * a.d()),
        ;
        assert forall|t: Time| t.wf() && time_le(t, b) implies time_le(t, a) by {
            lemma_time_le_trans(t, b, a);
        }
        b
    }
}

/// Narrows `[a, b]` by what one slab allows; `None` when nothing is left to
/// allow.
fn clip(a: Time, b: Time, s: Slab) -> (r: Option<(Time, Time)>)
    requires
        a.wf(),
        b.wf(),
        slab_wf(s),
    ensures
        r matches Some((c, e)) ==> c.wf() && e.wf() && forall|t: Time|
            t.wf() ==> (within(c, e, t) <==> (within(a, b, t) && slab_allows(s, t))),
        r is None ==> forall|t: Time| t.wf() ==> !slab_allows(s, t),
{
    match s {
        Slab::Never => None,
        Slab::Always => Some((a, b)),
        Slab::Between(enter, exit) => Some((later(a, enter), earlier(b, exit))),
    }
}

impl AABB {
    pub fn new(min: Point3, max: Point3) -> (r: AABB)
        ensures
            r == (AABB { min, max }),
    {
        AABB { min, max }
    }

    /// The reserved box that holds no point; `union` with it gives the
    /// other box back.
    pub fn empty() -> (r: AABB)
        ensures
            r == empty_spec(),
    {
        AABB {
            min: Point3 { x: i32::MAX, y: i32::MAX, z: i32::MAX },
            max: Point3 { x: i32::MIN, y: i32::MIN, z: i32::MIN },
        }
    }

    /// The smallest box holding `self` and `other`.
    pub fn union(&self, other: &AABB) -> (r: AABB)
        ensures
            r == union_spec(*self, *other),
            encloses(r, *self),
            encloses(r, *other),
    {
        AABB {
            min: Point3 {
                x: if self.min.x <= other.min.x { self.min.x } else { other.min.x },
                y: if self.min.y <= other.min.y { self.min.y } else { other.min.y },
                z: if self.min.z <= other.min.z { self.min.z } else { other.min.z },
            },
            max: Point3 {
                x: if self.max.x >= other.max.x { self.max.x } else { other.max.x },
                y: if self.max.y >= other.max.y { self.max.y } else { other.max.y },
                z: if self.max.z >= other.max.z { self.max.z } else { other.max.z },
            },
        }
    }

    /// Slab test of `r` over `[t0, t1]`. Returns the interval of parameters
    /// within `[t0, t1]` at which the ray is inside the box, or `None` when
    /// there is none. A zero direction component is handled exactly: the
    /// axis then allows every parameter or none, as the origin lies inside
    /// or outside that slab.
    pub fn hit(&self, r: Ray, t0: Time, t1: Time) -> (res: Option<(Time, Time)>)
        requires
            t0.wf(),
            t1.wf(),
        ensures
            hit_interval_exact(*self, r, t0, t1, res),
    {
        let sx = slab(self.min.x, self.max.x, r.origin.x, r.direction.x);
        let sy = slab(self.min.y, self.max.y, r.origin.y, r.direction.y);
        let sz = slab(self.min.z, self.max.z, r.origin.z, r.direction.z);
        let cx = clip(t0, t1, sx);
        if cx.is_none() {
            assert forall|t: Time| !#[trigger] hit_at(*self, r, t0, t1, t) by {
                if t.wf() {
                    assert(axis_inside(self.min.x, self.max.x, r.origin.x, r.direction.x, t)
                        == slab_allows(sx, t));
                }
            }
            return None;
        }
        let (ax, bx) = cx.unwrap();
        let cy = clip(ax, bx, sy);
        if cy.is_none() {
            assert forall|t: Time| !#[trigger] hit_at(*self, r, t0, t1, t) by {
                if t.wf() {
                    assert(axis_inside(self.min.y, self.max.y, r.origin.y, r.direction.y, t)
                        == slab_allows(sy, t));
                }
            }
            return None;
        }
        let (ay, by) = cy.unwrap();
        let cz = clip(ay, by, sz);
        if cz.is_none() {
            assert forall|t: Time| !#[trigger] hit_at(*self, r, t0, t1, t) by {
                if t.wf() {
                    assert(axis_inside(self.min.z, self.max.z, r.origin.z, r.direction.z, t)
                        == slab_allows(sz, t));
                }
            }
            return None;
        }
        let (a, b) = cz.unwrap();
        assert forall|t: Time| t.wf() implies (#[trigger] hit_at(*self, r, t0, t1, t)
            <==> within(a, b, t)) by {
            assert(axis_inside(self.min.x, self.max.x, r.origin.x, r.direction.x, t)
                == slab_allows(sx, t));
            assert(axis_inside(self.min.y, self.max.y, r.origin.y, r.direction.y, t)
                == slab_allows(sy, t));
            assert(axis_inside(self.min.z, self.max.z, r.origin.z, r.direction.z, t)
                == slab_allows(sz, t));
        }
        if a.le(&b) {
            assert(time_le(a, a)) by (nonlinear_arith)
                requires
                    a.wf(),
            ;
            assert(hit_at(*self, r, t0, t1, a));
            Some((a, b))
        } else {
            assert forall|t: Time| !#[trigger] hit_at(*self, r, t0, t1, t) by {
                if t.wf() && within(a, b, t) {
                    lemma_time_le_trans(a, t, b);
                }
            }
            None
        }
    }
}

impl HasBoundingBox for AABB {
    fn bounding_box(&self) -> AABB {
        *self
    }
}

/// A ray that, on some axis, lies outside the box's slab at every
/// parameter meets no point of the box.
pub proof fn lemma_slab_miss(b: AABB, r: Ray, t0: Time, t1: Time)
    requires
        (forall|t: Time| t.wf() ==> !axis_inside(b.min.x, b.max.x, r.origin.x, r.direction.x, t))
            || (forall|t: Time|
            t.wf() ==> !axis_inside(b.min.y, b.max.y, r.origin.y, r.direction.y, t)) || (forall|
            t: Time,
        | t.wf() ==> !axis_inside(b.min.z, b.max.z, r.origin.z, r.direction.z, t)),
    ensures
        !hits(b, r, t0, t1),
{
    assert forall|t: Time| !#[trigger] hit_at(b, r, t0, t1, t) by {
        if t.wf() && inside_at(b, r, t) {
            assert(axis_inside(b.min.x, b.max.x, r.origin.x, r.direction.x, t));
            assert(axis_inside(b.min.y, b.max.y, r.origin.y, r.direction.y, t));
            assert(axis_inside(b.min.z, b.max.z, r.origin.z, r.direction.z, t));
        }
    }
}

/// A ray that stays inside the box over all of `[t0, t1]` (with
/// `t0 <= t1`) hits it, and the hit interval contains `[t0, t1]`.
pub proof fn lemma_inside_keeps_interval(b: AABB, r: Ray, t0: Time, t1: Time, res: Option<(Time, Time)>)
    requires
        t0.wf(),
        t1.wf(),
        time_le(t0, t1),
        forall|t: Time| t.wf() && within(t0, t1, t) ==> inside_at(b, r, t),
        hit_interval_exact(b, r, t0, t1, res),
    ensures
        res matches Some((a, e)) && forall|t: Time| t.wf() && within(t0, t1, t) ==> within(a, e, t),
{
    assert(time_le(t0, t0)) by (nonlinear_arith)
        requires
            t0.wf(),
    ;
    assert(hit_at(b, r, t0, t1, t0));
    let (a, e) = res.unwrap();
    assert forall|t: Time| t.wf() && within(t0, t1, t) implies within(a, e, t) by {
        assert(hit_at(b, r, t0, t1, t));
    }
}

spec fn mul_le(a: int, b: int, d: int) -> bool {
    a * d <= b * d
}

/// A box that encloses another is hit wherever the inner one is.
pub proof fn lemma_hits_enclosing(outer: AABB, inner: AABB, r: Ray, t0: Time, t1: Time)
    requires
        encloses(outer, inner),
        hits(inner, r, t0, t1),
    ensures
        hits(outer, r, t0, t1),
{
    let t = choose|t: Time| #[trigger] hit_at(inner, r, t0, t1, t);
    let d = t.d();
    assert forall|a: int, b: int| a <= b implies #[trigger] mul_le(a, b, d) by {
        assert(a * d <= b * d) by (nonlinear_arith)
            requires
                a <= b,
                d > 0,
        ;
    }
    assert(mul_le(outer.min.x as int, inner.min.x as int, d));
    assert(mul_le(outer.min.y as int, inner.min.y as int, d));
    assert(mul_le(outer.min.z as int, inner.min.z as int, d));
    assert(mul_le(inner.max.x as int, outer.max.x as int, d));
    assert(mul_le(inner.max.y as int, outer.max.y as int, d));
    assert(mul_le(inner.max.z as int, outer.max.z as int, d));
    assert(hit_at(outer, r, t0, t1, t));
}

} // verus!
