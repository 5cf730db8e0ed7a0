//! A bounding volume hierarchy over a list of primitive boxes.
//!
//! Nodes live in one append-only array and refer to each other by index;
//! the root is at index 0 and every child sits at a higher index than its
//! parent, so the structure is a finite tree built once and then only read.

use vstd::prelude::*;
use vstd::seq_lib::lemma_multiset_commutative;
use crate::aabb::{
    AABB, Point3, Ray, Time, encloses, hit_at, hits, lemma_hits_enclosing, lemma_time_le_trans,
    time_le, within,
};

verus! {

broadcast use vstd::seq_lib::group_to_multiset_ensures;

/// The largest number of primitives a hierarchy is built over; it keeps every
/// index of the flattened form within `u32`.
pub const MAX_SHAPES: usize = 0x1000_0000;

/// A node of the hierarchy: an inner node holding the boxes and indices of
/// its two children, or a leaf naming one primitive.
#[derive(Clone, Copy, Debug)]
pub enum BVHNode {
    Leaf { shape_index: usize },
    Node {
        child_l_aabb: AABB,
        child_l_index: usize,
        child_r_aabb: AABB,
        child_r_index: usize,
    },
}

/// A hierarchy over primitives given by their boxes.
pub struct BVH {
    pub nodes: Vec<BVHNode>,
}

/// The primitives under node `i`, left to right.
pub open spec fn leaves(nodes: Seq<BVHNode>, i: int) -> Seq<usize>
    decreases nodes.len() - i,
{
    if 0 <= i < nodes.len() {
        match nodes[i] {
            BVHNode::Leaf { shape_index } => seq![shape_index],
            BVHNode::Node { child_l_index, child_r_index, .. } => {
                if i < child_l_index < nodes.len() && i < child_r_index < nodes.len() {
                    leaves(nodes, child_l_index as int) + leaves(nodes, child_r_index as int)
                } else {
                    seq![]
                }
            },
        }
    } else {
        seq![]
    }
}

/// The candidates that traversal from node `i` reports, in order: the
/// primitives under `i` whose own box the ray meets, reached through
/// children whose stored boxes it meets too.
pub open spec fn candidates(
    nodes: Seq<BVHNode>,
    i: int,
    shapes: Seq<AABB>,
    ray: Ray,
    t0: Time,
    t1: Time,
) -> Seq<usize>
    decreases nodes.len() - i,
{
    if 0 <= i < nodes.len() {
        match nodes[i] {
            BVHNode::Leaf { shape_index } => {
                if shape_index < shapes.len() && hits(shapes[shape_index as int], ray, t0, t1) {
                    seq![shape_index]
                } else {
                    seq![]
                }
            },
            BVHNode::Node { child_l_aabb, child_l_index, child_r_aabb, child_r_index } => {
                if i < child_l_index < nodes.len() && i < child_r_index < nodes.len() {
                    (if hits(child_l_aabb, ray, t0, t1) {
                        candidates(nodes, child_l_index as int, shapes, ray, t0, t1)
                    } else {
                        seq![]
                    }) + (if hits(child_r_aabb, ray, t0, t1) {
                        candidates(nodes, child_r_index as int, shapes, ray, t0, t1)
                    } else {
                        seq![]
                    })
                } else {
                    seq![]
                }
            },
        }
    } else {
        seq![]
    }
}

/// `b` encloses the box of every primitive listed in `ls`.
pub open spec fn encloses_all(b: AABB, shapes: Seq<AABB>, ls: Seq<usize>) -> bool {
    forall|k: int| 0 <= k < ls.len() ==> encloses(b, #[trigger] shapes[ls[k] as int])
}

/// The children of node `j` lie above `j` and below `hi`.
pub open spec fn links_ok(nodes: Seq<BVHNode>, j: int, hi: int) -> bool {
    match nodes[j] {
        BVHNode::Leaf { .. } => true,
        BVHNode::Node { child_l_index, child_r_index, .. } => j < child_l_index < hi && j
            < child_r_index < hi,
    }
}

/// Node `j` is well formed below `hi`: a leaf names an existing primitive,
/// an inner node's children lie in `(j, hi)` and each stored child box
/// encloses every primitive under that child.
pub open spec fn node_ok(nodes: Seq<BVHNode>, j: int, hi: int, shapes: Seq<AABB>) -> bool {
    match nodes[j] {
        BVHNode::Leaf { shape_index } => shape_index < shapes.len(),
        BVHNode::Node { child_l_aabb, child_l_index, child_r_aabb, child_r_index } => {
            &&& j < child_l_index < hi
            &&& j < child_r_index < hi
            &&& encloses_all(child_l_aabb, shapes, leaves(nodes, child_l_index as int))
            &&& encloses_all(child_r_aabb, shapes, leaves(nodes, child_r_index as int))
        },
    }
}

/// Every node in `[lo, hi)` is well formed below `hi`.
pub open spec fn tree_ok(nodes: Seq<BVHNode>, lo: int, hi: int, shapes: Seq<AABB>) -> bool {
    &&& 0 <= lo <= hi <= nodes.len()
    &&& forall|j: int| lo <= j < hi ==> #[trigger] node_ok(nodes, j, hi, shapes)
}

/// The indices `0..n`.
pub open spec fn all_shapes(n: nat) -> Seq<usize> {
    Seq::new(n, |i: int| i as usize)
}

impl BVH {
    /// Well formed over `shapes`: a tree rooted at 0 whose leaves name each
    /// primitive exactly once.
    pub open spec fn wf(&self, shapes: Seq<AABB>) -> bool {
        &&& shapes.len() <= MAX_SHAPES
        &&& (self.nodes.len() == 0 <==> shapes.len() == 0)
        &&& self.nodes.len() > 0 ==> {
            &&& tree_ok(self.nodes@, 0, self.nodes.len() as int, shapes)
            &&& leaves(self.nodes@, 0).to_multiset() == all_shapes(shapes.len()).to_multiset()
        }
    }

    /// What `traverse` returns.
    pub open spec fn traverse_spec(&self, shapes: Seq<AABB>, ray: Ray, t0: Time, t1: Time) -> Seq<
        usize,
    > {
        candidates(self.nodes@, 0, shapes, ray, t0, t1)
    }
}

pub(crate) proof fn lemma_node_ok_links(nodes: Seq<BVHNode>, lo: int, hi: int, shapes: Seq<AABB>)
    requires
        tree_ok(nodes, lo, hi, shapes),
    ensures
        forall|j: int| lo <= j < hi ==> #[trigger] links_ok(nodes, j, hi),
{
    assert forall|j: int| lo <= j < hi implies #[trigger] links_ok(nodes, j, hi) by {
        assert(node_ok(nodes, j, hi, shapes));
    }
}

/// `leaves` of a node depends only on the nodes of its index range.
proof fn lemma_leaves_frame(a: Seq<BVHNode>, b: Seq<BVHNode>, lo: int, hi: int, j: int)
    requires
        0 <= lo <= j < hi,
        hi <= a.len(),
        hi <= b.len(),
        forall|k: int| lo <= k < hi ==> #[trigger] links_ok(a, k, hi),
        forall|k: int| lo <= k < hi ==> a[k] == b[k],
    ensures
        leaves(a, j) == leaves(b, j),
    decreases hi - j,
{
    assert(links_ok(a, j, hi));
    match a[j] {
        BVHNode::Leaf { .. } => {},
        BVHNode::Node { child_l_index, child_r_index, .. } => {
            lemma_leaves_frame(a, b, lo, hi, child_l_index as int);
            lemma_leaves_frame(a, b, lo, hi, child_r_index as int);
        },
    }
}

/// Well-formedness of an index range survives changes outside it.
proof fn lemma_tree_frame(a: Seq<BVHNode>, b: Seq<BVHNode>, lo: int, hi: int, shapes: Seq<AABB>)
    requires
        tree_ok(a, lo, hi, shapes),
        hi <= b.len(),
        forall|k: int| lo <= k < hi ==> a[k] == b[k],
    ensures
        tree_ok(b, lo, hi, shapes),
{
    lemma_node_ok_links(a, lo, hi, shapes);
    assert forall|j: int| lo <= j < hi implies #[trigger] node_ok(b, j, hi, shapes) by {
        assert(node_ok(a, j, hi, shapes));
        match a[j] {
            BVHNode::Leaf { .. } => {},
            BVHNode::Node { child_l_index, child_r_index, .. } => {
                lemma_leaves_frame(a, b, lo, hi, child_l_index as int);
                lemma_leaves_frame(a, b, lo, hi, child_r_index as int);
            },
        }
    }
}

/// The smallest box holding the boxes of the listed primitives.
fn bounds_of(shapes: &Vec<AABB>, idx: &Vec<usize>) -> (r: AABB)
    requires
        forall|j: int| 0 <= j < idx.len() ==> idx[j] < shapes.len(),
    ensures
        encloses_all(r, shapes@, idx@),
{
    let mut acc = AABB::empty();
    let mut i: usize = 0;
    while i < idx.len()
        invariant
            0 <= i <= idx.len(),
            forall|j: int| 0 <= j < idx.len() ==> idx[j] < shapes.len(),
            forall|k: int| 0 <= k < i ==> encloses(acc, #[trigger] shapes@[idx@[k] as int]),
        decreases idx.len() - i,
    {
        acc = acc.union(&shapes[idx[i]]);
        i += 1;
    }
    acc
}

fn coord(p: Point3, axis: u8) -> (r: i64)
    ensures
        i32::MIN <= r <= i32::MAX,
{
    if axis == 0 {
        p.x as i64
    } else if axis == 1 {
        p.y as i64
    } else {
        p.z as i64
    }
}

/// Splits the primitives of a node in two non-empty groups: by the midpoint
/// of the node's longest axis, or, when every centroid falls on one side,
/// by position in the list.
fn split(shapes: &Vec<AABB>, indices: &Vec<usize>) -> (res: (Vec<usize>, Vec<usize>))
    requires
        indices.len() >= 2,
        forall|j: int| 0 <= j < indices.len() ==> indices[j] < shapes.len(),
    ensures
        res.0.len() >= 1,
        res.1.len() >= 1,
        res.0.len() + res.1.len() == indices.len(),
        (res.0@ + res.1@).to_multiset() == indices@.to_multiset(),
        forall|j: int| 0 <= j < res.0.len() ==> res.0[j] < shapes.len(),
        forall|j: int| 0 <= j < res.1.len() ==> res.1[j] < shapes.len(),
{
    let n = indices.len();
    let bounds = bounds_of(shapes, indices);
    let ex = bounds.max.x as i64 - bounds.min.x as i64;
    let ey = bounds.max.y as i64 - bounds.min.y as i64;
    let ez = bounds.max.z as i64 - bounds.min.z as i64;
    let axis: u8 = if ex >= ey && ex >= ez {
        0
    } else if ey >= ez {
        1
    } else {
        2
    };
    let mid2 = coord(bounds.min, axis) + coord(bounds.max, axis);
    let mut left: Vec<usize> = Vec::new();
    let mut right: Vec<usize> = Vec::new();
    let mut i: usize = 0;
    while i < n
        invariant
            0 <= i <= n,
            n == indices.len(),
            forall|j: int| 0 <= j < indices.len() ==> indices[j] < shapes.len(),
            left@.to_multiset().add(right@.to_multiset()) == indices@.subrange(
                0,
                i as int,
            ).to_multiset(),
            forall|j: int| 0 <= j < left.len() ==> left[j] < shapes.len(),
            forall|j: int| 0 <= j < right.len() ==> right[j] < shapes.len(),
        decreases n - i,
    {
        let s = indices[i];
        let b = shapes[s];
        let c2 = coord(b.min, axis) + coord(b.max, axis);
        if c2 < mid2 {
            left.push(s);
        } else {
            right.push(s);
        }
        assert(indices@.subrange(0, i + 1) =~= indices@.subrange(0, i as int).push(s));
        assert(left@.to_multiset().add(right@.to_multiset()) =~= indices@.subrange(
            0,
            i + 1,
        ).to_multiset());
        i += 1;
    }
    if left.len() == 0 || right.len() == 0 {
        left = Vec::new();
        right = Vec::new();
        let half = n / 2;
        let mut i: usize = 0;
        while i < n
            invariant
                0 <= i <= n,
                n == indices.len(),
                half == n / 2,
                left.len() == if i <= half { i } else { half },
                right.len() == if i <= half { 0 } else { i - half },
                forall|j: int| 0 <= j < indices.len() ==> indices[j] < shapes.len(),
                left@.to_multiset().add(right@.to_multiset()) == indices@.subrange(
                    0,
                    i as int,
                ).to_multiset(),
                forall|j: int| 0 <= j < left.len() ==> left[j] < shapes.len(),
                forall|j: int| 0 <= j < right.len() ==> right[j] < shapes.len(),
            decreases n - i,
        {
            let s = indices[i];
            if i < half {
                left.push(s);
            } else {
                right.push(s);
            }
            assert(indices@.subrange(0, i + 1) =~= indices@.subrange(0, i as int).push(s));
            assert(left@.to_multiset().add(right@.to_multiset()) =~= indices@.subrange(
                0,
                i + 1,
            ).to_multiset());
            i += 1;
        }
    }
    proof {
        assert(indices@.subrange(0, n as int) =~= indices@);
        lemma_multiset_commutative(left@, right@);
        assert((left@ + right@).to_multiset().len() == (left@ + right@).len());
        assert(indices@.to_multiset().len() == indices@.len());
    }
    (left, right)
}

/// Builds the subtree over `indices`, appending its nodes in pre-order;
/// returns the index of its root.
fn build_rec(shapes: &Vec<AABB>, indices: Vec<usize>, nodes: &mut Vec<BVHNode>) -> (k: usize)
    requires
        indices.len() >= 1,
        old(nodes).len() + 2 * indices.len() <= 2 * MAX_SHAPES + 1,
        forall|j: int| 0 <= j < indices.len() ==> indices[j] < shapes.len(),
    ensures
        k == old(nodes).len(),
        final(nodes).len() == k + 2 * indices.len() - 1,
        forall|j: int| 0 <= j < k ==> final(nodes)[j] == old(nodes)[j],
        tree_ok(final(nodes)@, k as int, final(nodes).len() as int, shapes@),
        leaves(final(nodes)@, k as int).to_multiset() == indices@.to_multiset(),
    decreases indices.len(),
{
    let k = nodes.len();
    if indices.len() == 1 {
        nodes.push(BVHNode::Leaf { shape_index: indices[0] });
        assert(indices@ =~= seq![indices[0]]);
        assert(leaves(nodes@, k as int) == seq![indices[0]]);
        assert(node_ok(nodes@, k as int, nodes.len() as int, shapes@));
        return k;
    }
    let (left, right) = split(shapes, &indices);
    let left_box = bounds_of(shapes, &left);
    let right_box = bounds_of(shapes, &right);
    nodes.push(BVHNode::Leaf { shape_index: indices[0] });
    let l = build_rec(shapes, left, nodes);
    let ghost n1 = nodes@;
    let r = build_rec(shapes, right, nodes);
    let ghost n2 = nodes@;
    nodes.set(
        k,
        BVHNode::Node {
            child_l_aabb: left_box,
            child_l_index: l,
            child_r_aabb: right_box,
            child_r_index: r,
        },
    );
    proof {
        let n3 = nodes@;
        let end = n3.len() as int;
        lemma_tree_frame(n1, n2, l as int, r as int, shapes@);
        lemma_node_ok_links(n1, l as int, r as int, shapes@);
        lemma_leaves_frame(n1, n2, l as int, r as int, l as int);
        lemma_tree_frame(n2, n3, l as int, r as int, shapes@);
        lemma_node_ok_links(n2, l as int, r as int, shapes@);
        lemma_leaves_frame(n2, n3, l as int, r as int, l as int);
        lemma_tree_frame(n2, n3, r as int, end, shapes@);
        lemma_node_ok_links(n2, r as int, end, shapes@);
        lemma_leaves_frame(n2, n3, r as int, end, r as int);
        // The left range is well formed up to `end` too.
        assert forall|j: int| k < j < end implies #[trigger] node_ok(n3, j, end, shapes@) by {
            if j < r {
                assert(node_ok(n3, j, r as int, shapes@));
            } else {
                assert(node_ok(n3, j, end, shapes@));
            }
        }
        assert(leaves(n3, k as int) == leaves(n3, l as int) + leaves(n3, r as int));
        lemma_multiset_commutative(leaves(n3, l as int), leaves(n3, r as int));
        assert forall|q: int| 0 <= q < leaves(n3, l as int).len() implies encloses(
            left_box,
            #[trigger] shapes@[leaves(n3, l as int)[q] as int],
        ) by {
            let s = leaves(n3, l as int)[q];
            assert(leaves(n3, l as int).to_multiset().count(s) > 0);
            assert(left@.contains(s));
        }
        assert forall|q: int| 0 <= q < leaves(n3, r as int).len() implies encloses(
            right_box,
            #[trigger] shapes@[leaves(n3, r as int)[q] as int],
        ) by {
            let s = leaves(n3, r as int)[q];
            assert(leaves(n3, r as int).to_multiset().count(s) > 0);
            assert(right@.contains(s));
        }
        assert(node_ok(n3, k as int, end, shapes@));
        assert(leaves(n3, l as int).to_multiset() == left@.to_multiset());
        assert(leaves(n3, r as int).to_multiset() == right@.to_multiset());
        lemma_multiset_commutative(left@, right@);
    }
    k
}

impl BVH {
    /// Builds a hierarchy over the primitives whose boxes are `shapes`;
    /// primitive `i` is the one with box `shapes[i]`.
    pub fn build(shapes: &Vec<AABB>) -> (bvh: BVH)
        requires
            shapes.len() <= MAX_SHAPES,
        ensures
            bvh.wf(shapes@),
    {
        let n = shapes.len();
        let mut nodes: Vec<BVHNode> = Vec::new();
        if n == 0 {
            return BVH { nodes };
        }
        let mut indices: Vec<usize> = Vec::new();
        let mut i: usize = 0;
        while i < n
            invariant
                0 <= i <= n,
                n == shapes.len(),
                indices@ == all_shapes(i as nat),
            decreases n - i,
        {
            indices.push(i);
            assert(indices@ =~= all_shapes((i + 1) as nat));
            i += 1;
        }
        build_rec(shapes, indices, &mut nodes);
        BVH { nodes }
    }

    /// The primitives whose boxes the ray meets within `[t0, t1]`, found by
    /// depth-first descent that skips every child whose box the ray misses.
    pub fn traverse(&self, ray: Ray, t0: Time, t1: Time, shapes: &Vec<AABB>) -> (r: Vec<usize>)
        requires
            t0.wf(),
            t1.wf(),
        ensures
            r@ == self.traverse_spec(shapes@, ray, t0, t1),
    {
        let mut out: Vec<usize> = Vec::new();
        if self.nodes.len() > 0 {
            traverse_recursive(&self.nodes, 0, ray, t0, t1, shapes, &mut out);
            assert(out@ =~= self.traverse_spec(shapes@, ray, t0, t1));
        }
        out
    }
}

fn traverse_recursive(
    nodes: &Vec<BVHNode>,
    i: usize,
    ray: Ray,
    t0: Time,
    t1: Time,
    shapes: &Vec<AABB>,
    out: &mut Vec<usize>,
)
    requires
        i < nodes.len(),
        t0.wf(),
        t1.wf(),
    ensures
        final(out)@ == old(out)@ + candidates(nodes@, i as int, shapes@, ray, t0, t1),
    decreases nodes.len() - i,
{
    let ghost start = out@;
    match nodes[i] {
        BVHNode::Leaf { shape_index } => {
            if shape_index < shapes.len() && shapes[shape_index].hit(ray, t0, t1).is_some() {
                out.push(shape_index);
            }
            assert(out@ =~= start + candidates(nodes@, i as int, shapes@, ray, t0, t1));
        },
        BVHNode::Node { child_l_aabb, child_l_index, child_r_aabb, child_r_index } => {
            if i < child_l_index && child_l_index < nodes.len() && i < child_r_index
                && child_r_index < nodes.len() {
                if child_l_aabb.hit(ray, t0, t1).is_some() {
                    traverse_recursive(nodes, child_l_index, ray, t0, t1, shapes, out);
                }
                if child_r_aabb.hit(ray, t0, t1).is_some() {
                    traverse_recursive(nodes, child_r_index, ray, t0, t1, shapes, out);
                }
                assert(out@ =~= start + candidates(nodes@, i as int, shapes@, ray, t0, t1));
            } else {
                assert(out@ =~= start + candidates(nodes@, i as int, shapes@, ray, t0, t1));
            }
        },
    }
}

proof fn lemma_candidates_cover(
    nodes: Seq<BVHNode>,
    i: int,
    shapes: Seq<AABB>,
    ray: Ray,
    t0: Time,
    t1: Time,
    s: usize,
)
    requires
        tree_ok(nodes, 0, nodes.len() as int, shapes),
        0 <= i < nodes.len(),
        leaves(nodes, i).contains(s),
        hits(shapes[s as int], ray, t0, t1),
    ensures
        candidates(nodes, i, shapes, ray, t0, t1).contains(s),
    decreases nodes.len() - i,
{
    assert(node_ok(nodes, i, nodes.len() as int, shapes));
    match nodes[i] {
        BVHNode::Leaf { shape_index } => {
            assert(leaves(nodes, i) == seq![shape_index]);
            assert(candidates(nodes, i, shapes, ray, t0, t1) == seq![s]);
        },
        BVHNode::Node { child_l_aabb, child_l_index, child_r_aabb, child_r_index } => {
            let (l, r) = (child_l_index as int, child_r_index as int);
            let ll = leaves(nodes, l);
            let lr = leaves(nodes, r);
            assert(leaves(nodes, i) == ll + lr);
            let cl = candidates(nodes, l, shapes, ray, t0, t1);
            let cr = candidates(nodes, r, shapes, ray, t0, t1);
            if ll.contains(s) {
                let q = choose|q: int| 0 <= q < ll.len() && ll[q] == s;
                assert(encloses(child_l_aabb, shapes[ll[q] as int]));
                lemma_hits_enclosing(child_l_aabb, shapes[s as int], ray, t0, t1);
                lemma_candidates_cover(nodes, l, shapes, ray, t0, t1, s);
                let c = choose|c: int| 0 <= c < cl.len() && cl[c] == s;
                let all = candidates(nodes, i, shapes, ray, t0, t1);
                assert(all[c] == s);
            } else {
                let q = choose|q: int| 0 <= q < (ll + lr).len() && (ll + lr)[q] == s;
                assert(lr[q - ll.len()] == s);
                assert(encloses(child_r_aabb, shapes[lr[q - ll.len()] as int]));
                lemma_hits_enclosing(child_r_aabb, shapes[s as int], ray, t0, t1);
                lemma_candidates_cover(nodes, r, shapes, ray, t0, t1, s);
                let c = choose|c: int| 0 <= c < cr.len() && cr[c] == s;
                let all = candidates(nodes, i, shapes, ray, t0, t1);
                let front = if hits(child_l_aabb, ray, t0, t1) {
                    cl
                } else {
                    seq![]
                };
                assert(all == front + cr);
                assert(all[front.len() + c] == s);
            }
        },
    }
}

/// Traversal never loses a hit: every primitive whose box a linear scan over
/// all boxes finds the ray to meet within `[t0, t1]` is among the
/// candidates that tree traversal reports.
pub proof fn lemma_traverse_covers_scan(bvh: &BVH, shapes: Seq<AABB>, ray: Ray, t0: Time, t1: Time)
    requires
        bvh.wf(shapes),
    ensures
        forall|s: int|
            0 <= s < shapes.len() && hits(#[trigger] shapes[s], ray, t0, t1) ==> bvh.traverse_spec(
                shapes,
                ray,
                t0,
                t1,
            ).contains(s as usize),
{
    assert forall|s: int| 0 <= s < shapes.len() && hits(#[trigger] shapes[s], ray, t0, t1) implies bvh.traverse_spec(
        shapes,
        ray,
        t0,
        t1,
    ).contains(s as usize) by {
        let all = all_shapes(shapes.len());
        assert(all[s] == s as usize);
        assert(all.to_multiset().count(s as usize) > 0);
        lemma_candidates_cover(bvh.nodes@, 0, shapes, ray, t0, t1, s as usize);
    }
}

proof fn lemma_candidates_sound(
    nodes: Seq<BVHNode>,
    i: int,
    shapes: Seq<AABB>,
    ray: Ray,
    t0: Time,
    t1: Time,
    k: int,
)
    requires
        0 <= k < candidates(nodes, i, shapes, ray, t0, t1).len(),
    ensures
        ({
            let s = candidates(nodes, i, shapes, ray, t0, t1)[k];
            s < shapes.len() && hits(shapes[s as int], ray, t0, t1)
        }),
    decreases nodes.len() - i,
{
    if 0 <= i < nodes.len() {
        match nodes[i] {
            BVHNode::Leaf { .. } => {},
            BVHNode::Node { child_l_aabb, child_l_index, child_r_aabb, child_r_index } => {
                if i < child_l_index < nodes.len() && i < child_r_index < nodes.len() {
                    let l = child_l_index as int;
                    let r = child_r_index as int;
                    let front = if hits(child_l_aabb, ray, t0, t1) {
                        candidates(nodes, l, shapes, ray, t0, t1)
                    } else {
                        seq![]
                    };
                    let back = if hits(child_r_aabb, ray, t0, t1) {
                        candidates(nodes, r, shapes, ray, t0, t1)
                    } else {
                        seq![]
                    };
                    assert(candidates(nodes, i, shapes, ray, t0, t1) == front + back);
                    if k < front.len() {
                        lemma_candidates_sound(nodes, l, shapes, ray, t0, t1, k);
                    } else {
                        lemma_candidates_sound(nodes, r, shapes, ray, t0, t1, k - front.len());
                    }
                }
            },
        }
    }
}

/// Traversal reports nothing spurious: every candidate is a primitive whose
/// box the ray meets within `[t0, t1]`. With the law above, the candidates
/// are exactly the primitives that a linear scan finds.
pub proof fn lemma_traverse_reports_only_hits(
    bvh: &BVH,
    shapes: Seq<AABB>,
    ray: Ray,
    t0: Time,
    t1: Time,
)
    ensures
        forall|k: int|
            0 <= k < bvh.traverse_spec(shapes, ray, t0, t1).len() ==> {
                let s = #[trigger] bvh.traverse_spec(shapes, ray, t0, t1)[k];
                s < shapes.len() && hits(shapes[s as int], ray, t0, t1)
            },
{
    assert forall|k: int| 0 <= k < bvh.traverse_spec(shapes, ray, t0, t1).len() implies {
        let s = #[trigger] bvh.traverse_spec(shapes, ray, t0, t1)[k];
        s < shapes.len() && hits(shapes[s as int], ray, t0, t1)
    } by {
        lemma_candidates_sound(bvh.nodes@, 0, shapes, ray, t0, t1, k);
    }
}

/// A primitive under node `i` has its own leaf at `i` or above.
proof fn lemma_leaf_exists(nodes: Seq<BVHNode>, i: int, s: usize)
    requires
        0 <= i < nodes.len(),
        leaves(nodes, i).contains(s),
    ensures
        exists|j: int| i <= j < nodes.len() && #[trigger] nodes[j] == (BVHNode::Leaf { shape_index: s }),
    decreases nodes.len() - i,
{
    match nodes[i] {
        BVHNode::Leaf { shape_index } => {
            assert(leaves(nodes, i) == seq![shape_index]);
            assert(leaves(nodes, i)[0] == s);
            assert(nodes[i] == (BVHNode::Leaf { shape_index: s }));
        },
        BVHNode::Node { child_l_index, child_r_index, .. } => {
            let ll = leaves(nodes, child_l_index as int);
            let lr = leaves(nodes, child_r_index as int);
            assert(leaves(nodes, i) == ll + lr);
            let q = choose|q: int| 0 <= q < (ll + lr).len() && (ll + lr)[q] == s;
            if q < ll.len() {
                assert(ll[q] == s);
                lemma_leaf_exists(nodes, child_l_index as int, s);
            } else {
                assert(lr[q - ll.len()] == s);
                lemma_leaf_exists(nodes, child_r_index as int, s);
            }
        },
    }
}

/// A leaf's primitive, if listed in `r`, has been given a leaf there.
spec fn leaf_recorded(node: BVHNode, r: Seq<usize>, n: usize) -> bool {
    match node {
        BVHNode::Leaf { shape_index } => shape_index < r.len() ==> r[shape_index as int] < n,
        BVHNode::Node { .. } => true,
    }
}

impl BVH {
    /// For each of the `shape_count` primitives, the index of its leaf:
    /// the back-reference from a primitive to the node that holds it.
    pub fn shape_leaves(&self, shape_count: usize) -> (r: Vec<usize>)
        requires
            exists|shapes: Seq<AABB>| shapes.len() == shape_count && self.wf(shapes),
        ensures
            r.len() == shape_count,
            forall|s: int|
                0 <= s < shape_count ==> r[s] < self.nodes.len() && self.nodes[#[trigger] r[s] as int]
                    == (BVHNode::Leaf { shape_index: s as usize }),
    {
        let ghost shapes = choose|shapes: Seq<AABB>| shapes.len() == shape_count && self.wf(shapes);
        let n = self.nodes.len();
        let mut r: Vec<usize> = Vec::new();
        let mut s: usize = 0;
        while s < shape_count
            invariant
                0 <= s <= shape_count,
                r.len() == s,
                forall|k: int| 0 <= k < s ==> r[k] == n,
            decreases shape_count - s,
        {
            r.push(n);
            s += 1;
        }
        let mut j: usize = 0;
        while j < n
            invariant
                0 <= j <= n,
                n == self.nodes.len(),
                r.len() == shape_count,
                forall|k: int|
                    0 <= k < shape_count ==> (r[k] == n || (r[k] < n && self.nodes[r[k] as int]
                        == (BVHNode::Leaf { shape_index: k as usize }))),
                forall|q: int| 0 <= q < j ==> leaf_recorded(#[trigger] self.nodes[q], r@, n),
            decreases n - j,
        {
            match self.nodes[j] {
                BVHNode::Leaf { shape_index } => {
                    if shape_index < shape_count {
                        r.set(shape_index, j);
                    }
                },
                BVHNode::Node { .. } => {},
            }
            j += 1;
        }
        proof {
            assert forall|k: int| 0 <= k < shape_count implies r[k] < self.nodes.len()
                && self.nodes[#[trigger] r[k] as int] == (BVHNode::Leaf {
                shape_index: k as usize,
            }) by {
                let all = all_shapes(shapes.len());
                assert(all[k] == k as usize);
                assert(all.to_multiset().count(k as usize) > 0);
                assert(leaves(self.nodes@, 0).to_multiset().count(k as usize) > 0);
                lemma_leaf_exists(self.nodes@, 0, k as usize);
                let q = choose|q: int| 0 <= q < self.nodes.len() && #[trigger] self.nodes@[q] == (BVHNode::Leaf {
                    shape_index: k as usize,
                });
                assert(leaf_recorded(self.nodes[q], r@, n));
            }
        }
        r
    }
}

/// `r` is a nearest hit among `cands`: `None` when the ray meets none of
/// their boxes within `[t0, t1]`, else a candidate and a parameter at which
/// the ray is in its box, no later than any parameter at which the ray is
/// in any candidate's box.
pub open spec fn is_nearest(
    cands: Seq<usize>,
    shapes: Seq<AABB>,
    ray: Ray,
    t0: Time,
    t1: Time,
    r: Option<(usize, Time)>,
) -> bool {
    &&& r is None <==> forall|k: int|
        0 <= k < cands.len() ==> !(cands[k] < shapes.len() && hits(
            #[trigger] shapes[cands[k] as int],
            ray,
            t0,
            t1,
        ))
    &&& r matches Some((s, a)) ==> {
        &&& cands.contains(s)
        &&& s < shapes.len()
        &&& hit_at(shapes[s as int], ray, t0, t1, a)
        &&& forall|k: int, t: Time|
            0 <= k < cands.len() && cands[k] < shapes.len() && #[trigger] hit_at(
                shapes[cands[k] as int],
                ray,
                t0,
                t1,
                t,
            ) ==> time_le(a, t)
    }
}

/// Resolves candidates to the nearest hit: the candidate whose box the ray
/// enters first, the earliest in `cands` on a tie, with its entry parameter.
pub fn nearest_hit(cands: &Vec<usize>, shapes: &Vec<AABB>, ray: Ray, t0: Time, t1: Time) -> (r:
    Option<(usize, Time)>)
    requires
        t0.wf(),
        t1.wf(),
    ensures
        is_nearest(cands@, shapes@, ray, t0, t1, r),
{
    let mut best: Option<(usize, Time)> = None;
    let mut i: usize = 0;
    while i < cands.len()
        invariant
            0 <= i <= cands.len(),
            t0.wf(),
            t1.wf(),
            is_nearest(cands@.subrange(0, i as int), shapes@, ray, t0, t1, best),
            best matches Some((_, a)) ==> a.wf(),
        decreases cands.len() - i,
    {
        let ghost prefix = cands@.subrange(0, i as int);
        let ghost next = cands@.subrange(0, i + 1);
        let c = cands[i];
        proof {
            assert(next == prefix.push(c));
            assert forall|k: int| 0 <= k < prefix.len() implies next[k] == prefix[k] by {}
        }
        if c < shapes.len() {
            let h = shapes[c].hit(ray, t0, t1);
            match h {
                Some((a, e)) => {
                    proof {
                        let w = choose|t: Time| #[trigger] hit_at(shapes@[c as int], ray, t0, t1, t);
                        lemma_time_le_trans(a, w, e);
                        assert(hit_at(shapes@[c as int], ray, t0, t1, a) <==> within(a, e, a));
                        assert(time_le(a, a)) by (nonlinear_arith)
                            requires
                                a.wf(),
                        ;
                    }
                    let better = match best {
                        None => true,
                        Some((_, b)) => !b.le(&a),
                    };
                    if better {
                        proof {
                            if let Some((_, b)) = best {
                                assert(time_le(a, b)) by (nonlinear_arith)
                                    requires
                                        !(b.n() * a.d() <= a.n() * b.d()),
                                ;
                                assert forall|k: int, t: Time|
                                    0 <= k < next.len() && next[k] < shapes.len() && #[trigger] hit_at(
                                        shapes@[next[k] as int],
                                        ray,
                                        t0,
                                        t1,
                                        t,
                                    ) implies time_le(a, t) by {
                                    if k < prefix.len() {
                                        lemma_time_le_trans(a, b, t);
                                    }
                                }
                            }
                            assert(next[i as int] == c);
                        }
                        best = Some((c, a));
                    } else {
                        proof {
                            let (s, b) = best.unwrap();
                            assert forall|k: int, t: Time|
                                0 <= k < next.len() && next[k] < shapes.len() && #[trigger] hit_at(
                                    shapes@[next[k] as int],
                                    ray,
                                    t0,
                                    t1,
                                    t,
                                ) implies time_le(b, t) by {
                                if k == prefix.len() {
                                    lemma_time_le_trans(b, a, t);
                                }
                            }
                            assert(prefix.contains(s));
                        }
                    }
                },
                None => {
                    proof {
                        if let Some((s, _)) = best {
                            assert(prefix.contains(s));
                        }
                    }
                },
            }
        } else {
            proof {
                if let Some((s, _)) = best {
                    assert(prefix.contains(s));
                }
            }
        }
        i += 1;
    }
    proof {
        assert(cands@.subrange(0, cands.len() as int) =~= cands@);
    }
    best
}

} // verus!
