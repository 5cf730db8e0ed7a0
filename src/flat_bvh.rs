//! The flattened hierarchy: one array traversed without a stack.
//!
//! Each inner node's child becomes a navigator entry: its box, the index of
//! the child's first entry (`entry_index`) and the index just past the
//! child's whole subtree (`exit_index`), taken when the box test fails. A
//! leaf entry has `entry_index == u32::MAX`, names its primitive and exits
//! to the next entry.

use vstd::prelude::*;
use crate::aabb::{AABB, Ray, Time, empty_spec, hits};
use crate::bvh::{BVH, all_shapes, BVHNode, MAX_SHAPES, candidates, leaves, links_ok, lemma_node_ok_links, node_ok, tree_ok};

verus! {

broadcast use vstd::seq_lib::group_to_multiset_ensures;

/// One entry of a flattened hierarchy.
#[derive(Clone, Copy, Debug)]
pub struct FlatNode {
    /// The box to test before entering; unused in a leaf entry.
    pub aabb: AABB,
    /// Where to go when the box test passes; `u32::MAX` marks a leaf.
    pub entry_index: u32,
    /// Where to go when the box test fails, or after a leaf.
    pub exit_index: u32,
    /// The primitive of a leaf entry; `u32::MAX` in a navigator entry.
    pub shape_index: u32,
}

/// A flattened hierarchy.
pub type FlatBVH = Vec<FlatNode>;

/// The number of entries that flattening node `i` produces.
pub open spec fn flat_size(nodes: Seq<BVHNode>, i: int) -> nat
    decreases nodes.len() - i,
{
    if 0 <= i < nodes.len() {
        match nodes[i] {
            BVHNode::Leaf { .. } => 1,
            BVHNode::Node { child_l_index, child_r_index, .. } => {
                if i < child_l_index < nodes.len() && i < child_r_index < nodes.len() {
                    2 + flat_size(nodes, child_l_index as int) + flat_size(
                        nodes,
                        child_r_index as int,
                    )
                } else {
                    0
                }
            },
        }
    } else {
        0
    }
}

/// The navigator entry of a child with box `b` whose subtree of `size`
/// entries starts right after position `k`.
pub open spec fn navigator(b: AABB, k: int, size: int) -> FlatNode {
    FlatNode {
        aabb: b,
        entry_index: (k + 1) as u32,
        exit_index: (k + 1 + size) as u32,
        shape_index: u32::MAX,
    }
}

/// The entries that flattening node `i` at position `k` produces.
pub open spec fn flat_seq(nodes: Seq<BVHNode>, i: int, k: int) -> Seq<FlatNode>
    decreases nodes.len() - i,
{
    if 0 <= i < nodes.len() {
        match nodes[i] {
            BVHNode::Leaf { shape_index } => seq![
                FlatNode {
                    aabb: empty_spec(),
                    entry_index: u32::MAX,
                    exit_index: (k + 1) as u32,
                    shape_index: shape_index as u32,
                },
            ],
            BVHNode::Node { child_l_aabb, child_l_index, child_r_aabb, child_r_index } => {
                if i < child_l_index < nodes.len() && i < child_r_index < nodes.len() {
                    let l = child_l_index as int;
                    let r = child_r_index as int;
                    let el = k + 1 + flat_size(nodes, l);
                    seq![navigator(child_l_aabb, k, flat_size(nodes, l) as int)] + flat_seq(
                        nodes,
                        l,
                        k + 1,
                    ) + seq![navigator(child_r_aabb, el, flat_size(nodes, r) as int)] + flat_seq(
                        nodes,
                        r,
                        el + 1,
                    )
                } else {
                    seq![]
                }
            },
        }
    } else {
        seq![]
    }
}

/// The flattened form of a node array: nothing for an empty one.
pub open spec fn flat_of(nodes: Seq<BVHNode>) -> Seq<FlatNode> {
    if nodes.len() == 0 {
        seq![]
    } else {
        flat_seq(nodes, 0, 0)
    }
}

/// `out` is what `constructor` makes of entry `n`.
pub open spec fn built_by<F: Fn(&AABB, u32, u32, u32) -> T, T>(
    constructor: F,
    n: FlatNode,
    out: T,
) -> bool {
    constructor.ensures((&n.aabb, n.entry_index, n.exit_index, n.shape_index), out)
}

/// What a walk over `f` from entry `idx` reports: a leaf entry reports its
/// primitive when the ray meets the primitive's box and moves on to its
/// exit; a navigator entry moves to its entry when the ray meets its box,
/// else to its exit. A jump that does not move forward ends the walk.
pub open spec fn flat_walk(
    f: Seq<FlatNode>,
    idx: int,
    shapes: Seq<AABB>,
    ray: Ray,
    t0: Time,
    t1: Time,
) -> Seq<usize>
    decreases f.len() - idx,
{
    if 0 <= idx < f.len() {
        let n = f[idx];
        if n.entry_index == u32::MAX {
            let s = n.shape_index as int;
            let here = if s < shapes.len() && hits(shapes[s], ray, t0, t1) {
                seq![s as usize]
            } else {
                seq![]
            };
            if idx < n.exit_index && n.exit_index <= f.len() {
                here + flat_walk(f, n.exit_index as int, shapes, ray, t0, t1)
            } else {
                here
            }
        } else if hits(n.aabb, ray, t0, t1) {
            if idx < n.entry_index && n.entry_index <= f.len() {
                flat_walk(f, n.entry_index as int, shapes, ray, t0, t1)
            } else {
                seq![]
            }
        } else {
            if idx < n.exit_index && n.exit_index <= f.len() {
                flat_walk(f, n.exit_index as int, shapes, ray, t0, t1)
            } else {
                seq![]
            }
        }
    } else {
        seq![]
    }
}

proof fn lemma_flat_seq_len(nodes: Seq<BVHNode>, i: int, k: int)
    ensures
        flat_seq(nodes, i, k).len() == flat_size(nodes, i),
    decreases nodes.len() - i,
{
    if 0 <= i < nodes.len() {
        match nodes[i] {
            BVHNode::Leaf { .. } => {},
            BVHNode::Node { child_l_index, child_r_index, .. } => {
                if i < child_l_index < nodes.len() && i < child_r_index < nodes.len() {
                    let l = child_l_index as int;
                    let r = child_r_index as int;
                    lemma_flat_seq_len(nodes, l, k + 1);
                    lemma_flat_seq_len(nodes, r, k + 2 + flat_size(nodes, l));
                }
            },
        }
    }
}

/// In a well-formed tree a subtree with `n` leaves flattens to `3 n - 2`
/// entries: one per leaf and one navigator per node below its root.
proof fn lemma_flat_size(nodes: Seq<BVHNode>, i: int, shapes: Seq<AABB>)
    requires
        tree_ok(nodes, 0, nodes.len() as int, shapes),
        0 <= i < nodes.len(),
    ensures
        flat_size(nodes, i) + 2 == 3 * leaves(nodes, i).len(),
    decreases nodes.len() - i,
{
    assert(node_ok(nodes, i, nodes.len() as int, shapes));
    match nodes[i] {
        BVHNode::Leaf { .. } => {},
        BVHNode::Node { child_l_index, child_r_index, .. } => {
            lemma_flat_size(nodes, child_l_index as int, shapes);
            lemma_flat_size(nodes, child_r_index as int, shapes);
        },
    }
}

impl BVHNode {
    /// Flattens the subtree of this node, which is `nodes[self_index]`,
    /// appending its entries to `vec` from position `next_free` on; each
    /// entry is made by `constructor` from its box, entry index, exit index
    /// and shape index. Returns the position after the last entry.
    pub fn flatten_custom<F, T>(
        &self,
        nodes: &Vec<BVHNode>,
        vec: &mut Vec<T>,
        next_free: usize,
        constructor: &F,
        self_index: Ghost<int>,
    ) -> (r: usize) where F: Fn(&AABB, u32, u32, u32) -> T
        requires
            0 <= self_index@ < nodes.len(),
            nodes[self_index@] == *self,
            forall|j: int| 0 <= j < nodes.len() ==> #[trigger] links_ok(nodes@, j, nodes.len() as int),
            old(vec).len() == next_free,
            next_free + flat_size(nodes@, self_index@) < u32::MAX,
            forall|b: &AABB, e: u32, x: u32, s: u32| constructor.requires((b, e, x, s)),
        ensures
            r == next_free + flat_size(nodes@, self_index@),
            final(vec).len() == r,
            forall|j: int| 0 <= j < next_free ==> final(vec)[j] == old(vec)[j],
            forall|j: int|
                next_free <= j < r ==> built_by(
                    *constructor,
                    flat_seq(nodes@, self_index@, next_free as int)[j - next_free],
                    #[trigger] final(vec)[j],
                ),
        decreases nodes.len() - self_index@, 0int,
    {
        let ghost i = self_index@;
        proof {
            lemma_flat_seq_len(nodes@, i, next_free as int);
        }
        match *self {
            BVHNode::Node { child_l_aabb, child_l_index, child_r_aabb, child_r_index } => {
                assert(links_ok(nodes@, i, nodes.len() as int));
                let index_after_child_l = nodes[child_l_index].create_flat_branch(
                    nodes,
                    &child_l_aabb,
                    vec,
                    next_free,
                    constructor,
                    Ghost(child_l_index as int),
                );
                let ghost v1 = vec@;
                let r = nodes[child_r_index].create_flat_branch(
                    nodes,
                    &child_r_aabb,
                    vec,
                    index_after_child_l,
                    constructor,
                    Ghost(child_r_index as int),
                );
                proof {
                    let l = child_l_index as int;
                    let rr = child_r_index as int;
                    let k = next_free as int;
                    let el = k + 1 + flat_size(nodes@, l);
                    let fs = flat_seq(nodes@, i, k);
                    lemma_flat_seq_len(nodes@, l, k + 1);
                    lemma_flat_seq_len(nodes@, rr, el + 1);
                    let bl = seq![navigator(child_l_aabb, k, flat_size(nodes@, l) as int)]
                        + flat_seq(nodes@, l, k + 1);
                    let br = seq![navigator(child_r_aabb, el, flat_size(nodes@, rr) as int)]
                        + flat_seq(nodes@, rr, el + 1);
                    assert(fs == bl + br);
                    assert forall|j: int| k <= j < r implies built_by(
                        *constructor,
                        fs[j - k],
                        #[trigger] vec@[j],
                    ) by {
                        if j < el + 0 {
                            assert(fs[j - k] == bl[j - k]);
                            assert(vec@[j] == v1[j]);
                        } else {
                            assert(fs[j - k] == br[j - el]);
                        }
                    }
                }
                r
            },
            BVHNode::Leaf { shape_index } => {
                let mut next_shape = next_free;
                next_shape += 1;
                let leaf_node = constructor(
                    &AABB::empty(),
                    u32::MAX,
                    next_shape as u32,
                    shape_index as u32,
                );
                vec.push(leaf_node);
                next_shape
            },
        }
    }

    /// Flattens the child `self`, which is `nodes[self_index]` with box
    /// `this_aabb`: a navigator entry at `next_free`, then the child's
    /// entries. Returns the position after the child's last entry.
    pub fn create_flat_branch<F, T>(
        &self,
        nodes: &Vec<BVHNode>,
        this_aabb: &AABB,
        vec: &mut Vec<T>,
        next_free: usize,
        constructor: &F,
        self_index: Ghost<int>,
    ) -> (r: usize) where F: Fn(&AABB, u32, u32, u32) -> T
        requires
            0 <= self_index@ < nodes.len(),
            nodes[self_index@] == *self,
            forall|j: int| 0 <= j < nodes.len() ==> #[trigger] links_ok(nodes@, j, nodes.len() as int),
            old(vec).len() == next_free,
            next_free + 1 + flat_size(nodes@, self_index@) < u32::MAX,
            forall|b: &AABB, e: u32, x: u32, s: u32| constructor.requires((b, e, x, s)),
        ensures
            r == next_free + 1 + flat_size(nodes@, self_index@),
            final(vec).len() == r,
            forall|j: int| 0 <= j < next_free ==> final(vec)[j] == old(vec)[j],
            forall|j: int|
                next_free <= j < r ==> built_by(
                    *constructor,
                    (seq![
                        navigator(
                            *this_aabb,
                            next_free as int,
                            flat_size(nodes@, self_index@) as int,
                        ),
                    ] + flat_seq(nodes@, self_index@, next_free + 1))[j - next_free],
                    #[trigger] final(vec)[j],
                ),
        decreases nodes.len() - self_index@, 1int,
    {
        let dummy = constructor(&AABB::empty(), 0, 0, 0);
        vec.push(dummy);
        let index_after_subtree = self.flatten_custom(
            nodes,
            vec,
            next_free + 1,
            constructor,
            self_index,
        );
        let navigator_node = constructor(
            this_aabb,
            (next_free + 1) as u32,
            index_after_subtree as u32,
            u32::MAX,
        );
        vec.set(next_free, navigator_node);
        proof {
            let i = self_index@;
            let k = next_free as int;
            let head = seq![navigator(*this_aabb, k, flat_size(nodes@, i) as int)];
            let body = flat_seq(nodes@, i, k + 1);
            lemma_flat_seq_len(nodes@, i, k + 1);
            assert forall|j: int| k <= j < index_after_subtree implies built_by(
                *constructor,
                (head + body)[j - k],
                #[trigger] vec@[j],
            ) by {
                if j > k {
                    assert((head + body)[j - k] == body[j - (k + 1)]);
                }
            }
        }
        index_after_subtree
    }
}

fn make_flat_node(aabb: &AABB, entry: u32, exit: u32, shape: u32) -> (n: FlatNode)
    ensures
        n.aabb == *aabb,
        n.entry_index == entry,
        n.exit_index == exit,
        n.shape_index == shape,
{
    FlatNode { aabb: *aabb, entry_index: entry, exit_index: exit, shape_index: shape }
}

impl BVH {
    /// Flattens the hierarchy with entries made by `constructor` from each
    /// entry's box, entry index, exit index and shape index.
    pub fn flatten_custom<F, T>(&self, constructor: &F) -> (r: Vec<T>) where
        F: Fn(&AABB, u32, u32, u32) -> T,

        requires
            exists|shapes: Seq<AABB>| self.wf(shapes),
            forall|b: &AABB, e: u32, x: u32, s: u32| constructor.requires((b, e, x, s)),
        ensures
            r.len() == flat_of(self.nodes@).len(),
            forall|j: int|
                0 <= j < r.len() ==> built_by(
                    *constructor,
                    flat_of(self.nodes@)[j],
                    #[trigger] r[j],
                ),
    {
        let mut vec: Vec<T> = Vec::new();
        if self.nodes.len() == 0 {
            return vec;
        }
        proof {
            let shapes = choose|shapes: Seq<AABB>| self.wf(shapes);
            lemma_flat_size(self.nodes@, 0, shapes);
            lemma_node_ok_links(self.nodes@, 0, self.nodes.len() as int, shapes);
            assert(leaves(self.nodes@, 0).to_multiset().len() == leaves(self.nodes@, 0).len());
            assert(all_shapes(shapes.len()).to_multiset().len() == shapes.len());
            lemma_flat_seq_len(self.nodes@, 0, 0);
        }
        self.nodes[0].flatten_custom(&self.nodes, &mut vec, 0, constructor, Ghost(0));
        vec
    }

    /// Flattens the hierarchy into `FlatNode`s.
    pub fn flatten(&self) -> (r: FlatBVH)
        requires
            exists|shapes: Seq<AABB>| self.wf(shapes),
        ensures
            r@ == flat_of(self.nodes@),
    {
        let r = self.flatten_custom(&make_flat_node);
        assert(r@ =~= flat_of(self.nodes@));
        r
    }
}

/// Builds a hierarchy over the primitives whose boxes are `shapes` and
/// flattens it.
pub fn build_flat_bvh(shapes: &Vec<AABB>) -> (r: FlatBVH)
    requires
        shapes.len() <= MAX_SHAPES,
    ensures
        exists|bvh: BVH| bvh.wf(shapes@) && r@ == flat_of(bvh.nodes@),
{
    let bvh = BVH::build(shapes);
    let r = bvh.flatten();
    assert(bvh.wf(shapes@) && r@ == flat_of(bvh.nodes@));
    r
}

/// Walks a flattened hierarchy without a stack and returns, in walk order,
/// the primitives whose boxes the ray meets within `[t0, t1]`.
pub fn traverse_flat(flat: &FlatBVH, ray: Ray, t0: Time, t1: Time, shapes: &Vec<AABB>) -> (r: Vec<
    usize,
>)
    requires
        t0.wf(),
        t1.wf(),
    ensures
        r@ == flat_walk(flat@, 0, shapes@, ray, t0, t1),
{
    let mut hit_shapes: Vec<usize> = Vec::new();
    let mut index: usize = 0;
    let max_length = flat.len();
    while index < max_length
        invariant
            0 <= index <= max_length,
            max_length == flat.len(),
            t0.wf(),
            t1.wf(),
            hit_shapes@ + flat_walk(flat@, index as int, shapes@, ray, t0, t1) == flat_walk(
                flat@,
                0,
                shapes@,
                ray,
                t0,
                t1,
            ),
        decreases max_length - index,
    {
        let ghost before = hit_shapes@;
        let ghost at = index as int;
        let node = flat[index];
        let exit = node.exit_index as usize;
        let entry = node.entry_index as usize;
        if node.entry_index == u32::MAX {
            let s = node.shape_index as usize;
            if s < shapes.len() && shapes[s].hit(ray, t0, t1).is_some() {
                hit_shapes.push(s);
            }
            if index < exit && exit <= max_length {
                index = exit;
            } else {
                index = max_length;
            }
        } else if node.aabb.hit(ray, t0, t1).is_some() {
            if index < entry && entry <= max_length {
                index = entry;
            } else {
                index = max_length;
            }
        } else {
            if index < exit && exit <= max_length {
                index = exit;
            } else {
                index = max_length;
            }
        }
        assert(hit_shapes@ + flat_walk(flat@, index as int, shapes@, ray, t0, t1) =~= before
            + flat_walk(flat@, at, shapes@, ray, t0, t1));
    }
    assert(hit_shapes@ + flat_walk(flat@, index as int, shapes@, ray, t0, t1) =~= hit_shapes@);
    hit_shapes
}

/// Walking the entries of node `i`, laid out at position `k` of `f`,
/// reports the candidates of `i` and then goes on past the subtree.
proof fn lemma_walk_subtree(
    nodes: Seq<BVHNode>,
    i: int,
    f: Seq<FlatNode>,
    k: int,
    shapes: Seq<AABB>,
    ray: Ray,
    t0: Time,
    t1: Time,
)
    requires
        tree_ok(nodes, 0, nodes.len() as int, shapes),
        shapes.len() <= MAX_SHAPES,
        0 <= i < nodes.len(),
        0 <= k,
        k + flat_size(nodes, i) <= f.len(),
        k + flat_size(nodes, i) < u32::MAX,
        f.subrange(k, k + flat_size(nodes, i)) == flat_seq(nodes, i, k),
    ensures
        flat_walk(f, k, shapes, ray, t0, t1) == candidates(nodes, i, shapes, ray, t0, t1)
            + flat_walk(f, k + flat_size(nodes, i), shapes, ray, t0, t1),
    decreases nodes.len() - i,
{
    assert(node_ok(nodes, i, nodes.len() as int, shapes));
    lemma_flat_seq_len(nodes, i, k);
    let fs = flat_seq(nodes, i, k);
    let end = k + flat_size(nodes, i);
    assert forall|j: int| 0 <= j < fs.len() implies f[k + j] == #[trigger] fs[j] by {
        assert(f.subrange(k, end)[j] == f[k + j]);
    }
    match nodes[i] {
        BVHNode::Leaf { shape_index } => {
            assert(f[k] == fs[0]);
            let here = candidates(nodes, i, shapes, ray, t0, t1);
            assert(flat_walk(f, k, shapes, ray, t0, t1) == here + flat_walk(
                f,
                k + 1,
                shapes,
                ray,
                t0,
                t1,
            ));
        },
        BVHNode::Node { child_l_aabb, child_l_index, child_r_aabb, child_r_index } => {
            let l = child_l_index as int;
            let r = child_r_index as int;
            let fl = flat_size(nodes, l) as int;
            let fr = flat_size(nodes, r) as int;
            let el = k + 1 + fl;
            lemma_flat_seq_len(nodes, l, k + 1);
            lemma_flat_seq_len(nodes, r, el + 1);
            let sl = flat_seq(nodes, l, k + 1);
            let sr = flat_seq(nodes, r, el + 1);
            let nl = navigator(child_l_aabb, k, fl);
            let nr = navigator(child_r_aabb, el, fr);
            assert(fs == seq![nl] + sl + seq![nr] + sr);
            assert(f[k] == nl) by {
                assert(fs[0] == nl);
            }
            assert(f[el] == nr) by {
                assert(fs[el - k] == nr);
            }
            assert(f.subrange(k + 1, el) =~= sl) by {
                assert forall|j: int| 0 <= j < sl.len() implies f.subrange(k + 1, el)[j]
                    == sl[j] by {
                    assert(fs[1 + j] == sl[j]);
                }
            }
            assert(f.subrange(el + 1, end) =~= sr) by {
                assert forall|j: int| 0 <= j < sr.len() implies f.subrange(el + 1, end)[j]
                    == sr[j] by {
                    assert(fs[el - k + 1 + j] == sr[j]);
                }
            }
            lemma_walk_subtree(nodes, l, f, k + 1, shapes, ray, t0, t1);
            lemma_walk_subtree(nodes, r, f, el + 1, shapes, ray, t0, t1);
            let cl = candidates(nodes, l, shapes, ray, t0, t1);
            let cr = candidates(nodes, r, shapes, ray, t0, t1);
            let wl = if hits(child_l_aabb, ray, t0, t1) {
                cl
            } else {
                seq![]
            };
            let wr = if hits(child_r_aabb, ray, t0, t1) {
                cr
            } else {
                seq![]
            };
            let rest = flat_walk(f, end, shapes, ray, t0, t1);
            assert(flat_walk(f, el, shapes, ray, t0, t1) =~= wr + rest);
            assert(flat_walk(f, k, shapes, ray, t0, t1) =~= wl + (wr + rest));
            assert(candidates(nodes, i, shapes, ray, t0, t1) == wl + wr);
            assert(wl + (wr + rest) =~= (wl + wr) + rest);
        },
    }
}

/// Flattening keeps traversal results: the stackless walk over the
/// flattened hierarchy reports exactly the candidates that recursive
/// traversal of the tree reports, in the same order, so whatever nearest
/// hit a caller resolves from them is the same.
pub proof fn lemma_flatten_round_trip(bvh: &BVH, shapes: Seq<AABB>, ray: Ray, t0: Time, t1: Time)
    requires
        bvh.wf(shapes),
    ensures
        flat_walk(flat_of(bvh.nodes@), 0, shapes, ray, t0, t1) == bvh.traverse_spec(
            shapes,
            ray,
            t0,
            t1,
        ),
{
    let nodes = bvh.nodes@;
    if nodes.len() > 0 {
        lemma_flat_size(nodes, 0, shapes);
        assert(leaves(nodes, 0).to_multiset().len() == leaves(nodes, 0).len());
        assert(all_shapes(shapes.len()).to_multiset().len() == shapes.len());
        lemma_flat_seq_len(nodes, 0, 0);
        let f = flat_seq(nodes, 0, 0);
        assert(f.subrange(0, f.len() as int) =~= f);
        lemma_walk_subtree(nodes, 0, f, 0, shapes, ray, t0, t1);
        assert(flat_walk(f, f.len() as int, shapes, ray, t0, t1) == Seq::<usize>::empty());
        assert(candidates(nodes, 0, shapes, ray, t0, t1) + Seq::<usize>::empty() =~= candidates(
            nodes,
            0,
            shapes,
            ray,
            t0,
            t1,
        ));
    }
}

} // verus!
