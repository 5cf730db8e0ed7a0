use light_transport::aabb::{Point3, Ray, Time, AABB};
use light_transport::bvh::{nearest_hit, BVHNode, BVH};
use light_transport::flat_bvh::{traverse_flat, FlatNode};
use light_transport::instance::{Aggregate, Instance, MaterialId, Transform3};
use light_transport::walk::SurfaceHit;

fn p(x: i32, y: i32, z: i32) -> Point3 {
    Point3::new(x, y, z)
}

fn t(num: i64, den: u32) -> Time {
    Time::new(num, den)
}

fn value(t: Time) -> f64 {
    t.num as f64 / t.den as f64
}

fn unit_box() -> AABB {
    AABB::new(p(0, 0, 0), p(10, 10, 10))
}

#[test]
fn ray_inside_box_keeps_whole_interval() {
    let r = Ray::new(p(5, 5, 5), p(1, 1, 1));
    let (a, b) = unit_box().hit(r, t(0, 1), t(2, 1)).unwrap();
    assert_eq!(value(a), 0.0);
    assert_eq!(value(b), 2.0);
}

#[test]
fn ray_through_box_gets_entry_and_exit() {
    let r = Ray::new(p(-5, 5, 5), p(2, 0, 0));
    let (a, b) = unit_box().hit(r, t(0, 1), t(100, 1)).unwrap();
    assert_eq!(value(a), 2.5);
    assert_eq!(value(b), 7.5);
}

#[test]
fn interval_is_intersected_with_query() {
    let r = Ray::new(p(-5, 5, 5), p(1, 0, 0));
    let (a, b) = unit_box().hit(r, t(7, 1), t(8, 1)).unwrap();
    assert_eq!(value(a), 7.0);
    assert_eq!(value(b), 8.0);
    assert!(unit_box().hit(r, t(16, 1), t(20, 1)).is_none());
    assert!(unit_box().hit(r, t(0, 1), t(4, 1)).is_none());
}

#[test]
fn ray_missing_one_axis_misses() {
    let r = Ray::new(p(-5, 20, 5), p(1, 0, 0));
    assert!(unit_box().hit(r, t(0, 1), t(1000, 1)).is_none());
    let r = Ray::new(p(-5, 5, 5), p(1, 3, 0));
    assert!(unit_box().hit(r, t(0, 1), t(1000, 1)).is_none());
}

#[test]
fn axis_aligned_rays_are_not_missed() {
    // Direction with two zero components, origin inside those slabs.
    let r = Ray::new(p(5, 5, -20), p(0, 0, 1));
    let (a, b) = unit_box().hit(r, t(0, 1), t(1000, 1)).unwrap();
    assert_eq!(value(a), 20.0);
    assert_eq!(value(b), 30.0);
    // On the boundary plane.
    let r = Ray::new(p(10, 0, -20), p(0, 0, 1));
    assert!(unit_box().hit(r, t(0, 1), t(1000, 1)).is_some());
    // Just outside it.
    let r = Ray::new(p(11, 0, -20), p(0, 0, 1));
    assert!(unit_box().hit(r, t(0, 1), t(1000, 1)).is_none());
}

#[test]
fn negative_direction_and_fractional_times() {
    let r = Ray::new(p(20, 5, 5), p(-3, 0, 0));
    let (a, b) = unit_box().hit(r, t(0, 1), t(100, 1)).unwrap();
    assert_eq!(a.num as f64 / a.den as f64, 10.0 / 3.0);
    assert_eq!(b.num as f64 / b.den as f64, 20.0 / 3.0);
}

#[test]
fn empty_box_is_never_hit_and_unions_to_other() {
    let e = AABB::empty();
    let r = Ray::new(p(0, 0, 0), p(1, 1, 1));
    assert!(e.hit(r, t(-1000, 1), t(1000, 1)).is_none());
    assert_eq!(e.union(&unit_box()), unit_box());
    let u = unit_box().union(&AABB::new(p(-1, 3, 12), p(2, 4, 13)));
    assert_eq!(u, AABB::new(p(-1, 0, 0), p(10, 10, 13)));
}

#[test]
fn time_comparison() {
    assert!(t(1, 3).le(&t(1, 2)));
    assert!(!t(1, 2).le(&t(1, 3)));
    assert!(t(2, 4).le(&t(1, 2)));
    assert!(t(-5, 1).le(&t(0, 7)));
}

/// A small deterministic generator for test scenes.
struct Lcg(u64);

impl Lcg {
    fn next(&mut self) -> u64 {
        self.0 = self.0.wrapping_mul(6364136223846793005).wrapping_add(1442695040888963407);
        self.0 >> 33
    }
    fn range(&mut self, lo: i32, hi: i32) -> i32 {
        lo + (self.next() % ((hi - lo + 1) as u64)) as i32
    }
}

fn random_boxes(g: &mut Lcg, n: usize) -> Vec<AABB> {
    (0..n)
        .map(|_| {
            let (x, y, z) = (g.range(-100, 100), g.range(-100, 100), g.range(-100, 100));
            let (w, h, d) = (g.range(0, 20), g.range(0, 20), g.range(0, 20));
            AABB::new(p(x, y, z), p(x + w, y + h, z + d))
        })
        .collect()
}

fn random_ray(g: &mut Lcg) -> Ray {
    let o = p(g.range(-150, 150), g.range(-150, 150), g.range(-150, 150));
    // A third of the rays run parallel to some axis.
    let mut d = p(g.range(-5, 5), g.range(-5, 5), g.range(-5, 5));
    match g.range(0, 5) {
        0 => d.x = 0,
        1 => d.y = 0,
        _ => {}
    }
    if d == p(0, 0, 0) {
        d.z = 1;
    }
    Ray::new(o, d)
}

fn scan(shapes: &[AABB], r: Ray, t0: Time, t1: Time) -> Vec<usize> {
    (0..shapes.len()).filter(|i| shapes[*i].hit(r, t0, t1).is_some()).collect()
}

fn nearest(shapes: &[AABB], cands: &[usize], r: Ray, t0: Time, t1: Time) -> Option<(usize, f64)> {
    let mut best: Option<(usize, f64)> = None;
    for &c in cands {
        let (a, _) = shapes[c].hit(r, t0, t1).unwrap();
        let v = value(a);
        if best.map_or(true, |(_, b)| v < b) {
            best = Some((c, v));
        }
    }
    best
}

#[test]
fn traversal_covers_linear_scan() {
    let mut g = Lcg(7);
    for n in [1usize, 2, 3, 5, 17, 64, 200] {
        let shapes = random_boxes(&mut g, n);
        let bvh = BVH::build(&shapes);
        assert_eq!(bvh.nodes.len(), 2 * n - 1);
        for _ in 0..200 {
            let r = random_ray(&mut g);
            let (t0, t1) = (t(0, 1), t(1000, 1));
            let mut found = bvh.traverse(r, t0, t1, &shapes);
            let expected = scan(&shapes, r, t0, t1);
            for s in &expected {
                assert!(found.contains(s));
            }
            found.sort();
            assert_eq!(found, expected);
        }
    }
}

#[test]
fn flatten_round_trip_matches_tree() {
    let mut g = Lcg(11);
    for n in [1usize, 2, 4, 9, 33, 150] {
        let shapes = random_boxes(&mut g, n);
        let bvh = BVH::build(&shapes);
        let flat = bvh.flatten();
        assert_eq!(flat.len(), 3 * n - 2);
        for _ in 0..200 {
            let r = random_ray(&mut g);
            let (t0, t1) = (t(0, 1), t(1000, 1));
            let a = bvh.traverse(r, t0, t1, &shapes);
            let b = traverse_flat(&flat, r, t0, t1, &shapes);
            assert_eq!(a, b);
            let na = nearest_hit(&a, &shapes, r, t0, t1).map(|(s, t)| (s, value(t)));
            let nb = nearest_hit(&b, &shapes, r, t0, t1).map(|(s, t)| (s, value(t)));
            assert_eq!(na, nb);
            assert_eq!(na, nearest(&shapes, &a, r, t0, t1));
        }
    }
}

#[test]
fn nearest_hit_picks_earliest_entry() {
    let shapes = vec![
        AABB::new(p(20, 0, 0), p(30, 10, 10)),
        AABB::new(p(5, 0, 0), p(8, 10, 10)),
        AABB::new(p(5, 20, 0), p(8, 30, 10)),
        AABB::new(p(5, 0, 0), p(9, 10, 10)),
    ];
    let r = Ray::new(p(0, 5, 5), p(1, 0, 0));
    let (t0, t1) = (t(0, 1), t(100, 1));
    let (s, at) = nearest_hit(&vec![0, 1, 2, 3], &shapes, r, t0, t1).unwrap();
    // Boxes 1 and 3 are both entered at 5: the earlier candidate wins.
    assert_eq!((s, value(at)), (1, 5.0));
    let (s, at) = nearest_hit(&vec![3, 0], &shapes, r, t0, t1).unwrap();
    assert_eq!((s, value(at)), (3, 5.0));
    assert!(nearest_hit(&vec![2], &shapes, r, t0, t1).is_none());
    assert!(nearest_hit(&vec![], &shapes, r, t0, t1).is_none());
    assert!(nearest_hit(&vec![9], &shapes, r, t0, t1).is_none());
    // Starting inside a box, the nearest hit is at the start of the interval.
    let (s, at) = nearest_hit(&vec![0, 1], &shapes, r, t(6, 1), t1).unwrap();
    assert_eq!((s, value(at)), (1, 6.0));
}

#[test]
fn flat_layout_of_two_leaves() {
    let shapes = vec![unit_box(), AABB::new(p(20, 0, 0), p(30, 10, 10))];
    let bvh = BVH::build(&shapes);
    let flat = bvh.flatten();
    let summary: Vec<(u32, u32, u32)> =
        flat.iter().map(|n| (n.entry_index, n.exit_index, n.shape_index)).collect();
    assert_eq!(
        summary,
        vec![
            (1, 2, u32::MAX),
            (u32::MAX, 2, 0),
            (3, 4, u32::MAX),
            (u32::MAX, 4, 1),
        ]
    );
    assert_eq!(flat[0].aabb, unit_box());
    assert_eq!(flat[2].aabb, shapes[1]);
}

#[test]
fn flatten_custom_passes_indices_to_constructor() {
    let shapes = vec![unit_box(), AABB::new(p(20, 0, 0), p(30, 10, 10))];
    let bvh = BVH::build(&shapes);
    let custom = bvh.flatten_custom(&|_aabb: &AABB, entry: u32, exit: u32, shape: u32| {
        (entry, exit, shape)
    });
    assert_eq!(custom[3], (u32::MAX, 4, 1));
    assert_eq!(custom.len(), 4);
}

#[test]
fn single_and_empty_hierarchies() {
    let empty: Vec<AABB> = Vec::new();
    let bvh = BVH::build(&empty);
    assert!(bvh.nodes.is_empty());
    assert!(bvh.flatten().is_empty());
    let r = Ray::new(p(0, 0, 0), p(1, 0, 0));
    assert!(bvh.traverse(r, t(0, 1), t(10, 1), &empty).is_empty());

    let one = vec![unit_box()];
    let bvh = BVH::build(&one);
    let flat = bvh.flatten();
    assert_eq!(flat.len(), 1);
    let r = Ray::new(p(-5, 5, 5), p(1, 0, 0));
    assert_eq!(traverse_flat(&flat, r, t(0, 1), t(100, 1), &one), vec![0]);
}

#[test]
fn malformed_flat_array_ends_walk() {
    let leaf = FlatNode { aabb: AABB::empty(), entry_index: u32::MAX, exit_index: 0, shape_index: 0 };
    let r = Ray::new(p(-5, 5, 5), p(1, 0, 0));
    let shapes = vec![unit_box()];
    assert_eq!(traverse_flat(&vec![leaf], r, t(0, 1), t(100, 1), &shapes), vec![0]);
}

#[test]
fn instance_ids_default_to_aggregate() {
    let agg = Aggregate::new(unit_box(), MaterialId::Material(3), 9);
    let i = Instance::new(agg, None, None, None);
    assert_eq!(i.get_instance_id(), 9);
    assert_eq!(i.get_material_id(), MaterialId::Material(3));
    let j = Instance::new(agg, None, Some(MaterialId::Light(1)), Some(2));
    assert_eq!(j.instance_id, 2);
    assert_eq!(j.material_id, MaterialId::Light(1));
    let k = Instance::from(agg);
    assert_eq!(k.instance_id, 9);
    assert!(k.transform.is_none());
}

#[test]
fn instance_bounds_follow_transform() {
    let agg = Aggregate::new(unit_box(), MaterialId::Material(0), 0);
    let moved = Instance::new(agg, Some(Transform3 { translation: p(1, -2, 3) }), None, None);
    assert_eq!(moved.bounding_box(), AABB::new(p(1, -2, 3), p(11, 8, 13)));
    let still = Instance::new(agg, None, None, None);
    assert_eq!(still.bounding_box(), unit_box());
}

#[test]
fn shapes_know_their_leaves() {
    let mut g = Lcg(3);
    let shapes = random_boxes(&mut g, 40);
    let bvh = BVH::build(&shapes);
    let leaves = bvh.shape_leaves(shapes.len());
    assert_eq!(leaves.len(), 40);
    for (s, leaf) in leaves.iter().enumerate() {
        match bvh.nodes[*leaf] {
            BVHNode::Leaf { shape_index } => assert_eq!(shape_index, s),
            _ => panic!("not a leaf"),
        }
    }
}

#[test]
fn identical_boxes_split_by_position() {
    let shapes = vec![unit_box(); 9];
    let bvh = BVH::build(&shapes);
    assert_eq!(bvh.nodes.len(), 17);
    let r = Ray::new(p(5, 5, -5), p(0, 0, 1));
    let mut found = bvh.traverse(r, t(0, 1), t(100, 1), &shapes);
    found.sort();
    assert_eq!(found, (0..9).collect::<Vec<usize>>());
    let flat = bvh.flatten();
    let mut walked = traverse_flat(&flat, r, t(0, 1), t(100, 1), &shapes);
    walked.sort();
    assert_eq!(walked, found);
}

#[test]
fn extreme_coordinates_do_not_overflow() {
    let big = AABB::new(p(i32::MIN, i32::MIN, i32::MIN), p(i32::MAX, i32::MAX, i32::MAX));
    let r = Ray::new(p(i32::MAX, 0, 0), p(i32::MIN, 1, -1));
    let (a, b) = big.hit(r, t(0, 1), t(i64::MAX, 1)).unwrap();
    assert_eq!(value(a), 0.0);
    assert!(value(b) >= 1.0);
    let far = Ray::new(p(i32::MIN, i32::MIN, i32::MIN), p(1, 1, 1));
    assert!(unit_box().hit(far, t(0, 1), t(i64::MAX, u32::MAX)).is_some());
    assert!(unit_box().hit(far, t(0, 1), t(1, u32::MAX)).is_none());
}

#[test]
fn instance_labels_hits() {
    let agg = Aggregate::new(unit_box(), MaterialId::Material(0), 0);
    let inst = Instance::new(agg, None, Some(MaterialId::Light(2)), Some(5));
    let h = SurfaceHit { point: p(1, 2, 3), normal: p(0, 0, 1), material_id: MaterialId::Material(0), instance_id: 0, is_light: true };
    let l = inst.label_hit(Some(h)).unwrap();
    assert_eq!((l.material_id, l.instance_id, l.point, l.is_light), (MaterialId::Light(2), 5, p(1, 2, 3), true));
    assert!(inst.label_hit(None).is_none());
}
