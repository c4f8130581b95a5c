use rand::rngs::StdRng;
use rand::SeedableRng;
use raytracer::{nearer, sort_by_axis, BVHNode, Child, Hit, HitableList, OrdVec3, RayProbe, AABB};

/// A ray along +x from `origin`, over keys `(t_min, t_max)`; objects are
/// boxes, hit at the distance to their near face when the ray's y and z lie
/// inside them.
struct XRay<'a> {
    origin: (i64, i64, i64),
    t_min: i64,
    t_max: i64,
    boxes: &'a [AABB],
}

impl<'a> XRay<'a> {
    fn meets(&self, b: &AABB) -> Option<i64> {
        let (x, y, z) = self.origin;
        if y < b.min.y || y > b.max.y || z < b.min.z || z > b.max.z || b.max.x < x {
            return None;
        }
        let t = if b.min.x > x { b.min.x - x } else { 0 };
        if t > self.t_min && t < self.t_max {
            Some(t)
        } else {
            None
        }
    }
}

impl<'a> RayProbe<usize> for XRay<'a> {
    fn box_hit_spec(&self, b: AABB) -> bool {
        self.box_hit(&b)
    }
    fn object_hit_spec(&self, object: usize) -> Option<Hit<usize>> {
        self.object_hit(object)
    }
    fn box_hit(&self, b: &AABB) -> bool {
        let (x, y, z) = self.origin;
        if y < b.min.y || y > b.max.y || z < b.min.z || z > b.max.z {
            return false;
        }
        b.min.x - x < self.t_max && b.max.x - x > self.t_min
    }
    fn object_hit(&self, object: usize) -> Option<Hit<usize>> {
        self.meets(&self.boxes[object]).map(|t| Hit { t, record: object })
    }
}

fn bx(a: (i64, i64, i64), b: (i64, i64, i64)) -> AABB {
    AABB::new(OrdVec3::new(a.0, a.1, a.2), OrdVec3::new(b.0, b.1, b.2))
}

fn leaves(c: &Child, out: &mut Vec<usize>) {
    match c {
        Child::Leaf(o) => out.push(*o),
        Child::Inner(n) => {
            leaves(&n.left, out);
            leaves(&n.right, out);
        }
    }
}

fn check_boxes(n: &BVHNode, boxes: &[AABB]) -> AABB {
    let child_box = |c: &Child| match c {
        Child::Leaf(o) => boxes[*o],
        Child::Inner(m) => check_boxes(m, boxes),
    };
    let l = child_box(&n.left);
    let r = child_box(&n.right);
    assert_eq!(n.bbox, AABB::surrounding_box(&l, &r));
    n.bbox
}

/// Unit cubes spread over a grid, pairwise disjoint.
fn cubes(count: usize, seed: u64) -> Vec<AABB> {
    let mut v = Vec::new();
    let mut s = seed;
    for i in 0..count {
        s = s.wrapping_mul(6364136223846793005).wrapping_add(1442695040888963407);
        let y = ((s >> 33) % 5) as i64;
        let z = ((s >> 40) % 5) as i64;
        let x = (i as i64) * 3 + ((s >> 20) % 2) as i64;
        v.push(bx((x, y * 2, z * 2), (x + 1, y * 2 + 1, z * 2 + 1)));
    }
    v
}

fn build(boxes: &[AABB], seed: u64) -> (BVHNode, Vec<usize>) {
    let keys: Vec<OrdVec3> = boxes.iter().map(|b| b.min).collect();
    let mut list: Vec<usize> = (0..boxes.len()).rev().collect();
    let mut rng = StdRng::seed_from_u64(seed);
    let node = BVHNode::bvh_node(&mut list, &keys, &boxes.to_vec(), &mut rng);
    (node, list)
}

#[test]
fn sort_orders_by_the_chosen_axis() {
    let keys = vec![
        OrdVec3::new(5, 0, 9),
        OrdVec3::new(1, 7, 3),
        OrdVec3::new(3, 2, 1),
        OrdVec3::new(1, 4, 8),
    ];
    let mut list = vec![0, 1, 2, 3];
    sort_by_axis(&mut list, &keys, 0);
    assert_eq!(list, vec![1, 3, 2, 0]);
    sort_by_axis(&mut list, &keys, 1);
    assert_eq!(list, vec![0, 2, 3, 1]);
    sort_by_axis(&mut list, &keys, 2);
    assert_eq!(list, vec![2, 1, 3, 0]);
}

#[test]
fn single_object_gives_a_node_with_that_object_twice() {
    let boxes = vec![bx((0, 0, 0), (1, 1, 1))];
    let (node, _) = build(&boxes, 3);
    let mut out = Vec::new();
    leaves(&Child::Inner(Box::new(node)), &mut out);
    assert_eq!(out, vec![0, 0]);
}

#[test]
fn two_objects_give_one_leaf_each() {
    let boxes = vec![bx((0, 0, 0), (1, 1, 1)), bx((4, 4, 4), (5, 5, 5))];
    let (node, _) = build(&boxes, 11);
    assert_eq!(node.bounding_box(), bx((0, 0, 0), (5, 5, 5)));
    match (&node.left, &node.right) {
        (Child::Leaf(a), Child::Leaf(b)) => assert_eq!((*a, *b), (0, 1)),
        _ => panic!("expected two leaves"),
    }
}

#[test]
fn build_covers_every_object_and_keeps_boxes_consistent() {
    let boxes = cubes(37, 5);
    let (node, list) = build(&boxes, 17);
    let mut sorted_list = list.clone();
    sorted_list.sort();
    assert_eq!(sorted_list, (0..37).collect::<Vec<usize>>());
    let mut out = Vec::new();
    leaves(&Child::Inner(Box::new(node)), &mut out);
    let mut seen = out.clone();
    seen.sort();
    seen.dedup();
    assert_eq!(seen, (0..37).collect::<Vec<usize>>());
    let (node, _) = build(&boxes, 17);
    let all = check_boxes(&node, &boxes);
    assert_eq!(all, boxes.iter().fold(boxes[0], |a, b| AABB::surrounding_box(&a, b)));
}

#[test]
fn hierarchy_and_linear_scan_find_the_same_nearest_hit() {
    let boxes = cubes(50, 9);
    let (node, _) = build(&boxes, 23);
    let list = HitableList::new((0..boxes.len()).collect());
    for y in -1..10 {
        for z in -1..10 {
            for x in [-5i64, 0, 20, 77, 200] {
                let ray = XRay { origin: (x, y, z), t_min: 0, t_max: i64::MAX, boxes: &boxes };
                let a = node.hit(&ray).map(|h| h.t);
                let b = list.hit(&ray).map(|h| h.t);
                assert_eq!(a, b);
            }
        }
    }
}

#[test]
fn traversal_prunes_a_missed_box() {
    let boxes = cubes(8, 1);
    let (node, _) = build(&boxes, 2);
    let ray = XRay { origin: (0, 100, 100), t_min: 0, t_max: i64::MAX, boxes: &boxes };
    assert!(node.hit(&ray).is_none());
}

#[test]
fn linear_scan_keeps_the_first_of_equally_near_hits() {
    let boxes = vec![bx((3, 0, 0), (4, 1, 1)), bx((3, 0, 0), (5, 1, 1)), bx((1, 0, 0), (2, 1, 1))];
    let ray = XRay { origin: (0, 0, 0), t_min: 0, t_max: 100, boxes: &boxes };
    let list = HitableList::new(vec![0, 1]);
    assert_eq!(list.hit(&ray).map(|h| h.record), Some(0));
    let mut list = HitableList::with_capacity(3);
    list.push(1);
    list.push(0);
    assert_eq!(list.hit(&ray).map(|h| h.record), Some(1));
    list.push(2);
    assert_eq!(list.hit(&ray).map(|h| (h.t, h.record)), Some((1, 2)));
    assert!(HitableList::empty().hit(&ray).is_none());
}

#[test]
fn nearer_prefers_the_smaller_key_then_the_first() {
    let a = Some(Hit { t: 3, record: 'a' });
    let b = Some(Hit { t: 2, record: 'b' });
    assert_eq!(nearer(a, b).map(|h| h.record), Some('b'));
    let a = Some(Hit { t: 2, record: 'a' });
    let b = Some(Hit { t: 2, record: 'b' });
    assert_eq!(nearer(a, b).map(|h| h.record), Some('a'));
    let b = Some(Hit { t: 9, record: 'b' });
    assert_eq!(nearer(None, b).map(|h| h.record), Some('b'));
    let a = Some(Hit { t: 9, record: 'a' });
    assert_eq!(nearer(a, None).map(|h| h.record), Some('a'));
    assert!(nearer::<char>(None, None).is_none());
}

#[test]
fn interval_bounds_are_exclusive() {
    let boxes = vec![bx((5, 0, 0), (6, 1, 1))];
    let (node, _) = build(&boxes, 4);
    let ray = XRay { origin: (0, 0, 0), t_min: 0, t_max: 5, boxes: &boxes };
    assert!(node.hit(&ray).is_none());
    let ray = XRay { origin: (0, 0, 0), t_min: 0, t_max: 6, boxes: &boxes };
    assert_eq!(node.hit(&ray).map(|h| h.t), Some(5));
}

#[test]
fn top_node_splits_the_sorted_list_at_its_middle() {
    let boxes = cubes(9, 13);
    let keys: Vec<OrdVec3> = boxes.iter().map(|b| b.min).collect();
    let mut list: Vec<usize> = (0..9).collect();
    let mut rng = StdRng::seed_from_u64(99);
    let node = BVHNode::bvh_node(&mut list, &keys, &boxes, &mut rng);
    let sorted_on = |axis: usize| list.windows(2).all(|w| keys[w[0]].get(axis) <= keys[w[1]].get(axis));
    assert!(sorted_on(0) || sorted_on(1) || sorted_on(2));
    let mut l = Vec::new();
    leaves(&node.left, &mut l);
    let mut r = Vec::new();
    leaves(&node.right, &mut r);
    l.sort();
    l.dedup();
    r.sort();
    r.dedup();
    let mut first: Vec<usize> = list[..4].to_vec();
    first.sort();
    let mut rest: Vec<usize> = list[4..].to_vec();
    rest.sort();
    assert_eq!(l, first);
    assert_eq!(r, rest);
}
