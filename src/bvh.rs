use crate::bbox::{OrdVec3, AABB};
use crate::random::random_below;
use crate::scene::{
    Hit, RayProbe, hit_t, lemma_linear_concat, lemma_linear_none, lemma_linear_same_objects,
    lemma_nearest_t, linear_nearest, nearer, nearest,
};
use rand::rngs::StdRng;
use vstd::prelude::*;

verus! {

/// One side of a hierarchy node: a scene object, named by its index, or a
/// further node.
#[derive(Debug)]
pub enum Child {
    Leaf(usize),
    Inner(Box<BVHNode>),
}

/// A node of the bounding-volume hierarchy: two children and a box that
/// holds both of them.
#[derive(Debug)]
pub struct BVHNode {
    pub left: Child,
    pub right: Child,
    pub bbox: AABB,
}

/// The sort key of object `o` along `axis`: the minimum corner of its box.
pub open spec fn key_of(keys: Seq<OrdVec3>, o: usize, axis: int) -> i64 {
    keys[o as int].at(axis)
}

/// `list` is ordered by the objects' keys along `axis`.
pub open spec fn sorted_by(list: Seq<usize>, keys: Seq<OrdVec3>, axis: int) -> bool {
    forall|a: int, b: int|
        0 <= a < b < list.len() ==> key_of(keys, #[trigger] list[a], axis) <= key_of(
            keys,
            #[trigger] list[b],
            axis,
        )
}

/// Every object named in `list` has a key.
pub open spec fn indexes_in(list: Seq<usize>, n: nat) -> bool {
    forall|i: int| 0 <= i < list.len() ==> #[trigger] list[i] < n
}

impl Child {
    /// The objects at the leaves below this side, left to right.
    pub open spec fn leaves(self) -> Seq<usize>
        decreases self,
    {
        match self {
            Child::Leaf(o) => seq![o],
            Child::Inner(node) => node.left.leaves() + node.right.leaves(),
        }
    }

    /// The box of this side: the object's own box for a leaf.
    pub open spec fn box_of(self, boxes: Seq<AABB>) -> AABB {
        match self {
            Child::Leaf(o) => boxes[o as int],
            Child::Inner(node) => node.bbox,
        }
    }

    pub open spec fn wf(self, boxes: Seq<AABB>, keys: Seq<OrdVec3>) -> bool
        decreases self,
    {
        match self {
            Child::Leaf(o) => o < boxes.len(),
            Child::Inner(node) => {
                &&& node.left.wf(boxes, keys)
                &&& node.right.wf(boxes, keys)
                &&& node.bbox == AABB::union(node.left.box_of(boxes), node.right.box_of(boxes))
                &&& exists|axis: int| 0 <= axis < 3 && split_along(node.left.leaves(), node.right.leaves(), keys, axis)
            },
        }
    }

    /// What the traversal below this side reports.
    pub open spec fn hit_spec<R, P: RayProbe<R>>(self, p: P) -> Option<Hit<R>>
        decreases self,
    {
        match self {
            Child::Leaf(o) => p.object_hit_spec(o),
            Child::Inner(node) => if p.box_hit_spec(node.bbox) {
                nearest(node.left.hit_spec(p), node.right.hit_spec(p))
            } else {
                None
            },
        }
    }

    /// Every box below this side that the probe says the ray misses holds
    /// no object that the probe says the ray hits.
    pub open spec fn conservative<R, P: RayProbe<R>>(self, p: P) -> bool
        decreases self,
    {
        match self {
            Child::Leaf(_) => true,
            Child::Inner(node) => {
                &&& node.left.conservative(p)
                &&& node.right.conservative(p)
                &&& (forall|i: int|
                    0 <= i < self.leaves().len() && (#[trigger] p.object_hit_spec(
                        self.leaves()[i],
                    )).is_some() ==> p.box_hit_spec(node.bbox))
            },
        }
    }
}

/// Every object of `l` comes no later along `axis` than every object of `r`.
pub open spec fn split_along(l: Seq<usize>, r: Seq<usize>, keys: Seq<OrdVec3>, axis: int) -> bool {
    forall|a: int, b: int|
        0 <= a < l.len() && 0 <= b < r.len() ==> key_of(keys, #[trigger] l[a], axis) <= key_of(
            keys,
            #[trigger] r[b],
            axis,
        )
}

/// Both sides of `node` are further nodes, the left one over the first half
/// of `list` (rounded down) and the right one over the rest.
pub open spec fn halves_split(node: BVHNode, list: Seq<usize>) -> bool {
    let half = list.len() / 2;
    &&& node.left is Inner
    &&& node.right is Inner
    &&& forall|o: usize| node.left.leaves().contains(o) <==> list.subrange(0, half as int).contains(o)
    &&& forall|o: usize| node.right.leaves().contains(o) <==> list.subrange(half as int, list.len() as int).contains(o)
}

impl BVHNode {
    pub open spec fn as_child(self) -> Child {
        Child::Inner(Box::new(self))
    }

    /// The objects at the leaves, left to right.
    pub open spec fn leaves(self) -> Seq<usize> {
        self.as_child().leaves()
    }

    /// Each leaf names an object of `boxes`, each node's box is the union of
    /// its children's boxes, and at each node the left leaves come no later
    /// than the right leaves along one axis of `keys`.
    pub open spec fn wf(self, boxes: Seq<AABB>, keys: Seq<OrdVec3>) -> bool {
        self.as_child().wf(boxes, keys)
    }

    /// What a traversal reports for the probe's ray.
    pub open spec fn hit_spec<R, P: RayProbe<R>>(self, p: P) -> Option<Hit<R>> {
        self.as_child().hit_spec(p)
    }

    pub fn new(left: Child, right: Child, bbox: AABB) -> (r: BVHNode)
        ensures
            r.left == left && r.right == right && r.bbox == bbox,
    {
        BVHNode { left, right, bbox }
    }

    /// The box that holds the whole node.
    pub fn bounding_box(&self) -> (r: AABB)
        ensures
            r == self.bbox,
    {
        self.bbox
    }
}

impl BVHNode {
    /// Builds a hierarchy over the objects named in `list`, sorting `list`
    /// in place on the way.
    ///
    /// `keys[o]` is the minimum corner of object `o`'s box at the start of
    /// the shutter interval, which orders the objects; `boxes[o]` is its box
    /// over the whole interval, from which the nodes' boxes are built. At
    /// each node an axis is drawn uniformly, the objects are sorted by their
    /// keys along it and split at the middle: one object gives a node whose
    /// two sides are that object, two objects give a node with one leaf
    /// each, more give two subtrees over the two halves.
    pub fn bvh_node(
        list: &mut Vec<usize>,
        keys: &Vec<OrdVec3>,
        boxes: &Vec<AABB>,
        rng: &mut StdRng,
    ) -> (r: BVHNode)
        requires
            old(list)@.len() > 0,
            keys@.len() == boxes@.len(),
            indexes_in(old(list)@, keys@.len()),
        ensures
            r.wf(boxes@, keys@),
            forall|o: usize| r.leaves().contains(o) <==> old(list)@.contains(o),
            final(list)@.len() == old(list)@.len(),
            final(list)@.to_multiset() == old(list)@.to_multiset(),
            exists|axis: int| 0 <= axis < 3 && sorted_by(final(list)@, keys@, axis),
            old(list)@.len() == 1 ==> r.left == Child::Leaf(final(list)@[0]) && r.right
                == Child::Leaf(final(list)@[0]),
            old(list)@.len() == 2 ==> r.left == Child::Leaf(final(list)@[0]) && r.right
                == Child::Leaf(final(list)@[1]),
            old(list)@.len() >= 3 ==> halves_split(r, final(list)@),
        decreases old(list)@.len(),
    {
        let axis = random_below(rng, 3);
        sort_by_axis(list, keys, axis);
        let n = list.len();
        assert(sorted_by(list@, keys@, axis as int));
        proof {
            broadcast use vstd::seq_lib::group_to_multiset_ensures;
            assert forall|o: usize| list@.contains(o) <==> old(list)@.contains(o) by {
                assert(list@.contains(o) <==> list@.to_multiset().count(o) > 0);
                assert(old(list)@.contains(o) <==> old(list)@.to_multiset().count(o) > 0);
            }
        }
        if n == 1 {
            let o = list[0];
            let b = boxes[o];
            let bbox = AABB::surrounding_box(&b, &b);
            let r = BVHNode { left: Child::Leaf(o), right: Child::Leaf(o), bbox };
            proof {
                assert(split_along(seq![o], seq![o], keys@, axis as int));
                assert(r.left.leaves() == seq![o]);
                assert(r.right.leaves() == seq![o]);
                assert(r.leaves() =~= seq![o, o]);
                assert(r.left.wf(boxes@, keys@) && r.right.wf(boxes@, keys@));
                assert(list@ =~= seq![o]);
            }
            return r;
        }
        if n == 2 {
            let o0 = list[0];
            let o1 = list[1];
            let b0 = boxes[o0];
            let b1 = boxes[o1];
            let bbox = AABB::surrounding_box(&b0, &b1);
            let r = BVHNode { left: Child::Leaf(o0), right: Child::Leaf(o1), bbox };
            proof {
                assert(split_along(seq![o0], seq![o1], keys@, axis as int));
                assert(r.left.leaves() == seq![o0]);
                assert(r.right.leaves() == seq![o1]);
                assert(r.leaves() =~= seq![o0, o1]);
                assert(r.left.wf(boxes@, keys@) && r.right.wf(boxes@, keys@));
                assert(list@ =~= seq![o0, o1]);
            }
            return r;
        }
        let half = n / 2;
        let mut l: Vec<usize> = Vec::with_capacity(half);
        let mut i: usize = 0;
        while i < half
            invariant
                i <= half < n == list@.len(),
                l@ =~= list@.subrange(0, i as int),
            decreases half - i,
        {
            l.push(list[i]);
            i = i + 1;
        }
        let mut rl: Vec<usize> = Vec::with_capacity(n - half);
        while i < n
            invariant
                half <= i <= n == list@.len(),
                rl@ =~= list@.subrange(half as int, i as int),
            decreases n - i,
        {
            rl.push(list[i]);
            i = i + 1;
        }
        let ghost ls = l@;
        let ghost rs = rl@;
        let ln = BVHNode::bvh_node(&mut l, keys, boxes, rng);
        let rn = BVHNode::bvh_node(&mut rl, keys, boxes, rng);
        let bbox = AABB::surrounding_box(&ln.bbox, &rn.bbox);
        let r = BVHNode {
            left: Child::Inner(Box::new(ln)),
            right: Child::Inner(Box::new(rn)),
            bbox,
        };
        proof {
            let lv = ln.leaves();
            let rv = rn.leaves();
            assert(r.left.leaves() == lv);
            assert(r.right.leaves() == rv);
            assert forall|a: int, b: int| 0 <= a < lv.len() && 0 <= b < rv.len() implies key_of(
                keys@,
                #[trigger] lv[a],
                axis as int,
            ) <= key_of(keys@, #[trigger] rv[b], axis as int) by {
                assert(lv.contains(lv[a]));
                assert(rv.contains(rv[b]));
                let a2 = choose|k: int| 0 <= k < ls.len() && ls[k] == lv[a];
                let b2 = choose|k: int| 0 <= k < rs.len() && rs[k] == rv[b];
                assert(list@[a2] == lv[a]);
                assert(list@[half + b2] == rv[b]);
            }
            assert(split_along(lv, rv, keys@, axis as int));
            assert(halves_split(r, list@));
            assert(r.leaves() == lv + rv);
            assert forall|o: usize| r.leaves().contains(o) <==> list@.contains(o) by {
                if (lv + rv).contains(o) {
                    let k = choose|k: int| 0 <= k < (lv + rv).len() && (lv + rv)[k] == o;
                    if k < lv.len() {
                        assert(lv.contains(o));
                        let a2 = choose|m: int| 0 <= m < ls.len() && ls[m] == o;
                        assert(list@[a2] == o);
                    } else {
                        assert(rv[k - lv.len()] == o);
                        assert(rv.contains(o));
                        let b2 = choose|m: int| 0 <= m < rs.len() && rs[m] == o;
                        assert(list@[half + b2] == o);
                    }
                }
                if list@.contains(o) {
                    let k = choose|k: int| 0 <= k < list@.len() && list@[k] == o;
                    if k < half {
                        assert(ls[k] == o);
                        assert(ls.contains(o));
                        assert(lv.contains(o));
                        let m = choose|m: int| 0 <= m < lv.len() && lv[m] == o;
                        assert((lv + rv)[m] == o);
                    } else {
                        assert(rs[k - half] == o);
                        assert(rs.contains(o));
                        assert(rv.contains(o));
                        let m = choose|m: int| 0 <= m < rv.len() && rv[m] == o;
                        assert((lv + rv)[lv.len() + m] == o);
                    }
                }
            }
        }
        r
    }

    /// The nearest hit that the probe reports among the leaves whose every
    /// enclosing box the probe says the ray meets; boxes it misses are not
    /// entered. Both sides of an entered node are asked, and the nearer
    /// answer is kept, the left one on equal keys.
    pub fn hit<R, P: RayProbe<R>>(&self, probe: &P) -> (r: Option<Hit<R>>)
        ensures
            r == self.hit_spec(*probe),
        decreases self,
    {
        if probe.box_hit(&self.bbox) {
            let hl = child_hit(&self.left, probe);
            let hr = child_hit(&self.right, probe);
            nearer(hl, hr)
        } else {
            None
        }
    }
}

fn child_hit<R, P: RayProbe<R>>(c: &Child, probe: &P) -> (r: Option<Hit<R>>)
    ensures
        r == c.hit_spec(*probe),
    decreases c,
{
    match c {
        Child::Leaf(o) => probe.object_hit(*o),
        Child::Inner(node) => node.hit(probe),
    }
}

proof fn lemma_child_matches_scan<R, P: RayProbe<R>>(c: Child, p: P)
    requires
        c.conservative(p),
    ensures
        hit_t(c.hit_spec(p)) == hit_t(linear_nearest(c.leaves(), p)),
    decreases c,
{
    match c {
        Child::Leaf(o) => {
            assert(c.leaves() == seq![o]);
            assert(c.leaves().drop_last() =~= Seq::<usize>::empty());
            assert(linear_nearest(Seq::<usize>::empty(), p).is_none());
            assert(c.leaves().last() == o);
            assert(linear_nearest(c.leaves(), p) == nearest(
                linear_nearest(Seq::<usize>::empty(), p),
                p.object_hit_spec(o),
            ));
        },
        Child::Inner(node) => {
            lemma_child_matches_scan(node.left, p);
            lemma_child_matches_scan(node.right, p);
            lemma_linear_concat(node.left.leaves(), node.right.leaves(), p);
            if p.box_hit_spec(node.bbox) {
                lemma_nearest_t(node.left.hit_spec(p), node.right.hit_spec(p));
            } else {
                lemma_linear_none(c.leaves(), p);
            }
        },
    }
}

/// Where every box the probe says the ray misses holds no object the probe
/// says the ray hits, the traversal of a hierarchy built over `objects`
/// finds a hit exactly where testing each of `objects` in turn does, at the
/// same key.
pub proof fn lemma_bvh_matches_linear_scan<R, P: RayProbe<R>>(
    node: BVHNode,
    objects: Seq<usize>,
    p: P,
)
    requires
        node.as_child().conservative(p),
        forall|o: usize| node.leaves().contains(o) <==> objects.contains(o),
    ensures
        hit_t(node.hit_spec(p)) == hit_t(linear_nearest(objects, p)),
{
    lemma_child_matches_scan(node.as_child(), p);
    lemma_linear_same_objects(node.leaves(), objects, p);
}

/// Sorts `list` by the objects' keys along `axis` (insertion sort; equal keys
/// keep their order).
pub fn sort_by_axis(list: &mut Vec<usize>, keys: &Vec<OrdVec3>, axis: usize)
    requires
        axis < 3,
        indexes_in(old(list)@, keys@.len()),
    ensures
        final(list)@.len() == old(list)@.len(),
        final(list)@.to_multiset() == old(list)@.to_multiset(),
        indexes_in(final(list)@, keys@.len()),
        sorted_by(final(list)@, keys@, axis as int),
{
    let n = list.len();
    let mut i: usize = 1;
    if n == 0 {
        return;
    }
    while i < n
        invariant
            1 <= i <= n == list@.len() == old(list)@.len(),
            axis < 3,
            list@.to_multiset() == old(list)@.to_multiset(),
            indexes_in(list@, keys@.len()),
            sorted_by(list@.subrange(0, i as int), keys@, axis as int),
        decreases n - i,
    {
        let mut j: usize = i;
        proof {
            let s = list@.subrange(0, i as int);
            assert forall|a: int, b: int| 0 <= a < b <= i && a != j && b != j implies key_of(keys@, #[trigger] list@[a], axis as int)
                <= key_of(keys@, #[trigger] list@[b], axis as int) by {
                assert(s[a] == list@[a] && s[b] == list@[b]);
            }
        }
        while j > 0 && keys[list[j - 1]].get(axis) > keys[list[j]].get(axis)
            invariant
                0 <= j <= i < n == list@.len() == old(list)@.len(),
                axis < 3,
                list@.to_multiset() == old(list)@.to_multiset(),
                indexes_in(list@, keys@.len()),
                forall|a: int, b: int|
                    0 <= a < b <= i && a != j && b != j ==> key_of(keys@, #[trigger] list@[a], axis as int)
                        <= key_of(keys@, #[trigger] list@[b], axis as int),
                forall|b: int|
                    j < b <= i ==> key_of(keys@, list@[j as int], axis as int) < key_of(
                        keys@,
                        #[trigger] list@[b],
                        axis as int,
                    ),
            decreases j,
        {
            let x = list[j];
            let y = list[j - 1];
            proof {
                broadcast use vstd::seq_lib::group_to_multiset_ensures, vstd::multiset::group_multiset_axioms;
                let s = list@;
                let t = s.update(j - 1, x);
                assert(t.update(j as int, y).to_multiset() =~= s.to_multiset());
            }
            list.set(j - 1, x);
            list.set(j, y);
            j = j - 1;
        }
        proof {
            let s = list@.subrange(0, i + 1);
            assert forall|a: int, b: int| 0 <= a < b < s.len() implies key_of(keys@, #[trigger] s[a], axis as int)
                <= key_of(keys@, #[trigger] s[b], axis as int) by {
                if a == j && j > 0 {
                    assert(key_of(keys@, list@[j - 1], axis as int) <= key_of(keys@, list@[j as int], axis as int));
                } else if b == j && j > 0 {
                    assert(key_of(keys@, list@[a], axis as int) <= key_of(keys@, list@[j - 1], axis as int)) by {
                        if a < j - 1 {
                            assert(key_of(keys@, list@[a], axis as int) <= key_of(keys@, list@[j - 1], axis as int));
                        }
                    }
                    assert(key_of(keys@, list@[j - 1], axis as int) <= key_of(keys@, list@[j as int], axis as int));
                }
            }
        }
        i = i + 1;
    }
    assert(list@.subrange(0, n as int) =~= list@);
}

} // verus!
