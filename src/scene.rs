use crate::bbox::AABB;
use vstd::prelude::*;

verus! {

/// An intersection found along a ray: `t` is the order key of the ray
/// parameter at which it lies, `record` what the geometry reports of it.
#[derive(Debug)]
pub struct Hit<R> {
    pub t: i64,
    pub record: R,
}

/// The capability of asking one ray, over one parameter interval, about the
/// scene's objects (named by index) and about boxes.
///
/// An implementation answers as a function of the ray, the interval and the
/// argument: asked twice in one query, it gives the same answer. A box answer
/// that is `false` promises nothing of the objects inside the box; the
/// hierarchy's agreement with a plain scan holds where box answers are
/// conservative (see `lemma_bvh_matches_linear_scan`).
///
/// The two spec members name the answers; compiled outside the verifier they
/// are ordinary methods, which an implementation defines as its answers.
pub trait RayProbe<R> {
    /// Whether the ray meets the box within the interval.
    spec fn box_hit_spec(&self, b: AABB) -> bool;

    /// The nearest intersection of the ray with object `object` within the
    /// interval, if any.
    spec fn object_hit_spec(&self, object: usize) -> Option<Hit<R>>;

    fn box_hit(&self, b: &AABB) -> (r: bool)
        ensures
            r == self.box_hit_spec(*b),
    ;

    fn object_hit(&self, object: usize) -> (r: Option<Hit<R>>)
        ensures
            r == self.object_hit_spec(object),
    ;
}

/// The nearer of two optional hits; on equal keys the first one.
pub open spec fn nearest<R>(a: Option<Hit<R>>, b: Option<Hit<R>>) -> Option<Hit<R>> {
    match (a, b) {
        (Some(x), Some(y)) => if y.t < x.t { b } else { a },
        (Some(_), None) => a,
        (None, _) => b,
    }
}

/// The key of an optional hit.
pub open spec fn hit_t<R>(h: Option<Hit<R>>) -> Option<i64> {
    match h {
        Some(x) => Some(x.t),
        None => None,
    }
}

/// The least of two optional keys, absent keys counting as infinitely far.
pub open spec fn min_t(a: Option<i64>, b: Option<i64>) -> Option<i64> {
    match (a, b) {
        (Some(x), Some(y)) => Some(if y < x { y } else { x }),
        (Some(_), None) => a,
        (None, _) => b,
    }
}

/// Testing every object of `objects` in order and keeping the nearest hit,
/// the first one among equally near hits.
pub open spec fn linear_nearest<R, P: RayProbe<R>>(objects: Seq<usize>, p: P) -> Option<Hit<R>>
    decreases objects.len(),
{
    if objects.len() == 0 {
        None
    } else {
        nearest(linear_nearest(objects.drop_last(), p), p.object_hit_spec(objects.last()))
    }
}

/// The nearer of two optional hits.
pub fn nearer<R>(a: Option<Hit<R>>, b: Option<Hit<R>>) -> (r: Option<Hit<R>>)
    ensures
        r == nearest(a, b),
{
    match (a, b) {
        (Some(x), Some(y)) => if y.t < x.t {
            Some(y)
        } else {
            Some(x)
        },
        (Some(x), None) => Some(x),
        (None, b) => b,
    }
}

/// The key of the nearer hit is the least key.
pub(crate) proof fn lemma_nearest_t<R>(a: Option<Hit<R>>, b: Option<Hit<R>>)
    ensures
        hit_t(nearest(a, b)) == min_t(hit_t(a), hit_t(b)),
{
}

/// The nearest hit over a concatenation is the nearer of the nearest hits of
/// the two parts, as far as keys go.
pub(crate) proof fn lemma_linear_concat<R, P: RayProbe<R>>(s1: Seq<usize>, s2: Seq<usize>, p: P)
    ensures
        hit_t(linear_nearest(s1 + s2, p)) == min_t(
            hit_t(linear_nearest(s1, p)),
            hit_t(linear_nearest(s2, p)),
        ),
    decreases s2.len(),
{
    if s2.len() == 0 {
        assert(s1 + s2 =~= s1);
    } else {
        assert((s1 + s2).drop_last() =~= s1 + s2.drop_last());
        assert((s1 + s2).last() == s2.last());
        lemma_linear_concat(s1, s2.drop_last(), p);
        lemma_nearest_t(linear_nearest(s1 + s2.drop_last(), p), p.object_hit_spec(s2.last()));
        lemma_nearest_t(linear_nearest(s2.drop_last(), p), p.object_hit_spec(s2.last()));
    }
}

/// Where no object of `s` is hit, the scan finds nothing.
pub(crate) proof fn lemma_linear_none<R, P: RayProbe<R>>(s: Seq<usize>, p: P)
    requires
        forall|i: int| 0 <= i < s.len() ==> p.object_hit_spec(#[trigger] s[i]).is_none(),
    ensures
        linear_nearest(s, p).is_none(),
    decreases s.len(),
{
    if s.len() > 0 {
        lemma_linear_none(s.drop_last(), p);
        assert(p.object_hit_spec(s[s.len() - 1]).is_none());
    }
}

/// The scan finds nothing exactly where no object is hit; what it finds is
/// the hit of one of the objects, and no object is hit nearer.
pub(crate) proof fn lemma_linear_characterized<R, P: RayProbe<R>>(s: Seq<usize>, p: P)
    ensures
        linear_nearest(s, p).is_none() <==> forall|i: int|
            0 <= i < s.len() ==> p.object_hit_spec(#[trigger] s[i]).is_none(),
        linear_nearest(s, p).is_some() ==> exists|i: int|
            0 <= i < s.len() && p.object_hit_spec(#[trigger] s[i]) == linear_nearest(s, p),
        linear_nearest(s, p).is_some() ==> forall|i: int|
            0 <= i < s.len() && (#[trigger] p.object_hit_spec(s[i])).is_some()
                ==> linear_nearest(s, p).unwrap().t <= p.object_hit_spec(s[i]).unwrap().t,
    decreases s.len(),
{
    if s.len() > 0 {
        let f = s.drop_last();
        lemma_linear_characterized(f, p);
        let last = (s.len() - 1) as int;
        assert forall|i: int| 0 <= i < last implies s[i] == f[i] by {}
        if linear_nearest(s, p).is_some() {
            if linear_nearest(s, p) == p.object_hit_spec(s[last]) {
                assert(p.object_hit_spec(s[last]) == linear_nearest(s, p));
            } else {
                let k = choose|i: int| 0 <= i < f.len() && p.object_hit_spec(#[trigger] f[i]) == linear_nearest(f, p);
                assert(p.object_hit_spec(s[k]) == linear_nearest(s, p));
            }
        }
        if forall|i: int| 0 <= i < s.len() ==> p.object_hit_spec(#[trigger] s[i]).is_none() {
            assert(p.object_hit_spec(s[last]).is_none());
        }
    }
}

/// The scan's key depends only on which objects are scanned, not on their
/// order or repetition.
pub(crate) proof fn lemma_linear_same_objects<R, P: RayProbe<R>>(s1: Seq<usize>, s2: Seq<usize>, p: P)
    requires
        forall|o: usize| s1.contains(o) <==> s2.contains(o),
    ensures
        hit_t(linear_nearest(s1, p)) == hit_t(linear_nearest(s2, p)),
{
    lemma_linear_characterized(s1, p);
    lemma_linear_characterized(s2, p);
    if linear_nearest(s1, p).is_none() {
        assert forall|i: int| 0 <= i < s2.len() implies p.object_hit_spec(#[trigger] s2[i]).is_none() by {
            assert(s2.contains(s2[i]));
            let k = choose|k: int| 0 <= k < s1.len() && s1[k] == s2[i];
        }
    } else if linear_nearest(s2, p).is_none() {
        assert forall|i: int| 0 <= i < s1.len() implies p.object_hit_spec(#[trigger] s1[i]).is_none() by {
            assert(s1.contains(s1[i]));
            let k = choose|k: int| 0 <= k < s2.len() && s2[k] == s1[i];
        }
    } else {
        let i1 = choose|i: int| 0 <= i < s1.len() && p.object_hit_spec(#[trigger] s1[i]) == linear_nearest(s1, p);
        let i2 = choose|i: int| 0 <= i < s2.len() && p.object_hit_spec(#[trigger] s2[i]) == linear_nearest(s2, p);
        assert(s1.contains(s1[i1]));
        assert(s2.contains(s2[i2]));
        let k1 = choose|k: int| 0 <= k < s2.len() && s2[k] == s1[i1];
        let k2 = choose|k: int| 0 <= k < s1.len() && s1[k] == s2[i2];
        assert(p.object_hit_spec(s2[k1]).is_some());
        assert(p.object_hit_spec(s1[k2]).is_some());
    }
}

/// A list of scene objects, tested one after another.
#[derive(Clone, Debug)]
pub struct HitableList {
    pub objects: Vec<usize>,
}

impl HitableList {
    pub fn new(objects: Vec<usize>) -> (r: HitableList)
        ensures
            r.objects@ == objects@,
    {
        HitableList { objects }
    }

    pub fn empty() -> (r: HitableList)
        ensures
            r.objects@.len() == 0,
    {
        HitableList { objects: Vec::new() }
    }

    pub fn with_capacity(capacity: usize) -> (r: HitableList)
        ensures
            r.objects@.len() == 0,
    {
        HitableList { objects: Vec::with_capacity(capacity) }
    }

    pub fn push(&mut self, object: usize)
        ensures
            final(self).objects@ == old(self).objects@.push(object),
    {
        self.objects.push(object);
    }

    /// The nearest hit over all objects, the earliest object among equally
    /// near ones; each object is asked over the probe's whole interval.
    pub fn hit<R, P: RayProbe<R>>(&self, probe: &P) -> (r: Option<Hit<R>>)
        ensures
            r == linear_nearest(self.objects@, *probe),
    {
        let mut best: Option<Hit<R>> = None;
        let mut i: usize = 0;
        while i < self.objects.len()
            invariant
                i <= self.objects@.len(),
                best == linear_nearest(self.objects@.subrange(0, i as int), *probe),
            decreases self.objects@.len() - i,
        {
            let h = probe.object_hit(self.objects[i]);
            proof {
                let s = self.objects@.subrange(0, i + 1);
                assert(s.drop_last() =~= self.objects@.subrange(0, i as int));
            }
            best = nearer(best, h);
            i = i + 1;
        }
        assert(self.objects@.subrange(0, i as int) =~= self.objects@);
        best
    }
}

/// The union of `boxes[1..]` folded onto `boxes[0]`, if every box is present.
pub open spec fn union_all(boxes: Seq<Option<AABB>>) -> Option<AABB>
    decreases boxes.len(),
{
    if boxes.len() == 0 {
        None
    } else if boxes.len() == 1 {
        boxes[0]
    } else {
        match (union_all(boxes.drop_last()), boxes.last()) {
            (Some(a), Some(b)) => Some(AABB::union(a, b)),
            _ => None,
        }
    }
}

/// The box around a list whose objects report `boxes`: none for an empty list
/// or where any object reports none, else the union of all of them.
pub fn list_bounding_box(boxes: &Vec<Option<AABB>>) -> (r: Option<AABB>)
    ensures
        r == union_all(boxes@),
        r.is_some() <==> (boxes@.len() > 0 && forall|i: int|
            0 <= i < boxes@.len() ==> (#[trigger] boxes@[i]).is_some()),
{
    if boxes.len() == 0 {
        return None;
    }
    let mut acc = match boxes[0] {
        Some(b) => b,
        None => {
            proof { lemma_union_all_none(boxes@, 0); }
            return None;
        },
    };
    let mut i: usize = 1;
    while i < boxes.len()
        invariant
            1 <= i <= boxes@.len(),
            union_all(boxes@.subrange(0, i as int)) == Some(acc),
            forall|k: int| 0 <= k < i ==> (#[trigger] boxes@[k]).is_some(),
        decreases boxes@.len() - i,
    {
        proof {
            assert(boxes@.subrange(0, i + 1).drop_last() =~= boxes@.subrange(0, i as int));
        }
        match boxes[i] {
            Some(b) => {
                acc = AABB::surrounding_box(&acc, &b);
            },
            None => {
                proof { lemma_union_all_none(boxes@, i as int); }
                return None;
            },
        }
        i = i + 1;
    }
    assert(boxes@.subrange(0, i as int) =~= boxes@);
    Some(acc)
}

proof fn lemma_union_all_none(boxes: Seq<Option<AABB>>, k: int)
    requires
        0 <= k < boxes.len(),
        boxes[k].is_none(),
    ensures
        union_all(boxes).is_none(),
    decreases boxes.len(),
{
    if boxes.len() > 1 && k < boxes.len() - 1 {
        lemma_union_all_none(boxes.drop_last(), k);
    }
}

} // verus!
