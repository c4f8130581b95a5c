use vstd::prelude::*;

verus! {

/// A 3-vector of order keys: each component stands for a coordinate by a key
/// whose integer order is the order of the coordinates.
#[derive(Clone, Copy, Debug, PartialEq, Eq, Structural)]
pub struct OrdVec3 {
    pub x: i64,
    pub y: i64,
    pub z: i64,
}

/// An axis-aligned box given by its least and greatest corner.
#[derive(Clone, Copy, Debug, PartialEq, Eq, Structural)]
pub struct AABB {
    pub min: OrdVec3,
    pub max: OrdVec3,
}

pub open spec fn min_i(a: i64, b: i64) -> i64 {
    if a <= b { a } else { b }
}

pub open spec fn max_i(a: i64, b: i64) -> i64 {
    if a >= b { a } else { b }
}

impl OrdVec3 {
    /// Component `axis` (0 is x, 1 is y, 2 is z).
    pub open spec fn at(self, axis: int) -> i64 {
        if axis == 0 { self.x } else if axis == 1 { self.y } else { self.z }
    }

    pub fn new(x: i64, y: i64, z: i64) -> (r: OrdVec3)
        ensures
            r.x == x && r.y == y && r.z == z,
    {
        OrdVec3 { x, y, z }
    }

    /// Component `axis`; an axis outside 0..3 is a contract violation.
    pub fn get(&self, axis: usize) -> (r: i64)
        requires
            axis < 3,
        ensures
            r == self.at(axis as int),
    {
        if axis == 0 {
            self.x
        } else if axis == 1 {
            self.y
        } else {
            self.z
        }
    }
}

impl AABB {
    /// Every component of `min` is at most the same component of `max`.
    pub open spec fn wf(self) -> bool {
        self.min.x <= self.max.x && self.min.y <= self.max.y && self.min.z <= self.max.z
    }

    /// `p` lies in the closed box.
    pub open spec fn contains(self, p: OrdVec3) -> bool {
        self.min.x <= p.x <= self.max.x && self.min.y <= p.y <= self.max.y && self.min.z
            <= p.z <= self.max.z
    }

    /// Corner `i` of the eight, bit 0 choosing x, bit 1 y, bit 2 z
    /// (a set bit takes the greatest coordinate).
    pub open spec fn corner_point(self, i: int) -> OrdVec3 {
        OrdVec3 {
            x: if i % 2 == 1 { self.max.x } else { self.min.x },
            y: if (i / 2) % 2 == 1 { self.max.y } else { self.min.y },
            z: if (i / 4) % 2 == 1 { self.max.z } else { self.min.z },
        }
    }

    /// Every point of `self` lies in `outer`.
    pub open spec fn within(self, outer: AABB) -> bool {
        outer.min.x <= self.min.x && self.max.x <= outer.max.x && outer.min.y <= self.min.y
            && self.max.y <= outer.max.y && outer.min.z <= self.min.z && self.max.z
            <= outer.max.z
    }

    /// The union box of two boxes, by components.
    pub open spec fn union(a: AABB, b: AABB) -> AABB {
        AABB {
            min: OrdVec3 {
                x: min_i(a.min.x, b.min.x),
                y: min_i(a.min.y, b.min.y),
                z: min_i(a.min.z, b.min.z),
            },
            max: OrdVec3 {
                x: max_i(a.max.x, b.max.x),
                y: max_i(a.max.y, b.max.y),
                z: max_i(a.max.z, b.max.z),
            },
        }
    }

    pub fn new(min: OrdVec3, max: OrdVec3) -> (r: AABB)
        ensures
            r.min == min && r.max == max,
    {
        AABB { min, max }
    }

    /// Corner 0 is `min`, corner 1 is `max`; any other index is a contract violation.
    pub fn corner(&self, i: usize) -> (r: OrdVec3)
        requires
            i < 2,
        ensures
            r == (if i == 0 { self.min } else { self.max }),
    {
        if i == 0 {
            self.min
        } else {
            self.max
        }
    }

    /// The least box holding both boxes: the least of the minima and the
    /// greatest of the maxima, component by component.
    pub fn surrounding_box(box0: &AABB, box1: &AABB) -> (r: AABB)
        ensures
            r == AABB::union(*box0, *box1),
            box0.within(r) && box1.within(r),
            box0.wf() ==> r.wf(),
    {
        let small = OrdVec3::new(
            if box0.min.x <= box1.min.x { box0.min.x } else { box1.min.x },
            if box0.min.y <= box1.min.y { box0.min.y } else { box1.min.y },
            if box0.min.z <= box1.min.z { box0.min.z } else { box1.min.z },
        );
        let big = OrdVec3::new(
            if box0.max.x >= box1.max.x { box0.max.x } else { box1.max.x },
            if box0.max.y >= box1.max.y { box0.max.y } else { box1.max.y },
            if box0.max.z >= box1.max.z { box0.max.z } else { box1.max.z },
        );
        AABB::new(small, big)
    }
}

impl AABB {
    /// The least box holding every point of `points`: each face passes
    /// through one of them.
    pub fn enclosing(points: &Vec<OrdVec3>) -> (r: AABB)
        requires
            points@.len() > 0,
        ensures
            r.wf(),
            forall|i: int| 0 <= i < points@.len() ==> r.contains(#[trigger] points@[i]),
            exists|i: int| 0 <= i < points@.len() && points@[i].x == r.min.x,
            exists|i: int| 0 <= i < points@.len() && points@[i].y == r.min.y,
            exists|i: int| 0 <= i < points@.len() && points@[i].z == r.min.z,
            exists|i: int| 0 <= i < points@.len() && points@[i].x == r.max.x,
            exists|i: int| 0 <= i < points@.len() && points@[i].y == r.max.y,
            exists|i: int| 0 <= i < points@.len() && points@[i].z == r.max.z,
    {
        let first = points[0];
        let mut r = AABB { min: first, max: first };
        let mut k: usize = 1;
        let ghost mut w = seq![0int, 0, 0, 0, 0, 0];
        while k < points.len()
            invariant
                1 <= k <= points@.len(),
                r.wf(),
                forall|i: int| 0 <= i < k ==> r.contains(#[trigger] points@[i]),
                w.len() == 6,
                forall|f: int| 0 <= f < 6 ==> 0 <= #[trigger] w[f] < k,
                points@[w[0]].x == r.min.x,
                points@[w[1]].y == r.min.y,
                points@[w[2]].z == r.min.z,
                points@[w[3]].x == r.max.x,
                points@[w[4]].y == r.max.y,
                points@[w[5]].z == r.max.z,
            decreases points@.len() - k,
        {
            let p = points[k];
            if p.x < r.min.x {
                r.min.x = p.x;
                proof { w = w.update(0, k as int); }
            }
            if p.y < r.min.y {
                r.min.y = p.y;
                proof { w = w.update(1, k as int); }
            }
            if p.z < r.min.z {
                r.min.z = p.z;
                proof { w = w.update(2, k as int); }
            }
            if p.x > r.max.x {
                r.max.x = p.x;
                proof { w = w.update(3, k as int); }
            }
            if p.y > r.max.y {
                r.max.y = p.y;
                proof { w = w.update(4, k as int); }
            }
            if p.z > r.max.z {
                r.max.z = p.z;
                proof { w = w.update(5, k as int); }
            }
            k = k + 1;
        }
        assert(0 <= w[0] < points@.len());
        assert(0 <= w[1] < points@.len());
        assert(0 <= w[2] < points@.len());
        assert(0 <= w[3] < points@.len());
        assert(0 <= w[4] < points@.len());
        assert(0 <= w[5] < points@.len());
        r
    }
}

/// The union of two boxes holds each of the eight corners of both boxes, and
/// it is the least such box: any box that holds all sixteen corners holds the
/// union as well.
pub proof fn lemma_surrounding_box_least(a: AABB, b: AABB, c: AABB)
    requires
        a.wf(),
        b.wf(),
    ensures
        forall|i: int| 0 <= i < 8 ==> AABB::union(a, b).contains(#[trigger] a.corner_point(i)),
        forall|i: int| 0 <= i < 8 ==> AABB::union(a, b).contains(#[trigger] b.corner_point(i)),
        (forall|i: int|
            0 <= i < 8 ==> c.contains(#[trigger] a.corner_point(i)) && c.contains(
                b.corner_point(i),
            )) ==> AABB::union(a, b).within(c),
{
    if forall|i: int| 0 <= i < 8 ==> c.contains(#[trigger] a.corner_point(i)) && c.contains(b.corner_point(i)) {
        assert(c.contains(a.corner_point(0)) && c.contains(b.corner_point(0)));
        assert(c.contains(a.corner_point(7)) && c.contains(b.corner_point(7)));
    }
}

} // verus!
