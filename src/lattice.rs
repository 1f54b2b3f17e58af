use vstd::prelude::*;

verus! {

/// A point of the triangular lattice: `a` steps along heading 0 degrees plus
/// `b` steps along heading 60 degrees.
#[derive(Clone, Copy, Debug, PartialEq, Eq, Structural)]
pub struct Point {
    pub a: i64,
    pub b: i64,
}

impl Point {
    pub open spec fn view(self) -> (int, int) {
        (self.a as int, self.b as int)
    }

    pub fn new(a: i64, b: i64) -> (r: Point)
        ensures
            r.a == a,
            r.b == b,
    {
        Point { a, b }
    }
}

/// The unit step of heading `h` (in degrees), in lattice coordinates.
/// Headings are only ever multiples of 60 degrees; the heading is read
/// modulo 360.
pub open spec fn unit(h: int) -> (int, int) {
    let r = h % 360;
    if r < 60 {
        (1, 0)
    } else if r < 120 {
        (0, 1)
    } else if r < 180 {
        (-1, 1)
    } else if r < 240 {
        (-1, 0)
    } else if r < 300 {
        (0, -1)
    } else {
        (1, -1)
    }
}

/// The point reached from `p` by moving `dist` steps at heading `h`.
pub open spec fn advance(p: (int, int), h: int, dist: int) -> (int, int) {
    (p.0 + dist * unit(h).0, p.1 + dist * unit(h).1)
}

/// Where a walk from `p` ends that moves `dist` steps at each heading of `hs`
/// in turn.
pub open spec fn walk_end(p: (int, int), hs: Seq<int>, dist: int) -> (int, int)
    decreases hs.len(),
{
    if hs.len() == 0 {
        p
    } else {
        advance(walk_end(p, hs.drop_last(), dist), hs.last(), dist)
    }
}

/// The points that such a walk stands on just before each of its moves.
pub open spec fn walk(p: (int, int), hs: Seq<int>, dist: int) -> Seq<(int, int)>
    decreases hs.len(),
{
    if hs.len() == 0 {
        Seq::empty()
    } else {
        walk(p, hs.drop_last(), dist).push(walk_end(p, hs.drop_last(), dist))
    }
}

/// Squared Euclidean length of the lattice vector `(a, b)`, in squared steps:
/// `|a * e0 + b * e60|^2 = a^2 + a*b + b^2`.
pub open spec fn norm2(v: (int, int)) -> int {
    v.0 * v.0 + v.0 * v.1 + v.1 * v.1
}

/// Squared Euclidean distance between two lattice points, in squared steps.
pub open spec fn dist2(p: (int, int), q: (int, int)) -> int {
    norm2((q.0 - p.0, q.1 - p.1))
}

pub proof fn lemma_walk_len(p: (int, int), hs: Seq<int>, dist: int)
    ensures
        walk(p, hs, dist).len() == hs.len(),
    decreases hs.len(),
{
    if hs.len() > 0 {
        lemma_walk_len(p, hs.drop_last(), dist);
    }
}

/// A walk along `x + y` is the walk along `x` followed by the walk along `y`
/// from where the first one ended.
pub proof fn lemma_walk_concat(p: (int, int), x: Seq<int>, y: Seq<int>, dist: int)
    ensures
        walk_end(p, x + y, dist) == walk_end(walk_end(p, x, dist), y, dist),
        walk(p, x + y, dist) == walk(p, x, dist) + walk(walk_end(p, x, dist), y, dist),
    decreases y.len(),
{
    if y.len() == 0 {
        assert(x + y =~= x);
        assert(walk(p, x, dist) + Seq::<(int, int)>::empty() =~= walk(p, x, dist));
    } else {
        assert((x + y).drop_last() =~= x + y.drop_last());
        assert((x + y).last() == y.last());
        lemma_walk_concat(p, x, y.drop_last(), dist);
        let q = walk_end(p, x, dist);
        assert(walk(p, x, dist) + walk(q, y, dist) =~= (walk(p, x, dist) + walk(
            q,
            y.drop_last(),
            dist,
        )).push(walk_end(q, y.drop_last(), dist)));
    }
}

/// Each coordinate of a walk's end lies within `hs.len() * dist` of its start.
pub proof fn lemma_walk_end_bound(p: (int, int), hs: Seq<int>, dist: int)
    requires
        dist >= 0,
    ensures
        p.0 - hs.len() * dist <= walk_end(p, hs, dist).0 <= p.0 + hs.len() * dist,
        p.1 - hs.len() * dist <= walk_end(p, hs, dist).1 <= p.1 + hs.len() * dist,
    decreases hs.len(),
{
    if hs.len() > 0 {
        let n = hs.len() as int;
        lemma_walk_end_bound(p, hs.drop_last(), dist);
        assert(n * dist == (n - 1) * dist + dist) by (nonlinear_arith);
        let u = unit(hs.last());
        assert(-dist <= dist * u.0 <= dist && -dist <= dist * u.1 <= dist) by (nonlinear_arith)
            requires
                dist >= 0,
                -1 <= u.0 <= 1,
                -1 <= u.1 <= 1,
        ;
    }
}

/// A walk of at least one move first stands on its start.
pub proof fn lemma_walk_first(p: (int, int), hs: Seq<int>, dist: int)
    requires
        hs.len() > 0,
    ensures
        walk(p, hs, dist).len() == hs.len(),
        walk(p, hs, dist)[0] == p,
    decreases hs.len(),
{
    lemma_walk_len(p, hs, dist);
    if hs.len() == 1 {
        assert(walk(p, hs.drop_last(), dist) =~= Seq::empty());
    } else {
        lemma_walk_first(p, hs.drop_last(), dist);
    }
}

/// The unit step of `heading`, computed.
pub fn unit_step(heading: i64) -> (r: (i64, i64))
    ensures
        r.0 == unit(heading as int).0,
        r.1 == unit(heading as int).1,
{
    let r = heading.checked_rem_euclid(360).unwrap();
    if r < 60 {
        (1, 0)
    } else if r < 120 {
        (0, 1)
    } else if r < 180 {
        (-1, 1)
    } else if r < 240 {
        (-1, 0)
    } else if r < 300 {
        (0, -1)
    } else {
        (1, -1)
    }
}

} // verus!
