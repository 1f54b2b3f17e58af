use vstd::prelude::*;
use crate::lattice::{Point, unit, advance, unit_step};

verus! {

/// What a turtle is, mathematically.
pub struct TurtleState {
    pub pos: (int, int),
    pub heading: int,
    pub trail: Seq<(int, int)>,
}

/// A turtle on the triangular lattice: a position, a heading in degrees that
/// is never normalised, and the positions it stood on before each forward
/// move, in order.
pub struct Turtle {
    pub pos: Point,
    pub heading: i64,
    pub visited: Vec<Point>,
}

pub open spec fn in_i64(x: int) -> bool {
    i64::MIN <= x <= i64::MAX
}

impl Turtle {
    /// The heading stays on the lattice's six directions.
    pub open spec fn wf(&self) -> bool {
        self.heading % 60 == 0
    }

    pub open spec fn trail(&self) -> Seq<(int, int)> {
        self.visited@.map_values(|p: Point| p@)
    }

    pub open spec fn view(&self) -> TurtleState {
        TurtleState { pos: self.pos@, heading: self.heading as int, trail: self.trail() }
    }

    /// A turtle at `origin`, facing `heading`, that has not moved yet.
    pub fn new(origin: Point, heading: i64) -> (r: Turtle)
        requires
            heading % 60 == 0,
        ensures
            r.wf(),
            r@ == (TurtleState { pos: origin@, heading: heading as int, trail: Seq::empty() }),
    {
        let r = Turtle { pos: origin, heading, visited: Vec::new() };
        assert(r.trail() =~= Seq::empty());
        r
    }

    /// Records the current position, then moves `distance` steps along the
    /// heading (backwards where `distance` is negative).
    pub fn forward(&mut self, distance: i64)
        requires
            old(self).wf(),
            in_i64(advance(old(self).pos@, old(self).heading as int, distance as int).0),
            in_i64(advance(old(self).pos@, old(self).heading as int, distance as int).1),
        ensures
            final(self).wf(),
            final(self)@ == (TurtleState {
                pos: advance(old(self).pos@, old(self).heading as int, distance as int),
                heading: old(self).heading as int,
                trail: old(self).trail().push(old(self).pos@),
            }),
    {
        let ghost before = self.visited@;
        self.visited.push(self.pos);
        assert(self.visited@.map_values(|p: Point| p@) =~= before.map_values(|p: Point| p@).push(
            old(self).pos@,
        ));
        let (ua, ub) = unit_step(self.heading);
        assert(distance * -1 == -distance);
        if ua == 1 {
            self.pos.a = self.pos.a + distance;
        } else if ua == -1 {
            self.pos.a = self.pos.a - distance;
        }
        if ub == 1 {
            self.pos.b = self.pos.b + distance;
        } else if ub == -1 {
            self.pos.b = self.pos.b - distance;
        }
    }

    /// Turns clockwise in the turtle's own terms: the heading grows by
    /// `degrees`.
    pub fn turn_right(&mut self, degrees: i64)
        requires
            old(self).wf(),
            degrees % 60 == 0,
            in_i64(old(self).heading + degrees),
        ensures
            final(self).wf(),
            final(self)@ == (TurtleState { heading: old(self).heading + degrees, ..old(self)@ }),
    {
        self.heading = self.heading + degrees;
    }

    /// The heading shrinks by `degrees`.
    pub fn turn_left(&mut self, degrees: i64)
        requires
            old(self).wf(),
            degrees % 60 == 0,
            in_i64(old(self).heading - degrees),
        ensures
            final(self).wf(),
            final(self)@ == (TurtleState { heading: old(self).heading - degrees, ..old(self)@ }),
    {
        self.heading = self.heading - degrees;
    }
}

} // verus!
