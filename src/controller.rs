use vstd::prelude::*;
use crate::lattice::Point;
use crate::curve::{MAX_DEPTH, snowflake, snowflake_points};

verus! {

/// Whether the stored polygon belongs to the current depth.
#[derive(Clone, Copy, Debug, PartialEq, Eq, Structural)]
pub enum Freshness {
    Stale,
    Fresh,
}

/// Decides when the snowflake is traced again: a change of depth makes the
/// stored polygon stale, and the next tick traces it once for the new depth.
pub struct Controller {
    pub depth: u32,
    pub freshness: Freshness,
    pub points: Vec<Point>,
}

impl Controller {
    pub open spec fn polygon(&self) -> Seq<(int, int)> {
        self.points@.map_values(|p: Point| p@)
    }

    /// The depth stays in bounds, and a fresh polygon is the snowflake of the
    /// current depth.
    pub open spec fn wf(&self) -> bool {
        &&& self.depth <= MAX_DEPTH
        &&& self.freshness == Freshness::Fresh ==> self.polygon() == snowflake(self.depth as nat)
    }

    /// Depth 0, nothing traced yet.
    pub fn new() -> (r: Controller)
        ensures
            r.wf(),
            r.depth == 0,
            r.freshness == Freshness::Stale,
            r.points@.len() == 0,
    {
        Controller { depth: 0, freshness: Freshness::Stale, points: Vec::new() }
    }

    /// One level more, unless the depth is already `MAX_DEPTH`; then nothing
    /// changes.
    pub fn increase_depth(&mut self)
        requires
            old(self).wf(),
        ensures
            final(self).wf(),
            final(self).points@ == old(self).points@,
            old(self).depth < MAX_DEPTH ==> final(self).depth == old(self).depth + 1
                && final(self).freshness == Freshness::Stale,
            old(self).depth >= MAX_DEPTH ==> final(self).depth == old(self).depth
                && final(self).freshness == old(self).freshness,
    {
        if self.depth < MAX_DEPTH {
            self.depth = self.depth + 1;
            self.freshness = Freshness::Stale;
        }
    }

    /// One level less, unless the depth is already 0; then nothing changes.
    pub fn decrease_depth(&mut self)
        requires
            old(self).wf(),
        ensures
            final(self).wf(),
            final(self).points@ == old(self).points@,
            old(self).depth > 0 ==> final(self).depth == old(self).depth - 1
                && final(self).freshness == Freshness::Stale,
            old(self).depth == 0 ==> final(self).depth == 0 && final(self).freshness == old(
                self,
            ).freshness,
    {
        if self.depth > 0 {
            self.depth = self.depth - 1;
            self.freshness = Freshness::Stale;
        }
    }

    /// A scheduling tick: a stale polygon is traced again for the current
    /// depth; a fresh one is left as it is.
    pub fn tick(&mut self)
        requires
            old(self).wf(),
        ensures
            final(self).wf(),
            final(self).depth == old(self).depth,
            final(self).freshness == Freshness::Fresh,
            final(self).polygon() == snowflake(old(self).depth as nat),
            old(self).freshness == Freshness::Fresh ==> final(self).points@ == old(self).points@,
    {
        if self.freshness == Freshness::Stale {
            self.points = snowflake_points(self.depth);
            self.freshness = Freshness::Fresh;
        }
    }

    pub fn depth(&self) -> (r: u32)
        ensures
            r == self.depth,
    {
        self.depth
    }

    pub fn is_fresh(&self) -> (r: bool)
        ensures
            r == (self.freshness == Freshness::Fresh),
    {
        self.freshness == Freshness::Fresh
    }

    /// The polygon to draw: the snowflake of the current depth once it is
    /// traced, nothing while it is stale.
    pub fn polygon_to_draw(&self) -> (r: Option<&Vec<Point>>)
        requires
            self.wf(),
        ensures
            self.freshness == Freshness::Fresh ==> r.is_some() && r.unwrap()@.map_values(
                |p: Point| p@,
            ) == snowflake(self.depth as nat),
            self.freshness == Freshness::Stale ==> r.is_none(),
    {
        if self.freshness == Freshness::Fresh {
            Some(&self.points)
        } else {
            None
        }
    }
}

} // verus!
