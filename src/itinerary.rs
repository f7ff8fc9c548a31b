use vstd::prelude::*;

use crate::geom::Vec2;
use crate::map::LaneID;

verus! {

/// A waypoint counts as reached within this distance, in centimetres.
pub const OBJECTIVE_OK_DIST: i64 = 400;

#[derive(Clone, Copy, Debug, PartialEq, Eq, Structural)]
pub enum ItineraryKind {
    /// Nothing to do.
    Idle,
    /// Stand still until this time, in milliseconds.
    WaitUntil(u64),
    /// Follow the waypoints.
    Route,
}

/// What is left of an agent's path: waypoints, a cursor into them, and the lane
/// being traversed.
pub struct Itinerary {
    pub kind: ItineraryKind,
    pub points: Vec<Vec2>,
    pub next: usize,
    pub travers: Option<LaneID>,
}

impl Itinerary {
    pub open spec fn point_spec(&self) -> Option<Vec2> {
        if self.kind == ItineraryKind::Route && self.next < self.points@.len() {
            Some(self.points@[self.next as int])
        } else {
            None
        }
    }

    pub open spec fn terminal_spec(&self) -> Option<Vec2> {
        if self.kind == ItineraryKind::Route && self.points@.len() > 0 {
            Some(self.points@.last())
        } else {
            None
        }
    }

    pub open spec fn ended_spec(&self, time: u64) -> bool {
        match self.kind {
            ItineraryKind::Idle => true,
            ItineraryKind::WaitUntil(t) => time >= t,
            ItineraryKind::Route => self.next >= self.points@.len(),
        }
    }

    pub fn none() -> (r: Itinerary)
        ensures
            r.kind == ItineraryKind::Idle,
            r.points@.len() == 0,
            r.travers is None,
    {
        Itinerary { kind: ItineraryKind::Idle, points: Vec::new(), next: 0, travers: None }
    }

    pub fn wait_until(time: u64) -> (r: Itinerary)
        ensures
            r.kind == ItineraryKind::WaitUntil(time),
            r.points@.len() == 0,
            r.travers is None,
    {
        Itinerary { kind: ItineraryKind::WaitUntil(time), points: Vec::new(), next: 0, travers: None }
    }

    pub fn route(points: Vec<Vec2>, travers: Option<LaneID>) -> (r: Itinerary)
        ensures
            r.kind == ItineraryKind::Route,
            r.points@ == points@,
            r.next == 0,
            r.travers == travers,
    {
        Itinerary { kind: ItineraryKind::Route, points, next: 0, travers }
    }

    /// The next waypoint to head for.
    pub fn get_point(&self) -> (r: Option<Vec2>)
        ensures
            r == self.point_spec(),
    {
        if self.kind == ItineraryKind::Route && self.next < self.points.len() {
            Some(self.points[self.next])
        } else {
            None
        }
    }

    /// Where the route ends.
    pub fn get_terminal(&self) -> (r: Option<Vec2>)
        ensures
            r == self.terminal_spec(),
    {
        if self.kind == ItineraryKind::Route && self.points.len() > 0 {
            Some(self.points[self.points.len() - 1])
        } else {
            None
        }
    }

    pub fn has_ended(&self, time: u64) -> (r: bool)
        ensures
            r == self.ended_spec(time),
    {
        match self.kind {
            ItineraryKind::Idle => true,
            ItineraryKind::WaitUntil(t) => time >= t,
            ItineraryKind::Route => self.next >= self.points.len(),
        }
    }

    pub fn get_travers(&self) -> (r: Option<LaneID>)
        ensures
            r == self.travers,
    {
        self.travers
    }

    /// Moves past the current waypoint once `pos` is close enough to it.
    pub fn advance(&mut self, pos: Vec2)
        requires
            pos.in_world(),
            old(self).point_spec() is Some ==> old(self).point_spec()->Some_0.in_world(),
        ensures
            final(self).kind == old(self).kind,
            final(self).points@ == old(self).points@,
            final(self).travers == old(self).travers,
            final(self).next == if old(self).point_spec() is Some && old(self).point_spec()->Some_0.dist2_spec(
                pos,
            ) < OBJECTIVE_OK_DIST * OBJECTIVE_OK_DIST {
                old(self).next + 1
            } else {
                old(self).next as int
            },
    {
        match self.get_point() {
            Some(p) => {
                let n = self.points.len();
                if p.distance2(pos) < (OBJECTIVE_OK_DIST * OBJECTIVE_OK_DIST) as i128 {
                    assert(self.next < n);
                    self.next = self.next + 1;
                }
            },
            None => {},
        }
    }
}

} // verus!
