use vstd::prelude::*;

use crate::arena::Arena;
use crate::geom::{
    isqrt, isqrt_spec, lemma_isqrt_unique, project_segment, project_segment_spec, scale,
    scale_spec, Vec2,
};
use crate::spline::{deriv_ok, Spline};
use crate::traffic::{
    compute_policy, control_for, lane_control, policy_for, ControlPolicy, TrafficBehavior,
};

verus! {

#[derive(Clone, Copy, Debug, PartialEq, Eq, Structural, Hash)]
pub struct IntersectionID(pub u64);

#[derive(Clone, Copy, Debug, PartialEq, Eq, Structural, Hash)]
pub struct RoadID(pub u64);

#[derive(Clone, Copy, Debug, PartialEq, Eq, Structural, Hash)]
pub struct LaneID(pub u64);

#[derive(Clone, Copy, Debug, PartialEq, Eq, Structural, Hash)]
pub struct ParkingSpotID(pub u64);

#[derive(Clone, Copy, Debug, PartialEq, Eq, Structural)]
pub enum LaneKind {
    Driving,
    Biking,
    Bus,
    Parking,
    Walking,
}

/// Forward lanes run from a road's `src` to its `dst`, backward lanes the other way.
#[derive(Clone, Copy, Debug, PartialEq, Eq, Structural)]
pub enum LaneDirection {
    Forward,
    Backward,
}

/// One lane of a pattern: its kind and its direction.
#[derive(Clone, Copy, Debug, PartialEq, Eq, Structural)]
pub struct LaneSpec {
    pub kind: LaneKind,
    pub direction: LaneDirection,
}

/// The ordered lanes that a new road is given.
#[derive(Clone, Debug)]
pub struct LanePattern {
    pub lanes: Vec<LaneSpec>,
}

/// A road's own record of one of its lanes.
#[derive(Clone, Copy, Debug, PartialEq, Eq, Structural)]
pub struct LaneRef {
    pub id: LaneID,
    pub kind: LaneKind,
    pub direction: LaneDirection,
}

/// The shape of a road between its two endpoints.
#[derive(Clone, Copy, Debug, PartialEq, Eq, Structural)]
pub enum RoadSegmentKind {
    Straight,
    /// A cubic Hermite curve with these end derivatives.
    Curved(Vec2, Vec2),
}

/// A node of the road graph; its footprint and policy derive from its roads.
pub struct Intersection {
    pub id: IntersectionID,
    pub pos: Vec2,
    pub roads: Vec<RoadID>,
    /// Half-size of the square footprint of the intersection; lanes are controlled
    /// at its edge.
    pub interface_radius: i64,
    pub policy: ControlPolicy,
}

/// An edge of the road graph, with its end points and its lanes.
pub struct Road {
    pub id: RoadID,
    pub src: IntersectionID,
    pub dst: IntersectionID,
    pub src_point: Vec2,
    pub dst_point: Vec2,
    pub segment: RoadSegmentKind,
    pub lanes: Vec<LaneRef>,
}

impl Intersection {
    /// Whether `p` lies in the square footprint of the intersection.
    pub open spec fn polygon_contains_spec(&self, p: Vec2) -> bool {
        -self.interface_radius <= p.x - self.pos.x <= self.interface_radius
            && -self.interface_radius <= p.y - self.pos.y <= self.interface_radius
    }

    pub fn polygon_contains(&self, p: Vec2) -> (r: bool)
        requires
            self.pos.in_world(),
            p.in_world(),
            0 <= self.interface_radius <= 0x1000_0000,
        ensures
            r == self.polygon_contains_spec(p),
    {
        let dx = p.x - self.pos.x;
        let dy = p.y - self.pos.y;
        -self.interface_radius <= dx && dx <= self.interface_radius && -self.interface_radius <= dy
            && dy <= self.interface_radius
    }
}

impl Road {
    /// The endpoint across the road from `my_end`; `None` when the road does not
    /// end there.
    pub fn other_end(&self, my_end: IntersectionID) -> (r: Option<IntersectionID>)
        ensures
            r == if self.src == my_end {
                Some(self.dst)
            } else if self.dst == my_end {
                Some(self.src)
            } else {
                None::<IntersectionID>
            },
    {
        if self.src == my_end {
            Some(self.dst)
        } else if self.dst == my_end {
            Some(self.src)
        } else {
            None
        }
    }

    /// One more than the position of `lane` among the road's lanes, or zero when
    /// the road does not have it.
    pub fn idx_unchecked(&self, lane: LaneID) -> (r: usize)
        ensures
            r == 0 ==> forall|t: int| 0 <= t < self.lanes@.len() ==> (#[trigger] self.lanes@[t]).id != lane,
            r > 0 ==> r <= self.lanes@.len() && self.lanes@[r - 1].id == lane && forall|t: int|
                0 <= t < r - 1 ==> (#[trigger] self.lanes@[t]).id != lane,
    {
        let mut i: usize = 0;
        while i < self.lanes.len()
            invariant
                i <= self.lanes@.len(),
                forall|t: int| 0 <= t < i ==> (#[trigger] self.lanes@[t]).id != lane,
            decreases self.lanes@.len() - i,
        {
            if self.lanes[i].id == lane {
                return i + 1;
            }
            i += 1;
        }
        0
    }

    /// The road's curve, for a curved road.
    pub open spec fn curve(&self) -> Spline {
        match self.segment {
            RoadSegmentKind::Curved(f, t) => Spline {
                from: self.src_point,
                to: self.dst_point,
                from_derivative: f,
                to_derivative: t,
            },
            RoadSegmentKind::Straight => Spline {
                from: self.src_point,
                to: self.dst_point,
                from_derivative: self.src_point,
                to_derivative: self.dst_point,
            },
        }
    }

    /// Number of pieces of the polyline that stands for the road.
    pub open spec fn pieces(&self) -> int {
        if self.segment is Straight { 1 } else { CURVE_PIECES as int }
    }

    /// Point `i` of the polyline: the end points of a straight road, or points of a
    /// curved road's curve at even steps of its parameter.
    pub open spec fn point(&self, i: int) -> Vec2 {
        if self.segment is Straight {
            if i == 0 { self.src_point } else { self.dst_point }
        } else {
            self.curve().get_spec(i * (1000int / CURVE_PIECES as int))
        }
    }

    pub open spec fn piece_proj(&self, i: int, p: Vec2) -> Vec2 {
        project_segment_spec(self.point(i), self.point(i + 1), p)
    }

    /// The first of the first `n` pieces whose nearest point to `p` is nearest.
    pub open spec fn best_piece(&self, p: Vec2, n: int) -> int
        decreases n,
    {
        if n <= 1 {
            0
        } else {
            let b = self.best_piece(p, n - 1);
            if self.piece_proj(n - 1, p).dist2_spec(p) < self.piece_proj(b, p).dist2_spec(p) {
                n - 1
            } else {
                b
            }
        }
    }

    /// The point of the road nearest to `p`, on its polyline.
    pub open spec fn project_spec(&self, p: Vec2) -> Vec2 {
        self.piece_proj(self.best_piece(p, self.pieces()), p)
    }

    pub open spec fn shape_ok(&self) -> bool {
        self.src_point.in_world() && self.dst_point.in_world() && segment_ok(self.segment)
    }

    pub proof fn lemma_best_piece_range(&self, p: Vec2, n: int)
        requires
            n >= 1,
        ensures
            0 <= self.best_piece(p, n) < n,
        decreases n,
    {
        if n > 1 {
            self.lemma_best_piece_range(p, n - 1);
        }
    }

    fn point_at(&self, i: i64) -> (r: Vec2)
        requires
            self.shape_ok(),
            0 <= i <= self.pieces(),
        ensures
            r == self.point(i as int),
            r.in_world(),
    {
        match self.segment {
            RoadSegmentKind::Straight => if i == 0 {
                self.src_point
            } else {
                self.dst_point
            },
            RoadSegmentKind::Curved(f, t) => {
                let s = Spline {
                    from: self.src_point,
                    to: self.dst_point,
                    from_derivative: f,
                    to_derivative: t,
                };
                s.get(i * (1000 / CURVE_PIECES))
            },
        }
    }

    /// The point of the road nearest to `p`: on the chord of a straight road, on a
    /// polyline through points of the curve of a curved one.
    pub fn project(&self, p: Vec2) -> (r: Vec2)
        requires
            self.shape_ok(),
            p.in_world(),
        ensures
            r == self.project_spec(p),
            r.in_world(),
    {
        let n: i64 = if matches!(self.segment, RoadSegmentKind::Straight) { 1 } else { CURVE_PIECES };
        let mut best = project_segment(self.point_at(0), self.point_at(1), p);
        let mut best_d = best.distance2(p);
        let ghost mut bi: int = 0;
        let mut i: i64 = 1;
        while i < n
            invariant
                self.shape_ok(),
                p.in_world(),
                n == self.pieces(),
                1 <= i <= n,
                bi == self.best_piece(p, i as int),
                best == self.piece_proj(bi, p),
                best.in_world(),
                best_d == best.dist2_spec(p),
            decreases n - i,
        {
            let q = project_segment(self.point_at(i), self.point_at(i + 1), p);
            let d = q.distance2(p);
            if d < best_d {
                best = q;
                best_d = d;
                proof {
                    bi = i as int;
                }
            }
            i += 1;
        }
        best
    }

    /// The lane pattern that rebuilds this road's lanes.
    pub fn pattern(&self) -> (p: LanePattern)
        ensures
            p.lanes@ == self.lanes@.map_values(|l: LaneRef| spec_of(l)),
    {
        let mut lanes: Vec<LaneSpec> = Vec::new();
        let mut i: usize = 0;
        while i < self.lanes.len()
            invariant
                i <= self.lanes@.len(),
                lanes@ == self.lanes@.subrange(0, i as int).map_values(|l: LaneRef| spec_of(l)),
            decreases self.lanes@.len() - i,
        {
            let l = self.lanes[i];
            lanes.push(LaneSpec { kind: l.kind, direction: l.direction });
            assert(self.lanes@.subrange(0, i + 1) == self.lanes@.subrange(0, i as int).push(l));
            i += 1;
        }
        assert(self.lanes@.subrange(0, self.lanes@.len() as int) == self.lanes@);
        LanePattern { lanes }
    }
}

/// One lane of a road; its geometry is its road's, oriented by its direction.
pub struct Lane {
    pub id: LaneID,
    pub parent: RoadID,
    pub kind: LaneKind,
    pub direction: LaneDirection,
    /// The parking spot of a parking lane.
    pub spot: Option<ParkingSpotID>,
}

/// A place to park, in the middle of its parking lane.
pub struct ParkingSpot {
    pub id: ParkingSpotID,
    pub parent: LaneID,
}

/// A curved road is measured along this many straight pieces.
pub const CURVE_PIECES: i64 = 10;

/// An isolated intersection this close to the query point is picked first.
pub const SNAP_RADIUS: i64 = 500;

/// A road is picked only if its nearest point is closer than this.
pub const ROAD_THRESHOLD: i64 = 1500;

#[derive(Clone, Copy, Debug, PartialEq, Eq, Structural)]
pub enum ProjectKind {
    Inter(IntersectionID),
    Road(RoadID),
    Ground,
}

/// The feature of the map nearest to a point, and the point on it.
#[derive(Clone, Copy, Debug, PartialEq, Eq, Structural)]
pub struct MapProject {
    pub pos: Vec2,
    pub kind: ProjectKind,
}

pub const INTERFACE_BASE: i64 = 800;
pub const INTERFACE_STEP: i64 = 150;
pub const INTERFACE_MAX_ROADS: i64 = 16;

/// The interface radius of an intersection where `n` roads meet.
pub open spec fn radius_for(n: nat) -> int {
    if n == 0 {
        0
    } else if n > INTERFACE_MAX_ROADS {
        INTERFACE_BASE + INTERFACE_MAX_ROADS * INTERFACE_STEP
    } else {
        INTERFACE_BASE + n * INTERFACE_STEP
    }
}

fn compute_radius(n: usize) -> (r: i64)
    ensures
        r == radius_for(n as nat),
{
    if n == 0 {
        0
    } else if n > INTERFACE_MAX_ROADS as usize {
        INTERFACE_BASE + INTERFACE_MAX_ROADS * INTERFACE_STEP
    } else {
        INTERFACE_BASE + n as i64 * INTERFACE_STEP
    }
}

fn copy_ids(v: &Vec<RoadID>) -> (r: Vec<RoadID>)
    ensures
        r@ == v@,
{
    let mut r: Vec<RoadID> = Vec::new();
    let mut i: usize = 0;
    while i < v.len()
        invariant
            i <= v@.len(),
            r@ == v@.subrange(0, i as int),
        decreases v@.len() - i,
    {
        r.push(v[i]);
        i += 1;
    }
    assert(v@.subrange(0, v@.len() as int) == v@);
    r
}

pub open spec fn segment_ok(s: RoadSegmentKind) -> bool {
    match s {
        RoadSegmentKind::Straight => true,
        RoadSegmentKind::Curved(a, b) => deriv_ok(a) && deriv_ok(b),
    }
}

/// A driving lane that runs in direction `d`.
pub open spec fn drive_fits(l: LaneRef, d: LaneDirection) -> bool {
    l.kind == LaneKind::Driving && l.direction == d
}

pub open spec fn spec_of(r: LaneRef) -> LaneSpec {
    LaneSpec { kind: r.kind, direction: r.direction }
}

/// The road graph store. Every public operation keeps it consistent (`wf`).
pub struct RoadMap {
    roads: Arena<Road>,
    lanes: Arena<Lane>,
    intersections: Arena<Intersection>,
    parking: Arena<ParkingSpot>,
    /// Set by every structural change, for consumers that re-derive their own data.
    dirty: bool,
}

impl RoadMap {
    pub closed spec fn is_dirty(&self) -> bool {
        self.dirty
    }

    /// Whether structural changes happened since the flag was last cleared.
    pub fn dirty(&self) -> (r: bool)
        ensures
            r == self.is_dirty(),
    {
        self.dirty
    }

    pub fn clear_dirty(&mut self)
        requires
            old(self).wf(),
        ensures
            final(self).wf(),
            !final(self).is_dirty(),
            final(self).inters() == old(self).inters(),
            final(self).road_store() == old(self).road_store(),
            final(self).lane_store() == old(self).lane_store(),
            final(self).spot_store() == old(self).spot_store(),
    {
        self.dirty = false;
        assert(self.spot_store() == old(self).spot_store());
        assert(self.lane_store() == old(self).lane_store());
    }

    pub closed spec fn inters(&self) -> Arena<Intersection> {
        self.intersections
    }

    pub closed spec fn road_store(&self) -> Arena<Road> {
        self.roads
    }

    pub closed spec fn lane_store(&self) -> Arena<Lane> {
        self.lanes
    }

    pub closed spec fn spot_store(&self) -> Arena<ParkingSpot> {
        self.parking
    }

    pub open spec fn has_inter(&self, i: IntersectionID) -> bool {
        self.inters().has(i.0)
    }

    pub open spec fn inter(&self, i: IntersectionID) -> Intersection {
        self.inters().at(i.0)
    }

    pub open spec fn has_road(&self, r: RoadID) -> bool {
        self.road_store().has(r.0)
    }

    pub open spec fn road(&self, r: RoadID) -> Road {
        self.road_store().at(r.0)
    }

    pub open spec fn has_lane(&self, l: LaneID) -> bool {
        self.lane_store().has(l.0)
    }

    pub open spec fn lane(&self, l: LaneID) -> Lane {
        self.lane_store().at(l.0)
    }

    pub open spec fn has_spot(&self, s: ParkingSpotID) -> bool {
        self.spot_store().has(s.0)
    }

    pub open spec fn spot(&self, s: ParkingSpotID) -> ParkingSpot {
        self.spot_store().at(s.0)
    }

    pub open spec fn ids_ok(&self) -> bool {
        &&& forall|k: u64| #[trigger]
            self.inters().has(k) ==> self.inters().at(k).id == IntersectionID(k)
                && self.inters().at(k).pos.in_world()
        &&& forall|k: u64| #[trigger] self.road_store().has(k) ==> self.road_store().at(k).id == RoadID(k)
        &&& forall|k: u64| #[trigger] self.lane_store().has(k) ==> self.lane_store().at(k).id == LaneID(k)
        &&& forall|k: u64| #[trigger]
            self.spot_store().has(k) ==> self.spot_store().at(k).id == ParkingSpotID(k)
    }

    /// A road's endpoints exist and list it; its lanes exist and name it as parent.
    pub open spec fn road_ok(&self, k: u64) -> bool {
        let r = self.road_store().at(k);
        &&& self.has_inter(r.src)
        &&& self.has_inter(r.dst)
        &&& r.src != r.dst
        &&& segment_ok(r.segment)
        &&& self.inter(r.src).roads@.contains(RoadID(k))
        &&& self.inter(r.dst).roads@.contains(RoadID(k))
        &&& forall|j: int|
            0 <= j < r.lanes@.len() ==> {
                let l = #[trigger] r.lanes@[j];
                &&& self.has_lane(l.id)
                &&& self.lane(l.id).parent == RoadID(k)
                &&& self.lane(l.id).kind == l.kind
                &&& self.lane(l.id).direction == l.direction
            }
    }

    /// Every road listed by an intersection exists and ends there.
    pub open spec fn inter_ok(&self, k: u64) -> bool {
        let i = self.inters().at(k);
        &&& i.roads@.no_duplicates()
        &&& forall|j: int|
            0 <= j < i.roads@.len() ==> {
                let r = #[trigger] i.roads@[j];
                &&& self.has_road(r)
                &&& (self.road(r).src == IntersectionID(k) || self.road(r).dst == IntersectionID(
                    k,
                ))
            }
    }

    /// A lane's parent road exists and lists it; its parking spot names it.
    pub open spec fn lane_ok(&self, k: u64) -> bool {
        let l = self.lane_store().at(k);
        &&& self.has_road(l.parent)
        &&& self.road(l.parent).lanes@.contains(
            LaneRef { id: LaneID(k), kind: l.kind, direction: l.direction },
        )
        &&& l.spot is Some ==> self.has_spot(l.spot->Some_0) && self.spot(l.spot->Some_0).parent
            == LaneID(k)
    }

    /// A parking spot's parent lane exists and holds it.
    pub open spec fn spot_ok(&self, k: u64) -> bool {
        let s = self.spot_store().at(k);
        &&& self.has_lane(s.parent)
        &&& self.lane(s.parent).spot == Some(ParkingSpotID(k))
    }

    /// A road's stored end points are its intersections' positions.
    pub open spec fn geometry_ok(&self, k: u64) -> bool {
        let r = self.road_store().at(k);
        &&& r.src_point == self.inter(r.src).pos
        &&& r.dst_point == self.inter(r.dst).pos
    }

    /// An intersection's cached data agree with its incident roads.
    pub open spec fn derived_ok(&self, k: u64) -> bool {
        let i = self.inters().at(k);
        &&& i.interface_radius == radius_for(i.roads@.len())
        &&& i.policy == policy_for(i.roads@.len())
    }

    pub open spec fn links_ok(&self) -> bool {
        &&& self.ids_ok()
        &&& forall|k: u64| #[trigger] self.road_store().has(k) ==> self.road_ok(k)
        &&& forall|k: u64| #[trigger] self.inters().has(k) ==> self.inter_ok(k)
        &&& forall|k: u64| #[trigger] self.lane_store().has(k) ==> self.lane_ok(k)
        &&& forall|k: u64| #[trigger] self.spot_store().has(k) ==> self.spot_ok(k)
    }

    /// Consistent, but for the cached data of the intersections in `stale`.
    pub open spec fn wf_except(&self, stale: Set<u64>) -> bool {
        &&& self.links_ok()
        &&& forall|k: u64| #[trigger] self.road_store().has(k) ==> self.geometry_ok(k)
        &&& forall|k: u64|
            #[trigger] self.inters().has(k) && !stale.contains(k) ==> self.derived_ok(k)
    }

    /// The store is consistent: links both ways, geometry and cached data up to date.
    pub open spec fn wf(&self) -> bool {
        self.wf_except(Set::empty())
    }

    pub fn empty() -> (r: RoadMap)
        ensures
            r.wf(),
            r.is_dirty(),
            forall|k: u64| !(#[trigger] r.inters().has(k)),
            forall|k: u64| !(#[trigger] r.road_store().has(k)),
            forall|k: u64| !(#[trigger] r.lane_store().has(k)),
            forall|k: u64| !(#[trigger] r.spot_store().has(k)),
    {
        RoadMap {
            roads: Arena::new(),
            lanes: Arena::new(),
            intersections: Arena::new(),
            parking: Arena::new(),
            dirty: true,
        }
    }

    pub fn add_intersection(&mut self, pos: Vec2) -> (id: IntersectionID)
        requires
            old(self).wf(),
            pos.in_world(),
        ensures
            final(self).wf(),
            final(self).is_dirty(),
            !old(self).has_inter(id),
            final(self).has_inter(id),
            final(self).inter(id).pos == pos,
            final(self).inter(id).roads@.len() == 0,
            forall|k: u64|
                #[trigger] old(self).inters().has(k) ==> final(self).inters().has(k)
                    && final(self).inters().at(k) == old(self).inters().at(k),
            forall|k: u64|
                #[trigger] final(self).inters().has(k) ==> old(self).inters().has(k)
                    || k == id.0,
            final(self).road_store() == old(self).road_store(),
            final(self).lane_store() == old(self).lane_store(),
            final(self).spot_store() == old(self).spot_store(),
    {
        self.dirty = true;
        let k = self.intersections.next_key();
        let inter = Intersection {
            id: IntersectionID(k),
            pos,
            roads: Vec::new(),
            interface_radius: compute_radius(0),
            policy: compute_policy(0),
        };
        let k2 = self.intersections.insert(inter);
        assert(k2 == k);
        assert(forall|j: u64| #[trigger] old(self).inters().has(j) ==> j < k);
        proof {
            assert forall|j: u64| #[trigger] self.inters().has(j) implies self.inters().at(j).id
                == IntersectionID(j) && self.inters().at(j).pos.in_world() by {
                if j != k {
                    assert(old(self).inters().has(j));
                }
            }
            assert forall|j: u64| #[trigger] self.road_store().has(j) implies self.road_ok(j) by {
                assert(old(self).road_ok(j));
            }
            assert forall|j: u64| #[trigger] self.inters().has(j) implies self.inter_ok(j) by {
                if j != k {
                    assert(old(self).inters().has(j));
                    assert(old(self).inter_ok(j));
                }
            }
            assert forall|j: u64| #[trigger] self.lane_store().has(j) implies self.lane_ok(j) by {
                assert(old(self).lane_ok(j));
            }
            assert forall|j: u64| #[trigger] self.spot_store().has(j) implies self.spot_ok(j) by {
                assert(old(self).spot_ok(j));
            }
            assert forall|j: u64| #[trigger] self.inters().has(j) implies self.derived_ok(j) by {
                if j != k {
                    assert(old(self).inters().has(j));
                }
            }
            assert forall|j: u64| #[trigger] self.road_store().has(j) implies self.geometry_ok(j) by {
                assert(old(self).road_ok(j));
                assert(old(self).geometry_ok(j));
            }
        }
        IntersectionID(k)
    }

    /// Appends a road to an intersection's list and refreshes its cached data.
    fn attach_road(&mut self, i: IntersectionID, r: RoadID)
        requires
            old(self).inters().has(i.0),
        ensures
            final(self).inters().has(i.0),
            ({
                let n = final(self).inters().at(i.0);
                let o = old(self).inters().at(i.0);
                &&& n.id == o.id
                &&& n.pos == o.pos
                &&& n.roads@ == o.roads@.push(r)
                &&& n.interface_radius == radius_for(n.roads@.len())
                &&& n.policy == policy_for(n.roads@.len())
            }),
            final(self).inters()@ == old(self).inters()@.update(
                i.0 as int,
                Some(final(self).inters().at(i.0)),
            ),
            final(self).road_store() == old(self).road_store(),
            final(self).lane_store() == old(self).lane_store(),
            final(self).spot_store() == old(self).spot_store(),
            final(self).dirty == old(self).dirty,
    {
        let mut inter = self.intersections.remove(i.0).unwrap();
        inter.roads.push(r);
        inter.interface_radius = compute_radius(inter.roads.len());
        inter.policy = compute_policy(inter.roads.len());
        self.intersections.set(i.0, inter);
    }

    /// Removes a road from an intersection's list and refreshes its cached data.
    fn detach_road(&mut self, i: IntersectionID, r: RoadID)
        requires
            old(self).inters().has(i.0),
            old(self).inters().at(i.0).roads@.no_duplicates(),
        ensures
            final(self).inters().has(i.0),
            final(self).inters()@ == old(self).inters()@.update(
                i.0 as int,
                Some(final(self).inters().at(i.0)),
            ),
            ({
                let n = final(self).inters().at(i.0);
                let o = old(self).inters().at(i.0);
                &&& n.id == o.id
                &&& n.pos == o.pos
                &&& forall|x: RoadID| n.roads@.contains(x) <==> o.roads@.contains(x) && x != r
                &&& n.roads@.no_duplicates()
                &&& n.interface_radius == radius_for(n.roads@.len())
                &&& n.policy == policy_for(n.roads@.len())
            }),
            final(self).road_store() == old(self).road_store(),
            final(self).lane_store() == old(self).lane_store(),
            final(self).spot_store() == old(self).spot_store(),
            final(self).dirty == old(self).dirty,
    {
        let mut inter = self.intersections.remove(i.0).unwrap();
        let ghost o = inter.roads@;
        let mut j: usize = 0;
        while j < inter.roads.len() && inter.roads[j] != r
            invariant
                o == inter.roads@,
                j <= o.len(),
                forall|t: int| 0 <= t < j ==> o[t] != r,
            decreases o.len() - j,
        {
            j += 1;
        }
        if j < inter.roads.len() {
            inter.roads.remove(j);
            proof {
                let n = inter.roads@;
                assert(n == o.remove(j as int));
                assert forall|x: RoadID| n.contains(x) <==> o.contains(x) && x != r by {
                    if n.contains(x) {
                        let t = choose|t: int| 0 <= t < n.len() && n[t] == x;
                        if t < j {
                            assert(o[t] == x);
                        } else {
                            assert(o[t + 1] == x);
                            assert(o[j as int] == r);
                        }
                    }
                    if o.contains(x) && x != r {
                        let t = choose|t: int| 0 <= t < o.len() && o[t] == x;
                        if t < j {
                            assert(n[t] == x);
                        } else {
                            assert(t != j);
                            assert(n[t - 1] == x);
                        }
                    }
                }
                assert forall|a: int, c: int| 0 <= a < n.len() && 0 <= c < n.len() && a != c implies n[a]
                    != n[c] by {
                    let a2 = if a < j { a } else { a + 1 };
                    let c2 = if c < j { c } else { c + 1 };
                    assert(n[a] == o[a2]);
                    assert(n[c] == o[c2]);
                }
            }
        }
        let n = inter.roads.len();
        inter.interface_radius = compute_radius(n);
        inter.policy = compute_policy(n);
        self.intersections.set(i.0, inter);
    }

    /// A lane that `create_lanes` made for road `road` at position `j` of `pattern`.
    pub open spec fn new_lane_ok(&self, road: RoadID, pattern: Seq<LaneSpec>, first: int, j: int) -> bool {
        let k = (first + j) as u64;
        let l = self.lane_store().at(k);
        &&& self.lane_store().has(k)
        &&& l.id == LaneID(k)
        &&& l.parent == road
        &&& l.kind == pattern[j].kind
        &&& l.direction == pattern[j].direction
        &&& (l.kind == LaneKind::Parking) == (l.spot is Some)
        &&& l.spot is Some ==> self.has_spot(l.spot->Some_0) && self.spot(l.spot->Some_0) == (
        ParkingSpot { id: l.spot->Some_0, parent: LaneID(k) })
    }

    /// Adds the lanes of `pattern` for a road that will get the identifier `road`,
    /// with a parking spot for each parking lane.
    fn create_lanes(&mut self, road: RoadID, pattern: &LanePattern) -> (refs: Vec<LaneRef>)
        ensures
            final(self).inters() == old(self).inters(),
            final(self).road_store() == old(self).road_store(),
            final(self).dirty == old(self).dirty,
            final(self).lane_store()@.len() == old(self).lane_store()@.len() + pattern.lanes@.len(),
            forall|k: int|
                0 <= k < old(self).lane_store()@.len() ==> #[trigger] final(self).lane_store()@[k]
                    == old(self).lane_store()@[k],
            final(self).spot_store()@.len() >= old(self).spot_store()@.len(),
            forall|k: int|
                0 <= k < old(self).spot_store()@.len() ==> #[trigger] final(self).spot_store()@[k]
                    == old(self).spot_store()@[k],
            forall|j: int|
                0 <= j < pattern.lanes@.len() ==> #[trigger] final(self).new_lane_ok(
                    road,
                    pattern.lanes@,
                    old(self).lane_store()@.len() as int,
                    j,
                ),
            forall|k: u64|
                old(self).spot_store()@.len() <= k < final(self).spot_store()@.len() ==> {
                    let sp = #[trigger] final(self).spot_store().at(k);
                    &&& final(self).spot_store().has(k)
                    &&& old(self).lane_store()@.len() <= sp.parent.0 < final(self).lane_store()@.len()
                    &&& sp.id == ParkingSpotID(k)
                    &&& final(self).lane_store().at(sp.parent.0).spot == Some(ParkingSpotID(k))
                },
            refs@.len() == pattern.lanes@.len(),
            forall|j: int|
                0 <= j < refs@.len() ==> #[trigger] refs@[j] == (LaneRef {
                    id: LaneID((old(self).lane_store()@.len() + j) as u64),
                    kind: pattern.lanes@[j].kind,
                    direction: pattern.lanes@[j].direction,
                }),
    {
        let ghost first = self.lanes@.len() as int;
        let ghost spots0 = self.parking@.len() as int;
        let mut refs: Vec<LaneRef> = Vec::new();
        let mut j: usize = 0;
        while j < pattern.lanes.len()
            invariant
                j <= pattern.lanes@.len(),
                self.intersections == old(self).intersections,
                self.roads == old(self).roads,
                self.dirty == old(self).dirty,
                first == old(self).lanes@.len(),
                spots0 == old(self).parking@.len(),
                self.lanes@.len() == first + j,
                forall|k: int| 0 <= k < first ==> #[trigger] self.lanes@[k] == old(self).lanes@[k],
                self.parking@.len() >= spots0,
                forall|k: int| 0 <= k < spots0 ==> #[trigger] self.parking@[k] == old(self).parking@[k],
                forall|t: int| 0 <= t < j ==> #[trigger] self.new_lane_ok(road, pattern.lanes@, first, t),
                forall|k: u64|
                    spots0 <= k < self.parking@.len() ==> {
                        let sp = #[trigger] self.parking.at(k);
                        &&& self.parking.has(k)
                        &&& first <= sp.parent.0 < self.lanes@.len()
                        &&& sp.id == ParkingSpotID(k)
                        &&& self.lanes.at(sp.parent.0).spot == Some(ParkingSpotID(k))
                    },
                refs@.len() == j,
                forall|t: int|
                    0 <= t < j ==> #[trigger] refs@[t] == (LaneRef {
                        id: LaneID((first + t) as u64),
                        kind: pattern.lanes@[t].kind,
                        direction: pattern.lanes@[t].direction,
                    }),
            decreases pattern.lanes@.len() - j,
        {
            let spec_j = pattern.lanes[j];
            let ghost prev = *self;
            let lane_key = self.lanes.next_key();
            let spot = if spec_j.kind == LaneKind::Parking {
                let sk = self.parking.next_key();
                self.parking.insert(ParkingSpot { id: ParkingSpotID(sk), parent: LaneID(lane_key) });
                Some(ParkingSpotID(sk))
            } else {
                None
            };
            let lk = self.lanes.insert(
                Lane {
                    id: LaneID(lane_key),
                    parent: road,
                    kind: spec_j.kind,
                    direction: spec_j.direction,
                    spot,
                },
            );
            assert(lk == lane_key);
            refs.push(LaneRef { id: LaneID(lane_key), kind: spec_j.kind, direction: spec_j.direction });
            proof {
                assert forall|t: int| 0 <= t < j + 1 implies #[trigger] self.new_lane_ok(
                    road,
                    pattern.lanes@,
                    first,
                    t,
                ) by {
                    if t < j {
                        let k = (first + t) as u64;
                        assert(prev.new_lane_ok(road, pattern.lanes@, first, t));
                        assert(self.lanes@[k as int] == prev.lanes@[k as int]);
                        let l = self.lanes.at(k);
                        if l.spot is Some {
                            let sk = l.spot->Some_0.0;
                            assert(prev.parking.has(sk));
                            assert(self.parking@[sk as int] == prev.parking@[sk as int]);
                        }
                    } else {
                        let l = self.lanes.at(lane_key);
                        if l.spot is Some {
                            let sk = l.spot->Some_0.0;
                            assert(self.parking.has(sk));
                        }
                    }
                }
                assert forall|k: u64| spots0 <= k < self.parking@.len() implies {
                    let sp = #[trigger] self.parking.at(k);
                    &&& self.parking.has(k)
                    &&& first <= sp.parent.0 < self.lanes@.len()
                    &&& sp.id == ParkingSpotID(k)
                    &&& self.lanes.at(sp.parent.0).spot == Some(ParkingSpotID(k))
                } by {
                    if k < prev.parking@.len() {
                        assert(self.parking@[k as int] == prev.parking@[k as int]);
                        let sp = prev.parking.at(k);
                        assert(prev.parking.has(k));
                        assert(first <= sp.parent.0 < prev.lanes@.len());
                        assert(self.lanes@[sp.parent.0 as int] == prev.lanes@[sp.parent.0 as int]);
                    } else {
                        assert(self.parking.at(k).parent.0 == lane_key);
                    }
                }
                assert forall|t: int| 0 <= t < j + 1 implies #[trigger] refs@[t] == (LaneRef {
                    id: LaneID((first + t) as u64),
                    kind: pattern.lanes@[t].kind,
                    direction: pattern.lanes@[t].direction,
                }) by {
                    if t < j {
                        assert(refs@[t] == refs@.drop_last()[t]);
                    }
                }
            }
            j += 1;
        }
        refs
    }

    /// What `connect` did when it created road `id`.
    pub open spec fn connected(
        &self,
        old_map: RoadMap,
        id: RoadID,
        src: IntersectionID,
        dst: IntersectionID,
        pattern: Seq<LaneSpec>,
        segment: RoadSegmentKind,
    ) -> bool {
        let r = self.road(id);
        &&& !old_map.has_road(id)
        &&& id.0 == old_map.road_store()@.len()
        &&& self.road_store()@.len() == old_map.road_store()@.len() + 1
        &&& self.has_road(id)
        &&& r.src == src
        &&& r.dst == dst
        &&& r.segment == segment
        &&& r.src_point == old_map.inter(src).pos
        &&& r.dst_point == old_map.inter(dst).pos
        &&& r.lanes@.map_values(|l: LaneRef| spec_of(l)) == pattern
        &&& forall|k: u64| #[trigger]
            old_map.road_store().has(k) ==> self.road_store().has(k) && self.road_store().at(k)
                == old_map.road_store().at(k)
        &&& forall|k: u64| #[trigger] self.road_store().has(k) ==> old_map.road_store().has(k) || k == id.0
        &&& self.inters()@.len() == old_map.inters()@.len()
        &&& forall|k: u64| #[trigger]
            self.inters().has(k) == old_map.inters().has(k)
        &&& forall|k: u64| #[trigger]
            old_map.inters().has(k) ==> self.inters().at(k).pos == old_map.inters().at(k).pos
        &&& forall|k: u64|
            k != src.0 && k != dst.0 && #[trigger] old_map.inters().has(k) ==> self.inters().at(k)
                == old_map.inters().at(k)
        &&& self.inter(src).roads@ == old_map.inter(src).roads@.push(id)
        &&& self.inter(dst).roads@ == old_map.inter(dst).roads@.push(id)
        &&& forall|k: u64| #[trigger]
            old_map.lane_store().has(k) ==> self.lane_store().has(k) && self.lane_store().at(k)
                == old_map.lane_store().at(k)
        &&& forall|k: u64| #[trigger]
            old_map.spot_store().has(k) ==> self.spot_store().has(k) && self.spot_store().at(k)
                == old_map.spot_store().at(k)
        &&& self.lane_store()@.len() >= old_map.lane_store()@.len()
        &&& self.spot_store()@.len() >= old_map.spot_store()@.len()
        &&& forall|k: u64| #[trigger]
            self.lane_store().has(k) && !old_map.lane_store().has(k) ==> k >= old_map.lane_store()@.len()
                && self.lane_store().at(k).parent == id
        &&& forall|k: u64| #[trigger]
            self.spot_store().has(k) && !old_map.spot_store().has(k) ==> k >= old_map.spot_store()@.len()
                && self.lane_store().has(self.spot_store().at(k).parent.0) && self.lane_store().at(
                self.spot_store().at(k).parent.0,
            ).parent == id
    }

    /// Creates a road from `src` to `dst` with the lanes of `pattern`, links it into both
    /// intersections and refreshes them. Absent or equal endpoints leave the map unchanged.
    pub fn connect(
        &mut self,
        src: IntersectionID,
        dst: IntersectionID,
        pattern: &LanePattern,
        segment: RoadSegmentKind,
    ) -> (r: Option<RoadID>)
        requires
            old(self).wf(),
            segment_ok(segment),
        ensures
            final(self).wf(),
            r is None <==> !(old(self).has_inter(src) && old(self).has_inter(dst) && src != dst),
            r is None ==> final(self).inters() == old(self).inters() && final(self).road_store()
                == old(self).road_store() && final(self).lane_store() == old(self).lane_store()
                && final(self).spot_store() == old(self).spot_store(),
            r is Some ==> final(self).is_dirty() && final(self).connected(
                *old(self),
                r->Some_0,
                src,
                dst,
                pattern.lanes@,
                segment,
            ),
    {
        if !self.intersections.contains(src.0) || !self.intersections.contains(dst.0) || src.0
            == dst.0 {
            return None;
        }
        let ghost o = *self;
        self.dirty = true;
        let road_key = self.roads.next_key();
        let id = RoadID(road_key);
        let ghost first = self.lanes@.len() as int;
        let ghost spots0 = self.parking@.len() as int;
        let refs = self.create_lanes(id, pattern);
        let ghost m1 = *self;
        let src_point = self.intersections.get(src.0).unwrap().pos;
        let dst_point = self.intersections.get(dst.0).unwrap().pos;
        let road = Road { id, src, dst, src_point, dst_point, segment, lanes: refs };
        let rk = self.roads.insert(road);
        assert(rk == road_key);
        let ghost m2 = *self;
        assert(!o.inters().at(src.0).roads@.contains(id)) by {
            if o.inters().at(src.0).roads@.contains(id) {
                let t = choose|t: int| 0 <= t < o.inters().at(src.0).roads@.len() && o.inters().at(src.0).roads@[t] == id;
                assert(o.inters().has(src.0));
                assert(o.inter_ok(src.0));
                assert(o.road_store().has(road_key));
            }
        }
        assert(!o.inters().at(dst.0).roads@.contains(id)) by {
            if o.inters().at(dst.0).roads@.contains(id) {
                let t = choose|t: int| 0 <= t < o.inters().at(dst.0).roads@.len() && o.inters().at(dst.0).roads@[t] == id;
                assert(o.inters().has(dst.0));
                assert(o.inter_ok(dst.0));
                assert(o.road_store().has(road_key));
            }
        }
        self.attach_road(src, id);
        let ghost m3 = *self;
        self.attach_road(dst, id);
        proof {
            let pat = pattern.lanes@;
            let n = pat.len();
            assert(self.lane_store() == m1.lane_store());
            assert(self.spot_store() == m1.spot_store());
            assert(self.road_store() == m2.road_store());
            // intersections: same keys, same ids and positions
            assert(m2.inters() == o.inters());
            assert(self.inters()@.len() == o.inters()@.len());
            assert forall|k: u64|
                k != src.0 && k != dst.0 && k < o.inters()@.len() implies #[trigger] self.inters()@[k as int] == o.inters()@[k as int] by {
                assert(self.inters()@[k as int] == m3.inters()@[k as int]);
                assert(m3.inters()@[k as int] == m2.inters()@[k as int]);
            }
            assert forall|k: u64| #[trigger] self.inters().has(k) == o.inters().has(k) by {
                if k != src.0 && k != dst.0 && k < o.inters()@.len() {
                    assert(self.inters()@[k as int] == o.inters()@[k as int]);
                }
            }
            assert forall|k: u64| #[trigger] o.inters().has(k) implies self.inters().at(k).pos
                == o.inters().at(k).pos && self.inters().at(k).id == o.inters().at(k).id by {
            }
            // old roads are kept unchanged, the new one is added
            assert forall|k: u64| #[trigger] o.road_store().has(k) implies self.road_store().has(k)
                && self.road_store().at(k) == o.road_store().at(k) by {
                assert(k < road_key);
                assert(self.road_store()@[k as int] == o.road_store()@[k as int]);
            }
            assert forall|k: u64| #[trigger] self.road_store().has(k) implies o.road_store().has(k)
                || k == road_key by {
                if k != road_key {
                    assert(self.road_store()@[k as int] == o.road_store()@[k as int]);
                }
            }
            assert forall|k: u64| #[trigger] o.lane_store().has(k) implies self.lane_store().has(k)
                && self.lane_store().at(k) == o.lane_store().at(k) by {
                assert(self.lane_store()@[k as int] == o.lane_store()@[k as int]);
            }
            assert forall|k: u64| #[trigger] o.spot_store().has(k) implies self.spot_store().has(k)
                && self.spot_store().at(k) == o.spot_store().at(k) by {
                assert(self.spot_store()@[k as int] == o.spot_store()@[k as int]);
            }
            assert forall|j: int| 0 <= j < n implies #[trigger] self.new_lane_ok(id, pat, first, j) by {
                assert(m1.new_lane_ok(id, pat, first, j));
            }
            let road = self.road(id);
            assert(road.lanes@ == refs@);
            assert(road.lanes@.map_values(|l: LaneRef| spec_of(l)) =~= pat);
            // a lane is either old or one of the new road's
            assert forall|k: u64| #[trigger] self.lane_store().has(k) implies o.lane_store().has(k)
                || (first <= k < first + n && self.new_lane_ok(id, pat, first, k - first)) by {
                if k >= first {
                    assert(k < first + n);
                    assert(self.new_lane_ok(id, pat, first, k - first));
                } else {
                    assert(self.lane_store()@[k as int] == o.lane_store()@[k as int]);
                }
            }
            // ids
            assert(self.ids_ok()) by {
                assert forall|k: u64| #[trigger] self.lane_store().has(k) implies self.lane_store().at(k).id
                    == LaneID(k) by {
                    if !o.lane_store().has(k) {
                        assert(self.new_lane_ok(id, pat, first, k - first));
                    }
                }
                assert forall|k: u64| #[trigger] self.spot_store().has(k) implies self.spot_store().at(k).id
                    == ParkingSpotID(k) by {
                    if k >= spots0 {
                        assert(spots0 <= k < m1.spot_store()@.len());
                        let sp = m1.spot_store().at(k);
                        assert(sp.id == ParkingSpotID(k));
                    } else {
                        assert(self.spot_store()@[k as int] == o.spot_store()@[k as int]);
                        assert(o.spot_store().has(k));
                    }
                }
                assert forall|k: u64| #[trigger] self.road_store().has(k) implies self.road_store().at(k).id
                    == RoadID(k) by {
                }
            }
            assert forall|k: u64| #[trigger] self.road_store().has(k) implies self.road_ok(k) && self.geometry_ok(k) by {
                if k == road_key {
                    assert forall|j: int| 0 <= j < road.lanes@.len() implies {
                        let l = #[trigger] road.lanes@[j];
                        &&& self.has_lane(l.id)
                        &&& self.lane(l.id).parent == RoadID(k)
                        &&& self.lane(l.id).kind == l.kind
                        &&& self.lane(l.id).direction == l.direction
                    } by {
                        assert(self.new_lane_ok(id, pat, first, j));
                    }
                    assert(self.inter(src).roads@.last() == id);
                    assert(self.inter(dst).roads@.last() == id);
                } else {
                    assert(o.road_store().has(k));
                    assert(o.road_ok(k));
                    assert(o.geometry_ok(k));
                    let r = o.road_store().at(k);
                    assert(o.inter(r.src).roads@.contains(RoadID(k)));
                    assert(o.inter(r.dst).roads@.contains(RoadID(k)));
                    if r.src == src || r.src == dst {
                        let t = choose|t: int| 0 <= t < o.inter(r.src).roads@.len() && o.inter(r.src).roads@[t] == RoadID(k);
                        assert(self.inter(r.src).roads@[t] == RoadID(k));
                    }
                    if r.dst == src || r.dst == dst {
                        let t = choose|t: int| 0 <= t < o.inter(r.dst).roads@.len() && o.inter(r.dst).roads@[t] == RoadID(k);
                        assert(self.inter(r.dst).roads@[t] == RoadID(k));
                    }
                    assert forall|j: int| 0 <= j < r.lanes@.len() implies {
                        let l = #[trigger] r.lanes@[j];
                        &&& self.has_lane(l.id)
                        &&& self.lane(l.id).parent == RoadID(k)
                        &&& self.lane(l.id).kind == l.kind
                        &&& self.lane(l.id).direction == l.direction
                    } by {
                        let l = r.lanes@[j];
                        assert(o.has_lane(l.id));
                    }
                }
            }
            assert forall|k: u64| #[trigger] self.inters().has(k) implies self.inter_ok(k) && self.derived_ok(k) by {
                assert(o.inters().has(k));
                assert(o.inter_ok(k));
                assert(o.derived_ok(k));
                let ol = o.inters().at(k).roads@;
                let nl = self.inters().at(k).roads@;
                if k == src.0 || k == dst.0 {
                    assert(nl == ol.push(id));
                    assert forall|j: int| 0 <= j < nl.len() implies {
                        let r = #[trigger] nl[j];
                        &&& self.has_road(r)
                        &&& (self.road(r).src == IntersectionID(k) || self.road(r).dst == IntersectionID(k))
                    } by {
                        if j < ol.len() {
                            assert(nl[j] == ol[j]);
                            assert(o.road_store().has(ol[j].0));
                        }
                    }
                    assert forall|a: int, c: int| 0 <= a < nl.len() && 0 <= c < nl.len() && a != c implies nl[a] != nl[c] by {
                        if a == ol.len() {
                            assert(nl[c] == ol[c]);
                            assert(ol.contains(ol[c]));
                        } else if c == ol.len() {
                            assert(nl[a] == ol[a]);
                            assert(ol.contains(ol[a]));
                        } else {
                            assert(nl[a] == ol[a]);
                            assert(nl[c] == ol[c]);
                        }
                    }
                } else {
                    assert(nl == ol);
                    assert forall|j: int| 0 <= j < nl.len() implies {
                        let r = #[trigger] nl[j];
                        &&& self.has_road(r)
                        &&& (self.road(r).src == IntersectionID(k) || self.road(r).dst == IntersectionID(k))
                    } by {
                        assert(o.road_store().has(ol[j].0));
                    }
                }
            }
            assert forall|k: u64| #[trigger] self.lane_store().has(k) implies self.lane_ok(k) by {
                if o.lane_store().has(k) {
                    assert(o.lane_ok(k));
                    let l = o.lane_store().at(k);
                    assert(o.road_store().has(l.parent.0));
                    if l.spot is Some {
                        assert(o.spot_store().has(l.spot->Some_0.0));
                    }
                } else {
                    let j = k - first;
                    assert(self.new_lane_ok(id, pat, first, j));
                    assert(road.lanes@[j] == refs@[j]);
                    assert(road.lanes@.contains(road.lanes@[j]));
                }
            }
            assert forall|k: u64| #[trigger] self.spot_store().has(k) implies self.spot_ok(k) by {
                if k < spots0 {
                    assert(self.spot_store()@[k as int] == o.spot_store()@[k as int]);
                    assert(o.spot_store().has(k));
                    assert(o.spot_ok(k));
                    assert(o.lane_store().has(o.spot_store().at(k).parent.0));
                } else {
                    let sp = m1.spot_store().at(k);
                    assert(self.lane_store().at(sp.parent.0).spot == Some(ParkingSpotID(k)));
                    assert(self.new_lane_ok(id, pat, first, sp.parent.0 - first));
                }
            }
            assert forall|k: u64| #[trigger] self.lane_store().has(k) && !o.lane_store().has(k) implies k
                >= o.lane_store()@.len() && self.lane_store().at(k).parent == id by {
                if k < first {
                    assert(self.lane_store()@[k as int] == o.lane_store()@[k as int]);
                } else {
                    assert(self.new_lane_ok(id, pat, first, k - first));
                }
            }
            assert forall|k: u64| #[trigger] self.spot_store().has(k) && !o.spot_store().has(k) implies k
                >= o.spot_store()@.len() && self.lane_store().has(self.spot_store().at(k).parent.0)
                && self.lane_store().at(self.spot_store().at(k).parent.0).parent == id by {
                if k < spots0 {
                    assert(self.spot_store()@[k as int] == o.spot_store()@[k as int]);
                } else {
                    let sp = m1.spot_store().at(k);
                    assert(spots0 <= k < m1.spot_store()@.len());
                    assert(self.new_lane_ok(id, pat, first, sp.parent.0 - first));
                }
            }
        }
        Some(id)
    }

    /// `connect` with a straight segment.
    pub fn connect_straight(
        &mut self,
        src: IntersectionID,
        dst: IntersectionID,
        pattern: &LanePattern,
    ) -> (r: Option<RoadID>)
        requires
            old(self).wf(),
        ensures
            final(self).wf(),
            r is None <==> !(old(self).has_inter(src) && old(self).has_inter(dst) && src != dst),
            r is None ==> final(self).inters() == old(self).inters() && final(self).road_store()
                == old(self).road_store() && final(self).lane_store() == old(self).lane_store()
                && final(self).spot_store() == old(self).spot_store(),
            r is Some ==> final(self).is_dirty() && final(self).connected(
                *old(self),
                r->Some_0,
                src,
                dst,
                pattern.lanes@,
                RoadSegmentKind::Straight,
            ),
    {
        self.connect(src, dst, pattern, RoadSegmentKind::Straight)
    }

    /// What `remove_road` did when it removed road `id`.
    pub open spec fn road_removed(&self, old_map: RoadMap, id: RoadID) -> bool {
        &&& !self.has_road(id)
        &&& self.road_store()@.len() == old_map.road_store()@.len()
        &&& self.lane_store()@.len() == old_map.lane_store()@.len()
        &&& self.spot_store()@.len() == old_map.spot_store()@.len()
        &&& forall|k: u64| #[trigger]
            self.road_store().has(k) == (old_map.road_store().has(k) && k != id.0)
        &&& forall|k: u64| #[trigger]
            self.road_store().has(k) ==> self.road_store().at(k) == old_map.road_store().at(k)
        &&& forall|k: u64| #[trigger]
            self.lane_store().has(k) == (old_map.lane_store().has(k) && old_map.lane_store().at(
                k,
            ).parent != id)
        &&& forall|k: u64| #[trigger]
            self.lane_store().has(k) ==> self.lane_store().at(k) == old_map.lane_store().at(k)
        &&& forall|k: u64| #[trigger]
            self.spot_store().has(k) == (old_map.spot_store().has(k) && self.lane_store().has(
                old_map.spot_store().at(k).parent.0,
            ))
        &&& forall|k: u64| #[trigger]
            self.spot_store().has(k) ==> self.spot_store().at(k) == old_map.spot_store().at(k)
        &&& forall|k: u64| #[trigger] self.inters().has(k) == old_map.inters().has(k)
        &&& forall|k: u64|
            #[trigger] old_map.inters().has(k) && k != old_map.road(id).src.0 && k != old_map.road(
                id,
            ).dst.0 ==> self.inters().at(k) == old_map.inters().at(k)
        &&& forall|k: u64| #[trigger]
            old_map.inters().has(k) ==> {
                let n = self.inters().at(k);
                let o = old_map.inters().at(k);
                &&& n.id == o.id
                &&& n.pos == o.pos
                &&& forall|x: RoadID| n.roads@.contains(x) <==> o.roads@.contains(x) && x != id
            }
    }

    /// Removes a road with its lanes and their parking spots, and refreshes both
    /// endpoints. An absent road leaves the map unchanged.
    pub fn remove_road(&mut self, id: RoadID) -> (r: Option<Road>)
        requires
            old(self).wf(),
        ensures
            final(self).wf(),
            r is None <==> !old(self).has_road(id),
            r is None ==> final(self).inters() == old(self).inters() && final(self).road_store()
                == old(self).road_store() && final(self).lane_store() == old(self).lane_store()
                && final(self).spot_store() == old(self).spot_store(),
            r is Some ==> r->Some_0 == old(self).road(id) && final(self).is_dirty()
                && final(self).road_removed(*old(self), id),
    {
        if !self.roads.contains(id.0) {
            return None;
        }
        let ghost o = *self;
        let road = self.roads.remove(id.0).unwrap();
        self.dirty = true;
        assert(o.road_store().has(id.0));
        assert(o.road_ok(id.0));
        assert forall|k: u64| #[trigger]
            self.parking.has(k) == (o.parking.has(k) && self.lanes.has(o.parking.at(k).parent.0)) by {
            if o.parking.has(k) {
                assert(o.spot_ok(k));
            }
        }
        let mut j: usize = 0;
        while j < road.lanes.len()
            invariant
                o.wf(),
                road == o.road(id),
                o.road_ok(id.0),
                j <= road.lanes@.len(),
                self.intersections == o.intersections,
                self.dirty,
                self.roads@ == o.roads@.update(id.0 as int, None),
                self.lanes@.len() == o.lanes@.len(),
                self.parking@.len() == o.parking@.len(),
                forall|k: u64| #[trigger]
                    self.lanes.has(k) == (o.lanes.has(k) && !(exists|t: int|
                        0 <= t < j && road.lanes@[t].id.0 == k)),
                forall|k: u64| #[trigger] self.lanes.has(k) ==> self.lanes.at(k) == o.lanes.at(k),
                forall|k: u64| #[trigger]
                    self.parking.has(k) == (o.parking.has(k) && self.lanes.has(o.parking.at(k).parent.0)),
                forall|k: u64| #[trigger] self.parking.has(k) ==> self.parking.at(k) == o.parking.at(k),
            decreases road.lanes@.len() - j,
        {
            let lid = road.lanes[j].id;
            let ghost prev = *self;
            let removed = self.lanes.remove(lid.0);
            match removed {
                Some(l) => {
                    match l.spot {
                        Some(sp) => {
                            self.parking.remove(sp.0);
                        },
                        None => {},
                    }
                },
                None => {},
            }
            proof {
                assert forall|k: u64| #[trigger]
                    self.lanes.has(k) == (o.lanes.has(k) && !(exists|t: int|
                        0 <= t < j + 1 && road.lanes@[t].id.0 == k)) by {
                    if k == lid.0 {
                        assert(road.lanes@[j as int].id.0 == k);
                    } else if k < self.lanes@.len() {
                        assert(self.lanes@[k as int] == prev.lanes@[k as int]);
                        assert(prev.lanes.has(k) == self.lanes.has(k));
                        if exists|t: int| 0 <= t < j + 1 && road.lanes@[t].id.0 == k {
                            let t = choose|t: int| 0 <= t < j + 1 && road.lanes@[t].id.0 == k;
                            assert(t < j);
                        }
                    }
                }
                assert forall|k: u64| #[trigger] self.lanes.has(k) implies self.lanes.at(k) == o.lanes.at(k) by {
                    assert(self.lanes@[k as int] == prev.lanes@[k as int]);
                    assert(prev.lanes.has(k));
                }
                let gone: Option<u64> = if removed is Some && removed->Some_0.spot is Some {
                    Some(removed->Some_0.spot->Some_0.0)
                } else {
                    None
                };
                assert forall|k: u64| #[trigger]
                    self.parking.has(k) == (prev.parking.has(k) && gone != Some(k)) by {
                    if k < self.parking@.len() && gone != Some(k) {
                        assert(self.parking@[k as int] == prev.parking@[k as int]);
                    }
                }
                assert forall|k: u64| #[trigger]
                    self.parking.has(k) == (o.parking.has(k) && self.lanes.has(o.parking.at(k).parent.0)) by {
                    let p = o.parking.at(k).parent.0;
                    assert(prev.parking.has(k) == (o.parking.has(k) && prev.lanes.has(p)));
                    if p != lid.0 {
                        if p < self.lanes@.len() {
                            assert(self.lanes@[p as int] == prev.lanes@[p as int]);
                        }
                        if gone == Some(k) {
                            let l = removed->Some_0;
                            assert(prev.lanes.has(lid.0));
                            assert(l == o.lanes.at(lid.0));
                            assert(o.lane_store().has(lid.0));
                            assert(o.lane_ok(lid.0));
                        }
                    } else {
                        if prev.parking.has(k) {
                            assert(o.spot_ok(k));
                            assert(prev.lanes.at(lid.0) == o.lanes.at(lid.0));
                        }
                    }
                }
                assert forall|k: u64| #[trigger] self.parking.has(k) implies self.parking.at(k) == o.parking.at(k) by {
                    assert(self.parking@[k as int] == prev.parking@[k as int]);
                    assert(prev.parking.has(k));
                }
            }
            j += 1;
        }
        let ghost m1 = *self;
        assert(o.inters().has(road.src.0) && o.inter_ok(road.src.0));
        assert(o.inters().has(road.dst.0) && o.inter_ok(road.dst.0));
        self.detach_road(road.src, id);
        let ghost m2 = *self;
        self.detach_road(road.dst, id);
        proof {
            let src = road.src;
            let dst = road.dst;
            assert(self.lane_store() == m1.lane_store());
            assert forall|k: u64| #[trigger] self.lane_store().has(k) implies self.lane_store().at(k)
                == o.lane_store().at(k) by {
                assert(m1.lanes.has(k));
            }
            assert forall|k: u64| #[trigger] self.spot_store().has(k) implies self.spot_store().at(k)
                == o.spot_store().at(k) by {
                assert(m1.parking.has(k));
            }
            assert forall|k: u64| #[trigger] self.spot_store().has(k) == (o.spot_store().has(k)
                && self.lane_store().has(o.spot_store().at(k).parent.0)) by {
                assert(m1.parking.has(k) == (o.parking.has(k) && m1.lanes.has(o.parking.at(k).parent.0)));
            }
            assert(self.spot_store() == m1.spot_store());
            assert(self.road_store() == m1.road_store());
            assert(m1.inters() == o.inters());
            assert(self.inters()@.len() == o.inters()@.len());
            assert forall|k: u64|
                k != src.0 && k != dst.0 && k < o.inters()@.len() implies #[trigger] self.inters()@[k as int]
                    == o.inters()@[k as int] by {
                assert(self.inters()@[k as int] == m2.inters()@[k as int]);
                assert(m2.inters()@[k as int] == m1.inters()@[k as int]);
            }
            assert forall|k: u64| #[trigger] self.inters().has(k) == o.inters().has(k) by {
                if k != src.0 && k != dst.0 && k < o.inters()@.len() {
                    assert(self.inters()@[k as int] == o.inters()@[k as int]);
                }
            }
            // lanes that stay are exactly those of other roads
            assert forall|k: u64| #[trigger]
                self.lane_store().has(k) == (o.lane_store().has(k) && o.lane_store().at(k).parent != id) by {
                assert(m1.lanes.has(k) == (o.lanes.has(k) && !(exists|t: int|
                    0 <= t < road.lanes@.len() && road.lanes@[t].id.0 == k)));
                if o.lane_store().has(k) {
                    assert(o.lane_ok(k));
                    let l = o.lane_store().at(k);
                    if l.parent == id {
                        let rf = LaneRef { id: LaneID(k), kind: l.kind, direction: l.direction };
                        let t = choose|t: int| 0 <= t < road.lanes@.len() && road.lanes@[t] == rf;
                        assert(road.lanes@[t].id.0 == k);
                    } else {
                        if exists|t: int| 0 <= t < road.lanes@.len() && road.lanes@[t].id.0 == k {
                            let t = choose|t: int| 0 <= t < road.lanes@.len() && road.lanes@[t].id.0 == k;
                            let rl = road.lanes@[t];
                            assert(o.lane(rl.id).parent == id);
                        }
                    }
                }
            }
            assert forall|k: u64| #[trigger] self.road_store().has(k) == (o.road_store().has(k) && k != id.0) by {
                if k != id.0 && k < o.road_store()@.len() {
                    assert(self.road_store()@[k as int] == o.road_store()@[k as int]);
                }
            }
            assert forall|k: u64| #[trigger] self.road_store().has(k) implies self.road_store().at(k)
                == o.road_store().at(k) by {
                assert(self.road_store()@[k as int] == o.road_store()@[k as int]);
            }
            assert forall|k: u64| #[trigger] o.inters().has(k) implies {
                let n = self.inters().at(k);
                let oi = o.inters().at(k);
                &&& n.id == oi.id
                &&& n.pos == oi.pos
                &&& forall|x: RoadID| n.roads@.contains(x) <==> oi.roads@.contains(x) && x != id
            } by {
                let n = self.inters().at(k);
                let oi = o.inters().at(k);
                if k == src.0 || k == dst.0 {
                } else {
                    assert(self.inters()@[k as int] == o.inters()@[k as int]);
                    assert forall|x: RoadID| n.roads@.contains(x) implies x != id by {
                        assert(o.inter_ok(k));
                        let t = choose|t: int| 0 <= t < n.roads@.len() && n.roads@[t] == x;
                        assert(o.road_store().has(oi.roads@[t].0));
                    }
                }
            }
            assert forall|k: u64|
                #[trigger] o.inters().has(k) && k != src.0 && k != dst.0 implies self.inters().at(k)
                    == o.inters().at(k) by {
                assert(self.inters()@[k as int] == o.inters()@[k as int]);
            }
            assert(self.road_removed(o, id));
            // consistency
            assert(self.ids_ok()) by {
                assert forall|k: u64| #[trigger] self.inters().has(k) implies self.inters().at(k).id
                    == IntersectionID(k) && self.inters().at(k).pos.in_world() by {
                }
                assert forall|k: u64| #[trigger] self.lane_store().has(k) implies self.lane_store().at(k).id
                    == LaneID(k) by {
                }
                assert forall|k: u64| #[trigger] self.spot_store().has(k) implies self.spot_store().at(k).id
                    == ParkingSpotID(k) by {
                }
                assert forall|k: u64| #[trigger] self.road_store().has(k) implies self.road_store().at(k).id
                    == RoadID(k) by {
                }
            }
            assert forall|k: u64| #[trigger] self.road_store().has(k) implies self.road_ok(k) && self.geometry_ok(k) by {
                assert(o.road_store().has(k));
                assert(o.road_ok(k));
                assert(o.geometry_ok(k));
                let r = o.road_store().at(k);
                assert(o.inters().has(r.src.0) && o.inters().has(r.dst.0));
                assert forall|j: int| 0 <= j < r.lanes@.len() implies {
                    let l = #[trigger] r.lanes@[j];
                    &&& self.has_lane(l.id)
                    &&& self.lane(l.id).parent == RoadID(k)
                    &&& self.lane(l.id).kind == l.kind
                    &&& self.lane(l.id).direction == l.direction
                } by {
                    let l = r.lanes@[j];
                    assert(o.lane_store().has(l.id.0));
                    assert(o.lane(l.id).parent == RoadID(k));
                    assert(self.lane_store().has(l.id.0));
                }
            }
            assert forall|k: u64| #[trigger] self.inters().has(k) implies self.inter_ok(k) && self.derived_ok(k) by {
                assert(o.inters().has(k));
                assert(o.inter_ok(k));
                assert(o.derived_ok(k));
                let nl = self.inters().at(k).roads@;
                let ol = o.inters().at(k).roads@;
                if k != src.0 && k != dst.0 {
                    assert(self.inters()@[k as int] == o.inters()@[k as int]);
                }
                assert forall|j: int| 0 <= j < nl.len() implies {
                    let r = #[trigger] nl[j];
                    &&& self.has_road(r)
                    &&& (self.road(r).src == IntersectionID(k) || self.road(r).dst == IntersectionID(k))
                } by {
                    let x = nl[j];
                    assert(nl.contains(x));
                    assert(ol.contains(x) && x != id);
                    let t = choose|t: int| 0 <= t < ol.len() && ol[t] == x;
                    assert(o.road_store().has(ol[t].0));
                }
            }
            assert forall|k: u64| #[trigger] self.lane_store().has(k) implies self.lane_ok(k) by {
                assert(o.lane_store().has(k));
                assert(o.lane_ok(k));
                let l = o.lane_store().at(k);
                assert(self.lane_store().at(k) == l);
                assert(o.road_store().has(l.parent.0));
                assert(l.parent != id);
                assert(self.road_store().has(l.parent.0));
                assert(self.road(l.parent) == o.road(l.parent));
                if l.spot is Some {
                    let sk = l.spot->Some_0.0;
                    assert(o.spot_store().has(sk));
                    assert(o.spot_store().at(sk).parent == LaneID(k));
                    assert(self.spot_store().has(sk));
                    assert(self.spot_store().at(sk) == o.spot_store().at(sk));
                }
            }
            assert forall|k: u64| #[trigger] self.spot_store().has(k) implies self.spot_ok(k) by {
                assert(o.spot_store().has(k));
                assert(o.spot_ok(k));
            }
        }
        Some(road)
    }

    /// Removes an intersection and, first, every road that ends there.
    /// An absent intersection leaves the map unchanged.
    pub fn remove_intersection(&mut self, id: IntersectionID)
        requires
            old(self).wf(),
        ensures
            final(self).wf(),
            !old(self).has_inter(id) ==> final(self).inters() == old(self).inters()
                && final(self).road_store() == old(self).road_store() && final(self).lane_store()
                == old(self).lane_store() && final(self).spot_store() == old(self).spot_store(),
            old(self).has_inter(id) ==> final(self).is_dirty(),
            !final(self).has_inter(id),
            forall|k: u64| #[trigger]
                final(self).inters().has(k) == (old(self).inters().has(k) && k != id.0),
            forall|k: u64| #[trigger]
                final(self).inters().has(k) ==> final(self).inters().at(k).pos == old(self).inters().at(
                    k,
                ).pos,
            forall|k: u64| #[trigger]
                final(self).road_store().has(k) == (old(self).road_store().has(k)
                    && old(self).road_store().at(k).src != id && old(self).road_store().at(k).dst
                    != id),
            forall|k: u64| #[trigger]
                final(self).lane_store().has(k) == (old(self).lane_store().has(k)
                    && final(self).road_store().has(old(self).lane_store().at(k).parent.0)),
            forall|k: u64| #[trigger]
                final(self).road_store().has(k) ==> final(self).road_store().at(k) == old(
                    self,
                ).road_store().at(k),
            forall|k: u64| #[trigger]
                final(self).lane_store().has(k) ==> final(self).lane_store().at(k) == old(
                    self,
                ).lane_store().at(k),
            forall|k: u64| #[trigger]
                final(self).spot_store().has(k) == (old(self).spot_store().has(k)
                    && final(self).lane_store().has(old(self).spot_store().at(k).parent.0)),
            forall|k: u64| #[trigger]
                final(self).spot_store().has(k) ==> final(self).spot_store().at(k) == old(
                    self,
                ).spot_store().at(k),
            forall|k: u64|
                #[trigger] final(self).inters().has(k) ==> final(self).inters().at(k).id == old(
                    self,
                ).inters().at(k).id && forall|x: RoadID|
                    #[trigger] final(self).inters().at(k).roads@.contains(x) <==> (old(
                        self,
                    ).inters().at(k).roads@.contains(x) && final(self).has_road(x)),
    {
        if !self.intersections.contains(id.0) {
            return;
        }
        let ghost o = *self;
        assert(o.inters().has(id.0) && o.inter_ok(id.0));
        let roads = copy_ids(&self.intersections.get(id.0).unwrap().roads);
        self.dirty = true;
        proof {
            RoadMap::lemma_same_stores(o, *self);
            assert forall|k: u64| #[trigger]
                self.spot_store().has(k) == (o.spot_store().has(k) && self.lane_store().has(
                    o.spot_store().at(k).parent.0,
                )) by {
                if o.spot_store().has(k) {
                    assert(o.spot_ok(k));
                }
            }
            assert forall|k: u64|
                #[trigger] self.inters().has(k) implies self.inters().at(k).id == o.inters().at(k).id
                    && forall|x: RoadID|
                    #[trigger] self.inters().at(k).roads@.contains(x) <==> (o.inters().at(
                        k,
                    ).roads@.contains(x) && self.has_road(x)) by {
                assert(o.inter_ok(k));
                assert forall|x: RoadID| #[trigger] self.inters().at(k).roads@.contains(x) implies self.has_road(x) by {
                    let t = choose|t: int| 0 <= t < self.inters().at(k).roads@.len() && self.inters().at(k).roads@[t] == x;
                }
            }
        }
        let mut j: usize = 0;
        while j < roads.len()
            invariant
                o.wf(),
                o.inter_ok(id.0),
                o.inters().has(id.0),
                roads@ == o.inter(id).roads@,
                j <= roads@.len(),
                self.wf(),
                self.dirty,
                self.inters().has(id.0),
                forall|k: u64| #[trigger] self.inters().has(k) == o.inters().has(k),
                forall|k: u64| #[trigger]
                    self.inters().has(k) ==> self.inters().at(k).pos == o.inters().at(k).pos,
                forall|x: RoadID|
                    #[trigger] self.inter(id).roads@.contains(x) ==> exists|t: int|
                        j <= t < roads@.len() && roads@[t] == x,
                forall|k: u64| #[trigger]
                    self.road_store().has(k) == (o.road_store().has(k) && !(exists|t: int|
                        0 <= t < j && roads@[t].0 == k)),
                forall|k: u64| #[trigger]
                    self.lane_store().has(k) == (o.lane_store().has(k) && self.road_store().has(
                        o.lane_store().at(k).parent.0,
                    )),
                forall|k: u64| #[trigger]
                    self.lane_store().has(k) ==> self.lane_store().at(k) == o.lane_store().at(k),
                forall|k: u64| #[trigger]
                    self.road_store().has(k) ==> self.road_store().at(k) == o.road_store().at(k),
                forall|k: u64| #[trigger]
                    self.spot_store().has(k) == (o.spot_store().has(k) && self.lane_store().has(
                        o.spot_store().at(k).parent.0,
                    )),
                forall|k: u64| #[trigger]
                    self.spot_store().has(k) ==> self.spot_store().at(k) == o.spot_store().at(k),
                forall|k: u64|
                    #[trigger] self.inters().has(k) ==> self.inters().at(k).id == o.inters().at(k).id
                        && forall|x: RoadID|
                        #[trigger] self.inters().at(k).roads@.contains(x) <==> (o.inters().at(
                            k,
                        ).roads@.contains(x) && self.has_road(x)),
            decreases roads@.len() - j,
        {
            let ghost prev = *self;
            let rid = roads[j];
            let _ = self.remove_road(rid);
            proof {
                if prev.has_road(rid) {
                    assert forall|k: u64| #[trigger]
                        self.road_store().has(k) implies self.road_store().at(k) == o.road_store().at(k) by {
                        assert(prev.road_store().has(k));
                    }
                    assert forall|k: u64| #[trigger]
                        self.spot_store().has(k) == (o.spot_store().has(k) && self.lane_store().has(
                            o.spot_store().at(k).parent.0,
                        )) by {
                        assert(prev.spot_store().has(k) == (o.spot_store().has(k) && prev.lane_store().has(
                            o.spot_store().at(k).parent.0,
                        )));
                        let p = o.spot_store().at(k).parent.0;
                        if self.lane_store().has(p) {
                            assert(prev.lane_store().has(p));
                        }
                        if prev.spot_store().has(k) {
                            assert(prev.spot_store().at(k) == o.spot_store().at(k));
                        }
                    }
                    assert forall|k: u64| #[trigger]
                        self.spot_store().has(k) implies self.spot_store().at(k) == o.spot_store().at(k) by {
                        assert(prev.spot_store().has(k));
                    }
                    assert forall|k: u64|
                        #[trigger] self.inters().has(k) implies self.inters().at(k).id == o.inters().at(k).id
                            && forall|x: RoadID|
                            #[trigger] self.inters().at(k).roads@.contains(x) <==> (o.inters().at(
                                k,
                            ).roads@.contains(x) && self.has_road(x)) by {
                        assert(prev.inters().has(k));
                        assert forall|x: RoadID| #[trigger] self.inters().at(k).roads@.contains(x) <==> (o.inters().at(
                                k,
                            ).roads@.contains(x) && self.has_road(x)) by {
                            assert(self.inters().at(k).roads@.contains(x) <==> prev.inters().at(k).roads@.contains(x) && x != rid);
                            assert(prev.inters().at(k).roads@.contains(x) <==> (o.inters().at(k).roads@.contains(x) && prev.has_road(x)));
                            assert(self.road_store().has(x.0) == (prev.road_store().has(x.0) && x.0 != rid.0));
                        }
                    }
                }
                assert forall|x: RoadID|
                    #[trigger] self.inter(id).roads@.contains(x) implies exists|t: int|
                        j + 1 <= t < roads@.len() && roads@[t] == x by {
                    if prev.has_road(rid) {
                        assert(prev.inter(id).roads@.contains(x));
                    } else {
                        assert(prev.inter(id).roads@.contains(x));
                        assert(prev.inter_ok(id.0));
                        let w = choose|w: int| 0 <= w < prev.inter(id).roads@.len() && prev.inter(id).roads@[w] == x;
                        assert(prev.has_road(x));
                    }
                    let t = choose|t: int| j <= t < roads@.len() && roads@[t] == x;
                    if t == j {
                        if prev.has_road(rid) {
                        } else {
                            assert(prev.has_road(x));
                        }
                    }
                }
                assert forall|k: u64| #[trigger]
                    self.lane_store().has(k) == (o.lane_store().has(k) && self.road_store().has(
                        o.lane_store().at(k).parent.0,
                    )) by {
                    assert(prev.lane_store().has(k) == (o.lane_store().has(k) && prev.road_store().has(
                        o.lane_store().at(k).parent.0,
                    )));
                    let p = o.lane_store().at(k).parent.0;
                    assert(prev.road_store().has(p) ==> (self.road_store().has(p) == (p != rid.0)));
                    if prev.lane_store().has(k) {
                        assert(prev.lane_store().at(k) == o.lane_store().at(k));
                    }
                }
                assert forall|k: u64| #[trigger]
                    self.lane_store().has(k) implies self.lane_store().at(k) == o.lane_store().at(k) by {
                    assert(prev.lane_store().has(k));
                }
                assert forall|k: u64| #[trigger]
                    self.road_store().has(k) == (o.road_store().has(k) && !(exists|t: int|
                        0 <= t < j + 1 && roads@[t].0 == k)) by {
                    assert(prev.road_store().has(k) == (o.road_store().has(k) && !(exists|t: int|
                        0 <= t < j && roads@[t].0 == k)));
                    if k == rid.0 {
                        assert(roads@[j as int].0 == k);
                    } else {
                        if exists|t: int| 0 <= t < j + 1 && roads@[t].0 == k {
                            let t = choose|t: int| 0 <= t < j + 1 && roads@[t].0 == k;
                            assert(t != j);
                        }
                    }
                }
            }
            j += 1;
        }
        let ghost m = *self;
        assert(self.inter(id).roads@.len() == 0) by {
            if self.inter(id).roads@.len() > 0 {
                assert(self.inter(id).roads@.contains(self.inter(id).roads@[0]));
            }
        }
        self.intersections.remove(id.0);
        proof {
            assert forall|k: u64| #[trigger] self.inters().has(k) == (m.inters().has(k) && k != id.0) by {
                if k != id.0 && k < m.inters()@.len() {
                    assert(self.inters()@[k as int] == m.inters()@[k as int]);
                }
            }
            assert forall|k: u64| #[trigger] self.inters().has(k) implies self.inters().at(k) == m.inters().at(k) by {
                assert(self.inters()@[k as int] == m.inters()@[k as int]);
            }
            assert forall|k: u64|
                #[trigger] self.inters().has(k) implies self.inters().at(k).id == o.inters().at(k).id
                    && forall|x: RoadID|
                    #[trigger] self.inters().at(k).roads@.contains(x) <==> (o.inters().at(
                        k,
                    ).roads@.contains(x) && self.has_road(x)) by {
                assert(m.inters().has(k));
            }
            assert forall|k: u64| #[trigger] self.road_store().has(k) implies self.road_ok(k) && self.geometry_ok(k) by {
                assert(m.road_ok(k));
                assert(m.geometry_ok(k));
                let r = m.road_store().at(k);
                if r.src == id {
                    assert(m.inter(id).roads@.contains(RoadID(k)));
                }
                if r.dst == id {
                    assert(m.inter(id).roads@.contains(RoadID(k)));
                }
            }
            assert forall|k: u64| #[trigger] self.inters().has(k) implies self.inter_ok(k) && self.derived_ok(k) && self.inters().at(k).id == IntersectionID(k) && self.inters().at(k).pos.in_world() by {
                assert(m.inters().has(k));
                assert(m.inter_ok(k));
                assert(m.derived_ok(k));
            }
            assert forall|k: u64| #[trigger] self.lane_store().has(k) implies self.lane_ok(k) by {
                assert(m.lane_ok(k));
            }
            assert forall|k: u64| #[trigger] self.spot_store().has(k) implies self.spot_ok(k) by {
                assert(m.spot_ok(k));
            }
            assert forall|k: u64| #[trigger]
                self.lane_store().has(k) == (o.lane_store().has(k) && self.road_store().has(
                    o.lane_store().at(k).parent.0,
                )) by {
                assert(m.lane_store().has(k) == (o.lane_store().has(k) && m.road_store().has(
                    o.lane_store().at(k).parent.0,
                )));
            }
            assert forall|k: u64| #[trigger]
                self.road_store().has(k) == (o.road_store().has(k) && o.road_store().at(k).src != id
                    && o.road_store().at(k).dst != id) by {
                if o.road_store().has(k) {
                    assert(o.road_ok(k));
                    let r = o.road_store().at(k);
                    if r.src == id || r.dst == id {
                        assert(o.inter(id).roads@.contains(RoadID(k)));
                        let t = choose|t: int| 0 <= t < roads@.len() && roads@[t] == RoadID(k);
                        assert(roads@[t].0 == k);
                    } else {
                        if exists|t: int| 0 <= t < roads@.len() && roads@[t].0 == k {
                            let t = choose|t: int| 0 <= t < roads@.len() && roads@[t].0 == k;
                            assert(o.inter_ok(id.0));
                            assert(o.road(roads@[t]).src == id || o.road(roads@[t]).dst == id);
                        }
                    }
                }
            }
        }
    }

    /// Consistency depends on the four stores alone.
    proof fn lemma_same_stores(a: RoadMap, b: RoadMap)
        requires
            a.wf(),
            a.inters() == b.inters(),
            a.road_store() == b.road_store(),
            a.lane_store() == b.lane_store(),
            a.spot_store() == b.spot_store(),
        ensures
            b.wf(),
    {
        assert(b.ids_ok());
        assert forall|k: u64| #[trigger] b.road_store().has(k) implies b.road_ok(k) && b.geometry_ok(k) by {
            assert(a.road_ok(k) && a.geometry_ok(k));
        }
        assert forall|k: u64| #[trigger] b.inters().has(k) implies b.inter_ok(k) && b.derived_ok(k) by {
            assert(a.inter_ok(k) && a.derived_ok(k));
        }
        assert forall|k: u64| #[trigger] b.lane_store().has(k) implies b.lane_ok(k) by {
            assert(a.lane_ok(k));
        }
        assert forall|k: u64| #[trigger] b.spot_store().has(k) implies b.spot_ok(k) by {
            assert(a.spot_ok(k));
        }
    }

    /// The curve shapes of the two halves when road `r` is split near `pos`.
    pub open spec fn split_segments(r: Road, pos: Vec2) -> (RoadSegmentKind, RoadSegmentKind) {
        match r.segment {
            RoadSegmentKind::Straight => (RoadSegmentKind::Straight, RoadSegmentKind::Straight),
            RoadSegmentKind::Curved(f, t) => {
                let s = Spline { from: r.src_point, to: r.dst_point, from_derivative: f, to_derivative: t };
                let (a, b) = s.split_spec(s.project_t_spec(pos));
                (
                    RoadSegmentKind::Curved(a.from_derivative, a.to_derivative),
                    RoadSegmentKind::Curved(b.from_derivative, b.to_derivative),
                )
            },
        }
    }

    /// Replaces a road by a new intersection at `pos` and two roads, from the old
    /// source to it and from it to the old destination, with the old lane pattern.
    /// A curved road is split at the parameter of its point nearest to `pos`. An absent road
    /// leaves the map unchanged.
    pub fn split_road(&mut self, id: RoadID, pos: Vec2) -> (r: Option<IntersectionID>)
        requires
            old(self).wf(),
            pos.in_world(),
        ensures
            final(self).wf(),
            r is None <==> !old(self).has_road(id),
            r is None ==> final(self).inters() == old(self).inters() && final(self).road_store()
                == old(self).road_store() && final(self).lane_store() == old(self).lane_store()
                && final(self).spot_store() == old(self).spot_store(),
            r is Some ==> ({
                let nid = r->Some_0;
                let old_road = old(self).road(id);
                let n = final(self).inter(nid);
                let ra = n.roads@[0];
                let rb = n.roads@[1];
                let segs = RoadMap::split_segments(old_road, pos);
                &&& !old(self).has_inter(nid)
                &&& final(self).has_inter(nid)
                &&& n.pos == pos
                &&& n.roads@.len() == 2
                &&& !final(self).has_road(id)
                &&& final(self).has_road(ra)
                &&& final(self).has_road(rb)
                &&& final(self).road(ra).src == old_road.src
                &&& final(self).road(ra).dst == nid
                &&& final(self).road(rb).src == nid
                &&& final(self).road(rb).dst == old_road.dst
                &&& final(self).road(ra).segment == segs.0
                &&& final(self).road(rb).segment == segs.1
                &&& final(self).road(ra).lanes@.map_values(|l: LaneRef| spec_of(l))
                    == old_road.lanes@.map_values(|l: LaneRef| spec_of(l))
                &&& final(self).road(rb).lanes@.map_values(|l: LaneRef| spec_of(l))
                    == old_road.lanes@.map_values(|l: LaneRef| spec_of(l))
                &&& forall|k: u64| #[trigger]
                    final(self).road_store().has(k) == ((old(self).road_store().has(k) && k != id.0)
                        || k == ra.0 || k == rb.0)
                &&& forall|k: u64| #[trigger]
                    old(self).road_store().has(k) && k != id.0 ==> final(self).road_store().at(k)
                        == old(self).road_store().at(k)
                &&& forall|k: u64| #[trigger]
                    old(self).lane_store().has(k) ==> if old(self).lane_store().at(k).parent == id {
                        !final(self).lane_store().has(k)
                    } else {
                        final(self).lane_store().has(k) && final(self).lane_store().at(k)
                            == old(self).lane_store().at(k)
                    }
                &&& forall|k: u64| #[trigger]
                    final(self).lane_store().has(k) && !old(self).lane_store().has(k) ==> (
                    final(self).lane_store().at(k).parent == ra || final(self).lane_store().at(
                        k,
                    ).parent == rb)
                &&& forall|k: u64| #[trigger]
                    old(self).spot_store().has(k) ==> if old(self).lane_store().at(
                        old(self).spot_store().at(k).parent.0,
                    ).parent == id {
                        !final(self).spot_store().has(k)
                    } else {
                        final(self).spot_store().has(k) && final(self).spot_store().at(k)
                            == old(self).spot_store().at(k)
                    }
                &&& forall|k: u64| #[trigger]
                    final(self).spot_store().has(k) && !old(self).spot_store().has(k) ==> ({
                        let p = final(self).lane_store().at(final(self).spot_store().at(k).parent.0).parent;
                        p == ra || p == rb
                    })
                &&& forall|k: u64| #[trigger]
                    final(self).inters().has(k) == (old(self).inters().has(k) || k == nid.0)
                &&& forall|k: u64| #[trigger]
                    old(self).inters().has(k) ==> final(self).inters().at(k).pos == old(self).inters().at(
                        k,
                    ).pos
                &&& forall|k: u64|
                    #[trigger] old(self).inters().has(k) && k != old_road.src.0 && k != old_road.dst.0
                        ==> final(self).inters().at(k) == old(self).inters().at(k)
            }),
    {
        let ghost o = *self;
        let road = match self.remove_road(id) {
            Some(road) => road,
            None => {
                return None;
            },
        };
        assert(o.road_store().has(id.0) && o.road_ok(id.0) && o.geometry_ok(id.0));
        let ghost m1 = *self;
        let nid = self.add_intersection(pos);
        let ghost m2 = *self;
        let pat = road.pattern();
        let segs = match road.segment {
            RoadSegmentKind::Straight => (RoadSegmentKind::Straight, RoadSegmentKind::Straight),
            RoadSegmentKind::Curved(f, t) => {
                let s = Spline {
                    from: road.src_point,
                    to: road.dst_point,
                    from_derivative: f,
                    to_derivative: t,
                };
                let k = s.project_t(pos);
                let halves = s.split_at(k);
                (
                    RoadSegmentKind::Curved(halves.0.from_derivative, halves.0.to_derivative),
                    RoadSegmentKind::Curved(halves.1.from_derivative, halves.1.to_derivative),
                )
            },
        };
        assert(m1.inters().has(road.src.0) && m1.inters().has(road.dst.0));
        let a = self.connect(road.src, nid, &pat, segs.0);
        let ghost m3 = *self;
        let b = self.connect(nid, road.dst, &pat, segs.1);
        proof {
            let ra = a->Some_0;
            let rb = b->Some_0;
            assert(m3.inter(nid).roads@ == seq![ra]);
            assert(self.inter(nid).roads@ == seq![ra, rb]);
            assert(m1.road_store()@.len() == o.road_store()@.len());
            assert(m3.road_store().has(ra.0));
            assert(ra.0 != id.0);
            assert(rb.0 != id.0);
            assert(m2.road_store() == m1.road_store() && m2.lane_store() == m1.lane_store());
            assert(m2.spot_store() == m1.spot_store());
            assert forall|k: u64| #[trigger]
                self.road_store().has(k) == ((o.road_store().has(k) && k != id.0) || k == ra.0
                    || k == rb.0) by {
                assert(m3.road_store().has(k) == (m1.road_store().has(k) || k == ra.0)) by {
                    if m3.road_store().has(k) {
                        assert(m2.road_store().has(k) || k == ra.0);
                    }
                    if m1.road_store().has(k) {
                        assert(m2.road_store().has(k));
                    }
                }
                if self.road_store().has(k) {
                    assert(m3.road_store().has(k) || k == rb.0);
                }
                if m3.road_store().has(k) {
                    assert(self.road_store().has(k));
                }
            }
            assert forall|k: u64| #[trigger] o.road_store().has(k) && k != id.0 implies self.road_store().at(k)
                == o.road_store().at(k) by {
                assert(m1.road_store().has(k));
                assert(m2.road_store().has(k));
                assert(m3.road_store().has(k));
            }
            assert forall|k: u64| #[trigger] o.lane_store().has(k) implies if o.lane_store().at(k).parent == id {
                !self.lane_store().has(k)
            } else {
                self.lane_store().has(k) && self.lane_store().at(k) == o.lane_store().at(k)
            } by {
                if o.lane_store().at(k).parent == id {
                    assert(!m1.lane_store().has(k));
                    assert(!m2.lane_store().has(k));
                    if m3.lane_store().has(k) {
                        assert(k >= m2.lane_store()@.len());
                    }
                    if self.lane_store().has(k) {
                        assert(k >= m3.lane_store()@.len());
                    }
                } else {
                    assert(m1.lane_store().has(k));
                    assert(m2.lane_store().has(k));
                    assert(m3.lane_store().has(k));
                }
            }
            assert forall|k: u64| #[trigger] self.lane_store().has(k) && !o.lane_store().has(k) implies (
            self.lane_store().at(k).parent == ra || self.lane_store().at(k).parent == rb) by {
                if m3.lane_store().has(k) {
                    if !m2.lane_store().has(k) {
                        assert(m3.lane_store().at(k).parent == ra);
                    } else {
                        assert(m1.lane_store().has(k));
                    }
                }
            }
            assert forall|k: u64| #[trigger] o.spot_store().has(k) implies if o.lane_store().at(
                o.spot_store().at(k).parent.0,
            ).parent == id {
                !self.spot_store().has(k)
            } else {
                self.spot_store().has(k) && self.spot_store().at(k) == o.spot_store().at(k)
            } by {
                let p = o.spot_store().at(k).parent.0;
                assert(o.spot_ok(k));
                assert(o.lane_store().has(p));
                if o.lane_store().at(p).parent == id {
                    assert(!m1.lane_store().has(p));
                    assert(!m1.spot_store().has(k));
                    if m3.spot_store().has(k) {
                        assert(k >= m2.spot_store()@.len());
                    }
                    if self.spot_store().has(k) {
                        assert(k >= m3.spot_store()@.len());
                    }
                } else {
                    assert(m1.lane_store().has(p));
                    assert(m1.spot_store().has(k));
                    assert(m2.spot_store().has(k));
                    assert(m3.spot_store().has(k));
                }
            }
            assert forall|k: u64| #[trigger] self.spot_store().has(k) && !o.spot_store().has(k) implies ({
                let p = self.lane_store().at(self.spot_store().at(k).parent.0).parent;
                p == ra || p == rb
            }) by {
                if m3.spot_store().has(k) {
                    if !m2.spot_store().has(k) {
                        let q = m3.spot_store().at(k).parent.0;
                        assert(m3.lane_store().has(q));
                        assert(self.lane_store().has(q));
                    } else {
                        assert(m1.spot_store().has(k));
                    }
                }
            }
            assert forall|k: u64| #[trigger] self.inters().has(k) == (o.inters().has(k) || k == nid.0) by {
                assert(m1.inters().has(k) == o.inters().has(k));
                assert(m2.inters().has(k) == (m1.inters().has(k) || k == nid.0)) by {
                    if m1.inters().has(k) {
                        assert(m2.inters().has(k));
                    }
                }
                assert(m3.inters().has(k) == m2.inters().has(k));
            }
            assert forall|k: u64| #[trigger] o.inters().has(k) implies self.inters().at(k).pos == o.inters().at(
                k,
            ).pos by {
                assert(m1.inters().has(k));
                assert(m2.inters().has(k));
                assert(m3.inters().has(k));
            }
            assert forall|k: u64|
                #[trigger] o.inters().has(k) && k != road.src.0 && k != road.dst.0 implies self.inters().at(k)
                    == o.inters().at(k) by {
                assert(m1.inters().has(k));
                assert(m2.inters().has(k));
                assert(k != nid.0);
                assert(m3.inters().has(k));
            }
        }
        Some(nid)
    }

    /// Regenerates the geometry of every road incident to `id` from the current
    /// positions of both its endpoints.
    fn invalidate(&mut self, id: IntersectionID)
        requires
            old(self).links_ok(),
            old(self).inters().has(id.0),
            forall|k: u64| #[trigger]
                old(self).inters().has(k) ==> old(self).derived_ok(k),
            forall|k: u64| #[trigger]
                old(self).road_store().has(k) && old(self).road_store().at(k).src != id
                    && old(self).road_store().at(k).dst != id ==> old(self).geometry_ok(k),
        ensures
            final(self).wf(),
            final(self).inters() == old(self).inters(),
            final(self).lane_store() == old(self).lane_store(),
            final(self).spot_store() == old(self).spot_store(),
            final(self).dirty,
            forall|k: u64| #[trigger] final(self).road_store().has(k) == old(self).road_store().has(k),
            forall|k: u64| #[trigger]
                old(self).road_store().has(k) ==> {
                    let n = final(self).road_store().at(k);
                    let o = old(self).road_store().at(k);
                    &&& n.id == o.id
                    &&& n.src == o.src
                    &&& n.dst == o.dst
                    &&& n.segment == o.segment
                    &&& n.lanes == o.lanes
                },
    {
        let ghost o0 = *self;
        self.dirty = true;
        let ghost o = *self;
        proof {
            assert(o.inters() == o0.inters() && o.road_store() == o0.road_store());
            assert(o.lane_store() == o0.lane_store() && o.spot_store() == o0.spot_store());
            assert(o.links_ok()) by {
                assert(o.ids_ok()) by {
                    assert forall|k: u64| #[trigger] o.spot_store().has(k) implies o.spot_store().at(k).id
                        == ParkingSpotID(k) by {
                        assert(o0.spot_store().has(k));
                    }
                    assert forall|k: u64| #[trigger] o.lane_store().has(k) implies o.lane_store().at(k).id
                        == LaneID(k) by {
                        assert(o0.lane_store().has(k));
                    }
                }
                assert forall|k: u64| #[trigger] o.road_store().has(k) implies o.road_ok(k) by {
                    assert(o0.road_ok(k));
                }
                assert forall|k: u64| #[trigger] o.inters().has(k) implies o.inter_ok(k) by {
                    assert(o0.inter_ok(k));
                }
                assert forall|k: u64| #[trigger] o.lane_store().has(k) implies o.lane_ok(k) by {
                    assert(o0.lane_ok(k));
                }
                assert forall|k: u64| #[trigger] o.spot_store().has(k) implies o.spot_ok(k) by {
                    assert(o0.spot_ok(k));
                }
            }
        }
        let roads = copy_ids(&self.intersections.get(id.0).unwrap().roads);
        assert(o.inter_ok(id.0));
        let mut j: usize = 0;
        while j < roads.len()
            invariant
                o.links_ok(),
                o.inter_ok(id.0),
                o.inters().has(id.0),
                roads@ == o.inter(id).roads@,
                j <= roads@.len(),
                self.dirty,
                self.intersections == o.intersections,
                self.lanes == o.lanes,
                self.parking == o.parking,
                self.roads@.len() == o.roads@.len(),
                forall|k: u64| #[trigger] self.road_store().has(k) == o.road_store().has(k),
                forall|k: u64| #[trigger]
                    o.road_store().has(k) ==> {
                        let n = self.road_store().at(k);
                        let r = o.road_store().at(k);
                        &&& n.id == r.id
                        &&& n.src == r.src
                        &&& n.dst == r.dst
                        &&& n.segment == r.segment
                        &&& n.lanes == r.lanes
                    },
                forall|k: u64| #[trigger]
                    self.road_store().has(k) ==> self.geometry_ok(k) || exists|t: int|
                        j <= t < roads@.len() && roads@[t].0 == k,
            decreases roads@.len() - j,
        {
            let ghost prev = *self;
            let rid = roads[j];
            assert(o.road_store().has(rid.0)) by {
                assert(roads@[j as int] == rid);
            }
            let mut road = self.roads.remove(rid.0).unwrap();
            road.src_point = self.intersections.get(road.src.0).unwrap().pos;
            road.dst_point = self.intersections.get(road.dst.0).unwrap().pos;
            self.roads.set(rid.0, road);
            proof {
                assert(o.road_ok(rid.0));
                assert forall|k: u64| #[trigger] self.road_store().has(k) == o.road_store().has(k) by {
                    assert(prev.road_store().has(k) == o.road_store().has(k));
                    if k != rid.0 && k < self.roads@.len() {
                        assert(self.roads@[k as int] == prev.roads@[k as int]);
                    }
                }
                assert forall|k: u64| #[trigger] o.road_store().has(k) implies {
                    let n = self.road_store().at(k);
                    let r = o.road_store().at(k);
                    &&& n.id == r.id
                    &&& n.src == r.src
                    &&& n.dst == r.dst
                    &&& n.segment == r.segment
                    &&& n.lanes == r.lanes
                } by {
                    assert(prev.road_store().has(k));
                    if k != rid.0 {
                        assert(self.roads@[k as int] == prev.roads@[k as int]);
                    }
                }
                assert forall|k: u64| #[trigger] self.road_store().has(k) implies self.geometry_ok(k)
                    || exists|t: int| j + 1 <= t < roads@.len() && roads@[t].0 == k by {
                    assert(prev.road_store().has(k));
                    if k != rid.0 {
                        assert(self.roads@[k as int] == prev.roads@[k as int]);
                        if !prev.geometry_ok(k) {
                            let t = choose|t: int| j <= t < roads@.len() && roads@[t].0 == k;
                            assert(t != j);
                        }
                    }
                }
            }
            j += 1;
        }
        proof {
            assert forall|k: u64| #[trigger] self.road_store().has(k) implies self.geometry_ok(k) by {
                assert(o.road_store().has(k));
                let r = o.road_store().at(k);
                if r.src != id && r.dst != id {
                    assert(o.geometry_ok(k));
                    assert(!self.geometry_ok(k) ==> exists|t: int| j <= t < roads@.len() && roads@[t].0 == k);
                }
            }
            assert(self.ids_ok()) by {
                assert forall|k: u64| #[trigger] self.road_store().has(k) implies self.road_store().at(k).id
                    == RoadID(k) by {
                    assert(o.road_store().has(k));
                }
                assert forall|k: u64| #[trigger] self.spot_store().has(k) implies self.spot_store().at(k).id
                    == ParkingSpotID(k) by {
                    assert(o.spot_store().has(k));
                }
            }
            assert forall|k: u64| #[trigger] self.road_store().has(k) implies self.road_ok(k) by {
                assert(o.road_store().has(k));
                assert(o.road_ok(k));
            }
            assert forall|k: u64| #[trigger] self.inters().has(k) implies self.inter_ok(k) && self.derived_ok(k) by {
                assert(o.inter_ok(k));
                let l = self.inters().at(k).roads@;
                assert forall|t: int| 0 <= t < l.len() implies {
                    let r = #[trigger] l[t];
                    &&& self.has_road(r)
                    &&& (self.road(r).src == IntersectionID(k) || self.road(r).dst == IntersectionID(k))
                } by {
                    assert(o.road_store().has(l[t].0));
                }
            }
            assert forall|k: u64| #[trigger] self.lane_store().has(k) implies self.lane_ok(k) by {
                assert(o.lane_ok(k));
                assert(o.road_store().has(o.lane_store().at(k).parent.0));
            }
            assert forall|k: u64| #[trigger] self.spot_store().has(k) implies self.spot_ok(k) by {
                assert(o.spot_ok(k));
            }
        }
    }

    /// Moves an intersection and regenerates the roads that end there.
    /// An absent intersection leaves the map unchanged.
    pub fn update_intersection(&mut self, id: IntersectionID, pos: Vec2)
        requires
            old(self).wf(),
            pos.in_world(),
        ensures
            final(self).wf(),
            !old(self).has_inter(id) ==> final(self).inters() == old(self).inters()
                && final(self).road_store() == old(self).road_store() && final(self).lane_store()
                == old(self).lane_store() && final(self).spot_store() == old(self).spot_store(),
            old(self).has_inter(id) ==> final(self).inter(id).pos == pos && final(self).is_dirty(),
            forall|k: u64| #[trigger] final(self).inters().has(k) == old(self).inters().has(k),
            forall|k: u64| #[trigger]
                old(self).inters().has(k) && k != id.0 ==> final(self).inters().at(k)
                    == old(self).inters().at(k),
            old(self).has_inter(id) ==> final(self).inter(id).roads == old(self).inter(id).roads,
            final(self).lane_store() == old(self).lane_store(),
            final(self).spot_store() == old(self).spot_store(),
            forall|k: u64| #[trigger] final(self).road_store().has(k) == old(self).road_store().has(k),
            forall|k: u64| #[trigger]
                old(self).road_store().has(k) ==> {
                    let n = final(self).road_store().at(k);
                    let o = old(self).road_store().at(k);
                    &&& n.src == o.src
                    &&& n.dst == o.dst
                    &&& n.segment == o.segment
                    &&& n.lanes == o.lanes
                },
    {
        if !self.intersections.contains(id.0) {
            return;
        }
        let ghost o = *self;
        let mut inter = self.intersections.remove(id.0).unwrap();
        inter.pos = pos;
        self.intersections.set(id.0, inter);
        proof {
            assert forall|k: u64| #[trigger] self.inters().has(k) == o.inters().has(k) by {
                if k != id.0 && k < self.intersections@.len() {
                    assert(self.intersections@[k as int] == o.intersections@[k as int]);
                }
            }
            assert forall|k: u64| #[trigger] o.inters().has(k) && k != id.0 implies self.inters().at(k)
                == o.inters().at(k) by {
                assert(self.intersections@[k as int] == o.intersections@[k as int]);
            }
            assert(self.ids_ok()) by {
                assert forall|k: u64| #[trigger] self.inters().has(k) implies self.inters().at(k).id
                    == IntersectionID(k) && self.inters().at(k).pos.in_world() by {
                    assert(o.inters().has(k));
                }
                assert forall|k: u64| #[trigger] self.spot_store().has(k) implies self.spot_store().at(k).id
                    == ParkingSpotID(k) by {
                    assert(o.spot_store().has(k));
                }
                assert forall|k: u64| #[trigger] self.lane_store().has(k) implies self.lane_store().at(k).id
                    == LaneID(k) by {
                    assert(o.lane_store().has(k));
                }
                assert forall|k: u64| #[trigger] self.road_store().has(k) implies self.road_store().at(k).id
                    == RoadID(k) by {
                    assert(o.road_store().has(k));
                }
            }
            assert forall|k: u64| #[trigger] self.road_store().has(k) implies self.road_ok(k) by {
                assert(o.road_ok(k));
            }
            assert forall|k: u64| #[trigger] self.inters().has(k) implies self.inter_ok(k) && self.derived_ok(k) by {
                assert(o.inters().has(k));
                assert(o.inter_ok(k));
                assert(o.derived_ok(k));
            }
            assert forall|k: u64| #[trigger] self.lane_store().has(k) implies self.lane_ok(k) by {
                assert(o.lane_ok(k));
            }
            assert forall|k: u64| #[trigger] self.spot_store().has(k) implies self.spot_ok(k) by {
                assert(o.spot_ok(k));
            }
            assert forall|k: u64| #[trigger]
                self.road_store().has(k) && self.road_store().at(k).src != id
                    && self.road_store().at(k).dst != id implies self.geometry_ok(k) by {
                assert(o.geometry_ok(k));
                assert(o.road_ok(k));
            }
        }
        self.invalidate(id);
    }

    pub open spec fn isolated(&self, k: u64) -> bool {
        self.inters().has(k) && self.inters().at(k).roads@.len() == 0
    }

    pub open spec fn road_dist2(&self, k: u64, pos: Vec2) -> int {
        self.road_store().at(k).project_spec(pos).dist2_spec(pos)
    }

    /// The answer of `project` once road `k` is the nearest road.
    pub open spec fn road_answer(&self, k: u64, pos: Vec2) -> MapProject {
        let r = self.road_store().at(k);
        let s = self.inter(r.src);
        let d = self.inter(r.dst);
        if s.polygon_contains_spec(pos) {
            MapProject { pos: s.pos, kind: ProjectKind::Inter(r.src) }
        } else if d.polygon_contains_spec(pos) {
            MapProject { pos: d.pos, kind: ProjectKind::Inter(r.dst) }
        } else if self.road_dist2(k, pos) < ROAD_THRESHOLD * ROAD_THRESHOLD {
            MapProject { pos: r.project_spec(pos), kind: ProjectKind::Road(RoadID(k)) }
        } else {
            MapProject { pos, kind: ProjectKind::Ground }
        }
    }

    /// What `project` answers: the nearest isolated intersection within the snap
    /// radius; else, from the nearest road, one of its endpoints whose footprint
    /// holds `pos`, or the road itself within the threshold; else the ground.
    pub open spec fn project_ok(&self, pos: Vec2, r: MapProject) -> bool {
        let snap = exists|k: u64| #[trigger]
            self.isolated(k) && self.inters().at(k).pos.dist2_spec(pos) < SNAP_RADIUS * SNAP_RADIUS;
        &&& snap ==> {
            &&& r.kind is Inter
            &&& self.isolated(r.kind->Inter_0.0)
            &&& r.pos == self.inter(r.kind->Inter_0).pos
            &&& forall|j: u64| #[trigger]
                self.isolated(j) ==> self.inter(r.kind->Inter_0).pos.dist2_spec(pos)
                    <= self.inters().at(j).pos.dist2_spec(pos)
        }
        &&& !snap && (forall|k: u64| !#[trigger] self.road_store().has(k)) ==> r == (MapProject {
            pos,
            kind: ProjectKind::Ground,
        })
        &&& !snap && (exists|k: u64| #[trigger] self.road_store().has(k)) ==> exists|k: u64| {
            &&& #[trigger] self.road_store().has(k)
            &&& forall|j: u64| #[trigger]
                self.road_store().has(j) ==> self.road_dist2(k, pos) <= self.road_dist2(j, pos)
            &&& r == self.road_answer(k, pos)
        }
    }

    /// The feature nearest to `pos`, for placement and editing tools.
    pub fn project(&self, pos: Vec2) -> (r: MapProject)
        requires
            self.wf(),
            pos.in_world(),
        ensures
            self.project_ok(pos, r),
    {
        let n = self.intersections.capacity();
        let mut best: Option<u64> = None;
        let mut best_d: i128 = 0;
        let mut i: usize = 0;
        while i < n
            invariant
                self.wf(),
                pos.in_world(),
                n == self.inters()@.len(),
                i <= n,
                best is Some ==> self.isolated(best->Some_0) && best_d == self.inters().at(
                    best->Some_0,
                ).pos.dist2_spec(pos),
                best is None ==> forall|j: u64| j < i ==> !#[trigger] self.isolated(j),
                forall|j: u64|
                    j < i && #[trigger] self.isolated(j) ==> best is Some && best_d <= self.inters().at(
                        j,
                    ).pos.dist2_spec(pos),
            decreases n - i,
        {
            match self.intersections.get(i as u64) {
                Some(inter) => {
                    if inter.roads.len() == 0 {
                        assert(self.inters().has(i as u64));
                        let d = inter.pos.distance2(pos);
                        if best.is_none() || d < best_d {
                            best = Some(i as u64);
                            best_d = d;
                        }
                    }
                },
                None => {},
            }
            i += 1;
        }
        if best.is_some() && best_d < (SNAP_RADIUS * SNAP_RADIUS) as i128 {
            let k = best.unwrap();
            let inter = self.intersections.get(k).unwrap();
            return MapProject { pos: inter.pos, kind: ProjectKind::Inter(IntersectionID(k)) };
        }
        proof {
            assert forall|k: u64| #[trigger] self.isolated(k) implies !(self.inters().at(k).pos.dist2_spec(pos)
                < SNAP_RADIUS * SNAP_RADIUS) by {
                assert(k < n);
            }
        }
        let m = self.roads.capacity();
        let mut best_road: Option<u64> = None;
        let mut best_rd: i128 = 0;
        let mut best_proj = pos;
        let mut j: usize = 0;
        while j < m
            invariant
                self.wf(),
                pos.in_world(),
                m == self.road_store()@.len(),
                j <= m,
                best_road is Some ==> self.road_store().has(best_road->Some_0) && best_rd
                    == self.road_dist2(best_road->Some_0, pos) && best_proj == self.road_store().at(
                    best_road->Some_0,
                ).project_spec(pos),
                best_road is None ==> forall|t: u64| t < j ==> !#[trigger] self.road_store().has(t),
                forall|t: u64|
                    t < j && #[trigger] self.road_store().has(t) ==> best_road is Some && best_rd
                        <= self.road_dist2(t, pos),
            decreases m - j,
        {
            match self.roads.get(j as u64) {
                Some(road) => {
                    assert(self.road_store().has(j as u64));
                    assert(self.road_ok(j as u64) && self.geometry_ok(j as u64));
                    let proj = road.project(pos);
                    let d = proj.distance2(pos);
                    if best_road.is_none() || d < best_rd {
                        best_road = Some(j as u64);
                        best_rd = d;
                        best_proj = proj;
                    }
                },
                None => {},
            }
            j += 1;
        }
        match best_road {
            None => {
                proof {
                    assert forall|k: u64| !#[trigger] self.road_store().has(k) by {
                        if self.road_store().has(k) {
                            assert(k < m);
                        }
                    }
                }
                MapProject { pos, kind: ProjectKind::Ground }
            },
            Some(k) => {
                let road = self.roads.get(k).unwrap();
                assert(self.road_ok(k));
                let src = self.intersections.get(road.src.0).unwrap();
                let dst = self.intersections.get(road.dst.0).unwrap();
                assert(self.derived_ok(road.src.0) && self.derived_ok(road.dst.0));
                let r = if src.polygon_contains(pos) {
                    MapProject { pos: src.pos, kind: ProjectKind::Inter(road.src) }
                } else if dst.polygon_contains(pos) {
                    MapProject { pos: dst.pos, kind: ProjectKind::Inter(road.dst) }
                } else if best_rd < (ROAD_THRESHOLD * ROAD_THRESHOLD) as i128 {
                    MapProject { pos: best_proj, kind: ProjectKind::Road(RoadID(k)) }
                } else {
                    MapProject { pos, kind: ProjectKind::Ground }
                };
                proof {
                    assert forall|t: u64| #[trigger] self.road_store().has(t) implies self.road_dist2(k, pos)
                        <= self.road_dist2(t, pos) by {
                        assert(t < m);
                    }
                    assert(r == self.road_answer(k, pos));
                }
                r
            },
        }
    }

    pub fn roads(&self) -> (r: &Arena<Road>)
        ensures
            *r == self.road_store(),
    {
        &self.roads
    }

    pub fn lanes(&self) -> (r: &Arena<Lane>)
        ensures
            *r == self.lane_store(),
    {
        &self.lanes
    }

    pub fn intersections(&self) -> (r: &Arena<Intersection>)
        ensures
            *r == self.inters(),
    {
        &self.intersections
    }

    pub fn parking(&self) -> (r: &Arena<ParkingSpot>)
        ensures
            *r == self.spot_store(),
    {
        &self.parking
    }

    /// Removes everything; identifiers handed out before stay absent.
    pub fn clear(&mut self)
        requires
            old(self).wf(),
        ensures
            final(self).wf(),
            final(self).is_dirty(),
            forall|k: u64| !#[trigger] final(self).inters().has(k),
            forall|k: u64| !#[trigger] final(self).road_store().has(k),
            forall|k: u64| !#[trigger] final(self).lane_store().has(k),
            forall|k: u64| !#[trigger] final(self).spot_store().has(k),
    {
        self.dirty = true;
        self.intersections.clear();
        self.lanes.clear();
        self.roads.clear();
        self.parking.clear();
    }

    pub fn is_empty(&self) -> (r: bool)
        ensures
            r == ((forall|k: u64| !#[trigger] self.road_store().has(k)) && (forall|k: u64|
                !#[trigger] self.lane_store().has(k)) && (forall|k: u64|
                !#[trigger] self.inters().has(k))),
    {
        let a = self.roads.is_empty();
        let b = self.lanes.is_empty();
        let c = self.intersections.is_empty();
        proof {
            assert(self.road_store() == self.roads);
            assert(self.lane_store() == self.lanes);
            assert(self.inters() == self.intersections);
        }
        a && b && c
    }

    pub open spec fn links(r: Road, a: IntersectionID, b: IntersectionID) -> bool {
        (r.src == a && r.dst == b) || (r.src == b && r.dst == a)
    }

    /// A road between `a` and `b`, in either direction.
    pub fn find_road(&self, a: IntersectionID, b: IntersectionID) -> (r: Option<RoadID>)
        requires
            self.wf(),
        ensures
            r is Some ==> self.has_road(r->Some_0) && RoadMap::links(self.road(r->Some_0), a, b),
            r is None ==> forall|k: u64| #[trigger]
                self.road_store().has(k) ==> !RoadMap::links(self.road_store().at(k), a, b),
    {
        let inter = match self.intersections.get(a.0) {
            Some(inter) => inter,
            None => {
                proof {
                    assert forall|k: u64| #[trigger] self.road_store().has(k) implies !RoadMap::links(
                        self.road_store().at(k),
                        a,
                        b,
                    ) by {
                        assert(self.road_ok(k));
                    }
                }
                return None;
            },
        };
        assert(self.inter_ok(a.0));
        let mut i: usize = 0;
        while i < inter.roads.len()
            invariant
                self.wf(),
                self.inters().has(a.0),
                *inter == self.inters().at(a.0),
                i <= inter.roads@.len(),
                forall|t: int|
                    0 <= t < i ==> !RoadMap::links(self.road(#[trigger] inter.roads@[t]), a, b),
            decreases inter.roads@.len() - i,
        {
            let rid = inter.roads[i];
            assert(self.has_road(inter.roads@[i as int]));
            let road = self.roads.get(rid.0).unwrap();
            if (road.src == a && road.dst == b) || (road.dst == a && road.src == b) {
                return Some(road.id);
            }
            i += 1;
        }
        proof {
            assert forall|k: u64| #[trigger] self.road_store().has(k) implies !RoadMap::links(
                self.road_store().at(k),
                a,
                b,
            ) by {
                assert(self.road_ok(k));
                if RoadMap::links(self.road_store().at(k), a, b) {
                    assert(inter.roads@.contains(RoadID(k)));
                    let t = choose|t: int| 0 <= t < inter.roads@.len() && inter.roads@[t] == RoadID(k);
                }
            }
        }
        None
    }

    /// The intersection a lane runs from.
    pub open spec fn lane_start(&self, l: LaneID) -> IntersectionID {
        let road = self.road(self.lane(l).parent);
        match self.lane(l).direction {
            LaneDirection::Forward => road.src,
            LaneDirection::Backward => road.dst,
        }
    }

    /// The intersection a lane runs to.
    pub open spec fn lane_end(&self, l: LaneID) -> IntersectionID {
        let road = self.road(self.lane(l).parent);
        match self.lane(l).direction {
            LaneDirection::Forward => road.dst,
            LaneDirection::Backward => road.src,
        }
    }

    /// Where a lane's control applies: its end point moved back towards its start by
    /// the interface radius of its end intersection (at most to its start), so that
    /// vehicles stop at the edge of the intersection's footprint.
    pub open spec fn control_point_spec(&self, l: LaneID) -> Vec2 {
        let e = self.inter(self.lane_end(l)).pos;
        let s = self.inter(self.lane_start(l)).pos;
        let len = isqrt_spec(e.dist2_spec(s));
        let r = self.inter(self.lane_end(l)).interface_radius;
        let back = if r < len { r as int } else { len };
        if len == 0 {
            e
        } else {
            Vec2 {
                x: (e.x + scale_spec(s.x - e.x, back, len)) as i64,
                y: (e.y + scale_spec(s.y - e.y, back, len)) as i64,
            }
        }
    }

    pub fn lane_control_point(&self, l: LaneID) -> (r: Option<Vec2>)
        requires
            self.wf(),
        ensures
            r is Some <==> self.has_lane(l),
            r is Some ==> r->Some_0 == self.control_point_spec(l) && r->Some_0.in_world(),
    {
        let lane = match self.lanes.get(l.0) {
            Some(lane) => lane,
            None => {
                return None;
            },
        };
        assert(self.lane_ok(l.0));
        let road = self.roads.get(lane.parent.0).unwrap();
        assert(self.road_ok(lane.parent.0) && self.geometry_ok(lane.parent.0));
        let (s, e, end) = match lane.direction {
            LaneDirection::Forward => (road.src_point, road.dst_point, road.dst),
            LaneDirection::Backward => (road.dst_point, road.src_point, road.src),
        };
        assert(self.derived_ok(end.0));
        let radius = self.intersections.get(end.0).unwrap().interface_radius;
        let d2 = e.distance2(s);
        let len = isqrt(d2 as u128);
        proof {
            lemma_isqrt_unique(d2 as int, len as int);
            assert(len <= 0x1_0000_0000) by (nonlinear_arith)
                requires len * len <= d2, d2 <= 0x8000_0000_0000_0000;
        }
        if len == 0 {
            return Some(e);
        }
        let back: i128 = if (radius as i128) < len as i128 { radius as i128 } else { len as i128 };
        let dx = scale(s.x - e.x, back, len as i128);
        let dy = scale(s.y - e.y, back, len as i128);
        Some(Vec2 { x: e.x + dx, y: e.y + dy })
    }

    /// Position of road `r` in the road list of intersection `i`.
    pub open spec fn road_index(&self, i: IntersectionID, r: RoadID) -> int {
        choose|t: int| 0 <= t < self.inter(i).roads@.len() && #[trigger] self.inter(i).roads@[t] == r
    }

    pub open spec fn lane_behavior_spec(&self, l: LaneID, time: u64) -> TrafficBehavior {
        let end = self.lane_end(l);
        control_for(self.inter(end).policy, self.road_index(end, self.lane(l).parent) as nat).behavior_spec(
            time,
        )
    }

    /// The signal that a lane shows at `time` (in seconds): the control that its end
    /// intersection's policy gives to the lane's road.
    pub fn lane_behavior(&self, l: LaneID, time: u64) -> (r: Option<TrafficBehavior>)
        requires
            self.wf(),
        ensures
            r is Some <==> self.has_lane(l),
            r is Some ==> r->Some_0 == self.lane_behavior_spec(l, time),
    {
        let lane = match self.lanes.get(l.0) {
            Some(lane) => lane,
            None => {
                return None;
            },
        };
        assert(self.lane_ok(l.0));
        let road = self.roads.get(lane.parent.0).unwrap();
        assert(self.road_ok(lane.parent.0));
        let end = match lane.direction {
            LaneDirection::Forward => road.dst,
            LaneDirection::Backward => road.src,
        };
        let inter = self.intersections.get(end.0).unwrap();
        let mut i: usize = 0;
        while i < inter.roads.len() && inter.roads[i] != lane.parent
            invariant
                i <= inter.roads@.len(),
                forall|t: int| 0 <= t < i ==> inter.roads@[t] != lane.parent,
            decreases inter.roads@.len() - i,
        {
            i += 1;
        }
        if i == inter.roads.len() {
            proof {
                let t = choose|t: int| 0 <= t < inter.roads@.len() && inter.roads@[t] == lane.parent;
            }
        }
        proof {
            assert(self.inter_ok(end.0));
            let t = self.road_index(end, lane.parent);
            assert(inter.roads@[i as int] == lane.parent);
            assert(0 <= t < inter.roads@.len() && inter.roads@[t] == lane.parent);
        }
        let control = lane_control(inter.policy, i);
        proof {
            crate::traffic::lemma_control_valid(inter.policy, i as nat);
        }
        Some(control.get_behavior(time))
    }

    /// Where a spot is and which way a parked vehicle faces: the middle of its
    /// lane, along the lane's direction.
    pub open spec fn spot_pose_spec(&self, s: ParkingSpotID) -> (Vec2, Vec2) {
        let l = self.spot(s).parent;
        let a = self.inter(self.lane_start(l)).pos;
        let b = self.inter(self.lane_end(l)).pos;
        (
            Vec2 {
                x: (a.x + scale_spec(b.x - a.x, 1, 2)) as i64,
                y: (a.y + scale_spec(b.y - a.y, 1, 2)) as i64,
            },
            Vec2 { x: (b.x - a.x) as i64, y: (b.y - a.y) as i64 },
        )
    }

    pub fn spot_pose(&self, s: ParkingSpotID) -> (r: Option<(Vec2, Vec2)>)
        requires
            self.wf(),
        ensures
            r is Some <==> self.has_spot(s),
            r is Some ==> r->Some_0 == self.spot_pose_spec(s) && r->Some_0.0.in_world(),
    {
        let spot = match self.parking.get(s.0) {
            Some(spot) => spot,
            None => {
                return None;
            },
        };
        assert(self.spot_ok(s.0));
        let lane = self.lanes.get(spot.parent.0).unwrap();
        assert(self.lane_ok(spot.parent.0));
        let road = self.roads.get(lane.parent.0).unwrap();
        assert(self.road_ok(lane.parent.0) && self.geometry_ok(lane.parent.0));
        let (a, b) = match lane.direction {
            LaneDirection::Forward => (road.src_point, road.dst_point),
            LaneDirection::Backward => (road.dst_point, road.src_point),
        };
        let mx = scale(b.x - a.x, 1, 2);
        let my = scale(b.y - a.y, 1, 2);
        Some((Vec2 { x: a.x + mx, y: a.y + my }, Vec2 { x: b.x - a.x, y: b.y - a.y }))
    }

    /// The driving lane to leave a parking spot by: the last driving lane of the
    /// spot's road that runs the same way as the spot's lane.
    pub fn parking_to_drive(&self, s: ParkingSpotID) -> (r: Option<LaneID>)
        requires
            self.wf(),
        ensures
            !self.has_spot(s) ==> r is None,
            self.has_spot(s) ==> ({
                let pl = self.lane(self.spot(s).parent);
                let lanes = self.road(pl.parent).lanes@;
                &&& r is Some ==> exists|t: int|
                    0 <= t < lanes.len() && lanes[t].id == r->Some_0 && drive_fits(
                        lanes[t],
                        pl.direction,
                    ) && forall|u: int|
                        t < u < lanes.len() ==> !drive_fits(#[trigger] lanes[u], pl.direction)
                &&& r is None ==> forall|t: int|
                    0 <= t < lanes.len() ==> !drive_fits(#[trigger] lanes[t], pl.direction)
            }),
    {
        let spot = match self.parking.get(s.0) {
            Some(spot) => spot,
            None => {
                return None;
            },
        };
        assert(self.spot_ok(s.0));
        let lane = self.lanes.get(spot.parent.0).unwrap();
        assert(self.lane_ok(spot.parent.0));
        let road = self.roads.get(lane.parent.0).unwrap();
        let mut i: usize = road.lanes.len();
        while i > 0
            invariant
                self.has_spot(s),
                *lane == self.lane(self.spot(s).parent),
                *road == self.road(lane.parent),
                i <= road.lanes@.len(),
                forall|u: int|
                    i <= u < road.lanes@.len() ==> !drive_fits(#[trigger] road.lanes@[u], lane.direction),
            decreases i,
        {
            let c = road.lanes[i - 1];
            if c.kind == LaneKind::Driving && c.direction == lane.direction {
                return Some(c.id);
            }
            i -= 1;
        }
        None
    }

    /// The lane of kind `kind` whose road passes nearest to `p`.
    pub fn closest_lane(&self, p: Vec2, kind: LaneKind) -> (r: Option<LaneID>)
        requires
            self.wf(),
            p.in_world(),
        ensures
            r is None <==> forall|k: u64| #[trigger]
                self.lane_store().has(k) ==> self.lane_store().at(k).kind != kind,
            r is Some ==> self.has_lane(r->Some_0) && self.lane(r->Some_0).kind == kind
                && forall|k: u64| #[trigger]
                self.lane_store().has(k) && self.lane_store().at(k).kind == kind ==> self.road_dist2(
                    self.lane(r->Some_0).parent.0,
                    p,
                ) <= self.road_dist2(self.lane_store().at(k).parent.0, p),
    {
        let n = self.lanes.capacity();
        let mut best: Option<u64> = None;
        let mut best_d: i128 = 0;
        let mut i: usize = 0;
        while i < n
            invariant
                self.wf(),
                p.in_world(),
                n == self.lane_store()@.len(),
                i <= n,
                best is Some ==> self.lane_store().has(best->Some_0) && self.lane_store().at(
                    best->Some_0,
                ).kind == kind && best_d == self.road_dist2(
                    self.lane_store().at(best->Some_0).parent.0,
                    p,
                ),
                best is None ==> forall|j: u64|
                    j < i && #[trigger] self.lane_store().has(j) ==> self.lane_store().at(j).kind
                        != kind,
                forall|j: u64|
                    j < i && #[trigger] self.lane_store().has(j) && self.lane_store().at(j).kind
                        == kind ==> best is Some && best_d <= self.road_dist2(
                        self.lane_store().at(j).parent.0,
                        p,
                    ),
            decreases n - i,
        {
            match self.lanes.get(i as u64) {
                Some(lane) => {
                    if lane.kind == kind {
                        assert(self.lane_store().has(i as u64));
                        assert(self.lane_ok(i as u64));
                        let road = self.roads.get(lane.parent.0).unwrap();
                        assert(self.road_ok(lane.parent.0) && self.geometry_ok(lane.parent.0));
                        let proj = road.project(p);
                        let d = proj.distance2(p);
                        if best.is_none() || d < best_d {
                            best = Some(i as u64);
                            best_d = d;
                        }
                    }
                },
                None => {},
            }
            i += 1;
        }
        proof {
            assert forall|k: u64| #[trigger] self.lane_store().has(k) implies k < n by {}
        }
        match best {
            Some(k) => Some(LaneID(k)),
            None => None,
        }
    }

    /// The identifiers below `n` of the roads present, in increasing order.
    pub open spec fn road_keys(&self, n: nat) -> Seq<u64>
        decreases n,
    {
        if n == 0 {
            Seq::empty()
        } else if self.road_store().has((n - 1) as u64) {
            self.road_keys((n - 1) as nat).push((n - 1) as u64)
        } else {
            self.road_keys((n - 1) as nat)
        }
    }

    /// The lanes of kind `kind` among the first `n` of `lanes`, in order.
    pub open spec fn lanes_of_kind(lanes: Seq<LaneRef>, kind: LaneKind, n: nat) -> Seq<LaneID>
        decreases n,
    {
        if n == 0 {
            Seq::empty()
        } else if lanes[n - 1].kind == kind {
            RoadMap::lanes_of_kind(lanes, kind, (n - 1) as nat).push(lanes[n - 1].id)
        } else {
            RoadMap::lanes_of_kind(lanes, kind, (n - 1) as nat)
        }
    }

    /// What `get_random_lane` picks with these draws.
    pub open spec fn random_lane_spec(&self, filter: LaneKind, road_pick: u64, lane_pick: u64) -> Option<LaneID> {
        let keys = self.road_keys(self.road_store()@.len());
        if keys.len() == 0 {
            None
        } else {
            let road = self.road_store().at(keys[(road_pick % keys.len() as u64) as int]);
            let fits = RoadMap::lanes_of_kind(road.lanes@, filter, road.lanes@.len());
            if fits.len() == 0 {
                None
            } else {
                Some(fits[(lane_pick % fits.len() as u64) as int])
            }
        }
    }

    /// A lane of kind `filter` of a road picked by `road_pick` among the roads, in
    /// identifier order; `lane_pick` picks among that road's lanes of that kind, in
    /// order. Both picks are reduced modulo the number of candidates, so random picks
    /// give a random lane.
    pub fn get_random_lane(&self, filter: LaneKind, road_pick: u64, lane_pick: u64) -> (r: Option<
        LaneID,
    >)
        requires
            self.wf(),
        ensures
            r == self.random_lane_spec(filter, road_pick, lane_pick),
            r is Some ==> self.has_lane(r->Some_0) && self.lane(r->Some_0).kind == filter,
    {
        let n = self.roads.capacity();
        let mut keys: Vec<u64> = Vec::new();
        let mut i: usize = 0;
        while i < n
            invariant
                n == self.road_store()@.len(),
                i <= n,
                keys@ == self.road_keys(i as nat),
            decreases n - i,
        {
            if self.roads.contains(i as u64) {
                keys.push(i as u64);
            }
            i += 1;
        }
        if keys.len() == 0 {
            return None;
        }
        let rk = keys[(road_pick % keys.len() as u64) as usize];
        proof {
            self.lemma_road_keys_present(n as nat, (road_pick % keys.len() as u64) as int);
        }
        assert(self.road_ok(rk));
        let road = self.roads.get(rk).unwrap();
        let mut fits: Vec<LaneID> = Vec::new();
        let mut j: usize = 0;
        while j < road.lanes.len()
            invariant
                j <= road.lanes@.len(),
                fits@ == RoadMap::lanes_of_kind(road.lanes@, filter, j as nat),
            decreases road.lanes@.len() - j,
        {
            let c = road.lanes[j];
            if c.kind == filter {
                fits.push(c.id);
            }
            j += 1;
        }
        if fits.len() == 0 {
            return None;
        }
        let l = fits[(lane_pick % fits.len() as u64) as usize];
        proof {
            RoadMap::lemma_lanes_of_kind(road.lanes@, filter, road.lanes@.len(), (lane_pick % fits.len() as u64) as int);
            let t = choose|t: int| 0 <= t < road.lanes@.len() && road.lanes@[t].id == l && road.lanes@[t].kind == filter;
            assert(self.has_lane(road.lanes@[t].id));
        }
        Some(l)
    }

    proof fn lemma_road_keys_present(&self, n: nat, t: int)
        requires
            0 <= t < self.road_keys(n).len(),
        ensures
            self.road_store().has(self.road_keys(n)[t]),
        decreases n,
    {
        if n > 0 {
            if t < self.road_keys((n - 1) as nat).len() {
                self.lemma_road_keys_present((n - 1) as nat, t);
            }
        }
    }

    proof fn lemma_lanes_of_kind(lanes: Seq<LaneRef>, kind: LaneKind, n: nat, t: int)
        requires
            n <= lanes.len(),
            0 <= t < RoadMap::lanes_of_kind(lanes, kind, n).len(),
        ensures
            exists|u: int|
                0 <= u < n && lanes[u].id == RoadMap::lanes_of_kind(lanes, kind, n)[t] && lanes[u].kind
                    == kind,
        decreases n,
    {
        if n > 0 {
            if t < RoadMap::lanes_of_kind(lanes, kind, (n - 1) as nat).len() {
                RoadMap::lemma_lanes_of_kind(lanes, kind, (n - 1) as nat, t);
            } else {
                assert(lanes[n - 1].id == RoadMap::lanes_of_kind(lanes, kind, n)[t]);
            }
        }
    }

    pub proof fn lemma_lane_end_exists(&self, l: LaneID)
        requires
            self.wf(),
            self.has_lane(l),
        ensures
            self.has_inter(self.lane_end(l)),
            self.inter(self.lane_end(l)).pos.in_world(),
    {
        assert(self.lane_ok(l.0));
        assert(self.road_ok(self.lane(l).parent.0));
    }

    /// A driving lane that ends at (or, with `ends_here` false, starts at) `i`,
    /// of a road other than `exclude`.
    pub open spec fn driving_lane_at(
        &self,
        i: IntersectionID,
        l: LaneID,
        ends_here: bool,
        exclude: Option<RoadID>,
    ) -> bool {
        &&& self.has_lane(l)
        &&& self.lane(l).kind == LaneKind::Driving
        &&& (if ends_here { self.lane_end(l) == i } else { self.lane_start(l) == i })
        &&& exclude != Some(self.lane(l).parent)
    }

    /// A legal movement through `i`: from a driving lane that ends there to a
    /// driving lane of another road that starts there.
    pub open spec fn turn_ok(&self, i: IntersectionID, from: LaneID, to: LaneID) -> bool {
        &&& self.driving_lane_at(i, from, true, None)
        &&& self.driving_lane_at(i, to, false, Some(self.lane(from).parent))
    }

    fn driving_lanes_at(&self, i: IntersectionID, ends_here: bool, exclude: Option<RoadID>) -> (r: Vec<LaneID>)
        requires
            self.wf(),
        ensures
            forall|t: int| 0 <= t < r@.len() ==> self.driving_lane_at(i, #[trigger] r@[t], ends_here, exclude),
            forall|l: LaneID| #[trigger] self.driving_lane_at(i, l, ends_here, exclude) ==> r@.contains(l),
    {
        let mut out: Vec<LaneID> = Vec::new();
        let inter = match self.intersections.get(i.0) {
            Some(inter) => inter,
            None => {
                proof {
                    assert forall|l: LaneID| #[trigger] self.driving_lane_at(i, l, ends_here, exclude) implies out@.contains(l) by {
                        assert(self.lane_ok(l.0));
                        assert(self.road_ok(self.lane(l).parent.0));
                    }
                }
                return out;
            },
        };
        assert(self.inter_ok(i.0));
        let mut p: usize = 0;
        while p < inter.roads.len()
            invariant
                self.wf(),
                self.has_inter(i),
                *inter == self.inter(i),
                self.inter_ok(i.0),
                p <= inter.roads@.len(),
                forall|t: int| 0 <= t < out@.len() ==> self.driving_lane_at(i, #[trigger] out@[t], ends_here, exclude),
                forall|l: LaneID| #[trigger] self.driving_lane_at(i, l, ends_here, exclude) && (exists|u: int|
                    0 <= u < p && inter.roads@[u] == self.lane(l).parent) ==> out@.contains(l),
            decreases inter.roads@.len() - p,
        {
            let rid = inter.roads[p];
            assert(self.has_road(inter.roads@[p as int]));
            let road = self.roads.get(rid.0).unwrap();
            assert(self.road_ok(rid.0));
            let mut q: usize = 0;
            while q < road.lanes.len()
                invariant
                    self.wf(),
                    self.has_inter(i),
                    *inter == self.inter(i),
                    self.inter_ok(i.0),
                    p < inter.roads@.len(),
                    rid == inter.roads@[p as int],
                    self.has_road(rid),
                    *road == self.road(rid),
                    self.road_ok(rid.0),
                    q <= road.lanes@.len(),
                    forall|t: int| 0 <= t < out@.len() ==> self.driving_lane_at(i, #[trigger] out@[t], ends_here, exclude),
                    forall|l: LaneID| #[trigger] self.driving_lane_at(i, l, ends_here, exclude) && (exists|u: int|
                        0 <= u < p && inter.roads@[u] == self.lane(l).parent) ==> out@.contains(l),
                    forall|l: LaneID| #[trigger] self.driving_lane_at(i, l, ends_here, exclude) && self.lane(l).parent == rid
                        && (exists|w: int| 0 <= w < q && road.lanes@[w].id == l) ==> out@.contains(l),
                decreases road.lanes@.len() - q,
            {
                let lr = road.lanes[q];
                assert(self.has_lane(road.lanes@[q as int].id));
                let at_i = match lr.direction {
                    LaneDirection::Forward => if ends_here { road.dst == i } else { road.src == i },
                    LaneDirection::Backward => if ends_here { road.src == i } else { road.dst == i },
                };
                let ghost before = out@;
                let excluded = match exclude {
                    Some(x) => x == rid,
                    None => false,
                };
                if lr.kind == LaneKind::Driving && at_i && !excluded {
                    out.push(lr.id);
                    proof {
                        assert(self.driving_lane_at(i, lr.id, ends_here, exclude));
                        assert forall|t: int| 0 <= t < out@.len() implies self.driving_lane_at(i, #[trigger] out@[t], ends_here, exclude) by {
                            if t < before.len() {
                                assert(out@[t] == before[t]);
                            }
                        }
                    }
                }
                proof {
                    assert forall|l: LaneID| #[trigger] self.driving_lane_at(i, l, ends_here, exclude) && (exists|u: int|
                        0 <= u < p && inter.roads@[u] == self.lane(l).parent) implies out@.contains(l) by {
                        assert(before.contains(l));
                        let w = choose|w: int| 0 <= w < before.len() && before[w] == l;
                        assert(out@[w] == l);
                    }
                    assert forall|l: LaneID| #[trigger] self.driving_lane_at(i, l, ends_here, exclude) && self.lane(l).parent == rid
                        && (exists|w: int| 0 <= w < q + 1 && road.lanes@[w].id == l) implies out@.contains(l) by {
                        let w = choose|w: int| 0 <= w < q + 1 && road.lanes@[w].id == l;
                        if w < q {
                            assert(before.contains(l));
                            let z = choose|z: int| 0 <= z < before.len() && before[z] == l;
                            assert(out@[z] == l);
                        } else {
                            assert(out@[out@.len() - 1] == l);
                        }
                    }
                }
                q += 1;
            }
            proof {
                assert forall|l: LaneID| #[trigger] self.driving_lane_at(i, l, ends_here, exclude) && (exists|u: int|
                    0 <= u < p + 1 && inter.roads@[u] == self.lane(l).parent) implies out@.contains(l) by {
                    let u = choose|u: int| 0 <= u < p + 1 && inter.roads@[u] == self.lane(l).parent;
                    if u == p {
                        assert(self.lane_ok(l.0));
                        let rf = LaneRef { id: l, kind: self.lane(l).kind, direction: self.lane(l).direction };
                        assert(road.lanes@.contains(rf));
                        let w = choose|w: int| 0 <= w < road.lanes@.len() && road.lanes@[w] == rf;
                        assert(road.lanes@[w].id == l);
                    }
                }
            }
            p += 1;
        }
        proof {
            assert forall|l: LaneID| #[trigger] self.driving_lane_at(i, l, ends_here, exclude) implies out@.contains(l) by {
                assert(self.lane_ok(l.0));
                let r = self.lane(l).parent;
                assert(self.road_ok(r.0));
                assert(inter.roads@.contains(r));
                let u = choose|u: int| 0 <= u < inter.roads@.len() && inter.roads@[u] == r;
            }
        }
        out
    }

    /// The turn table of an intersection: every legal movement through it.
    pub fn turns(&self, i: IntersectionID) -> (r: Vec<(LaneID, LaneID)>)
        requires
            self.wf(),
        ensures
            forall|t: int| 0 <= t < r@.len() ==> self.turn_ok(i, (#[trigger] r@[t]).0, r@[t].1),
            forall|a: LaneID, b: LaneID| #[trigger] self.turn_ok(i, a, b) ==> r@.contains((a, b)),
    {
        let incoming = self.driving_lanes_at(i, true, None);
        let mut out: Vec<(LaneID, LaneID)> = Vec::new();
        let mut p: usize = 0;
        while p < incoming.len()
            invariant
                self.wf(),
                p <= incoming@.len(),
                forall|t: int| 0 <= t < incoming@.len() ==> self.driving_lane_at(i, #[trigger] incoming@[t], true, None),
                forall|l: LaneID| #[trigger] self.driving_lane_at(i, l, true, None) ==> incoming@.contains(l),
                forall|t: int| 0 <= t < out@.len() ==> self.turn_ok(i, (#[trigger] out@[t]).0, out@[t].1),
                forall|a: LaneID, b: LaneID| #[trigger] self.turn_ok(i, a, b) && (exists|u: int|
                    0 <= u < p && incoming@[u] == a) ==> out@.contains((a, b)),
            decreases incoming@.len() - p,
        {
            let a = incoming[p];
            assert(self.driving_lane_at(i, incoming@[p as int], true, None));
            let parent = self.lanes.get(a.0).unwrap().parent;
            let outgoing = self.driving_lanes_at(i, false, Some(parent));
            let mut q: usize = 0;
            while q < outgoing.len()
                invariant
                    self.wf(),
                    p < incoming@.len(),
                    a == incoming@[p as int],
                    self.driving_lane_at(i, a, true, None),
                    parent == self.lane(a).parent,
                    q <= outgoing@.len(),
                    forall|t: int| 0 <= t < outgoing@.len() ==> self.driving_lane_at(i, #[trigger] outgoing@[t], false, Some(parent)),
                    forall|t: int| 0 <= t < out@.len() ==> self.turn_ok(i, (#[trigger] out@[t]).0, out@[t].1),
                    forall|x: LaneID, y: LaneID| #[trigger] self.turn_ok(i, x, y) && (exists|u: int|
                        0 <= u < p && incoming@[u] == x) ==> out@.contains((x, y)),
                    forall|w: int| 0 <= w < q ==> out@.contains((a, #[trigger] outgoing@[w])),
                decreases outgoing@.len() - q,
            {
                let b = outgoing[q];
                let ghost before = out@;
                out.push((a, b));
                proof {
                    assert(self.driving_lane_at(i, outgoing@[q as int], false, Some(parent)));
                    assert forall|t: int| 0 <= t < out@.len() implies self.turn_ok(i, (#[trigger] out@[t]).0, out@[t].1) by {
                        if t < before.len() {
                            assert(out@[t] == before[t]);
                        }
                    }
                    assert forall|x: LaneID, y: LaneID| #[trigger] self.turn_ok(i, x, y) && (exists|u: int|
                        0 <= u < p && incoming@[u] == x) implies out@.contains((x, y)) by {
                        let z = choose|z: int| 0 <= z < before.len() && before[z] == (x, y);
                        assert(out@[z] == (x, y));
                    }
                    assert forall|w: int| 0 <= w < q + 1 implies out@.contains((a, #[trigger] outgoing@[w])) by {
                        if w < q {
                            let z = choose|z: int| 0 <= z < before.len() && before[z] == (a, outgoing@[w]);
                            assert(out@[z] == (a, outgoing@[w]));
                        } else {
                            assert(out@[out@.len() - 1] == (a, b));
                        }
                    }
                }
                q += 1;
            }
            proof {
                assert forall|x: LaneID, y: LaneID| #[trigger] self.turn_ok(i, x, y) && (exists|u: int|
                    0 <= u < p + 1 && incoming@[u] == x) implies out@.contains((x, y)) by {
                    let u = choose|u: int| 0 <= u < p + 1 && incoming@[u] == x;
                    if u == p {
                        assert(self.driving_lane_at(i, y, false, Some(parent)));
                        let w = choose|w: int| 0 <= w < outgoing@.len() && outgoing@[w] == y;
                        assert(out@.contains((a, outgoing@[w])));
                    }
                }
            }
            p += 1;
        }
        proof {
            assert forall|a: LaneID, b: LaneID| #[trigger] self.turn_ok(i, a, b) implies out@.contains((a, b)) by {
                assert(incoming@.contains(a));
                let u = choose|u: int| 0 <= u < incoming@.len() && incoming@[u] == a;
            }
        }
        out
    }
}

impl Default for RoadMap {
    fn default() -> (r: RoadMap)
        ensures
            r.wf(),
            forall|k: u64| !(#[trigger] r.inters().has(k)),
            forall|k: u64| !(#[trigger] r.road_store().has(k)),
    {
        RoadMap::empty()
    }
}

/// A consistent store has no dangling parents and no stale road geometry: every
/// lane's road exists, every parking spot's lane exists, and every road's stored end
/// points are its intersections' current positions. Every operation that changes
/// the store keeps it consistent.
pub proof fn lemma_consistent(m: RoadMap)
    requires
        m.wf(),
    ensures
        forall|k: u64| #[trigger] m.lane_store().has(k) ==> m.has_road(m.lane_store().at(k).parent),
        forall|k: u64| #[trigger] m.spot_store().has(k) ==> m.has_lane(m.spot_store().at(k).parent),
        forall|k: u64| #[trigger]
            m.road_store().has(k) ==> m.has_inter(m.road_store().at(k).src) && m.has_inter(
                m.road_store().at(k).dst,
            ) && m.road_store().at(k).src_point == m.inter(m.road_store().at(k).src).pos
                && m.road_store().at(k).dst_point == m.inter(m.road_store().at(k).dst).pos,
{
    assert forall|k: u64| #[trigger] m.lane_store().has(k) implies m.has_road(m.lane_store().at(k).parent) by {
        assert(m.lane_ok(k));
    }
    assert forall|k: u64| #[trigger] m.spot_store().has(k) implies m.has_lane(m.spot_store().at(k).parent) by {
        assert(m.spot_ok(k));
    }
    assert forall|k: u64| #[trigger] m.road_store().has(k) implies m.has_inter(m.road_store().at(k).src)
        && m.has_inter(m.road_store().at(k).dst) && m.road_store().at(k).src_point == m.inter(
        m.road_store().at(k).src,
    ).pos && m.road_store().at(k).dst_point == m.inter(m.road_store().at(k).dst).pos by {
        assert(m.road_ok(k) && m.geometry_ok(k));
    }
}

/// Projecting any point on a map with no intersection and no road gives the
/// ground at that point.
pub proof fn lemma_project_empty(m: RoadMap, pos: Vec2, r: MapProject)
    requires
        forall|k: u64| !#[trigger] m.inters().has(k),
        forall|k: u64| !#[trigger] m.road_store().has(k),
        m.project_ok(pos, r),
    ensures
        r == (MapProject { pos, kind: ProjectKind::Ground }),
{
}

/// An isolated intersection within the snap radius is the answer, whatever roads
/// are near, when no other isolated intersection exists.
pub proof fn lemma_project_snaps(m: RoadMap, pos: Vec2, i: IntersectionID, r: MapProject)
    requires
        m.isolated(i.0),
        m.inter(i).pos.dist2_spec(pos) < SNAP_RADIUS * SNAP_RADIUS,
        forall|k: u64| #[trigger] m.isolated(k) ==> k == i.0,
        m.project_ok(pos, r),
    ensures
        r == (MapProject { pos: m.inter(i).pos, kind: ProjectKind::Inter(i) }),
{
    assert(m.isolated(i.0) && m.inters().at(i.0).pos.dist2_spec(pos) < SNAP_RADIUS * SNAP_RADIUS);
    assert(m.isolated(r.kind->Inter_0.0));
}

} // verus!
