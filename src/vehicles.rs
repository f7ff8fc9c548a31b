use vstd::prelude::*;

use crate::geom::{
    abs, cross_spec, dot_spec, heading_ok, isqrt, isqrt_spec, lemma_isqrt_unique,
    lemma_mul_abs_bound, normalize, normalize_spec, scale_spec, Vec2, UNIT,
};
use crate::itinerary::{Itinerary, OBJECTIVE_OK_DIST};
use crate::map::{LaneID, ParkingSpotID, RoadMap};
use crate::spline::Spline;
use crate::traffic::TrafficBehavior;

verus! {

/// Largest speed, in centimetres per second.
pub const MAX_SPEED: i64 = 10_000;

/// Largest collision radius, in centimetres.
pub const MAX_RADIUS: i64 = 2_000;

/// Free distance reported when nothing is in the way, in centimetres.
pub const MAX_FRONT_DIST: i64 = 5_000;

#[derive(Clone, Copy, Debug, PartialEq, Eq, Structural)]
pub enum VehicleKind {
    Car,
    Bus,
    Truck,
}

impl VehicleKind {
    /// Length of the vehicle, in centimetres.
    pub open spec fn width_spec(self) -> int {
        match self {
            VehicleKind::Car => 450,
            VehicleKind::Bus => 900,
            VehicleKind::Truck => 600,
        }
    }

    /// In centimetres per second squared.
    pub open spec fn acceleration_spec(self) -> int {
        match self {
            VehicleKind::Car => 300,
            VehicleKind::Bus => 200,
            VehicleKind::Truck => 150,
        }
    }

    /// In centimetres per second squared.
    pub open spec fn deceleration_spec(self) -> int {
        match self {
            VehicleKind::Car => 900,
            VehicleKind::Bus => 900,
            VehicleKind::Truck => 700,
        }
    }

    /// In centimetres per second.
    pub open spec fn cruising_speed_spec(self) -> int {
        match self {
            VehicleKind::Car => 1_200,
            VehicleKind::Bus => 1_000,
            VehicleKind::Truck => 900,
        }
    }

    /// In centimetres.
    pub open spec fn min_turning_radius_spec(self) -> int {
        match self {
            VehicleKind::Car => 300,
            VehicleKind::Bus => 500,
            VehicleKind::Truck => 500,
        }
    }

    /// In thousandths of a radian per second squared.
    pub open spec fn ang_acc_spec(self) -> int {
        match self {
            VehicleKind::Car => 1_000,
            VehicleKind::Bus => 800,
            VehicleKind::Truck => 800,
        }
    }

    pub fn width(self) -> (r: i64)
        ensures
            r == self.width_spec(),
    {
        match self {
            VehicleKind::Car => 450,
            VehicleKind::Bus => 900,
            VehicleKind::Truck => 600,
        }
    }

    pub fn acceleration(self) -> (r: i64)
        ensures
            r == self.acceleration_spec(),
    {
        match self {
            VehicleKind::Car => 300,
            VehicleKind::Bus => 200,
            VehicleKind::Truck => 150,
        }
    }

    pub fn deceleration(self) -> (r: i64)
        ensures
            r == self.deceleration_spec(),
    {
        match self {
            VehicleKind::Car => 900,
            VehicleKind::Bus => 900,
            VehicleKind::Truck => 700,
        }
    }

    pub fn cruising_speed(self) -> (r: i64)
        ensures
            r == self.cruising_speed_spec(),
    {
        match self {
            VehicleKind::Car => 1_200,
            VehicleKind::Bus => 1_000,
            VehicleKind::Truck => 900,
        }
    }

    pub fn min_turning_radius(self) -> (r: i64)
        ensures
            r == self.min_turning_radius_spec(),
    {
        match self {
            VehicleKind::Car => 300,
            VehicleKind::Bus => 500,
            VehicleKind::Truck => 500,
        }
    }

    pub fn ang_acc(self) -> (r: i64)
        ensures
            r == self.ang_acc_spec(),
    {
        match self {
            VehicleKind::Car => 1_000,
            VehicleKind::Bus => 800,
            VehicleKind::Truck => 800,
        }
    }
}

#[derive(Clone, Copy, Debug, PartialEq, Eq, Structural)]
pub enum PhysicsGroup {
    Vehicles,
    Pedestrians,
}

/// What the spatial index knows of an agent.
#[derive(Clone, Copy, Debug, PartialEq, Eq, Structural)]
pub struct PhysicsObject {
    pub dir: Vec2,
    /// In centimetres per second.
    pub speed: i64,
    /// In centimetres.
    pub radius: i64,
    pub group: PhysicsGroup,
}

impl PhysicsObject {
    pub open spec fn valid(self) -> bool {
        heading_ok(self.dir) && 0 <= self.speed <= MAX_SPEED && 0 <= self.radius <= MAX_RADIUS
    }
}

/// An agent near the one deciding, as the spatial index reports it.
#[derive(Clone, Copy, Debug, PartialEq, Eq, Structural)]
pub struct Neighbor {
    pub handle: u64,
    pub pos: Vec2,
    pub obj: PhysicsObject,
}

impl Neighbor {
    pub open spec fn valid(self) -> bool {
        self.pos.in_world() && self.obj.valid()
    }
}

pub open spec fn min(a: int, b: int) -> int {
    if a < b { a } else { b }
}

/// Where a ray starts: `radius` behind `pos` along `dir`.
pub open spec fn ray_from(pos: Vec2, dir: Vec2, radius: int) -> (int, int) {
    (
        pos.x - scale_spec(dir.x * radius, 1, UNIT as int),
        pos.y - scale_spec(dir.y * radius, 1, UNIT as int),
    )
}

/// Distances from the origins of two rays to their crossing point, when they cross
/// ahead of both: `a + s * u == b + t * v` with `s, t >= 0`, scaled by `UNIT`.
pub open spec fn ray_dists(a: (int, int), u: Vec2, b: (int, int), v: Vec2) -> Option<(int, int)> {
    let c = cross_spec(u.x as int, u.y as int, v.x as int, v.y as int);
    let wx = b.0 - a.0;
    let wy = b.1 - a.1;
    let sn = cross_spec(wx, wy, v.x as int, v.y as int);
    let tn = cross_spec(wx, wy, u.x as int, u.y as int);
    if c == 0 || sn * c < 0 || tn * c < 0 {
        None
    } else {
        Some((abs(sn) * UNIT / abs(c), abs(tn) * UNIT / abs(c)))
    }
}

/// Cosine threshold of the forward cone, in thousandths: it narrows with speed.
pub open spec fn cone_threshold(speed: int) -> int {
    850 - 15 * min(speed, 1000) / 100
}

pub open spec fn is_vehicle(o: PhysicsObject) -> bool {
    o.group == PhysicsGroup::Vehicles
}

/// Whether a neighbor lies in the forward cone of an agent at `pos` facing `dir`.
pub open spec fn in_front_cone(pos: Vec2, dir: Vec2, me: PhysicsObject, on_lane: bool, n: Neighbor) -> bool {
    let tx = n.pos.x - pos.x;
    let ty = n.pos.y - pos.y;
    let dist = isqrt_spec(tx * tx + ty * ty);
    let dot = dot_spec(tx, ty, dir.x as int, dir.y as int);
    let side = abs(cross_spec(tx, ty, dir.x as int, dir.y as int));
    &&& dot > cone_threshold(me.speed as int) * dist
    &&& (!is_vehicle(n.obj) || dot_spec(n.obj.dir.x as int, n.obj.dir.y as int, dir.x as int, dir.y as int) > 0)
    &&& (!on_lane || side < 300 * UNIT)
}

/// How far ahead neighbor `n` leaves the road free, if it is in the way at all.
pub open spec fn obstruction(pos: Vec2, dir: Vec2, me: PhysicsObject, on_lane: bool, n: Neighbor) -> Option<int> {
    let tx = n.pos.x - pos.x;
    let ty = n.pos.y - pos.y;
    let dist = isqrt_spec(tx * tx + ty * ty);
    let dot = dot_spec(tx, ty, dir.x as int, dir.y as int);
    if tx == 0 && ty == 0 {
        None
    } else if dot < 0 {
        None
    } else if in_front_cone(pos, dir, me, on_lane, n) {
        Some(dist - me.radius - n.obj.radius - if is_vehicle(n.obj) { 0int } else { 100int })
    } else if !is_vehicle(n.obj) {
        None
    } else {
        match ray_dists(
            ray_from(pos, dir, me.radius as int),
            dir,
            ray_from(n.pos, n.obj.dir, n.obj.radius as int),
            n.obj.dir,
        ) {
            None => None,
            Some((mine, his)) => if mine - min(me.speed as int, 250) - me.radius < his - min(
                n.obj.speed as int,
                250,
            ) - n.obj.radius {
                None
            } else {
                Some(dist - me.radius - n.obj.radius - 500)
            },
        }
    }
}

/// The free distance ahead over the first `k` neighbors, skipping the agent itself.
pub open spec fn front_fold(
    pos: Vec2,
    dir: Vec2,
    me: PhysicsObject,
    me_handle: u64,
    on_lane: bool,
    neighs: Seq<Neighbor>,
    k: int,
) -> int
    decreases k,
{
    if k <= 0 {
        MAX_FRONT_DIST as int
    } else {
        let prev = front_fold(pos, dir, me, me_handle, on_lane, neighs, k - 1);
        let n = neighs[k - 1];
        if n.handle == me_handle {
            prev
        } else {
            match obstruction(pos, dir, me, on_lane, n) {
                Some(d) => min(prev, d),
                None => prev,
            }
        }
    }
}

fn ray_origin(pos: Vec2, dir: Vec2, radius: i64) -> (r: (i128, i128))
    requires
        pos.in_world(),
        heading_ok(dir),
        0 <= radius <= MAX_RADIUS,
    ensures
        r.0 == ray_from(pos, dir, radius as int).0,
        r.1 == ray_from(pos, dir, radius as int).1,
        -0x4000_1000 <= r.0 <= 0x4000_1000,
        -0x4000_1000 <= r.1 <= 0x4000_1000,
{
    proof {
        lemma_mul_abs_bound(dir.x as int, radius as int, 1000, 2000);
        lemma_mul_abs_bound(dir.y as int, radius as int, 1000, 2000);
    }
    let ox = crate::geom::scale(dir.x * radius, 1, 1000);
    let oy = crate::geom::scale(dir.y * radius, 1, 1000);
    (pos.x as i128 - ox as i128, pos.y as i128 - oy as i128)
}

fn ray_distances(a: (i128, i128), u: Vec2, b: (i128, i128), v: Vec2) -> (r: Option<(i128, i128)>)
    requires
        -0x4000_1000 <= a.0 <= 0x4000_1000,
        -0x4000_1000 <= a.1 <= 0x4000_1000,
        -0x4000_1000 <= b.0 <= 0x4000_1000,
        -0x4000_1000 <= b.1 <= 0x4000_1000,
        heading_ok(u),
        heading_ok(v),
    ensures
        r is None <==> ray_dists((a.0 as int, a.1 as int), u, (b.0 as int, b.1 as int), v) is None,
        r is Some ==> ray_dists((a.0 as int, a.1 as int), u, (b.0 as int, b.1 as int), v)
            == Some((r->Some_0.0 as int, r->Some_0.1 as int)),
{
    let ux = u.x as i128;
    let uy = u.y as i128;
    let vx = v.x as i128;
    let vy = v.y as i128;
    proof {
        lemma_mul_abs_bound(ux as int, vy as int, 1000, 1000);
        lemma_mul_abs_bound(uy as int, vx as int, 1000, 1000);
    }
    let c = ux * vy - uy * vx;
    let wx = b.0 - a.0;
    let wy = b.1 - a.1;
    proof {
        lemma_mul_abs_bound(wx as int, vy as int, 0x8000_2000, 1000);
        lemma_mul_abs_bound(wy as int, vx as int, 0x8000_2000, 1000);
        lemma_mul_abs_bound(wx as int, uy as int, 0x8000_2000, 1000);
        lemma_mul_abs_bound(wy as int, ux as int, 0x8000_2000, 1000);
    }
    let sn = wx * vy - wy * vx;
    let tn = wx * uy - wy * ux;
    proof {
        lemma_mul_abs_bound(sn as int, c as int, 0x1_0000_4000int * 1000, 2_000_000);
        lemma_mul_abs_bound(tn as int, c as int, 0x1_0000_4000int * 1000, 2_000_000);
    }
    if c == 0 || sn * c < 0 || tn * c < 0 {
        return None;
    }
    let ac: i128 = if c < 0 { -c } else { c };
    let asn: i128 = if sn < 0 { -sn } else { sn };
    let atn: i128 = if tn < 0 { -tn } else { tn };
    Some(((asn * 1000) / ac, (atn * 1000) / ac))
}

fn obstruction_of(pos: Vec2, dir: Vec2, me: PhysicsObject, on_lane: bool, n: Neighbor) -> (r: Option<i64>)
    requires
        pos.in_world(),
        heading_ok(dir),
        me.valid(),
        n.valid(),
    ensures
        r is None <==> obstruction(pos, dir, me, on_lane, n) is None,
        r is Some ==> obstruction(pos, dir, me, on_lane, n) == Some(r->Some_0 as int),
        r is Some ==> r->Some_0 >= -5 * MAX_RADIUS,
{
    let tx = n.pos.x as i128 - pos.x as i128;
    let ty = n.pos.y as i128 - pos.y as i128;
    if tx == 0 && ty == 0 {
        return None;
    }
    let dx = dir.x as i128;
    let dy = dir.y as i128;
    proof {
        lemma_mul_abs_bound(tx as int, tx as int, 0x8000_0000, 0x8000_0000);
        lemma_mul_abs_bound(ty as int, ty as int, 0x8000_0000, 0x8000_0000);
        lemma_mul_abs_bound(tx as int, dx as int, 0x8000_0000, 1000);
        lemma_mul_abs_bound(ty as int, dy as int, 0x8000_0000, 1000);
        lemma_mul_abs_bound(tx as int, dy as int, 0x8000_0000, 1000);
        lemma_mul_abs_bound(ty as int, dx as int, 0x8000_0000, 1000);
        assert(tx * tx >= 0 && ty * ty >= 0) by (nonlinear_arith);
    }
    let d2 = (tx * tx + ty * ty) as u128;
    let dist64 = isqrt(d2);
    proof {
        lemma_isqrt_unique(d2 as int, dist64 as int);
        assert(dist64 <= 0x1_0000_0000) by (nonlinear_arith)
            requires dist64 * dist64 <= d2, d2 <= 0x8000_0000_0000_0000;
    }
    let dist = dist64 as i128;
    let dot = tx * dx + ty * dy;
    if dot < 0 {
        return None;
    }
    let cross = tx * dy - ty * dx;
    let side: i128 = if cross < 0 { -cross } else { cross };
    let vehicle = n.obj.group == PhysicsGroup::Vehicles;
    let capped: i128 = if me.speed < 1000 { me.speed as i128 } else { 1000 };
    let threshold = 850 - 15 * capped / 100;
    let ex = n.obj.dir.x as i128;
    let ey = n.obj.dir.y as i128;
    proof {
        lemma_mul_abs_bound(ex as int, dx as int, 1000, 1000);
        lemma_mul_abs_bound(ey as int, dy as int, 1000, 1000);
    }
    let ndot = ex * dx + ey * dy;
    proof {
        lemma_mul_abs_bound(threshold as int, dist as int, 1000, 0x1_0000_0000);
    }
    if dot > threshold * dist && (!vehicle || ndot > 0) && (!on_lane || side < 300 * 1000) {
        let extra: i128 = if vehicle { 0 } else { 100 };
        return Some((dist - me.radius as i128 - n.obj.radius as i128 - extra) as i64);
    }
    if !vehicle {
        return None;
    }
    let a = ray_origin(pos, dir, me.radius);
    let b = ray_origin(n.pos, n.obj.dir, n.obj.radius);
    match ray_distances(a, dir, b, n.obj.dir) {
        None => None,
        Some((mine, his)) => {
            let my_speed: i128 = if me.speed < 250 { me.speed as i128 } else { 250 };
            let his_speed: i128 = if n.obj.speed < 250 { n.obj.speed as i128 } else { 250 };
            if mine - my_speed - (me.radius as i128) < his - his_speed - (n.obj.radius as i128) {
                None
            } else {
                Some((dist - me.radius as i128 - n.obj.radius as i128 - 500) as i64)
            }
        },
    }
}

/// The free distance ahead of an agent before the nearest obstruction: a neighbor
/// in its forward cone, or a vehicle whose path crosses its own and which would
/// reach the crossing no later than it.
pub fn calc_front_dist(
    pos: Vec2,
    dir: Vec2,
    me: PhysicsObject,
    me_handle: u64,
    on_lane: bool,
    neighs: &Vec<Neighbor>,
) -> (r: i64)
    requires
        pos.in_world(),
        heading_ok(dir),
        me.valid(),
        forall|i: int| 0 <= i < neighs@.len() ==> #[trigger] neighs@[i].valid(),
    ensures
        r == front_fold(pos, dir, me, me_handle, on_lane, neighs@, neighs@.len() as int),
        -5 * MAX_RADIUS <= r <= MAX_FRONT_DIST,
{
    let mut min_front: i64 = MAX_FRONT_DIST;
    let mut i: usize = 0;
    while i < neighs.len()
        invariant
            pos.in_world(),
            heading_ok(dir),
            me.valid(),
            forall|t: int| 0 <= t < neighs@.len() ==> #[trigger] neighs@[t].valid(),
            i <= neighs@.len(),
            min_front == front_fold(pos, dir, me, me_handle, on_lane, neighs@, i as int),
            -5 * MAX_RADIUS <= min_front <= MAX_FRONT_DIST,
        decreases neighs@.len() - i,
    {
        let n = neighs[i];
        assert(neighs@[i as int].valid());
        if n.handle != me_handle {
            match obstruction_of(pos, dir, me, on_lane, n) {
                Some(d) => {
                    if d < min_front {
                        min_front = d;
                    }
                },
                None => {},
            }
        }
        i += 1;
    }
    min_front
}

/// Seen from either ray, the crossing point is at the same two distances.
pub proof fn lemma_ray_dists_swap(a: (int, int), u: Vec2, b: (int, int), v: Vec2)
    ensures
        ray_dists(a, u, b, v) is Some ==> ray_dists(b, v, a, u) == Some(
            (ray_dists(a, u, b, v)->Some_0.1, ray_dists(a, u, b, v)->Some_0.0),
        ),
{
    let c = cross_spec(u.x as int, u.y as int, v.x as int, v.y as int);
    let c2 = cross_spec(v.x as int, v.y as int, u.x as int, u.y as int);
    let wx = b.0 - a.0;
    let wy = b.1 - a.1;
    let sn = cross_spec(wx, wy, v.x as int, v.y as int);
    let tn = cross_spec(wx, wy, u.x as int, u.y as int);
    let sn2 = cross_spec(-wx, -wy, u.x as int, u.y as int);
    let tn2 = cross_spec(-wx, -wy, v.x as int, v.y as int);
    let (ux, uy, vx, vy) = (u.x as int, u.y as int, v.x as int, v.y as int);
    assert(c2 == -c) by (nonlinear_arith)
        requires c2 == vx * uy - vy * ux, c == ux * vy - uy * vx;
    assert(sn2 == -tn) by (nonlinear_arith)
        requires sn2 == (-wx) * uy - (-wy) * ux, tn == wx * uy - wy * ux;
    assert(tn2 == -sn) by (nonlinear_arith)
        requires tn2 == (-wx) * vy - (-wy) * vx, sn == wx * vy - wy * vx;
    assert(a.0 - b.0 == -wx && a.1 - b.1 == -wy);
    assert(sn2 * c2 == tn * c) by (nonlinear_arith) requires sn2 == -tn, c2 == -c;
    assert(tn2 * c2 == sn * c) by (nonlinear_arith) requires tn2 == -sn, c2 == -c;
}

/// Two vehicles whose paths cross, each outside the other's forward cone and each
/// ahead of the other's rear: the one that reaches the crossing first (by the ray
/// distances, less what its speed and size allow) is not held up by the other,
/// while the other sees it as an obstruction five metres closer than it is.
pub proof fn lemma_crossing_yield(a: Neighbor, b: Neighbor, lane_a: bool, lane_b: bool)
    requires
        a.valid(),
        b.valid(),
        is_vehicle(a.obj),
        is_vehicle(b.obj),
        a.pos != b.pos,
        dot_spec(
            b.pos.x - a.pos.x,
            b.pos.y - a.pos.y,
            a.obj.dir.x as int,
            a.obj.dir.y as int,
        ) >= 0,
        dot_spec(
            a.pos.x - b.pos.x,
            a.pos.y - b.pos.y,
            b.obj.dir.x as int,
            b.obj.dir.y as int,
        ) >= 0,
        !in_front_cone(a.pos, a.obj.dir, a.obj, lane_a, b),
        !in_front_cone(b.pos, b.obj.dir, b.obj, lane_b, a),
        ray_dists(
            ray_from(a.pos, a.obj.dir, a.obj.radius as int),
            a.obj.dir,
            ray_from(b.pos, b.obj.dir, b.obj.radius as int),
            b.obj.dir,
        ) is Some,
        ({
            let (da, db) = ray_dists(
                ray_from(a.pos, a.obj.dir, a.obj.radius as int),
                a.obj.dir,
                ray_from(b.pos, b.obj.dir, b.obj.radius as int),
                b.obj.dir,
            )->Some_0;
            da - min(a.obj.speed as int, 250) - a.obj.radius < db - min(b.obj.speed as int, 250)
                - b.obj.radius
        }),
    ensures
        obstruction(a.pos, a.obj.dir, a.obj, lane_a, b) is None,
        obstruction(b.pos, b.obj.dir, b.obj, lane_b, a) == Some(
            isqrt_spec(a.pos.dist2_spec(b.pos)) - a.obj.radius - b.obj.radius - 500,
        ),
{
    let ra = ray_from(a.pos, a.obj.dir, a.obj.radius as int);
    let rb = ray_from(b.pos, b.obj.dir, b.obj.radius as int);
    lemma_ray_dists_swap(ra, a.obj.dir, rb, b.obj.dir);
    let tx = a.pos.x - b.pos.x;
    let ty = a.pos.y - b.pos.y;
    assert((a.pos.x - b.pos.x) * (a.pos.x - b.pos.x) == (b.pos.x - a.pos.x) * (b.pos.x - a.pos.x))
        by (nonlinear_arith);
    assert((a.pos.y - b.pos.y) * (a.pos.y - b.pos.y) == (b.pos.y - a.pos.y) * (b.pos.y - a.pos.y))
        by (nonlinear_arith);
}

#[derive(Clone, Copy, Debug, PartialEq, Eq, Structural)]
pub enum VehicleState {
    Driving,
    /// On rails towards a parking spot along the curve; the milliseconds spent so far.
    RoadToPark(Spline, u64),
    Parked(ParkingSpotID),
}

/// The per-agent state of a vehicle.
#[derive(Clone, Copy, Debug, PartialEq, Eq, Structural)]
pub struct Vehicle {
    pub kind: VehicleKind,
    pub state: VehicleState,
    pub park_spot: Option<ParkingSpotID>,
    /// In thousandths of a radian per second.
    pub ang_velocity: i64,
    /// Milliseconds left to stand still.
    pub wait_time: u64,
}

impl Vehicle {
    /// The parking curve, if any, stays inside the world with bounded derivatives.
    pub open spec fn valid(self) -> bool {
        &&& self.state is RoadToPark ==> self.state->RoadToPark_0.valid()
        &&& 0 <= self.ang_velocity <= MAX_ANG_VEL
    }
}

/// Position and heading of an agent.
#[derive(Clone, Copy, Debug, PartialEq, Eq, Structural)]
pub struct Transform {
    pub position: Vec2,
    pub direction: Vec2,
}

/// The simulation clock, in milliseconds.
#[derive(Clone, Copy, Debug, PartialEq, Eq, Structural)]
pub struct TimeInfo {
    pub time: u64,
    pub delta: u64,
}

/// Distance needed to stop from `speed` at deceleration `decel`.
pub open spec fn stop_dist(speed: int, decel: int) -> int {
    speed * speed / (2 * decel)
}

/// How close to a red or orange light a vehicle may come, besides its stopping distance.
pub open spec fn light_margin(kind: VehicleKind) -> int {
    let half = kind.width_spec() / 2 - OBJECTIVE_OK_DIST;
    OBJECTIVE_OK_DIST * 105 / 100 + 200 + if half > 0 { half } else { 0 }
}

/// How close to a stop sign a vehicle may come, besides its stopping distance.
pub open spec fn stop_sign_margin() -> int {
    OBJECTIVE_OK_DIST * 95 / 100
}

/// The short wait of a vehicle that is stuck, spread by its position so that
/// stuck vehicles do not all start again at once.
pub open spec fn standing_wait(pos: Vec2) -> int {
    (abs(pos.x as int) % 100) * 5
}

/// The signal of the lane an itinerary is on, and where that signal stands.
pub open spec fn signal_of(map: RoadMap, it: Itinerary, time: u64) -> Option<(TrafficBehavior, Vec2)> {
    match it.travers {
        Some(l) => if map.has_lane(l) {
            Some((map.lane_behavior_spec(l, time / 1000), map.control_point_spec(l)))
        } else {
            None
        },
        None => None,
    }
}

/// The desired speed and heading, and the wait left, decided from what the vehicle
/// sees: the checks are made in a fixed order and the first that holds decides.
pub open spec fn decision_spec(
    v: Vehicle,
    delta: u64,
    trans: Transform,
    obj: PhysicsObject,
    point: Option<Vec2>,
    terminal: Option<Vec2>,
    front: int,
    signal: Option<(TrafficBehavior, Vec2)>,
) -> (int, Vec2, int) {
    let pos = trans.position;
    if v.wait_time > 0 {
        (0, obj.dir, if v.wait_time > delta { v.wait_time - delta } else { 0 })
    } else if point is None {
        (0, obj.dir, 0)
    } else if obj.speed < 20 && front < 150 {
        (0, obj.dir, standing_wait(pos))
    } else {
        let p = point->Some_0;
        match normalize_spec(Vec2 { x: (p.x - pos.x) as i64, y: (p.y - pos.y) as i64 }) {
            None => (0, obj.dir, 0),
            Some(d) => {
                let stop = stop_dist(obj.speed as int, v.kind.deceleration_spec());
                if terminal is Some && terminal->Some_0.dist2_spec(pos) < (100 + stop) * (100 + stop) {
                    (0, d, 0)
                } else if signal is Some && (signal->Some_0.0 == TrafficBehavior::RED
                    || signal->Some_0.0 == TrafficBehavior::ORANGE) && signal->Some_0.1.dist2_spec(pos)
                    < (light_margin(v.kind) + stop) * (light_margin(v.kind) + stop) {
                    (0, d, 0)
                } else if signal is Some && signal->Some_0.0 == TrafficBehavior::STOP
                    && signal->Some_0.1.dist2_spec(pos) < (stop_sign_margin() + stop) * (
                stop_sign_margin() + stop) {
                    (0, d, 0)
                } else if front < 80 + stop {
                    (0, d, 0)
                } else if dot_spec(d.x as int, d.y as int, trans.direction.x as int, trans.direction.y as int)
                    < 800_000 {
                    (600, d, 0)
                } else {
                    (v.kind.cruising_speed_spec(), d, 0)
                }
            },
        }
    }
}

/// Decides the speed and heading a driving vehicle aims for this tick.
pub fn calc_decision(
    vehicle: &mut Vehicle,
    map: &RoadMap,
    time: &TimeInfo,
    trans: &Transform,
    self_obj: &PhysicsObject,
    me_handle: u64,
    it: &Itinerary,
    neighs: &Vec<Neighbor>,
) -> (r: (i64, Vec2))
    requires
        map.wf(),
        trans.position.in_world(),
        heading_ok(trans.direction),
        self_obj.valid(),
        forall|i: int| 0 <= i < neighs@.len() ==> #[trigger] neighs@[i].valid(),
        forall|i: int| 0 <= i < it.points@.len() ==> #[trigger] it.points@[i].in_world(),
    ensures
        ({
            let front = front_fold(
                trans.position,
                trans.direction,
                *self_obj,
                me_handle,
                it.travers is Some,
                neighs@,
                neighs@.len() as int,
            );
            let (speed, dir, wait) = decision_spec(
                *old(vehicle),
                time.delta,
                *trans,
                *self_obj,
                it.point_spec(),
                it.terminal_spec(),
                front,
                signal_of(*map, *it, time.time),
            );
            &&& r.0 == speed
            &&& r.1 == dir
            &&& final(vehicle).wait_time == wait
        }),
        final(vehicle).kind == old(vehicle).kind,
        final(vehicle).state == old(vehicle).state,
        final(vehicle).park_spot == old(vehicle).park_spot,
        final(vehicle).ang_velocity == old(vehicle).ang_velocity,
        heading_ok(r.1),
        0 <= r.0 <= MAX_SPEED,
{
    let default_return = (0i64, self_obj.dir);
    if vehicle.wait_time > 0 {
        vehicle.wait_time = if vehicle.wait_time > time.delta {
            vehicle.wait_time - time.delta
        } else {
            0
        };
        return default_return;
    }
    let objective = match it.get_point() {
        Some(p) => p,
        None => {
            return default_return;
        },
    };
    assert(it.points@[it.next as int].in_world());
    let terminal_pos = it.get_terminal();
    let on_lane = it.get_travers().is_some();
    let front_dist = calc_front_dist(
        trans.position,
        trans.direction,
        *self_obj,
        me_handle,
        on_lane,
        neighs,
    );
    let position = trans.position;
    let speed = self_obj.speed;
    if speed < 20 && front_dist < 150 {
        let ax: i64 = if position.x < 0 { -position.x } else { position.x };
        vehicle.wait_time = ((ax % 100) * 5) as u64;
        return default_return;
    }
    let to_obj = Vec2 { x: objective.x - position.x, y: objective.y - position.y };
    let dir_to_pos = match normalize(to_obj) {
        Some(d) => d,
        None => {
            return default_return;
        },
    };
    let decel = vehicle.kind.deceleration();
    assert(0 <= speed * speed <= MAX_SPEED * MAX_SPEED) by (nonlinear_arith)
        requires 0 <= speed <= MAX_SPEED;
    let stop: i64 = speed * speed / (2 * decel);
    assert(0 <= stop <= MAX_SPEED * MAX_SPEED);
    let stop_w = stop as i128;
    proof {
        lemma_mul_abs_bound(100 + stop_w, 100 + stop_w, 0x800_0000, 0x800_0000);
        lemma_mul_abs_bound(400 + stop_w, 400 + stop_w, 0x800_0000, 0x800_0000);
        lemma_mul_abs_bound(1000 + stop_w, 1000 + stop_w, 0x800_0000, 0x800_0000);
    }
    if let Some(tp) = terminal_pos {
        assert(it.points@.len() > 0 && it.points@[it.points@.len() - 1].in_world());
        if tp.distance2(position) < (100 + stop_w) * (100 + stop_w) {
            return (0, dir_to_pos);
        }
    }
    if let Some(l) = it.get_travers() {
        let behavior = map.lane_behavior(l, time.time / 1000);
        let point = map.lane_control_point(l);
        match (behavior, point) {
            (Some(b), Some(cp)) => {
                proof {
                    assert(map.has_lane(l));
                    map.lemma_lane_end_exists(l);
                }
                let d2 = cp.distance2(position);
                let half = vehicle.kind.width() / 2 - OBJECTIVE_OK_DIST;
                let margin: i128 = (OBJECTIVE_OK_DIST * 105 / 100 + 200 + if half > 0 {
                    half
                } else {
                    0
                }) as i128;
                proof {
                    lemma_mul_abs_bound(margin + stop_w, margin + stop_w, 0x800_0000, 0x800_0000);
                }
                if b == TrafficBehavior::RED || b == TrafficBehavior::ORANGE {
                    if d2 < (margin + stop_w) * (margin + stop_w) {
                        return (0, dir_to_pos);
                    }
                } else if b == TrafficBehavior::STOP {
                    let sm: i128 = (OBJECTIVE_OK_DIST * 95 / 100) as i128;
                    proof {
                        lemma_mul_abs_bound(sm + stop_w, sm + stop_w, 0x800_0000, 0x800_0000);
                    }
                    if d2 < (sm + stop_w) * (sm + stop_w) {
                        return (0, dir_to_pos);
                    }
                }
            },
            _ => {},
        }
    }
    if (front_dist as i128) < 80 + stop_w {
        return (0, dir_to_pos);
    }
    let (px, py) = (dir_to_pos.x as i128, dir_to_pos.y as i128);
    let (qx, qy) = (trans.direction.x as i128, trans.direction.y as i128);
    proof {
        lemma_mul_abs_bound(px as int, qx as int, 1000, 1000);
        lemma_mul_abs_bound(py as int, qy as int, 1000, 1000);
    }
    let facing = px * qx + py * qy;
    if facing < 800_000 {
        return (600, dir_to_pos);
    }
    (vehicle.kind.cruising_speed(), dir_to_pos)
}

/// A stationary vehicle whose lane shows red, closer to the light than its margin,
/// is told to stand still, whatever else it sees.
pub proof fn lemma_red_light_stops(
    v: Vehicle,
    delta: u64,
    trans: Transform,
    obj: PhysicsObject,
    point: Option<Vec2>,
    terminal: Option<Vec2>,
    front: int,
    light: Vec2,
)
    requires
        obj.speed == 0,
        light.dist2_spec(trans.position) < light_margin(v.kind) * light_margin(v.kind),
    ensures
        decision_spec(
            v,
            delta,
            trans,
            obj,
            point,
            terminal,
            front,
            Some((TrafficBehavior::RED, light)),
        ).0 == 0,
{
    assert(stop_dist(0, v.kind.deceleration_spec()) == 0);
}

/// Time to go from the road into a parking spot, in milliseconds.
pub const TIME_TO_PARK: u64 = 4_000;

/// How long a vehicle that has just parked waits before anything else, in milliseconds.
pub const PARK_WAIT: u64 = 20_000;

/// Length of the end derivatives of the parking curve, in centimetres.
pub const PARK_DERIV: i64 = 200;

/// A change that the state update asks the world to make once the tick is over.
#[derive(Clone, Copy, Debug, PartialEq, Eq, Structural)]
pub enum StateCommand {
    Nothing,
    /// The vehicle parked: take its collision shape out of the spatial index.
    RemoveCollider,
}

pub open spec fn sat_add(a: u64, b: u64) -> u64 {
    if a + b > u64::MAX { u64::MAX } else { (a + b) as u64 }
}

/// A parking-curve end derivative along heading `d`.
pub open spec fn park_deriv(d: Vec2) -> Vec2 {
    Vec2 {
        x: scale_spec(d.x * PARK_DERIV, 1, UNIT as int) as i64,
        y: scale_spec(d.y * PARK_DERIV, 1, UNIT as int) as i64,
    }
}

/// The curve from the vehicle's pose to the spot's pose.
pub open spec fn park_spline(trans: Transform, spot: (Vec2, Vec2)) -> Spline {
    let to_dir = match normalize_spec(spot.1) {
        Some(d) => d,
        None => trans.direction,
    };
    Spline {
        from: trans.position,
        to: spot.0,
        from_derivative: park_deriv(trans.direction),
        to_derivative: park_deriv(to_dir),
    }
}

/// One tick of the parking manoeuvre: progress grows by the elapsed time; once it
/// reaches `TIME_TO_PARK` the vehicle is parked at its spot (or drives on without one).
/// The flag says that the vehicle has just parked.
pub open spec fn park_step(v: Vehicle, delta: u64) -> (Vehicle, bool) {
    match v.state {
        VehicleState::RoadToPark(s, t) => {
            let t2 = sat_add(t, delta);
            if t2 >= TIME_TO_PARK {
                match v.park_spot {
                    None => (Vehicle { state: VehicleState::Driving, ..v }, false),
                    Some(p) => (Vehicle { state: VehicleState::Parked(p), ..v }, true),
                }
            } else {
                (Vehicle { state: VehicleState::RoadToPark(s, t2), ..v }, false)
            }
        },
        _ => (v, false),
    }
}

/// Decides whether a vehicle changes state: from driving to parking once its
/// itinerary has ended, and from parking to parked once the manoeuvre is over.
pub fn vehicle_state_update(
    vehicle: &mut Vehicle,
    map: &RoadMap,
    time: &TimeInfo,
    trans: &Transform,
    velocity: &mut Vec2,
    it: &mut Itinerary,
) -> (r: StateCommand)
    requires
        map.wf(),
        trans.position.in_world(),
        heading_ok(trans.direction),
        old(vehicle).valid(),
    ensures
        (old(vehicle).state is RoadToPark || old(vehicle).state is Parked) ==> {
            &&& (*final(vehicle), r == StateCommand::RemoveCollider) == park_step(*old(vehicle), time.delta)
            &&& *final(velocity) == if r == StateCommand::RemoveCollider {
                Vec2 { x: 0, y: 0 }
            } else {
                *old(velocity)
            }
            &&& *final(it) == *old(it)
        },
        old(vehicle).state is Driving ==> r == StateCommand::Nothing && if old(it).ended_spec(time.time) {
            &&& final(it).kind == crate::itinerary::ItineraryKind::WaitUntil(sat_add(time.time, PARK_WAIT))
            &&& final(it).points@.len() == 0
            &&& final(it).travers is None
            &&& if old(vehicle).park_spot is Some && map.has_spot(old(vehicle).park_spot->Some_0) {
                &&& *final(vehicle) == (Vehicle {
                    state: VehicleState::RoadToPark(
                        park_spline(*trans, map.spot_pose_spec(old(vehicle).park_spot->Some_0)),
                        0,
                    ),
                    ..*old(vehicle)
                })
                &&& *final(velocity) == (Vec2 { x: 0, y: 0 })
            } else {
                &&& *final(vehicle) == *old(vehicle)
                &&& *final(velocity) == *old(velocity)
            }
        } else {
            &&& *final(vehicle) == *old(vehicle)
            &&& *final(velocity) == *old(velocity)
            &&& *final(it) == *old(it)
        },
        final(vehicle).valid(),
{
    match vehicle.state {
        VehicleState::RoadToPark(s, t) => {
            let t2 = if t > u64::MAX - time.delta { u64::MAX } else { t + time.delta };
            if t2 >= TIME_TO_PARK {
                match vehicle.park_spot {
                    None => {
                        vehicle.state = VehicleState::Driving;
                        StateCommand::Nothing
                    },
                    Some(p) => {
                        *velocity = Vec2 { x: 0, y: 0 };
                        vehicle.state = VehicleState::Parked(p);
                        StateCommand::RemoveCollider
                    },
                }
            } else {
                vehicle.state = VehicleState::RoadToPark(s, t2);
                StateCommand::Nothing
            }
        },
        VehicleState::Driving => {
            if it.has_ended(time.time) {
                let until = if time.time > u64::MAX - PARK_WAIT { u64::MAX } else { time.time + PARK_WAIT };
                *it = Itinerary::wait_until(until);
                let pose = match vehicle.park_spot {
                    Some(p) => map.spot_pose(p),
                    None => None,
                };
                match pose {
                    None => StateCommand::Nothing,
                    Some((spot_pos, orientation)) => {
                        proof {
                            let p = vehicle.park_spot->Some_0;
                            assert(map.spot_ok(p.0));
                            assert(map.lane_ok(map.spot(p).parent.0));
                            assert(map.road_ok(map.lane(map.spot(p).parent).parent.0));
                        }
                        let to_dir = match normalize(orientation) {
                            Some(d) => d,
                            None => trans.direction,
                        };
                        let s = Spline {
                            from: trans.position,
                            to: spot_pos,
                            from_derivative: park_derivative(trans.direction),
                            to_derivative: park_derivative(to_dir),
                        };
                        vehicle.state = VehicleState::RoadToPark(s, 0);
                        *velocity = Vec2 { x: 0, y: 0 };
                        StateCommand::Nothing
                    },
                }
            } else {
                StateCommand::Nothing
            }
        },
        VehicleState::Parked(_) => StateCommand::Nothing,
    }
}

fn park_derivative(d: Vec2) -> (r: Vec2)
    requires
        heading_ok(d),
    ensures
        r == park_deriv(d),
        crate::spline::deriv_ok(r),
{
    proof {
        lemma_mul_abs_bound(d.x as int, PARK_DERIV as int, 1000, 200);
        lemma_mul_abs_bound(d.y as int, PARK_DERIV as int, 1000, 200);
    }
    Vec2 {
        x: crate::geom::scale(d.x * PARK_DERIV, 1, 1000),
        y: crate::geom::scale(d.y * PARK_DERIV, 1, 1000),
    }
}

/// The state after a run of parking ticks with the given elapsed times.
pub open spec fn park_run(v: Vehicle, deltas: Seq<u64>) -> Vehicle
    decreases deltas.len(),
{
    if deltas.len() == 0 {
        v
    } else {
        park_step(park_run(v, deltas.drop_last()), deltas.last()).0
    }
}

pub open spec fn total(deltas: Seq<u64>) -> int
    decreases deltas.len(),
{
    if deltas.len() == 0 {
        0
    } else {
        total(deltas.drop_last()) + deltas.last()
    }
}

/// The free distance ahead is at most what any other agent among the neighbors
/// leaves free.
pub proof fn lemma_front_fold_bound(
    pos: Vec2,
    dir: Vec2,
    me: PhysicsObject,
    me_handle: u64,
    on_lane: bool,
    neighs: Seq<Neighbor>,
    k: int,
    i: int,
)
    requires
        0 <= i < k <= neighs.len(),
        neighs[i].handle != me_handle,
        obstruction(pos, dir, me, on_lane, neighs[i]) is Some,
    ensures
        front_fold(pos, dir, me, me_handle, on_lane, neighs, k) <= obstruction(
            pos,
            dir,
            me,
            on_lane,
            neighs[i],
        )->Some_0,
    decreases k,
{
    if i < k - 1 {
        lemma_front_fold_bound(pos, dir, me, me_handle, on_lane, neighs, k - 1, i);
    }
}

/// Of two vehicles crossing as in `lemma_crossing_yield`, the one that would reach
/// the crossing second sees a free distance of at most their distance less both
/// radii and five metres, whatever its other neighbors.
pub proof fn lemma_second_yields(a: Neighbor, b: Neighbor, lane_a: bool, lane_b: bool, neighs: Seq<Neighbor>, i: int)
    requires
        a.valid(),
        b.valid(),
        is_vehicle(a.obj),
        is_vehicle(b.obj),
        a.pos != b.pos,
        a.handle != b.handle,
        0 <= i < neighs.len(),
        neighs[i] == a,
        dot_spec(
            b.pos.x - a.pos.x,
            b.pos.y - a.pos.y,
            a.obj.dir.x as int,
            a.obj.dir.y as int,
        ) >= 0,
        dot_spec(
            a.pos.x - b.pos.x,
            a.pos.y - b.pos.y,
            b.obj.dir.x as int,
            b.obj.dir.y as int,
        ) >= 0,
        !in_front_cone(a.pos, a.obj.dir, a.obj, lane_a, b),
        !in_front_cone(b.pos, b.obj.dir, b.obj, lane_b, a),
        ray_dists(
            ray_from(a.pos, a.obj.dir, a.obj.radius as int),
            a.obj.dir,
            ray_from(b.pos, b.obj.dir, b.obj.radius as int),
            b.obj.dir,
        ) is Some,
        ({
            let (da, db) = ray_dists(
                ray_from(a.pos, a.obj.dir, a.obj.radius as int),
                a.obj.dir,
                ray_from(b.pos, b.obj.dir, b.obj.radius as int),
                b.obj.dir,
            )->Some_0;
            da - min(a.obj.speed as int, 250) - a.obj.radius < db - min(b.obj.speed as int, 250)
                - b.obj.radius
        }),
    ensures
        front_fold(b.pos, b.obj.dir, b.obj, b.handle, lane_b, neighs, neighs.len() as int)
            <= isqrt_spec(a.pos.dist2_spec(b.pos)) - a.obj.radius - b.obj.radius - 500,
{
    lemma_crossing_yield(a, b, lane_a, lane_b);
    lemma_front_fold_bound(b.pos, b.obj.dir, b.obj, b.handle, lane_b, neighs, neighs.len() as int, i);
}

/// A vehicle that starts parking towards a spot it holds is parked there exactly
/// once the elapsed times add up to `TIME_TO_PARK`; until then it is on the curve
/// with the elapsed time as progress.
pub proof fn lemma_parks_on_time(v: Vehicle, s: Spline, p: ParkingSpotID, deltas: Seq<u64>)
    requires
        v.state == VehicleState::RoadToPark(s, 0),
        v.park_spot == Some(p),
        total(deltas) <= u64::MAX,
    ensures
        total(deltas) >= TIME_TO_PARK ==> park_run(v, deltas).state == VehicleState::Parked(p),
        total(deltas) < TIME_TO_PARK ==> park_run(v, deltas).state == VehicleState::RoadToPark(
            s,
            total(deltas) as u64,
        ),
        park_run(v, deltas).park_spot == Some(p),
    decreases deltas.len(),
{
    if deltas.len() > 0 {
        let init = deltas.drop_last();
        assert(total(init) >= 0) by {
            lemma_total_nonneg(init);
        }
        lemma_parks_on_time(v, s, p, init);
    }
}

pub proof fn lemma_total_nonneg(deltas: Seq<u64>)
    ensures
        total(deltas) >= 0,
    decreases deltas.len(),
{
    if deltas.len() > 0 {
        lemma_total_nonneg(deltas.drop_last());
    }
}

/// Ceiling of the angular velocity, in thousandths of a radian per second.
pub const MAX_ANG_VEL: i64 = 2_000;

/// Largest turn in one tick, in thousandths of a radian.
pub const MAX_TURN: i64 = 3_142;

pub open spec fn restrict(x: int, lo: int, hi: int) -> int {
    if x < lo {
        lo
    } else if x > hi {
        hi
    } else {
        x
    }
}

/// The speed after moving towards `desired` at the kind's acceleration or
/// deceleration for `delta` milliseconds, never below zero.
pub open spec fn next_speed(speed: int, desired: int, delta: int, kind: VehicleKind) -> int {
    let s = speed + restrict(
        desired - speed,
        -(delta * kind.deceleration_spec() / 1000),
        delta * kind.acceleration_spec() / 1000,
    );
    if s < 0 { 0 } else { s }
}

/// The angular velocity allowed at `speed` by the turning radius, capped.
pub open spec fn max_ang_vel(speed: int, kind: VehicleKind) -> int {
    min(speed * 1000 / kind.min_turning_radius_spec(), MAX_ANG_VEL as int)
}

/// The angular error between two headings, as the length of their difference.
pub open spec fn angle_error(a: Vec2, b: Vec2) -> int {
    isqrt_spec((a.x - b.x) * (a.x - b.x) + (a.y - b.y) * (a.y - b.y))
}

pub open spec fn next_ang_vel(ang: int, delta: int, kind: VehicleKind, error: int, cap: int) -> int {
    min(min(ang + delta * kind.ang_acc_spec() / 1000, 3 * error), cap)
}

/// Turns heading `src` towards `dst` by `amount` thousandths of a radian, or
/// snaps to `dst` once it is that close and ahead.
pub open spec fn angle_lerp_spec(src: Vec2, dst: Vec2, amount: int) -> Vec2 {
    let dot = dot_spec(src.x as int, src.y as int, dst.x as int, dst.y as int);
    let perp = cross_spec(src.x as int, src.y as int, dst.x as int, dst.y as int);
    if dot > 0 && abs(perp) < amount * 1000 {
        dst
    } else {
        let sg = if perp < 0 { -1int } else { 1int };
        let v = Vec2 {
            x: (src.x - scale_spec(src.y * sg * amount, 1, 1000)) as i64,
            y: (src.y + scale_spec(src.x * sg * amount, 1, 1000)) as i64,
        };
        match normalize_spec(v) {
            Some(d) => d,
            None => src,
        }
    }
}

/// Progress along the parking curve, in thousandths.
pub open spec fn park_param(t: u64) -> int {
    min(t * 1000 / TIME_TO_PARK as int, 1000)
}

pub fn angle_lerp(src: Vec2, dst: Vec2, amount: i64) -> (r: Vec2)
    requires
        heading_ok(src),
        heading_ok(dst),
        0 <= amount <= MAX_TURN,
    ensures
        r == angle_lerp_spec(src, dst, amount as int),
        heading_ok(r),
{
    let (sx, sy, dx, dy) = (src.x as i128, src.y as i128, dst.x as i128, dst.y as i128);
    proof {
        lemma_mul_abs_bound(sx as int, dx as int, 1000, 1000);
        lemma_mul_abs_bound(sy as int, dy as int, 1000, 1000);
        lemma_mul_abs_bound(sx as int, dy as int, 1000, 1000);
        lemma_mul_abs_bound(sy as int, dx as int, 1000, 1000);
    }
    let dot = sx * dx + sy * dy;
    let perp = sx * dy - sy * dx;
    let aperp: i128 = if perp < 0 { -perp } else { perp };
    if dot > 0 && aperp < amount as i128 * 1000 {
        return dst;
    }
    let sg: i64 = if perp < 0 { -1 } else { 1 };
    proof {
        lemma_mul_abs_bound(src.y as int, sg as int, 1000, 1);
        lemma_mul_abs_bound(src.x as int, sg as int, 1000, 1);
        lemma_mul_abs_bound((src.y * sg) as int, amount as int, 1000, MAX_TURN as int);
        lemma_mul_abs_bound((src.x * sg) as int, amount as int, 1000, MAX_TURN as int);
    }
    let ox = crate::geom::scale(src.y * sg * amount, 1, 1000);
    let oy = crate::geom::scale(src.x * sg * amount, 1, 1000);
    let v = Vec2 { x: src.x - ox, y: src.y + oy };
    match normalize(v) {
        Some(d) => d,
        None => src,
    }
}

/// Pose, velocity and angular velocity after one tick of `physics`.
pub open spec fn physics_spec(
    trans: Transform,
    velocity: Vec2,
    v: Vehicle,
    delta: u64,
    obj: PhysicsObject,
    map: RoadMap,
    desired_speed: int,
    desired_dir: Vec2,
) -> (Transform, Vec2, int) {
    match v.state {
        VehicleState::Parked(id) => if map.has_spot(id) {
            let pose = map.spot_pose_spec(id);
            let dir = match normalize_spec(pose.1) {
                Some(d) => d,
                None => trans.direction,
            };
            (Transform { position: pose.0, direction: dir }, velocity, v.ang_velocity as int)
        } else {
            (trans, velocity, v.ang_velocity as int)
        },
        VehicleState::RoadToPark(s, t) => {
            let k = park_param(t);
            let dir = match normalize_spec(s.derivative_spec(k)) {
                Some(d) => d,
                None => trans.direction,
            };
            (Transform { position: s.get_spec(k), direction: dir }, velocity, v.ang_velocity as int)
        },
        VehicleState::Driving => {
            let speed = next_speed(obj.speed as int, desired_speed, delta as int, v.kind);
            let ang = next_ang_vel(
                v.ang_velocity as int,
                delta as int,
                v.kind,
                angle_error(trans.direction, desired_dir),
                max_ang_vel(speed, v.kind),
            );
            let dir = angle_lerp_spec(
                trans.direction,
                desired_dir,
                min(ang * delta / 1000, MAX_TURN as int),
            );
            (
                Transform { position: trans.position, direction: dir },
                Vec2 {
                    x: scale_spec(dir.x * speed, 1, 1000) as i64,
                    y: scale_spec(dir.y * speed, 1, 1000) as i64,
                },
                ang,
            )
        },
    }
}

/// Moves a vehicle for one tick: on rails while parking or parked, otherwise by
/// accelerating towards the desired speed and turning towards the desired heading
/// within the kind's limits.
#[verifier::rlimit(60)]
pub fn physics(
    trans: &mut Transform,
    velocity: &mut Vec2,
    vehicle: &mut Vehicle,
    time: &TimeInfo,
    obj: &PhysicsObject,
    map: &RoadMap,
    desired_speed: i64,
    desired_dir: Vec2,
)
    requires
        map.wf(),
        old(trans).position.in_world(),
        heading_ok(old(trans).direction),
        old(vehicle).valid(),
        obj.valid(),
        heading_ok(desired_dir),
        0 <= desired_speed <= MAX_SPEED,
    ensures
        final(trans).position.in_world(),
        heading_ok(final(trans).direction),
        final(vehicle).valid(),
        final(vehicle).kind == old(vehicle).kind,
        final(vehicle).state == old(vehicle).state,
        final(vehicle).park_spot == old(vehicle).park_spot,
        final(vehicle).wait_time == old(vehicle).wait_time,
        (*final(trans), *final(velocity), final(vehicle).ang_velocity as int) == physics_spec(
            *old(trans),
            *old(velocity),
            *old(vehicle),
            time.delta,
            *obj,
            *map,
            desired_speed as int,
            desired_dir,
        ),
{
    match vehicle.state {
        VehicleState::Parked(id) => {
            match map.spot_pose(id) {
                Some((p, o)) => {
                    trans.position = p;
                    proof {
                        assert(map.spot_ok(id.0));
                        assert(map.lane_ok(map.spot(id).parent.0));
                        assert(map.road_ok(map.lane(map.spot(id).parent).parent.0));
                    }
                    match normalize(o) {
                        Some(d) => {
                            trans.direction = d;
                        },
                        None => {},
                    }
                },
                None => {},
            }
            return;
        },
        VehicleState::RoadToPark(s, t) => {
            let k: i64 = if t >= TIME_TO_PARK { 1000 } else { (t * 1000 / TIME_TO_PARK) as i64 };
            trans.position = s.get(k);
            let d = s.derivative(k);
            match normalize(d) {
                Some(d) => {
                    trans.direction = d;
                },
                None => {},
            }
            return;
        },
        VehicleState::Driving => {},
    }
    let kind = vehicle.kind;
    let delta = time.delta as i128;
    let speed = obj.speed as i128;
    let dec = kind.deceleration() as i128;
    let acc = kind.acceleration() as i128;
    let angacc = kind.ang_acc() as i128;
    proof {
        lemma_mul_abs_bound(delta as int, dec as int, u64::MAX as int, 1000);
        lemma_mul_abs_bound(delta as int, acc as int, u64::MAX as int, 1000);
        lemma_mul_abs_bound(delta as int, angacc as int, u64::MAX as int, 1000);
        assert(delta * dec >= 0 && delta * acc >= 0 && delta * angacc >= 0) by (nonlinear_arith)
            requires delta >= 0, dec >= 0, acc >= 0, angacc >= 0;
    }
    let lo = -(delta * dec / 1000);
    let hi = delta * acc / 1000;
    let diff = desired_speed as i128 - speed;
    let step = if diff < lo { lo } else if diff > hi { hi } else { diff };
    let s2 = speed + step;
    let new_speed: i64 = if s2 < 0 { 0 } else { s2 as i64 };
    assert(new_speed <= MAX_SPEED);
    let cap_raw = new_speed as i128 * 1000 / kind.min_turning_radius() as i128;
    let cap: i128 = if cap_raw < MAX_ANG_VEL as i128 { cap_raw } else { MAX_ANG_VEL as i128 };
    let ex = trans.direction.x as i128 - desired_dir.x as i128;
    let ey = trans.direction.y as i128 - desired_dir.y as i128;
    proof {
        lemma_mul_abs_bound(ex as int, ex as int, 2000, 2000);
        lemma_mul_abs_bound(ey as int, ey as int, 2000, 2000);
        assert(ex * ex >= 0 && ey * ey >= 0) by (nonlinear_arith);
    }
    let e2 = (ex * ex + ey * ey) as u128;
    let error = isqrt(e2);
    proof {
        lemma_isqrt_unique(e2 as int, error as int);
        assert(error <= 3000) by (nonlinear_arith) requires error * error <= e2, e2 <= 8_000_000;
    }
    let grown = vehicle.ang_velocity as i128 + delta * angacc / 1000;
    let a1 = if grown < 3 * error as i128 { grown } else { 3 * error as i128 };
    let ang = if a1 < cap { a1 } else { cap };
    assert(0 <= ang <= MAX_ANG_VEL);
    vehicle.ang_velocity = ang as i64;
    proof {
        lemma_mul_abs_bound(ang as int, delta as int, MAX_ANG_VEL as int, u64::MAX as int);
        assert(ang * delta >= 0) by (nonlinear_arith) requires ang >= 0, delta >= 0;
    }
    let turn_raw = ang * delta / 1000;
    let turn: i64 = if turn_raw < MAX_TURN as i128 { turn_raw as i64 } else { MAX_TURN };
    let dir = angle_lerp(trans.direction, desired_dir, turn);
    trans.direction = dir;
    proof {
        lemma_mul_abs_bound(dir.x as int, new_speed as int, 1000, MAX_SPEED as int);
        lemma_mul_abs_bound(dir.y as int, new_speed as int, 1000, MAX_SPEED as int);
    }
    *velocity = Vec2 {
        x: crate::geom::scale(dir.x * new_speed, 1, 1000),
        y: crate::geom::scale(dir.y * new_speed, 1, 1000),
    };
}

/// Radius around a vehicle within which neighbors matter: twelve metres plus its
/// stopping distance, the latter capped at forty metres.
pub fn neighbor_radius(kind: VehicleKind, speed: i64) -> (r: i64)
    requires
        0 <= speed <= MAX_SPEED,
    ensures
        r == 1200 + min(stop_dist(speed as int, kind.deceleration_spec()), 4000),
{
    assert(0 <= speed * speed <= MAX_SPEED * MAX_SPEED) by (nonlinear_arith)
        requires 0 <= speed <= MAX_SPEED;
    let danger = speed * speed / (2 * kind.deceleration());
    1200 + if danger < 4000 { danger } else { 4000 }
}

/// One driving tick of a vehicle: decides from what it sees (the neighbors that the
/// spatial index reported within `neighbor_radius`), then moves.
pub fn vehicle_decision(
    map: &RoadMap,
    time: &TimeInfo,
    trans: &mut Transform,
    velocity: &mut Vec2,
    vehicle: &mut Vehicle,
    self_obj: &PhysicsObject,
    me_handle: u64,
    it: &Itinerary,
    neighs: &Vec<Neighbor>,
)
    requires
        map.wf(),
        old(trans).position.in_world(),
        heading_ok(old(trans).direction),
        old(vehicle).valid(),
        self_obj.valid(),
        forall|i: int| 0 <= i < neighs@.len() ==> #[trigger] neighs@[i].valid(),
        forall|i: int| 0 <= i < it.points@.len() ==> #[trigger] it.points@[i].in_world(),
    ensures
        ({
            let front = front_fold(
                old(trans).position,
                old(trans).direction,
                *self_obj,
                me_handle,
                it.travers is Some,
                neighs@,
                neighs@.len() as int,
            );
            let (speed, dir, wait) = decision_spec(
                *old(vehicle),
                time.delta,
                *old(trans),
                *self_obj,
                it.point_spec(),
                it.terminal_spec(),
                front,
                signal_of(*map, *it, time.time),
            );
            &&& final(vehicle).wait_time == wait
            &&& (*final(trans), *final(velocity), final(vehicle).ang_velocity as int) == physics_spec(
                *old(trans),
                *old(velocity),
                Vehicle { wait_time: wait as u64, ..*old(vehicle) },
                time.delta,
                *self_obj,
                *map,
                speed,
                dir,
            )
        }),
        final(trans).position.in_world(),
        heading_ok(final(trans).direction),
        final(vehicle).valid(),
        final(vehicle).state == old(vehicle).state,
{
    let (speed, dir) = calc_decision(vehicle, map, time, trans, self_obj, me_handle, it, neighs);
    physics(trans, velocity, vehicle, time, self_obj, map, speed, dir);
}

} // verus!
