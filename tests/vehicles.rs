use egregoria::geom::{isqrt, normalize, Vec2};
use egregoria::itinerary::{Itinerary, ItineraryKind};
use egregoria::map::{LaneDirection, LaneKind, LanePattern, LaneSpec, ParkingSpotID, RoadMap};
use egregoria::vehicles::{
    angle_lerp, calc_decision, calc_front_dist, physics, vehicle_state_update, Neighbor,
    PhysicsGroup, PhysicsObject, StateCommand, TimeInfo, Transform, Vehicle, VehicleKind,
    VehicleState,
};

fn v(x: i64, y: i64) -> Vec2 {
    Vec2 { x, y }
}

fn car_obj(dir: Vec2, speed: i64) -> PhysicsObject {
    PhysicsObject { dir, speed, radius: 225, group: PhysicsGroup::Vehicles }
}

fn car() -> Vehicle {
    Vehicle {
        kind: VehicleKind::Car,
        state: VehicleState::Driving,
        park_spot: None,
        ang_velocity: 0,
        wait_time: 0,
    }
}

#[test]
fn integer_square_root() {
    assert_eq!(isqrt(0), 0);
    assert_eq!(isqrt(15), 3);
    assert_eq!(isqrt(16), 4);
    assert_eq!(isqrt(13_000_000), 3_605);
}

#[test]
fn normalize_scales_to_unit() {
    assert_eq!(normalize(v(3, 4)), Some(v(600, 800)));
    assert_eq!(normalize(v(0, -7)), Some(v(0, -1000)));
    assert_eq!(normalize(v(1, 1)), Some(v(1000, 1000)));
    assert_eq!(normalize(v(0, 0)), None);
}

#[test]
fn front_dist_counts_vehicle_in_cone() {
    let me = car_obj(v(1000, 0), 0);
    let ahead = Neighbor { handle: 2, pos: v(1000, 0), obj: car_obj(v(1000, 0), 0) };
    let itself = Neighbor { handle: 1, pos: v(10, 0), obj: me };
    let behind = Neighbor { handle: 3, pos: v(-1000, 0), obj: car_obj(v(1000, 0), 0) };
    let d = calc_front_dist(v(0, 0), v(1000, 0), me, 1, false, &vec![itself, behind, ahead]);
    assert_eq!(d, 550);
    assert_eq!(calc_front_dist(v(0, 0), v(1000, 0), me, 1, false, &vec![behind]), 5_000);
}

#[test]
fn front_dist_keeps_extra_margin_for_pedestrians() {
    let me = car_obj(v(1000, 0), 0);
    let walker = Neighbor {
        handle: 9,
        pos: v(1000, 0),
        obj: PhysicsObject { dir: v(0, 1000), speed: 100, radius: 50, group: PhysicsGroup::Pedestrians },
    };
    assert_eq!(calc_front_dist(v(0, 0), v(1000, 0), me, 1, false, &vec![walker]), 625);
}

#[test]
fn first_to_the_crossing_does_not_yield() {
    let a = Neighbor { handle: 1, pos: v(0, -2_000), obj: car_obj(v(0, 1000), 1_000) };
    let b = Neighbor { handle: 2, pos: v(-3_000, 0), obj: car_obj(v(1000, 0), 1_000) };
    let from_a = calc_front_dist(a.pos, a.obj.dir, a.obj, a.handle, false, &vec![a, b]);
    let from_b = calc_front_dist(b.pos, b.obj.dir, b.obj, b.handle, false, &vec![a, b]);
    assert_eq!(from_a, 5_000);
    assert_eq!(from_b, 2_655);
}

/// A crossroads of one-way roads into the centre at the origin; returns the map and
/// the lane that comes from the north, on the second road of the centre.
fn crossroads() -> (RoadMap, egregoria::map::LaneID) {
    let mut m = RoadMap::empty();
    let c = m.add_intersection(v(0, 0));
    let pattern = LanePattern {
        lanes: vec![LaneSpec { kind: LaneKind::Driving, direction: LaneDirection::Forward }],
    };
    let mut lanes = vec![];
    for p in [v(10_000, 0), v(0, 10_000), v(-10_000, 0), v(0, -10_000)].iter() {
        let arm = m.add_intersection(*p);
        let r = m.connect_straight(arm, c, &pattern).unwrap();
        lanes.push(m.roads().get(r.0).unwrap().lanes[0].id);
    }
    (m, lanes[1])
}

#[test]
fn red_light_stops_a_stationary_vehicle() {
    let (m, lane) = crossroads();
    // four roads give the centre a footprint of 1400, so the light stands at (0, 1400)
    assert_eq!(m.lane_control_point(lane), Some(v(0, 1_400)));
    let mut vehicle = car();
    let trans = Transform { position: v(0, 1_900), direction: v(0, -1000) };
    let obj = car_obj(v(0, -1000), 0);
    let it = Itinerary::route(vec![v(0, -5_000), v(0, -10_000)], Some(lane));
    let time = TimeInfo { time: 0, delta: 16 };
    let (speed, dir) = calc_decision(&mut vehicle, &m, &time, &trans, &obj, 1, &it, &vec![]);
    assert_eq!(speed, 0);
    assert_eq!(dir, v(0, -1000));
}

#[test]
fn green_light_lets_a_facing_vehicle_cruise() {
    let (m, lane) = crossroads();
    let mut vehicle = car();
    let trans = Transform { position: v(0, 1_900), direction: v(0, -1000) };
    let obj = car_obj(v(0, -1000), 0);
    let it = Itinerary::route(vec![v(0, -5_000), v(0, -10_000)], Some(lane));
    let time = TimeInfo { time: 35_000, delta: 16 };
    let (speed, dir) = calc_decision(&mut vehicle, &m, &time, &trans, &obj, 1, &it, &vec![]);
    assert_eq!(speed, 1_200);
    assert_eq!(dir, v(0, -1000));
}

#[test]
fn vehicle_not_facing_its_objective_creeps() {
    let m = RoadMap::empty();
    let mut vehicle = car();
    let trans = Transform { position: v(0, 0), direction: v(1000, 0) };
    let obj = car_obj(v(1000, 0), 500);
    let it = Itinerary::route(vec![v(0, 10_000), v(0, 20_000)], None);
    let time = TimeInfo { time: 0, delta: 16 };
    let (speed, dir) = calc_decision(&mut vehicle, &m, &time, &trans, &obj, 1, &it, &vec![]);
    assert_eq!(speed, 600);
    assert_eq!(dir, v(0, 1000));
}

#[test]
fn vehicle_near_its_terminal_stops() {
    let m = RoadMap::empty();
    let mut vehicle = car();
    let trans = Transform { position: v(0, 0), direction: v(1000, 0) };
    let obj = car_obj(v(1000, 0), 300);
    // stopping distance 300 * 300 / 1800 = 50, so anything closer than 150 stops
    let it = Itinerary::route(vec![v(140, 0)], None);
    let time = TimeInfo { time: 0, delta: 16 };
    let (speed, _) = calc_decision(&mut vehicle, &m, &time, &trans, &obj, 1, &it, &vec![]);
    assert_eq!(speed, 0);
}

#[test]
fn stuck_vehicle_waits_then_counts_down() {
    let m = RoadMap::empty();
    let mut vehicle = car();
    let trans = Transform { position: v(1_234, 0), direction: v(1000, 0) };
    let obj = car_obj(v(1000, 0), 0);
    let blocker = Neighbor { handle: 2, pos: v(1_234 + 500, 0), obj: car_obj(v(1000, 0), 0) };
    let it = Itinerary::route(vec![v(10_000, 0)], None);
    let time = TimeInfo { time: 0, delta: 16 };
    let (speed, dir) = calc_decision(&mut vehicle, &m, &time, &trans, &obj, 1, &it, &vec![blocker]);
    assert_eq!((speed, dir), (0, v(1000, 0)));
    assert_eq!(vehicle.wait_time, 170);
    calc_decision(&mut vehicle, &m, &time, &trans, &obj, 1, &it, &vec![blocker]);
    assert_eq!(vehicle.wait_time, 154);
}

#[test]
fn ended_itinerary_starts_parking_and_parks_on_time() {
    let mut m = RoadMap::empty();
    let a = m.add_intersection(v(0, 0));
    let b = m.add_intersection(v(10_000, 0));
    let pattern = LanePattern {
        lanes: vec![
            LaneSpec { kind: LaneKind::Driving, direction: LaneDirection::Forward },
            LaneSpec { kind: LaneKind::Parking, direction: LaneDirection::Forward },
        ],
    };
    m.connect_straight(a, b, &pattern).unwrap();
    let mut vehicle = Vehicle { park_spot: Some(ParkingSpotID(0)), ..car() };
    let trans = Transform { position: v(4_000, 300), direction: v(1000, 0) };
    let mut velocity = v(500, 0);
    let mut it = Itinerary::none();
    let mut time = TimeInfo { time: 1_000, delta: 1_500 };
    let cmd = vehicle_state_update(&mut vehicle, &m, &time, &trans, &mut velocity, &mut it);
    assert_eq!(cmd, StateCommand::Nothing);
    assert_eq!(velocity, v(0, 0));
    assert_eq!(it.kind, ItineraryKind::WaitUntil(21_000));
    match vehicle.state {
        VehicleState::RoadToPark(s, t) => {
            assert_eq!(t, 0);
            assert_eq!(s.from, v(4_000, 300));
            assert_eq!(s.to, v(5_000, 0));
            assert_eq!(s.from_derivative, v(200, 0));
            assert_eq!(s.to_derivative, v(200, 0));
        },
        _ => panic!("expected the vehicle to start parking"),
    }
    let mut states = vec![];
    for _ in 0..3 {
        time.time += 1_500;
        let cmd = vehicle_state_update(&mut vehicle, &m, &time, &trans, &mut velocity, &mut it);
        states.push((vehicle.state, cmd));
    }
    assert!(matches!(states[0], (VehicleState::RoadToPark(_, 1_500), StateCommand::Nothing)));
    assert!(matches!(states[1], (VehicleState::RoadToPark(_, 3_000), StateCommand::Nothing)));
    assert_eq!(states[2], (VehicleState::Parked(ParkingSpotID(0)), StateCommand::RemoveCollider));
}

#[test]
fn parking_exactly_at_the_limit() {
    let m = RoadMap::empty();
    let spline = egregoria::spline::Spline {
        from: v(0, 0),
        to: v(100, 0),
        from_derivative: v(200, 0),
        to_derivative: v(200, 0),
    };
    let mut vehicle = Vehicle {
        state: VehicleState::RoadToPark(spline, 3_999),
        park_spot: Some(ParkingSpotID(3)),
        ..car()
    };
    let trans = Transform { position: v(0, 0), direction: v(1000, 0) };
    let mut velocity = v(0, 0);
    let mut it = Itinerary::none();
    let time = TimeInfo { time: 0, delta: 1 };
    let cmd = vehicle_state_update(&mut vehicle, &m, &time, &trans, &mut velocity, &mut it);
    assert_eq!(cmd, StateCommand::RemoveCollider);
    assert_eq!(vehicle.state, VehicleState::Parked(ParkingSpotID(3)));
}

#[test]
fn parking_without_spot_drives_on() {
    let m = RoadMap::empty();
    let spline = egregoria::spline::Spline {
        from: v(0, 0),
        to: v(100, 0),
        from_derivative: v(200, 0),
        to_derivative: v(200, 0),
    };
    let mut vehicle = Vehicle { state: VehicleState::RoadToPark(spline, 3_000), ..car() };
    let trans = Transform { position: v(0, 0), direction: v(1000, 0) };
    let mut velocity = v(0, 0);
    let mut it = Itinerary::none();
    let time = TimeInfo { time: 0, delta: 2_000 };
    vehicle_state_update(&mut vehicle, &m, &time, &trans, &mut velocity, &mut it);
    assert_eq!(vehicle.state, VehicleState::Driving);
}

#[test]
fn angle_lerp_turns_towards_target() {
    assert_eq!(angle_lerp(v(1000, 0), v(0, 1000), 100), v(996, 99));
    assert_eq!(angle_lerp(v(1000, 0), v(0, -1000), 100), v(996, -99));
    assert_eq!(angle_lerp(v(1000, 0), v(999, 40), 100), v(999, 40));
}

#[test]
fn physics_accelerates_towards_desired_speed() {
    let m = RoadMap::empty();
    let mut trans = Transform { position: v(0, 0), direction: v(1000, 0) };
    let mut velocity = v(0, 0);
    let mut vehicle = car();
    let time = TimeInfo { time: 0, delta: 100 };
    let obj = car_obj(v(1000, 0), 0);
    physics(&mut trans, &mut velocity, &mut vehicle, &time, &obj, &m, 1_200, v(1000, 0));
    assert_eq!(velocity, v(30, 0));
    assert_eq!(trans.direction, v(1000, 0));
    let fast = car_obj(v(1000, 0), 1_000);
    physics(&mut trans, &mut velocity, &mut vehicle, &time, &fast, &m, 0, v(1000, 0));
    assert_eq!(velocity, v(910, 0));
}

#[test]
fn physics_follows_the_parking_curve() {
    let m = RoadMap::empty();
    let spline = egregoria::spline::Spline {
        from: v(0, 0),
        to: v(1_000, 0),
        from_derivative: v(1_000, 0),
        to_derivative: v(1_000, 0),
    };
    let mut vehicle = Vehicle { state: VehicleState::RoadToPark(spline, 2_000), ..car() };
    let mut trans = Transform { position: v(0, 0), direction: v(0, 1000) };
    let mut velocity = v(7, 7);
    let time = TimeInfo { time: 0, delta: 16 };
    let obj = car_obj(v(1000, 0), 0);
    physics(&mut trans, &mut velocity, &mut vehicle, &time, &obj, &m, 0, v(1000, 0));
    assert_eq!(trans.position, v(500, 0));
    assert_eq!(trans.direction, v(1000, 0));
    assert_eq!(velocity, v(7, 7));
}

#[test]
fn neighbor_radius_grows_with_speed() {
    assert_eq!(egregoria::vehicles::neighbor_radius(VehicleKind::Car, 0), 1_200);
    assert_eq!(egregoria::vehicles::neighbor_radius(VehicleKind::Car, 1_000), 1_755);
    assert_eq!(egregoria::vehicles::neighbor_radius(VehicleKind::Car, 10_000), 5_200);
}

#[test]
fn decision_then_physics_in_one_tick() {
    let (m, lane) = crossroads();
    let mut vehicle = car();
    let mut trans = Transform { position: v(0, 1_900), direction: v(0, -1000) };
    let mut velocity = v(0, 0);
    let obj = car_obj(v(0, -1000), 0);
    let it = Itinerary::route(vec![v(0, -5_000), v(0, -10_000)], Some(lane));
    let time = TimeInfo { time: 35_000, delta: 100 };
    egregoria::vehicles::vehicle_decision(
        &m, &time, &mut trans, &mut velocity, &mut vehicle, &obj, 1, &it, &vec![],
    );
    assert_eq!(velocity, v(0, -30));
    assert_eq!(trans.direction, v(0, -1000));
    assert_eq!(trans.position, v(0, 1_900));
}
