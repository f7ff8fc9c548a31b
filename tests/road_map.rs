use egregoria::geom::Vec2;
use egregoria::map::{
    IntersectionID, LaneDirection, LaneID, LaneKind, LanePattern, LaneSpec, MapProject,
    ParkingSpotID, ProjectKind, RoadID, RoadMap, RoadSegmentKind,
};
use egregoria::parking::ParkingManagement;
use egregoria::traffic::{ControlPolicy, TrafficBehavior};
use egregoria::vehicles::{Vehicle, VehicleKind, VehicleState};

fn v(x: i64, y: i64) -> Vec2 {
    Vec2 { x, y }
}

fn spec(kind: LaneKind, direction: LaneDirection) -> LaneSpec {
    LaneSpec { kind, direction }
}

/// Driving and parking lanes both ways.
fn two_way_with_parking() -> LanePattern {
    LanePattern {
        lanes: vec![
            spec(LaneKind::Driving, LaneDirection::Forward),
            spec(LaneKind::Parking, LaneDirection::Forward),
            spec(LaneKind::Driving, LaneDirection::Backward),
            spec(LaneKind::Parking, LaneDirection::Backward),
        ],
    }
}

fn one_way() -> LanePattern {
    LanePattern { lanes: vec![spec(LaneKind::Driving, LaneDirection::Forward)] }
}

/// Every lane's road exists and lists it, every spot's lane exists and holds it,
/// and every road's end points are its intersections' positions.
fn assert_consistent(m: &RoadMap) {
    let lanes = m.lanes();
    for k in 0..lanes.capacity() as u64 {
        if let Some(lane) = lanes.get(k) {
            let road = m.roads().get(lane.parent.0).expect("lane without road");
            assert!(road.lanes.iter().any(|l| l.id == LaneID(k)));
            if let Some(s) = lane.spot {
                assert_eq!(m.parking().get(s.0).expect("missing spot").parent, LaneID(k));
            }
        }
    }
    let spots = m.parking();
    for k in 0..spots.capacity() as u64 {
        if let Some(spot) = spots.get(k) {
            let lane = lanes.get(spot.parent.0).expect("spot without lane");
            assert_eq!(lane.spot, Some(ParkingSpotID(k)));
        }
    }
    let roads = m.roads();
    for k in 0..roads.capacity() as u64 {
        if let Some(road) = roads.get(k) {
            let src = m.intersections().get(road.src.0).expect("road without source");
            let dst = m.intersections().get(road.dst.0).expect("road without destination");
            assert_eq!(road.src_point, src.pos);
            assert_eq!(road.dst_point, dst.pos);
            assert!(src.roads.contains(&RoadID(k)));
            assert!(dst.roads.contains(&RoadID(k)));
            for l in road.lanes.iter() {
                assert_eq!(lanes.get(l.id.0).expect("road lane missing").parent, RoadID(k));
            }
        }
    }
}

#[test]
fn empty_map_is_empty_and_dirty() {
    let m = RoadMap::empty();
    assert!(m.is_empty());
    assert!(m.dirty());
}

#[test]
fn add_intersection_is_isolated() {
    let mut m = RoadMap::empty();
    m.clear_dirty();
    let a = m.add_intersection(v(100, 200));
    assert_eq!(a, IntersectionID(0));
    let inter = m.intersections().get(a.0).unwrap();
    assert_eq!(inter.pos, v(100, 200));
    assert!(inter.roads.is_empty());
    assert_eq!(inter.interface_radius, 0);
    assert!(m.dirty());
    assert!(!m.is_empty());
}

#[test]
fn connect_creates_lanes_spots_and_links() {
    let mut m = RoadMap::empty();
    let a = m.add_intersection(v(0, 0));
    let b = m.add_intersection(v(10_000, 0));
    let r = m.connect(a, b, &two_way_with_parking(), RoadSegmentKind::Straight).unwrap();
    let road = m.roads().get(r.0).unwrap();
    assert_eq!(road.src, a);
    assert_eq!(road.dst, b);
    assert_eq!(road.src_point, v(0, 0));
    assert_eq!(road.dst_point, v(10_000, 0));
    assert_eq!(road.lanes.len(), 4);
    assert_eq!(road.lanes[1].kind, LaneKind::Parking);
    assert_eq!(road.lanes[2].direction, LaneDirection::Backward);
    assert!(m.parking().get(0).is_some());
    assert!(m.parking().get(1).is_some());
    assert!(m.parking().get(2).is_none());
    let ia = m.intersections().get(a.0).unwrap();
    assert_eq!(ia.roads, vec![r]);
    assert_eq!(ia.interface_radius, 950);
    assert_eq!(ia.policy, ControlPolicy::Free);
    assert_consistent(&m);
}

#[test]
fn connect_rejects_missing_or_equal_endpoints() {
    let mut m = RoadMap::empty();
    let a = m.add_intersection(v(0, 0));
    assert_eq!(m.connect(a, a, &one_way(), RoadSegmentKind::Straight), None);
    assert_eq!(m.connect(a, IntersectionID(7), &one_way(), RoadSegmentKind::Straight), None);
    assert_eq!(m.connect_straight(IntersectionID(7), a, &one_way()), None);
    assert!(m.roads().get(0).is_none());
}

#[test]
fn remove_road_cascades_to_lanes_and_spots() {
    let mut m = RoadMap::empty();
    let a = m.add_intersection(v(0, 0));
    let b = m.add_intersection(v(10_000, 0));
    let r = m.connect(a, b, &two_way_with_parking(), RoadSegmentKind::Straight).unwrap();
    let removed = m.remove_road(r).unwrap();
    assert_eq!(removed.id, r);
    for k in 0..4 {
        assert!(m.lanes().get(k).is_none());
    }
    assert!(m.parking().get(0).is_none());
    assert!(m.parking().get(1).is_none());
    let ia = m.intersections().get(a.0).unwrap();
    assert!(ia.roads.is_empty());
    assert_eq!(ia.interface_radius, 0);
    assert!(m.remove_road(r).is_none());
    assert_consistent(&m);
}

#[test]
fn remove_intersection_removes_incident_roads() {
    let mut m = RoadMap::empty();
    let a = m.add_intersection(v(0, 0));
    let b = m.add_intersection(v(10_000, 0));
    let c = m.add_intersection(v(20_000, 0));
    let r1 = m.connect_straight(a, b, &one_way()).unwrap();
    let r2 = m.connect_straight(b, c, &one_way()).unwrap();
    m.remove_intersection(b);
    assert!(m.intersections().get(b.0).is_none());
    assert!(m.roads().get(r1.0).is_none());
    assert!(m.roads().get(r2.0).is_none());
    assert!(m.intersections().get(a.0).unwrap().roads.is_empty());
    assert!(m.intersections().get(c.0).unwrap().roads.is_empty());
    m.remove_intersection(b);
    assert_consistent(&m);
}

#[test]
fn split_straight_road_keeps_pattern() {
    let mut m = RoadMap::empty();
    let a = m.add_intersection(v(0, 0));
    let b = m.add_intersection(v(10_000, 0));
    let r = m.connect(a, b, &two_way_with_parking(), RoadSegmentKind::Straight).unwrap();
    let mid = m.split_road(r, v(5_000, 100)).unwrap();
    assert!(m.roads().get(r.0).is_none());
    let inter = m.intersections().get(mid.0).unwrap();
    assert_eq!(inter.pos, v(5_000, 100));
    assert_eq!(inter.roads.len(), 2);
    let first = m.roads().get(inter.roads[0].0).unwrap();
    let second = m.roads().get(inter.roads[1].0).unwrap();
    assert_eq!((first.src, first.dst), (a, mid));
    assert_eq!((second.src, second.dst), (mid, b));
    assert_eq!(first.segment, RoadSegmentKind::Straight);
    assert_eq!(first.pattern().lanes, two_way_with_parking().lanes);
    assert_eq!(second.pattern().lanes, two_way_with_parking().lanes);
    assert_eq!(m.split_road(r, v(1, 1)), None);
    assert_consistent(&m);
}

#[test]
fn split_curved_road_splits_the_curve() {
    let mut m = RoadMap::empty();
    let a = m.add_intersection(v(0, 0));
    let b = m.add_intersection(v(10_000, 0));
    let r = m
        .connect(a, b, &one_way(), RoadSegmentKind::Curved(v(0, 3_000), v(0, -3_000)))
        .unwrap();
    let mid = m.split_road(r, v(2_500, 0)).unwrap();
    let inter = m.intersections().get(mid.0).unwrap();
    let first = m.roads().get(inter.roads[0].0).unwrap();
    let second = m.roads().get(inter.roads[1].0).unwrap();
    assert_eq!(first.segment, RoadSegmentKind::Curved(v(0, 966), v(4_217, 343)));
    assert_eq!(second.segment, RoadSegmentKind::Curved(v(8_881, 724), v(0, -2_034)));
}

#[test]
fn rejoining_split_curve_gives_back_end_tangents() {
    let mut m = RoadMap::empty();
    let a = m.add_intersection(v(0, 0));
    let b = m.add_intersection(v(10_000, 0));
    let r = m
        .connect(a, b, &one_way(), RoadSegmentKind::Curved(v(0, 3_000), v(0, -3_000)))
        .unwrap();
    let mid = m.split_road(r, v(2_500, 0)).unwrap();
    let inter = m.intersections().get(mid.0).unwrap();
    let first = m.roads().get(inter.roads[0].0).unwrap().segment;
    let second = m.roads().get(inter.roads[1].0).unwrap().segment;
    // the curve point nearest to the split position is at 322 thousandths
    match (first, second) {
        (RoadSegmentKind::Curved(f, _), RoadSegmentKind::Curved(_, t)) => {
            assert_eq!((f.x * 1000 / 322, f.y * 1000 / 322), (0, 3_000));
            assert_eq!((t.x * 1000 / 678, t.y * 1000 / 678), (0, -3_000));
        },
        _ => panic!("halves of a curved road must be curved"),
    }
}

#[test]
fn moving_an_intersection_regenerates_roads() {
    let mut m = RoadMap::empty();
    let a = m.add_intersection(v(0, 0));
    let b = m.add_intersection(v(10_000, 0));
    let r = m.connect_straight(a, b, &one_way()).unwrap();
    m.update_intersection(b, v(10_000, 5_000));
    let road = m.roads().get(r.0).unwrap();
    assert_eq!(road.dst_point, v(10_000, 5_000));
    assert_eq!(road.src_point, v(0, 0));
    m.update_intersection(IntersectionID(42), v(1, 1));
    assert_consistent(&m);
}

#[test]
fn sequence_of_edits_stays_consistent() {
    let mut m = RoadMap::empty();
    let a = m.add_intersection(v(0, 0));
    let b = m.add_intersection(v(10_000, 0));
    let c = m.add_intersection(v(10_000, 10_000));
    let r1 = m.connect(a, b, &two_way_with_parking(), RoadSegmentKind::Straight).unwrap();
    assert_consistent(&m);
    let r2 = m.connect(b, c, &two_way_with_parking(), RoadSegmentKind::Straight).unwrap();
    assert_consistent(&m);
    let mid = m.split_road(r1, v(5_000, 0)).unwrap();
    assert_consistent(&m);
    m.update_intersection(mid, v(5_000, 2_000));
    assert_consistent(&m);
    m.remove_road(r2);
    assert_consistent(&m);
    m.remove_intersection(mid);
    assert_consistent(&m);
    let r3 = m.connect(a, c, &one_way(), RoadSegmentKind::Curved(v(100, 0), v(0, 100))).unwrap();
    assert_consistent(&m);
    m.split_road(r3, v(3_000, 6_000));
    assert_consistent(&m);
    m.remove_intersection(a);
    assert_consistent(&m);
}

#[test]
fn project_on_empty_map_is_ground() {
    let m = RoadMap::empty();
    let p = m.project(v(123, -456));
    assert_eq!(p, MapProject { pos: v(123, -456), kind: ProjectKind::Ground });
}

#[test]
fn project_prefers_isolated_intersection_in_snap_radius() {
    let mut m = RoadMap::empty();
    let a = m.add_intersection(v(0, 0));
    let b = m.add_intersection(v(10_000, 0));
    m.connect_straight(a, b, &one_way()).unwrap();
    let c = m.add_intersection(v(5_000, 300));
    let p = m.project(v(5_000, 100));
    assert_eq!(p, MapProject { pos: v(5_000, 300), kind: ProjectKind::Inter(c) });
}

#[test]
fn project_picks_road_footprint_or_ground() {
    let mut m = RoadMap::empty();
    let a = m.add_intersection(v(0, 0));
    let b = m.add_intersection(v(10_000, 0));
    let r = m.connect_straight(a, b, &one_way()).unwrap();
    assert_eq!(
        m.project(v(5_000, 1_000)),
        MapProject { pos: v(5_000, 0), kind: ProjectKind::Road(r) }
    );
    assert_eq!(m.project(v(5_000, 2_000)), MapProject { pos: v(5_000, 2_000), kind: ProjectKind::Ground });
    assert_eq!(m.project(v(100, 100)), MapProject { pos: v(0, 0), kind: ProjectKind::Inter(a) });
}

#[test]
fn find_road_in_both_directions() {
    let mut m = RoadMap::empty();
    let a = m.add_intersection(v(0, 0));
    let b = m.add_intersection(v(10_000, 0));
    let c = m.add_intersection(v(0, 10_000));
    let r = m.connect_straight(a, b, &one_way()).unwrap();
    assert_eq!(m.find_road(a, b), Some(r));
    assert_eq!(m.find_road(b, a), Some(r));
    assert_eq!(m.find_road(a, c), None);
    assert_eq!(m.find_road(IntersectionID(9), a), None);
}

#[test]
fn parking_spots_lead_to_driving_lanes() {
    let mut m = RoadMap::empty();
    let a = m.add_intersection(v(0, 0));
    let b = m.add_intersection(v(10_000, 0));
    m.connect(a, b, &two_way_with_parking(), RoadSegmentKind::Straight).unwrap();
    assert_eq!(m.parking_to_drive(ParkingSpotID(0)), Some(LaneID(0)));
    assert_eq!(m.parking_to_drive(ParkingSpotID(1)), Some(LaneID(2)));
    assert_eq!(m.parking_to_drive(ParkingSpotID(5)), None);
    assert_eq!(m.spot_pose(ParkingSpotID(0)), Some((v(5_000, 0), v(10_000, 0))));
    assert_eq!(m.spot_pose(ParkingSpotID(1)), Some((v(5_000, 0), v(-10_000, 0))));
}

#[test]
fn parking_lane_without_driving_lane() {
    let mut m = RoadMap::empty();
    let a = m.add_intersection(v(0, 0));
    let b = m.add_intersection(v(10_000, 0));
    let pattern = LanePattern { lanes: vec![spec(LaneKind::Parking, LaneDirection::Forward)] };
    m.connect_straight(a, b, &pattern).unwrap();
    assert_eq!(m.parking_to_drive(ParkingSpotID(0)), None);
}

#[test]
fn lights_alternate_between_roads() {
    let mut m = RoadMap::empty();
    let c = m.add_intersection(v(0, 0));
    let arms = [v(10_000, 0), v(0, 10_000), v(-10_000, 0), v(0, -10_000)];
    let mut roads = vec![];
    for p in arms.iter() {
        let arm = m.add_intersection(*p);
        roads.push(m.connect_straight(arm, c, &one_way()).unwrap());
    }
    assert_eq!(m.intersections().get(c.0).unwrap().policy, ControlPolicy::Lights);
    let lane0 = m.roads().get(roads[0].0).unwrap().lanes[0].id;
    let lane1 = m.roads().get(roads[1].0).unwrap().lanes[0].id;
    assert_eq!(m.lane_behavior(lane0, 0), Some(TrafficBehavior::GO));
    assert_eq!(m.lane_behavior(lane0, 27), Some(TrafficBehavior::ORANGE));
    assert_eq!(m.lane_behavior(lane0, 31), Some(TrafficBehavior::RED));
    assert_eq!(m.lane_behavior(lane1, 0), Some(TrafficBehavior::RED));
    assert_eq!(m.lane_behavior(lane1, 35), Some(TrafficBehavior::GO));
    assert_eq!(m.lane_control_point(lane0), Some(v(1_400, 0)));
    assert_eq!(m.lane_behavior(LaneID(99), 0), None);
}

#[test]
fn three_way_gives_priority_to_first_two_roads() {
    let mut m = RoadMap::empty();
    let c = m.add_intersection(v(0, 0));
    let mut lanes = vec![];
    for p in [v(10_000, 0), v(-10_000, 0), v(0, 10_000)].iter() {
        let arm = m.add_intersection(*p);
        let r = m.connect_straight(arm, c, &one_way()).unwrap();
        lanes.push(m.roads().get(r.0).unwrap().lanes[0].id);
    }
    assert_eq!(m.intersections().get(c.0).unwrap().policy, ControlPolicy::Priority);
    assert_eq!(m.lane_behavior(lanes[0], 0), Some(TrafficBehavior::GO));
    assert_eq!(m.lane_behavior(lanes[2], 0), Some(TrafficBehavior::STOP));
}

#[test]
fn closest_lane_of_a_kind() {
    let mut m = RoadMap::empty();
    let a = m.add_intersection(v(0, 0));
    let b = m.add_intersection(v(10_000, 0));
    let c = m.add_intersection(v(0, 10_000));
    let d = m.add_intersection(v(10_000, 10_000));
    m.connect(a, b, &two_way_with_parking(), RoadSegmentKind::Straight).unwrap();
    let far = m.connect_straight(c, d, &one_way()).unwrap();
    assert_eq!(m.closest_lane(v(5_000, 100), LaneKind::Driving), Some(LaneID(0)));
    let far_lane = m.roads().get(far.0).unwrap().lanes[0].id;
    assert_eq!(m.closest_lane(v(5_000, 9_000), LaneKind::Driving), Some(far_lane));
    assert_eq!(m.closest_lane(v(5_000, 100), LaneKind::Bus), None);
}

#[test]
fn random_lane_uses_the_picks() {
    let mut m = RoadMap::empty();
    assert_eq!(m.get_random_lane(LaneKind::Driving, 3, 4), None);
    let a = m.add_intersection(v(0, 0));
    let b = m.add_intersection(v(10_000, 0));
    m.connect(a, b, &two_way_with_parking(), RoadSegmentKind::Straight).unwrap();
    assert_eq!(m.get_random_lane(LaneKind::Driving, 5, 0), Some(LaneID(0)));
    assert_eq!(m.get_random_lane(LaneKind::Driving, 5, 3), Some(LaneID(2)));
    assert_eq!(m.get_random_lane(LaneKind::Parking, 0, 1), Some(LaneID(3)));
    assert_eq!(m.get_random_lane(LaneKind::Bus, 0, 0), None);
}

#[test]
fn clear_never_reuses_identifiers() {
    let mut m = RoadMap::empty();
    let a = m.add_intersection(v(0, 0));
    let b = m.add_intersection(v(10_000, 0));
    m.connect_straight(a, b, &one_way()).unwrap();
    m.clear();
    assert!(m.is_empty());
    assert!(m.intersections().get(a.0).is_none());
    let c = m.add_intersection(v(1, 1));
    assert_eq!(c, IntersectionID(2));
    assert_eq!(m.find_road(a, b), None);
}

#[test]
fn turn_table_links_incoming_to_other_roads() {
    let mut m = RoadMap::empty();
    let c = m.add_intersection(v(0, 0));
    let both = LanePattern {
        lanes: vec![spec(LaneKind::Driving, LaneDirection::Forward), spec(LaneKind::Driving, LaneDirection::Backward)],
    };
    for p in [v(10_000, 0), v(0, 10_000), v(-10_000, 0)].iter() {
        let arm = m.add_intersection(*p);
        m.connect_straight(arm, c, &both).unwrap();
    }
    let turns = m.turns(c);
    assert_eq!(
        turns,
        vec![
            (LaneID(0), LaneID(3)),
            (LaneID(0), LaneID(5)),
            (LaneID(2), LaneID(1)),
            (LaneID(2), LaneID(5)),
            (LaneID(4), LaneID(1)),
            (LaneID(4), LaneID(3)),
        ]
    );
    assert!(m.turns(IntersectionID(77)).is_empty());
}

#[test]
fn default_map_is_empty() {
    assert!(RoadMap::default().is_empty());
}

#[test]
fn a_spot_has_at_most_one_holder() {
    let mut m = RoadMap::empty();
    let a = m.add_intersection(v(0, 0));
    let b = m.add_intersection(v(10_000, 0));
    m.connect(a, b, &two_way_with_parking(), RoadSegmentKind::Straight).unwrap();
    let mut pm = ParkingManagement::new();
    assert!(pm.reserve(&m, ParkingSpotID(1), 7));
    assert!(!pm.reserve(&m, ParkingSpotID(1), 8));
    assert!(!pm.reserve(&m, ParkingSpotID(9), 8));
    assert_eq!(pm.holder(ParkingSpotID(1)), Some(7));
    assert_eq!(pm.holder(ParkingSpotID(0)), None);
    let gone = Vehicle {
        kind: VehicleKind::Car,
        state: VehicleState::Driving,
        park_spot: Some(ParkingSpotID(1)),
        ang_velocity: 0,
        wait_time: 0,
    };
    pm.vehicle_cleanup(&vec![gone]);
    assert_eq!(pm.holder(ParkingSpotID(1)), None);
    assert!(pm.reserve(&m, ParkingSpotID(1), 8));
    pm.free(ParkingSpotID(1));
    assert_eq!(pm.holder(ParkingSpotID(1)), None);
}

#[test]
fn road_ends_and_lane_positions() {
    let mut m = RoadMap::empty();
    let a = m.add_intersection(v(0, 0));
    let b = m.add_intersection(v(10_000, 0));
    let r = m.connect(a, b, &two_way_with_parking(), RoadSegmentKind::Straight).unwrap();
    let road = m.roads().get(r.0).unwrap();
    assert_eq!(road.other_end(a), Some(b));
    assert_eq!(road.other_end(b), Some(a));
    assert_eq!(road.other_end(IntersectionID(5)), None);
    assert_eq!(road.idx_unchecked(LaneID(0)), 1);
    assert_eq!(road.idx_unchecked(LaneID(3)), 4);
    assert_eq!(road.idx_unchecked(LaneID(8)), 0);
}

#[test]
fn project_measures_along_a_curved_road() {
    let mut m = RoadMap::empty();
    let a = m.add_intersection(v(0, 0));
    let b = m.add_intersection(v(10_000, 0));
    let r = m
        .connect(a, b, &one_way(), RoadSegmentKind::Curved(v(0, 3_000), v(0, -3_000)))
        .unwrap();
    // the chord is 1500 away, the curve much closer
    assert_eq!(m.project(v(2_500, 1_500)), MapProject { pos: v(2_555, 656), kind: ProjectKind::Road(r) });
}

#[test]
fn split_and_removal_leave_other_roads_alone() {
    let mut m = RoadMap::empty();
    let a = m.add_intersection(v(0, 0));
    let b = m.add_intersection(v(10_000, 0));
    let c = m.add_intersection(v(0, 10_000));
    let d = m.add_intersection(v(10_000, 10_000));
    let r1 = m.connect(a, b, &two_way_with_parking(), RoadSegmentKind::Straight).unwrap();
    let r2 = m.connect(c, d, &two_way_with_parking(), RoadSegmentKind::Straight).unwrap();
    let lanes_before: Vec<LaneID> = m.roads().get(r2.0).unwrap().lanes.iter().map(|l| l.id).collect();
    m.split_road(r1, v(5_000, 0)).unwrap();
    let road2 = m.roads().get(r2.0).unwrap();
    assert_eq!(road2.lanes.iter().map(|l| l.id).collect::<Vec<_>>(), lanes_before);
    assert!(m.parking().get(2).is_some());
    assert!(m.parking().get(3).is_some());
    assert!(m.parking().get(0).is_none());
    m.remove_intersection(a);
    assert!(m.roads().get(r2.0).is_some());
    assert!(m.parking().get(2).is_some());
    assert_eq!(m.intersections().get(c.0).unwrap().roads, vec![r2]);
    assert_consistent(&m);
}
