use egregoria::geom::{project_segment, scale, Vec2};
use egregoria::inspect::{get_same_or_none, InspectArgsStruct};
use egregoria::itinerary::Itinerary;
use egregoria::resources::{CantGetResource, InvalidBorrow, NoSuchResource};
use egregoria::souls::{
    next_desire, BuildingID, Destination, HumanDecision, HumanDecisionKind, NextDesire, VehicleID,
};
use egregoria::spline::Spline;
use egregoria::traffic::{LightSchedule, TrafficBehavior, TrafficControl};

fn v(x: i64, y: i64) -> Vec2 {
    Vec2 { x, y }
}

#[test]
fn same_or_none_on_selections() {
    let empty: Vec<&i32> = vec![];
    assert_eq!(get_same_or_none(&empty), None);
    let (a, b, c) = (3, 3, 4);
    assert_eq!(get_same_or_none(&[&a]), Some(&3));
    assert_eq!(get_same_or_none(&[&a, &b]), Some(&3));
    assert_eq!(get_same_or_none(&[&a, &b, &c]), None);
}

#[test]
fn inspect_args_default_to_unset() {
    let args = InspectArgsStruct::default();
    assert_eq!(args.header, None);
    assert_eq!(args.indent_children, None);
}

#[test]
fn resource_errors_convert_and_describe() {
    assert_eq!(CantGetResource::from(NoSuchResource), CantGetResource::NoSuchResource(NoSuchResource));
    assert_eq!(
        CantGetResource::from(InvalidBorrow::Mutable),
        CantGetResource::InvalidBorrow(InvalidBorrow::Mutable)
    );
    assert_eq!(NoSuchResource.message(), "no such resource");
    assert_eq!(InvalidBorrow::Immutable.message(), "cannot borrow immutably");
    assert_eq!(CantGetResource::from(InvalidBorrow::Mutable).message(), "cannot borrow mutably");
    assert_eq!(CantGetResource::from(NoSuchResource).message(), "no such resource");
}

#[test]
fn timed_light_cycles() {
    let light = TrafficControl::Periodic(LightSchedule { green: 25, orange: 5, red: 30, offset: 0 });
    assert_eq!(light.get_behavior(0), TrafficBehavior::GO);
    assert_eq!(light.get_behavior(25), TrafficBehavior::ORANGE);
    assert_eq!(light.get_behavior(30), TrafficBehavior::RED);
    assert_eq!(light.get_behavior(59), TrafficBehavior::RED);
    assert_eq!(light.get_behavior(60), TrafficBehavior::GO);
    assert_eq!(TrafficControl::StopSign.get_behavior(7), TrafficBehavior::STOP);
    assert_eq!(TrafficControl::Always.get_behavior(7), TrafficBehavior::GO);
}

#[test]
fn scale_rounds_toward_zero() {
    assert_eq!(scale(7, 1, 2), 3);
    assert_eq!(scale(-7, 1, 2), -3);
    assert_eq!(scale(10, 3, 3), 10);
}

#[test]
fn segment_projection_clamps_to_ends() {
    assert_eq!(project_segment(v(0, 0), v(100, 0), v(50, 30)), v(50, 0));
    assert_eq!(project_segment(v(0, 0), v(100, 0), v(-50, 30)), v(0, 0));
    assert_eq!(project_segment(v(0, 0), v(100, 0), v(150, 30)), v(100, 0));
    assert_eq!(project_segment(v(5, 5), v(5, 5), v(150, 30)), v(5, 5));
}

#[test]
fn spline_parameter_and_split() {
    let s = Spline { from: v(0, 0), to: v(10_000, 0), from_derivative: v(0, 3_000), to_derivative: v(0, -3_000) };
    assert_eq!(s.project_t(v(2_500, 900)), 328);
    assert_eq!(s.project_t(v(-100, 0)), 1);
    assert_eq!(s.project_t(v(20_000, 0)), 999);
    let (left, right) = s.split_at(250);
    assert_eq!(left.from_derivative, v(0, 750));
    assert_eq!(left.to_derivative, v(2_812, 375));
    assert_eq!(right.from_derivative, v(8_437, 1_125));
    assert_eq!(right.to_derivative, v(0, -2_250));
    assert_eq!(left.to, v(1_562, 562));
    assert_eq!(right.from, v(1_562, 562));
    assert_eq!(left.to, s.get(250));
    assert_eq!((left.from, right.to), (s.from, s.to));
    assert_eq!(s.get(0), v(0, 0));
    assert_eq!(s.get(1000), v(10_000, 0));
}

#[test]
fn itinerary_follows_waypoints() {
    let mut it = Itinerary::route(vec![v(0, 0), v(1_000, 0)], None);
    assert_eq!(it.get_point(), Some(v(0, 0)));
    assert_eq!(it.get_terminal(), Some(v(1_000, 0)));
    assert!(!it.has_ended(0));
    it.advance(v(100, 0));
    assert_eq!(it.get_point(), Some(v(1_000, 0)));
    it.advance(v(0, 0));
    assert_eq!(it.get_point(), Some(v(1_000, 0)));
    it.advance(v(999, 0));
    assert!(it.has_ended(0));
    let wait = Itinerary::wait_until(500);
    assert!(!wait.has_ended(499));
    assert!(wait.has_ended(500));
    assert!(Itinerary::none().has_ended(0));
}

#[test]
fn highest_desire_wins_and_earlier_keeps_ties() {
    assert_eq!(next_desire(None, None, None), NextDesire::Nothing);
    assert_eq!(next_desire(Some(-5), None, None), NextDesire::Home);
    assert_eq!(next_desire(Some(1), Some(2), Some(0)), NextDesire::Work);
    assert_eq!(next_desire(Some(2), Some(2), Some(2)), NextDesire::Home);
    assert_eq!(next_desire(None, Some(2), Some(3)), NextDesire::Food);
}

#[test]
fn decision_waits_between_updates() {
    let mut d = HumanDecision::new();
    assert!(d.tick(2));
    assert_eq!(d.wait, 2);
    assert!(!d.tick(9));
    assert!(!d.tick(9));
    assert!(d.tick(9));
    assert_eq!(d.wait, 9);
}

#[test]
fn decision_stack_runs_last_first() {
    let mut kind = HumanDecisionKind::MultiStack(vec![
        HumanDecisionKind::DeliverAtBuilding(BuildingID(1)),
        HumanDecisionKind::GoTo(Destination::Building(BuildingID(1))),
        HumanDecisionKind::SetVehicle(Some(VehicleID(4))),
    ]);
    assert!(!kind.update(false));
    assert!(!kind.update(false));
    match &kind {
        HumanDecisionKind::MultiStack(v) => assert_eq!(v.len(), 2),
        _ => panic!("still a stack"),
    }
    assert!(!kind.update(true));
    assert!(!kind.update(false));
    assert!(kind.update(false));
    assert!(HumanDecisionKind::Yield.update(false));
    assert!(!HumanDecisionKind::GoTo(Destination::Outside(v(0, 0))).update(false));
}

#[test]
fn decision_update_picks_desire_when_due() {
    let mut d = HumanDecision::default();
    assert_eq!(egregoria::souls::update_decision(&mut d, 3, false, Some(1), Some(5), None), NextDesire::Work);
    assert_eq!(d.wait, 3);
    assert_eq!(egregoria::souls::update_decision(&mut d, 3, false, Some(1), Some(5), None), NextDesire::Nothing);
    assert_eq!(d.wait, 2);
    let mut going = HumanDecision { kind: HumanDecisionKind::GoTo(Destination::Outside(v(1, 2))), wait: 0 };
    assert_eq!(egregoria::souls::update_decision(&mut going, 3, false, Some(1), None, None), NextDesire::Nothing);
    going.wait = 0;
    assert_eq!(egregoria::souls::update_decision(&mut going, 3, true, Some(1), None, None), NextDesire::Home);
}
