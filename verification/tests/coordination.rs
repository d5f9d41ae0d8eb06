use std::sync::Arc;
use syncbot::codes::{
    arbitrate_numbers, progress_state_from_u8, SbArbitrationContext, SbArbitrationDecision,
};
use syncbot::coordinator::horizon::does_horizon_fit;
use syncbot::coordinator::schedule::does_grace_fit;
use syncbot::coordinator::targets::{claim_target_windows_overlap, do_ticks_fit};
use syncbot::number::{Number, Real};
use syncbot::persist::CoordinatorSnapshot;
use syncbot::properties::{Properties, Property};
use syncbot::route::graph::PenaltyTerm;
use syncbot::words::{
    arbitration_str, parse_access_mode, parse_progress_state, zone_policy_kind_str,
};
use syncbot::workspace::{CoordMode, Edge, Geo, Node, Point, Workspace, Zone};
use syncbot::{
    apply_schedule_decision, arbitrate_right_of_way, claim_request_from_route,
    claim_target_semantics, claim_targets_from_route, claim_window_from_route, plan_route,
    release_targets_behind_progress, robot_missed_schedule_slot, rolling_horizon_claim_request,
    route_matches_schedule_window, route_progress_index, route_schedule_window_conflicts,
    route_zone_targets_from_progress, schedule_route_request,
    scheduled_target_windows_from_route, ArbitrationContext, ArbitrationDecision,
    ClaimAccessMode, ClaimDecision, ClaimId, ClaimManager, ClaimRequest, ClaimTarget,
    ClaimTargetKind, ClaimWindow, Coordinator, Key, Lease, LeaseDisposition, LeaseId, MissionId,
    PositionFrame, RobotHeading, RobotId, RobotPosition, RobotProgressState, RobotState,
    RoutePlan, ScheduleConflict, ScheduleDecision, ScheduleDecisionKind,
    ScheduledTargetWindow, WorkspaceIndex,
    ZonePolicyKind,
};

fn num(x: f64) -> Real {
    Real::from_bits(x.to_bits())
}

fn float(x: Real) -> f64 {
    f64::from_bits(x.to_bits())
}

fn props(pairs: &[(&str, &str)]) -> Properties {
    let mut m = Properties::new();
    for (k, v) in pairs {
        m.insert(Property {
            key: (*k).to_string(),
            value: (*v).to_string(),
            number: v.trim().parse::<f64>().ok().map(|x| Number::new(num(x), format!("{x}"))),
        });
    }
    m
}

fn zone(id: u128, pairs: &[(&str, &str)], children: Vec<Zone>) -> Zone {
    Zone { id, name: format!("zone {id}"), properties: props(pairs), node_ids: vec![], children }
}

fn node(id: u128, zone_ids: &[u128]) -> Node {
    Node {
        id,
        position: "0,0".to_string(),
        zone_ids: zone_ids.to_vec(),
        properties: props(&[]),
    }
}

fn edge(id: u128, ends: (usize, usize), weight: f64, zone_ids: &[u128]) -> Edge {
    Edge {
        id,
        source: ends.0,
        target: ends.1,
        weight: num(weight),
        zone_ids: zone_ids.to_vec(),
        properties: props(&[]),
    }
}

/// A line 1 - 2 - 3 - 4 with costs 2, 3 and 2.5, through zones 101 and 102.
fn index() -> Arc<WorkspaceIndex> {
    let root = zone(
        100,
        &[],
        vec![
            zone(101, &[("traffic.schedule_window", "day, night")], vec![]),
            zone(102, &[("traffic.policy", "corridor"), ("traffic.speed_limit", "0.5")], vec![]),
        ],
    );
    Arc::new(WorkspaceIndex::from_workspace(Workspace {
        root,
        nodes: vec![node(1, &[101]), node(2, &[101]), node(3, &[102]), node(4, &[])],
        edges: vec![
            edge(11, (0, 1), 2.0, &[101]),
            edge(12, (1, 2), 3.0, &[101, 102]),
            edge(13, (2, 3), 2.5, &[102]),
        ],
        coord_mode: CoordMode::Local,
        datum: Some(Geo { latitude: num(52.0), longitude: num(5.0), altitude: num(0.0) }),
    }))
}

fn plan(index: &WorkspaceIndex) -> RoutePlan {
    let plus = |a: Real, b: Real| num(float(a) + float(b));
    let price = |_: PenaltyTerm| num(0.0);
    let r = plan_route(index, 1, 4, false, &plus, &price);
    r.plan.unwrap()
}

fn per_unit(ticks: f64) -> impl Fn(Real) -> Real {
    move |cost| num(float(cost) * ticks)
}

fn subtract(a: Real, b: Real) -> Real {
    num(float(a) - float(b))
}

fn target(kind: ClaimTargetKind, resource_id: u128) -> ClaimTarget {
    ClaimTarget { kind, resource_id }
}

fn lease(id: u64, robot: u64, targets: &[ClaimTarget], until: Option<u64>) -> Lease {
    Lease {
        id: LeaseId::new(id),
        claim_id: ClaimId::new(id),
        robot_id: RobotId::new(robot),
        access_mode: EXCLUSIVE,
        targets: targets.to_vec(),
        granted_at_tick: Some(0),
        expires_at_tick: until,
        ..Lease::default()
    }
}

fn robot(id: u64) -> RobotState {
    RobotState { robot_id: RobotId::new(id), ..RobotState::default() }
}

/// A fleet whose robot 1 has a route.
fn fleet() -> Coordinator {
    let i = index();
    let p = plan(&i);
    let mut c = Coordinator::with_index(i);
    c.register_robot(robot(1));
    assert!(c.assign_route_plan(RobotId::new(1), p, 1, 5));
    c
}

const EXCLUSIVE: ClaimAccessMode = ClaimAccessMode::Exclusive;
const ZONE: ClaimTargetKind = ClaimTargetKind::Zone;
const NODE: ClaimTargetKind = ClaimTargetKind::Node;
const EDGE: ClaimTargetKind = ClaimTargetKind::Edge;

fn one() -> RobotId {
    RobotId::new(1)
}

// ---------------------------------------------------------------------------
// targets and windows
// ---------------------------------------------------------------------------

#[test]
fn targets_take_on_what_is_stated_of_them() {
    let i = index();
    let z = claim_target_semantics(&i, target(ZONE, 102));
    assert!(z.corridor && z.slowdown && z.waiting_allowed && z.stop_allowed && !z.blocked);
    assert_eq!(z.schedule_window, None);
    let n = claim_target_semantics(&i, target(NODE, 1));
    assert_eq!(n.schedule_window, Some("day, night".to_string()));
    assert!(!n.corridor);
    let e = claim_target_semantics(&i, target(EDGE, 13));
    assert!(e.slowdown && !e.blocked);
    let missing = claim_target_semantics(&i, target(ZONE, 999));
    assert!(missing.waiting_allowed && missing.stop_allowed && !missing.requires_claim);
}

#[test]
fn a_route_takes_its_targets_one_after_the_other() {
    let i = index();
    let w = scheduled_target_windows_from_route(&i, &plan(&i), 10, &per_unit(1.0));
    let rows: Vec<(ClaimTargetKind, u128, u64, u64)> = w
        .iter()
        .map(|w| {
            let t = w.semantics.target;
            (t.kind, t.resource_id, w.start_tick, w.end_tick)
        })
        .collect();
    assert_eq!(
        rows,
        vec![
            (NODE, 1, 10, 12),
            (ZONE, 101, 10, 12),
            (EDGE, 11, 10, 12),
            (ZONE, 101, 10, 12),
            (NODE, 2, 12, 15),
            (ZONE, 101, 12, 15),
            (EDGE, 12, 12, 15),
            (ZONE, 101, 12, 15),
            (ZONE, 102, 12, 15),
            (NODE, 3, 15, 18),
            (ZONE, 102, 15, 18),
            (EDGE, 13, 15, 18),
            (ZONE, 102, 15, 18),
            (NODE, 4, 18, 18),
        ]
    );
    assert!(rows.iter().all(|r| 10 <= r.2 && r.2 <= r.3));
    let mut broken = plan(&i);
    broken.start_node_id = 9;
    assert!(scheduled_target_windows_from_route(&i, &broken, 10, &per_unit(1.0)).is_empty());
}

#[test]
fn targets_meet_in_place_and_time() {
    let i = index();
    let w = |a: u64, b: u64| ClaimWindow { start_tick: Some(a), end_tick: Some(b) };
    let meet = |a: ClaimTarget, aw: ClaimWindow, b: ClaimTarget, bw: ClaimWindow| {
        let there = claim_target_windows_overlap(a, aw, b, bw, Some(&i));
        assert_eq!(there, claim_target_windows_overlap(b, bw, a, aw, Some(&i)));
        there
    };
    assert!(meet(target(NODE, 1), w(0, 5), target(NODE, 1), w(5, 9)));
    assert!(!meet(target(NODE, 1), w(0, 5), target(NODE, 1), w(6, 9)));
    assert!(!meet(target(NODE, 1), w(0, 5), target(NODE, 2), w(0, 5)));
    assert!(!meet(target(NODE, 1), w(0, 5), target(EDGE, 1), w(0, 5)));
    assert!(meet(target(ZONE, 101), w(0, 5), target(ZONE, 100), w(0, 5)));
    assert!(!meet(target(ZONE, 101), w(0, 5), target(ZONE, 102), w(0, 5)));
    assert!(!claim_target_windows_overlap(
        target(ZONE, 101),
        w(0, 5),
        target(ZONE, 100),
        w(0, 5),
        None
    ));
}

// ---------------------------------------------------------------------------
// scheduling
// ---------------------------------------------------------------------------

#[test]
fn a_free_route_proceeds() {
    let mut c = fleet();
    let d = c.schedule_robot_route(one(), ClaimId::new(42), 20, &per_unit(2.0), EXCLUSIVE);
    assert_eq!(d.kind, ScheduleDecisionKind::Proceed);
    assert_eq!(d.start_tick, 20);
    assert_eq!(
        d.diagnostics,
        vec!["route can proceed within the requested reservation window".to_string()]
    );
    let s = c.find_robot_state(one()).unwrap();
    assert_eq!(s.progress_state, RobotProgressState::FollowingRoute);
    assert_eq!(s.hold_reason, None);
    assert_eq!(s.reserved_until_tick, Some(35));
    assert_eq!(s.wait_ticks, 0);
}

#[test]
fn a_taken_resource_makes_a_robot_queue() {
    let mut c = fleet();
    c.claim_manager_mut().add_lease(lease(7, 2, &[target(NODE, 4)], Some(60)));
    let d = c.schedule_robot_route(one(), ClaimId::new(42), 20, &per_unit(1.0), EXCLUSIVE);
    assert_eq!(d.kind, ScheduleDecisionKind::Queue);
    assert_eq!(d.start_tick, 61);
    assert_eq!(d.queue_position, 2);
    assert_eq!(d.conflicts.len(), 1);
    assert_eq!(d.conflicts[0].target, target(NODE, 4));
    assert_eq!(d.conflicts[0].conflicting_lease_id, Some(LeaseId::new(7)));
    assert_eq!(d.conflicts[0].blocking_until_tick, 60);
    assert_eq!(
        d.conflicts[0].diagnostics,
        vec!["schedule conflict with active lease".to_string()]
    );
    let s = c.find_robot_state(one()).unwrap();
    assert_eq!(s.progress_state, RobotProgressState::Queued);
    assert_eq!(s.hold_reason, Some("queued_for_reservation_window".to_string()));
    assert_eq!(s.wait_ticks, 41);
    assert!(!s.needs_replan);
}

#[test]
fn a_taken_corridor_makes_a_robot_replan() {
    let mut c = fleet();
    c.claim_manager_mut().add_request(ClaimRequest {
        id: ClaimId::new(8),
        robot_id: RobotId::new(2),
        targets: vec![target(ZONE, 102)],
        ..ClaimRequest::default()
    });
    let d = c.schedule_robot_route(one(), ClaimId::new(42), 20, &per_unit(1.0), EXCLUSIVE);
    assert_eq!(d.kind, ScheduleDecisionKind::Replan);
    assert_eq!(d.start_tick, 20);
    assert_eq!(d.queue_position, 0);
    assert_eq!(d.conflicts.len(), 3);
    assert_eq!(d.conflicts[0].conflicting_claim_id, Some(ClaimId::new(8)));
    assert_eq!(
        d.conflicts[0].diagnostics,
        vec![
            "schedule conflict with active request".to_string(),
            "corridor resources cannot be used for side waiting".to_string(),
            "blocking resource applies slowdown semantics".to_string(),
        ]
    );
    let s = c.find_robot_state(one()).unwrap();
    assert_eq!(s.progress_state, RobotProgressState::Replanning);
    assert_eq!(s.hold_reason, Some("schedule_conflict_requires_replan".to_string()));
    assert!(s.needs_replan);
}

#[test]
fn a_request_does_not_stand_in_its_own_way() {
    let i = index();
    let p = plan(&i);
    let mut m = ClaimManager::with_index(i.clone());
    let request = claim_request_from_route(
        ClaimId::new(42),
        one(),
        MissionId::new(3),
        &p,
        Some(20),
        &per_unit(1.0),
        EXCLUSIVE,
    );
    assert_eq!(request.mission_id, MissionId::new(3));
    assert_eq!(request.window, ClaimWindow { start_tick: Some(20), end_tick: Some(28) });
    m.add_request(request.clone());
    let d = schedule_route_request(&i, &m, &request, &p, 20, &per_unit(1.0));
    assert_eq!(d.kind, ScheduleDecisionKind::Proceed);
    let idle = ClaimRequest { id: ClaimId::new(43), ..request };
    let d = schedule_route_request(&i, &m, &idle, &p, 20, &per_unit(1.0));
    assert_eq!(d.kind, ScheduleDecisionKind::Replan);
}

#[test]
fn nothing_is_scheduled_without_a_route() {
    let mut c = Coordinator::with_index(index());
    c.register_robot(robot(1));
    for id in [1, 2] {
        let d =
            c.schedule_robot_route(RobotId::new(id), ClaimId::new(1), 3, &per_unit(1.0), EXCLUSIVE);
        assert_eq!(d.kind, ScheduleDecisionKind::Replan);
        assert_eq!(d.start_tick, 3);
        assert_eq!(d.diagnostics, vec!["robot does not have a schedulable route".to_string()]);
    }
}

#[test]
fn a_decision_is_taken_over() {
    let mut s = robot(1);
    let mut d = ScheduleDecision {
        kind: ScheduleDecisionKind::Proceed,
        start_tick: 9,
        queue_position: 0,
        conflicts: vec![],
        diagnostics: vec![],
    };
    apply_schedule_decision(&mut s, &d, 12);
    assert_eq!(s.progress_state, RobotProgressState::Idle);
    assert_eq!(s.wait_ticks, 0);
    assert_eq!(s.scheduled_start_tick, Some(9));
    d.kind = ScheduleDecisionKind::Queue;
    d.start_tick = 20;
    apply_schedule_decision(&mut s, &d, 12);
    assert_eq!(s.progress_state, RobotProgressState::Queued);
    assert_eq!(s.wait_ticks, 8);
}

#[test]
fn a_missed_slot_calls_for_a_new_plan() {
    let mut c = fleet();
    {
        let s = c.find_robot_state_mut(one()).unwrap();
        s.scheduled_start_tick = Some(40);
        s.progress_state = RobotProgressState::Queued;
    }
    assert!(!robot_missed_schedule_slot(c.find_robot_state(one()).unwrap(), 45, 5));
    assert!(!c.handle_missed_schedule_slot(one(), 45, 5));
    assert!(c.handle_missed_schedule_slot(one(), 50, 5));
    let s = c.find_robot_state(one()).unwrap();
    assert_eq!(s.progress_state, RobotProgressState::Replanning);
    assert_eq!(s.hold_reason, Some("missed_reservation_window".to_string()));
    assert!(s.needs_replan);
    assert_eq!(s.updated_at_tick, 50);
    assert!(!c.handle_missed_schedule_slot(RobotId::new(9), 50, 5));
    // One that follows its route has not missed anything.
    let mut s = robot(1);
    s.scheduled_start_tick = Some(1);
    s.progress_state = RobotProgressState::FollowingRoute;
    assert!(!robot_missed_schedule_slot(&s, 100, 5));
    s.progress_state = RobotProgressState::Idle;
    assert!(!robot_missed_schedule_slot(&s, 100, 5));
    s.progress_state = RobotProgressState::Waiting;
    s.scheduled_start_tick = None;
    assert!(!robot_missed_schedule_slot(&s, 100, 5));
}

// ---------------------------------------------------------------------------
// progress and horizon
// ---------------------------------------------------------------------------

#[test]
fn a_route_is_claimed_as_a_whole() {
    let p = plan(&index());
    let t = claim_targets_from_route(&p);
    assert_eq!(
        t,
        vec![
            target(ZONE, 101),
            target(ZONE, 102),
            target(EDGE, 11),
            target(EDGE, 12),
            target(EDGE, 13),
            target(NODE, 1),
            target(NODE, 2),
            target(NODE, 3),
            target(NODE, 4),
        ]
    );
    let w = claim_window_from_route(&p, 100, &per_unit(2.0));
    assert_eq!(w, ClaimWindow { start_tick: Some(100), end_tick: Some(115) });
    let w = claim_window_from_route(&p, 100, &per_unit(-2.0));
    assert_eq!(w.end_tick, Some(100));
    let w = claim_window_from_route(&p, u64::MAX, &per_unit(2.0));
    assert_eq!(w.end_tick, Some(u64::MAX));
    let r = claim_request_from_route(
        ClaimId::new(1),
        one(),
        MissionId::new(0),
        &p,
        None,
        &per_unit(1.0),
        EXCLUSIVE,
    );
    assert_eq!(r.window, ClaimWindow::default());
    assert_eq!(r.requested_at_tick, None);
}

#[test]
fn a_horizon_claims_only_what_is_next() {
    let mut c = fleet();
    let r = c.claim_request_for_robot(one(), ClaimId::new(42), EXCLUSIVE, &subtract);
    assert_eq!(
        r.targets,
        vec![target(ZONE, 101), target(EDGE, 11), target(NODE, 1), target(NODE, 2)]
    );
    assert_eq!(r.requested_at_tick, Some(5));
    assert_eq!(r.window, ClaimWindow { start_tick: Some(5), end_tick: Some(13) });
    assert_eq!(c.claim_manager().evaluate_request(&r).decision, ClaimDecision::Grant);

    assert!(c.update_robot_progress(one(), Some(3), None, 12));
    let r = c.claim_request_for_robot(one(), ClaimId::new(42), EXCLUSIVE, &subtract);
    assert_eq!(
        r.targets,
        vec![target(ZONE, 102), target(EDGE, 13), target(NODE, 3), target(NODE, 4)]
    );
    assert_eq!(r.window, ClaimWindow { start_tick: Some(12), end_tick: Some(15) });
    // Every target lies on the route.
    let whole = claim_targets_from_route(
        c.find_robot_state(one()).unwrap().route_plan.as_ref().unwrap(),
    );
    assert!(r.targets.iter().all(|t| whole.contains(t)));

    let none = c.claim_request_for_robot(RobotId::new(9), ClaimId::new(1), EXCLUSIVE, &subtract);
    assert_eq!(none.id, ClaimId::new(0));
    assert!(none.targets.is_empty());
}

#[test]
fn a_horizon_needs_a_sound_route() {
    let mut s = robot(1);
    s.updated_at_tick = 4;
    let r = rolling_horizon_claim_request(ClaimId::new(2), &s, EXCLUSIVE, &subtract);
    assert!(r.targets.is_empty());
    assert_eq!(r.requested_at_tick, None);
    let mut p = plan(&index());
    s.route_plan = Some(p.clone());
    s.next_route_step_index = 9;
    let r = rolling_horizon_claim_request(ClaimId::new(2), &s, EXCLUSIVE, &subtract);
    assert!(r.targets.is_empty());
    assert_eq!(r.window, ClaimWindow { start_tick: Some(4), end_tick: Some(4) });
    p.goal_node_id = 9;
    s.route_plan = Some(p);
    let r = rolling_horizon_claim_request(ClaimId::new(2), &s, EXCLUSIVE, &subtract);
    assert_eq!(r.window, ClaimWindow::default());
}

#[test]
fn progress_is_where_the_robot_stands() {
    let mut s = robot(1);
    s.next_route_step_index = 7;
    assert_eq!(route_progress_index(&s), 7);
    s.route_plan = Some(plan(&index()));
    assert_eq!(route_progress_index(&s), 7);
    s.current_node_id = Some(3);
    assert_eq!(route_progress_index(&s), 2);
    s.current_node_id = Some(99);
    assert_eq!(route_progress_index(&s), 7);
    let p = plan(&index());
    assert_eq!(route_zone_targets_from_progress(&p, 0, 0), vec![101]);
    assert_eq!(route_zone_targets_from_progress(&p, 1, 1), vec![101, 102]);
    assert_eq!(route_zone_targets_from_progress(&p, 3, 5), Vec::<u128>::new());
}

#[test]
fn a_robot_moves_along_its_route() {
    let mut c = fleet();
    assert!(c.update_robot_progress(one(), Some(2), None, 8));
    let s = c.find_robot_state(one()).unwrap();
    assert_eq!(s.next_route_step_index, 1);
    assert_eq!(s.progress_state, RobotProgressState::FollowingRoute);
    assert!(c.update_robot_progress(one(), Some(4), None, 9));
    assert_eq!(c.find_robot_state(one()).unwrap().progress_state, RobotProgressState::Idle);
    assert!(c.update_robot_progress(one(), None, Some(12), 10));
    assert_eq!(
        c.find_robot_state(one()).unwrap().progress_state,
        RobotProgressState::FollowingRoute
    );
    assert!(c.update_robot_progress(one(), None, None, 11));
    assert_eq!(c.find_robot_state(one()).unwrap().progress_state, RobotProgressState::Waiting);
    assert_eq!(c.find_robot_state(one()).unwrap().updated_at_tick, 11);
    assert!(!c.update_robot_progress(RobotId::new(9), None, None, 11));
}

#[test]
fn leases_behind_a_robot_are_released() {
    let mut c = fleet();
    c.claim_manager_mut().add_lease(lease(1, 1, &[target(NODE, 1), target(EDGE, 11)], None));
    c.claim_manager_mut().add_lease(lease(2, 1, &[target(EDGE, 11), target(NODE, 3)], None));
    c.claim_manager_mut().add_lease(lease(3, 1, &[target(ZONE, 101)], None));
    let ids = vec![LeaseId::new(1), LeaseId::new(2), LeaseId::new(3), LeaseId::new(99)];
    assert!(c.update_robot_claim_state(one(), vec![], ids, Some(1)));
    assert_eq!(c.release_behind_progress(one()), 0);
    assert!(c.update_robot_progress(one(), Some(3), None, 12));
    assert_eq!(c.release_behind_progress(one()), 2);
    let s = c.find_robot_state(one()).unwrap();
    assert_eq!(s.active_lease_ids, vec![LeaseId::new(2)]);
    assert_eq!(s.last_claim_tick, Some(12));
    let m = c.claim_manager();
    assert_eq!(m.lease_count(), 1);
    assert_eq!(m.lease_count() + m.released_leases().len(), 3);
    assert_eq!(
        m.find_released_lease(LeaseId::new(1)).unwrap().disposition,
        LeaseDisposition::Released
    );
    assert_eq!(c.release_behind_progress(one()), 0);
    assert_eq!(c.release_behind_progress(RobotId::new(9)), 0);
    let mut loose = robot(2);
    assert_eq!(release_targets_behind_progress(&mut loose, &mut ClaimManager::new()), 0);
}

#[test]
fn a_route_is_held_against_named_windows() {
    let i = index();
    let p = plan(&i);
    assert!(route_matches_schedule_window(&i, &p, "day"));
    assert!(route_matches_schedule_window(&i, &p, "night"));
    assert_eq!(route_schedule_window_conflicts(&i, &p, "dusk"), vec![101]);
    assert!(!route_matches_schedule_window(&i, &p, "day, night"));
}

// ---------------------------------------------------------------------------
// the fleet
// ---------------------------------------------------------------------------

#[test]
fn a_plan_is_assigned() {
    let c = fleet();
    let s = c.find_robot_state(one()).unwrap();
    assert_eq!(s.scheduled_start_tick, Some(5));
    assert_eq!(s.reserved_until_tick, Some(13));
    assert_eq!(s.horizon, 1);
    assert_eq!(s.progress_state, RobotProgressState::FollowingRoute);
    let mut c = Coordinator::new();
    assert!(!c.assign_route_plan(one(), RoutePlan::default(), 1, 5));
    c.register_robot(robot(1));
    assert!(c.assign_route_plan(one(), RoutePlan::default(), 1, 5));
    assert_eq!(c.find_robot_state(one()).unwrap().progress_state, RobotProgressState::Idle);
    assert!(!c.update_robot_claim_state(RobotId::new(9), vec![], vec![], None));
}

#[test]
fn robots_are_registered_once() {
    let mut c = Coordinator::new();
    assert!(c.empty());
    assert!(c.register_with_key(one(), Key::Numeric(5)));
    assert!(!c.register_with_key(one(), Key::Numeric(6)));
    assert!(c.validate_key(one(), &Key::Numeric(5)));
    assert!(!c.validate_key(one(), &Key::Numeric(6)));
    assert!(!c.validate_key(RobotId::new(2), &Key::Numeric(5)));
    assert!(c.has_robot(one()));
    c.register_robot(robot(2));
    let mut again = robot(2);
    again.horizon = 9;
    c.register_robot(again);
    assert_eq!(c.robot_count(), 2);
    assert_eq!(c.robot_states()[1].horizon, 9);
    assert!(!c.register_with_key(RobotId::new(2), Key::Numeric(1)));
    assert!(!c.validate_key(RobotId::new(2), &Key::Numeric(1)));
}

#[test]
fn an_unregistered_robot_leaves_nothing_behind() {
    let mut c = Coordinator::new();
    let raw = "67e55044-10b1-426f-9247-bb680e5fe0c8";
    let id = c.resolve_or_mint_robot_id(raw).unwrap();
    assert!(c.register_with_key(id, Key::Numeric(5)));
    c.set_alive(id, 3, 1000);
    c.find_robot_state_mut(id).unwrap().updated_at_tick = 77;
    c.claim_manager_mut().add_lease(lease(1, id.raw(), &[target(NODE, 1)], None));
    c.claim_manager_mut().add_request(ClaimRequest {
        id: ClaimId::new(4),
        robot_id: id,
        ..ClaimRequest::default()
    });
    assert!(c.unregister_robot(id));
    assert!(!c.has_robot(id));
    assert!(!c.validate_key(id, &Key::Numeric(5)));
    assert_eq!(c.resolve_robot_id(raw), None);
    assert_eq!(c.claim_manager().request_count(), 0);
    assert_eq!(c.claim_manager().lease_count(), 0);
    let gone = c.claim_manager().find_released_lease(LeaseId::new(1)).unwrap();
    assert_eq!(gone.released_at_tick, Some(77));
    assert!(c.inactive_robots_at(u64::MAX).is_empty());
    assert!(!c.unregister_robot(id));
}

#[test]
fn identifiers_are_minted_and_bound() {
    let mut c = Coordinator::new();
    let raw = "67e55044-10b1-426f-9247-bb680e5fe0c8";
    assert_eq!(c.resolve_or_mint_robot_id(" 17 "), Some(RobotId::new(17)));
    assert_eq!(c.resolve_robot_id("17"), Some(RobotId::new(17)));
    assert_eq!(c.resolve_or_mint_robot_id("seventeen"), None);
    assert_eq!(c.resolve_robot_id(raw), None);
    let first = c.resolve_or_mint_robot_id(raw).unwrap();
    assert_eq!(first, RobotId::new(1 << 56));
    // Not bound before the registration has taken.
    assert_eq!(c.resolve_robot_id(raw), None);
    let second = c.resolve_or_mint_robot_id(raw).unwrap();
    assert_eq!(second, RobotId::new((1 << 56) + 1));
    assert!(c.register_with_key(second, Key::Numeric(5)));
    assert_eq!(c.resolve_robot_id(raw), Some(second));
    assert_eq!(c.resolve_robot_id(&raw.to_uppercase()), Some(second));
    assert_eq!(c.resolve_or_mint_robot_id(&format!(" {} ", raw.to_uppercase())), Some(second));
    assert_eq!(c.resolve_or_mint_robot_id(raw), Some(second));
    c.clear();
    assert!(c.empty());
    assert_eq!(c.resolve_robot_id(raw), None);
    assert_eq!(c.resolve_or_mint_robot_id(raw), Some(first));
}

#[test]
fn a_failed_registration_binds_nothing() {
    let mut c = Coordinator::new();
    let raw = "67e55044-10b1-426f-9247-bb680e5fe0c8";
    let id = c.resolve_or_mint_robot_id(raw).unwrap();
    c.register_robot(robot(id.raw()));
    assert!(!c.register_with_key(id, Key::Numeric(5)));
    assert_eq!(c.resolve_robot_id(raw), None);
}

#[test]
fn a_quiet_robot_is_swept() {
    let mut c = Coordinator::new();
    c.register_robot(robot(1));
    c.register_robot(robot(2));
    assert!(c.robot_active_at(one(), u64::MAX));
    c.set_alive(one(), 0, 1_000);
    assert_eq!(Coordinator::DEFAULT_ALIVE_SECS, 2);
    assert!(c.robot_active_at(one(), 4_999));
    // Active means that less than twice the interval has passed.
    assert!(!c.robot_active_at(one(), 5_000));
    assert!(c.inactive_robots_at(5_000).is_empty());
    assert_eq!(c.inactive_robots_at(5_001), vec![one()]);
    c.claim_manager_mut().add_lease(lease(1, 1, &[target(NODE, 1)], None));
    c.claim_manager_mut().add_lease(lease(2, 2, &[target(NODE, 2)], None));
    assert!(c.sweep_inactive(5_000).is_empty());
    assert_eq!(c.sweep_inactive(5_001), vec![one()]);
    assert!(c.sweep_inactive(5_001).is_empty());
    assert_eq!(c.claim_manager().lease_count(), 1);
    assert!(c.has_robot(one()));
    c.touch_robot(one(), 9_000);
    assert!(c.robot_active_at(one(), 9_001));
    c.touch_robot(RobotId::new(9), 9_000);
    assert!(c.robot_active_at(RobotId::new(9), u64::MAX));
    // A clock that runs back does no harm.
    assert!(c.robot_active_at(one(), 0));
}

#[test]
fn leases_are_refreshed_and_revoked_together() {
    let mut c = fleet();
    c.claim_manager_mut().add_lease(lease(1, 1, &[target(NODE, 1)], Some(30)));
    c.claim_manager_mut().add_lease(lease(2, 1, &[target(NODE, 2)], None));
    let ids = vec![LeaseId::new(1), LeaseId::new(2), LeaseId::new(99)];
    c.update_robot_claim_state(one(), vec![ClaimId::new(4)], ids, None);
    assert_eq!(c.refresh_robot_leases(one(), 20, 15), 2);
    let m = c.claim_manager();
    assert_eq!(m.find_lease(LeaseId::new(1)).unwrap().expires_at_tick, Some(45));
    assert_eq!(m.find_lease(LeaseId::new(2)).unwrap().expires_at_tick, None);
    assert_eq!(m.find_lease(LeaseId::new(2)).unwrap().refreshed_at_tick, Some(20));
    assert_eq!(c.find_robot_state(one()).unwrap().last_claim_tick, Some(20));
    assert_eq!(c.revoke_robot_leases(one(), "fault".to_string(), 25), 2);
    let s = c.find_robot_state(one()).unwrap();
    assert!(s.active_lease_ids.is_empty());
    assert_eq!(s.progress_state, RobotProgressState::Replanning);
    assert_eq!(s.hold_reason, Some("fault".to_string()));
    assert!(s.needs_replan);
    assert_eq!(c.claim_manager().lease_count(), 0);
    assert_eq!(c.revoke_robot_leases(one(), "fault".to_string(), 26), 0);
    assert!(!c.find_robot_state(one()).unwrap().needs_replan);
    assert_eq!(c.refresh_robot_leases(RobotId::new(9), 1, 1), 0);
    assert_eq!(c.revoke_robot_leases(RobotId::new(9), "x".to_string(), 1), 0);
}

#[test]
fn position_and_heading_are_independent() {
    let mut c = fleet();
    let to_geo = |p: Point, o: Geo| Geo {
        latitude: num(float(o.latitude) + float(p.y)),
        longitude: num(float(o.longitude) + float(p.x)),
        altitude: p.z,
    };
    let to_point = |g: Geo, o: Geo| Point {
        x: num(float(g.longitude) - float(o.longitude)),
        y: num(float(g.latitude) - float(o.latitude)),
        z: g.altitude,
    };
    let i = index();
    let local = RobotPosition::from_local(num(1.0), num(2.0), num(3.0), Some(&i), to_geo);
    assert!(local.converted);
    assert_eq!(local.reported, PositionFrame::Local);
    assert_eq!(float(local.lat), 54.0);
    let global = RobotPosition::from_global(num(54.0), num(6.0), num(3.0), Some(&i), to_point);
    assert!(global.converted);
    assert_eq!(global.reported, PositionFrame::Global);
    assert_eq!(global.x, local.x);
    let lost = RobotPosition::from_local(num(1.0), num(2.0), num(3.0), None, to_geo);
    assert!(!lost.converted);
    assert_eq!(float(lost.lat), 0.0);
    assert_eq!(float(lost.x), 1.0);

    let heading = RobotHeading::from_yaw_rad(num(0.0), bearing);
    assert!(!c.update_robot_pose(one(), None, None, 5));
    assert!(c.update_robot_pose(one(), Some(local), None, 6));
    assert!(c.update_robot_pose(one(), None, Some(heading), 7));
    let s = c.find_robot_state(one()).unwrap();
    assert_eq!(s.position, Some(local));
    assert_eq!(s.heading, Some(heading));
    assert_eq!(s.pose_at_ms, Some(7));
    assert!(!c.update_robot_pose(RobotId::new(9), Some(local), None, 8));
}

/// Clockwise from north, in degrees, of an angle counter-clockwise from east.
fn bearing(yaw_rad: Real) -> Real {
    num((90.0 - float(yaw_rad).to_degrees()).rem_euclid(360.0))
}

#[test]
fn yaw_becomes_a_compass_bearing() {
    let cases = [
        (0.0, 90.0),
        (std::f64::consts::FRAC_PI_2, 0.0),
        (std::f64::consts::PI, 270.0),
        (-std::f64::consts::FRAC_PI_2, 180.0),
        (std::f64::consts::FRAC_PI_4, 45.0),
    ];
    for (yaw_rad, expected) in cases {
        let heading = RobotHeading::from_yaw_rad(num(yaw_rad), bearing);
        assert!(
            (float(heading.bearing_deg) - expected).abs() < 1e-9,
            "yaw {yaw_rad} should bear {expected}, got {}",
            float(heading.bearing_deg)
        );
        assert_eq!(float(heading.yaw_rad), yaw_rad, "the reported yaw is kept as sent");
    }
}

#[test]
fn a_bearing_that_rounds_to_a_full_turn_is_none() {
    // Just beyond north the remainder rounds up.
    let yaw = num(f64::from_bits(std::f64::consts::FRAC_PI_2.to_bits() + 1));
    assert_eq!(float(bearing(yaw)), 360.0);
    assert_eq!(float(RobotHeading::from_yaw_rad(yaw, bearing).bearing_deg), 0.0);
    let h = RobotHeading::from_yaw_rad(num(0.0), |_| num(359.5));
    assert_eq!(float(h.bearing_deg), 359.5);
}

#[test]
fn a_bearing_always_lands_in_zero_to_360() {
    for yaw_deg in [-720.0, -180.0, 0.0, 180.0, 540.0, 1080.0] {
        let yaw = num(f64::to_radians(yaw_deg));
        let bearing = float(RobotHeading::from_yaw_rad(yaw, bearing).bearing_deg);
        assert!(
            (0.0..360.0).contains(&bearing),
            "yaw {yaw_deg}° gave a bearing of {bearing}"
        );
    }
}

// ---------------------------------------------------------------------------
// arbitration
// ---------------------------------------------------------------------------

#[test]
fn arbitration_emergency_proceeds() {
    let ctx = SbArbitrationContext {
        self_priority: num(0.0),
        other_priority: num(0.0),
        self_holds_lease: 0,
        other_holds_lease: 0,
        self_is_emergency: 1,
        other_is_emergency: 0,
        self_state: 0,
        other_state: 0,
        self_wait_ticks: 0,
        other_wait_ticks: 0,
        self_remaining_steps: 0,
        other_remaining_steps: 0,
    };
    let d = arbitrate_numbers(Some(ctx));
    assert_eq!(d, SbArbitrationDecision::Proceed.code());
    assert_eq!(d, 0);
    assert_eq!(SbArbitrationDecision::Yield.code(), 1);
    assert_eq!(SbArbitrationDecision::Replan.code(), 2);
    assert_eq!(arbitrate_numbers(None), SbArbitrationDecision::Replan.code());
}

fn swapped(c: &ArbitrationContext) -> ArbitrationContext {
    ArbitrationContext {
        self_priority: c.other_priority,
        other_priority: c.self_priority,
        self_holds_lease: c.other_holds_lease,
        other_holds_lease: c.self_holds_lease,
        self_is_emergency: c.other_is_emergency,
        other_is_emergency: c.self_is_emergency,
        self_state: c.other_state,
        other_state: c.self_state,
        self_wait_ticks: c.other_wait_ticks,
        other_wait_ticks: c.self_wait_ticks,
        self_remaining_steps: c.other_remaining_steps,
        other_remaining_steps: c.self_remaining_steps,
    }
}

#[test]
fn right_of_way_goes_by_its_criteria_in_turn() {
    let proceeds = |c: &ArbitrationContext| {
        assert_eq!(arbitrate_right_of_way(c), ArbitrationDecision::Proceed);
        assert_eq!(arbitrate_right_of_way(&swapped(c)), ArbitrationDecision::Yield);
    };
    let mut c = ArbitrationContext::default();
    assert_eq!(arbitrate_right_of_way(&c), ArbitrationDecision::Replan);
    c.self_remaining_steps = 4;
    c.other_remaining_steps = 12;
    proceeds(&c);
    c = swapped(&c);
    c.self_state = RobotProgressState::Waiting;
    c.other_state = RobotProgressState::Waiting;
    c.self_wait_ticks = 8;
    c.other_wait_ticks = 3;
    proceeds(&c);
    c = swapped(&c);
    c.self_state = RobotProgressState::FollowingRoute;
    proceeds(&c);
    c = swapped(&c);
    c.other_state = RobotProgressState::Blocked;
    proceeds(&c);
    c = swapped(&c);
    c.self_priority = num(5.0);
    c.other_priority = num(3.0);
    proceeds(&c);
    c = swapped(&c);
    c.self_holds_lease = true;
    proceeds(&c);
    c = swapped(&c);
    c.self_is_emergency = true;
    proceeds(&c);
    // Priorities that cannot be compared settle nothing.
    let mut c = ArbitrationContext::default();
    c.self_priority = num(f64::NAN);
    assert_eq!(arbitrate_right_of_way(&c), ArbitrationDecision::Replan);
}

#[test]
fn the_example_of_an_intersection() {
    let ctx = ArbitrationContext {
        self_priority: num(5.0),
        other_priority: num(3.0),
        self_holds_lease: true,
        self_state: RobotProgressState::FollowingRoute,
        other_state: RobotProgressState::Waiting,
        self_remaining_steps: 4,
        other_remaining_steps: 12,
        ..ArbitrationContext::default()
    };
    assert_eq!(arbitrate_right_of_way(&ctx), ArbitrationDecision::Proceed);
}

#[test]
fn words_and_numbers_stand_for_states() {
    let states = [
        ("idle", RobotProgressState::Idle),
        ("following_route", RobotProgressState::FollowingRoute),
        ("waiting", RobotProgressState::Waiting),
        ("queued", RobotProgressState::Queued),
        ("blocked", RobotProgressState::Blocked),
        ("replanning", RobotProgressState::Replanning),
    ];
    for (i, (word, state)) in states.iter().enumerate() {
        assert_eq!(parse_progress_state(word), *state);
        assert_eq!(progress_state_from_u8(i as u8), *state);
    }
    assert_eq!(parse_progress_state("Waiting"), RobotProgressState::Idle);
    assert_eq!(progress_state_from_u8(200), RobotProgressState::Idle);
    assert_eq!(parse_access_mode("shared"), ClaimAccessMode::Shared);
    assert_eq!(parse_access_mode("exclusive"), EXCLUSIVE);
    assert_eq!(parse_access_mode("?"), EXCLUSIVE);
    assert_eq!(zone_policy_kind_str(ZonePolicyKind::CapacityLimited), "capacity_limited");
    assert_eq!(zone_policy_kind_str(ZonePolicyKind::ExclusiveAccess), "exclusive");
    assert_eq!(arbitration_str(ArbitrationDecision::Yield), "yield");
}

// ---------------------------------------------------------------------------
// snapshots
// ---------------------------------------------------------------------------

#[test]
fn a_fleet_survives_a_restart() {
    let raw = "67e55044-10b1-426f-9247-bb680e5fe0c8";
    let mut c = fleet();
    let id = c.resolve_or_mint_robot_id(raw).unwrap();
    assert!(c.register_with_key(id, Key::Pass("pass".to_string())));
    c.set_alive(id, 3, 1_000);
    c.claim_manager_mut().add_lease(lease(1, 1, &[target(NODE, 1)], Some(30)));
    c.claim_manager_mut().add_lease(lease(2, 1, &[target(NODE, 2)], Some(40)));
    c.claim_manager_mut().release_lease(LeaseId::new(2), Some(3));
    assert_eq!(c.claim_manager_mut().next_request_id(), ClaimId::new(2));
    // A tentative identifier is not kept.
    let other = "00000000-0000-0000-0000-000000000001";
    let tentative = c.resolve_or_mint_robot_id(other).unwrap();

    let mut back = Coordinator::restore(c.snapshot(), Some(index()));
    assert!(back.has_index());
    assert!(back.claim_manager().has_index());
    assert_eq!(back.robot_count(), 2);
    assert_eq!(back.resolve_robot_id(raw), Some(id));
    assert!(back.validate_key(id, &Key::Pass("pass".to_string())));
    assert!(!back.validate_key(id, &Key::Pass("word".to_string())));
    assert!(!back.robot_active_at(id, 60_000));
    assert_eq!(back.claim_manager().lease_count(), 1);
    assert!(back.claim_manager().find_released_lease(LeaseId::new(2)).is_some());
    assert_eq!(back.claim_manager_mut().next_request_id(), ClaimId::new(3));
    assert!(back.register_with_key(tentative, Key::Numeric(1)));
    assert_eq!(back.resolve_robot_id(other), None);
    let s = back.find_robot_state(one()).unwrap();
    assert_eq!(s.route_plan.as_ref().unwrap().traversed_node_ids, vec![1, 2, 3, 4]);
}

#[test]
fn a_ledger_survives_a_restart() {
    let mut m = ClaimManager::new();
    m.add_request(ClaimRequest { id: ClaimId::new(9), ..ClaimRequest::default() });
    let mut back = ClaimManager::restore(m.snapshot(), None);
    assert!(!back.has_index());
    assert_eq!(back.request_count(), 1);
    assert_eq!(back.next_request_id(), ClaimId::new(10));
    let mut blank = m.snapshot();
    blank.active_requests.clear();
    blank.next_id = 0;
    assert_eq!(ClaimManager::restore(blank, None).next_request_id(), ClaimId::new(1));
}

#[test]
fn another_workspace_is_bound_throughout() {
    let mut c = Coordinator::new();
    assert!(!c.has_index());
    assert!(c.index().is_none());
    c.bind_index(index());
    assert!(c.index_arc().is_some());
    assert!(c.claim_manager().has_index());
}

#[test]
fn ticks_are_counted_up_to_the_last() {
    let p = plan(&index());
    assert!(do_ticks_fit(&p, 0, &per_unit(1.0)));
    assert!(do_ticks_fit(&p, u64::MAX - 8, &per_unit(1.0)));
    assert!(!do_ticks_fit(&p, u64::MAX - 7, &per_unit(1.0)));
    assert!(do_ticks_fit(&p, u64::MAX, &per_unit(-1.0)));
    assert!(do_ticks_fit(&RoutePlan::default(), u64::MAX, &per_unit(1.0)));
}

#[test]
fn what_can_be_counted_is_told() {
    let mut c = fleet();
    assert!(does_horizon_fit(c.find_robot_state(one()).unwrap()));
    c.find_robot_state_mut(one()).unwrap().horizon = u64::MAX;
    assert!(!does_horizon_fit(c.find_robot_state(one()).unwrap()));
    c.find_robot_state_mut(one()).unwrap().horizon = u64::MAX - 1;
    assert!(does_horizon_fit(c.find_robot_state(one()).unwrap()));
    assert!(does_horizon_fit(&robot(3)));

    assert!(does_grace_fit(c.find_robot_state(one()).unwrap(), u64::MAX - 5));
    assert!(!does_grace_fit(c.find_robot_state(one()).unwrap(), u64::MAX - 4));

    c.claim_manager_mut().add_lease(lease(1, 1, &[target(NODE, 1)], Some(10)));
    c.claim_manager_mut().add_lease(lease(2, 1, &[target(NODE, 2)], None));
    let ids = vec![LeaseId::new(1), LeaseId::new(2), LeaseId::new(1)];
    c.update_robot_claim_state(one(), vec![], ids, None);
    // The first lease is prolonged twice.
    assert!(c.does_extension_fit(one(), 1, (u64::MAX - 10) / 2));
    assert!(!c.does_extension_fit(one(), 1, u64::MAX - 10));
    assert!(c.does_extension_fit(RobotId::new(9), 1, u64::MAX));
    assert_eq!(c.refresh_robot_leases(one(), 1, 5), 3);
    let l = c.claim_manager().find_lease(LeaseId::new(1)).unwrap();
    assert_eq!(l.expires_at_tick, Some(20));
}

#[test]
fn decisions_can_be_made_and_copied() {
    let d = ScheduleDecision::default();
    assert_eq!(d.kind, ScheduleDecisionKind::Proceed);
    assert!(d.conflicts.is_empty());
    let c = ScheduleConflict::default();
    assert_eq!(c.target, target(ZONE, 0));
    let mut e = d.clone();
    e.conflicts.push(c);
    assert_eq!(e.clone().conflicts.len(), 1);
    let w = ScheduledTargetWindow::default();
    assert!(!w.semantics.waiting_allowed);
    assert_eq!(w.end_tick, 0);
    let s = CoordinatorSnapshot::default();
    assert!(s.robot_states.is_empty());
    let c = Coordinator::restore(s.clone(), None);
    assert!(c.empty());
}

#[test]
fn a_sweep_takes_only_from_the_silent() {
    let mut c = Coordinator::new();
    for (id, seen) in [(1, 1_000), (2, 9_000), (3, 1_000), (4, 1_000)] {
        c.register_robot(robot(id));
        c.set_alive(RobotId::new(id), 1, seen);
    }
    let m = c.claim_manager_mut();
    for (id, owner) in [(1, 1), (2, 2), (3, 3), (4, 2), (5, 1)] {
        m.add_lease(lease(id, owner, &[target(NODE, 1)], None));
        m.add_request(ClaimRequest {
            id: ClaimId::new(id),
            robot_id: RobotId::new(owner),
            ..ClaimRequest::default()
        });
    }
    m.release_lease(LeaseId::new(3), Some(7));
    assert_eq!(c.sweep_inactive(9_500), vec![RobotId::new(1), RobotId::new(3)]);
    let m = c.claim_manager();
    let kept: Vec<u64> = m.leases().iter().map(|l| l.id.raw()).collect();
    assert_eq!(kept, vec![2, 4]);
    let asked: Vec<u64> = m.requests().iter().map(|r| r.id.raw()).collect();
    assert_eq!(asked, vec![2, 4]);
    let gone: Vec<(u64, Option<u64>)> =
        m.released_leases().iter().map(|l| (l.id.raw(), l.released_at_tick)).collect();
    assert_eq!(gone, vec![(3, Some(7)), (1, Some(9_500)), (5, Some(9_500))]);
}
