use syncbot::number::{Number, Real};
use syncbot::properties::{Properties, Property};
use syncbot::route::graph::PenaltyTerm;
use syncbot::vda::adapter::{
    claim_target_kind_string, map_robot_state_with_claims, map_route_plan_with_index,
    try_map_route_plan_with_index,
};
use syncbot::vda::{
    map_robot_state, map_route_plan, try_map_route_plan, ActionBlockingType, ActionStatus,
    Adapter, ConnectionState, ConnectionStatus, Factsheet, InstantAction, OperatingMode, Order,
    OrderEdge, ReservationState, State,
};
use syncbot::workspace::{CoordMode, Edge, Node, Workspace, Zone};
use syncbot::{
    plan_route, ClaimId, ClaimManager, ClaimRequest, ClaimTarget, ClaimTargetKind, Error, Lease,
    LeaseId, RobotId, RobotProgressState, RobotState, RoutePlan, WorkspaceIndex,
};

fn num(x: f64) -> Real {
    Real::from_bits(x.to_bits())
}

fn float(x: Real) -> f64 {
    f64::from_bits(x.to_bits())
}

fn props(pairs: &[(&str, &str)]) -> Properties {
    let mut m = Properties::new();
    for (k, v) in pairs {
        m.insert(Property {
            key: (*k).to_string(),
            value: (*v).to_string(),
            number: v.trim().parse::<f64>().ok().map(|x| Number::new(num(x), format!("{x}"))),
        });
    }
    m
}

fn zone(id: u128, pairs: &[(&str, &str)], children: Vec<Zone>) -> Zone {
    Zone { id, name: format!("zone {id}"), properties: props(pairs), node_ids: vec![], children }
}

fn node(id: u128, position: &str, zone_ids: &[u128]) -> Node {
    Node {
        id,
        position: position.to_string(),
        zone_ids: zone_ids.to_vec(),
        properties: props(&[]),
    }
}

fn index() -> WorkspaceIndex {
    WorkspaceIndex::from_workspace(Workspace {
        root: zone(
            100,
            &[],
            vec![zone(
                101,
                &[("traffic.schedule_window", "day"), ("traffic.speed_limit", "1.5")],
                vec![],
            )],
        ),
        nodes: vec![node(1, "10,10", &[101]), node(2, "50,10", &[])],
        edges: vec![Edge {
            id: 11,
            source: 0,
            target: 1,
            weight: num(4.0),
            zone_ids: vec![101],
            properties: props(&[
                ("traffic.claim_required", "true"),
                ("traffic.access_group", "forklifts"),
            ]),
        }],
        coord_mode: CoordMode::Global,
        datum: None,
    })
}

fn plan() -> RoutePlan {
    let i = index();
    let plus = |a: Real, b: Real| num(float(a) + float(b));
    let price = |_: PenaltyTerm| num(0.0);
    let r = plan_route(&i, 1, 2, false, &plus, &price);
    r.plan.unwrap()
}

fn id(n: u128) -> String {
    format!("00000000-0000-0000-0000-{n:012x}")
}

#[test]
fn an_order_follows_its_plan() {
    let p = plan();
    let o = map_route_plan(&p);
    assert_eq!(o.version, "3.0.0");
    assert_eq!(o.header_id, id(1));
    assert_eq!(o.order_id, id(2));
    assert_eq!(o.order_update_id, 1);
    assert_eq!(o.nodes.len(), p.traversed_node_ids.len());
    assert_eq!(o.nodes[1].node_id, id(2));
    assert_eq!(o.nodes[1].sequence_id, "1");
    assert_eq!(o.nodes[1].node_position_hint, Some("1".to_string()));
    assert_eq!(o.nodes[0].reservations.len(), 1);
    assert_eq!(o.nodes[0].reservations[0].target_id, id(101));
    assert_eq!(o.nodes[0].reservations[0].target_kind, "zone");
    assert!(!o.nodes[0].released);
    assert_eq!(o.edges.len(), 1);
    assert_eq!(o.edges[0].edge_id, id(11));
    assert_eq!(o.edges[0].start_node_id, id(1));
    assert_eq!(o.edges[0].end_node_id, id(2));
    assert!(o.edges[0].bidirectional);
    assert_eq!(o.edges[0].zone_id, None);
}

#[test]
fn an_order_takes_in_what_the_workspace_knows() {
    let i = index();
    let p = plan();
    let o = map_route_plan_with_index(&i, &p);
    assert_eq!(o.nodes[0].zone_id, Some(id(101)));
    assert_eq!(o.nodes[0].node_position_hint, Some("10,10".to_string()));
    assert_eq!(o.nodes[0].reservations.len(), 2);
    assert_eq!(o.nodes[0].reservations[1].schedule_window, Some("day".to_string()));
    assert!(!o.nodes[0].reservations[1].requires_claim);
    assert_eq!(o.nodes[1].zone_id, None);
    assert_eq!(o.nodes[1].reservations.len(), 0);
    let e = &o.edges[0];
    assert_eq!(e.zone_id, Some(id(101)));
    assert_eq!(e.max_speed.map(float), Some(1.5));
    assert!(e.bidirectional);
    assert_eq!(e.reservations.len(), 2);
    assert_eq!(e.reservations[1].target_id, id(11));
    assert_eq!(e.reservations[1].target_kind, "edge");
    assert!(e.reservations[1].requires_claim);
    assert_eq!(e.reservations[1].access_group, Some("forklifts".to_string()));
    assert_eq!(e.reservations[1].schedule_window, Some("day".to_string()));
}

#[test]
fn a_broken_plan_has_no_order() {
    let mut p = plan();
    p.goal_node_id = 9;
    assert!(matches!(try_map_route_plan(&p), Err(Error::InvalidArgument(_))));
    assert!(matches!(
        try_map_route_plan_with_index(&index(), &p),
        Err(Error::InvalidArgument(_))
    ));
    let o = map_route_plan(&p);
    assert_eq!(o.version, "3.0.0");
    assert_eq!(o.header_id, "");
    assert!(o.nodes.is_empty());
    assert!(map_route_plan_with_index(&index(), &p).edges.is_empty());
}

#[test]
fn a_robot_is_reported() {
    let mut s = RobotState { robot_id: RobotId::new(7), ..RobotState::default() };
    let r = map_robot_state(&s);
    assert_eq!(r.agv_id, "7");
    assert_eq!(r.operating_mode, OperatingMode::Manual);
    assert_eq!(r.connection_state, ConnectionState::Online);
    assert_eq!(r.driving_state, Some("STOPPED".to_string()));
    assert!(!r.paused);
    assert_eq!(r.order_id, None);
    s.route_plan = Some(plan());
    s.progress_state = RobotProgressState::FollowingRoute;
    s.current_node_id = Some(1);
    s.current_edge_id = Some(11);
    let r = map_robot_state(&s);
    assert_eq!(r.operating_mode, OperatingMode::Automatic);
    assert_eq!(r.driving_state, Some("DRIVING".to_string()));
    assert_eq!(r.last_node_id, Some(id(1)));
    assert_eq!(r.last_edge_id, Some(id(11)));
    assert_eq!(r.order_id, Some(id(2)));
    assert_eq!(r.order_update_id, 1);
    s.progress_state = RobotProgressState::Blocked;
    s.pending_claim_ids = vec![ClaimId::new(3)];
    let r = map_robot_state(&s);
    assert!(r.paused);
    assert_eq!(r.errors, vec!["pending_claims".to_string()]);
    assert_eq!(r.information, vec!["claims awaiting arbitration".to_string()]);
}

#[test]
fn a_robot_is_reported_with_its_claims() {
    let target = |kind: ClaimTargetKind, resource_id: u128| ClaimTarget { kind, resource_id };
    let mut m = ClaimManager::new();
    m.add_lease(Lease {
        id: LeaseId::new(1),
        targets: vec![target(ClaimTargetKind::Node, 1)],
        ..Lease::default()
    });
    m.add_request(ClaimRequest {
        id: ClaimId::new(3),
        targets: vec![target(ClaimTargetKind::Edge, 11)],
        ..ClaimRequest::default()
    });
    let s = RobotState {
        robot_id: RobotId::new(7),
        active_lease_ids: vec![LeaseId::new(1), LeaseId::new(2)],
        pending_claim_ids: vec![ClaimId::new(3), ClaimId::new(4)],
        hold_reason: Some("fault".to_string()),
        ..RobotState::default()
    };
    let r = map_robot_state_with_claims(&s, &m);
    let rows: Vec<(&str, &str, &str)> = r
        .reservation_states
        .iter()
        .map(|r| (r.target_id.as_str(), r.target_kind.as_str(), r.state.as_str()))
        .collect();
    assert_eq!(
        rows,
        vec![
            (id(1).as_str(), "node", "ACTIVE"),
            (id(11).as_str(), "edge", "PENDING"),
        ]
    );
    assert_eq!(r.errors, vec!["pending_claims".to_string(), "missing_lease".to_string()]);
    assert_eq!(r.action_states, vec!["holding_leases".to_string(), "fault".to_string()]);
    assert_eq!(claim_target_kind_string(ClaimTargetKind::Zone), "zone");
}

#[test]
fn an_adapter_does_the_same() {
    let a = Adapter::default();
    let p = plan();
    assert_eq!(a.order_from_route(&p).nodes.len(), 2);
    assert_eq!(a.order_from_route_with_index(&index(), &p).edges[0].zone_id, Some(id(101)));
    let s = RobotState { robot_id: RobotId::new(7), ..RobotState::default() };
    assert_eq!(a.state_from_robot(&s).agv_id, "7");
    assert!(a.state_from_robot_with_claims(&s, &ClaimManager::new()).action_states.is_empty());
    let mut f = Factsheet::new();
    assert_eq!(f.protocol_version, "3.0.0");
    f.manufacturer = "Acme".to_string();
    f.serial_number = "42".to_string();
    let c = a.connection_from_factsheet(&f);
    assert_eq!(c.manufacturer, "Acme");
    assert_eq!(c.serial_number, "42");
    assert_eq!(c.version, "3.0.0");
    assert_eq!(c.status, ConnectionStatus::Online);
    let action = InstantAction { action_id: "stop".to_string(), ..InstantAction::default() };
    assert_eq!(action.blocking_type, ActionBlockingType::NonBlocking);
    let r = a.response_for_action(&action, ActionStatus::Failed, None, Some("E1".to_string()));
    assert_eq!(r.action_id, "stop");
    assert_eq!(r.status, ActionStatus::Failed);
    assert_eq!(r.description, None);
    assert_eq!(r.result_code, Some("E1".to_string()));
}

#[test]
fn blank_messages_are_blank() {
    assert_eq!(Order::default().version, "3.0.0");
    assert_eq!(Order::default().clone(), Order::default());
    assert_eq!(State::default().clone(), State::default());
    assert!(OrderEdge::default().bidirectional);
    assert_eq!(State::default().connection_state, ConnectionState::Offline);
    assert_eq!(State::default().operating_mode, OperatingMode::Manual);
    assert_eq!(ReservationState::default().state, "");
    assert_eq!(Factsheet::default().protocol_version, "");
    assert_eq!(ConnectionStatus::default(), ConnectionStatus::Offline);
    assert_eq!(ActionStatus::default(), ActionStatus::Rejected);
}
