use std::collections::HashMap;
use syncbot::number::{Number, Real};
use syncbot::properties::{Properties, Property};
use syncbot::route::cost::edge_traversal_penalty;
use syncbot::route::graph::{
    allows_traversal_from_node, blocked_zones_for_edge, is_edge_hard_blocked, list_penalty,
    Penalty, PenaltyTerm,
};
use syncbot::workspace::{CoordMode, Edge, Geo, Node, Workspace, Zone};
use syncbot::{
    accumulate_route_cost, build_route_plan, build_route_plan_from_search,
    diagnose_route_failure, extract_traversed_edge_ids, extract_traversed_node_ids,
    extract_traversed_zone_ids, plan_route, reconstruct_route_steps, shortest_path_search,
    shortest_path_search_with_blocking, shortest_path_search_with_penalties,
    validate_route_plan_shape, Error, RouteCostModel, RouteFailureKind, RoutePlan,
    RoutePlanningResult, RouteSearchState, RouteStep, WorkspaceIndex,
};

fn num(x: f64) -> Real {
    Real::from_bits(x.to_bits())
}

fn float(x: Real) -> f64 {
    f64::from_bits(x.to_bits())
}

fn props(pairs: &[(&str, &str)]) -> Properties {
    let mut m = Properties::new();
    for (k, v) in pairs {
        m.insert(Property {
            key: (*k).to_string(),
            value: (*v).to_string(),
            number: v.trim().parse::<f64>().ok().map(|x| Number::new(num(x), format!("{x}"))),
        });
    }
    m
}

fn zone(id: u128, pairs: &[(&str, &str)], children: Vec<Zone>) -> Zone {
    Zone { id, name: format!("zone {id}"), properties: props(pairs), node_ids: vec![], children }
}

fn node(id: u128, zone_ids: &[u128]) -> Node {
    Node {
        id,
        position: "0,0".to_string(),
        zone_ids: zone_ids.to_vec(),
        properties: props(&[]),
    }
}

fn edge(id: u128, ends: (usize, usize), weight: f64, zone_ids: &[u128]) -> Edge {
    Edge {
        id,
        source: ends.0,
        target: ends.1,
        weight: num(weight),
        zone_ids: zone_ids.to_vec(),
        properties: props(&[]),
    }
}

fn index(root: Zone, nodes: Vec<Node>, edges: Vec<Edge>) -> WorkspaceIndex {
    WorkspaceIndex::from_workspace(Workspace {
        root,
        nodes,
        edges,
        coord_mode: CoordMode::Local,
        datum: Some(Geo { latitude: num(52.0), longitude: num(5.0), altitude: num(0.0) }),
    })
}

fn line() -> WorkspaceIndex {
    index(
        zone(100, &[], vec![]),
        vec![node(1, &[]), node(2, &[]), node(3, &[])],
        vec![edge(11, (0, 1), 4.0, &[]), edge(12, (1, 2), 4.0, &[])],
    )
}

/// From 1 to 3 directly through zone 101, or around by way of 2.
fn detour(zone_props: &[(&str, &str)]) -> WorkspaceIndex {
    index(
        zone(100, &[], vec![zone(101, zone_props, vec![])]),
        vec![node(1, &[]), node(2, &[]), node(3, &[101])],
        vec![
            edge(11, (0, 1), 2.0, &[]),
            edge(12, (1, 2), 2.0, &[]),
            edge(13, (0, 2), 3.0, &[101]),
        ],
    )
}

fn price(t: PenaltyTerm) -> Real {
    num(match t {
        PenaltyTerm::Bias(b) => float(b),
        PenaltyTerm::InverseOf(x) => 1.0 / float(x),
        PenaltyTerm::InverseOfCount(n) => 1.0 / n as f64,
        PenaltyTerm::PriorityGap(p, weight) => {
            (10.0 - float(p)).max(0.0) * (weight as f64 / 100.0)
        }
        PenaltyTerm::Hundredths(n) => n as f64 / 100.0,
    })
}

fn plus(a: Real, b: Real) -> Real {
    num(float(a) + float(b))
}

fn penalty(index: &WorkspaceIndex, id: u128) -> f64 {
    float(edge_traversal_penalty(index, id, &plus, &price))
}

const PLAIN: RouteCostModel = RouteCostModel::GraphWeight;

#[test]
fn a_route_is_planned() {
    let i = line();
    let r = plan_route(&i, 1, 3, false, &plus, &price);
    assert!(r.search.found);
    assert_eq!(float(r.search.distance), 8.0);
    assert!(r.failure.is_none());
    let plan = r.plan.unwrap();
    assert_eq!(float(plan.total_cost), 8.0);
    assert_eq!(plan.traversed_node_ids, vec![1, 2, 3]);
    assert_eq!(plan.traversed_edge_ids, vec![11, 12]);
    assert_eq!(plan.steps.len(), 3);
    assert_eq!(plan.steps[0].incoming_edge_id, None);
    assert_eq!(plan.steps[2].incoming_edge_id, Some(12));
    assert_eq!(float(plan.steps[2].step_cost), 4.0);
    assert_eq!(float(plan.steps[2].cumulative_cost), 8.0);
    assert_eq!(validate_route_plan_shape(&plan).unwrap(), 2);
}

#[test]
fn edges_are_taken_either_way() {
    let i = line();
    let r = plan_route(&i, 3, 1, false, &plus, &price);
    assert_eq!(r.plan.unwrap().traversed_node_ids, vec![3, 2, 1]);
}

#[test]
fn a_node_is_where_it_is() {
    let i = line();
    let r = plan_route(&i, 2, 2, true, &plus, &price);
    assert!(r.search.found);
    assert_eq!(float(r.search.distance), 0.0);
    let plan = r.plan.unwrap();
    assert_eq!(plan.traversed_node_ids, vec![2]);
    assert_eq!(plan.traversed_edge_ids.len(), 0);
    assert_eq!(float(plan.total_cost), 0.0);
}

#[test]
fn the_shortest_way_is_found() {
    let i = detour(&[]);
    let s = shortest_path_search(&i, 1, 3, &plus, &price);
    assert!(s.found);
    assert_eq!(float(s.distance), 3.0);
    assert_eq!(extract_traversed_node_ids(&s, 1, 3).unwrap(), vec![1, 3]);
    assert_eq!(extract_traversed_edge_ids(&i, &s, 1, 3).unwrap(), vec![13]);
    assert_eq!(extract_traversed_zone_ids(&i, &s, 1, 3).unwrap(), vec![101]);
}

#[test]
fn a_blocked_zone_is_avoided() {
    let i = detour(&[("traffic.blocked", "true")]);
    assert_eq!(float(shortest_path_search(&i, 1, 3, &plus, &price).distance), 3.0);
    let s = shortest_path_search_with_blocking(&i, 1, 3, &plus, &price);
    assert_eq!(float(s.distance), 4.0);
    assert!(is_edge_hard_blocked(&i, 13));
    assert!(!is_edge_hard_blocked(&i, 12));
    assert!(is_edge_hard_blocked(&i, 99));
    assert_eq!(blocked_zones_for_edge(&i, 13), vec![101]);
    let plan = plan_route(&i, 1, 3, false, &plus, &price).plan.unwrap();
    assert_eq!(plan.traversed_edge_ids, vec![11, 12]);
    assert!(plan.traversed_edge_ids.iter().all(|e| !is_edge_hard_blocked(&i, *e)));
}

#[test]
fn a_block_without_a_way_around_is_diagnosed() {
    let i = index(
        zone(100, &[], vec![zone(101, &[("traffic.blocked", "true")], vec![])]),
        vec![node(1, &[]), node(2, &[])],
        vec![edge(11, (0, 1), 1.0, &[101])],
    );
    let r = plan_route(&i, 1, 2, false, &plus, &price);
    assert!(r.plan.is_none());
    let f = r.failure.unwrap();
    assert_eq!(f.kind, RouteFailureKind::PolicyBlocked);
    assert_eq!(f.blocked_edge_ids, vec![11]);
    assert_eq!(f.blocked_zone_ids, vec![101]);
    assert_eq!(f.reachable_node_ids, vec![1]);
    assert_eq!(
        f.message,
        "route is blocked by traffic policy (1 blocked edge(s), 1 blocked zone(s))"
    );
    assert_eq!(
        f.diagnostics,
        vec![
            "blocked or restricted resources must be claimed; slowdown only increases cost"
                .to_string()
        ]
    );
}

#[test]
fn what_else_lay_on_the_way_is_told() {
    let slow = zone(
        102,
        &[("traffic.speed_limit", "0.5"), ("traffic.access_group", "forklifts")],
        vec![],
    );
    let i = index(
        zone(100, &[], vec![zone(101, &[("traffic.blocked", "true")], vec![]), slow]),
        vec![node(1, &[]), node(2, &[]), node(3, &[])],
        vec![edge(11, (0, 1), 1.0, &[101]), edge(12, (0, 2), 1.0, &[102])],
    );
    let f = diagnose_route_failure(&i, 1, 2, &plus, &price);
    assert_eq!(f.kind, RouteFailureKind::PolicyBlocked);
    assert_eq!(f.reachable_node_ids.len(), 2);
    assert_eq!(
        f.diagnostics,
        vec![
            "restricted resources were present on reachable alternatives but require claims"
                .to_string(),
            "slowdown policies affect costs but do not hard-block planning".to_string(),
            "blocked or restricted resources must be claimed; slowdown only increases cost"
                .to_string(),
        ]
    );
}

#[test]
fn a_slow_zone_costs_more_but_stays_open() {
    let i = detour(&[("traffic.policy", "slow"), ("traffic.speed_limit", "0.5")]);
    let fast = plan_route(&i, 1, 3, false, &plus, &price).plan.unwrap();
    assert_eq!(fast.traversed_edge_ids, vec![13]);
    assert_eq!(float(fast.total_cost), 3.0);
    let r = plan_route(&i, 1, 3, true, &plus, &price);
    let careful = r.plan.unwrap();
    assert_eq!(careful.total_cost, r.search.distance);
    assert_eq!(careful.traversed_edge_ids, vec![11, 12]);
    // One for the slow zone and one divided by the speed limit.
    assert_eq!(penalty(&i, 13), 3.0);
    assert_eq!(penalty(&i, 11), 0.0);
    assert_eq!(penalty(&i, 99), f64::INFINITY);
}

#[test]
fn penalties_add_up() {
    let mut ws = Workspace {
        root: zone(
            100,
            &[],
            vec![zone(
                101,
                &[
                    ("traffic.claim_required", "true"),
                    ("traffic.priority", "4"),
                    ("traffic.waiting_allowed", "false"),
                    ("traffic.policy", "corridor"),
                ],
                vec![],
            )],
        ),
        nodes: vec![node(1, &[]), node(2, &[])],
        edges: vec![edge(11, (0, 1), 1.0, &[101])],
        coord_mode: CoordMode::Global,
        datum: None,
    };
    ws.edges[0].properties = props(&[
        ("traffic.cost_bias", "2.5"),
        ("traffic.speed_limit", "2"),
        ("traffic.priority", "5"),
        ("traffic.capacity", "4"),
        ("traffic.lane_type", "Corridor"),
        ("traffic.passing_allowed", "false"),
        ("traffic.clearance_width", "8"),
        ("traffic.clearance_height", "-1"),
    ]);
    let i = WorkspaceIndex::from_workspace(ws);
    // bias, speed, capacity, lane, passing, width; then the zone.
    let edge_part = 2.5 + 0.5 + 0.25 + 0.75 + 0.5 + 0.125;
    let zone_part = 100.0 + 6.0 * 0.05 + 1.5 + 0.75;
    let priority = match list_penalty(&i, 11, &plus) {
        Penalty::Sum(terms) => terms
            .iter()
            .filter(|t| matches!(t, PenaltyTerm::PriorityGap(_, 10)))
            .map(|t| float(price(*t)))
            .sum::<f64>(),
        Penalty::Infinite => f64::INFINITY,
    };
    assert!(priority >= 0.5 - 1e-9);
    assert!((penalty(&i, 11) - (edge_part + zone_part + priority)).abs() < 1e-9);
}

#[test]
fn a_locked_direction_is_kept() {
    let mut e = edge(11, (0, 1), 1.0, &[]);
    e.properties =
        props(&[("traffic.preferred_direction", " Forward "), ("traffic.reversible", "false")]);
    assert!(allows_traversal_from_node(&e, true));
    assert!(!allows_traversal_from_node(&e, false));
    let i = index(zone(100, &[], vec![]), vec![node(1, &[]), node(2, &[])], vec![e]);
    assert!(plan_route(&i, 1, 2, false, &plus, &price).plan.is_some());
    let f = plan_route(&i, 2, 1, false, &plus, &price).failure.unwrap();
    assert_eq!(f.kind, RouteFailureKind::Unreachable);
    assert_eq!(f.directionally_blocked_edge_ids, vec![11]);
    assert_eq!(
        f.message,
        "goal is unreachable from start after reaching 1 node(s) with 1 direction-locked edge(s)"
    );
    assert_eq!(
        f.diagnostics[0],
        "reachable frontier is constrained by direction-locked edges"
    );
}

#[test]
fn directions_are_read() {
    let with = |d: &str, r: &str| {
        let mut e = edge(11, (0, 1), 1.0, &[]);
        e.properties = props(&[("traffic.preferred_direction", d), ("traffic.reversible", r)]);
        (allows_traversal_from_node(&e, true), allows_traversal_from_node(&e, false))
    };
    assert_eq!(with("forward", "true"), (true, true));
    assert_eq!(with("source_to_target", "no"), (true, false));
    assert_eq!(with("reverse", "no"), (false, true));
    assert_eq!(with("target_to_source", "yes"), (true, true));
    assert_eq!(with("bidirectional", "no"), (true, true));
    assert_eq!(with("eastbound", "no"), (true, true));
}

#[test]
fn missing_ends_are_diagnosed() {
    let i = line();
    let f = plan_route(&i, 99, 3, false, &plus, &price).failure.unwrap();
    assert_eq!(f.kind, RouteFailureKind::MissingStartNode);
    assert_eq!(f.message, "start node is not present in workspace graph");
    let f = plan_route(&i, 1, 99, false, &plus, &price).failure.unwrap();
    assert_eq!(f.kind, RouteFailureKind::MissingGoalNode);
    assert_eq!(f.message, "goal node is not present in workspace graph");
    assert_eq!(
        f.diagnostics,
        vec!["planner cannot finish without a valid goal node".to_string()]
    );
}

#[test]
fn an_island_is_unreachable() {
    let i = index(
        zone(100, &[], vec![]),
        vec![node(1, &[]), node(2, &[]), node(3, &[])],
        vec![edge(11, (0, 1), 1.0, &[])],
    );
    let f = plan_route(&i, 1, 3, true, &plus, &price).failure.unwrap();
    assert_eq!(f.kind, RouteFailureKind::Unreachable);
    assert_eq!(f.message, "goal is unreachable from start after reaching 2 node(s)");
    assert_eq!(
        f.diagnostics,
        vec![
            "no blocked edge was found; the graph is disconnected or lacks a legal path"
                .to_string(),
            "unreachable means no legal path exists even without applying hard traffic blocking"
                .to_string(),
        ]
    );
}

#[test]
fn plans_are_built_from_nodes() {
    let i = detour(&[]);
    let plan = build_route_plan(&i, 1, 3, &vec![1, 2, 3], PLAIN, &plus, &price).unwrap();
    assert_eq!(float(plan.total_cost), 4.0);
    assert_eq!(plan.traversed_node_zone_ids, vec![vec![], vec![], vec![101]]);
    assert_eq!(plan.traversed_edge_zone_ids, vec![Vec::<u128>::new(), vec![]]);
    assert_eq!(plan.traversed_zone_ids, vec![101]);
    let text = |r: Result<RoutePlan, Error>| match r {
        Err(e) => e.to_text(),
        Ok(_) => String::new(),
    };
    assert_eq!(
        text(build_route_plan(&i, 1, 3, &vec![2, 3], PLAIN, &plus, &price)),
        "invalid argument: route node sequence does not begin at the requested start node"
    );
    assert_eq!(
        text(build_route_plan(&i, 1, 3, &vec![1, 2], PLAIN, &plus, &price)),
        "invalid argument: route node sequence does not end at the requested goal node"
    );
    assert_eq!(
        text(build_route_plan(&i, 1, 9, &vec![1, 9], PLAIN, &plus, &price)),
        "not found: route references adjacent nodes without a graph edge"
    );
    let empty = build_route_plan(&i, 1, 3, &vec![], PLAIN, &plus, &price).unwrap();
    assert_eq!(empty.traversed_node_ids.len(), 0);
    assert_eq!(float(empty.total_cost), 0.0);
}

#[test]
fn costs_add_up_along_a_route() {
    let i = detour(&[]);
    assert_eq!(float(accumulate_route_cost(&i, &vec![1, 2, 3], PLAIN, &plus, &price).unwrap()), 4.0);
    assert_eq!(float(accumulate_route_cost(&i, &vec![1], PLAIN, &plus, &price).unwrap()), 0.0);
    assert!(matches!(
        accumulate_route_cost(&i, &vec![1, 9], PLAIN, &plus, &price),
        Err(Error::NotFound(_))
    ));
}

#[test]
fn steps_are_put_together_again() {
    let i = detour(&[]);
    let s = shortest_path_search_with_penalties(&i, 2, 3, &plus, &price);
    let steps = reconstruct_route_steps(&i, &s, 2, 3, PLAIN, &plus, &price).unwrap();
    assert_eq!(steps.len(), 2);
    assert_eq!(steps[1].node_id, 3);
    assert_eq!(steps[1].incoming_edge_id, Some(12));
    let plan = build_route_plan_from_search(&i, &s, 2, 3, PLAIN, &plus, &price).unwrap();
    assert_eq!(plan.steps, steps);
    // Nothing found, nothing to put together.
    let blank = RouteSearchState::default();
    assert_eq!(reconstruct_route_steps(&i, &blank, 2, 3, PLAIN, &plus, &price).unwrap().len(), 0);
    assert_eq!(extract_traversed_node_ids(&blank, 2, 3).unwrap(), Vec::<u128>::new());
}

#[test]
fn a_broken_chain_is_an_error() {
    let i = line();
    let found = |predecessors: &[(u128, u128)]| RouteSearchState {
        found: true,
        distance: num(1.0),
        distances: HashMap::new(),
        predecessors: predecessors.iter().copied().collect(),
        reached: vec![],
    };
    let text = |r: Result<Vec<u128>, Error>| match r {
        Err(e) => e.to_text(),
        Ok(_) => String::new(),
    };
    assert_eq!(
        text(extract_traversed_node_ids(&found(&[]), 1, 3)),
        "not found: route reconstruction could not recover a predecessor chain"
    );
    // A chain that runs in a circle leads nowhere either.
    assert!(extract_traversed_node_ids(&found(&[(3, 2), (2, 3)]), 1, 3).is_err());
    // One over nodes that no edge joins.
    let jump = found(&[(3, 1)]);
    assert_eq!(extract_traversed_node_ids(&jump, 1, 3).unwrap(), vec![1, 3]);
    assert_eq!(
        text(extract_traversed_edge_ids(&i, &jump, 1, 3)),
        "not found: route references adjacent nodes without a graph edge"
    );
    let steps = reconstruct_route_steps(&i, &jump, 1, 3, PLAIN, &plus, &price);
    assert!(matches!(steps, Err(Error::NotFound(_))));
}

fn sound_plan() -> RoutePlan {
    let i = line();
    let r = plan_route(&i, 1, 3, false, &plus, &price);
    r.plan.unwrap()
}

fn shape_fault(change: impl Fn(&mut RoutePlan)) -> String {
    let mut plan = sound_plan();
    change(&mut plan);
    match validate_route_plan_shape(&plan) {
        Err(Error::InvalidArgument(m)) => m,
        _ => String::new(),
    }
}

#[test]
fn the_shape_of_a_plan_is_checked() {
    assert_eq!(validate_route_plan_shape(&RoutePlan::default()).unwrap(), 0);
    assert_eq!(
        shape_fault(|p| p.traversed_node_ids.clear()),
        "route plan contains edges or steps without any traversed nodes"
    );
    assert_eq!(
        shape_fault(|p| p.start_node_id = 9),
        "route plan start node does not match the first traversed node"
    );
    assert_eq!(
        shape_fault(|p| p.goal_node_id = 9),
        "route plan goal node does not match the last traversed node"
    );
    assert_eq!(
        shape_fault(|p| p.traversed_edge_ids.push(9)),
        "route plan edge count must equal node count minus one"
    );
    assert_eq!(
        shape_fault(|p| p.steps.push(RouteStep::default())),
        "route plan step count must equal traversed node count"
    );
    assert_eq!(
        shape_fault(|p| p.traversed_node_zone_ids.push(vec![])),
        "route plan node-zone coverage must align with traversed nodes"
    );
    assert_eq!(
        shape_fault(|p| p.traversed_edge_zone_ids.push(vec![])),
        "route plan edge-zone coverage must align with traversed edges"
    );
    assert_eq!(
        shape_fault(|p| p.steps[1].node_id = 9),
        "route plan step nodes must match traversed node sequence"
    );
    assert_eq!(
        shape_fault(|p| p.steps[0].incoming_edge_id = Some(11)),
        "route plan first step cannot have an incoming edge"
    );
    assert_eq!(
        shape_fault(|p| p.steps[1].incoming_edge_id = Some(9)),
        "route plan step incoming edges must match traversed edges"
    );
    assert_eq!(
        shape_fault(|p| p.steps[1].incoming_edge_id = None),
        "route plan step incoming edges must match traversed edges"
    );
    assert_eq!(shape_fault(|p| p.steps.clear()), "");
}

#[test]
fn blocks_only_make_routes_longer() {
    for blocked in ["true", "false"] {
        let i = detour(&[("traffic.blocked", blocked)]);
        let free = shortest_path_search(&i, 1, 3, &plus, &price);
        let heeding = shortest_path_search_with_blocking(&i, 1, 3, &plus, &price);
        assert!(free.found && heeding.found);
        assert!(float(free.distance) <= float(heeding.distance));
    }
}

#[test]
fn numbers_are_ordered_and_rounded() {
    assert!(num(1.0).less(num(2.0)));
    assert!(num(-2.0).less(num(-1.0)));
    assert!(!num(0.0).less(num(-0.0)));
    assert!(num(0.0).not_above(num(-0.0)));
    assert!(!num(f64::NAN).less(num(1.0)));
    assert!(!num(1.0).not_above(num(f64::NAN)));
    assert!(num(f64::NAN).not_a_number());
    assert_eq!(float(Real::zero()), 0.0);
    assert_eq!(float(Real::one()), 1.0);
    assert_eq!(float(Real::infinity()), f64::INFINITY);
    for x in [0.0, 0.2, 1.0, 1.5, 2.0, 1e9, 4503599627370497.5, 1e30, -0.5, -3.2] {
        assert_eq!(num(x).ceil_ticks(), x.ceil() as u64, "{x}");
    }
    assert_eq!(num(f64::NAN).ceil_ticks(), 0);
    assert_eq!(num(f64::INFINITY).ceil_ticks(), u64::MAX);
}

#[test]
fn an_edge_costs_its_weight_and_its_penalty() {
    let i = detour(&[("traffic.policy", "slow"), ("traffic.speed_limit", "0.5")]);
    let cost = |m: RouteCostModel| {
        float(accumulate_route_cost(&i, &vec![1, 3], m, &plus, &price).unwrap())
    };
    assert_eq!(cost(RouteCostModel::GraphWeight), 3.0);
    assert_eq!(cost(RouteCostModel::Penalized), 3.0 + penalty(&i, 13));
    assert_eq!(cost(RouteCostModel::Penalized), 6.0);
    let r = RoutePlanningResult::default();
    assert!(!r.search.found && r.plan.is_none() && r.failure.is_none());
    assert!(!r.clone().search.found);
}

#[test]
fn a_negative_bias_costs_nothing() {
    let with = |bias: &str| {
        let mut e = edge(11, (0, 1), 1.0, &[]);
        e.properties = props(&[("traffic.cost_bias", bias)]);
        let i = index(zone(100, &[], vec![]), vec![node(1, &[]), node(2, &[])], vec![e]);
        penalty(&i, 11)
    };
    assert_eq!(with("0.5"), 0.5);
    assert_eq!(with("-0.5"), 0.0);
    assert_eq!(with("nan"), 0.0);
    assert_eq!(with("none"), 0.0);
}
