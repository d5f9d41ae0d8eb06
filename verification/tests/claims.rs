use std::sync::Arc;
use syncbot::claim::conflicts::{claim_windows_overlap, lease_as_request_view, lease_window};
use syncbot::number::{Number, Real};
use syncbot::properties::{Properties, Property};
use syncbot::workspace::{CoordMode, Edge, Geo, Node, Workspace, Zone};
use syncbot::{
    ClaimAccessMode, ClaimDecision, ClaimId, ClaimManager, ClaimRequest, ClaimTarget,
    ClaimTargetKind, ClaimWindow, Lease, LeaseDisposition, LeaseId, RobotId,
    WorkspaceIndex,
};

fn num(x: f64) -> Real {
    Real::from_bits(x.to_bits())
}

fn props(pairs: &[(&str, &str)]) -> Properties {
    let mut m = Properties::new();
    for (k, v) in pairs {
        m.insert(Property {
            key: (*k).to_string(),
            value: (*v).to_string(),
            number: v.trim().parse::<f64>().ok().map(|x| Number::new(num(x), format!("{x}"))),
        });
    }
    m
}

fn zone(id: u128, pairs: &[(&str, &str)], node_ids: &[u128], children: Vec<Zone>) -> Zone {
    Zone {
        id,
        name: format!("zone {id}"),
        properties: props(pairs),
        node_ids: node_ids.to_vec(),
        children,
    }
}

fn node(id: u128, zone_ids: &[u128]) -> Node {
    Node {
        id,
        position: "0,0".to_string(),
        zone_ids: zone_ids.to_vec(),
        properties: props(&[]),
    }
}

fn edge(id: u128, source: usize, target: usize, zone_ids: &[u128], pairs: &[(&str, &str)]) -> Edge {
    Edge {
        id,
        source,
        target,
        weight: num(1.0),
        zone_ids: zone_ids.to_vec(),
        properties: props(pairs),
    }
}

/// Zone 1 holds 2 (two may share it), 3 (exclusive, with 4 inside) and 5 (plain).
fn index() -> Arc<WorkspaceIndex> {
    let parking =
        zone(2, &[("traffic.policy", "shared"), ("traffic.capacity", "2")], &[21, 22, 23], vec![]);
    let dock = zone(
        3,
        &[("traffic.policy", "exclusive"), ("traffic.waiting_allowed", "false")],
        &[31, 32],
        vec![zone(4, &[], &[41], vec![])],
    );
    let aisle = zone(5, &[], &[51, 52], vec![]);
    Arc::new(WorkspaceIndex::from_workspace(Workspace {
        root: zone(1, &[], &[], vec![parking, dock, aisle]),
        nodes: vec![
            node(21, &[2]),
            node(22, &[2]),
            node(23, &[2]),
            node(31, &[3]),
            node(32, &[3]),
            node(41, &[4]),
            node(51, &[5]),
            node(52, &[5]),
        ],
        edges: vec![
            edge(61, 0, 1, &[2], &[]),
            edge(62, 1, 2, &[2], &[]),
            edge(63, 0, 2, &[2], &[]),
            edge(64, 6, 7, &[5], &[("traffic.capacity", "2"), ("traffic.lane_type", "corridor")]),
            edge(65, 5, 6, &[4], &[]),
        ],
        coord_mode: CoordMode::Local,
        datum: Some(Geo { latitude: num(52.0), longitude: num(5.0), altitude: num(0.0) }),
    }))
}

fn target(kind: ClaimTargetKind, resource_id: u128) -> ClaimTarget {
    ClaimTarget { kind, resource_id }
}

fn ask(id: u64, access_mode: ClaimAccessMode, targets: &[(ClaimTargetKind, u128)]) -> ClaimRequest {
    ClaimRequest {
        id: ClaimId::new(id),
        robot_id: RobotId::new(id),
        access_mode,
        targets: targets.iter().map(|t| target(t.0, t.1)).collect(),
        ..ClaimRequest::default()
    }
}

fn grant(id: u64, access_mode: ClaimAccessMode, targets: &[(ClaimTargetKind, u128)]) -> Lease {
    Lease {
        id: LeaseId::new(id),
        claim_id: ClaimId::new(id),
        robot_id: RobotId::new(id),
        access_mode,
        targets: targets.iter().map(|t| target(t.0, t.1)).collect(),
        granted_at_tick: Some(0),
        ..Lease::default()
    }
}

const SHARED: ClaimAccessMode = ClaimAccessMode::Shared;
const EXCLUSIVE: ClaimAccessMode = ClaimAccessMode::Exclusive;
const ZONE: ClaimTargetKind = ClaimTargetKind::Zone;
const NODE: ClaimTargetKind = ClaimTargetKind::Node;
const EDGE: ClaimTargetKind = ClaimTargetKind::Edge;

#[test]
fn claim_manager_handle_lifecycle() {
    let mut mgr = ClaimManager::new();
    assert_eq!(mgr.request_count(), 0);
    // No targets: they are looked at only when the request is evaluated.
    mgr.add_request(ClaimRequest::default());
    assert_eq!(mgr.request_count(), 1);
    let evaluation = mgr.evaluate_request(&ClaimRequest::default());
    assert_eq!(evaluation.decision, ClaimDecision::Deny);
    mgr.clear();
    assert_eq!(mgr.request_count(), 0);
}

#[test]
fn defaults_are_blank() {
    let r = ClaimRequest::default();
    assert_eq!(r.id, ClaimId::new(0));
    assert_eq!(r.window, ClaimWindow::default());
    assert_eq!(ClaimWindow::default().start_tick, None);
    let l = Lease::default();
    assert!(l.active);
    assert_eq!(l.disposition, LeaseDisposition::Active);
    assert!(ClaimManager::default().empty());
    assert!(!ClaimManager::new().has_index());
}

#[test]
fn an_exclusive_claim_excludes_another_one() {
    let mut m = ClaimManager::with_index(index());
    assert!(m.has_index());
    let first = ask(1, EXCLUSIVE, &[(ZONE, 3)]);
    let e = m.evaluate_request(&first);
    assert_eq!(e.decision, ClaimDecision::Grant);
    assert_eq!(e.reason, "claim is compatible with current state");
    assert_eq!(e.diagnostics, vec!["request passed conflict and capacity checks".to_string()]);
    m.add_request(first);

    let e = m.evaluate_request(&ask(2, EXCLUSIVE, &[(ZONE, 3)]));
    assert_eq!(e.decision, ClaimDecision::Deny);
    assert_eq!(e.reason, "conflicts with active request on zone target");
    assert_eq!(e.conflicting_claim_id, Some(ClaimId::new(1)));
    assert_eq!(e.conflicting_lease_id, None);
    assert_eq!(e.blocking_target, Some(target(ZONE, 3)));
    assert_eq!(e.conflicting_targets, vec![target(ZONE, 3)]);
    assert!(!e.denied_by_capacity);
    assert_eq!(
        e.diagnostics,
        vec![
            "collision detected with active request".to_string(),
            "blocking zone id=00000000-0000-0000-0000-000000000003".to_string(),
            "zone does not allow waiting".to_string(),
        ]
    );
    // Its own request does not stand in its way.
    assert_eq!(
        m.evaluate_request(&ask(1, EXCLUSIVE, &[(ZONE, 3)])).decision,
        ClaimDecision::Grant
    );
}

#[test]
fn a_third_robot_does_not_fit_a_zone_for_two() {
    let mut m = ClaimManager::with_index(index());
    for id in 1..=2 {
        let r = ask(id, SHARED, &[(ZONE, 2)]);
        assert_eq!(m.evaluate_request(&r).decision, ClaimDecision::Grant);
        m.add_request(r);
    }
    let e = m.evaluate_request(&ask(3, SHARED, &[(ZONE, 2)]));
    assert_eq!(e.decision, ClaimDecision::Deny);
    assert_eq!(e.reason, "shared zone capacity exceeded");
    assert_eq!(e.blocking_target, Some(target(ZONE, 2)));
    assert_eq!(e.conflicting_claim_id, Some(ClaimId::new(1)));
    assert!(e.denied_by_capacity);
    assert_eq!(
        e.diagnostics,
        vec![
            "zone capacity limit reached".to_string(),
            "configured capacity=2".to_string(),
            "observed occupancy=3".to_string(),
        ]
    );
}

#[test]
fn leases_take_up_capacity_too() {
    let mut m = ClaimManager::with_index(index());
    m.add_lease(grant(7, SHARED, &[(ZONE, 2)]));
    m.add_request(ask(1, SHARED, &[(ZONE, 2)]));
    let e = m.evaluate_request(&ask(3, SHARED, &[(ZONE, 2)]));
    assert_eq!(e.reason, "shared zone capacity exceeded");
    assert_eq!(e.conflicting_claim_id, Some(ClaimId::new(1)));
    assert_eq!(e.conflicting_lease_id, Some(LeaseId::new(7)));
    assert!(m.release_lease(LeaseId::new(7), Some(3)));
    assert_eq!(
        m.evaluate_request(&ask(3, SHARED, &[(ZONE, 2)])).decision,
        ClaimDecision::Grant
    );
}

#[test]
fn nodes_and_edges_take_up_the_capacity_of_their_zone() {
    let mut m = ClaimManager::with_index(index());
    m.add_request(ask(1, SHARED, &[(NODE, 21)]));
    m.add_request(ask(2, SHARED, &[(NODE, 22)]));
    let e = m.evaluate_request(&ask(3, SHARED, &[(NODE, 23)]));
    assert_eq!(e.reason, "shared node-zone capacity exceeded");
    assert_eq!(e.blocking_target, Some(target(ZONE, 2)));
    assert_eq!(e.diagnostics[0], "node claims exceed containing zone capacity");

    let mut m = ClaimManager::with_index(index());
    m.add_request(ask(1, SHARED, &[(EDGE, 61)]));
    m.add_request(ask(2, SHARED, &[(EDGE, 62)]));
    let e = m.evaluate_request(&ask(3, SHARED, &[(EDGE, 63)]));
    assert_eq!(e.reason, "shared edge-zone capacity exceeded");
    assert_eq!(e.diagnostics[0], "edge claims exceed containing zone capacity");
    assert!(e.denied_by_capacity);
}

#[test]
fn an_edge_has_a_capacity_of_its_own() {
    let mut m = ClaimManager::with_index(index());
    m.add_request(ask(1, SHARED, &[(EDGE, 64)]));
    m.add_request(ask(2, SHARED, &[(EDGE, 64)]));
    let e = m.evaluate_request(&ask(3, SHARED, &[(EDGE, 64)]));
    assert_eq!(e.reason, "shared edge capacity exceeded");
    assert_eq!(e.blocking_target, Some(target(EDGE, 64)));
    assert_eq!(
        e.diagnostics,
        vec![
            "edge capacity limit reached".to_string(),
            "edge is treated as a corridor".to_string(),
            "configured capacity=2".to_string(),
            "observed occupancy=3".to_string(),
        ]
    );
}

#[test]
fn a_request_without_targets_is_denied() {
    let m = ClaimManager::with_index(index());
    let e = m.evaluate_request(&ask(1, SHARED, &[]));
    assert_eq!(e.decision, ClaimDecision::Deny);
    assert_eq!(e.reason, "claim request does not contain any targets");
    assert_eq!(e.diagnostics, vec!["request has no claim targets".to_string()]);
}

#[test]
fn a_request_for_something_missing_is_denied() {
    let m = ClaimManager::with_index(index());
    for kind in [ZONE, NODE, EDGE] {
        let e = m.evaluate_request(&ask(1, SHARED, &[(ZONE, 5), (kind, 99)]));
        assert_eq!(e.decision, ClaimDecision::Deny);
        assert_eq!(e.reason, "claim request references a missing workspace resource");
        assert_eq!(e.blocking_target, Some(target(kind, 99)));
    }
    // Without a workspace nothing is known to be missing.
    let e = ClaimManager::new().evaluate_request(&ask(1, SHARED, &[(ZONE, 99)]));
    assert_eq!(e.decision, ClaimDecision::Grant);
}

#[test]
fn a_zone_reserves_what_lies_inside_it() {
    let mut m = ClaimManager::with_index(index());
    m.add_request(ask(1, EXCLUSIVE, &[(ZONE, 3)]));
    // The node lies in a zone inside the claimed one.
    let e = m.evaluate_request(&ask(2, EXCLUSIVE, &[(NODE, 51), (NODE, 41)]));
    assert_eq!(e.decision, ClaimDecision::Deny);
    assert_eq!(e.reason, "conflicts with active request on node target");
    assert_eq!(e.blocking_target, Some(target(NODE, 41)));
    let e = m.evaluate_request(&ask(2, EXCLUSIVE, &[(EDGE, 65)]));
    assert_eq!(e.blocking_target, Some(target(EDGE, 65)));
    let e = m.evaluate_request(&ask(2, EXCLUSIVE, &[(ZONE, 4)]));
    assert_eq!(e.decision, ClaimDecision::Deny);
    assert_eq!(e.reason, "conflicts with active request");
    assert_eq!(e.blocking_target, None);

    // And the other way round.
    let mut m = ClaimManager::with_index(index());
    m.add_request(ask(1, EXCLUSIVE, &[(NODE, 41)]));
    let e = m.evaluate_request(&ask(2, EXCLUSIVE, &[(ZONE, 1)]));
    assert_eq!(e.decision, ClaimDecision::Deny);
    assert_eq!(e.blocking_target, Some(target(ZONE, 1)));
    assert_eq!(
        m.evaluate_request(&ask(2, EXCLUSIVE, &[(ZONE, 5)])).decision,
        ClaimDecision::Grant
    );
}

#[test]
fn an_exclusive_zone_takes_one_at_a_time() {
    let mut m = ClaimManager::with_index(index());
    m.add_request(ask(1, SHARED, &[(NODE, 31)]));
    let e = m.evaluate_request(&ask(2, SHARED, &[(NODE, 32)]));
    assert_eq!(e.decision, ClaimDecision::Deny);
    assert_eq!(e.reason, "conflicts with active request");
    let mut m = ClaimManager::with_index(index());
    m.add_request(ask(1, SHARED, &[(NODE, 51)]));
    assert_eq!(
        m.evaluate_request(&ask(2, SHARED, &[(NODE, 52)])).decision,
        ClaimDecision::Grant
    );
}

#[test]
fn claims_at_different_times_do_not_meet() {
    let mut m = ClaimManager::with_index(index());
    let mut early = ask(1, EXCLUSIVE, &[(ZONE, 3)]);
    early.window = ClaimWindow { start_tick: Some(0), end_tick: Some(10) };
    m.add_request(early);
    let mut late = ask(2, EXCLUSIVE, &[(ZONE, 3)]);
    late.window = ClaimWindow { start_tick: Some(11), end_tick: None };
    assert_eq!(m.evaluate_request(&late).decision, ClaimDecision::Grant);
    late.window.start_tick = Some(10);
    assert_eq!(m.evaluate_request(&late).decision, ClaimDecision::Deny);
}

#[test]
fn windows_overlap_where_they_touch() {
    let w = |a: Option<u64>, b: Option<u64>| ClaimWindow { start_tick: a, end_tick: b };
    assert!(claim_windows_overlap(w(None, None), w(None, None)));
    assert!(claim_windows_overlap(w(Some(0), Some(5)), w(Some(5), Some(9))));
    assert!(!claim_windows_overlap(w(Some(0), Some(5)), w(Some(6), Some(9))));
    assert!(!claim_windows_overlap(w(Some(6), None), w(None, Some(5))));
    let mut l = grant(1, SHARED, &[(ZONE, 2)]);
    l.expires_at_tick = Some(9);
    assert_eq!(lease_window(&l), w(Some(0), Some(9)));
    let r = lease_as_request_view(&l);
    assert_eq!(r.window, w(None, Some(9)));
    assert_eq!(r.access_mode, SHARED);
    assert_eq!(r.targets, vec![target(ZONE, 2)]);
}

#[test]
fn a_lease_denies_a_request() {
    let mut m = ClaimManager::with_index(index());
    m.add_lease(grant(9, EXCLUSIVE, &[(EDGE, 61)]));
    let e = m.evaluate_request(&ask(1, SHARED, &[(EDGE, 61)]));
    assert_eq!(e.decision, ClaimDecision::Deny);
    assert_eq!(e.reason, "conflicts with granted lease on edge target");
    assert_eq!(e.conflicting_lease_id, Some(LeaseId::new(9)));
    assert_eq!(e.conflicting_claim_id, None);
    assert_eq!(e.diagnostics[0], "collision detected with granted lease");
    // An inactive one does not count.
    let mut idle = grant(9, EXCLUSIVE, &[(EDGE, 61)]);
    idle.active = false;
    m.upsert_lease(idle);
    assert_eq!(
        m.evaluate_request(&ask(1, SHARED, &[(EDGE, 61)])).decision,
        ClaimDecision::Grant
    );
}

#[test]
fn claims_are_compared_without_a_workspace() {
    let a = ask(1, EXCLUSIVE, &[(ZONE, 1), (NODE, 2), (EDGE, 3)]);
    let b = ask(2, SHARED, &[(ZONE, 4), (NODE, 5), (EDGE, 3)]);
    assert!(ClaimManager::zone_claims_compatible(&a, &b));
    assert!(ClaimManager::node_claims_compatible(&a, &b));
    assert!(!ClaimManager::edge_claims_compatible(&a, &b));
    assert!(!ClaimManager::claims_compatible(&a, &b));
    assert_eq!(ClaimManager::claims_compatible(&b, &a), ClaimManager::claims_compatible(&a, &b));
    assert!(ClaimManager::claims_compatible(&b, &b));
    let l = grant(1, EXCLUSIVE, &[(NODE, 5)]);
    assert!(!ClaimManager::claims_compatible_with_lease(&b, &l));
    assert!(ClaimManager::claims_compatible_with_lease(&a, &l));
}

#[test]
fn a_lease_is_refreshed_and_expires() {
    let mut m = ClaimManager::new();
    let mut l = grant(11, EXCLUSIVE, &[(ZONE, 3)]);
    l.expires_at_tick = Some(100);
    m.add_lease(l);
    assert!(m.refresh_lease(LeaseId::new(11), 80, Some(200)));
    assert_eq!(m.expire_leases(150), 0);
    assert_eq!(m.find_lease(LeaseId::new(11)).unwrap().refreshed_at_tick, Some(80));
    assert_eq!(m.expire_leases(250), 1);
    assert!(!m.has_lease(LeaseId::new(11)));
    let gone = m.find_released_lease(LeaseId::new(11)).unwrap();
    assert_eq!(gone.disposition, LeaseDisposition::Expired);
    assert_eq!(gone.released_at_tick, Some(250));
    assert!(!gone.active);
    assert_eq!(m.expire_leases(250), 0);
    assert_eq!(m.lease_count() + m.released_leases().len(), 1);
    assert!(!m.refresh_lease(LeaseId::new(11), 80, Some(200)));
}

#[test]
fn a_refresh_keeps_the_end_unless_told() {
    let mut m = ClaimManager::new();
    let mut l = grant(11, EXCLUSIVE, &[(ZONE, 3)]);
    l.expires_at_tick = Some(100);
    m.add_lease(l);
    assert!(m.refresh_lease(LeaseId::new(11), 80, None));
    assert_eq!(m.find_lease(LeaseId::new(11)).unwrap().expires_at_tick, Some(100));
    assert_eq!(m.expire_leases(99), 0);
    assert_eq!(m.expire_leases(100), 1);
}

#[test]
fn leases_are_released_and_revoked() {
    let mut m = ClaimManager::new();
    m.add_lease(grant(1, EXCLUSIVE, &[(ZONE, 3)]));
    m.add_lease(grant(2, EXCLUSIVE, &[(ZONE, 4)]));
    let mut again = grant(3, EXCLUSIVE, &[(ZONE, 5)]);
    again.robot_id = RobotId::new(2);
    m.add_lease(again);
    assert!(m.revoke_lease(LeaseId::new(1), "fault".to_string(), 7));
    let gone = m.find_released_lease(LeaseId::new(1)).unwrap();
    assert_eq!(gone.disposition, LeaseDisposition::Revoked);
    assert_eq!(gone.revoke_reason, Some("fault".to_string()));
    assert_eq!(gone.revoked_at_tick, Some(7));
    assert_eq!(gone.released_at_tick, Some(7));
    assert!(!m.revoke_lease(LeaseId::new(1), "fault".to_string(), 7));
    assert_eq!(m.leases_for_robot(RobotId::new(2)).len(), 2);
    assert_eq!(m.lease_for_claim(ClaimId::new(3)).map(|l| l.id), Some(LeaseId::new(3)));
    assert_eq!(m.release_leases_for_robot(RobotId::new(2), Some(9)), 2);
    assert_eq!(m.release_leases_for_robot(RobotId::new(2), Some(9)), 0);
    assert_eq!(m.released_leases().len(), 3);
    assert_eq!(m.released_leases()[2].disposition, LeaseDisposition::Released);
    assert!(!m.release_lease(LeaseId::new(2), None));
    m.add_lease(grant(4, SHARED, &[]));
    assert!(m.remove_lease(LeaseId::new(4)));
    assert!(!m.remove_lease(LeaseId::new(4)));
    assert_eq!(m.released_leases().len(), 3);
    m.clear();
    assert!(m.empty());
}

#[test]
fn requests_are_kept_by_their_identifier() {
    let mut m = ClaimManager::new();
    m.add_request(ask(1, SHARED, &[(ZONE, 3)]));
    m.upsert_request(ask(1, EXCLUSIVE, &[(ZONE, 4)]));
    assert_eq!(m.request_count(), 1);
    assert_eq!(m.find_request(ClaimId::new(1)).unwrap().access_mode, EXCLUSIVE);
    assert!(m.has_request(ClaimId::new(1)));
    assert!(!m.has_request(ClaimId::new(2)));
    let mut other = ask(2, SHARED, &[(NODE, 8)]);
    other.robot_id = RobotId::new(1);
    m.add_request(other);
    m.add_request(ask(3, SHARED, &[(NODE, 8)]));
    assert!(!m.release_request_for_robot_target(RobotId::new(1), 9));
    assert!(m.release_request_for_robot_target(RobotId::new(1), 8));
    assert!(!m.has_request(ClaimId::new(2)));
    assert_eq!(m.remove_requests_for_robot(RobotId::new(3)), 1);
    assert_eq!(m.remove_requests_for_robot(RobotId::new(3)), 0);
    assert_eq!(m.requests().len(), 1);
    assert!(m.remove_request(ClaimId::new(1)));
    assert!(!m.remove_request(ClaimId::new(1)));
    assert!(m.empty());
}

#[test]
fn minted_identifiers_are_new_and_ascend() {
    let mut m = ClaimManager::new();
    assert_eq!(m.next_request_id(), ClaimId::new(1));
    assert_eq!(m.next_request_id(), ClaimId::new(2));
    m.add_request(ask(40, SHARED, &[(ZONE, 3)]));
    assert_eq!(m.next_request_id(), ClaimId::new(41));
    m.add_lease(grant(50, SHARED, &[(ZONE, 3)]));
    assert_eq!(m.next_request_id(), ClaimId::new(51));
    m.remove_lease(LeaseId::new(50));
    assert_eq!(m.next_request_id(), ClaimId::new(52));
}

#[test]
fn minted_identifiers_are_free_at_the_top() {
    let mut m = ClaimManager::new();
    m.add_lease(grant(u64::MAX, SHARED, &[(ZONE, 3)]));
    assert_eq!(m.next_request_id(), ClaimId::new(u64::MAX - 1));
    m.add_request(ask(u64::MAX - 1, SHARED, &[(ZONE, 3)]));
    m.add_request(ask(u64::MAX - 3, SHARED, &[(ZONE, 3)]));
    assert_eq!(m.next_request_id(), ClaimId::new(u64::MAX - 2));
    m.add_request(ask(u64::MAX - 2, SHARED, &[(ZONE, 3)]));
    assert_eq!(m.next_request_id(), ClaimId::new(u64::MAX - 4));
    // The counter does not go back.
    m.clear();
    assert_eq!(m.next_request_id(), ClaimId::new(u64::MAX));
}

#[test]
fn a_workspace_can_be_bound_later() {
    let mut m = ClaimManager::new();
    m.add_request(ask(1, EXCLUSIVE, &[(ZONE, 3)]));
    assert_eq!(
        m.evaluate_request(&ask(2, EXCLUSIVE, &[(NODE, 31)])).decision,
        ClaimDecision::Grant
    );
    m.bind_index(index());
    assert!(m.index().is_some());
    assert!(m.index_arc().is_some());
    assert_eq!(
        m.evaluate_request(&ask(2, EXCLUSIVE, &[(NODE, 31)])).decision,
        ClaimDecision::Deny
    );
}

#[test]
fn granted_requests_stay_in_agreement() {
    let mut m = ClaimManager::with_index(index());
    let asked = [
        ask(1, SHARED, &[(ZONE, 2)]),
        ask(2, EXCLUSIVE, &[(ZONE, 3)]),
        ask(3, SHARED, &[(ZONE, 2), (NODE, 51)]),
        ask(4, SHARED, &[(NODE, 41)]),
        ask(5, SHARED, &[(EDGE, 64)]),
        ask(6, EXCLUSIVE, &[(EDGE, 64)]),
    ];
    for r in &asked {
        if m.evaluate_request(r).decision == ClaimDecision::Grant {
            m.add_request(r.clone());
        }
    }
    let held: Vec<u64> = m.requests().iter().map(|r| r.id.raw()).collect();
    assert_eq!(held, vec![1, 2, 3, 5]);
    for r in m.requests().clone().iter() {
        // Each would be granted again beside all the others.
        assert_eq!(m.evaluate_request(r).decision, ClaimDecision::Grant);
    }
    m.remove_requests_for_robot(RobotId::new(2));
    for r in m.requests().clone().iter() {
        assert_eq!(m.evaluate_request(r).decision, ClaimDecision::Grant);
    }
}

#[test]
fn which_claim_is_first_does_not_matter() {
    let pairs = [
        (ask(1, SHARED, &[(ZONE, 2)]), ask(2, SHARED, &[(NODE, 21)])),
        (ask(1, SHARED, &[(ZONE, 1)]), ask(2, SHARED, &[(ZONE, 2)])),
        (ask(1, EXCLUSIVE, &[(ZONE, 3)]), ask(2, SHARED, &[(EDGE, 65)])),
        (ask(1, SHARED, &[(NODE, 31)]), ask(2, SHARED, &[(NODE, 32)])),
        (ask(1, SHARED, &[(NODE, 51)]), ask(2, SHARED, &[(NODE, 52)])),
    ];
    for (a, b) in pairs {
        let decide = |first: &ClaimRequest, second: &ClaimRequest| {
            let mut m = ClaimManager::with_index(index());
            m.add_request(first.clone());
            m.evaluate_request(second).decision
        };
        assert_eq!(decide(&a, &b), decide(&b, &a));
    }
}
