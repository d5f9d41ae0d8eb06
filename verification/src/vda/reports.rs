//! What orders and states say, in terms of the plan, the workspace, the robot and
//! the ledger.

use super::adapter::{
    asked_reservations, known_edge, known_node, known_order_of, missing_leases, order_of, or_blank,
    plain_edge, plain_node, reported_claims, reported_leases, reported_targets, state_of,
    state_with_claims, zone_reservations,
};
use super::order::{blank_order, ResourceReservationView};
use super::state::{ConnectionState, OperatingMode, ReservationStateView};
use crate::claim::laws::{unique_leases, unique_requests};
use crate::claim::manager::{
    lease_place, lemma_lease_place, lemma_request_place, request_place, ClaimManagerView,
};
use crate::claim::reasons::kind_word;
use crate::claim::ClaimTarget;
use crate::coordinator::targets::listed;
use crate::guid::{uuid_text, Uuid};
use crate::ids::{ClaimId, LeaseId};
use crate::index::edge_policies;
use crate::index::tables::{edge_at, node_at, policy_at};
use crate::policy::merge::restricted_semantics;
use crate::robot::{RobotProgressState, RobotStateView};
use crate::route::assemble::shape_error;
use crate::route::plan::{zones_of_edge, zones_of_node};
use crate::route::RoutePlanView;
use crate::text::decimal_text;
use crate::workspace::Workspace;
use vstd::prelude::*;

verus! {

// ---------------------------------------------------------------------------
// orders
// ---------------------------------------------------------------------------

/// An order for a plan of the right shape goes to its goal, from its start, and
/// tells how many edges there are. There is no order for a plan of another shape.
pub proof fn lemma_order_names_its_ends(ws: &Workspace, plan: RoutePlanView)
    ensures
        shape_error(plan) is Some ==> order_of(plan) is Err && known_order_of(ws, plan) is Err
            && or_blank(order_of(plan)) == blank_order() && or_blank(known_order_of(ws, plan))
            == blank_order(),
        shape_error(plan) is None ==> {
            let order = or_blank(order_of(plan));
            let known = or_blank(known_order_of(ws, plan));
            &&& order.header_id == uuid_text(plan.start_node_id)
            &&& order.order_id == uuid_text(plan.goal_node_id)
            &&& plan.traversed_edge_ids.len() <= u32::MAX ==> order.order_update_id
                == plan.traversed_edge_ids.len()
            &&& known.header_id == order.header_id
            &&& known.order_id == order.order_id
            &&& known.order_update_id == order.order_update_id
        },
{
}

/// Whether there is a reservation of a zone without any demand.
pub open spec fn reserves(r: Seq<ResourceReservationView>, id: Uuid) -> bool {
    exists|k: int|
        0 <= k < r.len() && (#[trigger] r[k]).target_id == uuid_text(id) && r[k].target_kind
            == "zone"@
}

proof fn lemma_reserves(zones: Seq<Uuid>, more: Seq<ResourceReservationView>, k: int)
    requires
        0 <= k < zones.len(),
    ensures
        reserves(zone_reservations(zones) + more, zones[k]),
        reserves(zone_reservations(zones), zones[k]),
        zone_reservations(zones).len() == zones.len(),
{
    let r = zone_reservations(zones);
    assert(r[k].target_id == uuid_text(zones[k]) && r[k].target_kind == "zone"@);
    assert((r + more)[k] == r[k]);
}

/// Each node of an order has its place in the sequence and a reservation of each
/// zone that the plan lists for it. Each edge has a reservation of each zone that
/// the plan lists for that.
pub proof fn lemma_order_reserves_the_zones_of_its_plan(plan: RoutePlanView, i: int)
    ensures
        ({
            let n = plain_node(plan, i);
            &&& n.node_id == uuid_text(plan.traversed_node_ids[i])
            &&& n.sequence_id == decimal_text(i as nat)
            &&& 0 <= i < plan.traversed_node_zone_ids.len() ==> {
                &&& n.reservations.len() == plan.traversed_node_zone_ids[i].len()
                &&& forall|k: int|
                    0 <= k < plan.traversed_node_zone_ids[i].len() ==> reserves(
                        n.reservations,
                        #[trigger] plan.traversed_node_zone_ids[i][k],
                    )
            }
        }),
        ({
            let e = plain_edge(plan, i);
            &&& e.edge_id == uuid_text(plan.traversed_edge_ids[i])
            &&& e.start_node_id == uuid_text(plan.traversed_node_ids[i])
            &&& e.end_node_id == uuid_text(plan.traversed_node_ids[i + 1])
            &&& 0 <= i < plan.traversed_edge_zone_ids.len() ==> {
                &&& e.reservations.len() == plan.traversed_edge_zone_ids[i].len()
                &&& forall|k: int|
                    0 <= k < plan.traversed_edge_zone_ids[i].len() ==> reserves(
                        e.reservations,
                        #[trigger] plan.traversed_edge_zone_ids[i][k],
                    )
            }
        }),
{
    if 0 <= i < plan.traversed_node_zone_ids.len() {
        let zones = plan.traversed_node_zone_ids[i];
        assert(listed(plan.traversed_node_zone_ids, i) == zones);
        assert forall|k: int| 0 <= k < zones.len() implies reserves(
            plain_node(plan, i).reservations,
            #[trigger] zones[k],
        ) by {
            lemma_reserves(zones, Seq::empty(), k);
        }
    }
    if 0 <= i < plan.traversed_edge_zone_ids.len() {
        let zones = plan.traversed_edge_zone_ids[i];
        assert(listed(plan.traversed_edge_zone_ids, i) == zones);
        assert forall|k: int| 0 <= k < zones.len() implies reserves(
            plain_edge(plan, i).reservations,
            #[trigger] zones[k],
        ) by {
            lemma_reserves(zones, Seq::empty(), k);
        }
    }
}

proof fn lemma_asked(ws: &Workspace, zones: Seq<Uuid>, r: ResourceReservationView)
    ensures
        asked_reservations(ws, zones).contains(r) <==> exists|k: int|
            0 <= k < zones.len() && (policy_at(ws, #[trigger] zones[k]) matches Some(p) && (
            p.requires_claim || p.access_group is Some || p.schedule_window is Some) && r == (
            ResourceReservationView {
                target_id: uuid_text(zones[k]),
                target_kind: "zone"@,
                requires_claim: p.requires_claim,
                access_group: p.access_group,
                schedule_window: p.schedule_window,
            })),
    decreases zones.len(),
{
    if zones.len() > 0 {
        let rest = zones.drop_last();
        let before = asked_reservations(ws, rest);
        let after = asked_reservations(ws, zones);
        lemma_asked(ws, rest, r);
        assert(zones[zones.len() - 1] == zones.last());
        assert forall|k: int| 0 <= k < rest.len() implies #[trigger] rest[k] == zones[k] by {}
        if before.contains(r) {
            let k = choose|k: int| 0 <= k < before.len() && before[k] == r;
            assert(after[k] == r);
            let q = choose|q: int|
                0 <= q < rest.len() && (policy_at(ws, #[trigger] rest[q]) matches Some(p) && (
                p.requires_claim || p.access_group is Some || p.schedule_window is Some) && r == (
                ResourceReservationView {
                    target_id: uuid_text(rest[q]),
                    target_kind: "zone"@,
                    requires_claim: p.requires_claim,
                    access_group: p.access_group,
                    schedule_window: p.schedule_window,
                }));
            assert(zones[q] == rest[q]);
        }
        if after.contains(r) {
            let k = choose|k: int| 0 <= k < after.len() && after[k] == r;
            if k < before.len() {
                assert(before[k] == r);
            }
        }
        if exists|k: int|
            0 <= k < zones.len() && (policy_at(ws, #[trigger] zones[k]) matches Some(p) && (
            p.requires_claim || p.access_group is Some || p.schedule_window is Some) && r == (
            ResourceReservationView {
                target_id: uuid_text(zones[k]),
                target_kind: "zone"@,
                requires_claim: p.requires_claim,
                access_group: p.access_group,
                schedule_window: p.schedule_window,
            })) {
            let k = choose|k: int|
                0 <= k < zones.len() && (policy_at(ws, #[trigger] zones[k]) matches Some(p) && (
                p.requires_claim || p.access_group is Some || p.schedule_window is Some) && r == (
                ResourceReservationView {
                    target_id: uuid_text(zones[k]),
                    target_kind: "zone"@,
                    requires_claim: p.requires_claim,
                    access_group: p.access_group,
                    schedule_window: p.schedule_window,
                }));
            if k < rest.len() {
                assert(policy_at(ws, rest[k]) is Some);
                assert(before.contains(r));
            } else {
                assert(after[before.len() as int] == r);
            }
        }
    }
}

/// A node of an order with what the workspace knows names the first of its zones
/// and where it is. For each of its zones that needs a claim or is for some robots
/// or times only there is a reservation that says so.
pub proof fn lemma_order_node_with_what_is_known(
    ws: &Workspace,
    plan: RoutePlanView,
    i: int,
    zone: Uuid,
)
    requires
        0 <= i < plan.traversed_node_ids.len(),
    ensures
        ({
            let id = plan.traversed_node_ids[i];
            let zones = zones_of_node(ws, id);
            let n = known_node(ws, plan, i);
            &&& n.node_id == uuid_text(id)
            &&& n.sequence_id == decimal_text(i as nat)
            &&& zones.len() > 0 ==> n.zone_id == Some(uuid_text(zones[0]))
            &&& zones.len() == 0 ==> n.zone_id is None
            &&& node_at(ws, id) matches Some(node) ==> n.node_position_hint == Some(node.position@)
            &&& policy_at(ws, zone) matches Some(p) ==> (zones.contains(zone) && (p.requires_claim
                || p.access_group is Some || p.schedule_window is Some)
                ==> n.reservations.contains(
                ResourceReservationView {
                    target_id: uuid_text(zone),
                    target_kind: "zone"@,
                    requires_claim: p.requires_claim,
                    access_group: p.access_group,
                    schedule_window: p.schedule_window,
                },
            ))
        }),
{
    let id = plan.traversed_node_ids[i];
    let zones = zones_of_node(ws, id);
    if let Some(p) = policy_at(ws, zone) {
        if zones.contains(zone) && (p.requires_claim || p.access_group is Some || p.schedule_window
            is Some) {
            let r = ResourceReservationView {
                target_id: uuid_text(zone),
                target_kind: "zone"@,
                requires_claim: p.requires_claim,
                access_group: p.access_group,
                schedule_window: p.schedule_window,
            };
            lemma_asked(ws, zones, r);
            let k = choose|k: int| 0 <= k < zones.len() && zones[k] == zone;
            assert(policy_at(ws, zones[k]) is Some);
            let more = asked_reservations(ws, zones);
            assert(more.contains(r));
            let q = choose|q: int| 0 <= q < more.len() && more[q] == r;
            let plain = plain_node(plan, i).reservations;
            assert((plain + more)[plain.len() + q] == r);
        }
    }
}

/// An edge of an order with what the workspace knows has the speed limit that
/// holds on it, may be taken both ways unless it is directed and not reversible,
/// and has a reservation of its own exactly if it needs a claim. What it says of
/// access and times is in its last reservation.
pub proof fn lemma_order_edge_with_what_is_known(ws: &Workspace, plan: RoutePlanView, i: int)
    requires
        0 <= i < plan.traversed_edge_ids.len(),
    ensures
        ({
            let id = plan.traversed_edge_ids[i];
            let zones = zones_of_edge(ws, id);
            let o = known_edge(ws, plan, i);
            let plain = plain_edge(plan, i);
            &&& o.edge_id == uuid_text(id)
            &&& o.start_node_id == plain.start_node_id
            &&& o.end_node_id == plain.end_node_id
            &&& zones.len() > 0 ==> o.zone_id == Some(uuid_text(zones[0]))
            &&& zones.len() == 0 ==> o.zone_id is None
            &&& edge_at(ws, id) is None ==> o.reservations == plain.reservations && o.max_speed
                == plain.max_speed
            &&& edge_at(ws, id) matches Some(e) ==> {
                let s = restricted_semantics(e.properties@, false, edge_policies(ws, id));
                &&& s.speed_limit matches Some(n) ==> o.max_speed == Some(n.value)
                &&& o.bidirectional <==> !(s.directed && s.reversible != Some(true))
                &&& s.requires_claim == Some(true) ==> o.reservations.len()
                    == plain.reservations.len() + 1 && o.reservations.last() == (
                ResourceReservationView {
                    target_id: uuid_text(e.id),
                    target_kind: "edge"@,
                    requires_claim: true,
                    access_group: s.access_group,
                    schedule_window: s.schedule_window,
                })
                &&& s.requires_claim != Some(true) ==> o.reservations.len()
                    == plain.reservations.len()
                &&& o.reservations.len() > 0 ==> {
                    &&& s.access_group is Some ==> o.reservations.last().access_group
                        == s.access_group
                    &&& s.schedule_window is Some ==> o.reservations.last().schedule_window
                        == s.schedule_window
                }
                &&& forall|k: int|
                    0 <= k < o.reservations.len() - 1 ==> #[trigger] o.reservations[k]
                        == plain.reservations[k]
            }
        }),
{
}

// ---------------------------------------------------------------------------
// states
// ---------------------------------------------------------------------------

/// A robot reports automatic operation exactly while it has a route, names the
/// goal of the route and where it is, is paused exactly while it waits or is
/// blocked, and reports an error while claims are pending.
pub proof fn lemma_what_a_robot_reports(s: RobotStateView)
    ensures
        ({
            let r = state_of(s);
            &&& r.agv_id == decimal_text(s.robot_id.0 as nat)
            &&& r.operating_mode == OperatingMode::Automatic <==> s.route_plan is Some
            &&& r.operating_mode == OperatingMode::Manual <==> s.route_plan is None
            &&& r.connection_state == ConnectionState::Online
            &&& s.current_node_id is None ==> r.last_node_id is None
            &&& s.current_node_id matches Some(u) ==> r.last_node_id == Some(uuid_text(u))
            &&& s.current_edge_id is None ==> r.last_edge_id is None
            &&& s.current_edge_id matches Some(u) ==> r.last_edge_id == Some(uuid_text(u))
            &&& s.route_plan is None ==> r.order_id is None && r.order_update_id == 0
            &&& s.route_plan matches Some(plan) ==> r.order_id == Some(
                uuid_text(plan.goal_node_id),
            ) && (plan.traversed_edge_ids.len() <= u32::MAX ==> r.order_update_id
                == plan.traversed_edge_ids.len())
            &&& r.paused <==> s.progress_state == RobotProgressState::Waiting || s.progress_state
                == RobotProgressState::Blocked
            &&& s.pending_claim_ids.len() > 0 ==> r.errors == seq!["pending_claims"@]
                && r.information.len() == 1
            &&& s.pending_claim_ids.len() == 0 ==> r.errors.len() == 0 && r.information.len() == 0
        }),
{
}

/// What is reported of a target.
pub open spec fn report(t: ClaimTarget, state: Seq<char>) -> ReservationStateView {
    ReservationStateView {
        target_id: uuid_text(t.resource_id),
        target_kind: kind_word(t.kind),
        state,
    }
}

proof fn lemma_reported_targets(targets: Seq<ClaimTarget>, state: Seq<char>, r: ReservationStateView)
    ensures
        reported_targets(targets, state).contains(r) <==> exists|j: int|
            0 <= j < targets.len() && r == report(#[trigger] targets[j], state),
{
    let all = reported_targets(targets, state);
    if all.contains(r) {
        let k = choose|k: int| 0 <= k < all.len() && all[k] == r;
        assert(r == report(targets[k], state));
    }
    if exists|j: int| 0 <= j < targets.len() && r == report(#[trigger] targets[j], state) {
        let j = choose|j: int| 0 <= j < targets.len() && r == report(#[trigger] targets[j], state);
        assert(all[j] == r);
    }
}

proof fn lemma_joined_reports(
    a: Seq<ReservationStateView>,
    b: Seq<ReservationStateView>,
    r: ReservationStateView,
)
    ensures
        (a + b).contains(r) <==> a.contains(r) || b.contains(r),
{
    let all = a + b;
    if all.contains(r) {
        let k = choose|k: int| 0 <= k < all.len() && all[k] == r;
        if k < a.len() {
            assert(a[k] == r);
        } else {
            assert(b[k - a.len()] == r);
        }
    }
    if a.contains(r) {
        let k = choose|k: int| 0 <= k < a.len() && a[k] == r;
        assert(all[k] == r);
    }
    if b.contains(r) {
        let k = choose|k: int| 0 <= k < b.len() && b[k] == r;
        assert(all[a.len() + k] == r);
    }
}

/// Whether a target of a listed lease is reported as this.
pub open spec fn of_a_lease(m: ClaimManagerView, ids: Seq<LeaseId>, r: ReservationStateView) -> bool {
    exists|i: int, j: int|
        0 <= i < m.leases.len() && ids.contains(m.leases[i].id) && 0 <= j
            < m.leases[i].targets.len() && r == report(
            #[trigger] m.leases[i].targets[j],
            "ACTIVE"@,
        )
}

/// Whether a target of a listed request is reported as this.
pub open spec fn of_a_request(m: ClaimManagerView, ids: Seq<ClaimId>, r: ReservationStateView) -> bool {
    exists|i: int, j: int|
        0 <= i < m.requests.len() && ids.contains(m.requests[i].id) && 0 <= j
            < m.requests[i].targets.len() && r == report(
            #[trigger] m.requests[i].targets[j],
            "PENDING"@,
        )
}

proof fn lemma_either_one<A>(s: Seq<A>, x: A)
    requires
        s.len() > 0,
    ensures
        s.contains(x) <==> s.drop_last().contains(x) || s.last() == x,
{
    let rest = s.drop_last();
    if s.contains(x) {
        let k = choose|k: int| 0 <= k < s.len() && s[k] == x;
        if k < rest.len() {
            assert(rest[k] == x);
        }
    }
    if rest.contains(x) {
        let k = choose|k: int| 0 <= k < rest.len() && rest[k] == x;
        assert(s[k] == x);
    }
    assert(s[s.len() - 1] == s.last());
}

proof fn lemma_reported_leases(m: ClaimManagerView, ids: Seq<LeaseId>, r: ReservationStateView)
    requires
        unique_leases(m.leases),
    ensures
        reported_leases(m, ids).contains(r) <==> of_a_lease(m, ids, r),
    decreases ids.len(),
{
    if ids.len() > 0 {
        let rest = ids.drop_last();
        let id = ids.last();
        lemma_reported_leases(m, rest, r);
        lemma_lease_place(m.leases, id, 0);
        assert forall|x: LeaseId| #[trigger] ids.contains(x) <==> rest.contains(x) || x == id by {
            lemma_either_one(ids, x);
        }
        if of_a_lease(m, rest, r) {
            let (i, j) = choose|i: int, j: int|
                0 <= i < m.leases.len() && rest.contains(m.leases[i].id) && 0 <= j
                    < m.leases[i].targets.len() && r == report(
                    #[trigger] m.leases[i].targets[j],
                    "ACTIVE"@,
                );
            assert(ids.contains(m.leases[i].id));
        }
        if let Some(p) = lease_place(m.leases, id, 0) {
            let more = reported_targets(m.leases[p].targets, "ACTIVE"@);
            lemma_reported_targets(m.leases[p].targets, "ACTIVE"@, r);
            lemma_joined_reports(reported_leases(m, rest), more, r);
            if more.contains(r) {
                let j = choose|j: int|
                    0 <= j < m.leases[p].targets.len() && r == report(
                        #[trigger] m.leases[p].targets[j],
                        "ACTIVE"@,
                    );
                assert(ids.contains(m.leases[p].id));
            }
        }
        if of_a_lease(m, ids, r) {
            let (i, j) = choose|i: int, j: int|
                0 <= i < m.leases.len() && ids.contains(m.leases[i].id) && 0 <= j
                    < m.leases[i].targets.len() && r == report(
                    #[trigger] m.leases[i].targets[j],
                    "ACTIVE"@,
                );
            if !rest.contains(m.leases[i].id) {
                let p = lease_place(m.leases, id, 0).unwrap();
                if i < p {
                    assert(m.leases[i].id != m.leases[p].id);
                } else if p < i {
                    assert(m.leases[p].id != m.leases[i].id);
                }
                assert(i == p);
                assert(r == report(m.leases[p].targets[j], "ACTIVE"@));
            }
        }
    }
}

proof fn lemma_reported_claims(m: ClaimManagerView, ids: Seq<ClaimId>, r: ReservationStateView)
    requires
        unique_requests(m.requests),
    ensures
        reported_claims(m, ids).contains(r) <==> of_a_request(m, ids, r),
    decreases ids.len(),
{
    if ids.len() > 0 {
        let rest = ids.drop_last();
        let id = ids.last();
        lemma_reported_claims(m, rest, r);
        lemma_request_place(m.requests, id, 0);
        assert forall|x: ClaimId| #[trigger] ids.contains(x) <==> rest.contains(x) || x == id by {
            lemma_either_one(ids, x);
        }
        if of_a_request(m, rest, r) {
            let (i, j) = choose|i: int, j: int|
                0 <= i < m.requests.len() && rest.contains(m.requests[i].id) && 0 <= j
                    < m.requests[i].targets.len() && r == report(
                    #[trigger] m.requests[i].targets[j],
                    "PENDING"@,
                );
            assert(ids.contains(m.requests[i].id));
        }
        if let Some(p) = request_place(m.requests, id, 0) {
            let more = reported_targets(m.requests[p].targets, "PENDING"@);
            lemma_reported_targets(m.requests[p].targets, "PENDING"@, r);
            lemma_joined_reports(reported_claims(m, rest), more, r);
            if more.contains(r) {
                let j = choose|j: int|
                    0 <= j < m.requests[p].targets.len() && r == report(
                        #[trigger] m.requests[p].targets[j],
                        "PENDING"@,
                    );
                assert(ids.contains(m.requests[p].id));
            }
        }
        if of_a_request(m, ids, r) {
            let (i, j) = choose|i: int, j: int|
                0 <= i < m.requests.len() && ids.contains(m.requests[i].id) && 0 <= j
                    < m.requests[i].targets.len() && r == report(
                    #[trigger] m.requests[i].targets[j],
                    "PENDING"@,
                );
            if !rest.contains(m.requests[i].id) {
                let p = request_place(m.requests, id, 0).unwrap();
                if i < p {
                    assert(m.requests[i].id != m.requests[p].id);
                } else if p < i {
                    assert(m.requests[p].id != m.requests[i].id);
                }
                assert(i == p);
                assert(r == report(m.requests[p].targets[j], "PENDING"@));
            }
        }
    }
}

proof fn lemma_missing_leases(m: ClaimManagerView, ids: Seq<LeaseId>)
    ensures
        missing_leases(m, ids).len() == 0 <==> forall|k: int|
            0 <= k < ids.len() ==> exists|i: int|
                0 <= i < m.leases.len() && (#[trigger] m.leases[i]).id == #[trigger] ids[k],
    decreases ids.len(),
{
    if ids.len() > 0 {
        let rest = ids.drop_last();
        let n = ids.len() - 1;
        lemma_missing_leases(m, rest);
        lemma_lease_place(m.leases, ids.last(), 0);
        assert forall|k: int| 0 <= k < rest.len() implies #[trigger] rest[k] == ids[k] by {}
        assert(ids[n] == ids.last());
        if missing_leases(m, ids).len() == 0 {
            assert forall|k: int| 0 <= k < ids.len() implies exists|i: int|
                0 <= i < m.leases.len() && (#[trigger] m.leases[i]).id == #[trigger] ids[k] by {
                if k < n {
                    assert(rest[k] == ids[k]);
                } else {
                    let p = lease_place(m.leases, ids.last(), 0).unwrap();
                    assert(m.leases[p].id == ids[k]);
                }
            }
        }
        if forall|k: int|
            0 <= k < ids.len() ==> exists|i: int|
                0 <= i < m.leases.len() && (#[trigger] m.leases[i]).id == #[trigger] ids[k] {
            assert(exists|i: int|
                0 <= i < m.leases.len() && (#[trigger] m.leases[i]).id == ids[n]);
            assert forall|k: int| 0 <= k < rest.len() implies exists|i: int|
                0 <= i < m.leases.len() && (#[trigger] m.leases[i]).id == #[trigger] rest[k] by {
                assert(rest[k] == ids[k]);
            }
        }
    }
}

/// A robot reports the targets of its leases as active and those of its pending
/// requests as pending, as far as they are in the ledger, and nothing else. It
/// reports an error exactly if claims are pending or one of its leases is not in
/// the ledger. It tells that it holds leases, and why it is held.
pub proof fn lemma_what_a_robot_reports_of_claims(
    s: RobotStateView,
    m: ClaimManagerView,
    r: ReservationStateView,
)
    requires
        unique_leases(m.leases),
        unique_requests(m.requests),
    ensures
        ({
            let state = state_with_claims(s, m);
            &&& state.reservation_states.contains(r) <==> of_a_lease(m, s.active_lease_ids, r)
                || of_a_request(m, s.pending_claim_ids, r)
            &&& state.errors.len() == 0 <==> s.pending_claim_ids.len() == 0 && forall|k: int|
                0 <= k < s.active_lease_ids.len() ==> exists|i: int|
                    0 <= i < m.leases.len() && (#[trigger] m.leases[i]).id
                        == #[trigger] s.active_lease_ids[k]
            &&& state.action_states.len() == (if s.active_lease_ids.len() > 0 {
                1int
            } else {
                0
            }) + (if s.hold_reason is Some {
                1int
            } else {
                0
            })
            &&& s.active_lease_ids.len() > 0 ==> state.action_states[0] == "holding_leases"@
            &&& s.hold_reason matches Some(reason) ==> state.action_states.last() == reason
            &&& state.paused == state_of(s).paused
            &&& state.operating_mode == state_of(s).operating_mode
            &&& state.order_id == state_of(s).order_id
        }),
{
    lemma_reported_leases(m, s.active_lease_ids, r);
    lemma_reported_claims(m, s.pending_claim_ids, r);
    lemma_joined_reports(
        reported_leases(m, s.active_lease_ids),
        reported_claims(m, s.pending_claim_ids),
        r,
    );
    lemma_missing_leases(m, s.active_lease_ids);
}

} // verus!
