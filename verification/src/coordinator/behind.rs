//! What a robot holds of its route and what it lets go of, in terms of the places
//! on the route.

use super::horizon::{
    comma_parts, horizon_request, horizon_targets, lesser, names, place_of, progress,
    route_request, route_targets, shed, shed_behind, still_ahead, still_needed, targets_on,
    zones_ahead, zones_between, zones_outside,
};
use super::targets::{listed, ticks_for};
use crate::claim::laws::unique_leases;
use crate::claim::manager::{lease_place, lemma_lease_place, ClaimManagerView};
use crate::claim::{
    ClaimAccessMode, ClaimTarget, ClaimTargetKind, LeaseDisposition, LeaseView,
};
use crate::guid::Uuid;
use crate::ids::{ClaimId, LeaseId, MissionId, RobotId};
use crate::index::tables::lemma_first_seen;
use crate::number::{result_of, Real};
use crate::properties::value_at;
use crate::robot::RobotStateView;
use crate::route::assemble::shape_error;
use crate::route::RoutePlanView;
use crate::text::trimmed;
use crate::workspace::{zone_at, Workspace};
use vstd::prelude::*;

verus! {

/// Whether a resource stands in a list at a place or behind it.
pub open spec fn stands_from(ids: Seq<Uuid>, from: int, id: Uuid) -> bool {
    exists|j: int| from <= j < ids.len() && #[trigger] ids[j] == id
}

/// Whether a zone is listed for a place or for one behind it.
pub open spec fn zone_from(zones: Seq<Seq<Uuid>>, from: int, id: Uuid) -> bool {
    exists|j: int| from <= j < zones.len() && (#[trigger] zones[j]).contains(id)
}

/// Whether a route comes to a target at one of its places or behind it: to a node
/// or an edge that stands there, or to a zone that is listed for one.
pub open spec fn comes_to(plan: RoutePlanView, from: int, t: ClaimTarget) -> bool {
    match t.kind {
        ClaimTargetKind::Node => stands_from(plan.traversed_node_ids, from, t.resource_id),
        ClaimTargetKind::Edge => stands_from(plan.traversed_edge_ids, from, t.resource_id),
        ClaimTargetKind::Zone => zone_from(plan.traversed_node_zone_ids, from, t.resource_id)
            || zone_from(plan.traversed_edge_zone_ids, from, t.resource_id),
    }
}

/// Whether a route comes to a target of a lease at one of its places or behind it.
pub open spec fn of_use(plan: RoutePlanView, from: int, l: LeaseView) -> bool {
    exists|i: int| 0 <= i < l.targets.len() && comes_to(plan, from, #[trigger] l.targets[i])
}

/// A zone lies between two places of a route exactly if it is listed for one of
/// them.
pub proof fn lemma_zones_between(zones: Seq<Seq<Uuid>>, from: int, to: int, id: Uuid)
    requires
        0 <= from,
    ensures
        zones_between(zones, from, to).contains(id) <==> exists|j: int|
            from <= j < to && j < zones.len() && (#[trigger] zones[j]).contains(id),
    decreases to - from,
{
    if from < to {
        lemma_zones_between(zones, from, to - 1, id);
        let before = zones_between(zones, from, to - 1);
        let here = listed(zones, to - 1);
        let all = zones_between(zones, from, to);
        assert(all == before + here);
        if all.contains(id) {
            let k = choose|k: int| 0 <= k < all.len() && all[k] == id;
            if k < before.len() {
                assert(before[k] == id);
                assert(before.contains(id));
            } else {
                assert(here[k - before.len()] == id);
                assert(zones[to - 1].contains(id));
            }
        }
        if exists|j: int| from <= j < to && j < zones.len() && (#[trigger] zones[j]).contains(id) {
            let j = choose|j: int|
                from <= j < to && j < zones.len() && (#[trigger] zones[j]).contains(id);
            if j == to - 1 {
                let k = choose|k: int| 0 <= k < here.len() && here[k] == id;
                assert(all[before.len() + k] == id);
            } else {
                assert(before.contains(id));
                let k = choose|k: int| 0 <= k < before.len() && before[k] == id;
                assert(all[k] == id);
            }
        }
    }
}

proof fn lemma_skipped(ids: Seq<Uuid>, from: int, id: Uuid)
    requires
        0 <= from <= ids.len(),
    ensures
        ids.skip(from).contains(id) <==> stands_from(ids, from, id),
{
    let rest = ids.skip(from);
    if rest.contains(id) {
        let k = choose|k: int| 0 <= k < rest.len() && rest[k] == id;
        assert(ids[from + k] == id);
    }
    if stands_from(ids, from, id) {
        let j = choose|j: int| from <= j < ids.len() && #[trigger] ids[j] == id;
        assert(rest[j - from] == id);
    }
}

proof fn lemma_needed_is_of_use(plan: RoutePlanView, from: int, l: LeaseView)
    requires
        0 <= from <= plan.traversed_node_ids.len(),
    ensures
        still_needed(plan, from, l) <==> of_use(plan, from, l),
{
    assert forall|t: ClaimTarget| #[trigger] still_ahead(plan, from, t) <==> comes_to(
        plan,
        from,
        t,
    ) by {
        match t.kind {
            ClaimTargetKind::Node => {
                lemma_skipped(plan.traversed_node_ids, from, t.resource_id);
            },
            ClaimTargetKind::Edge => {
                if from <= plan.traversed_edge_ids.len() {
                    lemma_skipped(plan.traversed_edge_ids, from, t.resource_id);
                }
            },
            ClaimTargetKind::Zone => {
                let by_node = plan.traversed_node_zone_ids;
                let by_edge = plan.traversed_edge_zone_ids;
                lemma_zones_between(by_node, from, by_node.len() as int, t.resource_id);
                lemma_zones_between(by_edge, from, by_edge.len() as int, t.resource_id);
            },
        }
    }
    if still_needed(plan, from, l) {
        let i = choose|i: int|
            0 <= i < l.targets.len() && still_ahead(plan, from, #[trigger] l.targets[i]);
        assert(comes_to(plan, from, l.targets[i]));
    }
    if of_use(plan, from, l) {
        let i = choose|i: int|
            0 <= i < l.targets.len() && comes_to(plan, from, #[trigger] l.targets[i]);
        assert(still_ahead(plan, from, l.targets[i]));
    }
}

/// What a lease looks like that has been let go of on the way.
pub open spec fn let_go(l: LeaseView) -> LeaseView {
    LeaseView {
        active: false,
        disposition: LeaseDisposition::Released,
        released_at_tick: None,
        ..l
    }
}

proof fn lemma_shed(m: ClaimManagerView, plan: RoutePlanView, from: int, ids: Seq<LeaseId>)
    requires
        unique_leases(m.leases),
        0 <= from <= plan.traversed_node_ids.len(),
    ensures
        ({
            let after = shed(m, plan, from, ids);
            &&& unique_leases(after.manager.leases)
            &&& forall|l: LeaseView| #[trigger]
                after.manager.leases.contains(l) <==> m.leases.contains(l) && (ids.contains(l.id)
                    ==> of_use(plan, from, l))
            &&& forall|id: LeaseId| #[trigger]
                after.retained.contains(id) <==> ids.contains(id) && exists|k: int|
                    0 <= k < m.leases.len() && (#[trigger] m.leases[k]).id == id && of_use(
                        plan,
                        from,
                        m.leases[k],
                    )
            &&& forall|l: LeaseView|
                m.leases.contains(l) && ids.contains(l.id) && !of_use(plan, from, l)
                    ==> #[trigger] after.manager.released.contains(let_go(l))
            &&& forall|l: LeaseView|
                m.released.contains(l) ==> #[trigger] after.manager.released.contains(l)
            &&& after.manager.released.len() == m.released.len() + after.released
            &&& after.manager.leases.len() + after.released == m.leases.len()
            &&& after.manager.requests == m.requests
            &&& after.manager.workspace == m.workspace
        }),
    decreases ids.len(),
{
    if ids.len() > 0 {
        let rest = ids.drop_last();
        let id = ids.last();
        lemma_shed(m, plan, from, rest);
        let before = shed(m, plan, from, rest);
        let after = shed(m, plan, from, ids);
        let held = before.manager.leases;
        lemma_lease_place(held, id, 0);
        assert forall|x: LeaseId| #[trigger] ids.contains(x) <==> rest.contains(x) || x == id by {
            if ids.contains(x) {
                let k = choose|k: int| 0 <= k < ids.len() && ids[k] == x;
                if k < rest.len() {
                    assert(rest[k] == x);
                }
            }
            if rest.contains(x) {
                let k = choose|k: int| 0 <= k < rest.len() && rest[k] == x;
                assert(ids[k] == x);
            }
            assert(ids[ids.len() - 1] == id);
        }
        match lease_place(held, id, 0) {
            None => {
                assert forall|l: LeaseView| m.leases.contains(l) && l.id == id implies rest.contains(
                    id,
                ) && !of_use(plan, from, l) by {
                    if held.contains(l) {
                        let k = choose|k: int| 0 <= k < held.len() && held[k] == l;
                        assert(held[k].id == id);
                    }
                }
                assert forall|x: LeaseId| #[trigger] after.retained.contains(x) <==> ids.contains(x)
                    && exists|k: int|
                    0 <= k < m.leases.len() && (#[trigger] m.leases[k]).id == x && of_use(
                        plan,
                        from,
                        m.leases[k],
                    ) by {
                    if x == id {
                        if exists|k: int|
                            0 <= k < m.leases.len() && (#[trigger] m.leases[k]).id == x && of_use(
                                plan,
                                from,
                                m.leases[k],
                            ) {
                            let k = choose|k: int|
                                0 <= k < m.leases.len() && (#[trigger] m.leases[k]).id == x
                                    && of_use(plan, from, m.leases[k]);
                            assert(m.leases.contains(m.leases[k]));
                        }
                    }
                }
            },
            Some(i) => {
                let l = held[i];
                assert(held.contains(l));
                let p = choose|p: int| 0 <= p < m.leases.len() && m.leases[p] == l;
                lemma_needed_is_of_use(plan, from, l);
                assert forall|x: LeaseView| m.leases.contains(x) && x.id == id implies x == l by {
                    let q = choose|q: int| 0 <= q < m.leases.len() && m.leases[q] == x;
                    assert(q == p);
                }
                if of_use(plan, from, l) {
                    let kept = before.retained;
                    assert forall|x: LeaseId| #[trigger] after.retained.contains(x) <==> (
                    kept.contains(x) || x == id) by {
                        if kept.contains(x) {
                            let k = choose|k: int| 0 <= k < kept.len() && kept[k] == x;
                            assert(after.retained[k] == x);
                        }
                        assert(after.retained[kept.len() as int] == id);
                        if after.retained.contains(x) {
                            let k = choose|k: int|
                                0 <= k < after.retained.len() && after.retained[k] == x;
                            if k < kept.len() {
                                assert(kept[k] == x);
                            }
                        }
                    }
                    assert(m.leases[p].id == id && of_use(plan, from, m.leases[p]));
                } else {
                    let now = after.manager.leases;
                    assert(now == held.remove(i));
                    assert forall|x: LeaseView| #[trigger] now.contains(x) <==> held.contains(x) && x
                        != l by {
                        if now.contains(x) {
                            let k = choose|k: int| 0 <= k < now.len() && now[k] == x;
                            if k < i {
                                assert(held[k] == x);
                            } else {
                                assert(held[k + 1] == x);
                            }
                        }
                        if held.contains(x) && x != l {
                            let k = choose|k: int| 0 <= k < held.len() && held[k] == x;
                            if k < i {
                                assert(now[k] == x);
                            } else {
                                assert(now[k - 1] == x);
                            }
                        }
                    }
                    let aside = before.manager.released;
                    let more = after.manager.released;
                    assert(more == aside.push(let_go(l)));
                    assert(more[aside.len() as int] == let_go(l));
                    assert forall|x: LeaseView| #[trigger] aside.contains(x) implies more.contains(
                        x,
                    ) by {
                        let k = choose|k: int| 0 <= k < aside.len() && aside[k] == x;
                        assert(more[k] == x);
                    }
                    assert forall|x: LeaseView|
                        m.leases.contains(x) && ids.contains(x.id) && !of_use(
                            plan,
                            from,
                            x,
                        ) implies #[trigger] more.contains(let_go(x)) by {
                        if rest.contains(x.id) {
                            assert(aside.contains(let_go(x)));
                        }
                    }
                    assert forall|x: LeaseView| m.released.contains(x) implies #[trigger] more.contains(
                        x,
                    ) by {
                        assert(aside.contains(x));
                    }
                    assert forall|x: LeaseId| #[trigger] after.retained.contains(x) <==> ids.contains(
                        x,
                    ) && exists|k: int|
                        0 <= k < m.leases.len() && (#[trigger] m.leases[k]).id == x && of_use(
                            plan,
                            from,
                            m.leases[k],
                        ) by {
                        if x == id {
                            if exists|k: int|
                                0 <= k < m.leases.len() && (#[trigger] m.leases[k]).id == x
                                    && of_use(plan, from, m.leases[k]) {
                                let k = choose|k: int|
                                    0 <= k < m.leases.len() && (#[trigger] m.leases[k]).id == x
                                        && of_use(plan, from, m.leases[k]);
                                assert(m.leases.contains(m.leases[k]));
                            }
                        }
                    }
                }
            },
        }
    }
}

/// A robot that is at a place of its route for the first time lets go of exactly
/// those of its leases of which the route comes to no target there or behind: to
/// no node or edge that stands there or further on, and to no zone that is listed
/// for one. The others stay with it, as do all leases that are not its own.
pub proof fn lemma_only_what_lies_behind_is_let_go(
    s: RobotStateView,
    m: ClaimManagerView,
    plan: RoutePlanView,
    p: int,
)
    requires
        unique_leases(m.leases),
        s.route_plan == Some(plan),
        shape_error(plan) is None,
        plan.traversed_node_ids.len() <= u64::MAX,
        0 <= p < plan.traversed_node_ids.len(),
        s.current_node_id == Some(plan.traversed_node_ids[p]),
        forall|j: int|
            0 <= j < p ==> #[trigger] plan.traversed_node_ids[j] != plan.traversed_node_ids[p],
    ensures
        ({
            let after = shed_behind(s, m);
            &&& forall|l: LeaseView| #[trigger]
                after.manager.leases.contains(l) <==> m.leases.contains(l) && (
                s.active_lease_ids.contains(l.id) ==> of_use(plan, p, l))
            &&& forall|id: LeaseId| #[trigger]
                after.retained.contains(id) <==> s.active_lease_ids.contains(id) && exists|k: int|
                    0 <= k < m.leases.len() && (#[trigger] m.leases[k]).id == id && of_use(
                        plan,
                        p,
                        m.leases[k],
                    )
            &&& forall|l: LeaseView|
                m.leases.contains(l) && s.active_lease_ids.contains(l.id) && !of_use(plan, p, l)
                    ==> #[trigger] after.manager.released.contains(let_go(l))
            &&& forall|l: LeaseView|
                m.released.contains(l) ==> #[trigger] after.manager.released.contains(l)
            &&& after.manager.released.len() == m.released.len() + after.released
            &&& after.manager.leases.len() + after.released == m.leases.len()
            &&& after.manager.requests == m.requests
            &&& after.manager.workspace == m.workspace
        }),
{
    lemma_first_place(plan.traversed_node_ids, p, 0);
    lemma_shed(m, plan, p, s.active_lease_ids);
}

proof fn lemma_first_place(ids: Seq<Uuid>, p: int, k: nat)
    requires
        k <= p < ids.len() <= u64::MAX,
        forall|j: int| 0 <= j < p ==> #[trigger] ids[j] != ids[p],
    ensures
        place_of(ids, ids[p], k) == Some(p as u64),
    decreases ids.len() - k,
{
    if k < p {
        assert(ids[k as int] != ids[p]);
        lemma_first_place(ids, p, k + 1);
    }
}

proof fn lemma_no_place(ids: Seq<Uuid>, id: Uuid, k: nat)
    requires
        !ids.contains(id),
    ensures
        place_of(ids, id, k) is None,
    decreases ids.len() - k,
{
    if k < ids.len() {
        assert(ids[k as int] != id);
        lemma_no_place(ids, id, k + 1);
    }
}

/// A robot that has no route, is nowhere or is not on its route lets go of
/// nothing.
pub proof fn lemma_off_the_route_nothing_is_let_go(s: RobotStateView, m: ClaimManagerView)
    requires
        s.route_plan is None || s.current_node_id is None || (s.route_plan matches Some(plan) && (
        shape_error(plan) is Some || (s.current_node_id matches Some(node)
            && !plan.traversed_node_ids.contains(node)))),
    ensures
        shed_behind(s, m).manager == m,
        shed_behind(s, m).retained == s.active_lease_ids,
        shed_behind(s, m).released == 0,
{
    if let (Some(plan), Some(node)) = (s.route_plan, s.current_node_id) {
        if !plan.traversed_node_ids.contains(node) {
            lemma_no_place(plan.traversed_node_ids, node, 0);
        }
    }
}

/// How far a robot has come is the first place of its route at which it is, and
/// where it is not on its route the step that it is said to take next.
pub proof fn lemma_how_far(s: RobotStateView)
    requires
        s.route_plan matches Some(plan) ==> plan.traversed_node_ids.len() <= u64::MAX,
    ensures
        s.route_plan is None || s.current_node_id is None ==> progress(s)
            == s.next_route_step_index,
        s.route_plan matches Some(plan) ==> (s.current_node_id matches Some(node) ==> {
            let ids = plan.traversed_node_ids;
            &&& !ids.contains(node) ==> progress(s) == s.next_route_step_index
            &&& ids.contains(node) ==> progress(s) < ids.len() && ids[progress(s) as int] == node
                && forall|j: int| 0 <= j < progress(s) ==> #[trigger] ids[j] != node
        }),
{
    if let (Some(plan), Some(node)) = (s.route_plan, s.current_node_id) {
        let ids = plan.traversed_node_ids;
        if ids.contains(node) {
            let p = ids.index_of_first(node).unwrap();
            ids.index_of_first_ensures(node);
            lemma_first_place(ids, p, 0);
        } else {
            lemma_no_place(ids, node, 0);
        }
    }
}

// ---------------------------------------------------------------------------
// claims along a route
// ---------------------------------------------------------------------------

proof fn lemma_targets_on(kind: ClaimTargetKind, ids: Seq<Uuid>, t: ClaimTarget)
    ensures
        targets_on(kind, ids).contains(t) <==> t.kind == kind && ids.contains(t.resource_id),
{
    let all = targets_on(kind, ids);
    if all.contains(t) {
        let k = choose|k: int| 0 <= k < all.len() && all[k] == t;
        assert(ids[k] == t.resource_id);
    }
    if t.kind == kind && ids.contains(t.resource_id) {
        let k = choose|k: int| 0 <= k < ids.len() && ids[k] == t.resource_id;
        assert(all[k] == t);
    }
}

proof fn lemma_joined(a: Seq<ClaimTarget>, b: Seq<ClaimTarget>, t: ClaimTarget)
    ensures
        (a + b).contains(t) <==> a.contains(t) || b.contains(t),
{
    let all = a + b;
    if all.contains(t) {
        let k = choose|k: int| 0 <= k < all.len() && all[k] == t;
        if k < a.len() {
            assert(a[k] == t);
        } else {
            assert(b[k - a.len()] == t);
        }
    }
    if a.contains(t) {
        let k = choose|k: int| 0 <= k < a.len() && a[k] == t;
        assert(all[k] == t);
    }
    if b.contains(t) {
        let k = choose|k: int| 0 <= k < b.len() && b[k] == t;
        assert(all[a.len() + k] == t);
    }
}

/// The request for a route claims exactly the nodes, edges and zones that the
/// route lists, for the robot and the mission that are named. It is for the time
/// from the tick at which the route begins until its whole cost is spent, and for
/// any time where there is no such tick.
pub proof fn lemma_request_for_a_route<H: Fn(Real) -> Real>(
    h: H,
    claim_id: ClaimId,
    robot_id: RobotId,
    mission_id: MissionId,
    plan: RoutePlanView,
    start_tick: Option<u64>,
    access_mode: ClaimAccessMode,
)
    ensures
        ({
            let r = route_request(
                h,
                claim_id,
                robot_id,
                mission_id,
                plan,
                start_tick,
                access_mode,
            );
            &&& r.id == claim_id && r.robot_id == robot_id && r.mission_id == mission_id
            &&& r.access_mode == access_mode
            &&& r.requested_at_tick == start_tick && r.window.start_tick == start_tick
            &&& start_tick is None ==> r.window.end_tick is None
            &&& start_tick matches Some(t) ==> (r.window.end_tick matches Some(e) && e >= t && (e
                == t + ticks_for(h, plan.total_cost) || (e == u64::MAX && t + ticks_for(
                h,
                plan.total_cost,
            ) > u64::MAX)))
            &&& forall|t: ClaimTarget| #[trigger]
                r.targets.contains(t) <==> match t.kind {
                    ClaimTargetKind::Node => plan.traversed_node_ids.contains(t.resource_id),
                    ClaimTargetKind::Edge => plan.traversed_edge_ids.contains(t.resource_id),
                    ClaimTargetKind::Zone => plan.traversed_zone_ids.contains(t.resource_id),
                }
            &&& r.targets.len() == plan.traversed_node_ids.len() + plan.traversed_edge_ids.len()
                + plan.traversed_zone_ids.len()
        }),
{
    let zones = targets_on(ClaimTargetKind::Zone, plan.traversed_zone_ids);
    let edges = targets_on(ClaimTargetKind::Edge, plan.traversed_edge_ids);
    let nodes = targets_on(ClaimTargetKind::Node, plan.traversed_node_ids);
    assert forall|t: ClaimTarget| #[trigger] route_targets(plan).contains(t) <==> match t.kind {
        ClaimTargetKind::Node => plan.traversed_node_ids.contains(t.resource_id),
        ClaimTargetKind::Edge => plan.traversed_edge_ids.contains(t.resource_id),
        ClaimTargetKind::Zone => plan.traversed_zone_ids.contains(t.resource_id),
    } by {
        lemma_joined(zones + edges, nodes, t);
        lemma_joined(zones, edges, t);
        lemma_targets_on(ClaimTargetKind::Zone, plan.traversed_zone_ids, t);
        lemma_targets_on(ClaimTargetKind::Edge, plan.traversed_edge_ids, t);
        lemma_targets_on(ClaimTargetKind::Node, plan.traversed_node_ids, t);
    }
}

/// Whether a resource stands in a list at a place from one up to another.
pub open spec fn stands_within(ids: Seq<Uuid>, from: int, to: int, id: Uuid) -> bool {
    exists|j: int| from <= j <= to && j < ids.len() && #[trigger] ids[j] == id
}

/// Whether a zone is listed for a place from one up to another.
pub open spec fn zone_within(zones: Seq<Seq<Uuid>>, from: int, to: int, id: Uuid) -> bool {
    exists|j: int| from <= j <= to && j < zones.len() && (#[trigger] zones[j]).contains(id)
}

proof fn lemma_part_of(ids: Seq<Uuid>, from: int, to: int, id: Uuid)
    requires
        0 <= from <= to,
    ensures
        ids.subrange(lesser(from, ids.len() as int), lesser(ids.len() as int, to)).contains(id)
            <==> stands_within(ids, from, to - 1, id),
{
    let a = lesser(from, ids.len() as int);
    let b = lesser(ids.len() as int, to);
    if a <= b {
        let part = ids.subrange(a, b);
        if part.contains(id) {
            let k = choose|k: int| 0 <= k < part.len() && part[k] == id;
            assert(ids[a + k] == id);
        }
        if stands_within(ids, from, to - 1, id) {
            let j = choose|j: int| from <= j <= to - 1 && j < ids.len() && #[trigger] ids[j] == id;
            assert(part[j - a] == id);
        }
    }
}

/// A robot claims of its route exactly what it comes to within its horizon: the
/// nodes from where it is up to that many steps further, the edges between them,
/// and the zones that are listed for those.
pub proof fn lemma_claims_within_the_horizon(
    plan: RoutePlanView,
    from: u64,
    horizon: u64,
    t: ClaimTarget,
)
    requires
        from < plan.traversed_node_ids.len(),
    ensures
        horizon_targets(plan, from, horizon).contains(t) <==> match t.kind {
            ClaimTargetKind::Node => stands_within(
                plan.traversed_node_ids,
                from as int,
                from + horizon,
                t.resource_id,
            ),
            ClaimTargetKind::Edge => stands_within(
                plan.traversed_edge_ids,
                from as int,
                from + horizon - 1,
                t.resource_id,
            ),
            ClaimTargetKind::Zone => zone_within(
                plan.traversed_node_zone_ids,
                from as int,
                from + horizon,
                t.resource_id,
            ) || zone_within(
                plan.traversed_edge_zone_ids,
                from as int,
                from + horizon - 1,
                t.resource_id,
            ),
        },
{
    let id = t.resource_id;
    let edge_ids = plan.traversed_edge_ids;
    let node_ids = plan.traversed_node_ids;
    let near = edge_ids.subrange(
        lesser(from as int, edge_ids.len() as int),
        lesser(edge_ids.len() as int, from + horizon),
    );
    let close = node_ids.subrange(
        from as int,
        lesser(node_ids.len() as int, from + horizon + 1),
    );
    let zones = targets_on(ClaimTargetKind::Zone, zones_ahead(plan, from, horizon));
    let edges = targets_on(ClaimTargetKind::Edge, near);
    let nodes = targets_on(ClaimTargetKind::Node, close);
    lemma_joined(zones + edges, nodes, t);
    lemma_joined(zones, edges, t);
    lemma_targets_on(ClaimTargetKind::Zone, zones_ahead(plan, from, horizon), t);
    lemma_targets_on(ClaimTargetKind::Edge, near, t);
    lemma_targets_on(ClaimTargetKind::Node, close, t);
    lemma_part_of(edge_ids, from as int, from + horizon, id);
    lemma_part_of(node_ids, from as int, from + horizon + 1, id);
    let by_node = zones_between(
        plan.traversed_node_zone_ids,
        from as int,
        lesser(plan.traversed_node_zone_ids.len() as int, from + horizon + 1),
    );
    let by_edge = zones_between(
        plan.traversed_edge_zone_ids,
        from as int,
        lesser(plan.traversed_edge_zone_ids.len() as int, from + horizon),
    );
    lemma_first_seen(by_node + by_edge);
    lemma_zones_between(
        plan.traversed_node_zone_ids,
        from as int,
        lesser(plan.traversed_node_zone_ids.len() as int, from + horizon + 1),
        id,
    );
    lemma_zones_between(
        plan.traversed_edge_zone_ids,
        from as int,
        lesser(plan.traversed_edge_zone_ids.len() as int, from + horizon),
        id,
    );
    let both = by_node + by_edge;
    if both.contains(id) {
        let k = choose|k: int| 0 <= k < both.len() && both[k] == id;
        if k < by_node.len() {
            assert(by_node[k] == id);
        } else {
            assert(by_edge[k - by_node.len()] == id);
        }
    }
    if by_node.contains(id) {
        let k = choose|k: int| 0 <= k < by_node.len() && by_node[k] == id;
        assert(both[k] == id);
    }
    if by_edge.contains(id) {
        let k = choose|k: int| 0 <= k < by_edge.len() && by_edge[k] == id;
        assert(both[by_node.len() + k] == id);
    }
}

/// The request of a robot for what lies ahead is its own, begins at the tick of
/// its last report, and lasts for what is left of the cost of its route. Behind
/// the end of the route it claims nothing, and without a route it claims nothing
/// for any time.
pub proof fn lemma_request_for_what_lies_ahead<D: Fn(Real, Real) -> Real>(
    d: D,
    claim_id: ClaimId,
    s: RobotStateView,
    access_mode: ClaimAccessMode,
)
    ensures
        ({
            let r = horizon_request(d, claim_id, s, access_mode);
            let now = s.updated_at_tick;
            &&& r.id == claim_id && r.robot_id == s.robot_id && r.mission_id == s.mission_id
            &&& r.access_mode == access_mode
            &&& s.route_plan is None ==> r.targets.len() == 0 && r.window.start_tick is None
                && r.window.end_tick is None && r.requested_at_tick is None
            &&& s.route_plan matches Some(plan) ==> {
                &&& shape_error(plan) is Some ==> r.targets.len() == 0 && r.window.start_tick
                    is None && r.window.end_tick is None && r.requested_at_tick is None
                &&& shape_error(plan) is None ==> {
                    &&& r.requested_at_tick == Some(now) && r.window.start_tick == Some(now)
                    &&& progress(s) >= plan.traversed_node_ids.len() ==> r.targets.len() == 0
                        && r.window.end_tick == Some(now)
                    &&& progress(s) < plan.traversed_node_ids.len() ==> {
                        let i = progress(s) as int;
                        let left = if i >= plan.steps.len() {
                            0
                        } else if i == 0 {
                            result_of(d, plan.total_cost, Real { bits: 0 }).ticks() as int
                        } else {
                            result_of(d, plan.total_cost, plan.steps[i].cumulative_cost).ticks() as int
                        };
                        &&& r.window.end_tick == Some(
                            if now + left <= u64::MAX {
                                (now + left) as u64
                            } else {
                                u64::MAX
                            },
                        )
                        &&& r.targets == horizon_targets(plan, progress(s), s.horizon)
                    }
                }
            }
        }),
{
}

// ---------------------------------------------------------------------------
// named windows
// ---------------------------------------------------------------------------

/// Whether a stretch of a text lies between two commas, or between a comma and an
/// end, and holds none itself.
pub open spec fn is_entry(list: Seq<char>, a: int, b: int) -> bool {
    &&& 0 <= a <= b <= list.len()
    &&& a == 0 || list[a - 1] == ','
    &&& b == list.len() || list[b] == ','
    &&& forall|k: int| a <= k < b ==> #[trigger] list[k] != ','
}

proof fn lemma_parts_are_entries(s: Seq<char>, i: int) -> (w: (int, int))
    requires
        0 <= i < comma_parts(s).len(),
    ensures
        is_entry(s, w.0, w.1),
        comma_parts(s)[i] == s.subrange(w.0, w.1),
        i == comma_parts(s).len() - 1 <==> w.1 == s.len(),
    decreases s.len(),
{
    if s.len() == 0 {
        assert(comma_parts(s)[i] =~= s.subrange(0, 0));
        (0, 0)
    } else {
        let rest = s.drop_last();
        let before = comma_parts(rest);
        lemma_some_part(rest);
        if s.last() == ',' {
            if i < before.len() {
                let w = lemma_parts_are_entries(rest, i);
                assert(rest.subrange(w.0, w.1) =~= s.subrange(w.0, w.1));
                assert forall|k: int| w.0 <= k < w.1 implies #[trigger] s[k] != ',' by {
                    assert(rest[k] == s[k]);
                }
                w
            } else {
                let n = s.len() as int;
                assert(comma_parts(s)[i] =~= s.subrange(n, n));
                (n, n)
            }
        } else {
            let w = lemma_parts_are_entries(rest, i);
            assert forall|k: int| w.0 <= k < w.1 implies #[trigger] s[k] != ',' by {
                assert(rest[k] == s[k]);
            }
            if i < before.len() - 1 {
                assert(rest.subrange(w.0, w.1) =~= s.subrange(w.0, w.1));
                assert(s[w.1] == rest[w.1]);
                w
            } else {
                assert(rest.subrange(w.0, w.1).push(s.last()) =~= s.subrange(w.0, s.len() as int));
                (w.0, s.len() as int)
            }
        }
    }
}

proof fn lemma_some_part(s: Seq<char>)
    ensures
        comma_parts(s).len() > 0,
    decreases s.len(),
{
    if s.len() > 0 {
        lemma_some_part(s.drop_last());
    }
}

proof fn lemma_entries_are_parts(s: Seq<char>, a: int, b: int) -> (i: int)
    requires
        is_entry(s, a, b),
    ensures
        0 <= i < comma_parts(s).len(),
        comma_parts(s)[i] == s.subrange(a, b),
        i == comma_parts(s).len() - 1 <==> b == s.len(),
    decreases s.len(),
{
    if s.len() == 0 {
        assert(comma_parts(s)[0] =~= s.subrange(a, b));
        0
    } else {
        let rest = s.drop_last();
        let before = comma_parts(rest);
        lemma_some_part(rest);
        let n = s.len() as int;
        if b == n && s.last() == ',' {
            assert(a == n) by {
                if a < n {
                    assert(s[n - 1] == ',');
                }
            }
            assert(comma_parts(s)[before.len() as int] =~= s.subrange(a, b));
            before.len() as int
        } else {
            let end = if b == n {
                n - 1
            } else {
                b
            };
            assert(a < n);
            assert forall|k: int| a <= k < end implies #[trigger] rest[k] != ',' by {
                assert(s[k] == rest[k]);
            }
            if a > 0 {
                assert(rest[a - 1] == s[a - 1]);
            }
            if end < n - 1 {
                assert(rest[end] == s[end]);
            }
            let i = lemma_entries_are_parts(rest, a, end);
            if b == n {
                assert(rest.subrange(a, end).push(s.last()) =~= s.subrange(a, b));
            } else {
                assert(rest.subrange(a, end) =~= s.subrange(a, b));
            }
            i
        }
    }
}

/// A list holds a name exactly if the name is what is left of a stretch between
/// two commas, or between a comma and an end, without the blanks around it.
pub proof fn lemma_when_a_list_names(list: Seq<char>, name: Seq<char>)
    ensures
        names(list, name) <==> exists|a: int, b: int|
            #![trigger list.subrange(a, b)]
            is_entry(list, a, b) && trimmed(list.subrange(a, b)) == name,
{
    if names(list, name) {
        let i = choose|i: int|
            0 <= i < comma_parts(list).len() && trimmed(#[trigger] comma_parts(list)[i]) == name;
        let w = lemma_parts_are_entries(list, i);
        assert(is_entry(list, w.0, w.1) && trimmed(list.subrange(w.0, w.1)) == name);
    }
    if exists|a: int, b: int|
        #![trigger list.subrange(a, b)]
        is_entry(list, a, b) && trimmed(list.subrange(a, b)) == name {
        let (a, b) = choose|a: int, b: int|
            #![trigger list.subrange(a, b)]
            is_entry(list, a, b) && trimmed(list.subrange(a, b)) == name;
        let i = lemma_entries_are_parts(list, a, b);
        assert(trimmed(comma_parts(list)[i]) == name);
    }
}

/// A zone is held against a window exactly if it is one of those asked about,
/// states a list of windows, and the list does not hold this one.
pub proof fn lemma_zones_outside(ws: &Workspace, zones: Seq<Uuid>, window: Seq<char>, id: Uuid)
    ensures
        zones_outside(ws, zones, window).contains(id) <==> zones.contains(id) && (zone_at(
            ws,
            id,
        ) matches Some(z) && (value_at(z.properties@, "traffic.schedule_window"@) matches Some(
            list,
        ) && !names(list, window))),
    decreases zones.len(),
{
    if zones.len() > 0 {
        let rest = zones.drop_last();
        let before = zones_outside(ws, rest, window);
        let after = zones_outside(ws, zones, window);
        lemma_zones_outside(ws, rest, window, id);
        assert(zones.contains(id) <==> rest.contains(id) || zones.last() == id) by {
            if zones.contains(id) {
                let k = choose|k: int| 0 <= k < zones.len() && zones[k] == id;
                if k < rest.len() {
                    assert(rest[k] == id);
                }
            }
            if rest.contains(id) {
                let k = choose|k: int| 0 <= k < rest.len() && rest[k] == id;
                assert(zones[k] == id);
            }
            assert(zones[zones.len() - 1] == zones.last());
        }
        if after.contains(id) {
            let k = choose|k: int| 0 <= k < after.len() && after[k] == id;
            if k < before.len() {
                assert(before[k] == id);
            }
        }
        if before.contains(id) {
            let k = choose|k: int| 0 <= k < before.len() && before[k] == id;
            assert(after[k] == id);
        }
        if after.len() > before.len() {
            assert(after[before.len() as int] == zones.last());
        }
    }
}

} // verus!
