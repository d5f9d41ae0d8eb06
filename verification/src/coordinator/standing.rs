//! How robots and their leases stand after what happens to them, in terms of what
//! is reported, listed and held.

use super::fleet::{
    assigned, dispossessed, is_active, is_registered, late, lemma_robot_place, lists_silent,
    noted_alive, progressed, refreshed, registered, revoked, robot_place, route_decision, touched,
    unregistered, AliveInfo, CoordinatorView,
};
use super::schedule::ScheduleDecisionKind;
use crate::claim::laws::unique_leases;
use crate::claim::manager::{lease_place, lemma_lease_place, ClaimManagerView};
use crate::claim::{LeaseDisposition, LeaseView};
use crate::guid::Uuid;
use crate::ids::{ClaimId, LeaseId, RobotId};
use crate::key::KeyView;
use crate::number::Real;
use crate::robot::{RobotProgressState, RobotStateView};
use crate::route::RoutePlanView;
use vstd::prelude::*;

verus! {

// ---------------------------------------------------------------------------
// signs of life
// ---------------------------------------------------------------------------

/// A robot is active exactly if nothing is known of its signs of life, or if less
/// than two of its intervals have gone by since the last one, as far as times can
/// be told apart.
pub proof fn lemma_when_a_robot_is_active(
    alive: Map<u64, AliveInfo>,
    id: RobotId,
    now_ms: u64,
)
    ensures
        !alive.dom().contains(id.0) ==> is_active(alive, id, now_ms),
        alive.dom().contains(id.0) ==> {
            let a = alive[id.0];
            &&& 2000 * a.interval_secs <= u64::MAX ==> (is_active(alive, id, now_ms) <==> now_ms
                - a.last_seen_ms < 2000 * a.interval_secs && a.interval_secs > 0)
            &&& 2000 * a.interval_secs > u64::MAX && (now_ms < u64::MAX || a.last_seen_ms > 0)
                ==> is_active(alive, id, now_ms)
        },
{
}

/// A robot that is listed as silent is not active. One that is not listed is
/// active, unless exactly two intervals have gone by.
pub proof fn lemma_silent_robots_are_not_active(
    ids: Seq<RobotId>,
    alive: Map<u64, AliveInfo>,
    id: RobotId,
    now_ms: u64,
)
    requires
        lists_silent(ids, alive, now_ms),
    ensures
        ids.contains(id) ==> alive.dom().contains(id.0) && !is_active(alive, id, now_ms) && now_ms
            - alive[id.0].last_seen_ms > 2000 * alive[id.0].interval_secs,
        alive.dom().contains(id.0) && now_ms - alive[id.0].last_seen_ms > 2000
            * alive[id.0].interval_secs ==> ids.contains(id),
        !ids.contains(id) ==> is_active(alive, id, now_ms) || now_ms <= alive[id.0].last_seen_ms
            || now_ms - alive[id.0].last_seen_ms == 2000 * alive[id.0].interval_secs || now_ms
            - alive[id.0].last_seen_ms == u64::MAX,
{
}

/// A robot that has just given a sign of life is active from then on for less than
/// two intervals, whether it has told how often it gives them or not. Nothing
/// changes for other robots. A robot of which nothing is known stays unknown until
/// it tells.
pub proof fn lemma_signs_of_life(
    alive: Map<u64, AliveInfo>,
    id: RobotId,
    other: RobotId,
    interval_secs: u64,
    then_ms: u64,
    now_ms: u64,
)
    requires
        then_ms <= now_ms,
        other != id,
    ensures
        ({
            let noted = noted_alive(alive, id, interval_secs, then_ms);
            &&& is_active(noted, id, then_ms)
            &&& interval_secs > 0 && 2000 * interval_secs <= u64::MAX ==> (is_active(
                noted,
                id,
                now_ms,
            ) <==> now_ms - then_ms < 2000 * interval_secs)
            &&& interval_secs == 0 ==> (is_active(noted, id, now_ms) <==> now_ms - then_ms < 4000)
            &&& is_active(noted, other, now_ms) == is_active(alive, other, now_ms)
        }),
        ({
            let after = touched(alive, id, then_ms);
            &&& after.dom() == alive.dom()
            &&& alive.dom().contains(id.0) ==> after[id.0].interval_secs
                == alive[id.0].interval_secs && after[id.0].last_seen_ms == then_ms
            &&& alive.dom().contains(id.0) && alive[id.0].interval_secs > 0 ==> is_active(
                after,
                id,
                then_ms,
            )
            &&& is_active(after, other, now_ms) == is_active(alive, other, now_ms)
        }),
{
    assert(touched(alive, id, then_ms).dom() =~= alive.dom());
}

// ---------------------------------------------------------------------------
// progress
// ---------------------------------------------------------------------------

/// A robot that reports to be at a node is there. On its route it goes on from the
/// first place of that node, and is idle exactly if that is the last one. Off its
/// route it waits where it has none, and otherwise is as it was.
pub proof fn lemma_reports_move_a_robot(
    s: RobotStateView,
    node: Option<Uuid>,
    edge: Option<Uuid>,
    tick: u64,
)
    requires
        s.route_plan matches Some(plan) ==> plan.traversed_node_ids.len() <= u64::MAX,
    ensures
        ({
            let after = progressed(s, node, edge, tick);
            let on_route = s.route_plan matches Some(plan) && (node matches Some(n)
                && plan.traversed_node_ids.contains(n));
            &&& after.current_node_id == node
            &&& after.current_edge_id == edge
            &&& after.updated_at_tick == tick
            &&& after.robot_id == s.robot_id
            &&& after.route_plan == s.route_plan
            &&& after.active_lease_ids == s.active_lease_ids
            &&& after.pending_claim_ids == s.pending_claim_ids
            &&& after.position == s.position
            &&& after.heading == s.heading
            &&& on_route ==> {
                let ids = s.route_plan.unwrap().traversed_node_ids;
                let i = after.next_route_step_index;
                &&& i < ids.len() && ids[i as int] == node.unwrap()
                &&& forall|j: int| 0 <= j < i ==> #[trigger] ids[j] != node.unwrap()
                &&& after.progress_state == (if i == ids.len() - 1 {
                    RobotProgressState::Idle
                } else {
                    RobotProgressState::FollowingRoute
                })
                &&& after.hold_reason is None
                &&& !after.needs_replan
                &&& after.wait_ticks == 0
            }
            &&& !on_route ==> after.next_route_step_index == s.next_route_step_index
                && after.hold_reason == s.hold_reason
            &&& !on_route && s.route_plan is Some && node is Some ==> after.progress_state
                == s.progress_state && after.needs_replan == s.needs_replan && after.wait_ticks
                == s.wait_ticks
            &&& (s.route_plan is None || node is None) && edge is Some ==> after.progress_state
                == RobotProgressState::FollowingRoute && !after.needs_replan && after.wait_ticks
                == 0
            &&& (s.route_plan is None || node is None) && edge is None ==> after.progress_state
                == RobotProgressState::Waiting && after.needs_replan == s.needs_replan
        }),
{
    super::behind::lemma_how_far(RobotStateView { current_node_id: node, ..s });
    if let (Some(plan), Some(n)) = (s.route_plan, node) {
        if !plan.traversed_node_ids.contains(n) {
            lemma_not_there(plan.traversed_node_ids, n, 0);
        } else {
            let ids = plan.traversed_node_ids;
            let p = choose|p: int| 0 <= p < ids.len() && ids[p] == n;
            lemma_there(ids, n, 0, p);
        }
    }
}

proof fn lemma_not_there(ids: Seq<Uuid>, id: Uuid, k: nat)
    requires
        !ids.contains(id),
    ensures
        super::horizon::place_of(ids, id, k) is None,
    decreases ids.len() - k,
{
    if k < ids.len() {
        assert(ids[k as int] != id);
        lemma_not_there(ids, id, k + 1);
    }
}

proof fn lemma_there(ids: Seq<Uuid>, id: Uuid, k: nat, p: int)
    requires
        k <= p < ids.len() <= u64::MAX,
        ids[p] == id,
    ensures
        super::horizon::place_of(ids, id, k) is Some,
    decreases p - k,
{
    if k < p && ids[k as int] != id {
        lemma_there(ids, id, k + 1, p);
    }
}

/// A robot that is sent on a route begins it at that tick and has it reserved
/// until its whole cost is spent. It is under way, unless the route is empty.
pub proof fn lemma_sent_on_a_route(
    s: RobotStateView,
    plan: RoutePlanView,
    horizon: u64,
    tick: u64,
)
    ensures
        ({
            let after = assigned(s, plan, horizon, tick);
            &&& after.route_plan == Some(plan)
            &&& after.horizon == horizon
            &&& after.next_route_step_index == 0
            &&& after.scheduled_start_tick == Some(tick)
            &&& tick + plan.total_cost.ticks() <= u64::MAX ==> (
            after.reserved_until_tick matches Some(t) && t == tick + plan.total_cost.ticks())
            &&& tick + plan.total_cost.ticks() > u64::MAX ==> after.reserved_until_tick == Some(
                u64::MAX,
            )
            &&& after.wait_ticks == 0
            &&& !after.needs_replan
            &&& after.updated_at_tick == tick
            &&& after.progress_state == RobotProgressState::Idle <==> plan.traversed_node_ids.len()
                == 0
            &&& after.progress_state == RobotProgressState::FollowingRoute
                <==> plan.traversed_node_ids.len() > 0
            &&& after.robot_id == s.robot_id
            &&& after.current_node_id == s.current_node_id
            &&& after.active_lease_ids == s.active_lease_ids
        }),
{
}

/// A robot without a route, without a place in the fleet or without a workspace
/// has to plan anew, and nothing stands in its way.
pub proof fn lemma_nothing_to_schedule<H: Fn(Real) -> Real>(
    h: H,
    c: CoordinatorView,
    id: RobotId,
    claim_id: ClaimId,
    start_tick: u64,
)
    requires
        c.workspace is None || robot_place(c.robots, id, 0) is None || c.robots[robot_place(
            c.robots,
            id,
            0,
        ).unwrap()].route_plan is None,
    ensures
        ({
            let d = route_decision(h, c, id, claim_id, start_tick);
            &&& d.kind == ScheduleDecisionKind::Replan
            &&& d.start_tick == start_tick
            &&& d.conflicts.len() == 0
            &&& d.queue_position == 0
        }),
{
}

// ---------------------------------------------------------------------------
// leases of a robot
// ---------------------------------------------------------------------------

proof fn lemma_either_id(ids: Seq<LeaseId>, x: LeaseId)
    requires
        ids.len() > 0,
    ensures
        ids.contains(x) <==> ids.drop_last().contains(x) || ids.last() == x,
{
    let rest = ids.drop_last();
    if ids.contains(x) {
        let k = choose|k: int| 0 <= k < ids.len() && ids[k] == x;
        if k < rest.len() {
            assert(rest[k] == x);
        }
    }
    if rest.contains(x) {
        let k = choose|k: int| 0 <= k < rest.len() && rest[k] == x;
        assert(ids[k] == x);
    }
    assert(ids[ids.len() - 1] == ids.last());
}

/// Prolonging puts off the end of each listed lease that has one by the same time,
/// notes when that was done, and leaves everything else as it was.
pub proof fn lemma_listed_leases_are_prolonged(
    m: ClaimManagerView,
    ids: Seq<LeaseId>,
    tick: u64,
    extension: u64,
)
    requires
        unique_leases(m.leases),
        ids.no_duplicates(),
        forall|i: int|
            0 <= i < m.leases.len() && ids.contains((#[trigger] m.leases[i]).id) ==> (
            m.leases[i].expires_at_tick matches Some(t) ==> t + extension <= u64::MAX),
    ensures
        ({
            let after = refreshed(m, ids, tick, extension);
            &&& after.claims.leases.len() == m.leases.len()
            &&& forall|i: int|
                0 <= i < m.leases.len() ==> {
                    let l = #[trigger] m.leases[i];
                    let r = after.claims.leases[i];
                    &&& r.id == l.id
                    &&& !ids.contains(l.id) ==> r == l
                    &&& ids.contains(l.id) ==> {
                        &&& r.refreshed_at_tick == Some(tick)
                        &&& l.expires_at_tick is None ==> r.expires_at_tick is None
                        &&& l.expires_at_tick matches Some(t) ==> (
                        r.expires_at_tick matches Some(e) && e == t + extension)
                        &&& r.robot_id == l.robot_id
                        &&& r.claim_id == l.claim_id
                        &&& r.targets == l.targets
                        &&& r.active == l.active
                        &&& r.access_mode == l.access_mode
                        &&& r.granted_at_tick == l.granted_at_tick
                    }
                }
            &&& after.claims.requests == m.requests
            &&& after.claims.released == m.released
            &&& after.count <= ids.len()
        }),
    decreases ids.len(),
{
    if ids.len() > 0 {
        let rest = ids.drop_last();
        let id = ids.last();
        assert forall|x: LeaseId| #[trigger] ids.contains(x) <==> rest.contains(x) || x == id by {
            lemma_either_id(ids, x);
        }
        assert(!rest.contains(id)) by {
            if rest.contains(id) {
                let k = choose|k: int| 0 <= k < rest.len() && rest[k] == id;
                assert(ids[k] == ids[ids.len() - 1]);
            }
        }
        assert(rest.no_duplicates());
        lemma_listed_leases_are_prolonged(m, rest, tick, extension);
        let before = refreshed(m, rest, tick, extension);
        let after = refreshed(m, ids, tick, extension);
        lemma_lease_place(before.claims.leases, id, 0);
        assert forall|i: int| 0 <= i < m.leases.len() implies {
            let l = #[trigger] m.leases[i];
            let r = after.claims.leases[i];
            &&& r.id == l.id
            &&& !ids.contains(l.id) ==> r == l
            &&& ids.contains(l.id) ==> {
                &&& r.refreshed_at_tick == Some(tick)
                &&& l.expires_at_tick is None ==> r.expires_at_tick is None
                &&& l.expires_at_tick matches Some(t) ==> (r.expires_at_tick matches Some(e) && e
                    == t + extension)
                &&& r.robot_id == l.robot_id
                &&& r.claim_id == l.claim_id
                &&& r.targets == l.targets
                &&& r.active == l.active
                &&& r.access_mode == l.access_mode
                &&& r.granted_at_tick == l.granted_at_tick
            }
        } by {
            let b = before.claims.leases[i];
            assert(b.id == m.leases[i].id);
            match lease_place(before.claims.leases, id, 0) {
                None => {
                    assert(b.id != id);
                },
                Some(p) => {
                    assert(before.claims.leases[p].id == m.leases[p].id);
                    if i != p {
                        if i < p {
                            assert(m.leases[i].id != m.leases[p].id);
                        } else {
                            assert(m.leases[p].id != m.leases[i].id);
                        }
                    }
                },
            }
        }
    }
}

/// Taking leases back takes exactly the listed ones, keeps the others as they
/// were, and puts each one aside with the reason and the tick.
pub proof fn lemma_listed_leases_are_taken_back(
    m: ClaimManagerView,
    ids: Seq<LeaseId>,
    reason: Seq<char>,
    tick: u64,
)
    requires
        unique_leases(m.leases),
    ensures
        ({
            let after = revoked(m, ids, reason, tick);
            &&& unique_leases(after.claims.leases)
            &&& forall|l: LeaseView| #[trigger]
                after.claims.leases.contains(l) <==> m.leases.contains(l) && !ids.contains(l.id)
            &&& forall|l: LeaseView|
                m.leases.contains(l) && ids.contains(l.id)
                    ==> #[trigger] after.claims.released.contains(revoked_lease(l, reason, tick))
            &&& forall|l: LeaseView|
                m.released.contains(l) ==> #[trigger] after.claims.released.contains(l)
            &&& after.claims.leases.len() + after.count == m.leases.len()
            &&& after.claims.released.len() == m.released.len() + after.count
            &&& after.claims.requests == m.requests
        }),
    decreases ids.len(),
{
    if ids.len() > 0 {
        let rest = ids.drop_last();
        let id = ids.last();
        assert forall|x: LeaseId| #[trigger] ids.contains(x) <==> rest.contains(x) || x == id by {
            lemma_either_id(ids, x);
        }
        lemma_listed_leases_are_taken_back(m, rest, reason, tick);
        let before = revoked(m, rest, reason, tick);
        let after = revoked(m, ids, reason, tick);
        let held = before.claims.leases;
        lemma_lease_place(held, id, 0);
        match lease_place(held, id, 0) {
            None => {
                assert forall|l: LeaseView| m.leases.contains(l) && l.id == id implies rest.contains(
                    id,
                ) by {
                    if !rest.contains(id) {
                        assert(held.contains(l));
                        let k = choose|k: int| 0 <= k < held.len() && held[k] == l;
                        assert(held[k].id == id);
                    }
                }
            },
            Some(i) => {
                let l = held[i];
                let now = after.claims.leases;
                assert(now == held.remove(i));
                assert(held.contains(l));
                let p = choose|p: int| 0 <= p < m.leases.len() && m.leases[p] == l;
                assert forall|x: LeaseView| m.leases.contains(x) && x.id == id implies x == l by {
                    let q = choose|q: int| 0 <= q < m.leases.len() && m.leases[q] == x;
                    assert(q == p);
                }
                assert forall|x: LeaseView| #[trigger] now.contains(x) <==> held.contains(x) && x
                    != l by {
                    if now.contains(x) {
                        let k = choose|k: int| 0 <= k < now.len() && now[k] == x;
                        if k < i {
                            assert(held[k] == x);
                        } else {
                            assert(held[k + 1] == x);
                        }
                    }
                    if held.contains(x) && x != l {
                        let k = choose|k: int| 0 <= k < held.len() && held[k] == x;
                        if k < i {
                            assert(now[k] == x);
                        } else {
                            assert(now[k - 1] == x);
                        }
                    }
                }
                let aside = before.claims.released;
                let more = after.claims.released;
                assert(more == aside.push(revoked_lease(l, reason, tick)));
                assert(more[aside.len() as int] == revoked_lease(l, reason, tick));
                assert forall|x: LeaseView| #[trigger] aside.contains(x) implies more.contains(
                    x,
                ) by {
                    let k = choose|k: int| 0 <= k < aside.len() && aside[k] == x;
                    assert(more[k] == x);
                }
                assert forall|x: LeaseView|
                    m.leases.contains(x) && ids.contains(x.id) implies #[trigger] more.contains(
                    revoked_lease(x, reason, tick),
                ) by {
                    if rest.contains(x.id) {
                        assert(aside.contains(revoked_lease(x, reason, tick)));
                    }
                }
                assert forall|x: LeaseView| m.released.contains(x) implies #[trigger] more.contains(
                    x,
                ) by {
                    assert(aside.contains(x));
                }
            },
        }
    }
}

/// What a lease looks like that has been taken back.
pub open spec fn revoked_lease(l: LeaseView, reason: Seq<char>, tick: u64) -> LeaseView {
    LeaseView {
        active: false,
        disposition: LeaseDisposition::Revoked,
        released_at_tick: Some(tick),
        revoked_at_tick: Some(tick),
        revoke_reason: Some(reason),
        ..l
    }
}

/// A robot whose leases are taken back holds none, is held for the reason that is
/// given, and has to plan anew exactly if it held any. Its route and where it is
/// stay.
pub proof fn lemma_robot_without_leases(
    s: RobotStateView,
    reason: Seq<char>,
    tick: u64,
    count: nat,
)
    ensures
        ({
            let after = dispossessed(s, reason, tick, count);
            &&& after.active_lease_ids.len() == 0
            &&& after.progress_state == RobotProgressState::Replanning
            &&& after.hold_reason == Some(reason)
            &&& after.updated_at_tick == tick
            &&& after.needs_replan <==> count >= 1
            &&& after.route_plan == s.route_plan
            &&& after.current_node_id == s.current_node_id
            &&& after.pending_claim_ids == s.pending_claim_ids
            &&& after.robot_id == s.robot_id
        }),
{
}

/// A robot that has missed its slot has to plan anew, and holds what it held.
pub proof fn lemma_late_robot_plans_anew(s: RobotStateView, tick: u64)
    ensures
        ({
            let after = late(s, tick);
            &&& after.needs_replan
            &&& after.progress_state == RobotProgressState::Replanning
            &&& after.hold_reason == Some("missed_reservation_window"@)
            &&& after.updated_at_tick == tick
            &&& after.active_lease_ids == s.active_lease_ids
            &&& after.route_plan == s.route_plan
            &&& after.scheduled_start_tick == s.scheduled_start_tick
            &&& after.robot_id == s.robot_id
        }),
{
}

// ---------------------------------------------------------------------------
// the fleet
// ---------------------------------------------------------------------------

/// A robot is registered exactly if it has a key or is among the robots.
pub proof fn lemma_when_a_robot_is_registered(c: CoordinatorView, id: RobotId)
    ensures
        is_registered(c, id) <==> c.keys.dom().contains(id.0) || exists|i: int|
            0 <= i < c.robots.len() && (#[trigger] c.robots[i]).robot_id == id,
{
    lemma_robot_place(c.robots, id, 0);
}

/// A robot that registers joins behind the others, with nothing assigned, and the
/// universally unique identifier that is pending for it, if any, stands for it
/// from then on. Claims, signs of life and other bindings stay as they are.
pub proof fn lemma_registration_touches_nothing_else(
    c: CoordinatorView,
    id: RobotId,
    key: KeyView,
    u: Uuid,
    other: u64,
)
    ensures
        ({
            let after = registered(c, id, key);
            &&& after.robots.len() == c.robots.len() + 1
            &&& after.robots.drop_last() == c.robots
            &&& after.robots.last().robot_id == id
            &&& after.robots.last().route_plan is None
            &&& after.robots.last().active_lease_ids.len() == 0
            &&& after.robots.last().pending_claim_ids.len() == 0
            &&& after.claims == c.claims
            &&& after.alive == c.alive
            &&& after.next_synthetic == c.next_synthetic
            &&& after.workspace == c.workspace
            &&& !after.pending.dom().contains(id.0)
            &&& c.pending.dom().contains(id.0) && c.pending[id.0] == u
                ==> after.by_uuid.dom().contains(u) && after.by_uuid[u] == id.0
            &&& !(c.pending.dom().contains(id.0) && c.pending[id.0] == u)
                ==> after.by_uuid.dom().contains(u) == c.by_uuid.dom().contains(u) && (
            c.by_uuid.dom().contains(u) ==> after.by_uuid[u] == c.by_uuid[u])
            &&& other != id.0 ==> after.pending.dom().contains(other) == c.pending.dom().contains(
                other,
            )
        }),
{
    let after = registered(c, id, key);
    assert(after.robots.drop_last() =~= c.robots);
}

/// A robot that leaves takes nothing of the others with it: their states, keys,
/// signs of life and identifiers stay, and so does what they claim and hold.
pub proof fn lemma_leaving_touches_nobody_else(c: CoordinatorView, i: int, other: RobotId, u: Uuid)
    requires
        0 <= i < c.robots.len(),
        other != c.robots[i].robot_id,
    ensures
        ({
            let after = unregistered(c, i);
            &&& after.robots == c.robots.take(i) + c.robots.skip(i + 1)
            &&& after.keys.dom().contains(other.0) == c.keys.dom().contains(other.0)
            &&& c.keys.dom().contains(other.0) ==> after.keys[other.0] == c.keys[other.0]
            &&& after.alive.dom().contains(other.0) == c.alive.dom().contains(other.0)
            &&& c.alive.dom().contains(other.0) ==> after.alive[other.0] == c.alive[other.0]
            &&& c.by_uuid.dom().contains(u) && c.by_uuid[u] == other.0
                ==> after.by_uuid.dom().contains(u) && after.by_uuid[u] == other.0
            &&& forall|l: LeaseView|
                c.claims.leases.contains(l) && l.robot_id != c.robots[i].robot_id
                    ==> #[trigger] after.claims.leases.contains(l)
            &&& forall|r: crate::claim::ClaimRequestView|
                c.claims.requests.contains(r) && r.robot_id != c.robots[i].robot_id
                    ==> #[trigger] after.claims.requests.contains(r)
            &&& after.next_synthetic == c.next_synthetic
            &&& after.pending == c.pending
        }),
{
    let id = c.robots[i].robot_id;
    let tick = Some(c.robots[i].updated_at_tick);
    let after = unregistered(c, i);
    assert(after.robots =~= c.robots.take(i) + c.robots.skip(i + 1));
    crate::claim::laws::lemma_requests_of_others(c.claims.requests, id);
    assert forall|l: LeaseView|
        c.claims.leases.contains(l) && l.robot_id
            != id implies #[trigger] after.claims.leases.contains(l) by {
        crate::claim::answers::lemma_which_leases_a_robot_lets_go(c.claims.leases, id, tick, l);
    }
}

} // verus!
