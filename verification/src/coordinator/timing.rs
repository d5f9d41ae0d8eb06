//! What decisions on routes come to, in terms of what policy states of the
//! resources and of who holds them when.

use super::schedule::{
    clear_after, conflicts_with_leases, conflicts_with_requests, decided, decision_for, meets_any,
    missed_slot, request_conflict, route_conflicts, span, ScheduleConflictView, ScheduleDecisionKind,
    ScheduleDecisionView,
};
use super::targets::{
    node_target, route_windows, target_semantics, targets_meet, ticks_fit, ticks_for, windows_at,
    windows_upto, ScheduledTargetWindowView,
};
use crate::claim::manager::ClaimManagerView;
use crate::claim::{
    ClaimRequestView, ClaimTarget, ClaimTargetKind, ClaimWindow, LeaseView,
};
use crate::guid::Uuid;
use crate::ids::ClaimId;
use crate::index::tables::{edge_at, node_at, policy_at, zone_parents};
use crate::index::walks::is_ancestor;
use crate::index::{edge_policies, node_policies, policies_named};
use crate::number::{Real, ONE_BITS};
use crate::policy::merge::restricted_semantics;
use crate::policy::{ZonePolicyKind, ZonePolicyView};
use crate::robot::{RobotProgressState, RobotStateView};
use crate::route::assemble::shape_error;
use crate::route::RoutePlanView;
use crate::workspace::Workspace;
use vstd::prelude::*;

verus! {

// ---------------------------------------------------------------------------
// what is said of a target
// ---------------------------------------------------------------------------

/// What is said of a claim on a zone is what its policy states. Waiting is
/// allowed unless it states otherwise, and so is stopping unless the zone is
/// blocked.
pub proof fn lemma_claimed_zone(ws: &Workspace, id: Uuid)
    ensures
        ({
            let s = target_semantics(
                ws,
                ClaimTarget { kind: ClaimTargetKind::Zone, resource_id: id },
            );
            match policy_at(ws, id) {
                Some(p) => {
                    &&& s.requires_claim == p.requires_claim
                    &&& s.waiting_allowed <==> p.waiting_allowed != Some(false)
                    &&& p.stop_allowed is Some ==> s.stop_allowed == p.stop_allowed.unwrap()
                    &&& p.stop_allowed is None ==> (s.stop_allowed <==> p.blocked != Some(true))
                    &&& s.blocked <==> p.blocked == Some(true) || p.blocks_entry_without_grant
                        || p.blocks_traversal_without_grant
                    &&& s.corridor <==> p.kind == ZonePolicyKind::Corridor
                    &&& s.slowdown <==> p.kind == ZonePolicyKind::Slowdown || (p.speed_limit
                        matches Some(n) && n.value.less_than(Real { bits: ONE_BITS }))
                    &&& s.schedule_window == p.schedule_window
                    &&& s.access_group == p.access_group
                },
                None => s.waiting_allowed && s.stop_allowed && !s.blocked && !s.corridor
                    && !s.slowdown && !s.requires_claim && s.schedule_window is None
                    && s.access_group is None,
            }
        }),
{
}

/// What is said of a claim on an edge is what its properties and the zones around
/// it come to.
pub proof fn lemma_claimed_edge(ws: &Workspace, id: Uuid)
    ensures
        ({
            let t = target_semantics(
                ws,
                ClaimTarget { kind: ClaimTargetKind::Edge, resource_id: id },
            );
            match edge_at(ws, id) {
                Some(e) => {
                    let s = restricted_semantics(e.properties@, false, edge_policies(ws, id));
                    &&& t.requires_claim <==> s.requires_claim == Some(true)
                    &&& t.waiting_allowed <==> s.waiting_allowed != Some(false)
                    &&& s.stop_allowed is Some ==> t.stop_allowed == s.stop_allowed.unwrap()
                    &&& s.stop_allowed is None ==> (t.stop_allowed <==> s.blocked != Some(true))
                    &&& t.blocked <==> s.blocked == Some(true)
                    &&& t.corridor <==> s.lane_type == Some("corridor"@)
                    &&& t.slowdown <==> (s.speed_limit matches Some(n) && n.value.less_than(
                        Real { bits: ONE_BITS },
                    ))
                    &&& t.schedule_window == s.schedule_window
                    &&& t.access_group == s.access_group
                },
                None => t.waiting_allowed && t.stop_allowed && !t.blocked && !t.corridor
                    && !t.slowdown && !t.requires_claim && t.schedule_window is None
                    && t.access_group is None,
            }
        }),
{
}

/// Whether a zone that a node lists has a policy of which something holds.
pub open spec fn some_zone(
    ws: &Workspace,
    ids: Seq<Uuid>,
    holds: spec_fn(ZonePolicyView) -> bool,
) -> bool {
    exists|i: int|
        0 <= i < ids.len() && (policy_at(ws, #[trigger] ids[i]) matches Some(p) && holds(p))
}

proof fn lemma_some_policy(
    ws: &Workspace,
    ids: Seq<Uuid>,
    holds: spec_fn(ZonePolicyView) -> bool,
)
    ensures
        some_zone(ws, ids, holds) <==> exists|k: int|
            0 <= k < policies_named(ws, ids).len() && holds(#[trigger] policies_named(ws, ids)[k]),
    decreases ids.len(),
{
    if ids.len() > 0 {
        let rest = ids.drop_last();
        let before = policies_named(ws, rest);
        let after = policies_named(ws, ids);
        lemma_some_policy(ws, rest, holds);
        if some_zone(ws, ids, holds) {
            let i = choose|i: int|
                0 <= i < ids.len() && (policy_at(ws, #[trigger] ids[i]) matches Some(p) && holds(
                    p,
                ));
            if i < rest.len() {
                assert(rest[i] == ids[i]);
                assert(some_zone(ws, rest, holds));
                let k = choose|k: int| 0 <= k < before.len() && holds(#[trigger] before[k]);
                assert(after[k] == before[k]);
            } else {
                assert(holds(after[after.len() - 1]));
            }
        }
        if exists|k: int| 0 <= k < after.len() && holds(#[trigger] after[k]) {
            let k = choose|k: int| 0 <= k < after.len() && holds(#[trigger] after[k]);
            if k < before.len() {
                assert(before[k] == after[k]);
                let i = choose|i: int|
                    0 <= i < rest.len() && (policy_at(ws, #[trigger] rest[i]) matches Some(p)
                        && holds(p));
                assert(ids[i] == rest[i]);
            } else {
                assert(ids[ids.len() - 1] == ids.last());
            }
        }
    }
}

/// Whether a policy is for slow traffic or states a speed limit below one.
pub open spec fn slows(p: ZonePolicyView) -> bool {
    p.kind == ZonePolicyKind::Slowdown || (p.speed_limit matches Some(n) && n.value.less_than(
        Real { bits: ONE_BITS },
    ))
}

proof fn lemma_node_target(target: ClaimTarget, zones: Seq<ZonePolicyView>)
    ensures
        ({
            let s = node_target(target, zones);
            &&& s.requires_claim <==> exists|k: int|
                0 <= k < zones.len() && (#[trigger] zones[k]).requires_claim
            &&& !s.waiting_allowed <==> exists|k: int|
                0 <= k < zones.len() && (#[trigger] zones[k]).waiting_allowed == Some(false)
            &&& !s.stop_allowed <==> exists|k: int|
                0 <= k < zones.len() && (#[trigger] zones[k]).stop_allowed == Some(false)
            &&& s.blocked <==> exists|k: int|
                0 <= k < zones.len() && ((#[trigger] zones[k]).blocked == Some(true)
                    || zones[k].blocks_entry_without_grant
                    || zones[k].blocks_traversal_without_grant)
            &&& s.corridor <==> exists|k: int|
                0 <= k < zones.len() && (#[trigger] zones[k]).kind == ZonePolicyKind::Corridor
            &&& s.slowdown <==> exists|k: int|
                0 <= k < zones.len() && slows(#[trigger] zones[k])
            &&& s.target == target
        }),
    decreases zones.len(),
{
    if zones.len() > 0 {
        let rest = zones.drop_last();
        lemma_node_target(target, rest);
        assert forall|k: int| 0 <= k < rest.len() implies #[trigger] rest[k] == zones[k] by {}
        assert(zones[zones.len() - 1] == zones.last());
        assert forall|k: int| 0 <= k < zones.len() implies #[trigger] zones[k] == zones.last()
            || (k < rest.len() && zones[k] == rest[k]) by {}
    }
}

/// What is said of a claim on a node is what the zones that it lists state: each
/// of them can only restrict it.
pub proof fn lemma_claimed_node(ws: &Workspace, id: Uuid)
    ensures
        ({
            let s = target_semantics(
                ws,
                ClaimTarget { kind: ClaimTargetKind::Node, resource_id: id },
            );
            let zones = match node_at(ws, id) {
                Some(n) => n.zone_ids@,
                None => Seq::empty(),
            };
            &&& s.requires_claim <==> some_zone(ws, zones, |p: ZonePolicyView| p.requires_claim)
            &&& !s.waiting_allowed <==> some_zone(
                ws,
                zones,
                |p: ZonePolicyView| p.waiting_allowed == Some(false),
            )
            &&& !s.stop_allowed <==> some_zone(
                ws,
                zones,
                |p: ZonePolicyView| p.stop_allowed == Some(false),
            )
            &&& s.blocked <==> some_zone(
                ws,
                zones,
                |p: ZonePolicyView|
                    p.blocked == Some(true) || p.blocks_entry_without_grant
                        || p.blocks_traversal_without_grant,
            )
            &&& s.corridor <==> some_zone(
                ws,
                zones,
                |p: ZonePolicyView| p.kind == ZonePolicyKind::Corridor,
            )
            &&& s.slowdown <==> some_zone(ws, zones, |p: ZonePolicyView| slows(p))
        }),
{
    let zones = match node_at(ws, id) {
        Some(n) => n.zone_ids@,
        None => Seq::empty(),
    };
    let target = ClaimTarget { kind: ClaimTargetKind::Node, resource_id: id };
    lemma_node_target(target, node_policies(ws, id));
    lemma_some_policy(ws, zones, |p: ZonePolicyView| p.requires_claim);
    lemma_some_policy(ws, zones, |p: ZonePolicyView| p.waiting_allowed == Some(false));
    lemma_some_policy(ws, zones, |p: ZonePolicyView| p.stop_allowed == Some(false));
    lemma_some_policy(
        ws,
        zones,
        |p: ZonePolicyView|
            p.blocked == Some(true) || p.blocks_entry_without_grant
                || p.blocks_traversal_without_grant,
    );
    lemma_some_policy(ws, zones, |p: ZonePolicyView| p.kind == ZonePolicyKind::Corridor);
    lemma_some_policy(ws, zones, |p: ZonePolicyView| slows(p));
}

proof fn lemma_first_statement(target: ClaimTarget, zones: Seq<ZonePolicyView>, i: int)
    ensures
        ({
            let s = node_target(target, zones);
            &&& 0 <= i < zones.len() && zones[i].schedule_window is Some && (forall|j: int|
                0 <= j < i ==> (#[trigger] zones[j]).schedule_window is None)
                ==> s.schedule_window == zones[i].schedule_window
            &&& (forall|j: int| 0 <= j < zones.len() ==> (#[trigger] zones[j]).schedule_window
                is None) ==> s.schedule_window is None
            &&& 0 <= i < zones.len() && zones[i].access_group is Some && (forall|j: int|
                0 <= j < i ==> (#[trigger] zones[j]).access_group is None) ==> s.access_group
                == zones[i].access_group
            &&& (forall|j: int| 0 <= j < zones.len() ==> (#[trigger] zones[j]).access_group
                is None) ==> s.access_group is None
        }),
    decreases zones.len(),
{
    if zones.len() > 0 {
        let rest = zones.drop_last();
        lemma_first_statement(target, rest, i);
        assert forall|k: int| 0 <= k < rest.len() implies #[trigger] rest[k] == zones[k] by {}
        assert(zones[zones.len() - 1] == zones.last());
    }
}

/// When a claim on a node is for and who has access is what the first of the
/// zones around it says that says anything.
pub proof fn lemma_first_zone_speaks_for_a_node(ws: &Workspace, id: Uuid, i: int)
    ensures
        ({
            let zones = node_policies(ws, id);
            let s = target_semantics(
                ws,
                ClaimTarget { kind: ClaimTargetKind::Node, resource_id: id },
            );
            &&& 0 <= i < zones.len() && zones[i].schedule_window is Some && (forall|j: int|
                0 <= j < i ==> (#[trigger] zones[j]).schedule_window is None)
                ==> s.schedule_window == zones[i].schedule_window
            &&& (forall|j: int| 0 <= j < zones.len() ==> (#[trigger] zones[j]).schedule_window
                is None) ==> s.schedule_window is None
            &&& 0 <= i < zones.len() && zones[i].access_group is Some && (forall|j: int|
                0 <= j < i ==> (#[trigger] zones[j]).access_group is None) ==> s.access_group
                == zones[i].access_group
            &&& (forall|j: int| 0 <= j < zones.len() ==> (#[trigger] zones[j]).access_group
                is None) ==> s.access_group is None
        }),
{
    lemma_first_statement(
        ClaimTarget { kind: ClaimTargetKind::Node, resource_id: id },
        node_policies(ws, id),
        i,
    );
}

// ---------------------------------------------------------------------------
// decisions
// ---------------------------------------------------------------------------

/// A route is queued exactly if something stands in its way, and waiting and
/// stopping are allowed on all of it, none of it is closed, and none is a
/// corridor. Otherwise it goes if nothing stands in its way, and has to be
/// planned anew if something does.
pub proof fn lemma_queued_only_where_waiting_is_allowed(
    ws: &Workspace,
    start_tick: u64,
    conflicts: Seq<ScheduleConflictView>,
)
    ensures
        ({
            let d = decision_for(ws, start_tick, conflicts);
            let free = forall|i: int|
                0 <= i < conflicts.len() ==> {
                    let s = target_semantics(ws, (#[trigger] conflicts[i]).target);
                    s.waiting_allowed && s.stop_allowed && !s.blocked && !s.corridor
                };
            &&& d.kind == ScheduleDecisionKind::Queue <==> conflicts.len() > 0 && free
            &&& d.kind == ScheduleDecisionKind::Replan <==> conflicts.len() > 0 && !free
            &&& d.kind == ScheduleDecisionKind::Proceed <==> conflicts.len() == 0
            &&& d.conflicts == conflicts
        }),
{
    let d = decision_for(ws, start_tick, conflicts);
    if d.kind == ScheduleDecisionKind::Queue {
        assert forall|i: int| 0 <= i < conflicts.len() implies {
            let s = target_semantics(ws, (#[trigger] conflicts[i]).target);
            s.waiting_allowed && s.stop_allowed && !s.blocked && !s.corridor
        } by {
            assert(super::schedule::can_wait_for(target_semantics(ws, conflicts[i].target)));
        }
    }
}

/// A zone on which stopping or waiting is not allowed, that is blocked, that
/// keeps traffic without a grant out, or that is a corridor is never queued for.
pub proof fn lemma_never_queued_in_such_a_zone(
    ws: &Workspace,
    start_tick: u64,
    conflicts: Seq<ScheduleConflictView>,
    i: int,
    p: ZonePolicyView,
)
    requires
        0 <= i < conflicts.len(),
        conflicts[i].target.kind == ClaimTargetKind::Zone,
        policy_at(ws, conflicts[i].target.resource_id) == Some(p),
        p.stop_allowed == Some(false) || p.waiting_allowed == Some(false) || p.kind
            == ZonePolicyKind::Corridor || p.blocked == Some(true) || p.blocks_entry_without_grant
            || p.blocks_traversal_without_grant,
    ensures
        decision_for(ws, start_tick, conflicts).kind == ScheduleDecisionKind::Replan,
        decision_for(ws, start_tick, conflicts).start_tick == start_tick,
        decision_for(ws, start_tick, conflicts).queue_position == 0,
{
    lemma_claimed_zone(ws, conflicts[i].target.resource_id);
    lemma_queued_only_where_waiting_is_allowed(ws, start_tick, conflicts);
}

proof fn lemma_clear_after_is_met(start_tick: u64, conflicts: Seq<ScheduleConflictView>)
    ensures
        clear_after(start_tick, conflicts) == start_tick || exists|i: int|
            0 <= i < conflicts.len() && (#[trigger] conflicts[i]).blocking_until_tick
                == clear_after(start_tick, conflicts),
        clear_after(start_tick, conflicts) >= start_tick,
        forall|i: int|
            0 <= i < conflicts.len() ==> (#[trigger] conflicts[i]).blocking_until_tick
                <= clear_after(start_tick, conflicts),
    decreases conflicts.len(),
{
    if conflicts.len() > 0 {
        let rest = conflicts.drop_last();
        lemma_clear_after_is_met(start_tick, rest);
        let c = clear_after(start_tick, conflicts);
        if c != start_tick {
            if c == conflicts.last().blocking_until_tick {
                assert(conflicts[conflicts.len() - 1].blocking_until_tick == c);
            } else {
                let i = choose|i: int|
                    0 <= i < rest.len() && (#[trigger] rest[i]).blocking_until_tick == c;
                assert(conflicts[i] == rest[i]);
            }
        }
        assert forall|i: int|
            0 <= i < conflicts.len() implies (#[trigger] conflicts[i]).blocking_until_tick
            <= c by {
            if i < rest.len() {
                assert(rest[i] == conflicts[i]);
            }
        }
    }
}

/// A queued route sets out on the first tick behind all that stands in its way,
/// and takes the place behind that. A route that is not queued keeps its tick.
pub proof fn lemma_queued_behind_everything(
    ws: &Workspace,
    start_tick: u64,
    conflicts: Seq<ScheduleConflictView>,
)
    ensures
        ({
            let d = decision_for(ws, start_tick, conflicts);
            if d.kind == ScheduleDecisionKind::Queue {
                &&& d.start_tick == u64::MAX || (d.start_tick > start_tick && forall|i: int|
                    0 <= i < conflicts.len() ==> (#[trigger] conflicts[i]).blocking_until_tick
                        < d.start_tick)
                &&& d.start_tick == u64::MAX || d.start_tick == start_tick + 1 || exists|i: int|
                    0 <= i < conflicts.len() && (#[trigger] conflicts[i]).blocking_until_tick + 1
                        == d.start_tick
                &&& d.start_tick == u64::MAX ==> start_tick >= u64::MAX - 1 || exists|i: int|
                    0 <= i < conflicts.len() && (#[trigger] conflicts[i]).blocking_until_tick
                        >= u64::MAX - 1
                &&& conflicts.len() < u64::MAX ==> d.queue_position == conflicts.len() + 1
            } else {
                d.start_tick == start_tick && d.queue_position == 0
            }
        }),
{
    lemma_clear_after_is_met(start_tick, conflicts);
}

/// A robot takes over what is decided of its route: it goes, waits in line for
/// its tick, or looks for another route, and only in the last case needs one.
pub proof fn lemma_robot_follows_decision(
    s: RobotStateView,
    d: ScheduleDecisionView,
    now: u64,
)
    ensures
        ({
            let after = decided(s, d, now);
            &&& after.updated_at_tick == now
            &&& after.scheduled_start_tick == Some(d.start_tick)
            &&& d.start_tick >= now ==> now + after.wait_ticks == d.start_tick
            &&& d.start_tick < now ==> after.wait_ticks == 0
            &&& after.needs_replan <==> d.kind == ScheduleDecisionKind::Replan
            &&& d.kind == ScheduleDecisionKind::Proceed ==> after.hold_reason is None
            &&& d.kind == ScheduleDecisionKind::Proceed && s.route_plan is Some
                ==> after.progress_state == RobotProgressState::FollowingRoute
            &&& d.kind == ScheduleDecisionKind::Proceed && s.route_plan is None
                ==> after.progress_state == RobotProgressState::Idle
            &&& d.kind == ScheduleDecisionKind::Queue ==> after.progress_state
                == RobotProgressState::Queued && after.hold_reason == Some(
                "queued_for_reservation_window"@,
            )
            &&& d.kind == ScheduleDecisionKind::Replan ==> after.progress_state
                == RobotProgressState::Replanning && after.hold_reason == Some(
                "schedule_conflict_requires_replan"@,
            )
            &&& after.robot_id == s.robot_id
            &&& after.route_plan == s.route_plan
            &&& after.active_lease_ids == s.active_lease_ids
            &&& after.pending_claim_ids == s.pending_claim_ids
            &&& after.current_node_id == s.current_node_id
            &&& after.next_route_step_index == s.next_route_step_index
            &&& after.reserved_until_tick == s.reserved_until_tick
            &&& after.horizon == s.horizon
        }),
{
}

/// A slot is missed once its tick and the time of grace are over, by a robot that
/// is neither under way nor idle, and stays missed. A robot without a slot misses
/// none.
pub proof fn lemma_when_a_slot_is_missed(s: RobotStateView, now: u64, later: u64, grace: u64)
    ensures
        s.scheduled_start_tick is None ==> !missed_slot(s, now, grace),
        s.progress_state == RobotProgressState::FollowingRoute || s.progress_state
            == RobotProgressState::Idle ==> !missed_slot(s, now, grace),
        s.scheduled_start_tick is Some && s.progress_state != RobotProgressState::FollowingRoute
            && s.progress_state != RobotProgressState::Idle ==> (missed_slot(s, now, grace) <==> now
            - s.scheduled_start_tick.unwrap() > grace),
        missed_slot(s, now, grace) && later >= now ==> missed_slot(s, later, grace),
{
}

// ---------------------------------------------------------------------------
// what stands in the way
// ---------------------------------------------------------------------------

/// Two claims meet exactly if their times do, they are of one kind, and they are
/// on the same resource or on zones of which one is around the other.
pub proof fn lemma_when_claims_meet(
    l: ClaimTarget,
    lw: ClaimWindow,
    r: ClaimTarget,
    rw: ClaimWindow,
    ws: Option<Workspace>,
)
    ensures
        ({
            let apart = (lw.end_tick matches Some(e) && rw.start_tick matches Some(s) && e < s) || (
            rw.end_tick matches Some(e) && lw.start_tick matches Some(s) && e < s);
            let same = l.resource_id == r.resource_id;
            let nested = ws matches Some(w) && l.kind == ClaimTargetKind::Zone && (is_ancestor(
                zone_parents(&w),
                l.resource_id,
                r.resource_id,
            ) || is_ancestor(zone_parents(&w), r.resource_id, l.resource_id));
            targets_meet(l, lw, r, rw, ws) <==> !apart && l.kind == r.kind && (same || nested)
        }),
{
}

/// Whether a target of a route meets a claimed one.
pub open spec fn in_the_way(
    w: ScheduledTargetWindowView,
    targets: Seq<ClaimTarget>,
    window: ClaimWindow,
    ws: Option<Workspace>,
) -> bool {
    exists|j: int|
        0 <= j < targets.len() && targets_meet(
            w.semantics.target,
            ClaimWindow { start_tick: Some(w.start_tick), end_tick: Some(w.end_tick) },
            #[trigger] targets[j],
            window,
            ws,
        )
}

proof fn lemma_request_conflicts(
    w: ScheduledTargetWindowView,
    id: ClaimId,
    requests: Seq<ClaimRequestView>,
    ws: Option<Workspace>,
)
    ensures
        conflicts_with_requests(w, id, requests, ws).len() > 0 <==> exists|i: int|
            0 <= i < requests.len() && (#[trigger] requests[i]).id != id && in_the_way(
                w,
                requests[i].targets,
                requests[i].window,
                ws,
            ),
        forall|c: ScheduleConflictView| #[trigger]
            conflicts_with_requests(w, id, requests, ws).contains(c) ==> c.target
                == w.semantics.target && c.conflicting_lease_id is None && exists|i: int|
                0 <= i < requests.len() && (#[trigger] requests[i]).id != id && in_the_way(
                    w,
                    requests[i].targets,
                    requests[i].window,
                    ws,
                ) && c.conflicting_claim_id == Some(requests[i].id) && c.blocking_until_tick == (
                match requests[i].window.end_tick {
                    Some(t) => t,
                    None => w.end_tick,
                }),
    decreases requests.len(),
{
    if requests.len() > 0 {
        let rest = requests.drop_last();
        let last = requests.last();
        lemma_request_conflicts(w, id, rest, ws);
        let before = conflicts_with_requests(w, id, rest, ws);
        let after = conflicts_with_requests(w, id, requests, ws);
        assert(meets_any(w, last.targets, last.window, ws) <==> in_the_way(
            w,
            last.targets,
            last.window,
            ws,
        )) by {
            assert(span(w) == (ClaimWindow {
                start_tick: Some(w.start_tick),
                end_tick: Some(w.end_tick),
            }));
        }
        assert(requests[requests.len() - 1] == last);
        assert forall|i: int| 0 <= i < rest.len() implies #[trigger] rest[i] == requests[i] by {}
        if exists|i: int|
            0 <= i < requests.len() && (#[trigger] requests[i]).id != id && in_the_way(
                w,
                requests[i].targets,
                requests[i].window,
                ws,
            ) {
            let i = choose|i: int|
                0 <= i < requests.len() && (#[trigger] requests[i]).id != id && in_the_way(
                    w,
                    requests[i].targets,
                    requests[i].window,
                    ws,
                );
            if i < rest.len() {
                assert(rest[i] == requests[i]);
            }
        }
        assert forall|c: ScheduleConflictView| #[trigger] after.contains(c) implies c.target
            == w.semantics.target && c.conflicting_lease_id is None && exists|i: int|
            0 <= i < requests.len() && (#[trigger] requests[i]).id != id && in_the_way(
                w,
                requests[i].targets,
                requests[i].window,
                ws,
            ) && c.conflicting_claim_id == Some(requests[i].id) && c.blocking_until_tick == (
            match requests[i].window.end_tick {
                Some(t) => t,
                None => w.end_tick,
            }) by {
            let k = choose|k: int| 0 <= k < after.len() && after[k] == c;
            if k < before.len() {
                assert(before[k] == c);
                assert(before.contains(c));
                let i = choose|i: int|
                    0 <= i < rest.len() && (#[trigger] rest[i]).id != id && in_the_way(
                        w,
                        rest[i].targets,
                        rest[i].window,
                        ws,
                    ) && c.conflicting_claim_id == Some(rest[i].id) && c.blocking_until_tick == (
                    match rest[i].window.end_tick {
                        Some(t) => t,
                        None => w.end_tick,
                    });
                assert(requests[i] == rest[i]);
            } else {
                assert(c == request_conflict(w, last));
            }
        }
    }
}

proof fn lemma_lease_conflicts(
    w: ScheduledTargetWindowView,
    leases: Seq<LeaseView>,
    ws: Option<Workspace>,
)
    ensures
        conflicts_with_leases(w, leases, ws).len() > 0 <==> exists|i: int|
            0 <= i < leases.len() && (#[trigger] leases[i]).active && in_the_way(
                w,
                leases[i].targets,
                ClaimWindow {
                    start_tick: leases[i].granted_at_tick,
                    end_tick: leases[i].expires_at_tick,
                },
                ws,
            ),
        forall|c: ScheduleConflictView| #[trigger]
            conflicts_with_leases(w, leases, ws).contains(c) ==> c.target == w.semantics.target
                && c.conflicting_claim_id is None && exists|i: int|
                0 <= i < leases.len() && (#[trigger] leases[i]).active && c.conflicting_lease_id
                    == Some(leases[i].id) && c.blocking_until_tick == (
                match leases[i].expires_at_tick {
                    Some(t) => t,
                    None => w.end_tick,
                }),
    decreases leases.len(),
{
    if leases.len() > 0 {
        let rest = leases.drop_last();
        let last = leases.last();
        lemma_lease_conflicts(w, rest, ws);
        let before = conflicts_with_leases(w, rest, ws);
        let after = conflicts_with_leases(w, leases, ws);
        let window = ClaimWindow {
            start_tick: last.granted_at_tick,
            end_tick: last.expires_at_tick,
        };
        assert(meets_any(w, last.targets, window, ws) <==> in_the_way(
            w,
            last.targets,
            window,
            ws,
        )) by {
            assert(span(w) == (ClaimWindow {
                start_tick: Some(w.start_tick),
                end_tick: Some(w.end_tick),
            }));
        }
        assert(leases[leases.len() - 1] == last);
        assert forall|i: int| 0 <= i < rest.len() implies #[trigger] rest[i] == leases[i] by {}
        if exists|i: int|
            0 <= i < leases.len() && (#[trigger] leases[i]).active && in_the_way(
                w,
                leases[i].targets,
                ClaimWindow {
                    start_tick: leases[i].granted_at_tick,
                    end_tick: leases[i].expires_at_tick,
                },
                ws,
            ) {
            let i = choose|i: int|
                0 <= i < leases.len() && (#[trigger] leases[i]).active && in_the_way(
                    w,
                    leases[i].targets,
                    ClaimWindow {
                        start_tick: leases[i].granted_at_tick,
                        end_tick: leases[i].expires_at_tick,
                    },
                    ws,
                );
            if i < rest.len() {
                assert(rest[i] == leases[i]);
            }
        }
        assert forall|c: ScheduleConflictView| #[trigger] after.contains(c) implies c.target
            == w.semantics.target && c.conflicting_claim_id is None && exists|i: int|
            0 <= i < leases.len() && (#[trigger] leases[i]).active && c.conflicting_lease_id
                == Some(leases[i].id) && c.blocking_until_tick == (
            match leases[i].expires_at_tick {
                Some(t) => t,
                None => w.end_tick,
            }) by {
            let k = choose|k: int| 0 <= k < after.len() && after[k] == c;
            if k < before.len() {
                assert(before[k] == c);
                assert(before.contains(c));
                let i = choose|i: int|
                    0 <= i < rest.len() && (#[trigger] rest[i]).active && c.conflicting_lease_id
                        == Some(rest[i].id) && c.blocking_until_tick == (
                    match rest[i].expires_at_tick {
                        Some(t) => t,
                        None => w.end_tick,
                    });
                assert(leases[i] == rest[i]);
            }
        }
    }
}

/// Whether a request of another claim or an active lease is in the way of a
/// target of a route.
pub open spec fn is_held(w: ScheduledTargetWindowView, id: ClaimId, m: ClaimManagerView) -> bool {
    ||| exists|i: int|
        0 <= i < m.requests.len() && (#[trigger] m.requests[i]).id != id && in_the_way(
            w,
            m.requests[i].targets,
            m.requests[i].window,
            m.workspace,
        )
    ||| exists|i: int|
        0 <= i < m.leases.len() && (#[trigger] m.leases[i]).active && in_the_way(
            w,
            m.leases[i].targets,
            ClaimWindow {
                start_tick: m.leases[i].granted_at_tick,
                end_tick: m.leases[i].expires_at_tick,
            },
            m.workspace,
        )
}

/// Something stands in the way of a route exactly if another claim or an active
/// lease is in the way of one of its targets.
pub proof fn lemma_what_stands_in_the_way(
    windows: Seq<ScheduledTargetWindowView>,
    id: ClaimId,
    m: ClaimManagerView,
)
    ensures
        route_conflicts(windows, id, m).len() > 0 <==> exists|k: int|
            0 <= k < windows.len() && is_held(#[trigger] windows[k], id, m),
    decreases windows.len(),
{
    if windows.len() > 0 {
        let rest = windows.drop_last();
        let last = windows.last();
        lemma_what_stands_in_the_way(rest, id, m);
        lemma_request_conflicts(last, id, m.requests, m.workspace);
        lemma_lease_conflicts(last, m.leases, m.workspace);
        assert(windows[windows.len() - 1] == last);
        assert forall|k: int| 0 <= k < rest.len() implies #[trigger] rest[k] == windows[k] by {}
        if exists|k: int| 0 <= k < windows.len() && is_held(#[trigger] windows[k], id, m) {
            let k = choose|k: int| 0 <= k < windows.len() && is_held(#[trigger] windows[k], id, m);
            if k < rest.len() {
                assert(is_held(rest[k], id, m));
            }
        }
    }
}

/// What stands in the way of a route is named: a target of the route, and either
/// the other claim with the end of its window or the lease with its own, and the
/// time at the target itself where there is no end.
pub proof fn lemma_conflicts_are_named(
    windows: Seq<ScheduledTargetWindowView>,
    id: ClaimId,
    m: ClaimManagerView,
    c: ScheduleConflictView,
)
    requires
        route_conflicts(windows, id, m).contains(c),
    ensures
        exists|k: int|
            0 <= k < windows.len() && c.target == (#[trigger] windows[k]).semantics.target
                && is_held(windows[k], id, m),
        c.conflicting_claim_id is Some <==> c.conflicting_lease_id is None,
        c.conflicting_claim_id matches Some(other) ==> other != id && exists|i: int|
            0 <= i < m.requests.len() && (#[trigger] m.requests[i]).id == other && (
            m.requests[i].window.end_tick matches Some(t) ==> c.blocking_until_tick == t),
        c.conflicting_lease_id matches Some(lease) ==> exists|i: int|
            0 <= i < m.leases.len() && (#[trigger] m.leases[i]).id == lease && m.leases[i].active
                && (m.leases[i].expires_at_tick matches Some(t) ==> c.blocking_until_tick == t),
    decreases windows.len(),
{
    if windows.len() > 0 {
        let rest = windows.drop_last();
        let last = windows.last();
        let before = route_conflicts(rest, id, m);
        let mine = conflicts_with_requests(last, id, m.requests, m.workspace);
        let held = conflicts_with_leases(last, m.leases, m.workspace);
        let all = route_conflicts(windows, id, m);
        lemma_request_conflicts(last, id, m.requests, m.workspace);
        lemma_lease_conflicts(last, m.leases, m.workspace);
        let k = choose|k: int| 0 <= k < all.len() && all[k] == c;
        assert(windows[windows.len() - 1] == last);
        if k < before.len() {
            assert(before[k] == c);
            lemma_conflicts_are_named(rest, id, m, c);
            let j = choose|j: int|
                0 <= j < rest.len() && c.target == (#[trigger] rest[j]).semantics.target && is_held(
                    rest[j],
                    id,
                    m,
                );
            assert(windows[j] == rest[j]);
        } else if k < before.len() + mine.len() {
            assert(mine[k - before.len()] == c);
            assert(mine.contains(c));
        } else {
            assert(held[k - before.len() - mine.len()] == c);
            assert(held.contains(c));
        }
    }
}

// ---------------------------------------------------------------------------
// when a route is where
// ---------------------------------------------------------------------------

/// Whether a route is at a target from one tick to another.
pub open spec fn is_there(
    windows: Seq<ScheduledTargetWindowView>,
    kind: ClaimTargetKind,
    id: Uuid,
    from: int,
    to: int,
) -> bool {
    exists|k: int|
        0 <= k < windows.len() && (#[trigger] windows[k]).semantics.target == (ClaimTarget {
            kind,
            resource_id: id,
        }) && windows[k].start_tick == from && windows[k].end_tick == to
}

proof fn lemma_window_kept<H: Fn(Real) -> Real>(
    ws: &Workspace,
    h: H,
    plan: RoutePlanView,
    start_tick: u64,
    i: int,
    n: nat,
    k: int,
)
    requires
        0 <= i < n,
        0 <= k < windows_at(ws, h, plan, start_tick, i).len(),
    ensures
        exists|q: int|
            0 <= q < windows_upto(ws, h, plan, start_tick, n).len() && #[trigger] windows_upto(
                ws,
                h,
                plan,
                start_tick,
                n,
            )[q] == windows_at(ws, h, plan, start_tick, i)[k],
    decreases n,
{
    let all = windows_upto(ws, h, plan, start_tick, n);
    let before = windows_upto(ws, h, plan, start_tick, (n - 1) as nat);
    let here = windows_at(ws, h, plan, start_tick, i);
    if i == n - 1 {
        assert(all[before.len() + k] == here[k]);
    } else {
        lemma_window_kept(ws, h, plan, start_tick, i, (n - 1) as nat, k);
        let q = choose|q: int| 0 <= q < before.len() && #[trigger] before[q] == here[k];
        assert(all[q] == here[k]);
    }
}

/// A route that sets out at a tick is at each of its nodes, and at the zones that
/// are listed for it, from when the cost so far is spent until the cost up to the
/// next node is. It is on the edge that leads there, and in the zones that are
/// listed for that, for as long.
pub proof fn lemma_route_is_there_in_time<H: Fn(Real) -> Real>(
    ws: &Workspace,
    h: H,
    plan: RoutePlanView,
    start_tick: u64,
    i: int,
)
    requires
        shape_error(plan) is None,
        ticks_fit(h, plan, start_tick),
        plan.steps.len() == plan.traversed_node_ids.len(),
        0 <= i < plan.traversed_node_ids.len() - 1,
        ticks_for(h, plan.steps[i].cumulative_cost) <= ticks_for(
            h,
            plan.steps[i + 1].cumulative_cost,
        ),
    ensures
        ({
            let windows = route_windows(ws, h, plan, start_tick);
            let from = start_tick + ticks_for(h, plan.steps[i].cumulative_cost);
            let to = start_tick + ticks_for(h, plan.steps[i + 1].cumulative_cost);
            &&& is_there(windows, ClaimTargetKind::Node, plan.traversed_node_ids[i], from, to)
            &&& is_there(windows, ClaimTargetKind::Edge, plan.traversed_edge_ids[i], from, to)
            &&& i < plan.traversed_node_zone_ids.len() ==> forall|k: int|
                0 <= k < plan.traversed_node_zone_ids[i].len() ==> is_there(
                    windows,
                    ClaimTargetKind::Zone,
                    #[trigger] plan.traversed_node_zone_ids[i][k],
                    from,
                    to,
                )
            &&& i < plan.traversed_edge_zone_ids.len() ==> forall|k: int|
                0 <= k < plan.traversed_edge_zone_ids[i].len() ==> is_there(
                    windows,
                    ClaimTargetKind::Zone,
                    #[trigger] plan.traversed_edge_zone_ids[i][k],
                    from,
                    to,
                )
        }),
{
    let windows = route_windows(ws, h, plan, start_tick);
    let n = plan.traversed_node_ids.len();
    let here = windows_at(ws, h, plan, start_tick, i);
    let from = start_tick + ticks_for(h, plan.steps[i].cumulative_cost);
    let to = start_tick + ticks_for(h, plan.steps[i + 1].cumulative_cost);
    assert(to <= u64::MAX && from <= u64::MAX);
    assert forall|k: int| 0 <= k < here.len() implies {
        let w = #[trigger] here[k];
        is_there(windows, w.semantics.target.kind, w.semantics.target.resource_id, from, to)
    } by {
        lemma_window_kept(ws, h, plan, start_tick, i, n, k);
        let q = choose|q: int| 0 <= q < windows.len() && #[trigger] windows[q] == here[k];
        assert(here[k].start_tick == from && here[k].end_tick == to);
        assert(windows[q].semantics.target == here[k].semantics.target);
    }
    let zones = super::targets::listed(plan.traversed_node_zone_ids, i);
    assert(here[0].semantics.target == (ClaimTarget {
        kind: ClaimTargetKind::Node,
        resource_id: plan.traversed_node_ids[i],
    })) by {
        lemma_target_named(ws, ClaimTargetKind::Node, plan.traversed_node_ids[i], here[0]);
    }
    let e = 1 + zones.len() as int;
    assert(here[e].semantics.target == (ClaimTarget {
        kind: ClaimTargetKind::Edge,
        resource_id: plan.traversed_edge_ids[i],
    })) by {
        lemma_target_named(ws, ClaimTargetKind::Edge, plan.traversed_edge_ids[i], here[e]);
    }
    if i < plan.traversed_node_zone_ids.len() {
        assert forall|k: int| 0 <= k < plan.traversed_node_zone_ids[i].len() implies is_there(
            windows,
            ClaimTargetKind::Zone,
            #[trigger] plan.traversed_node_zone_ids[i][k],
            from,
            to,
        ) by {
            lemma_target_named(
                ws,
                ClaimTargetKind::Zone,
                plan.traversed_node_zone_ids[i][k],
                here[1 + k],
            );
        }
    }
    if i < plan.traversed_edge_zone_ids.len() {
        assert forall|k: int| 0 <= k < plan.traversed_edge_zone_ids[i].len() implies is_there(
            windows,
            ClaimTargetKind::Zone,
            #[trigger] plan.traversed_edge_zone_ids[i][k],
            from,
            to,
        ) by {
            lemma_target_named(
                ws,
                ClaimTargetKind::Zone,
                plan.traversed_edge_zone_ids[i][k],
                here[e + 1 + k],
            );
        }
    }
}

/// A route ends at its last node, and is there for the one tick at which its whole
/// cost is spent.
pub proof fn lemma_route_ends_in_time<H: Fn(Real) -> Real>(
    ws: &Workspace,
    h: H,
    plan: RoutePlanView,
    start_tick: u64,
)
    requires
        shape_error(plan) is None,
        ticks_fit(h, plan, start_tick),
        plan.steps.len() == plan.traversed_node_ids.len(),
        plan.steps.len() > 0,
    ensures
        ({
            let at = start_tick + ticks_for(h, plan.steps.last().cumulative_cost);
            is_there(
                route_windows(ws, h, plan, start_tick),
                ClaimTargetKind::Node,
                plan.traversed_node_ids.last(),
                at,
                at,
            )
        }),
{
    let n = plan.traversed_node_ids.len();
    let i = n - 1;
    let windows = route_windows(ws, h, plan, start_tick);
    let here = windows_at(ws, h, plan, start_tick, i);
    assert(plan.steps[i] == plan.steps.last());
    assert(start_tick + ticks_for(h, plan.steps[i].cumulative_cost) <= u64::MAX);
    lemma_window_kept(ws, h, plan, start_tick, i, n, 0);
    let q = choose|q: int| 0 <= q < windows.len() && #[trigger] windows[q] == here[0];
    lemma_target_named(ws, ClaimTargetKind::Node, plan.traversed_node_ids[i], here[0]);
    assert(windows[q].semantics.target == here[0].semantics.target);
}

/// A route is nowhere before it sets out, and never leaves before it comes. A plan
/// without steps is everywhere at the tick at which it sets out.
pub proof fn lemma_route_is_nowhere_too_early<H: Fn(Real) -> Real>(
    ws: &Workspace,
    h: H,
    plan: RoutePlanView,
    start_tick: u64,
    k: int,
)
    requires
        ticks_fit(h, plan, start_tick),
        0 <= k < route_windows(ws, h, plan, start_tick).len(),
    ensures
        ({
            let w = route_windows(ws, h, plan, start_tick)[k];
            &&& start_tick <= w.start_tick <= w.end_tick
            &&& plan.steps.len() == 0 ==> w.start_tick == start_tick && w.end_tick == start_tick
        }),
{
    lemma_windows_in_time(ws, h, plan, start_tick, plan.traversed_node_ids.len(), k);
}

proof fn lemma_windows_in_time<H: Fn(Real) -> Real>(
    ws: &Workspace,
    h: H,
    plan: RoutePlanView,
    start_tick: u64,
    n: nat,
    k: int,
)
    requires
        ticks_fit(h, plan, start_tick),
        0 <= k < windows_upto(ws, h, plan, start_tick, n).len(),
    ensures
        ({
            let w = windows_upto(ws, h, plan, start_tick, n)[k];
            &&& start_tick <= w.start_tick <= w.end_tick
            &&& plan.steps.len() == 0 ==> w.start_tick == start_tick && w.end_tick == start_tick
        }),
    decreases n,
{
    if n > 0 {
        let i = n - 1;
        let before = windows_upto(ws, h, plan, start_tick, (n - 1) as nat);
        if k < before.len() {
            lemma_windows_in_time(ws, h, plan, start_tick, (n - 1) as nat, k);
        } else {
            let here = windows_at(ws, h, plan, start_tick, i);
            assert(windows_upto(ws, h, plan, start_tick, n)[k] == here[k - before.len()]);
            if i < plan.steps.len() {
                assert(start_tick + ticks_for(h, plan.steps[i].cumulative_cost) <= u64::MAX);
            }
            if i + 1 < plan.steps.len() {
                assert(start_tick + ticks_for(h, plan.steps[i + 1].cumulative_cost) <= u64::MAX);
            }
        }
    }
}

proof fn lemma_target_named(
    ws: &Workspace,
    kind: ClaimTargetKind,
    id: Uuid,
    w: ScheduledTargetWindowView,
)
    requires
        w.semantics == target_semantics(ws, ClaimTarget { kind, resource_id: id }),
    ensures
        w.semantics.target == (ClaimTarget { kind, resource_id: id }),
{
    lemma_node_target(ClaimTarget { kind, resource_id: id }, node_policies(ws, id));
}

/// Each window of a route is on a node or an edge that it comes to or on a zone
/// that is listed for one. A route of the wrong shape has no windows.
pub proof fn lemma_every_window_is_on_the_route<H: Fn(Real) -> Real>(
    ws: &Workspace,
    h: H,
    plan: RoutePlanView,
    start_tick: u64,
    k: int,
)
    requires
        0 <= k < route_windows(ws, h, plan, start_tick).len(),
    ensures
        shape_error(plan) is None,
        ({
            let t = route_windows(ws, h, plan, start_tick)[k].semantics.target;
            match t.kind {
                ClaimTargetKind::Node => plan.traversed_node_ids.contains(t.resource_id),
                ClaimTargetKind::Edge => plan.traversed_edge_ids.contains(t.resource_id),
                ClaimTargetKind::Zone => {
                    ||| exists|i: int|
                        0 <= i < plan.traversed_node_zone_ids.len() && (
                        #[trigger] plan.traversed_node_zone_ids[i]).contains(t.resource_id)
                    ||| exists|i: int|
                        0 <= i < plan.traversed_edge_zone_ids.len() && (
                        #[trigger] plan.traversed_edge_zone_ids[i]).contains(t.resource_id)
                },
            }
        }),
{
    lemma_windows_upto_on_route(ws, h, plan, start_tick, plan.traversed_node_ids.len(), k);
}

proof fn lemma_windows_upto_on_route<H: Fn(Real) -> Real>(
    ws: &Workspace,
    h: H,
    plan: RoutePlanView,
    start_tick: u64,
    n: nat,
    k: int,
)
    requires
        n <= plan.traversed_node_ids.len(),
        0 <= k < windows_upto(ws, h, plan, start_tick, n).len(),
    ensures
        ({
            let t = windows_upto(ws, h, plan, start_tick, n)[k].semantics.target;
            match t.kind {
                ClaimTargetKind::Node => plan.traversed_node_ids.contains(t.resource_id),
                ClaimTargetKind::Edge => plan.traversed_edge_ids.contains(t.resource_id),
                ClaimTargetKind::Zone => {
                    ||| exists|i: int|
                        0 <= i < plan.traversed_node_zone_ids.len() && (
                        #[trigger] plan.traversed_node_zone_ids[i]).contains(t.resource_id)
                    ||| exists|i: int|
                        0 <= i < plan.traversed_edge_zone_ids.len() && (
                        #[trigger] plan.traversed_edge_zone_ids[i]).contains(t.resource_id)
                },
            }
        }),
    decreases n,
{
    if n > 0 {
        let i = n - 1;
        let before = windows_upto(ws, h, plan, start_tick, (n - 1) as nat);
        let all = windows_upto(ws, h, plan, start_tick, n);
        if k < before.len() {
            lemma_windows_upto_on_route(ws, h, plan, start_tick, (n - 1) as nat, k);
        } else {
            let here = windows_at(ws, h, plan, start_tick, i);
            let q = k - before.len();
            assert(all[k] == here[q]);
            let zones = super::targets::listed(plan.traversed_node_zone_ids, i);
            let e = 1 + zones.len() as int;
            if q == 0 {
                lemma_target_named(ws, ClaimTargetKind::Node, plan.traversed_node_ids[i], here[q]);
                assert(plan.traversed_node_ids.contains(plan.traversed_node_ids[i]));
            } else if q < e {
                lemma_target_named(ws, ClaimTargetKind::Zone, zones[q - 1], here[q]);
                assert(plan.traversed_node_zone_ids[i].contains(zones[q - 1]));
            } else if q == e {
                lemma_target_named(ws, ClaimTargetKind::Edge, plan.traversed_edge_ids[i], here[q]);
                assert(plan.traversed_edge_ids.contains(plan.traversed_edge_ids[i]));
            } else {
                let more = super::targets::listed(plan.traversed_edge_zone_ids, i);
                lemma_target_named(ws, ClaimTargetKind::Zone, more[q - e - 1], here[q]);
                assert(plan.traversed_edge_zone_ids[i].contains(more[q - e - 1]));
            }
        }
    }
}

} // verus!
