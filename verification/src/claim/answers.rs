//! What a denial tells, and what becomes of leases that end.

use super::conflicts::{compatible, lease_claim};
use super::exclusion::is_within;
use super::manager::{
    evaluation, leases_ended, leases_kept, leases_of, missing_target, opposing_lease,
    opposing_request, resource_place, target_missing, ClaimManagerView, Ending,
};
use super::reasons::{common_targets, conflicts_with, cross_level_any, occurrences, with_cross_level};
use super::{
    ClaimDecision, ClaimRequestView, ClaimTarget, ClaimTargetKind, LeaseDisposition, LeaseView,
};
use crate::ids::RobotId;
use crate::workspace::Workspace;
use vstd::prelude::*;

verus! {

// ---------------------------------------------------------------------------
// what a denial names
// ---------------------------------------------------------------------------

proof fn lemma_occurrences(t: ClaimTarget, others: Seq<ClaimTarget>, x: ClaimTarget)
    ensures
        occurrences(t, others).contains(x) <==> x == t && others.contains(t),
    decreases others.len(),
{
    if others.len() > 0 {
        let rest = others.drop_last();
        let before = occurrences(t, rest);
        let after = occurrences(t, others);
        lemma_occurrences(t, rest, x);
        lemma_either(others, t);
        if others.last() == t {
            assert(after.drop_last() =~= before);
            lemma_either(after, x);
        }
    }
}

proof fn lemma_either<A>(s: Seq<A>, x: A)
    requires
        s.len() > 0,
    ensures
        s.contains(x) <==> s.drop_last().contains(x) || s.last() == x,
{
    let rest = s.drop_last();
    if s.contains(x) {
        let k = choose|k: int| 0 <= k < s.len() && s[k] == x;
        if k < rest.len() {
            assert(rest[k] == x);
        }
    }
    if rest.contains(x) {
        let k = choose|k: int| 0 <= k < rest.len() && rest[k] == x;
        assert(s[k] == x);
    }
    assert(s[s.len() - 1] == s.last());
}

proof fn lemma_common(targets: Seq<ClaimTarget>, others: Seq<ClaimTarget>, x: ClaimTarget)
    ensures
        common_targets(targets, others).contains(x) <==> targets.contains(x) && others.contains(x),
    decreases targets.len(),
{
    if targets.len() > 0 {
        let rest = targets.drop_last();
        let a = common_targets(rest, others);
        let b = occurrences(targets.last(), others);
        let all = common_targets(targets, others);
        lemma_common(rest, others, x);
        lemma_occurrences(targets.last(), others, x);
        lemma_either(targets, x);
        if all.contains(x) {
            let k = choose|k: int| 0 <= k < all.len() && all[k] == x;
            if k < a.len() {
                assert(a[k] == x);
            } else {
                assert(b[k - a.len()] == x);
            }
        }
        if a.contains(x) {
            let k = choose|k: int| 0 <= k < a.len() && a[k] == x;
            assert(all[k] == x);
        }
        if b.contains(x) {
            let k = choose|k: int| 0 <= k < b.len() && b[k] == x;
            assert(all[a.len() + k] == x);
        }
    }
}

/// Whether one target is a zone and the other one a node or an edge in it.
pub open spec fn one_holds_the_other(ws: &Workspace, a: ClaimTarget, b: ClaimTarget) -> bool {
    ||| a.kind == ClaimTargetKind::Zone && b.kind != ClaimTargetKind::Zone && is_within(
        ws,
        b,
        a.resource_id,
    )
    ||| b.kind == ClaimTargetKind::Zone && a.kind != ClaimTargetKind::Zone && is_within(
        ws,
        a,
        b.resource_id,
    )
}

proof fn lemma_within(ws: &Workspace, t: ClaimTarget, zone: crate::guid::Uuid)
    requires
        t.kind != ClaimTargetKind::Zone,
    ensures
        super::conflicts::lies_inside(ws, t, zone) <==> is_within(ws, t, zone),
{
    if super::conflicts::lies_inside(ws, t, zone) {
        let z = choose|z: crate::guid::Uuid| #[trigger]
            super::conflicts::member_ids(ws, t).contains(z) && crate::workspace::zone_at(ws, z)
                is Some && crate::index::contains_zone(ws, zone, z);
        assert(super::exclusion::is_member(ws, t, z));
    }
    if is_within(ws, t, zone) {
        let z = choose|z: crate::guid::Uuid| #[trigger]
            super::exclusion::is_member(ws, t, z) && crate::workspace::zone_at(ws, z) is Some && (z
                == zone || crate::index::walks::is_ancestor(
                crate::index::tables::zone_parents(ws),
                z,
                zone,
            ));
        assert(super::conflicts::member_ids(ws, t).contains(z));
    }
}

proof fn lemma_cross(ws: &Workspace, t: ClaimTarget, others: Seq<ClaimTarget>)
    ensures
        cross_level_any(ws, t, others) <==> exists|j: int|
            0 <= j < others.len() && one_holds_the_other(ws, t, #[trigger] others[j]),
{
    assert forall|j: int| 0 <= j < others.len() implies super::reasons::cross_level(
        ws,
        t,
        #[trigger] others[j],
    ) == one_holds_the_other(ws, t, others[j]) by {
        if t.kind != ClaimTargetKind::Zone {
            lemma_within(ws, t, others[j].resource_id);
        }
        if others[j].kind != ClaimTargetKind::Zone {
            lemma_within(ws, others[j], t.resource_id);
        }
    }
}

proof fn lemma_with_cross(
    ws: &Workspace,
    out: Seq<ClaimTarget>,
    targets: Seq<ClaimTarget>,
    others: Seq<ClaimTarget>,
    x: ClaimTarget,
)
    ensures
        with_cross_level(ws, out, targets, others).contains(x) <==> out.contains(x) || (
        targets.contains(x) && cross_level_any(ws, x, others)),
    decreases targets.len(),
{
    if targets.len() > 0 {
        let rest = targets.drop_last();
        let before = with_cross_level(ws, out, rest, others);
        let after = with_cross_level(ws, out, targets, others);
        lemma_with_cross(ws, out, rest, others, x);
        lemma_either(targets, x);
        if after.len() > before.len() {
            assert(after.drop_last() =~= before);
            lemma_either(after, x);
        }
    }
}

/// The targets that a request is told of as in conflict are its own. They are
/// those that the other claim has too, and in a workspace also those of which one
/// of the other claim holds the resource or is held by it.
pub proof fn lemma_conflicts_told(
    ws: Option<Workspace>,
    request: ClaimRequestView,
    other: ClaimRequestView,
    t: ClaimTarget,
)
    ensures
        conflicts_with(ws, request, other).contains(t) <==> request.targets.contains(t) && (
        other.targets.contains(t) || (ws matches Some(w) && exists|j: int|
            0 <= j < other.targets.len() && one_holds_the_other(
                &w,
                t,
                #[trigger] other.targets[j],
            ))),
{
    lemma_common(request.targets, other.targets, t);
    if let Some(w) = ws {
        lemma_with_cross(
            &w,
            common_targets(request.targets, other.targets),
            request.targets,
            other.targets,
            t,
        );
        lemma_cross(&w, t, other.targets);
    }
}

proof fn lemma_first_opponent(
    ws: Option<Workspace>,
    request: ClaimRequestView,
    requests: Seq<ClaimRequestView>,
    k: nat,
) -> (i: int)
    requires
        opposing_request(ws, request, requests, k) is Some,
    ensures
        k <= i < requests.len(),
        opposing_request(ws, request, requests, k) == Some(requests[i]),
        requests[i].id != request.id,
        !compatible(ws, request, requests[i]),
        forall|j: int|
            k <= j < i ==> (#[trigger] requests[j]).id == request.id || compatible(
                ws,
                request,
                requests[j],
            ),
    decreases requests.len() - k,
{
    let other = requests[k as int];
    if other.id != request.id && !compatible(ws, request, other) {
        k as int
    } else {
        lemma_first_opponent(ws, request, requests, k + 1)
    }
}

proof fn lemma_first_opposing_lease(
    ws: Option<Workspace>,
    request: ClaimRequestView,
    leases: Seq<LeaseView>,
    k: nat,
) -> (i: int)
    requires
        opposing_lease(ws, request, leases, k) is Some,
    ensures
        k <= i < leases.len(),
        opposing_lease(ws, request, leases, k) == Some(leases[i]),
        leases[i].active,
        !compatible(ws, request, lease_claim(leases[i])),
        forall|j: int|
            k <= j < i && (#[trigger] leases[j]).active ==> compatible(
                ws,
                request,
                lease_claim(leases[j]),
            ),
    decreases leases.len() - k,
{
    let lease = leases[k as int];
    if lease.active && !compatible(ws, request, lease_claim(lease)) {
        k as int
    } else {
        lemma_first_opposing_lease(ws, request, leases, k + 1)
    }
}

/// A request that is denied for a conflict is told of the first other request
/// that it conflicts with, or, where there is none, of the first active lease, and
/// of the targets of its own that are concerned.
pub proof fn lemma_denial_names_the_first_opponent(m: ClaimManagerView, request: ClaimRequestView)
    requires
        evaluation(m, request).decision == ClaimDecision::Deny,
        !evaluation(m, request).denied_by_capacity,
        request.targets.len() > 0,
        m.workspace matches Some(w) ==> forall|i: int|
            0 <= i < request.targets.len() ==> !target_missing(&w, #[trigger] request.targets[i]),
    ensures
        ({
            let e = evaluation(m, request);
            let by_request = exists|i: int|
                0 <= i < m.requests.len() && (#[trigger] m.requests[i]).id != request.id
                    && !compatible(m.workspace, request, m.requests[i])
                    && e.conflicting_claim_id == Some(m.requests[i].id) && e.conflicting_lease_id
                    is None && e.conflicting_targets == conflicts_with(
                    m.workspace,
                    request,
                    m.requests[i],
                ) && forall|j: int|
                    0 <= j < i ==> (#[trigger] m.requests[j]).id == request.id || compatible(
                        m.workspace,
                        request,
                        m.requests[j],
                    );
            let by_lease = exists|i: int|
                0 <= i < m.leases.len() && (#[trigger] m.leases[i]).active && !compatible(
                    m.workspace,
                    request,
                    lease_claim(m.leases[i]),
                ) && e.conflicting_claim_id is None && e.conflicting_lease_id == Some(
                    m.leases[i].id,
                ) && e.conflicting_targets == conflicts_with(
                    m.workspace,
                    request,
                    lease_claim(m.leases[i]),
                ) && forall|j: int|
                    0 <= j < i && (#[trigger] m.leases[j]).active ==> compatible(
                        m.workspace,
                        request,
                        lease_claim(m.leases[j]),
                    );
            &&& by_request || by_lease
            &&& e.conflicting_targets.len() > 0 ==> e.blocking_target == Some(
                e.conflicting_targets[0],
            )
            &&& e.conflicting_targets.len() == 0 ==> e.blocking_target is None
        }),
{
    if let Some(w) = m.workspace {
        lemma_none_missing(&w, request.targets, 0);
    }
    if opposing_request(m.workspace, request, m.requests, 0) is Some {
        let i = lemma_first_opponent(m.workspace, request, m.requests, 0);
        assert(m.requests[i].id != request.id);
    } else if opposing_lease(m.workspace, request, m.leases, 0) is Some {
        let i = lemma_first_opposing_lease(m.workspace, request, m.leases, 0);
        assert(m.leases[i].active);
    }
}

proof fn lemma_none_missing(ws: &Workspace, targets: Seq<ClaimTarget>, k: nat)
    requires
        forall|i: int| 0 <= i < targets.len() ==> !target_missing(ws, #[trigger] targets[i]),
    ensures
        missing_target(ws, targets, k) is None,
    decreases targets.len() - k,
{
    if k < targets.len() {
        assert(!target_missing(ws, targets[k as int]));
        lemma_none_missing(ws, targets, k + 1);
    }
}

proof fn lemma_first_missing(ws: &Workspace, targets: Seq<ClaimTarget>, k: nat, i: int)
    requires
        k <= i < targets.len(),
        target_missing(ws, targets[i]),
        forall|j: int| 0 <= j < i ==> !target_missing(ws, #[trigger] targets[j]),
    ensures
        missing_target(ws, targets, k) == Some(targets[i]),
    decreases i - k,
{
    if k < i {
        assert(!target_missing(ws, targets[k as int]));
        lemma_first_missing(ws, targets, k + 1, i);
    }
}

/// A request for something that is not in the workspace is denied, whatever else
/// is claimed, and told of the first such target.
pub proof fn lemma_missing_resource_is_named(
    m: ClaimManagerView,
    ws: Workspace,
    request: ClaimRequestView,
    i: int,
)
    requires
        m.workspace == Some(ws),
        0 <= i < request.targets.len(),
        ({
            let t = request.targets[i];
            match t.kind {
                ClaimTargetKind::Zone => crate::workspace::zone_at(&ws, t.resource_id) is None,
                ClaimTargetKind::Node => crate::index::tables::node_at(&ws, t.resource_id) is None,
                ClaimTargetKind::Edge => crate::index::tables::edge_at(&ws, t.resource_id) is None,
            }
        }),
        forall|j: int| 0 <= j < i ==> !target_missing(&ws, #[trigger] request.targets[j]),
    ensures
        ({
            let e = evaluation(m, request);
            &&& e.decision == ClaimDecision::Deny
            &&& !e.denied_by_capacity
            &&& e.blocking_target == Some(request.targets[i])
            &&& e.conflicting_targets == seq![request.targets[i]]
            &&& e.conflicting_claim_id is None
            &&& e.conflicting_lease_id is None
        }),
{
    lemma_first_missing(&ws, request.targets, 0, i);
}

/// What is granted conflicts with nothing that could be named.
pub proof fn lemma_grant_names_nobody(m: ClaimManagerView, request: ClaimRequestView)
    requires
        evaluation(m, request).decision == ClaimDecision::Grant,
    ensures
        evaluation(m, request).conflicting_claim_id is None,
        evaluation(m, request).conflicting_lease_id is None,
        evaluation(m, request).blocking_target is None,
        evaluation(m, request).conflicting_targets.len() == 0,
        !evaluation(m, request).denied_by_capacity,
{
}

// ---------------------------------------------------------------------------
// leases that end
// ---------------------------------------------------------------------------

/// At a tick exactly those leases expire whose last tick is that one or an
/// earlier one. A lease without a last tick never does.
pub proof fn lemma_which_leases_expire(leases: Seq<LeaseView>, tick: u64, l: LeaseView)
    ensures
        leases_kept(leases, Ending::AtTick(tick)).contains(l) <==> leases.contains(l) && (
        l.expires_at_tick matches Some(last) ==> tick < last),
        leases.contains(l) && (l.expires_at_tick matches Some(last) && last <= tick)
            ==> leases_ended(leases, Ending::AtTick(tick)).contains(
            LeaseView {
                active: false,
                disposition: LeaseDisposition::Expired,
                released_at_tick: Some(tick),
                ..l
            },
        ),
        leases_kept(leases, Ending::AtTick(tick)).len() + leases_ended(
            leases,
            Ending::AtTick(tick),
        ).len() == leases.len(),
{
    super::laws::lemma_ending_conserves_leases(leases, Ending::AtTick(tick));
    lemma_kept(leases, Ending::AtTick(tick), l);
}

/// When the leases of a robot are let go of, exactly those of other robots stay.
pub proof fn lemma_which_leases_a_robot_lets_go(
    leases: Seq<LeaseView>,
    robot: RobotId,
    tick: Option<u64>,
    l: LeaseView,
)
    ensures
        leases_kept(leases, Ending::OfRobot(robot, tick)).contains(l) <==> leases.contains(l)
            && l.robot_id != robot,
        leases.contains(l) && l.robot_id == robot ==> leases_ended(
            leases,
            Ending::OfRobot(robot, tick),
        ).contains(
            LeaseView {
                active: false,
                disposition: LeaseDisposition::Released,
                released_at_tick: tick,
                ..l
            },
        ),
        leases_kept(leases, Ending::OfRobot(robot, tick)).len() + leases_ended(
            leases,
            Ending::OfRobot(robot, tick),
        ).len() == leases.len(),
{
    super::laws::lemma_ending_conserves_leases(leases, Ending::OfRobot(robot, tick));
    lemma_kept(leases, Ending::OfRobot(robot, tick), l);
}

proof fn lemma_kept(leases: Seq<LeaseView>, ending: Ending, l: LeaseView)
    ensures
        leases_kept(leases, ending).contains(l) <==> leases.contains(l)
            && !super::manager::is_ended(l, ending),
    decreases leases.len(),
{
    if leases.len() > 0 {
        let rest = leases.drop_last();
        let before = leases_kept(rest, ending);
        let after = leases_kept(leases, ending);
        lemma_kept(rest, ending, l);
        lemma_either(leases, l);
        if after.len() > before.len() {
            assert(after.drop_last() =~= before);
            lemma_either(after, l);
        }
    }
}

// ---------------------------------------------------------------------------
// finding
// ---------------------------------------------------------------------------

/// The request of a robot for a resource that is found is the first of that robot
/// with a target on the resource.
pub proof fn lemma_which_request_is_for_a_resource(
    requests: Seq<ClaimRequestView>,
    robot: RobotId,
    resource: crate::guid::Uuid,
    k: nat,
)
    ensures
        match resource_place(requests, robot, resource, k) {
            Some(i) => k <= i < requests.len() && requests[i].robot_id == robot && asks_for(
                requests[i],
                resource,
            ) && forall|j: int|
                k <= j < i ==> !((#[trigger] requests[j]).robot_id == robot && asks_for(
                    requests[j],
                    resource,
                )),
            None => forall|j: int|
                k <= j < requests.len() ==> !((#[trigger] requests[j]).robot_id == robot
                    && asks_for(requests[j], resource)),
        },
    decreases requests.len() - k,
{
    if k < requests.len() {
        assert(super::manager::requests_resource(requests[k as int], robot, resource)
            <==> requests[k as int].robot_id == robot && asks_for(requests[k as int], resource));
        lemma_which_request_is_for_a_resource(requests, robot, resource, k + 1);
    }
}

/// Whether a request has a target on a resource.
pub open spec fn asks_for(r: ClaimRequestView, resource: crate::guid::Uuid) -> bool {
    exists|i: int| 0 <= i < r.targets.len() && (#[trigger] r.targets[i]).resource_id == resource
}

/// The leases of a robot are those that name it, in their order.
pub proof fn lemma_which_leases_a_robot_has(leases: Seq<LeaseView>, robot: RobotId)
    ensures
        leases_of(leases, robot) == leases.filter(|l: LeaseView| l.robot_id == robot),
    decreases leases.len(),
{
    reveal(Seq::filter);
    if leases.len() > 0 {
        lemma_which_leases_a_robot_has(leases.drop_last(), robot);
    }
}

} // verus!
