//! Who keeps whom out, in terms of the windows, the access modes, the zones that
//! resources are members of and what those zones state.

use super::conflicts::{
    compatible, lease_claim, lies_inside, member_ids, share_constrained_zone, targets_conflict,
    windows_overlap,
};
use super::laws::{clear_of_leases, clear_of_requests, lemma_grant_means_clear};
use super::manager::{evaluation, ClaimManagerView};
use super::{
    ClaimAccessMode, ClaimDecision, ClaimRequestView, ClaimTarget, ClaimTargetKind, ClaimWindow,
};
use crate::guid::Uuid;
use crate::index::tables::{edge_at, looked_up, node_at, policy_at, zone_parents};
use crate::index::walks::is_ancestor;
use crate::policy::{ZonePolicyKind, ZonePolicyView};
use crate::workspace::{zone_at, Workspace};
use vstd::prelude::*;

verus! {

// ---------------------------------------------------------------------------
// windows
// ---------------------------------------------------------------------------

/// Whether one window ends before the other begins. A window without a beginning
/// or an end is open on that side.
pub open spec fn apart(a: ClaimWindow, b: ClaimWindow) -> bool {
    ||| (a.end_tick matches Some(e) && b.start_tick matches Some(s) && e < s)
    ||| (b.end_tick matches Some(e) && a.start_tick matches Some(s) && e < s)
}

/// Two windows overlap exactly if neither ends before the other begins.
pub proof fn lemma_windows_overlap_unless_apart(a: ClaimWindow, b: ClaimWindow)
    ensures
        windows_overlap(a, b) <==> !apart(a, b),
{
}

// ---------------------------------------------------------------------------
// conflicts
// ---------------------------------------------------------------------------

/// Whether a node or an edge lists a zone as one that it is a member of.
pub open spec fn is_member(ws: &Workspace, t: ClaimTarget, zone: Uuid) -> bool {
    match t.kind {
        ClaimTargetKind::Node => node_at(ws, t.resource_id) matches Some(n)
            && n.zone_ids@.contains(zone),
        ClaimTargetKind::Edge => edge_at(ws, t.resource_id) matches Some(e)
            && e.zone_ids@.contains(zone),
        ClaimTargetKind::Zone => false,
    }
}

/// Whether a node or an edge is a member of a zone that is there and that is a
/// given one or somewhere inside it.
pub open spec fn is_within(ws: &Workspace, t: ClaimTarget, zone: Uuid) -> bool {
    exists|z: Uuid| #[trigger]
        is_member(ws, t, z) && zone_at(ws, z) is Some && (z == zone || is_ancestor(
            zone_parents(ws),
            z,
            zone,
        ))
}

/// Whether two resources are members of one zone that is kept for one robot:
/// exclusive, or with room for no more than one stated.
pub open spec fn share_a_single_place(ws: &Workspace, a: ClaimTarget, b: ClaimTarget) -> bool {
    exists|z: Uuid| #[trigger]
        is_member(ws, a, z) && is_member(ws, b, z) && (policy_at(ws, z) matches Some(p) && (p.kind
            == ZonePolicyKind::ExclusiveAccess || (p.capacity_is_explicit && p.capacity <= 1)))
}

proof fn lemma_members(ws: &Workspace, t: ClaimTarget)
    ensures
        forall|z: Uuid| #[trigger] is_member(ws, t, z) <==> member_ids(ws, t).contains(z),
{
}

/// Claims on nodes, or on edges, conflict in a workspace exactly if their windows
/// overlap and they are either on the same one and not both shared, or on two that
/// are members of one zone that is kept for one robot. A claim on a node never
/// conflicts with one on an edge.
pub proof fn lemma_when_places_conflict(
    ws: Workspace,
    l: ClaimRequestView,
    r: ClaimRequestView,
    a: ClaimTarget,
    b: ClaimTarget,
)
    requires
        a.kind != ClaimTargetKind::Zone,
        b.kind != ClaimTargetKind::Zone,
    ensures
        targets_conflict(Some(ws), l, r, a, b) <==> {
            &&& !apart(l.window, r.window)
            &&& a.kind == b.kind
            &&& a.resource_id == b.resource_id ==> l.access_mode == ClaimAccessMode::Exclusive
                || r.access_mode == ClaimAccessMode::Exclusive
            &&& a.resource_id != b.resource_id ==> share_a_single_place(&ws, a, b)
        },
{
    lemma_members(&ws, a);
    lemma_members(&ws, b);
    if share_constrained_zone(&ws, a, b) {
        let z = choose|z: Uuid| #[trigger]
            member_ids(&ws, a).contains(z) && member_ids(&ws, b).contains(z) && (policy_at(
                &ws,
                z,
            ) matches Some(p) && super::conflicts::constrains(p));
        assert(is_member(&ws, a, z) && is_member(&ws, b, z));
        assert(share_a_single_place(&ws, a, b));
    }
    if share_a_single_place(&ws, a, b) {
        let z = choose|z: Uuid| #[trigger]
            is_member(&ws, a, z) && is_member(&ws, b, z) && (policy_at(&ws, z) matches Some(p) && (
            p.kind == ZonePolicyKind::ExclusiveAccess || (p.capacity_is_explicit && p.capacity
                <= 1)));
        assert(member_ids(&ws, a).contains(z) && member_ids(&ws, b).contains(z));
        assert(share_constrained_zone(&ws, a, b));
    }
}

/// A claim on a zone and one on a node or an edge conflict in a workspace exactly
/// if their windows overlap, the node or edge lies in the zone, and they are not
/// both shared in a zone with room for more than one. It does not matter which of
/// the two is asked about first.
pub proof fn lemma_when_zone_and_place_conflict(
    ws: Workspace,
    l: ClaimRequestView,
    r: ClaimRequestView,
    zone: ClaimTarget,
    t: ClaimTarget,
)
    requires
        zone.kind == ClaimTargetKind::Zone,
        t.kind != ClaimTargetKind::Zone,
    ensures
        targets_conflict(Some(ws), l, r, zone, t) <==> {
            &&& !apart(l.window, r.window)
            &&& is_within(&ws, t, zone.resource_id)
            &&& !(l.access_mode == ClaimAccessMode::Shared && r.access_mode
                == ClaimAccessMode::Shared && (policy_at(&ws, zone.resource_id) matches Some(p)
                && p.capacity > 1))
        },
        targets_conflict(Some(ws), r, l, t, zone) == targets_conflict(Some(ws), l, r, zone, t),
{
    lemma_members(&ws, t);
    if lies_inside(&ws, t, zone.resource_id) {
        let z = choose|z: Uuid| #[trigger]
            member_ids(&ws, t).contains(z) && zone_at(&ws, z) is Some
                && crate::index::contains_zone(&ws, zone.resource_id, z);
        assert(is_member(&ws, t, z));
        assert(is_within(&ws, t, zone.resource_id));
    }
    if is_within(&ws, t, zone.resource_id) {
        let z = choose|z: Uuid| #[trigger]
            is_member(&ws, t, z) && zone_at(&ws, z) is Some && (z == zone.resource_id
                || is_ancestor(zone_parents(&ws), z, zone.resource_id));
        assert(member_ids(&ws, t).contains(z));
        assert(lies_inside(&ws, t, zone.resource_id));
    }
}

/// Claims on zones conflict in a workspace exactly if their windows overlap, one
/// zone is the other one or somewhere around it, and they are not both shared with
/// room for more than one: in the zone itself, or in the inner one where that is
/// directly inside the other.
pub proof fn lemma_when_zones_conflict(
    ws: Workspace,
    l: ClaimRequestView,
    r: ClaimRequestView,
    a: ClaimTarget,
    b: ClaimTarget,
)
    requires
        a.kind == ClaimTargetKind::Zone,
        b.kind == ClaimTargetKind::Zone,
        zone_at(&ws, a.resource_id) is Some,
        zone_at(&ws, b.resource_id) is Some,
    ensures
        ({
            let x = a.resource_id;
            let y = b.resource_id;
            let in_y = looked_up(zone_parents(&ws), x) == Some(y);
            let in_x = looked_up(zone_parents(&ws), y) == Some(x);
            let conflict = targets_conflict(Some(ws), l, r, a, b);
            let shared = l.access_mode == ClaimAccessMode::Shared && r.access_mode
                == ClaimAccessMode::Shared;
            let inner = if x == y || in_y {
                policy_at(&ws, x)
            } else if in_x {
                policy_at(&ws, y)
            } else {
                None
            };
            conflict <==> {
                &&& !apart(l.window, r.window)
                &&& x == y || is_ancestor(zone_parents(&ws), x, y) || is_ancestor(
                    zone_parents(&ws),
                    y,
                    x,
                )
                &&& !(shared && (inner matches Some(p) && p.capacity > 1))
            }
        }),
{
}

/// Without a workspace claims conflict exactly if they are on the same target and
/// not both shared.
pub proof fn lemma_when_targets_conflict_anywhere(
    l: ClaimRequestView,
    r: ClaimRequestView,
    a: ClaimTarget,
    b: ClaimTarget,
)
    ensures
        targets_conflict(None, l, r, a, b) <==> a.kind == b.kind && a.resource_id == b.resource_id
            && (l.access_mode == ClaimAccessMode::Exclusive || r.access_mode
            == ClaimAccessMode::Exclusive),
{
}

/// What is granted conflicts with nothing: no target of the request does so with
/// one of another request or of an active lease, which holds from the beginning on
/// until it expires.
pub proof fn lemma_grant_conflicts_with_nothing(m: ClaimManagerView, request: ClaimRequestView)
    requires
        evaluation(m, request).decision == ClaimDecision::Grant,
    ensures
        forall|i: int, k: int, j: int|
            0 <= i < request.targets.len() && 0 <= k < m.requests.len() && m.requests[k].id
                != request.id && 0 <= j < m.requests[k].targets.len() ==> !targets_conflict(
                m.workspace,
                request,
                m.requests[k],
                #[trigger] request.targets[i],
                #[trigger] m.requests[k].targets[j],
            ),
        forall|i: int, k: int, j: int|
            0 <= i < request.targets.len() && 0 <= k < m.leases.len() && m.leases[k].active && 0
                <= j < m.leases[k].targets.len() ==> !targets_conflict(
                m.workspace,
                request,
                ClaimRequestView {
                    access_mode: m.leases[k].access_mode,
                    window: ClaimWindow {
                        start_tick: None,
                        end_tick: m.leases[k].expires_at_tick,
                    },
                    targets: m.leases[k].targets,
                    ..super::blank_request()
                },
                #[trigger] request.targets[i],
                #[trigger] m.leases[k].targets[j],
            ),
{
    lemma_grant_means_clear(m, request);
    assert forall|i: int, k: int, j: int|
        0 <= i < request.targets.len() && 0 <= k < m.requests.len() && m.requests[k].id
            != request.id && 0 <= j < m.requests[k].targets.len() implies !targets_conflict(
        m.workspace,
        request,
        m.requests[k],
        #[trigger] request.targets[i],
        #[trigger] m.requests[k].targets[j],
    ) by {
        assert(compatible(m.workspace, request, m.requests[k]));
    }
    assert forall|i: int, k: int, j: int|
        0 <= i < request.targets.len() && 0 <= k < m.leases.len() && m.leases[k].active && 0 <= j
            < m.leases[k].targets.len() implies !targets_conflict(
        m.workspace,
        request,
        ClaimRequestView {
            access_mode: m.leases[k].access_mode,
            window: ClaimWindow { start_tick: None, end_tick: m.leases[k].expires_at_tick },
            targets: m.leases[k].targets,
            ..super::blank_request()
        },
        #[trigger] request.targets[i],
        #[trigger] m.leases[k].targets[j],
    ) by {
        assert(compatible(m.workspace, request, lease_claim(m.leases[k])));
        assert(lease_claim(m.leases[k]).targets[j] == m.leases[k].targets[j]);
    }
}

/// A request that conflicts with another one, or with an active lease, is not
/// granted.
pub proof fn lemma_conflict_prevents_grant(
    m: ClaimManagerView,
    request: ClaimRequestView,
    k: int,
    i: int,
    j: int,
)
    requires
        0 <= i < request.targets.len(),
        (0 <= k < m.requests.len() && m.requests[k].id != request.id && 0 <= j
            < m.requests[k].targets.len() && targets_conflict(
            m.workspace,
            request,
            m.requests[k],
            request.targets[i],
            m.requests[k].targets[j],
        )) || (0 <= k < m.leases.len() && m.leases[k].active && 0 <= j
            < m.leases[k].targets.len() && targets_conflict(
            m.workspace,
            request,
            lease_claim(m.leases[k]),
            request.targets[i],
            m.leases[k].targets[j],
        )),
    ensures
        evaluation(m, request).decision == ClaimDecision::Deny,
        !evaluation(m, request).denied_by_capacity,
{
    lemma_grant_conflicts(m, request, k, i, j);
    super::laws::lemma_capacity_denial_comes_last(m, request);
}

proof fn lemma_grant_conflicts(
    m: ClaimManagerView,
    request: ClaimRequestView,
    k: int,
    i: int,
    j: int,
)
    requires
        0 <= i < request.targets.len(),
        (0 <= k < m.requests.len() && m.requests[k].id != request.id && 0 <= j
            < m.requests[k].targets.len() && targets_conflict(
            m.workspace,
            request,
            m.requests[k],
            request.targets[i],
            m.requests[k].targets[j],
        )) || (0 <= k < m.leases.len() && m.leases[k].active && 0 <= j
            < m.leases[k].targets.len() && targets_conflict(
            m.workspace,
            request,
            lease_claim(m.leases[k]),
            request.targets[i],
            m.leases[k].targets[j],
        )),
    ensures
        !(clear_of_requests(m, request) && clear_of_leases(m, request)),
        evaluation(m, request).decision == ClaimDecision::Deny,
{
    lemma_grant_means_clear(m, request);
    if clear_of_requests(m, request) && clear_of_leases(m, request) {
        if 0 <= k < m.requests.len() && m.requests[k].id != request.id {
            assert(compatible(m.workspace, request, m.requests[k]));
        }
        if 0 <= k < m.leases.len() && m.leases[k].active {
            assert(compatible(m.workspace, request, lease_claim(m.leases[k])));
            if 0 <= j < m.leases[k].targets.len() {
                assert(lease_claim(m.leases[k]).targets[j] == m.leases[k].targets[j]);
            }
        }
    }
}

/// A zone that is exclusive, or that states room for no more than one, is for one
/// robot: where a request for a node, or an edge, that is a member of it is
/// granted, no other request and no active lease whose window overlaps has a
/// different node, or edge, that is a member of the same zone.
pub proof fn lemma_one_robot_in_a_single_place(
    m: ClaimManagerView,
    ws: Workspace,
    request: ClaimRequestView,
    i: int,
    zone: Uuid,
    p: ZonePolicyView,
    k: int,
    j: int,
)
    requires
        m.workspace == Some(ws),
        evaluation(m, request).decision == ClaimDecision::Grant,
        0 <= i < request.targets.len(),
        request.targets[i].kind != ClaimTargetKind::Zone,
        member_ids(&ws, request.targets[i]).contains(zone),
        policy_at(&ws, zone) == Some(p),
        p.kind == ZonePolicyKind::ExclusiveAccess || (p.capacity_is_explicit && p.capacity <= 1),
    ensures
        0 <= k < m.requests.len() && m.requests[k].id != request.id && 0 <= j
            < m.requests[k].targets.len() && !apart(request.window, m.requests[k].window)
            && m.requests[k].targets[j].kind == request.targets[i].kind
            && m.requests[k].targets[j].resource_id != request.targets[i].resource_id
            ==> !member_ids(&ws, m.requests[k].targets[j]).contains(zone),
        0 <= k < m.leases.len() && m.leases[k].active && 0 <= j < m.leases[k].targets.len()
            && !apart(
            request.window,
            ClaimWindow { start_tick: None, end_tick: m.leases[k].expires_at_tick },
        ) && m.leases[k].targets[j].kind == request.targets[i].kind
            && m.leases[k].targets[j].resource_id != request.targets[i].resource_id ==> !member_ids(
            &ws,
            m.leases[k].targets[j],
        ).contains(zone),
{
    lemma_grant_conflicts_with_nothing(m, request);
    let a = request.targets[i];
    lemma_members(&ws, a);
    assert(is_member(&ws, a, zone));
    if 0 <= k < m.requests.len() && m.requests[k].id != request.id && 0 <= j
        < m.requests[k].targets.len() {
        let b = m.requests[k].targets[j];
        lemma_members(&ws, b);
        if b.kind == a.kind {
            lemma_when_places_conflict(ws, request, m.requests[k], a, b);
            assert(!targets_conflict(
                m.workspace,
                request,
                m.requests[k],
                request.targets[i],
                m.requests[k].targets[j],
            ));
        }
    }
    if 0 <= k < m.leases.len() && m.leases[k].active && 0 <= j < m.leases[k].targets.len() {
        let b = m.leases[k].targets[j];
        lemma_members(&ws, b);
        if b.kind == a.kind {
            lemma_when_places_conflict(ws, request, lease_claim(m.leases[k]), a, b);
            assert(!targets_conflict(
                m.workspace,
                request,
                lease_claim(m.leases[k]),
                request.targets[i],
                m.leases[k].targets[j],
            ));
        }
    }
}

} // verus!
