//! What holds of the ledger and of its decisions as a whole.

use super::capacity::{
    edge_violation, member_violation, membership_violation, occupancy, zone_violation, Space,
};
use super::conflicts::{
    both_shared, compatible, directly_inside, has_room, lease_claim, lemma_compatible_symmetric,
    lies_inside, member_ids, targets_conflict, windows_overlap,
};
use super::manager::{
    counter_floor, ended, evaluation, exceeded_capacity, is_ended, lease_place, leases_ended,
    leases_kept, leases_with, lemma_largest_ids, lemma_lease_place, lemma_minted_id_is_free,
    lemma_request_place, minted_id, missing_target, one_more, opposing_lease, opposing_request,
    request_place, requests_of_others, requests_with, target_missing, ClaimManagerView, Ending,
};
use super::{
    ClaimAccessMode, ClaimDecision, ClaimRequestView, ClaimTarget, ClaimTargetKind, LeaseView,
};
use crate::guid::Uuid;
use crate::ids::{LeaseId, RobotId};
use crate::index::laws::lemma_no_zone_inside_itself;
use crate::index::tables::{policy_at, semantics_at, walk_ids, zone_parents, zone_walk};
use crate::index::walks::{climb, is_ancestor};
use crate::workspace::Workspace;
use vstd::prelude::*;

verus! {

// ---------------------------------------------------------------------------
// decisions
// ---------------------------------------------------------------------------

/// Whether every target of a request is in the workspace.
pub open spec fn all_targets_stand(ws: Option<Workspace>, request: ClaimRequestView) -> bool {
    ws matches Some(w) ==> forall|i: int|
        0 <= i < request.targets.len() ==> !target_missing(&w, #[trigger] request.targets[i])
}

/// Whether a request is compatible with every other request.
pub open spec fn clear_of_requests(m: ClaimManagerView, request: ClaimRequestView) -> bool {
    forall|i: int|
        0 <= i < m.requests.len() && (#[trigger] m.requests[i]).id != request.id ==> compatible(
            m.workspace,
            request,
            m.requests[i],
        )
}

/// Whether a request is compatible with every active lease.
pub open spec fn clear_of_leases(m: ClaimManagerView, request: ClaimRequestView) -> bool {
    forall|i: int|
        0 <= i < m.leases.len() && (#[trigger] m.leases[i]).active ==> compatible(
            m.workspace,
            request,
            lease_claim(m.leases[i]),
        )
}

proof fn lemma_missing_target(ws: &Workspace, targets: Seq<ClaimTarget>, k: nat)
    ensures
        missing_target(ws, targets, k) is None <==> forall|i: int|
            k <= i < targets.len() ==> !target_missing(ws, #[trigger] targets[i]),
    decreases targets.len() - k,
{
    if k < targets.len() {
        lemma_missing_target(ws, targets, k + 1);
        if target_missing(ws, targets[k as int]) {
        } else {
            assert forall|i: int| k <= i < targets.len() && missing_target(ws, targets, k) is None
                implies !target_missing(ws, #[trigger] targets[i]) by {
                if i > k {
                    assert(k + 1 <= i);
                }
            }
        }
    }
}

proof fn lemma_opposing_request(
    ws: Option<Workspace>,
    request: ClaimRequestView,
    requests: Seq<ClaimRequestView>,
    k: nat,
)
    ensures
        opposing_request(ws, request, requests, k) is None <==> forall|i: int|
            k <= i < requests.len() && (#[trigger] requests[i]).id != request.id ==> compatible(
                ws,
                request,
                requests[i],
            ),
    decreases requests.len() - k,
{
    if k < requests.len() {
        lemma_opposing_request(ws, request, requests, k + 1);
        let other = requests[k as int];
        if other.id != request.id && !compatible(ws, request, other) {
        } else if opposing_request(ws, request, requests, k) is None {
            assert forall|i: int|
                k <= i < requests.len() && (#[trigger] requests[i]).id != request.id implies compatible(
                ws,
                request,
                requests[i],
            ) by {
                if i > k {
                    assert(k + 1 <= i);
                }
            }
        }
    }
}

proof fn lemma_opposing_lease(
    ws: Option<Workspace>,
    request: ClaimRequestView,
    leases: Seq<LeaseView>,
    k: nat,
)
    ensures
        opposing_lease(ws, request, leases, k) is None <==> forall|i: int|
            k <= i < leases.len() && (#[trigger] leases[i]).active ==> compatible(
                ws,
                request,
                lease_claim(leases[i]),
            ),
    decreases leases.len() - k,
{
    if k < leases.len() {
        lemma_opposing_lease(ws, request, leases, k + 1);
        let lease = leases[k as int];
        if lease.active && !compatible(ws, request, lease_claim(lease)) {
        } else if opposing_lease(ws, request, leases, k) is None {
            assert forall|i: int|
                k <= i < leases.len() && (#[trigger] leases[i]).active implies compatible(
                ws,
                request,
                lease_claim(leases[i]),
            ) by {
                if i > k {
                    assert(k + 1 <= i);
                }
            }
        }
    }
}

/// A request is granted exactly if it has targets, all of them are there, it is
/// compatible with every other request and every active lease, and it exceeds
/// no capacity.
pub proof fn lemma_grant_means_clear(m: ClaimManagerView, request: ClaimRequestView)
    ensures
        evaluation(m, request).decision == ClaimDecision::Grant <==> {
            &&& request.targets.len() > 0
            &&& all_targets_stand(m.workspace, request)
            &&& clear_of_requests(m, request)
            &&& clear_of_leases(m, request)
            &&& exceeded_capacity(m.workspace, request, m.requests, m.leases) is None
        },
{
    if let Some(w) = m.workspace {
        lemma_missing_target(&w, request.targets, 0);
    }
    lemma_opposing_request(m.workspace, request, m.requests, 0);
    lemma_opposing_lease(m.workspace, request, m.leases, 0);
}

/// A request is denied for capacity exactly if nothing else stands in its way.
pub proof fn lemma_capacity_denial_comes_last(m: ClaimManagerView, request: ClaimRequestView)
    ensures
        evaluation(m, request).denied_by_capacity <==> {
            &&& request.targets.len() > 0
            &&& all_targets_stand(m.workspace, request)
            &&& clear_of_requests(m, request)
            &&& clear_of_leases(m, request)
            &&& exceeded_capacity(m.workspace, request, m.requests, m.leases) is Some
        },
        evaluation(m, request).denied_by_capacity ==> evaluation(m, request).decision
            == ClaimDecision::Deny,
{
    if let Some(w) = m.workspace {
        lemma_missing_target(&w, request.targets, 0);
    }
    lemma_opposing_request(m.workspace, request, m.requests, 0);
    lemma_opposing_lease(m.workspace, request, m.leases, 0);
}

/// Where no two zones share an identifier, it does not matter which of two
/// claims is named first for whether they are compatible.
pub proof fn lemma_compatible_either_way(
    ws: Option<Workspace>,
    l: ClaimRequestView,
    r: ClaimRequestView,
)
    requires
        ws matches Some(w) ==> walk_ids(zone_walk(&w)).no_duplicates(),
    ensures
        compatible(ws, l, r) == compatible(ws, r, l),
{
    if let Some(w) = ws {
        assert forall|x: Uuid, y: Uuid|
            x != y && #[trigger] directly_inside(&w, x, y) implies !directly_inside(&w, y, x) by {
            if directly_inside(&w, y, x) {
                reveal_with_fuel(climb, 3);
                assert(climb(zone_parents(&w), x, 2) == Some(x));
                assert(is_ancestor(zone_parents(&w), x, x));
                lemma_no_zone_inside_itself(&w, x);
            }
        }
    }
    lemma_compatible_symmetric(ws, l, r);
}

/// Two claims on the same target are compatible only if both are shared, or if
/// there is a workspace and their windows do not overlap.
pub proof fn lemma_same_target_is_exclusive(
    ws: Option<Workspace>,
    l: ClaimRequestView,
    r: ClaimRequestView,
    i: int,
    j: int,
)
    requires
        0 <= i < l.targets.len(),
        0 <= j < r.targets.len(),
        l.targets[i] == r.targets[j],
        compatible(ws, l, r),
    ensures
        both_shared(l, r) || (ws is Some && !windows_overlap(l.window, r.window)),
{
    assert(!targets_conflict(ws, l, r, l.targets[i], r.targets[j]));
}

/// An exclusive request that is granted has its targets to itself: no other
/// request and no active lease has one of them in an overlapping window.
pub proof fn lemma_exclusive_grant_excludes(
    m: ClaimManagerView,
    request: ClaimRequestView,
    i: int,
    k: int,
    j: int,
)
    requires
        evaluation(m, request).decision == ClaimDecision::Grant,
        request.access_mode == ClaimAccessMode::Exclusive,
        0 <= i < request.targets.len(),
    ensures
        0 <= k < m.requests.len() && m.requests[k].id != request.id && 0 <= j
            < m.requests[k].targets.len() && windows_overlap(request.window, m.requests[k].window)
            ==> m.requests[k].targets[j] != request.targets[i],
        0 <= k < m.leases.len() && m.leases[k].active && 0 <= j < m.leases[k].targets.len()
            && windows_overlap(request.window, lease_claim(m.leases[k]).window)
            ==> m.leases[k].targets[j] != request.targets[i],
{
    lemma_grant_means_clear(m, request);
    if 0 <= k < m.requests.len() && m.requests[k].id != request.id && 0 <= j
        < m.requests[k].targets.len() && m.requests[k].targets[j] == request.targets[i] {
        assert(compatible(m.workspace, request, m.requests[k]));
        lemma_same_target_is_exclusive(m.workspace, request, m.requests[k], i, j);
    }
    if 0 <= k < m.leases.len() && m.leases[k].active && 0 <= j < m.leases[k].targets.len()
        && m.leases[k].targets[j] == request.targets[i] {
        assert(compatible(m.workspace, request, lease_claim(m.leases[k])));
        lemma_same_target_is_exclusive(m.workspace, request, lease_claim(m.leases[k]), i, j);
    }
}

/// A claim on a zone reserves the nodes and edges inside it: a claim on one of
/// them is compatible only if both are shared and the zone has room, or if the
/// windows do not overlap.
pub proof fn lemma_zone_claim_reserves_its_inside(
    ws: Workspace,
    zone_claim: ClaimRequestView,
    other: ClaimRequestView,
    i: int,
    j: int,
)
    requires
        0 <= i < zone_claim.targets.len(),
        0 <= j < other.targets.len(),
        zone_claim.targets[i].kind == ClaimTargetKind::Zone,
        other.targets[j].kind != ClaimTargetKind::Zone,
        lies_inside(&ws, other.targets[j], zone_claim.targets[i].resource_id),
        windows_overlap(zone_claim.window, other.window),
    ensures
        compatible(Some(ws), zone_claim, other) || compatible(Some(ws), other, zone_claim)
            ==> both_shared(zone_claim, other) && has_room(&ws, zone_claim.targets[i].resource_id),
{
    if compatible(Some(ws), zone_claim, other) {
        assert(!targets_conflict(
            Some(ws),
            zone_claim,
            other,
            zone_claim.targets[i],
            other.targets[j],
        ));
    }
    if compatible(Some(ws), other, zone_claim) {
        assert(!targets_conflict(
            Some(ws),
            other,
            zone_claim,
            other.targets[j],
            zone_claim.targets[i],
        ));
    }
}

proof fn lemma_no_zone_violation(
    ws: Workspace,
    request: ClaimRequestView,
    requests: Seq<ClaimRequestView>,
    leases: Seq<LeaseView>,
    k: nat,
    i: int,
)
    requires
        k <= i < request.targets.len(),
        zone_violation(ws, request, requests, leases, k) is None,
        forall|j: int|
            0 <= j < request.targets.len() ==> !target_missing(&ws, #[trigger] request.targets[j]),
        request.targets[i].kind == ClaimTargetKind::Zone,
        policy_at(&ws, request.targets[i].resource_id) matches Some(p) && p.capacity_is_explicit
            && p.capacity > 1,
    ensures
        occupancy(&ws, request, requests, leases, Space::Zone(request.targets[i].resource_id))
            <= policy_at(&ws, request.targets[i].resource_id).unwrap().capacity,
    decreases i - k,
{
    if k < i {
        assert(!target_missing(&ws, request.targets[k as int]));
        lemma_no_zone_violation(ws, request, requests, leases, k + 1, i);
    }
}

/// A shared request that is granted fits: in each zone that it claims and that
/// states a capacity of more than one, no more are present with it than that.
pub proof fn lemma_grant_keeps_zone_capacity(m: ClaimManagerView, request: ClaimRequestView, i: int)
    requires
        evaluation(m, request).decision == ClaimDecision::Grant,
        request.access_mode == ClaimAccessMode::Shared,
        0 <= i < request.targets.len(),
        request.targets[i].kind == ClaimTargetKind::Zone,
        m.workspace matches Some(ws) && policy_at(
            &ws,
            request.targets[i].resource_id,
        ) matches Some(p) && p.capacity_is_explicit && p.capacity > 1,
    ensures
        occupancy(
            &m.workspace.unwrap(),
            request,
            m.requests,
            m.leases,
            Space::Zone(request.targets[i].resource_id),
        ) <= policy_at(&m.workspace.unwrap(), request.targets[i].resource_id).unwrap().capacity,
{
    lemma_grant_means_clear(m, request);
    lemma_no_zone_violation(m.workspace.unwrap(), request, m.requests, m.leases, 0, i);
}

proof fn lemma_no_edge_violation(
    ws: Workspace,
    request: ClaimRequestView,
    requests: Seq<ClaimRequestView>,
    leases: Seq<LeaseView>,
    k: nat,
    i: int,
)
    requires
        k <= i < request.targets.len(),
        edge_violation(ws, request, requests, leases, k) is None,
        forall|j: int|
            0 <= j < request.targets.len() ==> !target_missing(&ws, #[trigger] request.targets[j]),
        request.targets[i].kind == ClaimTargetKind::Edge,
        semantics_at(&ws, request.targets[i].resource_id) matches Some(s) && (s.capacity_is_explicit
            && (s.capacity matches Some(c) && c > 1)),
    ensures
        occupancy(&ws, request, requests, leases, Space::Target(request.targets[i]))
            <= semantics_at(&ws, request.targets[i].resource_id).unwrap().capacity.unwrap(),
    decreases i - k,
{
    if k < i {
        assert(!target_missing(&ws, request.targets[k as int]));
        lemma_no_edge_violation(ws, request, requests, leases, k + 1, i);
    }
}

/// A shared request that is granted fits on each edge that it claims and that
/// states a capacity of more than one.
pub proof fn lemma_grant_keeps_edge_capacity(m: ClaimManagerView, request: ClaimRequestView, i: int)
    requires
        evaluation(m, request).decision == ClaimDecision::Grant,
        request.access_mode == ClaimAccessMode::Shared,
        0 <= i < request.targets.len(),
        request.targets[i].kind == ClaimTargetKind::Edge,
        m.workspace matches Some(ws) && semantics_at(
            &ws,
            request.targets[i].resource_id,
        ) matches Some(s) && (s.capacity_is_explicit && (s.capacity matches Some(c) && c > 1)),
    ensures
        occupancy(
            &m.workspace.unwrap(),
            request,
            m.requests,
            m.leases,
            Space::Target(request.targets[i]),
        ) <= semantics_at(
            &m.workspace.unwrap(),
            request.targets[i].resource_id,
        ).unwrap().capacity.unwrap(),
{
    lemma_grant_means_clear(m, request);
    lemma_no_edge_violation(m.workspace.unwrap(), request, m.requests, m.leases, 0, i);
}

proof fn lemma_no_member_violation(
    ws: Workspace,
    request: ClaimRequestView,
    requests: Seq<ClaimRequestView>,
    leases: Seq<LeaseView>,
    kind: ClaimTargetKind,
    zones: Seq<crate::guid::Uuid>,
    k: nat,
    z: int,
)
    requires
        k <= z < zones.len(),
        member_violation(ws, request, requests, leases, kind, zones, k) is None,
        policy_at(&ws, zones[z]) matches Some(p) && p.capacity_is_explicit && p.capacity > 1,
    ensures
        occupancy(&ws, request, requests, leases, Space::Members(kind, zones[z])) <= policy_at(
            &ws,
            zones[z],
        ).unwrap().capacity,
    decreases z - k,
{
    if k < z {
        lemma_no_member_violation(ws, request, requests, leases, kind, zones, k + 1, z);
    }
}

proof fn lemma_no_membership_violation(
    ws: Workspace,
    request: ClaimRequestView,
    requests: Seq<ClaimRequestView>,
    leases: Seq<LeaseView>,
    kind: ClaimTargetKind,
    k: nat,
    i: int,
    z: int,
)
    requires
        k <= i < request.targets.len(),
        membership_violation(ws, request, requests, leases, kind, k) is None,
        request.targets[i].kind == kind,
        0 <= z < member_ids(&ws, request.targets[i]).len(),
        policy_at(&ws, member_ids(&ws, request.targets[i])[z]) matches Some(p)
            && p.capacity_is_explicit && p.capacity > 1,
    ensures
        occupancy(
            &ws,
            request,
            requests,
            leases,
            Space::Members(kind, member_ids(&ws, request.targets[i])[z]),
        ) <= policy_at(&ws, member_ids(&ws, request.targets[i])[z]).unwrap().capacity,
    decreases i - k,
{
    if k < i {
        lemma_no_membership_violation(ws, request, requests, leases, kind, k + 1, i, z);
    } else {
        lemma_no_member_violation(
            ws,
            request,
            requests,
            leases,
            kind,
            member_ids(&ws, request.targets[i]),
            0,
            z,
        );
    }
}

/// A shared request that is granted fits in each zone that a claimed node or
/// edge is a member of and that states a capacity of more than one.
pub proof fn lemma_grant_keeps_membership_capacity(
    m: ClaimManagerView,
    request: ClaimRequestView,
    i: int,
    z: int,
)
    requires
        evaluation(m, request).decision == ClaimDecision::Grant,
        request.access_mode == ClaimAccessMode::Shared,
        0 <= i < request.targets.len(),
        request.targets[i].kind != ClaimTargetKind::Zone,
        m.workspace matches Some(ws) && (0 <= z < member_ids(&ws, request.targets[i]).len()
            && (policy_at(&ws, member_ids(&ws, request.targets[i])[z]) matches Some(p)
            && p.capacity_is_explicit && p.capacity > 1)),
    ensures
        occupancy(
            &m.workspace.unwrap(),
            request,
            m.requests,
            m.leases,
            Space::Members(
                request.targets[i].kind,
                member_ids(&m.workspace.unwrap(), request.targets[i])[z],
            ),
        ) <= policy_at(
            &m.workspace.unwrap(),
            member_ids(&m.workspace.unwrap(), request.targets[i])[z],
        ).unwrap().capacity,
{
    lemma_grant_means_clear(m, request);
    lemma_no_membership_violation(
        m.workspace.unwrap(),
        request,
        m.requests,
        m.leases,
        request.targets[i].kind,
        0,
        i,
        z,
    );
}

// ---------------------------------------------------------------------------
// identifiers
// ---------------------------------------------------------------------------

/// An identifier that is minted is in use nowhere in the ledger, whatever
/// identifiers are. It is above every one in use, and not below the counter,
/// wherever the greatest number has not been reached.
pub proof fn lemma_minted_id_is_fresh(m: ClaimManagerView)
    requires
        m.requests.len() + m.leases.len() < u64::MAX,
    ensures
        minted_id(m) >= 1,
        forall|i: int|
            0 <= i < m.requests.len() ==> (#[trigger] m.requests[i]).id.0 != minted_id(m),
        forall|i: int|
            0 <= i < m.leases.len() ==> (#[trigger] m.leases[i]).claim_id.0 != minted_id(m),
        counter_floor(m) < u64::MAX ==> {
            &&& minted_id(m) == counter_floor(m)
            &&& minted_id(m) >= m.next_id
            &&& forall|i: int|
                0 <= i < m.requests.len() ==> (#[trigger] m.requests[i]).id.0 < minted_id(m)
            &&& forall|i: int|
                0 <= i < m.leases.len() ==> (#[trigger] m.leases[i]).claim_id.0 < minted_id(m)
        },
{
    lemma_minted_id_is_free(m);
    if counter_floor(m) < u64::MAX {
        lemma_largest_ids(m, counter_floor(m));
        assert forall|i: int| 0 <= i < m.requests.len() implies (#[trigger] m.requests[i]).id.0
            < minted_id(m) by {
            lemma_largest_ids(m, m.requests[i].id.0);
        }
        assert forall|i: int| 0 <= i < m.leases.len() implies (#[trigger] m.leases[i]).claim_id.0
            < minted_id(m) by {
            lemma_largest_ids(m, m.leases[i].claim_id.0);
        }
    }
}

/// Identifiers are minted in ascending order, whatever happens to the ledger in
/// between, until the counter reaches the greatest number.
pub proof fn lemma_minted_ids_ascend(before: ClaimManagerView, after: ClaimManagerView)
    requires
        counter_floor(after) < u64::MAX,
        after.next_id >= one_more(counter_floor(before)),
    ensures
        minted_id(before) < minted_id(after),
{
    lemma_largest_ids(before, counter_floor(before));
    lemma_largest_ids(after, counter_floor(after));
}

// ---------------------------------------------------------------------------
// peace
// ---------------------------------------------------------------------------

/// Whether two claims are compatible, whichever is named first.
pub open spec fn agree(ws: Option<Workspace>, a: ClaimRequestView, b: ClaimRequestView) -> bool {
    compatible(ws, a, b) || compatible(ws, b, a)
}

/// Whether all requests in the ledger agree with each other.
pub open spec fn at_peace(m: ClaimManagerView) -> bool {
    forall|i: int, j: int|
        0 <= i < m.requests.len() && 0 <= j < m.requests.len() && (#[trigger] m.requests[i]).id != (
        #[trigger] m.requests[j]).id ==> agree(m.workspace, m.requests[i], m.requests[j])
}

/// As long as only requests are put into the ledger that are granted, all
/// requests in it agree with each other.
pub proof fn lemma_granted_request_keeps_peace(m: ClaimManagerView, request: ClaimRequestView)
    requires
        at_peace(m),
        evaluation(m, request).decision == ClaimDecision::Grant,
    ensures
        at_peace((ClaimManagerView { requests: requests_with(m.requests, request), ..m })),
{
    lemma_grant_means_clear(m, request);
    lemma_request_place(m.requests, request.id, 0);
    let after = requests_with(m.requests, request);
    assert forall|i: int, j: int|
        0 <= i < after.len() && 0 <= j < after.len() && (#[trigger] after[i]).id != (
        #[trigger] after[j]).id implies agree(m.workspace, after[i], after[j]) by {
        let slot = match request_place(m.requests, request.id, 0) {
            Some(k) => k,
            None => m.requests.len() as int,
        };
        if i == slot {
            assert(after[j] == m.requests[j]);
        } else if j == slot {
            assert(after[i] == m.requests[i]);
        } else {
            assert(after[i] == m.requests[i] && after[j] == m.requests[j]);
        }
    }
}

proof fn lemma_part_keeps_peace(m: ClaimManagerView, part: Seq<ClaimRequestView>)
    requires
        at_peace(m),
        forall|i: int| 0 <= i < part.len() ==> m.requests.contains(#[trigger] part[i]),
    ensures
        at_peace((ClaimManagerView { requests: part, ..m })),
{
    assert forall|i: int, j: int|
        0 <= i < part.len() && 0 <= j < part.len() && (#[trigger] part[i]).id != (
        #[trigger] part[j]).id implies agree(m.workspace, part[i], part[j]) by {
        let p = choose|p: int| 0 <= p < m.requests.len() && m.requests[p] == part[i];
        let q = choose|q: int| 0 <= q < m.requests.len() && m.requests[q] == part[j];
        assert(m.requests[p].id != m.requests[q].id);
    }
}

/// Taking a request out of the ledger, or all requests of a robot, leaves the
/// others in agreement.
pub proof fn lemma_withdrawal_keeps_peace(m: ClaimManagerView, k: int, robot: RobotId)
    requires
        at_peace(m),
    ensures
        0 <= k < m.requests.len() ==> at_peace(
            (ClaimManagerView { requests: m.requests.remove(k), ..m }),
        ),
        at_peace((ClaimManagerView { requests: requests_of_others(m.requests, robot), ..m })),
{
    if 0 <= k < m.requests.len() {
        let part = m.requests.remove(k);
        assert forall|i: int| 0 <= i < part.len() implies m.requests.contains(
            #[trigger] part[i],
        ) by {
            let p = if i < k { i } else { i + 1 };
            assert(part[i] == m.requests[p]);
        }
        lemma_part_keeps_peace(m, part);
    }
    let part = requests_of_others(m.requests, robot);
    lemma_requests_of_others(m.requests, robot);
    assert forall|i: int| 0 <= i < part.len() implies m.requests.contains(#[trigger] part[i]) by {
        assert(part.contains(part[i]));
    }
    lemma_part_keeps_peace(m, part);
}

/// While all requests agree, no two of them have the same target at the same
/// time unless both are shared.
pub proof fn lemma_peace_means_exclusion(m: ClaimManagerView, i: int, j: int, p: int, q: int)
    requires
        at_peace(m),
        0 <= i < m.requests.len(),
        0 <= j < m.requests.len(),
        m.requests[i].id != m.requests[j].id,
        0 <= p < m.requests[i].targets.len(),
        0 <= q < m.requests[j].targets.len(),
        m.requests[i].targets[p] == m.requests[j].targets[q],
        windows_overlap(m.requests[i].window, m.requests[j].window),
    ensures
        both_shared(m.requests[i], m.requests[j]),
{
    let (a, b) = (m.requests[i], m.requests[j]);
    if compatible(m.workspace, a, b) {
        lemma_same_target_is_exclusive(m.workspace, a, b, p, q);
    } else {
        lemma_same_target_is_exclusive(m.workspace, b, a, q, p);
    }
}

// ---------------------------------------------------------------------------
// the life of requests and leases
// ---------------------------------------------------------------------------

/// Whether no identifier occurs twice among the requests.
pub open spec fn unique_requests(requests: Seq<ClaimRequestView>) -> bool {
    forall|i: int, j: int|
        0 <= i < j < requests.len() ==> (#[trigger] requests[i]).id != (#[trigger] requests[j]).id
}

/// Whether no identifier occurs twice among the leases.
pub open spec fn unique_leases(leases: Seq<LeaseView>) -> bool {
    forall|i: int, j: int|
        0 <= i < j < leases.len() ==> (#[trigger] leases[i]).id != (#[trigger] leases[j]).id
}

/// A request that is put into the ledger is found there, no identifier comes to
/// occur twice, and every other request stays.
pub proof fn lemma_upsert_request(requests: Seq<ClaimRequestView>, r: ClaimRequestView)
    requires
        unique_requests(requests),
    ensures
        unique_requests(requests_with(requests, r)),
        request_place(requests_with(requests, r), r.id, 0) matches Some(i) && requests_with(
            requests,
            r,
        )[i] == r,
        forall|i: int|
            0 <= i < requests.len() && (#[trigger] requests[i]).id != r.id ==> requests_with(
                requests,
                r,
            )[i] == requests[i],
{
    let after = requests_with(requests, r);
    lemma_request_place(requests, r.id, 0);
    lemma_request_place(after, r.id, 0);
    match request_place(requests, r.id, 0) {
        Some(i) => {
            assert(after[i].id == r.id);
            assert forall|p: int, q: int| 0 <= p < q < after.len() implies (#[trigger] after[p]).id
                != (#[trigger] after[q]).id by {
                assert(requests[p].id != requests[q].id);
            }
        },
        None => {
            assert(after[after.len() - 1].id == r.id);
            assert forall|p: int, q: int| 0 <= p < q < after.len() implies (#[trigger] after[p]).id
                != (#[trigger] after[q]).id by {
                assert(after[p] == requests[p]);
                if q < requests.len() {
                    assert(requests[p].id != requests[q].id);
                }
            }
        },
    }
}

/// A lease that is put into the ledger is found there, no identifier comes to
/// occur twice, and every other lease stays.
pub proof fn lemma_upsert_lease(leases: Seq<LeaseView>, l: LeaseView)
    requires
        unique_leases(leases),
    ensures
        unique_leases(leases_with(leases, l)),
        lease_place(leases_with(leases, l), l.id, 0) matches Some(i) && leases_with(leases, l)[i]
            == l,
        forall|i: int|
            0 <= i < leases.len() && (#[trigger] leases[i]).id != l.id ==> leases_with(leases, l)[i]
                == leases[i],
{
    let after = leases_with(leases, l);
    lemma_lease_place(leases, l.id, 0);
    lemma_lease_place(after, l.id, 0);
    match lease_place(leases, l.id, 0) {
        Some(i) => {
            assert(after[i].id == l.id);
            assert forall|p: int, q: int| 0 <= p < q < after.len() implies (#[trigger] after[p]).id
                != (#[trigger] after[q]).id by {
                assert(leases[p].id != leases[q].id);
            }
        },
        None => {
            assert(after[after.len() - 1].id == l.id);
            assert forall|p: int, q: int| 0 <= p < q < after.len() implies (#[trigger] after[p]).id
                != (#[trigger] after[q]).id by {
                assert(after[p] == leases[p]);
                if q < leases.len() {
                    assert(leases[p].id != leases[q].id);
                }
            }
        },
    }
}

/// Taking the lease with an identifier away leaves none with it.
pub proof fn lemma_removed_lease_is_gone(leases: Seq<LeaseView>, id: LeaseId)
    requires
        unique_leases(leases),
        lease_place(leases, id, 0) is Some,
    ensures
        lease_place(leases.remove(lease_place(leases, id, 0).unwrap()), id, 0) is None,
        unique_leases(leases.remove(lease_place(leases, id, 0).unwrap())),
{
    lemma_lease_place(leases, id, 0);
    let i = lease_place(leases, id, 0).unwrap();
    let after = leases.remove(i);
    lemma_lease_place(after, id, 0);
    assert forall|p: int| 0 <= p < after.len() implies (#[trigger] after[p]).id != id by {
        let q = if p < i { p } else { p + 1 };
        assert(after[p] == leases[q]);
        if q < i {
            assert(leases[q].id != leases[i].id);
        } else {
            assert(leases[i].id != leases[q].id);
        }
    }
    assert forall|p: int, q: int| 0 <= p < q < after.len() implies (#[trigger] after[p]).id != (
    #[trigger] after[q]).id by {
        let a = if p < i { p } else { p + 1 };
        let b = if q < i { q } else { q + 1 };
        assert(leases[a].id != leases[b].id);
    }
}

/// Ending leases loses none: each one is kept as it was or put aside. None that
/// is kept should have been ended, and all that are put aside are inactive.
pub proof fn lemma_ending_conserves_leases(leases: Seq<LeaseView>, ending: Ending)
    ensures
        leases_kept(leases, ending).len() + leases_ended(leases, ending).len() == leases.len(),
        forall|i: int|
            0 <= i < leases_kept(leases, ending).len() ==> !is_ended(
                #[trigger] leases_kept(leases, ending)[i],
                ending,
            ) && leases.contains(leases_kept(leases, ending)[i]),
        forall|i: int|
            0 <= i < leases_ended(leases, ending).len() ==> !(#[trigger] leases_ended(
                leases,
                ending,
            )[i]).active,
        forall|l: LeaseView|
            leases.contains(l) ==> (if is_ended(l, ending) {
                leases_ended(leases, ending).contains(ended(l, ending))
            } else {
                leases_kept(leases, ending).contains(l)
            }),
    decreases leases.len(),
{
    if leases.len() > 0 {
        let rest = leases.drop_last();
        let last = leases.last();
        lemma_ending_conserves_leases(rest, ending);
        let kept = leases_kept(leases, ending);
        let out = leases_ended(leases, ending);
        assert forall|i: int| 0 <= i < kept.len() implies !is_ended(#[trigger] kept[i], ending)
            && leases.contains(kept[i]) by {
            if i < leases_kept(rest, ending).len() {
                assert(kept[i] == leases_kept(rest, ending)[i]);
                assert(rest.contains(kept[i]));
                let k = choose|k: int| 0 <= k < rest.len() && rest[k] == kept[i];
                assert(leases[k] == kept[i]);
            } else {
                assert(leases[leases.len() - 1] == kept[i]);
            }
        }
        assert forall|i: int| 0 <= i < out.len() implies !(#[trigger] out[i]).active by {
            if i < leases_ended(rest, ending).len() {
                assert(out[i] == leases_ended(rest, ending)[i]);
            }
        }
        assert forall|l: LeaseView| leases.contains(l) implies (if is_ended(l, ending) {
            out.contains(ended(l, ending))
        } else {
            kept.contains(l)
        }) by {
            let k = choose|k: int| 0 <= k < leases.len() && leases[k] == l;
            if k < rest.len() {
                assert(rest[k] == l);
                assert(rest.contains(l));
                if is_ended(l, ending) {
                    let before = leases_ended(rest, ending);
                    let i = choose|i: int| 0 <= i < before.len() && before[i] == ended(l, ending);
                    assert(out[i] == ended(l, ending));
                } else {
                    let before = leases_kept(rest, ending);
                    let i = choose|i: int| 0 <= i < before.len() && before[i] == l;
                    assert(kept[i] == l);
                }
            } else if is_ended(l, ending) {
                assert(out[out.len() - 1] == ended(l, ending));
            } else {
                assert(kept[kept.len() - 1] == l);
            }
        }
    }
}

/// Ending leases a second time ends none.
pub proof fn lemma_ending_twice_changes_nothing(leases: Seq<LeaseView>, ending: Ending)
    ensures
        leases_kept(leases_kept(leases, ending), ending) == leases_kept(leases, ending),
        leases_ended(leases_kept(leases, ending), ending) == Seq::<LeaseView>::empty(),
    decreases leases.len(),
{
    if leases.len() > 0 {
        let rest = leases.drop_last();
        lemma_ending_twice_changes_nothing(rest, ending);
        if !is_ended(leases.last(), ending) {
            let kept = leases_kept(leases, ending);
            assert(kept.drop_last() =~= leases_kept(rest, ending));
            assert(kept.last() == leases.last());
        }
    }
}

/// No request of a robot is left once its requests are removed, and every other
/// request stays.
pub proof fn lemma_requests_of_others(requests: Seq<ClaimRequestView>, robot: RobotId)
    ensures
        requests_of_others(requests, robot).len() <= requests.len(),
        forall|r: ClaimRequestView|
            requests_of_others(requests, robot).contains(r) <==> requests.contains(r) && r.robot_id
                != robot,
    decreases requests.len(),
{
    if requests.len() > 0 {
        let rest = requests.drop_last();
        lemma_requests_of_others(rest, robot);
        let before = requests_of_others(rest, robot);
        let after = requests_of_others(requests, robot);
        assert forall|r: ClaimRequestView|
            after.contains(r) <==> requests.contains(r) && r.robot_id != robot by {
            if after.contains(r) {
                let i = choose|i: int| 0 <= i < after.len() && after[i] == r;
                if i < before.len() {
                    assert(before[i] == r);
                    assert(rest.contains(r));
                    let k = choose|k: int| 0 <= k < rest.len() && rest[k] == r;
                    assert(requests[k] == r);
                } else {
                    assert(requests[requests.len() - 1] == r);
                }
            }
            if requests.contains(r) && r.robot_id != robot {
                let k = choose|k: int| 0 <= k < requests.len() && requests[k] == r;
                if k < rest.len() {
                    assert(rest[k] == r);
                    assert(rest.contains(r));
                    assert(before.contains(r));
                    let i = choose|i: int| 0 <= i < before.len() && before[i] == r;
                    assert(after[i] == r);
                } else {
                    assert(after[after.len() - 1] == r);
                }
            }
        }
    }
}

} // verus!
