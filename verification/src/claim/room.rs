//! How much room there is for claims, in terms of the claims that are counted and
//! of what zones and edges state.

use super::capacity::{
    edge_violation, member_violation, membership_violation, occupancy, occupying_leases,
    occupying_requests, target_uses, targets_use, violation_of, zone_violation,
    CapacityViolationView, LimitView, Space,
};
use super::conflicts::member_ids;
use super::exclusion::{apart, is_member};
use super::manager::{exceeded_capacity, target_missing};
use super::{
    ClaimAccessMode, ClaimRequestView, ClaimTarget, ClaimTargetKind, ClaimWindow, LeaseView,
};
use crate::guid::Uuid;
use crate::index::tables::{policy_at, semantics_at, zone_parents};
use crate::index::walks::is_ancestor;
use crate::workspace::{zone_at, Workspace};
use vstd::prelude::*;

verus! {

/// Whether a target takes room: of a zone if it is that zone or one around or
/// inside it, of another target if it is that, and of what a zone holds of nodes,
/// or of edges, if it is a member of the zone.
pub open spec fn fills(ws: &Workspace, t: ClaimTarget, space: Space) -> bool {
    match space {
        Space::Zone(z) => t.kind == ClaimTargetKind::Zone && (t.resource_id == z || is_ancestor(
            zone_parents(ws),
            t.resource_id,
            z,
        ) || is_ancestor(zone_parents(ws), z, t.resource_id)),
        Space::Target(x) => t.kind == x.kind && t.resource_id == x.resource_id,
        Space::Members(kind, z) => t.kind == kind && zone_at(ws, z) is Some && is_member(ws, t, z),
    }
}

/// Whether one of a list of targets takes room.
pub open spec fn one_fills(ws: &Workspace, targets: Seq<ClaimTarget>, space: Space) -> bool {
    exists|i: int| 0 <= i < targets.len() && fills(ws, #[trigger] targets[i], space)
}

/// The other shared requests in overlapping windows that take room.
pub open spec fn requests_there(
    ws: Workspace,
    request: ClaimRequestView,
    requests: Seq<ClaimRequestView>,
    space: Space,
) -> Seq<ClaimRequestView> {
    requests.filter(
        |r: ClaimRequestView|
            r.id != request.id && r.access_mode == ClaimAccessMode::Shared && !apart(
                request.window,
                r.window,
            ) && one_fills(&ws, r.targets, space),
    )
}

/// The active shared leases in overlapping windows that take room. A lease is
/// there from when it was granted until it expires.
pub open spec fn leases_there(
    ws: Workspace,
    request: ClaimRequestView,
    leases: Seq<LeaseView>,
    space: Space,
) -> Seq<LeaseView> {
    leases.filter(
        |l: LeaseView|
            l.active && l.access_mode == ClaimAccessMode::Shared && !apart(
                request.window,
                ClaimWindow { start_tick: l.granted_at_tick, end_tick: l.expires_at_tick },
            ) && one_fills(&ws, l.targets, space),
    )
}

proof fn lemma_uses_is_filling(ws: &Workspace, targets: Seq<ClaimTarget>, space: Space)
    ensures
        targets_use(ws, targets, space) <==> one_fills(ws, targets, space),
{
    assert forall|t: ClaimTarget| #[trigger] target_uses(ws, t, space) == fills(ws, t, space) by {}
    if targets_use(ws, targets, space) {
        let i = choose|i: int|
            0 <= i < targets.len() && target_uses(ws, #[trigger] targets[i], space);
        assert(fills(ws, targets[i], space));
    }
    if one_fills(ws, targets, space) {
        let i = choose|i: int| 0 <= i < targets.len() && fills(ws, #[trigger] targets[i], space);
        assert(target_uses(ws, targets[i], space));
    }
}

/// The requests that are counted in a place are the other shared ones whose
/// windows overlap and that take room there, in the order in which they are held.
pub proof fn lemma_requests_counted(
    ws: Workspace,
    request: ClaimRequestView,
    requests: Seq<ClaimRequestView>,
    space: Space,
)
    ensures
        occupying_requests(&ws, request, requests, space) == requests_there(
            ws,
            request,
            requests,
            space,
        ).map_values(|r: ClaimRequestView| r.id),
    decreases requests.len(),
{
    reveal(Seq::filter);
    let id_of = |r: ClaimRequestView| r.id;
    if requests.len() > 0 {
        let last = requests.last();
        lemma_requests_counted(ws, request, requests.drop_last(), space);
        lemma_uses_is_filling(&ws, last.targets, space);
        let before = requests_there(ws, request, requests.drop_last(), space);
        assert(before.push(last).map_values(id_of) =~= before.map_values(id_of).push(last.id));
    } else {
        assert(requests_there(ws, request, requests, space).map_values(id_of) =~= Seq::empty());
    }
}

/// The leases that are counted in a place are the active shared ones whose time
/// overlaps and that take room there, in the order in which they are held.
pub proof fn lemma_leases_counted(
    ws: Workspace,
    request: ClaimRequestView,
    leases: Seq<LeaseView>,
    space: Space,
)
    ensures
        occupying_leases(&ws, request, leases, space) == leases_there(
            ws,
            request,
            leases,
            space,
        ).map_values(|l: LeaseView| l.id),
    decreases leases.len(),
{
    reveal(Seq::filter);
    let id_of = |l: LeaseView| l.id;
    if leases.len() > 0 {
        let last = leases.last();
        lemma_leases_counted(ws, request, leases.drop_last(), space);
        lemma_uses_is_filling(&ws, last.targets, space);
        let before = leases_there(ws, request, leases.drop_last(), space);
        assert(before.push(last).map_values(id_of) =~= before.map_values(id_of).push(last.id));
    } else {
        assert(leases_there(ws, request, leases, space).map_values(id_of) =~= Seq::empty());
    }
}

/// How many are in a place together with a request: those that are counted there
/// and the request itself.
pub open spec fn present(
    ws: Workspace,
    request: ClaimRequestView,
    requests: Seq<ClaimRequestView>,
    leases: Seq<LeaseView>,
    space: Space,
) -> nat {
    requests_there(ws, request, requests, space).len() + leases_there(
        ws,
        request,
        leases,
        space,
    ).len() + 1
}

/// The occupancy of a place is the number of those present.
pub proof fn lemma_occupancy_counts_those_present(
    ws: Workspace,
    request: ClaimRequestView,
    requests: Seq<ClaimRequestView>,
    leases: Seq<LeaseView>,
    space: Space,
)
    ensures
        occupancy(&ws, request, requests, leases, space) == present(
            ws,
            request,
            requests,
            leases,
            space,
        ),
{
    lemma_requests_counted(ws, request, requests, space);
    lemma_leases_counted(ws, request, leases, space);
}

/// Whether more are present in a zone that a target is a member of than the room
/// that the zone states, which is for more than one.
pub open spec fn member_room_short(
    ws: Workspace,
    request: ClaimRequestView,
    requests: Seq<ClaimRequestView>,
    leases: Seq<LeaseView>,
    t: ClaimTarget,
) -> bool {
    exists|z: Uuid| #[trigger]
        is_member(&ws, t, z) && (policy_at(&ws, z) matches Some(p) && p.capacity_is_explicit
            && p.capacity > 1 && present(
            ws,
            request,
            requests,
            leases,
            Space::Members(t.kind, z),
        ) > p.capacity)
}

/// Whether there is too little room for a target of a request: in a zone, on an
/// edge or among the members of a zone, each of which states room for more than
/// one, and for fewer than are present.
pub open spec fn room_short(
    ws: Workspace,
    request: ClaimRequestView,
    requests: Seq<ClaimRequestView>,
    leases: Seq<LeaseView>,
    t: ClaimTarget,
) -> bool {
    match t.kind {
        ClaimTargetKind::Zone => policy_at(&ws, t.resource_id) matches Some(p)
            && p.capacity_is_explicit && p.capacity > 1 && present(
            ws,
            request,
            requests,
            leases,
            Space::Zone(t.resource_id),
        ) > p.capacity,
        ClaimTargetKind::Node => member_room_short(ws, request, requests, leases, t),
        ClaimTargetKind::Edge => member_room_short(ws, request, requests, leases, t) || (
        semantics_at(&ws, t.resource_id) matches Some(s) && s.capacity_is_explicit && (
        s.capacity matches Some(c) && c > 1 && present(
            ws,
            request,
            requests,
            leases,
            Space::Target(t),
        ) > c)),
    }
}

proof fn lemma_zone_room(
    ws: Workspace,
    request: ClaimRequestView,
    requests: Seq<ClaimRequestView>,
    leases: Seq<LeaseView>,
    k: nat,
)
    requires
        forall|i: int|
            0 <= i < request.targets.len() ==> !target_missing(&ws, #[trigger] request.targets[i]),
    ensures
        zone_violation(ws, request, requests, leases, k) is Some <==> exists|i: int|
            k <= i < request.targets.len() && (#[trigger] request.targets[i]).kind
                == ClaimTargetKind::Zone && room_short(
                ws,
                request,
                requests,
                leases,
                request.targets[i],
            ),
    decreases request.targets.len() - k,
{
    if k < request.targets.len() {
        let t = request.targets[k as int];
        assert(!target_missing(&ws, t));
        lemma_zone_room(ws, request, requests, leases, k + 1);
        lemma_occupancy_counts_those_present(
            ws,
            request,
            requests,
            leases,
            Space::Zone(t.resource_id),
        );
    }
}

proof fn lemma_edge_room(
    ws: Workspace,
    request: ClaimRequestView,
    requests: Seq<ClaimRequestView>,
    leases: Seq<LeaseView>,
    k: nat,
)
    requires
        forall|i: int|
            0 <= i < request.targets.len() ==> !target_missing(&ws, #[trigger] request.targets[i]),
    ensures
        edge_violation(ws, request, requests, leases, k) is Some <==> exists|i: int|
            k <= i < request.targets.len() && (#[trigger] request.targets[i]).kind
                == ClaimTargetKind::Edge && (semantics_at(
                &ws,
                request.targets[i].resource_id,
            ) matches Some(s) && s.capacity_is_explicit && (s.capacity matches Some(c) && c > 1
                && present(ws, request, requests, leases, Space::Target(request.targets[i])) > c)),
    decreases request.targets.len() - k,
{
    if k < request.targets.len() {
        let t = request.targets[k as int];
        assert(!target_missing(&ws, t));
        lemma_edge_room(ws, request, requests, leases, k + 1);
        lemma_occupancy_counts_those_present(ws, request, requests, leases, Space::Target(t));
    }
}

proof fn lemma_zone_member_room(
    ws: Workspace,
    request: ClaimRequestView,
    requests: Seq<ClaimRequestView>,
    leases: Seq<LeaseView>,
    kind: ClaimTargetKind,
    zones: Seq<Uuid>,
    k: nat,
)
    ensures
        member_violation(ws, request, requests, leases, kind, zones, k) is Some <==> exists|i: int|
            k <= i < zones.len() && (policy_at(&ws, #[trigger] zones[i]) matches Some(p)
                && p.capacity_is_explicit && p.capacity > 1 && present(
                ws,
                request,
                requests,
                leases,
                Space::Members(kind, zones[i]),
            ) > p.capacity),
    decreases zones.len() - k,
{
    if k < zones.len() {
        let z = zones[k as int];
        lemma_zone_member_room(ws, request, requests, leases, kind, zones, k + 1);
        lemma_occupancy_counts_those_present(
            ws,
            request,
            requests,
            leases,
            Space::Members(kind, z),
        );
    }
}

proof fn lemma_member_room(
    ws: Workspace,
    request: ClaimRequestView,
    requests: Seq<ClaimRequestView>,
    leases: Seq<LeaseView>,
    kind: ClaimTargetKind,
    k: nat,
)
    ensures
        membership_violation(ws, request, requests, leases, kind, k) is Some <==> exists|i: int|
            k <= i < request.targets.len() && (#[trigger] request.targets[i]).kind == kind
                && member_room_short(ws, request, requests, leases, request.targets[i]),
    decreases request.targets.len() - k,
{
    if k < request.targets.len() {
        let t = request.targets[k as int];
        lemma_member_room(ws, request, requests, leases, kind, k + 1);
        if t.kind == kind {
            let zones = member_ids(&ws, t);
            lemma_zone_member_room(ws, request, requests, leases, kind, zones, 0);
            if member_room_short(ws, request, requests, leases, t) {
                let z = choose|z: Uuid| #[trigger]
                    is_member(&ws, t, z) && (policy_at(&ws, z) matches Some(p)
                        && p.capacity_is_explicit && p.capacity > 1 && present(
                        ws,
                        request,
                        requests,
                        leases,
                        Space::Members(t.kind, z),
                    ) > p.capacity);
                assert(zones.contains(z));
                let i = choose|i: int| 0 <= i < zones.len() && zones[i] == z;
                assert(member_violation(ws, request, requests, leases, kind, zones, 0) is Some);
            }
            if member_violation(ws, request, requests, leases, kind, zones, 0) is Some {
                let i = choose|i: int|
                    0 <= i < zones.len() && (policy_at(&ws, #[trigger] zones[i]) matches Some(p)
                        && p.capacity_is_explicit && p.capacity > 1 && present(
                        ws,
                        request,
                        requests,
                        leases,
                        Space::Members(kind, zones[i]),
                    ) > p.capacity);
                assert(is_member(&ws, t, zones[i]));
                assert(member_room_short(ws, request, requests, leases, t));
            }
        }
    }
}

/// A request exceeds a capacity exactly if it is shared and there is too little
/// room for one of its targets.
pub proof fn lemma_when_room_is_short(
    ws: Workspace,
    request: ClaimRequestView,
    requests: Seq<ClaimRequestView>,
    leases: Seq<LeaseView>,
)
    requires
        forall|i: int|
            0 <= i < request.targets.len() ==> !target_missing(&ws, #[trigger] request.targets[i]),
    ensures
        exceeded_capacity(Some(ws), request, requests, leases) is Some <==> request.access_mode
            == ClaimAccessMode::Shared && exists|i: int|
            0 <= i < request.targets.len() && room_short(
                ws,
                request,
                requests,
                leases,
                #[trigger] request.targets[i],
            ),
        exceeded_capacity(None, request, requests, leases) is None,
{
    lemma_zone_room(ws, request, requests, leases, 0);
    lemma_edge_room(ws, request, requests, leases, 0);
    lemma_member_room(ws, request, requests, leases, ClaimTargetKind::Node, 0);
    lemma_member_room(ws, request, requests, leases, ClaimTargetKind::Edge, 0);
    if request.access_mode == ClaimAccessMode::Shared && exists|i: int|
        0 <= i < request.targets.len() && room_short(
            ws,
            request,
            requests,
            leases,
            #[trigger] request.targets[i],
        ) {
        let i = choose|i: int|
            0 <= i < request.targets.len() && room_short(
                ws,
                request,
                requests,
                leases,
                #[trigger] request.targets[i],
            );
        assert(request.targets[i].kind == ClaimTargetKind::Zone || request.targets[i].kind
            == ClaimTargetKind::Node || request.targets[i].kind == ClaimTargetKind::Edge);
    }
}

/// Whether a violation is of a place: it names the place, and the first request
/// and the first lease that are counted there.
pub open spec fn blames(
    ws: Workspace,
    request: ClaimRequestView,
    requests: Seq<ClaimRequestView>,
    leases: Seq<LeaseView>,
    v: CapacityViolationView,
    space: Space,
) -> bool {
    let others = requests_there(ws, request, requests, space);
    let held = leases_there(ws, request, leases, space);
    &&& match space {
        Space::Zone(z) => v.target.kind == ClaimTargetKind::Zone && v.target.resource_id == z,
        Space::Target(t) => v.target == t,
        Space::Members(_, z) => v.target.kind == ClaimTargetKind::Zone && v.target.resource_id == z,
    }
    &&& others.len() > 0 ==> v.conflicting_claim_id == Some(others[0].id)
    &&& others.len() == 0 ==> v.conflicting_claim_id is None
    &&& held.len() > 0 ==> v.conflicting_lease_id == Some(held[0].id)
    &&& held.len() == 0 ==> v.conflicting_lease_id is None
}

/// Whether a limit names its place.
spec fn names_its_place(limit: LimitView) -> bool {
    match limit.space {
        Space::Zone(z) => limit.target.kind == ClaimTargetKind::Zone && limit.target.resource_id
            == z,
        Space::Target(t) => limit.target == t,
        Space::Members(_, z) => limit.target.kind == ClaimTargetKind::Zone
            && limit.target.resource_id == z,
    }
}

/// Whether a violation is of some place.
pub open spec fn blames_some(
    ws: Workspace,
    request: ClaimRequestView,
    requests: Seq<ClaimRequestView>,
    leases: Seq<LeaseView>,
    v: CapacityViolationView,
) -> bool {
    exists|s: Space| #[trigger] blames(ws, request, requests, leases, v, s)
}

proof fn lemma_blame(
    ws: Workspace,
    request: ClaimRequestView,
    requests: Seq<ClaimRequestView>,
    leases: Seq<LeaseView>,
)
    ensures
        forall|limit: LimitView| #[trigger]
            violation_of(ws, request, requests, leases, limit) is Some && names_its_place(limit)
                ==> blames_some(
                ws,
                request,
                requests,
                leases,
                violation_of(ws, request, requests, leases, limit).unwrap(),
            ),
{
    assert forall|limit: LimitView| #[trigger]
        violation_of(ws, request, requests, leases, limit) is Some && names_its_place(
            limit,
        ) implies blames_some(
        ws,
        request,
        requests,
        leases,
        violation_of(ws, request, requests, leases, limit).unwrap(),
    ) by {
        lemma_requests_counted(ws, request, requests, limit.space);
        lemma_leases_counted(ws, request, leases, limit.space);
        let v = violation_of(ws, request, requests, leases, limit).unwrap();
        assert(blames(ws, request, requests, leases, v, limit.space));
    }
}

proof fn lemma_zone_blame(
    ws: Workspace,
    request: ClaimRequestView,
    requests: Seq<ClaimRequestView>,
    leases: Seq<LeaseView>,
    k: nat,
)
    ensures
        zone_violation(ws, request, requests, leases, k) matches Some(v) ==> blames_some(
            ws,
            request,
            requests,
            leases,
            v,
        ),
    decreases request.targets.len() - k,
{
    if k < request.targets.len() {
        lemma_blame(ws, request, requests, leases);
        lemma_zone_blame(ws, request, requests, leases, k + 1);
    }
}

proof fn lemma_edge_blame(
    ws: Workspace,
    request: ClaimRequestView,
    requests: Seq<ClaimRequestView>,
    leases: Seq<LeaseView>,
    k: nat,
)
    ensures
        edge_violation(ws, request, requests, leases, k) matches Some(v) ==> blames_some(
            ws,
            request,
            requests,
            leases,
            v,
        ),
    decreases request.targets.len() - k,
{
    if k < request.targets.len() {
        lemma_blame(ws, request, requests, leases);
        lemma_edge_blame(ws, request, requests, leases, k + 1);
    }
}

proof fn lemma_member_blame(
    ws: Workspace,
    request: ClaimRequestView,
    requests: Seq<ClaimRequestView>,
    leases: Seq<LeaseView>,
    kind: ClaimTargetKind,
    zones: Seq<Uuid>,
    k: nat,
)
    ensures
        member_violation(ws, request, requests, leases, kind, zones, k) matches Some(v) ==> blames_some(
            ws,
            request,
            requests,
            leases,
            v,
        ),
    decreases zones.len() - k,
{
    if k < zones.len() {
        lemma_blame(ws, request, requests, leases);
        lemma_member_blame(ws, request, requests, leases, kind, zones, k + 1);
    }
}

proof fn lemma_membership_blame(
    ws: Workspace,
    request: ClaimRequestView,
    requests: Seq<ClaimRequestView>,
    leases: Seq<LeaseView>,
    kind: ClaimTargetKind,
    k: nat,
)
    ensures
        membership_violation(ws, request, requests, leases, kind, k) matches Some(v)
            ==> blames_some(ws, request, requests, leases, v),
    decreases request.targets.len() - k,
{
    if k < request.targets.len() {
        let t = request.targets[k as int];
        lemma_member_blame(ws, request, requests, leases, kind, member_ids(&ws, t), 0);
        lemma_membership_blame(ws, request, requests, leases, kind, k + 1);
    }
}

/// A request that exceeds a capacity is told where, and of the first other request
/// and the first lease that are counted there.
pub proof fn lemma_who_is_blamed_for_short_room(
    ws: Workspace,
    request: ClaimRequestView,
    requests: Seq<ClaimRequestView>,
    leases: Seq<LeaseView>,
)
    ensures
        exceeded_capacity(Some(ws), request, requests, leases) matches Some(v) ==> blames_some(
            ws,
            request,
            requests,
            leases,
            v,
        ),
{
    lemma_zone_blame(ws, request, requests, leases, 0);
    lemma_edge_blame(ws, request, requests, leases, 0);
    lemma_membership_blame(ws, request, requests, leases, ClaimTargetKind::Node, 0);
    lemma_membership_blame(ws, request, requests, leases, ClaimTargetKind::Edge, 0);
}

} // verus!
