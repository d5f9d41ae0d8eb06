//! Shared capacity: how many robots are in a place, and whether one more fits.

use super::conflicts::{
    claim_windows_overlap, do_zones_overlap, indexed, lease_span, lease_window, list_member_ids,
    member_ids, windows_overlap, zones_overlap,
};
use super::reasons::{append_target_diagnostics, target_diagnostics};
use super::{
    ClaimAccessMode, ClaimRequest, ClaimRequestView, ClaimTarget, ClaimTargetKind, Lease,
    LeaseView,
};
use crate::guid::Uuid;
use crate::ids::{ClaimId, LeaseId};
use crate::index::tables::{contains_id, policy_at, semantics_at};
use crate::index::WorkspaceIndex;
use crate::text::{decimal, decimal_text, joined};
use crate::views::{lemma_views_push, view_of, views};
use crate::workspace::{zone_at, Workspace};
use vstd::prelude::*;

verus! {

/// A place whose capacity is limited.
#[derive(Debug, Clone, Copy, PartialEq, Eq, Structural)]
pub enum Space {
    /// A zone, with the zones around and below it.
    Zone(Uuid),
    /// One target.
    Target(ClaimTarget),
    /// The nodes, or the edges, that are members of a zone.
    Members(ClaimTargetKind, Uuid),
}

/// Whether a target takes room in a place.
pub open spec fn target_uses(ws: &Workspace, t: ClaimTarget, space: Space) -> bool {
    match space {
        Space::Zone(z) => t.kind == ClaimTargetKind::Zone && zones_overlap(ws, t.resource_id, z),
        Space::Target(x) => t == x,
        Space::Members(kind, z) => t.kind == kind && zone_at(ws, z) is Some && member_ids(
            ws,
            t,
        ).contains(z),
    }
}

/// Whether any of a list of targets takes room in a place.
pub open spec fn targets_use(ws: &Workspace, targets: Seq<ClaimTarget>, space: Space) -> bool {
    exists|i: int| 0 <= i < targets.len() && target_uses(ws, #[trigger] targets[i], space)
}

fn does_target_use(index: &WorkspaceIndex, t: ClaimTarget, space: Space) -> (b: bool)
    ensures
        b == target_uses(&index@, t, space),
{
    match space {
        Space::Zone(z) => t.kind == ClaimTargetKind::Zone && do_zones_overlap(
            index,
            t.resource_id,
            z,
        ),
        Space::Target(x) => t == x,
        Space::Members(kind, z) => t.kind == kind && index.zone(z).is_some() && contains_id(
            &list_member_ids(index, t),
            z,
        ),
    }
}

fn do_targets_use(index: &WorkspaceIndex, targets: &Vec<ClaimTarget>, space: Space) -> (b: bool)
    ensures
        b == targets_use(&index@, targets@, space),
{
    let mut i: usize = 0;
    while i < targets.len()
        invariant
            i <= targets.len(),
            forall|j: int| 0 <= j < i ==> !target_uses(&index@, #[trigger] targets@[j], space),
        decreases targets.len() - i,
    {
        if does_target_use(index, targets[i], space) {
            assert(target_uses(&index@, targets@[i as int], space));
            return true;
        }
        i = i + 1;
    }
    false
}

/// Whether a request takes room in a place at the same time as another one.
pub open spec fn request_occupies(
    ws: &Workspace,
    request: ClaimRequestView,
    other: ClaimRequestView,
    space: Space,
) -> bool {
    &&& other.id != request.id
    &&& other.access_mode == ClaimAccessMode::Shared
    &&& windows_overlap(request.window, other.window)
    &&& targets_use(ws, other.targets, space)
}

/// Whether a lease takes room in a place at the same time as a request.
pub open spec fn lease_occupies(
    ws: &Workspace,
    request: ClaimRequestView,
    lease: LeaseView,
    space: Space,
) -> bool {
    &&& lease.active
    &&& lease.access_mode == ClaimAccessMode::Shared
    &&& windows_overlap(request.window, lease_span(lease))
    &&& targets_use(ws, lease.targets, space)
}

/// The requests that take room in a place at the same time as another one.
pub open spec fn occupying_requests(
    ws: &Workspace,
    request: ClaimRequestView,
    requests: Seq<ClaimRequestView>,
    space: Space,
) -> Seq<ClaimId>
    decreases requests.len(),
{
    if requests.len() == 0 {
        Seq::empty()
    } else {
        let before = occupying_requests(ws, request, requests.drop_last(), space);
        if request_occupies(ws, request, requests.last(), space) {
            before.push(requests.last().id)
        } else {
            before
        }
    }
}

/// The leases that take room in a place at the same time as a request.
pub open spec fn occupying_leases(
    ws: &Workspace,
    request: ClaimRequestView,
    leases: Seq<LeaseView>,
    space: Space,
) -> Seq<LeaseId>
    decreases leases.len(),
{
    if leases.len() == 0 {
        Seq::empty()
    } else {
        let before = occupying_leases(ws, request, leases.drop_last(), space);
        if lease_occupies(ws, request, leases.last(), space) {
            before.push(leases.last().id)
        } else {
            before
        }
    }
}

fn list_occupying_requests(
    index: &WorkspaceIndex,
    request: &ClaimRequest,
    requests: &Vec<ClaimRequest>,
    space: Space,
) -> (ids: Vec<ClaimId>)
    ensures
        ids@ == occupying_requests(&index@, request@, views(requests@), space),
{
    let ghost all = views(requests@);
    let mut ids: Vec<ClaimId> = Vec::new();
    let mut i: usize = 0;
    assert(all.take(0) =~= Seq::empty());
    while i < requests.len()
        invariant
            i <= requests.len(),
            all == views(requests@),
            ids@ == occupying_requests(&index@, request@, all.take(i as int), space),
        decreases requests.len() - i,
    {
        assert(all.take(i as int + 1).drop_last() =~= all.take(i as int));
        let other = &requests[i];
        assert(all[i as int] == other@);
        if other.id != request.id && other.access_mode == ClaimAccessMode::Shared
            && claim_windows_overlap(request.window, other.window) && do_targets_use(
            index,
            &other.targets,
            space,
        ) {
            ids.push(other.id);
        }
        i = i + 1;
    }
    assert(all.take(i as int) =~= all);
    ids
}

fn list_occupying_leases(
    index: &WorkspaceIndex,
    request: &ClaimRequest,
    leases: &Vec<Lease>,
    space: Space,
) -> (ids: Vec<LeaseId>)
    ensures
        ids@ == occupying_leases(&index@, request@, views(leases@), space),
{
    let ghost all = views(leases@);
    let mut ids: Vec<LeaseId> = Vec::new();
    let mut i: usize = 0;
    assert(all.take(0) =~= Seq::empty());
    while i < leases.len()
        invariant
            i <= leases.len(),
            all == views(leases@),
            ids@ == occupying_leases(&index@, request@, all.take(i as int), space),
        decreases leases.len() - i,
    {
        assert(all.take(i as int + 1).drop_last() =~= all.take(i as int));
        let lease = &leases[i];
        assert(all[i as int] == lease@);
        if lease.active && lease.access_mode == ClaimAccessMode::Shared && claim_windows_overlap(
            request.window,
            lease_window(lease),
        ) && do_targets_use(index, &lease.targets, space) {
            ids.push(lease.id);
        }
        i = i + 1;
    }
    assert(all.take(i as int) =~= all);
    ids
}

/// How many would be in a place with one more.
pub open spec fn occupancy(
    ws: &Workspace,
    request: ClaimRequestView,
    requests: Seq<ClaimRequestView>,
    leases: Seq<LeaseView>,
    space: Space,
) -> nat {
    1 + occupying_requests(ws, request, requests, space).len() + occupying_leases(
        ws,
        request,
        leases,
        space,
    ).len()
}

/// A capacity that a request would exceed.
#[derive(Debug)]
pub struct CapacityViolation {
    pub target: ClaimTarget,
    pub reason: String,
    pub conflicting_claim_id: Option<ClaimId>,
    pub conflicting_lease_id: Option<LeaseId>,
    pub diagnostics: Vec<String>,
}

/// What a [`CapacityViolation`] stands for.
pub struct CapacityViolationView {
    pub target: ClaimTarget,
    pub reason: Seq<char>,
    pub conflicting_claim_id: Option<ClaimId>,
    pub conflicting_lease_id: Option<LeaseId>,
    pub diagnostics: Seq<Seq<char>>,
}

impl View for CapacityViolation {
    type V = CapacityViolationView;

    open spec fn view(&self) -> CapacityViolationView {
        CapacityViolationView {
            target: self.target,
            reason: self.reason@,
            conflicting_claim_id: self.conflicting_claim_id,
            conflicting_lease_id: self.conflicting_lease_id,
            diagnostics: views(self.diagnostics@),
        }
    }
}

/// What a capacity limit is: where it is, how much fits, and how its violation is
/// reported.
pub struct LimitView {
    pub space: Space,
    pub capacity: u64,
    pub target: ClaimTarget,
    pub reason: Seq<char>,
    pub headline: Seq<char>,
}

/// The first item of a list, if there is one.
pub open spec fn first_of<T>(s: Seq<T>) -> Option<T> {
    if s.len() > 0 {
        Some(s[0])
    } else {
        None
    }
}

/// The violation of a limit by one more request, if it is violated.
pub open spec fn violation_of(
    ws: Workspace,
    request: ClaimRequestView,
    requests: Seq<ClaimRequestView>,
    leases: Seq<LeaseView>,
    limit: LimitView,
) -> Option<CapacityViolationView> {
    let n = occupancy(&ws, request, requests, leases, limit.space);
    if n > limit.capacity {
        Some(
            CapacityViolationView {
                target: limit.target,
                reason: limit.reason,
                conflicting_claim_id: first_of(
                    occupying_requests(&ws, request, requests, limit.space),
                ),
                conflicting_lease_id: first_of(
                    occupying_leases(&ws, request, leases, limit.space),
                ),
                diagnostics: seq![limit.headline] + target_diagnostics(Some(ws), limit.target)
                    + seq![
                    "configured capacity="@ + decimal_text(limit.capacity as nat),
                    "observed occupancy="@ + decimal_text(n),
                ],
            },
        )
    } else {
        None
    }
}

fn push_string(out: &mut Vec<String>, s: String)
    ensures
        views(final(out)@) == views(old(out)@).push(s@),
{
    proof {
        lemma_views_push(out@, s);
    }
    out.push(s);
}

fn find_violation(
    index: &WorkspaceIndex,
    request: &ClaimRequest,
    requests: &Vec<ClaimRequest>,
    leases: &Vec<Lease>,
    space: Space,
    capacity: u64,
    target: ClaimTarget,
    reason: &str,
    headline: &str,
) -> (v: Option<CapacityViolation>)
    ensures
        view_of(v) == violation_of(
            index@,
            request@,
            views(requests@),
            views(leases@),
            (LimitView { space, capacity, target, reason: reason@, headline: headline@ }),
        ),
{
    let claims = list_occupying_requests(index, request, requests, space);
    let held = list_occupying_leases(index, request, leases, space);
    let n: u128 = 1 + claims.len() as u128 + held.len() as u128;
    if n <= capacity as u128 {
        return None;
    }
    let mut diagnostics: Vec<String> = Vec::new();
    assert(views(diagnostics@) =~= Seq::empty());
    push_string(&mut diagnostics, headline.to_owned());
    append_target_diagnostics(Some(index), &mut diagnostics, target);
    let ghost shown = views(diagnostics@);
    push_string(
        &mut diagnostics,
        joined("configured capacity=", decimal(capacity as u128).as_str()),
    );
    push_string(&mut diagnostics, joined("observed occupancy=", decimal(n).as_str()));
    assert(views(diagnostics@) =~= shown + seq![
        "configured capacity="@ + decimal_text(capacity as nat),
        "observed occupancy="@ + decimal_text(n as nat),
    ]);
    assert(shown =~= seq![headline@] + target_diagnostics(Some(index@), target));
    let claim: Option<ClaimId> = if claims.len() > 0 {
        Some(claims[0])
    } else {
        None
    };
    let lease: Option<LeaseId> = if held.len() > 0 {
        Some(held[0])
    } else {
        None
    };
    Some(
        CapacityViolation {
            target,
            reason: reason.to_owned(),
            conflicting_claim_id: claim,
            conflicting_lease_id: lease,
            diagnostics,
        },
    )
}

// ---------------------------------------------------------------------------
// the limits that a request meets
// ---------------------------------------------------------------------------

/// The first limit of a claimed zone that is violated, from target `k` on.
pub open spec fn zone_violation(
    ws: Workspace,
    request: ClaimRequestView,
    requests: Seq<ClaimRequestView>,
    leases: Seq<LeaseView>,
    k: nat,
) -> Option<CapacityViolationView>
    decreases request.targets.len() - k,
{
    if k >= request.targets.len() {
        None
    } else {
        let t = request.targets[k as int];
        if t.kind != ClaimTargetKind::Zone {
            zone_violation(ws, request, requests, leases, k + 1)
        } else {
            match policy_at(&ws, t.resource_id) {
                None => None,
                Some(p) => if !p.capacity_is_explicit || p.capacity <= 1 {
                    zone_violation(ws, request, requests, leases, k + 1)
                } else {
                    match violation_of(
                        ws,
                        request,
                        requests,
                        leases,
                        LimitView {
                            space: Space::Zone(t.resource_id),
                            capacity: p.capacity,
                            target: t,
                            reason: "shared zone capacity exceeded"@,
                            headline: "zone capacity limit reached"@,
                        },
                    ) {
                        Some(v) => Some(v),
                        None => zone_violation(ws, request, requests, leases, k + 1),
                    }
                },
            }
        }
    }
}

/// The first limit of a claimed zone that is violated.
pub fn first_capacity_violation(
    index: Option<&WorkspaceIndex>,
    request: &ClaimRequest,
    requests: &Vec<ClaimRequest>,
    leases: &Vec<Lease>,
) -> (v: Option<CapacityViolation>)
    ensures
        view_of(v) == match indexed(index) {
            Some(ws) if request@.access_mode == ClaimAccessMode::Shared => zone_violation(
                ws,
                request@,
                views(requests@),
                views(leases@),
                0,
            ),
            _ => None,
        },
{
    let w = match index {
        Some(w) => w,
        None => {
            return None;
        },
    };
    if request.access_mode != ClaimAccessMode::Shared {
        return None;
    }
    let mut k: usize = 0;
    while k < request.targets.len()
        invariant
            k <= request.targets.len(),
            indexed(index) == Some(w@),
            request@.access_mode == ClaimAccessMode::Shared,
            zone_violation(w@, request@, views(requests@), views(leases@), 0) == zone_violation(
                w@,
                request@,
                views(requests@),
                views(leases@),
                k as nat,
            ),
        decreases request.targets.len() - k,
    {
        let t = request.targets[k];
        if t.kind == ClaimTargetKind::Zone {
            let policy = match w.zone_policy(t.resource_id) {
                Some(p) => p,
                None => {
                    return None;
                },
            };
            if policy.capacity_is_explicit && policy.capacity > 1 {
                let found = find_violation(
                    w,
                    request,
                    requests,
                    leases,
                    Space::Zone(t.resource_id),
                    policy.capacity,
                    t,
                    "shared zone capacity exceeded",
                    "zone capacity limit reached",
                );
                if found.is_some() {
                    return found;
                }
            }
        }
        k = k + 1;
    }
    None
}

/// The first limit of a claimed edge that is violated, from target `k` on.
pub open spec fn edge_violation(
    ws: Workspace,
    request: ClaimRequestView,
    requests: Seq<ClaimRequestView>,
    leases: Seq<LeaseView>,
    k: nat,
) -> Option<CapacityViolationView>
    decreases request.targets.len() - k,
{
    if k >= request.targets.len() {
        None
    } else {
        let t = request.targets[k as int];
        if t.kind != ClaimTargetKind::Edge {
            edge_violation(ws, request, requests, leases, k + 1)
        } else {
            match semantics_at(&ws, t.resource_id) {
                None => None,
                Some(s) => match s.capacity {
                    Some(capacity) if s.capacity_is_explicit && capacity > 1 => match violation_of(
                        ws,
                        request,
                        requests,
                        leases,
                        LimitView {
                            space: Space::Target(t),
                            capacity,
                            target: t,
                            reason: "shared edge capacity exceeded"@,
                            headline: "edge capacity limit reached"@,
                        },
                    ) {
                        Some(v) => Some(v),
                        None => edge_violation(ws, request, requests, leases, k + 1),
                    },
                    _ => edge_violation(ws, request, requests, leases, k + 1),
                },
            }
        }
    }
}

/// The first limit of a claimed edge that is violated.
pub fn first_edge_capacity_violation(
    index: Option<&WorkspaceIndex>,
    request: &ClaimRequest,
    requests: &Vec<ClaimRequest>,
    leases: &Vec<Lease>,
) -> (v: Option<CapacityViolation>)
    ensures
        view_of(v) == match indexed(index) {
            Some(ws) if request@.access_mode == ClaimAccessMode::Shared => edge_violation(
                ws,
                request@,
                views(requests@),
                views(leases@),
                0,
            ),
            _ => None,
        },
{
    let w = match index {
        Some(w) => w,
        None => {
            return None;
        },
    };
    if request.access_mode != ClaimAccessMode::Shared {
        return None;
    }
    let mut k: usize = 0;
    while k < request.targets.len()
        invariant
            k <= request.targets.len(),
            indexed(index) == Some(w@),
            request@.access_mode == ClaimAccessMode::Shared,
            edge_violation(w@, request@, views(requests@), views(leases@), 0) == edge_violation(
                w@,
                request@,
                views(requests@),
                views(leases@),
                k as nat,
            ),
        decreases request.targets.len() - k,
    {
        let t = request.targets[k];
        if t.kind == ClaimTargetKind::Edge {
            let semantics = match w.edge_semantics(t.resource_id) {
                Some(s) => s,
                None => {
                    return None;
                },
            };
            if let Some(capacity) = semantics.capacity {
                if semantics.capacity_is_explicit && capacity > 1 {
                    let found = find_violation(
                        w,
                        request,
                        requests,
                        leases,
                        Space::Target(t),
                        capacity,
                        t,
                        "shared edge capacity exceeded",
                        "edge capacity limit reached",
                    );
                    if found.is_some() {
                        return found;
                    }
                }
            }
        }
        k = k + 1;
    }
    None
}

/// Why a request is denied that exceeds what a zone holds of its members.
pub open spec fn member_reason(kind: ClaimTargetKind) -> Seq<char> {
    match kind {
        ClaimTargetKind::Node => "shared node-zone capacity exceeded"@,
        ClaimTargetKind::Edge => "shared edge-zone capacity exceeded"@,
        ClaimTargetKind::Zone => "shared capacity exceeded"@,
    }
}

/// What is told first of a request that exceeds what a zone holds of its members.
pub open spec fn member_headline(kind: ClaimTargetKind) -> Seq<char> {
    match kind {
        ClaimTargetKind::Node => "node claims exceed containing zone capacity"@,
        ClaimTargetKind::Edge => "edge claims exceed containing zone capacity"@,
        ClaimTargetKind::Zone => "claims exceed containing zone capacity"@,
    }
}

/// The first limit that is violated of the zones from number `k` on that a node
/// or an edge is a member of.
pub open spec fn member_violation(
    ws: Workspace,
    request: ClaimRequestView,
    requests: Seq<ClaimRequestView>,
    leases: Seq<LeaseView>,
    kind: ClaimTargetKind,
    zones: Seq<Uuid>,
    k: nat,
) -> Option<CapacityViolationView>
    decreases zones.len() - k,
{
    if k >= zones.len() {
        None
    } else {
        let zone = zones[k as int];
        match policy_at(&ws, zone) {
            Some(p) if p.capacity_is_explicit && p.capacity > 1 => match violation_of(
                ws,
                request,
                requests,
                leases,
                LimitView {
                    space: Space::Members(kind, zone),
                    capacity: p.capacity,
                    target: ClaimTarget { kind: ClaimTargetKind::Zone, resource_id: zone },
                    reason: member_reason(kind),
                    headline: member_headline(kind),
                },
            ) {
                Some(v) => Some(v),
                None => member_violation(ws, request, requests, leases, kind, zones, k + 1),
            },
            _ => member_violation(ws, request, requests, leases, kind, zones, k + 1),
        }
    }
}

/// The first limit that is violated of the zones that claimed nodes, or edges,
/// are members of, from target `k` on.
pub open spec fn membership_violation(
    ws: Workspace,
    request: ClaimRequestView,
    requests: Seq<ClaimRequestView>,
    leases: Seq<LeaseView>,
    kind: ClaimTargetKind,
    k: nat,
) -> Option<CapacityViolationView>
    decreases request.targets.len() - k,
{
    if k >= request.targets.len() {
        None
    } else {
        let t = request.targets[k as int];
        let rest = membership_violation(ws, request, requests, leases, kind, k + 1);
        if t.kind != kind {
            rest
        } else {
            match member_violation(ws, request, requests, leases, kind, member_ids(&ws, t), 0) {
                Some(v) => Some(v),
                None => rest,
            }
        }
    }
}

fn find_member_violation(
    w: &WorkspaceIndex,
    request: &ClaimRequest,
    requests: &Vec<ClaimRequest>,
    leases: &Vec<Lease>,
    kind: ClaimTargetKind,
    zones: &Vec<Uuid>,
) -> (v: Option<CapacityViolation>)
    ensures
        view_of(v) == member_violation(
            w@,
            request@,
            views(requests@),
            views(leases@),
            kind,
            zones@,
            0,
        ),
{
    let reason = match kind {
        ClaimTargetKind::Node => "shared node-zone capacity exceeded",
        ClaimTargetKind::Edge => "shared edge-zone capacity exceeded",
        ClaimTargetKind::Zone => "shared capacity exceeded",
    };
    let headline = match kind {
        ClaimTargetKind::Node => "node claims exceed containing zone capacity",
        ClaimTargetKind::Edge => "edge claims exceed containing zone capacity",
        ClaimTargetKind::Zone => "claims exceed containing zone capacity",
    };
    let mut k: usize = 0;
    while k < zones.len()
        invariant
            k <= zones.len(),
            reason@ == member_reason(kind),
            headline@ == member_headline(kind),
            member_violation(w@, request@, views(requests@), views(leases@), kind, zones@, 0)
                == member_violation(
                w@,
                request@,
                views(requests@),
                views(leases@),
                kind,
                zones@,
                k as nat,
            ),
        decreases zones.len() - k,
    {
        let zone = zones[k];
        if let Some(policy) = w.zone_policy(zone) {
            if policy.capacity_is_explicit && policy.capacity > 1 {
                let found = find_violation(
                    w,
                    request,
                    requests,
                    leases,
                    Space::Members(kind, zone),
                    policy.capacity,
                    ClaimTarget { kind: ClaimTargetKind::Zone, resource_id: zone },
                    reason,
                    headline,
                );
                if found.is_some() {
                    return found;
                }
            }
        }
        k = k + 1;
    }
    None
}

/// The first limit that is violated of the zones that claimed nodes, or edges,
/// are members of.
pub fn first_membership_capacity_violation(
    index: Option<&WorkspaceIndex>,
    request: &ClaimRequest,
    requests: &Vec<ClaimRequest>,
    leases: &Vec<Lease>,
    kind: ClaimTargetKind,
) -> (v: Option<CapacityViolation>)
    ensures
        view_of(v) == match indexed(index) {
            Some(ws) if request@.access_mode == ClaimAccessMode::Shared => membership_violation(
                ws,
                request@,
                views(requests@),
                views(leases@),
                kind,
                0,
            ),
            _ => None,
        },
{
    let w = match index {
        Some(w) => w,
        None => {
            return None;
        },
    };
    if request.access_mode != ClaimAccessMode::Shared {
        return None;
    }
    let mut k: usize = 0;
    while k < request.targets.len()
        invariant
            k <= request.targets.len(),
            indexed(index) == Some(w@),
            request@.access_mode == ClaimAccessMode::Shared,
            membership_violation(w@, request@, views(requests@), views(leases@), kind, 0)
                == membership_violation(
                w@,
                request@,
                views(requests@),
                views(leases@),
                kind,
                k as nat,
            ),
        decreases request.targets.len() - k,
    {
        let t = request.targets[k];
        if t.kind == kind {
            let zones = list_member_ids(w, t);
            let found = find_member_violation(w, request, requests, leases, kind, &zones);
            if found.is_some() {
                return found;
            }
        }
        k = k + 1;
    }
    None
}

} // verus!
