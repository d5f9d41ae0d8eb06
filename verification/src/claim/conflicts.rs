//! When two claims stand in each other's way.

use super::{
    blank_request, ClaimAccessMode, ClaimRequest, ClaimRequestView, ClaimTarget, ClaimTargetKind,
    ClaimWindow, Lease, LeaseView,
};
use crate::guid::Uuid;
use crate::index::tables::{contains_id, looked_up, policy_at, zone_parents};
use crate::index::{contains_zone, edge_zone_ids, node_zone_ids, WorkspaceIndex};
use crate::policy::{empty_policy, ZonePolicy, ZonePolicyKind, ZonePolicyView};
use crate::views::copy_list;
use crate::workspace::{zone_at, Workspace};
use vstd::prelude::*;

verus! {

// ---------------------------------------------------------------------------
// windows
// ---------------------------------------------------------------------------

/// Whether a tick lies in a window.
pub open spec fn in_window(w: ClaimWindow, tick: u64) -> bool {
    &&& w.start_tick matches Some(s) ==> s <= tick
    &&& w.end_tick matches Some(e) ==> tick <= e
}

/// Where a window begins.
pub open spec fn window_start(w: ClaimWindow) -> u64 {
    match w.start_tick {
        Some(t) => t,
        None => 0,
    }
}

/// Where a window ends.
pub open spec fn window_end(w: ClaimWindow) -> u64 {
    match w.end_tick {
        Some(t) => t,
        None => u64::MAX,
    }
}

/// Whether neither window ends before the other one begins.
pub open spec fn windows_overlap(a: ClaimWindow, b: ClaimWindow) -> bool {
    window_start(a) <= window_end(b) && window_start(b) <= window_end(a)
}

/// Whether neither window ends before the other one begins.
pub fn claim_windows_overlap(a: ClaimWindow, b: ClaimWindow) -> (r: bool)
    ensures
        r == windows_overlap(a, b),
{
    let a_start: u64 = match a.start_tick {
        Some(t) => t,
        None => 0,
    };
    let b_start: u64 = match b.start_tick {
        Some(t) => t,
        None => 0,
    };
    let a_end: u64 = match a.end_tick {
        Some(t) => t,
        None => u64::MAX,
    };
    let b_end: u64 = match b.end_tick {
        Some(t) => t,
        None => u64::MAX,
    };
    a_start <= b_end && b_start <= a_end
}

/// Which of two windows is named first does not matter.
pub proof fn lemma_windows_overlap_symmetric(a: ClaimWindow, b: ClaimWindow)
    ensures
        windows_overlap(a, b) == windows_overlap(b, a),
{
}

/// Windows that do not end before they begin overlap exactly where some tick
/// lies in both.
pub proof fn lemma_windows_overlap_share_a_tick(a: ClaimWindow, b: ClaimWindow)
    requires
        window_start(a) <= window_end(a),
        window_start(b) <= window_end(b),
    ensures
        windows_overlap(a, b) <==> exists|t: u64| in_window(a, t) && in_window(b, t),
{
    if windows_overlap(a, b) {
        let t = if window_start(a) <= window_start(b) {
            window_start(b)
        } else {
            window_start(a)
        };
        assert(in_window(a, t) && in_window(b, t));
    }
}

/// The window of a lease.
pub open spec fn lease_span(l: LeaseView) -> ClaimWindow {
    ClaimWindow { start_tick: l.granted_at_tick, end_tick: l.expires_at_tick }
}

/// The window of a lease.
pub fn lease_window(lease: &Lease) -> (w: ClaimWindow)
    ensures
        w == lease_span(lease@),
{
    ClaimWindow { start_tick: lease.granted_at_tick, end_tick: lease.expires_at_tick }
}

// ---------------------------------------------------------------------------
// zones that a target belongs to
// ---------------------------------------------------------------------------

/// The zones that a node or an edge is a member of.
pub open spec fn member_ids(ws: &Workspace, t: ClaimTarget) -> Seq<Uuid> {
    match t.kind {
        ClaimTargetKind::Zone => Seq::empty(),
        ClaimTargetKind::Node => node_zone_ids(ws, t.resource_id),
        ClaimTargetKind::Edge => edge_zone_ids(ws, t.resource_id),
    }
}

/// The zones that a node or an edge is a member of.
pub fn list_member_ids(index: &WorkspaceIndex, t: ClaimTarget) -> (ids: Vec<Uuid>)
    ensures
        ids@ == member_ids(&index@, t),
{
    match t.kind {
        ClaimTargetKind::Zone => Vec::new(),
        ClaimTargetKind::Node => match index.node(t.resource_id) {
            Some(node) => copy_list(&node.zone_ids),
            None => Vec::new(),
        },
        ClaimTargetKind::Edge => match index.edge(t.resource_id) {
            Some(edge) => copy_list(&edge.zone_ids),
            None => Vec::new(),
        },
    }
}

/// Whether a node or an edge lies in a zone: in the zone itself or in one below
/// it.
pub open spec fn lies_inside(ws: &Workspace, t: ClaimTarget, zone: Uuid) -> bool {
    exists|z: Uuid| #[trigger]
        member_ids(ws, t).contains(z) && zone_at(ws, z) is Some && contains_zone(ws, zone, z)
}

/// Whether a node or an edge lies in a zone.
pub fn is_inside(index: &WorkspaceIndex, t: ClaimTarget, zone: Uuid) -> (b: bool)
    ensures
        b == lies_inside(&index@, t, zone),
{
    let ids = list_member_ids(index, t);
    let mut i: usize = 0;
    while i < ids.len()
        invariant
            i <= ids.len(),
            ids@ == member_ids(&index@, t),
            forall|j: int|
                0 <= j < i ==> !(zone_at(&index@, #[trigger] ids@[j]) is Some && contains_zone(
                    &index@,
                    zone,
                    ids@[j],
                )),
        decreases ids.len() - i,
    {
        if index.zone(ids[i]).is_some() && index.zone_contains(zone, ids[i]) {
            assert(member_ids(&index@, t).contains(ids@[i as int]));
            return true;
        }
        i = i + 1;
    }
    false
}

/// Whether one of two zones is the other one or around it.
pub open spec fn zones_overlap(ws: &Workspace, a: Uuid, b: Uuid) -> bool {
    contains_zone(ws, b, a) || contains_zone(ws, a, b)
}

pub fn do_zones_overlap(index: &WorkspaceIndex, a: Uuid, b: Uuid) -> (r: bool)
    ensures
        r == zones_overlap(&index@, a, b),
{
    index.zone_contains(b, a) || index.zone_contains(a, b)
}

/// Whether one zone is directly inside another one.
pub open spec fn directly_inside(ws: &Workspace, inner: Uuid, outer: Uuid) -> bool {
    looked_up(zone_parents(ws), inner) == Some(outer) && zone_at(ws, outer) is Some
}

fn is_directly_inside(index: &WorkspaceIndex, inner: Uuid, outer: Uuid) -> (b: bool)
    ensures
        b == directly_inside(&index@, inner, outer),
{
    match index.parent_zone(inner) {
        Some(parent) => {
            proof {
                let p = zone_parents(&index@)[inner];
                crate::index::tables::lemma_zone_order(&index@, p);
            }
            parent.id == outer
        },
        None => {
            proof {
                if let Some(p) = looked_up(zone_parents(&index@), inner) {
                    crate::index::tables::lemma_zone_order(&index@, p);
                }
            }
            false
        },
    }
}

/// The policy for two zones of which one is the other one or directly inside it:
/// that of the inner one.
pub open spec fn overlap_policy(ws: &Workspace, a: Uuid, b: Uuid) -> ZonePolicyView {
    match policy_at(ws, a) {
        Some(p) if a == b || directly_inside(ws, a, b) => p,
        _ => match policy_at(ws, b) {
            Some(p) if directly_inside(ws, b, a) => p,
            _ => empty_policy(),
        },
    }
}

/// The policy for two zones of which one is the other one or directly inside it.
pub fn overlapping_zone_policy(index: &WorkspaceIndex, a: Uuid, b: Uuid) -> (p: ZonePolicy)
    ensures
        p@ == overlap_policy(&index@, a, b),
{
    if let Some(p) = index.zone_policy(a) {
        if a == b || is_directly_inside(index, a, b) {
            return p.clone();
        }
    }
    if let Some(p) = index.zone_policy(b) {
        if is_directly_inside(index, b, a) {
            return p.clone();
        }
    }
    ZonePolicy::empty()
}

/// Whether a zone lets only one robot in.
pub open spec fn constrains(p: ZonePolicyView) -> bool {
    p.kind == ZonePolicyKind::ExclusiveAccess || (p.capacity_is_explicit && p.capacity <= 1)
}

/// Whether two nodes, or two edges, are members of a zone that lets only one
/// robot in.
pub open spec fn share_constrained_zone(ws: &Workspace, a: ClaimTarget, b: ClaimTarget) -> bool {
    exists|z: Uuid| #[trigger]
        member_ids(ws, a).contains(z) && member_ids(ws, b).contains(z) && (policy_at(
            ws,
            z,
        ) matches Some(p) && constrains(p))
}

/// Whether two nodes, or two edges, are members of a zone that lets only one
/// robot in.
pub fn shared_constrained_zone(index: &WorkspaceIndex, a: ClaimTarget, b: ClaimTarget) -> (r: bool)
    ensures
        r == share_constrained_zone(&index@, a, b),
{
    let a_ids = list_member_ids(index, a);
    let b_ids = list_member_ids(index, b);
    let mut i: usize = 0;
    while i < a_ids.len()
        invariant
            i <= a_ids.len(),
            a_ids@ == member_ids(&index@, a),
            b_ids@ == member_ids(&index@, b),
            forall|j: int|
                0 <= j < i ==> !(b_ids@.contains(#[trigger] a_ids@[j]) && (policy_at(
                    &index@,
                    a_ids@[j],
                ) matches Some(p) && constrains(p))),
        decreases a_ids.len() - i,
    {
        let z = a_ids[i];
        if contains_id(&b_ids, z) {
            if let Some(p) = index.zone_policy(z) {
                if p.kind == ZonePolicyKind::ExclusiveAccess || (p.capacity_is_explicit
                    && p.capacity <= 1) {
                    assert(member_ids(&index@, a).contains(a_ids@[i as int]));
                    return true;
                }
            }
        }
        i = i + 1;
    }
    false
}

// ---------------------------------------------------------------------------
// conflicts
// ---------------------------------------------------------------------------

/// Whether both claims let others in.
pub open spec fn both_shared(l: ClaimRequestView, r: ClaimRequestView) -> bool {
    l.access_mode == ClaimAccessMode::Shared && r.access_mode == ClaimAccessMode::Shared
}

/// Whether a zone has room for more than one.
pub open spec fn has_room(ws: &Workspace, zone: Uuid) -> bool {
    policy_at(ws, zone) matches Some(p) && p.capacity > 1
}

/// Whether a target of one claim stands in the way of a target of another.
///
/// Zones do so where one is the other one or around it, unless both claims are
/// shared and the inner zone has room for more than one. Nodes and edges do so
/// where they are the same and one claim is exclusive, or where they are
/// different and both in a zone that lets only one robot in. A claim on a zone
/// reserves every node and edge inside it. Without a workspace only the same
/// target conflicts, whatever the windows are.
pub open spec fn targets_conflict(
    ws: Option<Workspace>,
    l: ClaimRequestView,
    r: ClaimRequestView,
    a: ClaimTarget,
    b: ClaimTarget,
) -> bool {
    match ws {
        None => a == b && !both_shared(l, r),
        Some(w) => windows_overlap(l.window, r.window) && match (a.kind, b.kind) {
            (ClaimTargetKind::Zone, ClaimTargetKind::Zone) => zones_overlap(
                &w,
                a.resource_id,
                b.resource_id,
            ) && !(both_shared(l, r) && overlap_policy(&w, a.resource_id, b.resource_id).capacity
                > 1),
            (ClaimTargetKind::Zone, _) => lies_inside(&w, b, a.resource_id) && !(both_shared(l, r)
                && has_room(&w, a.resource_id)),
            (_, ClaimTargetKind::Zone) => lies_inside(&w, a, b.resource_id) && !(both_shared(l, r)
                && has_room(&w, b.resource_id)),
            _ => a.kind == b.kind && if a == b {
                !both_shared(l, r)
            } else {
                share_constrained_zone(&w, a, b)
            },
        },
    }
}

/// Whether no target of one claim stands in the way of one of another.
pub open spec fn compatible(
    ws: Option<Workspace>,
    l: ClaimRequestView,
    r: ClaimRequestView,
) -> bool {
    forall|i: int, j: int|
        0 <= i < l.targets.len() && 0 <= j < r.targets.len() ==> !targets_conflict(
            ws,
            l,
            r,
            #[trigger] l.targets[i],
            #[trigger] r.targets[j],
        )
}

/// The workspace of an index, where there is one.
pub open spec fn indexed(index: Option<&WorkspaceIndex>) -> Option<Workspace> {
    match index {
        Some(i) => Some(i@),
        None => None,
    }
}

fn has_capacity(index: &WorkspaceIndex, zone: Uuid) -> (b: bool)
    ensures
        b == has_room(&index@, zone),
{
    match index.zone_policy(zone) {
        Some(p) => p.capacity > 1,
        None => false,
    }
}

fn do_targets_conflict(
    index: Option<&WorkspaceIndex>,
    l: &ClaimRequest,
    r: &ClaimRequest,
    a: ClaimTarget,
    b: ClaimTarget,
) -> (c: bool)
    ensures
        c == targets_conflict(indexed(index), l@, r@, a, b),
{
    let shared = l.access_mode == ClaimAccessMode::Shared && r.access_mode
        == ClaimAccessMode::Shared;
    match index {
        None => a == b && !shared,
        Some(w) => {
            if !claim_windows_overlap(l.window, r.window) {
                return false;
            }
            match (a.kind, b.kind) {
                (ClaimTargetKind::Zone, ClaimTargetKind::Zone) => do_zones_overlap(
                    w,
                    a.resource_id,
                    b.resource_id,
                ) && !(shared && overlapping_zone_policy(w, a.resource_id, b.resource_id).capacity
                    > 1),
                (ClaimTargetKind::Zone, _) => is_inside(w, b, a.resource_id) && !(shared
                    && has_capacity(w, a.resource_id)),
                (_, ClaimTargetKind::Zone) => is_inside(w, a, b.resource_id) && !(shared
                    && has_capacity(w, b.resource_id)),
                _ => a.kind == b.kind && if a == b {
                    !shared
                } else {
                    shared_constrained_zone(w, a, b)
                },
            }
        },
    }
}

/// Whether no target of one claim stands in the way of one of another.
pub fn claims_compatible_for_index(
    index: Option<&WorkspaceIndex>,
    l: &ClaimRequest,
    r: &ClaimRequest,
) -> (b: bool)
    ensures
        b == compatible(indexed(index), l@, r@),
{
    let mut i: usize = 0;
    while i < l.targets.len()
        invariant
            i <= l.targets.len(),
            forall|p: int, q: int|
                0 <= p < i && 0 <= q < r@.targets.len() ==> !targets_conflict(
                    indexed(index),
                    l@,
                    r@,
                    #[trigger] l@.targets[p],
                    #[trigger] r@.targets[q],
                ),
        decreases l.targets.len() - i,
    {
        let mut j: usize = 0;
        while j < r.targets.len()
            invariant
                i < l.targets.len(),
                j <= r.targets.len(),
                forall|q: int|
                    0 <= q < j ==> !targets_conflict(
                        indexed(index),
                        l@,
                        r@,
                        l@.targets[i as int],
                        #[trigger] r@.targets[q],
                    ),
            decreases r.targets.len() - j,
        {
            if do_targets_conflict(index, l, r, l.targets[i], r.targets[j]) {
                assert(targets_conflict(
                    indexed(index),
                    l@,
                    r@,
                    l@.targets[i as int],
                    r@.targets[j as int],
                ));
                return false;
            }
            j = j + 1;
        }
        i = i + 1;
    }
    true
}

/// Whether no target of the given kind is in both claims, unless both are shared.
pub open spec fn kind_compatible(
    l: ClaimRequestView,
    r: ClaimRequestView,
    kind: ClaimTargetKind,
) -> bool {
    forall|i: int, j: int|
        0 <= i < l.targets.len() && 0 <= j < r.targets.len() && (#[trigger] l.targets[i]).kind
            == kind && l.targets[i] == (#[trigger] r.targets[j]) ==> both_shared(l, r)
}

/// Whether no target of the given kind is in both claims, unless both are shared.
pub fn target_kind_compatible(l: &ClaimRequest, r: &ClaimRequest, kind: ClaimTargetKind) -> (b:
    bool)
    ensures
        b == kind_compatible(l@, r@, kind),
{
    let shared = l.access_mode == ClaimAccessMode::Shared && r.access_mode
        == ClaimAccessMode::Shared;
    if shared {
        return true;
    }
    let mut i: usize = 0;
    while i < l.targets.len()
        invariant
            i <= l.targets.len(),
            !both_shared(l@, r@),
            forall|p: int, q: int|
                0 <= p < i && 0 <= q < r@.targets.len() && (#[trigger] l@.targets[p]).kind == kind
                    ==> l@.targets[p] != (#[trigger] r@.targets[q]),
        decreases l.targets.len() - i,
    {
        let mut j: usize = 0;
        while j < r.targets.len()
            invariant
                i < l.targets.len(),
                j <= r.targets.len(),
                !both_shared(l@, r@),
                forall|q: int|
                    0 <= q < j && l@.targets[i as int].kind == kind ==> l@.targets[i as int] != (
                    #[trigger] r@.targets[q]),
            decreases r.targets.len() - j,
        {
            if l.targets[i].kind == kind && l.targets[i] == r.targets[j] {
                assert(l@.targets[i as int] == r@.targets[j as int]);
                return false;
            }
            j = j + 1;
        }
        i = i + 1;
    }
    true
}

/// A lease as the claim that it stands for. It reserves from the beginning on,
/// whenever it was granted.
pub open spec fn lease_claim(l: LeaseView) -> ClaimRequestView {
    ClaimRequestView {
        access_mode: l.access_mode,
        window: ClaimWindow { start_tick: None, end_tick: l.expires_at_tick },
        targets: l.targets,
        ..blank_request()
    }
}

/// A lease as the claim that it stands for.
pub fn lease_as_request_view(lease: &Lease) -> (r: ClaimRequest)
    ensures
        r@ == lease_claim(lease@),
{
    let mut r = ClaimRequest::default();
    r.access_mode = lease.access_mode;
    r.window = ClaimWindow { start_tick: None, end_tick: lease.expires_at_tick };
    r.targets = copy_list(&lease.targets);
    r
}

/// Without a workspace two claims are compatible exactly where no target of any
/// kind is in both, unless both are shared.
pub proof fn lemma_compatible_by_kind(l: ClaimRequestView, r: ClaimRequestView)
    ensures
        compatible(None, l, r) <==> kind_compatible(l, r, ClaimTargetKind::Zone)
            && kind_compatible(l, r, ClaimTargetKind::Node) && kind_compatible(
            l,
            r,
            ClaimTargetKind::Edge,
        ),
{
    if !compatible(None, l, r) {
        let (i, j) = choose|i: int, j: int|
            0 <= i < l.targets.len() && 0 <= j < r.targets.len() && targets_conflict(
                None,
                l,
                r,
                #[trigger] l.targets[i],
                #[trigger] r.targets[j],
            );
        assert(!kind_compatible(l, r, l.targets[i].kind));
    } else {
        assert forall|i: int, j: int|
            0 <= i < l.targets.len() && 0 <= j < r.targets.len() && #[trigger] l.targets[i]
                == #[trigger] r.targets[j] implies both_shared(l, r) by {
            assert(!targets_conflict(None, l, r, l.targets[i], r.targets[j]));
        }
    }
}

/// Which of two claims is named first does not matter, as long as no two zones
/// are each directly inside the other.
pub proof fn lemma_conflict_symmetric(
    ws: Option<Workspace>,
    l: ClaimRequestView,
    r: ClaimRequestView,
    a: ClaimTarget,
    b: ClaimTarget,
)
    requires
        ws matches Some(w) ==> a == b || !(directly_inside(&w, a.resource_id, b.resource_id)
            && directly_inside(&w, b.resource_id, a.resource_id)),
    ensures
        targets_conflict(ws, l, r, a, b) == targets_conflict(ws, r, l, b, a),
{
    if let Some(w) = ws {
        assert(share_constrained_zone(&w, a, b) == share_constrained_zone(&w, b, a)) by {
            if share_constrained_zone(&w, a, b) {
                let z = choose|z: Uuid| #[trigger]
                    member_ids(&w, a).contains(z) && member_ids(&w, b).contains(z) && (policy_at(
                        &w,
                        z,
                    ) matches Some(p) && constrains(p));
                assert(member_ids(&w, b).contains(z));
            }
            if share_constrained_zone(&w, b, a) {
                let z = choose|z: Uuid| #[trigger]
                    member_ids(&w, b).contains(z) && member_ids(&w, a).contains(z) && (policy_at(
                        &w,
                        z,
                    ) matches Some(p) && constrains(p));
                assert(member_ids(&w, a).contains(z));
            }
        }
    }
}

/// Which of two claims is named first does not matter for whether they are
/// compatible, as long as no two zones are each directly inside the other.
pub proof fn lemma_compatible_symmetric(
    ws: Option<Workspace>,
    l: ClaimRequestView,
    r: ClaimRequestView,
)
    requires
        ws matches Some(w) ==> forall|x: Uuid, y: Uuid|
            x != y && #[trigger] directly_inside(&w, x, y) ==> !directly_inside(&w, y, x),
    ensures
        compatible(ws, l, r) == compatible(ws, r, l),
{
    assert forall|i: int, j: int|
        0 <= i < l.targets.len() && 0 <= j < r.targets.len() implies targets_conflict(
        ws,
        l,
        r,
        #[trigger] l.targets[i],
        #[trigger] r.targets[j],
    ) == targets_conflict(ws, r, l, r.targets[j], l.targets[i]) by {
        let a = l.targets[i];
        let b = r.targets[j];
        if a.kind == ClaimTargetKind::Zone && b.kind == ClaimTargetKind::Zone && a.resource_id
            == b.resource_id {
            assert(a == b);
        }
        if a.resource_id == b.resource_id {
            lemma_conflict_symmetric_same_id(ws, l, r, a, b);
        } else {
            lemma_conflict_symmetric(ws, l, r, a, b);
        }
    }
    if compatible(ws, l, r) {
        assert(compatible(ws, r, l));
    }
    if compatible(ws, r, l) {
        assert forall|i: int, j: int|
            0 <= i < l.targets.len() && 0 <= j < r.targets.len() implies !targets_conflict(
            ws,
            l,
            r,
            #[trigger] l.targets[i],
            #[trigger] r.targets[j],
        ) by {
            assert(!targets_conflict(ws, r, l, r.targets[j], l.targets[i]));
        }
    }
}

proof fn lemma_conflict_symmetric_same_id(
    ws: Option<Workspace>,
    l: ClaimRequestView,
    r: ClaimRequestView,
    a: ClaimTarget,
    b: ClaimTarget,
)
    requires
        a.resource_id == b.resource_id,
    ensures
        targets_conflict(ws, l, r, a, b) == targets_conflict(ws, r, l, b, a),
{
    if a.kind == b.kind {
        assert(a == b);
    }
}

} // verus!
