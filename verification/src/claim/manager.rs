//! The ledger of requests and leases, and the evaluation of requests against it.

use super::capacity::{
    edge_violation, first_capacity_violation, first_edge_capacity_violation,
    first_membership_capacity_violation, first_of, membership_violation, zone_violation,
    CapacityViolation, CapacityViolationView,
};
use super::conflicts::{
    claims_compatible_for_index, compatible, indexed, kind_compatible, lease_as_request_view,
    lease_claim, lemma_compatible_by_kind, target_kind_compatible,
};
use super::reasons::{
    build_conflict_diagnostics, conflict_diagnostics, conflict_reason, conflicts_including_cross_level,
    conflicts_with, describe_conflict_reason,
};
use super::{
    blank_evaluation, ClaimAccessMode, ClaimDecision, ClaimEvaluation, ClaimEvaluationView,
    ClaimRequest, ClaimRequestView, ClaimTarget, ClaimTargetKind, Lease, LeaseDisposition,
    LeaseView,
};
use crate::guid::Uuid;
use crate::ids::{ClaimId, LeaseId, RobotId};
use crate::index::tables::{edge_at, node_at};
use crate::index::WorkspaceIndex;
use crate::views::{lemma_views_push, view_of, views};
use crate::workspace::{zone_at, Workspace};
use std::sync::Arc;
use vstd::prelude::*;

verus! {

/// The ledger of requests and leases.
pub struct ClaimManager {
    index: Option<Arc<WorkspaceIndex>>,
    active_requests: Vec<ClaimRequest>,
    active_leases: Vec<Lease>,
    released_leases: Vec<Lease>,
    /// The least identifier that may be minted next. It never goes back.
    next_id: u64,
}

/// What a [`ClaimManager`] stands for.
pub struct ClaimManagerView {
    pub workspace: Option<Workspace>,
    pub requests: Seq<ClaimRequestView>,
    pub leases: Seq<LeaseView>,
    pub released: Seq<LeaseView>,
    pub next_id: u64,
}

/// The workspace of a shared index, where there is one.
pub open spec fn shared_workspace(index: Option<Arc<WorkspaceIndex>>) -> Option<Workspace> {
    match index {
        Some(i) => Some((*i)@),
        None => None,
    }
}

impl View for ClaimManager {
    type V = ClaimManagerView;

    closed spec fn view(&self) -> ClaimManagerView {
        ClaimManagerView {
            workspace: shared_workspace(self.index),
            requests: views(self.active_requests@),
            leases: views(self.active_leases@),
            released: views(self.released_leases@),
            next_id: self.next_id,
        }
    }
}

// ---------------------------------------------------------------------------
// where things stand in the ledger
// ---------------------------------------------------------------------------

/// Where the first request with an identifier stands, from place `k` on.
pub open spec fn request_place(requests: Seq<ClaimRequestView>, id: ClaimId, k: nat) -> Option<int>
    decreases requests.len() - k,
{
    if k >= requests.len() {
        None
    } else if requests[k as int].id == id {
        Some(k as int)
    } else {
        request_place(requests, id, k + 1)
    }
}

/// Where the first lease with an identifier stands, from place `k` on.
pub open spec fn lease_place(leases: Seq<LeaseView>, id: LeaseId, k: nat) -> Option<int>
    decreases leases.len() - k,
{
    if k >= leases.len() {
        None
    } else if leases[k as int].id == id {
        Some(k as int)
    } else {
        lease_place(leases, id, k + 1)
    }
}

/// Where the first lease for a claim stands, from place `k` on.
pub open spec fn claim_place(leases: Seq<LeaseView>, id: ClaimId, k: nat) -> Option<int>
    decreases leases.len() - k,
{
    if k >= leases.len() {
        None
    } else if leases[k as int].claim_id == id {
        Some(k as int)
    } else {
        claim_place(leases, id, k + 1)
    }
}

/// Whether a request of a robot is for a resource.
pub open spec fn requests_resource(r: ClaimRequestView, robot: RobotId, resource: Uuid) -> bool {
    r.robot_id == robot && exists|i: int|
        0 <= i < r.targets.len() && (#[trigger] r.targets[i]).resource_id == resource
}

/// Where the first request of a robot for a resource stands, from place `k` on.
pub open spec fn resource_place(
    requests: Seq<ClaimRequestView>,
    robot: RobotId,
    resource: Uuid,
    k: nat,
) -> Option<int>
    decreases requests.len() - k,
{
    if k >= requests.len() {
        None
    } else if requests_resource(requests[k as int], robot, resource) {
        Some(k as int)
    } else {
        resource_place(requests, robot, resource, k + 1)
    }
}

fn find_request_place(requests: &Vec<ClaimRequest>, id: ClaimId) -> (p: Option<usize>)
    ensures
        match request_place(views(requests@), id, 0) {
            Some(i) => p matches Some(k) && k as int == i && k < requests@.len(),
            None => p is None,
        },
{
    let ghost all = views(requests@);
    let mut k: usize = 0;
    while k < requests.len()
        invariant
            k <= requests.len(),
            all == views(requests@),
            request_place(all, id, 0) == request_place(all, id, k as nat),
        decreases requests.len() - k,
    {
        assert(all[k as int] == requests@[k as int]@);
        if requests[k].id == id {
            return Some(k);
        }
        k = k + 1;
    }
    None
}

fn find_lease_place(leases: &Vec<Lease>, id: LeaseId) -> (p: Option<usize>)
    ensures
        match lease_place(views(leases@), id, 0) {
            Some(i) => p matches Some(k) && k as int == i && k < leases@.len(),
            None => p is None,
        },
{
    let ghost all = views(leases@);
    let mut k: usize = 0;
    while k < leases.len()
        invariant
            k <= leases.len(),
            all == views(leases@),
            lease_place(all, id, 0) == lease_place(all, id, k as nat),
        decreases leases.len() - k,
    {
        assert(all[k as int] == leases@[k as int]@);
        if leases[k].id == id {
            return Some(k);
        }
        k = k + 1;
    }
    None
}

/// A place that is found is one with the identifier sought.
pub proof fn lemma_lease_place(leases: Seq<LeaseView>, id: LeaseId, k: nat)
    ensures
        lease_place(leases, id, k) matches Some(i) ==> k <= i < leases.len() && leases[i].id == id,
        lease_place(leases, id, k) is None ==> forall|i: int|
            k <= i < leases.len() ==> (#[trigger] leases[i]).id != id,
    decreases leases.len() - k,
{
    if k < leases.len() && leases[k as int].id != id {
        lemma_lease_place(leases, id, k + 1);
    }
}

/// A place that is found is one with the identifier sought.
pub proof fn lemma_request_place(requests: Seq<ClaimRequestView>, id: ClaimId, k: nat)
    ensures
        request_place(requests, id, k) matches Some(i) ==> k <= i < requests.len()
            && requests[i].id == id,
        request_place(requests, id, k) is None ==> forall|i: int|
            k <= i < requests.len() ==> (#[trigger] requests[i]).id != id,
    decreases requests.len() - k,
{
    if k < requests.len() && requests[k as int].id != id {
        lemma_request_place(requests, id, k + 1);
    }
}

// ---------------------------------------------------------------------------
// changes to the ledger
// ---------------------------------------------------------------------------

/// The requests with one put in place of the one that has its identifier, or at
/// the end.
pub open spec fn requests_with(requests: Seq<ClaimRequestView>, r: ClaimRequestView) -> Seq<
    ClaimRequestView,
> {
    match request_place(requests, r.id, 0) {
        Some(i) => requests.update(i, r),
        None => requests.push(r),
    }
}

/// The leases with one put in place of the one that has its identifier, or at
/// the end.
pub open spec fn leases_with(leases: Seq<LeaseView>, l: LeaseView) -> Seq<LeaseView> {
    match lease_place(leases, l.id, 0) {
        Some(i) => leases.update(i, l),
        None => leases.push(l),
    }
}

/// The requests of all robots but one.
pub open spec fn requests_of_others(requests: Seq<ClaimRequestView>, robot: RobotId) -> Seq<
    ClaimRequestView,
>
    decreases requests.len(),
{
    if requests.len() == 0 {
        Seq::empty()
    } else {
        let before = requests_of_others(requests.drop_last(), robot);
        if requests.last().robot_id != robot {
            before.push(requests.last())
        } else {
            before
        }
    }
}

/// Which leases are ended.
#[derive(Debug, Clone, Copy, PartialEq, Eq, Structural)]
pub enum Ending {
    /// Those of a robot, at a tick if it is known.
    OfRobot(RobotId, Option<u64>),
    /// Those that have run out by a tick.
    AtTick(u64),
}

/// Whether a lease is one of those that are ended.
pub open spec fn is_ended(l: LeaseView, ending: Ending) -> bool {
    match ending {
        Ending::OfRobot(robot, _) => l.robot_id == robot,
        Ending::AtTick(tick) => l.expires_at_tick matches Some(t) && t <= tick,
    }
}

/// A lease that has been put aside.
pub open spec fn archived(
    l: LeaseView,
    disposition: LeaseDisposition,
    released_at_tick: Option<u64>,
) -> LeaseView {
    LeaseView { active: false, disposition, released_at_tick, ..l }
}

/// What a lease becomes that is ended.
pub open spec fn ended(l: LeaseView, ending: Ending) -> LeaseView {
    match ending {
        Ending::OfRobot(_, tick) => archived(l, LeaseDisposition::Released, tick),
        Ending::AtTick(tick) => archived(l, LeaseDisposition::Expired, Some(tick)),
    }
}

/// The leases that are not ended.
pub open spec fn leases_kept(leases: Seq<LeaseView>, ending: Ending) -> Seq<LeaseView>
    decreases leases.len(),
{
    if leases.len() == 0 {
        Seq::empty()
    } else {
        let before = leases_kept(leases.drop_last(), ending);
        if is_ended(leases.last(), ending) {
            before
        } else {
            before.push(leases.last())
        }
    }
}

/// The leases that are ended, as they are put aside.
pub open spec fn leases_ended(leases: Seq<LeaseView>, ending: Ending) -> Seq<LeaseView>
    decreases leases.len(),
{
    if leases.len() == 0 {
        Seq::empty()
    } else {
        let before = leases_ended(leases.drop_last(), ending);
        if is_ended(leases.last(), ending) {
            before.push(ended(leases.last(), ending))
        } else {
            before
        }
    }
}

/// The leases of a robot.
pub open spec fn leases_of(leases: Seq<LeaseView>, robot: RobotId) -> Seq<LeaseView>
    decreases leases.len(),
{
    if leases.len() == 0 {
        Seq::empty()
    } else {
        let before = leases_of(leases.drop_last(), robot);
        if leases.last().robot_id == robot {
            before.push(leases.last())
        } else {
            before
        }
    }
}

/// The largest identifier of a list of requests, or zero.
pub open spec fn largest_request_id(requests: Seq<ClaimRequestView>) -> u64
    decreases requests.len(),
{
    if requests.len() == 0 {
        0
    } else {
        let before = largest_request_id(requests.drop_last());
        if requests.last().id.0 > before {
            requests.last().id.0
        } else {
            before
        }
    }
}

/// The largest identifier of a claim that a list of leases is for, or zero.
pub open spec fn largest_claim_id(leases: Seq<LeaseView>) -> u64
    decreases leases.len(),
{
    if leases.len() == 0 {
        0
    } else {
        let before = largest_claim_id(leases.drop_last());
        if leases.last().claim_id.0 > before {
            leases.last().claim_id.0
        } else {
            before
        }
    }
}

/// One more, as far as there is room.
pub open spec fn one_more(n: u64) -> u64 {
    if n < u64::MAX {
        (n + 1) as u64
    } else {
        n
    }
}

/// The larger of two numbers.
pub open spec fn larger(a: u64, b: u64) -> u64 {
    if a >= b {
        a
    } else {
        b
    }
}

/// Whether a request or a lease in the ledger has a claim identifier.
pub open spec fn is_taken(m: ClaimManagerView, n: u64) -> bool {
    ||| exists|i: int| 0 <= i < m.requests.len() && (#[trigger] m.requests[i]).id.0 == n
    ||| exists|i: int| 0 <= i < m.leases.len() && (#[trigger] m.leases[i]).claim_id.0 == n
}

/// Where the counter stands for the next identifier: past every one in use, as
/// far as there is room, and never back.
pub open spec fn counter_floor(m: ClaimManagerView) -> u64 {
    larger(
        m.next_id,
        one_more(larger(largest_request_id(m.requests), largest_claim_id(m.leases))),
    )
}

/// The greatest identifier from `n` down to one that is not taken.
pub open spec fn free_at_most(m: ClaimManagerView, n: u64) -> Option<u64>
    decreases n,
{
    if n == 0 {
        None
    } else if !is_taken(m, n) {
        Some(n)
    } else {
        free_at_most(m, (n - 1) as u64)
    }
}

/// The identifier that is minted next: where the counter stands, or the greatest
/// one below that is not taken.
pub open spec fn minted_id(m: ClaimManagerView) -> u64 {
    match free_at_most(m, counter_floor(m)) {
        Some(n) => n,
        None => counter_floor(m),
    }
}

/// No identifier in use is greater than the largest one.
pub proof fn lemma_largest_ids(m: ClaimManagerView, n: u64)
    ensures
        is_taken(m, n) ==> n <= larger(
            largest_request_id(m.requests),
            largest_claim_id(m.leases),
        ),
{
    lemma_largest_request_id(m.requests);
    lemma_largest_claim_id(m.leases);
}

proof fn lemma_largest_request_id(requests: Seq<ClaimRequestView>)
    ensures
        forall|i: int|
            0 <= i < requests.len() ==> (#[trigger] requests[i]).id.0 <= largest_request_id(
                requests,
            ),
    decreases requests.len(),
{
    if requests.len() > 0 {
        let rest = requests.drop_last();
        lemma_largest_request_id(rest);
        assert forall|i: int| 0 <= i < requests.len() implies (#[trigger] requests[i]).id.0
            <= largest_request_id(requests) by {
            if i < rest.len() {
                assert(rest[i] == requests[i]);
            }
        }
    }
}

proof fn lemma_largest_claim_id(leases: Seq<LeaseView>)
    ensures
        forall|i: int|
            0 <= i < leases.len() ==> (#[trigger] leases[i]).claim_id.0 <= largest_claim_id(leases),
    decreases leases.len(),
{
    if leases.len() > 0 {
        let rest = leases.drop_last();
        lemma_largest_claim_id(rest);
        assert forall|i: int| 0 <= i < leases.len() implies (#[trigger] leases[i]).claim_id.0
            <= largest_claim_id(leases) by {
            if i < rest.len() {
                assert(rest[i] == leases[i]);
            }
        }
    }
}

/// The claim identifiers in use.
spec fn taken_ids(m: ClaimManagerView) -> Seq<int> {
    Seq::new(m.requests.len(), |i: int| m.requests[i].id.0 as int) + Seq::new(
        m.leases.len(),
        |i: int| m.leases[i].claim_id.0 as int,
    )
}

proof fn lemma_free_at_most(m: ClaimManagerView, n: u64)
    ensures
        match free_at_most(m, n) {
            Some(k) => 1 <= k <= n && !is_taken(m, k),
            None => forall|k: u64| 1 <= k <= n ==> #[trigger] is_taken(m, k),
        },
    decreases n,
{
    if n > 0 && is_taken(m, n) {
        lemma_free_at_most(m, (n - 1) as u64);
    }
}

/// As long as the ledger holds fewer entries than there are identifiers, the one
/// that is minted is not taken.
pub proof fn lemma_minted_id_is_free(m: ClaimManagerView)
    requires
        m.requests.len() + m.leases.len() < u64::MAX,
    ensures
        minted_id(m) >= 1,
        !is_taken(m, minted_id(m)),
{
    let floor = counter_floor(m);
    lemma_free_at_most(m, floor);
    lemma_largest_ids(m, floor);
    if free_at_most(m, floor) is None {
        assert(is_taken(m, floor));
        assert(floor == u64::MAX);
        let ids = taken_ids(m);
        let range = vstd::set_lib::set_int_range(1, u64::MAX + 1);
        assert(range.subset_of(ids.to_set())) by {
            assert forall|x: int| range.contains(x) implies ids.to_set().contains(x) by {
                let k = x as u64;
                assert(is_taken(m, k));
                if exists|i: int| 0 <= i < m.requests.len() && (#[trigger] m.requests[i]).id.0 == k {
                    let i = choose|i: int|
                        0 <= i < m.requests.len() && (#[trigger] m.requests[i]).id.0 == k;
                    assert(ids[i] == x);
                } else {
                    let i = choose|i: int|
                        0 <= i < m.leases.len() && (#[trigger] m.leases[i]).claim_id.0 == k;
                    assert(ids[m.requests.len() + i] == x);
                }
            }
        }
        vstd::set_lib::lemma_int_range(1, u64::MAX + 1);
        ids.lemma_cardinality_of_set();
        vstd::set_lib::lemma_len_subset(range, ids.to_set());
    }
}

// ---------------------------------------------------------------------------
// evaluation
// ---------------------------------------------------------------------------

/// Whether a target is missing from the workspace.
pub open spec fn target_missing(ws: &Workspace, t: ClaimTarget) -> bool {
    match t.kind {
        ClaimTargetKind::Zone => zone_at(ws, t.resource_id) is None,
        ClaimTargetKind::Node => node_at(ws, t.resource_id) is None,
        ClaimTargetKind::Edge => edge_at(ws, t.resource_id) is None,
    }
}

/// The first target, from number `k` on, that is missing from the workspace.
pub open spec fn missing_target(ws: &Workspace, targets: Seq<ClaimTarget>, k: nat) -> Option<
    ClaimTarget,
>
    decreases targets.len() - k,
{
    if k >= targets.len() {
        None
    } else if target_missing(ws, targets[k as int]) {
        Some(targets[k as int])
    } else {
        missing_target(ws, targets, k + 1)
    }
}

/// The first other request, from number `k` on, that a request conflicts with.
pub open spec fn opposing_request(
    ws: Option<Workspace>,
    request: ClaimRequestView,
    requests: Seq<ClaimRequestView>,
    k: nat,
) -> Option<ClaimRequestView>
    decreases requests.len() - k,
{
    if k >= requests.len() {
        None
    } else {
        let other = requests[k as int];
        if other.id != request.id && !compatible(ws, request, other) {
            Some(other)
        } else {
            opposing_request(ws, request, requests, k + 1)
        }
    }
}

/// The first active lease, from number `k` on, that a request conflicts with.
pub open spec fn opposing_lease(
    ws: Option<Workspace>,
    request: ClaimRequestView,
    leases: Seq<LeaseView>,
    k: nat,
) -> Option<LeaseView>
    decreases leases.len() - k,
{
    if k >= leases.len() {
        None
    } else {
        let lease = leases[k as int];
        if lease.active && !compatible(ws, request, lease_claim(lease)) {
            Some(lease)
        } else {
            opposing_lease(ws, request, leases, k + 1)
        }
    }
}

/// The first capacity that a request would exceed: that of a claimed zone, of a
/// zone around a claimed node, of a claimed edge, of a zone around a claimed
/// edge.
pub open spec fn exceeded_capacity(
    ws: Option<Workspace>,
    request: ClaimRequestView,
    requests: Seq<ClaimRequestView>,
    leases: Seq<LeaseView>,
) -> Option<CapacityViolationView> {
    match ws {
        Some(w) if request.access_mode == ClaimAccessMode::Shared => {
            match zone_violation(w, request, requests, leases, 0) {
                Some(v) => Some(v),
                None => match membership_violation(
                    w,
                    request,
                    requests,
                    leases,
                    ClaimTargetKind::Node,
                    0,
                ) {
                    Some(v) => Some(v),
                    None => match edge_violation(w, request, requests, leases, 0) {
                        Some(v) => Some(v),
                        None => membership_violation(
                            w,
                            request,
                            requests,
                            leases,
                            ClaimTargetKind::Edge,
                            0,
                        ),
                    },
                },
            }
        },
        _ => None,
    }
}

/// The denial of a request that exceeds a capacity.
pub open spec fn capacity_denial(v: CapacityViolationView) -> ClaimEvaluationView {
    ClaimEvaluationView {
        decision: ClaimDecision::Deny,
        reason: v.reason,
        conflicting_claim_id: v.conflicting_claim_id,
        conflicting_lease_id: v.conflicting_lease_id,
        conflicting_targets: seq![v.target],
        blocking_target: Some(v.target),
        diagnostics: v.diagnostics,
        denied_by_capacity: true,
    }
}

/// The denial of a request that is in conflict.
pub open spec fn conflict_denial(
    ws: Option<Workspace>,
    source: Seq<char>,
    conflicts: Seq<ClaimTarget>,
    claim: Option<ClaimId>,
    lease: Option<LeaseId>,
) -> ClaimEvaluationView {
    ClaimEvaluationView {
        decision: ClaimDecision::Deny,
        reason: conflict_reason(source, conflicts),
        conflicting_claim_id: claim,
        conflicting_lease_id: lease,
        conflicting_targets: conflicts,
        blocking_target: first_of(conflicts),
        diagnostics: conflict_diagnostics(ws, source, conflicts),
        denied_by_capacity: false,
    }
}

/// The denial of a request without targets.
pub open spec fn no_targets_denial() -> ClaimEvaluationView {
    ClaimEvaluationView {
        decision: ClaimDecision::Deny,
        reason: "claim request does not contain any targets"@,
        diagnostics: seq!["request has no claim targets"@],
        ..blank_evaluation()
    }
}

/// The denial of a request for something that is not there.
pub open spec fn missing_target_denial(t: ClaimTarget) -> ClaimEvaluationView {
    ClaimEvaluationView {
        decision: ClaimDecision::Deny,
        reason: "claim request references a missing workspace resource"@,
        conflicting_targets: seq![t],
        blocking_target: Some(t),
        diagnostics: seq!["request target does not exist in current workspace index"@],
        ..blank_evaluation()
    }
}

/// The grant of a request.
pub open spec fn plain_grant() -> ClaimEvaluationView {
    ClaimEvaluationView {
        decision: ClaimDecision::Grant,
        reason: "claim is compatible with current state"@,
        diagnostics: seq!["request passed conflict and capacity checks"@],
        ..blank_evaluation()
    }
}

/// How a request is decided. It is denied if it has no targets, if one of them
/// is missing, if it conflicts with another request or with an active lease, or
/// if it would exceed a capacity, in this order; otherwise it is granted.
pub open spec fn evaluation(m: ClaimManagerView, request: ClaimRequestView) -> ClaimEvaluationView {
    let ws = m.workspace;
    if request.targets.len() == 0 {
        no_targets_denial()
    } else {
        match (match ws {
            Some(w) => missing_target(&w, request.targets, 0),
            None => None,
        }) {
            Some(t) => missing_target_denial(t),
            None => match opposing_request(ws, request, m.requests, 0) {
                Some(other) => conflict_denial(
                    ws,
                    "active request"@,
                    conflicts_with(ws, request, other),
                    Some(other.id),
                    None,
                ),
                None => match opposing_lease(ws, request, m.leases, 0) {
                    Some(lease) => conflict_denial(
                        ws,
                        "granted lease"@,
                        conflicts_with(ws, request, lease_claim(lease)),
                        None,
                        Some(lease.id),
                    ),
                    None => match exceeded_capacity(ws, request, m.requests, m.leases) {
                        Some(v) => capacity_denial(v),
                        None => plain_grant(),
                    },
                },
            },
        }
    }
}

fn one_text(s: &str) -> (v: Vec<String>)
    ensures
        views(v@) == seq![s@],
{
    let mut v: Vec<String> = Vec::new();
    v.push(s.to_owned());
    assert(views(v@) =~= seq![s@]);
    v
}

fn one_target(t: ClaimTarget) -> (v: Vec<ClaimTarget>)
    ensures
        v@ == seq![t],
{
    let mut v: Vec<ClaimTarget> = Vec::new();
    v.push(t);
    assert(v@ =~= seq![t]);
    v
}

/// The denial of a request that exceeds a capacity.
fn capacity_eval(v: CapacityViolation) -> (e: ClaimEvaluation)
    ensures
        e@ == capacity_denial(v@),
{
    ClaimEvaluation {
        decision: ClaimDecision::Deny,
        reason: v.reason,
        conflicting_claim_id: v.conflicting_claim_id,
        conflicting_lease_id: v.conflicting_lease_id,
        conflicting_targets: one_target(v.target),
        blocking_target: Some(v.target),
        diagnostics: v.diagnostics,
        denied_by_capacity: true,
    }
}

fn conflict_eval(
    index: Option<&WorkspaceIndex>,
    source: &str,
    conflicts: Vec<ClaimTarget>,
    claim: Option<ClaimId>,
    lease: Option<LeaseId>,
) -> (e: ClaimEvaluation)
    ensures
        e@ == conflict_denial(indexed(index), source@, conflicts@, claim, lease),
{
    let blocking: Option<ClaimTarget> = if conflicts.len() > 0 {
        Some(conflicts[0])
    } else {
        None
    };
    ClaimEvaluation {
        decision: ClaimDecision::Deny,
        reason: describe_conflict_reason(source, &conflicts),
        conflicting_claim_id: claim,
        conflicting_lease_id: lease,
        blocking_target: blocking,
        diagnostics: build_conflict_diagnostics(index, source, &conflicts),
        conflicting_targets: conflicts,
        denied_by_capacity: false,
    }
}

impl Default for ClaimManager {
    fn default() -> (m: Self)
        ensures
            m@ == (ClaimManagerView {
                workspace: None,
                requests: Seq::empty(),
                leases: Seq::empty(),
                released: Seq::empty(),
                next_id: 1,
            }),
    {
        let m = ClaimManager {
            index: None,
            active_requests: Vec::new(),
            active_leases: Vec::new(),
            released_leases: Vec::new(),
            next_id: 1,
        };
        assert(m@.requests =~= Seq::empty());
        assert(m@.leases =~= Seq::empty());
        assert(m@.released =~= Seq::empty());
        m
    }
}

impl ClaimManager {
    pub fn new() -> (m: Self)
        ensures
            m@ == (ClaimManagerView {
                workspace: None,
                requests: Seq::empty(),
                leases: Seq::empty(),
                released: Seq::empty(),
                next_id: 1,
            }),
    {
        Self::default()
    }

    /// A ledger of the given parts.
    pub(crate) fn from_parts(
        index: Option<Arc<WorkspaceIndex>>,
        active_requests: Vec<ClaimRequest>,
        active_leases: Vec<Lease>,
        released_leases: Vec<Lease>,
        next_id: u64,
    ) -> (m: Self)
        ensures
            m@ == (ClaimManagerView {
                workspace: shared_workspace(index),
                requests: views(active_requests@),
                leases: views(active_leases@),
                released: views(released_leases@),
                next_id,
            }),
    {
        ClaimManager { index, active_requests, active_leases, released_leases, next_id }
    }

    /// The least identifier that may be minted next.
    pub(crate) fn next_id(&self) -> (n: u64)
        ensures
            n == self@.next_id,
    {
        self.next_id
    }

    pub fn with_index(index: Arc<WorkspaceIndex>) -> (m: Self)
        ensures
            m@ == (ClaimManagerView {
                workspace: Some((*index)@),
                requests: Seq::empty(),
                leases: Seq::empty(),
                released: Seq::empty(),
                next_id: 1,
            }),
    {
        let mut m = Self::default();
        m.index = Some(index);
        m
    }

    /// Whether there is neither a request nor a lease.
    pub fn empty(&self) -> (b: bool)
        ensures
            b == (self@.requests.len() == 0 && self@.leases.len() == 0),
    {
        self.active_requests.len() == 0 && self.active_leases.len() == 0
    }

    pub fn index(&self) -> (index: Option<&WorkspaceIndex>)
        ensures
            indexed(index) == self@.workspace,
    {
        match &self.index {
            Some(i) => Some(i),
            None => None,
        }
    }

    pub fn index_arc(&self) -> (index: Option<Arc<WorkspaceIndex>>)
        ensures
            shared_workspace(index) == self@.workspace,
    {
        match &self.index {
            Some(i) => Some(i.clone()),
            None => None,
        }
    }

    pub fn has_index(&self) -> (b: bool)
        ensures
            b == self@.workspace is Some,
    {
        self.index.is_some()
    }

    pub fn request_count(&self) -> (n: usize)
        ensures
            n == self@.requests.len(),
    {
        self.active_requests.len()
    }

    pub fn lease_count(&self) -> (n: usize)
        ensures
            n == self@.leases.len(),
    {
        self.active_leases.len()
    }

    pub fn requests(&self) -> (r: &Vec<ClaimRequest>)
        ensures
            views(r@) == self@.requests,
    {
        &self.active_requests
    }

    pub fn leases(&self) -> (l: &Vec<Lease>)
        ensures
            views(l@) == self@.leases,
    {
        &self.active_leases
    }

    pub fn released_leases(&self) -> (l: &Vec<Lease>)
        ensures
            views(l@) == self@.released,
    {
        &self.released_leases
    }

    pub fn bind_index(&mut self, index: Arc<WorkspaceIndex>)
        ensures
            final(self)@ == (ClaimManagerView { workspace: Some((*index)@), ..old(self)@ }),
    {
        self.index = Some(index);
    }

    /// Forgets all requests and leases.
    pub fn clear(&mut self)
        ensures
            final(self)@ == (ClaimManagerView {
                requests: Seq::empty(),
                leases: Seq::empty(),
                released: Seq::empty(),
                ..old(self)@
            }),
    {
        self.active_requests = Vec::new();
        self.active_leases = Vec::new();
        self.released_leases = Vec::new();
        assert(self@.requests =~= Seq::empty());
        assert(self@.leases =~= Seq::empty());
        assert(self@.released =~= Seq::empty());
    }

    // -- requests ---------------------------------------------------------

    pub fn add_request(&mut self, request: ClaimRequest)
        ensures
            final(self)@ == (ClaimManagerView {
                requests: requests_with(old(self)@.requests, request@),
                ..old(self)@
            }),
    {
        self.upsert_request(request);
    }

    /// Puts a request in place of the one that has its identifier, or adds it.
    pub fn upsert_request(&mut self, request: ClaimRequest)
        ensures
            final(self)@ == (ClaimManagerView {
                requests: requests_with(old(self)@.requests, request@),
                ..old(self)@
            }),
    {
        match find_request_place(&self.active_requests, request.id) {
            Some(i) => {
                let ghost before = views(self.active_requests@);
                let ghost r = request@;
                self.active_requests.set(i, request);
                assert(views(self.active_requests@) =~= before.update(i as int, r));
            },
            None => {
                proof {
                    lemma_views_push(self.active_requests@, request);
                }
                self.active_requests.push(request);
            },
        }
    }

    pub fn remove_request(&mut self, id: ClaimId) -> (removed: bool)
        ensures
            match request_place(old(self)@.requests, id, 0) {
                Some(i) => removed && final(self)@ == (ClaimManagerView {
                    requests: old(self)@.requests.remove(i),
                    ..old(self)@
                }),
                None => !removed && final(self)@ == old(self)@,
            },
    {
        match find_request_place(&self.active_requests, id) {
            Some(i) => {
                let ghost before = views(self.active_requests@);
                self.active_requests.remove(i);
                assert(views(self.active_requests@) =~= before.remove(i as int));
                true
            },
            None => false,
        }
    }

    /// Removes the requests of a robot, and tells how many there were.
    pub fn remove_requests_for_robot(&mut self, robot_id: RobotId) -> (n: u64)
        ensures
            final(self)@ == (ClaimManagerView {
                requests: requests_of_others(old(self)@.requests, robot_id),
                ..old(self)@
            }),
            n == old(self)@.requests.len() - requests_of_others(
                old(self)@.requests,
                robot_id,
            ).len(),
    {
        let ghost all = views(self.active_requests@);
        let total: usize = self.active_requests.len();
        let mut i: usize = 0;
        let ghost mut j: int = 0;
        assert(all.take(0) =~= Seq::empty());
        assert(all.skip(0) =~= all);
        assert(views(self.active_requests@) =~= requests_of_others(all.take(0), robot_id)
            + all.skip(0));
        while i < self.active_requests.len()
            invariant
                0 <= j <= all.len(),
                all.len() == total,
                i <= j,
                i == requests_of_others(all.take(j), robot_id).len(),
                views(self.active_requests@) == requests_of_others(all.take(j), robot_id)
                    + all.skip(j),
                self.index == old(self).index,
                self.active_leases == old(self).active_leases,
                self.released_leases == old(self).released_leases,
                self.next_id == old(self).next_id,
            decreases all.len() - j,
        {
            let ghost kept = requests_of_others(all.take(j), robot_id);
            assert(all.take(j + 1).drop_last() =~= all.take(j));
            assert(views(self.active_requests@)[i as int] == all[j]);
            let ghost before = views(self.active_requests@);
            if self.active_requests[i].robot_id != robot_id {
                i = i + 1;
                assert(before =~= requests_of_others(all.take(j + 1), robot_id) + all.skip(j + 1));
            } else {
                self.active_requests.remove(i);
                assert(views(self.active_requests@) =~= before.remove(i as int));
                assert(before.remove(i as int) =~= kept + all.skip(j + 1));
            }
            proof {
                j = j + 1;
            }
        }
        assert(j == all.len());
        assert(all.take(j) =~= all);
        assert(views(self.active_requests@) =~= requests_of_others(all, robot_id));
        (total - self.active_requests.len()) as u64
    }

    fn largest_ids(&self) -> (n: u64)
        ensures
            n == larger(largest_request_id(self@.requests), largest_claim_id(self@.leases)),
    {
        let ghost requests = views(self.active_requests@);
        let ghost leases = views(self.active_leases@);
        let mut a: u64 = 0;
        let mut i: usize = 0;
        assert(requests.take(0) =~= Seq::empty());
        while i < self.active_requests.len()
            invariant
                i <= self.active_requests.len(),
                requests == views(self.active_requests@),
                a == largest_request_id(requests.take(i as int)),
            decreases self.active_requests.len() - i,
        {
            assert(requests.take(i as int + 1).drop_last() =~= requests.take(i as int));
            assert(requests[i as int] == self.active_requests@[i as int]@);
            if self.active_requests[i].id.0 > a {
                a = self.active_requests[i].id.0;
            }
            i = i + 1;
        }
        assert(requests.take(i as int) =~= requests);
        let mut b: u64 = 0;
        let mut i: usize = 0;
        assert(leases.take(0) =~= Seq::empty());
        while i < self.active_leases.len()
            invariant
                i <= self.active_leases.len(),
                leases == views(self.active_leases@),
                b == largest_claim_id(leases.take(i as int)),
            decreases self.active_leases.len() - i,
        {
            assert(leases.take(i as int + 1).drop_last() =~= leases.take(i as int));
            assert(leases[i as int] == self.active_leases@[i as int]@);
            if self.active_leases[i].claim_id.0 > b {
                b = self.active_leases[i].claim_id.0;
            }
            i = i + 1;
        }
        assert(leases.take(i as int) =~= leases);
        if a >= b {
            a
        } else {
            b
        }
    }

    /// Whether a request or a lease in the ledger has a claim identifier.
    fn has_taken(&self, n: u64) -> (b: bool)
        ensures
            b == is_taken(self@, n),
    {
        let ghost requests = views(self.active_requests@);
        let ghost leases = views(self.active_leases@);
        let mut i: usize = 0;
        while i < self.active_requests.len()
            invariant
                i <= self.active_requests.len(),
                requests == views(self.active_requests@),
                forall|j: int| 0 <= j < i ==> (#[trigger] requests[j]).id.0 != n,
            decreases self.active_requests.len() - i,
        {
            assert(requests[i as int] == self.active_requests@[i as int]@);
            if self.active_requests[i].id.0 == n {
                assert(self@.requests[i as int].id.0 == n);
                return true;
            }
            i = i + 1;
        }
        let mut i: usize = 0;
        while i < self.active_leases.len()
            invariant
                i <= self.active_leases.len(),
                leases == views(self.active_leases@),
                forall|j: int| 0 <= j < i ==> (#[trigger] leases[j]).claim_id.0 != n,
            decreases self.active_leases.len() - i,
        {
            assert(leases[i as int] == self.active_leases@[i as int]@);
            if self.active_leases[i].claim_id.0 == n {
                assert(self@.leases[i as int].claim_id.0 == n);
                return true;
            }
            i = i + 1;
        }
        false
    }

    /// Mints an identifier that no request or lease in the ledger has, also
    /// where identifiers near the greatest number are in use. A counter that
    /// never goes back stands behind it.
    pub fn next_request_id(&mut self) -> (id: ClaimId)
        ensures
            id == ClaimId(minted_id(old(self)@)),
            old(self)@.requests.len() + old(self)@.leases.len() < u64::MAX ==> !is_taken(
                old(self)@,
                id.0,
            ),
            final(self)@ == (ClaimManagerView {
                next_id: one_more(counter_floor(old(self)@)),
                ..old(self)@
            }),
    {
        let largest = self.largest_ids();
        let floor: u64 = if largest < u64::MAX {
            largest + 1
        } else {
            largest
        };
        let start: u64 = if self.next_id >= floor {
            self.next_id
        } else {
            floor
        };
        let mut candidate: u64 = start;
        while candidate > 0 && self.has_taken(candidate)
            invariant
                candidate <= start,
                free_at_most(self@, start) == free_at_most(self@, candidate),
            decreases candidate,
        {
            candidate = candidate - 1;
        }
        let id: u64 = if candidate > 0 {
            candidate
        } else {
            start
        };
        proof {
            if self@.requests.len() + self@.leases.len() < u64::MAX {
                lemma_minted_id_is_free(self@);
            }
        }
        self.next_id = if start < u64::MAX {
            start + 1
        } else {
            start
        };
        ClaimId(id)
    }

    /// Removes the first request of a robot for a resource.
    pub fn release_request_for_robot_target(
        &mut self,
        robot_id: RobotId,
        resource_id: Uuid,
    ) -> (removed: bool)
        ensures
            match resource_place(old(self)@.requests, robot_id, resource_id, 0) {
                Some(i) => removed && final(self)@ == (ClaimManagerView {
                    requests: old(self)@.requests.remove(i),
                    ..old(self)@
                }),
                None => !removed && final(self)@ == old(self)@,
            },
    {
        let ghost all = views(self.active_requests@);
        let mut k: usize = 0;
        while k < self.active_requests.len()
            invariant
                k <= self.active_requests.len(),
                all == views(self.active_requests@),
                *self == *old(self),
                resource_place(all, robot_id, resource_id, 0) == resource_place(
                    all,
                    robot_id,
                    resource_id,
                    k as nat,
                ),
            decreases self.active_requests.len() - k,
        {
            assert(all[k as int] == self.active_requests@[k as int]@);
            if is_for_resource(&self.active_requests[k], robot_id, resource_id) {
                self.active_requests.remove(k);
                assert(views(self.active_requests@) =~= all.remove(k as int));
                return true;
            }
            k = k + 1;
        }
        false
    }

    // -- leases -----------------------------------------------------------

    pub fn add_lease(&mut self, lease: Lease)
        ensures
            final(self)@ == (ClaimManagerView {
                leases: leases_with(old(self)@.leases, lease@),
                ..old(self)@
            }),
    {
        self.upsert_lease(lease);
    }

    /// Puts a lease in place of the one that has its identifier, or adds it.
    pub fn upsert_lease(&mut self, lease: Lease)
        ensures
            final(self)@ == (ClaimManagerView {
                leases: leases_with(old(self)@.leases, lease@),
                ..old(self)@
            }),
    {
        match find_lease_place(&self.active_leases, lease.id) {
            Some(i) => {
                let ghost before = views(self.active_leases@);
                let ghost l = lease@;
                self.active_leases.set(i, lease);
                assert(views(self.active_leases@) =~= before.update(i as int, l));
            },
            None => {
                proof {
                    lemma_views_push(self.active_leases@, lease);
                }
                self.active_leases.push(lease);
            },
        }
    }

    pub fn remove_lease(&mut self, id: LeaseId) -> (removed: bool)
        ensures
            match lease_place(old(self)@.leases, id, 0) {
                Some(i) => removed && final(self)@ == (ClaimManagerView {
                    leases: old(self)@.leases.remove(i),
                    ..old(self)@
                }),
                None => !removed && final(self)@ == old(self)@,
            },
    {
        match find_lease_place(&self.active_leases, id) {
            Some(i) => {
                let ghost before = views(self.active_leases@);
                self.active_leases.remove(i);
                assert(views(self.active_leases@) =~= before.remove(i as int));
                true
            },
            None => false,
        }
    }

    /// Ends leases and puts them aside, and tells how many there were.
    fn end_leases(&mut self, ending: Ending) -> (n: u64)
        ensures
            final(self)@ == (ClaimManagerView {
                leases: leases_kept(old(self)@.leases, ending),
                released: old(self)@.released + leases_ended(old(self)@.leases, ending),
                ..old(self)@
            }),
            n == leases_ended(old(self)@.leases, ending).len(),
    {
        let ghost all = views(self.active_leases@);
        let ghost aside = views(self.released_leases@);
        let total: usize = self.active_leases.len();
        let mut count: u64 = 0;
        let mut i: usize = 0;
        let ghost mut j: int = 0;
        assert(all.take(0) =~= Seq::empty());
        assert(views(self.active_leases@) =~= leases_kept(all.take(0), ending) + all.skip(0));
        assert(aside =~= aside + leases_ended(all.take(0), ending));
        while i < self.active_leases.len()
            invariant
                0 <= j <= all.len(),
                all.len() == total,
                i <= j,
                count <= j,
                i == leases_kept(all.take(j), ending).len(),
                count == leases_ended(all.take(j), ending).len(),
                views(self.active_leases@) == leases_kept(all.take(j), ending) + all.skip(j),
                views(self.released_leases@) == aside + leases_ended(all.take(j), ending),
                self.index == old(self).index,
                self.active_requests == old(self).active_requests,
                self.next_id == old(self).next_id,
            decreases all.len() - j,
        {
            let ghost kept = leases_kept(all.take(j), ending);
            assert(all.take(j + 1).drop_last() =~= all.take(j));
            assert(views(self.active_leases@)[i as int] == all[j]);
            let ghost before = views(self.active_leases@);
            let ends = match ending {
                Ending::OfRobot(robot, _) => self.active_leases[i].robot_id == robot,
                Ending::AtTick(tick) => match self.active_leases[i].expires_at_tick {
                    Some(t) => t <= tick,
                    None => false,
                },
            };
            if !ends {
                i = i + 1;
                assert(before =~= leases_kept(all.take(j + 1), ending) + all.skip(j + 1));
            } else {
                let mut lease = self.active_leases.remove(i);
                assert(views(self.active_leases@) =~= before.remove(i as int));
                assert(before.remove(i as int) =~= kept + all.skip(j + 1));
                assert(lease@ == all[j]);
                lease.active = false;
                match ending {
                    Ending::OfRobot(_, tick) => {
                        lease.disposition = LeaseDisposition::Released;
                        lease.released_at_tick = tick;
                    },
                    Ending::AtTick(tick) => {
                        lease.disposition = LeaseDisposition::Expired;
                        lease.released_at_tick = Some(tick);
                    },
                }
                proof {
                    lemma_views_push(self.released_leases@, lease);
                }
                self.released_leases.push(lease);
                count = count + 1;
                assert(views(self.released_leases@) =~= aside + leases_ended(
                    all.take(j + 1),
                    ending,
                ));
            }
            proof {
                j = j + 1;
            }
        }
        assert(j == all.len());
        assert(all.take(j) =~= all);
        assert(views(self.active_leases@) =~= leases_kept(all, ending));
        count
    }

    /// Ends the leases of a robot, and tells how many there were.
    pub fn release_leases_for_robot(
        &mut self,
        robot_id: RobotId,
        released_at_tick: Option<u64>,
    ) -> (n: u64)
        ensures
            final(self)@ == (ClaimManagerView {
                leases: leases_kept(
                    old(self)@.leases,
                    Ending::OfRobot(robot_id, released_at_tick),
                ),
                released: old(self)@.released + leases_ended(
                    old(self)@.leases,
                    Ending::OfRobot(robot_id, released_at_tick),
                ),
                ..old(self)@
            }),
            n == leases_ended(
                old(self)@.leases,
                Ending::OfRobot(robot_id, released_at_tick),
            ).len(),
    {
        self.end_leases(Ending::OfRobot(robot_id, released_at_tick))
    }

    /// Ends a lease.
    pub fn release_lease(&mut self, id: LeaseId, released_at_tick: Option<u64>) -> (released: bool)
        ensures
            match lease_place(old(self)@.leases, id, 0) {
                Some(i) => released && final(self)@ == (ClaimManagerView {
                    leases: old(self)@.leases.remove(i),
                    released: old(self)@.released.push(
                        archived(
                            old(self)@.leases[i],
                            LeaseDisposition::Released,
                            released_at_tick,
                        ),
                    ),
                    ..old(self)@
                }),
                None => !released && final(self)@ == old(self)@,
            },
    {
        match find_lease_place(&self.active_leases, id) {
            Some(i) => {
                let ghost before = views(self.active_leases@);
                let mut lease = self.active_leases.remove(i);
                assert(views(self.active_leases@) =~= before.remove(i as int));
                assert(lease@ == before[i as int]);
                lease.active = false;
                lease.disposition = LeaseDisposition::Released;
                lease.released_at_tick = released_at_tick;
                proof {
                    lemma_views_push(self.released_leases@, lease);
                }
                self.released_leases.push(lease);
                true
            },
            None => false,
        }
    }

    /// Ends the leases that have run out, and tells how many there were.
    pub fn expire_leases(&mut self, current_tick: u64) -> (n: u64)
        ensures
            final(self)@ == (ClaimManagerView {
                leases: leases_kept(old(self)@.leases, Ending::AtTick(current_tick)),
                released: old(self)@.released + leases_ended(
                    old(self)@.leases,
                    Ending::AtTick(current_tick),
                ),
                ..old(self)@
            }),
            n == leases_ended(old(self)@.leases, Ending::AtTick(current_tick)).len(),
    {
        self.end_leases(Ending::AtTick(current_tick))
    }

    /// Notes that a lease is still wanted, and prolongs it where a new end is
    /// given.
    pub fn refresh_lease(
        &mut self,
        id: LeaseId,
        refreshed_at_tick: u64,
        expires_at_tick: Option<u64>,
    ) -> (refreshed: bool)
        ensures
            match lease_place(old(self)@.leases, id, 0) {
                Some(i) => refreshed && final(self)@ == (ClaimManagerView {
                    leases: old(self)@.leases.update(
                        i,
                        LeaseView {
                            refreshed_at_tick: Some(refreshed_at_tick),
                            expires_at_tick: if expires_at_tick is Some {
                                expires_at_tick
                            } else {
                                old(self)@.leases[i].expires_at_tick
                            },
                            ..old(self)@.leases[i]
                        },
                    ),
                    ..old(self)@
                }),
                None => !refreshed && final(self)@ == old(self)@,
            },
    {
        match find_lease_place(&self.active_leases, id) {
            Some(i) => {
                let ghost before = views(self.active_leases@);
                assert(before[i as int] == self.active_leases@[i as int]@);
                let mut lease = self.active_leases[i].clone();
                lease.refreshed_at_tick = Some(refreshed_at_tick);
                if expires_at_tick.is_some() {
                    lease.expires_at_tick = expires_at_tick;
                }
                let ghost l = lease@;
                self.active_leases.set(i, lease);
                assert(views(self.active_leases@) =~= before.update(i as int, l));
                true
            },
            None => false,
        }
    }

    /// Takes a lease back.
    pub fn revoke_lease(&mut self, id: LeaseId, reason: String, revoked_at_tick: u64) -> (revoked:
        bool)
        ensures
            match lease_place(old(self)@.leases, id, 0) {
                Some(i) => revoked && final(self)@ == (ClaimManagerView {
                    leases: old(self)@.leases.remove(i),
                    released: old(self)@.released.push(
                        LeaseView {
                            revoked_at_tick: Some(revoked_at_tick),
                            revoke_reason: Some(reason@),
                            ..archived(
                                old(self)@.leases[i],
                                LeaseDisposition::Revoked,
                                Some(revoked_at_tick),
                            )
                        },
                    ),
                    ..old(self)@
                }),
                None => !revoked && final(self)@ == old(self)@,
            },
    {
        match find_lease_place(&self.active_leases, id) {
            Some(i) => {
                let ghost before = views(self.active_leases@);
                let mut lease = self.active_leases.remove(i);
                assert(views(self.active_leases@) =~= before.remove(i as int));
                assert(lease@ == before[i as int]);
                lease.active = false;
                lease.disposition = LeaseDisposition::Revoked;
                lease.revoked_at_tick = Some(revoked_at_tick);
                lease.released_at_tick = Some(revoked_at_tick);
                lease.revoke_reason = Some(reason);
                proof {
                    lemma_views_push(self.released_leases@, lease);
                }
                self.released_leases.push(lease);
                true
            },
            None => false,
        }
    }

    // -- finding ----------------------------------------------------------

    pub fn find_request(&self, id: ClaimId) -> (request: Option<&ClaimRequest>)
        ensures
            match request_place(self@.requests, id, 0) {
                Some(i) => request matches Some(r) && r@ == self@.requests[i],
                None => request is None,
            },
    {
        match find_request_place(&self.active_requests, id) {
            Some(i) => {
                assert(self@.requests[i as int] == self.active_requests@[i as int]@);
                Some(&self.active_requests[i])
            },
            None => None,
        }
    }

    pub fn has_request(&self, id: ClaimId) -> (b: bool)
        ensures
            b == request_place(self@.requests, id, 0) is Some,
    {
        self.find_request(id).is_some()
    }

    pub fn find_lease(&self, id: LeaseId) -> (lease: Option<&Lease>)
        ensures
            match lease_place(self@.leases, id, 0) {
                Some(i) => lease matches Some(l) && l@ == self@.leases[i],
                None => lease is None,
            },
    {
        match find_lease_place(&self.active_leases, id) {
            Some(i) => {
                assert(self@.leases[i as int] == self.active_leases@[i as int]@);
                Some(&self.active_leases[i])
            },
            None => None,
        }
    }

    pub fn has_lease(&self, id: LeaseId) -> (b: bool)
        ensures
            b == lease_place(self@.leases, id, 0) is Some,
    {
        self.find_lease(id).is_some()
    }

    pub fn find_released_lease(&self, id: LeaseId) -> (lease: Option<&Lease>)
        ensures
            match lease_place(self@.released, id, 0) {
                Some(i) => lease matches Some(l) && l@ == self@.released[i],
                None => lease is None,
            },
    {
        match find_lease_place(&self.released_leases, id) {
            Some(i) => {
                assert(self@.released[i as int] == self.released_leases@[i as int]@);
                Some(&self.released_leases[i])
            },
            None => None,
        }
    }

    pub fn leases_for_robot(&self, robot_id: RobotId) -> (leases: Vec<&Lease>)
        ensures
            views(leases@) == leases_of(self@.leases, robot_id),
    {
        let ghost all = views(self.active_leases@);
        let mut leases: Vec<&Lease> = Vec::new();
        let mut i: usize = 0;
        assert(all.take(0) =~= Seq::empty());
        assert(views(leases@) =~= Seq::empty());
        while i < self.active_leases.len()
            invariant
                i <= self.active_leases.len(),
                all == views(self.active_leases@),
                views(leases@) == leases_of(all.take(i as int), robot_id),
            decreases self.active_leases.len() - i,
        {
            assert(all.take(i as int + 1).drop_last() =~= all.take(i as int));
            let lease = &self.active_leases[i];
            assert(all[i as int] == lease@);
            if lease.robot_id == robot_id {
                proof {
                    lemma_views_push(leases@, lease);
                }
                leases.push(lease);
            }
            i = i + 1;
        }
        assert(all.take(i as int) =~= all);
        leases
    }

    pub fn lease_for_claim(&self, claim_id: ClaimId) -> (lease: Option<&Lease>)
        ensures
            match claim_place(self@.leases, claim_id, 0) {
                Some(i) => lease matches Some(l) && l@ == self@.leases[i],
                None => lease is None,
            },
    {
        let ghost all = views(self.active_leases@);
        let mut k: usize = 0;
        while k < self.active_leases.len()
            invariant
                k <= self.active_leases.len(),
                all == views(self.active_leases@),
                claim_place(all, claim_id, 0) == claim_place(all, claim_id, k as nat),
            decreases self.active_leases.len() - k,
        {
            assert(all[k as int] == self.active_leases@[k as int]@);
            if self.active_leases[k].claim_id == claim_id {
                return Some(&self.active_leases[k]);
            }
            k = k + 1;
        }
        None
    }

    // -- compatibility without a workspace --------------------------------

    pub fn zone_claims_compatible(lhs: &ClaimRequest, rhs: &ClaimRequest) -> (b: bool)
        ensures
            b == kind_compatible(lhs@, rhs@, ClaimTargetKind::Zone),
    {
        target_kind_compatible(lhs, rhs, ClaimTargetKind::Zone)
    }

    pub fn node_claims_compatible(lhs: &ClaimRequest, rhs: &ClaimRequest) -> (b: bool)
        ensures
            b == kind_compatible(lhs@, rhs@, ClaimTargetKind::Node),
    {
        target_kind_compatible(lhs, rhs, ClaimTargetKind::Node)
    }

    pub fn edge_claims_compatible(lhs: &ClaimRequest, rhs: &ClaimRequest) -> (b: bool)
        ensures
            b == kind_compatible(lhs@, rhs@, ClaimTargetKind::Edge),
    {
        target_kind_compatible(lhs, rhs, ClaimTargetKind::Edge)
    }

    pub fn claims_compatible(lhs: &ClaimRequest, rhs: &ClaimRequest) -> (b: bool)
        ensures
            b == compatible(None, lhs@, rhs@),
    {
        proof {
            lemma_compatible_by_kind(lhs@, rhs@);
        }
        Self::zone_claims_compatible(lhs, rhs) && Self::node_claims_compatible(lhs, rhs)
            && Self::edge_claims_compatible(lhs, rhs)
    }

    pub fn claims_compatible_with_lease(request: &ClaimRequest, lease: &Lease) -> (b: bool)
        ensures
            b == compatible(None, request@, lease_claim(lease@)),
    {
        let claim = lease_as_request_view(lease);
        Self::claims_compatible(request, &claim)
    }

    // -- evaluation -------------------------------------------------------

    fn first_invalid_target(&self, request: &ClaimRequest) -> (t: Option<ClaimTarget>)
        ensures
            t == match self@.workspace {
                Some(w) => missing_target(&w, request@.targets, 0),
                None => None,
            },
    {
        let index = match self.index() {
            Some(i) => i,
            None => {
                return None;
            },
        };
        let mut k: usize = 0;
        while k < request.targets.len()
            invariant
                k <= request.targets.len(),
                self@.workspace == Some(index@),
                missing_target(&index@, request@.targets, 0) == missing_target(
                    &index@,
                    request@.targets,
                    k as nat,
                ),
            decreases request.targets.len() - k,
        {
            let t = request.targets[k];
            let missing = match t.kind {
                ClaimTargetKind::Zone => index.zone(t.resource_id).is_none(),
                ClaimTargetKind::Node => index.node(t.resource_id).is_none(),
                ClaimTargetKind::Edge => index.edge(t.resource_id).is_none(),
            };
            if missing {
                return Some(t);
            }
            k = k + 1;
        }
        None
    }

    fn first_opposing_request(&self, request: &ClaimRequest) -> (other: Option<&ClaimRequest>)
        ensures
            match opposing_request(self@.workspace, request@, self@.requests, 0) {
                Some(o) => other matches Some(x) && x@ == o,
                None => other is None,
            },
    {
        let ghost all = views(self.active_requests@);
        let mut k: usize = 0;
        while k < self.active_requests.len()
            invariant
                k <= self.active_requests.len(),
                all == views(self.active_requests@),
                opposing_request(self@.workspace, request@, all, 0) == opposing_request(
                    self@.workspace,
                    request@,
                    all,
                    k as nat,
                ),
            decreases self.active_requests.len() - k,
        {
            let other = &self.active_requests[k];
            assert(all[k as int] == other@);
            if other.id != request.id && !claims_compatible_for_index(
                self.index(),
                request,
                other,
            ) {
                return Some(other);
            }
            k = k + 1;
        }
        None
    }

    fn first_opposing_lease(&self, request: &ClaimRequest) -> (lease: Option<&Lease>)
        ensures
            match opposing_lease(self@.workspace, request@, self@.leases, 0) {
                Some(l) => lease matches Some(x) && x@ == l,
                None => lease is None,
            },
    {
        let ghost all = views(self.active_leases@);
        let mut k: usize = 0;
        while k < self.active_leases.len()
            invariant
                k <= self.active_leases.len(),
                all == views(self.active_leases@),
                opposing_lease(self@.workspace, request@, all, 0) == opposing_lease(
                    self@.workspace,
                    request@,
                    all,
                    k as nat,
                ),
            decreases self.active_leases.len() - k,
        {
            let lease = &self.active_leases[k];
            assert(all[k as int] == lease@);
            if lease.active && !claims_compatible_for_index(
                self.index(),
                request,
                &lease_as_request_view(lease),
            ) {
                return Some(lease);
            }
            k = k + 1;
        }
        None
    }

    fn first_exceeded_capacity(&self, request: &ClaimRequest) -> (v: Option<CapacityViolation>)
        ensures
            view_of(v) == exceeded_capacity(
                self@.workspace,
                request@,
                self@.requests,
                self@.leases,
            ),
    {
        let index = self.index();
        let requests = &self.active_requests;
        let leases = &self.active_leases;
        let v = first_capacity_violation(index, request, requests, leases);
        if v.is_some() {
            return v;
        }
        let v = first_membership_capacity_violation(
            index,
            request,
            requests,
            leases,
            ClaimTargetKind::Node,
        );
        if v.is_some() {
            return v;
        }
        let v = first_edge_capacity_violation(index, request, requests, leases);
        if v.is_some() {
            return v;
        }
        first_membership_capacity_violation(
            index,
            request,
            requests,
            leases,
            ClaimTargetKind::Edge,
        )
    }

    /// Decides a request against the requests and leases in the ledger.
    pub fn evaluate_request(&self, request: &ClaimRequest) -> (e: ClaimEvaluation)
        ensures
            e@ == evaluation(self@, request@),
    {
        if request.targets.len() == 0 {
            let mut e = ClaimEvaluation::default();
            e.decision = ClaimDecision::Deny;
            e.reason = "claim request does not contain any targets".to_owned();
            e.diagnostics = one_text("request has no claim targets");
            return e;
        }
        if let Some(t) = self.first_invalid_target(request) {
            let mut e = ClaimEvaluation::default();
            e.decision = ClaimDecision::Deny;
            e.reason = "claim request references a missing workspace resource".to_owned();
            e.conflicting_targets = one_target(t);
            e.blocking_target = Some(t);
            e.diagnostics = one_text("request target does not exist in current workspace index");
            return e;
        }
        let index = self.index();
        if let Some(other) = self.first_opposing_request(request) {
            let conflicts = conflicts_including_cross_level(index, request, other);
            return conflict_eval(index, "active request", conflicts, Some(other.id), None);
        }
        if let Some(lease) = self.first_opposing_lease(request) {
            let claim = lease_as_request_view(lease);
            let conflicts = conflicts_including_cross_level(index, request, &claim);
            return conflict_eval(index, "granted lease", conflicts, None, Some(lease.id));
        }
        if let Some(v) = self.first_exceeded_capacity(request) {
            return capacity_eval(v);
        }
        let mut e = ClaimEvaluation::default();
        e.reason = "claim is compatible with current state".to_owned();
        e.diagnostics = one_text("request passed conflict and capacity checks");
        e
    }
}

fn is_for_resource(r: &ClaimRequest, robot: RobotId, resource: Uuid) -> (b: bool)
    ensures
        b == requests_resource(r@, robot, resource),
{
    if r.robot_id != robot {
        return false;
    }
    let mut i: usize = 0;
    while i < r.targets.len()
        invariant
            i <= r.targets.len(),
            r.robot_id == robot,
            forall|j: int| 0 <= j < i ==> (#[trigger] r@.targets[j]).resource_id != resource,
        decreases r.targets.len() - i,
    {
        if r.targets[i].resource_id == resource {
            assert(r@.targets[i as int].resource_id == resource);
            return true;
        }
        i = i + 1;
    }
    false
}

} // verus!
