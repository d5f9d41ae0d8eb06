//! Claims on zones, nodes and edges, and leases that grant them.

use crate::guid::Uuid;
use crate::ids::{ClaimId, LeaseId, MissionId, RobotId};
use crate::properties::{copy_text, text_view};
use crate::views::{copy_list, copy_texts, views};
use vstd::prelude::*;

pub mod answers;
pub mod capacity;
pub mod conflicts;
pub mod exclusion;
pub mod laws;
pub mod manager;
pub mod reasons;
pub mod room;

verus! {

/// What a claim is on.
#[derive(Debug, Clone, Copy, PartialEq, Eq, Structural)]
pub enum ClaimTargetKind {
    Zone,
    Node,
    Edge,
}

impl Default for ClaimTargetKind {
    fn default() -> (d: Self)
        ensures
            d == ClaimTargetKind::Zone,
    {
        Self::Zone
    }
}

/// Whether others may be there too.
#[derive(Debug, Clone, Copy, PartialEq, Eq, Structural)]
pub enum ClaimAccessMode {
    Shared,
    Exclusive,
}

impl Default for ClaimAccessMode {
    fn default() -> (d: Self)
        ensures
            d == ClaimAccessMode::Exclusive,
    {
        Self::Exclusive
    }
}

/// How a request is decided.
#[derive(Debug, Clone, Copy, PartialEq, Eq, Structural)]
pub enum ClaimDecision {
    Grant,
    Deny,
}

impl Default for ClaimDecision {
    fn default() -> (d: Self)
        ensures
            d == ClaimDecision::Grant,
    {
        Self::Grant
    }
}

/// What has become of a lease.
#[derive(Debug, Clone, Copy, PartialEq, Eq, Structural)]
pub enum LeaseDisposition {
    Active,
    Released,
    Expired,
    Revoked,
}

impl Default for LeaseDisposition {
    fn default() -> (d: Self)
        ensures
            d == LeaseDisposition::Active,
    {
        Self::Active
    }
}

/// A span of ticks. It is open where an end is missing.
#[derive(Debug, Clone, Copy, PartialEq, Eq, Structural)]
pub struct ClaimWindow {
    pub start_tick: Option<u64>,
    pub end_tick: Option<u64>,
}

impl Default for ClaimWindow {
    fn default() -> (w: Self)
        ensures
            w.start_tick is None,
            w.end_tick is None,
    {
        ClaimWindow { start_tick: None, end_tick: None }
    }
}

/// One resource that is claimed.
#[derive(Debug, Clone, Copy, PartialEq, Eq, Structural)]
pub struct ClaimTarget {
    pub kind: ClaimTargetKind,
    pub resource_id: Uuid,
}

impl Default for ClaimTarget {
    fn default() -> (t: Self)
        ensures
            t.kind == ClaimTargetKind::Zone,
            t.resource_id == 0,
    {
        ClaimTarget { kind: ClaimTargetKind::Zone, resource_id: 0 }
    }
}

/// A request for resources.
#[derive(Debug, PartialEq, Eq)]
pub struct ClaimRequest {
    pub id: ClaimId,
    pub robot_id: RobotId,
    pub mission_id: MissionId,
    pub access_mode: ClaimAccessMode,
    pub priority: u32,
    pub requested_at_tick: Option<u64>,
    pub window: ClaimWindow,
    pub targets: Vec<ClaimTarget>,
}

/// What a [`ClaimRequest`] stands for.
pub struct ClaimRequestView {
    pub id: ClaimId,
    pub robot_id: RobotId,
    pub mission_id: MissionId,
    pub access_mode: ClaimAccessMode,
    pub priority: u32,
    pub requested_at_tick: Option<u64>,
    pub window: ClaimWindow,
    pub targets: Seq<ClaimTarget>,
}

impl View for ClaimRequest {
    type V = ClaimRequestView;

    open spec fn view(&self) -> ClaimRequestView {
        ClaimRequestView {
            id: self.id,
            robot_id: self.robot_id,
            mission_id: self.mission_id,
            access_mode: self.access_mode,
            priority: self.priority,
            requested_at_tick: self.requested_at_tick,
            window: self.window,
            targets: self.targets@,
        }
    }
}

impl Clone for ClaimRequest {
    fn clone(&self) -> (r: Self)
        ensures
            r@ == self@,
    {
        let r = ClaimRequest {
            id: self.id,
            robot_id: self.robot_id,
            mission_id: self.mission_id,
            access_mode: self.access_mode,
            priority: self.priority,
            requested_at_tick: self.requested_at_tick,
            window: self.window,
            targets: copy_list(&self.targets),
        };
        r
    }
}

/// A request that states nothing.
pub open spec fn blank_request() -> ClaimRequestView {
    ClaimRequestView {
        id: ClaimId(0),
        robot_id: RobotId(0),
        mission_id: MissionId(0),
        access_mode: ClaimAccessMode::Exclusive,
        priority: 0,
        requested_at_tick: None,
        window: ClaimWindow { start_tick: None, end_tick: None },
        targets: Seq::empty(),
    }
}

impl Default for ClaimRequest {
    fn default() -> (r: Self)
        ensures
            r@ == blank_request(),
    {
        ClaimRequest {
            id: ClaimId(0),
            robot_id: RobotId(0),
            mission_id: MissionId(0),
            access_mode: ClaimAccessMode::Exclusive,
            priority: 0,
            requested_at_tick: None,
            window: ClaimWindow { start_tick: None, end_tick: None },
            targets: Vec::new(),
        }
    }
}

/// A lease on resources.
#[derive(Debug, PartialEq, Eq)]
pub struct Lease {
    pub id: LeaseId,
    pub claim_id: ClaimId,
    pub robot_id: RobotId,
    pub access_mode: ClaimAccessMode,
    pub targets: Vec<ClaimTarget>,
    pub granted_at_tick: Option<u64>,
    pub expires_at_tick: Option<u64>,
    pub refreshed_at_tick: Option<u64>,
    pub released_at_tick: Option<u64>,
    pub revoked_at_tick: Option<u64>,
    pub revoke_reason: Option<String>,
    pub disposition: LeaseDisposition,
    pub active: bool,
}

/// What a [`Lease`] stands for.
pub struct LeaseView {
    pub id: LeaseId,
    pub claim_id: ClaimId,
    pub robot_id: RobotId,
    pub access_mode: ClaimAccessMode,
    pub targets: Seq<ClaimTarget>,
    pub granted_at_tick: Option<u64>,
    pub expires_at_tick: Option<u64>,
    pub refreshed_at_tick: Option<u64>,
    pub released_at_tick: Option<u64>,
    pub revoked_at_tick: Option<u64>,
    pub revoke_reason: Option<Seq<char>>,
    pub disposition: LeaseDisposition,
    pub active: bool,
}

impl View for Lease {
    type V = LeaseView;

    open spec fn view(&self) -> LeaseView {
        LeaseView {
            id: self.id,
            claim_id: self.claim_id,
            robot_id: self.robot_id,
            access_mode: self.access_mode,
            targets: self.targets@,
            granted_at_tick: self.granted_at_tick,
            expires_at_tick: self.expires_at_tick,
            refreshed_at_tick: self.refreshed_at_tick,
            released_at_tick: self.released_at_tick,
            revoked_at_tick: self.revoked_at_tick,
            revoke_reason: text_view(self.revoke_reason),
            disposition: self.disposition,
            active: self.active,
        }
    }
}

impl Clone for Lease {
    fn clone(&self) -> (r: Self)
        ensures
            r@ == self@,
    {
        let r = Lease {
            id: self.id,
            claim_id: self.claim_id,
            robot_id: self.robot_id,
            access_mode: self.access_mode,
            targets: copy_list(&self.targets),
            granted_at_tick: self.granted_at_tick,
            expires_at_tick: self.expires_at_tick,
            refreshed_at_tick: self.refreshed_at_tick,
            released_at_tick: self.released_at_tick,
            revoked_at_tick: self.revoked_at_tick,
            revoke_reason: copy_text(&self.revoke_reason),
            disposition: self.disposition,
            active: self.active,
        };
        r
    }
}

/// A lease on nothing.
pub open spec fn blank_lease() -> LeaseView {
    LeaseView {
        id: LeaseId(0),
        claim_id: ClaimId(0),
        robot_id: RobotId(0),
        access_mode: ClaimAccessMode::Exclusive,
        targets: Seq::empty(),
        granted_at_tick: None,
        expires_at_tick: None,
        refreshed_at_tick: None,
        released_at_tick: None,
        revoked_at_tick: None,
        revoke_reason: None,
        disposition: LeaseDisposition::Active,
        active: true,
    }
}

impl Default for Lease {
    fn default() -> (l: Self)
        ensures
            l@ == blank_lease(),
    {
        Lease {
            id: LeaseId(0),
            claim_id: ClaimId(0),
            robot_id: RobotId(0),
            access_mode: ClaimAccessMode::Exclusive,
            targets: Vec::new(),
            granted_at_tick: None,
            expires_at_tick: None,
            refreshed_at_tick: None,
            released_at_tick: None,
            revoked_at_tick: None,
            revoke_reason: None,
            disposition: LeaseDisposition::Active,
            active: true,
        }
    }
}

/// How a request is decided, and why.
#[derive(Debug, PartialEq, Eq)]
pub struct ClaimEvaluation {
    pub decision: ClaimDecision,
    pub reason: String,
    pub conflicting_claim_id: Option<ClaimId>,
    pub conflicting_lease_id: Option<LeaseId>,
    pub conflicting_targets: Vec<ClaimTarget>,
    pub blocking_target: Option<ClaimTarget>,
    pub diagnostics: Vec<String>,
    /// Whether a shared capacity is what stands in the way.
    pub denied_by_capacity: bool,
}

/// What a [`ClaimEvaluation`] stands for.
pub struct ClaimEvaluationView {
    pub decision: ClaimDecision,
    pub reason: Seq<char>,
    pub conflicting_claim_id: Option<ClaimId>,
    pub conflicting_lease_id: Option<LeaseId>,
    pub conflicting_targets: Seq<ClaimTarget>,
    pub blocking_target: Option<ClaimTarget>,
    pub diagnostics: Seq<Seq<char>>,
    pub denied_by_capacity: bool,
}

impl View for ClaimEvaluation {
    type V = ClaimEvaluationView;

    open spec fn view(&self) -> ClaimEvaluationView {
        ClaimEvaluationView {
            decision: self.decision,
            reason: self.reason@,
            conflicting_claim_id: self.conflicting_claim_id,
            conflicting_lease_id: self.conflicting_lease_id,
            conflicting_targets: self.conflicting_targets@,
            blocking_target: self.blocking_target,
            diagnostics: views(self.diagnostics@),
            denied_by_capacity: self.denied_by_capacity,
        }
    }
}

impl Clone for ClaimEvaluation {
    fn clone(&self) -> (r: Self)
        ensures
            r@ == self@,
    {
        let r = ClaimEvaluation {
            decision: self.decision,
            reason: self.reason.clone(),
            conflicting_claim_id: self.conflicting_claim_id,
            conflicting_lease_id: self.conflicting_lease_id,
            conflicting_targets: copy_list(&self.conflicting_targets),
            blocking_target: self.blocking_target,
            diagnostics: copy_texts(&self.diagnostics),
            denied_by_capacity: self.denied_by_capacity,
        };
        r
    }
}

/// A grant that states nothing.
pub open spec fn blank_evaluation() -> ClaimEvaluationView {
    ClaimEvaluationView {
        decision: ClaimDecision::Grant,
        reason: Seq::empty(),
        conflicting_claim_id: None,
        conflicting_lease_id: None,
        conflicting_targets: Seq::empty(),
        blocking_target: None,
        diagnostics: Seq::empty(),
        denied_by_capacity: false,
    }
}

impl Default for ClaimEvaluation {
    fn default() -> (e: Self)
        ensures
            e@ == blank_evaluation(),
    {
        let e = ClaimEvaluation {
            decision: ClaimDecision::Grant,
            reason: String::new(),
            conflicting_claim_id: None,
            conflicting_lease_id: None,
            conflicting_targets: Vec::new(),
            blocking_target: None,
            diagnostics: Vec::new(),
            denied_by_capacity: false,
        };
        assert(views(e.diagnostics@) =~= Seq::empty());
        e
    }
}

} // verus!
