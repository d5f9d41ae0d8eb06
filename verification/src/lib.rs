//! Multi-robot navigation, claims, and scheduling over a shared workspace.
//!
//! The library answers four questions for a fleet of robots that move through a
//! shared workspace: where a robot can go, whether it can claim what it needs,
//! when it can go, and who goes first.

use vstd::prelude::*;

pub mod basics;
pub mod claim;
pub mod codes;
pub mod coordinator;
pub mod draft;
pub mod error;
pub mod guid;
pub mod ids;
pub mod index;
pub mod key;
pub mod number;
pub mod ordered;
pub mod persist;
pub mod policy;
pub mod properties;
pub mod robot;
pub mod route;
pub mod startup;
pub mod text;
pub mod vda;
pub mod views;
pub mod words;
pub mod workspace;

pub use claim::manager::ClaimManager;
pub use claim::{
    ClaimAccessMode, ClaimDecision, ClaimEvaluation, ClaimRequest, ClaimTarget, ClaimTargetKind,
    ClaimWindow, Lease, LeaseDisposition,
};
pub use coordinator::arbitration::{
    arbitrate_right_of_way, ArbitrationContext, ArbitrationDecision,
};
pub use coordinator::fleet::{AliveInfo, Coordinator};
pub use coordinator::horizon::{
    claim_request_from_route, claim_targets_from_route, claim_window_from_route,
    release_targets_behind_progress, rolling_horizon_claim_request, route_matches_schedule_window,
    route_progress_index, route_schedule_window_conflicts, route_zone_targets_from_progress,
};
pub use coordinator::schedule::{
    apply_schedule_decision, robot_missed_schedule_slot, schedule_route_request, ScheduleConflict,
    ScheduleDecision, ScheduleDecisionKind,
};
pub use coordinator::targets::{
    claim_target_semantics, scheduled_target_windows_from_route, ClaimTargetSemantics,
    ScheduledTargetWindow,
};
pub use error::Error;
pub use ids::{ClaimId, LeaseId, MissionId, RobotId};
pub use index::tables::NUMERIC_ID_PROPERTY;
pub use index::validation::{ValidationIssue, ValidationSeverity};
pub use index::{Adjacency, ResourceRef, WorkspaceIndex};
pub use key::{Key, KeyError, KeyVerifier};
pub use policy::merge::{derive_effective_edge_semantics, merge_zone_policy};
pub use policy::parse::{
    parse_edge_traffic_semantics, parse_traffic_bool, parse_traffic_f64, parse_traffic_string,
    parse_traffic_u64, parse_zone_policy,
};
pub use policy::validate::{validate_edge_traffic_properties, validate_zone_traffic_properties};
pub use policy::{
    EdgeTrafficSemantics, TrafficIssueSeverity, TrafficParseIssue, ZonePolicy, ZonePolicyKind,
};
pub use robot::{PositionFrame, RobotHeading, RobotPosition, RobotProgressState, RobotState};
pub use route::assemble::{
    build_route_plan, build_route_plan_from_search, reconstruct_route_steps,
    validate_route_plan_shape,
};
pub use route::failure::{diagnose_route_failure, plan_route};
pub use route::plan::{
    accumulate_route_cost, extract_traversed_edge_ids, extract_traversed_node_ids,
    extract_traversed_zone_ids, shortest_path_search, shortest_path_search_with_blocking,
    shortest_path_search_with_penalties,
};
pub use route::{
    RouteCostModel, RouteFailure, RouteFailureKind, RoutePlan, RoutePlanningResult,
    RouteSearchState, RouteStep,
};

verus! {

/// The version of the library.
pub fn version() -> (v: &'static str)
    ensures
        v@ == "0.0.2"@,
{
    "0.0.2"
}

} // verus!
