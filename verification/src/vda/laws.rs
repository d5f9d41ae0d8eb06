//! What holds of orders and states with respect to what they report.

use super::adapter::{known_order_of, order_of, or_blank, state_of, state_with_claims};
use super::order::OrderView;
use crate::claim::manager::ClaimManagerView;
use crate::guid::uuid_text;
use crate::robot::{RobotProgressState, RobotStateView};
use crate::route::assemble::shape_error;
use crate::route::RoutePlanView;
use crate::workspace::Workspace;
use vstd::prelude::*;

verus! {

/// Whether an order leads over the nodes and edges of a plan, in their order.
pub open spec fn follows(order: OrderView, plan: RoutePlanView) -> bool {
    &&& order.version == "3.0.0"@
    &&& order.nodes.len() == plan.traversed_node_ids.len()
    &&& order.edges.len() == plan.traversed_edge_ids.len()
    &&& forall|i: int|
        0 <= i < order.nodes.len() ==> (#[trigger] order.nodes[i]).node_id == uuid_text(
            plan.traversed_node_ids[i],
        )
    &&& forall|i: int|
        0 <= i < order.edges.len() ==> {
            let edge = #[trigger] order.edges[i];
            &&& edge.edge_id == uuid_text(plan.traversed_edge_ids[i])
            &&& edge.start_node_id == order.nodes[i].node_id
            &&& edge.end_node_id == order.nodes[i + 1].node_id
        }
}

/// A plan of the right shape is mapped to an order that leads over its nodes and
/// edges, with or without what a workspace knows.
pub proof fn lemma_order_follows_plan(ws: &Workspace, plan: RoutePlanView)
    requires
        shape_error(plan) is None,
    ensures
        follows(or_blank(order_of(plan)), plan),
        follows(or_blank(known_order_of(ws, plan)), plan),
{
}

/// A robot is reported as driving exactly while it follows its route.
pub proof fn lemma_driving_means_following(s: RobotStateView, m: ClaimManagerView)
    ensures
        state_of(s).driving_state == Some("DRIVING"@) <==> s.progress_state
            == RobotProgressState::FollowingRoute,
        state_with_claims(s, m).driving_state == state_of(s).driving_state,
{
    reveal_strlit("DRIVING");
    reveal_strlit("STOPPED");
    if s.progress_state != RobotProgressState::FollowingRoute {
        assert("DRIVING"@[0] != "STOPPED"@[0]);
    }
}

} // verus!
