//! Routes over a workspace: searching, planning, and diagnosing failures.

use crate::guid::Uuid;
use crate::number::Real;
use crate::views::{copy_list, copy_lists, copy_texts, views};
use std::collections::HashMap;
use vstd::prelude::*;

pub mod assemble;
pub mod closing;
pub mod contents;
pub mod cost;
pub mod failure;
pub mod graph;
pub mod laws;
pub mod passage;
pub mod plan;
pub mod search;

verus! {

broadcast use vstd::std_specs::hash::group_hash_axioms;

/// One node of a route, and how it is reached.
#[derive(Debug, Clone, Copy, PartialEq, Eq, Structural)]
pub struct RouteStep {
    pub node_id: Uuid,
    pub incoming_edge_id: Option<Uuid>,
    pub step_cost: Real,
    pub cumulative_cost: Real,
}

impl Default for RouteStep {
    fn default() -> (s: Self)
        ensures
            s == (RouteStep {
                node_id: 0,
                incoming_edge_id: None,
                step_cost: Real { bits: 0 },
                cumulative_cost: Real { bits: 0 },
            }),
    {
        RouteStep {
            node_id: 0,
            incoming_edge_id: None,
            step_cost: Real { bits: 0 },
            cumulative_cost: Real { bits: 0 },
        }
    }
}

/// A route from one node to another.
#[derive(Debug)]
pub struct RoutePlan {
    pub start_node_id: Uuid,
    pub goal_node_id: Uuid,
    pub steps: Vec<RouteStep>,
    pub traversed_node_ids: Vec<Uuid>,
    pub traversed_edge_ids: Vec<Uuid>,
    pub traversed_zone_ids: Vec<Uuid>,
    pub traversed_node_zone_ids: Vec<Vec<Uuid>>,
    pub traversed_edge_zone_ids: Vec<Vec<Uuid>>,
    pub total_cost: Real,
}

/// What a [`RoutePlan`] stands for.
pub struct RoutePlanView {
    pub start_node_id: Uuid,
    pub goal_node_id: Uuid,
    pub steps: Seq<RouteStep>,
    pub traversed_node_ids: Seq<Uuid>,
    pub traversed_edge_ids: Seq<Uuid>,
    pub traversed_zone_ids: Seq<Uuid>,
    pub traversed_node_zone_ids: Seq<Seq<Uuid>>,
    pub traversed_edge_zone_ids: Seq<Seq<Uuid>>,
    pub total_cost: Real,
}

impl View for RoutePlan {
    type V = RoutePlanView;

    open spec fn view(&self) -> RoutePlanView {
        RoutePlanView {
            start_node_id: self.start_node_id,
            goal_node_id: self.goal_node_id,
            steps: self.steps@,
            traversed_node_ids: self.traversed_node_ids@,
            traversed_edge_ids: self.traversed_edge_ids@,
            traversed_zone_ids: self.traversed_zone_ids@,
            traversed_node_zone_ids: views(self.traversed_node_zone_ids@),
            traversed_edge_zone_ids: views(self.traversed_edge_zone_ids@),
            total_cost: self.total_cost,
        }
    }
}

impl Clone for RoutePlan {
    fn clone(&self) -> (r: Self)
        ensures
            r@ == self@,
    {
        let r = RoutePlan {
            start_node_id: self.start_node_id,
            goal_node_id: self.goal_node_id,
            steps: copy_list(&self.steps),
            traversed_node_ids: copy_list(&self.traversed_node_ids),
            traversed_edge_ids: copy_list(&self.traversed_edge_ids),
            traversed_zone_ids: copy_list(&self.traversed_zone_ids),
            traversed_node_zone_ids: copy_lists(&self.traversed_node_zone_ids),
            traversed_edge_zone_ids: copy_lists(&self.traversed_edge_zone_ids),
            total_cost: self.total_cost,
        };
        r
    }
}

/// A route that goes nowhere.
pub open spec fn blank_plan() -> RoutePlanView {
    RoutePlanView {
        start_node_id: 0,
        goal_node_id: 0,
        steps: Seq::empty(),
        traversed_node_ids: Seq::empty(),
        traversed_edge_ids: Seq::empty(),
        traversed_zone_ids: Seq::empty(),
        traversed_node_zone_ids: Seq::empty(),
        traversed_edge_zone_ids: Seq::empty(),
        total_cost: Real { bits: 0 },
    }
}

impl Default for RoutePlan {
    fn default() -> (p: Self)
        ensures
            p@ == blank_plan(),
    {
        let p = RoutePlan {
            start_node_id: 0,
            goal_node_id: 0,
            steps: Vec::new(),
            traversed_node_ids: Vec::new(),
            traversed_edge_ids: Vec::new(),
            traversed_zone_ids: Vec::new(),
            traversed_node_zone_ids: Vec::new(),
            traversed_edge_zone_ids: Vec::new(),
            total_cost: Real { bits: 0 },
        };
        assert(views(p.traversed_node_zone_ids@) =~= Seq::empty());
        assert(views(p.traversed_edge_zone_ids@) =~= Seq::empty());
        p
    }
}

/// How far a search has come.
#[derive(Debug, Clone)]
pub struct RouteSearchState {
    pub found: bool,
    pub distance: Real,
    pub distances: HashMap<Uuid, Real>,
    pub predecessors: HashMap<Uuid, Uuid>,
    /// The nodes that have a distance, in the order in which they were reached.
    pub reached: Vec<Uuid>,
}

/// What a [`RouteSearchState`] stands for.
pub struct RouteSearchStateView {
    pub found: bool,
    pub distance: Real,
    pub distances: Map<Uuid, Real>,
    pub predecessors: Map<Uuid, Uuid>,
    pub reached: Seq<Uuid>,
}

impl View for RouteSearchState {
    type V = RouteSearchStateView;

    open spec fn view(&self) -> RouteSearchStateView {
        RouteSearchStateView {
            found: self.found,
            distance: self.distance,
            distances: self.distances@,
            predecessors: self.predecessors@,
            reached: self.reached@,
        }
    }
}

/// A search that has not begun.
pub open spec fn blank_search() -> RouteSearchStateView {
    RouteSearchStateView {
        found: false,
        distance: Real { bits: crate::number::INFINITY_BITS },
        distances: Map::empty(),
        predecessors: Map::empty(),
        reached: Seq::empty(),
    }
}

impl Default for RouteSearchState {
    fn default() -> (s: Self)
        ensures
            s@ == blank_search(),
    {
        RouteSearchState {
            found: false,
            distance: Real::infinity(),
            distances: HashMap::new(),
            predecessors: HashMap::new(),
            reached: Vec::new(),
        }
    }
}

/// Why there is no route.
#[derive(Debug, Clone, Copy, PartialEq, Eq, Structural)]
pub enum RouteFailureKind {
    MissingStartNode,
    MissingGoalNode,
    PolicyBlocked,
    Unreachable,
}

impl Default for RouteFailureKind {
    fn default() -> (k: Self)
        ensures
            k == RouteFailureKind::Unreachable,
    {
        Self::Unreachable
    }
}

/// Why there is no route, and what was found on the way.
#[derive(Debug, PartialEq, Eq)]
pub struct RouteFailure {
    pub kind: RouteFailureKind,
    pub message: String,
    pub blocked_edge_ids: Vec<Uuid>,
    pub blocked_zone_ids: Vec<Uuid>,
    pub directionally_blocked_edge_ids: Vec<Uuid>,
    pub reachable_node_ids: Vec<Uuid>,
    pub diagnostics: Vec<String>,
}

/// What a [`RouteFailure`] stands for.
pub struct RouteFailureView {
    pub kind: RouteFailureKind,
    pub message: Seq<char>,
    pub blocked_edge_ids: Seq<Uuid>,
    pub blocked_zone_ids: Seq<Uuid>,
    pub directionally_blocked_edge_ids: Seq<Uuid>,
    pub reachable_node_ids: Seq<Uuid>,
    pub diagnostics: Seq<Seq<char>>,
}

impl View for RouteFailure {
    type V = RouteFailureView;

    open spec fn view(&self) -> RouteFailureView {
        RouteFailureView {
            kind: self.kind,
            message: self.message@,
            blocked_edge_ids: self.blocked_edge_ids@,
            blocked_zone_ids: self.blocked_zone_ids@,
            directionally_blocked_edge_ids: self.directionally_blocked_edge_ids@,
            reachable_node_ids: self.reachable_node_ids@,
            diagnostics: views(self.diagnostics@),
        }
    }
}

impl Clone for RouteFailure {
    fn clone(&self) -> (r: Self)
        ensures
            r@ == self@,
    {
        let r = RouteFailure {
            kind: self.kind,
            message: self.message.clone(),
            blocked_edge_ids: copy_list(&self.blocked_edge_ids),
            blocked_zone_ids: copy_list(&self.blocked_zone_ids),
            directionally_blocked_edge_ids: copy_list(&self.directionally_blocked_edge_ids),
            reachable_node_ids: copy_list(&self.reachable_node_ids),
            diagnostics: copy_texts(&self.diagnostics),
        };
        r
    }
}

/// A failure of which nothing is known.
pub open spec fn blank_failure() -> RouteFailureView {
    RouteFailureView {
        kind: RouteFailureKind::Unreachable,
        message: Seq::empty(),
        blocked_edge_ids: Seq::empty(),
        blocked_zone_ids: Seq::empty(),
        directionally_blocked_edge_ids: Seq::empty(),
        reachable_node_ids: Seq::empty(),
        diagnostics: Seq::empty(),
    }
}

impl Default for RouteFailure {
    fn default() -> (f: Self)
        ensures
            f@ == blank_failure(),
    {
        let f = RouteFailure {
            kind: RouteFailureKind::Unreachable,
            message: String::new(),
            blocked_edge_ids: Vec::new(),
            blocked_zone_ids: Vec::new(),
            directionally_blocked_edge_ids: Vec::new(),
            reachable_node_ids: Vec::new(),
            diagnostics: Vec::new(),
        };
        assert(views(f.diagnostics@) =~= Seq::empty());
        f
    }
}

/// What planning a route has come to.
#[derive(Debug, Clone)]
pub struct RoutePlanningResult {
    pub search: RouteSearchState,
    pub plan: Option<RoutePlan>,
    pub failure: Option<RouteFailure>,
}

impl Default for RoutePlanningResult {
    fn default() -> (r: Self)
        ensures
            r.search@ == blank_search(),
            r.plan is None,
            r.failure is None,
    {
        RoutePlanningResult { search: RouteSearchState::default(), plan: None, failure: None }
    }
}

/// What a route costs: the weight of its edges, or that and the penalties that
/// traffic policy puts on them.
#[derive(Debug, Clone, Copy, PartialEq, Eq, Structural)]
pub enum RouteCostModel {
    GraphWeight,
    Penalized,
}

} // verus!
