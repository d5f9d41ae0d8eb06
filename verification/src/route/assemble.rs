//! Building route plans and checking their shape.

use super::plan::{
    accumulate_route_cost, edges_along, extract_traversed_edge_ids_from_nodes,
    extract_traversed_node_ids, extract_traversed_zone_ids_from_nodes, list_zones_of_edge,
    list_zones_of_node, reconstruct_route_nodes, route_cost, route_nodes, traversed_edges,
    traversed_nodes, zones_along, zones_of_edge, zones_of_node,
};
use super::cost::{
    are_functions, extend_cost, extended, is_pricing, no_cost, route_costs, Costs,
};
use super::graph::PenaltyTerm;
use super::{
    RouteCostModel, RoutePlan, RoutePlanView, RouteSearchState, RouteSearchStateView, RouteStep,
};
use crate::error::{outcome, Error, ErrorView};
use crate::guid::Uuid;
use crate::index::{link_place, WorkspaceIndex};
use crate::number::{is_operation, result_of, Real};
use crate::views::{copy_list, lemma_views_push, views};
use crate::workspace::Workspace;
use vstd::prelude::*;

verus! {

// ---------------------------------------------------------------------------
// shape
// ---------------------------------------------------------------------------

/// What is wrong with the steps of a plan, from number `i` on.
pub open spec fn step_error(plan: RoutePlanView, i: nat) -> Option<Seq<char>>
    decreases plan.steps.len() - i,
{
    if i >= plan.steps.len() {
        None
    } else {
        let step = plan.steps[i as int];
        if step.node_id != plan.traversed_node_ids[i as int] {
            Some("route plan step nodes must match traversed node sequence"@)
        } else if i == 0 && step.incoming_edge_id is Some {
            Some("route plan first step cannot have an incoming edge"@)
        } else if i > 0 && step.incoming_edge_id != Some(plan.traversed_edge_ids[i - 1]) {
            Some("route plan step incoming edges must match traversed edges"@)
        } else {
            step_error(plan, i + 1)
        }
    }
}

/// What is wrong with the shape of a plan.
pub open spec fn shape_error(plan: RoutePlanView) -> Option<Seq<char>> {
    let nodes = plan.traversed_node_ids;
    if nodes.len() == 0 {
        if plan.traversed_edge_ids.len() > 0 || plan.steps.len() > 0 {
            Some("route plan contains edges or steps without any traversed nodes"@)
        } else {
            None
        }
    } else if plan.start_node_id != nodes[0] {
        Some("route plan start node does not match the first traversed node"@)
    } else if plan.goal_node_id != nodes.last() {
        Some("route plan goal node does not match the last traversed node"@)
    } else if plan.traversed_edge_ids.len() + 1 != nodes.len() {
        Some("route plan edge count must equal node count minus one"@)
    } else if plan.steps.len() > 0 && plan.steps.len() != nodes.len() {
        Some("route plan step count must equal traversed node count"@)
    } else if plan.traversed_node_zone_ids.len() > 0 && plan.traversed_node_zone_ids.len()
        != nodes.len() {
        Some("route plan node-zone coverage must align with traversed nodes"@)
    } else if plan.traversed_edge_zone_ids.len() > 0 && plan.traversed_edge_zone_ids.len()
        != plan.traversed_edge_ids.len() {
        Some("route plan edge-zone coverage must align with traversed edges"@)
    } else {
        step_error(plan, 0)
    }
}

/// The number of edges of a plan, or what is wrong with its shape.
pub open spec fn plan_shape(plan: RoutePlanView) -> Result<u64, ErrorView> {
    match shape_error(plan) {
        Some(m) => Err(ErrorView::InvalidArgument(m)),
        None => Ok(plan.traversed_edge_ids.len() as u64),
    }
}

/// What a number or an error stands for.
pub open spec fn count_outcome(r: Result<u64, Error>) -> Result<u64, ErrorView> {
    match r {
        Ok(n) => Ok(n),
        Err(e) => Err(e@),
    }
}

fn check_steps(plan: &RoutePlan) -> (r: Option<&'static str>)
    requires
        plan@.traversed_node_ids.len() > 0,
        plan@.traversed_edge_ids.len() + 1 == plan@.traversed_node_ids.len(),
        plan@.steps.len() > 0 ==> plan@.steps.len() == plan@.traversed_node_ids.len(),
    ensures
        match step_error(plan@, 0) {
            Some(m) => r matches Some(s) && s@ == m,
            None => r is None,
        },
{
    let mut i: usize = 0;
    while i < plan.steps.len()
        invariant
            i <= plan.steps.len(),
            plan@.traversed_edge_ids.len() + 1 == plan@.traversed_node_ids.len(),
            plan@.steps.len() > 0 ==> plan@.steps.len() == plan@.traversed_node_ids.len(),
            step_error(plan@, 0) == step_error(plan@, i as nat),
        decreases plan.steps.len() - i,
    {
        let step = plan.steps[i];
        if step.node_id != plan.traversed_node_ids[i] {
            return Some("route plan step nodes must match traversed node sequence");
        }
        if i == 0 {
            if step.incoming_edge_id.is_some() {
                return Some("route plan first step cannot have an incoming edge");
            }
        } else {
            let matching = match step.incoming_edge_id {
                Some(id) => id == plan.traversed_edge_ids[i - 1],
                None => false,
            };
            if !matching {
                return Some("route plan step incoming edges must match traversed edges");
            }
        }
        i = i + 1;
    }
    None
}

/// Checks the shape of a plan, and gives the number of its edges.
pub fn validate_route_plan_shape(plan: &RoutePlan) -> (r: Result<u64, Error>)
    ensures
        count_outcome(r) == plan_shape(plan@),
{
    let n: usize = plan.traversed_node_ids.len();
    if n == 0 {
        if plan.traversed_edge_ids.len() > 0 || plan.steps.len() > 0 {
            return Err(
                Error::invalid_argument(
                    "route plan contains edges or steps without any traversed nodes",
                ),
            );
        }
        return Ok(0);
    }
    if plan.start_node_id != plan.traversed_node_ids[0] {
        return Err(
            Error::invalid_argument(
                "route plan start node does not match the first traversed node",
            ),
        );
    }
    if plan.goal_node_id != plan.traversed_node_ids[n - 1] {
        return Err(
            Error::invalid_argument(
                "route plan goal node does not match the last traversed node",
            ),
        );
    }
    if plan.traversed_edge_ids.len() != n - 1 {
        return Err(
            Error::invalid_argument("route plan edge count must equal node count minus one"),
        );
    }
    if plan.steps.len() > 0 && plan.steps.len() != n {
        return Err(
            Error::invalid_argument("route plan step count must equal traversed node count"),
        );
    }
    if plan.traversed_node_zone_ids.len() > 0 && plan.traversed_node_zone_ids.len() != n {
        return Err(
            Error::invalid_argument(
                "route plan node-zone coverage must align with traversed nodes",
            ),
        );
    }
    if plan.traversed_edge_zone_ids.len() > 0 && plan.traversed_edge_zone_ids.len()
        != plan.traversed_edge_ids.len() {
        return Err(
            Error::invalid_argument(
                "route plan edge-zone coverage must align with traversed edges",
            ),
        );
    }
    if let Some(m) = check_steps(plan) {
        return Err(Error::invalid_argument(m));
    }
    Ok(plan.traversed_edge_ids.len() as u64)
}

// ---------------------------------------------------------------------------
// steps
// ---------------------------------------------------------------------------

/// The steps of a route between whose nodes there are edges.
pub open spec fn steps_of<G: Fn(Real, Real) -> Real>(ws: &Workspace, f: Costs, g: G, m: RouteCostModel, nodes: Seq<Uuid>) -> Seq<RouteStep>
    decreases nodes.len(),
{
    if nodes.len() == 0 {
        Seq::empty()
    } else if nodes.len() == 1 {
        seq![
            RouteStep {
                node_id: nodes[0],
                incoming_edge_id: None,
                step_cost: no_cost(),
                cumulative_cost: no_cost(),
            },
        ]
    } else {
        let before = steps_of(ws, f, g, m, nodes.drop_last());
        let e = link_place(ws, nodes[nodes.len() - 2], nodes[nodes.len() - 1]).unwrap();
        let cost = extended(f, m, no_cost(), e);
        before.push(
            RouteStep {
                node_id: nodes.last(),
                incoming_edge_id: Some(ws.edges@[e as int].id),
                step_cost: cost,
                cumulative_cost: result_of(g, before.last().cumulative_cost, cost),
            },
        )
    }
}

proof fn lemma_steps_len<G: Fn(Real, Real) -> Real>(ws: &Workspace, f: Costs, g: G, m: RouteCostModel, nodes: Seq<Uuid>)
    ensures
        steps_of(ws, f, g, m, nodes).len() == nodes.len(),
    decreases nodes.len(),
{
    if nodes.len() > 1 {
        lemma_steps_len(ws, f, g, m, nodes.drop_last());
    }
}

/// Nodes between which there are edges have a cost.
pub proof fn lemma_linked_route_has_cost(
    ws: &Workspace,
    f: Costs,
    m: RouteCostModel,
    nodes: Seq<Uuid>,
)
    requires
        edges_along(ws, nodes) is Some,
    ensures
        route_cost(ws, f, m, nodes) is Ok,
        nodes.len() > 0 ==> edges_along(ws, nodes).unwrap().len() == nodes.len() - 1,
        nodes.len() == 0 ==> edges_along(ws, nodes).unwrap().len() == 0,
    decreases nodes.len(),
{
    if nodes.len() > 1 {
        lemma_linked_route_has_cost(ws, f, m, nodes.drop_last());
    }
}

fn list_steps<A: Fn(Real, Real) -> Real, P: Fn(PenaltyTerm) -> Real>(
    index: &WorkspaceIndex,
    nodes: &Vec<Uuid>,
    model: RouteCostModel,
    plus: &A,
    price: &P,
) -> (r: Option<Vec<RouteStep>>)
    requires
        is_operation(*plus),
        is_pricing(*price),
    ensures
        match edges_along(&index@, nodes@) {
            Some(_) => r matches Some(steps) && steps@ == steps_of(
                &index@,
                route_costs(&index@, *plus, *price),
                *plus,
                model,
                nodes@,
            ),
            None => r is None,
        },
{
    let ghost ws = &index@;
    let ghost f = route_costs(&index@, *plus, *price);
    let ghost g = *plus;
    let mut steps: Vec<RouteStep> = Vec::new();
    if nodes.len() == 0 {
        return Some(steps);
    }
    steps.push(
        RouteStep {
            node_id: nodes[0],
            incoming_edge_id: None,
            step_cost: Real::zero(),
            cumulative_cost: Real::zero(),
        },
    );
    let mut cumulative: Real = Real::zero();
    let mut i: usize = 1;
    assert(steps@ =~= steps_of(ws, f, g, model, nodes@.take(1)));
    while i < nodes.len()
        invariant
            1 <= i <= nodes.len(),
            ws == &index@,
            f == route_costs(&index@, *plus, *price),
            g == *plus,
            is_operation(*plus),
            is_pricing(*price),
            is_operation(g),
            edges_along(ws, nodes@.take(i as int)) is Some,
            steps@ == steps_of(ws, f, g, model, nodes@.take(i as int)),
            steps@.len() == i,
            cumulative == steps@.last().cumulative_cost,
        decreases nodes.len() - i,
    {
        let ghost next = nodes@.take(i as int + 1);
        assert(next.drop_last() =~= nodes@.take(i as int));
        let e = match index.edge_place_between(nodes[i - 1], nodes[i]) {
            Some(e) => e,
            None => {
                proof {
                    assert(edges_along(ws, next) is None);
                    super::plan::lemma_edges_along_prefix(ws, nodes@, i as int + 1);
                }
                return None;
            },
        };
        proof {
            reveal(are_functions);
        }
        let cost: Real = extend_cost(index, model, Real::zero(), e, plus, price);
        assert(cost == extended(f, model, no_cost(), e));
        let sum_so_far: Real = plus(cumulative, cost);
        assert(sum_so_far == result_of(g, cumulative, cost));
        cumulative = sum_so_far;
        steps.push(
            RouteStep {
                node_id: nodes[i],
                incoming_edge_id: Some(index.workspace().edges[e].id),
                step_cost: cost,
                cumulative_cost: cumulative,
            },
        );
        i = i + 1;
    }
    assert(nodes@.take(i as int) =~= nodes@);
    Some(steps)
}

/// The steps of the route that a search has found, or that some of its nodes
/// have no edge between them.
pub open spec fn reconstructed_steps<G: Fn(Real, Real) -> Real>(ws: &Workspace, f: Costs, g: G, m: RouteCostModel, nodes: Seq<Uuid>) -> Result<
    Seq<RouteStep>,
    ErrorView,
> {
    match edges_along(ws, nodes) {
        Some(_) => Ok(steps_of(ws, f, g, m, nodes)),
        None => Err(
            ErrorView::NotFound(
                "route reconstruction references adjacent nodes without a graph edge"@,
            ),
        ),
    }
}

/// The steps of the route that a search has found.
pub fn reconstruct_route_steps<A: Fn(Real, Real) -> Real, P: Fn(PenaltyTerm) -> Real>(
    index: &WorkspaceIndex,
    search: &RouteSearchState,
    start: Uuid,
    goal: Uuid,
    cost_model: RouteCostModel,
    plus: &A,
    price: &P,
) -> (r: Result<Vec<RouteStep>, Error>)
    requires
        is_operation(*plus),
        is_pricing(*price),
    ensures
        outcome(r) == reconstructed_steps(
            &index@,
            route_costs(&index@, *plus, *price),
            *plus,
            cost_model,
            route_nodes(search@, start, goal),
        ),
{
    let nodes = reconstruct_route_nodes(search, start, goal);
    match list_steps(index, &nodes, cost_model, plus, price) {
        Some(steps) => Ok(steps),
        None => Err(
            Error::not_found(
                "route reconstruction references adjacent nodes without a graph edge",
            ),
        ),
    }
}

// ---------------------------------------------------------------------------
// plans
// ---------------------------------------------------------------------------

/// The plan for a route, or why there is none.
pub open spec fn plan_of<G: Fn(Real, Real) -> Real>(
    ws: &Workspace,
    f: Costs,
    g: G,
    m: RouteCostModel,
    start: Uuid,
    goal: Uuid,
    nodes: Seq<Uuid>,
) -> Result<RoutePlanView, ErrorView> {
    if nodes.len() > 0 && nodes[0] != start {
        Err(
            ErrorView::InvalidArgument(
                "route node sequence does not begin at the requested start node"@,
            ),
        )
    } else if nodes.len() > 0 && nodes.last() != goal {
        Err(
            ErrorView::InvalidArgument(
                "route node sequence does not end at the requested goal node"@,
            ),
        )
    } else {
        match (traversed_edges(ws, nodes), route_cost(ws, f, m, nodes)) {
            (Err(e), _) => Err(e),
            (Ok(_), Err(e)) => Err(e),
            (Ok(edges), Ok(total_cost)) => Ok(
                RoutePlanView {
                    start_node_id: start,
                    goal_node_id: goal,
                    steps: steps_of(ws, f, g, m, nodes),
                    traversed_node_ids: nodes,
                    traversed_edge_ids: edges,
                    traversed_zone_ids: zones_along(ws, nodes, edges),
                    traversed_node_zone_ids: nodes.map_values(|id: Uuid| zones_of_node(ws, id)),
                    traversed_edge_zone_ids: edges.map_values(|id: Uuid| zones_of_edge(ws, id)),
                    total_cost,
                },
            ),
        }
    }
}

proof fn lemma_steps_match<G: Fn(Real, Real) -> Real>(ws: &Workspace, f: Costs, g: G, m: RouteCostModel, nodes: Seq<Uuid>)
    requires
        edges_along(ws, nodes) is Some,
    ensures
        steps_of(ws, f, g, m, nodes).len() == nodes.len(),
        forall|i: int|
            0 <= i < nodes.len() ==> (#[trigger] steps_of(ws, f, g, m, nodes)[i]).node_id
                == nodes[i],
        nodes.len() > 0 ==> steps_of(ws, f, g, m, nodes)[0].incoming_edge_id is None,
        forall|i: int|
            1 <= i < nodes.len() ==> (#[trigger] steps_of(ws, f, g, m, nodes)[i]).incoming_edge_id
                == Some(edges_along(ws, nodes).unwrap()[i - 1]),
        nodes.len() > 0 ==> edges_along(ws, nodes).unwrap().len() == nodes.len() - 1,
    decreases nodes.len(),
{
    if nodes.len() > 1 {
        let rest = nodes.drop_last();
        lemma_steps_match(ws, f, g, m, rest);
        let before = steps_of(ws, f, g, m, rest);
        let steps = steps_of(ws, f, g, m, nodes);
        let edges = edges_along(ws, nodes).unwrap();
        assert forall|i: int| 0 <= i < nodes.len() implies (#[trigger] steps[i]).node_id
            == nodes[i] by {
            if i < rest.len() {
                assert(steps[i] == before[i]);
            }
        }
        assert(steps[0] == before[0]);
        assert forall|i: int| 1 <= i < nodes.len() implies (#[trigger] steps[i]).incoming_edge_id
            == Some(edges[i - 1]) by {
            if i < rest.len() {
                assert(steps[i] == before[i]);
                assert(edges[i - 1] == edges_along(ws, rest).unwrap()[i - 1]);
            }
        }
    }
}

proof fn lemma_no_step_error(plan: RoutePlanView, i: nat)
    requires
        plan.steps.len() == plan.traversed_node_ids.len(),
        plan.traversed_edge_ids.len() + 1 == plan.traversed_node_ids.len(),
        forall|k: int|
            0 <= k < plan.steps.len() ==> (#[trigger] plan.steps[k]).node_id
                == plan.traversed_node_ids[k],
        plan.steps[0].incoming_edge_id is None,
        forall|k: int|
            1 <= k < plan.steps.len() ==> (#[trigger] plan.steps[k]).incoming_edge_id == Some(
                plan.traversed_edge_ids[k - 1],
            ),
    ensures
        step_error(plan, i) is None,
    decreases plan.steps.len() - i,
{
    if i < plan.steps.len() {
        assert(plan.steps[i as int].node_id == plan.traversed_node_ids[i as int]);
        lemma_no_step_error(plan, i + 1);
    }
}

/// A plan that is built has the right shape.
pub proof fn lemma_built_plan_has_shape<G: Fn(Real, Real) -> Real>(
    ws: &Workspace,
    f: Costs,
    g: G,
    m: RouteCostModel,
    start: Uuid,
    goal: Uuid,
    nodes: Seq<Uuid>,
)
    ensures
        plan_of(ws, f, g, m, start, goal, nodes) matches Ok(plan) ==> shape_error(plan) is None,
{
    if let Ok(plan) = plan_of(ws, f, g, m, start, goal, nodes) {
        lemma_steps_match(ws, f, g, m, nodes);
        lemma_linked_route_has_cost(ws, f, m, nodes);
        if nodes.len() > 0 {
            lemma_no_step_error(plan, 0);
        }
    }
}

/// The plan for a route.
pub fn build_route_plan<A: Fn(Real, Real) -> Real, P: Fn(PenaltyTerm) -> Real>(
    index: &WorkspaceIndex,
    start: Uuid,
    goal: Uuid,
    route_nodes: &Vec<Uuid>,
    cost_model: RouteCostModel,
    plus: &A,
    price: &P,
) -> (r: Result<RoutePlan, Error>)
    requires
        is_operation(*plus),
        is_pricing(*price),
    ensures
        outcome(r) == plan_of(
            &index@,
            route_costs(&index@, *plus, *price),
            *plus,
            cost_model,
            start,
            goal,
            route_nodes@,
        ),
{
    let ghost ws = &index@;
    let ghost nodes = route_nodes@;
    let n: usize = route_nodes.len();
    if n > 0 {
        if route_nodes[0] != start {
            return Err(
                Error::invalid_argument(
                    "route node sequence does not begin at the requested start node",
                ),
            );
        }
        if route_nodes[n - 1] != goal {
            return Err(
                Error::invalid_argument(
                    "route node sequence does not end at the requested goal node",
                ),
            );
        }
    }
    let edges = match extract_traversed_edge_ids_from_nodes(index, route_nodes) {
        Ok(e) => e,
        Err(e) => {
            return Err(e);
        },
    };
    let zones = match extract_traversed_zone_ids_from_nodes(index, route_nodes) {
        Ok(z) => z,
        Err(e) => {
            return Err(e);
        },
    };
    let mut node_zones: Vec<Vec<Uuid>> = Vec::new();
    let ghost all_node_zones = nodes.map_values(|id: Uuid| zones_of_node(ws, id));
    let mut i: usize = 0;
    assert(views(node_zones@) =~= all_node_zones.take(0));
    while i < route_nodes.len()
        invariant
            i <= route_nodes.len(),
            ws == &index@,
            nodes == route_nodes@,
            all_node_zones == nodes.map_values(|id: Uuid| zones_of_node(ws, id)),
            views(node_zones@) == all_node_zones.take(i as int),
        decreases route_nodes.len() - i,
    {
        let list = list_zones_of_node(index, route_nodes[i]);
        proof {
            lemma_views_push(node_zones@, list);
        }
        node_zones.push(list);
        i = i + 1;
        assert(views(node_zones@) =~= all_node_zones.take(i as int));
    }
    assert(views(node_zones@) =~= all_node_zones);
    let mut edge_zones: Vec<Vec<Uuid>> = Vec::new();
    let ghost all_edge_zones = edges@.map_values(|id: Uuid| zones_of_edge(ws, id));
    let mut i: usize = 0;
    assert(views(edge_zones@) =~= all_edge_zones.take(0));
    while i < edges.len()
        invariant
            i <= edges.len(),
            ws == &index@,
            all_edge_zones == edges@.map_values(|id: Uuid| zones_of_edge(ws, id)),
            views(edge_zones@) == all_edge_zones.take(i as int),
        decreases edges.len() - i,
    {
        let list = list_zones_of_edge(index, edges[i]);
        proof {
            lemma_views_push(edge_zones@, list);
        }
        edge_zones.push(list);
        i = i + 1;
        assert(views(edge_zones@) =~= all_edge_zones.take(i as int));
    }
    assert(views(edge_zones@) =~= all_edge_zones);
    let total_cost = match accumulate_route_cost(index, route_nodes, cost_model, plus, price) {
        Ok(c) => c,
        Err(e) => {
            return Err(e);
        },
    };
    let steps = match list_steps(index, route_nodes, cost_model, plus, price) {
        Some(s) => s,
        None => {
            return Err(Error::not_found("route references adjacent nodes without a graph edge"));
        },
    };
    let plan = RoutePlan {
        start_node_id: start,
        goal_node_id: goal,
        steps,
        traversed_node_ids: copy_list(route_nodes),
        traversed_edge_ids: edges,
        traversed_zone_ids: zones,
        traversed_node_zone_ids: node_zones,
        traversed_edge_zone_ids: edge_zones,
        total_cost,
    };
    proof {
        assert(plan_of(ws, route_costs(&index@, *plus, *price), *plus, cost_model, start, goal, nodes) == Ok::<
            RoutePlanView,
            ErrorView,
        >(plan@));
        lemma_built_plan_has_shape(ws, route_costs(&index@, *plus, *price), *plus, cost_model, start, goal, nodes);
    }
    match validate_route_plan_shape(&plan) {
        Ok(_) => Ok(plan),
        Err(e) => Err(e),
    }
}

/// The plan for the route that a search has found, or why there is none.
pub open spec fn plan_from_search<G: Fn(Real, Real) -> Real>(
    ws: &Workspace,
    f: Costs,
    g: G,
    m: RouteCostModel,
    start: Uuid,
    goal: Uuid,
    s: RouteSearchStateView,
) -> Result<RoutePlanView, ErrorView> {
    match traversed_nodes(s, start, goal) {
        Ok(nodes) => plan_of(ws, f, g, m, start, goal, nodes),
        Err(e) => Err(e),
    }
}

/// The plan for the route that a search has found.
pub fn build_route_plan_from_search<A: Fn(Real, Real) -> Real, P: Fn(PenaltyTerm) -> Real>(
    index: &WorkspaceIndex,
    search: &RouteSearchState,
    start: Uuid,
    goal: Uuid,
    cost_model: RouteCostModel,
    plus: &A,
    price: &P,
) -> (r: Result<RoutePlan, Error>)
    requires
        is_operation(*plus),
        is_pricing(*price),
    ensures
        outcome(r) == plan_from_search(
            &index@,
            route_costs(&index@, *plus, *price),
            *plus,
            cost_model,
            start,
            goal,
            search@,
        ),
{
    match extract_traversed_node_ids(search, start, goal) {
        Ok(nodes) => build_route_plan(index, start, goal, &nodes, cost_model, plus, price),
        Err(e) => Err(e),
    }
}

} // verus!
