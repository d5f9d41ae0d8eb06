//! What holds of searching and planning together.

use super::assemble::{
    lemma_built_plan_has_shape, lemma_linked_route_has_cost, plan_from_search, shape_error,
};
use super::cost::{well_behaved, Costs};
use super::graph::{blocking_zones, hard_blocked, may_step, step_over, zone_blocks};
use super::plan::{edges_along, route_cost, route_nodes};
use super::search::{
    is_outcome, is_reached, is_walk, leads, route_chain, walk_cost,
};
use super::{RouteCostModel, RouteSearchStateView};
use crate::error::ErrorView;
use crate::guid::Uuid;
use crate::index::tables::{lemma_places, node_ids, places, policy_at};
use crate::index::{edge_zone_ids, link, link_from, link_place};
use crate::number::Real;
use crate::workspace::{Edge, Workspace};
use vstd::prelude::*;

verus! {

proof fn lemma_link_found(edges: Seq<Edge>, source: usize, target: usize, k: nat, e: int)
    requires
        k <= e < edges.len(),
        edges.len() <= usize::MAX,
        edges[e].source == source,
        edges[e].target == target,
    ensures
        link_from(edges, source, target, k) is Some,
    decreases e - k,
{
    if k < e && !(edges[k as int].source == source && edges[k as int].target == target) {
        lemma_link_found(edges, source, target, k + 1, e);
    }
}

/// Where no two nodes have the same identifier, a step between two nodes means
/// that there is an edge between them.
pub proof fn lemma_step_has_link(ws: &Workspace, blocking: bool, a: Uuid, e: int, b: Uuid)
    requires
        node_ids(ws).no_duplicates(),
        may_step(ws, blocking, a, e, b),
    ensures
        link(ws, a, b) is Some,
{
    reveal(may_step);
    let ids = node_ids(ws);
    assert(ids.len() == ws.nodes.len());
    lemma_places(ids);
    let v = places(ids)[a];
    let edge = &ws.edges[e];
    assert(ws.edges@.len() == ws.edges.len());
    let other = if edge.source == v {
        edge.target
    } else {
        edge.source
    };
    assert(ids[other as int] == b);
    assert(ids.contains(b));
    assert(places(ids).dom().contains(b));
    assert(places(ids)[b] == other) by {
        assert(ids[places(ids)[b] as int] == b);
    }
    lemma_link_found(ws.edges@, edge.source, edge.target, 0, e);
}

proof fn lemma_walk_has_edges(
    ws: &Workspace,
    blocking: bool,
    nodes: Seq<Uuid>,
    edges: Seq<usize>,
)
    requires
        node_ids(ws).no_duplicates(),
        is_walk(ws, blocking, nodes, edges),
    ensures
        edges_along(ws, nodes) is Some,
    decreases nodes.len(),
{
    if nodes.len() >= 2 {
        let ns = nodes.drop_last();
        let es = edges.drop_last();
        assert forall|i: int| 0 <= i < es.len() implies may_step(
            ws,
            blocking,
            #[trigger] ns[i],
            es[i] as int,
            ns[i + 1],
        ) by {
            assert(may_step(ws, blocking, nodes[i], edges[i] as int, nodes[i + 1]));
        }
        lemma_walk_has_edges(ws, blocking, ns, es);
        let k = edges.len() - 1;
        assert(may_step(ws, blocking, nodes[k], edges[k] as int, nodes[k + 1]));
        lemma_step_has_link(ws, blocking, nodes[k], edges[k] as int, nodes[k + 1]);
    }
}

/// Where no two nodes have the same identifier, a plan can be made of every
/// route that is found. It begins at the start, ends at the goal, and has the
/// right shape.
pub proof fn lemma_found_route_has_plan<G: Fn(Real, Real) -> Real>(
    ws: &Workspace,
    blocking: bool,
    m: RouteCostModel,
    f: Costs,
    g: G,
    start: Uuid,
    goal: Uuid,
    s: RouteSearchStateView,
)
    requires
        node_ids(ws).no_duplicates(),
        is_outcome(ws, blocking, m, f, start, goal, s),
        s.found,
    ensures
        plan_from_search(ws, f, g, m, start, goal, s) matches Ok(plan) && {
            &&& plan.traversed_node_ids.len() > 0
            &&& plan.traversed_node_ids[0] == start
            &&& plan.traversed_node_ids.last() == goal
            &&& shape_error(plan) is None
        },
{
    let nodes = route_nodes(s, start, goal);
    if start == goal {
        assert(nodes =~= seq![start]);
    } else {
        assert(s.distances.dom().contains(goal));
        assert(is_reached(ws, blocking, m, f, start, s, goal));
        let edges = choose|edges: Seq<usize>| #[trigger]
            leads(ws, blocking, nodes, edges, start, goal);
        lemma_walk_has_edges(ws, blocking, nodes, edges);
    }
    assert(edges_along(ws, nodes) is Some);
    lemma_linked_route_has_cost(ws, f, m, nodes);
    lemma_built_plan_has_shape(ws, f, g, m, start, goal, nodes);
}

/// Two searches with the same costs agree on whether the goal is found and, if
/// costs are well behaved, on how far away it is.
pub proof fn lemma_distance_is_unique(
    ws: &Workspace,
    blocking: bool,
    m: RouteCostModel,
    f: Costs,
    start: Uuid,
    goal: Uuid,
    s: RouteSearchStateView,
    t: RouteSearchStateView,
)
    requires
        is_outcome(ws, blocking, m, f, start, goal, s),
        is_outcome(ws, blocking, m, f, start, goal, t),
    ensures
        s.found == t.found,
        s.found && well_behaved(f, m, ws.edges@.len()) ==> s.distance.rank()
            == t.distance.rank(),
{
    lemma_one_is_no_farther(ws, blocking, m, f, start, goal, s, t);
    lemma_one_is_no_farther(ws, blocking, m, f, start, goal, t, s);
}

proof fn lemma_one_is_no_farther(
    ws: &Workspace,
    blocking: bool,
    m: RouteCostModel,
    f: Costs,
    start: Uuid,
    goal: Uuid,
    s: RouteSearchStateView,
    t: RouteSearchStateView,
)
    requires
        is_outcome(ws, blocking, m, f, start, goal, s),
        is_outcome(ws, blocking, m, f, start, goal, t),
    ensures
        s.found == t.found,
        s.found && well_behaved(f, m, ws.edges@.len()) ==> s.distance.rank()
            <= t.distance.rank(),
{
    if s.found && start != goal && well_behaved(f, m, ws.edges@.len()) {
        assert(t.distances.dom().contains(goal));
        assert(is_reached(ws, blocking, m, f, start, t, goal));
        let nodes = route_chain(
            t.predecessors,
            start,
            goal,
            t.predecessors.dom().len(),
        ).unwrap();
        let edges = choose|edges: Seq<usize>| #[trigger]
            leads(ws, blocking, nodes, edges, start, goal) && walk_cost(f, m, edges)
                == t.distances[goal];
        assert(s.distance.at_most(walk_cost(f, m, edges)));
    }
}

/// A route that heeds blocks is no shorter than one that does not.
pub proof fn lemma_blocks_only_lengthen(
    ws: &Workspace,
    m: RouteCostModel,
    f: Costs,
    start: Uuid,
    goal: Uuid,
    free: RouteSearchStateView,
    blocked: RouteSearchStateView,
)
    requires
        is_outcome(ws, false, m, f, start, goal, free),
        is_outcome(ws, true, m, f, start, goal, blocked),
        blocked.found,
    ensures
        free.found,
        well_behaved(f, m, ws.edges@.len()) ==> free.distance.rank()
            <= blocked.distance.rank(),
{
    if start != goal {
        assert(blocked.distances.dom().contains(goal));
        assert(is_reached(ws, true, m, f, start, blocked, goal));
        let nodes = route_chain(
            blocked.predecessors,
            start,
            goal,
            blocked.predecessors.dom().len(),
        ).unwrap();
        let edges = choose|edges: Seq<usize>| #[trigger]
            leads(ws, true, nodes, edges, start, goal) && walk_cost(f, m, edges)
                == blocked.distances[goal];
        assert forall|i: int| 0 <= i < edges.len() implies may_step(
            ws,
            false,
            #[trigger] nodes[i],
            edges[i] as int,
            nodes[i + 1],
        ) by {
            assert(may_step(ws, true, nodes[i], edges[i] as int, nodes[i + 1]));
            reveal(may_step);
        }
        assert(leads(ws, false, nodes, edges, start, goal));
        if well_behaved(f, m, ws.edges@.len()) {
            assert(free.distance.at_most(walk_cost(f, m, edges)));
        }
    }
}

proof fn lemma_blocking_zone_counts(ws: &Workspace, ids: Seq<Uuid>, zone: Uuid)
    requires
        ids.contains(zone),
        policy_at(ws, zone) matches Some(p) && zone_blocks(p),
    ensures
        blocking_zones(ws, ids).len() > 0,
    decreases ids.len(),
{
    let k = choose|k: int| 0 <= k < ids.len() && ids[k] == zone;
    if k < ids.len() - 1 {
        assert(ids.drop_last()[k] == zone);
        lemma_blocking_zone_counts(ws, ids.drop_last(), zone);
    }
}

/// A zone that is blocked closes every edge that touches it to routes.
pub proof fn lemma_blocked_zone_closes_edges(ws: &Workspace, edge_id: Uuid, zone: Uuid)
    requires
        edge_zone_ids(ws, edge_id).contains(zone),
        policy_at(ws, zone) matches Some(p) && p.blocked == Some(true),
    ensures
        hard_blocked(ws, edge_id),
{
    lemma_blocking_zone_counts(ws, edge_zone_ids(ws, edge_id), zone);
}

/// Whether no two edges join the same two nodes.
pub open spec fn joined_once(ws: &Workspace) -> bool {
    forall|i: int, j: int|
        0 <= i < j < ws.edges@.len() ==> {
            let (a, b) = (#[trigger] ws.edges@[i], #[trigger] ws.edges@[j]);
            !(a.source == b.source && a.target == b.target) && !(a.source == b.target && a.target
                == b.source)
        }
}

pub(crate) proof fn lemma_link_joins(edges: Seq<Edge>, source: usize, target: usize, k: nat)
    requires
        edges.len() <= usize::MAX,
    ensures
        link_from(edges, source, target, k) matches Some(e) ==> k <= e < edges.len()
            && edges[e as int].source == source && edges[e as int].target == target,
    decreases edges.len() - k,
{
    if k < edges.len() && !(edges[k as int].source == source && edges[k as int].target == target) {
        lemma_link_joins(edges, source, target, k + 1);
    }
}

/// Where no two edges join the same two nodes, the edge between the two nodes of
/// a step is the one that the step takes.
proof fn lemma_step_takes_link(ws: &Workspace, blocking: bool, a: Uuid, e: int, b: Uuid)
    requires
        node_ids(ws).no_duplicates(),
        joined_once(ws),
        may_step(ws, blocking, a, e, b),
    ensures
        link_place(ws, a, b) == Some(e as usize),
        0 <= e < ws.edges@.len(),
{
    reveal(may_step);
    lemma_step_has_link(ws, blocking, a, e, b);
    let ids = node_ids(ws);
    assert(ids.len() == ws.nodes.len());
    assert(ws.edges@.len() == ws.edges.len());
    lemma_places(ids);
    let v = places(ids)[a];
    let edge = &ws.edges[e];
    let other = if edge.source == v {
        edge.target
    } else {
        edge.source
    };
    assert(ids[other as int] == b);
    assert(ids.contains(b));
    assert(places(ids)[b] == other) by {
        assert(ids[places(ids)[b] as int] == b);
    }
    lemma_link_joins(ws.edges@, v, other, 0);
    lemma_link_joins(ws.edges@, other, v, 0);
    let k = link_place(ws, a, b).unwrap() as int;
    assert(ws.edges@[e] == *edge);
    assert(!(k < e) && !(e < k));
}

pub(crate) proof fn lemma_edges_along(ws: &Workspace, nodes: Seq<Uuid>, i: int)
    requires
        edges_along(ws, nodes) is Some,
        0 <= i < nodes.len() - 1,
    ensures
        edges_along(ws, nodes).unwrap().len() == nodes.len() - 1,
        link(ws, nodes[i], nodes[i + 1]) matches Some(e) && edges_along(ws, nodes).unwrap()[i]
            == e.id,
    decreases nodes.len(),
{
    reveal_with_fuel(edges_along, 2);
    if nodes.len() > 2 {
        let rest = nodes.drop_last();
        if i < rest.len() - 1 {
            lemma_edges_along(ws, rest, i);
        } else {
            lemma_edges_along(ws, rest, 0);
        }
    }
}

/// A route that heeds blocks goes from each node to the next over an edge that
/// is open to routes and may be taken that way.
pub proof fn lemma_route_takes_open_edges(
    ws: &Workspace,
    m: RouteCostModel,
    f: Costs,
    start: Uuid,
    goal: Uuid,
    s: RouteSearchStateView,
    i: int,
)
    requires
        is_outcome(ws, true, m, f, start, goal, s),
        s.found,
        0 <= i < route_nodes(s, start, goal).len() - 1,
    ensures
        ({
            let nodes = route_nodes(s, start, goal);
            exists|e: int| #[trigger]
                step_over(ws, nodes[i], e) == Some(nodes[i + 1]) && !hard_blocked(
                    ws,
                    ws.edges@[e].id,
                )
        }),
{
    let nodes = route_nodes(s, start, goal);
    assert(s.distances.dom().contains(goal));
    assert(is_reached(ws, true, m, f, start, s, goal));
    let edges = choose|edges: Seq<usize>| #[trigger] leads(ws, true, nodes, edges, start, goal);
    assert(may_step(ws, true, nodes[i], edges[i] as int, nodes[i + 1]));
    reveal(may_step);
    assert(step_over(ws, nodes[i], edges[i] as int) == Some(nodes[i + 1]));
}

/// Where no two nodes have the same identifier and no two edges join the same
/// two nodes, no edge of the plan for a route that heeds blocks is closed to
/// routes.
pub proof fn lemma_plan_holds_open_edges<G: Fn(Real, Real) -> Real>(
    ws: &Workspace,
    m: RouteCostModel,
    f: Costs,
    g: G,
    start: Uuid,
    goal: Uuid,
    s: RouteSearchStateView,
)
    requires
        node_ids(ws).no_duplicates(),
        joined_once(ws),
        is_outcome(ws, true, m, f, start, goal, s),
        s.found,
    ensures
        plan_from_search(ws, f, g, m, start, goal, s) matches Ok(plan) && forall|i: int|
            0 <= i < plan.traversed_edge_ids.len() ==> !hard_blocked(
                ws,
                #[trigger] plan.traversed_edge_ids[i],
            ),
{
    lemma_found_route_has_plan(ws, true, m, f, g, start, goal, s);
    let plan = plan_from_search(ws, f, g, m, start, goal, s)->Ok_0;
    let nodes = route_nodes(s, start, goal);
    let ids = edges_along(ws, nodes).unwrap();
    assert(plan.traversed_edge_ids == ids);
    assert forall|i: int| 0 <= i < ids.len() implies !hard_blocked(ws, #[trigger] ids[i]) by {
        if nodes.len() >= 2 {
            lemma_edges_along(ws, nodes, 0);
            lemma_edges_along(ws, nodes, i);
            assert(s.distances.dom().contains(goal));
            assert(is_reached(ws, true, m, f, start, s, goal));
            let edges = choose|edges: Seq<usize>| #[trigger]
                leads(ws, true, nodes, edges, start, goal);
            assert(may_step(ws, true, nodes[i], edges[i] as int, nodes[i + 1]));
            lemma_step_takes_link(ws, true, nodes[i], edges[i] as int, nodes[i + 1]);
            reveal(may_step);
        }
    }
}

proof fn lemma_walk_costs_route(
    ws: &Workspace,
    blocking: bool,
    f: Costs,
    m: RouteCostModel,
    nodes: Seq<Uuid>,
    edges: Seq<usize>,
)
    requires
        node_ids(ws).no_duplicates(),
        joined_once(ws),
        is_walk(ws, blocking, nodes, edges),
    ensures
        route_cost(ws, f, m, nodes) == Ok::<Real, ErrorView>(walk_cost(f, m, edges)),
    decreases nodes.len(),
{
    if nodes.len() >= 2 {
        let ns = nodes.drop_last();
        let es = edges.drop_last();
        assert forall|i: int| 0 <= i < es.len() implies may_step(
            ws,
            blocking,
            #[trigger] ns[i],
            es[i] as int,
            ns[i + 1],
        ) by {
            assert(may_step(ws, blocking, nodes[i], edges[i] as int, nodes[i + 1]));
        }
        lemma_walk_costs_route(ws, blocking, f, m, ns, es);
        let k = edges.len() - 1;
        assert(may_step(ws, blocking, nodes[k], edges[k] as int, nodes[k + 1]));
        lemma_step_takes_link(ws, blocking, nodes[k], edges[k] as int, nodes[k + 1]);
    }
}

/// Where no two nodes have the same identifier and no two edges join the same
/// two nodes, the plan for a route costs what the search has found.
pub proof fn lemma_plan_costs_the_distance<G: Fn(Real, Real) -> Real>(
    ws: &Workspace,
    blocking: bool,
    m: RouteCostModel,
    f: Costs,
    g: G,
    start: Uuid,
    goal: Uuid,
    s: RouteSearchStateView,
)
    requires
        node_ids(ws).no_duplicates(),
        joined_once(ws),
        is_outcome(ws, blocking, m, f, start, goal, s),
        s.found,
    ensures
        plan_from_search(ws, f, g, m, start, goal, s) matches Ok(plan) && plan.total_cost
            == s.distance,
{
    lemma_found_route_has_plan(ws, blocking, m, f, g, start, goal, s);
    let nodes = route_nodes(s, start, goal);
    if start == goal {
        assert(nodes =~= seq![start]);
    } else {
        assert(s.distances.dom().contains(goal));
        assert(is_reached(ws, blocking, m, f, start, s, goal));
        let edges = choose|edges: Seq<usize>| #[trigger]
            leads(ws, blocking, nodes, edges, start, goal) && walk_cost(f, m, edges)
                == s.distances[goal];
        lemma_walk_costs_route(ws, blocking, f, m, nodes, edges);
    }
}

} // verus!
