//! Route plans: reading a route off a search, adding up its cost, and checking
//! its shape.

use super::cost::{
    are_functions, extend_cost, extended, is_pricing, no_cost, route_costs, Costs,
};
use super::graph::PenaltyTerm;
use super::search::{is_outcome, route_chain, search};
use super::{RouteCostModel, RouteSearchState, RouteSearchStateView};
use crate::error::{outcome, Error, ErrorView};
use crate::guid::Uuid;
use crate::index::tables::{first_seen, node_at};
use crate::index::{edge_zone_ids, link, link_place, node_zone_ids, WorkspaceIndex};
use crate::number::{is_operation, Real};
use crate::workspace::{zone_at, Workspace};
use std::collections::HashSet;
use vstd::prelude::*;

verus! {

broadcast use vstd::std_specs::hash::group_hash_axioms;

// ---------------------------------------------------------------------------
// the three searches
// ---------------------------------------------------------------------------

/// Searches a shortest path by weight, whatever is blocked.
pub fn shortest_path_search<A: Fn(Real, Real) -> Real, P: Fn(PenaltyTerm) -> Real>(
    index: &WorkspaceIndex,
    start: Uuid,
    goal: Uuid,
    plus: &A,
    price: &P,
) -> (s: RouteSearchState)
    requires
        is_operation(*plus),
        is_pricing(*price),
    ensures
        is_outcome(
            &index@,
            false,
            RouteCostModel::GraphWeight,
            route_costs(&index@, *plus, *price),
            start,
            goal,
            s@,
        ),
{
    search(index, start, goal, false, RouteCostModel::GraphWeight, plus, price)
}

/// Searches a shortest path by weight over edges that are open to routes.
pub fn shortest_path_search_with_blocking<A: Fn(Real, Real) -> Real, P: Fn(PenaltyTerm) -> Real>(
    index: &WorkspaceIndex,
    start: Uuid,
    goal: Uuid,
    plus: &A,
    price: &P,
) -> (s: RouteSearchState)
    requires
        is_operation(*plus),
        is_pricing(*price),
    ensures
        is_outcome(
            &index@,
            true,
            RouteCostModel::GraphWeight,
            route_costs(&index@, *plus, *price),
            start,
            goal,
            s@,
        ),
{
    search(index, start, goal, true, RouteCostModel::GraphWeight, plus, price)
}

/// Searches a shortest path by weight and penalty over edges that are open to
/// routes.
pub fn shortest_path_search_with_penalties<A: Fn(Real, Real) -> Real, P: Fn(PenaltyTerm) -> Real>(
    index: &WorkspaceIndex,
    start: Uuid,
    goal: Uuid,
    plus: &A,
    price: &P,
) -> (s: RouteSearchState)
    requires
        is_operation(*plus),
        is_pricing(*price),
    ensures
        is_outcome(
            &index@,
            true,
            RouteCostModel::Penalized,
            route_costs(&index@, *plus, *price),
            start,
            goal,
            s@,
        ),
{
    search(index, start, goal, true, RouteCostModel::Penalized, plus, price)
}

// ---------------------------------------------------------------------------
// reading a route off a search
// ---------------------------------------------------------------------------

/// The nodes of the route that a search has found; none if it has found none, or
/// if its predecessors do not lead from the goal to the start.
pub open spec fn route_nodes(s: RouteSearchStateView, start: Uuid, goal: Uuid) -> Seq<Uuid> {
    if !s.found {
        Seq::empty()
    } else {
        match route_chain(s.predecessors, start, goal, s.predecessors.dom().len()) {
            Some(nodes) => nodes,
            None => Seq::empty(),
        }
    }
}

/// The items of a list, back to front.
fn reversed(list: &Vec<Uuid>) -> (out: Vec<Uuid>)
    ensures
        out@ == list@.reverse(),
{
    let mut out: Vec<Uuid> = Vec::new();
    let mut i: usize = list.len();
    while i > 0
        invariant
            i <= list.len(),
            out@ == list@.reverse().take(list@.len() - i),
        decreases i,
    {
        i = i - 1;
        out.push(list[i]);
        assert(out@ =~= list@.reverse().take(list@.len() - i));
    }
    assert(out@ =~= list@.reverse());
    out
}

/// The nodes of the route that a search has found.
pub fn reconstruct_route_nodes(search: &RouteSearchState, start: Uuid, goal: Uuid) -> (nodes: Vec<
    Uuid,
>)
    ensures
        nodes@ == route_nodes(search@, start, goal),
{
    if !search.found {
        return Vec::new();
    }
    let ghost p = search@.predecessors;
    let ghost total = p.dom().len();
    let mut back: Vec<Uuid> = Vec::new();
    let mut current: Uuid = goal;
    let mut left: usize = search.predecessors.len();
    back.push(current);
    let ghost mut suffix: Seq<Uuid> = Seq::empty();
    assert(back@.reverse() =~= seq![current] + suffix);
    proof {
        if let Some(c) = route_chain(p, start, goal, total) {
            assert(c + suffix =~= c);
        }
    }
    while current != start
        invariant
            search.found,
            p == search@.predecessors,
            total == p.dom().len(),
            back@.reverse() == seq![current] + suffix,
            route_chain(p, start, goal, total) == match route_chain(
                p,
                start,
                current,
                left as nat,
            ) {
                Some(c) => Some(c + suffix),
                None => None,
            },
        decreases left,
    {
        if left == 0 {
            return Vec::new();
        }
        let next: Uuid = match search.predecessors.get(&current) {
            Some(q) => *q,
            None => {
                return Vec::new();
            },
        };
        let ghost before = back@;
        let ghost old_suffix = suffix;
        proof {
            suffix = seq![current] + suffix;
            if let Some(c) = route_chain(p, start, next, (left - 1) as nat) {
                assert(c.push(current) + old_suffix =~= c + suffix);
            }
        }
        left = left - 1;
        current = next;
        back.push(current);
        assert(back@.reverse() =~= seq![current] + before.reverse());
    }
    proof {
        assert(route_chain(p, start, current, left as nat) == Some(seq![start]));
    }
    reversed(&back)
}

/// The nodes of the route that a search has found, or that predecessors do not
/// lead there.
pub open spec fn traversed_nodes(s: RouteSearchStateView, start: Uuid, goal: Uuid) -> Result<
    Seq<Uuid>,
    ErrorView,
> {
    if s.found && route_nodes(s, start, goal).len() == 0 && start != goal {
        Err(
            ErrorView::NotFound(
                "route reconstruction could not recover a predecessor chain"@,
            ),
        )
    } else {
        Ok(route_nodes(s, start, goal))
    }
}

/// The nodes of the route that a search has found.
pub fn extract_traversed_node_ids(search: &RouteSearchState, start: Uuid, goal: Uuid) -> (r: Result<
    Vec<Uuid>,
    Error,
>)
    ensures
        outcome(r) == traversed_nodes(search@, start, goal),
{
    if !search.found {
        return Ok(Vec::new());
    }
    let nodes = reconstruct_route_nodes(search, start, goal);
    if nodes.len() == 0 && start != goal {
        return Err(
            Error::not_found("route reconstruction could not recover a predecessor chain"),
        );
    }
    Ok(nodes)
}

/// The edges between the nodes of a route, if there is one between each two.
pub open spec fn edges_along(ws: &Workspace, nodes: Seq<Uuid>) -> Option<Seq<Uuid>>
    decreases nodes.len(),
{
    if nodes.len() < 2 {
        Some(Seq::empty())
    } else {
        match (
            edges_along(ws, nodes.drop_last()),
            link(ws, nodes[nodes.len() - 2], nodes[nodes.len() - 1]),
        ) {
            (Some(before), Some(e)) => Some(before.push(e.id)),
            _ => None,
        }
    }
}

/// The edges between the nodes of a route, or that there is none between some.
pub open spec fn traversed_edges(ws: &Workspace, nodes: Seq<Uuid>) -> Result<Seq<Uuid>, ErrorView> {
    match edges_along(ws, nodes) {
        Some(edges) => Ok(edges),
        None => Err(
            ErrorView::NotFound("route references adjacent nodes without a graph edge"@),
        ),
    }
}

/// A route that has no edges up to some node has none as a whole.
pub proof fn lemma_edges_along_prefix(ws: &Workspace, nodes: Seq<Uuid>, n: int)
    requires
        0 <= n <= nodes.len(),
        edges_along(ws, nodes.take(n)) is None,
    ensures
        edges_along(ws, nodes) is None,
    decreases nodes.len() - n,
{
    if n < nodes.len() {
        assert(nodes.take(n + 1).drop_last() =~= nodes.take(n));
        if n + 1 < 2 {
            assert(nodes.take(n).len() < 2);
        }
        lemma_edges_along_prefix(ws, nodes, n + 1);
    } else {
        assert(nodes.take(n) =~= nodes);
    }
}

/// The edges between the nodes of a route.
pub fn extract_traversed_edge_ids_from_nodes(index: &WorkspaceIndex, route_nodes: &Vec<Uuid>) -> (r:
    Result<Vec<Uuid>, Error>)
    ensures
        outcome(r) == traversed_edges(&index@, route_nodes@),
{
    let ghost ws = &index@;
    let mut out: Vec<Uuid> = Vec::new();
    if route_nodes.len() < 2 {
        return Ok(out);
    }
    let mut i: usize = 1;
    while i < route_nodes.len()
        invariant
            1 <= i <= route_nodes.len(),
            ws == &index@,
            edges_along(ws, route_nodes@.take(i as int)) == Some(out@),
        decreases route_nodes.len() - i,
    {
        let ghost next = route_nodes@.take(i as int + 1);
        assert(next.drop_last() =~= route_nodes@.take(i as int));
        match index.edge_between(route_nodes[i - 1], route_nodes[i]) {
            Some(edge) => {
                out.push(edge.id);
            },
            None => {
                proof {
                    assert(edges_along(ws, next) is None);
                    lemma_edges_along_prefix(ws, route_nodes@, i as int + 1);
                }
                return Err(
                    Error::not_found("route references adjacent nodes without a graph edge"),
                );
            },
        }
        i = i + 1;
    }
    assert(route_nodes@.take(i as int) =~= route_nodes@);
    Ok(out)
}

/// The edges of the route that a search has found.
pub fn extract_traversed_edge_ids(
    index: &WorkspaceIndex,
    search: &RouteSearchState,
    start: Uuid,
    goal: Uuid,
) -> (r: Result<Vec<Uuid>, Error>)
    ensures
        outcome(r) == match traversed_nodes(search@, start, goal) {
            Ok(nodes) => traversed_edges(&index@, nodes),
            Err(e) => Err(e),
        },
{
    match extract_traversed_node_ids(search, start, goal) {
        Ok(nodes) => extract_traversed_edge_ids_from_nodes(index, &nodes),
        Err(e) => Err(e),
    }
}

// ---------------------------------------------------------------------------
// zones along a route
// ---------------------------------------------------------------------------

/// Those of a list of zones that are there.
pub open spec fn present_zones(ws: &Workspace, ids: Seq<Uuid>) -> Seq<Uuid>
    decreases ids.len(),
{
    if ids.len() == 0 {
        Seq::empty()
    } else {
        let before = present_zones(ws, ids.drop_last());
        if zone_at(ws, ids.last()) is Some {
            before.push(ids.last())
        } else {
            before
        }
    }
}

/// The zones of a node.
pub open spec fn zones_of_node(ws: &Workspace, id: Uuid) -> Seq<Uuid> {
    present_zones(ws, node_zone_ids(ws, id))
}

/// The zones of an edge.
pub open spec fn zones_of_edge(ws: &Workspace, id: Uuid) -> Seq<Uuid> {
    present_zones(ws, edge_zone_ids(ws, id))
}

fn list_present_zones(index: &WorkspaceIndex, ids: &Vec<Uuid>) -> (out: Vec<Uuid>)
    ensures
        out@ == present_zones(&index@, ids@),
{
    let mut out: Vec<Uuid> = Vec::new();
    let mut i: usize = 0;
    assert(ids@.take(0) =~= Seq::empty());
    while i < ids.len()
        invariant
            i <= ids.len(),
            out@ == present_zones(&index@, ids@.take(i as int)),
        decreases ids.len() - i,
    {
        assert(ids@.take(i as int + 1).drop_last() =~= ids@.take(i as int));
        if index.zone(ids[i]).is_some() {
            out.push(ids[i]);
        }
        i = i + 1;
    }
    assert(ids@.take(i as int) =~= ids@);
    out
}

/// The zones of a node.
pub fn list_zones_of_node(index: &WorkspaceIndex, id: Uuid) -> (out: Vec<Uuid>)
    ensures
        out@ == zones_of_node(&index@, id),
{
    match index.node(id) {
        Some(node) => list_present_zones(index, &node.zone_ids),
        None => Vec::new(),
    }
}

/// The zones of an edge.
pub fn list_zones_of_edge(index: &WorkspaceIndex, id: Uuid) -> (out: Vec<Uuid>)
    ensures
        out@ == zones_of_edge(&index@, id),
{
    match index.edge(id) {
        Some(edge) => list_present_zones(index, &edge.zone_ids),
        None => Vec::new(),
    }
}

/// The zones of a list of nodes, one behind the other.
pub open spec fn zones_of_nodes(ws: &Workspace, nodes: Seq<Uuid>) -> Seq<Uuid>
    decreases nodes.len(),
{
    if nodes.len() == 0 {
        Seq::empty()
    } else {
        zones_of_nodes(ws, nodes.drop_last()) + zones_of_node(ws, nodes.last())
    }
}

/// The zones of a list of edges, one behind the other.
pub open spec fn zones_of_edges(ws: &Workspace, edges: Seq<Uuid>) -> Seq<Uuid>
    decreases edges.len(),
{
    if edges.len() == 0 {
        Seq::empty()
    } else {
        zones_of_edges(ws, edges.drop_last()) + zones_of_edge(ws, edges.last())
    }
}

/// The different zones along a route: those of its nodes, then those of its
/// edges.
pub open spec fn zones_along(ws: &Workspace, nodes: Seq<Uuid>, edges: Seq<Uuid>) -> Seq<Uuid> {
    first_seen(zones_of_nodes(ws, nodes) + zones_of_edges(ws, edges))
}

/// The different zones along a route, or that some of its nodes have no edge
/// between them.
pub open spec fn traversed_zones(ws: &Workspace, nodes: Seq<Uuid>) -> Result<Seq<Uuid>, ErrorView> {
    match traversed_edges(ws, nodes) {
        Ok(edges) => Ok(zones_along(ws, nodes, edges)),
        Err(e) => Err(e),
    }
}

/// Adds those of a list of identifiers that are not there yet.
pub(crate) fn add_unseen(out: &mut Vec<Uuid>, seen: &mut HashSet<Uuid>, more: &Vec<Uuid>, Ghost(all): Ghost<
    Seq<Uuid>,
>)
    requires
        old(out)@ == first_seen(all),
        forall|x: Uuid| #[trigger] old(seen)@.contains(x) <==> old(out)@.contains(x),
    ensures
        final(out)@ == first_seen(all + more@),
        forall|x: Uuid| #[trigger] final(seen)@.contains(x) <==> final(out)@.contains(x),
{
    let mut i: usize = 0;
    assert(all + more@.take(0) =~= all);
    while i < more.len()
        invariant
            i <= more.len(),
            out@ == first_seen(all + more@.take(i as int)),
            forall|x: Uuid| #[trigger] seen@.contains(x) <==> out@.contains(x),
        decreases more.len() - i,
    {
        let ghost next = all + more@.take(i as int + 1);
        assert(next.drop_last() =~= all + more@.take(i as int));
        assert(next.last() == more@[i as int]);
        let ghost before = out@;
        let x = more[i];
        if seen.insert(x) {
            out.push(x);
            proof {
                assert forall|y: Uuid| #[trigger] seen@.contains(y) <==> out@.contains(y) by {
                    super::search::lemma_push_contains(before, x, y);
                }
            }
        } else {
            assert(before.contains(x));
        }
        i = i + 1;
    }
    assert(more@.take(i as int) =~= more@);
}

/// The different zones along a route.
pub fn extract_traversed_zone_ids_from_nodes(index: &WorkspaceIndex, route_nodes: &Vec<Uuid>) -> (r:
    Result<Vec<Uuid>, Error>)
    ensures
        outcome(r) == traversed_zones(&index@, route_nodes@),
{
    let ghost ws = &index@;
    let edges = match extract_traversed_edge_ids_from_nodes(index, route_nodes) {
        Ok(e) => e,
        Err(e) => {
            return Err(e);
        },
    };
    let mut out: Vec<Uuid> = Vec::new();
    let mut seen: HashSet<Uuid> = HashSet::new();
    let mut i: usize = 0;
    assert(route_nodes@.take(0) =~= Seq::empty());
    while i < route_nodes.len()
        invariant
            i <= route_nodes.len(),
            ws == &index@,
            out@ == first_seen(zones_of_nodes(ws, route_nodes@.take(i as int))),
            forall|x: Uuid| #[trigger] seen@.contains(x) <==> out@.contains(x),
        decreases route_nodes.len() - i,
    {
        assert(route_nodes@.take(i as int + 1).drop_last() =~= route_nodes@.take(i as int));
        let zones = list_zones_of_node(index, route_nodes[i]);
        add_unseen(
            &mut out,
            &mut seen,
            &zones,
            Ghost(zones_of_nodes(ws, route_nodes@.take(i as int))),
        );
        i = i + 1;
    }
    assert(route_nodes@.take(i as int) =~= route_nodes@);
    let ghost head = zones_of_nodes(ws, route_nodes@);
    let mut i: usize = 0;
    assert(edges@.take(0) =~= Seq::empty());
    assert(head + zones_of_edges(ws, edges@.take(0)) =~= head);
    while i < edges.len()
        invariant
            i <= edges.len(),
            ws == &index@,
            out@ == first_seen(head + zones_of_edges(ws, edges@.take(i as int))),
            forall|x: Uuid| #[trigger] seen@.contains(x) <==> out@.contains(x),
        decreases edges.len() - i,
    {
        assert(edges@.take(i as int + 1).drop_last() =~= edges@.take(i as int));
        let zones = list_zones_of_edge(index, edges[i]);
        let ghost done = head + zones_of_edges(ws, edges@.take(i as int));
        add_unseen(&mut out, &mut seen, &zones, Ghost(done));
        assert(done + zones@ =~= head + zones_of_edges(ws, edges@.take(i as int + 1)));
        i = i + 1;
    }
    assert(edges@.take(i as int) =~= edges@);
    Ok(out)
}

/// The different zones of the route that a search has found.
pub fn extract_traversed_zone_ids(
    index: &WorkspaceIndex,
    search: &RouteSearchState,
    start: Uuid,
    goal: Uuid,
) -> (r: Result<Vec<Uuid>, Error>)
    ensures
        outcome(r) == match traversed_nodes(search@, start, goal) {
            Ok(nodes) => traversed_zones(&index@, nodes),
            Err(e) => Err(e),
        },
{
    match extract_traversed_node_ids(search, start, goal) {
        Ok(nodes) => extract_traversed_zone_ids_from_nodes(index, &nodes),
        Err(e) => Err(e),
    }
}

// ---------------------------------------------------------------------------
// cost
// ---------------------------------------------------------------------------

/// What a route costs, or why that cannot be said.
pub open spec fn route_cost(
    ws: &Workspace,
    f: Costs,
    m: RouteCostModel,
    nodes: Seq<Uuid>,
) -> Result<Real, ErrorView>
    decreases nodes.len(),
{
    if nodes.len() < 2 {
        Ok(no_cost())
    } else {
        let a = nodes[nodes.len() - 2];
        let b = nodes[nodes.len() - 1];
        match route_cost(ws, f, m, nodes.drop_last()) {
            Err(e) => Err(e),
            Ok(so_far) => if node_at(ws, a) is None || node_at(ws, b) is None {
                Err(
                    ErrorView::NotFound(
                        "route references node that is not present in the workspace"@,
                    ),
                )
            } else {
                match link_place(ws, a, b) {
                    None => Err(
                        ErrorView::NotFound(
                            "route references adjacent nodes without a graph edge"@,
                        ),
                    ),
                    Some(e) => Ok(extended(f, m, so_far, e)),
                }
            },
        }
    }
}

/// What a quantity or an error stands for.
pub open spec fn cost_outcome(r: Result<Real, Error>) -> Result<Real, ErrorView> {
    match r {
        Ok(c) => Ok(c),
        Err(e) => Err(e@),
    }
}

proof fn lemma_cost_error_stays(
    ws: &Workspace,
    f: Costs,
    m: RouteCostModel,
    nodes: Seq<Uuid>,
    n: int,
)
    requires
        0 <= n <= nodes.len(),
        route_cost(ws, f, m, nodes.take(n)) is Err,
    ensures
        route_cost(ws, f, m, nodes) == route_cost(ws, f, m, nodes.take(n)),
    decreases nodes.len() - n,
{
    if n < nodes.len() {
        assert(nodes.take(n + 1).drop_last() =~= nodes.take(n));
        assert(route_cost(ws, f, m, nodes.take(n + 1)) == route_cost(ws, f, m, nodes.take(n)));
        lemma_cost_error_stays(ws, f, m, nodes, n + 1);
    } else {
        assert(nodes.take(n) =~= nodes);
    }
}

/// Adds up what a route costs.
pub fn accumulate_route_cost<A: Fn(Real, Real) -> Real, P: Fn(PenaltyTerm) -> Real>(
    index: &WorkspaceIndex,
    route_nodes: &Vec<Uuid>,
    cost_model: RouteCostModel,
    plus: &A,
    price: &P,
) -> (r: Result<Real, Error>)
    requires
        is_operation(*plus),
        is_pricing(*price),
    ensures
        cost_outcome(r) == route_cost(&index@, route_costs(&index@, *plus, *price), cost_model, route_nodes@),
{
    let ghost ws = &index@;
    let ghost f = route_costs(&index@, *plus, *price);
    let mut total: Real = Real::zero();
    if route_nodes.len() == 0 {
        return Ok(total);
    }
    let mut i: usize = 1;
    while i < route_nodes.len()
        invariant
            1 <= i <= route_nodes.len(),
            ws == &index@,
            f == route_costs(&index@, *plus, *price),
            is_operation(*plus),
            is_pricing(*price),
            route_cost(ws, f, cost_model, route_nodes@.take(i as int)) == Ok::<Real, ErrorView>(
                total,
            ),
        decreases route_nodes.len() - i,
    {
        let ghost next = route_nodes@.take(i as int + 1);
        assert(next.drop_last() =~= route_nodes@.take(i as int));
        let a = route_nodes[i - 1];
        let b = route_nodes[i];
        if index.node(a).is_none() || index.node(b).is_none() {
            proof {
                assert(route_cost(ws, f, cost_model, next) is Err);
                lemma_cost_error_stays(ws, f, cost_model, route_nodes@, i as int + 1);
            }
            return Err(
                Error::not_found("route references node that is not present in the workspace"),
            );
        }
        let e = match index.edge_place_between(a, b) {
            Some(e) => e,
            None => {
                proof {
                    assert(route_cost(ws, f, cost_model, next) is Err);
                    lemma_cost_error_stays(ws, f, cost_model, route_nodes@, i as int + 1);
                }
                return Err(
                    Error::not_found("route references adjacent nodes without a graph edge"),
                );
            },
        };
        proof {
            reveal(are_functions);
        }
        total = extend_cost(index, cost_model, total, e, plus, price);
        i = i + 1;
    }
    assert(route_nodes@.take(i as int) =~= route_nodes@);
    Ok(total)
}

} // verus!
