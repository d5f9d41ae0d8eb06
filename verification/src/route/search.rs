//! Shortest paths.
//!
//! What is proved here holds whatever edges cost, and that a path is shortest
//! wherever an edge never lowers a cost and keeps the order of costs.

use super::cost::{
    are_functions, extend_cost, extended, is_pricing, no_cost, route_costs, well_behaved, Costs,
};
use super::graph::{find_step, is_edge_hard_blocked, may_step, step_over, PenaltyTerm};
use super::{blank_search, RouteCostModel, RouteSearchState, RouteSearchStateView};
use crate::guid::Uuid;
use crate::index::tables::{
    lemma_places_known, lemma_take_contains, looked_up, node_at, node_ids, places,
};
use crate::index::WorkspaceIndex;
use crate::number::{is_operation, Real};
use crate::workspace::Workspace;
use std::collections::{HashMap, HashSet};
use vstd::prelude::*;

verus! {

broadcast use vstd::std_specs::hash::group_hash_axioms;

// ---------------------------------------------------------------------------
// costs
// ---------------------------------------------------------------------------

/// What a walk over some edges costs.
pub open spec fn walk_cost(
    f: Costs,
    m: RouteCostModel,
    edges: Seq<usize>,
) -> Real
    decreases edges.len(),
{
    if edges.len() == 0 {
        no_cost()
    } else {
        extended(f, m, walk_cost(f, m, edges.drop_last()), edges.last())
    }
}

// ---------------------------------------------------------------------------
// walks
// ---------------------------------------------------------------------------

/// Whether a route may go from node to node over the given edges.
pub open spec fn is_walk(
    ws: &Workspace,
    blocking: bool,
    nodes: Seq<Uuid>,
    edges: Seq<usize>,
) -> bool {
    &&& nodes.len() == edges.len() + 1
    &&& forall|i: int|
        0 <= i < edges.len() ==> may_step(
            ws,
            blocking,
            #[trigger] nodes[i],
            edges[i] as int,
            nodes[i + 1],
        )
}

/// Whether a walk leads from one node to another.
pub open spec fn leads(
    ws: &Workspace,
    blocking: bool,
    nodes: Seq<Uuid>,
    edges: Seq<usize>,
    from: Uuid,
    to: Uuid,
) -> bool {
    is_walk(ws, blocking, nodes, edges) && nodes[0] == from && nodes.last() == to
}

/// Whether some walk leads from one node to another.
pub open spec fn reachable(ws: &Workspace, blocking: bool, from: Uuid, to: Uuid) -> bool {
    exists|nodes: Seq<Uuid>, edges: Seq<usize>| leads(ws, blocking, nodes, edges, from, to)
}

/// The nodes from `start` to a node, by way of predecessors, if they lead there
/// in at most `limit` steps.
pub open spec fn route_chain(
    predecessors: Map<Uuid, Uuid>,
    start: Uuid,
    to: Uuid,
    limit: nat,
) -> Option<Seq<Uuid>>
    decreases limit,
{
    if to == start {
        Some(seq![start])
    } else if limit == 0 {
        None
    } else {
        match looked_up(predecessors, to) {
            Some(p) => match route_chain(predecessors, start, p, (limit - 1) as nat) {
                Some(nodes) => Some(nodes.push(to)),
                None => None,
            },
            None => None,
        }
    }
}

/// Whether a node has been reached over a walk that predecessors lead back over
/// and that costs as much as its distance.
pub open spec fn is_reached(
    ws: &Workspace,
    blocking: bool,
    m: RouteCostModel,
    f: Costs,
    start: Uuid,
    s: RouteSearchStateView,
    node: Uuid,
) -> bool {
    route_chain(s.predecessors, start, node, s.predecessors.dom().len()) matches Some(nodes)
        && exists|edges: Seq<usize>| #[trigger]
        leads(ws, blocking, nodes, edges, start, node) && walk_cost(f, m, edges)
            == s.distances[node]
}

/// What a search comes to. If either end is missing nothing is found; from a
/// node to itself there is nothing to do. Otherwise the goal is found exactly
/// if it can be reached. Every node with a distance has been reached over a
/// walk of that cost, and if the goal is not found these are all nodes that can
/// be reached. If costs are well behaved, no walk to the goal costs less than
/// the distance that is found.
pub open spec fn is_outcome(
    ws: &Workspace,
    blocking: bool,
    m: RouteCostModel,
    f: Costs,
    start: Uuid,
    goal: Uuid,
    s: RouteSearchStateView,
) -> bool {
    if node_at(ws, start) is None || node_at(ws, goal) is None {
        s == blank_search()
    } else if start == goal {
        s == (RouteSearchStateView {
            found: true,
            distance: no_cost(),
            distances: Map::empty().insert(start, no_cost()),
            predecessors: Map::empty(),
            reached: seq![start],
        })
    } else {
        &&& s.reached.no_duplicates()
        &&& forall|n: Uuid| s.reached.contains(n) <==> #[trigger] s.distances.dom().contains(n)
        &&& s.distances.dom().contains(start)
        &&& forall|n: Uuid| #[trigger]
            s.distances.dom().contains(n) ==> is_reached(ws, blocking, m, f, start, s, n)
        &&& s.found <==> reachable(ws, blocking, start, goal)
        &&& s.found ==> s.distances.dom().contains(goal) && s.distance == s.distances[goal]
        &&& !s.found ==> s.distance == blank_search().distance && forall|n: Uuid| #[trigger]
            s.distances.dom().contains(n) <==> reachable(ws, blocking, start, n)
        &&& s.found && well_behaved(f, m, ws.edges@.len()) ==> forall|
            nodes: Seq<Uuid>,
            edges: Seq<usize>,
        |
            #[trigger] leads(ws, blocking, nodes, edges, start, goal) ==> s.distance.at_most(
                walk_cost(f, m, edges),
            )
    }
}

// ---------------------------------------------------------------------------
// what holds during a search
// ---------------------------------------------------------------------------

/// The bookkeeping of a search: the nodes that have been expanded in their
/// order, the place of each in it, and the edge that led to each node.
struct Trail {
    order: Seq<Uuid>,
    rank: Map<Uuid, int>,
    via: Map<Uuid, usize>,
}

spec fn ranked(t: Trail) -> bool {
    &&& t.order.no_duplicates()
    &&& forall|x: Uuid| #[trigger] t.rank.dom().contains(x) <==> t.order.contains(x)
    &&& forall|x: Uuid| #[trigger]
        t.rank.dom().contains(x) ==> 0 <= t.rank[x] < t.order.len() && t.order[t.rank[x]] == x
}

/// Every node with a distance but the start was reached from an expanded node.
spec fn sound(
    ws: &Workspace,
    blocking: bool,
    m: RouteCostModel,
    f: Costs,
    start: Uuid,
    d: Map<Uuid, Real>,
    p: Map<Uuid, Uuid>,
    t: Trail,
) -> bool {
    &&& d.dom().contains(start) && d[start] == no_cost()
    &&& t.order.len() > 0 ==> t.order.contains(start)
    &&& forall|n: Uuid| #[trigger] p.dom().contains(n) <==> d.dom().contains(n) && n != start
    &&& forall|n: Uuid| #[trigger]
        p.dom().contains(n) ==> {
            &&& t.via.dom().contains(n)
            &&& t.via[n] < ws.edges@.len()
            &&& t.rank.dom().contains(p[n])
            &&& d.dom().contains(p[n])
            &&& t.rank.dom().contains(n) ==> t.rank[p[n]] < t.rank[n]
            &&& may_step(ws, blocking, p[n], t.via[n] as int, n)
            &&& d[n] == extended(f, m, d[p[n]], t.via[n])
        }
}

/// The nodes with a distance are those that have been expanded and those that
/// wait for it.
spec fn parted(d: Map<Uuid, Real>, order: Seq<Uuid>, frontier: Seq<Uuid>) -> bool {
    &&& frontier.no_duplicates()
    &&& forall|n: Uuid| #[trigger]
        d.dom().contains(n) <==> order.contains(n) || frontier.contains(n)
    &&& forall|n: Uuid| frontier.contains(n) ==> !(#[trigger] order.contains(n))
}

/// Whether the step over an edge from the node at place `k` in the order has
/// been looked at: all of them but for the last node, and of that one those over
/// the first `done` edges.
spec fn looked_at(order: Seq<Uuid>, k: int, e: usize, done: int) -> bool {
    0 <= k < order.len() && (k < order.len() - 1 || e < done)
}

/// Wherever a step leads from an expanded node there is a distance.
spec fn covered(
    ws: &Workspace,
    blocking: bool,
    d: Map<Uuid, Real>,
    order: Seq<Uuid>,
    done: int,
) -> bool {
    forall|k: int, e: usize, b: Uuid|
        looked_at(order, k, e, done) && #[trigger] may_step(
            ws,
            blocking,
            order[k],
            e as int,
            b,
        ) ==> d.dom().contains(b)
}

/// With well-behaved costs no distance is larger than over any step looked at,
/// and nodes are expanded in the order of their distances.
spec fn tight(
    ws: &Workspace,
    blocking: bool,
    m: RouteCostModel,
    f: Costs,
    d: Map<Uuid, Real>,
    order: Seq<Uuid>,
    frontier: Seq<Uuid>,
    done: int,
) -> bool {
    &&& forall|n: Uuid| #[trigger] d.dom().contains(n) ==> no_cost().at_most(d[n])
    &&& forall|k: int, e: usize, b: Uuid|
        looked_at(order, k, e, done) && #[trigger] may_step(
            ws,
            blocking,
            order[k],
            e as int,
            b,
        ) ==> d[b].at_most(extended(f, m, d[order[k]], e))
    &&& forall|k: int, x: Uuid|
        0 <= k < order.len() && #[trigger] frontier.contains(x) ==> d[#[trigger] order[k]].at_most(
            d[x],
        )
    &&& forall|j: int, k: int|
        0 <= j <= k < order.len() ==> d[#[trigger] order[j]].at_most(d[#[trigger] order[k]])
}

// ---------------------------------------------------------------------------
// lemmas
// ---------------------------------------------------------------------------

/// Walking one step further.
proof fn lemma_walk_extends(
    ws: &Workspace,
    blocking: bool,
    nodes: Seq<Uuid>,
    edges: Seq<usize>,
    e: usize,
    b: Uuid,
)
    requires
        is_walk(ws, blocking, nodes, edges),
        may_step(ws, blocking, nodes.last(), e as int, b),
    ensures
        is_walk(ws, blocking, nodes.push(b), edges.push(e)),
        nodes.push(b)[0] == nodes[0],
{
    let ns = nodes.push(b);
    let es = edges.push(e);
    assert forall|i: int| 0 <= i < es.len() implies may_step(
        ws,
        blocking,
        #[trigger] ns[i],
        es[i] as int,
        ns[i + 1],
    ) by {
        if i < edges.len() {
            assert(ns[i] == nodes[i]);
        }
    }
}

/// The predecessors of a node with a distance lead back to the start, over a
/// walk that costs as much as the distance.
proof fn lemma_chain_walks(
    ws: &Workspace,
    blocking: bool,
    m: RouteCostModel,
    f: Costs,
    start: Uuid,
    d: Map<Uuid, Real>,
    p: Map<Uuid, Uuid>,
    t: Trail,
    n: Uuid,
    limit: nat,
) -> (edges: Seq<usize>)
    requires
        sound(ws, blocking, m, f, start, d, p, t),
        ranked(t),
        d.dom().contains(n),
        n == start || limit >= t.rank[p[n]] + 1,
    ensures
        route_chain(p, start, n, limit) matches Some(nodes) && leads(
            ws,
            blocking,
            nodes,
            edges,
            start,
            n,
        ) && walk_cost(f, m, edges) == d[n],
    decreases limit,
{
    if n == start {
        Seq::empty()
    } else {
        assert(p.dom().contains(n));
        let q = p[n];
        if q != start {
            assert(p.dom().contains(q));
        }
        assert(t.rank.dom().contains(q));
        let before = lemma_chain_walks(
            ws,
            blocking,
            m,
            f,
            start,
            d,
            p,
            t,
            q,
            (limit - 1) as nat,
        );
        let nodes = route_chain(p, start, q, (limit - 1) as nat).unwrap();
        lemma_walk_extends(ws, blocking, nodes, before, t.via[n], n);
        let edges = before.push(t.via[n]);
        assert(edges.drop_last() =~= before);
        edges
    }
}

/// A search has expanded no more nodes than there are predecessors, so that
/// these lead back from every node in as many steps.
proof fn lemma_chain_limit(
    ws: &Workspace,
    blocking: bool,
    m: RouteCostModel,
    f: Costs,
    start: Uuid,
    d: Map<Uuid, Real>,
    p: Map<Uuid, Uuid>,
    t: Trail,
    frontier: Seq<Uuid>,
    n: Uuid,
)
    requires
        sound(ws, blocking, m, f, start, d, p, t),
        ranked(t),
        parted(d, t.order, frontier),
        d.dom().finite(),
        p.dom().finite(),
        d.dom().contains(n),
        n != start,
    ensures
        p.dom().len() >= t.rank[p[n]] + 1,
{
    assert(p.dom() =~= d.dom().remove(start));
    assert(p.dom().contains(n));
    let all = t.order.to_set();
    t.order.unique_seq_to_set();
    assert(all.subset_of(d.dom())) by {
        assert forall|x: Uuid| all.contains(x) implies d.dom().contains(x) by {
            assert(t.order.contains(x));
        }
    }
    assert(t.rank.dom().contains(p[n]));
    if t.order.contains(n) {
        assert(t.rank.dom().contains(n));
        vstd::set_lib::lemma_len_subset(all, d.dom());
    } else {
        let more = all.insert(n);
        assert(more.subset_of(d.dom()));
        vstd::set_lib::lemma_len_subset(more, d.dom());
    }
}

/// Where everything has been expanded, a walk from the start leads only to nodes
/// with a distance.
proof fn lemma_walk_stays(
    ws: &Workspace,
    blocking: bool,
    d: Map<Uuid, Real>,
    order: Seq<Uuid>,
    nodes: Seq<Uuid>,
    edges: Seq<usize>,
    i: int,
)
    requires
        covered(ws, blocking, d, order, ws.edges@.len() as int),
        forall|n: Uuid| #[trigger] d.dom().contains(n) ==> order.contains(n),
        is_walk(ws, blocking, nodes, edges),
        d.dom().contains(nodes[0]),
        0 <= i < nodes.len(),
    ensures
        d.dom().contains(nodes[i]),
    decreases i,
{
    if i > 0 {
        lemma_walk_stays(ws, blocking, d, order, nodes, edges, i - 1);
        let a = nodes[i - 1];
        assert(order.contains(a));
        let k = choose|k: int| 0 <= k < order.len() && order[k] == a;
        assert(may_step(ws, blocking, nodes[i - 1], edges[i - 1] as int, nodes[i]));
        assert(edges[i - 1] < ws.edges@.len()) by {
            reveal(may_step);
        }
        assert(looked_at(order, k, edges[i - 1], ws.edges@.len() as int));
        assert(may_step(ws, blocking, order[k], edges[i - 1] as int, nodes[i]));
    }
}

/// Costs add up to no less than they begin with.
proof fn lemma_cost_grows(
    f: Costs,
    m: RouteCostModel,
    n: nat,
    edges: Seq<usize>,
    i: int,
)
    requires
        well_behaved(f, m, n),
        forall|j: int| 0 <= j < edges.len() ==> (#[trigger] edges[j]) < n,
        0 <= i <= edges.len(),
    ensures
        no_cost().at_most(walk_cost(f, m, edges.take(i))),
        walk_cost(f, m, edges.take(i)).at_most(walk_cost(f, m, edges)),
    decreases edges.len(),
{
    if edges.len() == 0 {
        assert(edges.take(i) =~= edges);
        assert(no_cost().at_most(no_cost()));
    } else {
        let rest = edges.drop_last();
        assert forall|j: int| 0 <= j < rest.len() implies (#[trigger] rest[j]) < n by {
            assert(rest[j] == edges[j]);
        }
        lemma_cost_grows(f, m, n, rest, rest.len() as int);
        assert(rest.take(rest.len() as int) =~= rest);
        let total = extended(f, m, walk_cost(f, m, rest), edges.last());
        assert(edges[edges.len() - 1] < n);
        assert(walk_cost(f, m, rest).at_most(total));
        if i < edges.len() {
            lemma_cost_grows(f, m, n, rest, i);
            assert(rest.take(i) =~= edges.take(i));
        } else {
            assert(edges.take(i) =~= edges);
        }
    }
}

/// A walk that leaves the expanded nodes costs no less than the nearest node
/// that waits.
proof fn lemma_nearest_is_least(
    ws: &Workspace,
    blocking: bool,
    m: RouteCostModel,
    f: Costs,
    d: Map<Uuid, Real>,
    order: Seq<Uuid>,
    frontier: Seq<Uuid>,
    nodes: Seq<Uuid>,
    edges: Seq<usize>,
    nearest: Uuid,
    i: int,
)
    requires
        well_behaved(f, m, ws.edges@.len()),
        covered(ws, blocking, d, order, ws.edges@.len() as int),
        tight(ws, blocking, m, f, d, order, frontier, ws.edges@.len() as int),
        parted(d, order, frontier),
        is_walk(ws, blocking, nodes, edges),
        0 <= i < nodes.len(),
        order.contains(nodes[i]),
        !order.contains(nodes.last()),
        d[nodes[i]].at_most(walk_cost(f, m, edges.take(i))),
        forall|x: Uuid| #[trigger] frontier.contains(x) ==> d[nearest].at_most(d[x]),
    ensures
        d[nearest].at_most(walk_cost(f, m, edges)),
    decreases nodes.len() - i,
{
    let n = ws.edges@.len();
    assert forall|j: int| 0 <= j < edges.len() implies (#[trigger] edges[j]) < n by {
        assert(may_step(ws, blocking, nodes[j], edges[j] as int, nodes[j + 1]));
        reveal(may_step);
        assert(step_over(ws, nodes[j], edges[j] as int) is Some);
    }
    let a = nodes[i];
    let e = edges[i];
    let b = nodes[i + 1];
    let k = choose|k: int| 0 <= k < order.len() && order[k] == a;
    assert(may_step(ws, blocking, nodes[i], e as int, b));
    assert(looked_at(order, k, e, n as int));
    assert(may_step(ws, blocking, order[k], e as int, b));
    assert(d.dom().contains(b));
    assert(d[b].at_most(extended(f, m, d[a], e)));
    let so_far = walk_cost(f, m, edges.take(i));
    assert(edges.take(i + 1).drop_last() =~= edges.take(i));
    assert(d.dom().contains(a));
    assert(extended(f, m, d[a], e).at_most(extended(f, m, so_far, e)));
    assert(d[b].at_most(walk_cost(f, m, edges.take(i + 1))));
    if order.contains(b) {
        lemma_nearest_is_least(
            ws,
            blocking,
            m,
            f,
            d,
            order,
            frontier,
            nodes,
            edges,
            nearest,
            i + 1,
        );
    } else {
        assert(frontier.contains(b));
        lemma_cost_grows(f, m, n, edges, i + 1);
    }
}

/// An edge over which no step leads changes nothing.
proof fn lemma_no_step(
    ws: &Workspace,
    blocking: bool,
    m: RouteCostModel,
    f: Costs,
    d: Map<Uuid, Real>,
    order: Seq<Uuid>,
    frontier: Seq<Uuid>,
    current: Uuid,
    e: usize,
)
    requires
        order.len() > 0,
        order[order.len() - 1] == current,
        covered(ws, blocking, d, order, e as int),
        well_behaved(f, m, ws.edges@.len()) ==> tight(
            ws,
            blocking,
            m,
            f,
            d,
            order,
            frontier,
            e as int,
        ),
        forall|b: Uuid| !(#[trigger] may_step(ws, blocking, current, e as int, b)),
    ensures
        covered(ws, blocking, d, order, e + 1),
        well_behaved(f, m, ws.edges@.len()) ==> tight(
            ws,
            blocking,
            m,
            f,
            d,
            order,
            frontier,
            e + 1,
        ),
{
    assert forall|k: int, g: usize, b: Uuid|
        looked_at(order, k, g, e + 1) && #[trigger] may_step(
            ws,
            blocking,
            order[k],
            g as int,
            b,
        ) implies looked_at(order, k, g, e as int) by {
        if k == order.len() - 1 && g == e {
            assert(!may_step(ws, blocking, current, e as int, b));
        }
    }
    assert(covered(ws, blocking, d, order, e + 1)) by {
        assert forall|k: int, g: usize, b: Uuid|
            looked_at(order, k, g, e + 1) && #[trigger] may_step(
                ws,
                blocking,
                order[k],
                g as int,
                b,
            ) implies d.dom().contains(b) by {
            assert(looked_at(order, k, g, e as int));
        }
    }
    if well_behaved(f, m, ws.edges@.len()) {
        assert forall|k: int, g: usize, b: Uuid|
            looked_at(order, k, g, e + 1) && #[trigger] may_step(
                ws,
                blocking,
                order[k],
                g as int,
                b,
            ) implies d[b].at_most(extended(f, m, d[order[k]], g)) by {
            assert(looked_at(order, k, g, e as int));
        }
    }
}

/// A step to a node that is already expanded, or that is already as near,
/// changes nothing.
proof fn lemma_not_improved(
    ws: &Workspace,
    blocking: bool,
    m: RouteCostModel,
    f: Costs,
    d: Map<Uuid, Real>,
    order: Seq<Uuid>,
    frontier: Seq<Uuid>,
    current: Uuid,
    e: usize,
    b: Uuid,
)
    requires
        order.len() > 0,
        order[order.len() - 1] == current,
        e < ws.edges@.len(),
        parted(d, order, frontier),
        covered(ws, blocking, d, order, e as int),
        well_behaved(f, m, ws.edges@.len()) ==> tight(
            ws,
            blocking,
            m,
            f,
            d,
            order,
            frontier,
            e as int,
        ),
        forall|x: Uuid| #[trigger] may_step(ws, blocking, current, e as int, x) ==> x == b,
        order.contains(b) || (d.dom().contains(b) && !extended(f, m, d[current], e).less_than(
            d[b],
        )),
    ensures
        covered(ws, blocking, d, order, e + 1),
        well_behaved(f, m, ws.edges@.len()) ==> tight(
            ws,
            blocking,
            m,
            f,
            d,
            order,
            frontier,
            e + 1,
        ),
{
    assert(order.contains(current));
    assert(d.dom().contains(current));
    assert(d.dom().contains(b));
    assert(covered(ws, blocking, d, order, e + 1)) by {
        assert forall|k: int, g: usize, x: Uuid|
            looked_at(order, k, g, e + 1) && #[trigger] may_step(
                ws,
                blocking,
                order[k],
                g as int,
                x,
            ) implies d.dom().contains(x) by {
            if k == order.len() - 1 && g == e {
                assert(may_step(ws, blocking, current, e as int, x));
            } else {
                assert(looked_at(order, k, g, e as int));
            }
        }
    }
    if well_behaved(f, m, ws.edges@.len()) {
        let new = extended(f, m, d[current], e);
        assert(no_cost().at_most(d[current]));
        assert(d[current].at_most(new));
        assert(d[b].at_most(new)) by {
            assert(no_cost().at_most(d[b]));
            if order.contains(b) {
                let j = choose|j: int| 0 <= j < order.len() && order[j] == b;
                assert(d[order[j]].at_most(d[order[order.len() - 1]]));
            }
        }
        assert forall|k: int, g: usize, x: Uuid|
            looked_at(order, k, g, e + 1) && #[trigger] may_step(
                ws,
                blocking,
                order[k],
                g as int,
                x,
            ) implies d[x].at_most(extended(f, m, d[order[k]], g)) by {
            if k == order.len() - 1 && g == e {
                assert(may_step(ws, blocking, current, e as int, x));
            } else {
                assert(looked_at(order, k, g, e as int));
            }
        }
    }
}

/// A step to a node that is new or farther away gives it its distance.
proof fn lemma_improved(
    ws: &Workspace,
    blocking: bool,
    m: RouteCostModel,
    f: Costs,
    start: Uuid,
    d0: Map<Uuid, Real>,
    p0: Map<Uuid, Uuid>,
    t0: Trail,
    fr0: Seq<Uuid>,
    r0: Seq<Uuid>,
    d: Map<Uuid, Real>,
    p: Map<Uuid, Uuid>,
    t: Trail,
    fr: Seq<Uuid>,
    r: Seq<Uuid>,
    current: Uuid,
    e: usize,
    b: Uuid,
    new: Real,
)
    requires
        t0.order.len() > 0,
        t0.order[t0.order.len() - 1] == current,
        e < ws.edges@.len(),
        ranked(t0),
        r0.no_duplicates(),
        forall|n: Uuid| r0.contains(n) <==> #[trigger] d0.dom().contains(n),
        sound(ws, blocking, m, f, start, d0, p0, t0),
        parted(d0, t0.order, fr0),
        covered(ws, blocking, d0, t0.order, e as int),
        well_behaved(f, m, ws.edges@.len()) ==> tight(
            ws,
            blocking,
            m,
            f,
            d0,
            t0.order,
            fr0,
            e as int,
        ),
        may_step(ws, blocking, current, e as int, b),
        forall|x: Uuid| #[trigger] may_step(ws, blocking, current, e as int, x) ==> x == b,
        !t0.order.contains(b),
        new == extended(f, m, d0[current], e),
        d0.dom().contains(b) ==> new.less_than(d0[b]),
        d == d0.insert(b, new),
        p == p0.insert(b, current),
        t == (Trail { via: t0.via.insert(b, e), ..t0 }),
        fr == if d0.dom().contains(b) {
            fr0
        } else {
            fr0.push(b)
        },
        r == if d0.dom().contains(b) {
            r0
        } else {
            r0.push(b)
        },
    ensures
        ranked(t),
        r.no_duplicates(),
        forall|n: Uuid| r.contains(n) <==> #[trigger] d.dom().contains(n),
        sound(ws, blocking, m, f, start, d, p, t),
        parted(d, t.order, fr),
        covered(ws, blocking, d, t.order, e + 1),
        well_behaved(f, m, ws.edges@.len()) ==> tight(
            ws,
            blocking,
            m,
            f,
            d,
            t.order,
            fr,
            e + 1,
        ),
{
    let order = t0.order;
    assert(order.contains(current));
    assert(d0.dom().contains(current));
    assert(t0.rank.dom().contains(current));
    assert(current != b);
    assert(forall|n: Uuid| r.contains(n) <==> r0.contains(n) || n == b) by {
        assert forall|n: Uuid| r.contains(n) <==> r0.contains(n) || n == b by {
            assert(r0.contains(b) <==> d0.dom().contains(b));
            if !d0.dom().contains(b) {
                lemma_push_contains(r0, b, n);
            }
        }
    }
    assert(forall|n: Uuid| fr.contains(n) <==> fr0.contains(n) || n == b) by {
        assert forall|n: Uuid| fr.contains(n) <==> fr0.contains(n) || n == b by {
            if d0.dom().contains(b) {
                assert(order.contains(b) || fr0.contains(b));
            } else {
                lemma_push_contains(fr0, b, n);
            }
        }
    }
    assert(r.no_duplicates()) by {
        assert(r0.contains(b) <==> d0.dom().contains(b));
    }
    assert(fr.no_duplicates()) by {
        if !d0.dom().contains(b) {
            assert(!fr0.contains(b));
        }
    }
    assert(start != b);
    assert(sound(ws, blocking, m, f, start, d, p, t)) by {
        assert forall|n: Uuid| #[trigger] p.dom().contains(n) implies ({
            &&& t.via.dom().contains(n)
            &&& t.via[n] < ws.edges@.len()
            &&& t.rank.dom().contains(p[n])
            &&& d.dom().contains(p[n])
            &&& t.rank.dom().contains(n) ==> t.rank[p[n]] < t.rank[n]
            &&& may_step(ws, blocking, p[n], t.via[n] as int, n)
            &&& d[n] == extended(f, m, d[p[n]], t.via[n])
        }) by {
            if n != b {
                assert(p0.dom().contains(n));
                assert(t0.rank.dom().contains(p0[n]));
                assert(order.contains(p0[n]));
                assert(p0[n] != b);
            } else {
                assert(!t0.rank.dom().contains(b));
            }
        }
        assert forall|n: Uuid| #[trigger] p.dom().contains(n) <==> d.dom().contains(n) && n
            != start by {
            if n != b {
                assert(p0.dom().contains(n) <==> d0.dom().contains(n) && n != start);
            }
        }
    }
    assert(parted(d, order, fr)) by {
        assert forall|n: Uuid| #[trigger] d.dom().contains(n) <==> order.contains(n) || fr.contains(
            n,
        ) by {
            assert(d0.dom().contains(n) <==> order.contains(n) || fr0.contains(n));
        }
    }
    assert(covered(ws, blocking, d, order, e + 1)) by {
        assert forall|k: int, g: usize, x: Uuid|
            looked_at(order, k, g, e + 1) && #[trigger] may_step(
                ws,
                blocking,
                order[k],
                g as int,
                x,
            ) implies d.dom().contains(x) by {
            if k == order.len() - 1 && g == e {
                assert(may_step(ws, blocking, current, e as int, x));
            } else {
                assert(looked_at(order, k, g, e as int));
            }
        }
    }
    if well_behaved(f, m, ws.edges@.len()) {
        assert(no_cost().at_most(d0[current]));
        assert(d0[current].at_most(new));
        assert forall|k: int| 0 <= k < order.len() implies (#[trigger] order[k]) != b && d[order[k]]
            == d0[order[k]] by {
            assert(order.contains(order[k]));
        }
        assert forall|n: Uuid| #[trigger] d.dom().contains(n) implies no_cost().at_most(d[n]) by {
            if n != b {
                assert(d0.dom().contains(n));
            }
        }
        assert forall|k: int, g: usize, x: Uuid|
            looked_at(order, k, g, e + 1) && #[trigger] may_step(
                ws,
                blocking,
                order[k],
                g as int,
                x,
            ) implies d[x].at_most(extended(f, m, d[order[k]], g)) by {
            if k == order.len() - 1 && g == e {
                assert(may_step(ws, blocking, current, e as int, x));
                assert(x == b);
            } else {
                assert(looked_at(order, k, g, e as int));
                assert(d0.dom().contains(x));
                assert(d0[x].at_most(extended(f, m, d0[order[k]], g)));
            }
        }
        assert forall|k: int, x: Uuid|
            0 <= k < order.len() && #[trigger] fr.contains(x) implies d[#[trigger] order[k]].at_most(
            d[x],
        ) by {
            if x == b {
                assert(d0[order[k]].at_most(d0[order[order.len() - 1]]));
            } else {
                assert(fr0.contains(x));
            }
        }
        assert forall|j: int, k: int|
            0 <= j <= k < order.len() implies d[#[trigger] order[j]].at_most(
            d[#[trigger] order[k]],
        ) by {
            assert(d0[order[j]].at_most(d0[order[k]]));
        }
    }
}

/// A list with one more item holds that item more.
pub proof fn lemma_push_contains(s: Seq<Uuid>, x: Uuid, n: Uuid)
    ensures
        s.push(x).contains(n) <==> s.contains(n) || n == x,
{
    let longer = s.push(x);
    lemma_take_contains(longer, s.len() as int, n);
    assert(longer.take(s.len() as int) =~= s);
    assert(longer.take(s.len() as int + 1) =~= longer);
}

// ---------------------------------------------------------------------------
// the search
// ---------------------------------------------------------------------------

/// The place of a waiting node with the least distance.
fn nearest_place(frontier: &Vec<Uuid>, distances: &HashMap<Uuid, Real>) -> (best: usize)
    requires
        frontier@.len() > 0,
        forall|n: Uuid| frontier@.contains(n) ==> #[trigger] distances@.dom().contains(n),
    ensures
        best < frontier@.len(),
        (forall|n: Uuid| frontier@.contains(n) ==> !(#[trigger] distances@[n]).is_nan())
            ==> forall|n: Uuid| #[trigger]
            frontier@.contains(n) ==> distances@[frontier@[best as int]].at_most(distances@[n]),
{
    let ghost numbers = forall|n: Uuid|
        frontier@.contains(n) ==> !(#[trigger] distances@[n]).is_nan();
    let mut best: usize = 0;
    let mut i: usize = 0;
    while i < frontier.len()
        invariant
            best < frontier@.len(),
            i <= frontier@.len(),
            forall|n: Uuid| frontier@.contains(n) ==> #[trigger] distances@.dom().contains(n),
            numbers == forall|n: Uuid|
                frontier@.contains(n) ==> !(#[trigger] distances@[n]).is_nan(),
            numbers ==> forall|j: int|
                0 <= j < i ==> distances@[frontier@[best as int]].at_most(
                    distances@[#[trigger] frontier@[j]],
                ),
        decreases frontier.len() - i,
    {
        assert(frontier@.contains(frontier@[i as int]));
        assert(frontier@.contains(frontier@[best as int]));
        assert(distances@.dom().contains(frontier@[i as int]));
        assert(distances@.dom().contains(frontier@[best as int]));
        let here = *distances.get(&frontier[i]).unwrap();
        let least = *distances.get(&frontier[best]).unwrap();
        proof {
            if numbers {
                assert(!distances@[frontier@[i as int]].is_nan());
                assert(!distances@[frontier@[best as int]].is_nan());
            }
        }
        if here.less(least) {
            best = i;
        }
        i = i + 1;
    }
    assert(numbers ==> forall|n: Uuid| #[trigger]
        frontier@.contains(n) ==> distances@[frontier@[best as int]].at_most(distances@[n])) by {
        if numbers {
            assert forall|n: Uuid| #[trigger] frontier@.contains(n) implies distances@[frontier@[
                best as int
            ]].at_most(distances@[n]) by {
                let j = choose|j: int| 0 <= j < frontier@.len() && frontier@[j] == n;
                assert(distances@[frontier@[best as int]].at_most(distances@[frontier@[j]]));
            }
        }
    }
    best
}

/// Expands the node that came last in the order: every node that a step leads to
/// from it gets a distance, or a lower one.
fn expand<A: Fn(Real, Real) -> Real, P: Fn(PenaltyTerm) -> Real>(
    index: &WorkspaceIndex,
    start: Uuid,
    blocking: bool,
    model: RouteCostModel,
    plus: &A,
    price: &P,
    current: Uuid,
    state: &mut RouteSearchState,
    visited: &HashSet<Uuid>,
    frontier: &mut Vec<Uuid>,
    Ghost(trail): Ghost<Trail>,
) -> (after: Ghost<Trail>)
    requires
        are_functions(*plus, *price),
        ranked(trail),
        trail.order.len() > 0,
        trail.order.last() == current,
        forall|n: Uuid| #[trigger] visited@.contains(n) <==> trail.order.contains(n),
        old(state)@.reached.no_duplicates(),
        forall|n: Uuid|
            old(state)@.reached.contains(n) <==> #[trigger] old(state)@.distances.dom().contains(n),
        sound(
            &index@,
            blocking,
            model,
            route_costs(&index@, *plus, *price),
            start,
            old(state)@.distances,
            old(state)@.predecessors,
            trail,
        ),
        parted(old(state)@.distances, trail.order, old(frontier)@),
        covered(&index@, blocking, old(state)@.distances, trail.order, 0),
        well_behaved(route_costs(&index@, *plus, *price), model, index@.edges@.len()) ==> tight(
            &index@,
            blocking,
            model,
            route_costs(&index@, *plus, *price),
            old(state)@.distances,
            trail.order,
            old(frontier)@,
            0,
        ),
    ensures
        after@.order == trail.order,
        after@.rank == trail.rank,
        final(state)@.found == old(state)@.found,
        final(state)@.distance == old(state)@.distance,
        final(state)@.reached.no_duplicates(),
        forall|n: Uuid|
            final(state)@.reached.contains(n) <==> #[trigger] final(state)@.distances.dom().contains(
                n,
            ),
        sound(
            &index@,
            blocking,
            model,
            route_costs(&index@, *plus, *price),
            start,
            final(state)@.distances,
            final(state)@.predecessors,
            after@,
        ),
        parted(final(state)@.distances, trail.order, final(frontier)@),
        covered(
            &index@,
            blocking,
            final(state)@.distances,
            trail.order,
            index@.edges@.len() as int,
        ),
        well_behaved(route_costs(&index@, *plus, *price), model, index@.edges@.len()) ==> tight(
            &index@,
            blocking,
            model,
            route_costs(&index@, *plus, *price),
            final(state)@.distances,
            trail.order,
            final(frontier)@,
            index@.edges@.len() as int,
        ),
{
    let ghost ws = &index@;
    let ghost f = route_costs(&index@, *plus, *price);
    let ghost order = trail.order;
    let ghost mut t = trail;
    let n: usize = index.workspace().edges.len();
    let mut e: usize = 0;
    assert(order[order.len() - 1] == current);
    while e < n
        invariant
            n == ws.edges@.len(),
            e <= n,
            ws == &index@,
            f == route_costs(&index@, *plus, *price),
            are_functions(*plus, *price),
            ranked(t),
            t.order == order,
            t.rank == trail.rank,
            order == trail.order,
            order.len() > 0,
            order[order.len() - 1] == current,
            forall|x: Uuid| #[trigger] visited@.contains(x) <==> order.contains(x),
            state.found == old(state).found,
            state.distance == old(state).distance,
            state@.reached.no_duplicates(),
            forall|x: Uuid|
                state@.reached.contains(x) <==> #[trigger] state@.distances.dom().contains(x),
            sound(ws, blocking, model, f, start, state@.distances, state@.predecessors, t),
            parted(state@.distances, order, frontier@),
            covered(ws, blocking, state@.distances, order, e as int),
            well_behaved(f, model, n as nat) ==> tight(
                ws,
                blocking,
                model,
                f,
                state@.distances,
                order,
                frontier@,
                e as int,
            ),
        decreases n - e,
    {
        let ghost d0 = state@.distances;
        let ghost p0 = state@.predecessors;
        let ghost r0 = state@.reached;
        let ghost t0 = t;
        let ghost fr0 = frontier@;
        let step = find_step(index, current, e);
        let passable = match step {
            Some(_) => !blocking || !is_edge_hard_blocked(index, index.workspace().edges[e].id),
            None => false,
        };
        proof {
            reveal(may_step);
            assert(forall|b: Uuid|
                #[trigger] may_step(ws, blocking, current, e as int, b) <==> passable && step
                    == Some(b));
        }
        assert(order.contains(current));
        assert(d0.dom().contains(current));
        if let Some(b) = step {
            if passable && !visited.contains(&b) {
                let here: Real = *state.distances.get(&current).unwrap();
                let new: Real = extend_cost(index, model, here, e, plus, price);
                assert(new == extended(f, model, d0[current], e));
                let known: Option<Real> = match state.distances.get(&b) {
                    Some(r) => Some(*r),
                    None => None,
                };
                let better = match known {
                    Some(prev) => new.less(prev),
                    None => true,
                };
                if better {
                    if known.is_none() {
                        frontier.push(b);
                        state.reached.push(b);
                    }
                    state.distances.insert(b, new);
                    state.predecessors.insert(b, current);
                    proof {
                        t = Trail { via: t.via.insert(b, e), ..t };
                        lemma_improved(
                            ws,
                            blocking,
                            model,
                            f,
                            start,
                            d0,
                            p0,
                            t0,
                            fr0,
                            r0,
                            state@.distances,
                            state@.predecessors,
                            t,
                            frontier@,
                            state@.reached,
                            current,
                            e,
                            b,
                            new,
                        );
                    }
                } else {
                    proof {
                        lemma_not_improved(
                            ws,
                            blocking,
                            model,
                            f,
                            d0,
                            order,
                            fr0,
                            current,
                            e,
                            b,
                        );
                    }
                }
            } else {
                proof {
                    if passable {
                        lemma_not_improved(
                            ws,
                            blocking,
                            model,
                            f,
                            d0,
                            order,
                            fr0,
                            current,
                            e,
                            b,
                        );
                    } else {
                        lemma_no_step(ws, blocking, model, f, d0, order, fr0, current, e);
                    }
                }
            }
        } else {
            proof {
                lemma_no_step(ws, blocking, model, f, d0, order, fr0, current, e);
            }
        }
        e = e + 1;
    }
    Ghost(t)
}

/// Every node with a distance is a node of the workspace.
proof fn lemma_reached_nodes_stand(
    ws: &Workspace,
    blocking: bool,
    m: RouteCostModel,
    f: Costs,
    start: Uuid,
    d: Map<Uuid, Real>,
    p: Map<Uuid, Uuid>,
    t: Trail,
    frontier: Seq<Uuid>,
)
    requires
        node_at(ws, start) is Some,
        ranked(t),
        sound(ws, blocking, m, f, start, d, p, t),
        parted(d, t.order, frontier),
    ensures
        t.order.len() + frontier.len() <= ws.nodes@.len(),
{
    let ids = node_ids(ws);
    let all = t.order + frontier;
    lemma_places_known(ids);
    assert forall|n: Uuid| #[trigger] d.dom().contains(n) implies ids.contains(n) by {
        if n != start {
            assert(p.dom().contains(n));
            assert(may_step(ws, blocking, p[n], t.via[n] as int, n));
            reveal(may_step);
            let edge = &ws.edges[t.via[n] as int];
            if edge.source == places(ids)[p[n]] {
                assert(ids[edge.target as int] == n);
            } else {
                assert(ids[edge.source as int] == n);
            }
        } else {
            assert(places(ids).dom().contains(n));
        }
    }
    assert(all.no_duplicates()) by {
        assert forall|i: int, j: int| 0 <= i < j < all.len() implies all[i] != all[j] by {
            if i < t.order.len() && j >= t.order.len() {
                assert(t.order.contains(all[i]));
                assert(frontier.contains(all[j]));
                assert(frontier[j - t.order.len()] == all[j]);
            } else if i >= t.order.len() {
                assert(frontier[i - t.order.len()] == all[i]);
                assert(frontier[j - t.order.len()] == all[j]);
            }
        }
    }
    all.unique_seq_to_set();
    ids.lemma_cardinality_of_set();
    assert(all.to_set().subset_of(ids.to_set())) by {
        assert forall|x: Uuid| all.to_set().contains(x) implies ids.to_set().contains(x) by {
            let i = choose|i: int| 0 <= i < all.len() && all[i] == x;
            if i < t.order.len() {
                assert(t.order.contains(x));
            } else {
                assert(frontier[i - t.order.len()] == x);
                assert(frontier.contains(x));
            }
            assert(d.dom().contains(x));
        }
    }
    vstd::set_lib::lemma_len_subset(all.to_set(), ids.to_set());
}

/// Every node with a distance has been reached as it should be.
proof fn lemma_all_reached(
    ws: &Workspace,
    blocking: bool,
    m: RouteCostModel,
    f: Costs,
    start: Uuid,
    s: RouteSearchStateView,
    t: Trail,
    frontier: Seq<Uuid>,
)
    requires
        ranked(t),
        sound(ws, blocking, m, f, start, s.distances, s.predecessors, t),
        parted(s.distances, t.order, frontier),
        s.distances.dom().finite(),
        s.predecessors.dom().finite(),
    ensures
        forall|n: Uuid| #[trigger]
            s.distances.dom().contains(n) ==> is_reached(ws, blocking, m, f, start, s, n)
                && reachable(ws, blocking, start, n),
{
    assert forall|n: Uuid| #[trigger] s.distances.dom().contains(n) implies is_reached(
        ws,
        blocking,
        m,
        f,
        start,
        s,
        n,
    ) && reachable(ws, blocking, start, n) by {
        let limit = s.predecessors.dom().len();
        if n != start {
            lemma_chain_limit(
                ws,
                blocking,
                m,
                f,
                start,
                s.distances,
                s.predecessors,
                t,
                frontier,
                n,
            );
        }
        let edges = lemma_chain_walks(
            ws,
            blocking,
            m,
            f,
            start,
            s.distances,
            s.predecessors,
            t,
            n,
            limit,
        );
        let nodes = route_chain(s.predecessors, start, n, limit).unwrap();
        assert(leads(ws, blocking, nodes, edges, start, n));
    }
}

/// The node that waits and is nearest is as near as any walk to it is short.
proof fn lemma_goal_is_least(
    ws: &Workspace,
    blocking: bool,
    m: RouteCostModel,
    f: Costs,
    start: Uuid,
    goal: Uuid,
    d: Map<Uuid, Real>,
    p: Map<Uuid, Uuid>,
    t: Trail,
    frontier: Seq<Uuid>,
)
    requires
        well_behaved(f, m, ws.edges@.len()),
        start != goal,
        ranked(t),
        sound(ws, blocking, m, f, start, d, p, t),
        parted(d, t.order, frontier),
        covered(ws, blocking, d, t.order, ws.edges@.len() as int),
        tight(ws, blocking, m, f, d, t.order, frontier, ws.edges@.len() as int),
        t.order.len() > 0,
        frontier.contains(goal),
        forall|x: Uuid| #[trigger] frontier.contains(x) ==> d[goal].at_most(d[x]),
    ensures
        forall|nodes: Seq<Uuid>, edges: Seq<usize>| #[trigger]
            leads(ws, blocking, nodes, edges, start, goal) ==> d[goal].at_most(
                walk_cost(f, m, edges),
            ),
{
    assert forall|nodes: Seq<Uuid>, edges: Seq<usize>| #[trigger]
        leads(ws, blocking, nodes, edges, start, goal) implies d[goal].at_most(
        walk_cost(f, m, edges),
    ) by {
        assert(edges.take(0) =~= Seq::empty());
        assert(no_cost().at_most(no_cost()));
        lemma_nearest_is_least(
            ws,
            blocking,
            m,
            f,
            d,
            t.order,
            frontier,
            nodes,
            edges,
            goal,
            0,
        );
    }
}

/// Expanding one more node: it leaves those that wait.
proof fn lemma_next_expanded(
    ws: &Workspace,
    blocking: bool,
    m: RouteCostModel,
    f: Costs,
    start: Uuid,
    d: Map<Uuid, Real>,
    p: Map<Uuid, Uuid>,
    t0: Trail,
    fr0: Seq<Uuid>,
    best: int,
    t: Trail,
    fr: Seq<Uuid>,
)
    requires
        ranked(t0),
        sound(ws, blocking, m, f, start, d, p, t0),
        parted(d, t0.order, fr0),
        covered(ws, blocking, d, t0.order, ws.edges@.len() as int),
        well_behaved(f, m, ws.edges@.len()) ==> tight(
            ws,
            blocking,
            m,
            f,
            d,
            t0.order,
            fr0,
            ws.edges@.len() as int,
        ),
        t0.order.len() == 0 ==> fr0 == seq![start],
        0 <= best < fr0.len(),
        well_behaved(f, m, ws.edges@.len()) ==> forall|x: Uuid| #[trigger]
            fr0.contains(x) ==> d[fr0[best]].at_most(d[x]),
        fr == fr0.remove(best),
        t == (Trail {
            order: t0.order.push(fr0[best]),
            rank: t0.rank.insert(fr0[best], t0.order.len() as int),
            ..t0
        }),
    ensures
        ranked(t),
        sound(ws, blocking, m, f, start, d, p, t),
        parted(d, t.order, fr),
        covered(ws, blocking, d, t.order, 0),
        well_behaved(f, m, ws.edges@.len()) ==> tight(
            ws,
            blocking,
            m,
            f,
            d,
            t.order,
            fr,
            0,
        ),
{
    let u = fr0[best];
    let order = t.order;
    assert(fr0.contains(u));
    assert(!t0.order.contains(u));
    assert forall|n: Uuid| order.contains(n) <==> t0.order.contains(n) || n == u by {
        lemma_push_contains(t0.order, u, n);
    }
    assert forall|n: Uuid| fr.contains(n) <==> fr0.contains(n) && n != u by {
        if fr.contains(n) {
            let i = choose|i: int| 0 <= i < fr.len() && fr[i] == n;
            let j = if i < best { i } else { i + 1 };
            assert(fr0[j] == n);
        }
        if fr0.contains(n) && n != u {
            let j = choose|j: int| 0 <= j < fr0.len() && fr0[j] == n;
            let i = if j < best { j } else { j - 1 };
            assert(fr[i] == n);
        }
    }
    assert(ranked(t)) by {
        assert forall|x: Uuid| #[trigger] t.rank.dom().contains(x) implies 0 <= t.rank[x]
            < t.order.len() && t.order[t.rank[x]] == x by {
            if x != u {
                assert(t0.rank.dom().contains(x));
            }
        }
    }
    assert(sound(ws, blocking, m, f, start, d, p, t)) by {
        assert(t.order.contains(start)) by {
            if t0.order.len() == 0 {
                assert(u == start);
            }
        }
        assert forall|n: Uuid| #[trigger] p.dom().contains(n) implies ({
            &&& t.via.dom().contains(n)
            &&& t.via[n] < ws.edges@.len()
            &&& t.rank.dom().contains(p[n])
            &&& d.dom().contains(p[n])
            &&& t.rank.dom().contains(n) ==> t.rank[p[n]] < t.rank[n]
            &&& may_step(ws, blocking, p[n], t.via[n] as int, n)
            &&& d[n] == extended(f, m, d[p[n]], t.via[n])
        }) by {
            assert(t0.rank.dom().contains(p[n]));
            assert(t0.order.contains(p[n]));
            assert(p[n] != u);
        }
    }
    assert(parted(d, order, fr)) by {
        assert(fr.no_duplicates());
    }
    assert forall|k: int, g: usize, x: Uuid|
        looked_at(order, k, g, 0) && #[trigger] may_step(
            ws,
            blocking,
            order[k],
            g as int,
            x,
        ) implies looked_at(t0.order, k, g, ws.edges@.len() as int) && order[k] == t0.order[k]
        && d.dom().contains(x) by {
        reveal(may_step);
        assert(order[k] == t0.order[k]);
        assert(looked_at(t0.order, k, g, ws.edges@.len() as int));
        assert(may_step(ws, blocking, t0.order[k], g as int, x));
    }
    if well_behaved(f, m, ws.edges@.len()) {
        assert forall|k: int, g: usize, x: Uuid|
            looked_at(order, k, g, 0) && #[trigger] may_step(
                ws,
                blocking,
                order[k],
                g as int,
                x,
            ) implies d[x].at_most(extended(f, m, d[order[k]], g)) by {
            assert(looked_at(t0.order, k, g, ws.edges@.len() as int));
            assert(may_step(ws, blocking, t0.order[k], g as int, x));
        }
        assert forall|k: int, x: Uuid|
            0 <= k < order.len() && #[trigger] fr.contains(x) implies d[#[trigger] order[k]].at_most(
            d[x],
        ) by {
            assert(fr0.contains(x));
            if k < t0.order.len() {
                assert(order[k] == t0.order[k]);
            }
        }
        assert forall|j: int, k: int|
            0 <= j <= k < order.len() implies d[#[trigger] order[j]].at_most(
            d[#[trigger] order[k]],
        ) by {
            assert(d.dom().contains(u));
            if j < t0.order.len() {
                assert(order[j] == t0.order[j]);
                if k < t0.order.len() {
                    assert(order[k] == t0.order[k]);
                }
            } else {
                assert(no_cost().at_most(d[u]));
            }
        }
    }
}

/// With well-behaved costs, all that wait have a distance that is a number.
proof fn lemma_waiting_have_numbers(
    ws: &Workspace,
    blocking: bool,
    m: RouteCostModel,
    f: Costs,
    d: Map<Uuid, Real>,
    order: Seq<Uuid>,
    frontier: Seq<Uuid>,
)
    requires
        parted(d, order, frontier),
        well_behaved(f, m, ws.edges@.len()) ==> tight(
            ws,
            blocking,
            m,
            f,
            d,
            order,
            frontier,
            ws.edges@.len() as int,
        ),
    ensures
        forall|x: Uuid| frontier.contains(x) ==> #[trigger] d.dom().contains(x),
        well_behaved(f, m, ws.edges@.len()) ==> forall|x: Uuid|
            frontier.contains(x) ==> !(#[trigger] d[x]).is_nan(),
{
    if well_behaved(f, m, ws.edges@.len()) {
        assert forall|x: Uuid| frontier.contains(x) implies !(#[trigger] d[x]).is_nan() by {
            assert(d.dom().contains(x));
            assert(no_cost().at_most(d[x]));
        }
    }
}

/// What a search comes to once the goal is the nearest that waits.
proof fn lemma_goal_found(
    ws: &Workspace,
    blocking: bool,
    m: RouteCostModel,
    f: Costs,
    start: Uuid,
    goal: Uuid,
    s: RouteSearchStateView,
    t: Trail,
    frontier: Seq<Uuid>,
)
    requires
        start != goal,
        node_at(ws, start) is Some,
        node_at(ws, goal) is Some,
        s.distances.dom().finite(),
        s.predecessors.dom().finite(),
        ranked(t),
        t.order.len() == 0 ==> frontier == seq![start],
        s.reached.no_duplicates(),
        forall|x: Uuid| s.reached.contains(x) <==> #[trigger] s.distances.dom().contains(x),
        sound(ws, blocking, m, f, start, s.distances, s.predecessors, t),
        parted(s.distances, t.order, frontier),
        covered(ws, blocking, s.distances, t.order, ws.edges@.len() as int),
        well_behaved(f, m, ws.edges@.len()) ==> tight(
            ws,
            blocking,
            m,
            f,
            s.distances,
            t.order,
            frontier,
            ws.edges@.len() as int,
        ),
        frontier.contains(goal),
        well_behaved(f, m, ws.edges@.len()) ==> forall|x: Uuid| #[trigger]
            frontier.contains(x) ==> s.distances[goal].at_most(s.distances[x]),
    ensures
        is_outcome(
            ws,
            blocking,
            m,
            f,
            start,
            goal,
            (RouteSearchStateView { found: true, distance: s.distances[goal], ..s }),
        ),
{
    let after = RouteSearchStateView { found: true, distance: s.distances[goal], ..s };
    lemma_all_reached(ws, blocking, m, f, start, s, t, frontier);
    assert(s.distances.dom().contains(goal));
    if t.order.len() == 0 {
        assert(seq![start].contains(goal));
    }
    if well_behaved(f, m, ws.edges@.len()) {
        lemma_goal_is_least(
            ws,
            blocking,
            m,
            f,
            start,
            goal,
            s.distances,
            s.predecessors,
            t,
            frontier,
        );
    }
    assert forall|x: Uuid| #[trigger] after.distances.dom().contains(x) implies is_reached(
        ws,
        blocking,
        m,
        f,
        start,
        after,
        x,
    ) by {
        assert(is_reached(ws, blocking, m, f, start, s, x));
    }
    assert(is_reached(ws, blocking, m, f, start, s, goal));
}

/// What a search comes to once none waits any more.
proof fn lemma_goal_not_found(
    ws: &Workspace,
    blocking: bool,
    m: RouteCostModel,
    f: Costs,
    start: Uuid,
    goal: Uuid,
    s: RouteSearchStateView,
    t: Trail,
)
    requires
        start != goal,
        node_at(ws, start) is Some,
        node_at(ws, goal) is Some,
        s.distances.dom().finite(),
        s.predecessors.dom().finite(),
        ranked(t),
        !t.order.contains(goal),
        !s.found,
        s.distance == blank_search().distance,
        s.reached.no_duplicates(),
        forall|x: Uuid| s.reached.contains(x) <==> #[trigger] s.distances.dom().contains(x),
        sound(ws, blocking, m, f, start, s.distances, s.predecessors, t),
        parted(s.distances, t.order, Seq::empty()),
        covered(ws, blocking, s.distances, t.order, ws.edges@.len() as int),
    ensures
        is_outcome(ws, blocking, m, f, start, goal, s),
{
    lemma_all_reached(ws, blocking, m, f, start, s, t, Seq::empty());
    assert forall|x: Uuid| reachable(ws, blocking, start, x) implies #[trigger] s.distances.dom().contains(
        x,
    ) by {
        let (nodes, edges) = choose|nodes: Seq<Uuid>, edges: Seq<usize>|
            leads(ws, blocking, nodes, edges, start, x);
        lemma_walk_stays(ws, blocking, s.distances, t.order, nodes, edges, nodes.len() - 1);
    }
    assert(!reachable(ws, blocking, start, goal)) by {
        if reachable(ws, blocking, start, goal) {
            assert(s.distances.dom().contains(goal));
        }
    }
    assert forall|x: Uuid| #[trigger] s.distances.dom().contains(x) <==> reachable(
        ws,
        blocking,
        start,
        x,
    ) by {
        if s.distances.dom().contains(x) {
            assert(is_reached(ws, blocking, m, f, start, s, x));
        }
    }
}

/// Searches a shortest path from one node to another, expanding the nearest
/// node first. Where `blocking` is set, edges that are closed to routes are left
/// out.
pub fn search<A: Fn(Real, Real) -> Real, P: Fn(PenaltyTerm) -> Real>(
    index: &WorkspaceIndex,
    start: Uuid,
    goal: Uuid,
    blocking: bool,
    model: RouteCostModel,
    plus: &A,
    price: &P,
) -> (s: RouteSearchState)
    requires
        is_operation(*plus),
        is_pricing(*price),
    ensures
        is_outcome(&index@, blocking, model, route_costs(&index@, *plus, *price), start, goal, s@),
{
    proof {
        reveal(are_functions);
    }
    let ghost ws = &index@;
    let ghost f = route_costs(&index@, *plus, *price);
    let ghost n = ws.edges@.len();
    let mut state = RouteSearchState::default();
    if index.node(start).is_none() || index.node(goal).is_none() {
        return state;
    }
    state.distances.insert(start, Real::zero());
    state.reached.push(start);
    assert(state.reached@ =~= seq![start]);
    if start == goal {
        state.found = true;
        state.distance = Real::zero();
        return state;
    }
    let mut visited: HashSet<Uuid> = HashSet::new();
    let mut frontier: Vec<Uuid> = Vec::new();
    frontier.push(start);
    assert(frontier@ =~= seq![start]);
    let ghost mut t = Trail { order: Seq::empty(), rank: Map::empty(), via: Map::empty() };
    proof {
        assert(frontier@[0] == start);
        assert(state@.reached[0] == start);
        assert(no_cost().at_most(no_cost()));
        assert forall|x: Uuid| frontier@.contains(x) <==> x == start by {}
        assert forall|x: Uuid| state@.reached.contains(x) <==> x == start by {}
    }
    while frontier.len() > 0
        invariant
            ws == &index@,
            f == route_costs(&index@, *plus, *price),
            n == ws.edges@.len(),
            are_functions(*plus, *price),
            start != goal,
            node_at(ws, start) is Some,
            node_at(ws, goal) is Some,
            !state.found,
            state.distance == blank_search().distance,
            ranked(t),
            t.order.len() == 0 ==> frontier@ == seq![start],
            !t.order.contains(goal),
            forall|x: Uuid| #[trigger] visited@.contains(x) <==> t.order.contains(x),
            state@.reached.no_duplicates(),
            forall|x: Uuid|
                state@.reached.contains(x) <==> #[trigger] state@.distances.dom().contains(x),
            sound(ws, blocking, model, f, start, state@.distances, state@.predecessors, t),
            parted(state@.distances, t.order, frontier@),
            covered(ws, blocking, state@.distances, t.order, n as int),
            well_behaved(f, model, n) ==> tight(
                ws,
                blocking,
                model,
                f,
                state@.distances,
                t.order,
                frontier@,
                n as int,
            ),
        decreases ws.nodes@.len() - t.order.len(),
    {
        proof {
            lemma_reached_nodes_stand(
                ws,
                blocking,
                model,
                f,
                start,
                state@.distances,
                state@.predecessors,
                t,
                frontier@,
            );
            lemma_waiting_have_numbers(
                ws,
                blocking,
                model,
                f,
                state@.distances,
                t.order,
                frontier@,
            );
        }
        let best = nearest_place(&frontier, &state.distances);
        let ghost fr0 = frontier@;
        let ghost t0 = t;
        let current = frontier.remove(best);
        assert(fr0.contains(current));
        assert(state@.distances.dom().contains(current));
        if current == goal {
            proof {
                lemma_goal_found(ws, blocking, model, f, start, goal, state@, t, fr0);
            }
            state.found = true;
            state.distance = *state.distances.get(&current).unwrap();
            return state;
        }
        visited.insert(current);
        proof {
            t = Trail {
                order: t.order.push(current),
                rank: t.rank.insert(current, t.order.len() as int),
                ..t
            };
            lemma_next_expanded(
                ws,
                blocking,
                model,
                f,
                start,
                state@.distances,
                state@.predecessors,
                t0,
                fr0,
                best as int,
                t,
                frontier@,
            );
            assert forall|x: Uuid| t.order.contains(x) <==> t0.order.contains(x) || x == current by {
                lemma_push_contains(t0.order, current, x);
            }
        }
        let after = expand(
            index,
            start,
            blocking,
            model,
            plus,
            price,
            current,
            &mut state,
            &visited,
            &mut frontier,
            Ghost(t),
        );
        proof {
            t = after@;
        }
    }
    proof {
        assert(frontier@ =~= Seq::empty());
        lemma_goal_not_found(ws, blocking, model, f, start, goal, state@, t);
    }
    state
}

} // verus!
