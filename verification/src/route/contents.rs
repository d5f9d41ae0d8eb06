//! What plans hold and what failures tell, in terms of the workspace and of the
//! nodes of a route.

use super::assemble::{plan_of, shape_error, step_error, steps_of};
use super::closing::keeps_routes_out;
use super::cost::{cost_over, extended, no_cost, penalty_cost, Costs};
use super::failure::{
    closed_among, closed_around, closed_steps, closing_zones, is_diagnosis, is_restricted_edge,
    is_slow_edge, is_wrong_way, open_step, out_of_reach, policy_block, reached_nodes,
    restricted_around, slow_around, wrong_way_around, wrong_way_steps,
};
use super::graph::{edge_allows, edge_blocking_zones, hard_blocked, step_over};
use super::laws::{lemma_edges_along, lemma_link_joins};
use super::plan::{
    edges_along, present_zones, zones_of_edge, zones_of_edges, zones_of_node, zones_of_nodes,
};
use super::search::reachable;
use super::{RouteCostModel, RouteFailureKind, RouteFailureView, RoutePlanView, RouteSearchStateView};
use crate::guid::Uuid;
use crate::index::tables::{edge_at, lemma_first_seen, lemma_places, node_at, node_ids, places, policy_at};
use crate::index::{edge_policies, link, link_from, link_place};
use crate::number::{result_of, Real, ONE_BITS};
use crate::policy::merge::restricted_semantics;
use crate::policy::EdgeTrafficSemanticsView;
use crate::workspace::{zone_at, Edge, Workspace};
use vstd::prelude::*;

verus! {

proof fn lemma_cat(a: Seq<Uuid>, b: Seq<Uuid>, x: Uuid)
    ensures
        (a + b).contains(x) <==> a.contains(x) || b.contains(x),
{
    let all = a + b;
    if all.contains(x) {
        let k = choose|k: int| 0 <= k < all.len() && all[k] == x;
        if k < a.len() {
            assert(a[k] == x);
        } else {
            assert(b[k - a.len()] == x);
        }
    }
    if a.contains(x) {
        let k = choose|k: int| 0 <= k < a.len() && a[k] == x;
        assert(all[k] == x);
    }
    if b.contains(x) {
        let k = choose|k: int| 0 <= k < b.len() && b[k] == x;
        assert(all[a.len() + k] == x);
    }
}

proof fn lemma_last_or_before(s: Seq<Uuid>, x: Uuid)
    requires
        s.len() > 0,
    ensures
        s.contains(x) <==> s.drop_last().contains(x) || s.last() == x,
{
    let rest = s.drop_last();
    assert(rest.push(s.last()) =~= s);
    if s.contains(x) {
        let k = choose|k: int| 0 <= k < s.len() && s[k] == x;
        if k < rest.len() {
            assert(rest[k] == x);
        }
    }
    if rest.contains(x) {
        let k = choose|k: int| 0 <= k < rest.len() && rest[k] == x;
        assert(s[k] == x);
    }
    assert(s[s.len() - 1] == s.last());
}

// ---------------------------------------------------------------------------
// edges between nodes
// ---------------------------------------------------------------------------

/// Whether the edge at a place leads from one node to another.
pub open spec fn leads_from_to(ws: &Workspace, k: int, a: Uuid, b: Uuid) -> bool {
    let e = ws.edges@[k];
    e.source < ws.nodes@.len() && e.target < ws.nodes@.len() && ws.nodes@[e.source as int].id == a
        && ws.nodes@[e.target as int].id == b
}

proof fn lemma_link_is_first(edges: Seq<Edge>, source: usize, target: usize, k: nat)
    requires
        edges.len() <= usize::MAX,
    ensures
        link_from(edges, source, target, k) matches Some(e) ==> forall|j: int|
            k <= j < e ==> !((#[trigger] edges[j]).source == source && edges[j].target == target),
        link_from(edges, source, target, k) is None ==> forall|j: int|
            k <= j < edges.len() ==> !((#[trigger] edges[j]).source == source && edges[j].target
                == target),
    decreases edges.len() - k,
{
    if k < edges.len() && !(edges[k as int].source == source && edges[k as int].target == target) {
        lemma_link_is_first(edges, source, target, k + 1);
    }
}

/// Where no two nodes have the same identifier, the edge between two nodes is the
/// first that leads from the one to the other, and where there is none the first
/// that leads back. There is one wherever an edge joins the two.
pub proof fn lemma_edge_between(ws: &Workspace, a: Uuid, b: Uuid)
    requires
        node_ids(ws).no_duplicates(),
    ensures
        link_place(ws, a, b) matches Some(k) ==> k < ws.edges@.len() && {
            ||| leads_from_to(ws, k as int, a, b) && forall|j: int|
                0 <= j < k ==> !(#[trigger] leads_from_to(ws, j, a, b))
            ||| leads_from_to(ws, k as int, b, a) && (forall|j: int|
                0 <= j < ws.edges@.len() ==> !(#[trigger] leads_from_to(ws, j, a, b))) && (forall|
                j: int,
            |
                0 <= j < k ==> !(#[trigger] leads_from_to(ws, j, b, a)))
        },
        link_place(ws, a, b) is None ==> (forall|j: int|
            0 <= j < ws.edges@.len() ==> !(#[trigger] leads_from_to(ws, j, a, b))) && (forall|
            j: int,
        |
            0 <= j < ws.edges@.len() ==> !(#[trigger] leads_from_to(ws, j, b, a))),
{
    let ids = node_ids(ws);
    assert(ids.len() == ws.nodes.len());
    assert(ws.edges@.len() == ws.edges.len());
    lemma_places(ids);
    assert forall|i: int| 0 <= i < ids.len() implies places(ids).dom().contains(
        #[trigger] ids[i],
    ) && places(ids)[ids[i]] == i by {
        assert(ids.contains(ids[i]));
        assert(places(ids).dom().contains(ids[i]));
        assert(ids[places(ids)[ids[i]] as int] == ids[i]);
    }
    if places(ids).dom().contains(a) && places(ids).dom().contains(b) {
        let i = places(ids)[a];
        let j = places(ids)[b];
        assert(ids[i as int] == a && ids[j as int] == b);
        lemma_link_joins(ws.edges@, i, j, 0);
        lemma_link_joins(ws.edges@, j, i, 0);
        lemma_link_is_first(ws.edges@, i, j, 0);
        lemma_link_is_first(ws.edges@, j, i, 0);
        assert forall|q: int| 0 <= q < ws.edges@.len() implies (#[trigger] leads_from_to(ws, q, a, b)
            <==> ws.edges@[q].source == i && ws.edges@[q].target == j) by {
            let e = ws.edges@[q];
            if e.source < ids.len() && e.target < ids.len() {
                assert(ids[e.source as int] == ws.nodes@[e.source as int].id);
                assert(ids[e.target as int] == ws.nodes@[e.target as int].id);
            }
        }
        assert forall|q: int| 0 <= q < ws.edges@.len() implies (#[trigger] leads_from_to(ws, q, b, a)
            <==> ws.edges@[q].source == j && ws.edges@[q].target == i) by {
            let e = ws.edges@[q];
            if e.source < ids.len() && e.target < ids.len() {
                assert(ids[e.source as int] == ws.nodes@[e.source as int].id);
                assert(ids[e.target as int] == ws.nodes@[e.target as int].id);
            }
        }
        if let Some(k) = link_place(ws, a, b) {
            assert(leads_from_to(ws, k as int, a, b) || leads_from_to(ws, k as int, b, a));
        }
    } else {
        assert forall|q: int| 0 <= q < ws.edges@.len() implies !(#[trigger] leads_from_to(
            ws,
            q,
            a,
            b,
        )) by {
            let e = ws.edges@[q];
            if e.source < ids.len() && e.target < ids.len() {
                assert(ids[e.source as int] == ws.nodes@[e.source as int].id);
                assert(ids[e.target as int] == ws.nodes@[e.target as int].id);
            }
        }
        assert forall|q: int| 0 <= q < ws.edges@.len() implies !(#[trigger] leads_from_to(
            ws,
            q,
            b,
            a,
        )) by {
            let e = ws.edges@[q];
            if e.source < ids.len() && e.target < ids.len() {
                assert(ids[e.source as int] == ws.nodes@[e.source as int].id);
                assert(ids[e.target as int] == ws.nodes@[e.target as int].id);
            }
        }
    }
}

// ---------------------------------------------------------------------------
// zones along a route
// ---------------------------------------------------------------------------

proof fn lemma_present(ws: &Workspace, ids: Seq<Uuid>, z: Uuid)
    ensures
        present_zones(ws, ids).contains(z) <==> ids.contains(z) && zone_at(ws, z) is Some,
    decreases ids.len(),
{
    if ids.len() > 0 {
        let before = present_zones(ws, ids.drop_last());
        let after = present_zones(ws, ids);
        lemma_present(ws, ids.drop_last(), z);
        lemma_last_or_before(ids, z);
        if after.len() > before.len() {
            assert(after.drop_last() =~= before);
            lemma_last_or_before(after, z);
        }
    }
}

/// Whether a node lists a zone that is there.
pub open spec fn node_in(ws: &Workspace, id: Uuid, z: Uuid) -> bool {
    (node_at(ws, id) matches Some(n) && n.zone_ids@.contains(z)) && zone_at(ws, z) is Some
}

/// Whether an edge lists a zone that is there.
pub open spec fn edge_in(ws: &Workspace, id: Uuid, z: Uuid) -> bool {
    (edge_at(ws, id) matches Some(e) && e.zone_ids@.contains(z)) && zone_at(ws, z) is Some
}

proof fn lemma_node_zones(ws: &Workspace, nodes: Seq<Uuid>, z: Uuid)
    ensures
        zones_of_nodes(ws, nodes).contains(z) <==> exists|i: int|
            0 <= i < nodes.len() && node_in(ws, #[trigger] nodes[i], z),
    decreases nodes.len(),
{
    if nodes.len() > 0 {
        let rest = nodes.drop_last();
        lemma_node_zones(ws, rest, z);
        lemma_cat(zones_of_nodes(ws, rest), zones_of_node(ws, nodes.last()), z);
        lemma_present(ws, crate::index::node_zone_ids(ws, nodes.last()), z);
        assert(nodes[nodes.len() - 1] == nodes.last());
        assert forall|i: int| 0 <= i < rest.len() implies #[trigger] rest[i] == nodes[i] by {}
        if exists|i: int| 0 <= i < nodes.len() && node_in(ws, #[trigger] nodes[i], z) {
            let i = choose|i: int| 0 <= i < nodes.len() && node_in(ws, #[trigger] nodes[i], z);
            if i < rest.len() {
                assert(node_in(ws, rest[i], z));
            }
        }
    }
}

proof fn lemma_edge_zones(ws: &Workspace, edges: Seq<Uuid>, z: Uuid)
    ensures
        zones_of_edges(ws, edges).contains(z) <==> exists|i: int|
            0 <= i < edges.len() && edge_in(ws, #[trigger] edges[i], z),
    decreases edges.len(),
{
    if edges.len() > 0 {
        let rest = edges.drop_last();
        lemma_edge_zones(ws, rest, z);
        lemma_cat(zones_of_edges(ws, rest), zones_of_edge(ws, edges.last()), z);
        lemma_present(ws, crate::index::edge_zone_ids(ws, edges.last()), z);
        assert(edges[edges.len() - 1] == edges.last());
        assert forall|i: int| 0 <= i < rest.len() implies #[trigger] rest[i] == edges[i] by {}
        if exists|i: int| 0 <= i < edges.len() && edge_in(ws, #[trigger] edges[i], z) {
            let i = choose|i: int| 0 <= i < edges.len() && edge_in(ws, #[trigger] edges[i], z);
            if i < rest.len() {
                assert(edge_in(ws, rest[i], z));
            }
        }
    }
}

/// A plan goes over the given nodes, from the start to the goal. Between each two
/// of them it names the edge that joins them. For each node and each edge it lists
/// the zones that those list and that are there, and it lists every one of these
/// zones once.
pub proof fn lemma_what_a_plan_holds<G: Fn(Real, Real) -> Real>(
    ws: &Workspace,
    f: Costs,
    g: G,
    m: RouteCostModel,
    start: Uuid,
    goal: Uuid,
    nodes: Seq<Uuid>,
    plan: RoutePlanView,
)
    requires
        plan_of(ws, f, g, m, start, goal, nodes) == Ok::<RoutePlanView, crate::error::ErrorView>(
            plan,
        ),
    ensures
        plan.start_node_id == start,
        plan.goal_node_id == goal,
        plan.traversed_node_ids == nodes,
        nodes.len() > 0 ==> nodes[0] == start && nodes.last() == goal,
        nodes.len() > 0 ==> plan.traversed_edge_ids.len() == nodes.len() - 1,
        forall|i: int|
            0 <= i < nodes.len() - 1 ==> (link(
                ws,
                #[trigger] nodes[i],
                nodes[i + 1],
            ) matches Some(e) && plan.traversed_edge_ids[i] == e.id),
        plan.traversed_node_zone_ids.len() == nodes.len(),
        plan.traversed_edge_zone_ids.len() == plan.traversed_edge_ids.len(),
        forall|i: int, z: Uuid|
            0 <= i < nodes.len() ==> (#[trigger] plan.traversed_node_zone_ids[i].contains(z)
                <==> node_in(ws, nodes[i], z)),
        forall|i: int, z: Uuid|
            0 <= i < plan.traversed_edge_ids.len() ==> (
            #[trigger] plan.traversed_edge_zone_ids[i].contains(z) <==> edge_in(
                ws,
                plan.traversed_edge_ids[i],
                z,
            )),
        plan.traversed_zone_ids.no_duplicates(),
        forall|z: Uuid| #[trigger]
            plan.traversed_zone_ids.contains(z) <==> {
                ||| exists|i: int| 0 <= i < nodes.len() && node_in(ws, #[trigger] nodes[i], z)
                ||| exists|i: int|
                    0 <= i < plan.traversed_edge_ids.len() && edge_in(
                        ws,
                        #[trigger] plan.traversed_edge_ids[i],
                        z,
                    )
            },
{
    let edges = edges_along(ws, nodes).unwrap();
    assert(plan.traversed_edge_ids == edges);
    if nodes.len() >= 2 {
        lemma_edges_along(ws, nodes, 0);
        assert forall|i: int| 0 <= i < nodes.len() - 1 implies (link(
            ws,
            #[trigger] nodes[i],
            nodes[i + 1],
        ) matches Some(e) && edges[i] == e.id) by {
            lemma_edges_along(ws, nodes, i);
        }
    }
    assert forall|i: int, z: Uuid| 0 <= i < nodes.len() implies (
    #[trigger] plan.traversed_node_zone_ids[i].contains(z) <==> node_in(ws, nodes[i], z)) by {
        lemma_present(ws, crate::index::node_zone_ids(ws, nodes[i]), z);
    }
    assert forall|i: int, z: Uuid| 0 <= i < edges.len() implies (
    #[trigger] plan.traversed_edge_zone_ids[i].contains(z) <==> edge_in(ws, edges[i], z)) by {
        lemma_present(ws, crate::index::edge_zone_ids(ws, edges[i]), z);
    }
    let all = zones_of_nodes(ws, nodes) + zones_of_edges(ws, edges);
    lemma_first_seen(all);
    assert forall|z: Uuid| #[trigger] plan.traversed_zone_ids.contains(z) <==> {
        ||| exists|i: int| 0 <= i < nodes.len() && node_in(ws, #[trigger] nodes[i], z)
        ||| exists|i: int| 0 <= i < edges.len() && edge_in(ws, #[trigger] edges[i], z)
    } by {
        lemma_node_zones(ws, nodes, z);
        lemma_edge_zones(ws, edges, z);
        lemma_cat(zones_of_nodes(ws, nodes), zones_of_edges(ws, edges), z);
    }
}

/// A plan has a step for each of its nodes. The first one comes from nowhere and
/// costs nothing. Each other one comes over the edge from the node before, costs
/// what that edge costs by itself, and adds this to what was spent before.
pub proof fn lemma_steps_of_a_plan<G: Fn(Real, Real) -> Real>(
    ws: &Workspace,
    f: Costs,
    g: G,
    m: RouteCostModel,
    nodes: Seq<Uuid>,
    i: int,
)
    requires
        0 <= i < nodes.len(),
    ensures
        ({
            let steps = steps_of(ws, f, g, m, nodes);
            &&& steps.len() == nodes.len()
            &&& steps[i].node_id == nodes[i]
            &&& i == 0 ==> steps[i].incoming_edge_id is None && steps[i].step_cost == no_cost()
                && steps[i].cumulative_cost == no_cost()
            &&& i > 0 && link_place(ws, nodes[i - 1], nodes[i]) is Some ==> {
                let e = link_place(ws, nodes[i - 1], nodes[i]).unwrap();
                &&& steps[i].incoming_edge_id == Some(ws.edges@[e as int].id)
                &&& steps[i].step_cost == extended(f, m, no_cost(), e)
                &&& steps[i].cumulative_cost == result_of(
                    g,
                    steps[i - 1].cumulative_cost,
                    steps[i].step_cost,
                )
            }
        }),
    decreases nodes.len(),
{
    reveal_with_fuel(steps_of, 2);
    if nodes.len() > 1 {
        let rest = nodes.drop_last();
        if i < rest.len() {
            lemma_steps_of_a_plan(ws, f, g, m, rest, i);
        } else {
            lemma_steps_of_a_plan(ws, f, g, m, rest, rest.len() - 1);
        }
    }
}

/// Going over an edge adds its weight to the cost, and its penalty where penalties
/// count.
pub proof fn lemma_cost_of_an_edge<A: Fn(Real, Real) -> Real, P: Fn(super::graph::PenaltyTerm) -> Real>(
    ws: &Workspace,
    plus: A,
    price: P,
    d: Real,
    e: usize,
)
    ensures
        cost_over(ws, plus, price, RouteCostModel::GraphWeight, d, e) == result_of(
            plus,
            d,
            ws.edges@[e as int].weight,
        ),
        cost_over(ws, plus, price, RouteCostModel::Penalized, d, e) == result_of(
            plus,
            cost_over(ws, plus, price, RouteCostModel::GraphWeight, d, e),
            penalty_cost(ws, plus, price, ws.edges@[e as int].id),
        ),
{
}

// ---------------------------------------------------------------------------
// the shape of plans
// ---------------------------------------------------------------------------

proof fn lemma_step_shape(plan: RoutePlanView, k: nat)
    requires
        plan.steps.len() <= plan.traversed_node_ids.len(),
    ensures
        step_error(plan, k) is None <==> forall|i: int|
            k <= i < plan.steps.len() ==> {
                let s = #[trigger] plan.steps[i];
                &&& s.node_id == plan.traversed_node_ids[i]
                &&& i == 0 ==> s.incoming_edge_id is None
                &&& i > 0 ==> s.incoming_edge_id == Some(plan.traversed_edge_ids[i - 1])
            },
    decreases plan.steps.len() - k,
{
    if k < plan.steps.len() {
        lemma_step_shape(plan, k + 1);
        let s = plan.steps[k as int];
    }
}

/// A plan is of the right shape exactly if it is empty, or goes from its start to
/// its goal with one edge between each two nodes. Steps and lists of zones may be
/// left out. Where they are there, there is one for each node or edge, and each
/// step names its node and the edge that leads there.
pub proof fn lemma_shape_of_a_plan(plan: RoutePlanView)
    ensures
        shape_error(plan) is None <==> {
            let nodes = plan.traversed_node_ids;
            let edges = plan.traversed_edge_ids;
            ||| nodes.len() == 0 && edges.len() == 0 && plan.steps.len() == 0
            ||| {
                &&& nodes.len() > 0
                &&& nodes[0] == plan.start_node_id
                &&& nodes[nodes.len() - 1] == plan.goal_node_id
                &&& edges.len() == nodes.len() - 1
                &&& plan.steps.len() == 0 || plan.steps.len() == nodes.len()
                &&& plan.traversed_node_zone_ids.len() == 0 || plan.traversed_node_zone_ids.len()
                    == nodes.len()
                &&& plan.traversed_edge_zone_ids.len() == 0 || plan.traversed_edge_zone_ids.len()
                    == edges.len()
                &&& forall|i: int|
                    0 <= i < plan.steps.len() ==> {
                        let s = #[trigger] plan.steps[i];
                        &&& s.node_id == nodes[i]
                        &&& i == 0 ==> s.incoming_edge_id is None
                        &&& i > 0 ==> s.incoming_edge_id == Some(edges[i - 1])
                    }
            }
        },
{
    if plan.steps.len() <= plan.traversed_node_ids.len() {
        lemma_step_shape(plan, 0);
    }
}

// ---------------------------------------------------------------------------
// failures
// ---------------------------------------------------------------------------

proof fn lemma_closed_steps(ws: &Workspace, node: Uuid, n: nat, id: Uuid)
    requires
        n <= ws.edges@.len(),
    ensures
        closed_steps(ws, node, n).contains(id) <==> exists|e: int|
            0 <= e < n && (#[trigger] ws.edges@[e]).id == id && step_over(ws, node, e) is Some
                && hard_blocked(ws, id),
    decreases n,
{
    if n > 0 {
        let before = closed_steps(ws, node, (n - 1) as nat);
        let after = closed_steps(ws, node, n);
        lemma_closed_steps(ws, node, (n - 1) as nat, id);
        if after.len() > before.len() {
            assert(after.drop_last() =~= before);
            lemma_last_or_before(after, id);
            assert(ws.edges@[n - 1].id == after.last());
        }
    }
}

/// Whether a closed edge could be taken from one of a list of nodes.
pub open spec fn closed_beside(ws: &Workspace, nodes: Seq<Uuid>, id: Uuid) -> bool {
    hard_blocked(ws, id) && exists|i: int, e: int|
        0 <= i < nodes.len() && 0 <= e < ws.edges@.len() && ws.edges@[e].id == id
            && #[trigger] step_over(ws, nodes[i], e) is Some
}

proof fn lemma_closed_around(ws: &Workspace, nodes: Seq<Uuid>, id: Uuid)
    ensures
        closed_around(ws, nodes).contains(id) <==> closed_beside(ws, nodes, id),
    decreases nodes.len(),
{
    if nodes.len() > 0 {
        let rest = nodes.drop_last();
        let last = nodes.last();
        lemma_closed_around(ws, rest, id);
        lemma_closed_steps(ws, last, ws.edges@.len(), id);
        lemma_cat(closed_around(ws, rest), closed_steps(ws, last, ws.edges@.len()), id);
        if closed_beside(ws, rest, id) {
            let (i, e) = choose|i: int, e: int|
                0 <= i < rest.len() && 0 <= e < ws.edges@.len() && ws.edges@[e].id == id
                    && #[trigger] step_over(ws, rest[i], e) is Some;
            assert(step_over(ws, nodes[i], e) is Some);
        }
        if closed_steps(ws, last, ws.edges@.len()).contains(id) {
            let e = choose|e: int|
                0 <= e < ws.edges@.len() && (#[trigger] ws.edges@[e]).id == id && step_over(
                    ws,
                    last,
                    e,
                ) is Some && hard_blocked(ws, id);
            assert(step_over(ws, nodes[nodes.len() - 1], e) is Some);
        }
        if closed_beside(ws, nodes, id) {
            let (i, e) = choose|i: int, e: int|
                0 <= i < nodes.len() && 0 <= e < ws.edges@.len() && ws.edges@[e].id == id
                    && #[trigger] step_over(ws, nodes[i], e) is Some;
            if i < rest.len() {
                assert(step_over(ws, rest[i], e) is Some);
            } else {
                assert(ws.edges@[e].id == id);
            }
        }
    }
}

proof fn lemma_closed_among(ws: &Workspace, edges: Seq<Uuid>, id: Uuid)
    ensures
        closed_among(ws, edges).contains(id) <==> edges.contains(id) && hard_blocked(ws, id),
    decreases edges.len(),
{
    if edges.len() > 0 {
        let before = closed_among(ws, edges.drop_last());
        let after = closed_among(ws, edges);
        lemma_closed_among(ws, edges.drop_last(), id);
        lemma_last_or_before(edges, id);
        if after.len() > before.len() {
            assert(after.drop_last() =~= before);
            lemma_last_or_before(after, id);
        }
    }
}

/// Whether an edge lists a zone that keeps routes out.
pub open spec fn closed_by(ws: &Workspace, id: Uuid, z: Uuid) -> bool {
    (edge_at(ws, id) matches Some(e) && e.zone_ids@.contains(z)) && (policy_at(ws, z) matches Some(
        p,
    ) && keeps_routes_out(p))
}

proof fn lemma_closing_zones(ws: &Workspace, edges: Seq<Uuid>, z: Uuid)
    ensures
        closing_zones(ws, edges).contains(z) <==> exists|i: int|
            0 <= i < edges.len() && closed_by(ws, #[trigger] edges[i], z),
    decreases edges.len(),
{
    if edges.len() > 0 {
        let rest = edges.drop_last();
        let last = edges.last();
        lemma_closing_zones(ws, rest, z);
        lemma_cat(closing_zones(ws, rest), edge_blocking_zones(ws, last), z);
        match edge_at(ws, last) {
            Some(e) => {
                super::closing::lemma_zones_that_close_an_edge(ws, e, last, z);
            },
            None => {
                assert(crate::index::edge_zone_ids(ws, last) =~= Seq::empty());
            },
        }
        assert(edges[edges.len() - 1] == last);
        assert forall|i: int| 0 <= i < rest.len() implies #[trigger] rest[i] == edges[i] by {}
        if exists|i: int| 0 <= i < edges.len() && closed_by(ws, #[trigger] edges[i], z) {
            let i = choose|i: int| 0 <= i < edges.len() && closed_by(ws, #[trigger] edges[i], z);
            if i < rest.len() {
                assert(closed_by(ws, rest[i], z));
            }
        }
    }
}

/// A route that policy blocks is told which nodes can be reached, and which closed
/// edges could be taken from those. Where there are none of these it is told which
/// edges are closed on the route that would be taken otherwise. It is told the
/// zones that close any of these edges. Nothing is told twice.
pub proof fn lemma_what_a_blocked_route_is_told(
    ws: &Workspace,
    start: Uuid,
    goal: Uuid,
    u: RouteSearchStateView,
    b: RouteSearchStateView,
    nodes: Seq<Uuid>,
    id: Uuid,
)
    requires
        b.reached.len() > 0 ==> nodes == b.reached,
        b.reached.len() == 0 ==> nodes == seq![start],
    ensures
        ({
            let told = policy_block(ws, start, goal, u, b);
            let beside = exists|x: Uuid| #[trigger] closed_beside(ws, nodes, x);
            let on_the_way = edges_along(ws, super::plan::route_nodes(u, start, goal));
            &&& told.kind == RouteFailureKind::PolicyBlocked
            &&& told.reachable_node_ids == nodes
            &&& told.blocked_edge_ids.no_duplicates()
            &&& told.blocked_zone_ids.no_duplicates()
            &&& told.directionally_blocked_edge_ids.len() == 0
            &&& told.blocked_edge_ids.contains(id) ==> hard_blocked(ws, id)
            &&& beside ==> (told.blocked_edge_ids.contains(id) <==> closed_beside(ws, nodes, id))
            &&& !beside ==> (told.blocked_edge_ids.contains(id) <==> hard_blocked(ws, id) && (
            on_the_way matches Some(edges) && edges.contains(id)))
            &&& told.blocked_zone_ids.contains(id) <==> exists|i: int|
                0 <= i < told.blocked_edge_ids.len() && closed_by(
                    ws,
                    #[trigger] told.blocked_edge_ids[i],
                    id,
                )
        }),
{
    let told = policy_block(ws, start, goal, u, b);
    assert(nodes == reached_nodes(b, start));
    let around = closed_around(ws, nodes);
    let blamed = super::failure::blamed_edges(ws, start, goal, u, b);
    lemma_first_seen(blamed);
    lemma_first_seen(closing_zones(ws, blamed));
    lemma_closed_around(ws, nodes, id);
    let on_the_way = edges_along(ws, super::plan::route_nodes(u, start, goal));
    if let Some(edges) = on_the_way {
        lemma_closed_among(ws, edges, id);
    }
    if around.len() > 0 {
        lemma_closed_around(ws, nodes, around[0]);
        assert(around.contains(around[0]));
        assert(closed_beside(ws, nodes, around[0]));
    }
    if exists|x: Uuid| #[trigger] closed_beside(ws, nodes, x) {
        let x = choose|x: Uuid| #[trigger] closed_beside(ws, nodes, x);
        lemma_closed_around(ws, nodes, x);
        assert(around.len() > 0);
    }
    lemma_closing_zones(ws, blamed, id);
    let ids = told.blocked_edge_ids;
    if exists|i: int| 0 <= i < blamed.len() && closed_by(ws, #[trigger] blamed[i], id) {
        let i = choose|i: int| 0 <= i < blamed.len() && closed_by(ws, #[trigger] blamed[i], id);
        assert(blamed.contains(blamed[i]));
        assert(ids.contains(blamed[i]));
        let k = choose|k: int| 0 <= k < ids.len() && ids[k] == blamed[i];
        assert(closed_by(ws, ids[k], id));
    }
    if exists|i: int| 0 <= i < ids.len() && closed_by(ws, #[trigger] ids[i], id) {
        let i = choose|i: int| 0 <= i < ids.len() && closed_by(ws, #[trigger] ids[i], id);
        assert(ids.contains(ids[i]));
        assert(blamed.contains(ids[i]));
        let k = choose|k: int| 0 <= k < blamed.len() && blamed[k] == ids[i];
        assert(closed_by(ws, blamed[k], id));
    }
}

/// Whether an edge that is open could be taken from one of a list of nodes, and
/// what holds on it fits.
pub open spec fn open_beside(
    ws: &Workspace,
    nodes: Seq<Uuid>,
    fits: spec_fn(EdgeTrafficSemanticsView) -> bool,
) -> bool {
    exists|i: int, e: int|
        0 <= i < nodes.len() && 0 <= e < ws.edges@.len() && #[trigger] step_over(ws, nodes[i], e)
            is Some && !hard_blocked(ws, ws.edges@[e].id) && (edge_at(
            ws,
            ws.edges@[e].id,
        ) matches Some(x) && fits(
            restricted_semantics(x.properties@, false, edge_policies(ws, ws.edges@[e].id)),
        ))
}

proof fn lemma_restricted_around(ws: &Workspace, nodes: Seq<Uuid>)
    ensures
        restricted_around(ws, nodes) <==> open_beside(
            ws,
            nodes,
            |s: EdgeTrafficSemanticsView| s.requires_claim == Some(true) || s.access_group is Some,
        ),
        slow_around(ws, nodes) <==> open_beside(
            ws,
            nodes,
            |s: EdgeTrafficSemanticsView|
                s.speed_limit matches Some(n) && n.value.less_than(Real { bits: ONE_BITS }),
        ),
{
    let held = |s: EdgeTrafficSemanticsView|
        s.requires_claim == Some(true) || s.access_group is Some;
    let slow = |s: EdgeTrafficSemanticsView|
        s.speed_limit matches Some(n) && n.value.less_than(Real { bits: ONE_BITS });
    if restricted_around(ws, nodes) {
        let (i, e) = choose|i: int, e: int|
            0 <= i < nodes.len() && 0 <= e < ws.edges@.len() && #[trigger] open_step(
                ws,
                nodes[i],
                e,
            ) && is_restricted_edge(ws, ws.edges@[e].id);
        assert(step_over(ws, nodes[i], e) is Some);
    }
    if open_beside(ws, nodes, held) {
        let (i, e) = choose|i: int, e: int|
            0 <= i < nodes.len() && 0 <= e < ws.edges@.len() && #[trigger] step_over(
                ws,
                nodes[i],
                e,
            ) is Some && !hard_blocked(ws, ws.edges@[e].id) && (edge_at(
                ws,
                ws.edges@[e].id,
            ) matches Some(x) && held(
                restricted_semantics(x.properties@, false, edge_policies(ws, ws.edges@[e].id)),
            ));
        assert(open_step(ws, nodes[i], e));
    }
    if slow_around(ws, nodes) {
        let (i, e) = choose|i: int, e: int|
            0 <= i < nodes.len() && 0 <= e < ws.edges@.len() && #[trigger] open_step(
                ws,
                nodes[i],
                e,
            ) && is_slow_edge(ws, ws.edges@[e].id);
        assert(step_over(ws, nodes[i], e) is Some);
    }
    if open_beside(ws, nodes, slow) {
        let (i, e) = choose|i: int, e: int|
            0 <= i < nodes.len() && 0 <= e < ws.edges@.len() && #[trigger] step_over(
                ws,
                nodes[i],
                e,
            ) is Some && !hard_blocked(ws, ws.edges@[e].id) && (edge_at(
                ws,
                ws.edges@[e].id,
            ) matches Some(x) && slow(
                restricted_semantics(x.properties@, false, edge_policies(ws, ws.edges@[e].id)),
            ));
        assert(open_step(ws, nodes[i], e));
    }
}

/// A route that policy blocks is told one thing more where an edge that could be
/// taken needs a claim or is for some robots only, and one where such an edge is
/// slow.
pub proof fn lemma_what_a_blocked_route_is_told_besides(
    ws: &Workspace,
    start: Uuid,
    goal: Uuid,
    u: RouteSearchStateView,
    b: RouteSearchStateView,
    nodes: Seq<Uuid>,
)
    requires
        b.reached.len() > 0 ==> nodes == b.reached,
        b.reached.len() == 0 ==> nodes == seq![start],
    ensures
        policy_block(ws, start, goal, u, b).diagnostics.len() == 1 + (if open_beside(
            ws,
            nodes,
            |s: EdgeTrafficSemanticsView| s.requires_claim == Some(true) || s.access_group is Some,
        ) {
            1int
        } else {
            0
        }) + (if open_beside(
            ws,
            nodes,
            |s: EdgeTrafficSemanticsView|
                s.speed_limit matches Some(n) && n.value.less_than(Real { bits: ONE_BITS }),
        ) {
            1int
        } else {
            0
        }),
{
    assert(nodes == reached_nodes(b, start));
    lemma_restricted_around(ws, nodes);
}

proof fn lemma_wrong_way_steps(ws: &Workspace, node: Uuid, n: nat, id: Uuid)
    requires
        n <= ws.edges@.len(),
    ensures
        wrong_way_steps(ws, node, n).contains(id) <==> exists|e: int|
            0 <= e < n && (#[trigger] ws.edges@[e]).id == id && is_wrong_way(ws, node, e),
    decreases n,
{
    if n > 0 {
        let before = wrong_way_steps(ws, node, (n - 1) as nat);
        let after = wrong_way_steps(ws, node, n);
        lemma_wrong_way_steps(ws, node, (n - 1) as nat, id);
        if after.len() > before.len() {
            assert(after.drop_last() =~= before);
            lemma_last_or_before(after, id);
            assert(ws.edges@[n - 1].id == after.last());
        }
    }
}

/// Whether the edge at a place touches a node but must not be taken from there.
pub open spec fn against_direction(ws: &Workspace, node: Uuid, k: int) -> bool {
    let e = ws.edges@[k];
    &&& e.source < ws.nodes@.len() && e.target < ws.nodes@.len()
    &&& {
        ||| ws.nodes@[e.source as int].id == node && !edge_allows(&e, true)
        ||| ws.nodes@[e.target as int].id == node && e.source != e.target && !edge_allows(&e, false)
    }
}

proof fn lemma_wrong_way(ws: &Workspace, node: Uuid, k: int)
    requires
        node_ids(ws).no_duplicates(),
        0 <= k < ws.edges@.len(),
    ensures
        is_wrong_way(ws, node, k) <==> against_direction(ws, node, k),
{
    let ids = node_ids(ws);
    assert(ids.len() == ws.nodes.len());
    assert(ws.edges@.len() == ws.edges.len());
    lemma_places(ids);
    assert forall|i: int| 0 <= i < ids.len() implies places(ids).dom().contains(
        #[trigger] ids[i],
    ) && places(ids)[ids[i]] == i by {
        assert(ids.contains(ids[i]));
        assert(places(ids).dom().contains(ids[i]));
        assert(ids[places(ids)[ids[i]] as int] == ids[i]);
    }
    let e = ws.edges@[k];
    assert(e == ws.edges[k]);
    if e.source < ids.len() && e.target < ids.len() {
        assert(ids[e.source as int] == ws.nodes@[e.source as int].id);
        assert(ids[e.target as int] == ws.nodes@[e.target as int].id);
        if places(ids).dom().contains(node) {
            assert(ids[places(ids)[node] as int] == node);
        }
    }
}

/// Whether an edge touches one of a list of nodes but must not be taken from
/// there.
pub open spec fn locked_beside(ws: &Workspace, nodes: Seq<Uuid>, id: Uuid) -> bool {
    exists|i: int, e: int|
        0 <= i < nodes.len() && 0 <= e < ws.edges@.len() && ws.edges@[e].id == id
            && #[trigger] against_direction(ws, nodes[i], e)
}

proof fn lemma_wrong_way_around(ws: &Workspace, nodes: Seq<Uuid>, id: Uuid)
    requires
        node_ids(ws).no_duplicates(),
    ensures
        wrong_way_around(ws, nodes).contains(id) <==> locked_beside(ws, nodes, id),
    decreases nodes.len(),
{
    if nodes.len() > 0 {
        let rest = nodes.drop_last();
        let last = nodes.last();
        let here = wrong_way_steps(ws, last, ws.edges@.len());
        lemma_wrong_way_around(ws, rest, id);
        lemma_wrong_way_steps(ws, last, ws.edges@.len(), id);
        lemma_cat(wrong_way_around(ws, rest), here, id);
        assert forall|e: int| 0 <= e < ws.edges@.len() implies #[trigger] is_wrong_way(ws, last, e)
            == against_direction(ws, last, e) by {
            lemma_wrong_way(ws, last, e);
        }
        if locked_beside(ws, rest, id) {
            let (i, e) = choose|i: int, e: int|
                0 <= i < rest.len() && 0 <= e < ws.edges@.len() && ws.edges@[e].id == id
                    && #[trigger] against_direction(ws, rest[i], e);
            assert(against_direction(ws, nodes[i], e));
        }
        if here.contains(id) {
            let e = choose|e: int|
                0 <= e < ws.edges@.len() && (#[trigger] ws.edges@[e]).id == id && is_wrong_way(
                    ws,
                    last,
                    e,
                );
            assert(against_direction(ws, nodes[nodes.len() - 1], e));
        }
        if locked_beside(ws, nodes, id) {
            let (i, e) = choose|i: int, e: int|
                0 <= i < nodes.len() && 0 <= e < ws.edges@.len() && ws.edges@[e].id == id
                    && #[trigger] against_direction(ws, nodes[i], e);
            if i < rest.len() {
                assert(against_direction(ws, rest[i], e));
            } else {
                assert(ws.edges@[e].id == id && is_wrong_way(ws, last, e));
            }
        }
    }
}

/// Where a goal cannot be reached at all, it is told which nodes can be and which
/// edges touch those but must not be taken from there, each once.
pub proof fn lemma_what_an_unreachable_goal_is_told(
    ws: &Workspace,
    start: Uuid,
    u: RouteSearchStateView,
    id: Uuid,
)
    requires
        node_ids(ws).no_duplicates(),
    ensures
        ({
            let told = out_of_reach(ws, start, u);
            let nodes = if u.reached.len() == 0 {
                seq![start]
            } else {
                u.reached
            };
            &&& told.kind == RouteFailureKind::Unreachable
            &&& told.reachable_node_ids == nodes
            &&& told.directionally_blocked_edge_ids.no_duplicates()
            &&& told.directionally_blocked_edge_ids.contains(id) <==> locked_beside(ws, nodes, id)
            &&& told.blocked_edge_ids.len() == 0
            &&& told.blocked_zone_ids.len() == 0
        }),
{
    let nodes = reached_nodes(u, start);
    lemma_first_seen(wrong_way_around(ws, nodes));
    lemma_wrong_way_around(ws, nodes, id);
}

/// A failure is put down to a missing start, to a missing goal, to policy where a
/// route would exist if nothing were closed, and otherwise to the graph.
pub proof fn lemma_what_a_failure_is_put_down_to(
    ws: &Workspace,
    f: Costs,
    start: Uuid,
    goal: Uuid,
    failure: RouteFailureView,
)
    requires
        is_diagnosis(ws, f, start, goal, failure),
    ensures
        failure.kind == RouteFailureKind::MissingStartNode <==> node_at(ws, start) is None,
        failure.kind == RouteFailureKind::MissingGoalNode <==> node_at(ws, start) is Some
            && node_at(ws, goal) is None,
        failure.kind == RouteFailureKind::PolicyBlocked <==> node_at(ws, start) is Some && node_at(
            ws,
            goal,
        ) is Some && (start == goal || reachable(ws, false, start, goal)),
        failure.kind == RouteFailureKind::Unreachable <==> node_at(ws, start) is Some && node_at(
            ws,
            goal,
        ) is Some && start != goal && !reachable(ws, false, start, goal),
{
}

} // verus!
