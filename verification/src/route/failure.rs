//! Why there is no route, and planning as a whole.

use super::assemble::{build_route_plan_from_search, plan_from_search};
use super::graph::{
    allows_traversal_from_node, blocked_zones_for_edge, edge_allows, edge_blocking_zones, find_step, hard_blocked, is_edge_hard_blocked, step_over, PenaltyTerm,
};
use super::plan::{
    add_unseen, edges_along, extract_traversed_edge_ids_from_nodes, reconstruct_route_nodes,
    route_nodes, shortest_path_search, shortest_path_search_with_blocking,
    shortest_path_search_with_penalties,
};
use super::cost::{is_pricing, route_costs, Costs};
use super::search::{is_outcome, reachable};
use super::{
    blank_failure, RouteCostModel, RouteFailure, RouteFailureKind, RouteFailureView,
    RoutePlanningResult, RouteSearchState, RouteSearchStateView,
};
use crate::claim::reasons::list_edge_policies;
use crate::error::error_text;
use crate::guid::Uuid;
use crate::index::tables::{
    edge_at, edge_stands, first_seen, looked_up, node_at, node_ids, places,
};
use crate::index::{edge_policies, WorkspaceIndex};
use crate::number::{is_operation, Real};
use crate::policy::merge::{restrict_edge_semantics, restricted_semantics};
use crate::text::{decimal, decimal_text, joined3};
use crate::views::{copy_list, lemma_views_push, view_of, views};
use crate::workspace::Workspace;
use std::collections::HashSet;
use vstd::prelude::*;

verus! {

broadcast use vstd::std_specs::hash::group_hash_axioms;

// ---------------------------------------------------------------------------
// what stands around the nodes that were reached
// ---------------------------------------------------------------------------

/// The closed edges among the first `n` that a step leads over from a node.
pub open spec fn closed_steps(ws: &Workspace, node: Uuid, n: nat) -> Seq<Uuid>
    decreases n,
{
    if n == 0 || n > ws.edges@.len() {
        Seq::empty()
    } else {
        let before = closed_steps(ws, node, (n - 1) as nat);
        let id = ws.edges@[n - 1].id;
        if step_over(ws, node, n - 1) is Some && hard_blocked(ws, id) {
            before.push(id)
        } else {
            before
        }
    }
}

/// The closed edges that steps lead over from any of a list of nodes.
pub open spec fn closed_around(ws: &Workspace, nodes: Seq<Uuid>) -> Seq<Uuid>
    decreases nodes.len(),
{
    if nodes.len() == 0 {
        Seq::empty()
    } else {
        closed_around(ws, nodes.drop_last()) + closed_steps(ws, nodes.last(), ws.edges@.len())
    }
}

/// The closed edges of a list.
pub open spec fn closed_among(ws: &Workspace, edges: Seq<Uuid>) -> Seq<Uuid>
    decreases edges.len(),
{
    if edges.len() == 0 {
        Seq::empty()
    } else {
        let before = closed_among(ws, edges.drop_last());
        if hard_blocked(ws, edges.last()) {
            before.push(edges.last())
        } else {
            before
        }
    }
}

/// The zones that close a list of edges, one behind the other.
pub open spec fn closing_zones(ws: &Workspace, edges: Seq<Uuid>) -> Seq<Uuid>
    decreases edges.len(),
{
    if edges.len() == 0 {
        Seq::empty()
    } else {
        closing_zones(ws, edges.drop_last()) + edge_blocking_zones(ws, edges.last())
    }
}

/// Whether an open step leads over the edge at a place from a node.
pub open spec fn open_step(ws: &Workspace, node: Uuid, e: int) -> bool {
    step_over(ws, node, e) is Some && !hard_blocked(ws, ws.edges@[e].id)
}

/// Whether an edge has to be claimed, or is for some robots only.
pub open spec fn is_restricted_edge(ws: &Workspace, id: Uuid) -> bool {
    match edge_at(ws, id) {
        Some(e) => {
            let s = restricted_semantics(e.properties@, false, edge_policies(ws, id));
            s.requires_claim == Some(true) || s.access_group is Some
        },
        None => false,
    }
}

/// Whether the speed limit on an edge is below one.
pub open spec fn is_slow_edge(ws: &Workspace, id: Uuid) -> bool {
    match edge_at(ws, id) {
        Some(e) => {
            let s = restricted_semantics(e.properties@, false, edge_policies(ws, id));
            s.speed_limit matches Some(n) && n.value.less_than(
                Real { bits: crate::number::ONE_BITS },
            )
        },
        None => false,
    }
}

/// Whether an open step leads over a restricted edge from any of a list of nodes.
pub open spec fn restricted_around(ws: &Workspace, nodes: Seq<Uuid>) -> bool {
    exists|i: int, e: int|
        0 <= i < nodes.len() && 0 <= e < ws.edges@.len() && #[trigger] open_step(ws, nodes[i], e)
            && is_restricted_edge(ws, ws.edges@[e].id)
}

/// Whether an open step leads over a slow edge from any of a list of nodes.
pub open spec fn slow_around(ws: &Workspace, nodes: Seq<Uuid>) -> bool {
    exists|i: int, e: int|
        0 <= i < nodes.len() && 0 <= e < ws.edges@.len() && #[trigger] open_step(ws, nodes[i], e)
            && is_slow_edge(ws, ws.edges@[e].id)
}

/// The edges among the first `n` that touch a node but may not be taken from it.
pub open spec fn wrong_way_steps(ws: &Workspace, node: Uuid, n: nat) -> Seq<Uuid>
    decreases n,
{
    if n == 0 || n > ws.edges@.len() {
        Seq::empty()
    } else {
        let before = wrong_way_steps(ws, node, (n - 1) as nat);
        if is_wrong_way(ws, node, n - 1) {
            before.push(ws.edges@[n - 1].id)
        } else {
            before
        }
    }
}

/// Whether the edge at a place touches a node but may not be taken from it.
pub open spec fn is_wrong_way(ws: &Workspace, node: Uuid, e: int) -> bool {
    let edge = &ws.edges[e];
    match looked_up(places(node_ids(ws)), node) {
        Some(v) => edge_stands(ws, edge) && (if edge.source == v {
            !edge_allows(edge, true)
        } else {
            edge.target == v && !edge_allows(edge, false)
        }),
        None => false,
    }
}

/// The edges that touch any of a list of nodes but may not be taken from it.
pub open spec fn wrong_way_around(ws: &Workspace, nodes: Seq<Uuid>) -> Seq<Uuid>
    decreases nodes.len(),
{
    if nodes.len() == 0 {
        Seq::empty()
    } else {
        wrong_way_around(ws, nodes.drop_last()) + wrong_way_steps(
            ws,
            nodes.last(),
            ws.edges@.len(),
        )
    }
}

/// The nodes that a search has reached, and otherwise the one that it began at.
pub open spec fn reached_nodes(s: RouteSearchStateView, start: Uuid) -> Seq<Uuid> {
    if s.reached.len() == 0 {
        seq![start]
    } else {
        s.reached
    }
}

fn list_reached_nodes(s: &RouteSearchState, start: Uuid) -> (nodes: Vec<Uuid>)
    ensures
        nodes@ == reached_nodes(s@, start),
{
    let mut nodes = copy_list(&s.reached);
    if nodes.len() == 0 {
        nodes.push(start);
        assert(nodes@ =~= seq![start]);
    }
    nodes
}

fn list_closed_around(index: &WorkspaceIndex, nodes: &Vec<Uuid>) -> (out: Vec<Uuid>)
    ensures
        out@ == closed_around(&index@, nodes@),
{
    let ghost ws = &index@;
    let n: usize = index.workspace().edges.len();
    let mut out: Vec<Uuid> = Vec::new();
    let mut i: usize = 0;
    assert(nodes@.take(0) =~= Seq::empty());
    while i < nodes.len()
        invariant
            i <= nodes.len(),
            ws == &index@,
            n == ws.edges@.len(),
            out@ == closed_around(ws, nodes@.take(i as int)),
        decreases nodes.len() - i,
    {
        assert(nodes@.take(i as int + 1).drop_last() =~= nodes@.take(i as int));
        let ghost before = out@;
        let node = nodes[i];
        let mut e: usize = 0;
        assert(before + closed_steps(ws, node, 0) =~= before);
        while e < n
            invariant
                e <= n,
                ws == &index@,
                n == ws.edges@.len(),
                out@ == before + closed_steps(ws, node, e as nat),
            decreases n - e,
        {
            let id = index.workspace().edges[e].id;
            if find_step(index, node, e).is_some() && is_edge_hard_blocked(index, id) {
                out.push(id);
            }
            e = e + 1;
            assert(out@ =~= before + closed_steps(ws, node, e as nat));
        }
        i = i + 1;
    }
    assert(nodes@.take(i as int) =~= nodes@);
    out
}

fn list_closed_among(index: &WorkspaceIndex, edges: &Vec<Uuid>) -> (out: Vec<Uuid>)
    ensures
        out@ == closed_among(&index@, edges@),
{
    let mut out: Vec<Uuid> = Vec::new();
    let mut i: usize = 0;
    assert(edges@.take(0) =~= Seq::empty());
    while i < edges.len()
        invariant
            i <= edges.len(),
            out@ == closed_among(&index@, edges@.take(i as int)),
        decreases edges.len() - i,
    {
        assert(edges@.take(i as int + 1).drop_last() =~= edges@.take(i as int));
        if is_edge_hard_blocked(index, edges[i]) {
            out.push(edges[i]);
        }
        i = i + 1;
    }
    assert(edges@.take(i as int) =~= edges@);
    out
}

fn list_closing_zones(index: &WorkspaceIndex, edges: &Vec<Uuid>) -> (out: Vec<Uuid>)
    ensures
        out@ == closing_zones(&index@, edges@),
{
    let mut out: Vec<Uuid> = Vec::new();
    let mut i: usize = 0;
    assert(edges@.take(0) =~= Seq::empty());
    while i < edges.len()
        invariant
            i <= edges.len(),
            out@ == closing_zones(&index@, edges@.take(i as int)),
        decreases edges.len() - i,
    {
        assert(edges@.take(i as int + 1).drop_last() =~= edges@.take(i as int));
        let mut zones = blocked_zones_for_edge(index, edges[i]);
        out.append(&mut zones);
        i = i + 1;
    }
    assert(edges@.take(i as int) =~= edges@);
    out
}

fn list_wrong_way_around(index: &WorkspaceIndex, nodes: &Vec<Uuid>) -> (out: Vec<Uuid>)
    ensures
        out@ == wrong_way_around(&index@, nodes@),
{
    let ghost ws = &index@;
    let n: usize = index.workspace().edges.len();
    let mut out: Vec<Uuid> = Vec::new();
    let mut i: usize = 0;
    assert(nodes@.take(0) =~= Seq::empty());
    while i < nodes.len()
        invariant
            i <= nodes.len(),
            ws == &index@,
            n == ws.edges@.len(),
            out@ == wrong_way_around(ws, nodes@.take(i as int)),
        decreases nodes.len() - i,
    {
        assert(nodes@.take(i as int + 1).drop_last() =~= nodes@.take(i as int));
        let ghost before = out@;
        let node = nodes[i];
        let mut e: usize = 0;
        assert(before + wrong_way_steps(ws, node, 0) =~= before);
        while e < n
            invariant
                e <= n,
                ws == &index@,
                n == ws.edges@.len(),
                out@ == before + wrong_way_steps(ws, node, e as nat),
            decreases n - e,
        {
            let id = index.workspace().edges[e].id;
            if leads_wrong_way(index, node, e) {
                out.push(id);
            }
            e = e + 1;
            assert(out@ =~= before + wrong_way_steps(ws, node, e as nat));
        }
        i = i + 1;
    }
    assert(nodes@.take(i as int) =~= nodes@);
    out
}

fn leads_wrong_way(index: &WorkspaceIndex, node: Uuid, e: usize) -> (b: bool)
    requires
        e < index@.edges@.len(),
    ensures
        b == is_wrong_way(&index@, node, e as int),
{
    let ws = index.workspace();
    let edge = &ws.edges[e];
    match index.vertex_id(node) {
        Some(v) => edge.source < ws.nodes.len() && edge.target < ws.nodes.len() && (if edge.source
            == v {
            !allows_traversal_from_node(edge, true)
        } else {
            edge.target == v && !allows_traversal_from_node(edge, false)
        }),
        None => false,
    }
}

fn unique_ids(ids: &Vec<Uuid>) -> (out: Vec<Uuid>)
    ensures
        out@ == first_seen(ids@),
{
    let mut out: Vec<Uuid> = Vec::new();
    let mut seen: HashSet<Uuid> = HashSet::new();
    add_unseen(&mut out, &mut seen, ids, Ghost(Seq::empty()));
    assert(Seq::<Uuid>::empty() + ids@ =~= ids@);
    out
}

/// Whether an edge has to be claimed or is for some robots only, and whether the
/// speed limit on it is below one.
fn edge_traits(index: &WorkspaceIndex, id: Uuid) -> (r: (bool, bool))
    ensures
        r.0 == is_restricted_edge(&index@, id),
        r.1 == is_slow_edge(&index@, id),
{
    match index.edge(id) {
        Some(edge) => {
            let policies = list_edge_policies(index, id);
            let s = restrict_edge_semantics(&edge.properties, false, &policies);
            let restricted = s.requires_claim == Some(true) || s.access_group.is_some();
            let slow = match &s.speed_limit {
                Some(n) => n.value.less(Real::one()),
                None => false,
            };
            (restricted, slow)
        },
        None => (false, false),
    }
}

fn look_around(index: &WorkspaceIndex, nodes: &Vec<Uuid>) -> (r: (bool, bool))
    ensures
        r.0 == restricted_around(&index@, nodes@),
        r.1 == slow_around(&index@, nodes@),
{
    let ghost ws = &index@;
    let n: usize = index.workspace().edges.len();
    let mut restricted = false;
    let mut slow = false;
    let mut i: usize = 0;
    while i < nodes.len()
        invariant
            i <= nodes.len(),
            ws == &index@,
            n == ws.edges@.len(),
            restricted ==> restricted_around(ws, nodes@),
            slow ==> slow_around(ws, nodes@),
            forall|p: int, q: int|
                0 <= p < i && 0 <= q < n && #[trigger] open_step(ws, nodes@[p], q) ==> (
                is_restricted_edge(ws, ws.edges@[q].id) ==> restricted) && (is_slow_edge(
                    ws,
                    ws.edges@[q].id,
                ) ==> slow),
        decreases nodes.len() - i,
    {
        let node = nodes[i];
        let mut e: usize = 0;
        while e < n
            invariant
                i < nodes.len(),
                node == nodes@[i as int],
                e <= n,
                ws == &index@,
                n == ws.edges@.len(),
                restricted ==> restricted_around(ws, nodes@),
                slow ==> slow_around(ws, nodes@),
                forall|p: int, q: int|
                    (0 <= p < i && 0 <= q < n || p == i && 0 <= q < e) && #[trigger] open_step(
                        ws,
                        nodes@[p],
                        q,
                    ) ==> (is_restricted_edge(ws, ws.edges@[q].id) ==> restricted) && (
                    is_slow_edge(ws, ws.edges@[q].id) ==> slow),
            decreases n - e,
        {
            let id = index.workspace().edges[e].id;
            if find_step(index, node, e).is_some() && !is_edge_hard_blocked(index, id) {
                assert(open_step(ws, nodes@[i as int], e as int));
                let (r, s) = edge_traits(index, id);
                restricted = restricted || r;
                slow = slow || s;
            }
            e = e + 1;
        }
        i = i + 1;
    }
    (restricted, slow)
}

// ---------------------------------------------------------------------------
// failures
// ---------------------------------------------------------------------------

/// There is no such start.
pub open spec fn missing_start() -> RouteFailureView {
    RouteFailureView {
        kind: RouteFailureKind::MissingStartNode,
        message: "start node is not present in workspace graph"@,
        diagnostics: seq!["planner cannot start without a valid start node"@],
        ..blank_failure()
    }
}

/// There is no such goal.
pub open spec fn missing_goal() -> RouteFailureView {
    RouteFailureView {
        kind: RouteFailureKind::MissingGoalNode,
        message: "goal node is not present in workspace graph"@,
        diagnostics: seq!["planner cannot finish without a valid goal node"@],
        ..blank_failure()
    }
}

/// The closed edges that a blocked route is put down to: those around the nodes
/// that can be reached, and if there are none, those on the route that would be
/// taken if nothing were closed.
pub open spec fn blamed_edges(
    ws: &Workspace,
    start: Uuid,
    goal: Uuid,
    unconstrained: RouteSearchStateView,
    blocked: RouteSearchStateView,
) -> Seq<Uuid> {
    let around = closed_around(ws, reached_nodes(blocked, start));
    if around.len() > 0 {
        around
    } else {
        match edges_along(ws, route_nodes(unconstrained, start, goal)) {
            Some(edges) => closed_among(ws, edges),
            None => Seq::empty(),
        }
    }
}

/// What is told of a route that policy blocks.
pub open spec fn policy_diagnostics(restricted: bool, slow: bool) -> Seq<Seq<char>> {
    let a = if restricted {
        seq!["restricted resources were present on reachable alternatives but require claims"@]
    } else {
        Seq::empty()
    };
    let b = if slow {
        seq!["slowdown policies affect costs but do not hard-block planning"@]
    } else {
        Seq::empty()
    };
    a + b + seq!["blocked or restricted resources must be claimed; slowdown only increases cost"@]
}

/// The message for a route that policy blocks.
pub open spec fn policy_message(edges: nat, zones: nat) -> Seq<char> {
    if edges > 0 || zones > 0 {
        "route is blocked by traffic policy"@ + " ("@ + decimal_text(edges) + " blocked edge(s), "@
            + decimal_text(zones) + " blocked zone(s))"@
    } else {
        "route is blocked by traffic policy"@
    }
}

/// A route that policy blocks, given a search that heeds no blocks and one that
/// does.
pub open spec fn policy_block(
    ws: &Workspace,
    start: Uuid,
    goal: Uuid,
    unconstrained: RouteSearchStateView,
    blocked: RouteSearchStateView,
) -> RouteFailureView {
    let nodes = reached_nodes(blocked, start);
    let blamed = blamed_edges(ws, start, goal, unconstrained, blocked);
    let edges = first_seen(blamed);
    let zones = first_seen(closing_zones(ws, blamed));
    RouteFailureView {
        kind: RouteFailureKind::PolicyBlocked,
        message: policy_message(edges.len(), zones.len()),
        blocked_edge_ids: edges,
        blocked_zone_ids: zones,
        directionally_blocked_edge_ids: Seq::empty(),
        reachable_node_ids: nodes,
        diagnostics: policy_diagnostics(restricted_around(ws, nodes), slow_around(ws, nodes)),
    }
}

/// The message for a goal that cannot be reached.
pub open spec fn unreachable_message(nodes: nat, wrong_way: nat) -> Seq<char> {
    let head = "goal is unreachable from start after reaching "@ + decimal_text(nodes)
        + " node(s)"@;
    if wrong_way > 0 {
        head + " with "@ + decimal_text(wrong_way) + " direction-locked edge(s)"@
    } else {
        head
    }
}

/// A goal that cannot be reached even if nothing is closed, given a search that
/// heeds no blocks.
pub open spec fn out_of_reach(
    ws: &Workspace,
    start: Uuid,
    unconstrained: RouteSearchStateView,
) -> RouteFailureView {
    let nodes = reached_nodes(unconstrained, start);
    let wrong_way = first_seen(wrong_way_around(ws, nodes));
    RouteFailureView {
        kind: RouteFailureKind::Unreachable,
        message: unreachable_message(nodes.len(), wrong_way.len()),
        directionally_blocked_edge_ids: wrong_way,
        reachable_node_ids: nodes,
        diagnostics: seq![
            if wrong_way.len() > 0 {
                "reachable frontier is constrained by direction-locked edges"@
            } else {
                "no blocked edge was found; the graph is disconnected or lacks a legal path"@
            },
            "unreachable means no legal path exists even without applying hard traffic blocking"@,
        ],
        ..blank_failure()
    }
}

/// Whether a failure says why there is no route from one node to another: an end
/// is missing, policy blocks a route that would exist otherwise, or there is
/// none even if nothing is closed.
pub open spec fn is_diagnosis(
    ws: &Workspace,
    f: Costs,
    start: Uuid,
    goal: Uuid,
    failure: RouteFailureView,
) -> bool {
    let m = RouteCostModel::GraphWeight;
    if node_at(ws, start) is None {
        failure == missing_start()
    } else if node_at(ws, goal) is None {
        failure == missing_goal()
    } else if start == goal || reachable(ws, false, start, goal) {
        exists|u: RouteSearchStateView, b: RouteSearchStateView| #[trigger]
            is_outcome(ws, false, m, f, start, goal, u) && #[trigger] is_outcome(
                ws,
                true,
                m,
                f,
                start,
                goal,
                b,
            ) && failure == policy_block(ws, start, goal, u, b)
    } else {
        exists|u: RouteSearchStateView| #[trigger]
            is_outcome(ws, false, m, f, start, goal, u) && failure == out_of_reach(ws, start, u)
    }
}

fn one_line(s: &str) -> (v: Vec<String>)
    ensures
        views(v@) == seq![s@],
{
    let mut v: Vec<String> = Vec::new();
    v.push(s.to_owned());
    assert(views(v@) =~= seq![s@]);
    v
}

fn add_line(v: &mut Vec<String>, s: &str)
    ensures
        views(final(v)@) == views(old(v)@).push(s@),
{
    let line = s.to_owned();
    proof {
        lemma_views_push(v@, line);
    }
    v.push(line);
}

/// Describes a route that policy blocks.
pub fn describe_policy_block(
    index: &WorkspaceIndex,
    start: Uuid,
    goal: Uuid,
    unconstrained: &RouteSearchState,
    blocked: &RouteSearchState,
) -> (failure: RouteFailure)
    ensures
        failure@ == policy_block(&index@, start, goal, unconstrained@, blocked@),
{
    let ghost ws = &index@;
    let nodes = list_reached_nodes(blocked, start);
    let mut blamed = list_closed_around(index, &nodes);
    if blamed.len() == 0 {
        let route = reconstruct_route_nodes(unconstrained, start, goal);
        match extract_traversed_edge_ids_from_nodes(index, &route) {
            Ok(edges) => {
                blamed = list_closed_among(index, &edges);
            },
            Err(_) => {
                assert(blamed@ =~= Seq::empty());
            },
        }
    }
    let closing = list_closing_zones(index, &blamed);
    let edges = unique_ids(&blamed);
    let zones = unique_ids(&closing);
    let (restricted, slow) = look_around(index, &nodes);
    let mut diagnostics: Vec<String> = Vec::new();
    assert(views(diagnostics@) =~= Seq::empty());
    if restricted {
        add_line(
            &mut diagnostics,
            "restricted resources were present on reachable alternatives but require claims",
        );
    }
    if slow {
        add_line(
            &mut diagnostics,
            "slowdown policies affect costs but do not hard-block planning",
        );
    }
    add_line(
        &mut diagnostics,
        "blocked or restricted resources must be claimed; slowdown only increases cost",
    );
    assert(views(diagnostics@) =~= policy_diagnostics(restricted, slow));
    let mut message = "route is blocked by traffic policy".to_owned();
    if edges.len() > 0 || zones.len() > 0 {
        message.append(" (");
        message.append(decimal(edges.len() as u128).as_str());
        message.append(" blocked edge(s), ");
        message.append(decimal(zones.len() as u128).as_str());
        message.append(" blocked zone(s))");
    }
    RouteFailure {
        kind: RouteFailureKind::PolicyBlocked,
        message,
        blocked_edge_ids: edges,
        blocked_zone_ids: zones,
        directionally_blocked_edge_ids: Vec::new(),
        reachable_node_ids: nodes,
        diagnostics,
    }
}

/// Describes a goal that cannot be reached even if nothing is closed.
pub fn describe_unreachable(
    index: &WorkspaceIndex,
    start: Uuid,
    unconstrained: &RouteSearchState,
) -> (failure: RouteFailure)
    ensures
        failure@ == out_of_reach(&index@, start, unconstrained@),
{
    let nodes = list_reached_nodes(unconstrained, start);
    let around = list_wrong_way_around(index, &nodes);
    let wrong_way = unique_ids(&around);
    let mut message = joined3(
        "goal is unreachable from start after reaching ",
        decimal(nodes.len() as u128).as_str(),
        " node(s)",
    );
    if wrong_way.len() > 0 {
        message.append(" with ");
        message.append(decimal(wrong_way.len() as u128).as_str());
        message.append(" direction-locked edge(s)");
    }
    let mut diagnostics = if wrong_way.len() > 0 {
        one_line("reachable frontier is constrained by direction-locked edges")
    } else {
        one_line("no blocked edge was found; the graph is disconnected or lacks a legal path")
    };
    let ghost first = views(diagnostics@)[0];
    add_line(
        &mut diagnostics,
        "unreachable means no legal path exists even without applying hard traffic blocking",
    );
    assert(views(diagnostics@) =~= seq![
        first,
        "unreachable means no legal path exists even without applying hard traffic blocking"@,
    ]);
    let mut failure = RouteFailure::default();
    failure.message = message;
    failure.directionally_blocked_edge_ids = wrong_way;
    failure.reachable_node_ids = nodes;
    failure.diagnostics = diagnostics;
    failure
}

/// Says why there is no route from one node to another.
pub fn diagnose_route_failure<A: Fn(Real, Real) -> Real, P: Fn(PenaltyTerm) -> Real>(
    index: &WorkspaceIndex,
    start: Uuid,
    goal: Uuid,
    plus: &A,
    price: &P,
) -> (failure: RouteFailure)
    requires
        is_operation(*plus),
        is_pricing(*price),
    ensures
        is_diagnosis(&index@, route_costs(&index@, *plus, *price), start, goal, failure@),
{
    if index.node(start).is_none() {
        let mut failure = RouteFailure::default();
        failure.kind = RouteFailureKind::MissingStartNode;
        failure.message = "start node is not present in workspace graph".to_owned();
        failure.diagnostics = one_line("planner cannot start without a valid start node");
        return failure;
    }
    if index.node(goal).is_none() {
        let mut failure = RouteFailure::default();
        failure.kind = RouteFailureKind::MissingGoalNode;
        failure.message = "goal node is not present in workspace graph".to_owned();
        failure.diagnostics = one_line("planner cannot finish without a valid goal node");
        return failure;
    }
    let unconstrained = shortest_path_search(index, start, goal, plus, price);
    if unconstrained.found {
        let blocked = shortest_path_search_with_blocking(index, start, goal, plus, price);
        let failure = describe_policy_block(index, start, goal, &unconstrained, &blocked);
        assert(start == goal || reachable(&index@, false, start, goal));
        return failure;
    }
    describe_unreachable(index, start, &unconstrained)
}

// ---------------------------------------------------------------------------
// planning
// ---------------------------------------------------------------------------

/// A route that was found but cannot be made a plan of.
pub open spec fn planning_failure(message: Seq<char>) -> RouteFailureView {
    RouteFailureView {
        kind: RouteFailureKind::Unreachable,
        message,
        diagnostics: seq!["planner found a search path but route-plan reconstruction failed"@],
        ..blank_failure()
    }
}

/// What a route costs, with penalties or without.
pub open spec fn cost_model(use_penalties: bool) -> RouteCostModel {
    if use_penalties {
        RouteCostModel::Penalized
    } else {
        RouteCostModel::GraphWeight
    }
}

/// Plans a route over edges that are open to routes. There is either a plan or a
/// failure.
pub fn plan_route<A: Fn(Real, Real) -> Real, P: Fn(PenaltyTerm) -> Real>(
    index: &WorkspaceIndex,
    start: Uuid,
    goal: Uuid,
    use_penalties: bool,
    plus: &A,
    price: &P,
) -> (r: RoutePlanningResult)
    requires
        is_operation(*plus),
        is_pricing(*price),
    ensures
        is_outcome(
            &index@,
            true,
            cost_model(use_penalties),
            route_costs(&index@, *plus, *price),
            start,
            goal,
            r.search@,
        ),
        if !r.search@.found {
            r.plan is None && (r.failure matches Some(failure) && is_diagnosis(
                &index@,
                route_costs(&index@, *plus, *price),
                start,
                goal,
                failure@,
            ))
        } else {
            match plan_from_search(
                &index@,
                route_costs(&index@, *plus, *price),
                *plus,
                cost_model(use_penalties),
                start,
                goal,
                r.search@,
            ) {
                Ok(plan) => view_of(r.plan) == Some(plan) && r.failure is None,
                Err(e) => r.plan is None && view_of(r.failure) == Some(
                    planning_failure(error_text(e)),
                ),
            }
        },
{
    let search = if use_penalties {
        shortest_path_search_with_penalties(index, start, goal, plus, price)
    } else {
        shortest_path_search_with_blocking(index, start, goal, plus, price)
    };
    if !search.found {
        let failure = diagnose_route_failure(index, start, goal, plus, price);
        return RoutePlanningResult { search, plan: None, failure: Some(failure) };
    }
    let model = if use_penalties {
        RouteCostModel::Penalized
    } else {
        RouteCostModel::GraphWeight
    };
    match build_route_plan_from_search(index, &search, start, goal, model, plus, price) {
        Ok(plan) => RoutePlanningResult { search, plan: Some(plan), failure: None },
        Err(e) => {
            let mut failure = RouteFailure::default();
            failure.message = e.to_text();
            failure.diagnostics = one_line(
                "planner found a search path but route-plan reconstruction failed",
            );
            RoutePlanningResult { search, plan: None, failure: Some(failure) }
        },
    }
}

} // verus!
