//! The tables of steps, policies and containment hold what they should.

use super::contains_zone;
use super::tables::{
    backward, edge_ids, edge_stands, forward, list_at, node_ids, policy_at, steps_out, steps_over,
    zone_parents,
};
use super::walks::{is_ancestor_chain, lemma_chain_holds_ancestors};
use super::Adjacency;
use crate::guid::Uuid;
use crate::policy::parse::zone_policy_of;
use crate::workspace::{zone_at, Workspace};
use vstd::prelude::*;

verus! {

/// Whether a step stands in a list, and no other step over the same edge does.
pub open spec fn stands_once(list: Seq<Adjacency>, step: Adjacency) -> bool {
    exists|k: int|
        0 <= k < list.len() && #[trigger] list[k] == step && forall|j: int|
            0 <= j < list.len() && (#[trigger] list[j]).edge_id == step.edge_id ==> j == k
}

/// Whether a step out of a node is one over the edge at place `e`: forward from
/// its source, or backward from its target unless the edge is a loop.
pub open spec fn is_step_over(ws: &Workspace, from: Uuid, e: int, step: Adjacency) -> bool {
    let edge = &ws.edges[e];
    ||| ws.nodes@[edge.source as int].id == from && step == forward(ws, edge)
    ||| edge.source != edge.target && ws.nodes@[edge.target as int].id == from && step == backward(
        ws,
        edge,
    )
}

/// Whether a step out of a node is one over one of the first `n` edges.
pub open spec fn is_step_over_some(ws: &Workspace, from: Uuid, n: nat, step: Adjacency) -> bool {
    exists|e: int| 0 <= e < n && #[trigger] is_step_over(ws, from, e, step)
}

/// The steps out of a node over the edge at place `e`, in their order.
spec fn steps_of(ws: &Workspace, from: Uuid, e: int) -> Seq<Adjacency> {
    let edge = &ws.edges[e];
    let there = if ws.nodes@[edge.source as int].id == from {
        seq![forward(ws, edge)]
    } else {
        Seq::empty()
    };
    if edge.source != edge.target && ws.nodes@[edge.target as int].id == from {
        there.push(backward(ws, edge))
    } else {
        there
    }
}

proof fn lemma_steps_grow(ws: &Workspace, n: nat, from: Uuid)
    requires
        n < ws.edges@.len(),
        edge_stands(ws, &ws.edges[n as int]),
    ensures
        list_at(steps_over(ws, n + 1), from) == list_at(steps_over(ws, n), from) + steps_of(
            ws,
            from,
            n as int,
        ),
{
    assert(list_at(steps_over(ws, n + 1), from) =~= list_at(steps_over(ws, n), from) + steps_of(
        ws,
        from,
        n as int,
    ));
}

/// Every step over the first edges is one over one of them.
proof fn lemma_steps_have_edges(ws: &Workspace, n: nat, from: Uuid)
    requires
        n <= ws.edges@.len(),
        forall|i: int| 0 <= i < ws.edges@.len() ==> edge_stands(ws, &#[trigger] ws.edges@[i]),
    ensures
        forall|k: int|
            0 <= k < list_at(steps_over(ws, n), from).len() ==> is_step_over_some(
                ws,
                from,
                n,
                #[trigger] list_at(steps_over(ws, n), from)[k],
            ),
    decreases n,
{
    let list = list_at(steps_over(ws, n), from);
    if n > 0 {
        let m = (n - 1) as nat;
        assert(edge_stands(ws, &ws.edges@[m as int]));
        lemma_steps_have_edges(ws, m, from);
        lemma_steps_grow(ws, m, from);
        let before = list_at(steps_over(ws, m), from);
        assert forall|k: int| 0 <= k < list.len() implies is_step_over_some(
            ws,
            from,
            n,
            #[trigger] list[k],
        ) by {
            if k < before.len() {
                assert(list[k] == before[k]);
                assert(is_step_over_some(ws, from, m, before[k]));
            } else {
                assert(list[k] == steps_of(ws, from, m as int)[k - before.len()]);
                assert(is_step_over(ws, from, m as int, list[k]));
            }
        }
    }
}

proof fn lemma_step_stands_once(ws: &Workspace, n: nat, from: Uuid, e: int, step: Adjacency)
    requires
        e < n <= ws.edges@.len(),
        0 <= e,
        forall|i: int| 0 <= i < ws.edges@.len() ==> edge_stands(ws, &#[trigger] ws.edges@[i]),
        node_ids(ws).no_duplicates(),
        edge_ids(ws).no_duplicates(),
        is_step_over(ws, from, e, step),
    ensures
        stands_once(list_at(steps_over(ws, n), from), step),
    decreases n,
{
    let m = (n - 1) as nat;
    let ids = edge_ids(ws);
    let nodes = node_ids(ws);
    assert(edge_stands(ws, &ws.edges@[m as int]));
    lemma_steps_grow(ws, m, from);
    lemma_steps_have_edges(ws, m, from);
    let before = list_at(steps_over(ws, m), from);
    let fresh = steps_of(ws, from, m as int);
    let list = list_at(steps_over(ws, n), from);
    assert(fresh.len() <= 1) by {
        let edge = &ws.edges[m as int];
        if fresh.len() > 1 {
            assert(nodes[edge.source as int] == from && nodes[edge.target as int] == from);
        }
    }
    if e == m {
        let k = before.len() as int;
        assert(list[k] == fresh[0]);
        assert(fresh[0] == step) by {
            let edge = &ws.edges[m as int];
            if ws.nodes@[edge.source as int].id == from && edge.source != edge.target
                && ws.nodes@[edge.target as int].id == from {
                assert(nodes[edge.source as int] == nodes[edge.target as int]);
            }
        }
        assert forall|j: int|
            0 <= j < list.len() && (#[trigger] list[j]).edge_id == step.edge_id implies j == k by {
            if j < k {
                assert(list[j] == before[j]);
                assert(is_step_over_some(ws, from, m, before[j]));
                let d = choose|d: int| 0 <= d < m && #[trigger] is_step_over(ws, from, d, before[j]);
                assert(ids[d] == ids[m as int]);
            }
        }
    } else {
        lemma_step_stands_once(ws, m, from, e, step);
        let k = choose|k: int|
            0 <= k < before.len() && #[trigger] before[k] == step && forall|j: int|
                0 <= j < before.len() && (#[trigger] before[j]).edge_id == step.edge_id ==> j == k;
        assert(list[k] == step);
        assert forall|j: int|
            0 <= j < list.len() && (#[trigger] list[j]).edge_id == step.edge_id implies j == k by {
            if j < before.len() {
                assert(list[j] == before[j]);
            } else {
                assert(list[j] == fresh[j - before.len()]);
                assert(ids[e] == ids[m as int]);
            }
        }
    }
}

/// Where no two nodes and no two edges share an identifier and every edge has
/// both ends, each edge gives one step out of its source and one out of its
/// target, and a loop gives just one.
pub proof fn lemma_each_end_has_one_step(ws: &Workspace, e: int)
    requires
        0 <= e < ws.edges@.len(),
        forall|i: int| 0 <= i < ws.edges@.len() ==> edge_stands(ws, &#[trigger] ws.edges@[i]),
        node_ids(ws).no_duplicates(),
        edge_ids(ws).no_duplicates(),
    ensures
        ({
            let edge = &ws.edges[e];
            let source = ws.nodes@[edge.source as int].id;
            let target = ws.nodes@[edge.target as int].id;
            &&& stands_once(list_at(steps_out(ws), source), forward(ws, edge))
            &&& edge.source != edge.target ==> source != target && stands_once(
                list_at(steps_out(ws), target),
                backward(ws, edge),
            )
        }),
{
    let edge = &ws.edges[e];
    let source = ws.nodes@[edge.source as int].id;
    let target = ws.nodes@[edge.target as int].id;
    assert(edge_stands(ws, &ws.edges@[e]));
    lemma_step_stands_once(ws, ws.edges@.len(), source, e, forward(ws, edge));
    if edge.source != edge.target {
        let nodes = node_ids(ws);
        assert(nodes[edge.source as int] != nodes[edge.target as int]);
        lemma_step_stands_once(ws, ws.edges@.len(), target, e, backward(ws, edge));
    }
}

/// Where every edge has both ends, there are no other steps: each one out of a
/// node is over an edge that has an end there.
pub proof fn lemma_no_other_steps(ws: &Workspace, from: Uuid, k: int)
    requires
        forall|i: int| 0 <= i < ws.edges@.len() ==> edge_stands(ws, &#[trigger] ws.edges@[i]),
        0 <= k < list_at(steps_out(ws), from).len(),
    ensures
        is_step_over_some(ws, from, ws.edges@.len(), list_at(steps_out(ws), from)[k]),
{
    lemma_steps_have_edges(ws, ws.edges@.len(), from);
}

/// The policy on record for a zone is the one that its properties state, and one
/// zone contains another exactly if it is that zone or among those around it.
pub proof fn lemma_zones_on_record(ws: &Workspace, outer: Uuid, id: Uuid, around: Seq<Uuid>)
    requires
        is_ancestor_chain(zone_parents(ws), id, around),
    ensures
        zone_at(ws, id) matches Some(zone) ==> policy_at(ws, id) == Some(
            zone_policy_of(zone.properties@),
        ),
        contains_zone(ws, outer, id) <==> outer == id || around.contains(outer),
{
    lemma_chain_holds_ancestors(zone_parents(ws), id, around);
}

} // verus!
