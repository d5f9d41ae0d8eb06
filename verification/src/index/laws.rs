//! What holds of the index as a whole.

use super::descendants;
use super::tables::{
    children_in, edge_at, edge_ids, first_seen, lemma_first_seen, lemma_places,
    lemma_take_contains, lemma_zone_order, list_at, looked_up, node_at, node_ids, parents_in,
    places, repeated, walk_ids, zone_children, zone_order, zone_parents, zone_walk,
};
use super::validation::{
    all_edge_issues, all_node_issues, all_zone_issues, edge_issues, edge_member_issue,
    edge_member_issues, missing_id_issues, node_issues, node_member_issues, place_is_in,
    reference_issues, uniqueness_issues, workspace_issues, zone_issues, zone_member_issue,
    zone_member_issues,
};
use super::walks::{below, climb, inside_all, is_ancestor, lemma_parents_in};
use crate::guid::Uuid;
use crate::workspace::{walk, walk_children, zone_at, CoordMode, Edge, Workspace, Zone};
use vstd::prelude::*;

verus! {

// ---------------------------------------------------------------------------
// finding
// ---------------------------------------------------------------------------

/// A node is found by an identifier exactly if some node has it. What is found
/// has it, and is the first that does unless it is the null identifier.
pub proof fn lemma_node_found(ws: &Workspace, id: Uuid)
    ensures
        node_at(ws, id) is Some <==> exists|i: int|
            0 <= i < ws.nodes@.len() && (#[trigger] ws.nodes@[i]).id == id,
        node_at(ws, id) matches Some(n) ==> n.id == id && (id != 0 ==> exists|i: int|
            0 <= i < ws.nodes@.len() && *n == #[trigger] ws.nodes@[i] && forall|j: int|
                0 <= j < i ==> (#[trigger] ws.nodes@[j]).id != id),
{
    let ids = node_ids(ws);
    assert(ids.len() == ws.nodes.len());
    lemma_places(ids);
    if places(ids).dom().contains(id) {
        let i = places(ids)[id] as int;
        assert(ids[i] == id);
        assert(ws.nodes@[i].id == id);
        if id != 0 {
            assert forall|j: int| 0 <= j < i implies (#[trigger] ws.nodes@[j]).id != id by {
                assert(ids[j] != id);
            }
        }
    }
    if exists|i: int| 0 <= i < ws.nodes@.len() && (#[trigger] ws.nodes@[i]).id == id {
        let i = choose|i: int| 0 <= i < ws.nodes@.len() && (#[trigger] ws.nodes@[i]).id == id;
        assert(ids[i] == id);
        assert(ids.contains(id));
    }
}

/// An edge is found by an identifier exactly if some edge has it. What is found
/// has it, and is the first that does unless it is the null identifier.
pub proof fn lemma_edge_found(ws: &Workspace, id: Uuid)
    ensures
        edge_at(ws, id) is Some <==> exists|i: int|
            0 <= i < ws.edges@.len() && (#[trigger] ws.edges@[i]).id == id,
        edge_at(ws, id) matches Some(e) ==> e.id == id && (id != 0 ==> exists|i: int|
            0 <= i < ws.edges@.len() && *e == #[trigger] ws.edges@[i] && forall|j: int|
                0 <= j < i ==> (#[trigger] ws.edges@[j]).id != id),
{
    let ids = edge_ids(ws);
    assert(ids.len() == ws.edges.len());
    lemma_places(ids);
    if places(ids).dom().contains(id) {
        let i = places(ids)[id] as int;
        assert(ids[i] == id);
        assert(ws.edges@[i].id == id);
        if id != 0 {
            assert forall|j: int| 0 <= j < i implies (#[trigger] ws.edges@[j]).id != id by {
                assert(ids[j] != id);
            }
        }
    }
    if exists|i: int| 0 <= i < ws.edges@.len() && (#[trigger] ws.edges@[i]).id == id {
        let i = choose|i: int| 0 <= i < ws.edges@.len() && (#[trigger] ws.edges@[i]).id == id;
        assert(ids[i] == id);
        assert(ids.contains(id));
    }
}

// ---------------------------------------------------------------------------
// validity
// ---------------------------------------------------------------------------

proof fn lemma_none_repeated(ids: Seq<Uuid>, with_null: bool)
    requires
        repeated(ids, with_null).len() == 0,
    ensures
        forall|i: int, j: int|
            0 <= i < j < ids.len() && #[trigger] ids[i] == #[trigger] ids[j] ==> !with_null
                && ids[i] == 0,
    decreases ids.len(),
{
    if ids.len() > 0 {
        let rest = ids.drop_last();
        let last = ids.last();
        assert(repeated(rest, with_null).len() == 0);
        lemma_none_repeated(rest, with_null);
        assert forall|i: int, j: int|
            0 <= i < j < ids.len() && #[trigger] ids[i] == #[trigger] ids[j] implies !with_null
            && ids[i] == 0 by {
            assert(rest[i] == ids[i]);
            if j < rest.len() {
                assert(rest[j] == ids[j]);
            } else {
                assert(rest.contains(last));
                assert(!repeated(rest, with_null).contains(last));
            }
        }
    }
}

proof fn lemma_no_zone_issues(ws: &Workspace, ids: Seq<Uuid>, i: int)
    requires
        all_zone_issues(ws, ids).len() == 0,
        0 <= i < ids.len(),
    ensures
        zone_issues(ws, ids[i]).len() == 0,
    decreases ids.len(),
{
    if i < ids.len() - 1 {
        lemma_no_zone_issues(ws, ids.drop_last(), i);
    }
}

proof fn lemma_no_node_issues(ws: &Workspace, ids: Seq<Uuid>, i: int)
    requires
        all_node_issues(ws, ids).len() == 0,
        0 <= i < ids.len(),
    ensures
        node_issues(ws, ids[i]).len() == 0,
    decreases ids.len(),
{
    if i < ids.len() - 1 {
        lemma_no_node_issues(ws, ids.drop_last(), i);
    }
}

proof fn lemma_no_edge_issues(ws: &Workspace, ids: Seq<Uuid>, i: int)
    requires
        all_edge_issues(ws, ids).len() == 0,
        0 <= i < ids.len(),
    ensures
        edge_issues(ws, ids[i]).len() == 0,
    decreases ids.len(),
{
    if i < ids.len() - 1 {
        lemma_no_edge_issues(ws, ids.drop_last(), i);
    }
}

proof fn lemma_no_zone_member_issues(ws: &Workspace, zone: Uuid, nodes: Seq<Uuid>, i: int)
    requires
        zone_member_issues(ws, zone, nodes).len() == 0,
        0 <= i < nodes.len(),
    ensures
        zone_member_issue(ws, zone, nodes[i]) is None,
    decreases nodes.len(),
{
    if i < nodes.len() - 1 {
        lemma_no_zone_member_issues(ws, zone, nodes.drop_last(), i);
    }
}

proof fn lemma_no_node_member_issues(ws: &Workspace, node: Uuid, zones: Seq<Uuid>, i: int)
    requires
        node_member_issues(ws, node, zones).len() == 0,
        0 <= i < zones.len(),
    ensures
        zone_at(ws, zones[i]) is Some,
    decreases zones.len(),
{
    if i < zones.len() - 1 {
        lemma_no_node_member_issues(ws, node, zones.drop_last(), i);
    }
}

proof fn lemma_no_edge_member_issues(
    ws: &Workspace,
    id: Uuid,
    edge: &Edge,
    zones: Seq<Uuid>,
    i: int,
)
    requires
        edge_member_issues(ws, id, edge, zones).len() == 0,
        0 <= i < zones.len(),
    ensures
        edge_member_issue(ws, id, edge, zones[i]) is None,
    decreases zones.len(),
{
    if i < zones.len() - 1 {
        lemma_no_edge_member_issues(ws, id, edge, zones.drop_last(), i);
    }
}

/// Whether a zone and the nodes that it lists agree on who belongs to whom.
pub open spec fn zone_agrees(ws: &Workspace, zone: &Zone) -> bool {
    forall|k: int|
        0 <= k < zone.node_ids@.len() ==> (node_at(ws, #[trigger] zone.node_ids@[k]) matches Some(n)
            && n.zone_ids@.contains(zone.id))
}

/// Whether every zone that an edge lists is there and holds an end of the edge.
pub open spec fn edge_agrees(ws: &Workspace, edge: &Edge) -> bool {
    forall|k: int|
        0 <= k < edge.zone_ids@.len() ==> zone_at(ws, #[trigger] edge.zone_ids@[k]) is Some && (
        place_is_in(ws, edge.source, edge.zone_ids@[k]) || place_is_in(
            ws,
            edge.target,
            edge.zone_ids@[k],
        ))
}

/// In a workspace about which nothing is found, the reference origin fits the
/// coordinates, no two zones and no two nodes share an identifier, and none is
/// null.
pub proof fn lemma_valid_identifiers(ws: &Workspace)
    requires
        workspace_issues(ws).len() == 0,
    ensures
        ws.coord_mode == CoordMode::Local <==> ws.datum is Some,
        walk_ids(zone_walk(ws)).no_duplicates(),
        node_ids(ws).no_duplicates(),
        edge_ids(ws).no_duplicates(),
        !walk_ids(zone_walk(ws)).contains(0),
        !node_ids(ws).contains(0),
        !edge_ids(ws).contains(0),
{
    let zones = walk_ids(zone_walk(ws));
    let nodes = node_ids(ws);
    let edges = edge_ids(ws);
    assert(reference_issues(ws).len() == 0);
    assert(uniqueness_issues(ws).len() == 0);
    assert(repeated(zones, true).len() == 0);
    assert(repeated(nodes, false).len() == 0);
    assert(repeated(edges, false).len() == 0);
    lemma_none_repeated(zones, true);
    lemma_none_repeated(nodes, false);
    lemma_none_repeated(edges, false);
    lemma_first_seen(zones);
    lemma_first_seen(nodes);
    lemma_first_seen(edges);
    if zones.contains(0) {
        let order = zone_order(ws);
        assert(order.contains(0));
        let i = choose|i: int| 0 <= i < order.len() && order[i] == 0;
        lemma_no_zone_issues(ws, order, i);
        lemma_zone_order(ws, 0);
        let zone = zone_at(ws, 0).unwrap();
        assert(missing_id_issues(zone.id, "zone"@, "zone is missing a non-null id"@).len() == 0);
    }
    if nodes.contains(0) {
        let order = first_seen(nodes);
        assert(order.contains(0));
        let i = choose|i: int| 0 <= i < order.len() && order[i] == 0;
        lemma_no_node_issues(ws, order, i);
        let k = choose|k: int| 0 <= k < nodes.len() && nodes[k] == 0;
        assert(ws.nodes@[k].id == 0);
        lemma_node_found(ws, 0);
        assert(missing_id_issues(0, "node"@, "node is missing a non-null id"@).len() == 0);
    }
    if edges.contains(0) {
        let order = first_seen(edges);
        assert(order.contains(0));
        let i = choose|i: int| 0 <= i < order.len() && order[i] == 0;
        lemma_no_edge_issues(ws, order, i);
        let k = choose|k: int| 0 <= k < edges.len() && edges[k] == 0;
        assert(ws.edges@[k].id == 0);
        lemma_edge_found(ws, 0);
        assert(missing_id_issues(0, "edge"@, "edge is missing a non-null id"@).len() == 0);
    }
    assert(nodes.no_duplicates()) by {
        assert forall|i: int, j: int| 0 <= i < j < nodes.len() implies nodes[i] != nodes[j] by {
            if nodes[i] == nodes[j] {
                assert(nodes.contains(nodes[i]));
            }
        }
    }
    assert(edges.no_duplicates()) by {
        assert forall|i: int, j: int| 0 <= i < j < edges.len() implies edges[i] != edges[j] by {
            if edges[i] == edges[j] {
                assert(edges.contains(edges[i]));
            }
        }
    }
}

/// In a workspace about which nothing is found, everyone agrees on who belongs to
/// whom: zones with the nodes that they list, nodes with the zones that they
/// list, and edges with the zones that they list and with their ends.
pub proof fn lemma_valid_memberships(ws: &Workspace, id: Uuid)
    requires
        workspace_issues(ws).len() == 0,
    ensures
        zone_at(ws, id) matches Some(zone) ==> zone_agrees(ws, zone),
        node_at(ws, id) matches Some(node) ==> forall|k: int|
            0 <= k < node.zone_ids@.len() ==> zone_at(ws, #[trigger] node.zone_ids@[k]) is Some,
        edge_at(ws, id) matches Some(edge) ==> edge_agrees(ws, edge),
{
    lemma_zone_order(ws, id);
    if let Some(zone) = zone_at(ws, id) {
        let order = zone_order(ws);
        let i = choose|i: int| 0 <= i < order.len() && order[i] == id;
        lemma_no_zone_issues(ws, order, i);
        assert(zone_member_issues(ws, id, zone.node_ids@).len() == 0);
        assert forall|k: int| 0 <= k < zone.node_ids@.len() implies (node_at(
            ws,
            #[trigger] zone.node_ids@[k],
        ) matches Some(n) && n.zone_ids@.contains(zone.id)) by {
            lemma_no_zone_member_issues(ws, id, zone.node_ids@, k);
        }
    }
    lemma_first_seen(node_ids(ws));
    lemma_node_found(ws, id);
    if let Some(node) = node_at(ws, id) {
        let order = first_seen(node_ids(ws));
        let n = choose|n: int| 0 <= n < ws.nodes@.len() && (#[trigger] ws.nodes@[n]).id == id;
        assert(node_ids(ws)[n] == id);
        assert(node_ids(ws).contains(id));
        assert(order.contains(id));
        let i = choose|i: int| 0 <= i < order.len() && order[i] == id;
        lemma_no_node_issues(ws, order, i);
        assert forall|k: int| 0 <= k < node.zone_ids@.len() implies zone_at(
            ws,
            #[trigger] node.zone_ids@[k],
        ) is Some by {
            lemma_no_node_member_issues(ws, id, node.zone_ids@, k);
        }
    }
    lemma_first_seen(edge_ids(ws));
    lemma_edge_found(ws, id);
    if let Some(edge) = edge_at(ws, id) {
        let order = first_seen(edge_ids(ws));
        let n = choose|n: int| 0 <= n < ws.edges@.len() && (#[trigger] ws.edges@[n]).id == id;
        assert(edge_ids(ws)[n] == id);
        assert(edge_ids(ws).contains(id));
        assert(order.contains(id));
        let i = choose|i: int| 0 <= i < order.len() && order[i] == id;
        lemma_no_edge_issues(ws, order, i);
        assert forall|k: int| 0 <= k < edge.zone_ids@.len() implies zone_at(
            ws,
            #[trigger] edge.zone_ids@[k],
        ) is Some && (place_is_in(ws, edge.source, edge.zone_ids@[k]) || place_is_in(
            ws,
            edge.target,
            edge.zone_ids@[k],
        )) by {
            lemma_no_edge_member_issues(ws, id, edge, edge.zone_ids@, k);
        }
    }
}

// ---------------------------------------------------------------------------
// parents and children
// ---------------------------------------------------------------------------

/// Whether a walk comes to a zone with the given zone around it.
pub open spec fn linked(visits: Seq<(&Zone, Option<Uuid>)>, parent: Uuid, child: Uuid) -> bool {
    exists|i: int|
        0 <= i < visits.len() && (#[trigger] visits[i]).0.id == child && visits[i].1 == Some(parent)
}

proof fn lemma_children_in(visits: Seq<(&Zone, Option<Uuid>)>, parent: Uuid, child: Uuid)
    ensures
        list_at(children_in(visits), parent).contains(child) <==> linked(visits, parent, child),
    decreases visits.len(),
{
    if visits.len() > 0 {
        let rest = visits.drop_last();
        let last = visits.last();
        lemma_children_in(rest, parent, child);
        let before = list_at(children_in(rest), parent);
        let after = list_at(children_in(visits), parent);
        if linked(rest, parent, child) {
            let i = choose|i: int|
                0 <= i < rest.len() && (#[trigger] rest[i]).0.id == child && rest[i].1 == Some(
                    parent,
                );
            assert(visits[i].0.id == child);
        }
        if linked(visits, parent, child) && !linked(rest, parent, child) {
            let i = choose|i: int|
                0 <= i < visits.len() && (#[trigger] visits[i]).0.id == child && visits[i].1
                    == Some(parent);
            if i < rest.len() {
                assert(rest[i].0.id == child);
            }
            assert(last.0.id == child && last.1 == Some(parent));
        }
        if last.1 == Some(parent) {
            assert(after =~= before.push(last.0.id));
            if before.contains(child) {
                let k = choose|k: int| 0 <= k < before.len() && before[k] == child;
                assert(after[k] == child);
            }
            if after.contains(child) {
                let k = choose|k: int| 0 <= k < after.len() && after[k] == child;
                if k < before.len() {
                    assert(before[k] == child);
                } else {
                    assert(visits[visits.len() - 1].0.id == child);
                }
            }
            if last.0.id == child {
                assert(after[before.len() as int] == child);
            }
        } else {
            assert(after == before);
        }
    }
}

/// Where no two zones share an identifier, one zone is listed inside another one
/// exactly if the other one is the zone around it.
pub proof fn lemma_children_match_parents(ws: &Workspace, parent: Uuid, child: Uuid)
    requires
        walk_ids(zone_walk(ws)).no_duplicates(),
    ensures
        list_at(zone_children(ws), parent).contains(child) <==> looked_up(zone_parents(ws), child)
            == Some(parent),
{
    let visits = zone_walk(ws);
    let ids = walk_ids(visits);
    lemma_children_in(visits, parent, child);
    if zone_parents(ws).dom().contains(child) {
        lemma_parents_in(visits, child);
    }
    if linked(visits, parent, child) {
        let i = choose|i: int|
            0 <= i < visits.len() && (#[trigger] visits[i]).0.id == child && visits[i].1 == Some(
                parent,
            );
        lemma_parent_known(visits, i);
        let j = choose|j: int|
            0 <= j < visits.len() && (#[trigger] visits[j]).0.id == child && visits[j].1 == Some(
                parents_in(visits)[child],
            );
        assert(ids[i] == child && ids[j] == child);
    }
}

proof fn lemma_parent_known(visits: Seq<(&Zone, Option<Uuid>)>, i: int)
    requires
        0 <= i < visits.len(),
        visits[i].1 is Some,
    ensures
        parents_in(visits).dom().contains(visits[i].0.id),
    decreases visits.len(),
{
    if i < visits.len() - 1 {
        lemma_parent_known(visits.drop_last(), i);
        assert(visits.drop_last()[i] == visits[i]);
    }
}

proof fn lemma_inside_all(children: Map<Uuid, Seq<Uuid>>, ids: Seq<Uuid>, x: Uuid)
    ensures
        inside_all(children, ids).contains(x) <==> exists|p: Uuid| #[trigger]
            ids.contains(p) && list_at(children, p).contains(x),
    decreases ids.len(),
{
    if ids.len() > 0 {
        let rest = ids.drop_last();
        let last = ids.last();
        lemma_inside_all(children, rest, x);
        let a = inside_all(children, rest);
        let b = list_at(children, last);
        assert((a + b).contains(x) <==> a.contains(x) || b.contains(x)) by {
            if a.contains(x) {
                let k = choose|k: int| 0 <= k < a.len() && a[k] == x;
                assert((a + b)[k] == x);
            }
            if b.contains(x) {
                let k = choose|k: int| 0 <= k < b.len() && b[k] == x;
                assert((a + b)[a.len() + k] == x);
            }
            if (a + b).contains(x) {
                let k = choose|k: int| 0 <= k < (a + b).len() && (a + b)[k] == x;
                if k < a.len() {
                    assert(a[k] == x);
                } else {
                    assert(b[k - a.len()] == x);
                }
            }
        }
        assert forall|p: Uuid| ids.contains(p) <==> rest.contains(p) || p == last by {
            assert(ids.take(ids.len() as int) =~= ids);
            assert(ids.take(ids.len() - 1) =~= rest);
            lemma_take_contains(ids, ids.len() - 1, p);
        }
        if a.contains(x) {
            let p = choose|p: Uuid| #[trigger] rest.contains(p) && list_at(children, p).contains(x);
            assert(ids.contains(p));
        }
        if b.contains(x) {
            assert(ids.contains(last));
        }
        if exists|p: Uuid| #[trigger] ids.contains(p) && list_at(children, p).contains(x) {
            let p = choose|p: Uuid| #[trigger] ids.contains(p) && list_at(children, p).contains(x);
            if p != last {
                assert(rest.contains(p));
            }
        }
    }
}

/// Whether one of a list of zones is between one and `depth` steps up.
spec fn above_within(
    parents: Map<Uuid, Uuid>,
    x: Uuid,
    ids: Seq<Uuid>,
    depth: nat,
) -> bool {
    exists|n: nat|
        1 <= n <= depth && (#[trigger] climb(parents, x, n) matches Some(p) && ids.contains(p))
}

proof fn lemma_climb_on(parents: Map<Uuid, Uuid>, x: Uuid, m: nat, n: nat)
    ensures
        climb(parents, x, m + n) == match climb(parents, x, m) {
            Some(y) => climb(parents, y, n),
            None => None,
        },
    decreases n,
{
    if n > 0 {
        lemma_climb_on(parents, x, m, (n - 1) as nat);
    }
}

proof fn lemma_below_is_above(
    ws: &Workspace,
    ids: Seq<Uuid>,
    depth: nat,
    x: Uuid,
)
    requires
        walk_ids(zone_walk(ws)).no_duplicates(),
    ensures
        below(zone_children(ws), ids, depth).contains(x) <==> above_within(
            zone_parents(ws),
            x,
            ids,
            depth,
        ),
    decreases depth,
{
    let children = zone_children(ws);
    let parents = zone_parents(ws);
    if depth > 0 {
        let inner = inside_all(children, ids);
        let deep = below(children, inner, (depth - 1) as nat);
        lemma_below_is_above(ws, inner, (depth - 1) as nat, x);
        lemma_inside_all(children, ids, x);
        assert((inner + deep).contains(x) <==> inner.contains(x) || deep.contains(x)) by {
            if inner.contains(x) {
                let k = choose|k: int| 0 <= k < inner.len() && inner[k] == x;
                assert((inner + deep)[k] == x);
            }
            if deep.contains(x) {
                let k = choose|k: int| 0 <= k < deep.len() && deep[k] == x;
                assert((inner + deep)[inner.len() + k] == x);
            }
            if (inner + deep).contains(x) {
                let k = choose|k: int| 0 <= k < (inner + deep).len() && (inner + deep)[k] == x;
                if k < inner.len() {
                    assert(inner[k] == x);
                } else {
                    assert(deep[k - inner.len()] == x);
                }
            }
        }
        reveal_with_fuel(climb, 2);
        if inner.contains(x) {
            let p = choose|p: Uuid| #[trigger] ids.contains(p) && list_at(children, p).contains(x);
            lemma_children_match_parents(ws, p, x);
            assert(climb(parents, x, 1) == Some(p));
        }
        if deep.contains(x) {
            let n = choose|n: nat|
                1 <= n <= depth - 1 && (#[trigger] climb(parents, x, n) matches Some(q)
                    && inner.contains(q));
            let q = climb(parents, x, n).unwrap();
            lemma_inside_all(children, ids, q);
            let p = choose|p: Uuid| #[trigger] ids.contains(p) && list_at(children, p).contains(q);
            lemma_children_match_parents(ws, p, q);
            assert(climb(parents, x, n + 1) == Some(p));
        }
        if above_within(parents, x, ids, depth) {
            let n = choose|n: nat|
                1 <= n <= depth && (#[trigger] climb(parents, x, n) matches Some(p) && ids.contains(
                    p,
                ));
            let p = climb(parents, x, n).unwrap();
            let q = climb(parents, x, (n - 1) as nat).unwrap();
            assert(looked_up(parents, q) == Some(p));
            lemma_children_match_parents(ws, p, q);
            lemma_inside_all(children, ids, q);
            assert(inner.contains(q));
            if n == 1 {
                assert(q == x);
            } else {
                assert(climb(parents, x, (n - 1) as nat) == Some(q));
                assert(above_within(parents, x, inner, (depth - 1) as nat));
            }
        }
    }
}

/// The least number of steps up from one zone to another one is no more than
/// there are zones.
proof fn lemma_short_climb(ws: &Workspace, x: Uuid, a: Uuid, n: nat) -> (m: nat)
    requires
        n >= 1,
        climb(zone_parents(ws), x, n) == Some(a),
    ensures
        1 <= m <= zone_order(ws).len(),
        climb(zone_parents(ws), x, m) == Some(a),
    decreases n,
{
    let parents = zone_parents(ws);
    let order = zone_order(ws);
    if exists|i: nat, j: nat|
        1 <= i < j <= n && #[trigger] climb(parents, x, i) == #[trigger] climb(parents, x, j) {
        let (i, j) = choose|i: nat, j: nat|
            1 <= i < j <= n && #[trigger] climb(parents, x, i) == #[trigger] climb(parents, x, j);
        let rest = (n - j) as nat;
        lemma_climb_on(parents, x, j, rest);
        lemma_climb_on(parents, x, i, rest);
        assert(climb(parents, x, i + rest) == climb(parents, x, j + rest));
        lemma_short_climb(ws, x, a, i + rest)
    } else {
        let chain = Seq::new(n, |k: int| climb(parents, x, (k + 1) as nat).unwrap());
        assert forall|k: nat| 1 <= k <= n implies #[trigger] climb(parents, x, k) is Some by {
            lemma_climb_reaches(parents, x, k, n);
        }
        assert(chain.no_duplicates()) by {
            assert forall|i: int, j: int| 0 <= i < j < chain.len() implies chain[i] != chain[j] by {
                let p = (i + 1) as nat;
                let q = (j + 1) as nat;
                assert(climb(parents, x, p) is Some);
                assert(climb(parents, x, q) is Some);
                if chain[i] == chain[j] {
                    assert(climb(parents, x, p) == climb(parents, x, q));
                }
            }
        }
        assert(chain.to_set().subset_of(order.to_set())) by {
            assert forall|y: Uuid| chain.to_set().contains(y) implies order.to_set().contains(y) by {
                let k = choose|k: int| 0 <= k < chain.len() && chain[k] == y;
                let lower = climb(parents, x, k as nat);
                assert(climb(parents, x, (k + 1) as nat) is Some);
                assert(lower is Some);
                super::walks::lemma_parent_stands(ws, lower.unwrap());
            }
        }
        chain.unique_seq_to_set();
        order.lemma_cardinality_of_set();
        vstd::set_lib::lemma_len_subset(chain.to_set(), order.to_set());
        n
    }
}

proof fn lemma_climb_reaches(parents: Map<Uuid, Uuid>, x: Uuid, k: nat, n: nat)
    requires
        k <= n,
        climb(parents, x, n) is Some,
    ensures
        climb(parents, x, k) is Some,
    decreases n - k,
{
    if k < n {
        lemma_climb_reaches(parents, x, k + 1, n);
    }
}

/// Where no two zones share an identifier, a zone is among those below another
/// one exactly if the other one is somewhere around it.
pub proof fn lemma_descendants_have_ancestors(ws: &Workspace, ancestor: Uuid, x: Uuid)
    requires
        walk_ids(zone_walk(ws)).no_duplicates(),
    ensures
        descendants(ws, ancestor).contains(x) <==> is_ancestor(zone_parents(ws), x, ancestor),
{
    let parents = zone_parents(ws);
    let depth = zone_order(ws).len();
    let ids = seq![ancestor];
    assert(ids[0] == ancestor);
    lemma_below_is_above(ws, ids, depth, x);
    if above_within(parents, x, ids, depth) {
        let n = choose|n: nat|
            1 <= n <= depth && (#[trigger] climb(parents, x, n) matches Some(p) && ids.contains(p));
        assert(climb(parents, x, n) == Some(ancestor));
    }
    if is_ancestor(parents, x, ancestor) {
        let n = choose|n: nat| n >= 1 && #[trigger] climb(parents, x, n) == Some(ancestor);
        let m = lemma_short_climb(ws, x, ancestor, n);
        assert(ids.contains(ancestor));
        assert(climb(parents, x, m) == Some(ancestor));
    }
}

// ---------------------------------------------------------------------------
// nesting
// ---------------------------------------------------------------------------

/// Whether the walk comes to the zone around each zone before it comes there,
/// but for those that it says are around `outside`.
spec fn outer_first(visits: Seq<(&Zone, Option<Uuid>)>, outside: Option<Uuid>) -> bool {
    forall|i: int|
        0 <= i < visits.len() && (#[trigger] visits[i]).1 != outside ==> exists|j: int|
            0 <= j < i && Some((#[trigger] visits[j]).0.id) == visits[i].1
}

proof fn lemma_outer_first(zone: &Zone, parent: Option<Uuid>)
    ensures
        outer_first(walk(zone, parent), parent),
    decreases zone, zone.children@.len() + 1,
{
    let n = zone.children@.len();
    let all = walk(zone, parent);
    let inner = walk_children(zone, n);
    lemma_outer_first_below(zone, n);
    assert forall|i: int| 0 <= i < all.len() && (#[trigger] all[i]).1 != parent implies exists|
        j: int,
    |
        0 <= j < i && Some((#[trigger] all[j]).0.id) == all[i].1 by {
        assert(all[i] == inner[i - 1]);
        if all[i].1 == Some(zone.id) {
            assert(all[0].0.id == zone.id);
        } else {
            let j = choose|j: int|
                0 <= j < i - 1 && Some((#[trigger] inner[j]).0.id) == inner[i - 1].1;
            assert(all[j + 1] == inner[j]);
        }
    }
}

proof fn lemma_outer_first_below(zone: &Zone, n: nat)
    requires
        n <= zone.children@.len(),
    ensures
        outer_first(walk_children(zone, n), Some(zone.id)),
    decreases zone, n,
{
    if n > 0 {
        let child = &zone.children[n - 1];
        let one = walk(child, Some(zone.id));
        let others = walk_children(zone, (n - 1) as nat);
        let all = walk_children(zone, n);
        lemma_outer_first(child, Some(zone.id));
        lemma_outer_first_below(zone, (n - 1) as nat);
        assert forall|i: int|
            0 <= i < all.len() && (#[trigger] all[i]).1 != Some(zone.id) implies exists|j: int|
            0 <= j < i && Some((#[trigger] all[j]).0.id) == all[i].1 by {
            if i < one.len() {
                assert(all[i] == one[i]);
                let j = choose|j: int| 0 <= j < i && Some((#[trigger] one[j]).0.id) == one[i].1;
                assert(all[j] == one[j]);
            } else {
                let k = i - one.len();
                assert(all[i] == others[k]);
                let j = choose|j: int| 0 <= j < k && Some((#[trigger] others[j]).0.id)
                    == others[k].1;
                assert(all[j + one.len()] == others[j]);
            }
        }
    }
}

/// Going up from a zone leads to earlier and earlier places of the walk.
proof fn lemma_climb_leads_forward(ws: &Workspace, i: int, n: nat)
    requires
        walk_ids(zone_walk(ws)).no_duplicates(),
        0 <= i < zone_walk(ws).len(),
        n >= 1,
        climb(zone_parents(ws), zone_walk(ws)[i].0.id, n) is Some,
    ensures
        exists|j: int|
            0 <= j < i && climb(zone_parents(ws), zone_walk(ws)[i].0.id, n) == Some(
                (#[trigger] zone_walk(ws)[j]).0.id,
            ),
    decreases n,
{
    let visits = zone_walk(ws);
    let ids = walk_ids(visits);
    let parents = zone_parents(ws);
    let id = visits[i].0.id;
    let k = if n == 1 {
        i
    } else {
        lemma_climb_leads_forward(ws, i, (n - 1) as nat);
        choose|k: int|
            0 <= k < i && climb(parents, id, (n - 1) as nat) == Some((#[trigger] visits[k]).0.id)
    };
    let lower = visits[k].0.id;
    assert(climb(parents, id, (n - 1) as nat) == Some(lower));
    assert(parents.dom().contains(lower));
    lemma_parents_in(visits, lower);
    let p = choose|p: int|
        0 <= p < visits.len() && (#[trigger] visits[p]).0.id == lower && visits[p].1 == Some(
            parents[lower],
        );
    assert(ids[p] == ids[k]);
    assert(p == k);
    lemma_outer_first(&ws.root, None);
    assert(visits[k].1 != None::<Uuid>);
    let j = choose|j: int| 0 <= j < k && Some((#[trigger] visits[j]).0.id) == visits[k].1;
    assert(climb(parents, id, n) == Some(visits[j].0.id));
}

/// Where no two zones share an identifier, no zone is anywhere inside itself.
pub proof fn lemma_no_zone_inside_itself(ws: &Workspace, id: Uuid)
    requires
        walk_ids(zone_walk(ws)).no_duplicates(),
    ensures
        !is_ancestor(zone_parents(ws), id, id),
{
    let visits = zone_walk(ws);
    let ids = walk_ids(visits);
    let parents = zone_parents(ws);
    if is_ancestor(parents, id, id) {
        let n = choose|n: nat| n >= 1 && #[trigger] climb(parents, id, n) == Some(id);
        lemma_climb_reaches(parents, id, 1, n);
        reveal_with_fuel(climb, 2);
        assert(parents.dom().contains(id));
        lemma_parents_in(visits, id);
        let i = choose|i: int|
            0 <= i < visits.len() && (#[trigger] visits[i]).0.id == id && visits[i].1 == Some(
                parents[id],
            );
        lemma_climb_leads_forward(ws, i, n);
        let j = choose|j: int|
            0 <= j < i && climb(parents, id, n) == Some((#[trigger] visits[j]).0.id);
        assert(ids[i] == ids[j]);
    }
}

} // verus!
