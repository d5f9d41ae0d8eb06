//! Which edges are closed to routes, in terms of what their properties and the
//! policies of their zones state.

use super::assemble::plan_from_search;
use super::cost::Costs;
use super::graph::{
    blocking_zones, edge_blocking_zones, hard_blocked, may_step, step_over, zone_blocks,
};
use super::laws::{
    lemma_edges_along, lemma_found_route_has_plan, lemma_link_joins, lemma_step_has_link,
};
use super::plan::{edges_along, route_nodes};
use super::search::{is_outcome, is_reached, leads};
use super::{RouteCostModel, RouteSearchStateView};
use crate::guid::Uuid;
use crate::index::tables::{edge_at, edge_ids, lemma_places, node_ids, places, policy_at};
use crate::index::{link, link_place};
use crate::number::Real;
use crate::policy::keywords::bool_of;
use crate::policy::parse::edge_semantics_of;
use crate::policy::reading::{
    as_bool, lemma_edge_booleans, lemma_one_spelling, lemma_zone_booleans, says, silent, spelled,
};
use crate::policy::{ZonePolicyKind, ZonePolicyView};
use crate::properties::{keys_ascend, property_at, value_at, PropertyView};
use crate::workspace::{zone_at, Edge, Workspace, Zone};
use vstd::prelude::*;

verus! {

/// Whether properties state that something is so, under a key.
pub open spec fn states(entries: Seq<PropertyView>, key: Seq<char>) -> bool {
    value_at(entries, key) matches Some(v) && bool_of(v) == Some(true)
}

proof fn lemma_stated_block(entries: Seq<PropertyView>)
    requires
        keys_ascend(entries),
    ensures
        edge_semantics_of(entries, false).blocked == Some(true) <==> states(
            entries,
            "traffic.blocked"@,
        ),
        crate::policy::parse::zone_policy_of(entries).blocked == Some(true) <==> states(
            entries,
            "traffic.blocked"@,
        ),
{
    let key = "traffic.blocked"@;
    let read = as_bool();
    lemma_one_spelling(entries, key, read);
    lemma_edge_booleans(entries, false, true);
    lemma_edge_booleans(entries, false, false);
    lemma_zone_booleans(entries, true);
    lemma_zone_booleans(entries, false);
    if let Some(p) = property_at(entries, key) {
        match bool_of(p.value) {
            Some(b) => {
                assert(read(p) == Some(b));
                assert(says(entries, spelled(key, key), read, b));
            },
            None => {
                assert forall|i: int| 0 <= i < entries.len() && spelled(key, key)(
                    (#[trigger] entries[i]).key,
                ) implies read(entries[i]) is None by {
                    crate::properties::lemma_property_found(entries, i);
                }
                assert(silent(entries, spelled(key, key), read));
            },
        }
    }
}

proof fn lemma_some_zone_blocks(ws: &Workspace, ids: Seq<Uuid>)
    ensures
        blocking_zones(ws, ids).len() > 0 <==> exists|i: int|
            0 <= i < ids.len() && (policy_at(ws, #[trigger] ids[i]) matches Some(p)
                && zone_blocks(p)),
        forall|z: Uuid| #[trigger]
            blocking_zones(ws, ids).contains(z) <==> ids.contains(z) && (policy_at(
                ws,
                z,
            ) matches Some(p) && zone_blocks(p)),
    decreases ids.len(),
{
    if ids.len() > 0 {
        let rest = ids.drop_last();
        let last = ids.last();
        let before = blocking_zones(ws, rest);
        let after = blocking_zones(ws, ids);
        lemma_some_zone_blocks(ws, rest);
        assert(ids[ids.len() - 1] == last);
        assert forall|i: int| 0 <= i < rest.len() implies #[trigger] rest[i] == ids[i] by {}
        if before.len() > 0 {
            let i = choose|i: int|
                0 <= i < rest.len() && (policy_at(ws, #[trigger] rest[i]) matches Some(p)
                    && zone_blocks(p));
            assert(ids[i] == rest[i]);
        }
        if exists|i: int|
            0 <= i < ids.len() && (policy_at(ws, #[trigger] ids[i]) matches Some(p)
                && zone_blocks(p)) {
            let i = choose|i: int|
                0 <= i < ids.len() && (policy_at(ws, #[trigger] ids[i]) matches Some(p)
                    && zone_blocks(p));
            if i < rest.len() {
                assert(rest[i] == ids[i]);
            }
        }
        assert forall|z: Uuid| #[trigger] after.contains(z) <==> ids.contains(z) && (policy_at(
            ws,
            z,
        ) matches Some(p) && zone_blocks(p)) by {
            assert(ids.contains(z) <==> rest.contains(z) || z == last) by {
                if ids.contains(z) {
                    let k = choose|k: int| 0 <= k < ids.len() && ids[k] == z;
                    if k < rest.len() {
                        assert(rest[k] == z);
                    }
                }
                if rest.contains(z) {
                    let k = choose|k: int| 0 <= k < rest.len() && rest[k] == z;
                    assert(ids[k] == z);
                }
            }
            if before.contains(z) {
                let k = choose|k: int| 0 <= k < before.len() && before[k] == z;
                assert(after[k] == z);
            }
            if after.contains(z) {
                let k = choose|k: int| 0 <= k < after.len() && after[k] == z;
                if k < before.len() {
                    assert(before[k] == z);
                }
            }
            if after.len() > before.len() {
                assert(after[before.len() as int] == last);
            }
        }
    }
}

/// Whether a policy keeps routes out: it is blocked or restricted, or must not be
/// entered or crossed without a grant.
pub open spec fn keeps_routes_out(p: ZonePolicyView) -> bool {
    ||| p.blocked == Some(true)
    ||| p.kind == ZonePolicyKind::Restricted
    ||| p.blocks_entry_without_grant
    ||| p.blocks_traversal_without_grant
}

/// An edge is closed to routes exactly if it is not there, if its properties
/// state that it is blocked or must not be stopped on, or if a zone that it lists
/// keeps routes out.
pub proof fn lemma_when_an_edge_is_closed(ws: &Workspace, id: Uuid)
    requires
        edge_at(ws, id) matches Some(e) ==> keys_ascend(e.properties@),
    ensures
        edge_at(ws, id) is None ==> hard_blocked(ws, id),
        edge_at(ws, id) matches Some(e) ==> (hard_blocked(ws, id) <==> {
            ||| states(e.properties@, "traffic.blocked"@)
            ||| edge_semantics_of(e.properties@, false).no_stop == Some(true)
            ||| exists|i: int|
                0 <= i < e.zone_ids@.len() && (policy_at(
                    ws,
                    #[trigger] e.zone_ids@[i],
                ) matches Some(p) && keeps_routes_out(p))
        }),
        edge_at(ws, id) matches Some(e) ==> (says(
            e.properties@,
            spelled("traffic.no_stop"@, "traffic.noStop"@),
            as_bool(),
            true,
        ) ==> hard_blocked(ws, id)),
        edge_at(ws, id) matches Some(e) ==> (silent(
            e.properties@,
            spelled("traffic.no_stop"@, "traffic.noStop"@),
            as_bool(),
        ) && !states(e.properties@, "traffic.blocked"@) && e.zone_ids@.len() == 0 ==> !hard_blocked(
            ws,
            id,
        )),
{
    if let Some(e) = edge_at(ws, id) {
        lemma_stated_block(e.properties@);
        lemma_edge_booleans(e.properties@, false, true);
        lemma_some_zone_blocks(ws, e.zone_ids@);
    }
}

/// The zones that are told to block an edge are those that it lists and that keep
/// routes out.
pub proof fn lemma_zones_that_close_an_edge(ws: &Workspace, e: &Edge, id: Uuid, zone: Uuid)
    requires
        edge_at(ws, id) == Some(e),
    ensures
        edge_blocking_zones(ws, id).contains(zone) <==> e.zone_ids@.contains(zone) && (policy_at(
            ws,
            zone,
        ) matches Some(p) && keeps_routes_out(p)),
{
    lemma_some_zone_blocks(ws, e.zone_ids@);
}

/// Whether no other edge joins the two nodes that the edge at place `k` joins.
pub open spec fn joins_alone(ws: &Workspace, k: int) -> bool {
    forall|j: int|
        0 <= j < ws.edges@.len() && j != k ==> {
            let (a, b) = (ws.edges@[k], #[trigger] ws.edges@[j]);
            !(a.source == b.source && a.target == b.target) && !(a.source == b.target && a.target
                == b.source)
        }
}

/// An edge that states to be blocked is closed to routes. Where identifiers are
/// unique and no other edge joins the same two nodes, no plan for a route that
/// heeds blocks goes over it.
pub proof fn lemma_no_plan_over_a_blocked_edge<G: Fn(Real, Real) -> Real>(
    ws: &Workspace,
    m: RouteCostModel,
    f: Costs,
    g: G,
    start: Uuid,
    goal: Uuid,
    s: RouteSearchStateView,
    k: int,
    v: Seq<char>,
)
    requires
        edge_ids(ws).no_duplicates(),
        0 <= k < ws.edges@.len(),
        keys_ascend(ws.edges@[k].properties@),
        value_at(ws.edges@[k].properties@, "traffic.blocked"@) == Some(v),
        bool_of(v) == Some(true),
    ensures
        hard_blocked(ws, ws.edges@[k].id),
        node_ids(ws).no_duplicates() && joins_alone(ws, k) && is_outcome(
            ws,
            true,
            m,
            f,
            start,
            goal,
            s,
        ) && s.found ==> (plan_from_search(ws, f, g, m, start, goal, s) matches Ok(plan)
            && !plan.traversed_edge_ids.contains(ws.edges@[k].id)),
{
    let id = ws.edges@[k].id;
    let eids = edge_ids(ws);
    assert(eids.len() == ws.edges.len() && ws.edges@.len() == ws.edges.len());
    lemma_places(eids);
    assert(eids[k] == id);
    assert(eids.contains(id));
    assert(places(eids)[id] == k) by {
        assert(places(eids).dom().contains(id));
        assert(eids[places(eids)[id] as int] == id);
    }
    lemma_when_an_edge_is_closed(ws, id);
    assert(states(ws.edges@[k].properties@, "traffic.blocked"@));
    if node_ids(ws).no_duplicates() && joins_alone(ws, k) && is_outcome(
        ws,
        true,
        m,
        f,
        start,
        goal,
        s,
    ) && s.found {
        lemma_found_route_has_plan(ws, true, m, f, g, start, goal, s);
        let plan = plan_from_search(ws, f, g, m, start, goal, s)->Ok_0;
        let nodes = route_nodes(s, start, goal);
        let ids = edges_along(ws, nodes).unwrap();
        assert(plan.traversed_edge_ids == ids);
        if ids.contains(id) {
            let i = choose|i: int| 0 <= i < ids.len() && ids[i] == id;
            if nodes.len() >= 2 {
                lemma_edges_along(ws, nodes, 0);
                lemma_edges_along(ws, nodes, i);
                assert(s.distances.dom().contains(goal));
                assert(is_reached(ws, true, m, f, start, s, goal));
                let edges = choose|edges: Seq<usize>| #[trigger]
                    leads(ws, true, nodes, edges, start, goal);
                assert(may_step(ws, true, nodes[i], edges[i] as int, nodes[i + 1]));
                lemma_step_is_not_over(ws, nodes[i], edges[i] as int, nodes[i + 1], k);
            }
        }
    }
}

proof fn lemma_step_is_not_over(ws: &Workspace, a: Uuid, e: int, b: Uuid, k: int)
    requires
        node_ids(ws).no_duplicates(),
        edge_ids(ws).no_duplicates(),
        0 <= k < ws.edges@.len(),
        joins_alone(ws, k),
        hard_blocked(ws, ws.edges@[k].id),
        may_step(ws, true, a, e, b),
    ensures
        link(ws, a, b) matches Some(x) && x.id != ws.edges@[k].id,
{
    reveal(may_step);
    lemma_step_has_link(ws, true, a, e, b);
    let ids = node_ids(ws);
    assert(ids.len() == ws.nodes.len());
    assert(ws.edges@.len() == ws.edges.len());
    lemma_places(ids);
    let v = places(ids)[a];
    let edge = &ws.edges[e];
    let other = if edge.source == v {
        edge.target
    } else {
        edge.source
    };
    assert(ids[other as int] == b);
    assert(ids.contains(b));
    assert(places(ids)[b] == other) by {
        assert(ids[places(ids)[b] as int] == b);
    }
    lemma_link_joins(ws.edges@, v, other, 0);
    lemma_link_joins(ws.edges@, other, v, 0);
    let q = link_place(ws, a, b).unwrap() as int;
    let eids = edge_ids(ws);
    assert(eids[q] == ws.edges@[q].id && eids[k] == ws.edges@[k].id);
    assert(ws.edges@[e] == *edge);
    if q == k {
        assert(e == k);
    }
}

/// A step of a route that heeds blocks never takes an edge that states to be
/// blocked, whatever other edges there are.
pub proof fn lemma_no_step_over_a_blocked_edge(
    ws: &Workspace,
    from: Uuid,
    k: int,
    to: Uuid,
    e: &Edge,
)
    requires
        0 <= k < ws.edges@.len(),
        edge_at(ws, ws.edges@[k].id) == Some(e),
        keys_ascend(e.properties@),
        states(e.properties@, "traffic.blocked"@),
    ensures
        !may_step(ws, true, from, k, to),
{
    lemma_when_an_edge_is_closed(ws, ws.edges@[k].id);
    reveal(may_step);
}

/// Where blocks are not heeded only the direction of an edge matters to a step
/// over it, and where they are it must not be closed either.
pub proof fn lemma_which_steps_are_open(ws: &Workspace, from: Uuid, k: int, to: Uuid)
    ensures
        may_step(ws, false, from, k, to) <==> step_over(ws, from, k) == Some(to),
        may_step(ws, true, from, k, to) <==> step_over(ws, from, k) == Some(to) && !hard_blocked(
            ws,
            ws.edges@[k].id,
        ),
{
    reveal(may_step);
}

/// A zone that states to be blocked closes every edge that lists it.
pub proof fn lemma_blocked_zone_closes(ws: &Workspace, id: Uuid, e: &Edge, zone: &Zone)
    requires
        edge_at(ws, id) == Some(e),
        e.zone_ids@.contains(zone.id),
        zone_at(ws, zone.id) == Some(zone),
        keys_ascend(zone.properties@),
        states(zone.properties@, "traffic.blocked"@),
    ensures
        hard_blocked(ws, id),
{
    lemma_stated_block(zone.properties@);
    lemma_some_zone_blocks(ws, e.zone_ids@);
    let i = choose|i: int| 0 <= i < e.zone_ids@.len() && e.zone_ids@[i] == zone.id;
    assert(policy_at(ws, e.zone_ids@[i]) is Some);
}

} // verus!
