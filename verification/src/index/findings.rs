//! What is found about a workspace, in terms of its zones, nodes and edges, and
//! what aliases and memberships stand for.

use super::tables::{
    aliases, appended, edge_aliases, edge_at, edge_ids, enrolled, first_seen, lemma_first_seen,
    lemma_zone_order, list_at, members_in, node_aliases, node_at, node_ids, repeated,
    repeated_aliases, walk_ids, zone_aliases, zone_order, zone_walk,
};
use super::validation::{
    all_edge_issues, all_node_issues, all_zone_issues, duplicate_alias_issues, duplicate_issues,
    edge_issues, edge_member_issue, edge_member_issues, missing_id_issues, node_issues,
    node_member_issues, reference_issues, traffic_finding, traffic_findings, uniqueness_issues,
    workspace_issues, zone_issues, zone_member_issue, zone_member_issues, ValidationIssueView,
    ValidationSeverity,
};
use super::{resource_of, ResourceRef};
use crate::guid::{uuid_denoted, Uuid};
use crate::policy::validate::{
    edge_traffic_issues, in_order, lemma_in_order, zone_traffic_issues,
};
use crate::policy::TrafficParseIssueView;
use crate::text::{integer_of, trimmed};
use crate::workspace::{zone_at, CoordMode, Edge, Node, Workspace, Zone};
use vstd::prelude::*;

verus! {

proof fn lemma_last_or_earlier<A>(s: Seq<A>, x: A)
    requires
        s.len() > 0,
    ensures
        s.contains(x) <==> s.drop_last().contains(x) || s.last() == x,
{
    let rest = s.drop_last();
    if s.contains(x) {
        let k = choose|k: int| 0 <= k < s.len() && s[k] == x;
        if k < rest.len() {
            assert(rest[k] == x);
        }
    }
    if rest.contains(x) {
        let k = choose|k: int| 0 <= k < rest.len() && rest[k] == x;
        assert(s[k] == x);
    }
    assert(s[s.len() - 1] == s.last());
}

proof fn lemma_in_either<A>(a: Seq<A>, b: Seq<A>, x: A)
    ensures
        (a + b).contains(x) <==> a.contains(x) || b.contains(x),
{
    let all = a + b;
    if all.contains(x) {
        let k = choose|k: int| 0 <= k < all.len() && all[k] == x;
        if k < a.len() {
            assert(a[k] == x);
        } else {
            assert(b[k - a.len()] == x);
        }
    }
    if a.contains(x) {
        let k = choose|k: int| 0 <= k < a.len() && a[k] == x;
        assert(all[k] == x);
    }
    if b.contains(x) {
        let k = choose|k: int| 0 <= k < b.len() && b[k] == x;
        assert(all[a.len() + k] == x);
    }
}

// ---------------------------------------------------------------------------
// identifiers and aliases
// ---------------------------------------------------------------------------

/// Whether an identifier stands at two places of a list.
pub open spec fn stands_twice(ids: Seq<Uuid>, id: Uuid) -> bool {
    exists|i: int, j: int| 0 <= i < j < ids.len() && #[trigger] ids[i] == id && #[trigger] ids[j] == id
}

/// An identifier is repeated exactly if it stands at two places, and is not null
/// where that does not count.
pub proof fn lemma_when_an_id_is_repeated(ids: Seq<Uuid>, with_null: bool, id: Uuid)
    ensures
        repeated(ids, with_null).contains(id) <==> stands_twice(ids, id) && (with_null || id != 0),
        repeated(ids, with_null).no_duplicates(),
    decreases ids.len(),
{
    if ids.len() > 0 {
        let rest = ids.drop_last();
        let last = ids.last();
        let n = ids.len() - 1;
        let before = repeated(rest, with_null);
        let after = repeated(ids, with_null);
        lemma_when_an_id_is_repeated(rest, with_null, id);
        if after.len() > before.len() {
            assert(after.drop_last() =~= before);
            lemma_last_or_earlier(after, id);
        }
        assert(ids[n] == last);
        if stands_twice(rest, id) {
            let (i, j) = choose|i: int, j: int|
                0 <= i < j < rest.len() && #[trigger] rest[i] == id && #[trigger] rest[j] == id;
            assert(ids[i] == id && ids[j] == id);
        }
        if stands_twice(ids, id) && !stands_twice(rest, id) {
            let (i, j) = choose|i: int, j: int|
                0 <= i < j < ids.len() && #[trigger] ids[i] == id && #[trigger] ids[j] == id;
            assert(rest[i] == id);
            if j < n {
                assert(rest[j] == id);
            }
            assert(rest.contains(id));
            assert(last == id);
        }
        if last == id && rest.contains(id) {
            let i = choose|i: int| 0 <= i < rest.len() && rest[i] == id;
            assert(ids[i] == id && ids[n] == id);
        }
    }
}

/// Whether the entry at a place carries an alias.
pub open spec fn carries(entries: Seq<(Option<u64>, Uuid)>, i: int, n: u64) -> bool {
    0 <= i < entries.len() && entries[i].0 == Some(n)
}

/// Whether the entry at a place is the first that carries an alias.
pub open spec fn carries_first(entries: Seq<(Option<u64>, Uuid)>, i: int, n: u64) -> bool {
    carries(entries, i, n) && forall|j: int| 0 <= j < i ==> !#[trigger] carries(entries, j, n)
}

proof fn lemma_alias_is_carried(entries: Seq<(Option<u64>, Uuid)>, n: u64) -> (i: int)
    requires
        aliases(entries).dom().contains(n),
    ensures
        carries_first(entries, i, n),
        aliases(entries)[n] == entries[i].1,
    decreases entries.len(),
{
    if entries.len() == 0 {
        0
    } else {
        let rest = entries.drop_last();
        let p = entries.len() - 1;
        if aliases(rest).dom().contains(n) {
            let i = lemma_alias_is_carried(rest, n);
            assert forall|j: int| 0 <= j < i implies !#[trigger] carries(entries, j, n) by {
                assert(!carries(rest, j, n));
            }
            i
        } else {
            assert forall|j: int| 0 <= j < p implies !#[trigger] carries(entries, j, n) by {
                if carries(entries, j, n) {
                    lemma_carried_alias_is_known(rest, j, n);
                }
            }
            p
        }
    }
}

proof fn lemma_carried_alias_is_known(entries: Seq<(Option<u64>, Uuid)>, i: int, n: u64)
    requires
        carries(entries, i, n),
    ensures
        aliases(entries).dom().contains(n),
    decreases entries.len(),
{
    let rest = entries.drop_last();
    if i < rest.len() {
        lemma_carried_alias_is_known(rest, i, n);
    }
}

proof fn lemma_one_first(entries: Seq<(Option<u64>, Uuid)>, i: int, k: int, n: u64)
    requires
        carries_first(entries, i, n),
        carries_first(entries, k, n),
    ensures
        i == k,
{
    if i < k {
        assert(!carries(entries, i, n));
    }
    if k < i {
        assert(!carries(entries, k, n));
    }
}

/// An alias stands for the first that carries it, and for nothing where none does.
pub proof fn lemma_what_an_alias_stands_for(entries: Seq<(Option<u64>, Uuid)>, i: int, n: u64)
    ensures
        carries_first(entries, i, n) ==> aliases(entries).dom().contains(n) && aliases(entries)[n]
            == entries[i].1,
        aliases(entries).dom().contains(n) ==> exists|k: int| carries_first(entries, k, n),
{
    if carries_first(entries, i, n) {
        lemma_carried_alias_is_known(entries, i, n);
        let k = lemma_alias_is_carried(entries, n);
        lemma_one_first(entries, i, k, n);
    }
    if aliases(entries).dom().contains(n) {
        let k = lemma_alias_is_carried(entries, n);
        assert(carries_first(entries, k, n));
    }
}

/// Whether two different identifiers carry an alias.
pub open spec fn carried_twice(entries: Seq<(Option<u64>, Uuid)>, n: u64) -> bool {
    exists|i: int, j: int| #[trigger]
        carries(entries, i, n) && #[trigger] carries(entries, j, n) && entries[i].1 != entries[j].1
}

/// An alias is repeated exactly if two different identifiers carry it.
pub proof fn lemma_when_an_alias_is_repeated(entries: Seq<(Option<u64>, Uuid)>, n: u64)
    ensures
        repeated_aliases(entries).contains(n) <==> carried_twice(entries, n),
    decreases entries.len(),
{
    if entries.len() > 0 {
        let rest = entries.drop_last();
        let last = entries.last();
        let p = entries.len() - 1;
        let before = repeated_aliases(rest);
        let after = repeated_aliases(entries);
        lemma_when_an_alias_is_repeated(rest, n);
        if after.len() > before.len() {
            assert(after.drop_last() =~= before);
            lemma_last_or_earlier(after, n);
        }
        if carried_twice(rest, n) {
            let (i, j) = choose|i: int, j: int| #[trigger]
                carries(rest, i, n) && #[trigger] carries(rest, j, n) && rest[i].1 != rest[j].1;
            assert(carries(entries, i, n) && carries(entries, j, n));
            assert(entries[i].1 != entries[j].1);
        }
        if last.0 == Some(n) && aliases(rest).dom().contains(n) {
            let f = lemma_alias_is_carried(rest, n);
            assert(carries(entries, f, n) && carries(entries, p, n));
            if aliases(rest)[n] != last.1 {
                assert(entries[f].1 != entries[p].1);
            }
        }
        if carried_twice(entries, n) && !carried_twice(rest, n) {
            let (i, j) = choose|i: int, j: int| #[trigger]
                carries(entries, i, n) && #[trigger] carries(entries, j, n) && entries[i].1
                    != entries[j].1;
            if i < p && j < p {
                assert(carries(rest, i, n) && carries(rest, j, n));
                assert(rest[i].1 != rest[j].1);
            }
            let q = if i < p {
                i
            } else {
                j
            };
            assert(carries(rest, q, n));
            lemma_carried_alias_is_known(rest, q, n);
            let f = lemma_alias_is_carried(rest, n);
            assert(carries(rest, f, n));
            assert(rest[f].1 == rest[q].1);
            assert(last.0 == Some(n));
        }
    }
}

/// A text refers to what its identifier stands for, and otherwise to the alias
/// that it is a number of.
pub proof fn lemma_what_a_text_refers_to(text: Seq<char>)
    ensures
        uuid_denoted(trimmed(text)) matches Some(id) ==> resource_of(text) == Some(
            ResourceRef::Uuid(id),
        ),
        uuid_denoted(trimmed(text)) is None ==> (integer_of(trimmed(text)) matches Some(n)
            ==> resource_of(text) == Some(ResourceRef::Numeric(n))),
        uuid_denoted(trimmed(text)) is None && integer_of(trimmed(text)) is None ==> resource_of(
            text,
        ) is None,
{
}

// ---------------------------------------------------------------------------
// memberships
// ---------------------------------------------------------------------------

proof fn lemma_appended(m: Map<Uuid, Seq<usize>>, key: Uuid, x: usize, z: Uuid, y: usize)
    ensures
        list_at(appended(m, key, x), z).contains(y) <==> list_at(m, z).contains(y) || (z == key && y
            == x),
{
    let before = list_at(m, z);
    let after = list_at(appended(m, key, x), z);
    if z == key {
        assert(after =~= before.push(x));
        assert(after.drop_last() =~= before);
        lemma_last_or_earlier(after, y);
    } else {
        assert(after =~= before);
    }
}

proof fn lemma_enrolled(m: Map<Uuid, Seq<usize>>, zones: Seq<Uuid>, place: usize, z: Uuid, y: usize)
    ensures
        list_at(enrolled(m, zones, place), z).contains(y) <==> list_at(m, z).contains(y) || (
        zones.contains(z) && y == place),
    decreases zones.len(),
{
    if zones.len() > 0 {
        lemma_enrolled(m, zones.drop_last(), place, z, y);
        lemma_appended(enrolled(m, zones.drop_last(), place), zones.last(), place, z, y);
        lemma_last_or_earlier(zones, z);
    }
}

/// The members of a zone are the nodes that list it.
pub proof fn lemma_who_is_a_member(nodes: Seq<Node>, z: Uuid, place: usize)
    requires
        nodes.len() <= usize::MAX,
    ensures
        list_at(members_in(nodes), z).contains(place) <==> place < nodes.len()
            && nodes[place as int].zone_ids@.contains(z),
    decreases nodes.len(),
{
    if nodes.len() > 0 {
        let rest = nodes.drop_last();
        lemma_who_is_a_member(rest, z, place);
        lemma_enrolled(
            members_in(rest),
            nodes.last().zone_ids@,
            (nodes.len() - 1) as usize,
            z,
            place,
        );
        if place < rest.len() {
            assert(rest[place as int] == nodes[place as int]);
        }
    } else {
        assert(list_at(members_in(nodes), z) =~= Seq::empty());
    }
}

// ---------------------------------------------------------------------------
// findings
// ---------------------------------------------------------------------------

/// Whether something is found, with a severity, about one of a kind.
pub open spec fn finds(
    ws: &Workspace,
    severity: ValidationSeverity,
    category: Seq<char>,
    kind: Seq<char>,
    id: Option<Uuid>,
) -> bool {
    exists|k: int|
        0 <= k < workspace_issues(ws).len() && {
            let i = #[trigger] workspace_issues(ws)[k];
            i.severity == severity && i.category == category && i.resource_kind == kind
                && i.resource_id == id
        }
}

proof fn lemma_finds(ws: &Workspace, i: ValidationIssueView)
    requires
        workspace_issues(ws).contains(i),
    ensures
        finds(ws, i.severity, i.category, i.resource_kind, i.resource_id),
{
    let all = workspace_issues(ws);
    let k = choose|k: int| 0 <= k < all.len() && all[k] == i;
    assert(all[k].severity == i.severity);
}

proof fn lemma_parts(ws: &Workspace, i: ValidationIssueView)
    ensures
        workspace_issues(ws).contains(i) <==> {
            ||| reference_issues(ws).contains(i)
            ||| uniqueness_issues(ws).contains(i)
            ||| all_zone_issues(ws, zone_order(ws)).contains(i)
            ||| all_node_issues(ws, first_seen(node_ids(ws))).contains(i)
            ||| all_edge_issues(ws, first_seen(edge_ids(ws))).contains(i)
        },
{
    let a = reference_issues(ws);
    let b = uniqueness_issues(ws);
    let c = all_zone_issues(ws, zone_order(ws));
    let d = all_node_issues(ws, first_seen(node_ids(ws)));
    let e = all_edge_issues(ws, first_seen(edge_ids(ws)));
    lemma_in_either(a, b, i);
    lemma_in_either(a + b, c, i);
    lemma_in_either(a + b + c, d, i);
    lemma_in_either(a + b + c + d, e, i);
}

proof fn lemma_zone_part(ws: &Workspace, ids: Seq<Uuid>, id: Uuid, i: ValidationIssueView)
    requires
        ids.contains(id),
        zone_issues(ws, id).contains(i),
    ensures
        all_zone_issues(ws, ids).contains(i),
    decreases ids.len(),
{
    if ids.len() > 0 {
        lemma_last_or_earlier(ids, id);
        lemma_in_either(all_zone_issues(ws, ids.drop_last()), zone_issues(ws, ids.last()), i);
        if ids.drop_last().contains(id) {
            lemma_zone_part(ws, ids.drop_last(), id, i);
        }
    }
}

proof fn lemma_node_part(ws: &Workspace, ids: Seq<Uuid>, id: Uuid, i: ValidationIssueView)
    requires
        ids.contains(id),
        node_issues(ws, id).contains(i),
    ensures
        all_node_issues(ws, ids).contains(i),
    decreases ids.len(),
{
    if ids.len() > 0 {
        lemma_last_or_earlier(ids, id);
        lemma_in_either(all_node_issues(ws, ids.drop_last()), node_issues(ws, ids.last()), i);
        if ids.drop_last().contains(id) {
            lemma_node_part(ws, ids.drop_last(), id, i);
        }
    }
}

proof fn lemma_edge_part(ws: &Workspace, ids: Seq<Uuid>, id: Uuid, i: ValidationIssueView)
    requires
        ids.contains(id),
        edge_issues(ws, id).contains(i),
    ensures
        all_edge_issues(ws, ids).contains(i),
    decreases ids.len(),
{
    if ids.len() > 0 {
        lemma_last_or_earlier(ids, id);
        lemma_in_either(all_edge_issues(ws, ids.drop_last()), edge_issues(ws, ids.last()), i);
        if ids.drop_last().contains(id) {
            lemma_edge_part(ws, ids.drop_last(), id, i);
        }
    }
}

proof fn lemma_zone_member_part(ws: &Workspace, zone: Uuid, nodes: Seq<Uuid>, node: Uuid)
    requires
        nodes.contains(node),
        zone_member_issue(ws, zone, node) is Some,
    ensures
        zone_member_issues(ws, zone, nodes).contains(zone_member_issue(ws, zone, node).unwrap()),
    decreases nodes.len(),
{
    if nodes.len() > 0 {
        let before = zone_member_issues(ws, zone, nodes.drop_last());
        let after = zone_member_issues(ws, zone, nodes);
        let i = zone_member_issue(ws, zone, node).unwrap();
        lemma_last_or_earlier(nodes, node);
        if nodes.drop_last().contains(node) {
            lemma_zone_member_part(ws, zone, nodes.drop_last(), node);
            let k = choose|k: int| 0 <= k < before.len() && before[k] == i;
            assert(after[k] == i);
        } else {
            assert(after[before.len() as int] == i);
        }
    }
}

proof fn lemma_node_member_part(ws: &Workspace, node: Uuid, zones: Seq<Uuid>, zone: Uuid)
    requires
        zones.contains(zone),
        zone_at(ws, zone) is None,
    ensures
        exists|k: int|
            0 <= k < node_member_issues(ws, node, zones).len() && {
                let i = #[trigger] node_member_issues(ws, node, zones)[k];
                i.severity == ValidationSeverity::Error && i.category == "broken_membership"@
                    && i.resource_kind == "node"@ && i.resource_id == Some(node)
            },
    decreases zones.len(),
{
    if zones.len() > 0 {
        let before = node_member_issues(ws, node, zones.drop_last());
        let after = node_member_issues(ws, node, zones);
        lemma_last_or_earlier(zones, zone);
        if zones.drop_last().contains(zone) {
            lemma_node_member_part(ws, node, zones.drop_last(), zone);
            let k = choose|k: int|
                0 <= k < before.len() && {
                    let i = #[trigger] before[k];
                    i.severity == ValidationSeverity::Error && i.category == "broken_membership"@
                        && i.resource_kind == "node"@ && i.resource_id == Some(node)
                };
            assert(after[k] == before[k]);
        } else {
            assert(after[before.len() as int].severity == ValidationSeverity::Error);
        }
    }
}

proof fn lemma_edge_member_part(ws: &Workspace, id: Uuid, e: &Edge, zones: Seq<Uuid>, zone: Uuid)
    requires
        zones.contains(zone),
        edge_member_issue(ws, id, e, zone) is Some,
    ensures
        edge_member_issues(ws, id, e, zones).contains(edge_member_issue(ws, id, e, zone).unwrap()),
    decreases zones.len(),
{
    if zones.len() > 0 {
        let before = edge_member_issues(ws, id, e, zones.drop_last());
        let after = edge_member_issues(ws, id, e, zones);
        let i = edge_member_issue(ws, id, e, zone).unwrap();
        lemma_last_or_earlier(zones, zone);
        if zones.drop_last().contains(zone) {
            lemma_edge_member_part(ws, id, e, zones.drop_last(), zone);
            let k = choose|k: int| 0 <= k < before.len() && before[k] == i;
            assert(after[k] == i);
        } else {
            assert(after[before.len() as int] == i);
        }
    }
}

/// A zone that lists a node that is not there, or one that does not list the zone,
/// is reported as an error.
pub proof fn lemma_broken_zone_is_found(ws: &Workspace, zone: &Zone, node: Uuid)
    requires
        zone_at(ws, zone.id) == Some(zone),
        zone.node_ids@.contains(node),
    ensures
        node_at(ws, node) is None ==> finds(
            ws,
            ValidationSeverity::Error,
            "broken_membership"@,
            "zone"@,
            Some(zone.id),
        ),
        node_at(ws, node) matches Some(n) ==> (!n.zone_ids@.contains(zone.id) ==> finds(
            ws,
            ValidationSeverity::Error,
            "inconsistent_membership"@,
            "zone"@,
            Some(zone.id),
        )),
{
    let id = zone.id;
    lemma_zone_order(ws, id);
    if zone_member_issue(ws, id, node) is Some {
        let i = zone_member_issue(ws, id, node).unwrap();
        lemma_zone_member_part(ws, id, zone.node_ids@, node);
        let a = missing_id_issues(zone.id, "zone"@, "zone is missing a non-null id"@);
        let b = zone_member_issues(ws, id, zone.node_ids@);
        let c = traffic_findings(in_order(zone_traffic_issues(zone.properties@)), "zone"@, id);
        lemma_in_either(a, b, i);
        lemma_in_either(a + b, c, i);
        lemma_zone_part(ws, zone_order(ws), id, i);
        lemma_parts(ws, i);
        lemma_finds(ws, i);
    }
}

/// A node that lists a zone that is not there is reported as an error.
pub proof fn lemma_broken_node_is_found(ws: &Workspace, id: Uuid, n: &Node, zone: Uuid)
    requires
        node_at(ws, id) == Some(n),
        n.zone_ids@.contains(zone),
        zone_at(ws, zone) is None,
    ensures
        finds(ws, ValidationSeverity::Error, "broken_membership"@, "node"@, Some(id)),
{
    lemma_node_member_part(ws, id, n.zone_ids@, zone);
    let b = node_member_issues(ws, id, n.zone_ids@);
    let k = choose|k: int|
        0 <= k < b.len() && {
            let i = #[trigger] b[k];
            i.severity == ValidationSeverity::Error && i.category == "broken_membership"@
                && i.resource_kind == "node"@ && i.resource_id == Some(id)
        };
    let i = b[k];
    assert(b.contains(i));
    let a = missing_id_issues(id, "node"@, "node is missing a non-null id"@);
    lemma_in_either(a, b, i);
    super::laws::lemma_node_found(ws, id);
    lemma_first_seen(node_ids(ws));
    let p = choose|p: int| 0 <= p < ws.nodes@.len() && (#[trigger] ws.nodes@[p]).id == id;
    assert(node_ids(ws)[p] == id);
    assert(node_ids(ws).contains(id));
    lemma_node_part(ws, first_seen(node_ids(ws)), id, i);
    lemma_parts(ws, i);
    lemma_finds(ws, i);
}

/// An edge that lists a zone that is not there is reported as an error, and one
/// that lists a zone of which neither of its ends is a member with a warning.
pub proof fn lemma_broken_edge_is_found(ws: &Workspace, id: Uuid, e: &Edge, zone: Uuid)
    requires
        edge_at(ws, id) == Some(e),
        e.zone_ids@.contains(zone),
    ensures
        zone_at(ws, zone) is None ==> finds(
            ws,
            ValidationSeverity::Error,
            "broken_membership"@,
            "edge"@,
            Some(id),
        ),
        zone_at(ws, zone) is Some && !(e.source < ws.nodes@.len()
            && ws.nodes@[e.source as int].zone_ids@.contains(zone)) && !(e.target < ws.nodes@.len()
            && ws.nodes@[e.target as int].zone_ids@.contains(zone)) ==> finds(
            ws,
            ValidationSeverity::Warning,
            "inconsistent_membership"@,
            "edge"@,
            Some(id),
        ),
{
    if edge_member_issue(ws, id, e, zone) is Some {
        let i = edge_member_issue(ws, id, e, zone).unwrap();
        lemma_edge_member_part(ws, id, e, e.zone_ids@, zone);
        let a = missing_id_issues(id, "edge"@, "edge is missing a non-null id"@);
        let b = edge_member_issues(ws, id, e, e.zone_ids@);
        let c = traffic_findings(in_order(edge_traffic_issues(e.properties@)), "edge"@, id);
        lemma_in_either(a, b, i);
        lemma_in_either(a + b, c, i);
        super::laws::lemma_edge_found(ws, id);
        lemma_first_seen(edge_ids(ws));
        let p = choose|p: int| 0 <= p < ws.edges@.len() && (#[trigger] ws.edges@[p]).id == id;
        assert(edge_ids(ws)[p] == id);
        assert(edge_ids(ws).contains(id));
        lemma_edge_part(ws, first_seen(edge_ids(ws)), id, i);
        lemma_parts(ws, i);
        lemma_finds(ws, i);
    }
}

proof fn lemma_mapped<A>(s: Seq<A>, f: spec_fn(A) -> ValidationIssueView, x: A)
    requires
        s.contains(x),
    ensures
        s.map_values(f).contains(f(x)),
{
    let k = choose|k: int| 0 <= k < s.len() && s[k] == x;
    assert(s.map_values(f)[k] == f(x));
}

proof fn lemma_uniqueness_parts(ws: &Workspace, i: ValidationIssueView)
    ensures
        ({
            let a = duplicate_issues(
                repeated(walk_ids(zone_walk(ws)), true),
                "zone"@,
                "multiple zones share the same UUID"@,
            );
            let b = duplicate_issues(
                repeated(node_ids(ws), false),
                "node"@,
                "multiple nodes share the same UUID"@,
            );
            let c = duplicate_issues(
                repeated(edge_ids(ws), false),
                "edge"@,
                "multiple edges share the same UUID"@,
            );
            let d = duplicate_alias_issues(
                repeated_aliases(zone_aliases(ws)),
                "zone"@,
                "multiple zones share numeric id "@,
            );
            let e = duplicate_alias_issues(
                repeated_aliases(node_aliases(ws)),
                "node"@,
                "multiple nodes share numeric id "@,
            );
            let f = duplicate_alias_issues(
                repeated_aliases(edge_aliases(ws)),
                "edge"@,
                "multiple edges share numeric id "@,
            );
            uniqueness_issues(ws).contains(i) <==> a.contains(i) || b.contains(i) || c.contains(i)
                || d.contains(i) || e.contains(i) || f.contains(i)
        }),
{
    let a = duplicate_issues(
        repeated(walk_ids(zone_walk(ws)), true),
        "zone"@,
        "multiple zones share the same UUID"@,
    );
    let b = duplicate_issues(
        repeated(node_ids(ws), false),
        "node"@,
        "multiple nodes share the same UUID"@,
    );
    let c = duplicate_issues(
        repeated(edge_ids(ws), false),
        "edge"@,
        "multiple edges share the same UUID"@,
    );
    let d = duplicate_alias_issues(
        repeated_aliases(zone_aliases(ws)),
        "zone"@,
        "multiple zones share numeric id "@,
    );
    let e = duplicate_alias_issues(
        repeated_aliases(node_aliases(ws)),
        "node"@,
        "multiple nodes share numeric id "@,
    );
    let f = duplicate_alias_issues(
        repeated_aliases(edge_aliases(ws)),
        "edge"@,
        "multiple edges share numeric id "@,
    );
    lemma_in_either(a, b, i);
    lemma_in_either(a + b, c, i);
    lemma_in_either(a + b + c, d, i);
    lemma_in_either(a + b + c + d, e, i);
    lemma_in_either(a + b + c + d + e, f, i);
}

proof fn lemma_duplicate_found(
    ws: &Workspace,
    ids: Seq<Uuid>,
    kind: Seq<char>,
    message: Seq<char>,
    id: Uuid,
)
    requires
        ids.contains(id),
        forall|i: ValidationIssueView|
            duplicate_issues(ids, kind, message).contains(i) ==> #[trigger] uniqueness_issues(
                ws,
            ).contains(i),
    ensures
        finds(ws, ValidationSeverity::Error, "duplicate_id"@, kind, Some(id)),
{
    let f = |x: Uuid|
        super::validation::finding(
            ValidationSeverity::Error,
            "duplicate_id"@,
            kind,
            Some(x),
            message,
        );
    lemma_mapped(ids, f, id);
    assert(duplicate_issues(ids, kind, message) =~= ids.map_values(f));
    let i = f(id);
    assert(uniqueness_issues(ws).contains(i));
    lemma_parts(ws, i);
    lemma_finds(ws, i);
}

proof fn lemma_duplicate_alias_found(
    ws: &Workspace,
    ns: Seq<u64>,
    kind: Seq<char>,
    message: Seq<char>,
    n: u64,
)
    requires
        ns.contains(n),
        forall|i: ValidationIssueView|
            duplicate_alias_issues(ns, kind, message).contains(i) ==> #[trigger] uniqueness_issues(
                ws,
            ).contains(i),
    ensures
        finds(ws, ValidationSeverity::Error, "duplicate_numeric_id"@, kind, None),
{
    let f = |x: u64|
        super::validation::finding(
            ValidationSeverity::Error,
            "duplicate_numeric_id"@,
            kind,
            None,
            message + crate::text::decimal_text(x as nat),
        );
    lemma_mapped(ns, f, n);
    assert(duplicate_alias_issues(ns, kind, message) =~= ns.map_values(f));
    let i = f(n);
    assert(uniqueness_issues(ws).contains(i));
    lemma_parts(ws, i);
    lemma_finds(ws, i);
}

/// Two zones, nodes or edges with one identifier are reported as an error, and so
/// are two with one alias.
pub proof fn lemma_shared_identifiers_are_found(ws: &Workspace, id: Uuid, n: u64)
    ensures
        stands_twice(walk_ids(zone_walk(ws)), id) ==> finds(
            ws,
            ValidationSeverity::Error,
            "duplicate_id"@,
            "zone"@,
            Some(id),
        ),
        stands_twice(node_ids(ws), id) && id != 0 ==> finds(
            ws,
            ValidationSeverity::Error,
            "duplicate_id"@,
            "node"@,
            Some(id),
        ),
        stands_twice(edge_ids(ws), id) && id != 0 ==> finds(
            ws,
            ValidationSeverity::Error,
            "duplicate_id"@,
            "edge"@,
            Some(id),
        ),
        carried_twice(zone_aliases(ws), n) ==> finds(
            ws,
            ValidationSeverity::Error,
            "duplicate_numeric_id"@,
            "zone"@,
            None,
        ),
        carried_twice(node_aliases(ws), n) ==> finds(
            ws,
            ValidationSeverity::Error,
            "duplicate_numeric_id"@,
            "node"@,
            None,
        ),
        carried_twice(edge_aliases(ws), n) ==> finds(
            ws,
            ValidationSeverity::Error,
            "duplicate_numeric_id"@,
            "edge"@,
            None,
        ),
{
    let za = "multiple zones share the same UUID"@;
    let na = "multiple nodes share the same UUID"@;
    let ea = "multiple edges share the same UUID"@;
    let zb = "multiple zones share numeric id "@;
    let nb = "multiple nodes share numeric id "@;
    let eb = "multiple edges share numeric id "@;
    let zones = repeated(walk_ids(zone_walk(ws)), true);
    let nodes = repeated(node_ids(ws), false);
    let edges = repeated(edge_ids(ws), false);
    let zn = repeated_aliases(zone_aliases(ws));
    let nn = repeated_aliases(node_aliases(ws));
    let en = repeated_aliases(edge_aliases(ws));
    lemma_when_an_id_is_repeated(walk_ids(zone_walk(ws)), true, id);
    lemma_when_an_id_is_repeated(node_ids(ws), false, id);
    lemma_when_an_id_is_repeated(edge_ids(ws), false, id);
    lemma_when_an_alias_is_repeated(zone_aliases(ws), n);
    lemma_when_an_alias_is_repeated(node_aliases(ws), n);
    lemma_when_an_alias_is_repeated(edge_aliases(ws), n);
    assert forall|i: ValidationIssueView|
        duplicate_issues(zones, "zone"@, za).contains(i) || duplicate_issues(
            nodes,
            "node"@,
            na,
        ).contains(i) || duplicate_issues(edges, "edge"@, ea).contains(i) || duplicate_alias_issues(
            zn,
            "zone"@,
            zb,
        ).contains(i) || duplicate_alias_issues(nn, "node"@, nb).contains(i)
            || duplicate_alias_issues(en, "edge"@, eb).contains(
            i,
        ) implies #[trigger] uniqueness_issues(ws).contains(i) by {
        lemma_uniqueness_parts(ws, i);
    }
    if zones.contains(id) {
        lemma_duplicate_found(ws, zones, "zone"@, za, id);
    }
    if nodes.contains(id) {
        lemma_duplicate_found(ws, nodes, "node"@, na, id);
    }
    if edges.contains(id) {
        lemma_duplicate_found(ws, edges, "edge"@, ea, id);
    }
    if zn.contains(n) {
        lemma_duplicate_alias_found(ws, zn, "zone"@, zb, n);
    }
    if nn.contains(n) {
        lemma_duplicate_alias_found(ws, nn, "node"@, nb, n);
    }
    if en.contains(n) {
        lemma_duplicate_alias_found(ws, en, "edge"@, eb, n);
    }
}

/// A workspace with local coordinates and no reference origin is reported as an
/// error, and one with global coordinates and a reference origin with a warning.
pub proof fn lemma_reference_is_found(ws: &Workspace)
    ensures
        ws.coord_mode == CoordMode::Local && ws.datum is None ==> finds(
            ws,
            ValidationSeverity::Error,
            "invalid_reference"@,
            "workspace"@,
            None,
        ),
        ws.coord_mode == CoordMode::Global && ws.datum is Some ==> finds(
            ws,
            ValidationSeverity::Warning,
            "ignored_reference"@,
            "workspace"@,
            None,
        ),
{
    let r = reference_issues(ws);
    if r.len() > 0 {
        assert(r.contains(r[0]));
        lemma_parts(ws, r[0]);
        lemma_finds(ws, r[0]);
    }
}

/// What is wrong with a traffic property of a zone or an edge is reported as an
/// error, and what is doubtful with a warning.
pub proof fn lemma_traffic_findings_are_passed_on(
    ws: &Workspace,
    id: Uuid,
    i: TrafficParseIssueView,
)
    ensures
        zone_at(ws, id) matches Some(z) ==> (zone_traffic_issues(z.properties@).contains(i)
            ==> finds(
            ws,
            if i.severity == crate::policy::TrafficIssueSeverity::Error {
                ValidationSeverity::Error
            } else {
                ValidationSeverity::Warning
            },
            "traffic_property"@,
            "zone"@,
            Some(id),
        )),
        edge_at(ws, id) matches Some(e) ==> (edge_traffic_issues(e.properties@).contains(i)
            ==> finds(
            ws,
            if i.severity == crate::policy::TrafficIssueSeverity::Error {
                ValidationSeverity::Error
            } else {
                ValidationSeverity::Warning
            },
            "traffic_property"@,
            "edge"@,
            Some(id),
        )),
{
    if let Some(z) = zone_at(ws, id) {
        let found = zone_traffic_issues(z.properties@);
        if found.contains(i) {
            lemma_still_there(found, i);
            let f = |x: TrafficParseIssueView| traffic_finding(x, "zone"@, id);
            lemma_mapped(in_order(found), f, i);
            let c = traffic_findings(in_order(found), "zone"@, id);
            assert(c =~= in_order(found).map_values(f));
            let t = f(i);
            let a = missing_id_issues(z.id, "zone"@, "zone is missing a non-null id"@);
            let b = zone_member_issues(ws, id, z.node_ids@);
            lemma_in_either(a + b, c, t);
            lemma_zone_order(ws, id);
            lemma_zone_part(ws, zone_order(ws), id, t);
            lemma_parts(ws, t);
            lemma_finds(ws, t);
        }
    }
    if let Some(e) = edge_at(ws, id) {
        let found = edge_traffic_issues(e.properties@);
        if found.contains(i) {
            lemma_still_there(found, i);
            let f = |x: TrafficParseIssueView| traffic_finding(x, "edge"@, id);
            lemma_mapped(in_order(found), f, i);
            let c = traffic_findings(in_order(found), "edge"@, id);
            assert(c =~= in_order(found).map_values(f));
            let t = f(i);
            let a = missing_id_issues(id, "edge"@, "edge is missing a non-null id"@);
            let b = edge_member_issues(ws, id, e, e.zone_ids@);
            lemma_in_either(a + b, c, t);
            super::laws::lemma_edge_found(ws, id);
            lemma_first_seen(edge_ids(ws));
            let p = choose|p: int| 0 <= p < ws.edges@.len() && (#[trigger] ws.edges@[p]).id == id;
            assert(edge_ids(ws)[p] == id);
            assert(edge_ids(ws).contains(id));
            lemma_edge_part(ws, first_seen(edge_ids(ws)), id, t);
            lemma_parts(ws, t);
            lemma_finds(ws, t);
        }
    }
}

proof fn lemma_still_there(s: Seq<TrafficParseIssueView>, i: TrafficParseIssueView)
    requires
        s.contains(i),
    ensures
        in_order(s).contains(i),
{
    lemma_in_order(s);
    s.to_multiset_ensures();
    in_order(s).to_multiset_ensures();
    assert(s.to_multiset().contains(i));
}

// ---------------------------------------------------------------------------
// workspaces about which nothing is found
// ---------------------------------------------------------------------------

/// Whether a zone lists only nodes that list it, and its traffic properties are in
/// order.
pub open spec fn zone_is_sound(ws: &Workspace, z: &Zone) -> bool {
    &&& forall|k: int|
        0 <= k < z.node_ids@.len() ==> (node_at(ws, #[trigger] z.node_ids@[k]) matches Some(n)
            && n.zone_ids@.contains(z.id))
    &&& zone_traffic_issues(z.properties@).len() == 0
}

/// Whether an edge lists only zones that are there and that hold one of its ends,
/// and its traffic properties are in order.
pub open spec fn edge_is_sound(ws: &Workspace, e: &Edge) -> bool {
    &&& forall|k: int|
        0 <= k < e.zone_ids@.len() ==> {
            let z = #[trigger] e.zone_ids@[k];
            zone_at(ws, z) is Some && ((e.source < ws.nodes@.len()
                && ws.nodes@[e.source as int].zone_ids@.contains(z)) || (e.target < ws.nodes@.len()
                && ws.nodes@[e.target as int].zone_ids@.contains(z)))
        }
    &&& edge_traffic_issues(e.properties@).len() == 0
}

proof fn lemma_none_in_order(s: Seq<TrafficParseIssueView>)
    requires
        s.len() == 0,
    ensures
        in_order(s).len() == 0,
{
}

proof fn lemma_sound_zone_members(ws: &Workspace, zone: Uuid, nodes: Seq<Uuid>)
    requires
        forall|k: int|
            0 <= k < nodes.len() ==> (node_at(ws, #[trigger] nodes[k]) matches Some(n)
                && n.zone_ids@.contains(zone)),
    ensures
        zone_member_issues(ws, zone, nodes).len() == 0,
    decreases nodes.len(),
{
    if nodes.len() > 0 {
        let rest = nodes.drop_last();
        assert forall|k: int| 0 <= k < rest.len() implies (node_at(
            ws,
            #[trigger] rest[k],
        ) matches Some(n) && n.zone_ids@.contains(zone)) by {
            assert(nodes[k] == rest[k]);
        }
        lemma_sound_zone_members(ws, zone, rest);
        assert(node_at(ws, nodes[nodes.len() - 1]) is Some);
    }
}

proof fn lemma_sound_node_members(ws: &Workspace, node: Uuid, zones: Seq<Uuid>)
    requires
        forall|k: int| 0 <= k < zones.len() ==> zone_at(ws, #[trigger] zones[k]) is Some,
    ensures
        node_member_issues(ws, node, zones).len() == 0,
    decreases zones.len(),
{
    if zones.len() > 0 {
        let rest = zones.drop_last();
        assert forall|k: int| 0 <= k < rest.len() implies zone_at(
            ws,
            #[trigger] rest[k],
        ) is Some by {
            assert(zones[k] == rest[k]);
        }
        lemma_sound_node_members(ws, node, rest);
        assert(zone_at(ws, zones[zones.len() - 1]) is Some);
    }
}

proof fn lemma_sound_edge_members(ws: &Workspace, id: Uuid, e: &Edge, zones: Seq<Uuid>)
    requires
        forall|k: int|
            0 <= k < zones.len() ==> edge_member_issue(ws, id, e, #[trigger] zones[k]) is None,
    ensures
        edge_member_issues(ws, id, e, zones).len() == 0,
    decreases zones.len(),
{
    if zones.len() > 0 {
        let rest = zones.drop_last();
        assert forall|k: int| 0 <= k < rest.len() implies edge_member_issue(
            ws,
            id,
            e,
            #[trigger] rest[k],
        ) is None by {
            assert(zones[k] == rest[k]);
        }
        lemma_sound_edge_members(ws, id, e, rest);
        assert(edge_member_issue(ws, id, e, zones[zones.len() - 1]) is None);
    }
}

proof fn lemma_sound_zones(ws: &Workspace, ids: Seq<Uuid>)
    requires
        !ids.contains(0),
        forall|id: Uuid| (#[trigger] zone_at(ws, id)) matches Some(z) ==> zone_is_sound(ws, z),
    ensures
        all_zone_issues(ws, ids).len() == 0,
    decreases ids.len(),
{
    if ids.len() > 0 {
        let id = ids.last();
        assert forall|x: Uuid| ids.drop_last().contains(x) implies ids.contains(x) by {
            lemma_last_or_earlier(ids, x);
        }
        lemma_sound_zones(ws, ids.drop_last());
        lemma_last_or_earlier(ids, id);
        if let Some(z) = zone_at(ws, id) {
            lemma_zone_order(ws, id);
            lemma_sound_zone_members(ws, id, z.node_ids@);
            lemma_none_in_order(zone_traffic_issues(z.properties@));
        }
    }
}

proof fn lemma_sound_nodes(ws: &Workspace, ids: Seq<Uuid>)
    requires
        !ids.contains(0),
        forall|id: Uuid| (#[trigger] node_at(ws, id)) matches Some(n) ==> forall|k: int|
            0 <= k < n.zone_ids@.len() ==> zone_at(ws, #[trigger] n.zone_ids@[k]) is Some,
    ensures
        all_node_issues(ws, ids).len() == 0,
    decreases ids.len(),
{
    if ids.len() > 0 {
        let id = ids.last();
        assert forall|x: Uuid| ids.drop_last().contains(x) implies ids.contains(x) by {
            lemma_last_or_earlier(ids, x);
        }
        lemma_sound_nodes(ws, ids.drop_last());
        lemma_last_or_earlier(ids, id);
        if let Some(n) = node_at(ws, id) {
            lemma_sound_node_members(ws, id, n.zone_ids@);
        }
    }
}

proof fn lemma_sound_edges(ws: &Workspace, ids: Seq<Uuid>)
    requires
        !ids.contains(0),
        forall|id: Uuid| (#[trigger] edge_at(ws, id)) matches Some(e) ==> edge_is_sound(ws, e),
    ensures
        all_edge_issues(ws, ids).len() == 0,
    decreases ids.len(),
{
    if ids.len() > 0 {
        let id = ids.last();
        assert forall|x: Uuid| ids.drop_last().contains(x) implies ids.contains(x) by {
            lemma_last_or_earlier(ids, x);
        }
        lemma_sound_edges(ws, ids.drop_last());
        lemma_last_or_earlier(ids, id);
        if let Some(e) = edge_at(ws, id) {
            lemma_sound_edge_members(ws, id, e, e.zone_ids@);
            lemma_none_in_order(edge_traffic_issues(e.properties@));
        }
    }
}

proof fn lemma_no_repeats(ids: Seq<Uuid>, with_null: bool)
    requires
        ids.no_duplicates(),
    ensures
        repeated(ids, with_null).len() == 0,
{
    let r = repeated(ids, with_null);
    if r.len() > 0 {
        lemma_when_an_id_is_repeated(ids, with_null, r[0]);
        assert(r.contains(r[0]));
    }
}

proof fn lemma_no_repeated_aliases(entries: Seq<(Option<u64>, Uuid)>)
    requires
        forall|n: u64| !#[trigger] carried_twice(entries, n),
    ensures
        repeated_aliases(entries).len() == 0,
{
    let r = repeated_aliases(entries);
    if r.len() > 0 {
        lemma_when_an_alias_is_repeated(entries, r[0]);
        assert(r.contains(r[0]));
    }
}

/// Nothing is found about a workspace whose reference origin fits its coordinates,
/// whose identifiers are unique and not null, whose aliases are unique, in which
/// zones, nodes and edges agree on who belongs to whom, and whose traffic
/// properties are in order.
pub proof fn lemma_nothing_is_found_about_a_sound_workspace(ws: &Workspace)
    requires
        ws.coord_mode == CoordMode::Local <==> ws.datum is Some,
        walk_ids(zone_walk(ws)).no_duplicates(),
        node_ids(ws).no_duplicates(),
        edge_ids(ws).no_duplicates(),
        !walk_ids(zone_walk(ws)).contains(0),
        !node_ids(ws).contains(0),
        !edge_ids(ws).contains(0),
        forall|n: u64| !#[trigger] carried_twice(zone_aliases(ws), n),
        forall|n: u64| !#[trigger] carried_twice(node_aliases(ws), n),
        forall|n: u64| !#[trigger] carried_twice(edge_aliases(ws), n),
        forall|id: Uuid| (#[trigger] zone_at(ws, id)) matches Some(z) ==> zone_is_sound(ws, z),
        forall|id: Uuid| (#[trigger] node_at(ws, id)) matches Some(n) ==> forall|k: int|
            0 <= k < n.zone_ids@.len() ==> zone_at(ws, #[trigger] n.zone_ids@[k]) is Some,
        forall|id: Uuid| (#[trigger] edge_at(ws, id)) matches Some(e) ==> edge_is_sound(ws, e),
    ensures
        workspace_issues(ws).len() == 0,
{
    lemma_no_repeats(walk_ids(zone_walk(ws)), true);
    lemma_no_repeats(node_ids(ws), false);
    lemma_no_repeats(edge_ids(ws), false);
    lemma_no_repeated_aliases(zone_aliases(ws));
    lemma_no_repeated_aliases(node_aliases(ws));
    lemma_no_repeated_aliases(edge_aliases(ws));
    lemma_first_seen(walk_ids(zone_walk(ws)));
    lemma_first_seen(node_ids(ws));
    lemma_first_seen(edge_ids(ws));
    lemma_sound_zones(ws, zone_order(ws));
    lemma_sound_nodes(ws, first_seen(node_ids(ws)));
    lemma_sound_edges(ws, first_seen(edge_ids(ws)));
    assert(uniqueness_issues(ws).len() == 0);
}

} // verus!
