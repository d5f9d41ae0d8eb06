//! The lookup tables that an index holds, each stated over the workspace and
//! built from it.

use super::Adjacency;
use crate::guid::Uuid;
use crate::policy::parse::{
    edge_semantics_of, parse_edge_traffic_semantics, parse_zone_policy, zone_policy_of,
};
use crate::policy::{EdgeTrafficSemantics, EdgeTrafficSemanticsView, ZonePolicy, ZonePolicyView};
use crate::properties::{value_at, Properties, PropertyView};
use crate::text::{integer_of, read_integer, trim, trimmed};
use crate::workspace::{
    lemma_found_zone, lemma_walk_finds_the_tree, preorder, visited, walk, zone_at, Edge, Node,
    Workspace, Zone,
};
use std::collections::HashMap;
use vstd::prelude::*;

verus! {

broadcast use vstd::std_specs::hash::group_hash_axioms;

/// Property under which a zone, node or edge carries a numeric alias.
pub const NUMERIC_ID_PROPERTY: &'static str = "external.numeric_id";

// ---------------------------------------------------------------------------
// lists under keys
// ---------------------------------------------------------------------------

/// What the lists in a map hold.
pub open spec fn lists<T>(m: Map<Uuid, Vec<T>>) -> Map<Uuid, Seq<T>> {
    m.map_values(|v: Vec<T>| v@)
}

/// A map of lists with one more item at the end of the list under a key.
pub open spec fn appended<T>(m: Map<Uuid, Seq<T>>, key: Uuid, item: T) -> Map<Uuid, Seq<T>> {
    m.insert(
        key,
        if m.dom().contains(key) {
            m[key].push(item)
        } else {
            seq![item]
        },
    )
}

/// The list under a key, which is empty where there is none.
pub open spec fn list_at<T>(m: Map<Uuid, Seq<T>>, key: Uuid) -> Seq<T> {
    if m.dom().contains(key) {
        m[key]
    } else {
        Seq::empty()
    }
}

/// Puts an item at the end of the list under a key.
fn push_at<T>(map: &mut HashMap<Uuid, Vec<T>>, key: Uuid, item: T)
    ensures
        lists(final(map)@) == appended(lists(old(map)@), key, item),
{
    let mut list: Vec<T> = match map.remove(&key) {
        Some(l) => l,
        None => Vec::new(),
    };
    list.push(item);
    map.insert(key, list);
    assert(list@ =~= appended(lists(old(map)@), key, item)[key]);
    assert(lists(map@) =~= appended(lists(old(map)@), key, item));
}

/// The value under a key, if there is one.
pub open spec fn looked_up<K, V>(m: Map<K, V>, key: K) -> Option<V> {
    if m.dom().contains(key) {
        Some(m[key])
    } else {
        None
    }
}

// ---------------------------------------------------------------------------
// identifiers and where they stand
// ---------------------------------------------------------------------------

/// The different identifiers of a list, in the order in which they first occur.
pub open spec fn first_seen(ids: Seq<Uuid>) -> Seq<Uuid>
    decreases ids.len(),
{
    if ids.len() == 0 {
        Seq::empty()
    } else {
        let before = first_seen(ids.drop_last());
        if before.contains(ids.last()) {
            before
        } else {
            before.push(ids.last())
        }
    }
}

/// The identifiers that occur more than once, in the order in which they do so
/// first. The null identifier counts only if `with_null` says so.
pub open spec fn repeated(ids: Seq<Uuid>, with_null: bool) -> Seq<Uuid>
    decreases ids.len(),
{
    if ids.len() == 0 {
        Seq::empty()
    } else {
        let before = repeated(ids.drop_last(), with_null);
        let id = ids.last();
        if (with_null || id != 0) && ids.drop_last().contains(id) && !before.contains(id) {
            before.push(id)
        } else {
            before
        }
    }
}

/// Where each identifier of a list stands: the first place that has it, and for
/// the null identifier the last one.
pub open spec fn places(ids: Seq<Uuid>) -> Map<Uuid, usize>
    decreases ids.len(),
{
    if ids.len() == 0 {
        Map::empty()
    } else {
        let before = places(ids.drop_last());
        if ids.last() != 0 && before.dom().contains(ids.last()) {
            before
        } else {
            before.insert(ids.last(), (ids.len() - 1) as usize)
        }
    }
}

/// The different identifiers of a list are those of the list, each once.
pub proof fn lemma_first_seen(ids: Seq<Uuid>)
    ensures
        forall|id: Uuid| first_seen(ids).contains(id) <==> ids.contains(id),
        first_seen(ids).no_duplicates(),
        first_seen(ids).len() <= ids.len(),
    decreases ids.len(),
{
    if ids.len() > 0 {
        let rest = ids.drop_last();
        lemma_first_seen(rest);
        assert forall|id: Uuid| first_seen(ids).contains(id) <==> ids.contains(id) by {
            assert(first_seen(rest).push(ids.last()).contains(id) <==> first_seen(rest).contains(id)
                || id == ids.last()) by {
                let s = first_seen(rest).push(ids.last());
                if first_seen(rest).contains(id) {
                    let i = choose|i: int|
                        0 <= i < first_seen(rest).len() && first_seen(rest)[i] == id;
                    assert(s[i] == id);
                }
                assert(s[s.len() - 1] == ids.last());
            }
            assert(ids.contains(id) <==> rest.contains(id) || id == ids.last()) by {
                if rest.contains(id) {
                    let i = choose|i: int| 0 <= i < rest.len() && rest[i] == id;
                    assert(ids[i] == id);
                }
                if ids.contains(id) {
                    let i = choose|i: int| 0 <= i < ids.len() && ids[i] == id;
                    if i < rest.len() {
                        assert(rest[i] == id);
                    }
                }
                assert(ids[ids.len() - 1] == ids.last());
            }
        }
    }
}

/// A place is known for exactly the identifiers of the list, and it is one at
/// which the identifier stands: the first one unless the identifier is null.
pub proof fn lemma_places(ids: Seq<Uuid>)
    requires
        ids.len() <= usize::MAX,
    ensures
        forall|id: Uuid| #[trigger] places(ids).dom().contains(id) <==> ids.contains(id),
        forall|id: Uuid| #[trigger]
            places(ids).dom().contains(id) ==> places(ids)[id] < ids.len()
                && ids[places(ids)[id] as int] == id,
        forall|id: Uuid, j: int| #[trigger]
            places(ids).dom().contains(id) && id != 0 && 0 <= j < places(ids)[id]
                ==> #[trigger] ids[j] != id,
    decreases ids.len(),
{
    if ids.len() > 0 {
        let rest = ids.drop_last();
        lemma_places(rest);
        let known = ids.last() != 0 && places(rest).dom().contains(ids.last());
        lemma_places_known(ids);
        lemma_places_known(rest);
        assert forall|id: Uuid| #[trigger] places(ids).dom().contains(id) implies places(ids)[id]
            < ids.len() && ids[places(ids)[id] as int] == id by {
            if known || id != ids.last() {
                assert(places(rest).dom().contains(id));
            }
        }
        assert forall|id: Uuid, j: int| #[trigger]
            places(ids).dom().contains(id) && id != 0 && 0 <= j < places(ids)[id] implies
            #[trigger] ids[j] != id by {
            if known || id != ids.last() {
                assert(places(rest).dom().contains(id));
                assert(rest[j] == ids[j]);
            } else {
                assert(!places(rest).dom().contains(id));
                assert(rest[j] == ids[j]);
                assert(!rest.contains(id));
            }
        }
    }
}

/// A place is known for exactly the identifiers of the list.
pub proof fn lemma_places_known(ids: Seq<Uuid>)
    ensures
        forall|id: Uuid| #[trigger] places(ids).dom().contains(id) <==> ids.contains(id),
    decreases ids.len(),
{
    if ids.len() > 0 {
        let rest = ids.drop_last();
        lemma_places_known(rest);
        assert forall|id: Uuid| #[trigger] places(ids).dom().contains(id) <==> ids.contains(
            id,
        ) by {
            assert(ids.contains(id) <==> rest.contains(id) || id == ids.last()) by {
                assert(ids.take(ids.len() as int) =~= ids);
                assert(ids.take(ids.len() - 1) =~= rest);
                lemma_take_contains(ids, ids.len() - 1, id);
            }
            assert(places(rest).dom().contains(id) <==> rest.contains(id));
        }
    }
}

/// Whether a list holds an identifier.
pub fn contains_id(ids: &Vec<Uuid>, id: Uuid) -> (b: bool)
    ensures
        b == ids@.contains(id),
{
    let mut i: usize = 0;
    while i < ids.len()
        invariant
            i <= ids.len(),
            forall|j: int| 0 <= j < i ==> ids@[j] != id,
        decreases ids.len() - i,
    {
        if ids[i] == id {
            assert(ids@[i as int] == id);
            return true;
        }
        i = i + 1;
    }
    false
}

/// What is known of the identifiers of a list.
pub struct IdTable {
    pub places: HashMap<Uuid, usize>,
    pub order: Vec<Uuid>,
    pub duplicates: Vec<Uuid>,
}

/// Builds the table of the identifiers of a list.
pub fn index_ids(ids: &Vec<Uuid>, with_null: bool) -> (t: IdTable)
    ensures
        t.places@ == places(ids@),
        t.order@ == first_seen(ids@),
        t.duplicates@ == repeated(ids@, with_null),
{
    let mut table: HashMap<Uuid, usize> = HashMap::new();
    let mut order: Vec<Uuid> = Vec::new();
    let mut duplicates: Vec<Uuid> = Vec::new();
    let mut i: usize = 0;
    assert(ids@.take(0) =~= Seq::empty());
    while i < ids.len()
        invariant
            i <= ids.len(),
            table@ == places(ids@.take(i as int)),
            order@ == first_seen(ids@.take(i as int)),
            duplicates@ == repeated(ids@.take(i as int), with_null),
        decreases ids.len() - i,
    {
        let ghost done = ids@.take(i as int);
        let ghost next = ids@.take(i as int + 1);
        assert(next.drop_last() =~= done);
        let id = ids[i];
        assert(next.last() == id);
        proof {
            lemma_first_seen(done);
            lemma_places(done);
        }
        let known = table.contains_key(&id);
        if known {
            if (with_null || id != 0) && !contains_id(&duplicates, id) {
                duplicates.push(id);
            }
        } else {
            order.push(id);
        }
        if !known || id == 0 {
            table.insert(id, i);
        }
        i = i + 1;
    }
    assert(ids@.take(i as int) =~= ids@);
    IdTable { places: table, order, duplicates }
}

// ---------------------------------------------------------------------------
// zones
// ---------------------------------------------------------------------------

/// The identifiers that a walk comes to.
pub open spec fn walk_ids(visits: Seq<(&Zone, Option<Uuid>)>) -> Seq<Uuid> {
    visits.map_values(|v: (&Zone, Option<Uuid>)| v.0.id)
}

/// The identifiers of all zones of a workspace, as the walk comes to them.
pub open spec fn zone_walk(ws: &Workspace) -> Seq<(&Zone, Option<Uuid>)> {
    walk(&ws.root, None)
}

/// The zone around each zone. Where an identifier occurs more than once, the
/// last occurrence counts.
pub open spec fn parents_in(visits: Seq<(&Zone, Option<Uuid>)>) -> Map<Uuid, Uuid>
    decreases visits.len(),
{
    if visits.len() == 0 {
        Map::empty()
    } else {
        let before = parents_in(visits.drop_last());
        match visits.last().1 {
            Some(parent) => before.insert(visits.last().0.id, parent),
            None => before,
        }
    }
}

/// The zones directly inside each zone.
pub open spec fn children_in(visits: Seq<(&Zone, Option<Uuid>)>) -> Map<Uuid, Seq<Uuid>>
    decreases visits.len(),
{
    if visits.len() == 0 {
        Map::empty()
    } else {
        let before = children_in(visits.drop_last());
        match visits.last().1 {
            Some(parent) => appended(before, parent, visits.last().0.id),
            None => before,
        }
    }
}

/// The zone around each zone of a workspace.
pub open spec fn zone_parents(ws: &Workspace) -> Map<Uuid, Uuid> {
    parents_in(zone_walk(ws))
}

/// The zones directly inside each zone of a workspace.
pub open spec fn zone_children(ws: &Workspace) -> Map<Uuid, Seq<Uuid>> {
    children_in(zone_walk(ws))
}

/// The different identifiers of the zones of a workspace.
pub open spec fn zone_order(ws: &Workspace) -> Seq<Uuid> {
    first_seen(walk_ids(zone_walk(ws)))
}

/// The zones around and inside each zone.
pub struct ZoneLinks {
    pub parents: HashMap<Uuid, Uuid>,
    pub children: HashMap<Uuid, Vec<Uuid>>,
    pub ids: Vec<Uuid>,
}

/// Records the parents, children and identifiers of the zones of a walk.
pub fn index_zone_tree(visits: &Vec<(&Zone, Option<Uuid>)>) -> (t: ZoneLinks)
    ensures
        t.parents@ == parents_in(visits@),
        lists(t.children@) == children_in(visits@),
        t.ids@ == walk_ids(visits@),
{
    let mut parents: HashMap<Uuid, Uuid> = HashMap::new();
    let mut children: HashMap<Uuid, Vec<Uuid>> = HashMap::new();
    let mut ids: Vec<Uuid> = Vec::new();
    let mut i: usize = 0;
    assert(visits@.take(0) =~= Seq::empty());
    assert(lists(children@) =~= children_in(visits@.take(0)));
    while i < visits.len()
        invariant
            i <= visits.len(),
            parents@ == parents_in(visits@.take(i as int)),
            lists(children@) == children_in(visits@.take(i as int)),
            ids@ == walk_ids(visits@).take(i as int),
        decreases visits.len() - i,
    {
        let ghost next = visits@.take(i as int + 1);
        assert(next.drop_last() =~= visits@.take(i as int));
        let (zone, parent) = visits[i];
        assert(next.last() == visits@[i as int]);
        if let Some(p) = parent {
            parents.insert(zone.id, p);
            push_at(&mut children, p, zone.id);
        }
        ids.push(zone.id);
        i = i + 1;
        assert(ids@ =~= walk_ids(visits@).take(i as int));
    }
    assert(visits@.take(i as int) =~= visits@);
    assert(ids@ =~= walk_ids(visits@));
    ZoneLinks { parents, children, ids }
}

/// The identifiers in a walk are those of the zones that are found.
pub proof fn lemma_zone_order(ws: &Workspace, id: Uuid)
    ensures
        zone_order(ws).contains(id) <==> zone_at(ws, id) is Some,
        zone_at(ws, id) matches Some(z) ==> z.id == id,
{
    let visits = zone_walk(ws);
    let ids = walk_ids(visits);
    lemma_first_seen(ids);
    lemma_walk_finds_the_tree(&ws.root, None, id);
    lemma_found_zone(preorder(&ws.root), id);
    if ids.contains(id) {
        let i = choose|i: int| 0 <= i < ids.len() && ids[i] == id;
        assert(visits[i].0.id == id);
    }
    if visited(visits, id) {
        let i = choose|i: int| 0 <= i < visits.len() && (#[trigger] visits[i]).0.id == id;
        assert(ids[i] == id);
    }
}

/// The policy of a zone.
pub open spec fn policy_at(ws: &Workspace, id: Uuid) -> Option<ZonePolicyView> {
    match zone_at(ws, id) {
        Some(z) => Some(zone_policy_of(z.properties@)),
        None => None,
    }
}

/// The policies that a table of zone policies holds.
pub open spec fn holds_policies(m: Map<Uuid, ZonePolicy>, ws: &Workspace) -> bool {
    &&& forall|id: Uuid| #[trigger] m.dom().contains(id) <==> policy_at(ws, id) is Some
    &&& forall|id: Uuid| #[trigger] m.dom().contains(id) ==> policy_at(ws, id) == Some(m[id]@)
}

/// Reads the policies of all zones.
pub fn index_policies(ws: &Workspace, order: &Vec<Uuid>) -> (m: HashMap<Uuid, ZonePolicy>)
    requires
        order@ == zone_order(ws),
    ensures
        holds_policies(m@, ws),
{
    let mut m: HashMap<Uuid, ZonePolicy> = HashMap::new();
    let mut i: usize = 0;
    while i < order.len()
        invariant
            i <= order.len(),
            order@ == zone_order(ws),
            forall|id: Uuid|
                #![trigger m@.dom().contains(id)]
                m@.dom().contains(id) <==> order@.take(i as int).contains(id),
            forall|id: Uuid|
                #![trigger m@.dom().contains(id)]
                m@.dom().contains(id) ==> Some(m@[id]@) == policy_at(ws, id),
        decreases order.len() - i,
    {
        let id = order[i];
        proof {
            assert(zone_order(ws).contains(id)) by {
                assert(order@[i as int] == id);
            }
            lemma_zone_order(ws, id);
            assert forall|x: Uuid| order@.take(i as int + 1).contains(x) <==> order@.take(
                i as int,
            ).contains(x) || x == id by {
                lemma_take_contains(order@, i as int, x);
            }
        }
        if let Some(zone) = ws.find_zone(id) {
            m.insert(id, parse_zone_policy(&zone.properties));
        }
        i = i + 1;
    }
    proof {
        assert(order@.take(i as int) =~= order@);
        assert forall|id: Uuid| #[trigger] m@.dom().contains(id) <==> policy_at(ws, id) is Some by {
            lemma_zone_order(ws, id);
            if m@.dom().contains(id) {
                assert(Some(m@[id]@) == policy_at(ws, id));
            }
        }
    }
    m
}

/// A longer beginning of a list has one item more.
pub proof fn lemma_take_contains<T>(s: Seq<T>, i: int, x: T)
    requires
        0 <= i < s.len(),
    ensures
        s.take(i + 1).contains(x) <==> s.take(i).contains(x) || x == s[i],
{
    let long = s.take(i + 1);
    let short = s.take(i);
    if long.contains(x) {
        let k = choose|k: int| 0 <= k < long.len() && long[k] == x;
        if k < i {
            assert(short[k] == x);
        }
    }
    if short.contains(x) {
        let k = choose|k: int| 0 <= k < short.len() && short[k] == x;
        assert(long[k] == x);
    }
    assert(long[i] == s[i]);
}

// ---------------------------------------------------------------------------
// numeric aliases
// ---------------------------------------------------------------------------

/// The numeric alias that properties state.
pub open spec fn numeric_id_of(properties: Seq<PropertyView>) -> Option<u64> {
    match value_at(properties, NUMERIC_ID_PROPERTY@) {
        Some(text) => integer_of(trimmed(text)),
        None => None,
    }
}

/// Reads a numeric alias.
pub fn parse_numeric_id(raw: Option<&String>) -> (n: Option<u64>)
    ensures
        n == match raw {
            Some(text) => integer_of(trimmed(text@)),
            None => None,
        },
{
    match raw {
        Some(text) => read_integer(trim(text.as_str())),
        None => None,
    }
}

/// The numeric alias that properties state.
pub fn numeric_id(properties: &Properties) -> (n: Option<u64>)
    ensures
        n == numeric_id_of(properties@),
{
    parse_numeric_id(properties.get(NUMERIC_ID_PROPERTY))
}

/// What each numeric alias stands for: the first that carries it.
pub open spec fn aliases(entries: Seq<(Option<u64>, Uuid)>) -> Map<u64, Uuid>
    decreases entries.len(),
{
    if entries.len() == 0 {
        Map::empty()
    } else {
        let before = aliases(entries.drop_last());
        match entries.last().0 {
            Some(n) => if before.dom().contains(n) {
                before
            } else {
                before.insert(n, entries.last().1)
            },
            None => before,
        }
    }
}

/// The numeric aliases that different identifiers carry, in the order in which
/// that comes up.
pub open spec fn repeated_aliases(entries: Seq<(Option<u64>, Uuid)>) -> Seq<u64>
    decreases entries.len(),
{
    if entries.len() == 0 {
        Seq::empty()
    } else {
        let before = repeated_aliases(entries.drop_last());
        let known = aliases(entries.drop_last());
        match entries.last().0 {
            Some(n) => if known.dom().contains(n) && known[n] != entries.last().1
                && !before.contains(n) {
                before.push(n)
            } else {
                before
            },
            None => before,
        }
    }
}

/// Numeric aliases, and those of them that are not unique.
pub struct AliasTable {
    pub by_alias: HashMap<u64, Uuid>,
    pub duplicates: Vec<u64>,
}

fn contains_alias(ns: &Vec<u64>, n: u64) -> (b: bool)
    ensures
        b == ns@.contains(n),
{
    let mut i: usize = 0;
    while i < ns.len()
        invariant
            i <= ns.len(),
            forall|j: int| 0 <= j < i ==> ns@[j] != n,
        decreases ns.len() - i,
    {
        if ns[i] == n {
            assert(ns@[i as int] == n);
            return true;
        }
        i = i + 1;
    }
    false
}

/// Records what a numeric alias stands for, or that it is not unique.
pub fn insert_numeric_id(
    n: u64,
    id: Uuid,
    by_alias: &mut HashMap<u64, Uuid>,
    duplicates: &mut Vec<u64>,
)
    ensures
        old(by_alias)@.dom().contains(n) ==> final(by_alias)@ == old(by_alias)@,
        !old(by_alias)@.dom().contains(n) ==> final(by_alias)@ == old(by_alias)@.insert(n, id),
        final(duplicates)@ == if old(by_alias)@.dom().contains(n) && old(by_alias)@[n] != id
            && !old(duplicates)@.contains(n) {
            old(duplicates)@.push(n)
        } else {
            old(duplicates)@
        },
{
    let existing: Option<Uuid> = match by_alias.get(&n) {
        Some(e) => Some(*e),
        None => None,
    };
    match existing {
        Some(e) => {
            if e != id && !contains_alias(duplicates, n) {
                duplicates.push(n);
            }
        },
        None => {
            by_alias.insert(n, id);
        },
    }
}

/// Builds the table of numeric aliases.
pub fn index_aliases(entries: &Vec<(Option<u64>, Uuid)>) -> (t: AliasTable)
    ensures
        t.by_alias@ == aliases(entries@),
        t.duplicates@ == repeated_aliases(entries@),
{
    let mut by_alias: HashMap<u64, Uuid> = HashMap::new();
    let mut duplicates: Vec<u64> = Vec::new();
    let mut i: usize = 0;
    assert(entries@.take(0) =~= Seq::empty());
    while i < entries.len()
        invariant
            i <= entries.len(),
            by_alias@ == aliases(entries@.take(i as int)),
            duplicates@ == repeated_aliases(entries@.take(i as int)),
        decreases entries.len() - i,
    {
        let ghost next = entries@.take(i as int + 1);
        assert(next.drop_last() =~= entries@.take(i as int));
        assert(next.last() == entries@[i as int]);
        let (alias, id) = entries[i];
        if let Some(n) = alias {
            insert_numeric_id(n, id, &mut by_alias, &mut duplicates);
        }
        i = i + 1;
    }
    assert(entries@.take(i as int) =~= entries@);
    AliasTable { by_alias, duplicates }
}

/// The numeric aliases of the zones.
pub open spec fn zone_aliases(ws: &Workspace) -> Seq<(Option<u64>, Uuid)> {
    zone_order(ws).map_values(
        |id: Uuid|
            (
                match zone_at(ws, id) {
                    Some(z) => numeric_id_of(z.properties@),
                    None => None,
                },
                id,
            ),
    )
}

/// The numeric aliases of the nodes.
pub open spec fn node_aliases(ws: &Workspace) -> Seq<(Option<u64>, Uuid)> {
    ws.nodes@.map_values(|n: Node| (numeric_id_of(n.properties@), n.id))
}

/// The numeric aliases of the edges.
pub open spec fn edge_aliases(ws: &Workspace) -> Seq<(Option<u64>, Uuid)> {
    ws.edges@.map_values(|e: Edge| (numeric_id_of(e.properties@), e.id))
}

pub fn list_zone_aliases(ws: &Workspace, order: &Vec<Uuid>) -> (v: Vec<(Option<u64>, Uuid)>)
    requires
        order@ == zone_order(ws),
    ensures
        v@ == zone_aliases(ws),
{
    let mut v: Vec<(Option<u64>, Uuid)> = Vec::new();
    let mut i: usize = 0;
    while i < order.len()
        invariant
            i <= order.len(),
            order@ == zone_order(ws),
            v@ == zone_aliases(ws).take(i as int),
        decreases order.len() - i,
    {
        let alias: Option<u64> = match ws.find_zone(order[i]) {
            Some(zone) => numeric_id(&zone.properties),
            None => None,
        };
        v.push((alias, order[i]));
        i = i + 1;
        assert(v@ =~= zone_aliases(ws).take(i as int));
    }
    assert(v@ =~= zone_aliases(ws));
    v
}

pub fn list_node_aliases(ws: &Workspace) -> (v: Vec<(Option<u64>, Uuid)>)
    ensures
        v@ == node_aliases(ws),
{
    let mut v: Vec<(Option<u64>, Uuid)> = Vec::new();
    let mut i: usize = 0;
    while i < ws.nodes.len()
        invariant
            i <= ws.nodes.len(),
            v@ == node_aliases(ws).take(i as int),
        decreases ws.nodes.len() - i,
    {
        v.push((numeric_id(&ws.nodes[i].properties), ws.nodes[i].id));
        i = i + 1;
        assert(v@ =~= node_aliases(ws).take(i as int));
    }
    assert(v@ =~= node_aliases(ws));
    v
}

pub fn list_edge_aliases(ws: &Workspace) -> (v: Vec<(Option<u64>, Uuid)>)
    ensures
        v@ == edge_aliases(ws),
{
    let mut v: Vec<(Option<u64>, Uuid)> = Vec::new();
    let mut i: usize = 0;
    while i < ws.edges.len()
        invariant
            i <= ws.edges.len(),
            v@ == edge_aliases(ws).take(i as int),
        decreases ws.edges.len() - i,
    {
        v.push((numeric_id(&ws.edges[i].properties), ws.edges[i].id));
        i = i + 1;
        assert(v@ =~= edge_aliases(ws).take(i as int));
    }
    assert(v@ =~= edge_aliases(ws));
    v
}

// ---------------------------------------------------------------------------
// nodes and edges
// ---------------------------------------------------------------------------

/// The identifiers of the nodes.
pub open spec fn node_ids(ws: &Workspace) -> Seq<Uuid> {
    ws.nodes@.map_values(|n: Node| n.id)
}

/// The identifiers of the edges.
pub open spec fn edge_ids(ws: &Workspace) -> Seq<Uuid> {
    ws.edges@.map_values(|e: Edge| e.id)
}

pub fn list_node_ids(ws: &Workspace) -> (v: Vec<Uuid>)
    ensures
        v@ == node_ids(ws),
{
    let mut v: Vec<Uuid> = Vec::new();
    let mut i: usize = 0;
    while i < ws.nodes.len()
        invariant
            i <= ws.nodes.len(),
            v@ == node_ids(ws).take(i as int),
        decreases ws.nodes.len() - i,
    {
        v.push(ws.nodes[i].id);
        i = i + 1;
        assert(v@ =~= node_ids(ws).take(i as int));
    }
    assert(v@ =~= node_ids(ws));
    v
}

pub fn list_edge_ids(ws: &Workspace) -> (v: Vec<Uuid>)
    ensures
        v@ == edge_ids(ws),
{
    let mut v: Vec<Uuid> = Vec::new();
    let mut i: usize = 0;
    while i < ws.edges.len()
        invariant
            i <= ws.edges.len(),
            v@ == edge_ids(ws).take(i as int),
        decreases ws.edges.len() - i,
    {
        v.push(ws.edges[i].id);
        i = i + 1;
        assert(v@ =~= edge_ids(ws).take(i as int));
    }
    assert(v@ =~= edge_ids(ws));
    v
}

/// The node that an identifier stands for.
pub open spec fn node_at(ws: &Workspace, id: Uuid) -> Option<&Node> {
    match looked_up(places(node_ids(ws)), id) {
        Some(i) => Some(&ws.nodes[i as int]),
        None => None,
    }
}

/// The edge that an identifier stands for.
pub open spec fn edge_at(ws: &Workspace, id: Uuid) -> Option<&Edge> {
    match looked_up(places(edge_ids(ws)), id) {
        Some(i) => Some(&ws.edges[i as int]),
        None => None,
    }
}

/// The semantics of an edge, direction aside.
pub open spec fn semantics_at(ws: &Workspace, id: Uuid) -> Option<EdgeTrafficSemanticsView> {
    match edge_at(ws, id) {
        Some(e) => Some(edge_semantics_of(e.properties@, false)),
        None => None,
    }
}

/// The semantics that a table of edge semantics holds.
pub open spec fn holds_semantics(m: Map<Uuid, EdgeTrafficSemantics>, ws: &Workspace) -> bool {
    &&& forall|id: Uuid| #[trigger] m.dom().contains(id) <==> semantics_at(ws, id) is Some
    &&& forall|id: Uuid| #[trigger] m.dom().contains(id) ==> semantics_at(ws, id) == Some(m[id]@)
}

/// Reads the semantics of all edges.
pub fn index_semantics(
    ws: &Workspace,
    order: &Vec<Uuid>,
    table: &HashMap<Uuid, usize>,
) -> (m: HashMap<Uuid, EdgeTrafficSemantics>)
    requires
        order@ == first_seen(edge_ids(ws)),
        table@ == places(edge_ids(ws)),
    ensures
        holds_semantics(m@, ws),
{
    let mut m: HashMap<Uuid, EdgeTrafficSemantics> = HashMap::new();
    let mut i: usize = 0;
    proof {
        lemma_first_seen(edge_ids(ws));
        assert(edge_ids(ws).len() == ws.edges.len());
        lemma_places(edge_ids(ws));
    }
    while i < order.len()
        invariant
            i <= order.len(),
            order@ == first_seen(edge_ids(ws)),
            table@ == places(edge_ids(ws)),
            forall|id: Uuid| first_seen(edge_ids(ws)).contains(id) <==> edge_ids(ws).contains(id),
            forall|id: Uuid| #[trigger]
                places(edge_ids(ws)).dom().contains(id) <==> edge_ids(ws).contains(id),
            forall|id: Uuid| #[trigger]
                places(edge_ids(ws)).dom().contains(id) ==> places(edge_ids(ws))[id] < edge_ids(
                    ws,
                ).len(),
            forall|id: Uuid|
                #![trigger m@.dom().contains(id)]
                m@.dom().contains(id) <==> order@.take(i as int).contains(id),
            forall|id: Uuid|
                #![trigger m@.dom().contains(id)]
                m@.dom().contains(id) ==> Some(m@[id]@) == semantics_at(ws, id),
        decreases order.len() - i,
    {
        let id = order[i];
        proof {
            assert(order@[i as int] == id);
            assert(first_seen(edge_ids(ws)).contains(id));
            assert forall|x: Uuid| order@.take(i as int + 1).contains(x) <==> order@.take(
                i as int,
            ).contains(x) || x == id by {
                lemma_take_contains(order@, i as int, x);
            }
        }
        if let Some(place) = table.get(&id) {
            m.insert(id, parse_edge_traffic_semantics(&ws.edges[*place].properties, false));
        }
        i = i + 1;
    }
    proof {
        assert(order@.take(i as int) =~= order@);
        assert forall|id: Uuid| #[trigger] m@.dom().contains(id) <==> semantics_at(ws, id) is Some by {
            assert(first_seen(edge_ids(ws)).contains(id) <==> edge_ids(ws).contains(id));
            assert(places(edge_ids(ws)).dom().contains(id) <==> edge_ids(ws).contains(id));
            if m@.dom().contains(id) {
                assert(Some(m@[id]@) == semantics_at(ws, id));
            }
        }
    }
    m
}

/// The places of the nodes that are members of each zone.
pub open spec fn members_in(nodes: Seq<Node>) -> Map<Uuid, Seq<usize>>
    decreases nodes.len(),
{
    if nodes.len() == 0 {
        Map::empty()
    } else {
        enrolled(
            members_in(nodes.drop_last()),
            nodes.last().zone_ids@,
            (nodes.len() - 1) as usize,
        )
    }
}

/// Membership with one place more in each of the given zones.
pub open spec fn enrolled(
    m: Map<Uuid, Seq<usize>>,
    zone_ids: Seq<Uuid>,
    place: usize,
) -> Map<Uuid, Seq<usize>>
    decreases zone_ids.len(),
{
    if zone_ids.len() == 0 {
        m
    } else {
        appended(enrolled(m, zone_ids.drop_last(), place), zone_ids.last(), place)
    }
}

/// Records which nodes are members of each zone.
pub fn index_members(ws: &Workspace) -> (m: HashMap<Uuid, Vec<usize>>)
    ensures
        lists(m@) == members_in(ws.nodes@),
{
    let mut m: HashMap<Uuid, Vec<usize>> = HashMap::new();
    let mut i: usize = 0;
    assert(ws.nodes@.take(0) =~= Seq::empty());
    assert(lists(m@) =~= members_in(ws.nodes@.take(0)));
    while i < ws.nodes.len()
        invariant
            i <= ws.nodes.len(),
            lists(m@) == members_in(ws.nodes@.take(i as int)),
        decreases ws.nodes.len() - i,
    {
        let ghost before = lists(m@);
        let ghost next = ws.nodes@.take(i as int + 1);
        assert(next.drop_last() =~= ws.nodes@.take(i as int));
        let zone_ids = &ws.nodes[i].zone_ids;
        let mut j: usize = 0;
        assert(zone_ids@.take(0) =~= Seq::empty());
        while j < zone_ids.len()
            invariant
                j <= zone_ids.len(),
                lists(m@) == enrolled(before, zone_ids@.take(j as int), i),
            decreases zone_ids.len() - j,
        {
            assert(zone_ids@.take(j as int + 1).drop_last() =~= zone_ids@.take(j as int));
            push_at(&mut m, zone_ids[j], i);
            j = j + 1;
        }
        assert(zone_ids@.take(j as int) =~= zone_ids@);
        i = i + 1;
    }
    assert(ws.nodes@.take(i as int) =~= ws.nodes@);
    m
}

/// Whether both ends of an edge are nodes of the workspace.
pub open spec fn edge_stands(ws: &Workspace, e: &Edge) -> bool {
    e.source < ws.nodes@.len() && e.target < ws.nodes@.len()
}

/// The step over an edge from its source to its target.
pub open spec fn forward(ws: &Workspace, e: &Edge) -> Adjacency {
    Adjacency {
        node_id: ws.nodes@[e.target as int].id,
        edge_id: e.id,
        weight: e.weight,
        from_source: true,
    }
}

/// The step over an edge from its target to its source.
pub open spec fn backward(ws: &Workspace, e: &Edge) -> Adjacency {
    Adjacency {
        node_id: ws.nodes@[e.source as int].id,
        edge_id: e.id,
        weight: e.weight,
        from_source: false,
    }
}

/// The steps out of each node over the first `n` edges. A loop is one step, not
/// two.
pub open spec fn steps_over(ws: &Workspace, n: nat) -> Map<Uuid, Seq<Adjacency>>
    decreases n,
{
    if n == 0 || n > ws.edges@.len() {
        Map::empty()
    } else {
        let before = steps_over(ws, (n - 1) as nat);
        let e = &ws.edges[n - 1];
        if !edge_stands(ws, e) {
            before
        } else {
            let there = appended(before, ws.nodes@[e.source as int].id, forward(ws, e));
            if e.source == e.target {
                there
            } else {
                appended(there, ws.nodes@[e.target as int].id, backward(ws, e))
            }
        }
    }
}

/// The steps out of each node.
pub open spec fn steps_out(ws: &Workspace) -> Map<Uuid, Seq<Adjacency>> {
    steps_over(ws, ws.edges@.len())
}

/// Records the steps out of each node.
pub fn index_adjacency(ws: &Workspace) -> (m: HashMap<Uuid, Vec<Adjacency>>)
    ensures
        lists(m@) == steps_out(ws),
{
    let mut m: HashMap<Uuid, Vec<Adjacency>> = HashMap::new();
    let mut i: usize = 0;
    assert(lists(m@) =~= steps_over(ws, 0));
    while i < ws.edges.len()
        invariant
            i <= ws.edges.len(),
            lists(m@) == steps_over(ws, i as nat),
        decreases ws.edges.len() - i,
    {
        let e = &ws.edges[i];
        if e.source < ws.nodes.len() && e.target < ws.nodes.len() {
            let source = ws.nodes[e.source].id;
            let target = ws.nodes[e.target].id;
            push_at(
                &mut m,
                source,
                Adjacency {
                    node_id: target,
                    edge_id: e.id,
                    weight: e.weight,
                    from_source: true,
                },
            );
            if e.source != e.target {
                push_at(
                    &mut m,
                    target,
                    Adjacency {
                        node_id: source,
                        edge_id: e.id,
                        weight: e.weight,
                        from_source: false,
                    },
                );
            }
        }
        i = i + 1;
    }
    m
}

} // verus!
