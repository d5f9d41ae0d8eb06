//! The workspace that robots share: a tree of zones and a graph of nodes and
//! edges.

use crate::guid::Uuid;
use crate::number::Real;
use crate::properties::Properties;
use vstd::prelude::*;

verus! {

/// How the geometry of a workspace is stored.
#[derive(Debug, Clone, Copy, PartialEq, Eq, Structural)]
pub enum CoordMode {
    Local,
    Global,
}

/// A place on the globe.
#[derive(Debug, Clone, Copy, PartialEq, Eq, Structural)]
pub struct Geo {
    pub latitude: Real,
    pub longitude: Real,
    pub altitude: Real,
}

/// A place in a local frame.
#[derive(Debug, Clone, Copy, PartialEq, Eq, Structural)]
pub struct Point {
    pub x: Real,
    pub y: Real,
    pub z: Real,
}

/// A zone with the zones inside it.
#[derive(Debug)]
pub struct Zone {
    pub id: Uuid,
    pub name: String,
    pub properties: Properties,
    pub node_ids: Vec<Uuid>,
    pub children: Vec<Zone>,
}

/// A node of the graph.
#[derive(Debug)]
pub struct Node {
    pub id: Uuid,
    /// The x and y of the node's place, written with a comma in between.
    pub position: String,
    pub zone_ids: Vec<Uuid>,
    pub properties: Properties,
}

/// An edge of the graph.
#[derive(Debug)]
pub struct Edge {
    pub id: Uuid,
    /// Where the source stands among the nodes.
    pub source: usize,
    /// Where the target stands among the nodes.
    pub target: usize,
    pub weight: Real,
    pub zone_ids: Vec<Uuid>,
    pub properties: Properties,
}

/// A tree of zones and a graph of nodes and edges.
#[derive(Debug)]
pub struct Workspace {
    pub root: Zone,
    pub nodes: Vec<Node>,
    pub edges: Vec<Edge>,
    pub coord_mode: CoordMode,
    pub datum: Option<Geo>,
}

// ---------------------------------------------------------------------------
// the zone tree from the root down
// ---------------------------------------------------------------------------

/// A zone and all zones below it, each before those inside it, and the inner
/// ones in their order.
pub open spec fn preorder(zone: &Zone) -> Seq<&Zone>
    decreases zone, zone.children@.len() + 1,
{
    seq![zone] + preorder_from(zone, 0)
}

/// All zones inside a zone, from its child number `i` on.
pub open spec fn preorder_from(zone: &Zone, i: nat) -> Seq<&Zone>
    decreases zone, zone.children@.len() - i,
{
    if i >= zone.children@.len() {
        Seq::empty()
    } else {
        preorder(&zone.children[i as int]) + preorder_from(zone, i + 1)
    }
}

/// The first zone in a list that has an identifier.
pub open spec fn first_zone(zones: Seq<&Zone>, id: Uuid) -> Option<&Zone>
    decreases zones.len(),
{
    if zones.len() == 0 {
        None
    } else if zones[0].id == id {
        Some(zones[0])
    } else {
        first_zone(zones.drop_first(), id)
    }
}

/// The zone that an identifier stands for: the first one in the tree that has
/// it.
pub open spec fn zone_at(ws: &Workspace, id: Uuid) -> Option<&Zone> {
    first_zone(preorder(&ws.root), id)
}

/// The zones that a stack still leads to, from its top down.
spec fn preorder_of_stack(stack: Seq<&Zone>) -> Seq<&Zone>
    decreases stack.len(),
{
    if stack.len() == 0 {
        Seq::empty()
    } else {
        preorder(stack.last()) + preorder_of_stack(stack.drop_last())
    }
}

impl Workspace {
    /// Finds a zone by its identifier.
    pub fn find_zone(&self, id: Uuid) -> (zone: Option<&Zone>)
        ensures
            zone == zone_at(self, id),
    {
        let mut stack: Vec<&Zone> = Vec::new();
        stack.push(&self.root);
        assert(stack@.drop_last() =~= Seq::empty());
        assert(preorder_of_stack(stack@.drop_last()) =~= Seq::empty());
        assert(preorder_of_stack(stack@) =~= preorder(&self.root));
        while stack.len() > 0
            invariant
                zone_at(self, id) == first_zone(preorder_of_stack(stack@), id),
            decreases preorder_of_stack(stack@).len(),
        {
            let ghost before = stack@;
            let zone = stack.pop().unwrap();
            assert(stack@ =~= before.drop_last());
            let ghost rest = stack@;
            assert(preorder_of_stack(before) == seq![zone] + preorder_from(zone, 0)
                + preorder_of_stack(rest));
            if zone.id == id {
                return Some(zone);
            }
            let mut i: usize = zone.children.len();
            assert(preorder_from(zone, i as nat) + preorder_of_stack(rest) =~= preorder_of_stack(
                rest,
            ));
            while i > 0
                invariant
                    i <= zone.children.len(),
                    preorder_of_stack(stack@) == preorder_from(zone, i as nat) + preorder_of_stack(
                        rest,
                    ),
                decreases i,
            {
                i = i - 1;
                let ghost pushed = stack@;
                stack.push(&zone.children[i]);
                assert(stack@.drop_last() =~= pushed);
                assert(preorder_of_stack(stack@) =~= preorder_from(zone, i as nat)
                    + preorder_of_stack(rest));
            }
            assert(preorder_of_stack(before).drop_first() =~= preorder_of_stack(stack@));
        }
        None
    }
}

/// A zone that is found has the identifier it was sought by.
pub proof fn lemma_found_zone(zones: Seq<&Zone>, id: Uuid)
    ensures
        first_zone(zones, id) matches Some(z) ==> z.id == id && zones.contains(z),
        first_zone(zones, id) is Some <==> exists|i: int|
            0 <= i < zones.len() && (#[trigger] zones[i]).id == id,
    decreases zones.len(),
{
    if zones.len() > 0 {
        if zones[0].id == id {
            assert(zones.contains(zones[0]));
        } else {
            let rest = zones.drop_first();
            lemma_found_zone(rest, id);
            if first_zone(rest, id) is Some {
                let i = choose|i: int| 0 <= i < rest.len() && (#[trigger] rest[i]).id == id;
                assert(zones[i + 1].id == id);
                let z = first_zone(rest, id).unwrap();
                let j = choose|j: int| 0 <= j < rest.len() && rest[j] == z;
                assert(zones[j + 1] == z);
            }
            if exists|i: int| 0 <= i < zones.len() && (#[trigger] zones[i]).id == id {
                let i = choose|i: int| 0 <= i < zones.len() && (#[trigger] zones[i]).id == id;
                assert(rest[i - 1].id == id);
            }
        }
    }
}

// ---------------------------------------------------------------------------
// the zone tree as it is indexed
// ---------------------------------------------------------------------------

/// A zone and all zones below it, each with the identifier of the zone around
/// it: a zone before those inside it, and the inner ones from the last to the
/// first.
pub open spec fn walk(zone: &Zone, parent: Option<Uuid>) -> Seq<(&Zone, Option<Uuid>)>
    decreases zone, zone.children@.len() + 1,
{
    seq![(zone, parent)] + walk_children(zone, zone.children@.len())
}

/// All zones inside the first `n` children of a zone.
pub open spec fn walk_children(zone: &Zone, n: nat) -> Seq<(&Zone, Option<Uuid>)>
    decreases zone, n,
{
    if n == 0 || n > zone.children@.len() {
        Seq::empty()
    } else {
        walk(&zone.children[n - 1], Some(zone.id)) + walk_children(zone, (n - 1) as nat)
    }
}

spec fn walk_of_stack(stack: Seq<(&Zone, Option<Uuid>)>) -> Seq<(&Zone, Option<Uuid>)>
    decreases stack.len(),
{
    if stack.len() == 0 {
        Seq::empty()
    } else {
        walk(stack.last().0, stack.last().1) + walk_of_stack(stack.drop_last())
    }
}

/// Walks the zone tree. An explicit stack is used, so that the depth of the
/// tree does not matter.
pub fn walk_zones(root: &Zone) -> (visits: Vec<(&Zone, Option<Uuid>)>)
    ensures
        visits@ == walk(root, None),
{
    let mut visits: Vec<(&Zone, Option<Uuid>)> = Vec::new();
    let mut stack: Vec<(&Zone, Option<Uuid>)> = Vec::new();
    stack.push((root, None));
    assert(stack@.drop_last() =~= Seq::empty());
    assert(walk_of_stack(stack@.drop_last()) =~= Seq::empty());
    assert(visits@ + walk_of_stack(stack@) =~= walk(root, None));
    while stack.len() > 0
        invariant
            visits@ + walk_of_stack(stack@) == walk(root, None),
        decreases walk_of_stack(stack@).len(),
    {
        let ghost before = stack@;
        let ghost done = visits@;
        let (zone, parent) = stack.pop().unwrap();
        assert(stack@ =~= before.drop_last());
        let ghost rest = stack@;
        visits.push((zone, parent));
        let mut i: usize = 0;
        assert(walk_children(zone, 0) + walk_of_stack(rest) =~= walk_of_stack(rest));
        while i < zone.children.len()
            invariant
                i <= zone.children.len(),
                walk_of_stack(stack@) == walk_children(zone, i as nat) + walk_of_stack(rest),
            decreases zone.children.len() - i,
        {
            let ghost pushed = stack@;
            stack.push((&zone.children[i], Some(zone.id)));
            assert(stack@.drop_last() =~= pushed);
            i = i + 1;
            assert(walk_of_stack(stack@) =~= walk_children(zone, i as nat) + walk_of_stack(rest));
        }
        assert(walk_of_stack(before) =~= seq![(zone, parent)] + walk_of_stack(stack@));
        assert(visits@ + walk_of_stack(stack@) =~= done + walk_of_stack(before));
    }
    assert(visits@ =~= walk(root, None));
    visits
}

/// Whether a walk comes to a zone with an identifier.
pub open spec fn visited(visits: Seq<(&Zone, Option<Uuid>)>, id: Uuid) -> bool {
    exists|i: int| 0 <= i < visits.len() && (#[trigger] visits[i]).0.id == id
}

proof fn lemma_visited_concat(
    a: Seq<(&Zone, Option<Uuid>)>,
    b: Seq<(&Zone, Option<Uuid>)>,
    id: Uuid,
)
    ensures
        visited(a + b, id) <==> visited(a, id) || visited(b, id),
{
    if visited(a + b, id) {
        let i = choose|i: int| 0 <= i < (a + b).len() && (#[trigger] (a + b)[i]).0.id == id;
        if i < a.len() {
            assert(a[i].0.id == id);
        } else {
            assert(b[i - a.len()].0.id == id);
        }
    }
    if visited(a, id) {
        let i = choose|i: int| 0 <= i < a.len() && (#[trigger] a[i]).0.id == id;
        assert((a + b)[i].0.id == id);
    }
    if visited(b, id) {
        let i = choose|i: int| 0 <= i < b.len() && (#[trigger] b[i]).0.id == id;
        assert((a + b)[i + a.len()].0.id == id);
    }
}

proof fn lemma_found_concat(a: Seq<&Zone>, b: Seq<&Zone>, id: Uuid)
    ensures
        first_zone(a + b, id) is Some <==> first_zone(a, id) is Some || first_zone(b, id) is Some,
{
    let c = a + b;
    lemma_found_zone(c, id);
    lemma_found_zone(a, id);
    lemma_found_zone(b, id);
    if first_zone(c, id) is Some {
        let i = choose|i: int| 0 <= i < c.len() && (#[trigger] c[i]).id == id;
        if i < a.len() {
            assert(a[i].id == id);
        } else {
            assert(b[i - a.len()].id == id);
        }
    }
    if first_zone(a, id) is Some {
        let i = choose|i: int| 0 <= i < a.len() && (#[trigger] a[i]).id == id;
        assert(c[i].id == id);
    }
    if first_zone(b, id) is Some {
        let i = choose|i: int| 0 <= i < b.len() && (#[trigger] b[i]).id == id;
        assert(c[i + a.len()].id == id);
    }
}

/// Whether some child of a zone, from number `from` and below `to`, holds a zone
/// with an identifier.
spec fn held_by_child(zone: &Zone, from: int, to: int, id: Uuid) -> bool {
    exists|k: int|
        from <= k < to && first_zone(preorder(&(#[trigger] zone.children[k])), id) is Some
}

proof fn lemma_preorder_from_finds(zone: &Zone, i: nat, id: Uuid)
    requires
        i <= zone.children@.len(),
    ensures
        first_zone(preorder_from(zone, i), id) is Some <==> held_by_child(
            zone,
            i as int,
            zone.children@.len() as int,
            id,
        ),
    decreases zone.children@.len() - i,
{
    let n = zone.children@.len();
    if i < n {
        lemma_preorder_from_finds(zone, i + 1, id);
        lemma_found_concat(preorder(&zone.children[i as int]), preorder_from(zone, i + 1), id);
        if first_zone(preorder(&zone.children[i as int]), id) is Some {
            assert(held_by_child(zone, i as int, n as int, id));
        }
        if held_by_child(zone, i as int + 1, n as int, id) {
            let k = choose|k: int|
                i + 1 <= k < n && first_zone(preorder(&(#[trigger] zone.children[k])), id) is Some;
            assert(held_by_child(zone, i as int, n as int, id));
        }
    }
}

proof fn lemma_walk_children_visits(zone: &Zone, n: nat, id: Uuid)
    requires
        n <= zone.children@.len(),
    ensures
        visited(walk_children(zone, n), id) <==> held_by_child(zone, 0, n as int, id),
    decreases zone, n,
{
    if n > 0 {
        lemma_walk_children_visits(zone, (n - 1) as nat, id);
        let child = &zone.children[n - 1];
        lemma_walk_finds_the_tree(child, Some(zone.id), id);
        lemma_visited_concat(
            walk(child, Some(zone.id)),
            walk_children(zone, (n - 1) as nat),
            id,
        );
        if first_zone(preorder(child), id) is Some {
            assert(held_by_child(zone, 0, n as int, id));
        }
        if held_by_child(zone, 0, n - 1, id) {
            let k = choose|k: int|
                0 <= k < n - 1 && first_zone(preorder(&(#[trigger] zone.children[k])), id) is Some;
            assert(held_by_child(zone, 0, n as int, id));
        }
    }
}

/// The walk over a tree comes to exactly the identifiers that are found in it.
pub proof fn lemma_walk_finds_the_tree(zone: &Zone, parent: Option<Uuid>, id: Uuid)
    ensures
        visited(walk(zone, parent), id) <==> first_zone(preorder(zone), id) is Some,
    decreases zone, zone.children@.len() + 1,
{
    let n = zone.children@.len();
    lemma_walk_children_visits(zone, n, id);
    lemma_preorder_from_finds(zone, 0, id);
    lemma_visited_concat(seq![(zone, parent)], walk_children(zone, n), id);
    lemma_found_concat(seq![zone], preorder_from(zone, 0), id);
    lemma_found_zone(seq![zone], id);
    assert(seq![(zone, parent)][0].0.id == zone.id);
    assert(seq![zone][0].id == zone.id);
}

} // verus!
