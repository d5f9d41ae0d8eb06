//! Fast lookup over a workspace, and validation of its structure.

use crate::error::Error;
use crate::guid::{parse_uuid, uuid_denoted, uuid_text, uuid_to_text, Uuid};
use crate::number::Real;
use crate::policy::{EdgeTrafficSemantics, ZonePolicy, ZonePolicyView};
use crate::properties::{text_view, value_at};
use crate::text::{decimal, decimal_text, integer_of, read_integer, trim, trimmed};
use crate::views::{lemma_views_push, views};
use crate::workspace::{walk_zones, zone_at, CoordMode, Edge, Geo, Node, Point, Workspace, Zone};
use std::collections::{HashMap, HashSet};
use std::sync::Arc;
use tables::{
    aliases, edge_aliases, edge_at, edge_ids, first_seen, holds_policies, holds_semantics,
    index_adjacency, index_aliases, index_ids, index_members, index_policies, index_semantics,
    index_zone_tree, lemma_first_seen, lemma_places, lemma_zone_order, list_at, list_edge_aliases,
    list_edge_ids, list_node_aliases, list_node_ids, list_zone_aliases, lists, looked_up,
    members_in, node_aliases, node_at, node_ids, places, policy_at, repeated, repeated_aliases,
    semantics_at, steps_out, walk_ids, zone_aliases, zone_children, zone_order, zone_parents,
    zone_walk,
};
use vstd::prelude::*;
use walks::{
    ancestor_chain, below, deepest_from, depth_below, holds_ancestors, index_ancestors,
    is_ancestor, is_ancestor_chain, lemma_parent_stands, walk_below,
};

pub mod findings;
pub mod height;
pub mod laws;
pub mod steps;
pub mod tables;
pub mod validation;
pub mod walks;

verus! {

broadcast use vstd::std_specs::hash::group_hash_axioms;

/// One step out of a node.
#[derive(Debug, Clone, Copy, PartialEq, Eq, Structural)]
pub struct Adjacency {
    /// The node at the far end.
    pub node_id: Uuid,
    pub edge_id: Uuid,
    pub weight: Real,
    /// Whether this way leaves the edge's source.
    pub from_source: bool,
}

/// Lookup tables over a workspace.
pub struct WorkspaceIndex {
    workspace: Arc<Workspace>,
    adjacency: HashMap<Uuid, Vec<Adjacency>>,
    zone_policies: HashMap<Uuid, ZonePolicy>,
    edge_semantics: HashMap<Uuid, EdgeTrafficSemantics>,
    zone_ancestors: HashMap<Uuid, HashSet<Uuid>>,
    zone_places: HashMap<Uuid, usize>,
    zone_order: Vec<Uuid>,
    nodes: HashMap<Uuid, usize>,
    node_order: Vec<Uuid>,
    edges: HashMap<Uuid, usize>,
    edge_order: Vec<Uuid>,
    parents: HashMap<Uuid, Uuid>,
    children: HashMap<Uuid, Vec<Uuid>>,
    nodes_by_zone: HashMap<Uuid, Vec<usize>>,
    zones_by_numeric_id: HashMap<u64, Uuid>,
    nodes_by_numeric_id: HashMap<u64, Uuid>,
    edges_by_numeric_id: HashMap<u64, Uuid>,
    duplicate_zone_ids: Vec<Uuid>,
    duplicate_node_ids: Vec<Uuid>,
    duplicate_edge_ids: Vec<Uuid>,
    duplicate_zone_numeric_ids: Vec<u64>,
    duplicate_node_numeric_ids: Vec<u64>,
    duplicate_edge_numeric_ids: Vec<u64>,
}

impl View for WorkspaceIndex {
    type V = Workspace;

    closed spec fn view(&self) -> Workspace {
        *self.workspace
    }
}

/// The zones that a list of identifiers stands for, as far as there are any.
pub open spec fn zones_named(ws: &Workspace, ids: Seq<Uuid>) -> Seq<&Zone>
    decreases ids.len(),
{
    if ids.len() == 0 {
        Seq::empty()
    } else {
        let before = zones_named(ws, ids.drop_last());
        match zone_at(ws, ids.last()) {
            Some(z) => before.push(z),
            None => before,
        }
    }
}

/// The policies of the zones that a list of identifiers stands for.
pub open spec fn policies_named(ws: &Workspace, ids: Seq<Uuid>) -> Seq<ZonePolicyView>
    decreases ids.len(),
{
    if ids.len() == 0 {
        Seq::empty()
    } else {
        let before = policies_named(ws, ids.drop_last());
        match policy_at(ws, ids.last()) {
            Some(p) => before.push(p),
            None => before,
        }
    }
}

/// The identifiers of the zones that a node is a member of.
pub open spec fn node_zone_ids(ws: &Workspace, id: Uuid) -> Seq<Uuid> {
    match node_at(ws, id) {
        Some(n) => n.zone_ids@,
        None => Seq::empty(),
    }
}

/// The identifiers of the zones that an edge is a member of.
pub open spec fn edge_zone_ids(ws: &Workspace, id: Uuid) -> Seq<Uuid> {
    match edge_at(ws, id) {
        Some(e) => e.zone_ids@,
        None => Seq::empty(),
    }
}

/// The policies of the zones that a node is a member of.
pub open spec fn node_policies(ws: &Workspace, id: Uuid) -> Seq<ZonePolicyView> {
    policies_named(ws, node_zone_ids(ws, id))
}

/// The policies of the zones that an edge is a member of.
pub open spec fn edge_policies(ws: &Workspace, id: Uuid) -> Seq<ZonePolicyView> {
    policies_named(ws, edge_zone_ids(ws, id))
}

/// The zones below a zone, level by level. There are no more levels than zones.
pub open spec fn descendants(ws: &Workspace, id: Uuid) -> Seq<Uuid> {
    below(zone_children(ws), seq![id], zone_order(ws).len())
}

/// How deeply the zones of a workspace nest, counting the root as one.
pub open spec fn zone_depth(ws: &Workspace) -> usize {
    deepest_from(
        zone_children(ws),
        seq![(ws.root.id, 1usize)],
        Set::empty(),
        0,
        zone_order(ws).len(),
    )
}

/// Whether one zone is another one or somewhere around it.
pub open spec fn contains_zone(ws: &Workspace, ancestor: Uuid, id: Uuid) -> bool {
    ancestor == id || is_ancestor(zone_parents(ws), id, ancestor)
}

/// The place of the first edge, at `from` or behind it, that leads from one node
/// to another.
pub open spec fn link_from(edges: Seq<Edge>, source: usize, target: usize, from: nat) -> Option<
    usize,
>
    decreases edges.len() - from,
{
    if from >= edges.len() {
        None
    } else if edges[from as int].source == source && edges[from as int].target == target {
        Some(from as usize)
    } else {
        link_from(edges, source, target, from + 1)
    }
}

/// The place of the edge between two nodes: of one that leads from the first to
/// the second, and otherwise of one that leads back.
pub open spec fn link_place(ws: &Workspace, a: Uuid, b: Uuid) -> Option<usize> {
    let table = places(node_ids(ws));
    match (looked_up(table, a), looked_up(table, b)) {
        (Some(i), Some(j)) => match link_from(ws.edges@, i, j, 0) {
            Some(e) => Some(e),
            None => link_from(ws.edges@, j, i, 0),
        },
        _ => None,
    }
}

/// The edge between two nodes.
pub open spec fn link(ws: &Workspace, a: Uuid, b: Uuid) -> Option<&Edge> {
    match link_place(ws, a, b) {
        Some(i) => Some(&ws.edges[i as int]),
        None => None,
    }
}

fn find_link(edges: &Vec<Edge>, source: usize, target: usize) -> (e: Option<usize>)
    ensures
        e == link_from(edges@, source, target, 0),
        e matches Some(i) ==> i < edges@.len(),
{
    let mut i: usize = 0;
    while i < edges.len()
        invariant
            i <= edges.len(),
            link_from(edges@, source, target, 0) == link_from(edges@, source, target, i as nat),
        decreases edges.len() - i,
    {
        if edges[i].source == source && edges[i].target == target {
            return Some(i);
        }
        i = i + 1;
    }
    None
}

fn find_zones<'a>(ws: &'a Workspace, ids: &Vec<Uuid>) -> (zones: Vec<&'a Zone>)
    ensures
        zones@ == zones_named(ws, ids@),
{
    let mut zones: Vec<&'a Zone> = Vec::new();
    let mut i: usize = 0;
    assert(ids@.take(0) =~= Seq::empty());
    while i < ids.len()
        invariant
            i <= ids.len(),
            zones@ == zones_named(ws, ids@.take(i as int)),
        decreases ids.len() - i,
    {
        assert(ids@.take(i as int + 1).drop_last() =~= ids@.take(i as int));
        if let Some(zone) = ws.find_zone(ids[i]) {
            zones.push(zone);
        }
        i = i + 1;
    }
    assert(ids@.take(i as int) =~= ids@);
    zones
}

/// Zones that are all there come one for one.
pub proof fn lemma_zones_named(ws: &Workspace, ids: Seq<Uuid>)
    requires
        forall|i: int| 0 <= i < ids.len() ==> zone_at(ws, #[trigger] ids[i]) is Some,
    ensures
        zones_named(ws, ids).len() == ids.len(),
        forall|i: int|
            0 <= i < ids.len() ==> Some(#[trigger] zones_named(ws, ids)[i]) == zone_at(ws, ids[i])
                && zones_named(ws, ids)[i].id == ids[i],
    decreases ids.len(),
{
    if ids.len() > 0 {
        let rest = ids.drop_last();
        assert forall|i: int| 0 <= i < rest.len() implies zone_at(ws, #[trigger] rest[i]) is Some by {
            assert(rest[i] == ids[i]);
        }
        lemma_zones_named(ws, rest);
        lemma_zone_order(ws, ids.last());
        assert(zone_at(ws, ids[ids.len() - 1]) is Some);
    }
}

/// A table of places leads to nodes that are there.
proof fn lemma_members(nodes: Seq<Node>)
    requires
        nodes.len() <= usize::MAX,
    ensures
        forall|id: Uuid, j: int|
            0 <= j < list_at(members_in(nodes), id).len() ==> #[trigger] list_at(
                members_in(nodes),
                id,
            )[j] < nodes.len(),
    decreases nodes.len(),
{
    if nodes.len() > 0 {
        lemma_members(nodes.drop_last());
        lemma_enrolled(
            members_in(nodes.drop_last()),
            nodes.last().zone_ids@,
            (nodes.len() - 1) as usize,
            nodes.len(),
        );
    }
}

proof fn lemma_enrolled(m: Map<Uuid, Seq<usize>>, zone_ids: Seq<Uuid>, place: usize, n: nat)
    requires
        place < n,
        forall|id: Uuid, j: int| 0 <= j < list_at(m, id).len() ==> #[trigger] list_at(m, id)[j] < n,
    ensures
        forall|id: Uuid, j: int|
            0 <= j < list_at(tables::enrolled(m, zone_ids, place), id).len() ==> #[trigger] list_at(
                tables::enrolled(m, zone_ids, place),
                id,
            )[j] < n,
    decreases zone_ids.len(),
{
    if zone_ids.len() > 0 {
        lemma_enrolled(m, zone_ids.drop_last(), place, n);
        let before = tables::enrolled(m, zone_ids.drop_last(), place);
        let after = tables::enrolled(m, zone_ids, place);
        assert forall|id: Uuid, j: int| 0 <= j < list_at(after, id).len() implies #[trigger] list_at(
            after,
            id,
        )[j] < n by {
            if id == zone_ids.last() {
                if j < list_at(before, id).len() {
                    assert(list_at(after, id)[j] == list_at(before, id)[j]);
                }
            } else {
                assert(list_at(after, id) == list_at(before, id));
            }
        }
    }
}

impl WorkspaceIndex {
    #[verifier::type_invariant]
    spec fn agrees(self) -> bool {
        let ws = &*self.workspace;
        &&& lists(self.adjacency@) == steps_out(ws)
        &&& holds_policies(self.zone_policies@, ws)
        &&& holds_semantics(self.edge_semantics@, ws)
        &&& holds_ancestors(self.zone_ancestors@, ws)
        &&& self.zone_places@ == places(walk_ids(zone_walk(ws)))
        &&& self.zone_order@ == zone_order(ws)
        &&& self.nodes@ == places(node_ids(ws))
        &&& self.node_order@ == first_seen(node_ids(ws))
        &&& self.edges@ == places(edge_ids(ws))
        &&& self.edge_order@ == first_seen(edge_ids(ws))
        &&& self.parents@ == zone_parents(ws)
        &&& lists(self.children@) == zone_children(ws)
        &&& lists(self.nodes_by_zone@) == members_in(ws.nodes@)
        &&& self.zones_by_numeric_id@ == aliases(zone_aliases(ws))
        &&& self.nodes_by_numeric_id@ == aliases(node_aliases(ws))
        &&& self.edges_by_numeric_id@ == aliases(edge_aliases(ws))
        &&& self.duplicate_zone_ids@ == repeated(walk_ids(zone_walk(ws)), true)
        &&& self.duplicate_node_ids@ == repeated(node_ids(ws), false)
        &&& self.duplicate_edge_ids@ == repeated(edge_ids(ws), false)
        &&& self.duplicate_zone_numeric_ids@ == repeated_aliases(zone_aliases(ws))
        &&& self.duplicate_node_numeric_ids@ == repeated_aliases(node_aliases(ws))
        &&& self.duplicate_edge_numeric_ids@ == repeated_aliases(edge_aliases(ws))
    }

    /// Builds an index over a shared workspace.
    pub fn new(workspace: Arc<Workspace>) -> (index: Self)
        ensures
            index@ == *workspace,
    {
        Self::rebuild(workspace)
    }

    /// Builds an index over a workspace.
    pub fn from_workspace(workspace: Workspace) -> (index: Self)
        ensures
            index@ == workspace,
    {
        Self::new(Arc::new(workspace))
    }

    /// Builds all tables anew.
    fn rebuild(workspace: Arc<Workspace>) -> (index: Self)
        ensures
            index@ == *workspace,
    {
        let ws: &Workspace = &workspace;
        let visits = walk_zones(&ws.root);
        let links = index_zone_tree(&visits);
        let zones = index_ids(&links.ids, true);
        let node_id_list = list_node_ids(ws);
        let nodes = index_ids(&node_id_list, false);
        let edge_id_list = list_edge_ids(ws);
        let edges = index_ids(&edge_id_list, false);
        let members = index_members(ws);
        let adjacency = index_adjacency(ws);
        let policies = index_policies(ws, &zones.order);
        let semantics = index_semantics(ws, &edges.order, &edges.places);
        let ancestors = index_ancestors(Ghost(ws), &zones.order, &links.parents);
        let zone_alias_list = list_zone_aliases(ws, &zones.order);
        let zone_alias_table = index_aliases(&zone_alias_list);
        let node_alias_list = list_node_aliases(ws);
        let node_alias_table = index_aliases(&node_alias_list);
        let edge_alias_list = list_edge_aliases(ws);
        let edge_alias_table = index_aliases(&edge_alias_list);
        WorkspaceIndex {
            workspace,
            adjacency,
            zone_policies: policies,
            edge_semantics: semantics,
            zone_ancestors: ancestors,
            zone_places: zones.places,
            zone_order: zones.order,
            nodes: nodes.places,
            node_order: nodes.order,
            edges: edges.places,
            edge_order: edges.order,
            parents: links.parents,
            children: links.children,
            nodes_by_zone: members,
            zones_by_numeric_id: zone_alias_table.by_alias,
            nodes_by_numeric_id: node_alias_table.by_alias,
            edges_by_numeric_id: edge_alias_table.by_alias,
            duplicate_zone_ids: zones.duplicates,
            duplicate_node_ids: nodes.duplicates,
            duplicate_edge_ids: edges.duplicates,
            duplicate_zone_numeric_ids: zone_alias_table.duplicates,
            duplicate_node_numeric_ids: node_alias_table.duplicates,
            duplicate_edge_numeric_ids: edge_alias_table.duplicates,
        }
    }

    pub fn workspace(&self) -> (ws: &Workspace)
        ensures
            *ws == self@,
    {
        &self.workspace
    }

    pub fn workspace_arc(&self) -> (ws: Arc<Workspace>)
        ensures
            *ws == self@,
    {
        self.workspace.clone()
    }

    /// Builds all tables anew over the same workspace.
    pub fn refresh(&mut self)
        ensures
            final(self)@ == old(self)@,
    {
        let workspace = self.workspace_arc();
        self.rebind(workspace);
    }

    /// Builds all tables anew over another workspace.
    pub fn rebind(&mut self, workspace: Arc<Workspace>)
        ensures
            final(self)@ == *workspace,
    {
        let mut next = Self::rebuild(workspace);
        std::mem::swap(self, &mut next);
    }

    pub fn root_zone(&self) -> (zone: &Zone)
        ensures
            *zone == self@.root,
    {
        &self.workspace.root
    }

    pub fn root_zone_id(&self) -> (id: Option<Uuid>)
        ensures
            id == Some(self@.root.id),
    {
        Some(self.root_zone().id)
    }

    pub fn zone(&self, zone_id: Uuid) -> (zone: Option<&Zone>)
        ensures
            zone == zone_at(&self@, zone_id),
    {
        proof {
            use_type_invariant(self);
            lemma_zone_order(&self@, zone_id);
            let ids = walk_ids(zone_walk(&self@));
            lemma_first_seen(ids);
            assert(zone_order(&self@).contains(zone_id) <==> ids.contains(zone_id));
            tables::lemma_places_known(ids);
        }
        if !self.zone_places.contains_key(&zone_id) {
            return None;
        }
        self.workspace.find_zone(zone_id)
    }

    pub fn node(&self, node_id: Uuid) -> (node: Option<&Node>)
        ensures
            node == node_at(&self@, node_id),
    {
        proof {
            use_type_invariant(self);
            assert(node_ids(&self@).len() == self.workspace.nodes.len());
            lemma_places(node_ids(&self@));
        }
        match self.nodes.get(&node_id) {
            Some(place) => Some(&self.workspace.nodes[*place]),
            None => None,
        }
    }

    pub fn edge(&self, edge_id: Uuid) -> (edge: Option<&Edge>)
        ensures
            edge == edge_at(&self@, edge_id),
    {
        proof {
            use_type_invariant(self);
            assert(edge_ids(&self@).len() == self.workspace.edges.len());
            lemma_places(edge_ids(&self@));
        }
        match self.edges.get(&edge_id) {
            Some(place) => Some(&self.workspace.edges[*place]),
            None => None,
        }
    }

    /// Where a node stands among the nodes of the workspace.
    pub fn vertex_id(&self, node_id: Uuid) -> (place: Option<usize>)
        ensures
            place == looked_up(places(node_ids(&self@)), node_id),
    {
        proof {
            use_type_invariant(self);
        }
        match self.nodes.get(&node_id) {
            Some(place) => Some(*place),
            None => None,
        }
    }

    /// Where an edge stands among the edges of the workspace.
    pub fn edge_id(&self, edge_id: Uuid) -> (place: Option<usize>)
        ensures
            place == looked_up(places(edge_ids(&self@)), edge_id),
    {
        proof {
            use_type_invariant(self);
        }
        match self.edges.get(&edge_id) {
            Some(place) => Some(*place),
            None => None,
        }
    }

    pub fn parent_zone(&self, zone_id: Uuid) -> (zone: Option<&Zone>)
        ensures
            zone == match looked_up(zone_parents(&self@), zone_id) {
                Some(p) => zone_at(&self@, p),
                None => None,
            },
    {
        proof {
            use_type_invariant(self);
        }
        match self.parents.get(&zone_id) {
            Some(parent) => self.workspace.find_zone(*parent),
            None => None,
        }
    }

    /// The zones directly inside a zone.
    pub fn child_zones(&self, zone_id: Uuid) -> (zones: Vec<&Zone>)
        ensures
            zones@ == zones_named(&self@, list_at(zone_children(&self@), zone_id)),
    {
        proof {
            use_type_invariant(self);
        }
        match self.children.get(&zone_id) {
            Some(ids) => find_zones(&self.workspace, ids),
            None => Vec::new(),
        }
    }

    /// The zones around a zone, from the inside out.
    pub fn ancestor_zones(&self, zone_id: Uuid) -> (zones: Vec<&Zone>)
        ensures
            is_ancestor_chain(
                zone_parents(&self@),
                zone_id,
                zones@.map_values(|z: &Zone| z.id),
            ),
            forall|i: int|
                0 <= i < zones@.len() ==> zone_at(&self@, (#[trigger] zones@[i]).id) == Some(
                    zones@[i],
                ),
    {
        proof {
            use_type_invariant(self);
        }
        let chain = ancestor_chain(&self.parents, zone_id);
        let zones = find_zones(&self.workspace, &chain);
        proof {
            let ws = &self@;
            assert forall|i: int| 0 <= i < chain@.len() implies zone_at(
                ws,
                #[trigger] chain@[i],
            ) is Some by {
                let lower = walks::climb(zone_parents(ws), zone_id, i as nat).unwrap();
                assert(walks::climb(zone_parents(ws), zone_id, (i + 1) as nat) == Some(chain@[i]));
                lemma_parent_stands(ws, lower);
                lemma_zone_order(ws, chain@[i]);
            }
            lemma_zones_named(ws, chain@);
            assert(zones@.map_values(|z: &Zone| z.id) =~= chain@);
        }
        zones
    }

    /// Every zone below a zone, breadth-first.
    pub fn descendant_zones(&self, zone_id: Uuid) -> (zones: Vec<&Zone>)
        ensures
            zones@ == zones_named(&self@, descendants(&self@, zone_id)),
    {
        proof {
            use_type_invariant(self);
        }
        let ids = walk_below(&self.children, zone_id, self.zone_order.len());
        find_zones(&self.workspace, &ids)
    }

    /// The identifiers of the root zone and of every zone below it, breadth-first.
    pub fn all_zone_ids(&self) -> (ids: Vec<Uuid>)
        ensures
            ids@ == seq![self@.root.id] + descendants(&self@, self@.root.id),
    {
        proof {
            use_type_invariant(self);
        }
        let root = self.workspace.root.id;
        let mut below = walk_below(&self.children, root, self.zone_order.len());
        let mut ids: Vec<Uuid> = Vec::new();
        ids.push(root);
        ids.append(&mut below);
        ids
    }

    /// How deeply the zone tree nests, counting the root as one.
    pub fn max_zone_depth(&self) -> (depth: usize)
        ensures
            depth == zone_depth(&self@),
    {
        proof {
            use_type_invariant(self);
        }
        depth_below(&self.children, self.workspace.root.id, self.zone_order.len())
    }

    pub fn nodes_in_zone(&self, zone_id: Uuid) -> (nodes: Vec<&Node>)
        ensures
            nodes@ == list_at(members_in(self@.nodes@), zone_id).map_values(
                |i: usize| &self@.nodes[i as int],
            ),
    {
        proof {
            use_type_invariant(self);
            assert(self@.nodes@.len() == self.workspace.nodes.len());
            lemma_members(self@.nodes@);
        }
        let ghost listed = list_at(members_in(self@.nodes@), zone_id);
        let ghost found = listed.map_values(|i: usize| &self@.nodes[i as int]);
        let mut nodes: Vec<&Node> = Vec::new();
        if let Some(members) = self.nodes_by_zone.get(&zone_id) {
            assert(members@ == listed);
            let mut i: usize = 0;
            while i < members.len()
                invariant
                    i <= members.len(),
                    members@ == listed,
                    found == listed.map_values(|i: usize| &self@.nodes[i as int]),
                    self@ == *self.workspace,
                    listed == list_at(members_in(self@.nodes@), zone_id),
                    forall|id: Uuid, j: int|
                        0 <= j < list_at(members_in(self@.nodes@), id).len()
                            ==> #[trigger] list_at(members_in(self@.nodes@), id)[j]
                            < self@.nodes@.len(),
                    nodes@ == found.take(i as int),
                decreases members.len() - i,
            {
                assert(list_at(members_in(self@.nodes@), zone_id)[i as int] == members@[i as int]);
                nodes.push(&self.workspace.nodes[members[i]]);
                i = i + 1;
                assert(nodes@ =~= found.take(i as int));
            }
        }
        assert(nodes@ =~= found);
        nodes
    }

    pub fn zones_of_node(&self, node_id: Uuid) -> (zones: Vec<&Zone>)
        ensures
            zones@ == zones_named(&self@, node_zone_ids(&self@, node_id)),
    {
        match self.node(node_id) {
            Some(node) => find_zones(&self.workspace, &node.zone_ids),
            None => Vec::new(),
        }
    }

    pub fn zones_of_edge(&self, edge_id: Uuid) -> (zones: Vec<&Zone>)
        ensures
            zones@ == zones_named(&self@, edge_zone_ids(&self@, edge_id)),
    {
        match self.edge(edge_id) {
            Some(edge) => find_zones(&self.workspace, &edge.zone_ids),
            None => Vec::new(),
        }
    }

    /// The steps out of a node.
    pub fn neighbors(&self, node_id: Uuid) -> (steps: &[Adjacency])
        ensures
            steps@ == list_at(steps_out(&self@), node_id),
    {
        proof {
            use_type_invariant(self);
        }
        match self.adjacency.get(&node_id) {
            Some(steps) => steps.as_slice(),
            None => &[],
        }
    }

    /// The policy of a zone.
    pub fn zone_policy(&self, zone_id: Uuid) -> (policy: Option<&ZonePolicy>)
        ensures
            match policy_at(&self@, zone_id) {
                Some(p) => policy matches Some(q) && q@ == p,
                None => policy is None,
            },
    {
        proof {
            use_type_invariant(self);
            assert(self.zone_policies@.dom().contains(zone_id) || !self.zone_policies@.dom().contains(
                zone_id,
            ));
        }
        self.zone_policies.get(&zone_id)
    }

    /// The semantics of an edge, direction aside.
    pub fn edge_semantics(&self, edge_id: Uuid) -> (semantics: Option<&EdgeTrafficSemantics>)
        ensures
            match semantics_at(&self@, edge_id) {
                Some(s) => semantics matches Some(q) && q@ == s,
                None => semantics is None,
            },
    {
        proof {
            use_type_invariant(self);
            assert(self.edge_semantics@.dom().contains(edge_id)
                || !self.edge_semantics@.dom().contains(edge_id));
        }
        self.edge_semantics.get(&edge_id)
    }

    fn find_policies(&self, ids: &Vec<Uuid>) -> (policies: Vec<&ZonePolicy>)
        ensures
            views(policies@) == policies_named(&self@, ids@),
    {
        let mut policies: Vec<&ZonePolicy> = Vec::new();
        let mut i: usize = 0;
        assert(ids@.take(0) =~= Seq::empty());
        assert(views(policies@) =~= Seq::empty());
        while i < ids.len()
            invariant
                i <= ids.len(),
                views(policies@) == policies_named(&self@, ids@.take(i as int)),
            decreases ids.len() - i,
        {
            assert(ids@.take(i as int + 1).drop_last() =~= ids@.take(i as int));
            if let Some(policy) = self.zone_policy(ids[i]) {
                proof {
                    lemma_views_push(policies@, policy);
                }
                policies.push(policy);
            }
            i = i + 1;
        }
        assert(ids@.take(i as int) =~= ids@);
        policies
    }

    /// The policies of every zone that a node is a member of.
    pub fn node_zone_policies(&self, node_id: Uuid) -> (policies: Vec<&ZonePolicy>)
        ensures
            views(policies@) == node_policies(&self@, node_id),
    {
        match self.node(node_id) {
            Some(node) => self.find_policies(&node.zone_ids),
            None => {
                let none: Vec<&ZonePolicy> = Vec::new();
                assert(views(none@) =~= Seq::empty());
                none
            },
        }
    }

    /// The policies of every zone that an edge is a member of.
    pub fn edge_zone_policies(&self, edge_id: Uuid) -> (policies: Vec<&ZonePolicy>)
        ensures
            views(policies@) == edge_policies(&self@, edge_id),
    {
        match self.edge(edge_id) {
            Some(edge) => self.find_policies(&edge.zone_ids),
            None => {
                let none: Vec<&ZonePolicy> = Vec::new();
                assert(views(none@) =~= Seq::empty());
                none
            },
        }
    }

    /// Whether a zone is another one or somewhere around it.
    pub fn zone_contains(&self, ancestor: Uuid, zone_id: Uuid) -> (b: bool)
        ensures
            b == contains_zone(&self@, ancestor, zone_id),
    {
        proof {
            use_type_invariant(self);
            let ws = &self@;
            if !zone_order(ws).contains(zone_id) && is_ancestor(
                zone_parents(ws),
                zone_id,
                ancestor,
            ) {
                let n = choose|n: nat|
                    n >= 1 && #[trigger] walks::climb(zone_parents(ws), zone_id, n) == Some(ancestor);
                walks::lemma_climb_leaves(zone_parents(ws), zone_id, n);
                lemma_parent_stands(ws, zone_id);
            }
        }
        if ancestor == zone_id {
            return true;
        }
        match self.zone_ancestors.get(&zone_id) {
            Some(ancestors) => ancestors.contains(&ancestor),
            None => false,
        }
    }

    /// Where the edge between two nodes stands among the edges.
    pub fn edge_place_between(&self, node_a_id: Uuid, node_b_id: Uuid) -> (place: Option<usize>)
        ensures
            place == link_place(&self@, node_a_id, node_b_id),
            place matches Some(i) ==> i < self@.edges@.len(),
    {
        match (self.vertex_id(node_a_id), self.vertex_id(node_b_id)) {
            (Some(a), Some(b)) => match find_link(&self.workspace.edges, a, b) {
                Some(e) => Some(e),
                None => find_link(&self.workspace.edges, b, a),
            },
            _ => None,
        }
    }

    /// The edge between two nodes, whichever way it leads.
    pub fn edge_between(&self, node_a_id: Uuid, node_b_id: Uuid) -> (edge: Option<&Edge>)
        ensures
            edge == link(&self@, node_a_id, node_b_id),
    {
        match self.edge_place_between(node_a_id, node_b_id) {
            Some(i) => Some(&self.workspace.edges[i]),
            None => None,
        }
    }

    pub fn datum(&self) -> (datum: Option<Geo>)
        ensures
            datum == self@.datum,
    {
        self.workspace.datum
    }

    pub fn coord_mode(&self) -> (mode: CoordMode)
        ensures
            mode == self@.coord_mode,
    {
        self.workspace.coord_mode
    }

    /// Local place to place on the globe. The workspace has to use local
    /// coordinates and have a reference origin; `convert` takes the place and
    /// that origin.
    pub fn local_to_global(
        &self,
        local_point: Point,
        convert: impl Fn(Point, Geo) -> Geo,
    ) -> (r: Result<Geo, Error>)
        requires
            forall|origin: Geo| call_requires(convert, (local_point, origin)),
        ensures
            match (self@.coord_mode, self@.datum) {
                (CoordMode::Local, Some(origin)) => r matches Ok(g) && call_ensures(
                    convert,
                    (local_point, origin),
                    g,
                ),
                _ => r matches Err(Error::InvalidArgument(m)) && m@
                    == "local_to_global requires local coord_mode and a reference origin"@,
            },
    {
        match (self.workspace.coord_mode, self.workspace.datum) {
            (CoordMode::Local, Some(origin)) => Ok(convert(local_point, origin)),
            _ => Err(
                Error::invalid_argument(
                    "local_to_global requires local coord_mode and a reference origin",
                ),
            ),
        }
    }

    /// Place on the globe to local place, under the same conditions.
    pub fn global_to_local(
        &self,
        global_point: Geo,
        convert: impl Fn(Geo, Geo) -> Point,
    ) -> (r: Result<Point, Error>)
        requires
            forall|origin: Geo| call_requires(convert, (global_point, origin)),
        ensures
            match (self@.coord_mode, self@.datum) {
                (CoordMode::Local, Some(origin)) => r matches Ok(p) && call_ensures(
                    convert,
                    (global_point, origin),
                    p,
                ),
                _ => r matches Err(Error::InvalidArgument(m)) && m@
                    == "global_to_local requires local coord_mode and a reference origin"@,
            },
    {
        match (self.workspace.coord_mode, self.workspace.datum) {
            (CoordMode::Local, Some(origin)) => Ok(convert(global_point, origin)),
            _ => Err(
                Error::invalid_argument(
                    "global_to_local requires local coord_mode and a reference origin",
                ),
            ),
        }
    }

    /// Local place to place on the globe, anchored on the reference origin alone:
    /// a robot reports its place against it however the workspace stores its
    /// own geometry.
    pub fn pose_local_to_global(
        &self,
        local: Point,
        convert: impl Fn(Point, Geo) -> Geo,
    ) -> (r: Option<Geo>)
        requires
            forall|origin: Geo| call_requires(convert, (local, origin)),
        ensures
            match self@.datum {
                Some(origin) => r matches Some(g) && call_ensures(convert, (local, origin), g),
                None => r is None,
            },
    {
        match self.workspace.datum {
            Some(origin) => Some(convert(local, origin)),
            None => None,
        }
    }

    /// Place on the globe to local place, anchored on the reference origin alone.
    pub fn pose_global_to_local(
        &self,
        global: Geo,
        convert: impl Fn(Geo, Geo) -> Point,
    ) -> (r: Option<Point>)
        requires
            forall|origin: Geo| call_requires(convert, (global, origin)),
        ensures
            match self@.datum {
                Some(origin) => r matches Some(p) && call_ensures(convert, (global, origin), p),
                None => r is None,
            },
    {
        match self.workspace.datum {
            Some(origin) => Some(convert(global, origin)),
            None => None,
        }
    }

    pub fn zone_property(&self, zone_id: Uuid, key: &str) -> (value: Option<String>)
        ensures
            text_view(value) == match zone_at(&self@, zone_id) {
                Some(z) => value_at(z.properties@, key@),
                None => None,
            },
    {
        match self.zone(zone_id) {
            Some(zone) => match zone.properties.get(key) {
                Some(v) => Some(v.clone()),
                None => None,
            },
            None => None,
        }
    }

    pub fn edge_property(&self, edge_id: Uuid, key: &str) -> (value: Option<String>)
        ensures
            text_view(value) == match edge_at(&self@, edge_id) {
                Some(e) => value_at(e.properties@, key@),
                None => None,
            },
    {
        match self.edge(edge_id) {
            Some(edge) => match edge.properties.get(key) {
                Some(v) => Some(v.clone()),
                None => None,
            },
            None => None,
        }
    }

    pub fn zone_uuid_by_numeric_id(&self, n: u64) -> (id: Option<Uuid>)
        ensures
            id == looked_up(aliases(zone_aliases(&self@)), n),
    {
        proof {
            use_type_invariant(self);
        }
        match self.zones_by_numeric_id.get(&n) {
            Some(id) => Some(*id),
            None => None,
        }
    }

    pub fn node_uuid_by_numeric_id(&self, n: u64) -> (id: Option<Uuid>)
        ensures
            id == looked_up(aliases(node_aliases(&self@)), n),
    {
        proof {
            use_type_invariant(self);
        }
        match self.nodes_by_numeric_id.get(&n) {
            Some(id) => Some(*id),
            None => None,
        }
    }

    pub fn edge_uuid_by_numeric_id(&self, n: u64) -> (id: Option<Uuid>)
        ensures
            id == looked_up(aliases(edge_aliases(&self@)), n),
    {
        proof {
            use_type_invariant(self);
        }
        match self.edges_by_numeric_id.get(&n) {
            Some(id) => Some(*id),
            None => None,
        }
    }

    pub(crate) fn zone_id_list(&self) -> (list: &Vec<Uuid>)
        ensures
            list@ == zone_order(&self@),
    {
        proof {
            use_type_invariant(self);
        }
        &self.zone_order
    }

    pub(crate) fn node_id_list(&self) -> (list: &Vec<Uuid>)
        ensures
            list@ == first_seen(node_ids(&self@)),
    {
        proof {
            use_type_invariant(self);
        }
        &self.node_order
    }

    pub(crate) fn edge_id_list(&self) -> (list: &Vec<Uuid>)
        ensures
            list@ == first_seen(edge_ids(&self@)),
    {
        proof {
            use_type_invariant(self);
        }
        &self.edge_order
    }

    pub(crate) fn duplicate_zones(&self) -> (list: &Vec<Uuid>)
        ensures
            list@ == repeated(walk_ids(zone_walk(&self@)), true),
    {
        proof {
            use_type_invariant(self);
        }
        &self.duplicate_zone_ids
    }

    pub(crate) fn duplicate_nodes(&self) -> (list: &Vec<Uuid>)
        ensures
            list@ == repeated(node_ids(&self@), false),
    {
        proof {
            use_type_invariant(self);
        }
        &self.duplicate_node_ids
    }

    pub(crate) fn duplicate_edges(&self) -> (list: &Vec<Uuid>)
        ensures
            list@ == repeated(edge_ids(&self@), false),
    {
        proof {
            use_type_invariant(self);
        }
        &self.duplicate_edge_ids
    }

    pub(crate) fn duplicate_zone_aliases(&self) -> (list: &Vec<u64>)
        ensures
            list@ == repeated_aliases(zone_aliases(&self@)),
    {
        proof {
            use_type_invariant(self);
        }
        &self.duplicate_zone_numeric_ids
    }

    pub(crate) fn duplicate_node_aliases(&self) -> (list: &Vec<u64>)
        ensures
            list@ == repeated_aliases(node_aliases(&self@)),
    {
        proof {
            use_type_invariant(self);
        }
        &self.duplicate_node_numeric_ids
    }

    pub(crate) fn duplicate_edge_aliases(&self) -> (list: &Vec<u64>)
        ensures
            list@ == repeated_aliases(edge_aliases(&self@)),
    {
        proof {
            use_type_invariant(self);
        }
        &self.duplicate_edge_numeric_ids
    }
}

/// A reference to a zone, node or edge: its identifier, or a numeric alias that
/// the index resolves.
#[derive(Debug, Clone, Copy, PartialEq, Eq, Structural)]
pub enum ResourceRef {
    Uuid(Uuid),
    Numeric(u64),
}

/// The reference that a text denotes: an identifier, and otherwise an unsigned
/// integer.
pub open spec fn resource_of(text: Seq<char>) -> Option<ResourceRef> {
    let t = trimmed(text);
    match uuid_denoted(t) {
        Some(id) => Some(ResourceRef::Uuid(id)),
        None => match integer_of(t) {
            Some(n) => Some(ResourceRef::Numeric(n)),
            None => None,
        },
    }
}

impl ResourceRef {
    /// Reads a reference.
    pub fn from_text(text: &str) -> (r: Option<ResourceRef>)
        ensures
            r == resource_of(text@),
    {
        let t = trim(text);
        match parse_uuid(t) {
            Some(id) => Some(ResourceRef::Uuid(id)),
            None => match read_integer(t) {
                Some(n) => Some(ResourceRef::Numeric(n)),
                None => None,
            },
        }
    }

    /// The reference that a number is; a negative one is none.
    pub fn from_number(n: i64) -> (r: Option<ResourceRef>)
        ensures
            r == if n >= 0 {
                Some(ResourceRef::Numeric(n as u64))
            } else {
                None
            },
    {
        if n >= 0 {
            Some(ResourceRef::Numeric(n as u64))
        } else {
            None
        }
    }

    /// Writes a reference.
    pub fn to_text(self) -> (text: String)
        ensures
            text@ == match self {
                ResourceRef::Uuid(id) => uuid_text(id),
                ResourceRef::Numeric(n) => decimal_text(n as nat),
            },
    {
        match self {
            ResourceRef::Uuid(id) => uuid_to_text(id),
            ResourceRef::Numeric(n) => decimal(n as u128),
        }
    }

    pub fn resolve_zone(self, idx: &WorkspaceIndex) -> (id: Option<Uuid>)
        ensures
            id == match self {
                ResourceRef::Uuid(u) => if zone_at(&idx@, u) is Some {
                    Some(u)
                } else {
                    None
                },
                ResourceRef::Numeric(n) => looked_up(aliases(zone_aliases(&idx@)), n),
            },
    {
        match self {
            ResourceRef::Uuid(u) => if idx.zone(u).is_some() {
                Some(u)
            } else {
                None
            },
            ResourceRef::Numeric(n) => idx.zone_uuid_by_numeric_id(n),
        }
    }

    pub fn resolve_node(self, idx: &WorkspaceIndex) -> (id: Option<Uuid>)
        ensures
            id == match self {
                ResourceRef::Uuid(u) => if node_at(&idx@, u) is Some {
                    Some(u)
                } else {
                    None
                },
                ResourceRef::Numeric(n) => looked_up(aliases(node_aliases(&idx@)), n),
            },
    {
        match self {
            ResourceRef::Uuid(u) => if idx.node(u).is_some() {
                Some(u)
            } else {
                None
            },
            ResourceRef::Numeric(n) => idx.node_uuid_by_numeric_id(n),
        }
    }

    pub fn resolve_edge(self, idx: &WorkspaceIndex) -> (id: Option<Uuid>)
        ensures
            id == match self {
                ResourceRef::Uuid(u) => if edge_at(&idx@, u) is Some {
                    Some(u)
                } else {
                    None
                },
                ResourceRef::Numeric(n) => looked_up(aliases(edge_aliases(&idx@)), n),
            },
    {
        match self {
            ResourceRef::Uuid(u) => if idx.edge(u).is_some() {
                Some(u)
            } else {
                None
            },
            ResourceRef::Numeric(n) => idx.edge_uuid_by_numeric_id(n),
        }
    }
}

} // verus!
