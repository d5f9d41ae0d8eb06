//! Validation of the structure of a workspace.

use super::tables::{
    contains_id, edge_aliases, edge_at, edge_ids, first_seen, node_aliases, node_at, node_ids,
    repeated, repeated_aliases, walk_ids, zone_aliases, zone_order, zone_walk,
};
use super::WorkspaceIndex;
use crate::guid::Uuid;
use crate::policy::validate::{
    edge_traffic_issues, in_order, validate_edge_traffic_properties,
    validate_zone_traffic_properties, zone_traffic_issues,
};
use crate::policy::{TrafficIssueSeverity, TrafficParseIssue, TrafficParseIssueView};
use crate::text::{decimal, decimal_text, joined, joined3};
use crate::views::{lemma_views_push, views};
use crate::workspace::{zone_at, CoordMode, Edge, Workspace};
use vstd::prelude::*;

verus! {

#[derive(Debug, Clone, Copy, PartialEq, Eq, Structural)]
pub enum ValidationSeverity {
    Warning,
    Error,
}

/// A finding about the structure of a workspace.
#[derive(Debug, PartialEq, Eq)]
pub struct ValidationIssue {
    pub severity: ValidationSeverity,
    pub category: String,
    pub resource_kind: String,
    pub resource_id: Option<Uuid>,
    pub message: String,
}

/// What a [`ValidationIssue`] stands for.
pub struct ValidationIssueView {
    pub severity: ValidationSeverity,
    pub category: Seq<char>,
    pub resource_kind: Seq<char>,
    pub resource_id: Option<Uuid>,
    pub message: Seq<char>,
}

impl View for ValidationIssue {
    type V = ValidationIssueView;

    open spec fn view(&self) -> ValidationIssueView {
        ValidationIssueView {
            severity: self.severity,
            category: self.category@,
            resource_kind: self.resource_kind@,
            resource_id: self.resource_id,
            message: self.message@,
        }
    }
}

impl Clone for ValidationIssue {
    fn clone(&self) -> (r: Self)
        ensures
            r == *self,
    {
        let r = ValidationIssue {
            severity: self.severity,
            category: self.category.clone(),
            resource_kind: self.resource_kind.clone(),
            resource_id: self.resource_id,
            message: self.message.clone(),
        };
        r
    }
}

/// A finding.
pub open spec fn finding(
    severity: ValidationSeverity,
    category: Seq<char>,
    resource_kind: Seq<char>,
    resource_id: Option<Uuid>,
    message: Seq<char>,
) -> ValidationIssueView {
    ValidationIssueView { severity, category, resource_kind, resource_id, message }
}

fn push_finding(
    issues: &mut Vec<ValidationIssue>,
    severity: ValidationSeverity,
    category: &str,
    resource_kind: &str,
    resource_id: Option<Uuid>,
    message: &str,
)
    ensures
        views(final(issues)@) == views(old(issues)@).push(
            finding(severity, category@, resource_kind@, resource_id, message@),
        ),
{
    let issue = ValidationIssue {
        severity,
        category: category.to_owned(),
        resource_kind: resource_kind.to_owned(),
        resource_id,
        message: message.to_owned(),
    };
    proof {
        lemma_views_push(issues@, issue);
    }
    issues.push(issue);
}

/// What is found about the reference origin.
pub open spec fn reference_issues(ws: &Workspace) -> Seq<ValidationIssueView> {
    if ws.coord_mode == CoordMode::Local && ws.datum is None {
        seq![
            finding(
                ValidationSeverity::Error,
                "invalid_reference"@,
                "workspace"@,
                None,
                "workspace uses local coordinates without a reference origin"@,
            ),
        ]
    } else if ws.coord_mode == CoordMode::Global && ws.datum is Some {
        seq![
            finding(
                ValidationSeverity::Warning,
                "ignored_reference"@,
                "workspace"@,
                None,
                "workspace reference origin is set but coord_mode is global; concord conversions are disabled"@,
            ),
        ]
    } else {
        Seq::empty()
    }
}

fn check_reference(ws: &Workspace, issues: &mut Vec<ValidationIssue>)
    ensures
        views(final(issues)@) == views(old(issues)@) + reference_issues(ws),
{
    if ws.coord_mode == CoordMode::Local && ws.datum.is_none() {
        push_finding(
            issues,
            ValidationSeverity::Error,
            "invalid_reference",
            "workspace",
            None,
            "workspace uses local coordinates without a reference origin",
        );
    } else if ws.coord_mode == CoordMode::Global && ws.datum.is_some() {
        push_finding(
            issues,
            ValidationSeverity::Warning,
            "ignored_reference",
            "workspace",
            None,
            "workspace reference origin is set but coord_mode is global; concord conversions are disabled",
        );
    }
    assert(views(issues@) =~= views(old(issues)@) + reference_issues(ws));
}

/// What is found about identifiers that are not unique.
pub open spec fn duplicate_issues(
    ids: Seq<Uuid>,
    kind: Seq<char>,
    message: Seq<char>,
) -> Seq<ValidationIssueView> {
    ids.map_values(
        |id: Uuid|
            finding(ValidationSeverity::Error, "duplicate_id"@, kind, Some(id), message),
    )
}

fn report_duplicates(
    ids: &Vec<Uuid>,
    kind: &str,
    message: &str,
    issues: &mut Vec<ValidationIssue>,
)
    ensures
        views(final(issues)@) == views(old(issues)@) + duplicate_issues(ids@, kind@, message@),
{
    let ghost before = views(issues@);
    let ghost all = duplicate_issues(ids@, kind@, message@);
    let mut i: usize = 0;
    assert(before + all.take(0) =~= before);
    while i < ids.len()
        invariant
            i <= ids.len(),
            all == duplicate_issues(ids@, kind@, message@),
            views(issues@) == before + all.take(i as int),
        decreases ids.len() - i,
    {
        push_finding(
            issues,
            ValidationSeverity::Error,
            "duplicate_id",
            kind,
            Some(ids[i]),
            message,
        );
        i = i + 1;
        assert(before + all.take(i as int) =~= (before + all.take(i - 1)).push(all[i - 1]));
    }
    assert(all.take(i as int) =~= all);
}

/// What is found about numeric aliases that are not unique.
pub open spec fn duplicate_alias_issues(
    ns: Seq<u64>,
    kind: Seq<char>,
    message: Seq<char>,
) -> Seq<ValidationIssueView> {
    ns.map_values(
        |n: u64|
            finding(
                ValidationSeverity::Error,
                "duplicate_numeric_id"@,
                kind,
                None,
                message + decimal_text(n as nat),
            ),
    )
}

fn report_duplicate_aliases(
    ns: &Vec<u64>,
    kind: &str,
    message: &str,
    issues: &mut Vec<ValidationIssue>,
)
    ensures
        views(final(issues)@) == views(old(issues)@) + duplicate_alias_issues(
            ns@,
            kind@,
            message@,
        ),
{
    let ghost before = views(issues@);
    let ghost all = duplicate_alias_issues(ns@, kind@, message@);
    let mut i: usize = 0;
    assert(before + all.take(0) =~= before);
    while i < ns.len()
        invariant
            i <= ns.len(),
            all == duplicate_alias_issues(ns@, kind@, message@),
            views(issues@) == before + all.take(i as int),
        decreases ns.len() - i,
    {
        let text = joined(message, decimal(ns[i] as u128).as_str());
        push_finding(
            issues,
            ValidationSeverity::Error,
            "duplicate_numeric_id",
            kind,
            None,
            text.as_str(),
        );
        i = i + 1;
        assert(before + all.take(i as int) =~= (before + all.take(i - 1)).push(all[i - 1]));
    }
    assert(all.take(i as int) =~= all);
}

/// The finding that a zone, node or edge has the null identifier, if it has.
pub open spec fn missing_id_issues(
    id: Uuid,
    kind: Seq<char>,
    message: Seq<char>,
) -> Seq<ValidationIssueView> {
    if id == 0 {
        seq![finding(ValidationSeverity::Error, "missing_id"@, kind, None, message)]
    } else {
        Seq::empty()
    }
}

fn report_missing_id(id: Uuid, kind: &str, message: &str, issues: &mut Vec<ValidationIssue>)
    ensures
        views(final(issues)@) == views(old(issues)@) + missing_id_issues(id, kind@, message@),
{
    if id == 0 {
        push_finding(issues, ValidationSeverity::Error, "missing_id", kind, None, message);
    }
    assert(views(issues@) =~= views(old(issues)@) + missing_id_issues(id, kind@, message@));
}

/// A finding about a traffic property as one about the workspace.
pub open spec fn traffic_finding(
    i: TrafficParseIssueView,
    kind: Seq<char>,
    id: Uuid,
) -> ValidationIssueView {
    finding(
        match i.severity {
            TrafficIssueSeverity::Error => ValidationSeverity::Error,
            TrafficIssueSeverity::Warning => ValidationSeverity::Warning,
        },
        "traffic_property"@,
        kind,
        Some(id),
        i.key + ": "@ + i.message,
    )
}

/// Findings about traffic properties as ones about the workspace.
pub open spec fn traffic_findings(
    found: Seq<TrafficParseIssueView>,
    kind: Seq<char>,
    id: Uuid,
) -> Seq<ValidationIssueView> {
    found.map_values(|i: TrafficParseIssueView| traffic_finding(i, kind, id))
}

fn report_traffic(
    found: &Vec<TrafficParseIssue>,
    kind: &str,
    id: Uuid,
    issues: &mut Vec<ValidationIssue>,
)
    ensures
        views(final(issues)@) == views(old(issues)@) + traffic_findings(views(found@), kind@, id),
{
    let ghost before = views(issues@);
    let ghost all = traffic_findings(views(found@), kind@, id);
    let mut i: usize = 0;
    assert(before + all.take(0) =~= before);
    while i < found.len()
        invariant
            i <= found.len(),
            all == traffic_findings(views(found@), kind@, id),
            views(issues@) == before + all.take(i as int),
        decreases found.len() - i,
    {
        let severity = match found[i].severity {
            TrafficIssueSeverity::Error => ValidationSeverity::Error,
            TrafficIssueSeverity::Warning => ValidationSeverity::Warning,
        };
        let message = joined3(found[i].key.as_str(), ": ", found[i].message.as_str());
        push_finding(issues, severity, "traffic_property", kind, Some(id), message.as_str());
        i = i + 1;
        assert(before + all.take(i as int) =~= (before + all.take(i - 1)).push(all[i - 1]));
    }
    assert(all.take(i as int) =~= all);
}

// ---------------------------------------------------------------------------
// zones
// ---------------------------------------------------------------------------

/// What is found about one node that a zone lists.
pub open spec fn zone_member_issue(
    ws: &Workspace,
    zone_id: Uuid,
    node_id: Uuid,
) -> Option<ValidationIssueView> {
    match node_at(ws, node_id) {
        None => Some(
            finding(
                ValidationSeverity::Error,
                "broken_membership"@,
                "zone"@,
                Some(zone_id),
                "zone references node id that is not present in the workspace graph"@,
            ),
        ),
        Some(node) => if node.zone_ids@.contains(zone_id) {
            None
        } else {
            Some(
                finding(
                    ValidationSeverity::Error,
                    "inconsistent_membership"@,
                    "zone"@,
                    Some(zone_id),
                    "zone lists node membership but the node does not list the zone"@,
                ),
            )
        },
    }
}

/// What is found about the nodes that a zone lists.
pub open spec fn zone_member_issues(
    ws: &Workspace,
    zone_id: Uuid,
    node_ids: Seq<Uuid>,
) -> Seq<ValidationIssueView>
    decreases node_ids.len(),
{
    if node_ids.len() == 0 {
        Seq::empty()
    } else {
        let before = zone_member_issues(ws, zone_id, node_ids.drop_last());
        match zone_member_issue(ws, zone_id, node_ids.last()) {
            Some(i) => before.push(i),
            None => before,
        }
    }
}

/// What is found about a zone.
pub open spec fn zone_issues(ws: &Workspace, zone_id: Uuid) -> Seq<ValidationIssueView> {
    match zone_at(ws, zone_id) {
        Some(zone) => missing_id_issues(zone.id, "zone"@, "zone is missing a non-null id"@)
            + zone_member_issues(ws, zone_id, zone.node_ids@) + traffic_findings(
            in_order(zone_traffic_issues(zone.properties@)),
            "zone"@,
            zone_id,
        ),
        None => Seq::empty(),
    }
}

/// What is found about a list of zones.
pub open spec fn all_zone_issues(ws: &Workspace, ids: Seq<Uuid>) -> Seq<ValidationIssueView>
    decreases ids.len(),
{
    if ids.len() == 0 {
        Seq::empty()
    } else {
        all_zone_issues(ws, ids.drop_last()) + zone_issues(ws, ids.last())
    }
}

fn check_zone(index: &WorkspaceIndex, zone_id: Uuid, issues: &mut Vec<ValidationIssue>)
    ensures
        views(final(issues)@) == views(old(issues)@) + zone_issues(&index@, zone_id),
{
    let ghost before = views(issues@);
    let ghost ws = &index@;
    if let Some(zone) = index.zone(zone_id) {
        report_missing_id(zone.id, "zone", "zone is missing a non-null id", issues);
        let ghost start = views(issues@);
        let mut i: usize = 0;
        assert(zone.node_ids@.take(0) =~= Seq::empty());
        assert(start + zone_member_issues(ws, zone_id, zone.node_ids@.take(0)) =~= start);
        while i < zone.node_ids.len()
            invariant
                i <= zone.node_ids.len(),
                ws == &index@,
                views(issues@) == start + zone_member_issues(
                    ws,
                    zone_id,
                    zone.node_ids@.take(i as int),
                ),
            decreases zone.node_ids.len() - i,
        {
            let ghost done = zone_member_issues(ws, zone_id, zone.node_ids@.take(i as int));
            assert(zone.node_ids@.take(i as int + 1).drop_last() =~= zone.node_ids@.take(i as int));
            match index.node(zone.node_ids[i]) {
                None => {
                    push_finding(
                        issues,
                        ValidationSeverity::Error,
                        "broken_membership",
                        "zone",
                        Some(zone_id),
                        "zone references node id that is not present in the workspace graph",
                    );
                },
                Some(node) => {
                    if !contains_id(&node.zone_ids, zone_id) {
                        push_finding(
                            issues,
                            ValidationSeverity::Error,
                            "inconsistent_membership",
                            "zone",
                            Some(zone_id),
                            "zone lists node membership but the node does not list the zone",
                        );
                    }
                },
            }
            i = i + 1;
            assert(views(issues@) =~= start + zone_member_issues(
                ws,
                zone_id,
                zone.node_ids@.take(i as int),
            ));
        }
        assert(zone.node_ids@.take(i as int) =~= zone.node_ids@);
        let found = validate_zone_traffic_properties(&zone.properties);
        report_traffic(&found, "zone", zone_id, issues);
        assert(views(issues@) =~= before + zone_issues(ws, zone_id));
    }
    assert(views(issues@) =~= before + zone_issues(ws, zone_id));
}

// ---------------------------------------------------------------------------
// nodes
// ---------------------------------------------------------------------------

/// What is found about the zones that a node lists.
pub open spec fn node_member_issues(
    ws: &Workspace,
    node_id: Uuid,
    zone_ids: Seq<Uuid>,
) -> Seq<ValidationIssueView>
    decreases zone_ids.len(),
{
    if zone_ids.len() == 0 {
        Seq::empty()
    } else {
        let before = node_member_issues(ws, node_id, zone_ids.drop_last());
        if zone_at(ws, zone_ids.last()) is None {
            before.push(
                finding(
                    ValidationSeverity::Error,
                    "broken_membership"@,
                    "node"@,
                    Some(node_id),
                    "node references zone id that is not present in the workspace tree"@,
                ),
            )
        } else {
            before
        }
    }
}

/// What is found about a node.
pub open spec fn node_issues(ws: &Workspace, node_id: Uuid) -> Seq<ValidationIssueView> {
    match node_at(ws, node_id) {
        Some(node) => missing_id_issues(node_id, "node"@, "node is missing a non-null id"@)
            + node_member_issues(ws, node_id, node.zone_ids@),
        None => Seq::empty(),
    }
}

/// What is found about a list of nodes.
pub open spec fn all_node_issues(ws: &Workspace, ids: Seq<Uuid>) -> Seq<ValidationIssueView>
    decreases ids.len(),
{
    if ids.len() == 0 {
        Seq::empty()
    } else {
        all_node_issues(ws, ids.drop_last()) + node_issues(ws, ids.last())
    }
}

fn check_node(index: &WorkspaceIndex, node_id: Uuid, issues: &mut Vec<ValidationIssue>)
    ensures
        views(final(issues)@) == views(old(issues)@) + node_issues(&index@, node_id),
{
    let ghost before = views(issues@);
    let ghost ws = &index@;
    if let Some(node) = index.node(node_id) {
        report_missing_id(node_id, "node", "node is missing a non-null id", issues);
        let ghost start = views(issues@);
        let mut i: usize = 0;
        assert(node.zone_ids@.take(0) =~= Seq::empty());
        assert(start + node_member_issues(ws, node_id, node.zone_ids@.take(0)) =~= start);
        while i < node.zone_ids.len()
            invariant
                i <= node.zone_ids.len(),
                ws == &index@,
                views(issues@) == start + node_member_issues(
                    ws,
                    node_id,
                    node.zone_ids@.take(i as int),
                ),
            decreases node.zone_ids.len() - i,
        {
            assert(node.zone_ids@.take(i as int + 1).drop_last() =~= node.zone_ids@.take(i as int));
            if index.zone(node.zone_ids[i]).is_none() {
                push_finding(
                    issues,
                    ValidationSeverity::Error,
                    "broken_membership",
                    "node",
                    Some(node_id),
                    "node references zone id that is not present in the workspace tree",
                );
            }
            i = i + 1;
            assert(views(issues@) =~= start + node_member_issues(
                ws,
                node_id,
                node.zone_ids@.take(i as int),
            ));
        }
        assert(node.zone_ids@.take(i as int) =~= node.zone_ids@);
        assert(views(issues@) =~= before + node_issues(ws, node_id));
    }
    assert(views(issues@) =~= before + node_issues(ws, node_id));
}

// ---------------------------------------------------------------------------
// edges
// ---------------------------------------------------------------------------

/// Whether the node at a place is there and a member of a zone.
pub open spec fn place_is_in(ws: &Workspace, place: usize, zone_id: Uuid) -> bool {
    place < ws.nodes@.len() && ws.nodes@[place as int].zone_ids@.contains(zone_id)
}

fn is_place_in(ws: &Workspace, place: usize, zone_id: Uuid) -> (b: bool)
    ensures
        b == place_is_in(ws, place, zone_id),
{
    place < ws.nodes.len() && contains_id(&ws.nodes[place].zone_ids, zone_id)
}

/// What is found about one zone that an edge lists.
pub open spec fn edge_member_issue(
    ws: &Workspace,
    edge_id: Uuid,
    edge: &Edge,
    zone_id: Uuid,
) -> Option<ValidationIssueView> {
    if zone_at(ws, zone_id) is None {
        Some(
            finding(
                ValidationSeverity::Error,
                "broken_membership"@,
                "edge"@,
                Some(edge_id),
                "edge references zone id that is not present in the workspace tree"@,
            ),
        )
    } else if !place_is_in(ws, edge.source, zone_id) && !place_is_in(ws, edge.target, zone_id) {
        Some(
            finding(
                ValidationSeverity::Warning,
                "inconsistent_membership"@,
                "edge"@,
                Some(edge_id),
                "edge lists a zone that is not present on either endpoint node"@,
            ),
        )
    } else {
        None
    }
}

/// What is found about the zones that an edge lists.
pub open spec fn edge_member_issues(
    ws: &Workspace,
    edge_id: Uuid,
    edge: &Edge,
    zone_ids: Seq<Uuid>,
) -> Seq<ValidationIssueView>
    decreases zone_ids.len(),
{
    if zone_ids.len() == 0 {
        Seq::empty()
    } else {
        let before = edge_member_issues(ws, edge_id, edge, zone_ids.drop_last());
        match edge_member_issue(ws, edge_id, edge, zone_ids.last()) {
            Some(i) => before.push(i),
            None => before,
        }
    }
}

/// What is found about an edge.
pub open spec fn edge_issues(ws: &Workspace, edge_id: Uuid) -> Seq<ValidationIssueView> {
    match edge_at(ws, edge_id) {
        Some(edge) => missing_id_issues(edge_id, "edge"@, "edge is missing a non-null id"@)
            + edge_member_issues(ws, edge_id, edge, edge.zone_ids@) + traffic_findings(
            in_order(edge_traffic_issues(edge.properties@)),
            "edge"@,
            edge_id,
        ),
        None => Seq::empty(),
    }
}

/// What is found about a list of edges.
pub open spec fn all_edge_issues(ws: &Workspace, ids: Seq<Uuid>) -> Seq<ValidationIssueView>
    decreases ids.len(),
{
    if ids.len() == 0 {
        Seq::empty()
    } else {
        all_edge_issues(ws, ids.drop_last()) + edge_issues(ws, ids.last())
    }
}

fn check_edge(index: &WorkspaceIndex, edge_id: Uuid, issues: &mut Vec<ValidationIssue>)
    ensures
        views(final(issues)@) == views(old(issues)@) + edge_issues(&index@, edge_id),
{
    let ghost before = views(issues@);
    let ghost ws = &index@;
    if let Some(edge) = index.edge(edge_id) {
        report_missing_id(edge_id, "edge", "edge is missing a non-null id", issues);
        let ghost start = views(issues@);
        let mut i: usize = 0;
        assert(edge.zone_ids@.take(0) =~= Seq::empty());
        assert(start + edge_member_issues(ws, edge_id, edge, edge.zone_ids@.take(0)) =~= start);
        while i < edge.zone_ids.len()
            invariant
                i <= edge.zone_ids.len(),
                ws == &index@,
                views(issues@) == start + edge_member_issues(
                    ws,
                    edge_id,
                    edge,
                    edge.zone_ids@.take(i as int),
                ),
            decreases edge.zone_ids.len() - i,
        {
            assert(edge.zone_ids@.take(i as int + 1).drop_last() =~= edge.zone_ids@.take(i as int));
            let zone_id = edge.zone_ids[i];
            if index.zone(zone_id).is_none() {
                push_finding(
                    issues,
                    ValidationSeverity::Error,
                    "broken_membership",
                    "edge",
                    Some(edge_id),
                    "edge references zone id that is not present in the workspace tree",
                );
            } else if !is_place_in(index.workspace(), edge.source, zone_id) && !is_place_in(
                index.workspace(),
                edge.target,
                zone_id,
            ) {
                push_finding(
                    issues,
                    ValidationSeverity::Warning,
                    "inconsistent_membership",
                    "edge",
                    Some(edge_id),
                    "edge lists a zone that is not present on either endpoint node",
                );
            }
            i = i + 1;
            assert(views(issues@) =~= start + edge_member_issues(
                ws,
                edge_id,
                edge,
                edge.zone_ids@.take(i as int),
            ));
        }
        assert(edge.zone_ids@.take(i as int) =~= edge.zone_ids@);
        let found = validate_edge_traffic_properties(&edge.properties);
        report_traffic(&found, "edge", edge_id, issues);
        assert(views(issues@) =~= before + edge_issues(ws, edge_id));
    }
    assert(views(issues@) =~= before + edge_issues(ws, edge_id));
}

// ---------------------------------------------------------------------------
// the workspace
// ---------------------------------------------------------------------------

/// What is found about identifiers and numeric aliases that are not unique.
pub open spec fn uniqueness_issues(ws: &Workspace) -> Seq<ValidationIssueView> {
    duplicate_issues(
        repeated(walk_ids(zone_walk(ws)), true),
        "zone"@,
        "multiple zones share the same UUID"@,
    ) + duplicate_issues(
        repeated(node_ids(ws), false),
        "node"@,
        "multiple nodes share the same UUID"@,
    ) + duplicate_issues(
        repeated(edge_ids(ws), false),
        "edge"@,
        "multiple edges share the same UUID"@,
    ) + duplicate_alias_issues(
        repeated_aliases(zone_aliases(ws)),
        "zone"@,
        "multiple zones share numeric id "@,
    ) + duplicate_alias_issues(
        repeated_aliases(node_aliases(ws)),
        "node"@,
        "multiple nodes share numeric id "@,
    ) + duplicate_alias_issues(
        repeated_aliases(edge_aliases(ws)),
        "edge"@,
        "multiple edges share numeric id "@,
    )
}

/// Everything that is found about a workspace: about its reference origin,
/// about identifiers, then zone by zone, node by node and edge by edge.
pub open spec fn workspace_issues(ws: &Workspace) -> Seq<ValidationIssueView> {
    reference_issues(ws) + uniqueness_issues(ws) + all_zone_issues(ws, zone_order(ws))
        + all_node_issues(ws, first_seen(node_ids(ws))) + all_edge_issues(
        ws,
        first_seen(edge_ids(ws)),
    )
}

impl WorkspaceIndex {
    /// Checks the structure of the workspace.
    pub fn validation_issues(&self) -> (issues: Vec<ValidationIssue>)
        ensures
            views(issues@) == workspace_issues(&self@),
    {
        let ghost ws = &self@;
        let mut issues: Vec<ValidationIssue> = Vec::new();
        assert(views(issues@) =~= Seq::empty());
        check_reference(self.workspace(), &mut issues);
        report_duplicates(
            self.duplicate_zones(),
            "zone",
            "multiple zones share the same UUID",
            &mut issues,
        );
        report_duplicates(
            self.duplicate_nodes(),
            "node",
            "multiple nodes share the same UUID",
            &mut issues,
        );
        report_duplicates(
            self.duplicate_edges(),
            "edge",
            "multiple edges share the same UUID",
            &mut issues,
        );
        report_duplicate_aliases(
            self.duplicate_zone_aliases(),
            "zone",
            "multiple zones share numeric id ",
            &mut issues,
        );
        report_duplicate_aliases(
            self.duplicate_node_aliases(),
            "node",
            "multiple nodes share numeric id ",
            &mut issues,
        );
        report_duplicate_aliases(
            self.duplicate_edge_aliases(),
            "edge",
            "multiple edges share numeric id ",
            &mut issues,
        );
        let ghost head = views(issues@);
        assert(head =~= reference_issues(ws) + uniqueness_issues(ws));
        let zones = self.zone_id_list();
        let mut i: usize = 0;
        assert(zones@.take(0) =~= Seq::empty());
        assert(head + all_zone_issues(ws, zones@.take(0)) =~= head);
        while i < zones.len()
            invariant
                i <= zones.len(),
                ws == &self@,
                views(issues@) == head + all_zone_issues(ws, zones@.take(i as int)),
            decreases zones.len() - i,
        {
            assert(zones@.take(i as int + 1).drop_last() =~= zones@.take(i as int));
            check_zone(self, zones[i], &mut issues);
            i = i + 1;
            assert(views(issues@) =~= head + all_zone_issues(ws, zones@.take(i as int)));
        }
        assert(zones@.take(i as int) =~= zones@);
        let ghost head = views(issues@);
        let nodes = self.node_id_list();
        let mut i: usize = 0;
        assert(nodes@.take(0) =~= Seq::empty());
        assert(head + all_node_issues(ws, nodes@.take(0)) =~= head);
        while i < nodes.len()
            invariant
                i <= nodes.len(),
                ws == &self@,
                views(issues@) == head + all_node_issues(ws, nodes@.take(i as int)),
            decreases nodes.len() - i,
        {
            assert(nodes@.take(i as int + 1).drop_last() =~= nodes@.take(i as int));
            check_node(self, nodes[i], &mut issues);
            i = i + 1;
            assert(views(issues@) =~= head + all_node_issues(ws, nodes@.take(i as int)));
        }
        assert(nodes@.take(i as int) =~= nodes@);
        let ghost head = views(issues@);
        let edges = self.edge_id_list();
        let mut i: usize = 0;
        assert(edges@.take(0) =~= Seq::empty());
        assert(head + all_edge_issues(ws, edges@.take(0)) =~= head);
        while i < edges.len()
            invariant
                i <= edges.len(),
                ws == &self@,
                views(issues@) == head + all_edge_issues(ws, edges@.take(i as int)),
            decreases edges.len() - i,
        {
            assert(edges@.take(i as int + 1).drop_last() =~= edges@.take(i as int));
            check_edge(self, edges[i], &mut issues);
            i = i + 1;
            assert(views(issues@) =~= head + all_edge_issues(ws, edges@.take(i as int)));
        }
        assert(edges@.take(i as int) =~= edges@);
        issues
    }

    /// Whether nothing is found about the workspace.
    pub fn is_valid(&self) -> (b: bool)
        ensures
            b == (workspace_issues(&self@).len() == 0),
    {
        self.validation_issues().len() == 0
    }
}

} // verus!
