use std::sync::Arc;
use syncbot::draft::join_named;
use syncbot::number::{Number, Real};
use syncbot::properties::{Properties, Property};
use syncbot::startup::{count_errors, is_switched_on, list_zones, Invocation};
use syncbot::workspace::{CoordMode, Edge, Geo, Node, Point, Workspace, Zone};
use syncbot::{
    Error, ResourceRef, ValidationSeverity, WorkspaceIndex, ZonePolicyKind, NUMERIC_ID_PROPERTY,
};

fn num(x: f64) -> Real {
    Real::from_bits(x.to_bits())
}

fn float(x: Real) -> f64 {
    f64::from_bits(x.to_bits())
}

fn props(pairs: &[(&str, &str)]) -> Properties {
    let mut m = Properties::new();
    for (k, v) in pairs {
        m.insert(Property {
            key: (*k).to_string(),
            value: (*v).to_string(),
            number: v.trim().parse::<f64>().ok().map(|x| Number::new(num(x), format!("{x}"))),
        });
    }
    m
}

fn zone(id: u128, pairs: &[(&str, &str)], node_ids: &[u128], children: Vec<Zone>) -> Zone {
    Zone {
        id,
        name: format!("zone {id}"),
        properties: props(pairs),
        node_ids: node_ids.to_vec(),
        children,
    }
}

fn node(id: u128, zone_ids: &[u128]) -> Node {
    Node {
        id,
        position: "0,0".to_string(),
        zone_ids: zone_ids.to_vec(),
        properties: props(&[]),
    }
}

fn edge(id: u128, source: usize, target: usize, zone_ids: &[u128]) -> Edge {
    Edge {
        id,
        source,
        target,
        weight: num(1.0),
        zone_ids: zone_ids.to_vec(),
        properties: props(&[]),
    }
}

fn origin() -> Geo {
    Geo { latitude: num(52.0), longitude: num(5.0), altitude: num(0.0) }
}

fn local(root: Zone, nodes: Vec<Node>, edges: Vec<Edge>) -> Workspace {
    Workspace { root, nodes, edges, coord_mode: CoordMode::Local, datum: Some(origin()) }
}

/// 1 holds 2 and 3; 2 holds 4, which holds 5.
fn yard() -> Workspace {
    let five = zone(5, &[], &[], vec![]);
    let four = zone(4, &[("traffic.policy", "exclusive")], &[12], vec![five]);
    let two = zone(2, &[(NUMERIC_ID_PROPERTY, " 20 ")], &[11, 12], vec![four]);
    let three = zone(3, &[("traffic.capacity", "2")], &[13], vec![]);
    let root = zone(1, &[(NUMERIC_ID_PROPERTY, "10")], &[], vec![two, three]);
    local(
        root,
        vec![node(11, &[2]), node(12, &[2, 4]), node(13, &[3])],
        vec![edge(21, 0, 1, &[2]), edge(22, 1, 2, &[3, 4])],
    )
}

fn ids(zones: &[&Zone]) -> Vec<u128> {
    zones.iter().map(|z| z.id).collect()
}

#[test]
fn lookups_find_what_is_there() {
    let index = WorkspaceIndex::from_workspace(yard());
    assert_eq!(index.root_zone_id(), Some(1));
    assert_eq!(index.root_zone().id, 1);
    assert_eq!(index.zone(4).map(|z| z.id), Some(4));
    assert!(index.zone(99).is_none());
    assert_eq!(index.node(12).map(|n| n.id), Some(12));
    assert!(index.node(99).is_none());
    assert_eq!(index.edge(22).map(|e| e.id), Some(22));
    assert!(index.edge(99).is_none());
    assert_eq!(index.vertex_id(13), Some(2));
    assert_eq!(index.vertex_id(14), None);
    assert_eq!(index.edge_id(22), Some(1));
    assert_eq!(index.zone_property(2, NUMERIC_ID_PROPERTY), Some(" 20 ".to_string()));
    assert_eq!(index.zone_property(3, "nothing"), None);
    assert_eq!(index.edge_property(21, "nothing"), None);
}

#[test]
fn walks_go_up_and_down_the_tree() {
    let index = WorkspaceIndex::from_workspace(yard());
    assert_eq!(index.parent_zone(4).map(|z| z.id), Some(2));
    assert!(index.parent_zone(1).is_none());
    assert_eq!(ids(&index.ancestor_zones(5)), vec![4, 2, 1]);
    assert_eq!(ids(&index.ancestor_zones(1)), Vec::<u128>::new());
    let mut children = ids(&index.child_zones(1));
    children.sort();
    assert_eq!(children, vec![2, 3]);
    let below = ids(&index.descendant_zones(1));
    assert_eq!(below.len(), 4);
    assert_eq!(&below[2..], &[4, 5]);
    assert_eq!(ids(&index.descendant_zones(4)), vec![5]);
    assert_eq!(ids(&index.descendant_zones(5)), Vec::<u128>::new());
    assert_eq!(index.max_zone_depth(), 4);
    assert!(index.zone_contains(1, 5));
    assert!(index.zone_contains(5, 5));
    assert!(!index.zone_contains(3, 5));
}

#[test]
fn a_zone_is_below_exactly_those_around_it() {
    let index = WorkspaceIndex::from_workspace(yard());
    for a in 1..=5u128 {
        let below = ids(&index.descendant_zones(a));
        for x in 1..=5u128 {
            let above = ids(&index.ancestor_zones(x));
            assert_eq!(below.contains(&x), above.contains(&a), "{a} {x}");
        }
    }
}

#[test]
fn no_zone_is_inside_itself() {
    let index = WorkspaceIndex::from_workspace(yard());
    for x in 1..=5u128 {
        assert!(!ids(&index.ancestor_zones(x)).contains(&x));
    }
}

#[test]
fn the_first_of_equal_identifiers_is_found() {
    let mut ws = local(
        zone(1, &[], &[], vec![]),
        vec![node(11, &[]), node(11, &[1]), node(12, &[])],
        vec![edge(21, 0, 2, &[]), edge(21, 2, 0, &[1])],
    );
    ws.nodes[1].position = "9,9".to_string();
    let index = WorkspaceIndex::from_workspace(ws);
    assert_eq!(index.node(11).unwrap().position, "0,0");
    assert_eq!(index.vertex_id(11), Some(0));
    assert_eq!(index.edge(21).unwrap().source, 0);
}

#[test]
fn repeated_zone_identifiers_do_not_trap_a_walk() {
    let inner = zone(2, &[], &[], vec![zone(1, &[], &[], vec![])]);
    let ws = local(zone(1, &[], &[], vec![inner]), vec![], vec![]);
    let index = WorkspaceIndex::from_workspace(ws);
    assert_eq!(index.max_zone_depth(), 2);
    assert_eq!(ids(&index.ancestor_zones(2)), vec![1, 2]);
}

#[test]
fn memberships_lead_both_ways() {
    let index = WorkspaceIndex::from_workspace(yard());
    let members: Vec<u128> = index.nodes_in_zone(2).iter().map(|n| n.id).collect();
    assert_eq!(members, vec![11, 12]);
    assert_eq!(ids(&index.zones_of_node(12)), vec![2, 4]);
    assert_eq!(ids(&index.zones_of_edge(22)), vec![3, 4]);
    assert!(index.nodes_in_zone(5).is_empty());
    assert_eq!(index.zone_policy(4).unwrap().kind, ZonePolicyKind::ExclusiveAccess);
    assert_eq!(index.zone_policy(3).unwrap().capacity, 2);
    assert!(index.zone_policy(99).is_none());
    assert_eq!(index.node_zone_policies(12).len(), 2);
    assert_eq!(index.edge_zone_policies(22).len(), 2);
    assert!(index.edge_semantics(21).is_some());
    assert!(index.edge_semantics(99).is_none());
}

#[test]
fn edges_join_their_ends() {
    let index = WorkspaceIndex::from_workspace(yard());
    assert_eq!(index.edge_between(11, 12).map(|e| e.id), Some(21));
    assert_eq!(index.edge_between(12, 11).map(|e| e.id), Some(21));
    assert!(index.edge_between(11, 13).is_none());
    let around: Vec<(u128, u128, bool)> =
        index.neighbors(12).iter().map(|a| (a.node_id, a.edge_id, a.from_source)).collect();
    assert_eq!(around, vec![(11, 21, false), (13, 22, true)]);
    assert!(index.neighbors(99).is_empty());
}

#[test]
fn each_end_of_an_edge_has_one_step() {
    let ws = local(
        zone(1, &[], &[], vec![]),
        vec![node(11, &[]), node(12, &[])],
        vec![edge(21, 0, 1, &[]), edge(22, 1, 0, &[]), edge(23, 0, 0, &[])],
    );
    let index = WorkspaceIndex::from_workspace(ws);
    let steps = |n: u128| {
        index
            .neighbors(n)
            .iter()
            .map(|a| (a.node_id, a.edge_id, a.from_source))
            .collect::<Vec<(u128, u128, bool)>>()
    };
    assert_eq!(steps(11), vec![(12, 21, true), (12, 22, false), (11, 23, true)]);
    assert_eq!(steps(12), vec![(11, 21, false), (11, 22, true)]);
}

#[test]
fn numeric_aliases_stand_for_identifiers() {
    let index = WorkspaceIndex::from_workspace(yard());
    assert_eq!(index.zone_uuid_by_numeric_id(20), Some(2));
    assert_eq!(index.zone_uuid_by_numeric_id(21), None);
    assert_eq!(index.node_uuid_by_numeric_id(20), None);
    assert_eq!(index.edge_uuid_by_numeric_id(20), None);
    assert_eq!(ResourceRef::Numeric(10).resolve_zone(&index), Some(1));
    assert_eq!(ResourceRef::Uuid(4).resolve_zone(&index), Some(4));
    assert_eq!(ResourceRef::Uuid(99).resolve_zone(&index), None);
    assert_eq!(ResourceRef::Uuid(13).resolve_node(&index), Some(13));
    assert_eq!(ResourceRef::Uuid(1).resolve_node(&index), None);
    assert_eq!(ResourceRef::Uuid(22).resolve_edge(&index), Some(22));
    assert_eq!(ResourceRef::Numeric(7).resolve_edge(&index), None);
}

#[test]
fn references_are_read_and_written() {
    let text = "67e55044-10b1-426f-9247-bb680e5fe0c8";
    let id = 0x67e5504410b1426f9247bb680e5fe0c8u128;
    assert_eq!(ResourceRef::from_text(text), Some(ResourceRef::Uuid(id)));
    assert_eq!(ResourceRef::from_text(&format!("  {text} ")), Some(ResourceRef::Uuid(id)));
    assert_eq!(ResourceRef::Uuid(id).to_text(), text);
    assert_eq!(ResourceRef::from_text(" 42 "), Some(ResourceRef::Numeric(42)));
    assert_eq!(ResourceRef::Numeric(42).to_text(), "42");
    assert_eq!(ResourceRef::from_text("forty-two"), None);
    assert_eq!(ResourceRef::from_text(""), None);
    assert_eq!(ResourceRef::from_number(7), Some(ResourceRef::Numeric(7)));
    assert_eq!(ResourceRef::from_number(-7), None);
}

fn categories(ws: Workspace) -> Vec<(String, String, Option<u128>)> {
    WorkspaceIndex::from_workspace(ws)
        .validation_issues()
        .into_iter()
        .map(|i| (i.category, i.resource_kind, i.resource_id))
        .collect()
}

fn found(category: &str, kind: &str, id: Option<u128>) -> (String, String, Option<u128>) {
    (category.to_string(), kind.to_string(), id)
}

#[test]
fn a_sound_workspace_is_valid() {
    let index = WorkspaceIndex::from_workspace(yard());
    assert_eq!(index.validation_issues().len(), 0);
    assert!(index.is_valid());
}

#[test]
fn a_missing_origin_is_an_error() {
    let mut ws = local(zone(1, &[], &[], vec![]), vec![], vec![]);
    ws.datum = None;
    let index = WorkspaceIndex::from_workspace(ws);
    let issues = index.validation_issues();
    assert_eq!(issues.len(), 1);
    assert_eq!(issues[0].severity, ValidationSeverity::Error);
    assert_eq!(issues[0].category, "invalid_reference");
    assert_eq!(
        issues[0].message,
        "workspace uses local coordinates without a reference origin"
    );
    assert!(!index.is_valid());
    assert_eq!(count_errors(&issues), 1);
}

#[test]
fn an_idle_origin_is_a_warning() {
    let mut ws = local(zone(1, &[], &[], vec![]), vec![], vec![]);
    ws.coord_mode = CoordMode::Global;
    let index = WorkspaceIndex::from_workspace(ws);
    let issues = index.validation_issues();
    assert_eq!(issues.len(), 1);
    assert_eq!(issues[0].severity, ValidationSeverity::Warning);
    assert_eq!(issues[0].category, "ignored_reference");
    assert_eq!(count_errors(&issues), 0);
}

#[test]
fn repeated_identifiers_are_found() {
    let root = zone(1, &[], &[], vec![zone(2, &[], &[], vec![]), zone(2, &[], &[], vec![])]);
    let ws = local(
        root,
        vec![node(11, &[]), node(11, &[])],
        vec![edge(21, 0, 1, &[]), edge(21, 1, 0, &[])],
    );
    let all = categories(ws);
    assert!(all.contains(&found("duplicate_id", "zone", Some(2))));
    assert!(all.contains(&found("duplicate_id", "node", Some(11))));
    assert!(all.contains(&found("duplicate_id", "edge", Some(21))));
    assert_eq!(all.len(), 3);
}

#[test]
fn null_identifiers_are_found() {
    let ws = local(
        zone(0, &[], &[], vec![]),
        vec![node(0, &[]), node(12, &[])],
        vec![edge(0, 0, 1, &[])],
    );
    let all = categories(ws);
    assert!(all.contains(&found("missing_id", "zone", None)));
    assert!(all.contains(&found("missing_id", "node", None)));
    assert!(all.contains(&found("missing_id", "edge", None)));
    assert_eq!(all.len(), 3);
}

#[test]
fn repeated_aliases_are_found() {
    let root = zone(
        1,
        &[(NUMERIC_ID_PROPERTY, "7")],
        &[],
        vec![zone(2, &[(NUMERIC_ID_PROPERTY, "7")], &[], vec![])],
    );
    let index = WorkspaceIndex::from_workspace(local(root, vec![], vec![]));
    let issues = index.validation_issues();
    assert_eq!(issues.len(), 1);
    assert_eq!(issues[0].category, "duplicate_numeric_id");
    assert!(issues[0].message.ends_with('7'));
    assert_eq!(index.zone_uuid_by_numeric_id(7), Some(1));
}

#[test]
fn broken_memberships_are_found() {
    // The zone lists a node that is missing and one that does not list it back.
    let root = zone(1, &[], &[11, 99], vec![]);
    let all = categories(local(root, vec![node(11, &[])], vec![]));
    assert_eq!(
        all,
        vec![
            found("inconsistent_membership", "zone", Some(1)),
            found("broken_membership", "zone", Some(1)),
        ]
    );
    // The node lists a zone that is missing.
    let all = categories(local(zone(1, &[], &[], vec![]), vec![node(11, &[99])], vec![]));
    assert_eq!(all, vec![found("broken_membership", "node", Some(11))]);
    // The edge lists a zone that is missing and one that holds neither end.
    let ws = local(
        zone(1, &[], &[], vec![]),
        vec![node(11, &[]), node(12, &[])],
        vec![edge(21, 0, 1, &[1, 99])],
    );
    let all = categories(ws);
    assert_eq!(
        all,
        vec![
            found("inconsistent_membership", "edge", Some(21)),
            found("broken_membership", "edge", Some(21)),
        ]
    );
}

#[test]
fn traffic_properties_are_checked() {
    let root = zone(1, &[("traffic.capacity", "many")], &[], vec![]);
    let mut ws = local(root, vec![node(11, &[]), node(12, &[])], vec![edge(21, 0, 1, &[])]);
    ws.edges[0].properties = props(&[("traffic.bogus", "1")]);
    let issues = WorkspaceIndex::from_workspace(ws).validation_issues();
    assert_eq!(issues.len(), 2);
    assert_eq!(issues[0].category, "traffic_property");
    assert_eq!(issues[0].resource_kind, "zone");
    assert!(issues[0].message.starts_with("traffic.capacity: "));
    assert_eq!(issues[1].resource_kind, "edge");
    assert_eq!(issues[1].severity, ValidationSeverity::Warning);
}

#[test]
fn places_are_converted_only_through_an_origin() {
    let to_geo = |p: Point, o: Geo| Geo {
        latitude: num(float(o.latitude) + float(p.y)),
        longitude: num(float(o.longitude) + float(p.x)),
        altitude: p.z,
    };
    let to_point = |g: Geo, o: Geo| Point {
        x: num(float(g.longitude) - float(o.longitude)),
        y: num(float(g.latitude) - float(o.latitude)),
        z: g.altitude,
    };
    let p = Point { x: num(1.0), y: num(2.0), z: num(3.0) };
    let index = WorkspaceIndex::from_workspace(yard());
    let g = index.local_to_global(p, to_geo).unwrap();
    assert_eq!(float(g.latitude), 54.0);
    assert_eq!(float(g.longitude), 6.0);
    assert_eq!(index.global_to_local(g, to_point).unwrap(), p);
    assert_eq!(index.pose_local_to_global(p, to_geo), Some(g));
    assert_eq!(index.pose_global_to_local(g, to_point), Some(p));
    assert_eq!(index.datum(), Some(origin()));
    assert_eq!(index.coord_mode(), CoordMode::Local);

    let mut global = yard();
    global.coord_mode = CoordMode::Global;
    let index = WorkspaceIndex::from_workspace(global);
    assert!(matches!(index.local_to_global(p, to_geo), Err(Error::InvalidArgument(_))));
    assert!(matches!(index.global_to_local(g, to_point), Err(Error::InvalidArgument(_))));
    assert_eq!(index.pose_local_to_global(p, to_geo), Some(g));

    let mut lost = yard();
    lost.datum = None;
    let index = WorkspaceIndex::from_workspace(lost);
    assert!(index.local_to_global(p, to_geo).is_err());
    assert!(index.global_to_local(g, to_point).is_err());
    assert_eq!(index.pose_local_to_global(p, to_geo), None);
    assert_eq!(index.pose_global_to_local(g, to_point), None);
}

#[test]
fn another_workspace_can_be_bound() {
    let mut index = WorkspaceIndex::new(Arc::new(yard()));
    index.refresh();
    assert_eq!(index.max_zone_depth(), 4);
    index.rebind(Arc::new(local(zone(7, &[], &[], vec![]), vec![], vec![])));
    assert_eq!(index.max_zone_depth(), 1);
    assert_eq!(index.root_zone_id(), Some(7));
    assert!(index.node(11).is_none());
    assert_eq!(index.workspace_arc().root.id, index.workspace().root.id);
}

#[test]
fn a_server_lists_its_zones() {
    let lines = list_zones(&WorkspaceIndex::from_workspace(yard()));
    assert_eq!(lines.len(), 5);
    assert_eq!(lines[0].id, 1);
    assert_eq!(lines[0].name, "zone 1");
    assert_eq!(lines[0].numeric_id, Some("10".to_string()));
    assert_eq!(lines[0].policy, "-");
    let four = lines.iter().find(|l| l.id == 4).unwrap();
    assert_eq!(four.policy, "exclusive");
    assert_eq!(four.numeric_id, None);
}

#[test]
fn a_server_reads_its_arguments() {
    let args = |a: &[&str]| a.iter().map(|s| s.to_string()).collect::<Vec<String>>();
    let i = Invocation::from_args(&args(&[]));
    assert_eq!(i.dir, Some("examples/fixed".to_string()));
    assert_eq!(i.addr, "0.0.0.0:8080");
    let i = Invocation::from_args(&args(&["maps/yard", "127.0.0.1:9000"]));
    assert_eq!(i.dir, Some("maps/yard".to_string()));
    assert_eq!(i.addr, "127.0.0.1:9000");
    let i = Invocation::from_args(&args(&["--no-map", "127.0.0.1:9000"]));
    assert_eq!(i.dir, None);
    assert_eq!(i.addr, "127.0.0.1:9000");
    assert!(is_switched_on(" TRUE "));
    assert!(is_switched_on("1"));
    assert!(is_switched_on("Yes"));
    assert!(!is_switched_on("0"));
    assert!(!is_switched_on(""));
}

#[test]
fn edges_are_joined_by_name() {
    let names: Vec<String> = ["a", "b", "a"].iter().map(|s| s.to_string()).collect();
    let edge = |s: &str, t: &str| (s.to_string(), t.to_string());
    assert_eq!(join_named(&names, &vec![edge("a", "b")]), Ok(vec![(2, 1)]));
    assert_eq!(
        join_named(&names, &vec![edge("a", "b"), edge("b", "c"), edge("d", "a")]),
        Err(1)
    );
    assert_eq!(join_named(&names, &vec![]), Ok(vec![]));
}
