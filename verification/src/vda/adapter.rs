//! Mapping routes and robots to messages.

use super::connection::{blank_connection, Connection, ConnectionStatus, ConnectionView};
use super::factsheet::Factsheet;
use super::instant_actions::InstantAction;
use super::order::{
    blank_order, blank_order_edge, blank_order_node, blank_resource_reservation, Order, OrderEdge,
    OrderEdgeView, OrderNode, OrderNodeView, OrderView, ResourceReservation,
    ResourceReservationView,
};
use super::responses::{ActionStatus, Response, ResponseView};
use super::state::{
    blank_state, ConnectionState, OperatingMode, ReservationState, ReservationStateView, State,
    StateView,
};
use crate::claim::manager::{lease_place, request_place, ClaimManager, ClaimManagerView};
use crate::claim::reasons::{kind_word, list_edge_policies, target_kind_name};
use crate::claim::{ClaimTarget, ClaimTargetKind};
use crate::coordinator::targets::listed;
use crate::error::{outcome, Error, ErrorView};
use crate::guid::{uuid_text, uuid_to_text, Uuid};
use crate::ids::{ClaimId, LeaseId};
use crate::index::tables::{edge_at, node_at, policy_at};
use crate::index::{edge_policies, WorkspaceIndex};
use crate::policy::merge::{restrict_edge_semantics, restricted_semantics};
use crate::policy::{EdgeTrafficSemantics, EdgeTrafficSemanticsView, ZonePolicyView};
use crate::properties::{copy_text, text_view};
use crate::robot::{RobotProgressState, RobotState, RobotStateView};
use crate::route::assemble::{plan_shape, shape_error, validate_route_plan_shape};
use crate::route::plan::{
    list_zones_of_edge, list_zones_of_node, zones_of_edge, zones_of_node,
};
use crate::route::{RoutePlan, RoutePlanView};
use crate::text::{decimal, decimal_text};
use crate::views::{lemma_views_push, views};
use crate::workspace::Workspace;
use vstd::prelude::*;

verus! {

// ---------------------------------------------------------------------------
// orders
// ---------------------------------------------------------------------------

/// A length as the number of an update.
pub open spec fn update_number(n: nat) -> u32 {
    (n % 0x1_0000_0000) as u32
}

fn find_update_number(n: usize) -> (u: u32)
    ensures
        u == update_number(n as nat),
{
    (n as u64 % 0x1_0000_0000) as u32
}

/// The word for a kind of claim target.
pub fn claim_target_kind_string(kind: ClaimTargetKind) -> (s: &'static str)
    ensures
        s@ == kind_word(kind),
{
    target_kind_name(kind)
}

/// Reservations of zones.
pub open spec fn zone_reservations(zones: Seq<Uuid>) -> Seq<ResourceReservationView> {
    zones.map_values(
        |id: Uuid|
            ResourceReservationView {
                target_id: uuid_text(id),
                target_kind: "zone"@,
                ..blank_resource_reservation()
            },
    )
}

/// A node of an order, from a plan alone.
pub open spec fn plain_node(plan: RoutePlanView, i: int) -> OrderNodeView {
    OrderNodeView {
        node_id: uuid_text(plan.traversed_node_ids[i]),
        sequence_id: decimal_text(i as nat),
        node_position_hint: Some(decimal_text(i as nat)),
        reservations: zone_reservations(listed(plan.traversed_node_zone_ids, i)),
        ..blank_order_node()
    }
}

/// An edge of an order, from a plan alone.
pub open spec fn plain_edge(plan: RoutePlanView, i: int) -> OrderEdgeView {
    OrderEdgeView {
        edge_id: uuid_text(plan.traversed_edge_ids[i]),
        start_node_id: uuid_text(plan.traversed_node_ids[i]),
        end_node_id: uuid_text(plan.traversed_node_ids[i + 1]),
        reservations: zone_reservations(listed(plan.traversed_edge_zone_ids, i)),
        ..blank_order_edge()
    }
}

/// The head of an order.
pub open spec fn order_head(plan: RoutePlanView) -> OrderView {
    OrderView {
        header_id: uuid_text(plan.start_node_id),
        order_id: uuid_text(plan.goal_node_id),
        order_update_id: update_number(plan.traversed_edge_ids.len()),
        ..blank_order()
    }
}

/// The order for a plan of the right shape.
pub open spec fn plain_order(plan: RoutePlanView) -> OrderView {
    OrderView {
        nodes: Seq::new(plan.traversed_node_ids.len(), |i: int| plain_node(plan, i)),
        edges: Seq::new(plan.traversed_edge_ids.len(), |i: int| plain_edge(plan, i)),
        ..order_head(plan)
    }
}

fn list_zone_reservations(zones: &Vec<Uuid>) -> (out: Vec<ResourceReservation>)
    ensures
        views(out@) == zone_reservations(zones@),
{
    let ghost all = zone_reservations(zones@);
    let mut out: Vec<ResourceReservation> = Vec::new();
    let mut i: usize = 0;
    assert(views(out@) =~= all.take(0));
    while i < zones.len()
        invariant
            i <= zones.len(),
            all == zone_reservations(zones@),
            views(out@) == all.take(i as int),
        decreases zones.len() - i,
    {
        let mut r = ResourceReservation::default();
        r.target_id = uuid_to_text(zones[i]);
        r.target_kind = "zone".to_owned();
        proof {
            lemma_views_push(out@, r);
        }
        out.push(r);
        i = i + 1;
        assert(views(out@) =~= all.take(i as int));
    }
    assert(views(out@) =~= all);
    out
}

fn list_listed_reservations(zones: &Vec<Vec<Uuid>>, i: usize) -> (out: Vec<ResourceReservation>)
    ensures
        views(out@) == zone_reservations(listed(views(zones@), i as int)),
{
    if i < zones.len() {
        assert(views(zones@)[i as int] == zones@[i as int]@);
        list_zone_reservations(&zones[i])
    } else {
        let out: Vec<ResourceReservation> = Vec::new();
        assert(views(out@) =~= zone_reservations(Seq::empty()));
        out
    }
}

fn make_plain_node(plan: &RoutePlan, i: usize) -> (n: OrderNode)
    requires
        i < plan@.traversed_node_ids.len(),
    ensures
        n@ == plain_node(plan@, i as int),
{
    let mut n = OrderNode::default();
    n.node_id = uuid_to_text(plan.traversed_node_ids[i]);
    n.sequence_id = decimal(i as u128);
    n.node_position_hint = Some(decimal(i as u128));
    n.reservations = list_listed_reservations(&plan.traversed_node_zone_ids, i);
    n
}

fn make_plain_edge(plan: &RoutePlan, i: usize) -> (e: OrderEdge)
    requires
        i < plan@.traversed_edge_ids.len(),
        i + 1 < plan@.traversed_node_ids.len(),
    ensures
        e@ == plain_edge(plan@, i as int),
{
    let mut e = OrderEdge::default();
    assert(plan.traversed_node_ids@.len() == plan.traversed_node_ids.len());
    e.edge_id = uuid_to_text(plan.traversed_edge_ids[i]);
    e.start_node_id = uuid_to_text(plan.traversed_node_ids[i]);
    e.end_node_id = uuid_to_text(plan.traversed_node_ids[i + 1]);
    e.reservations = list_listed_reservations(&plan.traversed_edge_zone_ids, i);
    e
}

fn make_head(plan: &RoutePlan) -> (o: Order)
    ensures
        o@ == order_head(plan@),
{
    let mut o = Order::default();
    o.header_id = uuid_to_text(plan.start_node_id);
    o.order_id = uuid_to_text(plan.goal_node_id);
    o.order_update_id = find_update_number(plan.traversed_edge_ids.len());
    o
}

/// The order for a plan, or what is wrong with the plan.
pub open spec fn order_of(plan: RoutePlanView) -> Result<OrderView, ErrorView> {
    match plan_shape(plan) {
        Ok(_) => Ok(plain_order(plan)),
        Err(e) => Err(e),
    }
}

/// Maps a plan to an order.
pub fn try_map_route_plan(route_plan: &RoutePlan) -> (r: Result<Order, Error>)
    ensures
        outcome(r) == order_of(route_plan@),
{
    match validate_route_plan_shape(route_plan) {
        Ok(_) => {},
        Err(e) => {
            return Err(e);
        },
    }
    let ghost plan = route_plan@;
    let mut order = make_head(route_plan);
    let ghost all_nodes = plain_order(plan).nodes;
    let ghost all_edges = plain_order(plan).edges;
    let mut nodes: Vec<OrderNode> = Vec::new();
    let mut i: usize = 0;
    assert(views(nodes@) =~= all_nodes.take(0));
    while i < route_plan.traversed_node_ids.len()
        invariant
            i <= route_plan.traversed_node_ids.len(),
            plan == route_plan@,
            all_nodes == plain_order(plan).nodes,
            views(nodes@) == all_nodes.take(i as int),
        decreases route_plan.traversed_node_ids.len() - i,
    {
        let n = make_plain_node(route_plan, i);
        proof {
            lemma_views_push(nodes@, n);
        }
        nodes.push(n);
        i = i + 1;
        assert(views(nodes@) =~= all_nodes.take(i as int));
    }
    assert(views(nodes@) =~= all_nodes);
    let mut edges: Vec<OrderEdge> = Vec::new();
    let mut i: usize = 0;
    assert(views(edges@) =~= all_edges.take(0));
    while i < route_plan.traversed_edge_ids.len()
        invariant
            i <= route_plan.traversed_edge_ids.len(),
            plan == route_plan@,
            shape_error(plan) is None,
            all_edges == plain_order(plan).edges,
            views(edges@) == all_edges.take(i as int),
        decreases route_plan.traversed_edge_ids.len() - i,
    {
        let e = make_plain_edge(route_plan, i);
        proof {
            lemma_views_push(edges@, e);
        }
        edges.push(e);
        i = i + 1;
        assert(views(edges@) =~= all_edges.take(i as int));
    }
    assert(views(edges@) =~= all_edges);
    order.nodes = nodes;
    order.edges = edges;
    Ok(order)
}

// ---------------------------------------------------------------------------
// orders with what the workspace knows
// ---------------------------------------------------------------------------

/// The text of the first identifier of a list, if there is one.
pub open spec fn first_text(ids: Seq<Uuid>) -> Option<Seq<char>> {
    if ids.len() > 0 {
        Some(uuid_text(ids[0]))
    } else {
        None
    }
}

fn find_first_text(ids: &Vec<Uuid>) -> (t: Option<String>)
    ensures
        text_view(t) == first_text(ids@),
{
    if ids.len() > 0 {
        Some(uuid_to_text(ids[0]))
    } else {
        None
    }
}

/// Whether a zone asks for anything that an order has to say.
pub open spec fn asks(p: ZonePolicyView) -> bool {
    p.requires_claim || p.access_group is Some || p.schedule_window is Some
}

/// The reservations that a list of zones asks for.
pub open spec fn asked_reservations(ws: &Workspace, zones: Seq<Uuid>) -> Seq<
    ResourceReservationView,
>
    decreases zones.len(),
{
    if zones.len() == 0 {
        Seq::empty()
    } else {
        let before = asked_reservations(ws, zones.drop_last());
        match policy_at(ws, zones.last()) {
            Some(p) if asks(p) => before.push(
                ResourceReservationView {
                    target_id: uuid_text(zones.last()),
                    target_kind: "zone"@,
                    requires_claim: p.requires_claim,
                    access_group: p.access_group,
                    schedule_window: p.schedule_window,
                },
            ),
            _ => before,
        }
    }
}

fn append_asked_reservations(
    index: &WorkspaceIndex,
    out: &mut Vec<ResourceReservation>,
    zones: &Vec<Uuid>,
)
    ensures
        views(final(out)@) == views(old(out)@) + asked_reservations(&index@, zones@),
{
    let ghost before = views(out@);
    let mut i: usize = 0;
    assert(zones@.take(0) =~= Seq::empty());
    assert(before + asked_reservations(&index@, zones@.take(0)) =~= before);
    while i < zones.len()
        invariant
            i <= zones.len(),
            views(out@) == before + asked_reservations(&index@, zones@.take(i as int)),
        decreases zones.len() - i,
    {
        assert(zones@.take(i as int + 1).drop_last() =~= zones@.take(i as int));
        if let Some(p) = index.zone_policy(zones[i]) {
            if p.requires_claim || p.access_group.is_some() || p.schedule_window.is_some() {
                let r = ResourceReservation {
                    target_id: uuid_to_text(zones[i]),
                    target_kind: "zone".to_owned(),
                    requires_claim: p.requires_claim,
                    access_group: copy_text(&p.access_group),
                    schedule_window: copy_text(&p.schedule_window),
                };
                proof {
                    lemma_views_push(out@, r);
                }
                out.push(r);
            }
        }
        i = i + 1;
        assert(views(out@) =~= before + asked_reservations(&index@, zones@.take(i as int)));
    }
    assert(zones@.take(i as int) =~= zones@);
}

/// A node of an order, with its zone and place and what its zones ask for.
pub open spec fn known_node(ws: &Workspace, plan: RoutePlanView, i: int) -> OrderNodeView {
    let id = plan.traversed_node_ids[i];
    let plain = plain_node(plan, i);
    OrderNodeView {
        zone_id: first_text(zones_of_node(ws, id)),
        node_position_hint: match node_at(ws, id) {
            Some(n) => Some(n.position@),
            None => plain.node_position_hint,
        },
        reservations: plain.reservations + asked_reservations(ws, zones_of_node(ws, id)),
        ..plain
    }
}

/// Reservations with what an edge asks for put into the last one.
pub open spec fn completed(
    r: Seq<ResourceReservationView>,
    s: EdgeTrafficSemanticsView,
) -> Seq<ResourceReservationView> {
    if r.len() == 0 {
        r
    } else {
        r.update(
            r.len() - 1,
            ResourceReservationView {
                access_group: if s.access_group is Some {
                    s.access_group
                } else {
                    r.last().access_group
                },
                schedule_window: if s.schedule_window is Some {
                    s.schedule_window
                } else {
                    r.last().schedule_window
                },
                ..r.last()
            },
        )
    }
}

/// The reservations of an edge with its own one, if it has to be claimed.
pub open spec fn edge_reservations(
    r: Seq<ResourceReservationView>,
    edge_id: Uuid,
    s: EdgeTrafficSemanticsView,
) -> Seq<ResourceReservationView> {
    completed(
        if s.requires_claim == Some(true) {
            r.push(
                ResourceReservationView {
                    target_id: uuid_text(edge_id),
                    target_kind: "edge"@,
                    requires_claim: true,
                    access_group: s.access_group,
                    schedule_window: s.schedule_window,
                },
            )
        } else {
            r
        },
        s,
    )
}

/// An edge of an order, with its zone, its speed and what it asks for.
pub open spec fn known_edge(ws: &Workspace, plan: RoutePlanView, i: int) -> OrderEdgeView {
    let id = plan.traversed_edge_ids[i];
    let plain = OrderEdgeView {
        zone_id: first_text(zones_of_edge(ws, id)),
        ..plain_edge(plan, i)
    };
    match edge_at(ws, id) {
        Some(e) => {
            let s = restricted_semantics(e.properties@, false, edge_policies(ws, id));
            OrderEdgeView {
                max_speed: match s.speed_limit {
                    Some(n) => Some(n.value),
                    None => plain.max_speed,
                },
                bidirectional: !s.directed || s.reversible == Some(true),
                reservations: edge_reservations(plain.reservations, e.id, s),
                ..plain
            }
        },
        None => plain,
    }
}

/// The order for a plan of the right shape, with what the workspace knows.
pub open spec fn known_order(ws: &Workspace, plan: RoutePlanView) -> OrderView {
    OrderView {
        nodes: Seq::new(plan.traversed_node_ids.len(), |i: int| known_node(ws, plan, i)),
        edges: Seq::new(plan.traversed_edge_ids.len(), |i: int| known_edge(ws, plan, i)),
        ..order_head(plan)
    }
}

/// The order for a plan with what the workspace knows, or what is wrong with the
/// plan.
pub open spec fn known_order_of(ws: &Workspace, plan: RoutePlanView) -> Result<
    OrderView,
    ErrorView,
> {
    match plan_shape(plan) {
        Ok(_) => Ok(known_order(ws, plan)),
        Err(e) => Err(e),
    }
}

fn make_known_node(index: &WorkspaceIndex, plan: &RoutePlan, i: usize) -> (n: OrderNode)
    requires
        i < plan@.traversed_node_ids.len(),
    ensures
        n@ == known_node(&index@, plan@, i as int),
{
    let id = plan.traversed_node_ids[i];
    let mut n = make_plain_node(plan, i);
    let zones = list_zones_of_node(index, id);
    n.zone_id = find_first_text(&zones);
    if let Some(node) = index.node(id) {
        n.node_position_hint = Some(node.position.clone());
    }
    append_asked_reservations(index, &mut n.reservations, &zones);
    n
}

fn complete_last(out: &mut Vec<ResourceReservation>, s: &EdgeTrafficSemantics)
    ensures
        views(final(out)@) == completed(views(old(out)@), s@),
{
    let n: usize = out.len();
    if n == 0 {
        return;
    }
    let ghost before = views(out@);
    assert(before[n - 1] == out@[n - 1]@);
    let mut last = out[n - 1].clone();
    if s.access_group.is_some() {
        last.access_group = copy_text(&s.access_group);
    }
    if s.schedule_window.is_some() {
        last.schedule_window = copy_text(&s.schedule_window);
    }
    let ghost l = last@;
    out.set(n - 1, last);
    assert(views(out@) =~= before.update(n - 1, l));
}

fn make_known_edge(index: &WorkspaceIndex, plan: &RoutePlan, i: usize) -> (e: OrderEdge)
    requires
        i < plan@.traversed_edge_ids.len(),
        i + 1 < plan@.traversed_node_ids.len(),
    ensures
        e@ == known_edge(&index@, plan@, i as int),
{
    let id = plan.traversed_edge_ids[i];
    let mut e = make_plain_edge(plan, i);
    let zones = list_zones_of_edge(index, id);
    e.zone_id = find_first_text(&zones);
    if let Some(edge) = index.edge(id) {
        let policies = list_edge_policies(index, id);
        let s = restrict_edge_semantics(&edge.properties, false, &policies);
        if let Some(n) = &s.speed_limit {
            e.max_speed = Some(n.value);
        }
        e.bidirectional = !s.directed || s.reversible == Some(true);
        if s.requires_claim == Some(true) {
            let r = ResourceReservation {
                target_id: uuid_to_text(edge.id),
                target_kind: "edge".to_owned(),
                requires_claim: true,
                access_group: copy_text(&s.access_group),
                schedule_window: copy_text(&s.schedule_window),
            };
            proof {
                lemma_views_push(e.reservations@, r);
            }
            e.reservations.push(r);
        }
        complete_last(&mut e.reservations, &s);
    }
    e
}

/// Maps a plan to an order, with what the workspace knows.
pub fn try_map_route_plan_with_index(index: &WorkspaceIndex, route_plan: &RoutePlan) -> (r: Result<
    Order,
    Error,
>)
    ensures
        outcome(r) == known_order_of(&index@, route_plan@),
{
    match validate_route_plan_shape(route_plan) {
        Ok(_) => {},
        Err(e) => {
            return Err(e);
        },
    }
    let ghost plan = route_plan@;
    let ghost ws = &index@;
    let mut order = make_head(route_plan);
    let ghost all_nodes = known_order(ws, plan).nodes;
    let ghost all_edges = known_order(ws, plan).edges;
    let mut nodes: Vec<OrderNode> = Vec::new();
    let mut i: usize = 0;
    assert(views(nodes@) =~= all_nodes.take(0));
    while i < route_plan.traversed_node_ids.len()
        invariant
            i <= route_plan.traversed_node_ids.len(),
            plan == route_plan@,
            ws == &index@,
            all_nodes == known_order(ws, plan).nodes,
            views(nodes@) == all_nodes.take(i as int),
        decreases route_plan.traversed_node_ids.len() - i,
    {
        let n = make_known_node(index, route_plan, i);
        proof {
            lemma_views_push(nodes@, n);
        }
        nodes.push(n);
        i = i + 1;
        assert(views(nodes@) =~= all_nodes.take(i as int));
    }
    assert(views(nodes@) =~= all_nodes);
    let mut edges: Vec<OrderEdge> = Vec::new();
    let mut i: usize = 0;
    assert(views(edges@) =~= all_edges.take(0));
    while i < route_plan.traversed_edge_ids.len()
        invariant
            i <= route_plan.traversed_edge_ids.len(),
            plan == route_plan@,
            ws == &index@,
            shape_error(plan) is None,
            all_edges == known_order(ws, plan).edges,
            views(edges@) == all_edges.take(i as int),
        decreases route_plan.traversed_edge_ids.len() - i,
    {
        let e = make_known_edge(index, route_plan, i);
        proof {
            lemma_views_push(edges@, e);
        }
        edges.push(e);
        i = i + 1;
        assert(views(edges@) =~= all_edges.take(i as int));
    }
    assert(views(edges@) =~= all_edges);
    order.nodes = nodes;
    order.edges = edges;
    Ok(order)
}

/// An order, or an empty one in its place.
pub open spec fn or_blank(r: Result<OrderView, ErrorView>) -> OrderView {
    match r {
        Ok(o) => o,
        Err(_) => blank_order(),
    }
}

/// Maps a plan to an order, which is empty where the plan is of the wrong shape.
pub fn map_route_plan(route_plan: &RoutePlan) -> (o: Order)
    ensures
        o@ == or_blank(order_of(route_plan@)),
{
    match try_map_route_plan(route_plan) {
        Ok(o) => o,
        Err(_) => Order::default(),
    }
}

/// Maps a plan to an order, with what the workspace knows. The order is empty
/// where the plan is of the wrong shape.
pub fn map_route_plan_with_index(index: &WorkspaceIndex, route_plan: &RoutePlan) -> (o: Order)
    ensures
        o@ == or_blank(known_order_of(&index@, route_plan@)),
{
    match try_map_route_plan_with_index(index, route_plan) {
        Ok(o) => o,
        Err(_) => Order::default(),
    }
}

// ---------------------------------------------------------------------------
// states
// ---------------------------------------------------------------------------

/// The text of an identifier, if there is one.
pub open spec fn id_text(id: Option<Uuid>) -> Option<Seq<char>> {
    match id {
        Some(u) => Some(uuid_text(u)),
        None => None,
    }
}

fn find_id_text(id: Option<Uuid>) -> (t: Option<String>)
    ensures
        text_view(t) == id_text(id),
{
    match id {
        Some(u) => Some(uuid_to_text(u)),
        None => None,
    }
}

/// The state that a robot is reported in.
pub open spec fn state_of(s: RobotStateView) -> StateView {
    let pending = s.pending_claim_ids.len() > 0;
    StateView {
        agv_id: decimal_text(s.robot_id.0 as nat),
        operating_mode: if s.route_plan is Some {
            OperatingMode::Automatic
        } else {
            OperatingMode::Manual
        },
        connection_state: ConnectionState::Online,
        last_node_id: id_text(s.current_node_id),
        last_edge_id: id_text(s.current_edge_id),
        order_id: match s.route_plan {
            Some(plan) => Some(uuid_text(plan.goal_node_id)),
            None => None,
        },
        order_update_id: match s.route_plan {
            Some(plan) => update_number(plan.traversed_edge_ids.len()),
            None => 0,
        },
        driving_state: Some(
            if s.progress_state == RobotProgressState::FollowingRoute {
                "DRIVING"@
            } else {
                "STOPPED"@
            },
        ),
        paused: s.progress_state == RobotProgressState::Waiting || s.progress_state
            == RobotProgressState::Blocked,
        errors: if pending {
            seq!["pending_claims"@]
        } else {
            Seq::empty()
        },
        information: if pending {
            seq!["claims awaiting arbitration"@]
        } else {
            Seq::empty()
        },
        ..blank_state()
    }
}

fn one_line(s: &str) -> (v: Vec<String>)
    ensures
        views(v@) == seq![s@],
{
    let mut v: Vec<String> = Vec::new();
    v.push(s.to_owned());
    assert(views(v@) =~= seq![s@]);
    v
}

/// Maps a robot to the state that it is reported in.
pub fn map_robot_state(state: &RobotState) -> (s: State)
    ensures
        s@ == state_of(state@),
{
    let mut s = State::default();
    s.agv_id = decimal(state.robot_id.0 as u128);
    s.operating_mode = if state.route_plan.is_some() {
        OperatingMode::Automatic
    } else {
        OperatingMode::Manual
    };
    s.connection_state = ConnectionState::Online;
    s.last_node_id = find_id_text(state.current_node_id);
    s.last_edge_id = find_id_text(state.current_edge_id);
    if let Some(plan) = &state.route_plan {
        s.order_id = Some(uuid_to_text(plan.goal_node_id));
        s.order_update_id = find_update_number(plan.traversed_edge_ids.len());
    }
    let driving = if state.progress_state == RobotProgressState::FollowingRoute {
        "DRIVING"
    } else {
        "STOPPED"
    };
    s.driving_state = Some(driving.to_owned());
    s.paused = state.progress_state == RobotProgressState::Waiting || state.progress_state
        == RobotProgressState::Blocked;
    if state.pending_claim_ids.len() > 0 {
        s.errors = one_line("pending_claims");
        s.information = one_line("claims awaiting arbitration");
    }
    s
}

/// What is reported of a list of targets.
pub open spec fn reported_targets(targets: Seq<ClaimTarget>, state: Seq<char>) -> Seq<
    ReservationStateView,
> {
    targets.map_values(
        |t: ClaimTarget|
            ReservationStateView {
                target_id: uuid_text(t.resource_id),
                target_kind: kind_word(t.kind),
                state,
            },
    )
}

/// What is reported of the leases of a list that are there.
pub open spec fn reported_leases(m: ClaimManagerView, ids: Seq<LeaseId>) -> Seq<
    ReservationStateView,
>
    decreases ids.len(),
{
    if ids.len() == 0 {
        Seq::empty()
    } else {
        let before = reported_leases(m, ids.drop_last());
        match lease_place(m.leases, ids.last(), 0) {
            Some(i) => before + reported_targets(m.leases[i].targets, "ACTIVE"@),
            None => before,
        }
    }
}

/// An error for each lease of a list that is not there.
pub open spec fn missing_leases(m: ClaimManagerView, ids: Seq<LeaseId>) -> Seq<Seq<char>>
    decreases ids.len(),
{
    if ids.len() == 0 {
        Seq::empty()
    } else {
        let before = missing_leases(m, ids.drop_last());
        match lease_place(m.leases, ids.last(), 0) {
            Some(_) => before,
            None => before.push("missing_lease"@),
        }
    }
}

/// What is reported of the requests of a list that are there.
pub open spec fn reported_claims(m: ClaimManagerView, ids: Seq<ClaimId>) -> Seq<
    ReservationStateView,
>
    decreases ids.len(),
{
    if ids.len() == 0 {
        Seq::empty()
    } else {
        let before = reported_claims(m, ids.drop_last());
        match request_place(m.requests, ids.last(), 0) {
            Some(i) => before + reported_targets(m.requests[i].targets, "PENDING"@),
            None => before,
        }
    }
}

/// The state that a robot is reported in, with its claims.
pub open spec fn state_with_claims(s: RobotStateView, m: ClaimManagerView) -> StateView {
    let plain = state_of(s);
    StateView {
        reservation_states: reported_leases(m, s.active_lease_ids) + reported_claims(
            m,
            s.pending_claim_ids,
        ),
        errors: plain.errors + missing_leases(m, s.active_lease_ids),
        action_states: (if s.active_lease_ids.len() > 0 {
            seq!["holding_leases"@]
        } else {
            Seq::empty()
        }) + match s.hold_reason {
            Some(reason) => seq![reason],
            None => Seq::empty(),
        },
        ..plain
    }
}

fn append_reported(out: &mut Vec<ReservationState>, targets: &Vec<ClaimTarget>, state: &str)
    ensures
        views(final(out)@) == views(old(out)@) + reported_targets(targets@, state@),
{
    let ghost before = views(out@);
    let ghost all = reported_targets(targets@, state@);
    let mut i: usize = 0;
    assert(before + all.take(0) =~= before);
    while i < targets.len()
        invariant
            i <= targets.len(),
            all == reported_targets(targets@, state@),
            views(out@) == before + all.take(i as int),
        decreases targets.len() - i,
    {
        let r = ReservationState {
            target_id: uuid_to_text(targets[i].resource_id),
            target_kind: claim_target_kind_string(targets[i].kind).to_owned(),
            state: state.to_owned(),
        };
        proof {
            lemma_views_push(out@, r);
        }
        out.push(r);
        i = i + 1;
        assert(before + all.take(i as int) =~= (before + all.take(i - 1)).push(all[i - 1]));
    }
    assert(all.take(i as int) =~= all);
}

/// Maps a robot to the state that it is reported in, with its claims.
pub fn map_robot_state_with_claims(state: &RobotState, claim_manager: &ClaimManager) -> (s: State)
    ensures
        s@ == state_with_claims(state@, claim_manager@),
{
    let ghost m = claim_manager@;
    let plain = map_robot_state(state);
    let mut s = plain;
    let leases = &state.active_lease_ids;
    let mut reservations: Vec<ReservationState> = Vec::new();
    let mut errors: Vec<String> = Vec::new();
    std::mem::swap(&mut errors, &mut s.errors);
    let ghost known = views(errors@);
    let mut i: usize = 0;
    assert(leases@.take(0) =~= Seq::empty());
    assert(views(reservations@) =~= Seq::empty());
    assert(known + missing_leases(m, leases@.take(0)) =~= known);
    while i < leases.len()
        invariant
            i <= leases.len(),
            m == claim_manager@,
            views(reservations@) == reported_leases(m, leases@.take(i as int)),
            views(errors@) == known + missing_leases(m, leases@.take(i as int)),
        decreases leases.len() - i,
    {
        assert(leases@.take(i as int + 1).drop_last() =~= leases@.take(i as int));
        match claim_manager.find_lease(leases[i]) {
            Some(lease) => {
                append_reported(&mut reservations, &lease.targets, "ACTIVE");
            },
            None => {
                let e = "missing_lease".to_owned();
                proof {
                    lemma_views_push(errors@, e);
                }
                errors.push(e);
            },
        }
        i = i + 1;
        assert(views(errors@) =~= known + missing_leases(m, leases@.take(i as int)));
    }
    assert(leases@.take(i as int) =~= leases@);
    let ghost held = views(reservations@);
    let claims = &state.pending_claim_ids;
    let mut i: usize = 0;
    assert(claims@.take(0) =~= Seq::empty());
    assert(held + reported_claims(m, claims@.take(0)) =~= held);
    while i < claims.len()
        invariant
            i <= claims.len(),
            m == claim_manager@,
            views(reservations@) == held + reported_claims(m, claims@.take(i as int)),
        decreases claims.len() - i,
    {
        assert(claims@.take(i as int + 1).drop_last() =~= claims@.take(i as int));
        if let Some(request) = claim_manager.find_request(claims[i]) {
            append_reported(&mut reservations, &request.targets, "PENDING");
        }
        i = i + 1;
        assert(views(reservations@) =~= held + reported_claims(m, claims@.take(i as int)));
    }
    assert(claims@.take(i as int) =~= claims@);
    let mut actions: Vec<String> = Vec::new();
    if leases.len() > 0 {
        actions = one_line("holding_leases");
    } else {
        assert(views(actions@) =~= Seq::empty());
    }
    let ghost held_actions = views(actions@);
    match &state.hold_reason {
        Some(reason) => {
            let r = reason.clone();
            proof {
                lemma_views_push(actions@, r);
            }
            actions.push(r);
            assert(views(actions@) =~= held_actions + seq![reason@]);
        },
        None => {
            assert(views(actions@) =~= held_actions + Seq::empty());
        },
    }
    s.reservation_states = reservations;
    s.errors = errors;
    s.action_states = actions;
    s
}

// ---------------------------------------------------------------------------
// the adapter
// ---------------------------------------------------------------------------

/// Maps routes, robots and actions to messages.
pub struct Adapter;

impl Adapter {
    pub fn new() -> (a: Self)
        ensures
            a == Adapter,
    {
        Adapter
    }

    pub fn order_from_route(&self, route_plan: &RoutePlan) -> (o: Order)
        ensures
            o@ == or_blank(order_of(route_plan@)),
    {
        map_route_plan(route_plan)
    }

    pub fn order_from_route_with_index(
        &self,
        index: &WorkspaceIndex,
        route_plan: &RoutePlan,
    ) -> (o: Order)
        ensures
            o@ == or_blank(known_order_of(&index@, route_plan@)),
    {
        map_route_plan_with_index(index, route_plan)
    }

    pub fn state_from_robot(&self, robot_state: &RobotState) -> (s: State)
        ensures
            s@ == state_of(robot_state@),
    {
        map_robot_state(robot_state)
    }

    pub fn state_from_robot_with_claims(
        &self,
        robot_state: &RobotState,
        claim_manager: &ClaimManager,
    ) -> (s: State)
        ensures
            s@ == state_with_claims(robot_state@, claim_manager@),
    {
        map_robot_state_with_claims(robot_state, claim_manager)
    }

    /// The connection of a vehicle that has sent its factsheet.
    pub fn connection_from_factsheet(&self, factsheet: &Factsheet) -> (c: Connection)
        ensures
            c@ == (ConnectionView {
                manufacturer: factsheet@.manufacturer,
                serial_number: factsheet@.serial_number,
                version: factsheet@.protocol_version,
                status: ConnectionStatus::Online,
                ..blank_connection()
            }),
    {
        let mut c = Connection::default();
        c.manufacturer = factsheet.manufacturer.clone();
        c.serial_number = factsheet.serial_number.clone();
        c.version = factsheet.protocol_version.clone();
        c.status = ConnectionStatus::Online;
        c
    }

    /// The answer to an action.
    pub fn response_for_action(
        &self,
        action: &InstantAction,
        status: ActionStatus,
        description: Option<String>,
        result_code: Option<String>,
    ) -> (r: Response)
        ensures
            r@ == (ResponseView {
                action_id: action@.action_id,
                status,
                description: text_view(description),
                result_code: text_view(result_code),
            }),
    {
        Response { action_id: action.action_id.clone(), status, description, result_code }
    }
}

impl Default for Adapter {
    fn default() -> (a: Self)
        ensures
            a == Adapter,
    {
        Self::new()
    }
}

} // verus!
