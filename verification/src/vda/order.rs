//! Orders for vehicles.

use crate::number::Real;
use crate::properties::{copy_text, text_view};
use crate::views::views;
use vstd::prelude::*;

verus! {

/// An action of an order.
#[derive(Debug, PartialEq, Eq)]
pub struct ActionReference {
    pub action_id: String,
    pub action_type: String,
    pub blocking: bool,
}

/// What a [`ActionReference`] stands for.
pub struct ActionReferenceView {
    pub action_id: Seq<char>,
    pub action_type: Seq<char>,
    pub blocking: bool,
}

impl View for ActionReference {
    type V = ActionReferenceView;

    open spec fn view(&self) -> ActionReferenceView {
        ActionReferenceView {
            action_id: self.action_id@,
            action_type: self.action_type@,
            blocking: self.blocking,
        }
    }
}

impl Clone for ActionReference {
    fn clone(&self) -> (r: Self)
        ensures
            r == *self,
    {
        let r = ActionReference {
            action_id: self.action_id.clone(),
            action_type: self.action_type.clone(),
            blocking: self.blocking,
        };
        r
    }
}

/// A [`ActionReference`] that states nothing.
pub open spec fn blank_action_reference() -> ActionReferenceView {
    ActionReferenceView {
        action_id: Seq::empty(),
        action_type: Seq::empty(),
        blocking: false,
    }
}

impl Default for ActionReference {
    fn default() -> (d: Self)
        ensures
            d@ == blank_action_reference(),
    {
        let d = ActionReference {
            action_id: String::new(),
            action_type: String::new(),
            blocking: false,
        };
        d
    }
}

/// A resource that an order reserves.
#[derive(Debug, PartialEq, Eq)]
pub struct ResourceReservation {
    pub target_id: String,
    pub target_kind: String,
    pub requires_claim: bool,
    pub access_group: Option<String>,
    pub schedule_window: Option<String>,
}

/// What a [`ResourceReservation`] stands for.
pub struct ResourceReservationView {
    pub target_id: Seq<char>,
    pub target_kind: Seq<char>,
    pub requires_claim: bool,
    pub access_group: Option<Seq<char>>,
    pub schedule_window: Option<Seq<char>>,
}

impl View for ResourceReservation {
    type V = ResourceReservationView;

    open spec fn view(&self) -> ResourceReservationView {
        ResourceReservationView {
            target_id: self.target_id@,
            target_kind: self.target_kind@,
            requires_claim: self.requires_claim,
            access_group: text_view(self.access_group),
            schedule_window: text_view(self.schedule_window),
        }
    }
}

impl Clone for ResourceReservation {
    fn clone(&self) -> (r: Self)
        ensures
            r == *self,
    {
        let r = ResourceReservation {
            target_id: self.target_id.clone(),
            target_kind: self.target_kind.clone(),
            requires_claim: self.requires_claim,
            access_group: copy_text(&self.access_group),
            schedule_window: copy_text(&self.schedule_window),
        };
        r
    }
}

/// A [`ResourceReservation`] that states nothing.
pub open spec fn blank_resource_reservation() -> ResourceReservationView {
    ResourceReservationView {
        target_id: Seq::empty(),
        target_kind: Seq::empty(),
        requires_claim: false,
        access_group: None,
        schedule_window: None,
    }
}

impl Default for ResourceReservation {
    fn default() -> (d: Self)
        ensures
            d@ == blank_resource_reservation(),
    {
        let d = ResourceReservation {
            target_id: String::new(),
            target_kind: String::new(),
            requires_claim: false,
            access_group: None,
            schedule_window: None,
        };
        d
    }
}

/// A node of an order.
#[derive(Debug, PartialEq, Eq)]
pub struct OrderNode {
    pub node_id: String,
    pub sequence_id: String,
    pub released: bool,
    pub zone_id: Option<String>,
    pub node_position_hint: Option<String>,
    pub reservations: Vec<ResourceReservation>,
    pub actions: Vec<ActionReference>,
}

/// What a [`OrderNode`] stands for.
pub struct OrderNodeView {
    pub node_id: Seq<char>,
    pub sequence_id: Seq<char>,
    pub released: bool,
    pub zone_id: Option<Seq<char>>,
    pub node_position_hint: Option<Seq<char>>,
    pub reservations: Seq<ResourceReservationView>,
    pub actions: Seq<ActionReferenceView>,
}

impl View for OrderNode {
    type V = OrderNodeView;

    open spec fn view(&self) -> OrderNodeView {
        OrderNodeView {
            node_id: self.node_id@,
            sequence_id: self.sequence_id@,
            released: self.released,
            zone_id: text_view(self.zone_id),
            node_position_hint: text_view(self.node_position_hint),
            reservations: views(self.reservations@),
            actions: views(self.actions@),
        }
    }
}

impl Clone for OrderNode {
    fn clone(&self) -> (r: Self)
        ensures
            r@ == self@,
    {
        let r = OrderNode {
            node_id: self.node_id.clone(),
            sequence_id: self.sequence_id.clone(),
            released: self.released,
            zone_id: copy_text(&self.zone_id),
            node_position_hint: copy_text(&self.node_position_hint),
            reservations: self.reservations.clone(),
            actions: self.actions.clone(),
        };
        assert(r@.reservations =~= self@.reservations);
        assert(r@.actions =~= self@.actions);
        r
    }
}

/// A [`OrderNode`] that states nothing.
pub open spec fn blank_order_node() -> OrderNodeView {
    OrderNodeView {
        node_id: Seq::empty(),
        sequence_id: Seq::empty(),
        released: false,
        zone_id: None,
        node_position_hint: None,
        reservations: Seq::empty(),
        actions: Seq::empty(),
    }
}

impl Default for OrderNode {
    fn default() -> (d: Self)
        ensures
            d@ == blank_order_node(),
    {
        let d = OrderNode {
            node_id: String::new(),
            sequence_id: String::new(),
            released: false,
            zone_id: None,
            node_position_hint: None,
            reservations: Vec::new(),
            actions: Vec::new(),
        };
        assert(d@.reservations =~= Seq::empty());
        assert(d@.actions =~= Seq::empty());
        d
    }
}

/// An edge of an order.
#[derive(Debug, PartialEq, Eq)]
pub struct OrderEdge {
    pub edge_id: String,
    pub start_node_id: String,
    pub end_node_id: String,
    pub released: bool,
    pub zone_id: Option<String>,
    pub max_speed: Option<Real>,
    pub bidirectional: bool,
    pub reservations: Vec<ResourceReservation>,
    pub actions: Vec<ActionReference>,
}

/// What a [`OrderEdge`] stands for.
pub struct OrderEdgeView {
    pub edge_id: Seq<char>,
    pub start_node_id: Seq<char>,
    pub end_node_id: Seq<char>,
    pub released: bool,
    pub zone_id: Option<Seq<char>>,
    pub max_speed: Option<Real>,
    pub bidirectional: bool,
    pub reservations: Seq<ResourceReservationView>,
    pub actions: Seq<ActionReferenceView>,
}

impl View for OrderEdge {
    type V = OrderEdgeView;

    open spec fn view(&self) -> OrderEdgeView {
        OrderEdgeView {
            edge_id: self.edge_id@,
            start_node_id: self.start_node_id@,
            end_node_id: self.end_node_id@,
            released: self.released,
            zone_id: text_view(self.zone_id),
            max_speed: self.max_speed,
            bidirectional: self.bidirectional,
            reservations: views(self.reservations@),
            actions: views(self.actions@),
        }
    }
}

impl Clone for OrderEdge {
    fn clone(&self) -> (r: Self)
        ensures
            r@ == self@,
    {
        let r = OrderEdge {
            edge_id: self.edge_id.clone(),
            start_node_id: self.start_node_id.clone(),
            end_node_id: self.end_node_id.clone(),
            released: self.released,
            zone_id: copy_text(&self.zone_id),
            max_speed: self.max_speed,
            bidirectional: self.bidirectional,
            reservations: self.reservations.clone(),
            actions: self.actions.clone(),
        };
        assert(r@.reservations =~= self@.reservations);
        assert(r@.actions =~= self@.actions);
        r
    }
}

/// A [`OrderEdge`] that states nothing.
pub open spec fn blank_order_edge() -> OrderEdgeView {
    OrderEdgeView {
        edge_id: Seq::empty(),
        start_node_id: Seq::empty(),
        end_node_id: Seq::empty(),
        released: false,
        zone_id: None,
        max_speed: None,
        bidirectional: true,
        reservations: Seq::empty(),
        actions: Seq::empty(),
    }
}

impl Default for OrderEdge {
    fn default() -> (d: Self)
        ensures
            d@ == blank_order_edge(),
    {
        let d = OrderEdge {
            edge_id: String::new(),
            start_node_id: String::new(),
            end_node_id: String::new(),
            released: false,
            zone_id: None,
            max_speed: None,
            bidirectional: true,
            reservations: Vec::new(),
            actions: Vec::new(),
        };
        assert(d@.reservations =~= Seq::empty());
        assert(d@.actions =~= Seq::empty());
        d
    }
}

/// An order for a vehicle.
#[derive(Debug, PartialEq, Eq)]
pub struct Order {
    pub header_id: String,
    pub order_id: String,
    pub order_update_id: u32,
    pub version: String,
    pub timestamp_ms: Option<u64>,
    pub nodes: Vec<OrderNode>,
    pub edges: Vec<OrderEdge>,
}

/// What a [`Order`] stands for.
pub struct OrderView {
    pub header_id: Seq<char>,
    pub order_id: Seq<char>,
    pub order_update_id: u32,
    pub version: Seq<char>,
    pub timestamp_ms: Option<u64>,
    pub nodes: Seq<OrderNodeView>,
    pub edges: Seq<OrderEdgeView>,
}

impl View for Order {
    type V = OrderView;

    open spec fn view(&self) -> OrderView {
        OrderView {
            header_id: self.header_id@,
            order_id: self.order_id@,
            order_update_id: self.order_update_id,
            version: self.version@,
            timestamp_ms: self.timestamp_ms,
            nodes: views(self.nodes@),
            edges: views(self.edges@),
        }
    }
}

impl Clone for Order {
    fn clone(&self) -> (r: Self)
        ensures
            r@ == self@,
    {
        let r = Order {
            header_id: self.header_id.clone(),
            order_id: self.order_id.clone(),
            order_update_id: self.order_update_id,
            version: self.version.clone(),
            timestamp_ms: self.timestamp_ms,
            nodes: self.nodes.clone(),
            edges: self.edges.clone(),
        };
        assert(r@.nodes =~= self@.nodes);
        assert(r@.edges =~= self@.edges);
        r
    }
}

/// A [`Order`] that states nothing.
pub open spec fn blank_order() -> OrderView {
    OrderView {
        header_id: Seq::empty(),
        order_id: Seq::empty(),
        order_update_id: 0,
        version: "3.0.0"@,
        timestamp_ms: None,
        nodes: Seq::empty(),
        edges: Seq::empty(),
    }
}

impl Default for Order {
    fn default() -> (d: Self)
        ensures
            d@ == blank_order(),
    {
        let d = Order {
            header_id: String::new(),
            order_id: String::new(),
            order_update_id: 0,
            version: "3.0.0".to_owned(),
            timestamp_ms: None,
            nodes: Vec::new(),
            edges: Vec::new(),
        };
        assert(d@.nodes =~= Seq::empty());
        assert(d@.edges =~= Seq::empty());
        d
    }
}

} // verus!
