//! Zone policy and edge traffic semantics.
//!
//! Parses, validates, merges, and derives traffic-typed views over the
//! `traffic.*` text properties of zones and edges.

use crate::number::{Number, NumberView, Real};
use crate::properties::{copy_number, copy_text, number_view, text_view, Properties, PropertyView};
use vstd::prelude::*;

pub mod combining;
pub mod equality;
pub mod findings;
pub mod keywords;
pub mod laws;
pub mod merge;
pub mod parse;
pub mod reading;
pub mod validate;

verus! {

#[derive(Debug, Clone, Copy, PartialEq, Eq, Structural)]
pub enum ZonePolicyKind {
    Informational,
    ExclusiveAccess,
    SharedAccess,
    CapacityLimited,
    Corridor,
    Replanning,
    Restricted,
    NoStop,
    Slowdown,
}

impl Default for ZonePolicyKind {
    fn default() -> (k: Self)
        ensures
            k == ZonePolicyKind::Informational,
    {
        Self::Informational
    }
}

#[derive(Debug, Clone, Copy, PartialEq, Eq, Structural)]
pub enum TrafficIssueSeverity {
    Warning,
    Error,
}

/// A finding about one traffic property.
#[derive(Debug, PartialEq, Eq)]
pub struct TrafficParseIssue {
    pub severity: TrafficIssueSeverity,
    pub key: String,
    pub message: String,
}

/// What a [`TrafficParseIssue`] stands for.
pub struct TrafficParseIssueView {
    pub severity: TrafficIssueSeverity,
    pub key: Seq<char>,
    pub message: Seq<char>,
}

impl View for TrafficParseIssue {
    type V = TrafficParseIssueView;

    open spec fn view(&self) -> TrafficParseIssueView {
        TrafficParseIssueView {
            severity: self.severity,
            key: self.key@,
            message: self.message@,
        }
    }
}

impl Clone for TrafficParseIssue {
    fn clone(&self) -> (r: Self)
        ensures
            r == *self,
    {
        let r = TrafficParseIssue {
            severity: self.severity,
            key: self.key.clone(),
            message: self.message.clone(),
        };
        r
    }
}

impl Default for TrafficParseIssue {
    fn default() -> (i: Self)
        ensures
            i@ == (TrafficParseIssueView {
                severity: TrafficIssueSeverity::Error,
                key: Seq::empty(),
                message: Seq::empty(),
            }),
    {
        TrafficParseIssue {
            severity: TrafficIssueSeverity::Error,
            key: String::new(),
            message: String::new(),
        }
    }
}

/// The traffic policy of a zone.
#[derive(Debug)]
pub struct ZonePolicy {
    pub kind: ZonePolicyKind,
    pub capacity: u64,
    pub capacity_is_explicit: bool,
    pub requires_claim: bool,
    pub blocks_traversal_without_grant: bool,
    pub blocks_entry_without_grant: bool,
    pub priority: Option<Number>,
    pub speed_limit: Option<Number>,
    pub waiting_allowed: Option<bool>,
    pub stop_allowed: Option<bool>,
    pub blocked: Option<bool>,
    pub replan_trigger: Option<bool>,
    pub entry_rule: Option<String>,
    pub exit_rule: Option<String>,
    pub robot_class: Option<String>,
    pub schedule_window: Option<String>,
    pub access_group: Option<String>,
    pub properties: Properties,
}

/// What a [`ZonePolicy`] stands for.
pub struct ZonePolicyView {
    pub kind: ZonePolicyKind,
    pub capacity: u64,
    pub capacity_is_explicit: bool,
    pub requires_claim: bool,
    pub blocks_traversal_without_grant: bool,
    pub blocks_entry_without_grant: bool,
    pub priority: Option<NumberView>,
    pub speed_limit: Option<NumberView>,
    pub waiting_allowed: Option<bool>,
    pub stop_allowed: Option<bool>,
    pub blocked: Option<bool>,
    pub replan_trigger: Option<bool>,
    pub entry_rule: Option<Seq<char>>,
    pub exit_rule: Option<Seq<char>>,
    pub robot_class: Option<Seq<char>>,
    pub schedule_window: Option<Seq<char>>,
    pub access_group: Option<Seq<char>>,
    pub properties: Seq<PropertyView>,
}

impl View for ZonePolicy {
    type V = ZonePolicyView;

    open spec fn view(&self) -> ZonePolicyView {
        ZonePolicyView {
            kind: self.kind,
            capacity: self.capacity,
            capacity_is_explicit: self.capacity_is_explicit,
            requires_claim: self.requires_claim,
            blocks_traversal_without_grant: self.blocks_traversal_without_grant,
            blocks_entry_without_grant: self.blocks_entry_without_grant,
            priority: number_view(self.priority),
            speed_limit: number_view(self.speed_limit),
            waiting_allowed: self.waiting_allowed,
            stop_allowed: self.stop_allowed,
            blocked: self.blocked,
            replan_trigger: self.replan_trigger,
            entry_rule: text_view(self.entry_rule),
            exit_rule: text_view(self.exit_rule),
            robot_class: text_view(self.robot_class),
            schedule_window: text_view(self.schedule_window),
            access_group: text_view(self.access_group),
            properties: self.properties@,
        }
    }
}

impl Clone for ZonePolicy {
    fn clone(&self) -> (r: Self)
        ensures
            r@ == self@,
    {
        let r = ZonePolicy {
            kind: self.kind,
            capacity: self.capacity,
            capacity_is_explicit: self.capacity_is_explicit,
            requires_claim: self.requires_claim,
            blocks_traversal_without_grant: self.blocks_traversal_without_grant,
            blocks_entry_without_grant: self.blocks_entry_without_grant,
            priority: copy_number(&self.priority),
            speed_limit: copy_number(&self.speed_limit),
            waiting_allowed: self.waiting_allowed,
            stop_allowed: self.stop_allowed,
            blocked: self.blocked,
            replan_trigger: self.replan_trigger,
            entry_rule: copy_text(&self.entry_rule),
            exit_rule: copy_text(&self.exit_rule),
            robot_class: copy_text(&self.robot_class),
            schedule_window: copy_text(&self.schedule_window),
            access_group: copy_text(&self.access_group),
            properties: self.properties.clone(),
        };
        r
    }
}

/// The policy of a zone that states nothing: one robot at a time.
pub open spec fn empty_policy() -> ZonePolicyView {
    ZonePolicyView {
        kind: ZonePolicyKind::Informational,
        capacity: 1,
        capacity_is_explicit: false,
        requires_claim: false,
        blocks_traversal_without_grant: false,
        blocks_entry_without_grant: false,
        priority: None,
        speed_limit: None,
        waiting_allowed: None,
        stop_allowed: None,
        blocked: None,
        replan_trigger: None,
        entry_rule: None,
        exit_rule: None,
        robot_class: None,
        schedule_window: None,
        access_group: None,
        properties: Seq::empty(),
    }
}

impl ZonePolicy {
    /// The policy of a zone that states nothing.
    pub fn empty() -> (p: Self)
        ensures
            p@ == empty_policy(),
    {
        ZonePolicy {
            kind: ZonePolicyKind::Informational,
            capacity: 1,
            capacity_is_explicit: false,
            requires_claim: false,
            blocks_traversal_without_grant: false,
            blocks_entry_without_grant: false,
            priority: None,
            speed_limit: None,
            waiting_allowed: None,
            stop_allowed: None,
            blocked: None,
            replan_trigger: None,
            entry_rule: None,
            exit_rule: None,
            robot_class: None,
            schedule_window: None,
            access_group: None,
            properties: Properties::new(),
        }
    }
}

impl Default for ZonePolicy {
    fn default() -> (p: Self)
        ensures
            p@ == (ZonePolicyView { capacity: 0, ..empty_policy() }),
    {
        let mut p = ZonePolicy::empty();
        p.capacity = 0;
        p
    }
}

/// The traffic semantics of an edge.
#[derive(Debug)]
pub struct EdgeTrafficSemantics {
    pub directed: bool,
    pub speed_limit: Option<Number>,
    pub lane_type: Option<String>,
    pub reversible: Option<bool>,
    pub passing_allowed: Option<bool>,
    pub requires_claim: Option<bool>,
    pub waiting_allowed: Option<bool>,
    pub stop_allowed: Option<bool>,
    pub blocked: Option<bool>,
    pub priority: Option<Number>,
    pub capacity: Option<u64>,
    pub capacity_is_explicit: bool,
    pub clearance_width: Option<Number>,
    pub clearance_height: Option<Number>,
    pub surface_type: Option<String>,
    pub robot_class: Option<String>,
    pub allowed_payload: Option<String>,
    pub cost_bias: Option<Real>,
    pub no_stop: Option<bool>,
    pub preferred_direction: Option<String>,
    pub schedule_window: Option<String>,
    pub access_group: Option<String>,
    pub properties: Properties,
}

/// What a [`EdgeTrafficSemantics`] stands for.
pub struct EdgeTrafficSemanticsView {
    pub directed: bool,
    pub speed_limit: Option<NumberView>,
    pub lane_type: Option<Seq<char>>,
    pub reversible: Option<bool>,
    pub passing_allowed: Option<bool>,
    pub requires_claim: Option<bool>,
    pub waiting_allowed: Option<bool>,
    pub stop_allowed: Option<bool>,
    pub blocked: Option<bool>,
    pub priority: Option<NumberView>,
    pub capacity: Option<u64>,
    pub capacity_is_explicit: bool,
    pub clearance_width: Option<NumberView>,
    pub clearance_height: Option<NumberView>,
    pub surface_type: Option<Seq<char>>,
    pub robot_class: Option<Seq<char>>,
    pub allowed_payload: Option<Seq<char>>,
    pub cost_bias: Option<Real>,
    pub no_stop: Option<bool>,
    pub preferred_direction: Option<Seq<char>>,
    pub schedule_window: Option<Seq<char>>,
    pub access_group: Option<Seq<char>>,
    pub properties: Seq<PropertyView>,
}

impl View for EdgeTrafficSemantics {
    type V = EdgeTrafficSemanticsView;

    open spec fn view(&self) -> EdgeTrafficSemanticsView {
        EdgeTrafficSemanticsView {
            directed: self.directed,
            speed_limit: number_view(self.speed_limit),
            lane_type: text_view(self.lane_type),
            reversible: self.reversible,
            passing_allowed: self.passing_allowed,
            requires_claim: self.requires_claim,
            waiting_allowed: self.waiting_allowed,
            stop_allowed: self.stop_allowed,
            blocked: self.blocked,
            priority: number_view(self.priority),
            capacity: self.capacity,
            capacity_is_explicit: self.capacity_is_explicit,
            clearance_width: number_view(self.clearance_width),
            clearance_height: number_view(self.clearance_height),
            surface_type: text_view(self.surface_type),
            robot_class: text_view(self.robot_class),
            allowed_payload: text_view(self.allowed_payload),
            cost_bias: self.cost_bias,
            no_stop: self.no_stop,
            preferred_direction: text_view(self.preferred_direction),
            schedule_window: text_view(self.schedule_window),
            access_group: text_view(self.access_group),
            properties: self.properties@,
        }
    }
}

impl Clone for EdgeTrafficSemantics {
    fn clone(&self) -> (r: Self)
        ensures
            r@ == self@,
    {
        let r = EdgeTrafficSemantics {
            directed: self.directed,
            speed_limit: copy_number(&self.speed_limit),
            lane_type: copy_text(&self.lane_type),
            reversible: self.reversible,
            passing_allowed: self.passing_allowed,
            requires_claim: self.requires_claim,
            waiting_allowed: self.waiting_allowed,
            stop_allowed: self.stop_allowed,
            blocked: self.blocked,
            priority: copy_number(&self.priority),
            capacity: self.capacity,
            capacity_is_explicit: self.capacity_is_explicit,
            clearance_width: copy_number(&self.clearance_width),
            clearance_height: copy_number(&self.clearance_height),
            surface_type: copy_text(&self.surface_type),
            robot_class: copy_text(&self.robot_class),
            allowed_payload: copy_text(&self.allowed_payload),
            cost_bias: self.cost_bias,
            no_stop: self.no_stop,
            preferred_direction: copy_text(&self.preferred_direction),
            schedule_window: copy_text(&self.schedule_window),
            access_group: copy_text(&self.access_group),
            properties: self.properties.clone(),
        };
        r
    }
}

/// The semantics of an edge that states nothing.
pub open spec fn empty_semantics(directed: bool) -> EdgeTrafficSemanticsView {
    EdgeTrafficSemanticsView {
        directed,
        speed_limit: None,
        lane_type: None,
        reversible: None,
        passing_allowed: None,
        requires_claim: None,
        waiting_allowed: None,
        stop_allowed: None,
        blocked: None,
        priority: None,
        capacity: None,
        capacity_is_explicit: false,
        clearance_width: None,
        clearance_height: None,
        surface_type: None,
        robot_class: None,
        allowed_payload: None,
        cost_bias: None,
        no_stop: None,
        preferred_direction: None,
        schedule_window: None,
        access_group: None,
        properties: Seq::empty(),
    }
}

impl EdgeTrafficSemantics {
    /// The semantics of an edge that states nothing.
    pub fn empty(directed: bool) -> (s: Self)
        ensures
            s@ == empty_semantics(directed),
    {
        EdgeTrafficSemantics {
            directed,
            speed_limit: None,
            lane_type: None,
            reversible: None,
            passing_allowed: None,
            requires_claim: None,
            waiting_allowed: None,
            stop_allowed: None,
            blocked: None,
            priority: None,
            capacity: None,
            capacity_is_explicit: false,
            clearance_width: None,
            clearance_height: None,
            surface_type: None,
            robot_class: None,
            allowed_payload: None,
            cost_bias: None,
            no_stop: None,
            preferred_direction: None,
            schedule_window: None,
            access_group: None,
            properties: Properties::new(),
        }
    }
}

impl Default for EdgeTrafficSemantics {
    fn default() -> (s: Self)
        ensures
            s@ == empty_semantics(false),
    {
        EdgeTrafficSemantics::empty(false)
    }
}

} // verus!
