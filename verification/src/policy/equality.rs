//! When two policies are the same.

use super::{EdgeTrafficSemantics, EdgeTrafficSemanticsView, ZonePolicy, ZonePolicyView};
use crate::number::{Number, NumberView, Real};
use crate::properties::{number_view, text_view, Properties, PropertyView};
use crate::text::same_text;
use vstd::prelude::*;

verus! {

/// Whether two numbers are both missing, or both there with the same value. What
/// is no number has the same value as nothing.
pub open spec fn equal_numbers(a: Option<NumberView>, b: Option<NumberView>) -> bool {
    match (a, b) {
        (Some(x), Some(y)) => x.value.at_most(y.value) && y.value.at_most(x.value),
        (None, None) => true,
        _ => false,
    }
}

fn is_equal_number(a: &Option<Number>, b: &Option<Number>) -> (same: bool)
    ensures
        same == equal_numbers(number_view(*a), number_view(*b)),
{
    match (a, b) {
        (Some(x), Some(y)) => x.value.not_above(y.value) && y.value.not_above(x.value),
        (None, None) => true,
        _ => false,
    }
}

/// Whether two quantities are both missing, or both there and the same.
pub open spec fn equal_values(a: Option<Real>, b: Option<Real>) -> bool {
    match (a, b) {
        (Some(x), Some(y)) => x.at_most(y) && y.at_most(x),
        (None, None) => true,
        _ => false,
    }
}

fn is_equal_value(a: Option<Real>, b: Option<Real>) -> (same: bool)
    ensures
        same == equal_values(a, b),
{
    match (a, b) {
        (Some(x), Some(y)) => x.not_above(y) && y.not_above(x),
        (None, None) => true,
        _ => false,
    }
}

fn is_same_text(a: &Option<String>, b: &Option<String>) -> (same: bool)
    ensures
        same == (text_view(*a) == text_view(*b)),
{
    match (a, b) {
        (Some(x), Some(y)) => same_text(x.as_str(), y.as_str()),
        (None, None) => true,
        _ => false,
    }
}

/// Whether the same keys hold the same texts.
pub open spec fn same_properties(a: Seq<PropertyView>, b: Seq<PropertyView>) -> bool {
    a.len() == b.len() && forall|i: int|
        0 <= i < a.len() ==> (#[trigger] a[i]).key == b[i].key && a[i].value == b[i].value
}

fn are_same_properties(a: &Properties, b: &Properties) -> (same: bool)
    ensures
        same == same_properties(a@, b@),
{
    if a.len() != b.len() {
        return false;
    }
    let mut i: usize = 0;
    while i < a.len()
        invariant
            i <= a@.len(),
            a@.len() == b@.len(),
            forall|j: int| 0 <= j < i ==> (#[trigger] a@[j]).key == b@[j].key && a@[j].value == b@[j].value,
        decreases a@.len() - i,
    {
        let p = a.entry(i);
        let q = b.entry(i);
        if !same_text(p.key.as_str(), q.key.as_str()) || !same_text(
            p.value.as_str(),
            q.value.as_str(),
        ) {
            assert(a@[i as int].key != b@[i as int].key || a@[i as int].value != b@[i as int].value);
            return false;
        }
        i = i + 1;
    }
    true
}

/// Whether two zone policies are the same.
pub open spec fn same_policy(a: ZonePolicyView, b: ZonePolicyView) -> bool {
    &&& a.kind == b.kind
    &&& a.capacity == b.capacity
    &&& a.capacity_is_explicit == b.capacity_is_explicit
    &&& a.requires_claim == b.requires_claim
    &&& a.blocks_traversal_without_grant == b.blocks_traversal_without_grant
    &&& a.blocks_entry_without_grant == b.blocks_entry_without_grant
    &&& a.waiting_allowed == b.waiting_allowed
    &&& a.stop_allowed == b.stop_allowed
    &&& a.blocked == b.blocked
    &&& a.replan_trigger == b.replan_trigger
    &&& a.entry_rule == b.entry_rule
    &&& a.exit_rule == b.exit_rule
    &&& a.robot_class == b.robot_class
    &&& a.schedule_window == b.schedule_window
    &&& a.access_group == b.access_group
    &&& equal_numbers(a.priority, b.priority)
    &&& equal_numbers(a.speed_limit, b.speed_limit)
    &&& same_properties(a.properties, b.properties)
}

/// Whether two edges have the same semantics.
pub open spec fn same_semantics(a: EdgeTrafficSemanticsView, b: EdgeTrafficSemanticsView) -> bool {
    &&& a.directed == b.directed
    &&& a.capacity == b.capacity
    &&& a.capacity_is_explicit == b.capacity_is_explicit
    &&& a.reversible == b.reversible
    &&& a.passing_allowed == b.passing_allowed
    &&& a.requires_claim == b.requires_claim
    &&& a.waiting_allowed == b.waiting_allowed
    &&& a.stop_allowed == b.stop_allowed
    &&& a.blocked == b.blocked
    &&& a.no_stop == b.no_stop
    &&& a.lane_type == b.lane_type
    &&& a.surface_type == b.surface_type
    &&& a.robot_class == b.robot_class
    &&& a.allowed_payload == b.allowed_payload
    &&& a.preferred_direction == b.preferred_direction
    &&& a.schedule_window == b.schedule_window
    &&& a.access_group == b.access_group
    &&& equal_numbers(a.speed_limit, b.speed_limit)
    &&& equal_numbers(a.priority, b.priority)
    &&& equal_numbers(a.clearance_width, b.clearance_width)
    &&& equal_numbers(a.clearance_height, b.clearance_height)
    &&& equal_values(a.cost_bias, b.cost_bias)
    &&& same_properties(a.properties, b.properties)
}

impl PartialEq for ZonePolicy {
    fn eq(&self, other: &ZonePolicy) -> (b: bool) {
        self.kind == other.kind
            && self.capacity == other.capacity
            && self.capacity_is_explicit == other.capacity_is_explicit
            && self.requires_claim == other.requires_claim
            && self.blocks_traversal_without_grant == other.blocks_traversal_without_grant
            && self.blocks_entry_without_grant == other.blocks_entry_without_grant
            && self.waiting_allowed == other.waiting_allowed
            && self.stop_allowed == other.stop_allowed
            && self.blocked == other.blocked
            && self.replan_trigger == other.replan_trigger
            && is_same_text(&self.entry_rule, &other.entry_rule)
            && is_same_text(&self.exit_rule, &other.exit_rule)
            && is_same_text(&self.robot_class, &other.robot_class)
            && is_same_text(&self.schedule_window, &other.schedule_window)
            && is_same_text(&self.access_group, &other.access_group)
            && is_equal_number(&self.priority, &other.priority)
            && is_equal_number(&self.speed_limit, &other.speed_limit)
            && are_same_properties(&self.properties, &other.properties)
    }
}

impl vstd::std_specs::cmp::PartialEqSpecImpl for ZonePolicy {
    open spec fn obeys_eq_spec() -> bool {
        true
    }

    open spec fn eq_spec(&self, other: &ZonePolicy) -> bool {
        same_policy(self@, other@)
    }
}

impl PartialEq for EdgeTrafficSemantics {
    fn eq(&self, other: &EdgeTrafficSemantics) -> (b: bool) {
        self.directed == other.directed
            && self.capacity == other.capacity
            && self.capacity_is_explicit == other.capacity_is_explicit
            && self.reversible == other.reversible
            && self.passing_allowed == other.passing_allowed
            && self.requires_claim == other.requires_claim
            && self.waiting_allowed == other.waiting_allowed
            && self.stop_allowed == other.stop_allowed
            && self.blocked == other.blocked
            && self.no_stop == other.no_stop
            && is_same_text(&self.lane_type, &other.lane_type)
            && is_same_text(&self.surface_type, &other.surface_type)
            && is_same_text(&self.robot_class, &other.robot_class)
            && is_same_text(&self.allowed_payload, &other.allowed_payload)
            && is_same_text(&self.preferred_direction, &other.preferred_direction)
            && is_same_text(&self.schedule_window, &other.schedule_window)
            && is_same_text(&self.access_group, &other.access_group)
            && is_equal_number(&self.speed_limit, &other.speed_limit)
            && is_equal_number(&self.priority, &other.priority)
            && is_equal_number(&self.clearance_width, &other.clearance_width)
            && is_equal_number(&self.clearance_height, &other.clearance_height)
            && is_equal_value(self.cost_bias, other.cost_bias)
            && are_same_properties(&self.properties, &other.properties)
    }
}

impl vstd::std_specs::cmp::PartialEqSpecImpl for EdgeTrafficSemantics {
    open spec fn obeys_eq_spec() -> bool {
        true
    }

    open spec fn eq_spec(&self, other: &EdgeTrafficSemantics) -> bool {
        same_semantics(self@, other@)
    }
}

} // verus!
