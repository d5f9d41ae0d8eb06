//! Reading traffic properties into typed policies and semantics.

use super::keywords::{
    bool_of, canonical_edge_key, canonical_edge_traffic_key, canonical_zone_key,
    canonical_zone_traffic_key, kind_of, parse_bool, parse_u64, parse_zone_policy_kind,
    text_of_value, unsigned_of,
};
use super::{
    empty_policy, empty_semantics, EdgeTrafficSemantics, EdgeTrafficSemanticsView, ZonePolicy,
    ZonePolicyKind, ZonePolicyView,
};
use crate::number::{Number, NumberView, Real};
use crate::properties::{copy_number, text_view, Properties, Property, PropertyView};
use crate::error::Error;
use crate::text::{joined, lower, lowered, same_text, trim};
use vstd::prelude::*;

verus! {

// ---------------------------------------------------------------------------
// scalar values
// ---------------------------------------------------------------------------

/// Reads a boolean traffic value.
pub fn parse_traffic_bool(value: &str) -> (r: Result<bool, Error>)
    ensures
        match bool_of(value@) {
            Some(b) => r == Ok::<bool, Error>(b),
            None => r matches Err(Error::Parse(m)) && m@ == "invalid boolean traffic value: "@
                + value@,
        },
{
    match parse_bool(value) {
        Some(b) => Ok(b),
        None => Err(Error::Parse(joined("invalid boolean traffic value: ", value))),
    }
}

/// Reads an unsigned traffic value.
pub fn parse_traffic_u64(value: &str) -> (r: Result<u64, Error>)
    ensures
        match unsigned_of(value@) {
            Some(n) => r == Ok::<u64, Error>(n),
            None => r matches Err(Error::Parse(m)) && m@ == "invalid unsigned traffic value: "@
                + value@,
        },
{
    match parse_u64(value) {
        Some(n) => Ok(n),
        None => Err(Error::Parse(joined("invalid unsigned traffic value: ", value))),
    }
}

/// Reads a numeric traffic value; `number` is what its trimmed text reads as.
pub fn parse_traffic_f64(value: &str, number: Option<Number>) -> (r: Result<Number, Error>)
    ensures
        match number {
            Some(n) => r == Ok::<Number, Error>(n),
            None => r matches Err(Error::Parse(m)) && m@ == "invalid numeric traffic value: "@
                + value@,
        },
{
    match number {
        Some(n) => Ok(n),
        None => Err(Error::Parse(joined("invalid numeric traffic value: ", value))),
    }
}

/// Reads a text traffic value.
pub fn parse_traffic_string(value: &str) -> (r: Result<String, Error>)
    ensures
        match text_of_value(value@) {
            Some(t) => r matches Ok(s) && s@ == t,
            None => r matches Err(Error::Parse(m)) && m@
                == "traffic string value must not be empty"@,
        },
{
    let t = trim(value);
    if t.is_empty() {
        Err(Error::parse("traffic string value must not be empty"))
    } else {
        Ok(t.to_owned())
    }
}

/// Reads a text value, if it is not empty.
fn read_text(value: &str) -> (r: Option<String>)
    ensures
        text_view(r) == text_of_value(value@),
{
    match parse_traffic_string(value) {
        Ok(s) => Some(s),
        Err(_) => None,
    }
}

/// The value of a number, if there is one.
pub open spec fn value_of(n: Option<NumberView>) -> Option<Real> {
    match n {
        Some(v) => Some(v.value),
        None => None,
    }
}

/// The value where there is one, and otherwise what was there before.
pub open spec fn newer<T>(new: Option<T>, before: Option<T>) -> Option<T> {
    match new {
        Some(t) => Some(t),
        None => before,
    }
}

// ---------------------------------------------------------------------------
// zone policy
// ---------------------------------------------------------------------------

/// A zone policy after one more property.
pub open spec fn zone_step(p: ZonePolicyView, e: PropertyView) -> ZonePolicyView {
    let k = canonical_zone_key(e.key);
    if k == "traffic.policy"@ || k == "traffic.mode"@ {
        ZonePolicyView { kind: kind_of(e.value), ..p }
    } else if k == "traffic.capacity"@ || k == "traffic.max_occupancy"@ {
        match unsigned_of(e.value) {
            Some(n) => if n >= 1 {
                ZonePolicyView {
                    capacity: n,
                    capacity_is_explicit: true,
                    kind: if n > 1 && p.kind == ZonePolicyKind::Informational {
                        ZonePolicyKind::CapacityLimited
                    } else {
                        p.kind
                    },
                    ..p
                }
            } else {
                p
            },
            None => p,
        }
    } else if k == "traffic.claim_required"@ {
        match bool_of(e.value) {
            Some(b) => ZonePolicyView { requires_claim: b, blocks_entry_without_grant: b, ..p },
            None => p,
        }
    } else if k == "traffic.blocked"@ {
        match bool_of(e.value) {
            Some(true) => ZonePolicyView {
                blocked: Some(true),
                kind: ZonePolicyKind::Restricted,
                blocks_entry_without_grant: true,
                blocks_traversal_without_grant: true,
                ..p
            },
            Some(false) => ZonePolicyView { blocked: Some(false), ..p },
            None => p,
        }
    } else if k == "traffic.blocks_entry_without_grant"@ {
        match bool_of(e.value) {
            Some(b) => ZonePolicyView { blocks_entry_without_grant: b, ..p },
            None => p,
        }
    } else if k == "traffic.blocks_traversal_without_grant"@ {
        match bool_of(e.value) {
            Some(b) => ZonePolicyView { blocks_traversal_without_grant: b, ..p },
            None => p,
        }
    } else if k == "traffic.priority"@ {
        ZonePolicyView { priority: newer(e.number, p.priority), ..p }
    } else if k == "traffic.speed_limit"@ {
        ZonePolicyView { speed_limit: newer(e.number, p.speed_limit), ..p }
    } else if k == "traffic.waiting_allowed"@ {
        ZonePolicyView { waiting_allowed: newer(bool_of(e.value), p.waiting_allowed), ..p }
    } else if k == "traffic.stop_allowed"@ {
        ZonePolicyView { stop_allowed: newer(bool_of(e.value), p.stop_allowed), ..p }
    } else if k == "traffic.no_stop"@ {
        match bool_of(e.value) {
            Some(true) => ZonePolicyView {
                stop_allowed: Some(false),
                kind: ZonePolicyKind::NoStop,
                ..p
            },
            Some(false) => ZonePolicyView { stop_allowed: Some(true), ..p },
            None => p,
        }
    } else if k == "traffic.replan_trigger"@ {
        let trigger = newer(bool_of(e.value), p.replan_trigger);
        ZonePolicyView {
            replan_trigger: trigger,
            kind: if trigger == Some(true) {
                ZonePolicyKind::Replanning
            } else {
                p.kind
            },
            ..p
        }
    } else if k == "traffic.entry_rule"@ {
        ZonePolicyView { entry_rule: newer(text_of_value(e.value), p.entry_rule), ..p }
    } else if k == "traffic.exit_rule"@ {
        ZonePolicyView { exit_rule: newer(text_of_value(e.value), p.exit_rule), ..p }
    } else if k == "traffic.robot_class"@ {
        ZonePolicyView { robot_class: newer(text_of_value(e.value), p.robot_class), ..p }
    } else if k == "traffic.schedule_window"@ {
        ZonePolicyView { schedule_window: newer(text_of_value(e.value), p.schedule_window), ..p }
    } else if k == "traffic.access_group"@ {
        ZonePolicyView { access_group: newer(text_of_value(e.value), p.access_group), ..p }
    } else {
        p
    }
}

/// A zone policy after all properties, taken in the order of their keys.
pub open spec fn zone_steps(entries: Seq<PropertyView>) -> ZonePolicyView
    decreases entries.len(),
{
    if entries.len() == 0 {
        empty_policy()
    } else {
        zone_step(zone_steps(entries.drop_last()), entries.last())
    }
}

/// A blocked zone is restricted; otherwise a replanning trigger decides, and
/// then that stopping is not allowed.
pub open spec fn zone_settled(p: ZonePolicyView) -> ZonePolicyView {
    if p.blocked == Some(true) {
        ZonePolicyView {
            kind: ZonePolicyKind::Restricted,
            blocks_entry_without_grant: true,
            blocks_traversal_without_grant: true,
            ..p
        }
    } else if p.replan_trigger == Some(true) {
        ZonePolicyView { kind: ZonePolicyKind::Replanning, ..p }
    } else if p.kind != ZonePolicyKind::Restricted && p.stop_allowed == Some(false) {
        ZonePolicyView { kind: ZonePolicyKind::NoStop, ..p }
    } else {
        p
    }
}

/// The policy that the properties of a zone state.
pub open spec fn zone_policy_of(entries: Seq<PropertyView>) -> ZonePolicyView {
    ZonePolicyView { properties: entries, ..zone_settled(zone_steps(entries)) }
}

/// Takes one more property into a zone policy.
fn apply_zone_property(policy: &mut ZonePolicy, property: &Property)
    ensures
        final(policy)@ == zone_step(old(policy)@, property@),
{
    let value = property.value.as_str();
    let k = canonical_zone_traffic_key(property.key.as_str());
    if same_text(k, "traffic.policy") || same_text(k, "traffic.mode") {
        policy.kind = parse_zone_policy_kind(value);
    } else if same_text(k, "traffic.capacity") || same_text(k, "traffic.max_occupancy") {
        if let Some(n) = parse_u64(value) {
            if n >= 1 {
                policy.capacity = n;
                policy.capacity_is_explicit = true;
                if n > 1 && policy.kind == ZonePolicyKind::Informational {
                    policy.kind = ZonePolicyKind::CapacityLimited;
                }
            }
        }
    } else if same_text(k, "traffic.claim_required") {
        if let Some(b) = parse_bool(value) {
            policy.requires_claim = b;
            policy.blocks_entry_without_grant = b;
        }
    } else if same_text(k, "traffic.blocked") {
        if let Some(b) = parse_bool(value) {
            policy.blocked = Some(b);
            if b {
                policy.kind = ZonePolicyKind::Restricted;
                policy.blocks_entry_without_grant = true;
                policy.blocks_traversal_without_grant = true;
            }
        }
    } else if same_text(k, "traffic.blocks_entry_without_grant") {
        if let Some(b) = parse_bool(value) {
            policy.blocks_entry_without_grant = b;
        }
    } else if same_text(k, "traffic.blocks_traversal_without_grant") {
        if let Some(b) = parse_bool(value) {
            policy.blocks_traversal_without_grant = b;
        }
    } else if same_text(k, "traffic.priority") {
        if property.number.is_some() {
            policy.priority = copy_number(&property.number);
        }
    } else if same_text(k, "traffic.speed_limit") {
        if property.number.is_some() {
            policy.speed_limit = copy_number(&property.number);
        }
    } else if same_text(k, "traffic.waiting_allowed") {
        if let Some(b) = parse_bool(value) {
            policy.waiting_allowed = Some(b);
        }
    } else if same_text(k, "traffic.stop_allowed") {
        if let Some(b) = parse_bool(value) {
            policy.stop_allowed = Some(b);
        }
    } else if same_text(k, "traffic.no_stop") {
        if let Some(b) = parse_bool(value) {
            policy.stop_allowed = Some(!b);
            if b {
                policy.kind = ZonePolicyKind::NoStop;
            }
        }
    } else if same_text(k, "traffic.replan_trigger") {
        if let Some(b) = parse_bool(value) {
            policy.replan_trigger = Some(b);
        }
        if policy.replan_trigger == Some(true) {
            policy.kind = ZonePolicyKind::Replanning;
        }
    } else if same_text(k, "traffic.entry_rule") {
        if let Some(s) = read_text(value) {
            policy.entry_rule = Some(s);
        }
    } else if same_text(k, "traffic.exit_rule") {
        if let Some(s) = read_text(value) {
            policy.exit_rule = Some(s);
        }
    } else if same_text(k, "traffic.robot_class") {
        if let Some(s) = read_text(value) {
            policy.robot_class = Some(s);
        }
    } else if same_text(k, "traffic.schedule_window") {
        if let Some(s) = read_text(value) {
            policy.schedule_window = Some(s);
        }
    } else if same_text(k, "traffic.access_group") {
        if let Some(s) = read_text(value) {
            policy.access_group = Some(s);
        }
    }
}

/// Reads the traffic properties of a zone into a typed policy.
pub fn parse_zone_policy(properties: &Properties) -> (policy: ZonePolicy)
    ensures
        policy@ == zone_policy_of(properties@),
{
    let mut policy = ZonePolicy::empty();
    let mut i: usize = 0;
    while i < properties.len()
        invariant
            i <= properties@.len(),
            policy@ == zone_steps(properties@.take(i as int)),
        decreases properties@.len() - i,
    {
        let property = properties.entry(i);
        apply_zone_property(&mut policy, property);
        assert(properties@.take(i as int + 1).drop_last() =~= properties@.take(i as int));
        i = i + 1;
    }
    assert(properties@.take(i as int) =~= properties@);
    if policy.blocked == Some(true) {
        policy.kind = ZonePolicyKind::Restricted;
        policy.blocks_entry_without_grant = true;
        policy.blocks_traversal_without_grant = true;
    } else if policy.replan_trigger == Some(true) {
        policy.kind = ZonePolicyKind::Replanning;
    } else if policy.kind != ZonePolicyKind::Restricted && policy.stop_allowed == Some(false) {
        policy.kind = ZonePolicyKind::NoStop;
    }
    policy.properties = properties.clone();
    policy
}

// ---------------------------------------------------------------------------
// edge traffic semantics
// ---------------------------------------------------------------------------

/// A value in lower case where there is one.
pub open spec fn lowered_value(value: Seq<char>) -> Option<Seq<char>> {
    match text_of_value(value) {
        Some(t) => Some(lowered(t)),
        None => None,
    }
}

/// Edge semantics after one more property.
pub open spec fn edge_step(
    s: EdgeTrafficSemanticsView,
    e: PropertyView,
) -> EdgeTrafficSemanticsView {
    let k = canonical_edge_key(e.key);
    if k == "traffic.speed_limit"@ {
        EdgeTrafficSemanticsView { speed_limit: newer(e.number, s.speed_limit), ..s }
    } else if k == "traffic.lane_type"@ || k == "traffic.lane_kind"@ {
        EdgeTrafficSemanticsView { lane_type: newer(lowered_value(e.value), s.lane_type), ..s }
    } else if k == "traffic.reversible"@ {
        EdgeTrafficSemanticsView { reversible: newer(bool_of(e.value), s.reversible), ..s }
    } else if k == "traffic.passing_allowed"@ {
        EdgeTrafficSemanticsView { passing_allowed: newer(bool_of(e.value), s.passing_allowed), ..s }
    } else if k == "traffic.claim_required"@ {
        EdgeTrafficSemanticsView { requires_claim: newer(bool_of(e.value), s.requires_claim), ..s }
    } else if k == "traffic.waiting_allowed"@ {
        EdgeTrafficSemanticsView { waiting_allowed: newer(bool_of(e.value), s.waiting_allowed), ..s }
    } else if k == "traffic.stop_allowed"@ {
        EdgeTrafficSemanticsView { stop_allowed: newer(bool_of(e.value), s.stop_allowed), ..s }
    } else if k == "traffic.blocked"@ {
        EdgeTrafficSemanticsView { blocked: newer(bool_of(e.value), s.blocked), ..s }
    } else if k == "traffic.priority"@ {
        EdgeTrafficSemanticsView { priority: newer(e.number, s.priority), ..s }
    } else if k == "traffic.capacity"@ || k == "traffic.max_occupancy"@ {
        match unsigned_of(e.value) {
            Some(n) => EdgeTrafficSemanticsView {
                capacity: Some(n),
                capacity_is_explicit: true,
                ..s
            },
            None => s,
        }
    } else if k == "traffic.clearance_width"@ {
        EdgeTrafficSemanticsView { clearance_width: newer(e.number, s.clearance_width), ..s }
    } else if k == "traffic.clearance_height"@ {
        EdgeTrafficSemanticsView { clearance_height: newer(e.number, s.clearance_height), ..s }
    } else if k == "traffic.surface_type"@ {
        EdgeTrafficSemanticsView { surface_type: newer(text_of_value(e.value), s.surface_type), ..s }
    } else if k == "traffic.robot_class"@ {
        EdgeTrafficSemanticsView { robot_class: newer(text_of_value(e.value), s.robot_class), ..s }
    } else if k == "traffic.allowed_payload"@ {
        EdgeTrafficSemanticsView { allowed_payload: newer(text_of_value(e.value), s.allowed_payload), ..s }
    } else if k == "traffic.cost_bias"@ {
        EdgeTrafficSemanticsView { cost_bias: newer(value_of(e.number), s.cost_bias), ..s }
    } else if k == "traffic.no_stop"@ {
        EdgeTrafficSemanticsView { no_stop: newer(bool_of(e.value), s.no_stop), ..s }
    } else if k == "traffic.preferred_direction"@ || k == "traffic.direction"@ {
        EdgeTrafficSemanticsView { preferred_direction: newer(lowered_value(e.value), s.preferred_direction), ..s }
    } else if k == "traffic.schedule_window"@ {
        EdgeTrafficSemanticsView { schedule_window: newer(text_of_value(e.value), s.schedule_window), ..s }
    } else if k == "traffic.access_group"@ {
        EdgeTrafficSemanticsView { access_group: newer(text_of_value(e.value), s.access_group), ..s }
    } else {
        s
    }
}

/// Edge semantics after all properties, taken in the order of their keys.
pub open spec fn edge_steps(
    entries: Seq<PropertyView>,
    directed: bool,
) -> EdgeTrafficSemanticsView
    decreases entries.len(),
{
    if entries.len() == 0 {
        empty_semantics(directed)
    } else {
        edge_step(edge_steps(entries.drop_last(), directed), entries.last())
    }
}

/// The semantics that the properties of an edge state. Where stopping is
/// excluded it is not allowed.
pub open spec fn edge_semantics_of(
    entries: Seq<PropertyView>,
    directed: bool,
) -> EdgeTrafficSemanticsView {
    let s = edge_steps(entries, directed);
    EdgeTrafficSemanticsView {
        stop_allowed: if s.no_stop == Some(true) {
            Some(false)
        } else {
            s.stop_allowed
        },
        properties: entries,
        ..s
    }
}

/// Takes one more property into edge semantics.
fn apply_edge_property(semantics: &mut EdgeTrafficSemantics, property: &Property)
    ensures
        final(semantics)@ == edge_step(old(semantics)@, property@),
{
    let value = property.value.as_str();
    let k = canonical_edge_traffic_key(property.key.as_str());
    if same_text(k, "traffic.speed_limit") {
        if property.number.is_some() {
            semantics.speed_limit = copy_number(&property.number);
        }
    } else if same_text(k, "traffic.lane_type") || same_text(k, "traffic.lane_kind") {
        if let Some(s) = read_text(value) {
            semantics.lane_type = Some(lower(s.as_str()));
        }
    } else if same_text(k, "traffic.reversible") {
        if let Some(b) = parse_bool(value) {
            semantics.reversible = Some(b);
        }
    } else if same_text(k, "traffic.passing_allowed") {
        if let Some(b) = parse_bool(value) {
            semantics.passing_allowed = Some(b);
        }
    } else if same_text(k, "traffic.claim_required") {
        if let Some(b) = parse_bool(value) {
            semantics.requires_claim = Some(b);
        }
    } else if same_text(k, "traffic.waiting_allowed") {
        if let Some(b) = parse_bool(value) {
            semantics.waiting_allowed = Some(b);
        }
    } else if same_text(k, "traffic.stop_allowed") {
        if let Some(b) = parse_bool(value) {
            semantics.stop_allowed = Some(b);
        }
    } else if same_text(k, "traffic.blocked") {
        if let Some(b) = parse_bool(value) {
            semantics.blocked = Some(b);
        }
    } else if same_text(k, "traffic.priority") {
        if property.number.is_some() {
            semantics.priority = copy_number(&property.number);
        }
    } else if same_text(k, "traffic.capacity") || same_text(k, "traffic.max_occupancy") {
        if let Some(n) = parse_u64(value) {
            semantics.capacity = Some(n);
            semantics.capacity_is_explicit = true;
        }
    } else if same_text(k, "traffic.clearance_width") {
        if property.number.is_some() {
            semantics.clearance_width = copy_number(&property.number);
        }
    } else if same_text(k, "traffic.clearance_height") {
        if property.number.is_some() {
            semantics.clearance_height = copy_number(&property.number);
        }
    } else if same_text(k, "traffic.surface_type") {
        if let Some(s) = read_text(value) {
            semantics.surface_type = Some(s);
        }
    } else if same_text(k, "traffic.robot_class") {
        if let Some(s) = read_text(value) {
            semantics.robot_class = Some(s);
        }
    } else if same_text(k, "traffic.allowed_payload") {
        if let Some(s) = read_text(value) {
            semantics.allowed_payload = Some(s);
        }
    } else if same_text(k, "traffic.cost_bias") {
        if let Some(n) = &property.number {
            semantics.cost_bias = Some(n.value);
        }
    } else if same_text(k, "traffic.no_stop") {
        if let Some(b) = parse_bool(value) {
            semantics.no_stop = Some(b);
        }
    } else if same_text(k, "traffic.preferred_direction") || same_text(k, "traffic.direction") {
        if let Some(s) = read_text(value) {
            semantics.preferred_direction = Some(lower(s.as_str()));
        }
    } else if same_text(k, "traffic.schedule_window") {
        if let Some(s) = read_text(value) {
            semantics.schedule_window = Some(s);
        }
    } else if same_text(k, "traffic.access_group") {
        if let Some(s) = read_text(value) {
            semantics.access_group = Some(s);
        }
    }
}

/// Reads the traffic properties of an edge into typed semantics. That the edge
/// is directed is a structural fact and not read from the properties.
pub fn parse_edge_traffic_semantics(properties: &Properties, directed: bool) -> (semantics:
    EdgeTrafficSemantics)
    ensures
        semantics@ == edge_semantics_of(properties@, directed),
{
    let mut semantics = EdgeTrafficSemantics::empty(directed);
    let mut i: usize = 0;
    while i < properties.len()
        invariant
            i <= properties@.len(),
            semantics@ == edge_steps(properties@.take(i as int), directed),
        decreases properties@.len() - i,
    {
        let property = properties.entry(i);
        apply_edge_property(&mut semantics, property);
        assert(properties@.take(i as int + 1).drop_last() =~= properties@.take(i as int));
        i = i + 1;
    }
    assert(properties@.take(i as int) =~= properties@);
    if semantics.no_stop == Some(true) {
        semantics.stop_allowed = Some(false);
    }
    semantics.properties = properties.clone();
    semantics
}

} // verus!
