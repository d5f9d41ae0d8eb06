//! The keys and keywords of traffic properties.

use super::ZonePolicyKind;
use crate::text::{lower, lowered, read_integer, integer_of, same_text, trim, trimmed};
use vstd::prelude::*;

verus! {

/// A keyword as it is compared: without surrounding whitespace, in lower case.
pub open spec fn keyword(value: Seq<char>) -> Seq<char> {
    lowered(trimmed(value))
}

/// What a value reads as where a boolean is expected.
pub open spec fn bool_of(value: Seq<char>) -> Option<bool> {
    let k = keyword(value);
    if k == "true"@ || k == "1"@ || k == "yes"@ || k == "on"@ {
        Some(true)
    } else if k == "false"@ || k == "0"@ || k == "no"@ || k == "off"@ {
        Some(false)
    } else {
        None
    }
}

/// Reads a boolean.
pub fn parse_bool(value: &str) -> (b: Option<bool>)
    ensures
        b == bool_of(value@),
{
    let k = lower(trim(value));
    let k = k.as_str();
    if same_text(k, "true") || same_text(k, "1") || same_text(k, "yes") || same_text(k, "on") {
        Some(true)
    } else if same_text(k, "false") || same_text(k, "0") || same_text(k, "no") || same_text(
        k,
        "off",
    ) {
        Some(false)
    } else {
        None
    }
}

/// What a value reads as where an unsigned integer is expected.
pub open spec fn unsigned_of(value: Seq<char>) -> Option<u64> {
    integer_of(trimmed(value))
}

/// Reads an unsigned integer.
pub fn parse_u64(value: &str) -> (n: Option<u64>)
    ensures
        n == unsigned_of(value@),
{
    read_integer(trim(value))
}

/// What a value reads as where a text is expected: its trimmed characters, if
/// there are any.
pub open spec fn text_of_value(value: Seq<char>) -> Option<Seq<char>> {
    if trimmed(value).len() == 0 {
        None
    } else {
        Some(trimmed(value))
    }
}

/// The policy kind that a keyword names; `Informational` where it names none.
pub open spec fn kind_of(value: Seq<char>) -> ZonePolicyKind {
    let k = keyword(value);
    if k == "exclusive"@ {
        ZonePolicyKind::ExclusiveAccess
    } else if k == "shared"@ {
        ZonePolicyKind::SharedAccess
    } else if k == "corridor"@ {
        ZonePolicyKind::Corridor
    } else if k == "restricted"@ {
        ZonePolicyKind::Restricted
    } else if k == "slow"@ {
        ZonePolicyKind::Slowdown
    } else if k == "replanning"@ {
        ZonePolicyKind::Replanning
    } else if k == "no_stop"@ {
        ZonePolicyKind::NoStop
    } else {
        ZonePolicyKind::Informational
    }
}

/// Reads a policy kind.
pub fn parse_zone_policy_kind(value: &str) -> (kind: ZonePolicyKind)
    ensures
        kind == kind_of(value@),
{
    let k = lower(trim(value));
    let k = k.as_str();
    if same_text(k, "exclusive") {
        ZonePolicyKind::ExclusiveAccess
    } else if same_text(k, "shared") {
        ZonePolicyKind::SharedAccess
    } else if same_text(k, "corridor") {
        ZonePolicyKind::Corridor
    } else if same_text(k, "restricted") {
        ZonePolicyKind::Restricted
    } else if same_text(k, "slow") {
        ZonePolicyKind::Slowdown
    } else if same_text(k, "replanning") {
        ZonePolicyKind::Replanning
    } else if same_text(k, "no_stop") {
        ZonePolicyKind::NoStop
    } else {
        ZonePolicyKind::Informational
    }
}

/// Whether a keyword names a policy kind.
pub open spec fn zone_policy_keyword(k: Seq<char>) -> bool {
    ||| k == "informational"@
    ||| k == "exclusive"@
    ||| k == "shared"@
    ||| k == "corridor"@
    ||| k == "restricted"@
    ||| k == "slow"@
    ||| k == "replanning"@
    ||| k == "no_stop"@
}

/// Whether a keyword names a policy kind.
pub fn is_known_zone_policy_kind(value: &str) -> (b: bool)
    ensures
        b == zone_policy_keyword(keyword(value@)),
{
    let k = lower(trim(value));
    let k = k.as_str();
    same_text(k, "informational")
        || same_text(k, "exclusive")
        || same_text(k, "shared")
        || same_text(k, "corridor")
        || same_text(k, "restricted")
        || same_text(k, "slow")
        || same_text(k, "replanning")
        || same_text(k, "no_stop")
}

/// Whether a keyword names a lane type.
pub open spec fn lane_type_keyword(k: Seq<char>) -> bool {
    ||| k == "corridor"@
    ||| k == "service"@
    ||| k == "shared"@
    ||| k == "restricted"@
    ||| k == "passing"@
    ||| k == "staging"@
}

/// Whether a keyword names a lane type.
pub fn is_known_lane_type(value: &str) -> (b: bool)
    ensures
        b == lane_type_keyword(keyword(value@)),
{
    let k = lower(trim(value));
    let k = k.as_str();
    same_text(k, "corridor")
        || same_text(k, "service")
        || same_text(k, "shared")
        || same_text(k, "restricted")
        || same_text(k, "passing")
        || same_text(k, "staging")
}

/// Whether a keyword names a preferred direction.
pub open spec fn direction_keyword(k: Seq<char>) -> bool {
    ||| k == "forward"@
    ||| k == "reverse"@
    ||| k == "bidirectional"@
    ||| k == "source_to_target"@
    ||| k == "target_to_source"@
    ||| k == "eastbound"@
    ||| k == "westbound"@
    ||| k == "northbound"@
    ||| k == "southbound"@
}

/// Whether a keyword names a preferred direction.
pub fn is_known_preferred_direction(value: &str) -> (b: bool)
    ensures
        b == direction_keyword(keyword(value@)),
{
    let k = lower(trim(value));
    let k = k.as_str();
    same_text(k, "forward")
        || same_text(k, "reverse")
        || same_text(k, "bidirectional")
        || same_text(k, "source_to_target")
        || same_text(k, "target_to_source")
        || same_text(k, "eastbound")
        || same_text(k, "westbound")
        || same_text(k, "northbound")
        || same_text(k, "southbound")
}

/// Whether a key is a traffic property of zones.
pub open spec fn zone_traffic_key(key: Seq<char>) -> bool {
    ||| key == "traffic.policy"@
    ||| key == "traffic.mode"@
    ||| key == "traffic.capacity"@
    ||| key == "traffic.max_occupancy"@
    ||| key == "traffic.maxOccupancy"@
    ||| key == "traffic.priority"@
    ||| key == "traffic.claim_required"@
    ||| key == "traffic.claimRequired"@
    ||| key == "traffic.entry_rule"@
    ||| key == "traffic.entryRule"@
    ||| key == "traffic.exit_rule"@
    ||| key == "traffic.exitRule"@
    ||| key == "traffic.speed_limit"@
    ||| key == "traffic.speedLimit"@
    ||| key == "traffic.waiting_allowed"@
    ||| key == "traffic.waitingAllowed"@
    ||| key == "traffic.stop_allowed"@
    ||| key == "traffic.stopAllowed"@
    ||| key == "traffic.no_stop"@
    ||| key == "traffic.noStop"@
    ||| key == "traffic.replan_trigger"@
    ||| key == "traffic.replanTrigger"@
    ||| key == "traffic.blocked"@
    ||| key == "traffic.robot_class"@
    ||| key == "traffic.robotClass"@
    ||| key == "traffic.schedule_window"@
    ||| key == "traffic.scheduleWindow"@
    ||| key == "traffic.access_group"@
    ||| key == "traffic.accessGroup"@
    ||| key == "traffic.blocks_entry_without_grant"@
    ||| key == "traffic.blocksEntryWithoutGrant"@
    ||| key == "traffic.blocks_traversal_without_grant"@
    ||| key == "traffic.blocksTraversalWithoutGrant"@
}

/// Whether a key is a traffic property of zones.
pub fn is_known_zone_traffic_key(key: &str) -> (b: bool)
    ensures
        b == zone_traffic_key(key@),
{
    same_text(key, "traffic.policy")
        || same_text(key, "traffic.mode")
        || same_text(key, "traffic.capacity")
        || same_text(key, "traffic.max_occupancy")
        || same_text(key, "traffic.maxOccupancy")
        || same_text(key, "traffic.priority")
        || same_text(key, "traffic.claim_required")
        || same_text(key, "traffic.claimRequired")
        || same_text(key, "traffic.entry_rule")
        || same_text(key, "traffic.entryRule")
        || same_text(key, "traffic.exit_rule")
        || same_text(key, "traffic.exitRule")
        || same_text(key, "traffic.speed_limit")
        || same_text(key, "traffic.speedLimit")
        || same_text(key, "traffic.waiting_allowed")
        || same_text(key, "traffic.waitingAllowed")
        || same_text(key, "traffic.stop_allowed")
        || same_text(key, "traffic.stopAllowed")
        || same_text(key, "traffic.no_stop")
        || same_text(key, "traffic.noStop")
        || same_text(key, "traffic.replan_trigger")
        || same_text(key, "traffic.replanTrigger")
        || same_text(key, "traffic.blocked")
        || same_text(key, "traffic.robot_class")
        || same_text(key, "traffic.robotClass")
        || same_text(key, "traffic.schedule_window")
        || same_text(key, "traffic.scheduleWindow")
        || same_text(key, "traffic.access_group")
        || same_text(key, "traffic.accessGroup")
        || same_text(key, "traffic.blocks_entry_without_grant")
        || same_text(key, "traffic.blocksEntryWithoutGrant")
        || same_text(key, "traffic.blocks_traversal_without_grant")
        || same_text(key, "traffic.blocksTraversalWithoutGrant")
}

/// Whether a key is a traffic property of edges.
pub open spec fn edge_traffic_key(key: Seq<char>) -> bool {
    ||| key == "traffic.speed_limit"@
    ||| key == "traffic.speedLimit"@
    ||| key == "traffic.lane_type"@
    ||| key == "traffic.laneType"@
    ||| key == "traffic.lane_kind"@
    ||| key == "traffic.laneKind"@
    ||| key == "traffic.reversible"@
    ||| key == "traffic.passing_allowed"@
    ||| key == "traffic.passingAllowed"@
    ||| key == "traffic.blocked"@
    ||| key == "traffic.priority"@
    ||| key == "traffic.capacity"@
    ||| key == "traffic.max_occupancy"@
    ||| key == "traffic.maxOccupancy"@
    ||| key == "traffic.clearance_width"@
    ||| key == "traffic.clearanceWidth"@
    ||| key == "traffic.clearance_height"@
    ||| key == "traffic.clearanceHeight"@
    ||| key == "traffic.surface_type"@
    ||| key == "traffic.surfaceType"@
    ||| key == "traffic.robot_class"@
    ||| key == "traffic.robotClass"@
    ||| key == "traffic.allowed_payload"@
    ||| key == "traffic.allowedPayload"@
    ||| key == "traffic.cost_bias"@
    ||| key == "traffic.costBias"@
    ||| key == "traffic.no_stop"@
    ||| key == "traffic.noStop"@
    ||| key == "traffic.preferred_direction"@
    ||| key == "traffic.preferredDirection"@
    ||| key == "traffic.direction"@
    ||| key == "traffic.claim_required"@
    ||| key == "traffic.claimRequired"@
    ||| key == "traffic.waiting_allowed"@
    ||| key == "traffic.waitingAllowed"@
    ||| key == "traffic.stop_allowed"@
    ||| key == "traffic.stopAllowed"@
    ||| key == "traffic.schedule_window"@
    ||| key == "traffic.scheduleWindow"@
    ||| key == "traffic.access_group"@
    ||| key == "traffic.accessGroup"@
}

/// Whether a key is a traffic property of edges.
pub fn is_known_edge_traffic_key(key: &str) -> (b: bool)
    ensures
        b == edge_traffic_key(key@),
{
    same_text(key, "traffic.speed_limit")
        || same_text(key, "traffic.speedLimit")
        || same_text(key, "traffic.lane_type")
        || same_text(key, "traffic.laneType")
        || same_text(key, "traffic.lane_kind")
        || same_text(key, "traffic.laneKind")
        || same_text(key, "traffic.reversible")
        || same_text(key, "traffic.passing_allowed")
        || same_text(key, "traffic.passingAllowed")
        || same_text(key, "traffic.blocked")
        || same_text(key, "traffic.priority")
        || same_text(key, "traffic.capacity")
        || same_text(key, "traffic.max_occupancy")
        || same_text(key, "traffic.maxOccupancy")
        || same_text(key, "traffic.clearance_width")
        || same_text(key, "traffic.clearanceWidth")
        || same_text(key, "traffic.clearance_height")
        || same_text(key, "traffic.clearanceHeight")
        || same_text(key, "traffic.surface_type")
        || same_text(key, "traffic.surfaceType")
        || same_text(key, "traffic.robot_class")
        || same_text(key, "traffic.robotClass")
        || same_text(key, "traffic.allowed_payload")
        || same_text(key, "traffic.allowedPayload")
        || same_text(key, "traffic.cost_bias")
        || same_text(key, "traffic.costBias")
        || same_text(key, "traffic.no_stop")
        || same_text(key, "traffic.noStop")
        || same_text(key, "traffic.preferred_direction")
        || same_text(key, "traffic.preferredDirection")
        || same_text(key, "traffic.direction")
        || same_text(key, "traffic.claim_required")
        || same_text(key, "traffic.claimRequired")
        || same_text(key, "traffic.waiting_allowed")
        || same_text(key, "traffic.waitingAllowed")
        || same_text(key, "traffic.stop_allowed")
        || same_text(key, "traffic.stopAllowed")
        || same_text(key, "traffic.schedule_window")
        || same_text(key, "traffic.scheduleWindow")
        || same_text(key, "traffic.access_group")
        || same_text(key, "traffic.accessGroup")
}

/// The spelling with underscores of a traffic key of zones.
pub open spec fn canonical_zone_key(key: Seq<char>) -> Seq<char> {
    if key == "traffic.maxOccupancy"@ {
        "traffic.max_occupancy"@
    } else if key == "traffic.claimRequired"@ {
        "traffic.claim_required"@
    } else if key == "traffic.entryRule"@ {
        "traffic.entry_rule"@
    } else if key == "traffic.exitRule"@ {
        "traffic.exit_rule"@
    } else if key == "traffic.speedLimit"@ {
        "traffic.speed_limit"@
    } else if key == "traffic.waitingAllowed"@ {
        "traffic.waiting_allowed"@
    } else if key == "traffic.stopAllowed"@ {
        "traffic.stop_allowed"@
    } else if key == "traffic.noStop"@ {
        "traffic.no_stop"@
    } else if key == "traffic.replanTrigger"@ {
        "traffic.replan_trigger"@
    } else if key == "traffic.robotClass"@ {
        "traffic.robot_class"@
    } else if key == "traffic.scheduleWindow"@ {
        "traffic.schedule_window"@
    } else if key == "traffic.accessGroup"@ {
        "traffic.access_group"@
    } else if key == "traffic.blocksEntryWithoutGrant"@ {
        "traffic.blocks_entry_without_grant"@
    } else if key == "traffic.blocksTraversalWithoutGrant"@ {
        "traffic.blocks_traversal_without_grant"@
    } else {
        key
    }
}

/// The spelling with underscores of a traffic key of zones.
pub fn canonical_zone_traffic_key<'a>(key: &'a str) -> (canonical: &'a str)
    ensures
        canonical@ == canonical_zone_key(key@),
{
    if same_text(key, "traffic.maxOccupancy") {
        "traffic.max_occupancy"
    } else if same_text(key, "traffic.claimRequired") {
        "traffic.claim_required"
    } else if same_text(key, "traffic.entryRule") {
        "traffic.entry_rule"
    } else if same_text(key, "traffic.exitRule") {
        "traffic.exit_rule"
    } else if same_text(key, "traffic.speedLimit") {
        "traffic.speed_limit"
    } else if same_text(key, "traffic.waitingAllowed") {
        "traffic.waiting_allowed"
    } else if same_text(key, "traffic.stopAllowed") {
        "traffic.stop_allowed"
    } else if same_text(key, "traffic.noStop") {
        "traffic.no_stop"
    } else if same_text(key, "traffic.replanTrigger") {
        "traffic.replan_trigger"
    } else if same_text(key, "traffic.robotClass") {
        "traffic.robot_class"
    } else if same_text(key, "traffic.scheduleWindow") {
        "traffic.schedule_window"
    } else if same_text(key, "traffic.accessGroup") {
        "traffic.access_group"
    } else if same_text(key, "traffic.blocksEntryWithoutGrant") {
        "traffic.blocks_entry_without_grant"
    } else if same_text(key, "traffic.blocksTraversalWithoutGrant") {
        "traffic.blocks_traversal_without_grant"
    } else {
        key
    }
}

/// The spelling with underscores of a traffic key of edges.
pub open spec fn canonical_edge_key(key: Seq<char>) -> Seq<char> {
    if key == "traffic.speedLimit"@ {
        "traffic.speed_limit"@
    } else if key == "traffic.laneType"@ {
        "traffic.lane_type"@
    } else if key == "traffic.laneKind"@ {
        "traffic.lane_kind"@
    } else if key == "traffic.passingAllowed"@ {
        "traffic.passing_allowed"@
    } else if key == "traffic.maxOccupancy"@ {
        "traffic.max_occupancy"@
    } else if key == "traffic.clearanceWidth"@ {
        "traffic.clearance_width"@
    } else if key == "traffic.clearanceHeight"@ {
        "traffic.clearance_height"@
    } else if key == "traffic.surfaceType"@ {
        "traffic.surface_type"@
    } else if key == "traffic.robotClass"@ {
        "traffic.robot_class"@
    } else if key == "traffic.allowedPayload"@ {
        "traffic.allowed_payload"@
    } else if key == "traffic.costBias"@ {
        "traffic.cost_bias"@
    } else if key == "traffic.noStop"@ {
        "traffic.no_stop"@
    } else if key == "traffic.preferredDirection"@ {
        "traffic.preferred_direction"@
    } else if key == "traffic.claimRequired"@ {
        "traffic.claim_required"@
    } else if key == "traffic.waitingAllowed"@ {
        "traffic.waiting_allowed"@
    } else if key == "traffic.stopAllowed"@ {
        "traffic.stop_allowed"@
    } else if key == "traffic.scheduleWindow"@ {
        "traffic.schedule_window"@
    } else if key == "traffic.accessGroup"@ {
        "traffic.access_group"@
    } else {
        key
    }
}

/// The spelling with underscores of a traffic key of edges.
pub fn canonical_edge_traffic_key<'a>(key: &'a str) -> (canonical: &'a str)
    ensures
        canonical@ == canonical_edge_key(key@),
{
    if same_text(key, "traffic.speedLimit") {
        "traffic.speed_limit"
    } else if same_text(key, "traffic.laneType") {
        "traffic.lane_type"
    } else if same_text(key, "traffic.laneKind") {
        "traffic.lane_kind"
    } else if same_text(key, "traffic.passingAllowed") {
        "traffic.passing_allowed"
    } else if same_text(key, "traffic.maxOccupancy") {
        "traffic.max_occupancy"
    } else if same_text(key, "traffic.clearanceWidth") {
        "traffic.clearance_width"
    } else if same_text(key, "traffic.clearanceHeight") {
        "traffic.clearance_height"
    } else if same_text(key, "traffic.surfaceType") {
        "traffic.surface_type"
    } else if same_text(key, "traffic.robotClass") {
        "traffic.robot_class"
    } else if same_text(key, "traffic.allowedPayload") {
        "traffic.allowed_payload"
    } else if same_text(key, "traffic.costBias") {
        "traffic.cost_bias"
    } else if same_text(key, "traffic.noStop") {
        "traffic.no_stop"
    } else if same_text(key, "traffic.preferredDirection") {
        "traffic.preferred_direction"
    } else if same_text(key, "traffic.claimRequired") {
        "traffic.claim_required"
    } else if same_text(key, "traffic.waitingAllowed") {
        "traffic.waiting_allowed"
    } else if same_text(key, "traffic.stopAllowed") {
        "traffic.stop_allowed"
    } else if same_text(key, "traffic.scheduleWindow") {
        "traffic.schedule_window"
    } else if same_text(key, "traffic.accessGroup") {
        "traffic.access_group"
    } else {
        key
    }
}

} // verus!
