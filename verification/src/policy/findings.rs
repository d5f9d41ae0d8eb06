//! What is found about properties, key by key, and what words stand for.

use super::keywords::{
    bool_of, direction_keyword, edge_traffic_key, keyword, kind_of, lane_type_keyword,
    text_of_value, unsigned_of, zone_policy_keyword, zone_traffic_key,
};
use super::reading::{lemma_edge_keys_differ, lemma_zone_keys_differ};
use super::validate::{
    edge_issue, edge_property_issues, edge_traffic_issues, stop_conflict, zone_issue,
    zone_property_issues, zone_traffic_issues,
};
use super::{TrafficIssueSeverity, TrafficParseIssueView, ZonePolicyKind};
use crate::number::{NumberView, Real};
use crate::properties::{value_at, PropertyView};
use crate::text::begins_with;
use vstd::prelude::*;

verus! {

// ---------------------------------------------------------------------------
// words
// ---------------------------------------------------------------------------

proof fn lemma_words_differ()
    ensures
        "true"@.len() == 4,
        "true"@[0] == 't',
        "1"@.len() == 1,
        "1"@[0] == '1',
        "yes"@.len() == 3,
        "yes"@[0] == 'y',
        "on"@.len() == 2,
        "on"@[0] == 'o',
        "false"@.len() == 5,
        "false"@[0] == 'f',
        "0"@.len() == 1,
        "0"@[0] == '0',
        "no"@.len() == 2,
        "no"@[0] == 'n',
        "off"@.len() == 3,
        "off"@[0] == 'o',
        "exclusive"@.len() == 9,
        "exclusive"@[0] == 'e',
        "shared"@.len() == 6,
        "shared"@[0] == 's',
        "corridor"@.len() == 8,
        "corridor"@[0] == 'c',
        "restricted"@.len() == 10,
        "restricted"@[0] == 'r',
        "slow"@.len() == 4,
        "slow"@[0] == 's',
        "replanning"@.len() == 10,
        "replanning"@[0] == 'r',
        "no_stop"@.len() == 7,
        "no_stop"@[0] == 'n',
        "informational"@.len() == 13,
        "informational"@[0] == 'i',
        "restricted"@[2] == 's',
        "replanning"@[2] == 'p',
{
    reveal_strlit("true");
    assert("true"@.len() == 4);
    reveal_strlit("1");
    assert("1"@.len() == 1);
    reveal_strlit("yes");
    assert("yes"@.len() == 3);
    reveal_strlit("on");
    assert("on"@.len() == 2);
    reveal_strlit("false");
    assert("false"@.len() == 5);
    reveal_strlit("0");
    assert("0"@.len() == 1);
    reveal_strlit("no");
    assert("no"@.len() == 2);
    reveal_strlit("off");
    assert("off"@.len() == 3);
    reveal_strlit("exclusive");
    assert("exclusive"@.len() == 9);
    reveal_strlit("shared");
    assert("shared"@.len() == 6);
    reveal_strlit("corridor");
    assert("corridor"@.len() == 8);
    reveal_strlit("restricted");
    assert("restricted"@.len() == 10);
    reveal_strlit("slow");
    assert("slow"@.len() == 4);
    reveal_strlit("replanning");
    assert("replanning"@.len() == 10);
    reveal_strlit("no_stop");
    assert("no_stop"@.len() == 7);
    reveal_strlit("informational");
    assert("informational"@.len() == 13);
}

/// The words for yes and no, in any case and with blanks around them. Nothing else
/// is either.
pub proof fn lemma_words_for_yes_and_no(v: Seq<char>)
    ensures
        keyword(v) == "true"@ || keyword(v) == "1"@ || keyword(v) == "yes"@ || keyword(v) == "on"@
            ==> bool_of(v) == Some(true),
        keyword(v) == "false"@ || keyword(v) == "0"@ || keyword(v) == "no"@ || keyword(v) == "off"@
            ==> bool_of(v) == Some(false),
        bool_of(v) is Some ==> keyword(v) == "true"@ || keyword(v) == "1"@ || keyword(v) == "yes"@
            || keyword(v) == "on"@ || keyword(v) == "false"@ || keyword(v) == "0"@ || keyword(v)
            == "no"@ || keyword(v) == "off"@,
{
    lemma_words_differ();
}

/// Each kind of zone has a word, and a word that names no kind is for zones that
/// only inform. What is known as a word names a kind.
pub proof fn lemma_words_for_kinds(v: Seq<char>)
    ensures
        kind_of(v) == ZonePolicyKind::ExclusiveAccess <==> keyword(v) == "exclusive"@,
        kind_of(v) == ZonePolicyKind::SharedAccess <==> keyword(v) == "shared"@,
        kind_of(v) == ZonePolicyKind::Corridor <==> keyword(v) == "corridor"@,
        kind_of(v) == ZonePolicyKind::Restricted <==> keyword(v) == "restricted"@,
        kind_of(v) == ZonePolicyKind::Slowdown <==> keyword(v) == "slow"@,
        kind_of(v) == ZonePolicyKind::Replanning <==> keyword(v) == "replanning"@,
        kind_of(v) == ZonePolicyKind::NoStop <==> keyword(v) == "no_stop"@,
        kind_of(v) != ZonePolicyKind::CapacityLimited,
        kind_of(v) != ZonePolicyKind::Informational ==> zone_policy_keyword(keyword(v)),
        zone_policy_keyword(keyword(v)) && keyword(v) != "informational"@ ==> kind_of(v)
            != ZonePolicyKind::Informational,
{
    lemma_words_differ();
}

// ---------------------------------------------------------------------------
// findings about single properties
// ---------------------------------------------------------------------------

/// Whether a property is found to be wrong.
pub open spec fn is_wrong(found: Option<TrafficParseIssueView>, e: PropertyView) -> bool {
    found matches Some(i) && i.severity == TrafficIssueSeverity::Error && i.key == e.key
}

/// Whether a property is found to be doubtful.
pub open spec fn is_doubtful(found: Option<TrafficParseIssueView>, e: PropertyView) -> bool {
    found matches Some(i) && i.severity == TrafficIssueSeverity::Warning && i.key == e.key
}

/// Whether a number is there and not at or below zero.
pub open spec fn above_nothing(n: Option<NumberView>) -> bool {
    n matches Some(v) && !v.value.at_most(Real { bits: 0 })
}

/// The keys under which a zone says whether something is so.
pub open spec fn zone_says_whether(k: Seq<char>) -> bool {
    ||| k == "traffic.claim_required"@
    ||| k == "traffic.claimRequired"@
    ||| k == "traffic.waiting_allowed"@
    ||| k == "traffic.waitingAllowed"@
    ||| k == "traffic.stop_allowed"@
    ||| k == "traffic.stopAllowed"@
    ||| k == "traffic.blocked"@
    ||| k == "traffic.replan_trigger"@
    ||| k == "traffic.replanTrigger"@
    ||| k == "traffic.no_stop"@
    ||| k == "traffic.noStop"@
    ||| k == "traffic.blocks_entry_without_grant"@
    ||| k == "traffic.blocksEntryWithoutGrant"@
    ||| k == "traffic.blocks_traversal_without_grant"@
    ||| k == "traffic.blocksTraversalWithoutGrant"@
}

/// The keys under which a zone says something in words.
pub open spec fn zone_says_what(k: Seq<char>) -> bool {
    ||| k == "traffic.entry_rule"@
    ||| k == "traffic.entryRule"@
    ||| k == "traffic.exit_rule"@
    ||| k == "traffic.exitRule"@
    ||| k == "traffic.robot_class"@
    ||| k == "traffic.robotClass"@
    ||| k == "traffic.schedule_window"@
    ||| k == "traffic.scheduleWindow"@
    ||| k == "traffic.access_group"@
    ||| k == "traffic.accessGroup"@
}

/// The keys under which it is said how many fit.
pub open spec fn says_how_many(k: Seq<char>) -> bool {
    ||| k == "traffic.capacity"@
    ||| k == "traffic.max_occupancy"@
    ||| k == "traffic.maxOccupancy"@
}

/// The keys under which an edge says whether something is so.
pub open spec fn edge_says_whether(k: Seq<char>) -> bool {
    ||| k == "traffic.reversible"@
    ||| k == "traffic.passing_allowed"@
    ||| k == "traffic.passingAllowed"@
    ||| k == "traffic.no_stop"@
    ||| k == "traffic.noStop"@
    ||| k == "traffic.blocked"@
    ||| k == "traffic.claim_required"@
    ||| k == "traffic.claimRequired"@
    ||| k == "traffic.waiting_allowed"@
    ||| k == "traffic.waitingAllowed"@
    ||| k == "traffic.stop_allowed"@
    ||| k == "traffic.stopAllowed"@
}

/// The keys under which an edge says something in words.
pub open spec fn edge_says_what(k: Seq<char>) -> bool {
    ||| k == "traffic.surface_type"@
    ||| k == "traffic.surfaceType"@
    ||| k == "traffic.robot_class"@
    ||| k == "traffic.robotClass"@
    ||| k == "traffic.allowed_payload"@
    ||| k == "traffic.allowedPayload"@
    ||| k == "traffic.schedule_window"@
    ||| k == "traffic.scheduleWindow"@
    ||| k == "traffic.access_group"@
    ||| k == "traffic.accessGroup"@
}

/// The keys under which an edge states a number.
pub open spec fn edge_says_number(k: Seq<char>) -> bool {
    ||| k == "traffic.priority"@
    ||| k == "traffic.cost_bias"@
    ||| k == "traffic.costBias"@
}

/// The keys under which an edge states a number above zero.
pub open spec fn edge_says_size(k: Seq<char>) -> bool {
    ||| k == "traffic.speed_limit"@
    ||| k == "traffic.speedLimit"@
    ||| k == "traffic.clearance_width"@
    ||| k == "traffic.clearanceWidth"@
    ||| k == "traffic.clearance_height"@
    ||| k == "traffic.clearanceHeight"@
}

/// The keys under which an edge names its lane.
pub open spec fn edge_says_lane(k: Seq<char>) -> bool {
    ||| k == "traffic.lane_type"@
    ||| k == "traffic.laneType"@
    ||| k == "traffic.lane_kind"@
    ||| k == "traffic.laneKind"@
}

/// The keys under which an edge names its direction.
pub open spec fn edge_says_direction(k: Seq<char>) -> bool {
    ||| k == "traffic.preferred_direction"@
    ||| k == "traffic.preferredDirection"@
    ||| k == "traffic.direction"@
}

/// A property of a zone is wrong exactly if it does not say what its key is for,
/// and doubtful if it names no known kind. A traffic key that is none of a zone is
/// doubtful. About any other property nothing is found.
pub proof fn lemma_findings_about_a_zone_property(e: PropertyView)
    ensures
        ({
            let found = zone_issue(e);
            let kind = e.key == "traffic.policy"@ || e.key == "traffic.mode"@;
            let speed = e.key == "traffic.speed_limit"@ || e.key == "traffic.speedLimit"@;
            let known = kind || speed || says_how_many(e.key) || e.key == "traffic.priority"@
                || zone_says_whether(e.key) || zone_says_what(e.key);
            &&& found is None || is_wrong(found, e) || is_doubtful(found, e)
            &&& zone_says_whether(e.key) ==> (is_wrong(found, e) <==> bool_of(e.value) is None)
                && !is_doubtful(found, e)
            &&& zone_says_what(e.key) ==> (is_wrong(found, e) <==> text_of_value(e.value) is None)
                && !is_doubtful(found, e)
            &&& says_how_many(e.key) ==> (is_wrong(found, e) <==> !(
            unsigned_of(e.value) matches Some(n) && n >= 1)) && !is_doubtful(found, e)
            &&& e.key == "traffic.priority"@ ==> (is_wrong(found, e) <==> e.number is None)
                && !is_doubtful(found, e)
            &&& speed ==> (is_wrong(found, e) <==> !above_nothing(e.number)) && !is_doubtful(
                found,
                e,
            )
            &&& kind ==> (is_doubtful(found, e) <==> !zone_policy_keyword(keyword(e.value)))
                && !is_wrong(found, e)
            &&& !known && begins_with(e.key, "traffic."@) ==> is_doubtful(found, e)
            &&& !known && !begins_with(e.key, "traffic."@) ==> found is None
        }),
{
    lemma_zone_keys_differ();
    assert(zone_traffic_key(e.key) <==> e.key == "traffic.policy"@ || e.key == "traffic.mode"@
        || e.key == "traffic.speed_limit"@ || e.key == "traffic.speedLimit"@ || says_how_many(e.key)
        || e.key == "traffic.priority"@ || zone_says_whether(e.key) || zone_says_what(e.key));
}

/// A property of an edge is wrong exactly if it does not say what its key is for,
/// and doubtful if it names no known lane or direction. A traffic key that is none
/// of an edge is doubtful. About any other property nothing is found.
pub proof fn lemma_findings_about_an_edge_property(e: PropertyView)
    ensures
        ({
            let found = edge_issue(e);
            let known = says_how_many(e.key) || edge_says_whether(e.key) || edge_says_what(e.key)
                || edge_says_number(e.key) || edge_says_size(e.key) || edge_says_lane(e.key)
                || edge_says_direction(e.key);
            &&& found is None || is_wrong(found, e) || is_doubtful(found, e)
            &&& edge_says_whether(e.key) ==> (is_wrong(found, e) <==> bool_of(e.value) is None)
                && !is_doubtful(found, e)
            &&& edge_says_what(e.key) ==> (is_wrong(found, e) <==> text_of_value(e.value) is None)
                && !is_doubtful(found, e)
            &&& says_how_many(e.key) ==> (is_wrong(found, e) <==> !(
            unsigned_of(e.value) matches Some(n) && n >= 1)) && !is_doubtful(found, e)
            &&& edge_says_number(e.key) ==> (is_wrong(found, e) <==> e.number is None)
                && !is_doubtful(found, e)
            &&& edge_says_size(e.key) ==> (is_wrong(found, e) <==> !above_nothing(e.number))
                && !is_doubtful(found, e)
            &&& edge_says_lane(e.key) ==> (is_wrong(found, e) <==> text_of_value(e.value) is None)
                && (is_doubtful(found, e) <==> text_of_value(e.value) is Some && !lane_type_keyword(
                keyword(e.value),
            ))
            &&& edge_says_direction(e.key) ==> (is_wrong(found, e) <==> text_of_value(e.value)
                is None) && (is_doubtful(found, e) <==> text_of_value(e.value) is Some
                && !direction_keyword(keyword(e.value)))
            &&& !known && begins_with(e.key, "traffic."@) ==> is_doubtful(found, e)
            &&& !known && !begins_with(e.key, "traffic."@) ==> found is None
        }),
{
    lemma_edge_keys_differ();
    assert(edge_traffic_key(e.key) <==> says_how_many(e.key) || edge_says_whether(e.key)
        || edge_says_what(e.key) || edge_says_number(e.key) || edge_says_size(e.key)
        || edge_says_lane(e.key) || edge_says_direction(e.key));
}

// ---------------------------------------------------------------------------
// all findings
// ---------------------------------------------------------------------------

proof fn lemma_zone_property_issues(entries: Seq<PropertyView>, i: TrafficParseIssueView)
    ensures
        zone_property_issues(entries).contains(i) <==> exists|k: int|
            0 <= k < entries.len() && zone_issue(#[trigger] entries[k]) == Some(i),
    decreases entries.len(),
{
    if entries.len() > 0 {
        let rest = entries.drop_last();
        let before = zone_property_issues(rest);
        let after = zone_property_issues(entries);
        lemma_zone_property_issues(rest, i);
        assert(entries[entries.len() - 1] == entries.last());
        assert forall|k: int| 0 <= k < rest.len() implies #[trigger] rest[k] == entries[k] by {}
        if exists|k: int| 0 <= k < entries.len() && zone_issue(#[trigger] entries[k]) == Some(i) {
            let k = choose|k: int|
                0 <= k < entries.len() && zone_issue(#[trigger] entries[k]) == Some(i);
            if k < rest.len() {
                assert(zone_issue(rest[k]) == Some(i));
            } else {
                assert(after[before.len() as int] == i);
            }
        }
        if before.contains(i) {
            let k = choose|k: int| 0 <= k < before.len() && before[k] == i;
            assert(after[k] == i);
            let q = choose|q: int| 0 <= q < rest.len() && zone_issue(#[trigger] rest[q]) == Some(i);
            assert(zone_issue(entries[q]) == Some(i));
        }
        if after.contains(i) {
            let k = choose|k: int| 0 <= k < after.len() && after[k] == i;
            if k < before.len() {
                assert(before[k] == i);
            }
        }
    }
}

/// What is found about a zone is what is found about one of its properties, or that
/// stopping is both allowed and excluded.
pub proof fn lemma_all_findings_about_zones(entries: Seq<PropertyView>, i: TrafficParseIssueView)
    ensures
        zone_traffic_issues(entries).contains(i) ==> i.severity == TrafficIssueSeverity::Warning
            && i.key == "traffic.stop_allowed"@ || exists|k: int|
            0 <= k < entries.len() && zone_issue(#[trigger] entries[k]) == Some(i),
        forall|k: int|
            0 <= k < entries.len() && zone_issue(#[trigger] entries[k]) == Some(i)
                ==> zone_traffic_issues(entries).contains(i),
        zone_traffic_issues(entries).len() == 0 <==> (forall|k: int|
            0 <= k < entries.len() ==> zone_issue(#[trigger] entries[k]) is None) && !(value_at(
            entries,
            "traffic.no_stop"@,
        ) is Some && bool_of(value_at(entries, "traffic.no_stop"@).unwrap()) == Some(true)
            && value_at(entries, "traffic.stop_allowed"@) is Some && bool_of(
            value_at(entries, "traffic.stop_allowed"@).unwrap(),
        ) == Some(true)),
{
    let a = zone_property_issues(entries);
    let b = stop_conflict(entries, false);
    let all = zone_traffic_issues(entries);
    assert(all == a + b);
    lemma_zone_property_issues(entries, i);
    if all.contains(i) {
        let k = choose|k: int| 0 <= k < all.len() && all[k] == i;
        if k < a.len() {
            assert(a[k] == i);
        } else {
            assert(b[k - a.len()] == i);
        }
    }
    if a.contains(i) {
        let k = choose|k: int| 0 <= k < a.len() && a[k] == i;
        assert(all[k] == i);
    }
    if a.len() > 0 {
        lemma_zone_property_issues(entries, a[0]);
        assert(a.contains(a[0]));
    }
    if exists|k: int| 0 <= k < entries.len() && zone_issue(#[trigger] entries[k]) is Some {
        let k = choose|k: int| 0 <= k < entries.len() && zone_issue(#[trigger] entries[k]) is Some;
        lemma_zone_property_issues(entries, zone_issue(entries[k]).unwrap());
    }
}

proof fn lemma_edge_property_issues(entries: Seq<PropertyView>, i: TrafficParseIssueView)
    ensures
        edge_property_issues(entries).contains(i) <==> exists|k: int|
            0 <= k < entries.len() && edge_issue(#[trigger] entries[k]) == Some(i),
    decreases entries.len(),
{
    if entries.len() > 0 {
        let rest = entries.drop_last();
        let before = edge_property_issues(rest);
        let after = edge_property_issues(entries);
        lemma_edge_property_issues(rest, i);
        assert(entries[entries.len() - 1] == entries.last());
        assert forall|k: int| 0 <= k < rest.len() implies #[trigger] rest[k] == entries[k] by {}
        if exists|k: int| 0 <= k < entries.len() && edge_issue(#[trigger] entries[k]) == Some(i) {
            let k = choose|k: int|
                0 <= k < entries.len() && edge_issue(#[trigger] entries[k]) == Some(i);
            if k < rest.len() {
                assert(edge_issue(rest[k]) == Some(i));
            } else {
                assert(after[before.len() as int] == i);
            }
        }
        if before.contains(i) {
            let k = choose|k: int| 0 <= k < before.len() && before[k] == i;
            assert(after[k] == i);
            let q = choose|q: int| 0 <= q < rest.len() && edge_issue(#[trigger] rest[q]) == Some(i);
            assert(edge_issue(entries[q]) == Some(i));
        }
        if after.contains(i) {
            let k = choose|k: int| 0 <= k < after.len() && after[k] == i;
            if k < before.len() {
                assert(before[k] == i);
            }
        }
    }
}

/// What is found about an edge is what is found about one of its properties, or that
/// stopping is both allowed and excluded.
pub proof fn lemma_all_findings_about_edges(entries: Seq<PropertyView>, i: TrafficParseIssueView)
    ensures
        edge_traffic_issues(entries).contains(i) ==> i.severity == TrafficIssueSeverity::Warning
            && i.key == "traffic.stop_allowed"@ || exists|k: int|
            0 <= k < entries.len() && edge_issue(#[trigger] entries[k]) == Some(i),
        forall|k: int|
            0 <= k < entries.len() && edge_issue(#[trigger] entries[k]) == Some(i)
                ==> edge_traffic_issues(entries).contains(i),
        edge_traffic_issues(entries).len() == 0 <==> (forall|k: int|
            0 <= k < entries.len() ==> edge_issue(#[trigger] entries[k]) is None) && !(value_at(
            entries,
            "traffic.no_stop"@,
        ) is Some && bool_of(value_at(entries, "traffic.no_stop"@).unwrap()) == Some(true)
            && value_at(entries, "traffic.stop_allowed"@) is Some && bool_of(
            value_at(entries, "traffic.stop_allowed"@).unwrap(),
        ) != Some(false)),
{
    let a = edge_property_issues(entries);
    let b = stop_conflict(entries, true);
    let all = edge_traffic_issues(entries);
    assert(all == a + b);
    lemma_edge_property_issues(entries, i);
    if all.contains(i) {
        let k = choose|k: int| 0 <= k < all.len() && all[k] == i;
        if k < a.len() {
            assert(a[k] == i);
        } else {
            assert(b[k - a.len()] == i);
        }
    }
    if a.contains(i) {
        let k = choose|k: int| 0 <= k < a.len() && a[k] == i;
        assert(all[k] == i);
    }
    if a.len() > 0 {
        lemma_edge_property_issues(entries, a[0]);
        assert(a.contains(a[0]));
    }
    if exists|k: int| 0 <= k < entries.len() && edge_issue(#[trigger] entries[k]) is Some {
        let k = choose|k: int| 0 <= k < entries.len() && edge_issue(#[trigger] entries[k]) is Some;
        lemma_edge_property_issues(entries, edge_issue(entries[k]).unwrap());
    }
}

} // verus!
