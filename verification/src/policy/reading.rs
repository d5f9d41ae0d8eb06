//! What properties are read as: of each field of a policy, the texts that it is
//! taken from.

use super::keywords::{bool_of, kind_of, text_of_value, unsigned_of};
use super::parse::{
    edge_semantics_of, edge_step, edge_steps, lowered_value, newer, value_of, zone_policy_of,
    zone_step, zone_steps,
};
use super::{
    empty_policy, empty_semantics, EdgeTrafficSemanticsView, ZonePolicyKind, ZonePolicyView,
};
use crate::number::{NumberView, Real};
use crate::properties::{keys_ascend, value_at, PropertyView};
use crate::text::lemma_text_order_is_total;
use vstd::prelude::*;

verus! {

/// Whether, of the properties under some keys, the last one that can be read
/// reads as a value.
pub open spec fn says<T>(
    entries: Seq<PropertyView>,
    mine: spec_fn(Seq<char>) -> bool,
    read: spec_fn(PropertyView) -> Option<T>,
    x: T,
) -> bool {
    exists|i: int|
        {
            &&& 0 <= i < entries.len()
            &&& mine((#[trigger] entries[i]).key)
            &&& read(entries[i]) == Some(x)
            &&& forall|j: int|
                i < j < entries.len() && mine((#[trigger] entries[j]).key) ==> read(entries[j])
                    is None
        }
}

/// Whether no property under some keys can be read.
pub open spec fn silent<T>(
    entries: Seq<PropertyView>,
    mine: spec_fn(Seq<char>) -> bool,
    read: spec_fn(PropertyView) -> Option<T>,
) -> bool {
    forall|i: int|
        0 <= i < entries.len() && mine((#[trigger] entries[i]).key) ==> read(entries[i]) is None
}

/// A key with the two ways in which it is spelled.
pub open spec fn spelled(a: Seq<char>, b: Seq<char>) -> spec_fn(Seq<char>) -> bool {
    |k: Seq<char>| k == a || k == b
}

/// Reading a boolean.
pub open spec fn as_bool() -> spec_fn(PropertyView) -> Option<bool> {
    |e: PropertyView| bool_of(e.value)
}

/// Reading a text that is not blank.
pub open spec fn as_text() -> spec_fn(PropertyView) -> Option<Seq<char>> {
    |e: PropertyView| text_of_value(e.value)
}

/// Reading a text that is not blank, in lower case.
pub open spec fn as_lower() -> spec_fn(PropertyView) -> Option<Seq<char>> {
    |e: PropertyView| lowered_value(e.value)
}

/// Reading a number.
pub open spec fn as_number() -> spec_fn(PropertyView) -> Option<NumberView> {
    |e: PropertyView| e.number
}

/// Reading the value of a number.
pub open spec fn as_real() -> spec_fn(PropertyView) -> Option<Real> {
    |e: PropertyView| value_of(e.number)
}

/// Reading how many.
pub open spec fn as_count() -> spec_fn(PropertyView) -> Option<u64> {
    |e: PropertyView| unsigned_of(e.value)
}

/// Reading how many, of at least one.
pub open spec fn as_some_count() -> spec_fn(PropertyView) -> Option<u64> {
    |e: PropertyView|
        match unsigned_of(e.value) {
            Some(n) if n >= 1 => Some(n),
            _ => None,
        }
}

/// What stands under a key that is spelled in one way is all that is said there.
pub proof fn lemma_one_spelling<T>(
    entries: Seq<PropertyView>,
    key: Seq<char>,
    read: spec_fn(PropertyView) -> Option<T>,
)
    requires
        keys_ascend(entries),
    ensures
        forall|p: PropertyView, x: T|
            crate::properties::property_at(entries, key) == Some(p) && #[trigger] read(p) == Some(
                x,
            ) ==> #[trigger] says(entries, spelled(key, key), read, x),
        value_at(entries, key) is None ==> silent(entries, spelled(key, key), read),
{
    assert forall|p: PropertyView, x: T|
        crate::properties::property_at(entries, key) == Some(p) && #[trigger] read(p) == Some(
            x,
        ) implies #[trigger] says(entries, spelled(key, key), read, x) by {
        let i = crate::properties::lemma_property_stands(entries, key);
        assert forall|j: int| i < j < entries.len() && spelled(key, key)(
            (#[trigger] entries[j]).key,
        ) implies read(entries[j]) is None by {
            lemma_text_order_is_total(key, key);
        }
        assert(spelled(key, key)(entries[i].key));
    }
    if value_at(entries, key) is None {
        assert forall|i: int| 0 <= i < entries.len() && spelled(key, key)(
            (#[trigger] entries[i]).key,
        ) implies read(entries[i]) is None by {
            crate::properties::lemma_property_found(entries, i);
        }
    }
}

proof fn lemma_edge_field<T>(
    entries: Seq<PropertyView>,
    directed: bool,
    get: spec_fn(EdgeTrafficSemanticsView) -> Option<T>,
    mine: spec_fn(Seq<char>) -> bool,
    read: spec_fn(PropertyView) -> Option<T>,
)
    requires
        forall|s: EdgeTrafficSemanticsView, e: PropertyView|
            get(#[trigger] edge_step(s, e)) == (if mine(e.key) {
                newer(read(e), get(s))
            } else {
                get(s)
            }),
    ensures
        forall|x: T| #[trigger]
            says(entries, mine, read, x) ==> get(edge_steps(entries, directed)) == Some(x),
        silent(entries, mine, read) ==> get(edge_steps(entries, directed)) == get(
            empty_semantics(directed),
        ),
    decreases entries.len(),
{
    if entries.len() > 0 {
        let rest = entries.drop_last();
        let last = entries.last();
        lemma_edge_field(rest, directed, get, mine, read);
        let s = edge_steps(rest, directed);
        assert(edge_steps(entries, directed) == edge_step(s, last));
        assert(entries[entries.len() - 1] == last);
        assert forall|x: T| #[trigger] says(entries, mine, read, x) implies get(
            edge_steps(entries, directed),
        ) == Some(x) by {
            let i = choose|i: int|
                {
                    &&& 0 <= i < entries.len()
                    &&& mine((#[trigger] entries[i]).key)
                    &&& read(entries[i]) == Some(x)
                    &&& forall|j: int|
                        i < j < entries.len() && mine((#[trigger] entries[j]).key) ==> read(
                            entries[j],
                        ) is None
                };
            if i < rest.len() {
                assert(rest[i] == entries[i]);
                assert forall|j: int| i < j < rest.len() && mine(
                    (#[trigger] rest[j]).key,
                ) implies read(rest[j]) is None by {
                    assert(entries[j] == rest[j]);
                }
                assert(says(rest, mine, read, x));
            }
        }
        if silent(entries, mine, read) {
            assert forall|i: int| 0 <= i < rest.len() && mine(
                (#[trigger] rest[i]).key,
            ) implies read(rest[i]) is None by {
                assert(entries[i] == rest[i]);
            }
            assert(silent(rest, mine, read));
        }
    }
}

/// The keys of edges differ in their lengths or in a few letters.
pub(crate) proof fn lemma_edge_keys_differ()
    ensures
        "traffic.speed_limit"@.len() == 19,
        "traffic.speed_limit"@[8] == 's',
        "traffic.speed_limit"@[14] == 'l',
        "traffic.speed_limit"@[17] == 'i',
        "traffic.lane_type"@.len() == 17,
        "traffic.lane_type"@[8] == 'l',
        "traffic.lane_type"@[14] == 'y',
        "traffic.lane_kind"@.len() == 17,
        "traffic.lane_kind"@[8] == 'l',
        "traffic.lane_kind"@[14] == 'i',
        "traffic.reversible"@.len() == 18,
        "traffic.reversible"@[8] == 'r',
        "traffic.reversible"@[14] == 'i',
        "traffic.reversible"@[17] == 'e',
        "traffic.passing_allowed"@.len() == 23,
        "traffic.passing_allowed"@[8] == 'p',
        "traffic.passing_allowed"@[14] == 'g',
        "traffic.passing_allowed"@[17] == 'l',
        "traffic.claim_required"@.len() == 22,
        "traffic.claim_required"@[8] == 'c',
        "traffic.claim_required"@[14] == 'r',
        "traffic.claim_required"@[17] == 'u',
        "traffic.waiting_allowed"@.len() == 23,
        "traffic.waiting_allowed"@[8] == 'w',
        "traffic.waiting_allowed"@[14] == 'g',
        "traffic.waiting_allowed"@[17] == 'l',
        "traffic.stop_allowed"@.len() == 20,
        "traffic.stop_allowed"@[8] == 's',
        "traffic.stop_allowed"@[14] == 'l',
        "traffic.stop_allowed"@[17] == 'w',
        "traffic.blocked"@.len() == 15,
        "traffic.blocked"@[8] == 'b',
        "traffic.blocked"@[14] == 'd',
        "traffic.priority"@.len() == 16,
        "traffic.priority"@[8] == 'p',
        "traffic.priority"@[14] == 't',
        "traffic.capacity"@.len() == 16,
        "traffic.capacity"@[8] == 'c',
        "traffic.capacity"@[14] == 't',
        "traffic.max_occupancy"@.len() == 21,
        "traffic.max_occupancy"@[8] == 'm',
        "traffic.max_occupancy"@[14] == 'c',
        "traffic.max_occupancy"@[17] == 'a',
        "traffic.clearance_width"@.len() == 23,
        "traffic.clearance_width"@[8] == 'c',
        "traffic.clearance_width"@[14] == 'n',
        "traffic.clearance_width"@[17] == '_',
        "traffic.clearance_height"@.len() == 24,
        "traffic.clearance_height"@[8] == 'c',
        "traffic.clearance_height"@[14] == 'n',
        "traffic.clearance_height"@[17] == '_',
        "traffic.surface_type"@.len() == 20,
        "traffic.surface_type"@[8] == 's',
        "traffic.surface_type"@[14] == 'e',
        "traffic.surface_type"@[17] == 'y',
        "traffic.robot_class"@.len() == 19,
        "traffic.robot_class"@[8] == 'r',
        "traffic.robot_class"@[14] == 'c',
        "traffic.robot_class"@[17] == 's',
        "traffic.allowed_payload"@.len() == 23,
        "traffic.allowed_payload"@[8] == 'a',
        "traffic.allowed_payload"@[14] == 'd',
        "traffic.allowed_payload"@[17] == 'a',
        "traffic.cost_bias"@.len() == 17,
        "traffic.cost_bias"@[8] == 'c',
        "traffic.cost_bias"@[14] == 'i',
        "traffic.no_stop"@.len() == 15,
        "traffic.no_stop"@[8] == 'n',
        "traffic.no_stop"@[14] == 'p',
        "traffic.preferred_direction"@.len() == 27,
        "traffic.preferred_direction"@[8] == 'p',
        "traffic.preferred_direction"@[14] == 'r',
        "traffic.preferred_direction"@[17] == '_',
        "traffic.direction"@.len() == 17,
        "traffic.direction"@[8] == 'd',
        "traffic.direction"@[14] == 'i',
        "traffic.schedule_window"@.len() == 23,
        "traffic.schedule_window"@[8] == 's',
        "traffic.schedule_window"@[14] == 'l',
        "traffic.schedule_window"@[17] == 'w',
        "traffic.access_group"@.len() == 20,
        "traffic.access_group"@[8] == 'a',
        "traffic.access_group"@[14] == '_',
        "traffic.access_group"@[17] == 'o',
        "traffic.speedLimit"@.len() == 18,
        "traffic.speedLimit"@[8] == 's',
        "traffic.speedLimit"@[14] == 'i',
        "traffic.speedLimit"@[17] == 't',
        "traffic.laneType"@.len() == 16,
        "traffic.laneType"@[8] == 'l',
        "traffic.laneType"@[14] == 'p',
        "traffic.laneKind"@.len() == 16,
        "traffic.laneKind"@[8] == 'l',
        "traffic.laneKind"@[14] == 'n',
        "traffic.passingAllowed"@.len() == 22,
        "traffic.passingAllowed"@[8] == 'p',
        "traffic.passingAllowed"@[14] == 'g',
        "traffic.passingAllowed"@[17] == 'l',
        "traffic.maxOccupancy"@.len() == 20,
        "traffic.maxOccupancy"@[8] == 'm',
        "traffic.maxOccupancy"@[14] == 'u',
        "traffic.maxOccupancy"@[17] == 'n',
        "traffic.clearanceWidth"@.len() == 22,
        "traffic.clearanceWidth"@[8] == 'c',
        "traffic.clearanceWidth"@[14] == 'n',
        "traffic.clearanceWidth"@[17] == 'W',
        "traffic.clearanceHeight"@.len() == 23,
        "traffic.clearanceHeight"@[8] == 'c',
        "traffic.clearanceHeight"@[14] == 'n',
        "traffic.clearanceHeight"@[17] == 'H',
        "traffic.surfaceType"@.len() == 19,
        "traffic.surfaceType"@[8] == 's',
        "traffic.surfaceType"@[14] == 'e',
        "traffic.surfaceType"@[17] == 'p',
        "traffic.robotClass"@.len() == 18,
        "traffic.robotClass"@[8] == 'r',
        "traffic.robotClass"@[14] == 'l',
        "traffic.robotClass"@[17] == 's',
        "traffic.allowedPayload"@.len() == 22,
        "traffic.allowedPayload"@[8] == 'a',
        "traffic.allowedPayload"@[14] == 'd',
        "traffic.allowedPayload"@[17] == 'y',
        "traffic.costBias"@.len() == 16,
        "traffic.costBias"@[8] == 'c',
        "traffic.costBias"@[14] == 'a',
        "traffic.noStop"@.len() == 14,
        "traffic.noStop"@[8] == 'n',
        "traffic.preferredDirection"@.len() == 26,
        "traffic.preferredDirection"@[8] == 'p',
        "traffic.preferredDirection"@[14] == 'r',
        "traffic.preferredDirection"@[17] == 'D',
        "traffic.claimRequired"@.len() == 21,
        "traffic.claimRequired"@[8] == 'c',
        "traffic.claimRequired"@[14] == 'e',
        "traffic.claimRequired"@[17] == 'i',
        "traffic.waitingAllowed"@.len() == 22,
        "traffic.waitingAllowed"@[8] == 'w',
        "traffic.waitingAllowed"@[14] == 'g',
        "traffic.waitingAllowed"@[17] == 'l',
        "traffic.stopAllowed"@.len() == 19,
        "traffic.stopAllowed"@[8] == 's',
        "traffic.stopAllowed"@[14] == 'l',
        "traffic.stopAllowed"@[17] == 'e',
        "traffic.scheduleWindow"@.len() == 22,
        "traffic.scheduleWindow"@[8] == 's',
        "traffic.scheduleWindow"@[14] == 'l',
        "traffic.scheduleWindow"@[17] == 'i',
        "traffic.accessGroup"@.len() == 19,
        "traffic.accessGroup"@[8] == 'a',
        "traffic.accessGroup"@[14] == 'G',
        "traffic.accessGroup"@[17] == 'u',
{
    reveal_strlit("traffic.speed_limit");
    assert("traffic.speed_limit"@.len() == 19);
    reveal_strlit("traffic.lane_type");
    assert("traffic.lane_type"@.len() == 17);
    reveal_strlit("traffic.lane_kind");
    assert("traffic.lane_kind"@.len() == 17);
    reveal_strlit("traffic.reversible");
    assert("traffic.reversible"@.len() == 18);
    reveal_strlit("traffic.passing_allowed");
    assert("traffic.passing_allowed"@.len() == 23);
    reveal_strlit("traffic.claim_required");
    assert("traffic.claim_required"@.len() == 22);
    reveal_strlit("traffic.waiting_allowed");
    assert("traffic.waiting_allowed"@.len() == 23);
    reveal_strlit("traffic.stop_allowed");
    assert("traffic.stop_allowed"@.len() == 20);
    reveal_strlit("traffic.blocked");
    assert("traffic.blocked"@.len() == 15);
    reveal_strlit("traffic.priority");
    assert("traffic.priority"@.len() == 16);
    reveal_strlit("traffic.capacity");
    assert("traffic.capacity"@.len() == 16);
    reveal_strlit("traffic.max_occupancy");
    assert("traffic.max_occupancy"@.len() == 21);
    reveal_strlit("traffic.clearance_width");
    assert("traffic.clearance_width"@.len() == 23);
    reveal_strlit("traffic.clearance_height");
    assert("traffic.clearance_height"@.len() == 24);
    reveal_strlit("traffic.surface_type");
    assert("traffic.surface_type"@.len() == 20);
    reveal_strlit("traffic.robot_class");
    assert("traffic.robot_class"@.len() == 19);
    reveal_strlit("traffic.allowed_payload");
    assert("traffic.allowed_payload"@.len() == 23);
    reveal_strlit("traffic.cost_bias");
    assert("traffic.cost_bias"@.len() == 17);
    reveal_strlit("traffic.no_stop");
    assert("traffic.no_stop"@.len() == 15);
    reveal_strlit("traffic.preferred_direction");
    assert("traffic.preferred_direction"@.len() == 27);
    reveal_strlit("traffic.direction");
    assert("traffic.direction"@.len() == 17);
    reveal_strlit("traffic.schedule_window");
    assert("traffic.schedule_window"@.len() == 23);
    reveal_strlit("traffic.access_group");
    assert("traffic.access_group"@.len() == 20);
    reveal_strlit("traffic.speedLimit");
    assert("traffic.speedLimit"@.len() == 18);
    reveal_strlit("traffic.laneType");
    assert("traffic.laneType"@.len() == 16);
    reveal_strlit("traffic.laneKind");
    assert("traffic.laneKind"@.len() == 16);
    reveal_strlit("traffic.passingAllowed");
    assert("traffic.passingAllowed"@.len() == 22);
    reveal_strlit("traffic.maxOccupancy");
    assert("traffic.maxOccupancy"@.len() == 20);
    reveal_strlit("traffic.clearanceWidth");
    assert("traffic.clearanceWidth"@.len() == 22);
    reveal_strlit("traffic.clearanceHeight");
    assert("traffic.clearanceHeight"@.len() == 23);
    reveal_strlit("traffic.surfaceType");
    assert("traffic.surfaceType"@.len() == 19);
    reveal_strlit("traffic.robotClass");
    assert("traffic.robotClass"@.len() == 18);
    reveal_strlit("traffic.allowedPayload");
    assert("traffic.allowedPayload"@.len() == 22);
    reveal_strlit("traffic.costBias");
    assert("traffic.costBias"@.len() == 16);
    reveal_strlit("traffic.noStop");
    assert("traffic.noStop"@.len() == 14);
    reveal_strlit("traffic.preferredDirection");
    assert("traffic.preferredDirection"@.len() == 26);
    reveal_strlit("traffic.claimRequired");
    assert("traffic.claimRequired"@.len() == 21);
    reveal_strlit("traffic.waitingAllowed");
    assert("traffic.waitingAllowed"@.len() == 22);
    reveal_strlit("traffic.stopAllowed");
    assert("traffic.stopAllowed"@.len() == 19);
    reveal_strlit("traffic.scheduleWindow");
    assert("traffic.scheduleWindow"@.len() == 22);
    reveal_strlit("traffic.accessGroup");
    assert("traffic.accessGroup"@.len() == 19);
}

/// Each boolean field of an edge is what the last property under its
/// keys that can be read says, and there is none where no property says anything.
pub proof fn lemma_edge_booleans(entries: Seq<PropertyView>, directed: bool, x: bool)
    ensures
        says(entries, spelled("traffic.reversible"@, "traffic.reversible"@), as_bool(), x)
            ==> edge_semantics_of(entries, directed).reversible == Some(x),
        silent(entries, spelled("traffic.reversible"@, "traffic.reversible"@), as_bool())
            ==> edge_semantics_of(entries, directed).reversible is None,
        says(entries, spelled("traffic.passing_allowed"@, "traffic.passingAllowed"@), as_bool(), x)
            ==> edge_semantics_of(entries, directed).passing_allowed == Some(x),
        silent(entries, spelled("traffic.passing_allowed"@, "traffic.passingAllowed"@), as_bool())
            ==> edge_semantics_of(entries, directed).passing_allowed is None,
        says(entries, spelled("traffic.claim_required"@, "traffic.claimRequired"@), as_bool(), x)
            ==> edge_semantics_of(entries, directed).requires_claim == Some(x),
        silent(entries, spelled("traffic.claim_required"@, "traffic.claimRequired"@), as_bool())
            ==> edge_semantics_of(entries, directed).requires_claim is None,
        says(entries, spelled("traffic.waiting_allowed"@, "traffic.waitingAllowed"@), as_bool(), x)
            ==> edge_semantics_of(entries, directed).waiting_allowed == Some(x),
        silent(entries, spelled("traffic.waiting_allowed"@, "traffic.waitingAllowed"@), as_bool())
            ==> edge_semantics_of(entries, directed).waiting_allowed is None,
        says(entries, spelled("traffic.blocked"@, "traffic.blocked"@), as_bool(), x)
            ==> edge_semantics_of(entries, directed).blocked == Some(x),
        silent(entries, spelled("traffic.blocked"@, "traffic.blocked"@), as_bool())
            ==> edge_semantics_of(entries, directed).blocked is None,
        says(entries, spelled("traffic.no_stop"@, "traffic.noStop"@), as_bool(), x)
            ==> edge_semantics_of(entries, directed).no_stop == Some(x),
        silent(entries, spelled("traffic.no_stop"@, "traffic.noStop"@), as_bool())
            ==> edge_semantics_of(entries, directed).no_stop is None,
{
    lemma_edge_keys_differ();
    lemma_edge_field(
        entries,
        directed,
        |s: EdgeTrafficSemanticsView| s.reversible,
        spelled("traffic.reversible"@, "traffic.reversible"@),
        as_bool(),
    );
    lemma_edge_field(
        entries,
        directed,
        |s: EdgeTrafficSemanticsView| s.passing_allowed,
        spelled("traffic.passing_allowed"@, "traffic.passingAllowed"@),
        as_bool(),
    );
    lemma_edge_field(
        entries,
        directed,
        |s: EdgeTrafficSemanticsView| s.requires_claim,
        spelled("traffic.claim_required"@, "traffic.claimRequired"@),
        as_bool(),
    );
    lemma_edge_field(
        entries,
        directed,
        |s: EdgeTrafficSemanticsView| s.waiting_allowed,
        spelled("traffic.waiting_allowed"@, "traffic.waitingAllowed"@),
        as_bool(),
    );
    lemma_edge_field(
        entries,
        directed,
        |s: EdgeTrafficSemanticsView| s.blocked,
        spelled("traffic.blocked"@, "traffic.blocked"@),
        as_bool(),
    );
    lemma_edge_field(
        entries,
        directed,
        |s: EdgeTrafficSemanticsView| s.no_stop,
        spelled("traffic.no_stop"@, "traffic.noStop"@),
        as_bool(),
    );
}

/// Each text field of an edge is what the last property under its
/// keys that can be read says, and there is none where no property says anything.
pub proof fn lemma_edge_texts(entries: Seq<PropertyView>, directed: bool, x: Seq<char>)
    ensures
        says(entries, spelled("traffic.surface_type"@, "traffic.surfaceType"@), as_text(), x)
            ==> edge_semantics_of(entries, directed).surface_type == Some(x),
        silent(entries, spelled("traffic.surface_type"@, "traffic.surfaceType"@), as_text())
            ==> edge_semantics_of(entries, directed).surface_type is None,
        says(entries, spelled("traffic.robot_class"@, "traffic.robotClass"@), as_text(), x)
            ==> edge_semantics_of(entries, directed).robot_class == Some(x),
        silent(entries, spelled("traffic.robot_class"@, "traffic.robotClass"@), as_text())
            ==> edge_semantics_of(entries, directed).robot_class is None,
        says(entries, spelled("traffic.allowed_payload"@, "traffic.allowedPayload"@), as_text(), x)
            ==> edge_semantics_of(entries, directed).allowed_payload == Some(x),
        silent(entries, spelled("traffic.allowed_payload"@, "traffic.allowedPayload"@), as_text())
            ==> edge_semantics_of(entries, directed).allowed_payload is None,
        says(entries, spelled("traffic.schedule_window"@, "traffic.scheduleWindow"@), as_text(), x)
            ==> edge_semantics_of(entries, directed).schedule_window == Some(x),
        silent(entries, spelled("traffic.schedule_window"@, "traffic.scheduleWindow"@), as_text())
            ==> edge_semantics_of(entries, directed).schedule_window is None,
        says(entries, spelled("traffic.access_group"@, "traffic.accessGroup"@), as_text(), x)
            ==> edge_semantics_of(entries, directed).access_group == Some(x),
        silent(entries, spelled("traffic.access_group"@, "traffic.accessGroup"@), as_text())
            ==> edge_semantics_of(entries, directed).access_group is None,
{
    lemma_edge_keys_differ();
    lemma_edge_field(
        entries,
        directed,
        |s: EdgeTrafficSemanticsView| s.surface_type,
        spelled("traffic.surface_type"@, "traffic.surfaceType"@),
        as_text(),
    );
    lemma_edge_field(
        entries,
        directed,
        |s: EdgeTrafficSemanticsView| s.robot_class,
        spelled("traffic.robot_class"@, "traffic.robotClass"@),
        as_text(),
    );
    lemma_edge_field(
        entries,
        directed,
        |s: EdgeTrafficSemanticsView| s.allowed_payload,
        spelled("traffic.allowed_payload"@, "traffic.allowedPayload"@),
        as_text(),
    );
    lemma_edge_field(
        entries,
        directed,
        |s: EdgeTrafficSemanticsView| s.schedule_window,
        spelled("traffic.schedule_window"@, "traffic.scheduleWindow"@),
        as_text(),
    );
    lemma_edge_field(
        entries,
        directed,
        |s: EdgeTrafficSemanticsView| s.access_group,
        spelled("traffic.access_group"@, "traffic.accessGroup"@),
        as_text(),
    );
}

/// Each numeric field of an edge is what the last property under its
/// keys that can be read says, and there is none where no property says anything.
pub proof fn lemma_edge_numbers(entries: Seq<PropertyView>, directed: bool, x: NumberView)
    ensures
        says(entries, spelled("traffic.speed_limit"@, "traffic.speedLimit"@), as_number(), x)
            ==> edge_semantics_of(entries, directed).speed_limit == Some(x),
        silent(entries, spelled("traffic.speed_limit"@, "traffic.speedLimit"@), as_number())
            ==> edge_semantics_of(entries, directed).speed_limit is None,
        says(entries, spelled("traffic.priority"@, "traffic.priority"@), as_number(), x)
            ==> edge_semantics_of(entries, directed).priority == Some(x),
        silent(entries, spelled("traffic.priority"@, "traffic.priority"@), as_number())
            ==> edge_semantics_of(entries, directed).priority is None,
        says(entries, spelled("traffic.clearance_width"@, "traffic.clearanceWidth"@), as_number(), x)
            ==> edge_semantics_of(entries, directed).clearance_width == Some(x),
        silent(entries, spelled("traffic.clearance_width"@, "traffic.clearanceWidth"@), as_number())
            ==> edge_semantics_of(entries, directed).clearance_width is None,
        says(entries, spelled("traffic.clearance_height"@, "traffic.clearanceHeight"@), as_number(), x)
            ==> edge_semantics_of(entries, directed).clearance_height == Some(x),
        silent(entries, spelled("traffic.clearance_height"@, "traffic.clearanceHeight"@), as_number())
            ==> edge_semantics_of(entries, directed).clearance_height is None,
{
    lemma_edge_keys_differ();
    lemma_edge_field(
        entries,
        directed,
        |s: EdgeTrafficSemanticsView| s.speed_limit,
        spelled("traffic.speed_limit"@, "traffic.speedLimit"@),
        as_number(),
    );
    lemma_edge_field(
        entries,
        directed,
        |s: EdgeTrafficSemanticsView| s.priority,
        spelled("traffic.priority"@, "traffic.priority"@),
        as_number(),
    );
    lemma_edge_field(
        entries,
        directed,
        |s: EdgeTrafficSemanticsView| s.clearance_width,
        spelled("traffic.clearance_width"@, "traffic.clearanceWidth"@),
        as_number(),
    );
    lemma_edge_field(
        entries,
        directed,
        |s: EdgeTrafficSemanticsView| s.clearance_height,
        spelled("traffic.clearance_height"@, "traffic.clearanceHeight"@),
        as_number(),
    );
}

/// The bias on the cost of an edge is what the last property under its
/// keys that can be read says, and there is none where no property says anything.
pub proof fn lemma_edge_bias(entries: Seq<PropertyView>, directed: bool, x: Real)
    ensures
        says(entries, spelled("traffic.cost_bias"@, "traffic.costBias"@), as_real(), x)
            ==> edge_semantics_of(entries, directed).cost_bias == Some(x),
        silent(entries, spelled("traffic.cost_bias"@, "traffic.costBias"@), as_real())
            ==> edge_semantics_of(entries, directed).cost_bias is None,
{
    lemma_edge_keys_differ();
    lemma_edge_field(
        entries,
        directed,
        |s: EdgeTrafficSemanticsView| s.cost_bias,
        spelled("traffic.cost_bias"@, "traffic.costBias"@),
        as_real(),
    );
}

proof fn lemma_zone_field<T>(
    entries: Seq<PropertyView>,
    get: spec_fn(ZonePolicyView) -> Option<T>,
    mine: spec_fn(Seq<char>) -> bool,
    read: spec_fn(PropertyView) -> Option<T>,
)
    requires
        forall|s: ZonePolicyView, e: PropertyView|
            get(#[trigger] zone_step(s, e)) == (if mine(e.key) {
                newer(read(e), get(s))
            } else {
                get(s)
            }),
    ensures
        forall|x: T| #[trigger]
            says(entries, mine, read, x) ==> get(zone_steps(entries)) == Some(x),
        silent(entries, mine, read) ==> get(zone_steps(entries)) == get(empty_policy()),
    decreases entries.len(),
{
    if entries.len() > 0 {
        let rest = entries.drop_last();
        let last = entries.last();
        lemma_zone_field(rest, get, mine, read);
        let s = zone_steps(rest);
        assert(zone_steps(entries) == zone_step(s, last));
        assert(entries[entries.len() - 1] == last);
        assert forall|x: T| #[trigger] says(entries, mine, read, x) implies get(
            zone_steps(entries),
        ) == Some(x) by {
            let i = choose|i: int|
                {
                    &&& 0 <= i < entries.len()
                    &&& mine((#[trigger] entries[i]).key)
                    &&& read(entries[i]) == Some(x)
                    &&& forall|j: int|
                        i < j < entries.len() && mine((#[trigger] entries[j]).key) ==> read(
                            entries[j],
                        ) is None
                };
            if i < rest.len() {
                assert(rest[i] == entries[i]);
                assert forall|j: int| i < j < rest.len() && mine(
                    (#[trigger] rest[j]).key,
                ) implies read(rest[j]) is None by {
                    assert(entries[j] == rest[j]);
                }
                assert(says(rest, mine, read, x));
            }
        }
        if silent(entries, mine, read) {
            assert forall|i: int| 0 <= i < rest.len() && mine(
                (#[trigger] rest[i]).key,
            ) implies read(rest[i]) is None by {
                assert(entries[i] == rest[i]);
            }
            assert(silent(rest, mine, read));
        }
    }
}

/// The keys of zones differ in their lengths or in a few letters.
pub(crate) proof fn lemma_zone_keys_differ()
    ensures
        "traffic.policy"@.len() == 14,
        "traffic.policy"@[12] == 'c',
        "traffic.mode"@.len() == 12,
        "traffic.capacity"@.len() == 16,
        "traffic.capacity"@[12] == 'c',
        "traffic.max_occupancy"@.len() == 21,
        "traffic.max_occupancy"@[12] == 'o',
        "traffic.claim_required"@.len() == 22,
        "traffic.claim_required"@[12] == 'm',
        "traffic.blocked"@.len() == 15,
        "traffic.blocked"@[12] == 'k',
        "traffic.blocks_entry_without_grant"@.len() == 34,
        "traffic.blocks_entry_without_grant"@[12] == 'k',
        "traffic.blocks_traversal_without_grant"@.len() == 38,
        "traffic.blocks_traversal_without_grant"@[12] == 'k',
        "traffic.priority"@.len() == 16,
        "traffic.priority"@[12] == 'r',
        "traffic.speed_limit"@.len() == 19,
        "traffic.speed_limit"@[12] == 'd',
        "traffic.waiting_allowed"@.len() == 23,
        "traffic.waiting_allowed"@[12] == 'i',
        "traffic.stop_allowed"@.len() == 20,
        "traffic.stop_allowed"@[12] == '_',
        "traffic.no_stop"@.len() == 15,
        "traffic.no_stop"@[12] == 't',
        "traffic.replan_trigger"@.len() == 22,
        "traffic.replan_trigger"@[12] == 'a',
        "traffic.entry_rule"@.len() == 18,
        "traffic.entry_rule"@[12] == 'y',
        "traffic.exit_rule"@.len() == 17,
        "traffic.exit_rule"@[12] == '_',
        "traffic.robot_class"@.len() == 19,
        "traffic.robot_class"@[12] == 't',
        "traffic.schedule_window"@.len() == 23,
        "traffic.schedule_window"@[12] == 'd',
        "traffic.access_group"@.len() == 20,
        "traffic.access_group"@[12] == 's',
        "traffic.maxOccupancy"@.len() == 20,
        "traffic.maxOccupancy"@[12] == 'c',
        "traffic.claimRequired"@.len() == 21,
        "traffic.claimRequired"@[12] == 'm',
        "traffic.entryRule"@.len() == 17,
        "traffic.entryRule"@[12] == 'y',
        "traffic.exitRule"@.len() == 16,
        "traffic.exitRule"@[12] == 'R',
        "traffic.speedLimit"@.len() == 18,
        "traffic.speedLimit"@[12] == 'd',
        "traffic.waitingAllowed"@.len() == 22,
        "traffic.waitingAllowed"@[12] == 'i',
        "traffic.stopAllowed"@.len() == 19,
        "traffic.stopAllowed"@[12] == 'A',
        "traffic.noStop"@.len() == 14,
        "traffic.noStop"@[12] == 'o',
        "traffic.replanTrigger"@.len() == 21,
        "traffic.replanTrigger"@[12] == 'a',
        "traffic.robotClass"@.len() == 18,
        "traffic.robotClass"@[12] == 't',
        "traffic.scheduleWindow"@.len() == 22,
        "traffic.scheduleWindow"@[12] == 'd',
        "traffic.accessGroup"@.len() == 19,
        "traffic.accessGroup"@[12] == 's',
        "traffic.blocksEntryWithoutGrant"@.len() == 31,
        "traffic.blocksEntryWithoutGrant"@[12] == 'k',
        "traffic.blocksTraversalWithoutGrant"@.len() == 35,
        "traffic.blocksTraversalWithoutGrant"@[12] == 'k',
{
    reveal_strlit("traffic.policy");
    assert("traffic.policy"@.len() == 14);
    reveal_strlit("traffic.mode");
    assert("traffic.mode"@.len() == 12);
    reveal_strlit("traffic.capacity");
    assert("traffic.capacity"@.len() == 16);
    reveal_strlit("traffic.max_occupancy");
    assert("traffic.max_occupancy"@.len() == 21);
    reveal_strlit("traffic.claim_required");
    assert("traffic.claim_required"@.len() == 22);
    reveal_strlit("traffic.blocked");
    assert("traffic.blocked"@.len() == 15);
    reveal_strlit("traffic.blocks_entry_without_grant");
    assert("traffic.blocks_entry_without_grant"@.len() == 34);
    reveal_strlit("traffic.blocks_traversal_without_grant");
    assert("traffic.blocks_traversal_without_grant"@.len() == 38);
    reveal_strlit("traffic.priority");
    assert("traffic.priority"@.len() == 16);
    reveal_strlit("traffic.speed_limit");
    assert("traffic.speed_limit"@.len() == 19);
    reveal_strlit("traffic.waiting_allowed");
    assert("traffic.waiting_allowed"@.len() == 23);
    reveal_strlit("traffic.stop_allowed");
    assert("traffic.stop_allowed"@.len() == 20);
    reveal_strlit("traffic.no_stop");
    assert("traffic.no_stop"@.len() == 15);
    reveal_strlit("traffic.replan_trigger");
    assert("traffic.replan_trigger"@.len() == 22);
    reveal_strlit("traffic.entry_rule");
    assert("traffic.entry_rule"@.len() == 18);
    reveal_strlit("traffic.exit_rule");
    assert("traffic.exit_rule"@.len() == 17);
    reveal_strlit("traffic.robot_class");
    assert("traffic.robot_class"@.len() == 19);
    reveal_strlit("traffic.schedule_window");
    assert("traffic.schedule_window"@.len() == 23);
    reveal_strlit("traffic.access_group");
    assert("traffic.access_group"@.len() == 20);
    reveal_strlit("traffic.maxOccupancy");
    assert("traffic.maxOccupancy"@.len() == 20);
    reveal_strlit("traffic.claimRequired");
    assert("traffic.claimRequired"@.len() == 21);
    reveal_strlit("traffic.entryRule");
    assert("traffic.entryRule"@.len() == 17);
    reveal_strlit("traffic.exitRule");
    assert("traffic.exitRule"@.len() == 16);
    reveal_strlit("traffic.speedLimit");
    assert("traffic.speedLimit"@.len() == 18);
    reveal_strlit("traffic.waitingAllowed");
    assert("traffic.waitingAllowed"@.len() == 22);
    reveal_strlit("traffic.stopAllowed");
    assert("traffic.stopAllowed"@.len() == 19);
    reveal_strlit("traffic.noStop");
    assert("traffic.noStop"@.len() == 14);
    reveal_strlit("traffic.replanTrigger");
    assert("traffic.replanTrigger"@.len() == 21);
    reveal_strlit("traffic.robotClass");
    assert("traffic.robotClass"@.len() == 18);
    reveal_strlit("traffic.scheduleWindow");
    assert("traffic.scheduleWindow"@.len() == 22);
    reveal_strlit("traffic.accessGroup");
    assert("traffic.accessGroup"@.len() == 19);
    reveal_strlit("traffic.blocksEntryWithoutGrant");
    assert("traffic.blocksEntryWithoutGrant"@.len() == 31);
    reveal_strlit("traffic.blocksTraversalWithoutGrant");
    assert("traffic.blocksTraversalWithoutGrant"@.len() == 35);
}

/// Each boolean field of a zone is what the last property under its
/// keys that can be read says, and there is none where no property says anything.
pub proof fn lemma_zone_booleans(entries: Seq<PropertyView>, x: bool)
    ensures
        says(entries, spelled("traffic.waiting_allowed"@, "traffic.waitingAllowed"@), as_bool(), x)
            ==> zone_policy_of(entries).waiting_allowed == Some(x),
        silent(entries, spelled("traffic.waiting_allowed"@, "traffic.waitingAllowed"@), as_bool())
            ==> zone_policy_of(entries).waiting_allowed is None,
        says(entries, spelled("traffic.blocked"@, "traffic.blocked"@), as_bool(), x)
            ==> zone_policy_of(entries).blocked == Some(x),
        silent(entries, spelled("traffic.blocked"@, "traffic.blocked"@), as_bool())
            ==> zone_policy_of(entries).blocked is None,
        says(entries, spelled("traffic.replan_trigger"@, "traffic.replanTrigger"@), as_bool(), x)
            ==> zone_policy_of(entries).replan_trigger == Some(x),
        silent(entries, spelled("traffic.replan_trigger"@, "traffic.replanTrigger"@), as_bool())
            ==> zone_policy_of(entries).replan_trigger is None,
{
    lemma_zone_keys_differ();
    lemma_zone_field(
        entries,
        |s: ZonePolicyView| s.waiting_allowed,
        spelled("traffic.waiting_allowed"@, "traffic.waitingAllowed"@),
        as_bool(),
    );
    lemma_zone_field(
        entries,
        |s: ZonePolicyView| s.blocked,
        spelled("traffic.blocked"@, "traffic.blocked"@),
        as_bool(),
    );
    lemma_zone_field(
        entries,
        |s: ZonePolicyView| s.replan_trigger,
        spelled("traffic.replan_trigger"@, "traffic.replanTrigger"@),
        as_bool(),
    );
}

/// Each text field of a zone is what the last property under its
/// keys that can be read says, and there is none where no property says anything.
pub proof fn lemma_zone_texts(entries: Seq<PropertyView>, x: Seq<char>)
    ensures
        says(entries, spelled("traffic.entry_rule"@, "traffic.entryRule"@), as_text(), x)
            ==> zone_policy_of(entries).entry_rule == Some(x),
        silent(entries, spelled("traffic.entry_rule"@, "traffic.entryRule"@), as_text())
            ==> zone_policy_of(entries).entry_rule is None,
        says(entries, spelled("traffic.exit_rule"@, "traffic.exitRule"@), as_text(), x)
            ==> zone_policy_of(entries).exit_rule == Some(x),
        silent(entries, spelled("traffic.exit_rule"@, "traffic.exitRule"@), as_text())
            ==> zone_policy_of(entries).exit_rule is None,
        says(entries, spelled("traffic.robot_class"@, "traffic.robotClass"@), as_text(), x)
            ==> zone_policy_of(entries).robot_class == Some(x),
        silent(entries, spelled("traffic.robot_class"@, "traffic.robotClass"@), as_text())
            ==> zone_policy_of(entries).robot_class is None,
        says(entries, spelled("traffic.schedule_window"@, "traffic.scheduleWindow"@), as_text(), x)
            ==> zone_policy_of(entries).schedule_window == Some(x),
        silent(entries, spelled("traffic.schedule_window"@, "traffic.scheduleWindow"@), as_text())
            ==> zone_policy_of(entries).schedule_window is None,
        says(entries, spelled("traffic.access_group"@, "traffic.accessGroup"@), as_text(), x)
            ==> zone_policy_of(entries).access_group == Some(x),
        silent(entries, spelled("traffic.access_group"@, "traffic.accessGroup"@), as_text())
            ==> zone_policy_of(entries).access_group is None,
{
    lemma_zone_keys_differ();
    lemma_zone_field(
        entries,
        |s: ZonePolicyView| s.entry_rule,
        spelled("traffic.entry_rule"@, "traffic.entryRule"@),
        as_text(),
    );
    lemma_zone_field(
        entries,
        |s: ZonePolicyView| s.exit_rule,
        spelled("traffic.exit_rule"@, "traffic.exitRule"@),
        as_text(),
    );
    lemma_zone_field(
        entries,
        |s: ZonePolicyView| s.robot_class,
        spelled("traffic.robot_class"@, "traffic.robotClass"@),
        as_text(),
    );
    lemma_zone_field(
        entries,
        |s: ZonePolicyView| s.schedule_window,
        spelled("traffic.schedule_window"@, "traffic.scheduleWindow"@),
        as_text(),
    );
    lemma_zone_field(
        entries,
        |s: ZonePolicyView| s.access_group,
        spelled("traffic.access_group"@, "traffic.accessGroup"@),
        as_text(),
    );
}

/// Each numeric field of a zone is what the last property under its
/// keys that can be read says, and there is none where no property says anything.
pub proof fn lemma_zone_numbers(entries: Seq<PropertyView>, x: NumberView)
    ensures
        says(entries, spelled("traffic.speed_limit"@, "traffic.speedLimit"@), as_number(), x)
            ==> zone_policy_of(entries).speed_limit == Some(x),
        silent(entries, spelled("traffic.speed_limit"@, "traffic.speedLimit"@), as_number())
            ==> zone_policy_of(entries).speed_limit is None,
        says(entries, spelled("traffic.priority"@, "traffic.priority"@), as_number(), x)
            ==> zone_policy_of(entries).priority == Some(x),
        silent(entries, spelled("traffic.priority"@, "traffic.priority"@), as_number())
            ==> zone_policy_of(entries).priority is None,
{
    lemma_zone_keys_differ();
    lemma_zone_field(
        entries,
        |s: ZonePolicyView| s.speed_limit,
        spelled("traffic.speed_limit"@, "traffic.speedLimit"@),
        as_number(),
    );
    lemma_zone_field(
        entries,
        |s: ZonePolicyView| s.priority,
        spelled("traffic.priority"@, "traffic.priority"@),
        as_number(),
    );
}

// ---------------------------------------------------------------------------
// what is read from more than one key
// ---------------------------------------------------------------------------

/// The keys under which a capacity is stated.
pub open spec fn capacity_keys() -> spec_fn(Seq<char>) -> bool {
    |k: Seq<char>|
        k == "traffic.capacity"@ || k == "traffic.max_occupancy"@ || k == "traffic.maxOccupancy"@
}

/// The keys under which it is stated whether stopping is allowed.
pub open spec fn stop_keys() -> spec_fn(Seq<char>) -> bool {
    |k: Seq<char>|
        k == "traffic.stop_allowed"@ || k == "traffic.stopAllowed"@ || k == "traffic.no_stop"@ || k
            == "traffic.noStop"@
}

/// Reading whether stopping is allowed: it is not where it is excluded.
pub open spec fn as_stop() -> spec_fn(PropertyView) -> Option<bool> {
    |e: PropertyView|
        if e.key == "traffic.no_stop"@ || e.key == "traffic.noStop"@ {
            match bool_of(e.value) {
                Some(b) => Some(!b),
                None => None,
            }
        } else {
            bool_of(e.value)
        }
}

/// The keys under which the kind of a lane is stated.
pub open spec fn lane_keys() -> spec_fn(Seq<char>) -> bool {
    |k: Seq<char>|
        k == "traffic.lane_type"@ || k == "traffic.laneType"@ || k == "traffic.lane_kind"@ || k
            == "traffic.laneKind"@
}

/// The keys under which the direction of an edge is stated.
pub open spec fn direction_keys() -> spec_fn(Seq<char>) -> bool {
    |k: Seq<char>|
        k == "traffic.preferred_direction"@ || k == "traffic.preferredDirection"@ || k
            == "traffic.direction"@
}

/// The capacity of an edge is what the last of its properties that states a
/// number says, and it is known whether one does.
pub proof fn lemma_edge_capacity(entries: Seq<PropertyView>, directed: bool, n: u64)
    ensures
        says(entries, capacity_keys(), as_count(), n) ==> edge_semantics_of(
            entries,
            directed,
        ).capacity == Some(n) && edge_semantics_of(entries, directed).capacity_is_explicit,
        silent(entries, capacity_keys(), as_count()) ==> edge_semantics_of(
            entries,
            directed,
        ).capacity is None && !edge_semantics_of(entries, directed).capacity_is_explicit,
{
    lemma_edge_keys_differ();
    lemma_edge_field(
        entries,
        directed,
        |s: EdgeTrafficSemanticsView| s.capacity,
        capacity_keys(),
        as_count(),
    );
    let stated = |e: PropertyView|
        match unsigned_of(e.value) {
            Some(m) => Some(true),
            None => None::<bool>,
        };
    lemma_edge_field(
        entries,
        directed,
        |s: EdgeTrafficSemanticsView| Some(s.capacity_is_explicit),
        capacity_keys(),
        stated,
    );
    if says(entries, capacity_keys(), as_count(), n) {
        let i = choose|i: int|
            {
                &&& 0 <= i < entries.len()
                &&& capacity_keys()((#[trigger] entries[i]).key)
                &&& as_count()(entries[i]) == Some(n)
                &&& forall|j: int|
                    i < j < entries.len() && capacity_keys()((#[trigger] entries[j]).key)
                        ==> as_count()(entries[j]) is None
            };
        assert(stated(entries[i]) == Some(true));
        assert forall|j: int|
            i < j < entries.len() && capacity_keys()((#[trigger] entries[j]).key) implies stated(
            entries[j],
        ) is None by {
            assert(as_count()(entries[j]) is None);
        }
        assert(says(entries, capacity_keys(), stated, true));
    }
    if silent(entries, capacity_keys(), as_count()) {
        assert forall|j: int|
            0 <= j < entries.len() && capacity_keys()((#[trigger] entries[j]).key) implies stated(
            entries[j],
        ) is None by {
            assert(as_count()(entries[j]) is None);
        }
        assert(silent(entries, capacity_keys(), stated));
    }
}

/// The lane type and the direction of an edge are what the last of its properties
/// that states one says, in lower case.
pub proof fn lemma_edge_lane_and_direction(
    entries: Seq<PropertyView>,
    directed: bool,
    x: Seq<char>,
)
    ensures
        says(entries, lane_keys(), as_lower(), x) ==> edge_semantics_of(
            entries,
            directed,
        ).lane_type == Some(x),
        silent(entries, lane_keys(), as_lower()) ==> edge_semantics_of(
            entries,
            directed,
        ).lane_type is None,
        says(entries, direction_keys(), as_lower(), x) ==> edge_semantics_of(
            entries,
            directed,
        ).preferred_direction == Some(x),
        silent(entries, direction_keys(), as_lower()) ==> edge_semantics_of(
            entries,
            directed,
        ).preferred_direction is None,
{
    lemma_edge_keys_differ();
    lemma_edge_field(
        entries,
        directed,
        |s: EdgeTrafficSemanticsView| s.lane_type,
        lane_keys(),
        as_lower(),
    );
    lemma_edge_field(
        entries,
        directed,
        |s: EdgeTrafficSemanticsView| s.preferred_direction,
        direction_keys(),
        as_lower(),
    );
}

/// Stopping on an edge is not allowed where it is excluded, and otherwise as the
/// last property that states whether it is allowed says.
pub proof fn lemma_edge_stop(entries: Seq<PropertyView>, directed: bool, x: bool)
    ensures
        ({
            let s = edge_semantics_of(entries, directed);
            let mine = spelled("traffic.stop_allowed"@, "traffic.stopAllowed"@);
            &&& s.no_stop == Some(true) ==> s.stop_allowed == Some(false)
            &&& s.no_stop != Some(true) && says(entries, mine, as_bool(), x) ==> s.stop_allowed
                == Some(x)
            &&& s.no_stop != Some(true) && silent(entries, mine, as_bool()) ==> s.stop_allowed
                is None
        }),
{
    lemma_edge_keys_differ();
    lemma_edge_field(
        entries,
        directed,
        |s: EdgeTrafficSemanticsView| s.stop_allowed,
        spelled("traffic.stop_allowed"@, "traffic.stopAllowed"@),
        as_bool(),
    );
}

/// Whether an edge is directed is not read from its properties, and the
/// properties are kept.
pub proof fn lemma_edge_keeps_properties(entries: Seq<PropertyView>, directed: bool)
    ensures
        edge_semantics_of(entries, directed).directed == directed,
        edge_semantics_of(entries, directed).properties == entries,
    decreases entries.len(),
{
    if entries.len() > 0 {
        lemma_edge_keeps_properties(entries.drop_last(), directed);
    }
}

/// The capacity of a zone is what the last of its properties that states at least
/// one says. Where none does it is one, and does not count as stated.
pub proof fn lemma_zone_capacity(entries: Seq<PropertyView>, n: u64)
    ensures
        says(entries, capacity_keys(), as_some_count(), n) ==> zone_policy_of(entries).capacity
            == n && zone_policy_of(entries).capacity_is_explicit,
        silent(entries, capacity_keys(), as_some_count()) ==> zone_policy_of(entries).capacity == 1
            && !zone_policy_of(entries).capacity_is_explicit,
{
    lemma_zone_keys_differ();
    lemma_zone_field(
        entries,
        |p: ZonePolicyView| Some(p.capacity),
        capacity_keys(),
        as_some_count(),
    );
    lemma_zone_field(
        entries,
        |p: ZonePolicyView|
            if p.capacity_is_explicit {
                Some(p.capacity)
            } else {
                None
            },
        capacity_keys(),
        as_some_count(),
    );
}

/// A zone requires a claim where the last property that can be read says so, and
/// not where none says anything.
pub proof fn lemma_zone_claim(entries: Seq<PropertyView>, x: bool)
    ensures
        ({
            let mine = spelled("traffic.claim_required"@, "traffic.claimRequired"@);
            &&& says(entries, mine, as_bool(), x) ==> zone_policy_of(entries).requires_claim == x
            &&& silent(entries, mine, as_bool()) ==> !zone_policy_of(entries).requires_claim
        }),
{
    lemma_zone_keys_differ();
    lemma_zone_field(
        entries,
        |p: ZonePolicyView| Some(p.requires_claim),
        spelled("traffic.claim_required"@, "traffic.claimRequired"@),
        as_bool(),
    );
}

/// Whether stopping is allowed in a zone is what the last property says that
/// allows it, forbids it or excludes it.
pub proof fn lemma_zone_stop(entries: Seq<PropertyView>, x: bool)
    ensures
        says(entries, stop_keys(), as_stop(), x) ==> zone_policy_of(entries).stop_allowed == Some(
            x,
        ),
        silent(entries, stop_keys(), as_stop()) ==> zone_policy_of(entries).stop_allowed is None,
{
    lemma_zone_keys_differ();
    lemma_zone_field(entries, |p: ZonePolicyView| p.stop_allowed, stop_keys(), as_stop());
}

/// The keys under which it is stated whether a zone may be entered without a
/// grant.
pub open spec fn entry_keys() -> spec_fn(Seq<char>) -> bool {
    |k: Seq<char>|
        k == "traffic.claim_required"@ || k == "traffic.claimRequired"@ || k
            == "traffic.blocks_entry_without_grant"@ || k == "traffic.blocksEntryWithoutGrant"@ || k
            == "traffic.blocked"@
}

/// The keys under which it is stated whether a zone may be crossed without a
/// grant.
pub open spec fn crossing_keys() -> spec_fn(Seq<char>) -> bool {
    |k: Seq<char>|
        k == "traffic.blocks_traversal_without_grant"@ || k
            == "traffic.blocksTraversalWithoutGrant"@ || k == "traffic.blocked"@
}

/// Reading whether a grant is needed. That a zone is not blocked says nothing of
/// that.
pub open spec fn as_barrier() -> spec_fn(PropertyView) -> Option<bool> {
    |e: PropertyView|
        if e.key == "traffic.blocked"@ && bool_of(e.value) == Some(false) {
            None
        } else {
            bool_of(e.value)
        }
}

/// A blocked zone must be neither entered nor crossed without a grant. Of any
/// other the last property that says anything about it decides, and where none
/// does no grant is needed.
pub proof fn lemma_zone_barriers(entries: Seq<PropertyView>, x: bool)
    ensures
        ({
            let p = zone_policy_of(entries);
            &&& p.blocked == Some(true) ==> p.blocks_entry_without_grant
                && p.blocks_traversal_without_grant
            &&& p.blocked != Some(true) && says(entries, entry_keys(), as_barrier(), x)
                ==> p.blocks_entry_without_grant == x
            &&& p.blocked != Some(true) && silent(entries, entry_keys(), as_barrier())
                ==> !p.blocks_entry_without_grant
            &&& p.blocked != Some(true) && says(entries, crossing_keys(), as_barrier(), x)
                ==> p.blocks_traversal_without_grant == x
            &&& p.blocked != Some(true) && silent(entries, crossing_keys(), as_barrier())
                ==> !p.blocks_traversal_without_grant
        }),
{
    lemma_zone_keys_differ();
    lemma_zone_field(
        entries,
        |p: ZonePolicyView| Some(p.blocks_entry_without_grant),
        entry_keys(),
        as_barrier(),
    );
    lemma_zone_field(
        entries,
        |p: ZonePolicyView| Some(p.blocks_traversal_without_grant),
        crossing_keys(),
        as_barrier(),
    );
}

/// A blocked zone is restricted. One that is not, and that triggers replanning, is
/// for that. One on which stopping is not allowed is for that, unless it is
/// restricted.
pub proof fn lemma_zone_kind_settles(entries: Seq<PropertyView>)
    ensures
        ({
            let p = zone_policy_of(entries);
            &&& p.blocked == Some(true) ==> p.kind == ZonePolicyKind::Restricted
            &&& p.blocked != Some(true) && p.replan_trigger == Some(true) ==> p.kind
                == ZonePolicyKind::Replanning
            &&& p.blocked != Some(true) && p.replan_trigger != Some(true) && p.stop_allowed == Some(
                false,
            ) ==> p.kind == ZonePolicyKind::NoStop || p.kind == ZonePolicyKind::Restricted
            &&& p.properties == entries
        }),
{
}

/// Whether no property says anything of the kind of a zone but by naming it or by
/// its capacity.
pub open spec fn kind_is_plain(entries: Seq<PropertyView>) -> bool {
    forall|i: int|
        0 <= i < entries.len() ==> {
            let k = (#[trigger] entries[i]).key;
            k != "traffic.blocked"@ && k != "traffic.no_stop"@ && k != "traffic.noStop"@ && k
                != "traffic.replan_trigger"@ && k != "traffic.replanTrigger"@ && k
                != "traffic.stop_allowed"@ && k != "traffic.stopAllowed"@
        }
}

/// Whether properties name the kind of a zone.
pub open spec fn names_kind(e: PropertyView) -> bool {
    e.key == "traffic.policy"@ || e.key == "traffic.mode"@
}

/// Whether properties state a capacity of more than one.
pub open spec fn makes_room(e: PropertyView) -> bool {
    capacity_keys()(e.key) && (unsigned_of(e.value) matches Some(n) && n > 1)
}

proof fn lemma_plain_kind(entries: Seq<PropertyView>)
    requires
        kind_is_plain(entries),
    ensures
        ({
            let p = zone_steps(entries);
            let named = exists|i: int| 0 <= i < entries.len() && names_kind(#[trigger] entries[i]);
            let roomy = exists|i: int| 0 <= i < entries.len() && makes_room(#[trigger] entries[i]);
            &&& p.blocked is None && p.replan_trigger is None && p.stop_allowed is None
            &&& !named ==> p.kind == (if roomy {
                ZonePolicyKind::CapacityLimited
            } else {
                ZonePolicyKind::Informational
            })
            &&& forall|i: int|
                0 <= i < entries.len() && names_kind(#[trigger] entries[i]) && (forall|j: int|
                    i < j < entries.len() ==> !names_kind(#[trigger] entries[j])) && kind_of(
                    entries[i].value,
                ) != ZonePolicyKind::Informational ==> p.kind == kind_of(entries[i].value)
        }),
    decreases entries.len(),
{
    if entries.len() > 0 {
        let rest = entries.drop_last();
        let last = entries.last();
        assert forall|i: int| 0 <= i < rest.len() implies #[trigger] rest[i] == entries[i] by {}
        assert forall|i: int| 0 <= i < rest.len() implies {
            let k = (#[trigger] rest[i]).key;
            k != "traffic.blocked"@ && k != "traffic.no_stop"@ && k != "traffic.noStop"@ && k
                != "traffic.replan_trigger"@ && k != "traffic.replanTrigger"@ && k
                != "traffic.stop_allowed"@ && k != "traffic.stopAllowed"@
        } by {
            assert(entries[i] == rest[i]);
        }
        lemma_plain_kind(rest);
        lemma_zone_keys_differ();
        let n = entries.len() - 1;
        assert(entries[n] == last);
        let q = zone_steps(rest);
        let p = zone_steps(entries);
        assert(p == zone_step(q, last));
        let named = exists|i: int| 0 <= i < entries.len() && names_kind(#[trigger] entries[i]);
        let roomy = exists|i: int| 0 <= i < entries.len() && makes_room(#[trigger] entries[i]);
        if !named {
            assert(!names_kind(entries[n]));
            assert forall|i: int| 0 <= i < rest.len() implies !names_kind(#[trigger] rest[i]) by {
                assert(!names_kind(entries[i]));
            }
            if roomy {
                let i = choose|i: int| 0 <= i < entries.len() && makes_room(#[trigger] entries[i]);
                if i < n {
                    assert(makes_room(rest[i]));
                }
            } else {
                assert(!makes_room(entries[n]));
                assert forall|i: int| 0 <= i < rest.len() implies !makes_room(
                    #[trigger] rest[i],
                ) by {
                    assert(!makes_room(entries[i]));
                }
            }
        }
        assert forall|i: int|
            0 <= i < entries.len() && names_kind(#[trigger] entries[i]) && (forall|j: int|
                i < j < entries.len() ==> !names_kind(#[trigger] entries[j])) && kind_of(
                entries[i].value,
            ) != ZonePolicyKind::Informational implies p.kind == kind_of(entries[i].value) by {
            if i < n {
                assert(!names_kind(entries[n]));
                assert(names_kind(rest[i]));
                assert forall|j: int| i < j < rest.len() implies !names_kind(
                    #[trigger] rest[j],
                ) by {
                    assert(!names_kind(entries[j]));
                }
            }
        }
    }
}

/// Where nothing else says anything of the kind of a zone, the last property that
/// names a kind decides, if it does not name the one for zones that only inform.
/// Where none names one, room for more than one makes the zone limited, and a
/// zone that states no such room only informs.
pub proof fn lemma_zone_kind_is_as_named(entries: Seq<PropertyView>, i: int)
    requires
        kind_is_plain(entries),
    ensures
        0 <= i < entries.len() && names_kind(entries[i]) && kind_of(entries[i].value)
            != ZonePolicyKind::Informational && (forall|j: int|
            i < j < entries.len() ==> !names_kind(#[trigger] entries[j])) ==> zone_policy_of(
            entries,
        ).kind == kind_of(entries[i].value),
        (forall|j: int| 0 <= j < entries.len() ==> !names_kind(#[trigger] entries[j]))
            && 0 <= i < entries.len() && makes_room(entries[i]) ==> zone_policy_of(entries).kind
            == ZonePolicyKind::CapacityLimited,
        (forall|j: int|
            0 <= j < entries.len() ==> !names_kind(#[trigger] entries[j]) && !makes_room(
                entries[j],
            )) ==> zone_policy_of(entries).kind == ZonePolicyKind::Informational,
{
    lemma_plain_kind(entries);
}

} // verus!
