//! What holds of reading and checking policies together.

use super::keywords::{bool_of, canonical_zone_key, unsigned_of, zone_traffic_key};
use super::parse::{zone_policy_of, zone_steps};
use super::validate::{
    capacity_key, in_order, issues_in_order, lemma_in_order, stop_conflict, zone_boolean_key,
    zone_issue, zone_property_issues, zone_text_key, zone_traffic_issues,
};
use super::TrafficParseIssueView;
use crate::properties::{keys_ascend, value_at, PropertyView};
use crate::text::{begins_with, lemma_text_order_is_total};
use vstd::prelude::*;

verus! {

/// Whether something is found about a key.
pub open spec fn found_about(issues: Seq<TrafficParseIssueView>, key: Seq<char>) -> bool {
    exists|i: int| 0 <= i < issues.len() && (#[trigger] issues[i]).key == key
}

/// The keys under which single findings are made begin alike.
proof fn lemma_canonical_keys_begin(k: Seq<char>)
    ensures
        k == "traffic.policy"@ || k == "traffic.mode"@ || k == "traffic.priority"@ || k
            == "traffic.speed_limit"@ || capacity_key(k) || zone_boolean_key(k) || zone_text_key(k)
            ==> begins_with(k, "traffic."@),
{
    reveal_strlit("traffic.");
    reveal_strlit("traffic.policy");
    reveal_strlit("traffic.mode");
    reveal_strlit("traffic.priority");
    reveal_strlit("traffic.speed_limit");
    reveal_strlit("traffic.capacity");
    reveal_strlit("traffic.max_occupancy");
    reveal_strlit("traffic.claim_required");
    reveal_strlit("traffic.waiting_allowed");
    reveal_strlit("traffic.stop_allowed");
    reveal_strlit("traffic.blocked");
    reveal_strlit("traffic.replan_trigger");
    reveal_strlit("traffic.no_stop");
    reveal_strlit("traffic.blocks_entry_without_grant");
    reveal_strlit("traffic.blocks_traversal_without_grant");
    reveal_strlit("traffic.entry_rule");
    reveal_strlit("traffic.exit_rule");
    reveal_strlit("traffic.robot_class");
    reveal_strlit("traffic.schedule_window");
    reveal_strlit("traffic.access_group");
    if k.len() >= 8 {
        assert(k.take(8) =~= "traffic."@ <==> (forall|i: int|
            0 <= i < 8 ==> k[i] == "traffic."@[i]));
    }
}

/// A key that is spelled in two ways begins as its other spelling does.
proof fn lemma_spellings_begin(key: Seq<char>)
    ensures
        canonical_zone_key(key) != key ==> begins_with(key, "traffic."@),
{
    reveal_strlit("traffic.");
    reveal_strlit("traffic.maxOccupancy");
    reveal_strlit("traffic.claimRequired");
    reveal_strlit("traffic.entryRule");
    reveal_strlit("traffic.exitRule");
    reveal_strlit("traffic.speedLimit");
    reveal_strlit("traffic.waitingAllowed");
    reveal_strlit("traffic.stopAllowed");
    reveal_strlit("traffic.noStop");
    reveal_strlit("traffic.replanTrigger");
    reveal_strlit("traffic.robotClass");
    reveal_strlit("traffic.scheduleWindow");
    reveal_strlit("traffic.accessGroup");
    reveal_strlit("traffic.blocksEntryWithoutGrant");
    reveal_strlit("traffic.blocksTraversalWithoutGrant");
    if key.len() >= 8 {
        assert(key.take(8) =~= "traffic."@ <==> (forall|i: int|
            0 <= i < 8 ==> key[i] == "traffic."@[i]));
    }
}

proof fn lemma_zone_issue_begins(e: PropertyView)
    ensures
        zone_issue(e) matches Some(i) ==> i.key == e.key && begins_with(i.key, "traffic."@),
{
    lemma_canonical_keys_begin(canonical_zone_key(e.key));
    lemma_spellings_begin(e.key);
}

/// Only the key itself is read as that a zone is blocked.
proof fn lemma_blocked_key(key: Seq<char>)
    ensures
        canonical_zone_key(key) == "traffic.blocked"@ <==> key == "traffic.blocked"@,
        zone_traffic_key("traffic.blocked"@),
        zone_boolean_key("traffic.blocked"@),
        !capacity_key("traffic.blocked"@),
        "traffic.blocked"@ != "traffic.policy"@,
        "traffic.blocked"@ != "traffic.mode"@,
        "traffic.blocked"@ != "traffic.priority"@,
        "traffic.blocked"@ != "traffic.speed_limit"@,
        "traffic.blocked"@ != "traffic.claim_required"@,
        "traffic.blocked"@ != "traffic.stop_allowed"@,
{
    let k = "traffic.blocked"@;
    reveal_strlit("traffic.blocked");
    assert(k.len() == 15);
    reveal_strlit("traffic.policy");
    assert("traffic.policy"@.len() == 14);
    reveal_strlit("traffic.mode");
    assert("traffic.mode"@.len() == 12);
    reveal_strlit("traffic.priority");
    assert("traffic.priority"@.len() == 16);
    reveal_strlit("traffic.capacity");
    assert("traffic.capacity"@.len() == 16);
    reveal_strlit("traffic.max_occupancy");
    assert("traffic.max_occupancy"@.len() == 21);
    reveal_strlit("traffic.claim_required");
    assert("traffic.claim_required"@.len() == 22);
    reveal_strlit("traffic.entry_rule");
    assert("traffic.entry_rule"@.len() == 18);
    reveal_strlit("traffic.exit_rule");
    assert("traffic.exit_rule"@.len() == 17);
    reveal_strlit("traffic.speed_limit");
    assert("traffic.speed_limit"@.len() == 19);
    reveal_strlit("traffic.waiting_allowed");
    assert("traffic.waiting_allowed"@.len() == 23);
    reveal_strlit("traffic.stop_allowed");
    assert("traffic.stop_allowed"@.len() == 20);
    reveal_strlit("traffic.no_stop");
    assert("traffic.no_stop"@[8] != k[8]);
    reveal_strlit("traffic.replan_trigger");
    assert("traffic.replan_trigger"@.len() == 22);
    reveal_strlit("traffic.robot_class");
    assert("traffic.robot_class"@.len() == 19);
    reveal_strlit("traffic.schedule_window");
    assert("traffic.schedule_window"@.len() == 23);
    reveal_strlit("traffic.access_group");
    assert("traffic.access_group"@.len() == 20);
    reveal_strlit("traffic.blocks_entry_without_grant");
    assert("traffic.blocks_entry_without_grant"@.len() == 34);
    reveal_strlit("traffic.blocks_traversal_without_grant");
    assert("traffic.blocks_traversal_without_grant"@.len() == 38);
    reveal_strlit("traffic.maxOccupancy");
    assert("traffic.maxOccupancy"@.len() == 20);
    reveal_strlit("traffic.claimRequired");
    assert("traffic.claimRequired"@.len() == 21);
    reveal_strlit("traffic.entryRule");
    assert("traffic.entryRule"@.len() == 17);
    reveal_strlit("traffic.exitRule");
    assert("traffic.exitRule"@.len() == 16);
    reveal_strlit("traffic.speedLimit");
    assert("traffic.speedLimit"@.len() == 18);
    reveal_strlit("traffic.waitingAllowed");
    assert("traffic.waitingAllowed"@.len() == 22);
    reveal_strlit("traffic.stopAllowed");
    assert("traffic.stopAllowed"@.len() == 19);
    reveal_strlit("traffic.noStop");
    assert("traffic.noStop"@.len() == 14);
    reveal_strlit("traffic.replanTrigger");
    assert("traffic.replanTrigger"@.len() == 21);
    reveal_strlit("traffic.robotClass");
    assert("traffic.robotClass"@.len() == 18);
    reveal_strlit("traffic.scheduleWindow");
    assert("traffic.scheduleWindow"@.len() == 22);
    reveal_strlit("traffic.accessGroup");
    assert("traffic.accessGroup"@.len() == 19);
    reveal_strlit("traffic.blocksEntryWithoutGrant");
    assert("traffic.blocksEntryWithoutGrant"@.len() == 31);
    reveal_strlit("traffic.blocksTraversalWithoutGrant");
    assert("traffic.blocksTraversalWithoutGrant"@.len() == 35);
}

/// The key of a capacity is spelled in one way.
proof fn lemma_capacity_is_canonical()
    ensures
        canonical_zone_key("traffic.capacity"@) == "traffic.capacity"@,
        zone_traffic_key("traffic.capacity"@),
        "traffic.capacity"@ != "traffic.policy"@,
        "traffic.capacity"@ != "traffic.mode"@,
        "traffic.capacity"@ != "traffic.stop_allowed"@,
{
    let k = "traffic.capacity"@;
    reveal_strlit("traffic.capacity");
    assert(k.len() == 16);
    reveal_strlit("traffic.policy");
    assert("traffic.policy"@.len() == 14);
    reveal_strlit("traffic.mode");
    assert("traffic.mode"@.len() == 12);
    reveal_strlit("traffic.stop_allowed");
    assert("traffic.stop_allowed"@.len() == 20);
    reveal_strlit("traffic.maxOccupancy");
    assert("traffic.maxOccupancy"@.len() == 20);
    reveal_strlit("traffic.claimRequired");
    assert("traffic.claimRequired"@.len() == 21);
    reveal_strlit("traffic.entryRule");
    assert("traffic.entryRule"@.len() == 17);
    reveal_strlit("traffic.exitRule");
    assert("traffic.exitRule"@[8] != k[8]);
    reveal_strlit("traffic.speedLimit");
    assert("traffic.speedLimit"@.len() == 18);
    reveal_strlit("traffic.waitingAllowed");
    assert("traffic.waitingAllowed"@.len() == 22);
    reveal_strlit("traffic.stopAllowed");
    assert("traffic.stopAllowed"@.len() == 19);
    reveal_strlit("traffic.noStop");
    assert("traffic.noStop"@.len() == 14);
    reveal_strlit("traffic.replanTrigger");
    assert("traffic.replanTrigger"@.len() == 21);
    reveal_strlit("traffic.robotClass");
    assert("traffic.robotClass"@.len() == 18);
    reveal_strlit("traffic.scheduleWindow");
    assert("traffic.scheduleWindow"@.len() == 22);
    reveal_strlit("traffic.accessGroup");
    assert("traffic.accessGroup"@.len() == 19);
    reveal_strlit("traffic.blocksEntryWithoutGrant");
    assert("traffic.blocksEntryWithoutGrant"@.len() == 31);
    reveal_strlit("traffic.blocksTraversalWithoutGrant");
    assert("traffic.blocksTraversalWithoutGrant"@.len() == 35);
}

/// Something is found about a single property exactly where one is.
proof fn lemma_property_issues(entries: Seq<PropertyView>, key: Seq<char>)
    ensures
        found_about(zone_property_issues(entries), key) <==> exists|i: int|
            0 <= i < entries.len() && (#[trigger] entries[i]).key == key && zone_issue(entries[i])
                is Some,
        forall|i: int|
            0 <= i < zone_property_issues(entries).len() ==> begins_with(
                (#[trigger] zone_property_issues(entries)[i]).key,
                "traffic."@,
            ),
    decreases entries.len(),
{
    if entries.len() > 0 {
        let rest = entries.drop_last();
        let last = entries.last();
        let before = zone_property_issues(rest);
        let after = zone_property_issues(entries);
        lemma_property_issues(rest, key);
        lemma_zone_issue_begins(last);
        if found_about(after, key) {
            let i = choose|i: int| 0 <= i < after.len() && (#[trigger] after[i]).key == key;
            if i < before.len() {
                assert(before[i].key == key);
                let k = choose|k: int|
                    0 <= k < rest.len() && (#[trigger] rest[k]).key == key && zone_issue(rest[k])
                        is Some;
                assert(entries[k] == rest[k]);
            } else {
                assert(entries[entries.len() - 1].key == key);
            }
        }
        if exists|i: int|
            0 <= i < entries.len() && (#[trigger] entries[i]).key == key && zone_issue(entries[i])
                is Some {
            let i = choose|i: int|
                0 <= i < entries.len() && (#[trigger] entries[i]).key == key && zone_issue(
                    entries[i],
                ) is Some;
            if i < rest.len() {
                assert(rest[i] == entries[i]);
                let k = choose|k: int| 0 <= k < before.len() && (#[trigger] before[k]).key == key;
                assert(after[k] == before[k]);
            } else {
                assert(after[before.len() as int].key == key);
            }
        }
        assert forall|i: int| 0 <= i < after.len() implies begins_with(
            (#[trigger] after[i]).key,
            "traffic."@,
        ) by {
            if i < before.len() {
                assert(after[i] == before[i]);
            }
        }
    }
}

proof fn lemma_blocked_is_read(entries: Seq<PropertyView>)
    ensures
        zone_steps(entries).blocked is Some <==> exists|i: int|
            0 <= i < entries.len() && (#[trigger] entries[i]).key == "traffic.blocked"@ && bool_of(
                entries[i].value,
            ) is Some,
    decreases entries.len(),
{
    if entries.len() > 0 {
        let rest = entries.drop_last();
        let last = entries.last();
        lemma_blocked_is_read(rest);
        lemma_blocked_key(last.key);
        if zone_steps(rest).blocked is Some {
            let i = choose|i: int|
                0 <= i < rest.len() && (#[trigger] rest[i]).key == "traffic.blocked"@ && bool_of(
                    rest[i].value,
                ) is Some;
            assert(entries[i] == rest[i]);
        }
        if exists|i: int|
            0 <= i < entries.len() && (#[trigger] entries[i]).key == "traffic.blocked"@ && bool_of(
                entries[i].value,
            ) is Some {
            let i = choose|i: int|
                0 <= i < entries.len() && (#[trigger] entries[i]).key == "traffic.blocked"@
                    && bool_of(entries[i].value) is Some;
            if i < rest.len() {
                assert(rest[i] == entries[i]);
            }
        }
        if last.key == "traffic.blocked"@ && bool_of(last.value) is Some {
            assert(entries[entries.len() - 1] == last);
        }
    }
}

proof fn lemma_capacity_is_read(entries: Seq<PropertyView>, i: int)
    requires
        0 <= i < entries.len(),
        entries[i].key == "traffic.capacity"@,
        unsigned_of(entries[i].value) matches Some(n) && n >= 1,
    ensures
        zone_steps(entries).capacity_is_explicit,
    decreases entries.len(),
{
    lemma_capacity_is_canonical();
    if i < entries.len() - 1 {
        assert(entries.drop_last()[i] == entries[i]);
        lemma_capacity_is_read(entries.drop_last(), i);
    }
}

proof fn lemma_where_it_stands(entries: Seq<PropertyView>, key: Seq<char>) -> (i: int)
    requires
        keys_ascend(entries),
        value_at(entries, key) is Some,
    ensures
        0 <= i < entries.len(),
        entries[i].key == key,
        forall|j: int| 0 <= j < entries.len() && (#[trigger] entries[j]).key == key ==> j == i,
{
    let i = crate::properties::lemma_property_stands(entries, key);
    assert forall|j: int| 0 <= j < entries.len() && (#[trigger] entries[j]).key == key implies j
        == i by {
        lemma_text_order_is_total(key, key);
    }
    i
}

/// What is found about the properties of a zone fits what is read from them. The
/// findings are in order, and all are about traffic keys. Nothing is found about
/// a stated block exactly if it is taken, and a stated capacity about which
/// nothing is found is taken.
pub proof fn lemma_findings_fit_the_policy(entries: Seq<PropertyView>)
    requires
        keys_ascend(entries),
    ensures
        issues_in_order(in_order(zone_traffic_issues(entries))),
        forall|i: int|
            0 <= i < in_order(zone_traffic_issues(entries)).len() ==> begins_with(
                (#[trigger] in_order(zone_traffic_issues(entries))[i]).key,
                "traffic."@,
            ),
        value_at(entries, "traffic.blocked"@) is Some ==> (!found_about(
            in_order(zone_traffic_issues(entries)),
            "traffic.blocked"@,
        ) <==> zone_policy_of(entries).blocked is Some),
        value_at(entries, "traffic.capacity"@) is Some && !found_about(
            in_order(zone_traffic_issues(entries)),
            "traffic.capacity"@,
        ) ==> zone_policy_of(entries).capacity_is_explicit,
{
    broadcast use vstd::seq_lib::group_to_multiset_ensures;

    let all = zone_traffic_issues(entries);
    let r = in_order(all);
    let single = zone_property_issues(entries);
    lemma_in_order(all);
    assert forall|x: TrafficParseIssueView| r.contains(x) <==> all.contains(x) by {
        assert(r.to_multiset().count(x) == all.to_multiset().count(x));
    }
    lemma_property_issues(entries, "traffic.blocked"@);
    lemma_property_issues(entries, "traffic.capacity"@);
    lemma_canonical_keys_begin("traffic.stop_allowed"@);
    assert forall|i: int| 0 <= i < r.len() implies begins_with(
        (#[trigger] r[i]).key,
        "traffic."@,
    ) by {
        assert(r.contains(r[i]));
        let k = choose|k: int| 0 <= k < all.len() && all[k] == r[i];
        if k < single.len() {
            assert(all[k] == single[k]);
        } else {
            assert(all[k] == stop_conflict(entries, false)[k - single.len()]);
        }
    }
    lemma_blocked_key("traffic.blocked"@);
    lemma_capacity_is_canonical();
    assert forall|key: Seq<char>| key != "traffic.stop_allowed"@ implies (#[trigger] found_about(
        r,
        key,
    ) <==> found_about(single, key)) by {
        if found_about(r, key) {
            let i = choose|i: int| 0 <= i < r.len() && (#[trigger] r[i]).key == key;
            assert(r.contains(r[i]));
            let k = choose|k: int| 0 <= k < all.len() && all[k] == r[i];
            if k < single.len() {
                assert(single[k].key == key);
            } else {
                assert(all[k] == stop_conflict(entries, false)[k - single.len()]);
            }
        }
        if found_about(single, key) {
            let i = choose|i: int| 0 <= i < single.len() && (#[trigger] single[i]).key == key;
            assert(all[i] == single[i]);
            assert(all.contains(single[i]));
            let k = choose|k: int| 0 <= k < r.len() && r[k] == single[i];
            assert(r[k].key == key);
        }
    }
    if value_at(entries, "traffic.blocked"@) is Some {
        let i = lemma_where_it_stands(entries, "traffic.blocked"@);
        lemma_blocked_is_read(entries);
        assert(zone_issue(entries[i]) is None <==> bool_of(entries[i].value) is Some);
    }
    if value_at(entries, "traffic.capacity"@) is Some && !found_about(r, "traffic.capacity"@) {
        let i = lemma_where_it_stands(entries, "traffic.capacity"@);
        assert(zone_issue(entries[i]) is None);
        lemma_capacity_is_read(entries, i);
    }
}

} // verus!
