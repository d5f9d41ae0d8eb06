//! Findings about the traffic properties of zones and edges.

use super::keywords::{
    bool_of, canonical_edge_key, canonical_edge_traffic_key, canonical_zone_key,
    canonical_zone_traffic_key, direction_keyword, edge_traffic_key, is_known_edge_traffic_key,
    is_known_lane_type, is_known_preferred_direction, is_known_zone_policy_kind,
    is_known_zone_traffic_key, keyword, lane_type_keyword, parse_bool, parse_u64, text_of_value,
    unsigned_of, zone_policy_keyword, zone_traffic_key,
};
use super::{TrafficIssueSeverity, TrafficParseIssue, TrafficParseIssueView};
use crate::number::{Number, NumberView, Real};
use crate::properties::{number_view, value_at, Properties, Property, PropertyView};
use crate::text::{
    begins_with, comes_before, lemma_text_order_is_total, lemma_text_order_is_transitive,
    same_text, starts_with, text_less, trim,
};
use crate::views::{lemma_views_push, views};
use vstd::prelude::*;

verus! {

// ---------------------------------------------------------------------------
// groups of keys
// ---------------------------------------------------------------------------

/// The traffic keys of zones that take a boolean.
pub open spec fn zone_boolean_key(k: Seq<char>) -> bool {
    ||| k == "traffic.claim_required"@
    ||| k == "traffic.waiting_allowed"@
    ||| k == "traffic.stop_allowed"@
    ||| k == "traffic.blocked"@
    ||| k == "traffic.replan_trigger"@
    ||| k == "traffic.no_stop"@
    ||| k == "traffic.blocks_entry_without_grant"@
    ||| k == "traffic.blocks_traversal_without_grant"@
}

fn is_zone_boolean_key(k: &str) -> (b: bool)
    ensures
        b == zone_boolean_key(k@),
{
    same_text(k, "traffic.claim_required")
        || same_text(k, "traffic.waiting_allowed")
        || same_text(k, "traffic.stop_allowed")
        || same_text(k, "traffic.blocked")
        || same_text(k, "traffic.replan_trigger")
        || same_text(k, "traffic.no_stop")
        || same_text(k, "traffic.blocks_entry_without_grant")
        || same_text(k, "traffic.blocks_traversal_without_grant")
}

/// The traffic keys of zones that take a text.
pub open spec fn zone_text_key(k: Seq<char>) -> bool {
    ||| k == "traffic.entry_rule"@
    ||| k == "traffic.exit_rule"@
    ||| k == "traffic.robot_class"@
    ||| k == "traffic.schedule_window"@
    ||| k == "traffic.access_group"@
}

fn is_zone_text_key(k: &str) -> (b: bool)
    ensures
        b == zone_text_key(k@),
{
    same_text(k, "traffic.entry_rule")
        || same_text(k, "traffic.exit_rule")
        || same_text(k, "traffic.robot_class")
        || same_text(k, "traffic.schedule_window")
        || same_text(k, "traffic.access_group")
}

/// The traffic keys that take a capacity.
pub open spec fn capacity_key(k: Seq<char>) -> bool {
    ||| k == "traffic.capacity"@
    ||| k == "traffic.max_occupancy"@
}

fn is_capacity_key(k: &str) -> (b: bool)
    ensures
        b == capacity_key(k@),
{
    same_text(k, "traffic.capacity")
        || same_text(k, "traffic.max_occupancy")
}

/// The traffic keys of edges that take a number.
pub open spec fn edge_numeric_key(k: Seq<char>) -> bool {
    ||| k == "traffic.speed_limit"@
    ||| k == "traffic.priority"@
    ||| k == "traffic.clearance_width"@
    ||| k == "traffic.clearance_height"@
    ||| k == "traffic.cost_bias"@
}

fn is_edge_numeric_key(k: &str) -> (b: bool)
    ensures
        b == edge_numeric_key(k@),
{
    same_text(k, "traffic.speed_limit")
        || same_text(k, "traffic.priority")
        || same_text(k, "traffic.clearance_width")
        || same_text(k, "traffic.clearance_height")
        || same_text(k, "traffic.cost_bias")
}

/// The traffic keys of edges that take a positive number.
pub open spec fn edge_positive_key(k: Seq<char>) -> bool {
    ||| k == "traffic.speed_limit"@
    ||| k == "traffic.clearance_width"@
    ||| k == "traffic.clearance_height"@
}

fn is_edge_positive_key(k: &str) -> (b: bool)
    ensures
        b == edge_positive_key(k@),
{
    same_text(k, "traffic.speed_limit")
        || same_text(k, "traffic.clearance_width")
        || same_text(k, "traffic.clearance_height")
}

/// The traffic keys of edges that take a boolean.
pub open spec fn edge_boolean_key(k: Seq<char>) -> bool {
    ||| k == "traffic.reversible"@
    ||| k == "traffic.passing_allowed"@
    ||| k == "traffic.no_stop"@
    ||| k == "traffic.blocked"@
    ||| k == "traffic.claim_required"@
    ||| k == "traffic.waiting_allowed"@
    ||| k == "traffic.stop_allowed"@
}

fn is_edge_boolean_key(k: &str) -> (b: bool)
    ensures
        b == edge_boolean_key(k@),
{
    same_text(k, "traffic.reversible")
        || same_text(k, "traffic.passing_allowed")
        || same_text(k, "traffic.no_stop")
        || same_text(k, "traffic.blocked")
        || same_text(k, "traffic.claim_required")
        || same_text(k, "traffic.waiting_allowed")
        || same_text(k, "traffic.stop_allowed")
}

/// The traffic keys of edges that take a text.
pub open spec fn edge_text_key(k: Seq<char>) -> bool {
    ||| k == "traffic.lane_type"@
    ||| k == "traffic.lane_kind"@
    ||| k == "traffic.surface_type"@
    ||| k == "traffic.robot_class"@
    ||| k == "traffic.allowed_payload"@
    ||| k == "traffic.preferred_direction"@
    ||| k == "traffic.direction"@
    ||| k == "traffic.schedule_window"@
    ||| k == "traffic.access_group"@
}

fn is_edge_text_key(k: &str) -> (b: bool)
    ensures
        b == edge_text_key(k@),
{
    same_text(k, "traffic.lane_type")
        || same_text(k, "traffic.lane_kind")
        || same_text(k, "traffic.surface_type")
        || same_text(k, "traffic.robot_class")
        || same_text(k, "traffic.allowed_payload")
        || same_text(k, "traffic.preferred_direction")
        || same_text(k, "traffic.direction")
        || same_text(k, "traffic.schedule_window")
        || same_text(k, "traffic.access_group")
}

// ---------------------------------------------------------------------------
// order of findings
// ---------------------------------------------------------------------------

/// Warnings come before errors.
pub open spec fn severity_rank(s: TrafficIssueSeverity) -> int {
    match s {
        TrafficIssueSeverity::Warning => 0,
        TrafficIssueSeverity::Error => 1,
    }
}

/// Findings are ordered by key, then by severity, then by message.
pub open spec fn issue_before(a: TrafficParseIssueView, b: TrafficParseIssueView) -> bool {
    ||| text_less(a.key, b.key)
    ||| a.key == b.key && severity_rank(a.severity) < severity_rank(b.severity)
    ||| a.key == b.key && a.severity == b.severity && text_less(a.message, b.message)
}

/// No finding stands behind one that comes before it.
pub open spec fn issues_in_order(s: Seq<TrafficParseIssueView>) -> bool {
    forall|i: int, j: int| 0 <= i < j < s.len() ==> !issue_before(#[trigger] s[j], #[trigger] s[i])
}

fn comes_first(a: &TrafficParseIssue, b: &TrafficParseIssue) -> (r: bool)
    ensures
        r == issue_before(a@, b@),
{
    if !same_text(a.key.as_str(), b.key.as_str()) {
        return comes_before(a.key.as_str(), b.key.as_str());
    }
    proof {
        lemma_text_order_is_total(a.key@, b.key@);
    }
    match (a.severity, b.severity) {
        (TrafficIssueSeverity::Warning, TrafficIssueSeverity::Error) => true,
        (TrafficIssueSeverity::Error, TrafficIssueSeverity::Warning) => false,
        _ => comes_before(a.message.as_str(), b.message.as_str()),
    }
}

proof fn lemma_issue_order_is_transitive(
    a: TrafficParseIssueView,
    b: TrafficParseIssueView,
    c: TrafficParseIssueView,
)
    requires
        !issue_before(b, a),
        !issue_before(c, b),
    ensures
        !issue_before(c, a),
{
    lemma_text_order_is_total(a.key, b.key);
    lemma_text_order_is_total(b.key, c.key);
    lemma_text_order_is_total(a.key, c.key);
    lemma_text_order_is_total(a.message, b.message);
    lemma_text_order_is_total(b.message, c.message);
    lemma_text_order_is_total(a.message, c.message);
    if text_less(a.key, b.key) && text_less(b.key, c.key) {
        lemma_text_order_is_transitive(a.key, b.key, c.key);
    }
    if text_less(a.message, b.message) && text_less(b.message, c.message) {
        lemma_text_order_is_transitive(a.message, b.message, c.message);
    }
}

/// The findings in order with one more put in its place.
pub open spec fn issue_placed(
    s: Seq<TrafficParseIssueView>,
    i: TrafficParseIssueView,
) -> Seq<TrafficParseIssueView>
    decreases s.len(),
{
    if s.len() == 0 || issue_before(i, s[0]) {
        seq![i] + s
    } else {
        seq![s[0]] + issue_placed(s.drop_first(), i)
    }
}

/// The findings ordered by key, severity and message.
pub open spec fn in_order(s: Seq<TrafficParseIssueView>) -> Seq<TrafficParseIssueView>
    decreases s.len(),
{
    if s.len() == 0 {
        Seq::empty()
    } else {
        issue_placed(in_order(s.drop_first()), s[0])
    }
}

/// A finding goes behind those that it does not come before.
proof fn lemma_issue_placed_at(s: Seq<TrafficParseIssueView>, i: TrafficParseIssueView, at: int)
    requires
        0 <= at <= s.len(),
        forall|j: int| 0 <= j < at ==> !issue_before(i, #[trigger] s[j]),
        at < s.len() ==> issue_before(i, s[at]),
    ensures
        issue_placed(s, i) == s.insert(at, i),
    decreases at,
{
    if at > 0 {
        assert(!issue_before(i, s[0]));
        lemma_issue_placed_at(s.drop_first(), i, at - 1);
    }
    assert(issue_placed(s, i) =~= s.insert(at, i));
}

proof fn lemma_issue_placed(s: Seq<TrafficParseIssueView>, i: TrafficParseIssueView)
    requires
        issues_in_order(s),
    ensures
        issues_in_order(issue_placed(s, i)),
        issue_placed(s, i).to_multiset() == s.to_multiset().insert(i),
        forall|b: TrafficParseIssueView|
            !issue_before(i, b) && (forall|k: int|
                0 <= k < s.len() ==> !issue_before(#[trigger] s[k], b)) ==> (forall|k: int|
                0 <= k < issue_placed(s, i).len() ==> !issue_before(
                    #[trigger] issue_placed(s, i)[k],
                    b,
                )),
    decreases s.len(),
{
    broadcast use vstd::seq_lib::group_to_multiset_ensures;

    let t = issue_placed(s, i);
    if s.len() == 0 || issue_before(i, s[0]) {
        vstd::seq_lib::to_multiset_insert(s, 0, i);
        assert(t =~= s.insert(0, i));
        assert forall|k: int| 0 <= k < s.len() implies !issue_before(#[trigger] s[k], i) by {
            lemma_issue_order_is_asymmetric(i, s[0]);
            if k > 0 {
                lemma_issue_order_is_transitive(i, s[0], s[k]);
            }
        }
        assert forall|j: int, k: int| 0 <= j < k < t.len() implies !issue_before(
            #[trigger] t[k],
            #[trigger] t[j],
        ) by {
            assert(t[k] == s[k - 1]);
            if j > 0 {
                assert(t[j] == s[j - 1]);
            }
        }
    } else {
        let rest = s.drop_first();
        assert forall|j: int, k: int| 0 <= j < k < rest.len() implies !issue_before(
            #[trigger] rest[k],
            #[trigger] rest[j],
        ) by {
            assert(!issue_before(s[k + 1], s[j + 1]));
        }
        lemma_issue_placed(rest, i);
        let tail = issue_placed(rest, i);
        vstd::seq_lib::to_multiset_insert(tail, 0, s[0]);
        assert(t =~= tail.insert(0, s[0]));
        vstd::seq_lib::to_multiset_insert(rest, 0, s[0]);
        assert(s =~= rest.insert(0, s[0]));
        assert(t.to_multiset() =~= s.to_multiset().insert(i));
        assert forall|k: int| 0 <= k < rest.len() implies !issue_before(
            #[trigger] rest[k],
            s[0],
        ) by {
            assert(rest[k] == s[k + 1]);
        }
        assert forall|j: int, k: int| 0 <= j < k < t.len() implies !issue_before(
            #[trigger] t[k],
            #[trigger] t[j],
        ) by {
            assert(t[k] == tail[k - 1]);
            if j > 0 {
                assert(t[j] == tail[j - 1]);
            }
        }
        assert forall|b: TrafficParseIssueView|
            !issue_before(i, b) && (forall|k: int|
                0 <= k < s.len() ==> !issue_before(#[trigger] s[k], b)) implies (forall|k: int|
            0 <= k < t.len() ==> !issue_before(#[trigger] t[k], b)) by {
            assert forall|k: int| 0 <= k < rest.len() implies !issue_before(
                #[trigger] rest[k],
                b,
            ) by {
                assert(rest[k] == s[k + 1]);
            }
            assert(!issue_before(s[0], b));
            assert forall|k: int| 0 <= k < t.len() implies !issue_before(#[trigger] t[k], b) by {
                if k > 0 {
                    assert(t[k] == tail[k - 1]);
                }
            }
        }
    }
}

/// Ordering findings keeps each of them, and puts none behind one that it comes
/// before.
pub proof fn lemma_in_order(s: Seq<TrafficParseIssueView>)
    ensures
        issues_in_order(in_order(s)),
        in_order(s).to_multiset() == s.to_multiset(),
    decreases s.len(),
{
    if s.len() > 0 {
        lemma_in_order(s.drop_first());
        lemma_issue_placed(in_order(s.drop_first()), s[0]);
        vstd::seq_lib::to_multiset_insert(s.drop_first(), 0, s[0]);
        assert(s.drop_first().insert(0, s[0]) =~= s);
    } else {
        assert(s =~= Seq::empty());
    }
}

/// Sorts findings by key, severity and message.
pub fn sort_traffic_issues(issues: &mut Vec<TrafficParseIssue>)
    ensures
        views(final(issues)@) == in_order(views(old(issues)@)),
{
    let mut sorted: Vec<TrafficParseIssue> = Vec::new();
    let ghost all = views(issues@);
    assert(views(sorted@) =~= Seq::empty());
    assert(all.skip(all.len() as int) =~= Seq::empty());
    while issues.len() > 0
        invariant
            issues.len() <= all.len(),
            views(issues@) == all.take(issues.len() as int),
            views(sorted@) == in_order(all.skip(issues.len() as int)),
        decreases issues.len(),
    {
        let issue = issues.pop().unwrap();
        let ghost n = issues.len() as int;
        assert(issue@ == all[n]) by {
            assert(all.take(n + 1)[n] == all[n]);
        }
        assert(views(issues@) =~= all.take(n)) by {
            assert(all.take(n + 1).take(n) =~= all.take(n));
        }
        assert(all.skip(n).drop_first() =~= all.skip(n + 1));
        let mut i: usize = 0;
        while i < sorted.len() && !comes_first(&issue, &sorted[i])
            invariant
                i <= sorted.len(),
                forall|j: int| 0 <= j < i ==> !issue_before(issue@, #[trigger] views(sorted@)[j]),
            decreases sorted.len() - i,
        {
            i = i + 1;
        }
        let ghost before = views(sorted@);
        proof {
            lemma_issue_placed_at(before, issue@, i as int);
        }
        sorted.insert(i, issue);
        assert(views(sorted@) =~= before.insert(i as int, issue@));
    }
    assert(all.skip(0) =~= all);
    std::mem::swap(issues, &mut sorted);
}

proof fn lemma_issue_order_is_asymmetric(a: TrafficParseIssueView, b: TrafficParseIssueView)
    ensures
        issue_before(a, b) ==> !issue_before(b, a),
{
    lemma_text_order_is_total(a.key, b.key);
    lemma_text_order_is_total(a.message, b.message);
}

// ---------------------------------------------------------------------------
// zones
// ---------------------------------------------------------------------------

/// A finding.
pub open spec fn issue(
    severity: TrafficIssueSeverity,
    key: Seq<char>,
    message: Seq<char>,
) -> TrafficParseIssueView {
    TrafficParseIssueView { severity, key, message }
}

fn make_issue(severity: TrafficIssueSeverity, key: &str, message: &str) -> (i: TrafficParseIssue)
    ensures
        i@ == issue(severity, key@, message@),
{
    TrafficParseIssue { severity, key: key.to_owned(), message: message.to_owned() }
}

/// Whether a number is missing or not above zero.
pub open spec fn not_positive(n: Option<NumberView>) -> bool {
    match n {
        Some(v) => v.value.at_most(Real { bits: 0 }),
        None => true,
    }
}

fn is_not_positive(n: &Option<Number>) -> (b: bool)
    ensures
        b == not_positive(number_view(*n)),
{
    match n {
        Some(v) => v.value.not_above(Real::zero()),
        None => true,
    }
}

/// Whether a value is no capacity: an integer of at least one.
pub open spec fn no_capacity(value: Seq<char>) -> bool {
    match unsigned_of(value) {
        Some(n) => n < 1,
        None => true,
    }
}

fn is_no_capacity(value: &str) -> (b: bool)
    ensures
        b == no_capacity(value@),
{
    match parse_u64(value) {
        Some(n) => n < 1,
        None => true,
    }
}

/// The finding about one property of a zone, if there is one.
pub open spec fn zone_issue(e: PropertyView) -> Option<TrafficParseIssueView> {
    let k = canonical_zone_key(e.key);
    if begins_with(e.key, "traffic."@) && !zone_traffic_key(e.key) {
        Some(issue(TrafficIssueSeverity::Warning, e.key, "unknown zone traffic key"@))
    } else if k == "traffic.policy"@ || k == "traffic.mode"@ {
        if zone_policy_keyword(keyword(e.value)) {
            None
        } else {
            Some(issue(TrafficIssueSeverity::Warning, e.key, "unknown zone policy keyword"@))
        }
    } else if capacity_key(k) {
        if no_capacity(e.value) {
            Some(
                issue(
                    TrafficIssueSeverity::Error,
                    e.key,
                    "traffic.capacity must be an integer >= 1"@,
                ),
            )
        } else {
            None
        }
    } else if k == "traffic.priority"@ {
        if e.number is None {
            Some(issue(TrafficIssueSeverity::Error, e.key, "traffic.priority must be numeric"@))
        } else {
            None
        }
    } else if k == "traffic.speed_limit"@ {
        if not_positive(e.number) {
            Some(
                issue(TrafficIssueSeverity::Error, e.key, "traffic.speed_limit must be positive"@),
            )
        } else {
            None
        }
    } else if zone_boolean_key(k) {
        if bool_of(e.value) is None {
            Some(
                issue(
                    TrafficIssueSeverity::Error,
                    e.key,
                    "traffic boolean key must parse as true/false"@,
                ),
            )
        } else {
            None
        }
    } else if zone_text_key(k) {
        if text_of_value(e.value) is None {
            Some(
                issue(TrafficIssueSeverity::Error, e.key, "traffic string key must not be empty"@),
            )
        } else {
            None
        }
    } else {
        None
    }
}

fn find_zone_issue(e: &Property) -> (r: Option<TrafficParseIssue>)
    ensures
        r is Some <==> zone_issue(e@) is Some,
        r matches Some(i) ==> Some(i@) == zone_issue(e@),
{
    let key = e.key.as_str();
    let value = e.value.as_str();
    let k = canonical_zone_traffic_key(key);
    if starts_with(key, "traffic.") && !is_known_zone_traffic_key(key) {
        Some(make_issue(TrafficIssueSeverity::Warning, key, "unknown zone traffic key"))
    } else if same_text(k, "traffic.policy") || same_text(k, "traffic.mode") {
        if is_known_zone_policy_kind(value) {
            None
        } else {
            Some(make_issue(TrafficIssueSeverity::Warning, key, "unknown zone policy keyword"))
        }
    } else if is_capacity_key(k) {
        if is_no_capacity(value) {
            Some(
                make_issue(
                    TrafficIssueSeverity::Error,
                    key,
                    "traffic.capacity must be an integer >= 1",
                ),
            )
        } else {
            None
        }
    } else if same_text(k, "traffic.priority") {
        if e.number.is_none() {
            Some(make_issue(TrafficIssueSeverity::Error, key, "traffic.priority must be numeric"))
        } else {
            None
        }
    } else if same_text(k, "traffic.speed_limit") {
        if is_not_positive(&e.number) {
            Some(
                make_issue(
                    TrafficIssueSeverity::Error,
                    key,
                    "traffic.speed_limit must be positive",
                ),
            )
        } else {
            None
        }
    } else if is_zone_boolean_key(k) {
        if parse_bool(value).is_none() {
            Some(
                make_issue(
                    TrafficIssueSeverity::Error,
                    key,
                    "traffic boolean key must parse as true/false",
                ),
            )
        } else {
            None
        }
    } else if is_zone_text_key(k) {
        if trim(value).is_empty() {
            Some(
                make_issue(
                    TrafficIssueSeverity::Error,
                    key,
                    "traffic string key must not be empty",
                ),
            )
        } else {
            None
        }
    } else {
        None
    }
}

/// The findings about single properties of a zone, in the order of keys.
pub open spec fn zone_property_issues(entries: Seq<PropertyView>) -> Seq<TrafficParseIssueView>
    decreases entries.len(),
{
    if entries.len() == 0 {
        Seq::empty()
    } else {
        let found = zone_property_issues(entries.drop_last());
        match zone_issue(entries.last()) {
            Some(i) => found.push(i),
            None => found,
        }
    }
}

/// Whether the value under a key reads as the given boolean, taking `missing`
/// for a value that reads as none.
pub open spec fn states(
    entries: Seq<PropertyView>,
    key: Seq<char>,
    missing: bool,
) -> bool {
    match value_at(entries, key) {
        Some(v) => match bool_of(v) {
            Some(b) => b,
            None => missing,
        },
        None => false,
    }
}

fn does_state(properties: &Properties, key: &str, missing: bool) -> (b: bool)
    ensures
        b == states(properties@, key@, missing),
{
    match properties.get(key) {
        Some(v) => match parse_bool(v.as_str()) {
            Some(b) => b,
            None => missing,
        },
        None => false,
    }
}

/// The finding that stopping is both allowed and excluded, if it is.
pub open spec fn stop_conflict(
    entries: Seq<PropertyView>,
    missing: bool,
) -> Seq<TrafficParseIssueView> {
    if states(entries, "traffic.no_stop"@, false) && states(
        entries,
        "traffic.stop_allowed"@,
        missing,
    ) {
        seq![
            issue(
                TrafficIssueSeverity::Warning,
                "traffic.stop_allowed"@,
                "traffic.stop_allowed=true conflicts with traffic.no_stop=true"@,
            ),
        ]
    } else {
        Seq::empty()
    }
}

fn add_stop_conflict(
    issues: &mut Vec<TrafficParseIssue>,
    properties: &Properties,
    missing: bool,
)
    ensures
        views(final(issues)@) == views(old(issues)@) + stop_conflict(properties@, missing),
{
    if does_state(properties, "traffic.no_stop", false) && does_state(
        properties,
        "traffic.stop_allowed",
        missing,
    ) {
        let i = make_issue(
            TrafficIssueSeverity::Warning,
            "traffic.stop_allowed",
            "traffic.stop_allowed=true conflicts with traffic.no_stop=true",
        );
        proof {
            lemma_views_push(issues@, i);
        }
        issues.push(i);
    }
    assert(views(issues@) =~= views(old(issues)@) + stop_conflict(properties@, missing));
}

/// Everything that is found about the traffic properties of a zone.
pub open spec fn zone_traffic_issues(entries: Seq<PropertyView>) -> Seq<TrafficParseIssueView> {
    zone_property_issues(entries) + stop_conflict(entries, false)
}

/// Checks the traffic properties of a zone. The findings come ordered by key,
/// severity and message.
pub fn validate_zone_traffic_properties(properties: &Properties) -> (issues: Vec<
    TrafficParseIssue,
>)
    ensures
        views(issues@) == in_order(zone_traffic_issues(properties@)),
{
    let mut issues: Vec<TrafficParseIssue> = Vec::new();
    assert(views(issues@) =~= Seq::empty());
    let mut i: usize = 0;
    while i < properties.len()
        invariant
            i <= properties@.len(),
            views(issues@) == zone_property_issues(properties@.take(i as int)),
        decreases properties@.len() - i,
    {
        assert(properties@.take(i as int + 1).drop_last() =~= properties@.take(i as int));
        if let Some(found) = find_zone_issue(properties.entry(i)) {
            proof {
                lemma_views_push(issues@, found);
            }
            issues.push(found);
        }
        i = i + 1;
    }
    assert(properties@.take(i as int) =~= properties@);
    add_stop_conflict(&mut issues, properties, false);
    sort_traffic_issues(&mut issues);
    issues
}

// ---------------------------------------------------------------------------
// edges
// ---------------------------------------------------------------------------

/// The finding about one property of an edge, if there is one.
pub open spec fn edge_issue(e: PropertyView) -> Option<TrafficParseIssueView> {
    let k = canonical_edge_key(e.key);
    if begins_with(e.key, "traffic."@) && !edge_traffic_key(e.key) {
        Some(issue(TrafficIssueSeverity::Warning, e.key, "unknown edge traffic key"@))
    } else if capacity_key(k) {
        if no_capacity(e.value) {
            Some(
                issue(
                    TrafficIssueSeverity::Error,
                    e.key,
                    "traffic.capacity must be an integer >= 1"@,
                ),
            )
        } else {
            None
        }
    } else if edge_numeric_key(k) {
        if e.number is None {
            Some(
                issue(
                    TrafficIssueSeverity::Error,
                    e.key,
                    "traffic numeric key must parse as number"@,
                ),
            )
        } else if edge_positive_key(k) && not_positive(e.number) {
            Some(
                issue(
                    TrafficIssueSeverity::Error,
                    e.key,
                    "traffic positive numeric key must be > 0"@,
                ),
            )
        } else {
            None
        }
    } else if edge_boolean_key(k) {
        if bool_of(e.value) is None {
            Some(
                issue(
                    TrafficIssueSeverity::Error,
                    e.key,
                    "traffic boolean key must parse as true/false"@,
                ),
            )
        } else {
            None
        }
    } else if edge_text_key(k) {
        if text_of_value(e.value) is None {
            Some(
                issue(TrafficIssueSeverity::Error, e.key, "traffic string key must not be empty"@),
            )
        } else if (k == "traffic.lane_type"@ || k == "traffic.lane_kind"@) && !lane_type_keyword(
            keyword(e.value),
        ) {
            Some(issue(TrafficIssueSeverity::Warning, e.key, "unknown lane type keyword"@))
        } else if (k == "traffic.preferred_direction"@ || k == "traffic.direction"@)
            && !direction_keyword(keyword(e.value)) {
            Some(
                issue(TrafficIssueSeverity::Warning, e.key, "unknown preferred direction keyword"@),
            )
        } else {
            None
        }
    } else {
        None
    }
}

fn find_edge_issue(e: &Property) -> (r: Option<TrafficParseIssue>)
    ensures
        r is Some <==> edge_issue(e@) is Some,
        r matches Some(i) ==> Some(i@) == edge_issue(e@),
{
    let key = e.key.as_str();
    let value = e.value.as_str();
    let k = canonical_edge_traffic_key(key);
    if starts_with(key, "traffic.") && !is_known_edge_traffic_key(key) {
        Some(make_issue(TrafficIssueSeverity::Warning, key, "unknown edge traffic key"))
    } else if is_capacity_key(k) {
        if is_no_capacity(value) {
            Some(
                make_issue(
                    TrafficIssueSeverity::Error,
                    key,
                    "traffic.capacity must be an integer >= 1",
                ),
            )
        } else {
            None
        }
    } else if is_edge_numeric_key(k) {
        if e.number.is_none() {
            Some(
                make_issue(
                    TrafficIssueSeverity::Error,
                    key,
                    "traffic numeric key must parse as number",
                ),
            )
        } else if is_edge_positive_key(k) && is_not_positive(&e.number) {
            Some(
                make_issue(
                    TrafficIssueSeverity::Error,
                    key,
                    "traffic positive numeric key must be > 0",
                ),
            )
        } else {
            None
        }
    } else if is_edge_boolean_key(k) {
        if parse_bool(value).is_none() {
            Some(
                make_issue(
                    TrafficIssueSeverity::Error,
                    key,
                    "traffic boolean key must parse as true/false",
                ),
            )
        } else {
            None
        }
    } else if is_edge_text_key(k) {
        if trim(value).is_empty() {
            Some(
                make_issue(
                    TrafficIssueSeverity::Error,
                    key,
                    "traffic string key must not be empty",
                ),
            )
        } else if (same_text(k, "traffic.lane_type") || same_text(k, "traffic.lane_kind"))
            && !is_known_lane_type(value) {
            Some(make_issue(TrafficIssueSeverity::Warning, key, "unknown lane type keyword"))
        } else if (same_text(k, "traffic.preferred_direction") || same_text(
            k,
            "traffic.direction",
        )) && !is_known_preferred_direction(value) {
            Some(
                make_issue(
                    TrafficIssueSeverity::Warning,
                    key,
                    "unknown preferred direction keyword",
                ),
            )
        } else {
            None
        }
    } else {
        None
    }
}

/// The findings about single properties of an edge, in the order of keys.
pub open spec fn edge_property_issues(entries: Seq<PropertyView>) -> Seq<TrafficParseIssueView>
    decreases entries.len(),
{
    if entries.len() == 0 {
        Seq::empty()
    } else {
        let found = edge_property_issues(entries.drop_last());
        match edge_issue(entries.last()) {
            Some(i) => found.push(i),
            None => found,
        }
    }
}

/// Everything that is found about the traffic properties of an edge.
pub open spec fn edge_traffic_issues(entries: Seq<PropertyView>) -> Seq<TrafficParseIssueView> {
    edge_property_issues(entries) + stop_conflict(entries, true)
}

/// Checks the traffic properties of an edge. The findings come ordered by key,
/// severity and message.
pub fn validate_edge_traffic_properties(properties: &Properties) -> (issues: Vec<
    TrafficParseIssue,
>)
    ensures
        views(issues@) == in_order(edge_traffic_issues(properties@)),
{
    let mut issues: Vec<TrafficParseIssue> = Vec::new();
    assert(views(issues@) =~= Seq::empty());
    let mut i: usize = 0;
    while i < properties.len()
        invariant
            i <= properties@.len(),
            views(issues@) == edge_property_issues(properties@.take(i as int)),
        decreases properties@.len() - i,
    {
        assert(properties@.take(i as int + 1).drop_last() =~= properties@.take(i as int));
        if let Some(found) = find_edge_issue(properties.entry(i)) {
            proof {
                lemma_views_push(issues@, found);
            }
            issues.push(found);
        }
        i = i + 1;
    }
    assert(properties@.take(i as int) =~= properties@);
    add_stop_conflict(&mut issues, properties, true);
    sort_traffic_issues(&mut issues);
    issues
}

} // verus!
