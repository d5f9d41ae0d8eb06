//! What zones inside each other, and edges inside zones, come to, in terms of what
//! each of them states.

use super::merge::{merged, restricted_semantics, slowed_bias, within_zones, effective_semantics};
use super::parse::edge_semantics_of;
use super::{EdgeTrafficSemanticsView, ZonePolicyKind, ZonePolicyView};
use crate::number::{result_of, Real, ONE_BITS};
use crate::properties::{keys_ascend, lemma_overlaid, property_at, PropertyView};
use vstd::prelude::*;

verus! {

/// Whether an inner statement stands where there is one, and the outer one where
/// there is none.
pub open spec fn inner_first<T>(inner: Option<T>, outer: Option<T>, out: Option<T>) -> bool {
    &&& inner is Some ==> out == inner
    &&& inner is None ==> out == outer
}

/// What the inner of two zones states replaces what the outer one states, but for
/// what makes either stricter.
pub proof fn lemma_inner_zone_replaces(parent: ZonePolicyView, child: ZonePolicyView)
    ensures
        ({
            let m = merged(parent, child);
            let strict = parent.kind == ZonePolicyKind::Restricted || child.kind
                == ZonePolicyKind::Restricted;
            let exclusive = parent.kind == ZonePolicyKind::ExclusiveAccess || child.kind
                == ZonePolicyKind::ExclusiveAccess;
            &&& inner_first(child.priority, parent.priority, m.priority)
            &&& inner_first(child.speed_limit, parent.speed_limit, m.speed_limit)
            &&& inner_first(child.blocked, parent.blocked, m.blocked)
            &&& inner_first(child.replan_trigger, parent.replan_trigger, m.replan_trigger)
            &&& inner_first(child.entry_rule, parent.entry_rule, m.entry_rule)
            &&& inner_first(child.exit_rule, parent.exit_rule, m.exit_rule)
            &&& inner_first(child.robot_class, parent.robot_class, m.robot_class)
            &&& inner_first(child.schedule_window, parent.schedule_window, m.schedule_window)
            &&& inner_first(child.access_group, parent.access_group, m.access_group)
            &&& !strict ==> inner_first(
                child.waiting_allowed,
                parent.waiting_allowed,
                m.waiting_allowed,
            )
            &&& !strict && m.kind != ZonePolicyKind::NoStop ==> inner_first(
                child.stop_allowed,
                parent.stop_allowed,
                m.stop_allowed,
            )
            &&& strict ==> m.kind == ZonePolicyKind::Restricted && m.waiting_allowed == Some(false)
                && m.stop_allowed == Some(false) && m.blocks_entry_without_grant
                && m.blocks_traversal_without_grant
            &&& !strict ==> (m.blocks_entry_without_grant <==> parent.blocks_entry_without_grant
                || child.blocks_entry_without_grant)
            &&& !strict ==> (m.blocks_traversal_without_grant
                <==> parent.blocks_traversal_without_grant || child.blocks_traversal_without_grant)
            &&& m.kind == ZonePolicyKind::NoStop ==> m.stop_allowed == Some(false)
            &&& !strict && exclusive ==> m.kind == ZonePolicyKind::ExclusiveAccess
            &&& !strict && !exclusive && child.kind != ZonePolicyKind::Informational ==> m.kind
                == child.kind
            &&& !strict && !exclusive && child.kind == ZonePolicyKind::Informational ==> m.kind
                == parent.kind
            &&& !parent.capacity_is_explicit ==> m.capacity == child.capacity
            &&& parent.capacity_is_explicit && !child.capacity_is_explicit ==> m.capacity
                == parent.capacity
        }),
{
}

/// A property that the inner zone has replaces that of the outer one, and every
/// other property of either is kept.
pub proof fn lemma_inner_properties_replace(
    parent: ZonePolicyView,
    child: ZonePolicyView,
    key: Seq<char>,
)
    requires
        keys_ascend(parent.properties),
        keys_ascend(child.properties),
    ensures
        inner_first(
            property_at(child.properties, key),
            property_at(parent.properties, key),
            property_at(merged(parent, child).properties, key),
        ),
{
    lemma_overlaid(parent.properties, child.properties, key);
}

// ---------------------------------------------------------------------------
// edges inside zones
// ---------------------------------------------------------------------------

/// Whether traffic through a zone is shut off.
pub open spec fn shut(p: ZonePolicyView) -> bool {
    p.blocked == Some(true) || p.kind == ZonePolicyKind::Restricted
}

/// Whether a zone states how many fit into it.
pub open spec fn bounds(p: ZonePolicyView) -> bool {
    p.capacity_is_explicit || p.kind == ZonePolicyKind::CapacityLimited
}

proof fn lemma_within_strict(s: EdgeTrafficSemanticsView, zones: Seq<ZonePolicyView>)
    ensures
        ({
            let r = within_zones(s, zones);
            let closed = exists|i: int| 0 <= i < zones.len() && shut(#[trigger] zones[i]);
            let unstopping = exists|i: int|
                0 <= i < zones.len() && (shut(#[trigger] zones[i]) || zones[i].kind
                    == ZonePolicyKind::NoStop);
            let limited = exists|i: int| 0 <= i < zones.len() && bounds(#[trigger] zones[i]);
            &&& closed ==> r.blocked == Some(true)
            &&& !closed ==> r.blocked == s.blocked
            &&& unstopping ==> r.no_stop == Some(true) && r.stop_allowed is Some
            &&& !unstopping ==> r.no_stop == s.no_stop
            &&& r.capacity_is_explicit <==> s.capacity_is_explicit || limited
            &&& !limited ==> r.capacity == s.capacity
            &&& limited ==> r.capacity is Some
        }),
    decreases zones.len(),
{
    if zones.len() > 0 {
        let rest = zones.drop_last();
        lemma_within_strict(s, rest);
        let n = zones.len() - 1;
        assert(zones[n] == zones.last());
        assert forall|i: int| 0 <= i < rest.len() implies #[trigger] rest[i] == zones[i] by {}
        if exists|i: int| 0 <= i < rest.len() && shut(#[trigger] rest[i]) {
            let i = choose|i: int| 0 <= i < rest.len() && shut(#[trigger] rest[i]);
            assert(shut(zones[i]));
        }
        if exists|i: int| 0 <= i < zones.len() && shut(#[trigger] zones[i]) {
            let i = choose|i: int| 0 <= i < zones.len() && shut(#[trigger] zones[i]);
            if i < n {
                assert(shut(rest[i]));
            }
        }
        if exists|i: int|
            0 <= i < zones.len() && (shut(#[trigger] zones[i]) || zones[i].kind
                == ZonePolicyKind::NoStop) {
            let i = choose|i: int|
                0 <= i < zones.len() && (shut(#[trigger] zones[i]) || zones[i].kind
                    == ZonePolicyKind::NoStop);
            if i < n {
                assert(shut(rest[i]) || rest[i].kind == ZonePolicyKind::NoStop);
            }
        }
        if exists|i: int| 0 <= i < zones.len() && bounds(#[trigger] zones[i]) {
            let i = choose|i: int| 0 <= i < zones.len() && bounds(#[trigger] zones[i]);
            if i < n {
                assert(bounds(rest[i]));
            }
        }
        if exists|i: int| 0 <= i < rest.len() && bounds(#[trigger] rest[i]) {
            let i = choose|i: int| 0 <= i < rest.len() && bounds(#[trigger] rest[i]);
            assert(bounds(zones[i]));
        }
    }
}

/// An edge is shut where it or one of its zones is, stopping on it is excluded
/// where it, a zone that is shut or one without stopping says so, and its capacity
/// counts as stated where it or one of its zones states one.
pub proof fn lemma_zones_restrict_an_edge(
    properties: Seq<PropertyView>,
    directed: bool,
    zones: Seq<ZonePolicyView>,
)
    ensures
        ({
            let own = edge_semantics_of(properties, directed);
            let r = restricted_semantics(properties, directed, zones);
            let closed = exists|i: int| 0 <= i < zones.len() && shut(#[trigger] zones[i]);
            let unstopping = exists|i: int|
                0 <= i < zones.len() && (shut(#[trigger] zones[i]) || zones[i].kind
                    == ZonePolicyKind::NoStop);
            let limited = exists|i: int| 0 <= i < zones.len() && bounds(#[trigger] zones[i]);
            &&& closed ==> r.blocked == Some(true)
            &&& !closed ==> r.blocked == own.blocked
            &&& unstopping ==> r.no_stop == Some(true)
            &&& !unstopping ==> r.no_stop == own.no_stop
            &&& r.capacity_is_explicit <==> own.capacity_is_explicit || limited
            &&& !limited ==> r.capacity == own.capacity
        }),
{
    lemma_within_strict(
        EdgeTrafficSemanticsView { directed, ..edge_semantics_of(properties, directed) },
        zones,
    );
}

/// What an edge forbids no zone allows again, what it states itself of waiting,
/// claims, priority, robots, times and access stands, and what zones have no say
/// in is as the edge states it.
pub proof fn lemma_no_zone_allows_again(s: EdgeTrafficSemanticsView, zones: Seq<ZonePolicyView>)
    ensures
        s.stop_allowed == Some(false) ==> within_zones(s, zones).stop_allowed == Some(false),
        s.waiting_allowed is Some ==> within_zones(s, zones).waiting_allowed == s.waiting_allowed,
        s.requires_claim is Some ==> within_zones(s, zones).requires_claim == s.requires_claim,
        s.priority is Some ==> within_zones(s, zones).priority == s.priority,
        s.robot_class is Some ==> within_zones(s, zones).robot_class == s.robot_class,
        s.schedule_window is Some ==> within_zones(s, zones).schedule_window == s.schedule_window,
        s.access_group is Some ==> within_zones(s, zones).access_group == s.access_group,
        ({
            let r = within_zones(s, zones);
            &&& r.lane_type == s.lane_type
            &&& r.reversible == s.reversible
            &&& r.passing_allowed == s.passing_allowed
            &&& r.clearance_width == s.clearance_width
            &&& r.clearance_height == s.clearance_height
            &&& r.surface_type == s.surface_type
            &&& r.allowed_payload == s.allowed_payload
            &&& r.cost_bias == s.cost_bias
            &&& r.preferred_direction == s.preferred_direction
            &&& r.directed == s.directed
            &&& r.properties == s.properties
        }),
    decreases zones.len(),
{
    if zones.len() > 0 {
        lemma_no_zone_allows_again(s, zones.drop_last());
    }
}

/// Where an edge says nothing itself, the first of its zones that says something
/// decides whether waiting is allowed, its priority, for which robots and when it
/// is, and who has access. The first of its zones decides whether a claim is
/// needed.
pub proof fn lemma_first_zone_decides(
    s: EdgeTrafficSemanticsView,
    zones: Seq<ZonePolicyView>,
    i: int,
)
    requires
        0 <= i < zones.len(),
    ensures
        ({
            let r = within_zones(s, zones);
            &&& s.waiting_allowed is None && zones[i].waiting_allowed is Some && (forall|j: int|
                0 <= j < i ==> (#[trigger] zones[j]).waiting_allowed is None) ==> r.waiting_allowed
                == zones[i].waiting_allowed
            &&& s.priority is None && zones[i].priority is Some && (forall|j: int|
                0 <= j < i ==> (#[trigger] zones[j]).priority is None) ==> r.priority
                == zones[i].priority
            &&& s.robot_class is None && zones[i].robot_class is Some && (forall|j: int|
                0 <= j < i ==> (#[trigger] zones[j]).robot_class is None) ==> r.robot_class
                == zones[i].robot_class
            &&& s.schedule_window is None && zones[i].schedule_window is Some && (forall|j: int|
                0 <= j < i ==> (#[trigger] zones[j]).schedule_window is None)
                ==> r.schedule_window == zones[i].schedule_window
            &&& s.access_group is None && zones[i].access_group is Some && (forall|j: int|
                0 <= j < i ==> (#[trigger] zones[j]).access_group is None) ==> r.access_group
                == zones[i].access_group
            &&& s.requires_claim is None ==> r.requires_claim == Some(zones[0].requires_claim)
        }),
    decreases zones.len(),
{
    let rest = zones.drop_last();
    let before = within_zones(s, rest);
    assert forall|j: int| 0 <= j < rest.len() implies #[trigger] rest[j] == zones[j] by {}
    if i < rest.len() {
        lemma_first_zone_decides(s, rest, i);
        assert(rest[0] == zones[0]);
    } else {
        lemma_silent_zones(s, rest);
        if rest.len() > 0 {
            lemma_first_zone_decides(s, rest, 0);
        }
    }
}

proof fn lemma_silent_zones(s: EdgeTrafficSemanticsView, zones: Seq<ZonePolicyView>)
    ensures
        ({
            let r = within_zones(s, zones);
            &&& (forall|j: int| 0 <= j < zones.len() ==> (#[trigger] zones[j]).waiting_allowed
                is None) ==> r.waiting_allowed == s.waiting_allowed
            &&& (forall|j: int| 0 <= j < zones.len() ==> (#[trigger] zones[j]).priority is None)
                ==> r.priority == s.priority
            &&& (forall|j: int| 0 <= j < zones.len() ==> (#[trigger] zones[j]).robot_class is None)
                ==> r.robot_class == s.robot_class
            &&& (forall|j: int| 0 <= j < zones.len() ==> (#[trigger] zones[j]).schedule_window
                is None) ==> r.schedule_window == s.schedule_window
            &&& (forall|j: int| 0 <= j < zones.len() ==> (#[trigger] zones[j]).access_group
                is None) ==> r.access_group == s.access_group
        }),
    decreases zones.len(),
{
    if zones.len() > 0 {
        let rest = zones.drop_last();
        lemma_silent_zones(s, rest);
        assert forall|j: int| 0 <= j < rest.len() implies #[trigger] rest[j] == zones[j] by {}
        assert(zones[zones.len() - 1] == zones.last());
    }
}

/// The capacity of an edge is the least of its own and of those of its zones that
/// state one.
pub proof fn lemma_least_capacity_counts(s: EdgeTrafficSemanticsView, zones: Seq<ZonePolicyView>)
    ensures
        ({
            let r = within_zones(s, zones);
            &&& s.capacity matches Some(c) ==> (r.capacity matches Some(n) && n <= c)
            &&& forall|i: int|
                0 <= i < zones.len() && bounds(#[trigger] zones[i]) ==> (r.capacity matches Some(n)
                    && n <= zones[i].capacity)
            &&& r.capacity matches Some(n) ==> s.capacity == Some(n) || exists|i: int|
                0 <= i < zones.len() && bounds(#[trigger] zones[i]) && zones[i].capacity == n
        }),
    decreases zones.len(),
{
    if zones.len() > 0 {
        let rest = zones.drop_last();
        lemma_least_capacity_counts(s, rest);
        let n = zones.len() - 1;
        let before = within_zones(s, rest);
        let r = within_zones(s, zones);
        assert(zones[n] == zones.last());
        assert forall|i: int| 0 <= i < zones.len() && bounds(#[trigger] zones[i]) implies (
        r.capacity matches Some(m) && m <= zones[i].capacity) by {
            if i < n {
                assert(bounds(rest[i]));
            }
        }
        if let Some(m) = r.capacity {
            if before.capacity == Some(m) && s.capacity != Some(m) {
                let i = choose|i: int|
                    0 <= i < rest.len() && bounds(#[trigger] rest[i]) && rest[i].capacity == m;
                assert(zones[i] == rest[i]);
            }
        }
    }
}

/// The speed limit of an edge is the lowest of its own and of those of its zones,
/// as far as they are numbers.
pub proof fn lemma_lowest_limit_counts(s: EdgeTrafficSemanticsView, zones: Seq<ZonePolicyView>)
    ensures
        ({
            let r = within_zones(s, zones);
            &&& s.speed_limit matches Some(own) ==> r.speed_limit is Some && (
            !own.value.is_nan() ==> r.speed_limit.unwrap().value.at_most(own.value))
            &&& forall|i: int|
                0 <= i < zones.len() && (#[trigger] zones[i]).speed_limit is Some
                    && !zones[i].speed_limit.unwrap().value.is_nan() ==> r.speed_limit is Some
                    && r.speed_limit.unwrap().value.at_most(zones[i].speed_limit.unwrap().value)
            &&& r.speed_limit is Some ==> r.speed_limit == s.speed_limit || exists|i: int|
                0 <= i < zones.len() && (#[trigger] zones[i]).speed_limit == r.speed_limit
        }),
    decreases zones.len(),
{
    if zones.len() > 0 {
        let rest = zones.drop_last();
        lemma_lowest_limit_counts(s, rest);
        let n = zones.len() - 1;
        let before = within_zones(s, rest);
        let r = within_zones(s, zones);
        assert(zones[n] == zones.last());
        assert forall|i: int|
            0 <= i < zones.len() && (#[trigger] zones[i]).speed_limit is Some
                && !zones[i].speed_limit.unwrap().value.is_nan() implies r.speed_limit is Some
            && r.speed_limit.unwrap().value.at_most(zones[i].speed_limit.unwrap().value) by {
            if i < n {
                assert(rest[i].speed_limit is Some);
            }
        }
        if r.speed_limit is Some && r.speed_limit == before.speed_limit && r.speed_limit
            != s.speed_limit {
            let i = choose|i: int|
                0 <= i < rest.len() && (#[trigger] rest[i]).speed_limit == before.speed_limit;
            assert(zones[i] == rest[i]);
        }
    }
}

/// How many of some zones slow traffic down.
pub open spec fn slow_zones(zones: Seq<ZonePolicyView>) -> nat {
    zones.filter(|p: ZonePolicyView| p.kind == ZonePolicyKind::Slowdown).len()
}

/// A bias with one added some times.
pub open spec fn raised<A: Fn(Real, Real) -> Real>(plus: A, base: Real, times: nat) -> Real
    decreases times,
{
    if times == 0 {
        base
    } else {
        result_of(plus, raised(plus, base, (times - 1) as nat), Real { bits: ONE_BITS })
    }
}

/// Each zone that slows traffic down adds one to the bias on the cost of an edge,
/// which begins at nothing where the edge states none. Without such a zone the
/// bias is as the edge states it.
pub proof fn lemma_slow_zones_raise_the_bias<A: Fn(Real, Real) -> Real>(
    plus: A,
    bias: Option<Real>,
    zones: Seq<ZonePolicyView>,
)
    ensures
        slow_zones(zones) == 0 ==> slowed_bias(plus, bias, zones) == bias,
        slow_zones(zones) > 0 ==> slowed_bias(plus, bias, zones) == Some(
            raised(
                plus,
                match bias {
                    Some(b) => b,
                    None => Real { bits: 0 },
                },
                slow_zones(zones),
            ),
        ),
    decreases zones.len(),
{
    reveal(Seq::filter);
    reveal_with_fuel(raised, 2);
    if zones.len() > 0 {
        lemma_slow_zones_raise_the_bias(plus, bias, zones.drop_last());
    }
}

/// What an edge comes to in its zones is what they restrict it to, with the bias
/// that they raise.
pub proof fn lemma_effective_is_restricted<A: Fn(Real, Real) -> Real>(
    plus: A,
    properties: Seq<PropertyView>,
    directed: bool,
    zones: Seq<ZonePolicyView>,
)
    ensures
        ({
            let e = effective_semantics(plus, properties, directed, zones);
            let r = restricted_semantics(properties, directed, zones);
            &&& e.cost_bias == slowed_bias(
                plus,
                edge_semantics_of(properties, directed).cost_bias,
                zones,
            )
            &&& e == (EdgeTrafficSemanticsView { cost_bias: e.cost_bias, ..r })
        }),
{
}

} // verus!
