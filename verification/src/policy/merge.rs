//! Merging zone policies and deriving what holds on an edge.

use super::parse::{edge_semantics_of, newer, parse_edge_traffic_semantics, zone_policy_of};
use super::{
    empty_policy, EdgeTrafficSemantics, EdgeTrafficSemanticsView, ZonePolicy, ZonePolicyKind,
    ZonePolicyView,
};
use crate::number::{is_operation, result_of, Number, NumberView, Real, ONE_BITS};
use crate::properties::{
    copy_number, copy_text, keys_ascend, lemma_overlaid_on_nothing, number_view,
    overlaid, text_view, Properties, PropertyView,
};
use crate::views::views;
use vstd::prelude::*;

verus! {

// ---------------------------------------------------------------------------
// merging
// ---------------------------------------------------------------------------

/// The kind of a zone inside another one: the stricter of restricted and
/// exclusive access wins, and otherwise the inner zone decides where it says
/// anything.
pub open spec fn merged_kind(parent: ZonePolicyKind, child: ZonePolicyKind) -> ZonePolicyKind {
    if parent == ZonePolicyKind::Restricted || child == ZonePolicyKind::Restricted {
        ZonePolicyKind::Restricted
    } else if parent == ZonePolicyKind::ExclusiveAccess || child
        == ZonePolicyKind::ExclusiveAccess {
        ZonePolicyKind::ExclusiveAccess
    } else if child != ZonePolicyKind::Informational {
        child
    } else {
        parent
    }
}

/// The capacity of a zone inside another one.
pub open spec fn merged_capacity(parent: ZonePolicyView, child: ZonePolicyView) -> u64 {
    if parent.capacity_is_explicit && (!child.capacity_is_explicit || parent.capacity
        <= child.capacity) {
        parent.capacity
    } else {
        child.capacity
    }
}

/// The policy of a zone inside another one.
pub open spec fn merged(parent: ZonePolicyView, child: ZonePolicyView) -> ZonePolicyView {
    let kind = merged_kind(parent.kind, child.kind);
    let restricted = kind == ZonePolicyKind::Restricted;
    ZonePolicyView {
        kind,
        capacity: merged_capacity(parent, child),
        capacity_is_explicit: parent.capacity_is_explicit || child.capacity_is_explicit,
        requires_claim: parent.requires_claim || child.requires_claim,
        blocks_traversal_without_grant: restricted || parent.blocks_traversal_without_grant
            || child.blocks_traversal_without_grant,
        blocks_entry_without_grant: restricted || parent.blocks_entry_without_grant
            || child.blocks_entry_without_grant,
        priority: newer(child.priority, parent.priority),
        speed_limit: newer(child.speed_limit, parent.speed_limit),
        waiting_allowed: if restricted {
            Some(false)
        } else {
            newer(child.waiting_allowed, parent.waiting_allowed)
        },
        stop_allowed: if restricted || kind == ZonePolicyKind::NoStop {
            Some(false)
        } else {
            newer(child.stop_allowed, parent.stop_allowed)
        },
        blocked: newer(child.blocked, parent.blocked),
        replan_trigger: newer(child.replan_trigger, parent.replan_trigger),
        entry_rule: newer(child.entry_rule, parent.entry_rule),
        exit_rule: newer(child.exit_rule, parent.exit_rule),
        robot_class: newer(child.robot_class, parent.robot_class),
        schedule_window: newer(child.schedule_window, parent.schedule_window),
        access_group: newer(child.access_group, parent.access_group),
        properties: overlaid(parent.properties, child.properties),
    }
}

fn merge_kinds(parent: ZonePolicyKind, child: ZonePolicyKind) -> (k: ZonePolicyKind)
    ensures
        k == merged_kind(parent, child),
{
    if parent == ZonePolicyKind::Restricted || child == ZonePolicyKind::Restricted {
        ZonePolicyKind::Restricted
    } else if parent == ZonePolicyKind::ExclusiveAccess || child
        == ZonePolicyKind::ExclusiveAccess {
        ZonePolicyKind::ExclusiveAccess
    } else if child != ZonePolicyKind::Informational {
        child
    } else {
        parent
    }
}

fn newer_flag(new: Option<bool>, before: Option<bool>) -> (r: Option<bool>)
    ensures
        r == newer(new, before),
{
    if new.is_some() {
        new
    } else {
        before
    }
}

fn newer_number(new: &Option<Number>, before: &Option<Number>) -> (r: Option<Number>)
    ensures
        number_view(r) == newer(number_view(*new), number_view(*before)),
{
    if new.is_some() {
        copy_number(new)
    } else {
        copy_number(before)
    }
}

fn newer_text(new: &Option<String>, before: &Option<String>) -> (r: Option<String>)
    ensures
        text_view(r) == newer(text_view(*new), text_view(*before)),
{
    if new.is_some() {
        copy_text(new)
    } else {
        copy_text(before)
    }
}

/// Merges the policy of a zone into that of the zone around it. Restrictions
/// add up, and what the inner zone states otherwise replaces what the outer one
/// states.
pub fn merge_zone_policy(parent: &ZonePolicy, child: &ZonePolicy) -> (m: ZonePolicy)
    ensures
        m@ == merged(parent@, child@),
{
    let kind = merge_kinds(parent.kind, child.kind);
    let restricted = kind == ZonePolicyKind::Restricted;
    let capacity: u64 = if parent.capacity_is_explicit && (!child.capacity_is_explicit
        || parent.capacity <= child.capacity) {
        parent.capacity
    } else {
        child.capacity
    };
    let mut properties = parent.properties.clone();
    properties.overlay(&child.properties);
    ZonePolicy {
        kind,
        capacity,
        capacity_is_explicit: parent.capacity_is_explicit || child.capacity_is_explicit,
        requires_claim: parent.requires_claim || child.requires_claim,
        blocks_traversal_without_grant: restricted || parent.blocks_traversal_without_grant
            || child.blocks_traversal_without_grant,
        blocks_entry_without_grant: restricted || parent.blocks_entry_without_grant
            || child.blocks_entry_without_grant,
        priority: newer_number(&child.priority, &parent.priority),
        speed_limit: newer_number(&child.speed_limit, &parent.speed_limit),
        waiting_allowed: if restricted {
            Some(false)
        } else {
            newer_flag(child.waiting_allowed, parent.waiting_allowed)
        },
        stop_allowed: if restricted || kind == ZonePolicyKind::NoStop {
            Some(false)
        } else {
            newer_flag(child.stop_allowed, parent.stop_allowed)
        },
        blocked: newer_flag(child.blocked, parent.blocked),
        replan_trigger: newer_flag(child.replan_trigger, parent.replan_trigger),
        entry_rule: newer_text(&child.entry_rule, &parent.entry_rule),
        exit_rule: newer_text(&child.exit_rule, &parent.exit_rule),
        robot_class: newer_text(&child.robot_class, &parent.robot_class),
        schedule_window: newer_text(&child.schedule_window, &parent.schedule_window),
        access_group: newer_text(&child.access_group, &parent.access_group),
        properties,
    }
}

/// Merging never loosens: a claim, an entry block or a traversal block that
/// either zone asks for is asked for, and a restricted zone stays restricted.
pub proof fn lemma_merge_never_loosens(parent: ZonePolicyView, child: ZonePolicyView)
    ensures
        merged(parent, child).requires_claim <==> parent.requires_claim || child.requires_claim,
        parent.blocks_entry_without_grant || child.blocks_entry_without_grant ==> merged(
            parent,
            child,
        ).blocks_entry_without_grant,
        parent.blocks_traversal_without_grant || child.blocks_traversal_without_grant ==> merged(
            parent,
            child,
        ).blocks_traversal_without_grant,
        merged(parent, child).kind == ZonePolicyKind::Restricted <==> parent.kind
            == ZonePolicyKind::Restricted || child.kind == ZonePolicyKind::Restricted,
        merged(parent, child).kind == ZonePolicyKind::Restricted ==> merged(
            parent,
            child,
        ).stop_allowed == Some(false) && merged(parent, child).waiting_allowed == Some(false),
{
}

/// A capacity that either zone states bounds the merged capacity.
pub proof fn lemma_merge_takes_least_capacity(parent: ZonePolicyView, child: ZonePolicyView)
    ensures
        merged(parent, child).capacity_is_explicit <==> parent.capacity_is_explicit
            || child.capacity_is_explicit,
        parent.capacity_is_explicit ==> merged(parent, child).capacity <= parent.capacity,
        child.capacity_is_explicit ==> merged(parent, child).capacity <= child.capacity,
        merged(parent, child).capacity == parent.capacity || merged(parent, child).capacity
            == child.capacity,
{
}

/// The strictness of three nested zones does not depend on which two are merged
/// first.
pub proof fn lemma_strictness_is_associative(a: ZonePolicyView, b: ZonePolicyView, c: ZonePolicyView)
    ensures
        ({
            let left = merged(merged(a, b), c);
            let right = merged(a, merged(b, c));
            &&& left.kind == right.kind
            &&& left.capacity == right.capacity
            &&& left.capacity_is_explicit == right.capacity_is_explicit
            &&& left.requires_claim == right.requires_claim
            &&& left.blocks_entry_without_grant == right.blocks_entry_without_grant
            &&& left.blocks_traversal_without_grant == right.blocks_traversal_without_grant
            &&& left.priority == right.priority
            &&& left.speed_limit == right.speed_limit
            &&& left.blocked == right.blocked
        }),
{
}

/// Merging a zone that states nothing of stopping and waiting beyond its kind
/// into a zone that states nothing leaves it as it is.
pub proof fn lemma_merge_into_empty(child: ZonePolicyView)
    requires
        keys_ascend(child.properties),
        child.kind == ZonePolicyKind::Restricted ==> child.blocks_entry_without_grant
            && child.blocks_traversal_without_grant && child.waiting_allowed == Some(false)
            && child.stop_allowed == Some(false),
        child.kind == ZonePolicyKind::NoStop ==> child.stop_allowed == Some(false),
    ensures
        merged(empty_policy(), child) == child,
{
    lemma_overlaid_on_nothing(child.properties);
}

// ---------------------------------------------------------------------------
// effective edge semantics
// ---------------------------------------------------------------------------

/// The lower of two limits.
pub open spec fn lower_limit(current: Option<NumberView>, limit: NumberView) -> NumberView {
    match current {
        Some(c) => if c.value.is_nan() || limit.value.less_than(c.value) {
            limit
        } else {
            c
        },
        None => limit,
    }
}

/// The lower of two capacities.
pub open spec fn lower_capacity(current: Option<u64>, capacity: u64) -> u64 {
    match current {
        Some(c) => if c <= capacity {
            c
        } else {
            capacity
        },
        None => capacity,
    }
}

/// Whether traffic through a zone is shut off.
pub open spec fn zone_closed(p: ZonePolicyView) -> bool {
    p.blocked == Some(true) || p.kind == ZonePolicyKind::Restricted
}

/// Whether a zone limits how many robots are in it.
pub open spec fn zone_limited(p: ZonePolicyView) -> bool {
    p.capacity_is_explicit || p.kind == ZonePolicyKind::CapacityLimited
}

/// What one more containing zone makes of the semantics of an edge.
pub open spec fn within_zone(
    s: EdgeTrafficSemanticsView,
    p: ZonePolicyView,
) -> EdgeTrafficSemanticsView {
    let no_stop = zone_closed(p) || p.kind == ZonePolicyKind::NoStop;
    EdgeTrafficSemanticsView {
        speed_limit: match p.speed_limit {
            Some(limit) => Some(lower_limit(s.speed_limit, limit)),
            None => s.speed_limit,
        },
        capacity: if zone_limited(p) {
            Some(lower_capacity(s.capacity, p.capacity))
        } else {
            s.capacity
        },
        capacity_is_explicit: s.capacity_is_explicit || zone_limited(p),
        robot_class: newer(s.robot_class, p.robot_class),
        schedule_window: newer(s.schedule_window, p.schedule_window),
        access_group: newer(s.access_group, p.access_group),
        waiting_allowed: newer(s.waiting_allowed, p.waiting_allowed),
        stop_allowed: if no_stop {
            Some(false)
        } else {
            newer(s.stop_allowed, p.stop_allowed)
        },
        requires_claim: newer(s.requires_claim, Some(p.requires_claim)),
        priority: newer(s.priority, p.priority),
        no_stop: if no_stop {
            Some(true)
        } else {
            s.no_stop
        },
        blocked: if zone_closed(p) {
            Some(true)
        } else {
            s.blocked
        },
        ..s
    }
}

/// What all containing zones make of the semantics of an edge.
pub open spec fn within_zones(
    s: EdgeTrafficSemanticsView,
    zones: Seq<ZonePolicyView>,
) -> EdgeTrafficSemanticsView
    decreases zones.len(),
{
    if zones.len() == 0 {
        s
    } else {
        within_zone(within_zones(s, zones.drop_last()), zones.last())
    }
}

/// The semantics of an edge with the given properties inside the given zones,
/// but for what the zones add to its cost bias.
pub open spec fn restricted_semantics(
    properties: Seq<PropertyView>,
    directed: bool,
    zones: Seq<ZonePolicyView>,
) -> EdgeTrafficSemanticsView {
    within_zones(
        EdgeTrafficSemanticsView { directed, ..edge_semantics_of(properties, directed) },
        zones,
    )
}

/// A cost bias with one added, to nothing if there is none, for each of the zones
/// that slows traffic down.
pub open spec fn slowed_bias<A: Fn(Real, Real) -> Real>(
    plus: A,
    bias: Option<Real>,
    zones: Seq<ZonePolicyView>,
) -> Option<Real>
    decreases zones.len(),
{
    if zones.len() == 0 {
        bias
    } else {
        let before = slowed_bias(plus, bias, zones.drop_last());
        if zones.last().kind == ZonePolicyKind::Slowdown {
            let base = match before {
                Some(b) => b,
                None => Real { bits: 0 },
            };
            Some(result_of(plus, base, Real { bits: ONE_BITS }))
        } else {
            before
        }
    }
}

/// The semantics of an edge with the given properties inside the given zones.
pub open spec fn effective_semantics<A: Fn(Real, Real) -> Real>(
    plus: A,
    properties: Seq<PropertyView>,
    directed: bool,
    zones: Seq<ZonePolicyView>,
) -> EdgeTrafficSemanticsView {
    EdgeTrafficSemanticsView {
        cost_bias: slowed_bias(plus, edge_semantics_of(properties, directed).cost_bias, zones),
        ..restricted_semantics(properties, directed, zones)
    }
}

fn lower_limits(current: &Option<Number>, limit: &Option<Number>) -> (r: Option<Number>)
    ensures
        number_view(r) == match number_view(*limit) {
            Some(l) => Some(lower_limit(number_view(*current), l)),
            None => number_view(*current),
        },
{
    match (current, limit) {
        (Some(c), Some(l)) => if c.value.not_a_number() || l.value.less(c.value) {
            Some(l.clone())
        } else {
            Some(c.clone())
        },
        (None, Some(l)) => Some(l.clone()),
        (_, None) => copy_number(current),
    }
}

fn lower_capacities(current: Option<u64>, capacity: u64) -> (r: u64)
    ensures
        r == lower_capacity(current, capacity),
{
    match current {
        Some(c) => if c <= capacity {
            c
        } else {
            capacity
        },
        None => capacity,
    }
}

fn apply_zone_policy(semantics: &mut EdgeTrafficSemantics, policy: &ZonePolicy)
    ensures
        final(semantics)@ == within_zone(old(semantics)@, policy@),
{
    let closed = policy.blocked == Some(true) || policy.kind == ZonePolicyKind::Restricted;
    let limited = policy.capacity_is_explicit || policy.kind == ZonePolicyKind::CapacityLimited;
    let no_stop = closed || policy.kind == ZonePolicyKind::NoStop;
    semantics.speed_limit = lower_limits(&semantics.speed_limit, &policy.speed_limit);
    semantics.capacity = if limited {
        Some(lower_capacities(semantics.capacity, policy.capacity))
    } else {
        semantics.capacity
    };
    semantics.capacity_is_explicit = semantics.capacity_is_explicit || limited;
    semantics.robot_class = newer_text(&semantics.robot_class, &policy.robot_class);
    semantics.schedule_window = newer_text(&semantics.schedule_window, &policy.schedule_window);
    semantics.access_group = newer_text(&semantics.access_group, &policy.access_group);
    semantics.waiting_allowed = newer_flag(semantics.waiting_allowed, policy.waiting_allowed);
    semantics.stop_allowed = if no_stop {
        Some(false)
    } else {
        newer_flag(semantics.stop_allowed, policy.stop_allowed)
    };
    semantics.requires_claim = newer_flag(semantics.requires_claim, Some(policy.requires_claim));
    semantics.priority = newer_number(&semantics.priority, &policy.priority);
    semantics.no_stop = if no_stop {
        Some(true)
    } else {
        semantics.no_stop
    };
    semantics.blocked = if closed {
        Some(true)
    } else {
        semantics.blocked
    };
}

/// Combines what is known of an edge, its properties, and the restrictions of
/// the zones that contain it. The cost bias is as the edge states it.
pub fn restrict_edge_semantics(
    properties: &Properties,
    directed: bool,
    zone_policies: &Vec<ZonePolicy>,
) -> (s: EdgeTrafficSemantics)
    ensures
        s@ == restricted_semantics(properties@, directed, views(zone_policies@)),
{
    let mut s = parse_edge_traffic_semantics(properties, directed);
    s.directed = directed;
    let ghost base = s@;
    let ghost zones = views(zone_policies@);
    let mut i: usize = 0;
    assert(zones.take(0) =~= Seq::empty());
    while i < zone_policies.len()
        invariant
            i <= zone_policies.len(),
            zones == views(zone_policies@),
            s@ == within_zones(base, zones.take(i as int)),
        decreases zone_policies.len() - i,
    {
        assert(zones.take(i as int + 1).drop_last() =~= zones.take(i as int));
        apply_zone_policy(&mut s, &zone_policies[i]);
        i = i + 1;
    }
    assert(zones.take(i as int) =~= zones);
    s
}

proof fn lemma_zones_keep_bias(s: EdgeTrafficSemanticsView, zones: Seq<ZonePolicyView>)
    ensures
        within_zones(s, zones).cost_bias == s.cost_bias,
    decreases zones.len(),
{
    if zones.len() > 0 {
        lemma_zones_keep_bias(s, zones.drop_last());
    }
}

/// Combines what is known of an edge, its properties, and the restrictions of
/// the zones that contain it. `plus` adds two quantities.
pub fn derive_effective_edge_semantics<A: Fn(Real, Real) -> Real>(
    properties: &Properties,
    directed: bool,
    zone_policies: &Vec<ZonePolicy>,
    plus: &A,
) -> (s: EdgeTrafficSemantics)
    requires
        is_operation(*plus),
    ensures
        s@ == effective_semantics(*plus, properties@, directed, views(zone_policies@)),
{
    let mut s = restrict_edge_semantics(properties, directed, zone_policies);
    let ghost zones = views(zone_policies@);
    let ghost base = edge_semantics_of(properties@, directed).cost_bias;
    proof {
        lemma_zones_keep_bias(
            EdgeTrafficSemanticsView { directed, ..edge_semantics_of(properties@, directed) },
            zones,
        );
    }
    let mut bias: Option<Real> = s.cost_bias;
    let mut i: usize = 0;
    assert(zones.take(0) =~= Seq::empty());
    while i < zone_policies.len()
        invariant
            i <= zone_policies.len(),
            is_operation(*plus),
            zones == views(zone_policies@),
            bias == slowed_bias(*plus, base, zones.take(i as int)),
        decreases zone_policies.len() - i,
    {
        assert(zones.take(i as int + 1).drop_last() =~= zones.take(i as int));
        assert(zones[i as int] == zone_policies@[i as int]@);
        if zone_policies[i].kind == ZonePolicyKind::Slowdown {
            let before = match bias {
                Some(b) => b,
                None => Real::zero(),
            };
            let sum: Real = plus(before, Real::one());
            assert(sum == result_of(*plus, before, Real { bits: ONE_BITS }));
            bias = Some(sum);
        }
        i = i + 1;
    }
    assert(zones.take(i as int) =~= zones);
    s.cost_bias = bias;
    s
}

/// Every zone that contains an edge only ever tightens it: one closed zone
/// blocks the edge, and no zone's capacity is exceeded.
pub proof fn lemma_zones_tighten_edges<A: Fn(Real, Real) -> Real>(
    plus: A,
    properties: Seq<PropertyView>,
    directed: bool,
    zones: Seq<ZonePolicyView>,
    i: int,
)
    requires
        0 <= i < zones.len(),
    ensures
        zone_closed(zones[i]) ==> effective_semantics(plus, properties, directed, zones).blocked
            == Some(true),
        zone_limited(zones[i]) ==> (effective_semantics(plus, properties, directed, zones).capacity
            matches Some(c) && c <= zones[i].capacity),
{
    lemma_zones_tighten(
        EdgeTrafficSemanticsView { directed, ..edge_semantics_of(properties, directed) },
        zones,
        i,
    );
}

proof fn lemma_zones_tighten(s: EdgeTrafficSemanticsView, zones: Seq<ZonePolicyView>, i: int)
    requires
        0 <= i < zones.len(),
    ensures
        zone_closed(zones[i]) ==> within_zones(s, zones).blocked == Some(true),
        zone_limited(zones[i]) ==> (within_zones(s, zones).capacity matches Some(c) && c
            <= zones[i].capacity),
    decreases zones.len(),
{
    if i < zones.len() - 1 {
        lemma_zones_tighten(s, zones.drop_last(), i);
    }
}

/// A blocked zone is restricted, and can be neither entered nor crossed without
/// a grant.
pub proof fn lemma_blocked_zone_is_restricted(entries: Seq<PropertyView>)
    ensures
        zone_policy_of(entries).blocked == Some(true) ==> zone_policy_of(entries).kind
            == ZonePolicyKind::Restricted && zone_policy_of(entries).blocks_entry_without_grant
            && zone_policy_of(entries).blocks_traversal_without_grant,
{
}

} // verus!
