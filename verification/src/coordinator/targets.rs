//! What traffic policy says of a claimed target, and when a route is at each of
//! its targets.

use crate::claim::conflicts::{
    claim_windows_overlap, do_zones_overlap, indexed, windows_overlap, zones_overlap,
};
use crate::claim::reasons::list_edge_policies;
use crate::claim::{ClaimTarget, ClaimTargetKind, ClaimWindow};
use crate::guid::Uuid;
use crate::index::tables::{edge_at, policy_at};
use crate::index::{edge_policies, node_policies, WorkspaceIndex};
use crate::number::{Number, NumberView, Real};
use crate::policy::merge::{restrict_edge_semantics, restricted_semantics};
use crate::policy::parse::newer;
use crate::policy::{
    EdgeTrafficSemantics, EdgeTrafficSemanticsView, ZonePolicy, ZonePolicyKind, ZonePolicyView,
};
use crate::properties::{copy_text, number_view, text_view};
use crate::route::assemble::{shape_error, validate_route_plan_shape};
use crate::route::{RoutePlan, RoutePlanView};
use crate::text::same_text;
use crate::views::{lemma_views_push, views};
use crate::workspace::Workspace;
use vstd::prelude::*;

verus! {

/// What traffic policy says of a claimed target.
#[derive(Debug)]
pub struct ClaimTargetSemantics {
    pub target: ClaimTarget,
    pub requires_claim: bool,
    pub waiting_allowed: bool,
    pub stop_allowed: bool,
    pub blocked: bool,
    pub corridor: bool,
    pub slowdown: bool,
    pub schedule_window: Option<String>,
    pub access_group: Option<String>,
}

/// What a [`ClaimTargetSemantics`] stands for.
pub struct ClaimTargetSemanticsView {
    pub target: ClaimTarget,
    pub requires_claim: bool,
    pub waiting_allowed: bool,
    pub stop_allowed: bool,
    pub blocked: bool,
    pub corridor: bool,
    pub slowdown: bool,
    pub schedule_window: Option<Seq<char>>,
    pub access_group: Option<Seq<char>>,
}

impl View for ClaimTargetSemantics {
    type V = ClaimTargetSemanticsView;

    open spec fn view(&self) -> ClaimTargetSemanticsView {
        ClaimTargetSemanticsView {
            target: self.target,
            requires_claim: self.requires_claim,
            waiting_allowed: self.waiting_allowed,
            stop_allowed: self.stop_allowed,
            blocked: self.blocked,
            corridor: self.corridor,
            slowdown: self.slowdown,
            schedule_window: text_view(self.schedule_window),
            access_group: text_view(self.access_group),
        }
    }
}

impl Clone for ClaimTargetSemantics {
    fn clone(&self) -> (r: Self)
        ensures
            r == *self,
    {
        let r = ClaimTargetSemantics {
            target: self.target,
            requires_claim: self.requires_claim,
            waiting_allowed: self.waiting_allowed,
            stop_allowed: self.stop_allowed,
            blocked: self.blocked,
            corridor: self.corridor,
            slowdown: self.slowdown,
            schedule_window: copy_text(&self.schedule_window),
            access_group: copy_text(&self.access_group),
        };
        r
    }
}

impl Default for ClaimTargetSemantics {
    fn default() -> (s: Self)
        ensures
            s@ == blank_semantics(),
    {
        ClaimTargetSemantics {
            target: ClaimTarget::default(),
            requires_claim: false,
            waiting_allowed: false,
            stop_allowed: false,
            blocked: false,
            corridor: false,
            slowdown: false,
            schedule_window: None,
            access_group: None,
        }
    }
}

/// What is said of no target in particular.
pub open spec fn blank_semantics() -> ClaimTargetSemanticsView {
    ClaimTargetSemanticsView {
        target: ClaimTarget { kind: ClaimTargetKind::Zone, resource_id: 0 },
        requires_claim: false,
        waiting_allowed: false,
        stop_allowed: false,
        blocked: false,
        corridor: false,
        slowdown: false,
        schedule_window: None,
        access_group: None,
    }
}

/// A target of which policy says nothing.
pub open spec fn free_target(target: ClaimTarget) -> ClaimTargetSemanticsView {
    ClaimTargetSemanticsView {
        target,
        requires_claim: false,
        waiting_allowed: true,
        stop_allowed: true,
        blocked: false,
        corridor: false,
        slowdown: false,
        schedule_window: None,
        access_group: None,
    }
}

/// What is said, and otherwise a default.
pub open spec fn or_else(flag: Option<bool>, default: bool) -> bool {
    match flag {
        Some(b) => b,
        None => default,
    }
}

fn flag_or(flag: Option<bool>, default: bool) -> (b: bool)
    ensures
        b == or_else(flag, default),
{
    match flag {
        Some(b) => b,
        None => default,
    }
}

/// Whether a speed limit is below one.
pub open spec fn is_slow(limit: Option<NumberView>) -> bool {
    limit matches Some(n) && n.value.less_than(Real { bits: crate::number::ONE_BITS })
}

fn slow(limit: &Option<Number>) -> (b: bool)
    ensures
        b == is_slow(number_view(*limit)),
{
    match limit {
        Some(n) => n.value.less(Real::one()),
        None => false,
    }
}

/// Whether a zone keeps traffic out.
pub open spec fn keeps_out(p: ZonePolicyView) -> bool {
    or_else(p.blocked, false) || p.blocks_entry_without_grant || p.blocks_traversal_without_grant
}

fn does_keep_out(p: &ZonePolicy) -> (b: bool)
    ensures
        b == keeps_out(p@),
{
    flag_or(p.blocked, false) || p.blocks_entry_without_grant || p.blocks_traversal_without_grant
}

/// Whether a zone slows traffic down.
pub open spec fn slows_down(p: ZonePolicyView) -> bool {
    p.kind == ZonePolicyKind::Slowdown || is_slow(p.speed_limit)
}

fn does_slow_down(p: &ZonePolicy) -> (b: bool)
    ensures
        b == slows_down(p@),
{
    p.kind == ZonePolicyKind::Slowdown || slow(&p.speed_limit)
}

/// What the policy of a zone says of a claim on it.
pub open spec fn zone_target(target: ClaimTarget, p: ZonePolicyView) -> ClaimTargetSemanticsView {
    ClaimTargetSemanticsView {
        target,
        requires_claim: p.requires_claim,
        waiting_allowed: or_else(p.waiting_allowed, true),
        stop_allowed: or_else(p.stop_allowed, !or_else(p.blocked, false)),
        blocked: keeps_out(p),
        corridor: p.kind == ZonePolicyKind::Corridor,
        slowdown: slows_down(p),
        schedule_window: p.schedule_window,
        access_group: p.access_group,
    }
}

/// What the semantics of an edge say of a claim on it.
pub open spec fn edge_target(
    target: ClaimTarget,
    s: EdgeTrafficSemanticsView,
) -> ClaimTargetSemanticsView {
    ClaimTargetSemanticsView {
        target,
        requires_claim: or_else(s.requires_claim, false),
        waiting_allowed: or_else(s.waiting_allowed, true),
        stop_allowed: or_else(s.stop_allowed, !or_else(s.blocked, false)),
        blocked: or_else(s.blocked, false),
        corridor: s.lane_type == Some("corridor"@),
        slowdown: is_slow(s.speed_limit),
        schedule_window: s.schedule_window,
        access_group: s.access_group,
    }
}

/// What one more zone around a node says of a claim on it.
pub open spec fn within(s: ClaimTargetSemanticsView, p: ZonePolicyView) -> ClaimTargetSemanticsView {
    ClaimTargetSemanticsView {
        target: s.target,
        requires_claim: s.requires_claim || p.requires_claim,
        waiting_allowed: s.waiting_allowed && or_else(p.waiting_allowed, true),
        stop_allowed: s.stop_allowed && or_else(p.stop_allowed, true),
        blocked: s.blocked || keeps_out(p),
        corridor: s.corridor || p.kind == ZonePolicyKind::Corridor,
        slowdown: s.slowdown || slows_down(p),
        schedule_window: newer(s.schedule_window, p.schedule_window),
        access_group: newer(s.access_group, p.access_group),
    }
}

/// What the zones around a node say of a claim on it.
pub open spec fn node_target(target: ClaimTarget, zones: Seq<ZonePolicyView>) -> ClaimTargetSemanticsView
    decreases zones.len(),
{
    if zones.len() == 0 {
        free_target(target)
    } else {
        within(node_target(target, zones.drop_last()), zones.last())
    }
}

/// What traffic policy says of a claimed target.
pub open spec fn target_semantics(ws: &Workspace, target: ClaimTarget) -> ClaimTargetSemanticsView {
    match target.kind {
        ClaimTargetKind::Zone => match policy_at(ws, target.resource_id) {
            Some(p) => zone_target(target, p),
            None => free_target(target),
        },
        ClaimTargetKind::Edge => match edge_at(ws, target.resource_id) {
            Some(e) => edge_target(
                target,
                restricted_semantics(e.properties@, false, edge_policies(ws, target.resource_id)),
            ),
            None => free_target(target),
        },
        ClaimTargetKind::Node => node_target(target, node_policies(ws, target.resource_id)),
    }
}

fn make_free_target(target: ClaimTarget) -> (s: ClaimTargetSemantics)
    ensures
        s@ == free_target(target),
{
    ClaimTargetSemantics {
        target,
        requires_claim: false,
        waiting_allowed: true,
        stop_allowed: true,
        blocked: false,
        corridor: false,
        slowdown: false,
        schedule_window: None,
        access_group: None,
    }
}

fn make_zone_target(target: ClaimTarget, p: &ZonePolicy) -> (s: ClaimTargetSemantics)
    ensures
        s@ == zone_target(target, p@),
{
    ClaimTargetSemantics {
        target,
        requires_claim: p.requires_claim,
        waiting_allowed: flag_or(p.waiting_allowed, true),
        stop_allowed: flag_or(p.stop_allowed, !flag_or(p.blocked, false)),
        blocked: does_keep_out(p),
        corridor: p.kind == ZonePolicyKind::Corridor,
        slowdown: does_slow_down(p),
        schedule_window: copy_text(&p.schedule_window),
        access_group: copy_text(&p.access_group),
    }
}

fn make_edge_target(target: ClaimTarget, e: &EdgeTrafficSemantics) -> (s: ClaimTargetSemantics)
    ensures
        s@ == edge_target(target, e@),
{
    let corridor = match &e.lane_type {
        Some(l) => same_text(l.as_str(), "corridor"),
        None => false,
    };
    ClaimTargetSemantics {
        target,
        requires_claim: flag_or(e.requires_claim, false),
        waiting_allowed: flag_or(e.waiting_allowed, true),
        stop_allowed: flag_or(e.stop_allowed, !flag_or(e.blocked, false)),
        blocked: flag_or(e.blocked, false),
        corridor,
        slowdown: slow(&e.speed_limit),
        schedule_window: copy_text(&e.schedule_window),
        access_group: copy_text(&e.access_group),
    }
}

fn make_within(s: &ClaimTargetSemantics, p: &ZonePolicy) -> (r: ClaimTargetSemantics)
    ensures
        r@ == within(s@, p@),
{
    ClaimTargetSemantics {
        target: s.target,
        requires_claim: s.requires_claim || p.requires_claim,
        waiting_allowed: s.waiting_allowed && flag_or(p.waiting_allowed, true),
        stop_allowed: s.stop_allowed && flag_or(p.stop_allowed, true),
        blocked: s.blocked || does_keep_out(p),
        corridor: s.corridor || p.kind == ZonePolicyKind::Corridor,
        slowdown: s.slowdown || does_slow_down(p),
        schedule_window: if s.schedule_window.is_some() {
            copy_text(&s.schedule_window)
        } else {
            copy_text(&p.schedule_window)
        },
        access_group: if s.access_group.is_some() {
            copy_text(&s.access_group)
        } else {
            copy_text(&p.access_group)
        },
    }
}

/// What traffic policy says of a claimed target.
pub fn claim_target_semantics(index: &WorkspaceIndex, target: ClaimTarget) -> (s:
    ClaimTargetSemantics)
    ensures
        s@ == target_semantics(&index@, target),
{
    match target.kind {
        ClaimTargetKind::Zone => match index.zone_policy(target.resource_id) {
            Some(p) => make_zone_target(target, p),
            None => make_free_target(target),
        },
        ClaimTargetKind::Edge => match index.edge(target.resource_id) {
            Some(edge) => {
                let policies = list_edge_policies(index, target.resource_id);
                let e = restrict_edge_semantics(&edge.properties, false, &policies);
                make_edge_target(target, &e)
            },
            None => make_free_target(target),
        },
        ClaimTargetKind::Node => {
            let policies = index.node_zone_policies(target.resource_id);
            let ghost zones = views(policies@);
            let mut s = make_free_target(target);
            let mut i: usize = 0;
            assert(zones.take(0) =~= Seq::empty());
            while i < policies.len()
                invariant
                    i <= policies.len(),
                    zones == views(policies@),
                    s@ == node_target(target, zones.take(i as int)),
                decreases policies.len() - i,
            {
                assert(zones.take(i as int + 1).drop_last() =~= zones.take(i as int));
                assert(zones[i as int] == policies@[i as int]@);
                s = make_within(&s, policies[i]);
                i = i + 1;
            }
            assert(zones.take(i as int) =~= zones);
            s
        },
    }
}

// ---------------------------------------------------------------------------
// when a route is where
// ---------------------------------------------------------------------------

/// A target of a route, and when the route is there.
#[derive(Debug)]
pub struct ScheduledTargetWindow {
    pub semantics: ClaimTargetSemantics,
    pub start_tick: u64,
    pub end_tick: u64,
}

/// What a [`ScheduledTargetWindow`] stands for.
pub struct ScheduledTargetWindowView {
    pub semantics: ClaimTargetSemanticsView,
    pub start_tick: u64,
    pub end_tick: u64,
}

impl View for ScheduledTargetWindow {
    type V = ScheduledTargetWindowView;

    open spec fn view(&self) -> ScheduledTargetWindowView {
        ScheduledTargetWindowView {
            semantics: self.semantics@,
            start_tick: self.start_tick,
            end_tick: self.end_tick,
        }
    }
}

impl Clone for ScheduledTargetWindow {
    fn clone(&self) -> (r: Self)
        ensures
            r@ == self@,
    {
        let r = ScheduledTargetWindow {
            semantics: self.semantics.clone(),
            start_tick: self.start_tick,
            end_tick: self.end_tick,
        };
        r
    }
}

impl Default for ScheduledTargetWindow {
    fn default() -> (w: Self)
        ensures
            w@ == (ScheduledTargetWindowView {
                semantics: blank_semantics(),
                start_tick: 0,
                end_tick: 0,
            }),
    {
        ScheduledTargetWindow {
            semantics: ClaimTargetSemantics::default(),
            start_tick: 0,
            end_tick: 0,
        }
    }
}

/// Whether scaling costs to ticks is a function of the cost.
pub open spec fn is_scale<H: Fn(Real) -> Real>(h: H) -> bool {
    &&& forall|c: Real| #[trigger] call_requires(h, (c,))
    &&& forall|c: Real, x: Real, y: Real| #[trigger]
        call_ensures(h, (c,), x) && #[trigger] call_ensures(h, (c,), y) ==> x == y
}

/// How many ticks a cost takes.
pub open spec fn ticks_for<H: Fn(Real) -> Real>(h: H, cost: Real) -> u64 {
    (choose|r: Real| call_ensures(h, (cost,), r)).ticks()
}

/// Whether the ticks of all steps of a plan can be counted.
pub open spec fn ticks_fit<H: Fn(Real) -> Real>(h: H, plan: RoutePlanView, start_tick: u64) -> bool {
    forall|i: int|
        0 <= i < plan.steps.len() ==> start_tick + ticks_for(
            h,
            (#[trigger] plan.steps[i]).cumulative_cost,
        ) <= u64::MAX
}

/// Whether the ticks of all steps of a plan can be counted. A route is to be
/// scheduled only where they can.
pub fn do_ticks_fit<H: Fn(Real) -> Real>(route_plan: &RoutePlan, start_tick: u64, scale: &H) -> (b:
    bool)
    requires
        is_scale(*scale),
    ensures
        b == ticks_fit(*scale, route_plan@, start_tick),
{
    let ghost plan = route_plan@;
    let mut i: usize = 0;
    while i < route_plan.steps.len()
        invariant
            i <= route_plan.steps.len(),
            is_scale(*scale),
            plan == route_plan@,
            forall|j: int|
                0 <= j < i ==> start_tick + ticks_for(
                    *scale,
                    (#[trigger] plan.steps[j]).cumulative_cost,
                ) <= u64::MAX,
        decreases route_plan.steps.len() - i,
    {
        let ticks: u64 = scale(route_plan.steps[i].cumulative_cost).ceil_ticks();
        assert(ticks == ticks_for(*scale, plan.steps[i as int].cumulative_cost));
        if ticks > u64::MAX - start_tick {
            return false;
        }
        i = i + 1;
    }
    true
}

/// When a route that begins at a tick is at one of its steps.
pub open spec fn tick_at<H: Fn(Real) -> Real>(
    h: H,
    plan: RoutePlanView,
    start_tick: u64,
    i: int,
) -> u64 {
    if 0 <= i < plan.steps.len() {
        (start_tick + ticks_for(h, plan.steps[i].cumulative_cost)) as u64
    } else {
        start_tick
    }
}

/// The later of two ticks.
pub open spec fn later(a: u64, b: u64) -> u64 {
    if a >= b {
        a
    } else {
        b
    }
}

/// A target and the ticks in which a route is there.
pub open spec fn target_window(
    ws: &Workspace,
    kind: ClaimTargetKind,
    resource_id: Uuid,
    start_tick: u64,
    end_tick: u64,
) -> ScheduledTargetWindowView {
    ScheduledTargetWindowView {
        semantics: target_semantics(ws, ClaimTarget { kind, resource_id }),
        start_tick,
        end_tick,
    }
}

/// Zones and the ticks in which a route is there.
pub open spec fn zone_windows(
    ws: &Workspace,
    zones: Seq<Uuid>,
    start_tick: u64,
    end_tick: u64,
) -> Seq<ScheduledTargetWindowView> {
    zones.map_values(
        |id: Uuid| target_window(ws, ClaimTargetKind::Zone, id, start_tick, end_tick),
    )
}

/// The zones listed for a place, if any are.
pub open spec fn listed(zones: Seq<Seq<Uuid>>, i: int) -> Seq<Uuid> {
    if 0 <= i < zones.len() {
        zones[i]
    } else {
        Seq::empty()
    }
}

/// What a route is at from its node number `i` on until the next one: the node
/// and its zones, then the edge that leads on and its zones.
pub open spec fn windows_at<H: Fn(Real) -> Real>(
    ws: &Workspace,
    h: H,
    plan: RoutePlanView,
    start_tick: u64,
    i: int,
) -> Seq<ScheduledTargetWindowView> {
    let from = tick_at(h, plan, start_tick, i);
    let next = if i + 1 < plan.steps.len() {
        tick_at(h, plan, start_tick, i + 1)
    } else {
        from
    };
    let at_node = seq![
        target_window(
            ws,
            ClaimTargetKind::Node,
            plan.traversed_node_ids[i],
            from,
            later(from, next),
        ),
    ] + zone_windows(ws, listed(plan.traversed_node_zone_ids, i), from, later(from, next));
    if i < plan.traversed_edge_ids.len() {
        let to = later(from, tick_at(h, plan, start_tick, i + 1));
        at_node + seq![
            target_window(ws, ClaimTargetKind::Edge, plan.traversed_edge_ids[i], from, to),
        ] + zone_windows(ws, listed(plan.traversed_edge_zone_ids, i), from, to)
    } else {
        at_node
    }
}

/// What a route is at from its first to its node number `n`.
pub open spec fn windows_upto<H: Fn(Real) -> Real>(
    ws: &Workspace,
    h: H,
    plan: RoutePlanView,
    start_tick: u64,
    n: nat,
) -> Seq<ScheduledTargetWindowView>
    decreases n,
{
    if n == 0 {
        Seq::empty()
    } else {
        windows_upto(ws, h, plan, start_tick, (n - 1) as nat) + windows_at(
            ws,
            h,
            plan,
            start_tick,
            n - 1,
        )
    }
}

/// What a route is at, and when. A plan of the wrong shape is nowhere.
pub open spec fn route_windows<H: Fn(Real) -> Real>(
    ws: &Workspace,
    h: H,
    plan: RoutePlanView,
    start_tick: u64,
) -> Seq<ScheduledTargetWindowView> {
    if shape_error(plan) is Some {
        Seq::empty()
    } else {
        windows_upto(ws, h, plan, start_tick, plan.traversed_node_ids.len())
    }
}

fn push_window(
    index: &WorkspaceIndex,
    out: &mut Vec<ScheduledTargetWindow>,
    kind: ClaimTargetKind,
    resource_id: Uuid,
    start_tick: u64,
    end_tick: u64,
)
    ensures
        views(final(out)@) == views(old(out)@).push(
            target_window(&index@, kind, resource_id, start_tick, end_tick),
        ),
{
    let w = ScheduledTargetWindow {
        semantics: claim_target_semantics(index, ClaimTarget { kind, resource_id }),
        start_tick,
        end_tick,
    };
    proof {
        lemma_views_push(out@, w);
    }
    out.push(w);
}

fn push_zone_windows(
    index: &WorkspaceIndex,
    out: &mut Vec<ScheduledTargetWindow>,
    zones: &Vec<Uuid>,
    start_tick: u64,
    end_tick: u64,
)
    ensures
        views(final(out)@) == views(old(out)@) + zone_windows(
            &index@,
            zones@,
            start_tick,
            end_tick,
        ),
{
    let ghost before = views(out@);
    let ghost all = zone_windows(&index@, zones@, start_tick, end_tick);
    let mut i: usize = 0;
    assert(before + all.take(0) =~= before);
    while i < zones.len()
        invariant
            i <= zones.len(),
            all == zone_windows(&index@, zones@, start_tick, end_tick),
            views(out@) == before + all.take(i as int),
        decreases zones.len() - i,
    {
        push_window(index, out, ClaimTargetKind::Zone, zones[i], start_tick, end_tick);
        i = i + 1;
        assert(before + all.take(i as int) =~= (before + all.take(i - 1)).push(all[i - 1]));
    }
    assert(all.take(i as int) =~= all);
}

fn find_tick<H: Fn(Real) -> Real>(
    h: &H,
    plan: &RoutePlan,
    start_tick: u64,
    i: usize,
) -> (t: u64)
    requires
        is_scale(*h),
        ticks_fit(*h, plan@, start_tick),
    ensures
        t == tick_at(*h, plan@, start_tick, i as int),
{
    if i >= plan.steps.len() {
        return start_tick;
    }
    let scaled: Real = h(plan.steps[i].cumulative_cost);
    assert(start_tick + ticks_for(*h, plan@.steps[i as int].cumulative_cost) <= u64::MAX);
    start_tick + scaled.ceil_ticks()
}

fn push_windows_at<H: Fn(Real) -> Real>(
    index: &WorkspaceIndex,
    h: &H,
    plan: &RoutePlan,
    start_tick: u64,
    i: usize,
    out: &mut Vec<ScheduledTargetWindow>,
)
    requires
        is_scale(*h),
        ticks_fit(*h, plan@, start_tick),
        i < plan@.traversed_node_ids.len(),
    ensures
        views(final(out)@) == views(old(out)@) + windows_at(
            &index@,
            *h,
            plan@,
            start_tick,
            i as int,
        ),
{
    let ghost before = views(out@);
    let ghost ws = &index@;
    let from = find_tick(h, plan, start_tick, i);
    let next: u64 = if plan.steps.len() > 0 && i < plan.steps.len() - 1 {
        find_tick(h, plan, start_tick, i + 1)
    } else {
        from
    };
    let until: u64 = if from >= next {
        from
    } else {
        next
    };
    push_window(index, out, ClaimTargetKind::Node, plan.traversed_node_ids[i], from, until);
    let ghost node_zones = listed(plan@.traversed_node_zone_ids, i as int);
    let ghost a = target_window(
        ws,
        ClaimTargetKind::Node,
        plan@.traversed_node_ids[i as int],
        from,
        until,
    );
    assert(views(out@) =~= before + seq![a]);
    if i < plan.traversed_node_zone_ids.len() {
        assert(plan.traversed_node_zone_ids@[i as int]@ == node_zones);
        push_zone_windows(index, out, &plan.traversed_node_zone_ids[i], from, until);
    }
    let ghost b = zone_windows(ws, node_zones, from, until);
    assert(views(out@) =~= before + (seq![a] + b));
    if i < plan.traversed_edge_ids.len() {
        let ahead = find_tick(h, plan, start_tick, i + 1);
        let to: u64 = if from >= ahead {
            from
        } else {
            ahead
        };
        let ghost middle = views(out@);
        push_window(index, out, ClaimTargetKind::Edge, plan.traversed_edge_ids[i], from, to);
        let ghost c = target_window(
            ws,
            ClaimTargetKind::Edge,
            plan@.traversed_edge_ids[i as int],
            from,
            to,
        );
        assert(views(out@) =~= middle + seq![c]);
        let ghost edge_zones = listed(plan@.traversed_edge_zone_ids, i as int);
        if i < plan.traversed_edge_zone_ids.len() {
            assert(plan.traversed_edge_zone_ids@[i as int]@ == edge_zones);
            push_zone_windows(index, out, &plan.traversed_edge_zone_ids[i], from, to);
        }
        let ghost d = zone_windows(ws, edge_zones, from, to);
        assert(views(out@) =~= before + (seq![a] + b + seq![c] + d));
    }
}

/// What a route is at, and when. `scale` turns costs into ticks.
pub fn scheduled_target_windows_from_route<H: Fn(Real) -> Real>(
    index: &WorkspaceIndex,
    route_plan: &RoutePlan,
    start_tick: u64,
    scale: &H,
) -> (windows: Vec<ScheduledTargetWindow>)
    requires
        is_scale(*scale),
        shape_error(route_plan@) is None ==> ticks_fit(*scale, route_plan@, start_tick),
    ensures
        views(windows@) == route_windows(&index@, *scale, route_plan@, start_tick),
{
    let ghost ws = &index@;
    let ghost plan = route_plan@;
    let mut windows: Vec<ScheduledTargetWindow> = Vec::new();
    assert(views(windows@) =~= Seq::empty());
    if validate_route_plan_shape(route_plan).is_err() {
        return windows;
    }
    let mut i: usize = 0;
    while i < route_plan.traversed_node_ids.len()
        invariant
            i <= route_plan.traversed_node_ids.len(),
            ws == &index@,
            plan == route_plan@,
            is_scale(*scale),
            ticks_fit(*scale, plan, start_tick),
            views(windows@) == windows_upto(ws, *scale, plan, start_tick, i as nat),
        decreases route_plan.traversed_node_ids.len() - i,
    {
        push_windows_at(index, scale, route_plan, start_tick, i, &mut windows);
        i = i + 1;
    }
    windows
}

/// Whether two claims on targets meet: their windows overlap, and the targets are
/// the same or are zones of which one is around the other.
pub open spec fn targets_meet(
    l: ClaimTarget,
    lw: ClaimWindow,
    r: ClaimTarget,
    rw: ClaimWindow,
    ws: Option<Workspace>,
) -> bool {
    windows_overlap(lw, rw) && l.kind == r.kind && (l.resource_id == r.resource_id || (l.kind
        == ClaimTargetKind::Zone && (ws matches Some(w) && zones_overlap(
        &w,
        l.resource_id,
        r.resource_id,
    ))))
}

/// Whether two claims on targets meet.
pub fn claim_target_windows_overlap(
    lhs: ClaimTarget,
    lhs_window: ClaimWindow,
    rhs: ClaimTarget,
    rhs_window: ClaimWindow,
    index: Option<&WorkspaceIndex>,
) -> (b: bool)
    ensures
        b == targets_meet(lhs, lhs_window, rhs, rhs_window, indexed(index)),
{
    if !claim_windows_overlap(lhs_window, rhs_window) || lhs.kind != rhs.kind {
        return false;
    }
    if lhs.resource_id == rhs.resource_id {
        return true;
    }
    match index {
        Some(i) => lhs.kind == ClaimTargetKind::Zone && do_zones_overlap(
            i,
            lhs.resource_id,
            rhs.resource_id,
        ),
        None => false,
    }
}

/// Which of two claims is named first does not matter for whether they meet.
pub proof fn lemma_meeting_is_symmetric(
    l: ClaimTarget,
    lw: ClaimWindow,
    r: ClaimTarget,
    rw: ClaimWindow,
    ws: Option<Workspace>,
)
    ensures
        targets_meet(l, lw, r, rw, ws) == targets_meet(r, rw, l, lw, ws),
{
}

/// No window of a route ends before it begins, or begins before the route does.
pub proof fn lemma_windows_lie_ahead<H: Fn(Real) -> Real>(
    ws: &Workspace,
    h: H,
    plan: RoutePlanView,
    start_tick: u64,
    k: int,
)
    requires
        ticks_fit(h, plan, start_tick),
        0 <= k < route_windows(ws, h, plan, start_tick).len(),
    ensures
        start_tick <= route_windows(ws, h, plan, start_tick)[k].start_tick,
        route_windows(ws, h, plan, start_tick)[k].start_tick <= route_windows(
            ws,
            h,
            plan,
            start_tick,
        )[k].end_tick,
{
    lemma_windows_upto_lie_ahead(ws, h, plan, start_tick, plan.traversed_node_ids.len(), k);
}

proof fn lemma_windows_upto_lie_ahead<H: Fn(Real) -> Real>(
    ws: &Workspace,
    h: H,
    plan: RoutePlanView,
    start_tick: u64,
    n: nat,
    k: int,
)
    requires
        ticks_fit(h, plan, start_tick),
        0 <= k < windows_upto(ws, h, plan, start_tick, n).len(),
    ensures
        start_tick <= windows_upto(ws, h, plan, start_tick, n)[k].start_tick,
        windows_upto(ws, h, plan, start_tick, n)[k].start_tick <= windows_upto(
            ws,
            h,
            plan,
            start_tick,
            n,
        )[k].end_tick,
    decreases n,
{
    if n > 0 {
        let before = windows_upto(ws, h, plan, start_tick, (n - 1) as nat);
        if k < before.len() {
            lemma_windows_upto_lie_ahead(ws, h, plan, start_tick, (n - 1) as nat, k);
        } else {
            let i = n - 1;
            if 0 <= i < plan.steps.len() {
                assert(start_tick + ticks_for(h, plan.steps[i].cumulative_cost) <= u64::MAX);
            }
            assert(start_tick <= tick_at(h, plan, start_tick, i));
            let here = windows_at(ws, h, plan, start_tick, i);
            assert(windows_upto(ws, h, plan, start_tick, n)[k] == here[k - before.len()]);
        }
    }
}

} // verus!
