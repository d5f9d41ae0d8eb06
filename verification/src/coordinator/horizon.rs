//! Claims along a route: the whole of it, or what lies just ahead of a robot.

use super::targets::{is_scale, listed, ticks_for};
use crate::claim::manager::{archived, lease_place, ClaimManager, ClaimManagerView};
use crate::claim::{
    blank_request, ClaimAccessMode, ClaimRequest, ClaimRequestView, ClaimTarget, ClaimTargetKind,
    ClaimWindow, Lease, LeaseDisposition, LeaseView,
};
use crate::guid::Uuid;
use crate::ids::{ClaimId, LeaseId, MissionId, RobotId};
use crate::index::tables::{contains_id, first_seen};
use crate::index::WorkspaceIndex;
use crate::number::{is_operation, result_of, Real};
use crate::properties::value_at;
use crate::robot::{RobotState, RobotStateView};
use crate::route::assemble::{shape_error, validate_route_plan_shape};
use crate::route::plan::add_unseen;
use crate::route::{RoutePlan, RoutePlanView};
use crate::text::{chars_of, same_text, text_of, trim, trimmed};
use crate::views::{copy_list, views};
use crate::workspace::{zone_at, Workspace};
use std::collections::HashSet;
use vstd::prelude::*;

verus! {

broadcast use vstd::std_specs::hash::group_hash_axioms;

// ---------------------------------------------------------------------------
// progress
// ---------------------------------------------------------------------------

/// Where an identifier first stands in a list, from place `k` on.
pub open spec fn place_of(ids: Seq<Uuid>, id: Uuid, k: nat) -> Option<u64>
    decreases ids.len() - k,
{
    if k >= ids.len() {
        None
    } else if ids[k as int] == id {
        Some(k as u64)
    } else {
        place_of(ids, id, k + 1)
    }
}

/// Where an identifier first stands in a list.
pub fn find_place(ids: &Vec<Uuid>, id: Uuid) -> (place: Option<u64>)
    ensures
        place == place_of(ids@, id, 0),
        place matches Some(i) ==> i < ids@.len(),
{
    let mut k: usize = 0;
    while k < ids.len()
        invariant
            k <= ids.len(),
            place_of(ids@, id, 0) == place_of(ids@, id, k as nat),
        decreases ids.len() - k,
    {
        if ids[k] == id {
            return Some(k as u64);
        }
        k = k + 1;
    }
    None
}

/// How far a robot has come on its route: where it is if that is on the route,
/// and otherwise the step that it is said to take next.
pub open spec fn progress(s: RobotStateView) -> u64 {
    match (s.route_plan, s.current_node_id) {
        (Some(plan), Some(node)) => match place_of(plan.traversed_node_ids, node, 0) {
            Some(i) => i,
            None => s.next_route_step_index,
        },
        _ => s.next_route_step_index,
    }
}

/// How far a robot has come on its route.
pub fn route_progress_index(state: &RobotState) -> (i: u64)
    ensures
        i == progress(state@),
{
    if let Some(plan) = &state.route_plan {
        if let Some(node) = state.current_node_id {
            if let Some(i) = find_place(&plan.traversed_node_ids, node) {
                return i;
            }
        }
    }
    state.next_route_step_index
}

// ---------------------------------------------------------------------------
// zones ahead
// ---------------------------------------------------------------------------

/// The zones listed for the places from one to another, one behind the other.
pub open spec fn zones_between(zones: Seq<Seq<Uuid>>, from: int, to: int) -> Seq<Uuid>
    decreases to - from,
{
    if from >= to {
        Seq::empty()
    } else {
        zones_between(zones, from, to - 1) + listed(zones, to - 1)
    }
}

/// The smaller of two numbers.
pub open spec fn lesser(a: int, b: int) -> int {
    if a <= b {
        a
    } else {
        b
    }
}

/// The different zones that a route comes to from one of its nodes on, within a
/// number of steps: those of nodes, then those of edges.
pub open spec fn zones_ahead(plan: RoutePlanView, from: u64, horizon: u64) -> Seq<Uuid> {
    first_seen(
        zones_between(
            plan.traversed_node_zone_ids,
            from as int,
            lesser(plan.traversed_node_zone_ids.len() as int, from + horizon + 1),
        ) + zones_between(
            plan.traversed_edge_zone_ids,
            from as int,
            lesser(plan.traversed_edge_zone_ids.len() as int, from + horizon),
        ),
    )
}

fn add_zones_between(
    out: &mut Vec<Uuid>,
    seen: &mut HashSet<Uuid>,
    zones: &Vec<Vec<Uuid>>,
    from: u64,
    to: u64,
    Ghost(all): Ghost<Seq<Uuid>>,
)
    requires
        to <= zones@.len(),
        old(out)@ == first_seen(all),
        forall|x: Uuid| #[trigger] old(seen)@.contains(x) <==> old(out)@.contains(x),
    ensures
        final(out)@ == first_seen(all + zones_between(views(zones@), from as int, to as int)),
        forall|x: Uuid| #[trigger] final(seen)@.contains(x) <==> final(out)@.contains(x),
{
    let ghost lists = views(zones@);
    assert(all + Seq::<Uuid>::empty() =~= all);
    if from >= to {
        return;
    }
    assert(zones@.len() == zones.len());
    let mut i: usize = from as usize;
    let end: usize = to as usize;
    while i < end
        invariant
            from <= i <= end,
            end == to,
            end <= zones@.len(),
            lists == views(zones@),
            out@ == first_seen(all + zones_between(lists, from as int, i as int)),
            forall|x: Uuid| #[trigger] seen@.contains(x) <==> out@.contains(x),
        decreases end - i,
    {
        let ghost done = all + zones_between(lists, from as int, i as int);
        add_unseen(out, seen, &zones[i], Ghost(done));
        assert(lists[i as int] == zones@[i as int]@);
        assert(done + zones@[i as int]@ =~= all + zones_between(lists, from as int, i as int + 1));
        i = i + 1;
    }
}

/// The different zones that a route comes to from one of its nodes on, within a
/// number of steps.
pub fn route_zone_targets_from_progress(
    route_plan: &RoutePlan,
    start_node_index: u64,
    horizon: u64,
) -> (zones: Vec<Uuid>)
    requires
        start_node_index + horizon + 1 <= u64::MAX,
    ensures
        zones@ == zones_ahead(route_plan@, start_node_index, horizon),
{
    let mut seen: HashSet<Uuid> = HashSet::new();
    let mut zones: Vec<Uuid> = Vec::new();
    let node_count: u64 = route_plan.traversed_node_zone_ids.len() as u64;
    let node_end: u64 = start_node_index + horizon + 1;
    let node_limit: u64 = if node_count <= node_end {
        node_count
    } else {
        node_end
    };
    let ghost a = zones_between(
        route_plan@.traversed_node_zone_ids,
        start_node_index as int,
        node_limit as int,
    );
    assert(Seq::<Uuid>::empty() + a =~= a);
    add_zones_between(
        &mut zones,
        &mut seen,
        &route_plan.traversed_node_zone_ids,
        start_node_index,
        node_limit,
        Ghost(Seq::empty()),
    );
    let edge_count: u64 = route_plan.traversed_edge_zone_ids.len() as u64;
    let edge_end: u64 = start_node_index + horizon;
    let edge_limit: u64 = if edge_count <= edge_end {
        edge_count
    } else {
        edge_end
    };
    add_zones_between(
        &mut zones,
        &mut seen,
        &route_plan.traversed_edge_zone_ids,
        start_node_index,
        edge_limit,
        Ghost(a),
    );
    zones
}

// ---------------------------------------------------------------------------
// claims
// ---------------------------------------------------------------------------

/// Claims of one kind on a list of resources.
pub open spec fn targets_on(kind: ClaimTargetKind, ids: Seq<Uuid>) -> Seq<ClaimTarget> {
    ids.map_values(|resource_id: Uuid| ClaimTarget { kind, resource_id })
}

fn push_targets(out: &mut Vec<ClaimTarget>, kind: ClaimTargetKind, ids: &Vec<Uuid>, from: usize, to:
    usize)
    requires
        from <= to <= ids@.len(),
    ensures
        final(out)@ == old(out)@ + targets_on(kind, ids@.subrange(from as int, to as int)),
{
    let ghost all = targets_on(kind, ids@.subrange(from as int, to as int));
    let ghost before = out@;
    let mut i: usize = from;
    assert(before + all.take(0) =~= before);
    while i < to
        invariant
            from <= i <= to <= ids@.len(),
            all == targets_on(kind, ids@.subrange(from as int, to as int)),
            out@ == before + all.take(i - from),
        decreases to - i,
    {
        out.push(ClaimTarget { kind, resource_id: ids[i] });
        i = i + 1;
        assert(out@ =~= before + all.take(i - from));
    }
    assert(all.take(to - from) =~= all);
}

/// Claims on everything along a route: zones, then edges, then nodes.
pub open spec fn route_targets(plan: RoutePlanView) -> Seq<ClaimTarget> {
    targets_on(ClaimTargetKind::Zone, plan.traversed_zone_ids) + targets_on(
        ClaimTargetKind::Edge,
        plan.traversed_edge_ids,
    ) + targets_on(ClaimTargetKind::Node, plan.traversed_node_ids)
}

/// Claims on everything along a route.
pub fn claim_targets_from_route(route_plan: &RoutePlan) -> (targets: Vec<ClaimTarget>)
    ensures
        targets@ == route_targets(route_plan@),
{
    let mut targets: Vec<ClaimTarget> = Vec::new();
    let zones = &route_plan.traversed_zone_ids;
    let edges = &route_plan.traversed_edge_ids;
    let nodes = &route_plan.traversed_node_ids;
    push_targets(&mut targets, ClaimTargetKind::Zone, zones, 0, zones.len());
    assert(zones@.subrange(0, zones@.len() as int) =~= zones@);
    assert(targets@ =~= targets_on(ClaimTargetKind::Zone, zones@));
    push_targets(&mut targets, ClaimTargetKind::Edge, edges, 0, edges.len());
    assert(edges@.subrange(0, edges@.len() as int) =~= edges@);
    push_targets(&mut targets, ClaimTargetKind::Node, nodes, 0, nodes.len());
    assert(nodes@.subrange(0, nodes@.len() as int) =~= nodes@);
    targets
}

/// A tick some ticks later, as far as ticks go.
pub open spec fn ticks_after(tick: u64, ticks: u64) -> u64 {
    if tick + ticks <= u64::MAX {
        (tick + ticks) as u64
    } else {
        u64::MAX
    }
}

/// A tick some ticks later, as far as ticks go.
pub fn find_tick_after(tick: u64, ticks: u64) -> (t: u64)
    ensures
        t == ticks_after(tick, ticks),
{
    if ticks <= u64::MAX - tick {
        tick + ticks
    } else {
        u64::MAX
    }
}

/// When a route that begins at a tick is under way.
pub open spec fn route_window<H: Fn(Real) -> Real>(
    h: H,
    plan: RoutePlanView,
    start_tick: u64,
) -> ClaimWindow {
    ClaimWindow {
        start_tick: Some(start_tick),
        end_tick: Some(ticks_after(start_tick, ticks_for(h, plan.total_cost))),
    }
}

/// When a route that begins at a tick is under way. `scale` turns costs into
/// ticks.
pub fn claim_window_from_route<H: Fn(Real) -> Real>(
    route_plan: &RoutePlan,
    start_tick: u64,
    scale: &H,
) -> (w: ClaimWindow)
    requires
        is_scale(*scale),
    ensures
        w == route_window(*scale, route_plan@, start_tick),
{
    let scaled: Real = scale(route_plan.total_cost);
    ClaimWindow {
        start_tick: Some(start_tick),
        end_tick: Some(find_tick_after(start_tick, scaled.ceil_ticks())),
    }
}

/// The request for everything along a route.
pub open spec fn route_request<H: Fn(Real) -> Real>(
    h: H,
    claim_id: ClaimId,
    robot_id: RobotId,
    mission_id: MissionId,
    plan: RoutePlanView,
    start_tick: Option<u64>,
    access_mode: ClaimAccessMode,
) -> ClaimRequestView {
    ClaimRequestView {
        id: claim_id,
        robot_id,
        mission_id,
        access_mode,
        targets: route_targets(plan),
        requested_at_tick: start_tick,
        window: match start_tick {
            Some(t) => route_window(h, plan, t),
            None => blank_request().window,
        },
        ..blank_request()
    }
}

/// The request for everything along a route.
pub fn claim_request_from_route<H: Fn(Real) -> Real>(
    claim_id: ClaimId,
    robot_id: RobotId,
    mission_id: MissionId,
    route_plan: &RoutePlan,
    start_tick: Option<u64>,
    scale: &H,
    access_mode: ClaimAccessMode,
) -> (r: ClaimRequest)
    requires
        is_scale(*scale),
    ensures
        r@ == route_request(
            *scale,
            claim_id,
            robot_id,
            mission_id,
            route_plan@,
            start_tick,
            access_mode,
        ),
{
    let mut r = ClaimRequest::default();
    r.id = claim_id;
    r.robot_id = robot_id;
    r.mission_id = mission_id;
    r.access_mode = access_mode;
    r.targets = claim_targets_from_route(route_plan);
    if let Some(t) = start_tick {
        r.requested_at_tick = Some(t);
        r.window = claim_window_from_route(route_plan, t, scale);
    }
    r
}

/// The claims on what a robot comes to within its horizon.
pub open spec fn horizon_targets(plan: RoutePlanView, from: u64, horizon: u64) -> Seq<ClaimTarget> {
    let edges = plan.traversed_edge_ids;
    let nodes = plan.traversed_node_ids;
    let edge_from = lesser(from as int, edges.len() as int);
    targets_on(ClaimTargetKind::Zone, zones_ahead(plan, from, horizon)) + targets_on(
        ClaimTargetKind::Edge,
        edges.subrange(edge_from, lesser(edges.len() as int, from + horizon)),
    ) + targets_on(
        ClaimTargetKind::Node,
        nodes.subrange(from as int, lesser(nodes.len() as int, from + horizon + 1)),
    )
}

/// What of the cost of a plan is left from one of its nodes on. `h` takes the
/// cost that is spent from the whole.
pub open spec fn remaining_ticks<D: Fn(Real, Real) -> Real>(
    d: D,
    plan: RoutePlanView,
    from: u64,
) -> u64 {
    if from < plan.steps.len() {
        let spent = if from == 0 {
            Real { bits: 0 }
        } else {
            plan.steps[from as int].cumulative_cost
        };
        result_of(d, plan.total_cost, spent).ticks()
    } else {
        0
    }
}

/// The request of a robot for what it comes to within its horizon.
pub open spec fn horizon_request<D: Fn(Real, Real) -> Real>(
    d: D,
    claim_id: ClaimId,
    s: RobotStateView,
    access_mode: ClaimAccessMode,
) -> ClaimRequestView {
    let plain = ClaimRequestView {
        id: claim_id,
        robot_id: s.robot_id,
        mission_id: s.mission_id,
        access_mode,
        ..blank_request()
    };
    match s.route_plan {
        Some(plan) if shape_error(plan) is None => {
            let from = progress(s);
            let now = s.updated_at_tick;
            if from >= plan.traversed_node_ids.len() {
                ClaimRequestView {
                    requested_at_tick: Some(now),
                    window: ClaimWindow { start_tick: Some(now), end_tick: Some(now) },
                    ..plain
                }
            } else {
                ClaimRequestView {
                    requested_at_tick: Some(now),
                    window: ClaimWindow {
                        start_tick: Some(now),
                        end_tick: Some(ticks_after(now, remaining_ticks(d, plan, from))),
                    },
                    targets: horizon_targets(plan, from, s.horizon),
                    ..plain
                }
            }
        },
        _ => plain,
    }
}

/// Whether the horizon of a robot can be counted from where it is.
pub open spec fn horizon_fits(s: RobotStateView) -> bool {
    (s.route_plan matches Some(plan) && shape_error(plan) is None && progress(s)
        < plan.traversed_node_ids.len()) ==> progress(s) + s.horizon + 1 <= u64::MAX
}

/// Whether the horizon of a robot can be counted from where it is. Its claims are
/// to be asked for only where it can.
pub fn does_horizon_fit(state: &RobotState) -> (b: bool)
    ensures
        b == horizon_fits(state@),
{
    match &state.route_plan {
        None => true,
        Some(plan) => {
            if validate_route_plan_shape(plan).is_err() {
                return true;
            }
            let at: u64 = route_progress_index(state);
            at >= plan.traversed_node_ids.len() as u64 || (at < u64::MAX && state.horizon
                <= u64::MAX - 1 - at)
        },
    }
}

/// The request of a robot for what it comes to within its horizon. `subtract`
/// takes one cost from another.
pub fn rolling_horizon_claim_request<D: Fn(Real, Real) -> Real>(
    claim_id: ClaimId,
    state: &RobotState,
    access_mode: ClaimAccessMode,
    subtract: &D,
) -> (r: ClaimRequest)
    requires
        is_operation(*subtract),
        horizon_fits(state@),
    ensures
        r@ == horizon_request(*subtract, claim_id, state@, access_mode),
{
    let mut r = ClaimRequest::default();
    r.id = claim_id;
    r.robot_id = state.robot_id;
    r.mission_id = state.mission_id;
    r.access_mode = access_mode;
    let plan = match &state.route_plan {
        Some(p) => p,
        None => {
            return r;
        },
    };
    if validate_route_plan_shape(plan).is_err() {
        return r;
    }
    let now = state.updated_at_tick;
    let from = route_progress_index(state);
    r.requested_at_tick = Some(now);
    let nodes = &plan.traversed_node_ids;
    let edges = &plan.traversed_edge_ids;
    if from >= nodes.len() as u64 {
        r.window = ClaimWindow { start_tick: Some(now), end_tick: Some(now) };
        return r;
    }
    let zones = route_zone_targets_from_progress(plan, from, state.horizon);
    let mut targets: Vec<ClaimTarget> = Vec::new();
    push_targets(&mut targets, ClaimTargetKind::Zone, &zones, 0, zones.len());
    assert(zones@.subrange(0, zones@.len() as int) =~= zones@);
    assert(targets@ =~= targets_on(ClaimTargetKind::Zone, zones@));
    let edge_from: usize = if from <= edges.len() as u64 {
        from as usize
    } else {
        edges.len()
    };
    let edge_end: u64 = from + state.horizon;
    let edge_to: usize = if edges.len() as u64 <= edge_end {
        edges.len()
    } else {
        edge_end as usize
    };
    push_targets(&mut targets, ClaimTargetKind::Edge, edges, edge_from, edge_to);
    let node_end: u64 = from + state.horizon + 1;
    let node_to: usize = if nodes.len() as u64 <= node_end {
        nodes.len()
    } else {
        node_end as usize
    };
    push_targets(&mut targets, ClaimTargetKind::Node, nodes, from as usize, node_to);
    let left: u64 = if from < plan.steps.len() as u64 {
        let spent: Real = if from == 0 {
            Real::zero()
        } else {
            plan.steps[from as usize].cumulative_cost
        };
        let rest: Real = subtract(plan.total_cost, spent);
        rest.ceil_ticks()
    } else {
        0
    };
    r.targets = targets;
    r.window = ClaimWindow { start_tick: Some(now), end_tick: Some(find_tick_after(now, left)) };
    r
}

// ---------------------------------------------------------------------------
// what lies behind
// ---------------------------------------------------------------------------

/// Whether a target of a lease is still on the route from one of its nodes on.
pub open spec fn still_ahead(plan: RoutePlanView, from: int, t: ClaimTarget) -> bool {
    match t.kind {
        ClaimTargetKind::Node => plan.traversed_node_ids.skip(from).contains(t.resource_id),
        ClaimTargetKind::Edge => from <= plan.traversed_edge_ids.len()
            && plan.traversed_edge_ids.skip(from).contains(t.resource_id),
        ClaimTargetKind::Zone => zones_between(
            plan.traversed_node_zone_ids,
            from,
            plan.traversed_node_zone_ids.len() as int,
        ).contains(t.resource_id) || zones_between(
            plan.traversed_edge_zone_ids,
            from,
            plan.traversed_edge_zone_ids.len() as int,
        ).contains(t.resource_id),
    }
}

/// Whether any target of a lease is still on the route.
pub open spec fn still_needed(plan: RoutePlanView, from: int, l: LeaseView) -> bool {
    exists|i: int| 0 <= i < l.targets.len() && still_ahead(plan, from, #[trigger] l.targets[i])
}

/// What comes of letting go of the leases that lie behind.
pub struct Shedding {
    pub manager: ClaimManagerView,
    pub retained: Seq<LeaseId>,
    pub released: nat,
}

/// The ledger after one lease is let go of.
pub open spec fn without_lease(m: ClaimManagerView, id: LeaseId) -> ClaimManagerView {
    match lease_place(m.leases, id, 0) {
        Some(i) => ClaimManagerView {
            leases: m.leases.remove(i),
            released: m.released.push(
                archived(m.leases[i], LeaseDisposition::Released, None),
            ),
            ..m
        },
        None => m,
    }
}

/// Lets go of those of a list of leases that are no longer needed. A lease that
/// is not there is neither kept nor let go of.
pub open spec fn shed(
    m: ClaimManagerView,
    plan: RoutePlanView,
    from: int,
    ids: Seq<LeaseId>,
) -> Shedding
    decreases ids.len(),
{
    if ids.len() == 0 {
        Shedding { manager: m, retained: Seq::empty(), released: 0 }
    } else {
        let before = shed(m, plan, from, ids.drop_last());
        let id = ids.last();
        match lease_place(before.manager.leases, id, 0) {
            None => before,
            Some(i) => if still_needed(plan, from, before.manager.leases[i]) {
                Shedding { retained: before.retained.push(id), ..before }
            } else {
                Shedding {
                    manager: without_lease(before.manager, id),
                    retained: before.retained,
                    released: before.released + 1,
                }
            },
        }
    }
}

/// From which node of its route on a robot still needs leases, if that can be
/// said.
pub open spec fn needs_from(s: RobotStateView) -> Option<u64> {
    match (s.route_plan, s.current_node_id) {
        (Some(plan), Some(node)) => if shape_error(plan) is None {
            place_of(plan.traversed_node_ids, node, 0)
        } else {
            None
        },
        _ => None,
    }
}

/// What comes of letting go of the leases of a robot that lie behind it.
pub open spec fn shed_behind(s: RobotStateView, m: ClaimManagerView) -> Shedding {
    match needs_from(s) {
        Some(from) => shed(m, s.route_plan.unwrap(), from as int, s.active_lease_ids),
        None => Shedding { manager: m, retained: s.active_lease_ids, released: 0 },
    }
}

fn any_between(zones: &Vec<Vec<Uuid>>, from: usize, id: Uuid) -> (b: bool)
    ensures
        b == zones_between(views(zones@), from as int, zones@.len() as int).contains(id),
{
    let ghost lists = views(zones@);
    let mut i: usize = from;
    while i < zones.len()
        invariant
            from <= i,
            i <= zones@.len() || i == from,
            lists == views(zones@),
            !zones_between(lists, from as int, i as int).contains(id),
        decreases zones.len() - i,
    {
        let ghost before = zones_between(lists, from as int, i as int);
        let ghost here = lists[i as int];
        assert(here == zones@[i as int]@);
        assert(zones_between(lists, from as int, i as int + 1) == before + here);
        if contains_id(&zones[i], id) {
            proof {
                let k = choose|k: int| 0 <= k < here.len() && here[k] == id;
                assert((before + here)[before.len() + k] == id);
                lemma_zones_between_grow(lists, from as int, i as int + 1, zones@.len() as int, id);
            }
            return true;
        }
        proof {
            if (before + here).contains(id) {
                let k = choose|k: int| 0 <= k < (before + here).len() && (before + here)[k] == id;
                if k < before.len() {
                    assert(before[k] == id);
                } else {
                    assert(here[k - before.len()] == id);
                }
            }
        }
        i = i + 1;
    }
    false
}

proof fn lemma_zones_between_grow(
    zones: Seq<Seq<Uuid>>,
    from: int,
    mid: int,
    to: int,
    id: Uuid,
)
    requires
        mid <= to,
        zones_between(zones, from, mid).contains(id),
    ensures
        zones_between(zones, from, to).contains(id),
    decreases to - mid,
{
    if mid < to {
        let a = zones_between(zones, from, mid);
        let k = choose|k: int| 0 <= k < a.len() && a[k] == id;
        if from < mid + 1 {
            let b = zones_between(zones, from, mid + 1);
            assert(b[k] == id);
        }
        lemma_zones_between_grow(zones, from, mid + 1, to, id);
    }
}

fn contains_from(ids: &Vec<Uuid>, from: usize, id: Uuid) -> (b: bool)
    requires
        from <= ids@.len(),
    ensures
        b == ids@.skip(from as int).contains(id),
{
    let mut i: usize = from;
    while i < ids.len()
        invariant
            from <= i <= ids@.len(),
            forall|j: int| from <= j < i ==> ids@[j] != id,
        decreases ids.len() - i,
    {
        if ids[i] == id {
            assert(ids@.skip(from as int)[i - from] == id);
            return true;
        }
        i = i + 1;
    }
    proof {
        if ids@.skip(from as int).contains(id) {
            let k = choose|k: int|
                0 <= k < ids@.skip(from as int).len() && ids@.skip(from as int)[k] == id;
            assert(ids@[from + k] == id);
        }
    }
    false
}

fn is_still_ahead(plan: &RoutePlan, from: usize, t: ClaimTarget) -> (b: bool)
    requires
        from <= plan@.traversed_node_ids.len(),
    ensures
        b == still_ahead(plan@, from as int, t),
{
    match t.kind {
        ClaimTargetKind::Node => contains_from(&plan.traversed_node_ids, from, t.resource_id),
        ClaimTargetKind::Edge => from <= plan.traversed_edge_ids.len() && contains_from(
            &plan.traversed_edge_ids,
            from,
            t.resource_id,
        ),
        ClaimTargetKind::Zone => any_between(&plan.traversed_node_zone_ids, from, t.resource_id)
            || any_between(&plan.traversed_edge_zone_ids, from, t.resource_id),
    }
}

fn is_still_needed(plan: &RoutePlan, from: usize, lease: &Lease) -> (b: bool)
    requires
        from <= plan@.traversed_node_ids.len(),
    ensures
        b == still_needed(plan@, from as int, lease@),
{
    let mut i: usize = 0;
    while i < lease.targets.len()
        invariant
            i <= lease.targets.len(),
            from <= plan@.traversed_node_ids.len(),
            forall|j: int|
                0 <= j < i ==> !still_ahead(plan@, from as int, #[trigger] lease@.targets[j]),
        decreases lease.targets.len() - i,
    {
        if is_still_ahead(plan, from, lease.targets[i]) {
            assert(still_ahead(plan@, from as int, lease@.targets[i as int]));
            return true;
        }
        i = i + 1;
    }
    false
}

/// Lets go of the leases of a robot that lie behind it, and tells how many there
/// were.
pub fn release_targets_behind_progress(
    state: &mut RobotState,
    claim_manager: &mut ClaimManager,
) -> (released: u64)
    ensures
        final(claim_manager)@ == shed_behind(old(state)@, old(claim_manager)@).manager,
        final(state)@ == (RobotStateView {
            active_lease_ids: shed_behind(old(state)@, old(claim_manager)@).retained,
            ..old(state)@
        }),
        released == shed_behind(old(state)@, old(claim_manager)@).released,
{
    let ghost s = state@;
    let ghost m = claim_manager@;
    let plan = match &state.route_plan {
        Some(p) => p,
        None => {
            return 0;
        },
    };
    if validate_route_plan_shape(plan).is_err() {
        return 0;
    }
    let node = match state.current_node_id {
        Some(n) => n,
        None => {
            return 0;
        },
    };
    assert(plan.traversed_node_ids@.len() == plan.traversed_node_ids.len());
    let from: usize = match find_place(&plan.traversed_node_ids, node) {
        Some(i) => i as usize,
        None => {
            return 0;
        },
    };
    let ids = copy_list(&state.active_lease_ids);
    let mut retained: Vec<LeaseId> = Vec::new();
    let mut released: u64 = 0;
    let mut i: usize = 0;
    assert(ids@.take(0) =~= Seq::empty());
    while i < ids.len()
        invariant
            i <= ids.len(),
            from <= plan@.traversed_node_ids.len(),
            claim_manager@ == shed(m, plan@, from as int, ids@.take(i as int)).manager,
            retained@ == shed(m, plan@, from as int, ids@.take(i as int)).retained,
            released == shed(m, plan@, from as int, ids@.take(i as int)).released,
            released <= i,
        decreases ids.len() - i,
    {
        assert(ids@.take(i as int + 1).drop_last() =~= ids@.take(i as int));
        let id = ids[i];
        let found: Option<bool> = match claim_manager.find_lease(id) {
            Some(lease) => Some(is_still_needed(plan, from, lease)),
            None => None,
        };
        match found {
            Some(true) => {
                retained.push(id);
            },
            Some(false) => {
                if claim_manager.release_lease(id, None) {
                    released = released + 1;
                }
            },
            None => {},
        }
        i = i + 1;
    }
    assert(ids@.take(i as int) =~= ids@);
    state.active_lease_ids = retained;
    released
}

// ---------------------------------------------------------------------------
// named windows
// ---------------------------------------------------------------------------

/// The parts of a text between commas.
pub open spec fn comma_parts(s: Seq<char>) -> Seq<Seq<char>>
    decreases s.len(),
{
    if s.len() == 0 {
        seq![Seq::empty()]
    } else {
        let before = comma_parts(s.drop_last());
        if s.last() == ',' {
            before.push(Seq::empty())
        } else {
            before.drop_last().push(before.last().push(s.last()))
        }
    }
}

/// Whether a list of names, parted by commas, holds a name.
pub open spec fn names(list: Seq<char>, name: Seq<char>) -> bool {
    exists|i: int|
        0 <= i < comma_parts(list).len() && trimmed(#[trigger] comma_parts(list)[i]) == name
}

fn does_name(list: &str, name: &str) -> (b: bool)
    ensures
        b == names(list@, name@),
{
    let chars = chars_of(list);
    let mut part: Vec<char> = Vec::new();
    let mut found = false;
    let mut i: usize = 0;
    assert(list@.take(0) =~= Seq::empty());
    assert(part@ =~= comma_parts(list@.take(0)).last());
    while i < chars.len()
        invariant
            i <= chars.len(),
            chars@ == list@,
            comma_parts(list@.take(i as int)).len() > 0,
            part@ == comma_parts(list@.take(i as int)).last(),
            found <==> exists|k: int|
                0 <= k < comma_parts(list@.take(i as int)).len() - 1 && trimmed(
                    #[trigger] comma_parts(list@.take(i as int))[k],
                ) == name@,
        decreases chars.len() - i,
    {
        let ghost before = comma_parts(list@.take(i as int));
        let ghost after = comma_parts(list@.take(i as int + 1));
        assert(list@.take(i as int + 1).drop_last() =~= list@.take(i as int));
        let c = chars[i];
        assert(list@.take(i as int + 1).last() == c);
        if c == ',' {
            let text = text_of(&part);
            let here = same_text(trim(text.as_str()), name);
            proof {
                let last = before.len() - 1;
                assert(after =~= before.push(Seq::empty()));
                if found {
                    let k = choose|k: int|
                        0 <= k < before.len() - 1 && trimmed(#[trigger] before[k]) == name@;
                    assert(trimmed(after[k]) == name@);
                }
                if here {
                    assert(trimmed(after[last]) == name@);
                }
                if exists|k: int| 0 <= k < after.len() - 1 && trimmed(#[trigger] after[k]) == name@ {
                    let k = choose|k: int|
                        0 <= k < after.len() - 1 && trimmed(#[trigger] after[k]) == name@;
                    assert(after[k] == before[k]);
                    if k < last {
                        assert(trimmed(before[k]) == name@);
                    }
                }
            }
            found = found || here;
            part = Vec::new();
            assert(part@ =~= after.last());
        } else {
            part.push(c);
            proof {
                assert(after =~= before.drop_last().push(before.last().push(c)));
                if found {
                    let k = choose|k: int|
                        0 <= k < before.len() - 1 && trimmed(#[trigger] before[k]) == name@;
                    assert(trimmed(after[k]) == name@);
                }
                if exists|k: int| 0 <= k < after.len() - 1 && trimmed(#[trigger] after[k]) == name@ {
                    let k = choose|k: int|
                        0 <= k < after.len() - 1 && trimmed(#[trigger] after[k]) == name@;
                    assert(trimmed(before[k]) == name@);
                }
            }
        }
        i = i + 1;
    }
    assert(list@.take(i as int) =~= list@);
    let text = text_of(&part);
    let here = same_text(trim(text.as_str()), name);
    proof {
        let parts = comma_parts(list@);
        if here {
            assert(trimmed(parts[parts.len() - 1]) == name@);
        }
        if found {
            let k = choose|k: int|
                0 <= k < parts.len() - 1 && trimmed(#[trigger] parts[k]) == name@;
            assert(trimmed(parts[k]) == name@);
        }
    }
    found || here
}

/// Whether a zone states named windows and a window is not one of them.
pub open spec fn outside_window(ws: &Workspace, zone: Uuid, window: Seq<char>) -> bool {
    match zone_at(ws, zone) {
        Some(z) => match value_at(z.properties@, "traffic.schedule_window"@) {
            Some(list) => !names(list, window),
            None => false,
        },
        None => false,
    }
}

/// Those of a list of zones that state named windows without a given one.
pub open spec fn zones_outside(ws: &Workspace, zones: Seq<Uuid>, window: Seq<char>) -> Seq<Uuid>
    decreases zones.len(),
{
    if zones.len() == 0 {
        Seq::empty()
    } else {
        let before = zones_outside(ws, zones.drop_last(), window);
        if outside_window(ws, zones.last(), window) {
            before.push(zones.last())
        } else {
            before
        }
    }
}

/// The zones along a route that state named windows without the active one.
pub fn route_schedule_window_conflicts(
    index: &WorkspaceIndex,
    route_plan: &RoutePlan,
    active_window: &str,
) -> (zones: Vec<Uuid>)
    ensures
        zones@ == zones_outside(&index@, route_plan@.traversed_zone_ids, active_window@),
{
    let all = &route_plan.traversed_zone_ids;
    let mut zones: Vec<Uuid> = Vec::new();
    let mut i: usize = 0;
    assert(all@.take(0) =~= Seq::empty());
    while i < all.len()
        invariant
            i <= all.len(),
            zones@ == zones_outside(&index@, all@.take(i as int), active_window@),
        decreases all.len() - i,
    {
        assert(all@.take(i as int + 1).drop_last() =~= all@.take(i as int));
        if let Some(list) = index.zone_property(all[i], "traffic.schedule_window") {
            if !does_name(list.as_str(), active_window) {
                zones.push(all[i]);
            }
        }
        i = i + 1;
    }
    assert(all@.take(i as int) =~= all@);
    zones
}

/// Whether every zone along a route lets traffic in during the active window.
pub fn route_matches_schedule_window(
    index: &WorkspaceIndex,
    route_plan: &RoutePlan,
    active_window: &str,
) -> (b: bool)
    ensures
        b == (zones_outside(&index@, route_plan@.traversed_zone_ids, active_window@).len() == 0),
{
    route_schedule_window_conflicts(index, route_plan, active_window).len() == 0
}

} // verus!
