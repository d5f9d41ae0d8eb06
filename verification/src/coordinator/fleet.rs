//! The coordinator: the robots of a fleet, their keys and their signs of life,
//! and the ledger of their claims.

use super::horizon::{
    claim_request_from_route, find_place, find_tick_after, horizon_fits, horizon_request, place_of,
    release_targets_behind_progress, rolling_horizon_claim_request, route_window, shed_behind,
    ticks_after,
};
use super::schedule::{
    apply_schedule_decision, decided, decision_for, grace_fits, missed_slot,
    robot_missed_schedule_slot, route_conflicts, schedule_route_request, ScheduleDecision,
    ScheduleDecisionKind, ScheduleDecisionView,
};
use super::targets::{is_scale, route_windows, ticks_fit};
use crate::claim::conflicts::indexed;
use crate::claim::manager::{
    archived, lease_place, leases_ended, leases_kept, one_more, requests_of_others,
    shared_workspace, ClaimManager, ClaimManagerView, Ending,
};
use crate::claim::{blank_request, ClaimAccessMode, ClaimRequest, LeaseDisposition, LeaseView};
use crate::guid::{parse_uuid, uuid_denoted, Uuid};
use crate::ids::{ClaimId, LeaseId, RobotId};
use crate::index::tables::looked_up;
use crate::index::WorkspaceIndex;
use crate::key::{Key, KeyView};
use crate::number::{is_operation, Real};
use crate::ordered::{list_keys, list_map, lists_map};
use crate::persist::{ClaimManagerSnapshot, CoordinatorSnapshot, CoordinatorSnapshotView};
use crate::robot::{
    blank_robot, RobotHeading, RobotPosition, RobotProgressState, RobotState, RobotStateView,
};
use crate::route::assemble::shape_error;
use crate::route::{RoutePlan, RoutePlanView};
use crate::text::{integer_of, read_integer, trim, trimmed};
use crate::views::{copy_list, lemma_views_push, views};
use crate::workspace::Workspace;
use std::collections::BTreeMap;
use std::sync::Arc;
use vstd::prelude::*;

verus! {

broadcast use vstd::std_specs::btree::group_btree_axioms;

/// Where identifiers begin that are minted for robots with a universally unique
/// one: far above those that robots bring along.
pub const SYNTHETIC_ROBOT_ID_BASE: u64 = 0x0100_0000_0000_0000;

/// How often a robot gives a sign of life, in seconds, and when it last did, in
/// milliseconds.
#[derive(Debug, Clone, Copy, PartialEq, Eq, Structural)]
pub struct AliveInfo {
    pub interval_secs: u64,
    pub last_seen_ms: u64,
}

/// The robots of a fleet and their claims.
pub struct Coordinator {
    index: Option<Arc<WorkspaceIndex>>,
    claim_manager: ClaimManager,
    robot_states: Vec<RobotState>,
    /// The key of each robot.
    robot_keys: BTreeMap<u64, Key>,
    /// The robot that each universally unique identifier stands for.
    robot_id_by_uuid: BTreeMap<Uuid, u64>,
    /// The identifier that is minted next.
    next_synthetic_robot_id: u64,
    /// What identifiers were minted for that are not registered yet.
    pending_uuid_bindings: BTreeMap<u64, Uuid>,
    /// The signs of life of each robot.
    robot_alive: BTreeMap<u64, AliveInfo>,
}

/// What a [`Coordinator`] stands for.
pub struct CoordinatorView {
    pub workspace: Option<Workspace>,
    pub claims: ClaimManagerView,
    pub robots: Seq<RobotStateView>,
    pub keys: Map<u64, KeyView>,
    pub by_uuid: Map<Uuid, u64>,
    pub next_synthetic: u64,
    pub pending: Map<u64, Uuid>,
    pub alive: Map<u64, AliveInfo>,
}

/// What the keys in a map stand for.
pub open spec fn key_views(m: Map<u64, Key>) -> Map<u64, KeyView> {
    m.map_values(|k: Key| k@)
}

impl View for Coordinator {
    type V = CoordinatorView;

    closed spec fn view(&self) -> CoordinatorView {
        CoordinatorView {
            workspace: shared_workspace(self.index),
            claims: self.claim_manager@,
            robots: views(self.robot_states@),
            keys: key_views(self.robot_keys@),
            by_uuid: self.robot_id_by_uuid@,
            next_synthetic: self.next_synthetic_robot_id,
            pending: self.pending_uuid_bindings@,
            alive: self.robot_alive@,
        }
    }
}

// ---------------------------------------------------------------------------
// robots
// ---------------------------------------------------------------------------

/// Where the first robot with an identifier stands, from place `k` on.
pub open spec fn robot_place(robots: Seq<RobotStateView>, id: RobotId, k: nat) -> Option<int>
    decreases robots.len() - k,
{
    if k >= robots.len() {
        None
    } else if robots[k as int].robot_id == id {
        Some(k as int)
    } else {
        robot_place(robots, id, k + 1)
    }
}

fn find_robot_place(robots: &Vec<RobotState>, id: RobotId) -> (p: Option<usize>)
    ensures
        match robot_place(views(robots@), id, 0) {
            Some(i) => p matches Some(k) && k as int == i && k < robots@.len(),
            None => p is None,
        },
{
    let ghost all = views(robots@);
    let mut k: usize = 0;
    while k < robots.len()
        invariant
            k <= robots.len(),
            all == views(robots@),
            robot_place(all, id, 0) == robot_place(all, id, k as nat),
        decreases robots.len() - k,
    {
        assert(all[k as int] == robots@[k as int]@);
        if robots[k].robot_id == id {
            return Some(k);
        }
        k = k + 1;
    }
    None
}

/// A robot that is found has the identifier it was sought by, and is the first.
pub proof fn lemma_robot_place(robots: Seq<RobotStateView>, id: RobotId, k: nat)
    ensures
        robot_place(robots, id, k) matches Some(i) ==> k <= i < robots.len() && robots[i].robot_id
            == id,
        robot_place(robots, id, k) is None ==> forall|i: int|
            k <= i < robots.len() ==> (#[trigger] robots[i]).robot_id != id,
    decreases robots.len() - k,
{
    if k < robots.len() && robots[k as int].robot_id != id {
        lemma_robot_place(robots, id, k + 1);
    }
}

/// The coordinator with one robot changed.
pub open spec fn with_robot(c: CoordinatorView, i: int, s: RobotStateView) -> CoordinatorView {
    CoordinatorView { robots: c.robots.update(i, s), ..c }
}

/// Whether a robot is registered.
pub open spec fn is_registered(c: CoordinatorView, id: RobotId) -> bool {
    c.keys.dom().contains(id.0) || robot_place(c.robots, id, 0) is Some
}

// ---------------------------------------------------------------------------
// signs of life
// ---------------------------------------------------------------------------

/// How long a robot has been silent.
pub open spec fn silence(a: AliveInfo, now_ms: u64) -> u64 {
    if now_ms >= a.last_seen_ms {
        (now_ms - a.last_seen_ms) as u64
    } else {
        0
    }
}

/// How long a robot may be silent: two intervals.
pub open spec fn patience(a: AliveInfo) -> u64 {
    if a.interval_secs * 2000 <= u64::MAX {
        (a.interval_secs * 2000) as u64
    } else {
        u64::MAX
    }
}

/// Whether a robot has been silent for less than two intervals. One of which
/// nothing is known counts as active.
pub open spec fn is_active(alive: Map<u64, AliveInfo>, id: RobotId, now_ms: u64) -> bool {
    match looked_up(alive, id.0) {
        Some(a) => silence(a, now_ms) < patience(a),
        None => true,
    }
}

/// The signs of life after a robot has told how often it gives one. It has just
/// given one, and one that does not tell is taken to give them now and then.
pub open spec fn noted_alive(
    alive: Map<u64, AliveInfo>,
    id: RobotId,
    interval_secs: u64,
    now_ms: u64,
) -> Map<u64, AliveInfo> {
    alive.insert(
        id.0,
        AliveInfo {
            interval_secs: if interval_secs == 0 {
                Coordinator::DEFAULT_ALIVE_SECS
            } else {
                interval_secs
            },
            last_seen_ms: now_ms,
        },
    )
}

/// The signs of life after a robot has given one. One that never told how often it
/// gives them stays unknown.
pub open spec fn touched(
    alive: Map<u64, AliveInfo>,
    id: RobotId,
    now_ms: u64,
) -> Map<u64, AliveInfo> {
    match looked_up(alive, id.0) {
        Some(a) => alive.insert(id.0, AliveInfo { last_seen_ms: now_ms, ..a }),
        None => alive,
    }
}

/// Whether a list holds the robots that have been silent for longer than two
/// intervals, in ascending order.
pub open spec fn lists_silent(ids: Seq<RobotId>, alive: Map<u64, AliveInfo>, now_ms: u64) -> bool {
    &&& forall|i: int, j: int| 0 <= i < j < ids.len() ==> (#[trigger] ids[i]).0 < (#[trigger] ids[j]).0
    &&& forall|id: RobotId| #[trigger]
        ids.contains(id) <==> alive.dom().contains(id.0) && silence(alive[id.0], now_ms) > patience(
            alive[id.0],
        )
}

/// Whether a robot is among the first `n` of a list and has been silent for
/// longer than two intervals.
spec fn silent_among(all: Seq<(u64, AliveInfo)>, n: int, id: u64, now_ms: u64) -> bool {
    exists|q: int|
        0 <= q < n && (#[trigger] all[q]).0 == id && silence(all[q].1, now_ms) > patience(all[q].1)
}

fn measure_silence(a: AliveInfo, now_ms: u64) -> (ms: u64)
    ensures
        ms == silence(a, now_ms),
{
    if now_ms >= a.last_seen_ms {
        now_ms - a.last_seen_ms
    } else {
        0
    }
}

fn measure_patience(a: AliveInfo) -> (ms: u64)
    ensures
        ms == patience(a),
{
    if a.interval_secs <= u64::MAX / 2000 {
        a.interval_secs * 2000
    } else {
        u64::MAX
    }
}

/// The ledger without the claims of a robot.
pub open spec fn claims_without(m: ClaimManagerView, id: RobotId, tick: u64) -> ClaimManagerView {
    ClaimManagerView {
        requests: requests_of_others(m.requests, id),
        leases: leases_kept(m.leases, Ending::OfRobot(id, Some(tick))),
        released: m.released + leases_ended(m.leases, Ending::OfRobot(id, Some(tick))),
        ..m
    }
}

/// Whether a robot has any claims.
pub open spec fn has_claims(m: ClaimManagerView, id: RobotId, tick: u64) -> bool {
    requests_of_others(m.requests, id).len() < m.requests.len() || leases_ended(
        m.leases,
        Ending::OfRobot(id, Some(tick)),
    ).len() > 0
}

/// What comes of taking the claims of a list of robots from them.
pub struct Sweep {
    pub claims: ClaimManagerView,
    pub freed: Seq<RobotId>,
}

/// Takes the claims of a list of robots from them, and lists those that had any.
pub open spec fn swept(m: ClaimManagerView, ids: Seq<RobotId>, now_ms: u64) -> Sweep
    decreases ids.len(),
{
    if ids.len() == 0 {
        Sweep { claims: m, freed: Seq::empty() }
    } else {
        let before = swept(m, ids.drop_last(), now_ms);
        Sweep {
            claims: claims_without(before.claims, ids.last(), now_ms),
            freed: if has_claims(before.claims, ids.last(), now_ms) {
                before.freed.push(ids.last())
            } else {
                before.freed
            },
        }
    }
}

// ---------------------------------------------------------------------------
// identifiers
// ---------------------------------------------------------------------------

/// The robot that a text denotes: an integer stands for itself, and a universally
/// unique identifier for the robot that is registered under it.
pub open spec fn robot_named(c: CoordinatorView, raw: Seq<char>) -> Option<RobotId> {
    match integer_of(trimmed(raw)) {
        Some(n) => Some(RobotId(n)),
        None => match uuid_denoted(trimmed(raw)) {
            Some(u) => match looked_up(c.by_uuid, u) {
                Some(n) => Some(RobotId(n)),
                None => None,
            },
            None => None,
        },
    }
}

/// Whether a text denotes a universally unique identifier that no robot is
/// registered under.
pub open spec fn names_newcomer(c: CoordinatorView, raw: Seq<char>) -> bool {
    integer_of(trimmed(raw)) is None && (uuid_denoted(trimmed(raw)) matches Some(u)
        && !c.by_uuid.dom().contains(u))
}

/// The coordinator after an identifier is minted for a newcomer.
pub open spec fn minted_for(c: CoordinatorView, u: Uuid) -> CoordinatorView {
    CoordinatorView {
        next_synthetic: one_more(c.next_synthetic),
        pending: c.pending.insert(c.next_synthetic, u),
        ..c
    }
}

/// The coordinator after a robot is registered.
pub open spec fn registered(c: CoordinatorView, id: RobotId, key: KeyView) -> CoordinatorView {
    CoordinatorView {
        robots: c.robots.push(blank_robot(id)),
        keys: c.keys.insert(id.0, key),
        by_uuid: match looked_up(c.pending, id.0) {
            Some(u) => c.by_uuid.insert(u, id.0),
            None => c.by_uuid,
        },
        pending: c.pending.remove(id.0),
        ..c
    }
}

/// The identifiers that stand for other robots than one.
pub open spec fn uuids_of_others(m: Map<Uuid, u64>, id: u64) -> Map<Uuid, u64> {
    m.restrict(Set::new(|u: Uuid| m.dom().contains(u) && m[u] != id))
}

/// The coordinator after the robot at a place has left.
pub open spec fn unregistered(c: CoordinatorView, i: int) -> CoordinatorView {
    let id = c.robots[i].robot_id;
    CoordinatorView {
        claims: claims_without(c.claims, id, c.robots[i].updated_at_tick),
        robots: c.robots.remove(i),
        keys: c.keys.remove(id.0),
        by_uuid: uuids_of_others(c.by_uuid, id.0),
        alive: c.alive.remove(id.0),
        ..c
    }
}

// ---------------------------------------------------------------------------
// progress
// ---------------------------------------------------------------------------

/// A robot after it has reported where it is.
pub open spec fn progressed(
    s: RobotStateView,
    node: Option<Uuid>,
    edge: Option<Uuid>,
    tick: u64,
) -> RobotStateView {
    let moved = RobotStateView {
        current_node_id: node,
        current_edge_id: edge,
        updated_at_tick: tick,
        ..s
    };
    match (s.route_plan, node) {
        (Some(plan), Some(n)) => match place_of(plan.traversed_node_ids, n, 0) {
            Some(i) => RobotStateView {
                next_route_step_index: i,
                progress_state: if i + 1 >= plan.traversed_node_ids.len() {
                    RobotProgressState::Idle
                } else {
                    RobotProgressState::FollowingRoute
                },
                hold_reason: None,
                needs_replan: false,
                wait_ticks: 0,
                ..moved
            },
            None => moved,
        },
        _ => if edge is Some {
            RobotStateView {
                progress_state: RobotProgressState::FollowingRoute,
                needs_replan: false,
                wait_ticks: 0,
                ..moved
            }
        } else {
            RobotStateView { progress_state: RobotProgressState::Waiting, ..moved }
        },
    }
}

/// A robot after a route has been assigned to it.
pub open spec fn assigned(
    s: RobotStateView,
    plan: RoutePlanView,
    horizon: u64,
    tick: u64,
) -> RobotStateView {
    RobotStateView {
        route_plan: Some(plan),
        horizon,
        next_route_step_index: 0,
        scheduled_start_tick: Some(tick),
        reserved_until_tick: Some(ticks_after(tick, plan.total_cost.ticks())),
        wait_ticks: 0,
        needs_replan: false,
        progress_state: if plan.traversed_node_ids.len() == 0 {
            RobotProgressState::Idle
        } else {
            RobotProgressState::FollowingRoute
        },
        updated_at_tick: tick,
        ..s
    }
}

/// A robot after a report of its pose. What is not reported stays.
pub open spec fn posed(
    s: RobotStateView,
    position: Option<RobotPosition>,
    heading: Option<RobotHeading>,
    at_ms: u64,
) -> RobotStateView {
    RobotStateView {
        position: if position is Some {
            position
        } else {
            s.position
        },
        heading: if heading is Some {
            heading
        } else {
            s.heading
        },
        pose_at_ms: Some(at_ms),
        ..s
    }
}

// ---------------------------------------------------------------------------
// leases of a robot
// ---------------------------------------------------------------------------

/// A lease after it has been prolonged.
pub open spec fn prolonged(l: LeaseView, tick: u64, extension: u64) -> LeaseView {
    LeaseView {
        refreshed_at_tick: Some(tick),
        expires_at_tick: match l.expires_at_tick {
            Some(t) => Some((t + extension) as u64),
            None => None,
        },
        ..l
    }
}

/// What comes of changing a list of leases, and how many there were.
pub struct Batch {
    pub claims: ClaimManagerView,
    pub count: nat,
}

/// Prolongs a list of leases.
pub open spec fn refreshed(
    m: ClaimManagerView,
    ids: Seq<LeaseId>,
    tick: u64,
    extension: u64,
) -> Batch
    decreases ids.len(),
{
    if ids.len() == 0 {
        Batch { claims: m, count: 0 }
    } else {
        let before = refreshed(m, ids.drop_last(), tick, extension);
        match lease_place(before.claims.leases, ids.last(), 0) {
            Some(i) => Batch {
                claims: ClaimManagerView {
                    leases: before.claims.leases.update(
                        i,
                        prolonged(before.claims.leases[i], tick, extension),
                    ),
                    ..before.claims
                },
                count: before.count + 1,
            },
            None => before,
        }
    }
}

/// Whether a list of leases can be prolonged.
pub open spec fn extension_fits(
    m: ClaimManagerView,
    ids: Seq<LeaseId>,
    tick: u64,
    extension: u64,
) -> bool
    decreases ids.len(),
{
    if ids.len() == 0 {
        true
    } else {
        let before = refreshed(m, ids.drop_last(), tick, extension);
        extension_fits(m, ids.drop_last(), tick, extension) && match lease_place(
            before.claims.leases,
            ids.last(),
            0,
        ) {
            Some(i) => before.claims.leases[i].expires_at_tick matches Some(t) ==> t + extension
                <= u64::MAX,
            None => true,
        }
    }
}

proof fn lemma_extension_fits_prefix(
    m: ClaimManagerView,
    ids: Seq<LeaseId>,
    tick: u64,
    extension: u64,
    n: int,
)
    requires
        0 <= n <= ids.len(),
        extension_fits(m, ids, tick, extension),
    ensures
        extension_fits(m, ids.take(n), tick, extension),
    decreases ids.len() - n,
{
    if n < ids.len() {
        lemma_extension_fits_prefix(m, ids, tick, extension, n + 1);
        assert(ids.take(n + 1).drop_last() =~= ids.take(n));
    } else {
        assert(ids.take(n) =~= ids);
    }
}

/// A lease after it has been taken back.
pub open spec fn taken_back(l: LeaseView, reason: Seq<char>, tick: u64) -> LeaseView {
    LeaseView {
        revoked_at_tick: Some(tick),
        revoke_reason: Some(reason),
        ..archived(l, LeaseDisposition::Revoked, Some(tick))
    }
}

/// A robot after its leases have been taken back, of which there were so many.
pub open spec fn dispossessed(
    s: RobotStateView,
    reason: Seq<char>,
    tick: u64,
    count: nat,
) -> RobotStateView {
    RobotStateView {
        active_lease_ids: Seq::empty(),
        progress_state: RobotProgressState::Replanning,
        hold_reason: Some(reason),
        updated_at_tick: tick,
        needs_replan: count > 0,
        ..s
    }
}

/// A robot after it has missed its slot.
pub open spec fn late(s: RobotStateView, tick: u64) -> RobotStateView {
    RobotStateView {
        progress_state: RobotProgressState::Replanning,
        hold_reason: Some("missed_reservation_window"@),
        needs_replan: true,
        updated_at_tick: tick,
        ..s
    }
}

/// Takes back a list of leases.
pub open spec fn revoked(
    m: ClaimManagerView,
    ids: Seq<LeaseId>,
    reason: Seq<char>,
    tick: u64,
) -> Batch
    decreases ids.len(),
{
    if ids.len() == 0 {
        Batch { claims: m, count: 0 }
    } else {
        let before = revoked(m, ids.drop_last(), reason, tick);
        match lease_place(before.claims.leases, ids.last(), 0) {
            Some(i) => Batch {
                claims: ClaimManagerView {
                    leases: before.claims.leases.remove(i),
                    released: before.claims.released.push(
                        taken_back(before.claims.leases[i], reason, tick),
                    ),
                    ..before.claims
                },
                count: before.count + 1,
            },
            None => before,
        }
    }
}

// ---------------------------------------------------------------------------
// scheduling
// ---------------------------------------------------------------------------

/// The decision for a robot without a route that could be scheduled.
pub open spec fn no_route_decision(start_tick: u64) -> ScheduleDecisionView {
    ScheduleDecisionView {
        kind: ScheduleDecisionKind::Replan,
        start_tick,
        queue_position: 0,
        conflicts: Seq::empty(),
        diagnostics: seq!["robot does not have a schedulable route"@],
    }
}

/// The place and the route of a robot whose route can be scheduled.
pub open spec fn schedulable(c: CoordinatorView, id: RobotId) -> Option<(int, RoutePlanView)> {
    match (c.workspace, robot_place(c.robots, id, 0)) {
        (Some(_), Some(i)) => match c.robots[i].route_plan {
            Some(plan) => Some((i, plan)),
            None => None,
        },
        _ => None,
    }
}

/// What is decided of the route of a robot.
pub open spec fn route_decision<H: Fn(Real) -> Real>(
    h: H,
    c: CoordinatorView,
    id: RobotId,
    claim_id: ClaimId,
    start_tick: u64,
) -> ScheduleDecisionView {
    match schedulable(c, id) {
        Some((_, plan)) => decision_for(
            &c.workspace.unwrap(),
            start_tick,
            route_conflicts(
                route_windows(&c.workspace.unwrap(), h, plan, start_tick),
                claim_id,
                c.claims,
            ),
        ),
        None => no_route_decision(start_tick),
    }
}

fn no_route(start_tick: u64) -> (d: ScheduleDecision)
    ensures
        d@ == no_route_decision(start_tick),
{
    let mut diagnostics: Vec<String> = Vec::new();
    diagnostics.push("robot does not have a schedulable route".to_owned());
    let d = ScheduleDecision {
        kind: ScheduleDecisionKind::Replan,
        start_tick,
        queue_position: 0,
        conflicts: Vec::new(),
        diagnostics,
    };
    assert(d@.diagnostics =~= seq!["robot does not have a schedulable route"@]);
    assert(d@.conflicts =~= Seq::empty());
    d
}

/// A coordinator that has seen no robot.
pub open spec fn blank_coordinator(workspace: Option<Workspace>) -> CoordinatorView {
    CoordinatorView {
        workspace,
        claims: ClaimManagerView {
            workspace,
            requests: Seq::empty(),
            leases: Seq::empty(),
            released: Seq::empty(),
            next_id: 1,
        },
        robots: Seq::empty(),
        keys: Map::empty(),
        by_uuid: Map::empty(),
        next_synthetic: SYNTHETIC_ROBOT_ID_BASE,
        pending: Map::empty(),
        alive: Map::empty(),
    }
}

impl Default for Coordinator {
    fn default() -> (c: Self)
        ensures
            c@ == blank_coordinator(None),
    {
        let c = Coordinator {
            index: None,
            claim_manager: ClaimManager::new(),
            robot_states: Vec::new(),
            robot_keys: BTreeMap::new(),
            robot_id_by_uuid: BTreeMap::new(),
            next_synthetic_robot_id: SYNTHETIC_ROBOT_ID_BASE,
            pending_uuid_bindings: BTreeMap::new(),
            robot_alive: BTreeMap::new(),
        };
        assert(c@.robots =~= Seq::empty());
        assert(c@.keys =~= Map::empty());
        c
    }
}

impl Coordinator {
    /// How often a robot is taken to give a sign of life, in seconds, if it does not
    /// say.
    pub const DEFAULT_ALIVE_SECS: u64 = 2;

    pub fn new() -> (c: Self)
        ensures
            c@ == blank_coordinator(None),
    {
        Self::default()
    }

    pub fn with_index(index: Arc<WorkspaceIndex>) -> (c: Self)
        ensures
            c@ == blank_coordinator(Some((*index)@)),
    {
        let mut c = Self::default();
        c.claim_manager = ClaimManager::with_index(index.clone());
        c.index = Some(index);
        c
    }

    /// A coordinator of the given parts, in which nothing is pending.
    pub(crate) fn from_parts(
        index: Option<Arc<WorkspaceIndex>>,
        claim_manager: ClaimManager,
        robot_states: Vec<RobotState>,
        robot_keys: BTreeMap<u64, Key>,
        robot_id_by_uuid: BTreeMap<Uuid, u64>,
        next_synthetic_robot_id: u64,
        robot_alive: BTreeMap<u64, AliveInfo>,
    ) -> (c: Self)
        ensures
            c@ == (CoordinatorView {
                workspace: shared_workspace(index),
                claims: claim_manager@,
                robots: views(robot_states@),
                keys: key_views(robot_keys@),
                by_uuid: robot_id_by_uuid@,
                next_synthetic: next_synthetic_robot_id,
                pending: Map::empty(),
                alive: robot_alive@,
            }),
    {
        Coordinator {
            index,
            claim_manager,
            robot_states,
            robot_keys,
            robot_id_by_uuid,
            next_synthetic_robot_id,
            pending_uuid_bindings: BTreeMap::new(),
            robot_alive,
        }
    }

    /// An image of the coordinator, given copies of its robots and its ledger.
    pub(crate) fn make_snapshot(
        &self,
        robot_states: Vec<RobotState>,
        claims: ClaimManagerSnapshot,
    ) -> (s: CoordinatorSnapshot)
        ensures
            s@ == (CoordinatorSnapshotView {
                robot_states: views(robot_states@),
                robot_keys: self@.keys,
                robot_id_by_uuid: self@.by_uuid,
                next_synthetic_robot_id: self@.next_synthetic,
                robot_alive: self@.alive,
                claims: claims@,
            }),
    {
        CoordinatorSnapshot {
            robot_states,
            robot_keys: self.robot_keys.clone(),
            robot_id_by_uuid: self.robot_id_by_uuid.clone(),
            next_synthetic_robot_id: self.next_synthetic_robot_id,
            robot_alive: self.robot_alive.clone(),
            claims,
        }
    }

    // -- signs of life ----------------------------------------------------

    /// Notes how often a robot gives a sign of life, and that it just did.
    pub fn set_alive(&mut self, robot_id: RobotId, interval_secs: u64, now_ms: u64)
        ensures
            final(self)@ == (CoordinatorView {
                alive: noted_alive(old(self)@.alive, robot_id, interval_secs, now_ms),
                ..old(self)@
            }),
    {
        let interval: u64 = if interval_secs == 0 {
            Self::DEFAULT_ALIVE_SECS
        } else {
            interval_secs
        };
        self.robot_alive.insert(
            robot_id.0,
            AliveInfo { interval_secs: interval, last_seen_ms: now_ms },
        );
    }

    /// Notes that a robot has just given a sign of life.
    pub fn touch_robot(&mut self, robot_id: RobotId, now_ms: u64)
        ensures
            final(self)@ == (CoordinatorView {
                alive: touched(old(self)@.alive, robot_id, now_ms),
                ..old(self)@
            }),
    {
        let known: Option<AliveInfo> = match self.robot_alive.get(&robot_id.0) {
            Some(a) => Some(*a),
            None => None,
        };
        if let Some(a) = known {
            self.robot_alive.insert(
                robot_id.0,
                AliveInfo { interval_secs: a.interval_secs, last_seen_ms: now_ms },
            );
        }
    }

    /// Whether a robot is active: less than two intervals have gone by since its
    /// last sign of life. One of which nothing is known is.
    pub fn robot_active_at(&self, robot_id: RobotId, now_ms: u64) -> (b: bool)
        ensures
            b == is_active(self@.alive, robot_id, now_ms),
    {
        match self.robot_alive.get(&robot_id.0) {
            Some(a) => measure_silence(*a, now_ms) < measure_patience(*a),
            None => true,
        }
    }

    /// The robots whose last sign of life is older than two intervals.
    pub fn inactive_robots_at(&self, now_ms: u64) -> (ids: Vec<RobotId>)
        ensures
            lists_silent(ids@, self@.alive, now_ms),
    {
        let all = list_map(&self.robot_alive);
        let ghost alive = self.robot_alive@;
        let mut ids: Vec<RobotId> = Vec::new();
        let mut i: usize = 0;
        while i < all.len()
            invariant
                i <= all.len(),
                lists_map(all@, alive),
                forall|p: int, q: int|
                    0 <= p < q < ids@.len() ==> (#[trigger] ids@[p]).0 < (#[trigger] ids@[q]).0,
                forall|p: int|
                    0 <= p < ids@.len() ==> silent_among(
                        all@,
                        i as int,
                        (#[trigger] ids@[p]).0,
                        now_ms,
                    ),
                forall|q: int|
                    0 <= q < i && silence((#[trigger] all@[q]).1, now_ms) > patience(all@[q].1)
                        ==> ids@.contains(RobotId(all@[q].0)),
            decreases all.len() - i,
        {
            let (id, a) = all[i];
            let ghost before = ids@;
            if measure_silence(a, now_ms) > measure_patience(a) {
                ids.push(RobotId(id));
                proof {
                    assert forall|p: int, q: int| 0 <= p < q < ids@.len() implies (
                    #[trigger] ids@[p]).0 < (#[trigger] ids@[q]).0 by {
                        if q == before.len() {
                            assert(silent_among(all@, i as int, before[p].0, now_ms));
                            let r = choose|r: int|
                                0 <= r < i && (#[trigger] all@[r]).0 == before[p].0 && silence(
                                    all@[r].1,
                                    now_ms,
                                ) > patience(all@[r].1);
                            assert(all@[r].0 < all@[i as int].0);
                        }
                    }
                    assert forall|q: int|
                        0 <= q < i + 1 && silence((#[trigger] all@[q]).1, now_ms) > patience(
                            all@[q].1,
                        ) implies ids@.contains(RobotId(all@[q].0)) by {
                        if q < i {
                            assert(before.contains(RobotId(all@[q].0)));
                            let p = choose|p: int|
                                0 <= p < before.len() && before[p] == RobotId(all@[q].0);
                            assert(ids@[p] == RobotId(all@[q].0));
                        } else {
                            assert(ids@[before.len() as int] == RobotId(all@[q].0));
                        }
                    }
                }
            }
            proof {
                assert forall|p: int| 0 <= p < ids@.len() implies silent_among(
                    all@,
                    i as int + 1,
                    (#[trigger] ids@[p]).0,
                    now_ms,
                ) by {
                    if p < before.len() {
                        assert(ids@[p] == before[p]);
                        assert(silent_among(all@, i as int, before[p].0, now_ms));
                    } else {
                        assert(all@[i as int].0 == ids@[p].0);
                    }
                }
            }
            i = i + 1;
        }
        proof {
            assert forall|id: RobotId| #[trigger] ids@.contains(id) <==> alive.dom().contains(id.0)
                && silence(alive[id.0], now_ms) > patience(alive[id.0]) by {
                if ids@.contains(id) {
                    let p = choose|p: int| 0 <= p < ids@.len() && ids@[p] == id;
                    assert(silent_among(all@, i as int, ids@[p].0, now_ms));
                    let q = choose|q: int|
                        0 <= q < i && (#[trigger] all@[q]).0 == ids@[p].0 && silence(
                            all@[q].1,
                            now_ms,
                        ) > patience(all@[q].1);
                    assert(alive.dom().contains(all@[q].0));
                }
                if alive.dom().contains(id.0) && silence(alive[id.0], now_ms) > patience(
                    alive[id.0],
                ) {
                    let q = choose|q: int| 0 <= q < all@.len() && (#[trigger] all@[q]).0 == id.0;
                    assert(RobotId(all@[q].0) == id);
                }
            }
        }
        ids
    }

    /// Takes the claims of all robots that have gone silent from them, and lists
    /// those that had any. The robots stay registered.
    pub fn sweep_inactive(&mut self, now_ms: u64) -> (freed: Vec<RobotId>)
        ensures
            exists|ids: Seq<RobotId>| #[trigger]
                lists_silent(ids, old(self)@.alive, now_ms) && final(self)@ == (CoordinatorView {
                    claims: swept(old(self)@.claims, ids, now_ms).claims,
                    ..old(self)@
                }) && freed@ == swept(old(self)@.claims, ids, now_ms).freed,
    {
        let ids = self.inactive_robots_at(now_ms);
        let ghost m = self@.claims;
        let mut freed: Vec<RobotId> = Vec::new();
        let mut i: usize = 0;
        assert(ids@.take(0) =~= Seq::empty());
        while i < ids.len()
            invariant
                i <= ids.len(),
                self@ == (CoordinatorView {
                    claims: swept(m, ids@.take(i as int), now_ms).claims,
                    ..old(self)@
                }),
                freed@ == swept(m, ids@.take(i as int), now_ms).freed,
            decreases ids.len() - i,
        {
            assert(ids@.take(i as int + 1).drop_last() =~= ids@.take(i as int));
            let requests = self.claim_manager.remove_requests_for_robot(ids[i]);
            let leases = self.claim_manager.release_leases_for_robot(ids[i], Some(now_ms));
            if requests > 0 || leases > 0 {
                freed.push(ids[i]);
            }
            proof {
                crate::claim::laws::lemma_requests_of_others(
                    swept(m, ids@.take(i as int), now_ms).claims.requests,
                    ids@[i as int],
                );
            }
            i = i + 1;
        }
        assert(ids@.take(i as int) =~= ids@);
        freed
    }

    // -- parts ------------------------------------------------------------

    pub fn index(&self) -> (index: Option<&WorkspaceIndex>)
        ensures
            indexed(index) == self@.workspace,
    {
        match &self.index {
            Some(i) => Some(i),
            None => None,
        }
    }

    pub fn index_arc(&self) -> (index: Option<Arc<WorkspaceIndex>>)
        ensures
            shared_workspace(index) == self@.workspace,
    {
        match &self.index {
            Some(i) => Some(i.clone()),
            None => None,
        }
    }

    pub fn has_index(&self) -> (b: bool)
        ensures
            b == self@.workspace is Some,
    {
        self.index.is_some()
    }

    pub fn claim_manager(&self) -> (m: &ClaimManager)
        ensures
            m@ == self@.claims,
    {
        &self.claim_manager
    }

    pub fn claim_manager_mut(&mut self) -> (m: &mut ClaimManager)
        ensures
            (*m)@ == old(self)@.claims,
            final(self)@ == (CoordinatorView { claims: (*final(m))@, ..old(self)@ }),
    {
        &mut self.claim_manager
    }

    /// Whether there is no robot.
    pub fn empty(&self) -> (b: bool)
        ensures
            b == (self@.robots.len() == 0),
    {
        self.robot_states.len() == 0
    }

    pub fn robot_count(&self) -> (n: usize)
        ensures
            n == self@.robots.len(),
    {
        self.robot_states.len()
    }

    pub fn robot_states(&self) -> (r: &Vec<RobotState>)
        ensures
            views(r@) == self@.robots,
    {
        &self.robot_states
    }

    pub fn bind_index(&mut self, index: Arc<WorkspaceIndex>)
        ensures
            final(self)@ == (CoordinatorView {
                workspace: Some((*index)@),
                claims: ClaimManagerView { workspace: Some((*index)@), ..old(self)@.claims },
                ..old(self)@
            }),
    {
        self.claim_manager.bind_index(index.clone());
        self.index = Some(index);
    }

    /// Forgets all robots and claims.
    pub fn clear(&mut self)
        ensures
            final(self)@ == (CoordinatorView {
                workspace: old(self)@.workspace,
                claims: ClaimManagerView {
                    requests: Seq::empty(),
                    leases: Seq::empty(),
                    released: Seq::empty(),
                    ..old(self)@.claims
                },
                ..blank_coordinator(None)
            }),
    {
        self.robot_states = Vec::new();
        self.robot_keys = BTreeMap::new();
        self.robot_id_by_uuid = BTreeMap::new();
        self.pending_uuid_bindings = BTreeMap::new();
        self.robot_alive = BTreeMap::new();
        self.next_synthetic_robot_id = SYNTHETIC_ROBOT_ID_BASE;
        self.claim_manager.clear();
        assert(self@.robots =~= Seq::empty());
        assert(self@.keys =~= Map::empty());
    }

    // -- registration -----------------------------------------------------

    /// The robot that a text denotes. For a universally unique identifier that no
    /// robot is registered under, a robot identifier is minted. It is bound to
    /// the universally unique one only when the robot registers.
    pub fn resolve_or_mint_robot_id(&mut self, raw: &str) -> (id: Option<RobotId>)
        ensures
            if names_newcomer(old(self)@, raw@) {
                id == Some(RobotId(old(self)@.next_synthetic)) && final(self)@ == minted_for(
                    old(self)@,
                    uuid_denoted(trimmed(raw@)).unwrap(),
                )
            } else {
                id == robot_named(old(self)@, raw@) && final(self)@ == old(self)@
            },
    {
        let text = trim(raw);
        if let Some(n) = read_integer(text) {
            return Some(RobotId(n));
        }
        let u = match parse_uuid(text) {
            Some(u) => u,
            None => {
                return None;
            },
        };
        let known: Option<u64> = match self.robot_id_by_uuid.get(&u) {
            Some(n) => Some(*n),
            None => None,
        };
        if let Some(n) = known {
            return Some(RobotId(n));
        }
        let id = self.next_synthetic_robot_id;
        self.next_synthetic_robot_id = if id < u64::MAX {
            id + 1
        } else {
            id
        };
        self.pending_uuid_bindings.insert(id, u);
        Some(RobotId(id))
    }

    /// The robot that a text denotes, if it is registered or an integer.
    pub fn resolve_robot_id(&self, raw: &str) -> (id: Option<RobotId>)
        ensures
            id == robot_named(self@, raw@),
    {
        let text = trim(raw);
        if let Some(n) = read_integer(text) {
            return Some(RobotId(n));
        }
        match parse_uuid(text) {
            Some(u) => match self.robot_id_by_uuid.get(&u) {
                Some(n) => Some(RobotId(*n)),
                None => None,
            },
            None => None,
        }
    }

    /// Registers a robot with its key. One that is already registered is left as
    /// it is.
    pub fn register_with_key(&mut self, robot_id: RobotId, key: Key) -> (done: bool)
        ensures
            done == !is_registered(old(self)@, robot_id),
            done ==> final(self)@ == registered(old(self)@, robot_id, key@),
            !done ==> final(self)@ == (CoordinatorView {
                pending: old(self)@.pending.remove(robot_id.0),
                ..old(self)@
            }),
    {
        if self.has_robot(robot_id) {
            self.pending_uuid_bindings.remove(&robot_id.0);
            return false;
        }
        let mut state = RobotState::default();
        state.robot_id = robot_id;
        proof {
            lemma_views_push(self.robot_states@, state);
        }
        self.robot_states.push(state);
        let ghost k = key@;
        self.robot_keys.insert(robot_id.0, key);
        assert(key_views(self.robot_keys@) =~= old(self)@.keys.insert(robot_id.0, k));
        let bound = self.pending_uuid_bindings.remove(&robot_id.0);
        if let Some(u) = bound {
            self.robot_id_by_uuid.insert(u, robot_id.0);
        }
        true
    }

    /// Whether a key is the one that a robot was registered with.
    pub fn validate_key(&self, robot_id: RobotId, key: &Key) -> (b: bool)
        ensures
            b == (looked_up(self@.keys, robot_id.0) == Some(key@)),
    {
        match self.robot_keys.get(&robot_id.0) {
            Some(stored) => stored.matches(key),
            None => false,
        }
    }

    /// Whether a robot is registered.
    pub fn has_robot(&self, robot_id: RobotId) -> (b: bool)
        ensures
            b == is_registered(self@, robot_id),
    {
        self.robot_keys.contains_key(&robot_id.0) || self.find_robot_state(robot_id).is_some()
    }

    /// Puts a robot in place of the one that has its identifier, or adds it.
    pub fn register_robot(&mut self, state: RobotState)
        ensures
            final(self)@ == (match robot_place(old(self)@.robots, state@.robot_id, 0) {
                Some(i) => with_robot(old(self)@, i, state@),
                None => CoordinatorView { robots: old(self)@.robots.push(state@), ..old(self)@ },
            }),
    {
        match find_robot_place(&self.robot_states, state.robot_id) {
            Some(i) => {
                let ghost before = views(self.robot_states@);
                let ghost s = state@;
                self.robot_states.set(i, state);
                assert(views(self.robot_states@) =~= before.update(i as int, s));
            },
            None => {
                proof {
                    lemma_views_push(self.robot_states@, state);
                }
                self.robot_states.push(state);
            },
        }
    }

    fn forget_uuids(&mut self, id: u64)
        ensures
            final(self)@ == (CoordinatorView {
                by_uuid: uuids_of_others(old(self)@.by_uuid, id),
                ..old(self)@
            }),
    {
        let keys = list_keys(&self.robot_id_by_uuid);
        let ghost m = self.robot_id_by_uuid@;
        let mut i: usize = 0;
        while i < keys.len()
            invariant
                i <= keys.len(),
                forall|k: Uuid| #[trigger] m.dom().contains(k) <==> keys@.contains(k),
                forall|k: Uuid| #[trigger]
                    self.robot_id_by_uuid@.dom().contains(k) <==> m.dom().contains(k) && (m[k] != id
                        || !keys@.take(i as int).contains(k)),
                forall|k: Uuid| #[trigger]
                    self.robot_id_by_uuid@.dom().contains(k) ==> self.robot_id_by_uuid@[k] == m[k],
                self.index == old(self).index,
                self.claim_manager == old(self).claim_manager,
                self.robot_states == old(self).robot_states,
                self.robot_keys == old(self).robot_keys,
                self.next_synthetic_robot_id == old(self).next_synthetic_robot_id,
                self.pending_uuid_bindings == old(self).pending_uuid_bindings,
                self.robot_alive == old(self).robot_alive,
            decreases keys.len() - i,
        {
            let k = keys[i];
            let ghost before = self.robot_id_by_uuid@;
            proof {
                assert forall|x: Uuid| keys@.take(i as int + 1).contains(x) <==> keys@.take(
                    i as int,
                ).contains(x) || x == k by {
                    crate::index::tables::lemma_take_contains(keys@, i as int, x);
                }
                assert(keys@.contains(keys@[i as int]));
                assert(m.dom().contains(k));
            }
            let gone = match self.robot_id_by_uuid.get(&k) {
                Some(n) => *n == id,
                None => false,
            };
            if gone {
                self.robot_id_by_uuid.remove(&k);
            }
            proof {
                assert(before.dom().contains(k) ==> before[k] == m[k]);
                assert(before.dom().contains(k) <==> m.dom().contains(k) && (m[k] != id
                    || !keys@.take(i as int).contains(k)));
                assert forall|x: Uuid| #[trigger]
                    self.robot_id_by_uuid@.dom().contains(x) <==> m.dom().contains(x) && (m[x] != id
                        || !keys@.take(i as int + 1).contains(x)) by {
                    assert(before.dom().contains(x) <==> m.dom().contains(x) && (m[x] != id
                        || !keys@.take(i as int).contains(x)));
                }
                assert forall|x: Uuid| #[trigger]
                    self.robot_id_by_uuid@.dom().contains(x) implies self.robot_id_by_uuid@[x]
                    == m[x] by {
                    assert(before.dom().contains(x));
                }
            }
            i = i + 1;
        }
        assert(keys@.take(i as int) =~= keys@);
        assert(self.robot_id_by_uuid@ =~= uuids_of_others(m, id));
    }

    /// Takes a robot off the fleet, with its claims.
    pub fn unregister_robot(&mut self, robot_id: RobotId) -> (done: bool)
        ensures
            match robot_place(old(self)@.robots, robot_id, 0) {
                Some(i) => done && final(self)@ == unregistered(old(self)@, i),
                None => !done && final(self)@ == old(self)@,
            },
    {
        match find_robot_place(&self.robot_states, robot_id) {
            Some(i) => {
                proof {
                    lemma_robot_place(self@.robots, robot_id, 0);
                    assert(self@.robots[i as int] == self.robot_states@[i as int]@);
                }
                let tick = self.robot_states[i].updated_at_tick;
                self.claim_manager.remove_requests_for_robot(robot_id);
                self.claim_manager.release_leases_for_robot(robot_id, Some(tick));
                let ghost before = views(self.robot_states@);
                self.robot_states.remove(i);
                assert(views(self.robot_states@) =~= before.remove(i as int));
                let ghost keys = self.robot_keys@;
                self.robot_keys.remove(&robot_id.0);
                assert(key_views(self.robot_keys@) =~= key_views(keys).remove(robot_id.0));
                self.forget_uuids(robot_id.0);
                self.robot_alive.remove(&robot_id.0);
                true
            },
            None => false,
        }
    }

    pub fn find_robot_state(&self, robot_id: RobotId) -> (state: Option<&RobotState>)
        ensures
            match robot_place(self@.robots, robot_id, 0) {
                Some(i) => state matches Some(s) && s@ == self@.robots[i],
                None => state is None,
            },
    {
        match find_robot_place(&self.robot_states, robot_id) {
            Some(i) => {
                assert(self@.robots[i as int] == self.robot_states@[i as int]@);
                Some(&self.robot_states[i])
            },
            None => None,
        }
    }

    pub fn find_robot_state_mut(&mut self, robot_id: RobotId) -> (state: Option<&mut RobotState>)
        ensures
            match robot_place(old(self)@.robots, robot_id, 0) {
                Some(i) => state matches Some(s) && (*s)@ == old(self)@.robots[i] && final(self)@
                    == with_robot(old(self)@, i, (*final(s))@),
                None => state is None && final(self)@ == old(self)@,
            },
    {
        match find_robot_place(&self.robot_states, robot_id) {
            Some(i) => {
                proof {
                    let robots = self.robot_states@;
                    assert(self@.robots[i as int] == robots[i as int]@);
                    assert forall|s: RobotState| views(#[trigger] robots.update(i as int, s))
                        == views(robots).update(i as int, s@) by {
                        assert(views(robots.update(i as int, s)) =~= views(robots).update(
                            i as int,
                            s@,
                        ));
                    }
                }
                Some(&mut self.robot_states[i])
            },
            None => None,
        }
    }

    /// The request of a robot for what it comes to within its horizon. `subtract`
    /// takes one cost from another.
    pub fn claim_request_for_robot<D: Fn(Real, Real) -> Real>(
        &self,
        robot_id: RobotId,
        claim_id: ClaimId,
        access_mode: ClaimAccessMode,
        subtract: &D,
    ) -> (r: ClaimRequest)
        requires
            is_operation(*subtract),
            robot_place(self@.robots, robot_id, 0) matches Some(i) ==> horizon_fits(
                self@.robots[i],
            ),
        ensures
            r@ == match robot_place(self@.robots, robot_id, 0) {
                Some(i) => horizon_request(*subtract, claim_id, self@.robots[i], access_mode),
                None => blank_request(),
            },
    {
        match self.find_robot_state(robot_id) {
            Some(state) => rolling_horizon_claim_request(claim_id, state, access_mode, subtract),
            None => ClaimRequest::default(),
        }
    }
}

impl Coordinator {
    /// Notes where a robot says it is and which way it is pointing. What is not
    /// reported stays as it was.
    pub fn update_robot_pose(
        &mut self,
        robot_id: RobotId,
        position: Option<RobotPosition>,
        heading: Option<RobotHeading>,
        at_ms: u64,
    ) -> (done: bool)
        ensures
            match robot_place(old(self)@.robots, robot_id, 0) {
                Some(i) if position is Some || heading is Some => done && final(self)@
                    == with_robot(
                    old(self)@,
                    i,
                    posed(old(self)@.robots[i], position, heading, at_ms),
                ),
                _ => !done && final(self)@ == old(self)@,
            },
    {
        if position.is_none() && heading.is_none() {
            return false;
        }
        match self.find_robot_state_mut(robot_id) {
            Some(state) => {
                if position.is_some() {
                    state.position = position;
                }
                if heading.is_some() {
                    state.heading = heading;
                }
                state.pose_at_ms = Some(at_ms);
                true
            },
            None => false,
        }
    }

    /// Notes which node a robot is at, or which edge it is on.
    pub fn update_robot_progress(
        &mut self,
        robot_id: RobotId,
        current_node_id: Option<Uuid>,
        current_edge_id: Option<Uuid>,
        updated_at_tick: u64,
    ) -> (done: bool)
        ensures
            match robot_place(old(self)@.robots, robot_id, 0) {
                Some(i) => done && final(self)@ == with_robot(
                    old(self)@,
                    i,
                    progressed(
                        old(self)@.robots[i],
                        current_node_id,
                        current_edge_id,
                        updated_at_tick,
                    ),
                ),
                None => !done && final(self)@ == old(self)@,
            },
    {
        match self.find_robot_state_mut(robot_id) {
            Some(state) => {
                move_robot(state, current_node_id, current_edge_id, updated_at_tick);
                true
            },
            None => false,
        }
    }

    /// Sends a robot on a route.
    pub fn assign_route_plan(
        &mut self,
        robot_id: RobotId,
        route_plan: RoutePlan,
        horizon: u64,
        updated_at_tick: u64,
    ) -> (done: bool)
        ensures
            match robot_place(old(self)@.robots, robot_id, 0) {
                Some(i) => done && final(self)@ == with_robot(
                    old(self)@,
                    i,
                    assigned(old(self)@.robots[i], route_plan@, horizon, updated_at_tick),
                ),
                None => !done && final(self)@ == old(self)@,
            },
    {
        match self.find_robot_state_mut(robot_id) {
            Some(state) => {
                let ticks = route_plan.total_cost.ceil_ticks();
                let empty = route_plan.traversed_node_ids.len() == 0;
                state.route_plan = Some(route_plan);
                state.horizon = horizon;
                state.next_route_step_index = 0;
                state.scheduled_start_tick = Some(updated_at_tick);
                state.reserved_until_tick = Some(find_tick_after(updated_at_tick, ticks));
                state.wait_ticks = 0;
                state.needs_replan = false;
                state.progress_state = if empty {
                    RobotProgressState::Idle
                } else {
                    RobotProgressState::FollowingRoute
                };
                state.updated_at_tick = updated_at_tick;
                true
            },
            None => false,
        }
    }

    /// Notes which claims of a robot are pending and which leases it holds.
    pub fn update_robot_claim_state(
        &mut self,
        robot_id: RobotId,
        pending_claim_ids: Vec<ClaimId>,
        active_lease_ids: Vec<LeaseId>,
        last_claim_tick: Option<u64>,
    ) -> (done: bool)
        ensures
            match robot_place(old(self)@.robots, robot_id, 0) {
                Some(i) => done && final(self)@ == with_robot(
                    old(self)@,
                    i,
                    RobotStateView {
                        pending_claim_ids: pending_claim_ids@,
                        active_lease_ids: active_lease_ids@,
                        last_claim_tick,
                        ..old(self)@.robots[i]
                    },
                ),
                None => !done && final(self)@ == old(self)@,
            },
    {
        match self.find_robot_state_mut(robot_id) {
            Some(state) => {
                state.pending_claim_ids = pending_claim_ids;
                state.active_lease_ids = active_lease_ids;
                state.last_claim_tick = last_claim_tick;
                true
            },
            None => false,
        }
    }

    /// Lets go of the leases of a robot that lie behind it, and tells how many
    /// there were.
    pub fn release_behind_progress(&mut self, robot_id: RobotId) -> (released: u64)
        ensures
            match robot_place(old(self)@.robots, robot_id, 0) {
                Some(i) => {
                    let s = old(self)@.robots[i];
                    let shed = shed_behind(s, old(self)@.claims);
                    &&& released == shed.released
                    &&& final(self)@ == with_robot(
                        CoordinatorView { claims: shed.manager, ..old(self)@ },
                        i,
                        RobotStateView {
                            active_lease_ids: shed.retained,
                            last_claim_tick: if shed.released > 0 && s.progress_state
                                == RobotProgressState::FollowingRoute {
                                Some(s.updated_at_tick)
                            } else {
                                s.last_claim_tick
                            },
                            ..s
                        },
                    )
                },
                None => released == 0 && final(self)@ == old(self)@,
            },
    {
        match find_robot_place(&self.robot_states, robot_id) {
            Some(i) => {
                let ghost before = views(self.robot_states@);
                assert(before[i as int] == self.robot_states@[i as int]@);
                let mut state = self.robot_states[i].clone();
                let released = release_targets_behind_progress(
                    &mut state,
                    &mut self.claim_manager,
                );
                if released > 0 && state.progress_state == RobotProgressState::FollowingRoute {
                    state.last_claim_tick = Some(state.updated_at_tick);
                }
                let ghost s = state@;
                self.robot_states.set(i, state);
                assert(views(self.robot_states@) =~= before.update(i as int, s));
                released
            },
            None => 0,
        }
    }

    /// Decides on the route of a robot, and applies the decision to it. `scale`
    /// turns costs into ticks.
    pub fn schedule_robot_route<H: Fn(Real) -> Real>(
        &mut self,
        robot_id: RobotId,
        claim_id: ClaimId,
        start_tick: u64,
        scale: &H,
        access_mode: ClaimAccessMode,
    ) -> (d: ScheduleDecision)
        requires
            is_scale(*scale),
            schedulable(old(self)@, robot_id) matches Some((_, plan)) ==> (shape_error(plan) is None
                ==> ticks_fit(*scale, plan, start_tick)),
        ensures
            d@ == route_decision(*scale, old(self)@, robot_id, claim_id, start_tick),
            final(self)@ == match schedulable(old(self)@, robot_id) {
                Some((i, plan)) => with_robot(
                    old(self)@,
                    i,
                    decided(
                        RobotStateView {
                            reserved_until_tick: route_window(*scale, plan, start_tick).end_tick,
                            ..old(self)@.robots[i]
                        },
                        d@,
                        start_tick,
                    ),
                ),
                None => old(self)@,
            },
    {
        let place = match find_robot_place(&self.robot_states, robot_id) {
            Some(i) => i,
            None => {
                return no_route(start_tick);
            },
        };
        let ghost before = views(self.robot_states@);
        assert(before[place as int] == self.robot_states@[place as int]@);
        let index = match &self.index {
            Some(i) => i.clone(),
            None => {
                return no_route(start_tick);
            },
        };
        let mut state = self.robot_states[place].clone();
        let plan = match &state.route_plan {
            Some(p) => p,
            None => {
                return no_route(start_tick);
            },
        };
        let request = claim_request_from_route(
            claim_id,
            robot_id,
            state.mission_id,
            plan,
            Some(start_tick),
            scale,
            access_mode,
        );
        let decision = schedule_route_request(
            &index,
            &self.claim_manager,
            &request,
            plan,
            start_tick,
            scale,
        );
        state.reserved_until_tick = request.window.end_tick;
        apply_schedule_decision(&mut state, &decision, start_tick);
        let ghost s = state@;
        self.robot_states.set(place, state);
        assert(views(self.robot_states@) =~= before.update(place as int, s));
        decision
    }

    /// Whether the leases of a robot can be prolonged. They are to be refreshed
    /// only where they can.
    pub fn does_extension_fit(
        &self,
        robot_id: RobotId,
        refreshed_at_tick: u64,
        extension_ticks: u64,
    ) -> (b: bool)
        ensures
            b == (robot_place(self@.robots, robot_id, 0) matches Some(i) ==> extension_fits(
                self@.claims,
                self@.robots[i].active_lease_ids,
                refreshed_at_tick,
                extension_ticks,
            )),
    {
        let ids: &Vec<LeaseId> = match self.find_robot_state(robot_id) {
            Some(state) => &state.active_lease_ids,
            None => {
                return true;
            },
        };
        let ghost m = self@.claims;
        let mut trial = self.claim_manager.copied();
        let mut i: usize = 0;
        assert(ids@.take(0) =~= Seq::empty());
        while i < ids.len()
            invariant
                i <= ids.len(),
                extension_fits(m, ids@.take(i as int), refreshed_at_tick, extension_ticks),
                trial@ == refreshed(
                    m,
                    ids@.take(i as int),
                    refreshed_at_tick,
                    extension_ticks,
                ).claims,
                robot_place(self@.robots, robot_id, 0) matches Some(r)
                    && self@.robots[r].active_lease_ids == ids@,
                m == self@.claims,
            decreases ids.len() - i,
        {
            let ghost next = ids@.take(i as int + 1);
            assert(next.drop_last() =~= ids@.take(i as int));
            let id = ids[i];
            let expiry: Option<u64> = match trial.find_lease(id) {
                Some(lease) => match lease.expires_at_tick {
                    Some(t) => {
                        if t > u64::MAX - extension_ticks {
                            proof {
                                if extension_fits(m, ids@, refreshed_at_tick, extension_ticks) {
                                    lemma_extension_fits_prefix(
                                        m,
                                        ids@,
                                        refreshed_at_tick,
                                        extension_ticks,
                                        i as int + 1,
                                    );
                                }
                            }
                            return false;
                        }
                        Some(t + extension_ticks)
                    },
                    None => None,
                },
                None => None,
            };
            trial.refresh_lease(id, refreshed_at_tick, expiry);
            i = i + 1;
        }
        assert(ids@.take(i as int) =~= ids@);
        true
    }

    /// Prolongs the leases of a robot, and tells how many there were.
    pub fn refresh_robot_leases(
        &mut self,
        robot_id: RobotId,
        refreshed_at_tick: u64,
        extension_ticks: u64,
    ) -> (n: u64)
        requires
            robot_place(old(self)@.robots, robot_id, 0) matches Some(i) ==> extension_fits(
                old(self)@.claims,
                old(self)@.robots[i].active_lease_ids,
                refreshed_at_tick,
                extension_ticks,
            ),
        ensures
            match robot_place(old(self)@.robots, robot_id, 0) {
                Some(i) => {
                    let s = old(self)@.robots[i];
                    let batch = refreshed(
                        old(self)@.claims,
                        s.active_lease_ids,
                        refreshed_at_tick,
                        extension_ticks,
                    );
                    &&& n == batch.count
                    &&& final(self)@ == with_robot(
                        CoordinatorView { claims: batch.claims, ..old(self)@ },
                        i,
                        RobotStateView { last_claim_tick: Some(refreshed_at_tick), ..s },
                    )
                },
                None => n == 0 && final(self)@ == old(self)@,
            },
    {
        let ids: Vec<LeaseId> = match self.find_robot_state_mut(robot_id) {
            Some(state) => {
                state.last_claim_tick = Some(refreshed_at_tick);
                copy_list(&state.active_lease_ids)
            },
            None => {
                return 0;
            },
        };
        let ghost c = self@;
        let ghost m = self@.claims;
        let mut n: u64 = 0;
        let mut i: usize = 0;
        assert(ids@.take(0) =~= Seq::empty());
        while i < ids.len()
            invariant
                i <= ids.len(),
                n <= i,
                extension_fits(m, ids@, refreshed_at_tick, extension_ticks),
                self@ == (CoordinatorView {
                    claims: refreshed(
                        m,
                        ids@.take(i as int),
                        refreshed_at_tick,
                        extension_ticks,
                    ).claims,
                    ..c
                }),
                n == refreshed(m, ids@.take(i as int), refreshed_at_tick, extension_ticks).count,
            decreases ids.len() - i,
        {
            let ghost next = ids@.take(i as int + 1);
            assert(next.drop_last() =~= ids@.take(i as int));
            proof {
                lemma_extension_fits_prefix(
                    m,
                    ids@,
                    refreshed_at_tick,
                    extension_ticks,
                    i as int + 1,
                );
            }
            let id = ids[i];
            let expiry: Option<u64> = match self.claim_manager.find_lease(id) {
                Some(lease) => match lease.expires_at_tick {
                    Some(t) => Some(t + extension_ticks),
                    None => None,
                },
                None => None,
            };
            if self.claim_manager.refresh_lease(id, refreshed_at_tick, expiry) {
                n = n + 1;
            }
            i = i + 1;
        }
        assert(ids@.take(i as int) =~= ids@);
        n
    }

    /// Takes the leases of a robot back, and tells how many there were.
    pub fn revoke_robot_leases(
        &mut self,
        robot_id: RobotId,
        reason: String,
        revoked_at_tick: u64,
    ) -> (n: u64)
        ensures
            match robot_place(old(self)@.robots, robot_id, 0) {
                Some(i) => {
                    let s = old(self)@.robots[i];
                    let batch = revoked(
                        old(self)@.claims,
                        s.active_lease_ids,
                        reason@,
                        revoked_at_tick,
                    );
                    &&& n == batch.count
                    &&& final(self)@ == with_robot(
                        CoordinatorView { claims: batch.claims, ..old(self)@ },
                        i,
                        dispossessed(s, reason@, revoked_at_tick, batch.count),
                    )
                },
                None => n == 0 && final(self)@ == old(self)@,
            },
    {
        let place = match find_robot_place(&self.robot_states, robot_id) {
            Some(i) => i,
            None => {
                return 0;
            },
        };
        let ghost before = views(self.robot_states@);
        assert(before[place as int] == self.robot_states@[place as int]@);
        let mut state = self.robot_states[place].clone();
        let ids = copy_list(&state.active_lease_ids);
        let ghost m = self@.claims;
        let mut n: u64 = 0;
        let mut i: usize = 0;
        assert(ids@.take(0) =~= Seq::empty());
        while i < ids.len()
            invariant
                i <= ids.len(),
                n <= i,
                self@ == (CoordinatorView {
                    claims: revoked(m, ids@.take(i as int), reason@, revoked_at_tick).claims,
                    ..old(self)@
                }),
                self.robot_states == old(self).robot_states,
                n == revoked(m, ids@.take(i as int), reason@, revoked_at_tick).count,
            decreases ids.len() - i,
        {
            assert(ids@.take(i as int + 1).drop_last() =~= ids@.take(i as int));
            if self.claim_manager.revoke_lease(ids[i], reason.clone(), revoked_at_tick) {
                n = n + 1;
            }
            i = i + 1;
        }
        assert(ids@.take(i as int) =~= ids@);
        state.active_lease_ids = Vec::new();
        state.progress_state = RobotProgressState::Replanning;
        state.hold_reason = Some(reason);
        state.updated_at_tick = revoked_at_tick;
        state.needs_replan = n > 0;
        let ghost s = state@;
        assert(s.active_lease_ids =~= Seq::empty());
        self.robot_states.set(place, state);
        assert(views(self.robot_states@) =~= before.update(place as int, s));
        n
    }

    /// Has a robot plan anew that has missed its slot.
    pub fn handle_missed_schedule_slot(
        &mut self,
        robot_id: RobotId,
        current_tick: u64,
        grace_ticks: u64,
    ) -> (missed: bool)
        requires
            robot_place(old(self)@.robots, robot_id, 0) matches Some(i) ==> grace_fits(
                old(self)@.robots[i],
                grace_ticks,
            ),
        ensures
            match robot_place(old(self)@.robots, robot_id, 0) {
                Some(i) if missed_slot(old(self)@.robots[i], current_tick, grace_ticks) => missed
                    && final(self)@ == with_robot(
                    old(self)@,
                    i,
                    late(old(self)@.robots[i], current_tick),
                ),
                _ => !missed && final(self)@ == old(self)@,
            },
    {
        let missed = match self.find_robot_state(robot_id) {
            Some(state) => robot_missed_schedule_slot(state, current_tick, grace_ticks),
            None => false,
        };
        if !missed {
            return false;
        }
        match self.find_robot_state_mut(robot_id) {
            Some(state) => {
                state.progress_state = RobotProgressState::Replanning;
                state.hold_reason = Some("missed_reservation_window".to_owned());
                state.needs_replan = true;
                state.updated_at_tick = current_tick;
                true
            },
            None => false,
        }
    }
}

fn move_robot(state: &mut RobotState, node: Option<Uuid>, edge: Option<Uuid>, tick: u64)
    ensures
        final(state)@ == progressed(old(state)@, node, edge, tick),
{
    state.current_node_id = node;
    state.current_edge_id = edge;
    state.updated_at_tick = tick;
    let arrival: Option<(Option<u64>, u64)> = match (&state.route_plan, node) {
        (Some(plan), Some(n)) => {
            let place = find_place(&plan.traversed_node_ids, n);
            Some((place, plan.traversed_node_ids.len() as u64))
        },
        _ => None,
    };
    match arrival {
        Some((Some(i), n)) => {
            state.next_route_step_index = i;
            state.progress_state = if i >= n - 1 {
                RobotProgressState::Idle
            } else {
                RobotProgressState::FollowingRoute
            };
            state.hold_reason = None;
            state.needs_replan = false;
            state.wait_ticks = 0;
        },
        Some((None, _)) => {},
        None => {
            if edge.is_some() {
                state.progress_state = RobotProgressState::FollowingRoute;
                state.needs_replan = false;
                state.wait_ticks = 0;
            } else {
                state.progress_state = RobotProgressState::Waiting;
            }
        },
    }
}

} // verus!
