//! Fitting a route in between the requests and leases of others.

use super::targets::{
    claim_target_semantics, claim_target_windows_overlap, is_scale, route_windows,
    scheduled_target_windows_from_route, target_semantics, targets_meet, ticks_fit,
    ClaimTargetSemantics, ClaimTargetSemanticsView, ScheduledTargetWindow,
    ScheduledTargetWindowView,
};
use crate::claim::conflicts::{indexed, lease_span, lease_window};
use crate::claim::manager::{one_more, ClaimManager, ClaimManagerView};
use crate::claim::{
    ClaimRequest, ClaimRequestView, ClaimTarget, ClaimTargetKind, ClaimWindow, Lease, LeaseView,
};
use crate::ids::{ClaimId, LeaseId};
use crate::index::WorkspaceIndex;
use crate::number::Real;
use crate::robot::{RobotProgressState, RobotState, RobotStateView};
use crate::route::assemble::shape_error;
use crate::route::RoutePlan;
use crate::text::joined;
use crate::views::{copy_texts, lemma_views_push, views};
use crate::workspace::Workspace;
use vstd::prelude::*;

verus! {

/// Something that a route meets on its way.
#[derive(Debug)]
pub struct ScheduleConflict {
    pub target: ClaimTarget,
    pub blocking_until_tick: u64,
    pub conflicting_claim_id: Option<ClaimId>,
    pub conflicting_lease_id: Option<LeaseId>,
    pub diagnostics: Vec<String>,
}

/// What a [`ScheduleConflict`] stands for.
pub struct ScheduleConflictView {
    pub target: ClaimTarget,
    pub blocking_until_tick: u64,
    pub conflicting_claim_id: Option<ClaimId>,
    pub conflicting_lease_id: Option<LeaseId>,
    pub diagnostics: Seq<Seq<char>>,
}

impl View for ScheduleConflict {
    type V = ScheduleConflictView;

    open spec fn view(&self) -> ScheduleConflictView {
        ScheduleConflictView {
            target: self.target,
            blocking_until_tick: self.blocking_until_tick,
            conflicting_claim_id: self.conflicting_claim_id,
            conflicting_lease_id: self.conflicting_lease_id,
            diagnostics: views(self.diagnostics@),
        }
    }
}

impl Clone for ScheduleConflict {
    fn clone(&self) -> (r: Self)
        ensures
            r@ == self@,
    {
        let r = ScheduleConflict {
            target: self.target,
            blocking_until_tick: self.blocking_until_tick,
            conflicting_claim_id: self.conflicting_claim_id,
            conflicting_lease_id: self.conflicting_lease_id,
            diagnostics: copy_texts(&self.diagnostics),
        };
        r
    }
}

impl Default for ScheduleConflict {
    fn default() -> (c: Self)
        ensures
            c@ == (ScheduleConflictView {
                target: ClaimTarget { kind: ClaimTargetKind::Zone, resource_id: 0 },
                blocking_until_tick: 0,
                conflicting_claim_id: None,
                conflicting_lease_id: None,
                diagnostics: Seq::empty(),
            }),
    {
        let c = ScheduleConflict {
            target: ClaimTarget::default(),
            blocking_until_tick: 0,
            conflicting_claim_id: None,
            conflicting_lease_id: None,
            diagnostics: Vec::new(),
        };
        assert(c@.diagnostics =~= Seq::empty());
        c
    }
}

/// Whether a route can go, waits, or has to be planned anew.
#[derive(Debug, Clone, Copy, PartialEq, Eq, Structural)]
pub enum ScheduleDecisionKind {
    Proceed,
    Queue,
    Replan,
}

impl Default for ScheduleDecisionKind {
    fn default() -> (k: Self)
        ensures
            k == ScheduleDecisionKind::Proceed,
    {
        Self::Proceed
    }
}

/// What is decided of a route, and why.
#[derive(Debug)]
pub struct ScheduleDecision {
    pub kind: ScheduleDecisionKind,
    pub start_tick: u64,
    pub queue_position: u64,
    pub conflicts: Vec<ScheduleConflict>,
    pub diagnostics: Vec<String>,
}

/// What a [`ScheduleDecision`] stands for.
pub struct ScheduleDecisionView {
    pub kind: ScheduleDecisionKind,
    pub start_tick: u64,
    pub queue_position: u64,
    pub conflicts: Seq<ScheduleConflictView>,
    pub diagnostics: Seq<Seq<char>>,
}

impl View for ScheduleDecision {
    type V = ScheduleDecisionView;

    open spec fn view(&self) -> ScheduleDecisionView {
        ScheduleDecisionView {
            kind: self.kind,
            start_tick: self.start_tick,
            queue_position: self.queue_position,
            conflicts: views(self.conflicts@),
            diagnostics: views(self.diagnostics@),
        }
    }
}

impl Clone for ScheduleDecision {
    fn clone(&self) -> (r: Self)
        ensures
            r@ == self@,
    {
        let r = ScheduleDecision {
            kind: self.kind,
            start_tick: self.start_tick,
            queue_position: self.queue_position,
            conflicts: self.conflicts.clone(),
            diagnostics: copy_texts(&self.diagnostics),
        };
        assert(r@.conflicts =~= self@.conflicts);
        r
    }
}

impl Default for ScheduleDecision {
    fn default() -> (d: Self)
        ensures
            d@ == (ScheduleDecisionView {
                kind: ScheduleDecisionKind::Proceed,
                start_tick: 0,
                queue_position: 0,
                conflicts: Seq::empty(),
                diagnostics: Seq::empty(),
            }),
    {
        let d = ScheduleDecision {
            kind: ScheduleDecisionKind::Proceed,
            start_tick: 0,
            queue_position: 0,
            conflicts: Vec::new(),
            diagnostics: Vec::new(),
        };
        assert(d@.conflicts =~= Seq::empty());
        assert(d@.diagnostics =~= Seq::empty());
        d
    }
}

// ---------------------------------------------------------------------------
// conflicts
// ---------------------------------------------------------------------------

/// The window of a target of a route.
pub open spec fn span(w: ScheduledTargetWindowView) -> ClaimWindow {
    ClaimWindow { start_tick: Some(w.start_tick), end_tick: Some(w.end_tick) }
}

/// Whether a target of a route meets any of a list of claimed targets.
pub open spec fn meets_any(
    w: ScheduledTargetWindowView,
    targets: Seq<ClaimTarget>,
    window: ClaimWindow,
    ws: Option<Workspace>,
) -> bool {
    exists|i: int|
        0 <= i < targets.len() && targets_meet(
            w.semantics.target,
            span(w),
            #[trigger] targets[i],
            window,
            ws,
        )
}

fn does_meet_any(
    w: &ScheduledTargetWindow,
    targets: &Vec<ClaimTarget>,
    window: ClaimWindow,
    index: Option<&WorkspaceIndex>,
) -> (b: bool)
    ensures
        b == meets_any(w@, targets@, window, indexed(index)),
{
    let here = ClaimWindow { start_tick: Some(w.start_tick), end_tick: Some(w.end_tick) };
    let mut i: usize = 0;
    while i < targets.len()
        invariant
            i <= targets.len(),
            here == span(w@),
            forall|j: int|
                0 <= j < i ==> !targets_meet(
                    w@.semantics.target,
                    span(w@),
                    #[trigger] targets@[j],
                    window,
                    indexed(index),
                ),
        decreases targets.len() - i,
    {
        if claim_target_windows_overlap(w.semantics.target, here, targets[i], window, index) {
            assert(targets_meet(
                w@.semantics.target,
                span(w@),
                targets@[i as int],
                window,
                indexed(index),
            ));
            return true;
        }
        i = i + 1;
    }
    false
}

/// A line, if a condition holds.
pub open spec fn line_if(holds: bool, line: Seq<char>) -> Seq<Seq<char>> {
    if holds {
        seq![line]
    } else {
        Seq::empty()
    }
}

/// What is told of a conflict on a target.
pub open spec fn conflict_lines(source: Seq<char>, s: ClaimTargetSemanticsView) -> Seq<Seq<char>> {
    seq!["schedule conflict with "@ + source] + line_if(
        s.corridor,
        "corridor resources cannot be used for side waiting"@,
    ) + line_if(
        !s.waiting_allowed,
        "waiting is not allowed on the blocking resource"@,
    ) + line_if(!s.stop_allowed, "stopping is not allowed on the blocking resource"@) + line_if(
        s.blocked,
        "blocking resource is hard-restricted"@,
    ) + line_if(s.slowdown, "blocking resource applies slowdown semantics"@)
        + match s.schedule_window {
        Some(w) => seq!["blocking schedule window="@ + w],
        None => Seq::empty(),
    }
}

fn push_line(out: &mut Vec<String>, holds: bool, line: &str)
    ensures
        views(final(out)@) == views(old(out)@) + line_if(holds, line@),
{
    if holds {
        let s = line.to_owned();
        proof {
            lemma_views_push(out@, s);
        }
        out.push(s);
    }
    assert(views(out@) =~= views(old(out)@) + line_if(holds, line@));
}

fn list_conflict_lines(source: &str, s: &ClaimTargetSemantics) -> (out: Vec<String>)
    ensures
        views(out@) == conflict_lines(source@, s@),
{
    let mut out: Vec<String> = Vec::new();
    out.push(joined("schedule conflict with ", source));
    assert(views(out@) =~= seq!["schedule conflict with "@ + source@]);
    push_line(&mut out, s.corridor, "corridor resources cannot be used for side waiting");
    push_line(
        &mut out,
        !s.waiting_allowed,
        "waiting is not allowed on the blocking resource",
    );
    push_line(&mut out, !s.stop_allowed, "stopping is not allowed on the blocking resource");
    push_line(&mut out, s.blocked, "blocking resource is hard-restricted");
    push_line(&mut out, s.slowdown, "blocking resource applies slowdown semantics");
    let ghost before = views(out@);
    match &s.schedule_window {
        Some(w) => {
            let line = joined("blocking schedule window=", w.as_str());
            proof {
                lemma_views_push(out@, line);
            }
            out.push(line);
            assert(views(out@) =~= before + seq!["blocking schedule window="@ + w@]);
        },
        None => {
            assert(views(out@) =~= before + Seq::empty());
        },
    }
    out
}

/// The conflict of a target of a route with a request.
pub open spec fn request_conflict(
    w: ScheduledTargetWindowView,
    r: ClaimRequestView,
) -> ScheduleConflictView {
    ScheduleConflictView {
        target: w.semantics.target,
        blocking_until_tick: match r.window.end_tick {
            Some(t) => t,
            None => w.end_tick,
        },
        conflicting_claim_id: Some(r.id),
        conflicting_lease_id: None,
        diagnostics: conflict_lines("active request"@, w.semantics),
    }
}

/// The conflict of a target of a route with a lease.
pub open spec fn lease_conflict(w: ScheduledTargetWindowView, l: LeaseView) -> ScheduleConflictView {
    ScheduleConflictView {
        target: w.semantics.target,
        blocking_until_tick: match l.expires_at_tick {
            Some(t) => t,
            None => w.end_tick,
        },
        conflicting_claim_id: None,
        conflicting_lease_id: Some(l.id),
        diagnostics: conflict_lines("active lease"@, w.semantics),
    }
}

/// The conflicts of a target of a route with the requests of others.
pub open spec fn conflicts_with_requests(
    w: ScheduledTargetWindowView,
    id: ClaimId,
    requests: Seq<ClaimRequestView>,
    ws: Option<Workspace>,
) -> Seq<ScheduleConflictView>
    decreases requests.len(),
{
    if requests.len() == 0 {
        Seq::empty()
    } else {
        let before = conflicts_with_requests(w, id, requests.drop_last(), ws);
        let r = requests.last();
        if r.id != id && meets_any(w, r.targets, r.window, ws) {
            before.push(request_conflict(w, r))
        } else {
            before
        }
    }
}

/// The conflicts of a target of a route with active leases.
pub open spec fn conflicts_with_leases(
    w: ScheduledTargetWindowView,
    leases: Seq<LeaseView>,
    ws: Option<Workspace>,
) -> Seq<ScheduleConflictView>
    decreases leases.len(),
{
    if leases.len() == 0 {
        Seq::empty()
    } else {
        let before = conflicts_with_leases(w, leases.drop_last(), ws);
        let l = leases.last();
        if l.active && meets_any(w, l.targets, lease_span(l), ws) {
            before.push(lease_conflict(w, l))
        } else {
            before
        }
    }
}

/// The conflicts of the targets of a route, target by target.
pub open spec fn route_conflicts(
    windows: Seq<ScheduledTargetWindowView>,
    id: ClaimId,
    m: ClaimManagerView,
) -> Seq<ScheduleConflictView>
    decreases windows.len(),
{
    if windows.len() == 0 {
        Seq::empty()
    } else {
        route_conflicts(windows.drop_last(), id, m) + conflicts_with_requests(
            windows.last(),
            id,
            m.requests,
            m.workspace,
        ) + conflicts_with_leases(windows.last(), m.leases, m.workspace)
    }
}

fn push_conflict(out: &mut Vec<ScheduleConflict>, c: ScheduleConflict)
    ensures
        views(final(out)@) == views(old(out)@).push(c@),
{
    proof {
        lemma_views_push(out@, c);
    }
    out.push(c);
}

fn add_request_conflicts(
    w: &ScheduledTargetWindow,
    id: ClaimId,
    requests: &Vec<ClaimRequest>,
    index: Option<&WorkspaceIndex>,
    out: &mut Vec<ScheduleConflict>,
)
    ensures
        views(final(out)@) == views(old(out)@) + conflicts_with_requests(
            w@,
            id,
            views(requests@),
            indexed(index),
        ),
{
    let ghost before = views(out@);
    let ghost all = views(requests@);
    let ghost ws = indexed(index);
    let mut i: usize = 0;
    assert(all.take(0) =~= Seq::empty());
    assert(before + conflicts_with_requests(w@, id, all.take(0), ws) =~= before);
    while i < requests.len()
        invariant
            i <= requests.len(),
            all == views(requests@),
            ws == indexed(index),
            views(out@) == before + conflicts_with_requests(w@, id, all.take(i as int), ws),
        decreases requests.len() - i,
    {
        assert(all.take(i as int + 1).drop_last() =~= all.take(i as int));
        let r = &requests[i];
        assert(all[i as int] == r@);
        if r.id != id && does_meet_any(w, &r.targets, r.window, index) {
            let until: u64 = match r.window.end_tick {
                Some(t) => t,
                None => w.end_tick,
            };
            let c = ScheduleConflict {
                target: w.semantics.target,
                blocking_until_tick: until,
                conflicting_claim_id: Some(r.id),
                conflicting_lease_id: None,
                diagnostics: list_conflict_lines("active request", &w.semantics),
            };
            push_conflict(out, c);
        }
        i = i + 1;
        assert(views(out@) =~= before + conflicts_with_requests(w@, id, all.take(i as int), ws));
    }
    assert(all.take(i as int) =~= all);
}

fn add_lease_conflicts(
    w: &ScheduledTargetWindow,
    leases: &Vec<Lease>,
    index: Option<&WorkspaceIndex>,
    out: &mut Vec<ScheduleConflict>,
)
    ensures
        views(final(out)@) == views(old(out)@) + conflicts_with_leases(
            w@,
            views(leases@),
            indexed(index),
        ),
{
    let ghost before = views(out@);
    let ghost all = views(leases@);
    let ghost ws = indexed(index);
    let mut i: usize = 0;
    assert(all.take(0) =~= Seq::empty());
    assert(before + conflicts_with_leases(w@, all.take(0), ws) =~= before);
    while i < leases.len()
        invariant
            i <= leases.len(),
            all == views(leases@),
            ws == indexed(index),
            views(out@) == before + conflicts_with_leases(w@, all.take(i as int), ws),
        decreases leases.len() - i,
    {
        assert(all.take(i as int + 1).drop_last() =~= all.take(i as int));
        let l = &leases[i];
        assert(all[i as int] == l@);
        if l.active && does_meet_any(w, &l.targets, lease_window(l), index) {
            let until: u64 = match l.expires_at_tick {
                Some(t) => t,
                None => w.end_tick,
            };
            let c = ScheduleConflict {
                target: w.semantics.target,
                blocking_until_tick: until,
                conflicting_claim_id: None,
                conflicting_lease_id: Some(l.id),
                diagnostics: list_conflict_lines("active lease", &w.semantics),
            };
            push_conflict(out, c);
        }
        i = i + 1;
        assert(views(out@) =~= before + conflicts_with_leases(w@, all.take(i as int), ws));
    }
    assert(all.take(i as int) =~= all);
}

fn list_route_conflicts(
    windows: &Vec<ScheduledTargetWindow>,
    id: ClaimId,
    claim_manager: &ClaimManager,
) -> (out: Vec<ScheduleConflict>)
    ensures
        views(out@) == route_conflicts(views(windows@), id, claim_manager@),
{
    let ghost all = views(windows@);
    let ghost m = claim_manager@;
    let index = claim_manager.index();
    let mut out: Vec<ScheduleConflict> = Vec::new();
    let mut i: usize = 0;
    assert(all.take(0) =~= Seq::empty());
    assert(views(out@) =~= Seq::empty());
    while i < windows.len()
        invariant
            i <= windows.len(),
            all == views(windows@),
            m == claim_manager@,
            indexed(index) == m.workspace,
            views(out@) == route_conflicts(all.take(i as int), id, m),
        decreases windows.len() - i,
    {
        assert(all.take(i as int + 1).drop_last() =~= all.take(i as int));
        assert(all[i as int] == windows@[i as int]@);
        add_request_conflicts(&windows[i], id, claim_manager.requests(), index, &mut out);
        add_lease_conflicts(&windows[i], claim_manager.leases(), index, &mut out);
        i = i + 1;
    }
    assert(all.take(i as int) =~= all);
    out
}

// ---------------------------------------------------------------------------
// decisions
// ---------------------------------------------------------------------------

/// The last tick at which anything stands in the way, and no earlier than a
/// given one.
pub open spec fn clear_after(start_tick: u64, conflicts: Seq<ScheduleConflictView>) -> u64
    decreases conflicts.len(),
{
    if conflicts.len() == 0 {
        start_tick
    } else {
        let before = clear_after(start_tick, conflicts.drop_last());
        if conflicts.last().blocking_until_tick > before {
            conflicts.last().blocking_until_tick
        } else {
            before
        }
    }
}

/// Whether a target can be waited for.
pub open spec fn can_wait_for(s: ClaimTargetSemanticsView) -> bool {
    !s.blocked && !s.corridor && s.waiting_allowed && s.stop_allowed
}

/// Whether everything that stands in the way can be waited for.
pub open spec fn can_queue(ws: &Workspace, conflicts: Seq<ScheduleConflictView>) -> bool {
    forall|i: int|
        0 <= i < conflicts.len() ==> can_wait_for(
            target_semantics(ws, (#[trigger] conflicts[i]).target),
        )
}

/// What is decided of a route with the given conflicts: it can go if there are
/// none, it waits until they are over if all of them can be waited for, and it
/// has to be planned anew otherwise.
pub open spec fn decision_for(
    ws: &Workspace,
    start_tick: u64,
    conflicts: Seq<ScheduleConflictView>,
) -> ScheduleDecisionView {
    if conflicts.len() == 0 {
        ScheduleDecisionView {
            kind: ScheduleDecisionKind::Proceed,
            start_tick,
            queue_position: 0,
            conflicts,
            diagnostics: seq!["route can proceed within the requested reservation window"@],
        }
    } else if !can_queue(ws, conflicts) {
        ScheduleDecisionView {
            kind: ScheduleDecisionKind::Replan,
            start_tick,
            queue_position: 0,
            conflicts,
            diagnostics: seq!["schedule conflicts require replanning instead of queuing"@],
        }
    } else {
        ScheduleDecisionView {
            kind: ScheduleDecisionKind::Queue,
            start_tick: one_more(clear_after(start_tick, conflicts)),
            queue_position: one_more(conflicts.len() as u64),
            conflicts,
            diagnostics: seq!["route should wait for an available reservation window"@],
        }
    }
}

fn one_line(s: &str) -> (v: Vec<String>)
    ensures
        views(v@) == seq![s@],
{
    let mut v: Vec<String> = Vec::new();
    v.push(s.to_owned());
    assert(views(v@) =~= seq![s@]);
    v
}

/// Decides on a route with the given conflicts.
pub fn decide(
    index: &WorkspaceIndex,
    start_tick: u64,
    conflicts: Vec<ScheduleConflict>,
) -> (d: ScheduleDecision)
    ensures
        d@ == decision_for(&index@, start_tick, views(conflicts@)),
{
    let ghost all = views(conflicts@);
    if conflicts.len() == 0 {
        return ScheduleDecision {
            kind: ScheduleDecisionKind::Proceed,
            start_tick,
            queue_position: 0,
            conflicts,
            diagnostics: one_line("route can proceed within the requested reservation window"),
        };
    }
    let mut queueable = true;
    let mut latest: u64 = start_tick;
    let mut i: usize = 0;
    assert(all.take(0) =~= Seq::empty());
    while i < conflicts.len()
        invariant
            i <= conflicts.len(),
            all == views(conflicts@),
            latest == clear_after(start_tick, all.take(i as int)),
            queueable <==> forall|j: int|
                0 <= j < i ==> can_wait_for(target_semantics(&index@, (#[trigger] all[j]).target)),
        decreases conflicts.len() - i,
    {
        assert(all.take(i as int + 1).drop_last() =~= all.take(i as int));
        assert(all[i as int] == conflicts@[i as int]@);
        if conflicts[i].blocking_until_tick > latest {
            latest = conflicts[i].blocking_until_tick;
        }
        let s = claim_target_semantics(index, conflicts[i].target);
        if s.blocked || s.corridor || !s.waiting_allowed || !s.stop_allowed {
            assert(!can_wait_for(target_semantics(&index@, all[i as int].target)));
            queueable = false;
        }
        i = i + 1;
    }
    assert(all.take(i as int) =~= all);
    if !queueable {
        return ScheduleDecision {
            kind: ScheduleDecisionKind::Replan,
            start_tick,
            queue_position: 0,
            conflicts,
            diagnostics: one_line("schedule conflicts require replanning instead of queuing"),
        };
    }
    let ahead: u64 = conflicts.len() as u64;
    let position: u64 = if ahead < u64::MAX {
        ahead + 1
    } else {
        ahead
    };
    ScheduleDecision {
        kind: ScheduleDecisionKind::Queue,
        start_tick: if latest < u64::MAX {
            latest + 1
        } else {
            latest
        },
        queue_position: position,
        conflicts,
        diagnostics: one_line("route should wait for an available reservation window"),
    }
}

/// Decides whether a route can go at a tick, waits, or has to be planned anew.
/// `scale` turns costs into ticks.
pub fn schedule_route_request<H: Fn(Real) -> Real>(
    index: &WorkspaceIndex,
    claim_manager: &ClaimManager,
    request: &ClaimRequest,
    route_plan: &RoutePlan,
    start_tick: u64,
    scale: &H,
) -> (d: ScheduleDecision)
    requires
        is_scale(*scale),
        shape_error(route_plan@) is None ==> ticks_fit(*scale, route_plan@, start_tick),
    ensures
        d@ == decision_for(
            &index@,
            start_tick,
            route_conflicts(
                route_windows(&index@, *scale, route_plan@, start_tick),
                request@.id,
                claim_manager@,
            ),
        ),
{
    let windows = scheduled_target_windows_from_route(index, route_plan, start_tick, scale);
    let conflicts = list_route_conflicts(&windows, request.id, claim_manager);
    decide(index, start_tick, conflicts)
}

// ---------------------------------------------------------------------------
// slots
// ---------------------------------------------------------------------------

/// Whether a robot has not set out though its slot and a time of grace are over.
pub open spec fn missed_slot(s: RobotStateView, current_tick: u64, grace_ticks: u64) -> bool {
    &&& s.scheduled_start_tick matches Some(t) && current_tick > t + grace_ticks
    &&& s.progress_state != RobotProgressState::FollowingRoute
    &&& s.progress_state != RobotProgressState::Idle
}

/// Whether a slot and a time of grace add up.
pub open spec fn grace_fits(s: RobotStateView, grace_ticks: u64) -> bool {
    s.scheduled_start_tick matches Some(t) ==> t + grace_ticks <= u64::MAX
}

/// Whether a slot and a time of grace add up. Whether a slot was missed is to be
/// asked only where they do.
pub fn does_grace_fit(state: &RobotState, grace_ticks: u64) -> (b: bool)
    ensures
        b == grace_fits(state@, grace_ticks),
{
    match state.scheduled_start_tick {
        Some(t) => grace_ticks <= u64::MAX - t,
        None => true,
    }
}

/// Whether a robot has not set out though its slot and a time of grace are over.
pub fn robot_missed_schedule_slot(state: &RobotState, current_tick: u64, grace_ticks: u64) -> (b:
    bool)
    requires
        grace_fits(state@, grace_ticks),
    ensures
        b == missed_slot(state@, current_tick, grace_ticks),
{
    match state.scheduled_start_tick {
        Some(t) => current_tick > t + grace_ticks && state.progress_state
            != RobotProgressState::FollowingRoute && state.progress_state
            != RobotProgressState::Idle,
        None => false,
    }
}

/// What is left of a number.
pub open spec fn what_is_left(a: u64, b: u64) -> u64 {
    if a >= b {
        (a - b) as u64
    } else {
        0
    }
}

/// A robot after a decision on its route.
pub open spec fn decided(
    s: RobotStateView,
    d: ScheduleDecisionView,
    updated_at_tick: u64,
) -> RobotStateView {
    RobotStateView {
        updated_at_tick,
        scheduled_start_tick: Some(d.start_tick),
        wait_ticks: what_is_left(d.start_tick, updated_at_tick),
        needs_replan: d.kind == ScheduleDecisionKind::Replan,
        progress_state: match d.kind {
            ScheduleDecisionKind::Proceed => if s.route_plan is Some {
                RobotProgressState::FollowingRoute
            } else {
                RobotProgressState::Idle
            },
            ScheduleDecisionKind::Queue => RobotProgressState::Queued,
            ScheduleDecisionKind::Replan => RobotProgressState::Replanning,
        },
        hold_reason: match d.kind {
            ScheduleDecisionKind::Proceed => None,
            ScheduleDecisionKind::Queue => Some("queued_for_reservation_window"@),
            ScheduleDecisionKind::Replan => Some("schedule_conflict_requires_replan"@),
        },
        ..s
    }
}

/// Applies a decision on its route to a robot.
pub fn apply_schedule_decision(
    state: &mut RobotState,
    decision: &ScheduleDecision,
    updated_at_tick: u64,
)
    ensures
        final(state)@ == decided(old(state)@, decision@, updated_at_tick),
{
    state.updated_at_tick = updated_at_tick;
    state.scheduled_start_tick = Some(decision.start_tick);
    state.wait_ticks = if decision.start_tick >= updated_at_tick {
        decision.start_tick - updated_at_tick
    } else {
        0
    };
    state.needs_replan = decision.kind == ScheduleDecisionKind::Replan;
    match decision.kind {
        ScheduleDecisionKind::Proceed => {
            state.progress_state = if state.route_plan.is_some() {
                RobotProgressState::FollowingRoute
            } else {
                RobotProgressState::Idle
            };
            state.hold_reason = None;
        },
        ScheduleDecisionKind::Queue => {
            state.progress_state = RobotProgressState::Queued;
            state.hold_reason = Some("queued_for_reservation_window".to_owned());
        },
        ScheduleDecisionKind::Replan => {
            state.progress_state = RobotProgressState::Replanning;
            state.hold_reason = Some("schedule_conflict_requires_replan".to_owned());
        },
    }
}

// ---------------------------------------------------------------------------
// laws
// ---------------------------------------------------------------------------

/// A route goes at once exactly if nothing stands in its way, and is queued only
/// behind everything that does.
pub proof fn lemma_decision_heeds_conflicts(
    ws: &Workspace,
    start_tick: u64,
    conflicts: Seq<ScheduleConflictView>,
)
    ensures
        decision_for(ws, start_tick, conflicts).kind == ScheduleDecisionKind::Proceed
            <==> conflicts.len() == 0,
        decision_for(ws, start_tick, conflicts).start_tick >= start_tick,
        decision_for(ws, start_tick, conflicts).kind == ScheduleDecisionKind::Queue
            ==> forall|i: int|
            0 <= i < conflicts.len() && (#[trigger] conflicts[i]).blocking_until_tick < u64::MAX
                ==> conflicts[i].blocking_until_tick < decision_for(
                ws,
                start_tick,
                conflicts,
            ).start_tick,
{
    lemma_clear_after(start_tick, conflicts);
}

proof fn lemma_clear_after(start_tick: u64, conflicts: Seq<ScheduleConflictView>)
    ensures
        clear_after(start_tick, conflicts) >= start_tick,
        forall|i: int|
            0 <= i < conflicts.len() ==> (#[trigger] conflicts[i]).blocking_until_tick
                <= clear_after(start_tick, conflicts),
    decreases conflicts.len(),
{
    if conflicts.len() > 0 {
        let rest = conflicts.drop_last();
        lemma_clear_after(start_tick, rest);
        assert forall|i: int|
            0 <= i < conflicts.len() implies (#[trigger] conflicts[i]).blocking_until_tick
            <= clear_after(start_tick, conflicts) by {
            if i < rest.len() {
                assert(rest[i] == conflicts[i]);
            }
        }
    }
}

/// A target that must not be waited for or stopped on, that is closed, or that is
/// a corridor is never queued for.
pub proof fn lemma_never_queued_for(
    ws: &Workspace,
    start_tick: u64,
    conflicts: Seq<ScheduleConflictView>,
    i: int,
)
    requires
        0 <= i < conflicts.len(),
        !can_wait_for(target_semantics(ws, conflicts[i].target)),
    ensures
        decision_for(ws, start_tick, conflicts).kind == ScheduleDecisionKind::Replan,
{
}

} // verus!
