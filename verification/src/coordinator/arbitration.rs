//! Who goes first when two robots want the same place.

use crate::number::Real;
use crate::robot::RobotProgressState;
use vstd::prelude::*;

verus! {

/// What a robot does when it meets another one.
#[derive(Debug, Clone, Copy, PartialEq, Eq, Structural)]
pub enum ArbitrationDecision {
    Proceed,
    Yield,
    Replan,
}

/// What is known of two robots that meet.
#[derive(Debug, Clone, Copy, PartialEq, Eq, Structural)]
pub struct ArbitrationContext {
    pub self_priority: Real,
    pub other_priority: Real,
    pub self_holds_lease: bool,
    pub other_holds_lease: bool,
    pub self_is_emergency: bool,
    pub other_is_emergency: bool,
    pub self_state: RobotProgressState,
    pub other_state: RobotProgressState,
    pub self_wait_ticks: u64,
    pub other_wait_ticks: u64,
    pub self_remaining_steps: u64,
    pub other_remaining_steps: u64,
}

impl Default for ArbitrationContext {
    fn default() -> (c: Self)
        ensures
            c == (ArbitrationContext {
                self_priority: Real { bits: 0 },
                other_priority: Real { bits: 0 },
                self_holds_lease: false,
                other_holds_lease: false,
                self_is_emergency: false,
                other_is_emergency: false,
                self_state: RobotProgressState::Idle,
                other_state: RobotProgressState::Idle,
                self_wait_ticks: 0,
                other_wait_ticks: 0,
                self_remaining_steps: 0,
                other_remaining_steps: 0,
            }),
    {
        ArbitrationContext {
            self_priority: Real { bits: 0 },
            other_priority: Real { bits: 0 },
            self_holds_lease: false,
            other_holds_lease: false,
            self_is_emergency: false,
            other_is_emergency: false,
            self_state: RobotProgressState::Idle,
            other_state: RobotProgressState::Idle,
            self_wait_ticks: 0,
            other_wait_ticks: 0,
            self_remaining_steps: 0,
            other_remaining_steps: 0,
        }
    }
}

/// One criterion by which robots are told apart: in favour of the robot itself,
/// of the other one, or of neither.
pub open spec fn favours(mine: bool, theirs: bool) -> Option<ArbitrationDecision> {
    if mine && !theirs {
        Some(ArbitrationDecision::Proceed)
    } else if theirs && !mine {
        Some(ArbitrationDecision::Yield)
    } else {
        None
    }
}

/// The criteria in their order: an emergency, a lease, priority, not being
/// blocked, being under way while the other one waits, having waited longer
/// where both wait, and having fewer steps left.
pub open spec fn criterion(c: ArbitrationContext, i: int) -> Option<ArbitrationDecision> {
    let blocked = RobotProgressState::Blocked;
    let waiting = RobotProgressState::Waiting;
    let following = RobotProgressState::FollowingRoute;
    if i == 0 {
        favours(c.self_is_emergency, c.other_is_emergency)
    } else if i == 1 {
        favours(c.self_holds_lease, c.other_holds_lease)
    } else if i == 2 {
        favours(
            c.other_priority.less_than(c.self_priority),
            c.self_priority.less_than(c.other_priority),
        )
    } else if i == 3 {
        favours(c.other_state == blocked, c.self_state == blocked)
    } else if i == 4 {
        favours(
            c.self_state == following && c.other_state == waiting,
            c.self_state == waiting && c.other_state == following,
        )
    } else if i == 5 {
        if c.self_state == waiting && c.other_state == waiting {
            favours(c.self_wait_ticks > c.other_wait_ticks, c.self_wait_ticks < c.other_wait_ticks)
        } else {
            None
        }
    } else if i == 6 {
        favours(
            c.self_remaining_steps < c.other_remaining_steps,
            c.self_remaining_steps > c.other_remaining_steps,
        )
    } else {
        None
    }
}

/// What the criteria decide, from number `i` on: the first that favours either
/// robot counts, and if none does, both have to plan anew.
pub open spec fn arbitration_from(c: ArbitrationContext, i: int) -> ArbitrationDecision
    decreases 7 - i,
{
    if i >= 7 {
        ArbitrationDecision::Replan
    } else {
        match criterion(c, i) {
            Some(d) => d,
            None => arbitration_from(c, i + 1),
        }
    }
}

/// What a robot does when it meets another one.
pub open spec fn arbitration(c: ArbitrationContext) -> ArbitrationDecision {
    arbitration_from(c, 0)
}

/// Decides what a robot does when it meets another one.
pub fn arbitrate_right_of_way(ctx: &ArbitrationContext) -> (d: ArbitrationDecision)
    ensures
        d == arbitration(*ctx),
{
    proof {
        reveal_with_fuel(arbitration_from, 8);
    }
    if ctx.self_is_emergency && !ctx.other_is_emergency {
        return ArbitrationDecision::Proceed;
    }
    if ctx.other_is_emergency && !ctx.self_is_emergency {
        return ArbitrationDecision::Yield;
    }
    if ctx.other_holds_lease && !ctx.self_holds_lease {
        return ArbitrationDecision::Yield;
    }
    if ctx.self_holds_lease && !ctx.other_holds_lease {
        return ArbitrationDecision::Proceed;
    }
    if ctx.other_priority.less(ctx.self_priority) {
        return ArbitrationDecision::Proceed;
    }
    if ctx.self_priority.less(ctx.other_priority) {
        return ArbitrationDecision::Yield;
    }
    let self_blocked = ctx.self_state == RobotProgressState::Blocked;
    let other_blocked = ctx.other_state == RobotProgressState::Blocked;
    if self_blocked && !other_blocked {
        return ArbitrationDecision::Yield;
    }
    if other_blocked && !self_blocked {
        return ArbitrationDecision::Proceed;
    }
    let self_waits = ctx.self_state == RobotProgressState::Waiting;
    let other_waits = ctx.other_state == RobotProgressState::Waiting;
    if ctx.self_state == RobotProgressState::FollowingRoute && other_waits {
        return ArbitrationDecision::Proceed;
    }
    if self_waits && ctx.other_state == RobotProgressState::FollowingRoute {
        return ArbitrationDecision::Yield;
    }
    if self_waits && other_waits {
        if ctx.self_wait_ticks > ctx.other_wait_ticks {
            return ArbitrationDecision::Proceed;
        }
        if ctx.self_wait_ticks < ctx.other_wait_ticks {
            return ArbitrationDecision::Yield;
        }
    }
    if ctx.self_remaining_steps < ctx.other_remaining_steps {
        return ArbitrationDecision::Proceed;
    }
    if ctx.self_remaining_steps > ctx.other_remaining_steps {
        return ArbitrationDecision::Yield;
    }
    ArbitrationDecision::Replan
}

/// The same meeting as the other robot sees it.
pub open spec fn swapped(c: ArbitrationContext) -> ArbitrationContext {
    ArbitrationContext {
        self_priority: c.other_priority,
        other_priority: c.self_priority,
        self_holds_lease: c.other_holds_lease,
        other_holds_lease: c.self_holds_lease,
        self_is_emergency: c.other_is_emergency,
        other_is_emergency: c.self_is_emergency,
        self_state: c.other_state,
        other_state: c.self_state,
        self_wait_ticks: c.other_wait_ticks,
        other_wait_ticks: c.self_wait_ticks,
        self_remaining_steps: c.other_remaining_steps,
        other_remaining_steps: c.self_remaining_steps,
    }
}

/// Two robots that meet come to matching decisions: exactly one of them goes and
/// the other one yields, or both plan anew.
pub proof fn lemma_arbitration_is_fair(c: ArbitrationContext)
    ensures
        arbitration(swapped(c)) == match arbitration(c) {
            ArbitrationDecision::Proceed => ArbitrationDecision::Yield,
            ArbitrationDecision::Yield => ArbitrationDecision::Proceed,
            ArbitrationDecision::Replan => ArbitrationDecision::Replan,
        },
{
    reveal_with_fuel(arbitration_from, 8);
}

/// A criterion decides wherever all those before it favour neither robot.
pub proof fn lemma_criteria_come_in_order(c: ArbitrationContext, i: int)
    requires
        0 <= i < 7,
        forall|j: int| 0 <= j < i ==> #[trigger] criterion(c, j) is None,
        criterion(c, i) is Some,
    ensures
        arbitration(c) == criterion(c, i).unwrap(),
{
    lemma_decided_from(c, 0, i);
}

proof fn lemma_decided_from(c: ArbitrationContext, k: int, i: int)
    requires
        0 <= k <= i < 7,
        forall|j: int| k <= j < i ==> #[trigger] criterion(c, j) is None,
        criterion(c, i) is Some,
    ensures
        arbitration_from(c, k) == criterion(c, i).unwrap(),
    decreases i - k,
{
    if k < i {
        assert(criterion(c, k) is None);
        lemma_decided_from(c, k + 1, i);
    }
}

/// The rules of the road, on what is known of two robots.
///
/// An emergency goes before everything else. Between robots that are alike in
/// that, the only one with a lease goes. Where both or neither have one, the
/// higher priority goes; then the one that is not blocked, if just one is; then
/// the one under way, if the other one waits; then the one that has waited
/// longer, if both wait; and then the one with fewer steps left.
pub proof fn lemma_rules_of_the_road(c: ArbitrationContext)
    ensures
        ({
            let d = arbitration(c);
            let alike_emergency = c.self_is_emergency == c.other_is_emergency;
            let alike_lease = alike_emergency && c.self_holds_lease == c.other_holds_lease;
            let alike_priority = alike_lease && !c.self_priority.less_than(c.other_priority)
                && !c.other_priority.less_than(c.self_priority);
            let alike_blocked = alike_priority && (c.self_state == RobotProgressState::Blocked
                <==> c.other_state == RobotProgressState::Blocked);
            let self_goes_by = c.self_state == RobotProgressState::FollowingRoute && c.other_state
                == RobotProgressState::Waiting;
            let other_goes_by = c.self_state == RobotProgressState::Waiting && c.other_state
                == RobotProgressState::FollowingRoute;
            let alike_way = alike_blocked && !self_goes_by && !other_goes_by;
            let both_wait = c.self_state == RobotProgressState::Waiting && c.other_state
                == RobotProgressState::Waiting;
            let alike_wait = alike_way && (both_wait ==> c.self_wait_ticks == c.other_wait_ticks);
            &&& c.self_is_emergency && !c.other_is_emergency ==> d == ArbitrationDecision::Proceed
            &&& c.other_is_emergency && !c.self_is_emergency ==> d == ArbitrationDecision::Yield
            &&& alike_emergency && c.self_holds_lease && !c.other_holds_lease ==> d
                == ArbitrationDecision::Proceed
            &&& alike_emergency && c.other_holds_lease && !c.self_holds_lease ==> d
                == ArbitrationDecision::Yield
            &&& alike_lease && c.other_priority.less_than(c.self_priority) ==> d
                == ArbitrationDecision::Proceed
            &&& alike_lease && c.self_priority.less_than(c.other_priority) ==> d
                == ArbitrationDecision::Yield
            &&& alike_priority && c.other_state == RobotProgressState::Blocked && c.self_state
                != RobotProgressState::Blocked ==> d == ArbitrationDecision::Proceed
            &&& alike_priority && c.self_state == RobotProgressState::Blocked && c.other_state
                != RobotProgressState::Blocked ==> d == ArbitrationDecision::Yield
            &&& alike_blocked && self_goes_by ==> d == ArbitrationDecision::Proceed
            &&& alike_blocked && other_goes_by ==> d == ArbitrationDecision::Yield
            &&& alike_way && both_wait && c.self_wait_ticks > c.other_wait_ticks ==> d
                == ArbitrationDecision::Proceed
            &&& alike_way && both_wait && c.self_wait_ticks < c.other_wait_ticks ==> d
                == ArbitrationDecision::Yield
            &&& alike_wait && c.self_remaining_steps < c.other_remaining_steps ==> d
                == ArbitrationDecision::Proceed
            &&& alike_wait && c.self_remaining_steps > c.other_remaining_steps ==> d
                == ArbitrationDecision::Yield
            &&& d == ArbitrationDecision::Replan <==> alike_wait && c.self_remaining_steps
                == c.other_remaining_steps
        }),
{
    reveal_with_fuel(arbitration_from, 8);
}

/// Between robots that are alike in being an emergency and in holding a lease,
/// the strictly higher priority goes and the other one yields.
pub proof fn lemma_higher_priority_goes(c: ArbitrationContext)
    requires
        c.self_is_emergency == c.other_is_emergency,
        c.self_holds_lease == c.other_holds_lease,
        c.other_priority.less_than(c.self_priority),
    ensures
        arbitration(c) == ArbitrationDecision::Proceed,
        arbitration(swapped(c)) == ArbitrationDecision::Yield,
{
    lemma_rules_of_the_road(c);
    lemma_rules_of_the_road(swapped(c));
}

/// A robot that goes still goes if it becomes an emergency, gets a lease, or has
/// fewer steps left, all else being the same.
pub proof fn lemma_advantages_never_hurt(c: ArbitrationContext, steps: u64)
    requires
        arbitration(c) == ArbitrationDecision::Proceed,
        steps <= c.self_remaining_steps,
    ensures
        arbitration(ArbitrationContext { self_is_emergency: true, ..c })
            == ArbitrationDecision::Proceed,
        arbitration(ArbitrationContext { self_holds_lease: true, ..c })
            == ArbitrationDecision::Proceed,
        arbitration(ArbitrationContext { self_remaining_steps: steps, ..c })
            == ArbitrationDecision::Proceed,
{
    reveal_with_fuel(arbitration_from, 8);
}

} // verus!
