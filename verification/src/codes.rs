//! The numbers that stand for states and decisions outside of Rust.

use crate::coordinator::arbitration::{
    arbitrate_right_of_way, arbitration, ArbitrationContext, ArbitrationDecision,
};
use crate::number::Real;
use crate::robot::RobotProgressState;
use vstd::prelude::*;

verus! {

/// The state that a number stands for. Numbers that stand for none are idle.
pub open spec fn progress_state_of(value: u8) -> RobotProgressState {
    if value == 1 {
        RobotProgressState::FollowingRoute
    } else if value == 2 {
        RobotProgressState::Waiting
    } else if value == 3 {
        RobotProgressState::Queued
    } else if value == 4 {
        RobotProgressState::Blocked
    } else if value == 5 {
        RobotProgressState::Replanning
    } else {
        RobotProgressState::Idle
    }
}

/// The state that a number stands for.
pub fn progress_state_from_u8(value: u8) -> (s: RobotProgressState)
    ensures
        s == progress_state_of(value),
{
    match value {
        1 => RobotProgressState::FollowingRoute,
        2 => RobotProgressState::Waiting,
        3 => RobotProgressState::Queued,
        4 => RobotProgressState::Blocked,
        5 => RobotProgressState::Replanning,
        _ => RobotProgressState::Idle,
    }
}

/// What a robot does when it meets another one, as a number.
#[derive(Debug, Clone, Copy, PartialEq, Eq, Structural)]
pub enum SbArbitrationDecision {
    Proceed,
    Yield,
    Replan,
}

impl SbArbitrationDecision {
    /// The number that stands for a decision.
    pub open spec fn number(self) -> i32 {
        match self {
            SbArbitrationDecision::Proceed => 0,
            SbArbitrationDecision::Yield => 1,
            SbArbitrationDecision::Replan => 2,
        }
    }

    /// The number that stands for a decision.
    pub fn code(self) -> (n: i32)
        ensures
            n == self.number(),
    {
        match self {
            SbArbitrationDecision::Proceed => 0,
            SbArbitrationDecision::Yield => 1,
            SbArbitrationDecision::Replan => 2,
        }
    }
}

/// What is known of two robots that meet, in numbers. Of a flag, everything but
/// zero is true.
#[derive(Debug, Clone, Copy, PartialEq, Eq, Structural)]
pub struct SbArbitrationContext {
    pub self_priority: Real,
    pub other_priority: Real,
    pub self_holds_lease: u8,
    pub other_holds_lease: u8,
    pub self_is_emergency: u8,
    pub other_is_emergency: u8,
    pub self_state: u8,
    pub other_state: u8,
    pub self_wait_ticks: u64,
    pub other_wait_ticks: u64,
    pub self_remaining_steps: u64,
    pub other_remaining_steps: u64,
}

/// What numbers say of two robots that meet.
pub open spec fn context_of(c: SbArbitrationContext) -> ArbitrationContext {
    ArbitrationContext {
        self_priority: c.self_priority,
        other_priority: c.other_priority,
        self_holds_lease: c.self_holds_lease != 0,
        other_holds_lease: c.other_holds_lease != 0,
        self_is_emergency: c.self_is_emergency != 0,
        other_is_emergency: c.other_is_emergency != 0,
        self_state: progress_state_of(c.self_state),
        other_state: progress_state_of(c.other_state),
        self_wait_ticks: c.self_wait_ticks,
        other_wait_ticks: c.other_wait_ticks,
        self_remaining_steps: c.self_remaining_steps,
        other_remaining_steps: c.other_remaining_steps,
    }
}

/// The number for a decision.
pub open spec fn decision_number(d: ArbitrationDecision) -> i32 {
    match d {
        ArbitrationDecision::Proceed => 0,
        ArbitrationDecision::Yield => 1,
        ArbitrationDecision::Replan => 2,
    }
}

/// Decides what a robot does when it meets another one. Without anything known
/// it plans anew.
pub fn arbitrate_numbers(ctx: Option<SbArbitrationContext>) -> (n: i32)
    ensures
        n == match ctx {
            Some(c) => decision_number(arbitration(context_of(c))),
            None => 2,
        },
{
    match ctx {
        Some(c) => {
            let context = ArbitrationContext {
                self_priority: c.self_priority,
                other_priority: c.other_priority,
                self_holds_lease: c.self_holds_lease != 0,
                other_holds_lease: c.other_holds_lease != 0,
                self_is_emergency: c.self_is_emergency != 0,
                other_is_emergency: c.other_is_emergency != 0,
                self_state: progress_state_from_u8(c.self_state),
                other_state: progress_state_from_u8(c.other_state),
                self_wait_ticks: c.self_wait_ticks,
                other_wait_ticks: c.other_wait_ticks,
                self_remaining_steps: c.self_remaining_steps,
                other_remaining_steps: c.other_remaining_steps,
            };
            match arbitrate_right_of_way(&context) {
                ArbitrationDecision::Proceed => SbArbitrationDecision::Proceed.code(),
                ArbitrationDecision::Yield => SbArbitrationDecision::Yield.code(),
                ArbitrationDecision::Replan => SbArbitrationDecision::Replan.code(),
            }
        },
        None => SbArbitrationDecision::Replan.code(),
    }
}

} // verus!
