//! The words that stand for states, modes and decisions in scripts.

use crate::claim::ClaimAccessMode;
use crate::coordinator::arbitration::ArbitrationDecision;
use crate::policy::ZonePolicyKind;
use crate::robot::RobotProgressState;
use crate::text::same_text;
use vstd::prelude::*;

verus! {

/// The state that a word stands for. Words that stand for none are idle.
pub open spec fn progress_state_named(s: Seq<char>) -> RobotProgressState {
    if s == "idle"@ {
        RobotProgressState::Idle
    } else if s == "following_route"@ {
        RobotProgressState::FollowingRoute
    } else if s == "waiting"@ {
        RobotProgressState::Waiting
    } else if s == "queued"@ {
        RobotProgressState::Queued
    } else if s == "blocked"@ {
        RobotProgressState::Blocked
    } else if s == "replanning"@ {
        RobotProgressState::Replanning
    } else {
        RobotProgressState::Idle
    }
}

/// The state that a word stands for. Words that stand for none are idle.
pub fn parse_progress_state(s: &str) -> (r: RobotProgressState)
    ensures
        r == progress_state_named(s@),
{
    if same_text(s, "idle") {
        RobotProgressState::Idle
    } else if same_text(s, "following_route") {
        RobotProgressState::FollowingRoute
    } else if same_text(s, "waiting") {
        RobotProgressState::Waiting
    } else if same_text(s, "queued") {
        RobotProgressState::Queued
    } else if same_text(s, "blocked") {
        RobotProgressState::Blocked
    } else if same_text(s, "replanning") {
        RobotProgressState::Replanning
    } else {
        RobotProgressState::Idle
    }
}

/// The mode that a word stands for. Words that stand for none are exclusive.
pub open spec fn access_mode_named(s: Seq<char>) -> ClaimAccessMode {
    if s == "shared"@ {
        ClaimAccessMode::Shared
    } else {
        ClaimAccessMode::Exclusive
    }
}

/// The mode that a word stands for. Words that stand for none are exclusive.
pub fn parse_access_mode(s: &str) -> (r: ClaimAccessMode)
    ensures
        r == access_mode_named(s@),
{
    if same_text(s, "shared") {
        ClaimAccessMode::Shared
    } else {
        ClaimAccessMode::Exclusive
    }
}

/// The word for a kind of zone policy.
pub open spec fn policy_kind_word(k: ZonePolicyKind) -> Seq<char> {
    match k {
        ZonePolicyKind::Informational => "informational"@,
        ZonePolicyKind::ExclusiveAccess => "exclusive"@,
        ZonePolicyKind::SharedAccess => "shared"@,
        ZonePolicyKind::CapacityLimited => "capacity_limited"@,
        ZonePolicyKind::Corridor => "corridor"@,
        ZonePolicyKind::Replanning => "replanning"@,
        ZonePolicyKind::Restricted => "restricted"@,
        ZonePolicyKind::NoStop => "no_stop"@,
        ZonePolicyKind::Slowdown => "slowdown"@,
    }
}

/// The word for a kind of zone policy.
pub fn zone_policy_kind_str(k: ZonePolicyKind) -> (s: &'static str)
    ensures
        s@ == policy_kind_word(k),
{
    match k {
        ZonePolicyKind::Informational => "informational",
        ZonePolicyKind::ExclusiveAccess => "exclusive",
        ZonePolicyKind::SharedAccess => "shared",
        ZonePolicyKind::CapacityLimited => "capacity_limited",
        ZonePolicyKind::Corridor => "corridor",
        ZonePolicyKind::Replanning => "replanning",
        ZonePolicyKind::Restricted => "restricted",
        ZonePolicyKind::NoStop => "no_stop",
        ZonePolicyKind::Slowdown => "slowdown",
    }
}

/// The word for what a robot does when it meets another one.
pub open spec fn arbitration_word(k: ArbitrationDecision) -> Seq<char> {
    match k {
        ArbitrationDecision::Proceed => "proceed"@,
        ArbitrationDecision::Yield => "yield"@,
        ArbitrationDecision::Replan => "replan"@,
    }
}

/// The word for what a robot does when it meets another one.
pub fn arbitration_str(k: ArbitrationDecision) -> (s: &'static str)
    ensures
        s@ == arbitration_word(k),
{
    match k {
        ArbitrationDecision::Proceed => "proceed",
        ArbitrationDecision::Yield => "yield",
        ArbitrationDecision::Replan => "replan",
    }
}

} // verus!
