//! What is known of each robot.

use crate::guid::Uuid;
use crate::ids::{ClaimId, LeaseId, MissionId, RobotId};
use crate::index::WorkspaceIndex;
use crate::number::Real;
use crate::properties::{copy_text, text_view};
use crate::route::{RoutePlan, RoutePlanView};
use crate::views::{copy_list, view_of};
use crate::workspace::{Geo, Point};
use vstd::prelude::*;

verus! {

/// How a robot is getting on.
#[derive(Debug, Clone, Copy, PartialEq, Eq, Structural)]
pub enum RobotProgressState {
    Idle,
    FollowingRoute,
    Waiting,
    Queued,
    Blocked,
    Replanning,
}

impl Default for RobotProgressState {
    fn default() -> (s: Self)
        ensures
            s == RobotProgressState::Idle,
    {
        Self::Idle
    }
}

/// Which frame a robot reported its position in. Both frames describe the same
/// place; this tells the one that was measured from the one that was derived.
#[derive(Debug, Clone, Copy, PartialEq, Eq, Structural)]
pub enum PositionFrame {
    /// Latitude, longitude and altitude.
    Global,
    /// Metres east, north and up of the datum.
    Local,
}

/// Where a robot says it is, in both frames whenever there is a datum.
#[derive(Debug, Clone, Copy, PartialEq, Eq, Structural)]
pub struct RobotPosition {
    /// The frame that the robot sent.
    pub reported: PositionFrame,
    pub lat: Real,
    pub lon: Real,
    pub alt: Real,
    pub x: Real,
    pub y: Real,
    pub z: Real,
    /// Whether the other frame could be derived; it is zero otherwise.
    pub converted: bool,
}

/// The position of a robot that reported where it is in the local frame.
pub open spec fn local_position(p: Point, global: Option<Geo>) -> RobotPosition {
    let zero = Real { bits: 0 };
    RobotPosition {
        reported: PositionFrame::Local,
        lat: match global {
            Some(g) => g.latitude,
            None => zero,
        },
        lon: match global {
            Some(g) => g.longitude,
            None => zero,
        },
        alt: match global {
            Some(g) => g.altitude,
            None => zero,
        },
        x: p.x,
        y: p.y,
        z: p.z,
        converted: global is Some,
    }
}

/// The position of a robot that reported where it is on the globe.
pub open spec fn global_position(g: Geo, local: Option<Point>) -> RobotPosition {
    let zero = Real { bits: 0 };
    RobotPosition {
        reported: PositionFrame::Global,
        lat: g.latitude,
        lon: g.longitude,
        alt: g.altitude,
        x: match local {
            Some(p) => p.x,
            None => zero,
        },
        y: match local {
            Some(p) => p.y,
            None => zero,
        },
        z: match local {
            Some(p) => p.z,
            None => zero,
        },
        converted: local is Some,
    }
}

/// The reference origin of the workspace of an index, if there is one.
pub open spec fn datum_of(index: Option<&WorkspaceIndex>) -> Option<Geo> {
    match index {
        Some(i) => i@.datum,
        None => None,
    }
}

impl RobotPosition {
    /// From metres east, north and up of the datum. The place on the globe is
    /// derived with `convert`, if there is a datum.
    pub fn from_local(
        x: Real,
        y: Real,
        z: Real,
        index: Option<&WorkspaceIndex>,
        convert: impl Fn(Point, Geo) -> Geo,
    ) -> (p: Self)
        requires
            forall|origin: Geo| call_requires(convert, (Point { x, y, z }, origin)),
        ensures
            match datum_of(index) {
                Some(origin) => exists|g: Geo| #[trigger]
                    call_ensures(convert, (Point { x, y, z }, origin), g) && p == local_position(
                        Point { x, y, z },
                        Some(g),
                    ),
                None => p == local_position(Point { x, y, z }, None),
            },
    {
        let here = Point { x, y, z };
        let global: Option<Geo> = match index {
            Some(i) => i.pose_local_to_global(here, convert),
            None => None,
        };
        match global {
            Some(g) => RobotPosition {
                reported: PositionFrame::Local,
                lat: g.latitude,
                lon: g.longitude,
                alt: g.altitude,
                x,
                y,
                z,
                converted: true,
            },
            None => RobotPosition {
                reported: PositionFrame::Local,
                lat: Real::zero(),
                lon: Real::zero(),
                alt: Real::zero(),
                x,
                y,
                z,
                converted: false,
            },
        }
    }

    /// From latitude, longitude and altitude. The place in the local frame is
    /// derived with `convert`, if there is a datum.
    pub fn from_global(
        lat: Real,
        lon: Real,
        alt: Real,
        index: Option<&WorkspaceIndex>,
        convert: impl Fn(Geo, Geo) -> Point,
    ) -> (p: Self)
        requires
            forall|origin: Geo|
                call_requires(
                    convert,
                    (Geo { latitude: lat, longitude: lon, altitude: alt }, origin),
                ),
        ensures
            match datum_of(index) {
                Some(origin) => exists|l: Point| #[trigger]
                    call_ensures(
                        convert,
                        (Geo { latitude: lat, longitude: lon, altitude: alt }, origin),
                        l,
                    ) && p == global_position(
                        Geo { latitude: lat, longitude: lon, altitude: alt },
                        Some(l),
                    ),
                None => p == global_position(
                    Geo { latitude: lat, longitude: lon, altitude: alt },
                    None,
                ),
            },
    {
        let here = Geo { latitude: lat, longitude: lon, altitude: alt };
        let local: Option<Point> = match index {
            Some(i) => i.pose_global_to_local(here, convert),
            None => None,
        };
        match local {
            Some(l) => RobotPosition {
                reported: PositionFrame::Global,
                lat,
                lon,
                alt,
                x: l.x,
                y: l.y,
                z: l.z,
                converted: true,
            },
            None => RobotPosition {
                reported: PositionFrame::Global,
                lat,
                lon,
                alt,
                x: Real::zero(),
                y: Real::zero(),
                z: Real::zero(),
                converted: false,
            },
        }
    }
}

/// Which way a robot is pointing.
#[derive(Debug, Clone, Copy, PartialEq, Eq, Structural)]
pub struct RobotHeading {
    /// Radians counter-clockwise from east, as sent.
    pub yaw_rad: Real,
    /// Degrees clockwise from true north, from zero to below a full turn, derived.
    pub bearing_deg: Real,
}

/// A full turn in degrees, as a bit pattern.
pub const FULL_TURN_BITS: u64 = 0x4076_8000_0000_0000;

/// A bearing from north, where a full turn, which rounding can make of a little
/// less, is no turn.
pub open spec fn wrapped_bearing(b: Real) -> Real {
    if (Real { bits: FULL_TURN_BITS }).at_most(b) {
        Real { bits: 0 }
    } else {
        b
    }
}

/// A bearing that is not negative ends up from zero to below a full turn.
pub proof fn lemma_bearing_is_within_a_turn(b: Real)
    requires
        (Real { bits: 0 }).at_most(b),
    ensures
        (Real { bits: 0 }).at_most(wrapped_bearing(b)),
        wrapped_bearing(b).less_than(Real { bits: FULL_TURN_BITS }),
{
}

impl RobotHeading {
    /// From a yaw. The compass bearing is derived with `to_bearing`, and comes to
    /// less than a full turn.
    pub fn from_yaw_rad(yaw_rad: Real, to_bearing: impl Fn(Real) -> Real) -> (h: Self)
        requires
            call_requires(to_bearing, (yaw_rad,)),
        ensures
            h.yaw_rad == yaw_rad,
            exists|b: Real| #[trigger]
                call_ensures(to_bearing, (yaw_rad,), b) && h.bearing_deg == wrapped_bearing(b),
    {
        let bearing = to_bearing(yaw_rad);
        let bearing_deg = if Real::from_bits(FULL_TURN_BITS).not_above(bearing) {
            Real::zero()
        } else {
            bearing
        };
        RobotHeading { yaw_rad, bearing_deg }
    }
}

/// What is known of a robot.
#[derive(Debug)]
pub struct RobotState {
    pub robot_id: RobotId,
    pub mission_id: MissionId,
    pub current_node_id: Option<Uuid>,
    pub current_edge_id: Option<Uuid>,
    pub route_plan: Option<RoutePlan>,
    pub pending_claim_ids: Vec<ClaimId>,
    pub active_lease_ids: Vec<LeaseId>,
    pub progress_state: RobotProgressState,
    pub next_route_step_index: u64,
    pub hold_reason: Option<String>,
    pub last_claim_tick: Option<u64>,
    pub scheduled_start_tick: Option<u64>,
    pub reserved_until_tick: Option<u64>,
    pub wait_ticks: u64,
    pub needs_replan: bool,
    pub horizon: u64,
    pub updated_at_tick: u64,
    /// The last reported position.
    pub position: Option<RobotPosition>,
    /// The last reported heading, independent of the position.
    pub heading: Option<RobotHeading>,
    /// When a position or a heading was last reported.
    pub pose_at_ms: Option<u64>,
}

/// What a [`RobotState`] stands for.
pub struct RobotStateView {
    pub robot_id: RobotId,
    pub mission_id: MissionId,
    pub current_node_id: Option<Uuid>,
    pub current_edge_id: Option<Uuid>,
    pub route_plan: Option<RoutePlanView>,
    pub pending_claim_ids: Seq<ClaimId>,
    pub active_lease_ids: Seq<LeaseId>,
    pub progress_state: RobotProgressState,
    pub next_route_step_index: u64,
    pub hold_reason: Option<Seq<char>>,
    pub last_claim_tick: Option<u64>,
    pub scheduled_start_tick: Option<u64>,
    pub reserved_until_tick: Option<u64>,
    pub wait_ticks: u64,
    pub needs_replan: bool,
    pub horizon: u64,
    pub updated_at_tick: u64,
    pub position: Option<RobotPosition>,
    pub heading: Option<RobotHeading>,
    pub pose_at_ms: Option<u64>,
}

impl View for RobotState {
    type V = RobotStateView;

    open spec fn view(&self) -> RobotStateView {
        RobotStateView {
            robot_id: self.robot_id,
            mission_id: self.mission_id,
            current_node_id: self.current_node_id,
            current_edge_id: self.current_edge_id,
            route_plan: view_of(self.route_plan),
            pending_claim_ids: self.pending_claim_ids@,
            active_lease_ids: self.active_lease_ids@,
            progress_state: self.progress_state,
            next_route_step_index: self.next_route_step_index,
            hold_reason: text_view(self.hold_reason),
            last_claim_tick: self.last_claim_tick,
            scheduled_start_tick: self.scheduled_start_tick,
            reserved_until_tick: self.reserved_until_tick,
            wait_ticks: self.wait_ticks,
            needs_replan: self.needs_replan,
            horizon: self.horizon,
            updated_at_tick: self.updated_at_tick,
            position: self.position,
            heading: self.heading,
            pose_at_ms: self.pose_at_ms,
        }
    }
}

impl Clone for RobotState {
    fn clone(&self) -> (r: Self)
        ensures
            r@ == self@,
    {
        let r = RobotState {
            robot_id: self.robot_id,
            mission_id: self.mission_id,
            current_node_id: self.current_node_id,
            current_edge_id: self.current_edge_id,
            route_plan: match &self.route_plan {
                Some(p) => Some(p.clone()),
                None => None,
            },
            pending_claim_ids: copy_list(&self.pending_claim_ids),
            active_lease_ids: copy_list(&self.active_lease_ids),
            progress_state: self.progress_state,
            next_route_step_index: self.next_route_step_index,
            hold_reason: copy_text(&self.hold_reason),
            last_claim_tick: self.last_claim_tick,
            scheduled_start_tick: self.scheduled_start_tick,
            reserved_until_tick: self.reserved_until_tick,
            wait_ticks: self.wait_ticks,
            needs_replan: self.needs_replan,
            horizon: self.horizon,
            updated_at_tick: self.updated_at_tick,
            position: self.position,
            heading: self.heading,
            pose_at_ms: self.pose_at_ms,
        };
        r
    }
}

/// A robot of which nothing is known but its identifier.
pub open spec fn blank_robot(robot_id: RobotId) -> RobotStateView {
    RobotStateView {
        robot_id,
        mission_id: MissionId(0),
        current_node_id: None,
        current_edge_id: None,
        route_plan: None,
        pending_claim_ids: Seq::empty(),
        active_lease_ids: Seq::empty(),
        progress_state: RobotProgressState::Idle,
        next_route_step_index: 0,
        hold_reason: None,
        last_claim_tick: None,
        scheduled_start_tick: None,
        reserved_until_tick: None,
        wait_ticks: 0,
        needs_replan: false,
        horizon: 0,
        updated_at_tick: 0,
        position: None,
        heading: None,
        pose_at_ms: None,
    }
}

impl Default for RobotState {
    fn default() -> (s: Self)
        ensures
            s@ == blank_robot(RobotId(0)),
    {
        RobotState {
            robot_id: RobotId(0),
            mission_id: MissionId(0),
            current_node_id: None,
            current_edge_id: None,
            route_plan: None,
            pending_claim_ids: Vec::new(),
            active_lease_ids: Vec::new(),
            progress_state: RobotProgressState::Idle,
            next_route_step_index: 0,
            hold_reason: None,
            last_claim_tick: None,
            scheduled_start_tick: None,
            reserved_until_tick: None,
            wait_ticks: 0,
            needs_replan: false,
            horizon: 0,
            updated_at_tick: 0,
            position: None,
            heading: None,
            pose_at_ms: None,
        }
    }
}

} // verus!
