//! The state of a vehicle.

use crate::number::Real;
use crate::properties::{copy_text, text_view};
use crate::views::{copy_texts, views};
use vstd::prelude::*;

verus! {

/// Who drives a vehicle.
#[derive(Debug, Clone, Copy, PartialEq, Eq, Structural)]
pub enum OperatingMode {
    Manual,
    Automatic,
    Semiautomatic,
}

impl Default for OperatingMode {
    fn default() -> (d: Self)
        ensures
            d == OperatingMode::Manual,
    {
        Self::Manual
    }
}

/// Whether a vehicle can be reached.
#[derive(Debug, Clone, Copy, PartialEq, Eq, Structural)]
pub enum ConnectionState {
    Online,
    Offline,
    ConnectionBroken,
}

impl Default for ConnectionState {
    fn default() -> (d: Self)
        ensures
            d == ConnectionState::Offline,
    {
        Self::Offline
    }
}

/// The battery of a vehicle.
#[derive(Debug, Clone, Copy, PartialEq, Eq, Structural)]
pub struct BatteryState {
    pub battery_charge: Option<Real>,
    pub charging: bool,
}

impl Default for BatteryState {
    fn default() -> (d: Self)
        ensures
            d.battery_charge is None,
            !d.charging,
    {
        BatteryState { battery_charge: None, charging: false }
    }
}

/// What has become of a reservation.
#[derive(Debug, PartialEq, Eq)]
pub struct ReservationState {
    pub target_id: String,
    pub target_kind: String,
    pub state: String,
}

/// What a [`ReservationState`] stands for.
pub struct ReservationStateView {
    pub target_id: Seq<char>,
    pub target_kind: Seq<char>,
    pub state: Seq<char>,
}

impl View for ReservationState {
    type V = ReservationStateView;

    open spec fn view(&self) -> ReservationStateView {
        ReservationStateView {
            target_id: self.target_id@,
            target_kind: self.target_kind@,
            state: self.state@,
        }
    }
}

impl Clone for ReservationState {
    fn clone(&self) -> (r: Self)
        ensures
            r == *self,
    {
        let r = ReservationState {
            target_id: self.target_id.clone(),
            target_kind: self.target_kind.clone(),
            state: self.state.clone(),
        };
        r
    }
}

/// A [`ReservationState`] that states nothing.
pub open spec fn blank_reservation_state() -> ReservationStateView {
    ReservationStateView {
        target_id: Seq::empty(),
        target_kind: Seq::empty(),
        state: Seq::empty(),
    }
}

impl Default for ReservationState {
    fn default() -> (d: Self)
        ensures
            d@ == blank_reservation_state(),
    {
        let d = ReservationState {
            target_id: String::new(),
            target_kind: String::new(),
            state: String::new(),
        };
        d
    }
}

/// The state of a vehicle.
#[derive(Debug, PartialEq, Eq)]
pub struct State {
    pub agv_id: String,
    pub operating_mode: OperatingMode,
    pub connection_state: ConnectionState,
    pub order_update_id: u32,
    pub last_node_id: Option<String>,
    pub last_edge_id: Option<String>,
    pub order_id: Option<String>,
    pub driving_state: Option<String>,
    pub paused: bool,
    pub battery_state: BatteryState,
    pub reservation_states: Vec<ReservationState>,
    pub action_states: Vec<String>,
    pub errors: Vec<String>,
    pub information: Vec<String>,
}

/// What a [`State`] stands for.
pub struct StateView {
    pub agv_id: Seq<char>,
    pub operating_mode: OperatingMode,
    pub connection_state: ConnectionState,
    pub order_update_id: u32,
    pub last_node_id: Option<Seq<char>>,
    pub last_edge_id: Option<Seq<char>>,
    pub order_id: Option<Seq<char>>,
    pub driving_state: Option<Seq<char>>,
    pub paused: bool,
    pub battery_state: BatteryState,
    pub reservation_states: Seq<ReservationStateView>,
    pub action_states: Seq<Seq<char>>,
    pub errors: Seq<Seq<char>>,
    pub information: Seq<Seq<char>>,
}

impl View for State {
    type V = StateView;

    open spec fn view(&self) -> StateView {
        StateView {
            agv_id: self.agv_id@,
            operating_mode: self.operating_mode,
            connection_state: self.connection_state,
            order_update_id: self.order_update_id,
            last_node_id: text_view(self.last_node_id),
            last_edge_id: text_view(self.last_edge_id),
            order_id: text_view(self.order_id),
            driving_state: text_view(self.driving_state),
            paused: self.paused,
            battery_state: self.battery_state,
            reservation_states: views(self.reservation_states@),
            action_states: views(self.action_states@),
            errors: views(self.errors@),
            information: views(self.information@),
        }
    }
}

impl Clone for State {
    fn clone(&self) -> (r: Self)
        ensures
            r@ == self@,
    {
        let r = State {
            agv_id: self.agv_id.clone(),
            operating_mode: self.operating_mode,
            connection_state: self.connection_state,
            order_update_id: self.order_update_id,
            last_node_id: copy_text(&self.last_node_id),
            last_edge_id: copy_text(&self.last_edge_id),
            order_id: copy_text(&self.order_id),
            driving_state: copy_text(&self.driving_state),
            paused: self.paused,
            battery_state: self.battery_state.clone(),
            reservation_states: self.reservation_states.clone(),
            action_states: copy_texts(&self.action_states),
            errors: copy_texts(&self.errors),
            information: copy_texts(&self.information),
        };
        assert(r@.reservation_states =~= self@.reservation_states);
        r
    }
}

/// A [`State`] that states nothing.
pub open spec fn blank_state() -> StateView {
    StateView {
        agv_id: Seq::empty(),
        operating_mode: OperatingMode::Manual,
        connection_state: ConnectionState::Offline,
        order_update_id: 0,
        last_node_id: None,
        last_edge_id: None,
        order_id: None,
        driving_state: None,
        paused: false,
        battery_state: BatteryState { battery_charge: None, charging: false },
        reservation_states: Seq::empty(),
        action_states: Seq::empty(),
        errors: Seq::empty(),
        information: Seq::empty(),
    }
}

impl Default for State {
    fn default() -> (d: Self)
        ensures
            d@ == blank_state(),
    {
        let d = State {
            agv_id: String::new(),
            operating_mode: OperatingMode::Manual,
            connection_state: ConnectionState::Offline,
            order_update_id: 0,
            last_node_id: None,
            last_edge_id: None,
            order_id: None,
            driving_state: None,
            paused: false,
            battery_state: BatteryState { battery_charge: None, charging: false },
            reservation_states: Vec::new(),
            action_states: Vec::new(),
            errors: Vec::new(),
            information: Vec::new(),
        };
        assert(d@.reservation_states =~= Seq::empty());
        assert(d@.action_states =~= Seq::empty());
        assert(d@.errors =~= Seq::empty());
        assert(d@.information =~= Seq::empty());
        d
    }
}

} // verus!
