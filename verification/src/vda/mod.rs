//! Messages in the shape of VDA 5050, and the mapping to them. The types are
//! partial by design: a surface for compatibility, not a full schema.

pub mod adapter;
pub mod connection;
pub mod factsheet;
pub mod instant_actions;
pub mod laws;
pub mod order;
pub mod reports;
pub mod responses;
pub mod state;

pub use adapter::{map_robot_state, map_route_plan, try_map_route_plan, Adapter};
pub use connection::{Connection, ConnectionStatus};
pub use factsheet::{Factsheet, TypeSpecification};
pub use instant_actions::{ActionBlockingType, InstantAction, InstantActions};
pub use order::{ActionReference, Order, OrderEdge, OrderNode, ResourceReservation};
pub use responses::{ActionStatus, Response};
pub use state::{BatteryState, ConnectionState, OperatingMode, ReservationState, State};
