//! The connection of a vehicle.

use crate::properties::{copy_text, text_view};
use vstd::prelude::*;

verus! {

/// Whether a vehicle is connected.
#[derive(Debug, Clone, Copy, PartialEq, Eq, Structural)]
pub enum ConnectionStatus {
    Online,
    Offline,
    ConnectionBroken,
}

impl Default for ConnectionStatus {
    fn default() -> (d: Self)
        ensures
            d == ConnectionStatus::Offline,
    {
        Self::Offline
    }
}

/// The connection of a vehicle.
#[derive(Debug, PartialEq, Eq)]
pub struct Connection {
    pub interface_name: String,
    pub manufacturer: String,
    pub serial_number: String,
    pub version: String,
    pub connection_id: Option<String>,
    pub status: ConnectionStatus,
    pub timestamp_ms: Option<u64>,
}

/// What a [`Connection`] stands for.
pub struct ConnectionView {
    pub interface_name: Seq<char>,
    pub manufacturer: Seq<char>,
    pub serial_number: Seq<char>,
    pub version: Seq<char>,
    pub connection_id: Option<Seq<char>>,
    pub status: ConnectionStatus,
    pub timestamp_ms: Option<u64>,
}

impl View for Connection {
    type V = ConnectionView;

    open spec fn view(&self) -> ConnectionView {
        ConnectionView {
            interface_name: self.interface_name@,
            manufacturer: self.manufacturer@,
            serial_number: self.serial_number@,
            version: self.version@,
            connection_id: text_view(self.connection_id),
            status: self.status,
            timestamp_ms: self.timestamp_ms,
        }
    }
}

impl Clone for Connection {
    fn clone(&self) -> (r: Self)
        ensures
            r == *self,
    {
        let r = Connection {
            interface_name: self.interface_name.clone(),
            manufacturer: self.manufacturer.clone(),
            serial_number: self.serial_number.clone(),
            version: self.version.clone(),
            connection_id: copy_text(&self.connection_id),
            status: self.status,
            timestamp_ms: self.timestamp_ms,
        };
        r
    }
}

/// A [`Connection`] that states nothing.
pub open spec fn blank_connection() -> ConnectionView {
    ConnectionView {
        interface_name: Seq::empty(),
        manufacturer: Seq::empty(),
        serial_number: Seq::empty(),
        version: Seq::empty(),
        connection_id: None,
        status: ConnectionStatus::Offline,
        timestamp_ms: None,
    }
}

impl Default for Connection {
    fn default() -> (d: Self)
        ensures
            d@ == blank_connection(),
    {
        let d = Connection {
            interface_name: String::new(),
            manufacturer: String::new(),
            serial_number: String::new(),
            version: String::new(),
            connection_id: None,
            status: ConnectionStatus::Offline,
            timestamp_ms: None,
        };
        d
    }
}

} // verus!
