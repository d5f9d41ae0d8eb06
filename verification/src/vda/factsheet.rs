//! What a vehicle is and can do.

use crate::number::Real;
use crate::properties::{copy_text, text_view};
use crate::views::{copy_texts, views};
use vstd::prelude::*;

verus! {

/// The limits of a type of vehicle.
#[derive(Debug, Clone, Copy, PartialEq, Eq, Structural)]
pub struct TypeSpecification {
    pub max_speed: Option<Real>,
    pub max_payload: Option<Real>,
}

impl Default for TypeSpecification {
    fn default() -> (d: Self)
        ensures
            d.max_speed is None,
            d.max_payload is None,
    {
        TypeSpecification { max_speed: None, max_payload: None }
    }
}

/// What a vehicle is and can do.
#[derive(Debug, PartialEq, Eq)]
pub struct Factsheet {
    pub manufacturer: String,
    pub serial_number: String,
    pub protocol_version: String,
    pub agv_class: Option<String>,
    pub software_version: Option<String>,
    pub type_specification: TypeSpecification,
    pub supported_actions: Vec<String>,
}

/// What a [`Factsheet`] stands for.
pub struct FactsheetView {
    pub manufacturer: Seq<char>,
    pub serial_number: Seq<char>,
    pub protocol_version: Seq<char>,
    pub agv_class: Option<Seq<char>>,
    pub software_version: Option<Seq<char>>,
    pub type_specification: TypeSpecification,
    pub supported_actions: Seq<Seq<char>>,
}

impl View for Factsheet {
    type V = FactsheetView;

    open spec fn view(&self) -> FactsheetView {
        FactsheetView {
            manufacturer: self.manufacturer@,
            serial_number: self.serial_number@,
            protocol_version: self.protocol_version@,
            agv_class: text_view(self.agv_class),
            software_version: text_view(self.software_version),
            type_specification: self.type_specification,
            supported_actions: views(self.supported_actions@),
        }
    }
}

impl Clone for Factsheet {
    fn clone(&self) -> (r: Self)
        ensures
            r@ == self@,
    {
        let r = Factsheet {
            manufacturer: self.manufacturer.clone(),
            serial_number: self.serial_number.clone(),
            protocol_version: self.protocol_version.clone(),
            agv_class: copy_text(&self.agv_class),
            software_version: copy_text(&self.software_version),
            type_specification: self.type_specification,
            supported_actions: copy_texts(&self.supported_actions),
        };
        r
    }
}

/// A [`Factsheet`] that states nothing.
pub open spec fn blank_factsheet() -> FactsheetView {
    FactsheetView {
        manufacturer: Seq::empty(),
        serial_number: Seq::empty(),
        protocol_version: Seq::empty(),
        agv_class: None,
        software_version: None,
        type_specification: TypeSpecification { max_speed: None, max_payload: None },
        supported_actions: Seq::empty(),
    }
}

impl Default for Factsheet {
    fn default() -> (d: Self)
        ensures
            d@ == blank_factsheet(),
    {
        let d = Factsheet {
            manufacturer: String::new(),
            serial_number: String::new(),
            protocol_version: String::new(),
            agv_class: None,
            software_version: None,
            type_specification: TypeSpecification { max_speed: None, max_payload: None },
            supported_actions: Vec::new(),
        };
        assert(d@.supported_actions =~= Seq::empty());
        d
    }
}

impl Factsheet {
    /// A factsheet for the protocol version in use.
    pub fn new() -> (f: Self)
        ensures
            f@ == (FactsheetView { protocol_version: "3.0.0"@, ..blank_factsheet() }),
    {
        let mut f = Self::default();
        f.protocol_version = "3.0.0".to_owned();
        f
    }
}

} // verus!
