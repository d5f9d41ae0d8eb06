//! Strong-typed identifiers: each one is a `u64` tagged by name.

use crate::text::{decimal, decimal_text};
use vstd::prelude::*;

verus! {

/// A robot known to the coordinator.
#[derive(Debug, Clone, Copy, PartialEq, Eq, Hash, PartialOrd, Ord, Structural)]
pub struct RobotId(pub u64);

impl RobotId {
    pub fn new(v: u64) -> (id: Self)
        ensures
            id.0 == v,
    {
        Self(v)
    }

    pub fn raw(self) -> (v: u64)
        ensures
            v == self.0,
    {
        self.0
    }

    /// The identifier in decimal digits.
    pub fn to_text(self) -> (s: String)
        ensures
            s@ == decimal_text(self.0 as nat),
    {
        decimal(self.0 as u128)
    }
}

impl Default for RobotId {
    fn default() -> (id: Self)
        ensures
            id.0 == 0,
    {
        Self(0)
    }
}

impl From<u64> for RobotId {
    fn from(v: u64) -> (id: Self) {
        Self(v)
    }
}

impl vstd::std_specs::convert::FromSpecImpl<u64> for RobotId {
    open spec fn obeys_from_spec() -> bool {
        true
    }

    open spec fn from_spec(v: u64) -> Self {
        RobotId(v)
    }
}

impl From<RobotId> for u64 {
    fn from(v: RobotId) -> (raw: Self) {
        v.0
    }
}

impl vstd::std_specs::convert::FromSpecImpl<RobotId> for u64 {
    open spec fn obeys_from_spec() -> bool {
        true
    }

    open spec fn from_spec(v: RobotId) -> Self {
        v.0
    }
}

/// A mission that a robot is on.
#[derive(Debug, Clone, Copy, PartialEq, Eq, Hash, PartialOrd, Ord, Structural)]
pub struct MissionId(pub u64);

impl MissionId {
    pub fn new(v: u64) -> (id: Self)
        ensures
            id.0 == v,
    {
        Self(v)
    }

    pub fn raw(self) -> (v: u64)
        ensures
            v == self.0,
    {
        self.0
    }

    /// The identifier in decimal digits.
    pub fn to_text(self) -> (s: String)
        ensures
            s@ == decimal_text(self.0 as nat),
    {
        decimal(self.0 as u128)
    }
}

impl Default for MissionId {
    fn default() -> (id: Self)
        ensures
            id.0 == 0,
    {
        Self(0)
    }
}

impl From<u64> for MissionId {
    fn from(v: u64) -> (id: Self) {
        Self(v)
    }
}

impl vstd::std_specs::convert::FromSpecImpl<u64> for MissionId {
    open spec fn obeys_from_spec() -> bool {
        true
    }

    open spec fn from_spec(v: u64) -> Self {
        MissionId(v)
    }
}

impl From<MissionId> for u64 {
    fn from(v: MissionId) -> (raw: Self) {
        v.0
    }
}

impl vstd::std_specs::convert::FromSpecImpl<MissionId> for u64 {
    open spec fn obeys_from_spec() -> bool {
        true
    }

    open spec fn from_spec(v: MissionId) -> Self {
        v.0
    }
}

/// A request for resources.
#[derive(Debug, Clone, Copy, PartialEq, Eq, Hash, PartialOrd, Ord, Structural)]
pub struct ClaimId(pub u64);

impl ClaimId {
    pub fn new(v: u64) -> (id: Self)
        ensures
            id.0 == v,
    {
        Self(v)
    }

    pub fn raw(self) -> (v: u64)
        ensures
            v == self.0,
    {
        self.0
    }

    /// The identifier in decimal digits.
    pub fn to_text(self) -> (s: String)
        ensures
            s@ == decimal_text(self.0 as nat),
    {
        decimal(self.0 as u128)
    }
}

impl Default for ClaimId {
    fn default() -> (id: Self)
        ensures
            id.0 == 0,
    {
        Self(0)
    }
}

impl From<u64> for ClaimId {
    fn from(v: u64) -> (id: Self) {
        Self(v)
    }
}

impl vstd::std_specs::convert::FromSpecImpl<u64> for ClaimId {
    open spec fn obeys_from_spec() -> bool {
        true
    }

    open spec fn from_spec(v: u64) -> Self {
        ClaimId(v)
    }
}

impl From<ClaimId> for u64 {
    fn from(v: ClaimId) -> (raw: Self) {
        v.0
    }
}

impl vstd::std_specs::convert::FromSpecImpl<ClaimId> for u64 {
    open spec fn obeys_from_spec() -> bool {
        true
    }

    open spec fn from_spec(v: ClaimId) -> Self {
        v.0
    }
}

/// A lease on resources.
#[derive(Debug, Clone, Copy, PartialEq, Eq, Hash, PartialOrd, Ord, Structural)]
pub struct LeaseId(pub u64);

impl LeaseId {
    pub fn new(v: u64) -> (id: Self)
        ensures
            id.0 == v,
    {
        Self(v)
    }

    pub fn raw(self) -> (v: u64)
        ensures
            v == self.0,
    {
        self.0
    }

    /// The identifier in decimal digits.
    pub fn to_text(self) -> (s: String)
        ensures
            s@ == decimal_text(self.0 as nat),
    {
        decimal(self.0 as u128)
    }
}

impl Default for LeaseId {
    fn default() -> (id: Self)
        ensures
            id.0 == 0,
    {
        Self(0)
    }
}

impl From<u64> for LeaseId {
    fn from(v: u64) -> (id: Self) {
        Self(v)
    }
}

impl vstd::std_specs::convert::FromSpecImpl<u64> for LeaseId {
    open spec fn obeys_from_spec() -> bool {
        true
    }

    open spec fn from_spec(v: u64) -> Self {
        LeaseId(v)
    }
}

impl From<LeaseId> for u64 {
    fn from(v: LeaseId) -> (raw: Self) {
        v.0
    }
}

impl vstd::std_specs::convert::FromSpecImpl<LeaseId> for u64 {
    open spec fn obeys_from_spec() -> bool {
        true
    }

    open spec fn from_spec(v: LeaseId) -> Self {
        v.0
    }
}

} // verus!
