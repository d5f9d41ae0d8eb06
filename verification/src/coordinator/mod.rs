//! Scheduling, arbitration and the coordination of robots.

use vstd::prelude::*;

pub mod arbitration;
pub mod behind;
pub mod fleet;
pub mod horizon;
pub mod laws;
pub mod schedule;
pub mod standing;
pub mod targets;
pub mod timing;

verus! {

} // verus!
