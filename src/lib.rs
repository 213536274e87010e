//! Verified core of a container dashboard: a registry of authenticated
//! remote sessions with saved connection profiles, a CPU and I/O metrics
//! engine that derives utilisation from cumulative counters, and the parsing
//! and decision logic for container inventories.
use vstd::prelude::*;

pub mod keyed;
pub mod local;
pub mod metrics;
pub mod remote;
pub mod session;
pub mod text;

verus! {

} // verus!
