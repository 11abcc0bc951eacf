//! Concurrent latency probing, modelled and verified.
//!
//! The library holds the decision logic of a round-trip-latency pipeline:
//! classifying textual addresses into their protocol family, building echo
//! identifiers, pacing the launch of concurrent probes, turning echo replies
//! into probe outcomes, and aggregating the successful outcomes into the
//! final collection of measurements. The surrounding I/O (sockets, files,
//! lookups) lives outside the library and hands plain values in and out.

use vstd::prelude::*;

pub mod aggregate;
pub mod batching;
pub mod classify;
pub mod lookup;
pub mod echo;
pub mod pacing;
pub mod records;
pub mod urls;

verus! {

} // verus!
