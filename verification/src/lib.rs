//! A minimal service container: a registry binding caller-assigned type keys
//! to shared, factory-produced service instances, resolvable on demand, with
//! an optional one-shot global slot for process-wide access.
use vstd::prelude::*;

pub mod service_provider;

verus! {

/// Marker capability for values stored in the registry: every storable
/// service must be safely shareable across threads and inspectable.
pub trait Injectable: Send + Sync + core::fmt::Debug {

}

} // verus!
