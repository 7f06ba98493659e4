//! Immutable configuration for one mount path.

use vstd::prelude::*;

verus! {

/// Configuration for one mount path. Immutable after registration;
/// owned by the mount registry, read by everyone else.
#[derive(Clone, Debug)]
pub struct MediaDescriptor {
    /// URL path this descriptor is mounted at (unique registry key).
    pub path: String,
    /// Opaque pipeline description handed to the media engine when a
    /// pipeline instance is created.
    pub launch_spec: String,
    /// Whether all clients share one pipeline instance (live sources)
    /// or each client gets a fresh instance (stored clips).
    pub shared: bool,
    /// Upper bound on simultaneously attached sessions, if any.
    pub max_clients: Option<usize>,
}

} // verus!
