//! What the host offers: the WirePlumber version and the distribution.
pub mod osrelease;
pub mod probe;
pub mod version;
