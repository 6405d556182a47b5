//! Signal processing set-up.
pub mod eq;
