//! The seams to the operating system: running commands and touching files.
//! The daemon runs against the real system, the tests against [`testing`].
pub mod command;
pub mod fs;
pub mod testing;
