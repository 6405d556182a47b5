//! The audio path: capture, equaliser and PipeWire control.
pub mod eq_controller;
pub mod filter_chain;
pub mod frame;
pub mod pw;
pub mod spectrum;
