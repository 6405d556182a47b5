//! A Bluetooth audio receiver: its rules, parsers and state machines.
pub mod adapter_id;
pub mod artwork;
pub mod audio;
pub mod bluetooth;
pub mod capabilities;
pub mod cast;
pub mod cli;
pub mod config;
pub mod config_store;
pub mod daemon;
pub mod doctor;
pub mod dsp;
pub mod install;
pub mod json;
pub mod lifecycle;
pub mod output;
pub mod state;
pub mod sys;
pub mod text;
