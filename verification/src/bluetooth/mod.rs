//! The Bluetooth input path: device lifecycle, pairing window, adapter set-up and
//! now-playing metadata.
pub mod adapter;
pub mod addr;
pub mod agent;
pub mod audio_node;
pub mod avrcp;
pub mod control;
pub mod device;
pub mod devices;
pub mod events;
pub mod manager;
pub mod media;
pub mod name_config;
pub mod pairing;
pub mod service;
pub mod testing;
