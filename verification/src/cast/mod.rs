//! CASTV2: the wire format, the payloads and the session logic of Chromecasts.
pub mod client;
pub mod messages;
pub mod proto;
