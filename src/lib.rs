//! Telemetry capture core: a fixed-size packet record with its byte codec,
//! the segmentation of a packet stream into driving sessions and laps, the
//! store that owns those sessions, the filter applied to live datagrams, and
//! the toolkit-independent state of the chunk and control panels.

pub mod packet;
pub mod codec;
pub mod chunk;
pub mod store;
pub mod persist;
pub mod source;
pub mod panel;
pub mod session;
