//! Viewer presence tracking, session fan-out and byte-range resolution for a
//! small video server.

pub mod decimal;
pub mod range;
pub mod presence;
pub mod hub;
pub mod poller;
pub mod liveness;
pub mod media;
