//! Front end of a status-ping game server: the variable-length integer codec,
//! the packet layouts, the per-state packet registry and the frame extraction
//! that a connection runs over its receive buffer.

pub mod buffer;
pub mod packets;
pub mod server;
pub mod status;
pub mod utility;
