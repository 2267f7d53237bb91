//! The core of a peer-to-peer overlay chat node: a framed,
//! checksummed packet codec over JSON wire text, the per-connection
//! protocol state machine, and a distance-vector routing engine with
//! split horizon, poison reverse and heartbeat-driven liveness.
//!
//! Everything here is plain computation on values; the sockets,
//! timers and channels that drive it live with the runtime around the
//! library.

use vstd::prelude::*;

pub mod addr;
pub mod arg_parsing;
pub mod bytesutil;
mod crc;
pub mod common_header;
pub mod events;
pub mod header;
pub mod json;
pub mod morganite;
pub mod packets;
pub mod process;
pub mod protocol;
pub mod routing;
pub mod routing_ttl_manager;
pub mod shared;
pub mod swag_coding;
pub mod text;

verus! {

/// Hop count value that marks a route as unreachable on the wire.
pub const POISE_UNREACHABLE: i32 = 32;

} // verus!
