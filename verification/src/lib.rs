//! Verified session engine for a multiplayer driving game server.
//!
//! The crate models the realtime core of the server: the TCP frame codec
//! with its compression envelope, the colon-delimited text protocol, the
//! player and vehicle state store, the packet dispatchers for both
//! transports, and the script-approval pipeline. Socket and file I/O live
//! outside the library; every decision the server takes on bytes and state
//! is made here, under contract.

use vstd::prelude::*;

pub mod car;
pub mod client;
pub mod codec;
pub mod config;
pub mod ids;
pub mod packet;
pub mod plugin;
pub mod server;
pub mod text;
pub mod transform;
pub mod vehicle;
pub mod wire;

verus! {

/// Frames larger than this many bytes (after decompression) are refused.
pub const DEFAULT_FRAME_CAP: usize = 102400;

} // verus!
