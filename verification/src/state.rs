//! Connection status codes, as the user interface reads them.
use vstd::prelude::*;

verus! {

/// Not connected.
pub const STATUS_IDLE: u8 = 0;

/// A connection is being set up.
pub const STATUS_CONNECTING: u8 = 1;

/// Streaming.
pub const STATUS_CONNECTED: u8 = 2;

/// The stream failed.
pub const STATUS_ERROR: u8 = 3;

} // verus!
