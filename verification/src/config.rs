//! The user's settings that decide what a connection does.
use vstd::prelude::*;

verus! {

/// Which end of the stream this machine is.
#[derive(Debug, Clone, Copy, PartialEq, Eq, Structural)]
pub enum Role {
    /// Captures the local output and sends it.
    Sender,
    /// Receives a stream and plays it.
    Receiver,
}

/// The settings a connection is made from.
pub struct AppConfig {
    pub role: Role,
    /// The address of the receiving machine (used by a sender).
    pub last_server_ip: String,
    /// The jitter buffer, in milliseconds (used by a receiver).
    pub buffer_size_ms: u32,
    /// Whether to connect on start-up.
    pub auto_connect: bool,
}

impl AppConfig {
    /// Whether the application connects by itself at start-up: only when the
    /// user asked for it and an address has been saved.
    pub fn starts_connected(&self) -> (b: bool)
        ensures
            b == (self.auto_connect && self.last_server_ip@.len() > 0),
    {
        self.auto_connect && !self.last_server_ip.as_str().is_empty()
    }
}

} // verus!
