//! The UDP transport: one datagram per frame of samples.
pub mod packet;
pub mod receiver;
pub mod sender;

use vstd::prelude::*;

verus! {

/// The UDP port the receiver listens on.
pub const UDP_PORT: u16 = 50_505;

/// The size of the receiver's datagram buffer.
pub const MAX_PACKET_SIZE: usize = 4_096;

/// A whole frame's datagram fits in the receiver's buffer.
pub proof fn lemma_frame_fits_datagram()
    ensures
        packet::HEADER_LEN + 4 * crate::audio::FRAME_SIZE <= MAX_PACKET_SIZE,
{
}

} // verus!
