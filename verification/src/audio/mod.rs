//! Audio format shared by both ends of a stream.
pub mod capture;
pub mod playback;
pub mod volume;

use vstd::prelude::*;

verus! {

/// Samples per second and channel.
pub const SAMPLE_RATE: u32 = 48_000;

/// Channels in the ring and on the wire: interleaved stereo.
pub const CHANNELS: u16 = 2;

/// Interleaved samples in one network frame: 10 ms of stereo.
pub const FRAME_SIZE: usize = 960;

/// Places in the sample ring: 400 ms of stereo.
pub const RING_CAPACITY: usize = 38_400;

/// A frame holds 10 ms of stereo and the ring 400 ms of stereo at `SAMPLE_RATE`.
pub proof fn lemma_buffer_sizes()
    ensures
        FRAME_SIZE == SAMPLE_RATE * CHANNELS * 10 / 1000,
        RING_CAPACITY == SAMPLE_RATE * CHANNELS * 400 / 1000,
        RING_CAPACITY % FRAME_SIZE == 0,
        FRAME_SIZE % (CHANNELS as usize) == 0,
{
    assert(SAMPLE_RATE == 48_000 && CHANNELS == 2);
    assert(48_000int * 2 * 400 / 1000 == 38_400) by (nonlinear_arith);
    assert(48_000int * 2 * 10 / 1000 == 960) by (nonlinear_arith);
    assert(960usize % 2usize == 0);
    assert(38_400usize % 960usize == 0);
}

} // verus!
