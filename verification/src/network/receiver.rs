//! The receiving end: checks each datagram and moves its samples into the ring.
use vstd::prelude::*;
use crate::network::packet::{decode_packet, parse_packet, Packet, PacketError};
use crate::ring::{
    producer_inv, producer_len, producer_push_slice, pushed, room, stream, SampleProducer,
};

verus! {

/// Every this many sequence numbers the receiver reports the signal level.
pub const REPORT_EVERY: u32 = 200;

/// Whether the datagram numbered `seq` is one whose level is reported.
pub fn should_report(seq: u32) -> (b: bool)
    ensures
        b == (seq % REPORT_EVERY == 0),
{
    seq % REPORT_EVERY == 0
}

/// A datagram that was accepted.
pub struct Received {
    /// The decoded datagram.
    pub packet: Packet,
    /// How many of its samples fit in the ring; the rest were dropped.
    pub pushed: usize,
    /// For the datagrams that `should_report` selects: the ring's fill level
    /// before the samples went in.
    pub buffered: Option<usize>,
}

/// Decodes one datagram and appends its samples to the ring, as many as fit.
/// A datagram that does not decode leaves the ring as it was.
pub fn receive_datagram(prod: &mut SampleProducer, datagram: &[u8]) -> (r: Result<
    Received,
    PacketError,
>)
    ensures
        stream(*final(prod)) == stream(*old(prod)),
        producer_inv(*old(prod)) ==> producer_inv(*final(prod)),
        match r {
            Ok(rcv) => {
                &&& parse_packet(datagram@) == Ok::<(u32, u16, Seq<u32>), PacketError>(rcv.packet@)
                &&& rcv.pushed as nat == if rcv.packet.samples.len() < room(*old(prod)) {
                    rcv.packet.samples.len() as nat
                } else {
                    room(*old(prod))
                }
                &&& pushed(*final(prod)) == pushed(*old(prod)) + rcv.packet.samples@.take(
                    rcv.pushed as int,
                )
                &&& (rcv.buffered is Some) == (rcv.packet.seq % REPORT_EVERY == 0)
            },
            Err(e) => {
                &&& parse_packet(datagram@) == Err::<(u32, u16, Seq<u32>), PacketError>(e)
                &&& *final(prod) == *old(prod)
            },
        },
{
    match decode_packet(datagram) {
        Err(e) => Err(e),
        Ok(packet) => {
            let buffered = if should_report(packet.seq) {
                Some(producer_len(prod))
            } else {
                None
            };
            let pushed = producer_push_slice(prod, packet.samples.as_slice());
            Ok(Received { packet, pushed, buffered })
        },
    }
}

} // verus!
