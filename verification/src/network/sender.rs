//! The sending end: takes whole frames from the sample ring and frames them as
//! datagrams with consecutive sequence numbers.
use vstd::prelude::*;
use crate::audio::FRAME_SIZE;
use crate::network::packet::{encode_packet, packet_bytes};
use crate::ring::{
    consumer_inv, consumer_len, consumer_pop_slice, lemma_fifo, producer_inv, pushed, queued,
    same_ring, settled, source, taken, SampleConsumer, SampleProducer,
};

verus! {

/// The sequence number after `seq`, wrapping from `u32::MAX` to 0.
pub open spec fn next_seq(seq: u32) -> u32 {
    if seq == u32::MAX {
        0
    } else {
        (seq + 1) as u32
    }
}

/// The state of the sending end: the sequence number of the next datagram.
pub struct PacketSender {
    pub seq: u32,
}

impl PacketSender {
    /// A sender whose first datagram carries sequence number 0.
    pub fn new() -> (s: Self)
        ensures
            s.seq == 0,
    {
        PacketSender { seq: 0 }
    }

    /// The next datagram, given a fill level `available` the consumer has read:
    /// when it shows a whole frame, the oldest `FRAME_SIZE` queued samples go out
    /// under the current sequence number, which then advances by one (wrapping);
    /// otherwise `None`, and the ring and the sequence number stay as they were.
    pub fn packet_from(&mut self, cons: &mut SampleConsumer, available: usize) -> (r: Option<
        Vec<u8>,
    >)
        requires
            available <= queued(*old(cons)).len(),
        ensures
            (r is Some) == (available >= FRAME_SIZE),
            source(*final(cons)) == source(*old(cons)),
            consumer_inv(*old(cons)) ==> consumer_inv(*final(cons)),
            match r {
                Some(p) => {
                    &&& p@ == packet_bytes(old(self).seq, queued(*old(cons)).take(FRAME_SIZE as int))
                    &&& queued(*old(cons)).skip(FRAME_SIZE as int).is_prefix_of(queued(*final(cons)))
                    &&& taken(*final(cons)) == taken(*old(cons)) + queued(*old(cons)).take(
                        FRAME_SIZE as int,
                    )
                    &&& final(self).seq == next_seq(old(self).seq)
                },
                None => {
                    &&& *final(cons) == *old(cons)
                    &&& final(self).seq == old(self).seq
                },
            },
    {
        if available < FRAME_SIZE {
            return None;
        }
        let mut frame: Vec<u32> = vec![0u32; FRAME_SIZE];
        let n = consumer_pop_slice(cons, &mut frame);
        assert(n == FRAME_SIZE);
        assert(frame@ =~= queued(*old(cons)).take(FRAME_SIZE as int));
        let packet = encode_packet(self.seq, frame.as_slice());
        self.seq = self.seq.wrapping_add(1);
        Some(packet)
    }

    /// The next datagram to send, or `None` while less than a whole frame is
    /// buffered (the caller then waits a little and asks again); it reads the
    /// ring's fill level and goes on as `packet_from`. A whole frame left in the
    /// ring at the consumer's last removal is always sent. Whatever level it reads,
    /// a datagram holds the oldest `FRAME_SIZE` queued samples under the current
    /// sequence number, which then advances by one (wrapping), and `None` leaves
    /// the ring and the sequence number as they were.
    pub fn next_packet(&mut self, cons: &mut SampleConsumer) -> (r: Option<Vec<u8>>)
        ensures
            settled(*old(cons)) >= FRAME_SIZE ==> r is Some,
            source(*final(cons)) == source(*old(cons)),
            consumer_inv(*old(cons)) ==> consumer_inv(*final(cons)),
            match r {
                Some(p) => {
                    &&& queued(*old(cons)).len() >= FRAME_SIZE
                    &&& p@ == packet_bytes(old(self).seq, queued(*old(cons)).take(FRAME_SIZE as int))
                    &&& queued(*old(cons)).skip(FRAME_SIZE as int).is_prefix_of(queued(*final(cons)))
                    &&& taken(*final(cons)) == taken(*old(cons)) + queued(*old(cons)).take(
                        FRAME_SIZE as int,
                    )
                    &&& final(self).seq == next_seq(old(self).seq)
                },
                None => {
                    &&& *final(cons) == *old(cons)
                    &&& final(self).seq == old(self).seq
                },
            },
    {
        let available = consumer_len(cons);
        self.packet_from(cons, available)
    }
}

/// The sequence number of the datagram sent after `k` others by a new sender.
pub open spec fn seq_after(k: nat) -> u32
    decreases k,
{
    if k == 0 {
        0
    } else {
        next_seq(seq_after((k - 1) as nat))
    }
}

/// A new sender numbers its datagrams 0, 1, 2, ... counting every datagram it
/// hands out, and wraps around instead of overflowing: the datagram after `k`
/// others carries `k mod 2^32`.
pub proof fn lemma_seq_after(k: nat)
    ensures
        seq_after(k) == k % 0x1_0000_0000,
    decreases k,
{
    if k > 0 {
        lemma_seq_after((k - 1) as nat);
        let m: int = 0x1_0000_0000;
        let a: int = k - 1;
        let kk: int = k as int;
        assert(a % m == u32::MAX ==> kk % m == 0) by (nonlinear_arith)
            requires
                m == 0x1_0000_0000,
                a >= 0,
                kk == a + 1,
        ;
        assert(a % m < u32::MAX ==> kk % m == a % m + 1) by (nonlinear_arith)
            requires
                m == 0x1_0000_0000,
                a >= 0,
                kk == a + 1,
        ;
    }
}

/// The frames one after another.
pub open spec fn frames_concat(frames: Seq<Seq<u32>>) -> Seq<u32>
    decreases frames.len(),
{
    if frames.len() == 0 {
        Seq::empty()
    } else {
        frames_concat(frames.drop_last()) + frames.last()
    }
}

proof fn lemma_frames_concat_layout(frames: Seq<Seq<u32>>)
    requires
        forall|i: int| 0 <= i < frames.len() ==> #[trigger] frames[i].len() == FRAME_SIZE,
    ensures
        frames_concat(frames).len() == FRAME_SIZE * frames.len(),
        forall|i: int, j: int|
            0 <= i < frames.len() && 0 <= j < FRAME_SIZE ==> #[trigger] frames_concat(frames)[i
                * FRAME_SIZE + j] == frames[i][j],
    decreases frames.len(),
{
    if frames.len() > 0 {
        let init = frames.drop_last();
        lemma_frames_concat_layout(init);
        let k = frames.len() - 1;
        assert(frames_concat(frames) == frames_concat(init) + frames.last());
        assert forall|i: int, j: int| 0 <= i < frames.len() && 0 <= j < FRAME_SIZE implies #[trigger] frames_concat(
            frames,
        )[i * FRAME_SIZE + j] == frames[i][j] by {
            assert(i * FRAME_SIZE + j < FRAME_SIZE * frames.len()) by (nonlinear_arith)
                requires
                    0 <= i < frames.len(),
                    0 <= j < FRAME_SIZE,
            ;
            if i < k {
                assert(init[i] == frames[i]);
                assert(i * FRAME_SIZE + j < FRAME_SIZE * k) by (nonlinear_arith)
                    requires
                        0 <= i < k,
                        0 <= j < FRAME_SIZE,
                ;
            } else {
                assert(i * FRAME_SIZE == FRAME_SIZE * k);
            }
        }
    }
}

/// What a sender sends is what was written into its ring, frame after frame:
/// when the frames its consumer has taken out of a ring (each datagram's
/// samples, see `next_packet`) are `frames`, and the ring's producer has pushed
/// at least that many samples, frame `i` is exactly the pushed samples
/// `FRAME_SIZE * i .. FRAME_SIZE * (i + 1)`; none is skipped, repeated or
/// reordered.
pub proof fn lemma_frames_follow_pushed(p: SampleProducer, c: SampleConsumer, frames: Seq<Seq<u32>>)
    requires
        same_ring(p, c),
        producer_inv(p),
        consumer_inv(c),
        taken(c) == frames_concat(frames),
        forall|i: int| 0 <= i < frames.len() ==> #[trigger] frames[i].len() == FRAME_SIZE,
        pushed(p).len() >= FRAME_SIZE * frames.len(),
    ensures
        forall|i: int|
            0 <= i < frames.len() ==> #[trigger] frames[i] == pushed(p).subrange(
                FRAME_SIZE * i,
                FRAME_SIZE * (i + 1),
            ),
{
    lemma_frames_concat_layout(frames);
    lemma_fifo(p, c);
    assert forall|i: int| 0 <= i < frames.len() implies #[trigger] frames[i] == pushed(p).subrange(
        FRAME_SIZE * i,
        FRAME_SIZE * (i + 1),
    ) by {
        assert(FRAME_SIZE * (i + 1) <= FRAME_SIZE * frames.len()) by (nonlinear_arith)
            requires
                0 <= i < frames.len(),
        ;
        assert forall|j: int| 0 <= j < FRAME_SIZE implies frames[i][j] == pushed(p).subrange(
            FRAME_SIZE * i,
            FRAME_SIZE * (i + 1),
        )[j] by {
            assert(frames_concat(frames)[i * FRAME_SIZE + j] == frames[i][j]);
            assert(i * FRAME_SIZE + j < FRAME_SIZE * frames.len()) by (nonlinear_arith)
                requires
                    0 <= i < frames.len(),
                    0 <= j < FRAME_SIZE,
            ;
            assert(FRAME_SIZE * i + j == i * FRAME_SIZE + j);
        }
        assert(frames[i] =~= pushed(p).subrange(FRAME_SIZE * i, FRAME_SIZE * (i + 1)));
    }
}

} // verus!
