//! The sample ring shared by the two halves of a stream: one thread writes
//! samples (capture callback or network receiver), another reads them (network
//! sender or playback callback). Samples travel as the bit patterns of their
//! `f32` values.
//!
//! The ring is `ringbuf`'s lock-free single-producer single-consumer buffer.
//! Because the other half works concurrently, what one half sees depends on the
//! moment it looks. The names below are fixed by that moment:
//! * `free_places(r)` is the free space of a ring `r` not split yet.
//! * `queued(c)` is what the consumer `c` finds in the ring when it next removes
//!   items; the producer can only add to it in the meantime.
//! * `settled(c)` is how many items the consumer left in the ring at its own
//!   last removal; they stay there until it removes again.
//! * `taken(c)` is every item the consumer has removed so far, in order.
//! * `room(p)` is the free space the producer `p` finds when it next inserts
//!   items; the consumer can only enlarge it in the meantime.
//! * `pushed(p)` is every item that `p` has inserted so far, in order.
//! * `stream(p)` and `source(c)` are the ring's whole insertion stream over its
//!   life, by position: the same for the two halves of one ring.
//!
//! A ring is first in, first out: what its consumer has taken and what its
//! producer has pushed are both read off that one stream (`lemma_fifo`).
use vstd::prelude::*;

verus! {

/// A sample ring before it is split into its halves.
#[verifier::external_body]
pub struct SampleRing {
    inner: ringbuf::HeapRb<u32>,
}

/// The free places of a ring that has not been split yet.
pub uninterp spec fn free_places(r: SampleRing) -> nat;

/// The writing half of the sample ring.
#[verifier::external_body]
pub struct SampleProducer {
    inner: ringbuf::HeapProducer<u32>,
}

/// The reading half of the sample ring.
#[verifier::external_body]
pub struct SampleConsumer {
    inner: ringbuf::HeapConsumer<u32>,
}

/// The items, oldest first, that the consumer finds when it next removes items.
pub uninterp spec fn queued(c: SampleConsumer) -> Seq<u32>;

/// The items the consumer left in the ring at its own last removal.
pub uninterp spec fn settled(c: SampleConsumer) -> nat;

/// Every item the consumer has removed so far, oldest first.
pub uninterp spec fn taken(c: SampleConsumer) -> Seq<u32>;

/// Every item ever inserted into the consumer's ring, by position.
pub uninterp spec fn source(c: SampleConsumer) -> Map<int, u32>;

/// The free places the producer finds when it next inserts items.
pub uninterp spec fn room(p: SampleProducer) -> nat;

/// Every item the producer has inserted so far, oldest first.
pub uninterp spec fn pushed(p: SampleProducer) -> Seq<u32>;

/// Every item ever inserted into the producer's ring, by position.
pub uninterp spec fn stream(p: SampleProducer) -> Map<int, u32>;

/// `s` is the start of the insertion stream `m`.
pub open spec fn leads(s: Seq<u32>, m: Map<int, u32>) -> bool {
    forall|i: int| 0 <= i < s.len() ==> #[trigger] m.contains_key(i) && m[i] == s[i]
}

/// What holds of every producer: what it has inserted starts its ring's stream.
pub open spec fn producer_inv(p: SampleProducer) -> bool {
    leads(pushed(p), stream(p))
}

/// What holds of every consumer: what it has taken, followed by what it will
/// find queued, starts its ring's stream; and what it left behind is still
/// there.
pub open spec fn consumer_inv(c: SampleConsumer) -> bool {
    &&& leads(taken(c) + queued(c), source(c))
    &&& settled(c) <= queued(c).len()
}

/// `p` and `c` are the two halves of one ring.
pub open spec fn same_ring(p: SampleProducer, c: SampleConsumer) -> bool {
    stream(p) == source(c)
}

/// `ringbuf::HeapRb::new`: an empty ring of `capacity` places. It panics on a
/// zero capacity (and when the allocation fails). Claimed: all `capacity`
/// places are free.
#[verifier::external_body]
pub(crate) fn ring_new(capacity: usize) -> (r: SampleRing)
    requires
        capacity > 0,
    ensures
        free_places(r) == capacity,
{
    SampleRing { inner: ringbuf::HeapRb::<u32>::new(capacity) }
}

/// `ringbuf::SharedRb::split`: the writing and the reading half of the ring.
/// Claimed: the two halves share the ring's insertion stream; neither has
/// inserted or removed anything yet; and, since nothing can be removed before
/// something is inserted, the producer finds the ring's free places free.
#[verifier::external_body]
pub(crate) fn ring_split(r: SampleRing) -> (halves: (SampleProducer, SampleConsumer))
    ensures
        room(halves.0) == free_places(r),
        pushed(halves.0) == Seq::<u32>::empty(),
        taken(halves.1) == Seq::<u32>::empty(),
        settled(halves.1) == 0,
        same_ring(halves.0, halves.1),
        producer_inv(halves.0),
        consumer_inv(halves.1),
{
    let (p, c) = r.inner.split();
    (SampleProducer { inner: p }, SampleConsumer { inner: c })
}

/// `ringbuf::Producer::push_slice`: inserts the longest prefix of `elems` that
/// fits in the free space and returns its length. Claimed: that length is
/// `min(elems.len(), free space)`, exactly that prefix is appended to what the
/// producer has inserted (and so to the ring's stream), and the free space left
/// shrinks by no more than that.
#[verifier::external_body]
pub(crate) fn producer_push_slice(p: &mut SampleProducer, elems: &[u32]) -> (n: usize)
    ensures
        n as nat == if elems.len() < room(*old(p)) {
            elems.len() as nat
        } else {
            room(*old(p))
        },
        pushed(*final(p)) == pushed(*old(p)) + elems@.take(n as int),
        room(*final(p)) + n >= room(*old(p)),
        stream(*final(p)) == stream(*old(p)),
        producer_inv(*final(p)),
{
    p.inner.push_slice(elems)
}

/// `ringbuf::Producer::len`: the number of items in the ring at the moment,
/// which the consumer may have lowered already. Nothing is claimed of it.
#[verifier::external_body]
pub(crate) fn producer_len(p: &SampleProducer) -> (n: usize) {
    p.inner.len()
}

/// `ringbuf::Consumer::len`: the number of items in the ring at the moment.
/// Claimed: it is at least what the consumer left there at its last removal
/// (only the consumer removes), and the consumer finds at least that many when
/// it next removes items (the producer can only add).
#[verifier::external_body]
pub(crate) fn consumer_len(c: &SampleConsumer) -> (n: usize)
    ensures
        settled(*c) <= n <= queued(*c).len(),
{
    c.inner.len()
}

/// `ringbuf::Consumer::pop_slice`: moves the oldest items into the front of
/// `buf`, as many as fit and are there, and returns how many. Claimed: that
/// count is `min(buf.len(), items queued)`, they are the oldest queued items in
/// order, they are appended to what the consumer has taken, the rest of `buf`
/// is untouched, what stays in the ring is still first in line afterwards and
/// is what the consumer leaves behind.
#[verifier::external_body]
pub(crate) fn consumer_pop_slice(c: &mut SampleConsumer, buf: &mut Vec<u32>) -> (n: usize)
    ensures
        n as nat == if old(buf).len() < queued(*old(c)).len() {
            old(buf).len() as nat
        } else {
            queued(*old(c)).len()
        },
        final(buf)@ == queued(*old(c)).take(n as int) + old(buf)@.skip(n as int),
        queued(*old(c)).skip(n as int).is_prefix_of(queued(*final(c))),
        taken(*final(c)) == taken(*old(c)) + queued(*old(c)).take(n as int),
        settled(*final(c)) == queued(*old(c)).len() - n,
        source(*final(c)) == source(*old(c)),
        consumer_inv(*final(c)),
{
    c.inner.pop_slice(buf.as_mut_slice())
}

} // verus!

verus! {

/// A fresh sample ring of `RING_CAPACITY` places, split into its two halves.
pub fn new_sample_ring() -> (r: (SampleProducer, SampleConsumer))
    ensures
        room(r.0) == crate::audio::RING_CAPACITY,
        pushed(r.0) == Seq::<u32>::empty(),
        taken(r.1) == Seq::<u32>::empty(),
        settled(r.1) == 0,
        same_ring(r.0, r.1),
        producer_inv(r.0),
        consumer_inv(r.1),
{
    ring_split(ring_new(crate::audio::RING_CAPACITY))
}

/// The ring is first in, first out: of what the producer has pushed and what
/// the consumer has taken out of the same ring, the shorter is the start of the
/// longer. The consumer gets back exactly what was written, in order, with
/// nothing skipped, repeated or reordered.
pub proof fn lemma_fifo(p: SampleProducer, c: SampleConsumer)
    requires
        same_ring(p, c),
        producer_inv(p),
        consumer_inv(c),
    ensures
        taken(c).len() <= pushed(p).len() ==> taken(c) == pushed(p).take(taken(c).len() as int),
        pushed(p).len() <= taken(c).len() ==> pushed(p) == taken(c).take(pushed(p).len() as int),
{
    let t = taken(c);
    let q = queued(c);
    let s = pushed(p);
    assert forall|i: int| 0 <= i < t.len() && i < s.len() implies t[i] == s[i] by {
        assert(source(c).contains_key(i));
        assert((t + q)[i] == t[i]);
    }
    if t.len() <= s.len() {
        assert(t =~= s.take(t.len() as int));
    }
    if s.len() <= t.len() {
        assert(s =~= t.take(s.len() as int));
    }
}

} // verus!
