use vstd::prelude::*;

verus! {

/// Bytes before the samples: the sequence number (4) and the sample count (2).
pub const HEADER_LEN: usize = 6;

/// The big-endian bytes of a `u32`.
pub open spec fn be_u32_bytes(x: u32) -> Seq<u8> {
    seq![(x >> 24u32) as u8, (x >> 16u32) as u8, (x >> 8u32) as u8, x as u8]
}

/// The big-endian bytes of a `u16`.
pub open spec fn be_u16_bytes(x: u16) -> Seq<u8> {
    seq![(x >> 8u16) as u8, x as u8]
}

/// The little-endian bytes of a `u32` (a sample's bit pattern).
pub open spec fn le_u32_bytes(x: u32) -> Seq<u8> {
    seq![x as u8, (x >> 8u32) as u8, (x >> 16u32) as u8, (x >> 24u32) as u8]
}

/// The big-endian `u32` that starts at `b[i]`.
pub open spec fn be_u32_at(b: Seq<u8>, i: int) -> u32 {
    ((b[i] as u32) << 24u32) | ((b[i + 1] as u32) << 16u32) | ((b[i + 2] as u32) << 8u32) | (
    b[i + 3] as u32)
}

/// The big-endian `u16` that starts at `b[i]`.
pub open spec fn be_u16_at(b: Seq<u8>, i: int) -> u16 {
    ((b[i] as u16) << 8u16) | (b[i + 1] as u16)
}

/// The little-endian `u32` that starts at `b[i]`.
pub open spec fn le_u32_at(b: Seq<u8>, i: int) -> u32 {
    (b[i] as u32) | ((b[i + 1] as u32) << 8u32) | ((b[i + 2] as u32) << 16u32) | ((b[i + 3] as u32)
        << 24u32)
}

/// The samples written one after another, each as its four little-endian bytes.
pub open spec fn samples_bytes(s: Seq<u32>) -> Seq<u8>
    decreases s.len(),
{
    if s.len() == 0 {
        Seq::empty()
    } else {
        samples_bytes(s.drop_last()) + le_u32_bytes(s.last())
    }
}

/// A datagram: `[seq u32 BE][count u16 BE][samples, each as 4 little-endian bytes]`.
pub open spec fn packet_bytes(seq: u32, samples: Seq<u32>) -> Seq<u8> {
    be_u32_bytes(seq) + be_u16_bytes(samples.len() as u16) + samples_bytes(samples)
}

/// Why a datagram was not accepted.
#[derive(Debug, Clone, Copy, PartialEq, Eq, Structural)]
pub enum PacketError {
    /// Fewer bytes than the header.
    TooShort,
    /// The header announces more sample bytes than the datagram carries.
    Incomplete { expected: usize, received: usize },
}

/// A decoded datagram. Samples are the bit patterns of the `f32` values.
pub struct Packet {
    pub seq: u32,
    pub count: u16,
    pub samples: Vec<u32>,
}

impl View for Packet {
    type V = (u32, u16, Seq<u32>);

    open spec fn view(&self) -> (u32, u16, Seq<u32>) {
        (self.seq, self.count, self.samples@)
    }
}

/// The first `count` samples that follow the header of `b`.
pub open spec fn decoded_samples(b: Seq<u8>, count: nat) -> Seq<u32> {
    Seq::new(count, |i: int| le_u32_at(b, HEADER_LEN + 4 * i))
}

/// What a datagram decodes to. Bytes past the announced samples are ignored.
pub open spec fn parse_packet(b: Seq<u8>) -> Result<(u32, u16, Seq<u32>), PacketError> {
    if b.len() < HEADER_LEN {
        Err(PacketError::TooShort)
    } else {
        let count = be_u16_at(b, 4);
        let received = b.len() - HEADER_LEN;
        if received < 4 * count {
            Err(PacketError::Incomplete { expected: (4 * count) as usize, received: received as usize })
        } else {
            Ok((be_u32_at(b, 0), count, decoded_samples(b, count as nat)))
        }
    }
}

proof fn lemma_le_u32_roundtrip(x: u32)
    ensures
        le_u32_at(le_u32_bytes(x), 0) == x,
{
    let b = le_u32_bytes(x);
    let b0 = x as u8;
    let b1 = (x >> 8u32) as u8;
    let b2 = (x >> 16u32) as u8;
    let b3 = (x >> 24u32) as u8;
    assert(b[0] == b0 && b[1] == b1 && b[2] == b2 && b[3] == b3);
    assert((b0 as u32) | ((b1 as u32) << 8u32) | ((b2 as u32) << 16u32) | ((b3 as u32) << 24u32)
        == x) by (bit_vector)
        requires
            b0 == x as u8,
            b1 == (x >> 8u32) as u8,
            b2 == (x >> 16u32) as u8,
            b3 == (x >> 24u32) as u8,
    ;
}

proof fn lemma_be_u32_roundtrip(x: u32)
    ensures
        be_u32_at(be_u32_bytes(x), 0) == x,
{
    let b = be_u32_bytes(x);
    let b0 = (x >> 24u32) as u8;
    let b1 = (x >> 16u32) as u8;
    let b2 = (x >> 8u32) as u8;
    let b3 = x as u8;
    assert(b[0] == b0 && b[1] == b1 && b[2] == b2 && b[3] == b3);
    assert(((b0 as u32) << 24u32) | ((b1 as u32) << 16u32) | ((b2 as u32) << 8u32) | (b3 as u32)
        == x) by (bit_vector)
        requires
            b0 == (x >> 24u32) as u8,
            b1 == (x >> 16u32) as u8,
            b2 == (x >> 8u32) as u8,
            b3 == x as u8,
    ;
}

proof fn lemma_be_u16_roundtrip(x: u16)
    ensures
        be_u16_at(be_u16_bytes(x), 0) == x,
{
    let b = be_u16_bytes(x);
    let b0 = (x >> 8u16) as u8;
    let b1 = x as u8;
    assert(b[0] == b0 && b[1] == b1);
    assert(((b0 as u16) << 8u16) | (b1 as u16) == x) by (bit_vector)
        requires
            b0 == (x >> 8u16) as u8,
            b1 == x as u8,
    ;
}

/// Where each sample's bytes stand in `samples_bytes`.
proof fn lemma_samples_bytes_layout(s: Seq<u32>)
    ensures
        samples_bytes(s).len() == 4 * s.len(),
        forall|i: int, k: int|
            0 <= i < s.len() && 0 <= k < 4 ==> #[trigger] samples_bytes(s)[4 * i + k]
                == le_u32_bytes(s[i])[k],
    decreases s.len(),
{
    if s.len() > 0 {
        lemma_samples_bytes_layout(s.drop_last());
        let p = samples_bytes(s.drop_last());
        assert forall|i: int, k: int| 0 <= i < s.len() && 0 <= k < 4 implies #[trigger] samples_bytes(
            s,
        )[4 * i + k] == le_u32_bytes(s[i])[k] by {
            if i < s.len() - 1 {
                assert(s.drop_last()[i] == s[i]);
                assert(samples_bytes(s)[4 * i + k] == p[4 * i + k]);
            } else {
                assert(samples_bytes(s)[4 * i + k] == le_u32_bytes(s.last())[k]);
            }
        }
    }
}

/// A packet's samples read back from `samples_bytes`.
proof fn lemma_samples_bytes_decode(s: Seq<u32>, b: Seq<u8>, off: int)
    requires
        0 <= off,
        b.len() >= off + 4 * s.len(),
        forall|j: int| 0 <= j < 4 * s.len() ==> #[trigger] b[off + j] == samples_bytes(s)[j],
    ensures
        forall|i: int| 0 <= i < s.len() ==> #[trigger] le_u32_at(b, off + 4 * i) == s[i],
{
    lemma_samples_bytes_layout(s);
    assert forall|i: int| 0 <= i < s.len() implies #[trigger] le_u32_at(b, off + 4 * i) == s[i] by {
        let e = le_u32_bytes(s[i]);
        assert(b[off + (4 * i + 0)] == samples_bytes(s)[4 * i + 0]);
        assert(b[off + (4 * i + 1)] == samples_bytes(s)[4 * i + 1]);
        assert(b[off + (4 * i + 2)] == samples_bytes(s)[4 * i + 2]);
        assert(b[off + (4 * i + 3)] == samples_bytes(s)[4 * i + 3]);
        assert(b[off + 4 * i] == e[0]);
        assert(b[off + 4 * i + 1] == e[1]);
        assert(b[off + 4 * i + 2] == e[2]);
        assert(b[off + 4 * i + 3] == e[3]);
        lemma_le_u32_roundtrip(s[i]);
        assert(le_u32_at(b, off + 4 * i) == le_u32_at(e, 0));
    }
}

/// A packet that `encode_packet` builds decodes to the same sequence number and
/// samples, whatever bytes follow it in the datagram buffer.
pub proof fn lemma_packet_roundtrip(seq: u32, samples: Seq<u32>, trailing: Seq<u8>)
    requires
        samples.len() <= u16::MAX,
    ensures
        parse_packet(packet_bytes(seq, samples) + trailing) == Ok::<(u32, u16, Seq<u32>), PacketError>(
            (seq, samples.len() as u16, samples),
        ),
{
    let count = samples.len() as u16;
    let sb = samples_bytes(samples);
    let b = packet_bytes(seq, samples) + trailing;
    lemma_samples_bytes_layout(samples);
    assert(b.len() == HEADER_LEN + 4 * samples.len() + trailing.len());
    let h = be_u32_bytes(seq);
    let c = be_u16_bytes(count);
    assert(b[0] == h[0] && b[1] == h[1] && b[2] == h[2] && b[3] == h[3]);
    assert(be_u32_at(b, 0) == be_u32_at(h, 0));
    lemma_be_u32_roundtrip(seq);
    assert(b[4] == c[0] && b[5] == c[1]);
    assert(be_u16_at(b, 4) == be_u16_at(c, 0));
    lemma_be_u16_roundtrip(count);
    assert(count as nat == samples.len());
    assert forall|j: int| 0 <= j < 4 * samples.len() implies #[trigger] b[HEADER_LEN + j] == sb[j] by {
        assert(b[HEADER_LEN + j] == (h + c + sb)[HEADER_LEN + j]);
    }
    lemma_samples_bytes_decode(samples, b, HEADER_LEN as int);
    assert(decoded_samples(b, count as nat) =~= samples);
}

/// Builds the datagram for one frame of samples.
pub fn encode_packet(seq: u32, samples: &[u32]) -> (out: Vec<u8>)
    requires
        samples.len() <= u16::MAX,
    ensures
        out@ == packet_bytes(seq, samples@),
{
    let count = samples.len() as u16;
    let mut out: Vec<u8> = Vec::with_capacity(HEADER_LEN + 4 * samples.len());
    out.push((seq >> 24u32) as u8);
    out.push((seq >> 16u32) as u8);
    out.push((seq >> 8u32) as u8);
    out.push(seq as u8);
    out.push((count >> 8u16) as u8);
    out.push(count as u8);
    assert(out@ =~= be_u32_bytes(seq) + be_u16_bytes(count) + samples_bytes(samples@.take(0)));
    let mut i: usize = 0;
    while i < samples.len()
        invariant
            i <= samples.len(),
            count == samples@.len() as u16,
            out@ == be_u32_bytes(seq) + be_u16_bytes(count) + samples_bytes(samples@.take(i as int)),
        decreases samples.len() - i,
    {
        let x = samples[i];
        out.push(x as u8);
        out.push((x >> 8u32) as u8);
        out.push((x >> 16u32) as u8);
        out.push((x >> 24u32) as u8);
        proof {
            let t = samples@.take(i + 1);
            assert(t.drop_last() =~= samples@.take(i as int));
            assert(t.last() == x);
            assert(out@ =~= be_u32_bytes(seq) + be_u16_bytes(count) + samples_bytes(t));
        }
        i = i + 1;
    }
    assert(samples@.take(samples.len() as int) =~= samples@);
    out
}

/// Reads one datagram. Bytes past the samples that the header announces are ignored.
pub fn decode_packet(buf: &[u8]) -> (r: Result<Packet, PacketError>)
    ensures
        match r {
            Ok(p) => parse_packet(buf@) == Ok::<(u32, u16, Seq<u32>), PacketError>(p@),
            Err(e) => parse_packet(buf@) == Err::<(u32, u16, Seq<u32>), PacketError>(e),
        },
{
    if buf.len() < HEADER_LEN {
        return Err(PacketError::TooShort);
    }
    let seq: u32 = ((buf[0] as u32) << 24u32) | ((buf[1] as u32) << 16u32) | ((buf[2] as u32)
        << 8u32) | (buf[3] as u32);
    let count: u16 = ((buf[4] as u16) << 8u16) | (buf[5] as u16);
    let n: usize = count as usize;
    let expected: usize = 4 * n;
    let received: usize = buf.len() - HEADER_LEN;
    if received < expected {
        return Err(PacketError::Incomplete { expected, received });
    }
    let mut samples: Vec<u32> = Vec::with_capacity(n);
    let mut i: usize = 0;
    while i < n
        invariant
            i <= n,
            n == count,
            HEADER_LEN + 4 * n <= buf.len(),
            samples@ == decoded_samples(buf@, i as nat),
        decreases n - i,
    {
        let o: usize = HEADER_LEN + 4 * i;
        let x: u32 = (buf[o] as u32) | ((buf[o + 1] as u32) << 8u32) | ((buf[o + 2] as u32)
            << 16u32) | ((buf[o + 3] as u32) << 24u32);
        samples.push(x);
        i = i + 1;
        assert(samples@ =~= decoded_samples(buf@, i as nat));
    }
    Ok(Packet { seq, count, samples })
}

} // verus!
