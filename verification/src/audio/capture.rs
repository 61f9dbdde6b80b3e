//! The sending end's input side: how the captured device frames are folded
//! down to the stereo stream, and how that stream enters the ring.
//!
//! The mixing weights are percentages; the caller evaluates them on the `f32`
//! samples, in the order given, then scales by `MIX_SCALE_PERCENT` and clamps
//! to [-1, 1].
use vstd::prelude::*;
use crate::ring::{producer_inv, producer_push_slice, pushed, room, stream, SampleProducer};

verus! {

/// Scaling applied after a mix, so that summed channels do not clip.
pub const MIX_SCALE_PERCENT: u32 = 70;

/// The channel LFE (bass) has in the Windows surround order
/// FL, FR, FC, LFE, BL, BR, SL, SR.
pub const LFE_CHANNEL: usize = 3;

/// Terms `(channel, weight in percent)` summed, in this order, for the left
/// output of a frame with `ch` channels (other than 2). Every layout of four or
/// more channels takes the LFE channel in, so no bass is lost: 3.1/quad and
/// 5.1 and 7.1 in the Windows order; five channels as 4.1 with a back centre;
/// seven as 6.1 with a back centre; more than eight as 7.1, the channels past
/// the eighth having no known place.
pub open spec fn left_terms(ch: nat) -> Seq<(usize, u32)> {
    if ch == 3 {
        seq![(0usize, 100u32), (2usize, 50u32)]
    } else if ch == 4 {
        seq![(0usize, 100u32), (2usize, 50u32), (3usize, 50u32)]
    } else if ch == 5 {
        seq![(0usize, 100u32), (2usize, 50u32), (3usize, 50u32), (4usize, 50u32)]
    } else if ch == 6 {
        seq![(0usize, 100u32), (2usize, 50u32), (3usize, 50u32), (4usize, 50u32)]
    } else if ch == 7 {
        seq![(0usize, 100u32), (2usize, 50u32), (3usize, 50u32), (4usize, 50u32), (6usize, 35u32)]
    } else if ch >= 8 {
        seq![(0usize, 100u32), (2usize, 50u32), (3usize, 50u32), (4usize, 35u32), (6usize, 35u32)]
    } else {
        seq![(0usize, 100u32)]
    }
}

/// Terms `(channel, weight in percent)` summed, in this order, for the right
/// output of a frame with `ch` channels (other than 2); see `left_terms`.
pub open spec fn right_terms(ch: nat) -> Seq<(usize, u32)> {
    if ch == 3 {
        seq![(1usize, 100u32), (2usize, 50u32)]
    } else if ch == 4 {
        seq![(1usize, 100u32), (2usize, 50u32), (3usize, 50u32)]
    } else if ch == 5 {
        seq![(1usize, 100u32), (2usize, 50u32), (3usize, 50u32), (4usize, 50u32)]
    } else if ch == 6 {
        seq![(1usize, 100u32), (2usize, 50u32), (3usize, 50u32), (5usize, 50u32)]
    } else if ch == 7 {
        seq![(1usize, 100u32), (2usize, 50u32), (3usize, 50u32), (5usize, 50u32), (6usize, 35u32)]
    } else if ch >= 8 {
        seq![(1usize, 100u32), (2usize, 50u32), (3usize, 50u32), (5usize, 35u32), (7usize, 35u32)]
    } else {
        seq![(0usize, 100u32)]
    }
}

/// How captured frames become stereo.
pub enum Downmix {
    /// The device is stereo: samples go into the ring as they are.
    PassThrough,
    /// Each frame of the device's channels gives one left and one right sample:
    /// the weighted sums of these terms, scaled by `MIX_SCALE_PERCENT` and
    /// clamped. A channel missing from a short last frame counts as silence.
    Mix { left: Vec<(usize, u32)>, right: Vec<(usize, u32)> },
}

/// The downmix for a capture device with `src_channels` interleaved channels:
/// mono is duplicated to both sides, stereo passes through, and surround
/// layouts fold centre, LFE and the rear and side channels into the fronts.
pub fn downmix_plan(src_channels: usize) -> (d: Downmix)
    requires
        src_channels > 0,
    ensures
        (d is PassThrough) == (src_channels == 2),
        d matches Downmix::Mix { left, right } ==> left@ == left_terms(src_channels as nat)
            && right@ == right_terms(src_channels as nat),
        d matches Downmix::Mix { left, right } ==> fronts_keep_sides(
            left@,
            right@,
            src_channels as nat,
        ),
{
    if src_channels == 2 {
        return Downmix::PassThrough;
    }
    let mut left: Vec<(usize, u32)> = Vec::new();
    let mut right: Vec<(usize, u32)> = Vec::new();
    if src_channels == 1 {
        left.push((0, 100));
        right.push((0, 100));
    } else {
        left.push((0, 100));
        right.push((1, 100));
        left.push((2, 50));
        right.push((2, 50));
        if src_channels >= 4 {
            left.push((3, 50));
            right.push((3, 50));
        }
        if src_channels == 5 {
            left.push((4, 50));
            right.push((4, 50));
        } else if src_channels == 6 || src_channels == 7 {
            left.push((4, 50));
            right.push((5, 50));
            if src_channels == 7 {
                left.push((6, 35));
                right.push((6, 35));
            }
        } else if src_channels >= 8 {
            left.push((4, 35));
            right.push((5, 35));
            left.push((6, 35));
            right.push((7, 35));
        }
    }
    assert(left@ =~= left_terms(src_channels as nat));
    assert(right@ =~= right_terms(src_channels as nat));
    proof {
        lemma_fronts_keep_sides(src_channels as nat);
    }
    Downmix::Mix { left, right }
}

/// The sides of a downmix stay where they are: each output starts from its own
/// front channel at full weight (mono feeds both), the front left never reaches
/// the right output nor the front right the left output, and with four or more
/// channels the LFE reaches both at 50%.
pub open spec fn fronts_keep_sides(left: Seq<(usize, u32)>, right: Seq<(usize, u32)>, ch: nat) -> bool {
    &&& left.len() > 0 && right.len() > 0
    &&& ch == 1 ==> left == right && left[0] == (0usize, 100u32)
    &&& ch >= 3 ==> {
        &&& left[0] == (0usize, 100u32)
        &&& right[0] == (1usize, 100u32)
        &&& forall|i: int| 0 <= i < left.len() ==> (#[trigger] left[i]).0 != 1
        &&& forall|i: int| 0 <= i < right.len() ==> (#[trigger] right[i]).0 != 0
    }
    &&& ch >= 4 ==> left.contains((LFE_CHANNEL, 50u32)) && right.contains((LFE_CHANNEL, 50u32))
}

/// For every source other than stereo, the downmix keeps left on the left and
/// right on the right: the left output is led by the front left channel at
/// full weight and never takes the front right, the right output the other way
/// round, mono feeds both sides alike, and from four channels on both sides get
/// the LFE.
pub proof fn lemma_fronts_keep_sides(ch: nat)
    requires
        ch > 0,
        ch != 2,
    ensures
        fronts_keep_sides(left_terms(ch), right_terms(ch), ch),
{
    if ch >= 4 {
        assert(left_terms(ch)[2] == (LFE_CHANNEL, 50u32));
        assert(right_terms(ch)[2] == (LFE_CHANNEL, 50u32));
    }
}

/// The mirror image of channel `c` in a frame of `ch` channels: the front
/// pair, and the back and side pairs where the layout has them, swap sides;
/// centre, LFE and a back centre stay.
pub open spec fn mirror(c: usize, ch: nat) -> usize {
    if c == 0 || (c == 4 && ch >= 6) || (c == 6 && ch >= 8) {
        (c + 1) as usize
    } else if c == 1 || (c == 5 && ch >= 6) || (c == 7 && ch >= 8) {
        (c - 1) as usize
    } else {
        c
    }
}

/// Properties of the downmix table. A mono source feeds both sides equally.
/// Every other source is mixed symmetrically: the right side is the left side
/// with each channel replaced by its mirror image, at the same weight. Every
/// layout of four or more channels brings the LFE channel to both sides at
/// 50%, so no bass is lost. No term reads past the frame's channels.
pub proof fn lemma_downmix_properties(ch: nat)
    requires
        ch > 0,
        ch != 2,
    ensures
        ch == 1 ==> left_terms(ch) == right_terms(ch),
        ch != 1 ==> left_terms(ch).len() == right_terms(ch).len() && forall|i: int|
            0 <= i < left_terms(ch).len() ==> (#[trigger] right_terms(ch)[i]).0 == mirror(
                left_terms(ch)[i].0,
                ch,
            ) && right_terms(ch)[i].1 == left_terms(ch)[i].1,
        ch >= 4 ==> left_terms(ch).contains((LFE_CHANNEL, 50u32)) && right_terms(ch).contains(
            (LFE_CHANNEL, 50u32),
        ),
        forall|i: int| 0 <= i < left_terms(ch).len() ==> (#[trigger] left_terms(ch)[i]).0 < ch,
        forall|i: int| 0 <= i < right_terms(ch).len() ==> (#[trigger] right_terms(ch)[i]).0 < ch,
{
    if ch >= 4 {
        assert(left_terms(ch)[2] == (LFE_CHANNEL, 50u32));
        assert(right_terms(ch)[2] == (LFE_CHANNEL, 50u32));
    }
}

/// Appends a stereo block to the ring, as much as fits, and returns how many
/// samples did not fit and were dropped.
pub fn push_stereo(prod: &mut SampleProducer, stereo: &[u32]) -> (dropped: usize)
    ensures
        dropped == if stereo.len() <= room(*old(prod)) {
            0
        } else {
            stereo.len() - room(*old(prod))
        },
        pushed(*final(prod)) == pushed(*old(prod)) + stereo@.take(stereo.len() - dropped),
        stream(*final(prod)) == stream(*old(prod)),
        producer_inv(*final(prod)),
{
    let written = producer_push_slice(prod, stereo);
    stereo.len() - written
}

} // verus!
