//! The receiving end's output callback: a jitter gate that holds playback back
//! until enough audio is buffered, and the spreading of the stereo stream over
//! the output device's speakers.
//!
//! Samples stay the bit patterns of their `f32` values; where a speaker gets
//! the average of left and right (`Mid`), the caller computes `(l + r) * 0.5`.
use vstd::prelude::*;
use crate::ring::{
    consumer_inv, consumer_len, consumer_pop_slice, queued, settled, source, taken, SampleConsumer,
};

verus! {

/// Least jitter buffering, in milliseconds, whatever the configuration asks.
pub const MIN_BUFFER_MS: u32 = 20;

/// Interleaved stereo samples in `buffer_size_ms` (at least `MIN_BUFFER_MS`)
/// at `sample_rate`, counting whole samples per millisecond.
pub open spec fn jitter_threshold(buffer_size_ms: u32, sample_rate: u32) -> int {
    let ms: int = if buffer_size_ms < MIN_BUFFER_MS {
        MIN_BUFFER_MS as int
    } else {
        buffer_size_ms as int
    };
    ms * (sample_rate / 1000) * 2
}

/// How many stereo samples must be buffered before playback starts.
pub fn fill_threshold(buffer_size_ms: u32, sample_rate: u32) -> (t: usize)
    requires
        jitter_threshold(buffer_size_ms, sample_rate) <= usize::MAX,
    ensures
        t == jitter_threshold(buffer_size_ms, sample_rate),
        t >= MIN_BUFFER_MS * (sample_rate / 1000) * 2,
{
    let ms: usize = if buffer_size_ms < MIN_BUFFER_MS {
        MIN_BUFFER_MS as usize
    } else {
        buffer_size_ms as usize
    };
    let per_ms: usize = (sample_rate / 1000) as usize;
    proof {
        let a = ms as int;
        let b = per_ms as int;
        assert(a * b * 2 <= usize::MAX);
        assert(0 <= a * b <= a * b * 2) by (nonlinear_arith)
            requires
                a >= 0,
                b >= 0,
        ;
        assert(a * b >= MIN_BUFFER_MS * b) by (nonlinear_arith)
            requires
                a >= MIN_BUFFER_MS,
                b >= 0,
        ;
    }
    ms * per_ms * 2
}

/// What an output callback does.
#[derive(Debug, Clone, Copy, PartialEq, Eq, Structural)]
pub enum GateAction {
    /// Write silence: the jitter buffer is still filling, or it ran dry.
    Silence,
    /// Take samples from the ring (`fill_output`).
    Play,
}

/// The jitter gate of the output callback.
pub struct PlaybackGate {
    /// Whether the jitter buffer has been filled once and playback has started.
    pub started: bool,
    /// Stereo samples to buffer before playback (re)starts.
    pub threshold: usize,
}

impl PlaybackGate {
    /// A gate that waits for `fill_threshold(buffer_size_ms, sample_rate)` samples.
    pub fn new(buffer_size_ms: u32, sample_rate: u32) -> (g: Self)
        requires
            jitter_threshold(buffer_size_ms, sample_rate) <= usize::MAX,
        ensures
            !g.started,
            g.threshold == jitter_threshold(buffer_size_ms, sample_rate),
    {
        PlaybackGate { started: false, threshold: fill_threshold(buffer_size_ms, sample_rate) }
    }

    /// A gate as `new` makes it, or `None` when the threshold does not fit a `usize`.
    pub fn try_new(buffer_size_ms: u32, sample_rate: u32) -> (g: Option<Self>)
        ensures
            (g is Some) == (jitter_threshold(buffer_size_ms, sample_rate) <= usize::MAX),
            g matches Some(gate) ==> !gate.started && gate.threshold == jitter_threshold(
                buffer_size_ms,
                sample_rate,
            ),
    {
        let ms: usize = if buffer_size_ms < MIN_BUFFER_MS {
            MIN_BUFFER_MS as usize
        } else {
            buffer_size_ms as usize
        };
        let per_ms: usize = (sample_rate / 1000) as usize;
        match ms.checked_mul(per_ms) {
            None => {
                proof {
                    let a = ms as int;
                    let b = per_ms as int;
                    assert(a * b * 2 >= a * b) by (nonlinear_arith)
                        requires
                            a >= 0,
                            b >= 0,
                    ;
                }
                None
            },
            Some(x) => match x.checked_mul(2) {
                None => None,
                Some(_) => Some(PlaybackGate::new(buffer_size_ms, sample_rate)),
            },
        }
    }

    /// Decides one output callback from the ring's fill level, read at the
    /// start (`level`, only looked at before playback has started) and again
    /// (`level_now`); see `gate_step`.
    pub fn decide(&mut self, level: usize, level_now: usize) -> (a: GateAction)
        ensures
            final(self).threshold == old(self).threshold,
            (final(self).started, a) == gate_step(
                old(self).started,
                old(self).threshold as nat,
                level as nat,
                level_now as nat,
            ),
    {
        if !self.started {
            if level < self.threshold {
                return GateAction::Silence;
            }
            self.started = true;
        }
        if level_now == 0 {
            return GateAction::Silence;
        }
        GateAction::Play
    }

    /// Decides one output callback, reading the ring's fill level as it goes.
    /// It never plays from an empty ring, it starts playing only once
    /// `threshold` samples are buffered, and from then on it plays whenever
    /// anything is buffered: what the consumer left in the ring at its last
    /// removal is always played.
    pub fn on_callback(&mut self, cons: &SampleConsumer) -> (a: GateAction)
        ensures
            final(self).threshold == old(self).threshold,
            exists|level: nat, level_now: nat|
                #![trigger gate_step(old(self).started, old(self).threshold as nat, level, level_now)]
                level <= queued(*cons).len() && level_now <= queued(*cons).len() && (old(
                    self,
                ).started || settled(*cons) <= level) && settled(*cons) <= level_now && (
                final(self).started,
                a,
            ) == gate_step(old(self).started, old(self).threshold as nat, level, level_now),
            old(self).started ==> final(self).started,
            a == GateAction::Play ==> final(self).started,
            a == GateAction::Play ==> queued(*cons).len() > 0,
            a == GateAction::Play && !old(self).started ==> queued(*cons).len() >= old(
                self,
            ).threshold,
            old(self).started && settled(*cons) > 0 ==> a == GateAction::Play,
            !old(self).started && settled(*cons) > 0 && settled(*cons) >= old(self).threshold
                ==> a == GateAction::Play,
    {
        let level = if self.started {
            0
        } else {
            consumer_len(cons)
        };
        let level_now = if !self.started && level < self.threshold {
            level
        } else {
            consumer_len(cons)
        };
        let ghost before = *self;
        let a = self.decide(level, level_now);
        assert(gate_step(before.started, before.threshold as nat, level as nat, level_now as nat)
            == (self.started, a));
        a
    }
}

/// The jitter gate's decision. Before playback has started it stays silent
/// while fewer than `threshold` samples are buffered: the jitter buffer is
/// filled once. From then on it plays whenever anything is buffered and is
/// silent only while the ring is empty, without waiting for the threshold again.
pub open spec fn gate_step(started: bool, threshold: nat, level: nat, level_now: nat) -> (
    bool,
    GateAction,
) {
    if !started && level < threshold {
        (false, GateAction::Silence)
    } else if level_now == 0 {
        (true, GateAction::Silence)
    } else {
        (true, GateAction::Play)
    }
}

/// One output sample, before it is turned into an `f32`.
#[derive(Debug, Clone, Copy, PartialEq, Eq, Structural)]
pub enum OutSample {
    /// Silence (0.0).
    Silence,
    /// This sample of the stream.
    Sample(u32),
    /// The average of a left and a right sample, `(l + r) * 0.5`.
    Mid(u32, u32),
}

/// `n` silent samples.
pub open spec fn silence(n: nat) -> Seq<OutSample> {
    Seq::new(n, |i: int| OutSample::Silence)
}

/// The frame that a stereo pair `(l, r)` becomes on a device with `ch` speakers
/// (other than 2), in the Windows order FL, FR, FC, LFE, BL, BR, SL, SR.
/// Centre and LFE get the average, so the subwoofer is fed; layouts without a
/// known order get the average on every speaker.
pub open spec fn surround_frame(ch: nat, l: u32, r: u32) -> Seq<OutSample> {
    let (sl, sr, m) = (OutSample::Sample(l), OutSample::Sample(r), OutSample::Mid(l, r));
    if ch == 1 {
        seq![m]
    } else if ch == 4 {
        seq![sl, sr, sl, sr]
    } else if ch == 6 {
        seq![sl, sr, m, m, sl, sr]
    } else if ch == 8 {
        seq![sl, sr, m, m, sl, sr, sl, sr]
    } else {
        Seq::new(ch, |i: int| m)
    }
}

/// `out` is, frame by frame, either a silent frame or the surround frame of the
/// next pair of `taken`, and `taken` is used up. The last frame may be short.
pub open spec fn surround_output(out: Seq<OutSample>, ch: nat, taken: Seq<u32>) -> bool
    decreases out.len(),
{
    if out.len() == 0 {
        taken.len() == 0
    } else if ch == 0 {
        false
    } else {
        let n: nat = if out.len() < ch {
            out.len()
        } else {
            ch
        };
        let frame = out.take(n as int);
        let rest = out.skip(n as int);
        ||| frame == silence(n) && surround_output(rest, ch, taken)
        ||| taken.len() >= 2 && frame == surround_frame(ch, taken[0], taken[1]).take(n as int)
            && surround_output(rest, ch, taken.skip(2))
    }
}

/// `out` is the samples of `taken`, then silence.
pub open spec fn stereo_output(out: Seq<OutSample>, taken: Seq<u32>) -> bool {
    &&& taken.len() <= out.len()
    &&& forall|i: int| 0 <= i < taken.len() ==> out[i] == OutSample::Sample(#[trigger] taken[i])
    &&& forall|i: int| taken.len() <= i < out.len() ==> #[trigger] out[i] == OutSample::Silence
}

/// What a device with `out_channels` speakers plays when `taken` was taken
/// from the ring: stereo goes straight through, other layouts go frame by frame.
pub open spec fn output_from(out: Seq<OutSample>, out_channels: nat, taken: Seq<u32>) -> bool {
    if out_channels == 2 {
        stereo_output(out, taken)
    } else {
        surround_output(out, out_channels, taken)
    }
}

proof fn lemma_surround_append(out: Seq<OutSample>, ch: nat, taken: Seq<u32>, k: nat, frame: Seq<
    OutSample,
>, more: Seq<u32>)
    requires
        ch > 0,
        out.len() == k * ch,
        surround_output(out, ch, taken),
        1 <= frame.len() <= ch,
        (frame == silence(frame.len()) && more.len() == 0) || (more.len() == 2 && frame
            == surround_frame(ch, more[0], more[1]).take(frame.len() as int)),
    ensures
        surround_output(out + frame, ch, taken + more),
    decreases k,
{
    let whole = out + frame;
    if k == 0 {
        assert(out.len() == 0) by (nonlinear_arith)
            requires
                out.len() == k * ch,
                k == 0,
        ;
        assert(whole =~= frame);
        assert(taken.len() == 0);
        assert(taken + more =~= more);
        let n: nat = frame.len();
        assert(whole.take(n as int) =~= frame);
        assert(whole.skip(n as int) =~= Seq::<OutSample>::empty());
        assert(surround_output(Seq::<OutSample>::empty(), ch, Seq::<u32>::empty()));
        if more.len() == 2 {
            assert(more.skip(2) =~= Seq::<u32>::empty());
        } else {
            assert(more =~= Seq::<u32>::empty());
        }
    } else {
        assert(out.len() >= ch) by (nonlinear_arith)
            requires
                out.len() == k * ch,
                k >= 1,
        ;
        assert(out.skip(ch as int).len() == (k - 1) as nat * ch) by (nonlinear_arith)
            requires
                out.len() == k * ch,
                k >= 1,
                out.skip(ch as int).len() == out.len() - ch,
        ;
        assert(whole.take(ch as int) =~= out.take(ch as int));
        assert(whole.skip(ch as int) =~= out.skip(ch as int) + frame);
        let rest = out.skip(ch as int);
        if out.take(ch as int) == silence(ch) && surround_output(rest, ch, taken) {
            lemma_surround_append(rest, ch, taken, (k - 1) as nat, frame, more);
        } else {
            assert(taken.len() >= 2);
            lemma_surround_append(rest, ch, taken.skip(2), (k - 1) as nat, frame, more);
            assert((taken + more).skip(2) =~= taken.skip(2) + more);
            assert((taken + more)[0] == taken[0]);
            assert((taken + more)[1] == taken[1]);
        }
    }
}

/// The full surround frame for a stereo pair on `ch` speakers.
fn surround_frame_exec(ch: usize, l: u32, r: u32) -> (f: Vec<OutSample>)
    requires
        ch > 0,
    ensures
        f@ == surround_frame(ch as nat, l, r),
{
    let sl = OutSample::Sample(l);
    let sr = OutSample::Sample(r);
    let m = OutSample::Mid(l, r);
    let mut f: Vec<OutSample> = Vec::new();
    if ch == 1 {
        f.push(m);
        assert(f@ =~= seq![m]);
    } else if ch == 4 {
        f.push(sl);
        f.push(sr);
        f.push(sl);
        f.push(sr);
        assert(f@ =~= seq![sl, sr, sl, sr]);
    } else if ch == 6 {
        f.push(sl);
        f.push(sr);
        f.push(m);
        f.push(m);
        f.push(sl);
        f.push(sr);
        assert(f@ =~= seq![sl, sr, m, m, sl, sr]);
    } else if ch == 8 {
        f.push(sl);
        f.push(sr);
        f.push(m);
        f.push(m);
        f.push(sl);
        f.push(sr);
        f.push(sl);
        f.push(sr);
        assert(f@ =~= seq![sl, sr, m, m, sl, sr, sl, sr]);
    } else {
        let mut i: usize = 0;
        while i < ch
            invariant
                i <= ch,
                f@ == Seq::new(i as nat, |j: int| m),
            decreases ch - i,
        {
            f.push(m);
            i = i + 1;
            assert(f@ =~= Seq::new(i as nat, |j: int| m));
        }
    }
    f
}

/// The stereo fast path: takes `min(out_len, available)` samples from the ring
/// and passes them through, then pads with silence. `available` is a fill level
/// the consumer has read.
pub fn fill_stereo(cons: &mut SampleConsumer, out_len: usize, available: usize) -> (out: Vec<
    OutSample,
>)
    requires
        available <= queued(*old(cons)).len(),
    ensures
        ({
            let k = if out_len < available {
                out_len
            } else {
                available
            };
            &&& out.len() == out_len
            &&& stereo_output(out@, queued(*old(cons)).take(k as int))
            &&& queued(*old(cons)).skip(k as int).is_prefix_of(queued(*final(cons)))
            &&& taken(*final(cons)) == taken(*old(cons)) + queued(*old(cons)).take(k as int)
        }),
        source(*final(cons)) == source(*old(cons)),
        consumer_inv(*final(cons)),
{
    let to_read = if out_len < available {
        out_len
    } else {
        available
    };
    let mut buf: Vec<u32> = vec![0u32; to_read];
    let n = consumer_pop_slice(cons, &mut buf);
    assert(n == to_read);
    let ghost taken = buf@;
    assert(taken =~= queued(*old(cons)).take(n as int));
    let mut out: Vec<OutSample> = Vec::new();
    let mut i: usize = 0;
    while i < out_len
        invariant
            i <= out_len,
            n == to_read <= out_len,
            buf@ == taken,
            taken.len() == n,
            out@.len() == i,
            forall|j: int| 0 <= j < i && j < n ==> out@[j] == OutSample::Sample(taken[j]),
            forall|j: int| n <= j < i ==> out@[j] == OutSample::Silence,
        decreases out_len - i,
    {
        if i < to_read {
            out.push(OutSample::Sample(buf[i]));
        } else {
            out.push(OutSample::Silence);
        }
        i = i + 1;
    }
    out
}

/// One output frame of `n` samples (the whole frame, or a short last one) on a
/// device with `ch` speakers: when `available` (a fill level the consumer has
/// read) shows a stereo pair, the pair is taken and spread over the speakers;
/// otherwise the frame is silent and the ring is left alone.
pub fn fill_surround_frame(cons: &mut SampleConsumer, ch: usize, n: usize, available: usize) -> (out:
    Vec<OutSample>)
    requires
        1 <= n <= ch,
        available <= queued(*old(cons)).len(),
    ensures
        available >= 2 ==> {
            let q = queued(*old(cons));
            &&& out@ == surround_frame(ch as nat, q[0], q[1]).take(n as int)
            &&& q.skip(2).is_prefix_of(queued(*final(cons)))
            &&& taken(*final(cons)) == taken(*old(cons)) + q.take(2)
            &&& settled(*final(cons)) == q.len() - 2
        },
        available < 2 ==> out@ == silence(n as nat) && *final(cons) == *old(cons),
        source(*final(cons)) == source(*old(cons)),
        consumer_inv(*old(cons)) ==> consumer_inv(*final(cons)),
{
    let ghost q = queued(*old(cons));
    let mut frame: Vec<OutSample>;
    if available >= 2 {
        let mut stereo: Vec<u32> = vec![0u32; 2];
        let got = consumer_pop_slice(cons, &mut stereo);
        assert(got == 2);
        assert(stereo@ =~= q.take(2));
        frame = surround_frame_exec(ch, stereo[0], stereo[1]);
    } else {
        frame = Vec::new();
        let mut j: usize = 0;
        while j < ch
            invariant
                j <= ch,
                frame@ == silence(j as nat),
            decreases ch - j,
        {
            frame.push(OutSample::Silence);
            j = j + 1;
            assert(frame@ =~= silence(j as nat));
        }
    }
    let mut out: Vec<OutSample> = Vec::new();
    let mut j: usize = 0;
    while j < n
        invariant
            j <= n,
            n <= frame.len(),
            out@ == frame@.take(j as int),
        decreases n - j,
    {
        out.push(frame[j]);
        j = j + 1;
        assert(out@ =~= frame@.take(j as int));
    }
    proof {
        if available < 2 {
            assert(out@ =~= silence(n as nat));
        }
    }
    out
}

/// Where frame `k` ends in an output of `len` samples on `ch` speakers: after
/// `ch` samples, or at the end of the output for a short last frame.
pub open spec fn frame_end(k: int, ch: nat, len: nat) -> int {
    if (k + 1) * ch < len {
        (k + 1) * ch
    } else {
        len as int
    }
}

/// Frame `k` of `out` is the surround frame of the pair `src[2k]`, `src[2k + 1]`
/// (cut short if it is the last frame and the output ends early).
pub open spec fn pair_frame_at(out: Seq<OutSample>, ch: nat, k: int, src: Seq<u32>) -> bool {
    let start = k * ch;
    let end = frame_end(k, ch, out.len());
    out.subrange(start, end) == surround_frame(ch, src[2 * k], src[2 * k + 1]).take(end - start)
}

/// How many of the pairs left in the ring at the consumer's last removal the
/// first `k` frames have used up.
spec fn pairs_done(k: int, settled: int) -> int {
    if 2 * k <= settled {
        k
    } else {
        settled / 2
    }
}

/// Taking `more` off the front of `q` keeps `q0` first in line.
proof fn lemma_prefix_step(q0: Seq<u32>, got: Seq<u32>, q: Seq<u32>, more: Seq<u32>, q_new: Seq<u32>)
    requires
        q0.is_prefix_of(got + q),
        (q.len() >= 2 && more == q.take(2) && q.skip(2).is_prefix_of(q_new)) || (more.len() == 0
            && q_new == q),
    ensures
        q0.is_prefix_of((got + more) + q_new),
{
    if more.len() == 0 {
        assert(got + more =~= got);
    } else {
        assert forall|i: int| 0 <= i < q0.len() implies q0[i] == ((got + more) + q_new)[i] by {
            assert(q0[i] == (got + q)[i]);
            if i >= got.len() + 2 {
                assert(q_new[i - got.len() - 2] == q.skip(2)[i - got.len() - 2]);
            }
        }
    }
}

proof fn lemma_frame_arith(j: int, k: int, ch: int)
    requires
        0 <= j < k,
        ch > 0,
    ensures
        (j + 1) * ch <= k * ch,
        (k + 1) * ch == k * ch + ch,
        j * ch + ch == (j + 1) * ch,
        0 <= j * ch,
{
    assert((j + 1) * ch <= k * ch) by (nonlinear_arith)
        requires
            j < k,
            ch > 0,
    ;
    assert((k + 1) * ch == k * ch + ch) by (nonlinear_arith);
    assert(j * ch + ch == (j + 1) * ch) by (nonlinear_arith);
    assert(0 <= j * ch) by (nonlinear_arith)
        requires
            0 <= j,
            ch > 0,
    ;
}

/// Fills an output buffer of `out_len` samples for a device with `out_channels`
/// speakers from the stereo ring, reading the fill level as it goes.
///
/// Stereo: as many samples as are buffered (up to `out_len`) go straight
/// through, the rest is silence (`fill_stereo`). Other layouts: frame by frame,
/// a stereo pair is taken when one is buffered and spread over the speakers,
/// otherwise the frame is silent (`fill_surround_frame`).
///
/// Whatever the fill levels read, what is taken from the ring is what was
/// queued, in order: the items queued at the call come first in what was taken
/// followed by what is still queued. What the consumer left in the ring at its
/// last removal is always played: in stereo, those samples come first; on other
/// layouts, frame `k` is the surround frame of the `k`-th of those pairs.
pub fn fill_output(cons: &mut SampleConsumer, out_len: usize, out_channels: usize) -> (out: Vec<
    OutSample,
>)
    requires
        out_channels > 0,
        out_channels == 4 || out_channels == 6 || out_channels == 8 ==> out_len % out_channels
            == 0,
    ensures
        out.len() == out_len,
        exists|t: Seq<u32>|
            #![trigger output_from(out@, out_channels as nat, t)]
            output_from(out@, out_channels as nat, t) && queued(*old(cons)).is_prefix_of(
                t + queued(*final(cons)),
            ) && taken(*final(cons)) == taken(*old(cons)) + t,
        out_channels == 2 ==> exists|t: Seq<u32>|
            #![trigger stereo_output(out@, t)]
            t.is_prefix_of(queued(*old(cons))) && stereo_output(out@, t) && taken(*final(cons))
                == taken(*old(cons)) + t,
        out_channels == 2 ==> forall|i: int|
            0 <= i < out_len && i < settled(*old(cons)) ==> (#[trigger] out@[i]) is Sample,
        out_channels != 2 ==> forall|k: int|
            #![trigger pair_frame_at(out@, out_channels as nat, k, queued(*old(cons)))]
            0 <= k && 2 * (k + 1) <= settled(*old(cons)) && k * out_channels < out_len ==> {
                &&& pair_frame_at(out@, out_channels as nat, k, queued(*old(cons)))
                &&& taken(*final(cons))[taken(*old(cons)).len() + 2 * k] == queued(*old(cons))[2
                    * k]
                &&& taken(*final(cons))[taken(*old(cons)).len() + 2 * k + 1] == queued(
                    *old(cons),
                )[2 * k + 1]
            },
        source(*final(cons)) == source(*old(cons)),
        consumer_inv(*old(cons)) ==> consumer_inv(*final(cons)),
{
    if out_channels == 2 {
        let available = consumer_len(cons);
        let out = fill_stereo(cons, out_len, available);
        proof {
            let k = if out_len < available {
                out_len
            } else {
                available
            };
            let t = queued(*old(cons)).take(k as int);
            assert(queued(*old(cons)) =~= t + queued(*old(cons)).skip(k as int));
            assert(output_from(out@, 2, t));
            assert(t.is_prefix_of(queued(*old(cons))));
            assert(stereo_output(out@, t));
            assert forall|i: int| 0 <= i < out_len && i < settled(*old(cons)) implies (
            #[trigger] out@[i]) is Sample by {
                assert(i < t.len());
                assert(out@[i] == OutSample::Sample(t[i]));
            }
        }
        return out;
    }
    let mut out: Vec<OutSample> = Vec::new();
    let ghost mut got: Seq<u32> = Seq::empty();
    let ghost mut k: nat = 0;
    let ghost s0: int = settled(*old(cons)) as int;
    let ghost q0 = queued(*old(cons));
    let ghost ch: int = out_channels as int;
    let mut pos: usize = 0;
    proof {
        assert(surround_output(out@, out_channels as nat, got));
        assert(queued(*old(cons)) =~= got + queued(*cons));
    }
    while pos < out_len
        invariant
            out_channels > 0,
            out_channels != 2,
            out_channels == 4 || out_channels == 6 || out_channels == 8 ==> out_len
                % out_channels == 0,
            pos <= out_len,
            out@.len() == pos,
            pos < out_len ==> pos == k * out_channels,
            pos == if k * ch < out_len {
                k * ch
            } else {
                out_len as int
            },
            ch == out_channels,
            s0 == settled(*old(cons)),
            q0 == queued(*old(cons)),
            k == 0 ==> *cons == *old(cons),
            k > 0 ==> q0.len() >= s0,
            forall|j: int|
                0 <= j < k && 2 * (j + 1) <= s0 ==> #[trigger] pair_frame_at(out@, ch as nat, j, q0),
            got.len() >= 2 * pairs_done(k as int, s0),
            got.take(2 * pairs_done(k as int, s0)) == q0.take(2 * pairs_done(k as int, s0)),
            2 * k <= s0 ==> got == q0.take(2 * k as int) && settled(*cons) + 2 * k >= s0,
            surround_output(out@, out_channels as nat, got),
            queued(*old(cons)).is_prefix_of(got + queued(*cons)),
            taken(*cons) == taken(*old(cons)) + got,
            source(*cons) == source(*old(cons)),
            consumer_inv(*old(cons)) ==> consumer_inv(*cons),
        decreases out_len - pos,
    {
        let n: usize = if out_len - pos < out_channels {
            out_len - pos
        } else {
            out_channels
        };
        let ghost before = out@;
        let ghost q = queued(*cons);
        let available = consumer_len(cons);
        let frame = fill_surround_frame(cons, out_channels, n, available);
        let ghost more: Seq<u32> = if available >= 2 {
            q.take(2)
        } else {
            Seq::empty()
        };
        let mut j: usize = 0;
        while j < n
            invariant
                j <= n,
                n == frame.len(),
                out@ == before + frame@.take(j as int),
            decreases n - j,
        {
            out.push(frame[j]);
            j = j + 1;
            assert(out@ =~= before + frame@.take(j as int));
        }
        proof {
            let f = frame@;
            assert(out@ =~= before + f);
            if available >= 2 {
                assert(more[0] == q[0] && more[1] == q[1]);
            }
            let kk = k as int;
            assert(pos == kk * ch);
            assert((kk + 1) * ch == kk * ch + ch) by (nonlinear_arith);
            if k == 0 {
                assert(q0.len() >= s0);
            }
            // frames done before stay as they were
            assert forall|j: int| 0 <= j < kk && 2 * (j + 1) <= s0 implies #[trigger] pair_frame_at(
                out@,
                ch as nat,
                j,
                q0,
            ) by {
                lemma_frame_arith(j, kk, ch);
                assert(pair_frame_at(before, ch as nat, j, q0));
                assert(frame_end(j, ch as nat, before.len()) == (j + 1) * ch);
                assert(frame_end(j, ch as nat, out@.len()) == (j + 1) * ch);
                assert(out@.subrange(j * ch, (j + 1) * ch) =~= before.subrange(j * ch, (j + 1) * ch));
            }
            if 2 * (kk + 1) <= s0 {
                assert(available >= 2);
                assert(q0[2 * kk] == (got + q)[2 * kk]);
                assert(q0[2 * kk + 1] == (got + q)[2 * kk + 1]);
                assert(q0[2 * kk] == q[0]);
                assert(q0[2 * kk + 1] == q[1]);
                assert(frame_end(kk, ch as nat, out@.len()) == kk * ch + n);
                assert(out@.subrange(kk * ch, kk * ch + n) =~= f);
                assert(pair_frame_at(out@, ch as nat, kk, q0));
            }
            lemma_surround_append(before, out_channels as nat, got, k, f, more);
            let old_taken = got;
            got = got + more;
            k = k + 1;
            if 2 * (kk + 1) <= s0 {
                assert(got =~= q0.take(2 * (kk + 1)));
            }
            lemma_prefix_step(q0, old_taken, q, more, queued(*cons));
            if 2 * (kk + 1) <= s0 {
                assert(pairs_done(k as int, s0) == kk + 1);
            } else {
                assert(pairs_done(k as int, s0) == pairs_done(kk, s0));
                let pd = pairs_done(kk, s0);
                assert(got.take(2 * pd) =~= old_taken.take(2 * pd));
            }
        }
        pos = pos + n;
        proof {
            assert(pos == if k * ch < out_len {
                k * ch
            } else {
                out_len as int
            }) by (nonlinear_arith)
                requires
                    pos == (k - 1) * ch + n,
                    n == if out_len - (k - 1) * ch < ch {
                        out_len - (k - 1) * ch
                    } else {
                        ch
                    },
                    (k - 1) * ch < out_len,
                    ch > 0,
            ;
            if pos < out_len {
                assert(n == out_channels);
                assert(pos == k * out_channels) by (nonlinear_arith)
                    requires
                        pos == (k - 1) * out_channels + out_channels,
                ;
            }
        }
    }
    proof {
        assert(output_from(out@, out_channels as nat, got));
        assert forall|j: int|
            0 <= j && 2 * (j + 1) <= settled(*old(cons)) && j * out_channels < out_len implies {
            &&& #[trigger] pair_frame_at(out@, out_channels as nat, j, queued(*old(cons)))
            &&& taken(*cons)[taken(*old(cons)).len() + 2 * j] == queued(*old(cons))[2 * j]
            &&& taken(*cons)[taken(*old(cons)).len() + 2 * j + 1] == queued(*old(cons))[2 * j
                + 1]
        } by {
            assert(k * ch >= out_len);
            assert(j < k) by (nonlinear_arith)
                requires
                    j * ch < out_len,
                    k * ch >= out_len,
                    ch > 0,
            ;
            let pd = pairs_done(k as int, s0);
            assert(j + 1 <= pd);
            assert(pair_frame_at(out@, ch as nat, j, q0));
            assert(ch as nat == out_channels as nat);
            assert(got.take(2 * pd)[2 * j] == q0.take(2 * pd)[2 * j]);
            assert(got.take(2 * pd)[2 * j + 1] == q0.take(2 * pd)[2 * j + 1]);
            assert(taken(*cons)[taken(*old(cons)).len() + 2 * j] == got[2 * j]);
            assert(taken(*cons)[taken(*old(cons)).len() + 2 * j + 1] == got[2 * j + 1]);
            assert(got[2 * j] == got.take(2 * pd)[2 * j]);
            assert(got[2 * j + 1] == got.take(2 * pd)[2 * j + 1]);
        }
    }
    out
}

} // verus!

verus! {

/// Properties of the speaker layouts: a frame has one sample per speaker; on
/// 5.1 and 7.1 devices the centre and the LFE (subwoofer) get the average of
/// left and right while the front pair carries the stereo image unchanged; on a
/// quad device the rear pair repeats the front pair.
pub proof fn lemma_surround_layouts(ch: nat, l: u32, r: u32)
    requires
        ch > 0,
    ensures
        surround_frame(ch, l, r).len() == ch,
        ch == 4 || ch == 6 || ch == 8 ==> surround_frame(ch, l, r)[0] == OutSample::Sample(l)
            && surround_frame(ch, l, r)[1] == OutSample::Sample(r),
        ch == 6 || ch == 8 ==> surround_frame(ch, l, r)[2] == OutSample::Mid(l, r)
            && surround_frame(ch, l, r)[3] == OutSample::Mid(l, r),
        ch == 4 ==> surround_frame(ch, l, r)[2] == OutSample::Sample(l) && surround_frame(
            ch,
            l,
            r,
        )[3] == OutSample::Sample(r),
{
}

} // verus!
