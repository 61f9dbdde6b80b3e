use syncaudio::audio::playback::{fill_stereo, fill_surround_frame};
use syncaudio::audio::capture::push_stereo;
use syncaudio::audio::playback::{fill_output, fill_threshold, GateAction, OutSample, PlaybackGate};
use syncaudio::ring::new_sample_ring;
use OutSample::{Mid, Sample, Silence};

#[test]
fn threshold_counts_stereo_samples() {
    assert_eq!(fill_threshold(100, 48_000), 9_600);
    assert_eq!(fill_threshold(20, 44_100), 20 * 44 * 2);
}

#[test]
fn threshold_has_a_floor_of_twenty_ms() {
    assert_eq!(fill_threshold(5, 48_000), 1_920);
    assert_eq!(fill_threshold(0, 48_000), fill_threshold(20, 48_000));
}

#[test]
fn gate_fills_once_then_plays_whatever_arrives() {
    let (mut prod, mut cons) = new_sample_ring();
    let mut gate = PlaybackGate::new(20, 48_000);
    assert_eq!(gate.threshold, 1_920);
    push_stereo(&mut prod, &vec![1u32; 1_000]);
    assert_eq!(gate.on_callback(&cons), GateAction::Silence);
    assert!(!gate.started);
    push_stereo(&mut prod, &vec![1u32; 920]);
    assert_eq!(gate.on_callback(&cons), GateAction::Play);
    assert!(gate.started);
    let out = fill_output(&mut cons, 1_900, 2);
    assert_eq!(out.len(), 1_900);
    // below the threshold but not empty: keeps playing
    assert_eq!(gate.on_callback(&cons), GateAction::Play);
    let _ = fill_output(&mut cons, 20, 2);
    // empty: silence, but the jitter buffer is not refilled
    assert_eq!(gate.on_callback(&cons), GateAction::Silence);
    assert!(gate.started);
    push_stereo(&mut prod, &[1, 2]);
    assert_eq!(gate.on_callback(&cons), GateAction::Play);
}

#[test]
fn stereo_output_pads_with_silence() {
    let (mut prod, mut cons) = new_sample_ring();
    push_stereo(&mut prod, &[10, 11, 12]);
    let out = fill_output(&mut cons, 5, 2);
    assert_eq!(
        out,
        vec![
            OutSample::Sample(10),
            OutSample::Sample(11),
            OutSample::Sample(12),
            OutSample::Silence,
            OutSample::Silence
        ]
    );
    assert_eq!(fill_output(&mut cons, 2, 2), vec![OutSample::Silence; 2]);
}

#[test]
fn five_one_feeds_centre_and_lfe() {
    let (mut prod, mut cons) = new_sample_ring();
    push_stereo(&mut prod, &[1, 2, 3]);
    let out = fill_output(&mut cons, 12, 6);
    assert_eq!(
        out,
        vec![
            Sample(1), Sample(2), Mid(1, 2), Mid(1, 2), Sample(1), Sample(2),
            Silence, Silence, Silence, Silence, Silence, Silence
        ]
    );
    // the odd sample left over is still there
    push_stereo(&mut prod, &[4]);
    assert_eq!(fill_output(&mut cons, 1, 1), vec![Mid(3, 4)]);
}

#[test]
fn other_layouts() {
    let (mut prod, mut cons) = new_sample_ring();
    push_stereo(&mut prod, &[1, 2, 3, 4, 5, 6, 7, 8]);
    assert_eq!(fill_output(&mut cons, 4, 4), vec![Sample(1), Sample(2), Sample(1), Sample(2)]);
    assert_eq!(
        fill_output(&mut cons, 8, 8),
        vec![Sample(3), Sample(4), Mid(3, 4), Mid(3, 4), Sample(3), Sample(4), Sample(3), Sample(4)]
    );
    // three speakers, last frame short: every speaker gets the average
    assert_eq!(fill_output(&mut cons, 5, 3), vec![Mid(5, 6), Mid(5, 6), Mid(5, 6), Mid(7, 8), Mid(7, 8)]);
}

#[test]
fn gate_decisions() {
    let mut g = PlaybackGate { started: false, threshold: 100 };
    assert_eq!(g.decide(99, 500), GateAction::Silence);
    assert!(!g.started);
    assert_eq!(g.decide(100, 100), GateAction::Play);
    assert!(g.started);
    // once started the first level is not looked at
    assert_eq!(g.decide(0, 1), GateAction::Play);
    assert_eq!(g.decide(500, 0), GateAction::Silence);
    assert!(g.started);
    assert_eq!(g.decide(0, 3), GateAction::Play);
}

#[test]
fn stereo_fast_path_takes_what_was_read() {
    let (mut prod, mut cons) = new_sample_ring();
    push_stereo(&mut prod, &[1, 2, 3, 4]);
    assert_eq!(fill_stereo(&mut cons, 3, 2), vec![Sample(1), Sample(2), Silence]);
    assert_eq!(fill_stereo(&mut cons, 1, 2), vec![Sample(3)]);
    assert_eq!(fill_stereo(&mut cons, 2, 0), vec![Silence, Silence]);
    assert_eq!(fill_stereo(&mut cons, 2, 1), vec![Sample(4), Silence]);
}

#[test]
fn surround_frame_needs_a_pair() {
    let (mut prod, mut cons) = new_sample_ring();
    push_stereo(&mut prod, &[5, 6, 7]);
    assert_eq!(fill_surround_frame(&mut cons, 6, 6, 3), vec![Sample(5), Sample(6), Mid(5, 6), Mid(5, 6), Sample(5), Sample(6)]);
    assert_eq!(fill_surround_frame(&mut cons, 6, 6, 1), vec![Silence; 6]);
    push_stereo(&mut prod, &[8]);
    assert_eq!(fill_surround_frame(&mut cons, 5, 2, 2), vec![Mid(7, 8), Mid(7, 8)]);
}

#[test]
fn threshold_that_fits_or_not() {
    let big = PlaybackGate::try_new(u32::MAX, u32::MAX);
    if usize::BITS == 64 {
        assert_eq!(big.unwrap().threshold as u128, 4_294_967_295u128 * 4_294_967 * 2);
    } else {
        assert!(big.is_none());
    }
    let g = PlaybackGate::try_new(40, 48_000).unwrap();
    assert_eq!(g.threshold, 3_840);
    assert!(!g.started);
}
