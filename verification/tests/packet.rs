use syncaudio::network::packet::{decode_packet, encode_packet, PacketError, HEADER_LEN};
use syncaudio::network::receiver::{should_report, REPORT_EVERY};

#[test]
fn encode_lays_out_header_and_samples() {
    let samples = [1.0f32.to_bits(), (-0.5f32).to_bits()];
    let bytes = encode_packet(0x0102_0304, &samples);
    let mut expected = vec![0x01, 0x02, 0x03, 0x04, 0x00, 0x02];
    expected.extend_from_slice(&1.0f32.to_le_bytes());
    expected.extend_from_slice(&(-0.5f32).to_le_bytes());
    assert_eq!(bytes, expected);
    assert_eq!(bytes.len(), HEADER_LEN + 4 * samples.len());
}

#[test]
fn empty_frame_is_header_only() {
    assert_eq!(encode_packet(7, &[]), vec![0, 0, 0, 7, 0, 0]);
}

#[test]
fn roundtrip_keeps_seq_and_samples() {
    let samples: Vec<u32> = (0..960u32).map(|i| (i as f32 / 960.0).to_bits()).collect();
    let bytes = encode_packet(u32::MAX, &samples);
    let p = decode_packet(&bytes).unwrap();
    assert_eq!(p.seq, u32::MAX);
    assert_eq!(p.count, 960);
    assert_eq!(p.samples, samples);
}

#[test]
fn trailing_bytes_are_ignored() {
    let samples = [0x1122_3344u32, 0xdead_beef];
    let mut bytes = encode_packet(42, &samples);
    bytes.extend_from_slice(&[9, 9, 9]);
    let p = decode_packet(&bytes).unwrap();
    assert_eq!(p.seq, 42);
    assert_eq!(p.count, 2);
    assert_eq!(p.samples, samples.to_vec());
}

#[test]
fn decodes_little_endian_samples() {
    let bytes = [0, 0, 0, 1, 0, 1, 0x00, 0x00, 0x80, 0x3f];
    let p = decode_packet(&bytes).unwrap();
    assert_eq!(f32::from_bits(p.samples[0]), 1.0);
}

#[test]
fn short_datagram_is_rejected() {
    assert_eq!(decode_packet(&[0, 0, 0, 1, 0]).err(), Some(PacketError::TooShort));
    assert_eq!(decode_packet(&[]).err(), Some(PacketError::TooShort));
}

#[test]
fn incomplete_datagram_is_rejected() {
    let bytes = [0, 0, 0, 1, 0, 3, 1, 2, 3, 4, 5, 6, 7, 8, 9];
    assert_eq!(
        decode_packet(&bytes).err(),
        Some(PacketError::Incomplete { expected: 12, received: 9 })
    );
}

#[test]
fn report_every_two_hundred() {
    assert_eq!(REPORT_EVERY, 200);
    assert!(should_report(0));
    assert!(should_report(400));
    assert!(!should_report(199));
    assert!(!should_report(201));
}
