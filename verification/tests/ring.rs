use syncaudio::network::packet::HEADER_LEN;
use syncaudio::network::MAX_PACKET_SIZE;
use syncaudio::audio::capture::push_stereo;
use syncaudio::audio::{FRAME_SIZE, RING_CAPACITY};
use syncaudio::network::packet::{decode_packet, encode_packet};
use syncaudio::network::receiver::receive_datagram;
use syncaudio::network::sender::PacketSender;
use syncaudio::ring::new_sample_ring;
use syncaudio::network::packet::PacketError;

#[test]
fn buffer_sizes() {
    assert_eq!(FRAME_SIZE, 960);
    assert_eq!(RING_CAPACITY, 38_400);
}

#[test]
fn sender_waits_for_a_whole_frame() {
    let (mut prod, mut cons) = new_sample_ring();
    let mut sender = PacketSender::new();
    let part: Vec<u32> = (0..FRAME_SIZE as u32 - 1).collect();
    assert_eq!(push_stereo(&mut prod, &part), 0);
    assert!(sender.next_packet(&mut cons).is_none());
    assert_eq!(sender.seq, 0);
    assert_eq!(push_stereo(&mut prod, &[FRAME_SIZE as u32 - 1]), 0);
    let bytes = sender.next_packet(&mut cons).unwrap();
    let frame: Vec<u32> = (0..FRAME_SIZE as u32).collect();
    assert_eq!(bytes, encode_packet(0, &frame));
    assert_eq!(sender.seq, 1);
    assert!(sender.next_packet(&mut cons).is_none());
}

#[test]
fn sender_numbers_packets_and_wraps() {
    let (mut prod, mut cons) = new_sample_ring();
    let mut sender = PacketSender { seq: u32::MAX };
    let two: Vec<u32> = (0..2 * FRAME_SIZE as u32).collect();
    push_stereo(&mut prod, &two);
    let a = decode_packet(&sender.next_packet(&mut cons).unwrap()).unwrap();
    let b = decode_packet(&sender.next_packet(&mut cons).unwrap()).unwrap();
    assert_eq!(a.seq, u32::MAX);
    assert_eq!(b.seq, 0);
    assert_eq!(a.samples, two[..FRAME_SIZE].to_vec());
    assert_eq!(b.samples, two[FRAME_SIZE..].to_vec());
}

#[test]
fn full_ring_drops_the_excess() {
    let (mut prod, _cons) = new_sample_ring();
    let big = vec![7u32; RING_CAPACITY + 5];
    assert_eq!(push_stereo(&mut prod, &big), 5);
    assert_eq!(push_stereo(&mut prod, &[1, 2, 3]), 3);
}

#[test]
fn receiver_feeds_the_sender() {
    let (mut rprod, mut rcons) = new_sample_ring();
    let samples: Vec<u32> = (100..100 + FRAME_SIZE as u32).collect();
    let datagram = encode_packet(200, &samples);
    let got = receive_datagram(&mut rprod, &datagram).unwrap();
    assert_eq!(got.pushed, FRAME_SIZE);
    assert_eq!(got.packet.seq, 200);
    assert_eq!(got.buffered, Some(0));
    let mut sender = PacketSender::new();
    let again = decode_packet(&sender.next_packet(&mut rcons).unwrap()).unwrap();
    assert_eq!(again.samples, samples);
}

#[test]
fn receiver_reports_only_some_packets() {
    let (mut prod, _cons) = new_sample_ring();
    let got = receive_datagram(&mut prod, &encode_packet(3, &[1, 2])).unwrap();
    assert_eq!(got.buffered, None);
    assert_eq!(got.pushed, 2);
}

#[test]
fn receiver_rejects_bad_datagrams() {
    let (mut prod, _cons) = new_sample_ring();
    assert_eq!(receive_datagram(&mut prod, &[1, 2, 3]).err(), Some(PacketError::TooShort));
    assert_eq!(
        receive_datagram(&mut prod, &[0, 0, 0, 0, 0, 1, 1]).err(),
        Some(PacketError::Incomplete { expected: 4, received: 1 })
    );
}

#[test]
fn packet_from_uses_the_level_read() {
    let (mut prod, mut cons) = new_sample_ring();
    let mut sender = PacketSender::new();
    let frame: Vec<u32> = (0..FRAME_SIZE as u32).map(|i| i * 3).collect();
    push_stereo(&mut prod, &frame);
    assert!(sender.packet_from(&mut cons, FRAME_SIZE - 1).is_none());
    assert_eq!(sender.seq, 0);
    assert_eq!(sender.packet_from(&mut cons, FRAME_SIZE), Some(encode_packet(0, &frame)));
    assert_eq!(sender.seq, 1);
}

#[test]
fn a_frame_fits_the_receive_buffer() {
    assert!(HEADER_LEN + 4 * FRAME_SIZE <= MAX_PACKET_SIZE);
    let full = encode_packet(1, &vec![0u32; FRAME_SIZE]);
    assert_eq!(full.len(), 3_846);
}

#[test]
fn what_was_pushed_comes_out_in_order() {
    let (mut prod, mut cons) = new_sample_ring();
    let mut sender = PacketSender::new();
    let samples: Vec<u32> = (0..3 * FRAME_SIZE as u32).map(|i| i ^ 0x5a5a).collect();
    for chunk in samples.chunks(700) {
        assert_eq!(push_stereo(&mut prod, chunk), 0);
    }
    let mut sent: Vec<u32> = Vec::new();
    for k in 0..3u32 {
        let p = decode_packet(&sender.next_packet(&mut cons).unwrap()).unwrap();
        assert_eq!(p.seq, k);
        sent.extend_from_slice(&p.samples);
    }
    assert_eq!(sent, samples);
    assert!(sender.next_packet(&mut cons).is_none());
}
