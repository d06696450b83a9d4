use merge_futures::packet::{
    build_probe_header, classify_packet, fill_with_random, replay_packet_time_millis, PacketKind,
    PKT_LEN,
};

#[test]
fn classify_by_first_byte() {
    assert_eq!(classify_packet(b"l"), PacketKind::Join);
    assert_eq!(classify_packet(b"s goodbye"), PacketKind::Leave);
    assert_eq!(classify_packet(b"r123456789012"), PacketKind::Replay);
    assert_eq!(classify_packet(b"x"), PacketKind::Unknown(b'x'));
    assert_eq!(classify_packet(b""), PacketKind::Empty);
}

#[test]
fn replay_time_reads_big_endian_field() {
    let mut pkt = vec![b'r', 0, 0, 0, 1];
    pkt.extend_from_slice(&[0, 0, 0, 0, 0, 1, 2, 3]);
    assert_eq!(replay_packet_time_millis(&pkt), Some(0x010203));

    let mut pkt = vec![b'r', 9, 9, 9, 9];
    pkt.extend_from_slice(&u64::MAX.to_be_bytes());
    assert_eq!(replay_packet_time_millis(&pkt), Some(u64::MAX));
}

#[test]
fn replay_time_rejects_short_packets() {
    assert_eq!(replay_packet_time_millis(b""), None);
    assert_eq!(replay_packet_time_millis(&[b'r'; 12]), None);
    assert!(replay_packet_time_millis(&[0; 13]).is_some());
}

#[test]
fn probe_header_layout() {
    let mut buf = Vec::new();
    build_probe_header(&mut buf, 0x01020304, 0x05060708090a0b0c);
    assert_eq!(buf.len(), 13);
    assert_eq!(buf[0], b'd');
    assert_eq!(&buf[1..5], &[1, 2, 3, 4]);
    assert_eq!(&buf[5..13], &[5, 6, 7, 8, 9, 10, 11, 12]);
}

#[test]
fn probe_send_time_survives_the_round_trip() {
    let mut buf = vec![9, 9, 9];
    build_probe_header(&mut buf, 77, 123_456_789);
    let data = [0u8; 16];
    let _ = fill_with_random(&mut buf, &data, 0);
    // the send-time field sits where the replay handler reads it back
    assert_eq!(replay_packet_time_millis(&buf), Some(123_456_789));
}

#[test]
fn fill_pads_to_packet_length() {
    let mut buf = vec![b'd', 1, 2, 3];
    let data = [10u8, 20, 30];
    let next = fill_with_random(&mut buf, &data, 1);
    assert_eq!(buf.len(), PKT_LEN);
    // cyclic from slot 1: 20, 30, 10, 20, 30, 10, ...
    assert_eq!(&buf[4..9], &[20, 30, 10, 20, 30]);
    // 252 bytes were appended; 252 = 84 * 3, so the cycle ends where it began
    assert_eq!(next, 1);
}

#[test]
fn fill_continues_where_it_stopped() {
    let mut buf = Vec::new();
    let data = [1u8, 2, 3, 4, 5, 6, 7];
    let next = fill_with_random(&mut buf, &data, 0);
    // 256 = 36 * 7 + 4: the next packet continues at slot 4
    assert_eq!(next, 4);
    assert_eq!(buf[0], 1);
    assert_eq!(buf[255], 4);

    let mut buf2 = Vec::new();
    let next2 = fill_with_random(&mut buf2, &data, next);
    assert_eq!(buf2[0], 5);
    assert_eq!(next2, (4 + 256) % 7);
}
