use mqttbytes::varint::{read_remaining_length, write_remaining_length};
use mqttbytes::{check, qos, Error, FixedHeader, PacketType, QoS};

#[test]
fn varint_round_trip_edges() {
    for n in [0usize, 1, 127, 128, 16_383, 16_384, 2_097_151, 2_097_152, 268_435_455] {
        let mut buf = Vec::new();
        let count = write_remaining_length(&mut buf, n).unwrap();
        assert!(count <= 4);
        assert_eq!(count, buf.len());
        assert_eq!(read_remaining_length(&buf, 0), Ok((count, n)));
    }
}

#[test]
fn varint_exact_bytes() {
    let mut buf = Vec::new();
    write_remaining_length(&mut buf, 321).unwrap();
    assert_eq!(buf, vec![0xC1, 0x02]);
    let mut buf = Vec::new();
    write_remaining_length(&mut buf, 268_435_455).unwrap();
    assert_eq!(buf, vec![0xFF, 0xFF, 0xFF, 0x7F]);
}

#[test]
fn varint_too_long_to_encode() {
    let mut buf = vec![9u8];
    assert_eq!(write_remaining_length(&mut buf, 268_435_456), Err(Error::PayloadTooLong));
    assert_eq!(buf, vec![9u8]);
}

#[test]
fn varint_five_continuation_bytes_malformed() {
    let bytes = [0x80u8, 0x80, 0x80, 0x80, 0x80];
    assert_eq!(read_remaining_length(&bytes, 0), Err(Error::MalformedRemainingLength));
    let stream = [0x30u8, 0x80, 0x80, 0x80, 0x80, 0x80];
    assert_eq!(check(&stream, 1_000_000_000), Err(Error::MalformedRemainingLength));
}

#[test]
fn check_needs_two_bytes() {
    assert_eq!(check(&[], 100), Err(Error::InsufficientBytes(2)));
    assert_eq!(check(&[0x40], 100), Err(Error::InsufficientBytes(1)));
}

#[test]
fn check_incomplete_remaining_length() {
    assert_eq!(check(&[0x30, 0x80], 1000), Err(Error::InsufficientBytes(1)));
}

#[test]
fn check_short_buffer_is_insufficient_and_repeatable() {
    // A PUBACK frame is 4 bytes; only 3 have arrived.
    let partial = [0x40u8, 0x02, 0x00];
    let first = check(&partial, 100);
    assert_eq!(first, Err(Error::InsufficientBytes(1)));
    let second = check(&partial, 100);
    assert_eq!(first, second);
}

#[test]
fn check_full_frame() {
    let stream = [0x40u8, 0x02, 0x00, 0x0A, 0xFF];
    let h = check(&stream, 100).unwrap();
    assert_eq!(h, FixedHeader { byte1: 0x40, remaining_len_len: 1, remaining_len: 2 });
    assert_eq!(h.frame_length(), 4);
    assert_eq!(h.packet_type(), Ok(PacketType::PubAck));
}

#[test]
fn check_size_limit_exceeded() {
    // Remaining length 200 (two bytes): frame length 203, above the bound of 100,
    // although none of the payload has arrived.
    let stream = [0x30u8, 0xC8, 0x01];
    assert_eq!(check(&stream, 100), Err(Error::PayloadSizeLimitExceeded(203)));
    // The same frame under a larger bound merely needs more bytes.
    assert_eq!(check(&stream, 1000), Err(Error::InsufficientBytes(200)));
}

#[test]
fn check_frame_exactly_at_limit() {
    let stream = [0x40u8, 0x02, 0x00, 0x01];
    assert!(check(&stream, 4).is_ok());
    assert_eq!(check(&stream, 3), Err(Error::PayloadSizeLimitExceeded(4)));
}

#[test]
fn fixed_header_packet_types() {
    let h = FixedHeader::new(0x82, 1, 5);
    assert_eq!(h.packet_type(), Ok(PacketType::Subscribe));
    assert_eq!(h.frame_length(), 7);
    assert_eq!(FixedHeader::new(0xE0, 1, 0).packet_type(), Ok(PacketType::Disconnect));
    assert_eq!(FixedHeader::new(0x00, 1, 0).packet_type(), Err(Error::InvalidPacketType(0)));
    assert_eq!(FixedHeader::new(0xF0, 1, 0).packet_type(), Err(Error::InvalidPacketType(15)));
}

#[test]
fn qos_numbers() {
    assert_eq!(qos(0), Ok(QoS::AtMostOnce));
    assert_eq!(qos(1), Ok(QoS::AtLeastOnce));
    assert_eq!(qos(2), Ok(QoS::ExactlyOnce));
    assert_eq!(qos(3), Err(Error::InvalidQoS(3)));
    assert_eq!(qos(255), Err(Error::InvalidQoS(255)));
}

#[test]
fn packet_type_values() {
    assert_eq!(PacketType::Connect.value(), 1);
    assert_eq!(PacketType::Publish.value(), 3);
    assert_eq!(PacketType::Subscribe.value(), 8);
    assert_eq!(PacketType::Disconnect.value(), 14);
    for b in 0u8..=255 {
        match FixedHeader::new(b, 1, 0).packet_type() {
            Ok(t) => assert_eq!(t.value(), b >> 4),
            Err(e) => {
                assert_eq!(e, Error::InvalidPacketType(b >> 4));
                assert!(b >> 4 == 0 || b >> 4 == 15);
            }
        }
    }
}
