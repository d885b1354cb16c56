use mqttbytes::v4::connack::{ConnAck, ConnectReturnCode};
use mqttbytes::v4::connect::{Connect, LastWill, Login};
use mqttbytes::v4::disconnect::Disconnect;
use mqttbytes::v4::ping::{PingReq, PingResp};
use mqttbytes::v4::puback::PubAck;
use mqttbytes::v4::pubcomp::PubComp;
use mqttbytes::v4::publish::Publish;
use mqttbytes::v4::pubrec::PubRec;
use mqttbytes::v4::pubrel::PubRel;
use mqttbytes::v4::suback::SubAck;
use mqttbytes::v4::subscribe::{Subscribe, SubscribeFilter};
use mqttbytes::v4::unsuback::UnsubAck;
use mqttbytes::v4::unsubscribe::Unsubscribe;
use mqttbytes::v4::{read, Packet};
use mqttbytes::{check, Error, FixedHeader, Protocol, QoS};

fn frame_of(bytes: &[u8]) -> FixedHeader {
    check(bytes, 1 << 20).unwrap()
}

#[test]
fn puback_exact_bytes_and_round_trip() {
    let mut buf = Vec::new();
    assert_eq!(PubAck::new(10).write(&mut buf), Ok(4));
    assert_eq!(buf, vec![0x40, 0x02, 0x00, 0x0A]);
    assert_eq!(PubAck::read(frame_of(&buf), &buf), Ok(PubAck { pkid: 10 }));
}

#[test]
fn ack_packets_round_trip() {
    let mut buf = Vec::new();
    PubRec::new(300).write(&mut buf).unwrap();
    assert_eq!(buf, vec![0x50, 0x02, 0x01, 0x2C]);
    assert_eq!(PubRec::read(frame_of(&buf), &buf), Ok(PubRec { pkid: 300 }));
    let mut buf = Vec::new();
    PubRel::new(7).write(&mut buf).unwrap();
    assert_eq!(buf, vec![0x62, 0x02, 0x00, 0x07]);
    assert_eq!(PubRel::read(frame_of(&buf), &buf), Ok(PubRel { pkid: 7 }));
    let mut buf = Vec::new();
    PubComp::new(65535).write(&mut buf).unwrap();
    assert_eq!(buf, vec![0x70, 0x02, 0xFF, 0xFF]);
    assert_eq!(PubComp::read(frame_of(&buf), &buf), Ok(PubComp { pkid: 65535 }));
    let mut buf = Vec::new();
    UnsubAck::new(0).write(&mut buf).unwrap();
    assert_eq!(buf, vec![0xB0, 0x02, 0x00, 0x00]);
    assert_eq!(UnsubAck::read(frame_of(&buf), &buf), Ok(UnsubAck { pkid: 0 }));
}

#[test]
fn ack_packet_id_zero() {
    let mut buf = Vec::new();
    assert_eq!(PubAck::new(0).write(&mut buf), Err(Error::PacketIdZero));
    assert!(buf.is_empty());
    let bytes = [0x40u8, 0x02, 0x00, 0x00];
    assert_eq!(PubAck::read(frame_of(&bytes), &bytes), Err(Error::PacketIdZero));
}

#[test]
fn ack_reserved_flags_rejected() {
    // PUBREL must carry flags 0010.
    let bytes = [0x60u8, 0x02, 0x00, 0x01];
    assert_eq!(PubRel::read(frame_of(&bytes), &bytes), Err(Error::MalformedPacket));
    let bytes = [0x41u8, 0x02, 0x00, 0x01];
    assert_eq!(PubAck::read(frame_of(&bytes), &bytes), Err(Error::MalformedPacket));
}

#[test]
fn ack_wrong_length_rejected() {
    let bytes = [0x40u8, 0x03, 0x00, 0x01, 0x00];
    assert_eq!(PubAck::read(frame_of(&bytes), &bytes), Err(Error::MalformedPacket));
    // Bytes that are not exactly the frame.
    let bytes = [0x40u8, 0x02, 0x00, 0x01, 0x00];
    assert_eq!(PubAck::read(FixedHeader::new(0x40, 1, 2), &bytes), Err(Error::MalformedPacket));
}

#[test]
fn publish_qos0_has_no_packet_id() {
    let p = Publish::new("a/b".to_string(), QoS::AtMostOnce, vec![1, 2, 3]);
    let mut buf = Vec::new();
    let n = p.write(&mut buf).unwrap();
    assert_eq!(buf, vec![0x30, 0x08, 0x00, 0x03, b'a', b'/', b'b', 1, 2, 3]);
    // 1 + varint length + 2 + topic length + payload length
    assert_eq!(n, 1 + 1 + 2 + 3 + 3);
    assert_eq!(p.len(), 8);
    let back = Publish::read(frame_of(&buf), &buf).unwrap();
    assert_eq!(back.topic, "a/b");
    assert_eq!(back.qos, QoS::AtMostOnce);
    assert_eq!(back.pkid, 0);
    assert_eq!(back.payload, vec![1, 2, 3]);
}

#[test]
fn publish_qos1_round_trip() {
    let mut p = Publish::new("a/b".to_string(), QoS::AtLeastOnce, b"hi".to_vec());
    p.pkid = 10;
    p.retain = true;
    p.dup = true;
    let mut buf = Vec::new();
    assert_eq!(p.write(&mut buf), Ok(11));
    assert_eq!(buf, vec![0x3B, 0x09, 0x00, 0x03, b'a', b'/', b'b', 0x00, 0x0A, b'h', b'i']);
    assert_eq!(p.len(), 9);
    let back = Publish::read(frame_of(&buf), &buf).unwrap();
    assert!(back.dup && back.retain);
    assert_eq!(back.qos, QoS::AtLeastOnce);
    assert_eq!(back.pkid, 10);
    assert_eq!(back.topic, "a/b");
    assert_eq!(back.payload, b"hi".to_vec());
}

#[test]
fn publish_write_is_repeatable() {
    let mut p = Publish::new("t".to_string(), QoS::ExactlyOnce, vec![0; 200]);
    p.pkid = 1;
    let mut first = Vec::new();
    let mut second = Vec::new();
    p.write(&mut first).unwrap();
    p.write(&mut second).unwrap();
    assert_eq!(first, second);
    // 200 + 2 + 1 + 2 = 205 needs a 2-byte remaining length.
    assert_eq!(&first[..3], &[0x34, 0xCD, 0x01]);
}

#[test]
fn publish_errors() {
    let p = Publish::new("a".to_string(), QoS::AtLeastOnce, vec![]);
    let mut buf = Vec::new();
    assert_eq!(p.write(&mut buf), Err(Error::PacketIdZero));
    let long = Publish::new("x".repeat(65_536), QoS::AtMostOnce, vec![]);
    assert_eq!(long.write(&mut buf), Err(Error::PayloadTooLong));
    assert!(buf.is_empty());
    // QoS 3 in the flags.
    let bytes = [0x36u8, 0x03, 0x00, 0x01, b'a'];
    assert_eq!(Publish::read(frame_of(&bytes), &bytes).unwrap_err(), Error::InvalidQoS(3));
    // QoS 1 with packet identifier 0.
    let bytes = [0x32u8, 0x05, 0x00, 0x01, b'a', 0x00, 0x00];
    assert_eq!(Publish::read(frame_of(&bytes), &bytes).unwrap_err(), Error::PacketIdZero);
    // Topic length beyond the frame.
    let bytes = [0x30u8, 0x03, 0x00, 0x05, b'a'];
    assert_eq!(Publish::read(frame_of(&bytes), &bytes).unwrap_err(), Error::MalformedPacket);
    // Topic that is not UTF-8.
    let bytes = [0x30u8, 0x04, 0x00, 0x02, 0xC3, 0x28];
    assert_eq!(Publish::read(frame_of(&bytes), &bytes).unwrap_err(), Error::TopicNotUtf8);
}

#[test]
fn publish_utf8_topic() {
    let p = Publish::new("é/ü".to_string(), QoS::AtMostOnce, vec![]);
    let mut buf = Vec::new();
    p.write(&mut buf).unwrap();
    assert_eq!(&buf[2..4], &[0x00, 0x05]);
    assert_eq!(Publish::read(frame_of(&buf), &buf).unwrap().topic, "é/ü");
}

#[test]
fn connack_round_trip_and_errors() {
    let mut buf = Vec::new();
    assert_eq!(ConnAck::new(ConnectReturnCode::BadClientId, true).write(&mut buf), Ok(4));
    assert_eq!(buf, vec![0x20, 0x02, 0x01, 0x02]);
    assert_eq!(
        ConnAck::read(frame_of(&buf), &buf),
        Ok(ConnAck { session_present: true, code: ConnectReturnCode::BadClientId })
    );
    let bytes = [0x20u8, 0x02, 0x00, 0x06];
    assert_eq!(ConnAck::read(frame_of(&bytes), &bytes), Err(Error::InvalidConnectReturnCode(6)));
    let bytes = [0x20u8, 0x02, 0x02, 0x00];
    assert_eq!(ConnAck::read(frame_of(&bytes), &bytes), Err(Error::MalformedPacket));
}

#[test]
fn connect_minimal_exact_bytes() {
    let c = Connect::new("c1".to_string());
    let mut buf = Vec::new();
    assert_eq!(c.write(&mut buf), Ok(16));
    assert_eq!(
        buf,
        vec![0x10, 14, 0, 4, b'M', b'Q', b'T', b'T', 4, 0x02, 0, 10, 0, 2, b'c', b'1']
    );
    let back = Connect::read(frame_of(&buf), &buf).unwrap();
    assert_eq!(back.client_id, "c1");
    assert_eq!(back.protocol, Protocol::V4);
    assert_eq!(back.keep_alive, 10);
    assert!(back.clean_session);
    assert!(back.last_will.is_none());
    assert!(back.login.is_none());
}

#[test]
fn connect_full_round_trip() {
    let mut c = Connect::new("client".to_string());
    c.protocol = Protocol::V5;
    c.keep_alive = 600;
    c.clean_session = false;
    c.last_will = Some(LastWill::new("will/t".to_string(), vec![9, 8], QoS::ExactlyOnce, true));
    c.set_login("user".to_string(), "pass".to_string());
    let mut buf = Vec::new();
    c.write(&mut buf).unwrap();
    // user, password, will retain, will QoS 2, will
    assert_eq!(buf[9], 0xF4);
    let back = Connect::read(frame_of(&buf), &buf).unwrap();
    assert_eq!(back.protocol, Protocol::V5);
    assert_eq!(back.keep_alive, 600);
    assert!(!back.clean_session);
    let will = back.last_will.unwrap();
    assert_eq!(will.topic, "will/t");
    assert_eq!(will.message, vec![9, 8]);
    assert_eq!(will.qos, QoS::ExactlyOnce);
    assert!(will.retain);
    let login = back.login.unwrap();
    assert!(login.validate("user".to_string(), "pass".to_string()));
    assert!(!login.validate("user".to_string(), "other".to_string()));
}

#[test]
fn connect_password_only_login() {
    let mut c = Connect::new("x".to_string());
    c.login = Some(Login::new(String::new(), "secret".to_string()));
    let mut buf = Vec::new();
    c.write(&mut buf).unwrap();
    assert_eq!(buf[9], 0xC2);
    let back = Connect::read(frame_of(&buf), &buf).unwrap();
    let login = back.login.unwrap();
    assert_eq!(login.username, "");
    assert_eq!(login.password, "secret");
}

#[test]
fn connect_empty_login_round_trips() {
    let mut c = Connect::new("x".to_string());
    c.set_login(String::new(), String::new());
    assert_eq!(c.len(), 17);
    let mut buf = Vec::new();
    assert_eq!(c.write(&mut buf), Ok(19));
    assert_eq!(buf[9], 0xC2);
    assert_eq!(&buf[15..], &[0, 0, 0, 0]);
    let back = Connect::read(frame_of(&buf), &buf).unwrap();
    let login = back.login.unwrap();
    assert_eq!(login.username, "");
    assert_eq!(login.password, "");
}

#[test]
fn connect_user_name_flag_alone() {
    // Only the user name flag: a login whose password is empty.
    let bytes = [0x10u8, 15, 0, 4, b'M', b'Q', b'T', b'T', 4, 0x82, 0, 10, 0, 0, 0, 1, b'u'];
    let login = Connect::read(frame_of(&bytes), &bytes).unwrap().login.unwrap();
    assert_eq!(login.username, "u");
    assert_eq!(login.password, "");
}

#[test]
fn connect_errors() {
    // Protocol name "MQIs".
    let bytes = [0x10u8, 12, 0, 4, b'M', b'Q', b'I', b's', 4, 0x02, 0, 10, 0, 0];
    assert_eq!(Connect::read(frame_of(&bytes), &bytes).unwrap_err(), Error::InvalidProtocol);
    // Protocol level 3.
    let bytes = [0x10u8, 12, 0, 4, b'M', b'Q', b'T', b'T', 3, 0x02, 0, 10, 0, 0];
    assert_eq!(Connect::read(frame_of(&bytes), &bytes).unwrap_err(), Error::InvalidProtocol);
    // Reserved flag bit set.
    let bytes = [0x10u8, 12, 0, 4, b'M', b'Q', b'T', b'T', 4, 0x03, 0, 10, 0, 0];
    assert_eq!(Connect::read(frame_of(&bytes), &bytes).unwrap_err(), Error::MalformedPacket);
    // Will QoS without a will.
    let bytes = [0x10u8, 12, 0, 4, b'M', b'Q', b'T', b'T', 4, 0x0A, 0, 10, 0, 0];
    assert_eq!(Connect::read(frame_of(&bytes), &bytes).unwrap_err(), Error::MalformedPacket);
    // Will with QoS 3.
    let bytes = [0x10u8, 16, 0, 4, b'M', b'Q', b'T', b'T', 4, 0x1C, 0, 10, 0, 0, 0, 0, 0, 0];
    assert_eq!(Connect::read(frame_of(&bytes), &bytes).unwrap_err(), Error::InvalidQoS(3));
    // A trailing byte after the last field.
    let bytes = [0x10u8, 13, 0, 4, b'M', b'Q', b'T', b'T', 4, 0x02, 0, 10, 0, 0, 7];
    assert_eq!(Connect::read(frame_of(&bytes), &bytes).unwrap_err(), Error::MalformedPacket);
    let c = Connect::new("i".repeat(70_000));
    let mut buf = Vec::new();
    assert_eq!(c.write(&mut buf), Err(Error::PayloadTooLong));
}

#[test]
fn subscribe_round_trip() {
    let mut s = Subscribe::new("a/+".to_string(), QoS::AtLeastOnce);
    s.add("b/#".to_string(), QoS::ExactlyOnce);
    s.pkid = 5;
    assert_eq!(s.len(), 2 + 6 + 6);
    let mut buf = Vec::new();
    assert_eq!(s.write(&mut buf), Ok(16));
    assert_eq!(
        buf,
        vec![0x82, 14, 0, 5, 0, 3, b'a', b'/', b'+', 1, 0, 3, b'b', b'/', b'#', 2]
    );
    let back = Subscribe::read(frame_of(&buf), &buf).unwrap();
    assert_eq!(back.pkid, 5);
    assert_eq!(back.filters.len(), 2);
    assert_eq!(back.filters[0].path, "a/+");
    assert_eq!(back.filters[0].qos, QoS::AtLeastOnce);
    assert_eq!(back.filters[1].path, "b/#");
    assert_eq!(back.filters[1].qos, QoS::ExactlyOnce);
    let f = SubscribeFilter::new("abc".to_string(), QoS::AtMostOnce);
    assert_eq!(f.len(), 6);
    let many = Subscribe::new_many(vec![f]);
    assert_eq!(many.filters.len(), 1);
}

#[test]
fn subscribe_errors() {
    let mut buf = Vec::new();
    assert_eq!(Subscribe::new("a".to_string(), QoS::AtMostOnce).write(&mut buf), Err(Error::PacketIdZero));
    let mut empty = Subscribe::empty_subscribe();
    empty.pkid = 1;
    assert_eq!(empty.write(&mut buf), Err(Error::MalformedPacket));
    assert!(buf.is_empty());
    // No filter at all.
    let bytes = [0x82u8, 2, 0, 1];
    assert_eq!(Subscribe::read(frame_of(&bytes), &bytes).unwrap_err(), Error::MalformedPacket);
    // Requested QoS 3.
    let bytes = [0x82u8, 6, 0, 1, 0, 1, b'a', 3];
    assert_eq!(Subscribe::read(frame_of(&bytes), &bytes).unwrap_err(), Error::InvalidQoS(3));
    // Reserved option bits.
    let bytes = [0x82u8, 6, 0, 1, 0, 1, b'a', 4];
    assert_eq!(Subscribe::read(frame_of(&bytes), &bytes).unwrap_err(), Error::MalformedPacket);
    // Wrong fixed-header flags.
    let bytes = [0x80u8, 6, 0, 1, 0, 1, b'a', 0];
    assert_eq!(Subscribe::read(frame_of(&bytes), &bytes).unwrap_err(), Error::MalformedPacket);
}

#[test]
fn suback_round_trip() {
    let s = SubAck::new(9, vec![Some(QoS::AtMostOnce), None, Some(QoS::ExactlyOnce)]);
    assert_eq!(s.len(), 5);
    let mut buf = Vec::new();
    assert_eq!(s.write(&mut buf), Ok(7));
    assert_eq!(buf, vec![0x90, 5, 0, 9, 0, 0x80, 2]);
    let back = SubAck::read(frame_of(&buf), &buf).unwrap();
    assert_eq!(back.pkid, 9);
    assert_eq!(back.return_codes, vec![Some(QoS::AtMostOnce), None, Some(QoS::ExactlyOnce)]);
}

#[test]
fn suback_reads_codes_to_frame_end() {
    let bytes = [0x90u8, 4, 0, 1, 1, 1];
    assert_eq!(SubAck::read(frame_of(&bytes), &bytes).unwrap().return_codes.len(), 2);
    // Remaining length 1: not even a packet identifier.
    let bytes = [0x90u8, 1, 0];
    assert_eq!(SubAck::read(frame_of(&bytes), &bytes).unwrap_err(), Error::MalformedPacket);
    // No return code.
    let bytes = [0x90u8, 2, 0, 1];
    assert_eq!(SubAck::read(frame_of(&bytes), &bytes).unwrap_err(), Error::MalformedPacket);
    let bytes = [0x90u8, 3, 0, 1, 0x03];
    assert_eq!(SubAck::read(frame_of(&bytes), &bytes).unwrap_err(), Error::InvalidSubscribeReasonCode(3));
    let mut buf = Vec::new();
    assert_eq!(SubAck::new(1, vec![]).write(&mut buf), Err(Error::MalformedPacket));
}

#[test]
fn unsubscribe_round_trip() {
    let mut u = Unsubscribe::new("a/b".to_string());
    u.topics.push("c".to_string());
    u.pkid = 3;
    let mut buf = Vec::new();
    assert_eq!(u.write(&mut buf), Ok(12));
    assert_eq!(buf, vec![0xA2, 10, 0, 3, 0, 3, b'a', b'/', b'b', 0, 1, b'c']);
    let back = Unsubscribe::read(frame_of(&buf), &buf).unwrap();
    assert_eq!(back.pkid, 3);
    assert_eq!(back.topics, vec!["a/b".to_string(), "c".to_string()]);
}

#[test]
fn unsubscribe_off_by_one_is_malformed() {
    // One byte too many after the last topic.
    let bytes = [0xA2u8, 6, 0, 3, 0, 1, b'c', 9];
    assert_eq!(Unsubscribe::read(frame_of(&bytes), &bytes).unwrap_err(), Error::MalformedPacket);
    // One byte too few: the topic is cut short.
    let bytes = [0xA2u8, 5, 0, 3, 0, 2, b'c'];
    assert_eq!(Unsubscribe::read(frame_of(&bytes), &bytes).unwrap_err(), Error::MalformedPacket);
    let bytes = [0xA2u8, 5, 0, 0, 0, 1, b'c'];
    assert_eq!(Unsubscribe::read(frame_of(&bytes), &bytes).unwrap_err(), Error::PacketIdZero);
}

#[test]
fn ping_and_disconnect_bytes() {
    let mut buf = Vec::new();
    assert_eq!(PingReq::new().write(&mut buf), Ok(2));
    assert_eq!(PingResp::new().write(&mut buf), Ok(2));
    assert_eq!(Disconnect::new().write(&mut buf), Ok(2));
    assert_eq!(buf, vec![0xC0, 0, 0xD0, 0, 0xE0, 0]);
}

#[test]
fn dispatch_reads_successive_packets() {
    let mut stream = Vec::new();
    PingReq::new().write(&mut stream).unwrap();
    let mut p = Publish::new("t".to_string(), QoS::AtLeastOnce, vec![5]);
    p.pkid = 2;
    p.write(&mut stream).unwrap();
    Disconnect::new().write(&mut stream).unwrap();
    let mut cursor = 0usize;
    assert!(matches!(read(&stream, &mut cursor, 100), Ok(Packet::PingReq)));
    assert_eq!(cursor, 2);
    match read(&stream, &mut cursor, 100) {
        Ok(Packet::Publish(back)) => {
            assert_eq!(back.pkid, 2);
            assert_eq!(back.payload, vec![5]);
        }
        _ => panic!("expected a publish"),
    }
    assert!(matches!(read(&stream, &mut cursor, 100), Ok(Packet::Disconnect)));
    assert_eq!(cursor, stream.len());
    assert!(matches!(read(&stream, &mut cursor, 100), Err(Error::InsufficientBytes(2))));
    assert_eq!(cursor, stream.len());
}

#[test]
fn dispatch_keeps_cursor_on_incomplete_frame() {
    let stream = [0x40u8, 0x02, 0x00];
    let mut cursor = 0usize;
    assert!(matches!(read(&stream, &mut cursor, 100), Err(Error::InsufficientBytes(1))));
    assert_eq!(cursor, 0);
    assert!(matches!(read(&stream, &mut cursor, 2), Err(Error::PayloadSizeLimitExceeded(4))));
    assert_eq!(cursor, 0);
}

#[test]
fn dispatch_commits_past_bad_frame() {
    let stream = [0x40u8, 0x02, 0x00, 0x00, 0xF0, 0x00];
    let mut cursor = 0usize;
    assert!(matches!(read(&stream, &mut cursor, 100), Err(Error::PacketIdZero)));
    assert_eq!(cursor, 4);
    assert!(matches!(read(&stream, &mut cursor, 100), Err(Error::InvalidPacketType(15))));
    assert_eq!(cursor, 6);
    let stream = [0xC0u8, 0x01, 0x00];
    let mut cursor = 0usize;
    assert!(matches!(read(&stream, &mut cursor, 100), Err(Error::MalformedPacket)));
}

#[test]
fn packet_write_dispatch() {
    let mut buf = Vec::new();
    assert_eq!(Packet::PubAck(PubAck::new(1)).write(&mut buf), Ok(4));
    assert_eq!(Packet::PingResp.write(&mut buf), Ok(2));
    assert_eq!(buf, vec![0x40, 2, 0, 1, 0xD0, 0]);
}

#[test]
fn every_packet_kind_round_trips_through_the_stream() {
    let mut c = Connect::new("id".to_string());
    c.set_login("u".to_string(), String::new());
    let mut p = Publish::new("x/y".to_string(), QoS::ExactlyOnce, vec![1]);
    p.pkid = 4;
    let mut s = Subscribe::new("x/#".to_string(), QoS::AtMostOnce);
    s.pkid = 8;
    let mut u = Unsubscribe::new("x/#".to_string());
    u.pkid = 9;
    let packets = vec![
        Packet::Connect(c),
        Packet::ConnAck(ConnAck::new(ConnectReturnCode::Success, false)),
        Packet::Publish(p),
        Packet::PubAck(PubAck::new(1)),
        Packet::PubRec(PubRec::new(2)),
        Packet::PubRel(PubRel::new(3)),
        Packet::PubComp(PubComp::new(4)),
        Packet::Subscribe(s),
        Packet::SubAck(SubAck::new(8, vec![Some(QoS::AtMostOnce)])),
        Packet::Unsubscribe(u),
        Packet::UnsubAck(UnsubAck::new(9)),
        Packet::PingReq,
        Packet::PingResp,
        Packet::Disconnect,
    ];
    let mut stream = Vec::new();
    for packet in &packets {
        packet.write(&mut stream).unwrap();
    }
    let mut cursor = 0usize;
    let mut kinds = Vec::new();
    while cursor < stream.len() {
        let packet = read(&stream, &mut cursor, 1000).unwrap();
        kinds.push(match packet {
            Packet::Connect(c) => {
                assert_eq!(c.client_id, "id");
                assert_eq!(c.login.unwrap().username, "u");
                1
            }
            Packet::ConnAck(_) => 2,
            Packet::Publish(p) => {
                assert_eq!(p.pkid, 4);
                assert_eq!(p.qos, QoS::ExactlyOnce);
                3
            }
            Packet::PubAck(a) => {
                assert_eq!(a.pkid, 1);
                4
            }
            Packet::PubRec(_) => 5,
            Packet::PubRel(_) => 6,
            Packet::PubComp(_) => 7,
            Packet::Subscribe(s) => {
                assert_eq!(s.filters[0].path, "x/#");
                8
            }
            Packet::SubAck(_) => 9,
            Packet::Unsubscribe(u) => {
                assert_eq!(u.topics, vec!["x/#".to_string()]);
                10
            }
            Packet::UnsubAck(_) => 11,
            Packet::PingReq => 12,
            Packet::PingResp => 13,
            Packet::Disconnect => 14,
        });
    }
    assert_eq!(kinds, (1..=14).collect::<Vec<i32>>());
}
