use morganite::common_header::COMMON_HEADER_LENGTH;
use morganite::packets::Packet as LegacyPacket;
use morganite::protocol::{Packet, RoutedPacket, RoutingEntry, RoutingPacket, SharedHeader, CR, STU};
use morganite::swag_coding::{CodecError, SwagCoder};

fn sample_header() -> SharedHeader {
    SharedHeader {
        source_ip: "127.0.0.1".to_string(),
        source_port: 58471,
        dest_ip: "127.0.0.1".to_string(),
        dest_port: 6143,
        ttl: 16,
    }
}

#[test]
pub fn test_weird_decode() {
    let mut coder = SwagCoder::new();
    let packet = RoutedPacket {
        header: sample_header(),
        nickname: "TODO".to_string(),
        message: "hi".to_string(),
    };
    let mut encoded = Vec::new();
    coder
        .encode(&Packet::RoutedPacket(packet), &mut encoded)
        .unwrap();
    let result = coder.decode(&mut encoded);
    println!("result: {:?}", result.unwrap());
}

#[test]
fn codec_round_trip_routed() {
    let mut coder = SwagCoder::new();
    let packet = RoutedPacket {
        header: sample_header(),
        nickname: "n\u{00e4}me \u{2764}".to_string(),
        message: "a long message ".repeat(40),
    };
    let mut buf = Vec::new();
    coder
        .encode(&Packet::RoutedPacket(packet.clone()), &mut buf)
        .unwrap();
    let decoded = coder.decode(&mut buf).unwrap().unwrap();
    match decoded {
        Packet::RoutedPacket(p) => {
            assert_eq!(p.header.source_ip, packet.header.source_ip);
            assert_eq!(p.header.source_port, packet.header.source_port);
            assert_eq!(p.header.dest_ip, packet.header.dest_ip);
            assert_eq!(p.header.dest_port, packet.header.dest_port);
            assert_eq!(p.header.ttl, packet.header.ttl);
            assert_eq!(p.nickname, packet.nickname);
            assert_eq!(p.message, packet.message);
        },
        _ => panic!("wrong packet kind"),
    }
    assert!(buf.is_empty());
}

#[test]
fn codec_round_trip_routing_tables() {
    for table in [
        None,
        Some(Vec::new()),
        Some(vec![
            RoutingEntry {
                target_ip: "10.0.0.5".to_string(),
                target_port: 1234,
                next_ip: "10.0.0.3".to_string(),
                next_port: 1234,
                hop_count: 4,
            },
            RoutingEntry {
                target_ip: "10.0.0.11".to_string(),
                target_port: 1234,
                next_ip: "10.0.0.6".to_string(),
                next_port: 1234,
                hop_count: -2,
            },
        ]),
    ] {
        let mut coder = SwagCoder::new();
        let packet = RoutingPacket { header: sample_header(), table: table.clone() };
        let mut buf = Vec::new();
        coder
            .encode(&Packet::RoutingPacket(packet, CR), &mut buf)
            .unwrap();
        let decoded = coder.decode(&mut buf).unwrap().unwrap();
        match decoded {
            Packet::RoutingPacket(p, tid) => {
                assert_eq!(tid, CR);
                assert_eq!(p.table, table);
            },
            _ => panic!("wrong packet kind"),
        }
    }
}

#[test]
fn header_is_53_bytes_and_canonical() {
    let mut coder = SwagCoder::new();
    let packet = RoutedPacket {
        header: SharedHeader {
            source_ip: "127.0.0.1".to_string(),
            source_port: 1234,
            dest_ip: "127.0.0.1".to_string(),
            dest_port: 4321,
            ttl: 16,
        },
        nickname: "N".to_string(),
        message: "hi".to_string(),
    };
    let mut buf = Vec::new();
    let payload = morganite::protocol::encode_payload(&Packet::RoutedPacket(packet.clone()));
    coder
        .encode(&Packet::RoutedPacket(packet), &mut buf)
        .unwrap();
    assert_eq!(buf.len(), COMMON_HEADER_LENGTH + payload.len());
    let header_text = String::from_utf8(buf[..COMMON_HEADER_LENGTH].to_vec()).unwrap();
    let expected_start = format!("{{\"length\":\"{:05}\"", payload.len());
    assert!(header_text.starts_with(&expected_start));
    assert!(header_text.contains(",\"type_id\":\"1\"}"));
    // the checksum named in the header is the checksum of the payload
    let crc_field: u32 = header_text[27..37].parse().unwrap();
    assert_eq!(crc_field, LegacyPacket::create_crc32(payload).checksum);
}

#[test]
fn decode_rejects_any_flipped_payload_byte() {
    let packet = RoutedPacket {
        header: sample_header(),
        nickname: "N".to_string(),
        message: "hello".to_string(),
    };
    let mut reference = Vec::new();
    SwagCoder::new()
        .encode(&Packet::RoutedPacket(packet), &mut reference)
        .unwrap();
    for k in COMMON_HEADER_LENGTH..reference.len() {
        let mut tampered = reference.clone();
        tampered[k] ^= 0x41;
        let mut coder = SwagCoder::new();
        let got = coder.decode(&mut tampered);
        assert_eq!(got, Err(CodecError::CrcMismatch));
    }
}

#[test]
fn decode_needs_whole_frame() {
    let packet = RoutedPacket {
        header: sample_header(),
        nickname: "N".to_string(),
        message: "hello".to_string(),
    };
    let mut frame = Vec::new();
    SwagCoder::new()
        .encode(&Packet::RoutedPacket(packet), &mut frame)
        .unwrap();
    let mut coder = SwagCoder::new();
    let mut buf = frame[..20].to_vec();
    assert_eq!(coder.decode(&mut buf), Ok(None));
    buf = frame[..60].to_vec();
    // header consumed, body still short
    assert_eq!(coder.decode(&mut buf), Ok(None));
    buf.extend_from_slice(&frame[60..]);
    let decoded = coder.decode(&mut buf).unwrap();
    assert!(decoded.is_some());
}

#[test]
fn decode_rejects_unknown_type_id() {
    let packet = RoutingPacket { header: sample_header(), table: Some(Vec::new()) };
    let mut buf = Vec::new();
    let mut coder = SwagCoder::new();
    coder
        .encode(&Packet::RoutingPacket(packet, 9), &mut buf)
        .unwrap();
    assert_eq!(coder.decode(&mut buf), Err(CodecError::UnknownTypeId));
}

#[test]
fn decode_rejects_bad_header() {
    let mut buf = vec![b'x'; 60];
    let mut coder = SwagCoder::new();
    assert_eq!(coder.decode(&mut buf), Err(CodecError::HeaderParse));
}

#[test]
fn decode_rejects_huge_buffer() {
    let mut buf = vec![0u8; 8 * 1024 * 1024 + 1];
    let mut coder = SwagCoder::new();
    assert_eq!(coder.decode(&mut buf), Err(CodecError::BufferTooLarge));
}

#[test]
fn encode_rejects_wide_type_id() {
    let packet = RoutingPacket { header: sample_header(), table: Some(Vec::new()) };
    let mut buf = Vec::new();
    let mut coder = SwagCoder::new();
    assert_eq!(
        coder.encode(&Packet::RoutingPacket(packet, 77), &mut buf),
        Err(CodecError::TypeIdTooWide)
    );
    assert!(buf.is_empty());
}

#[test]
fn encode_rejects_oversized_payload() {
    let packet = RoutedPacket {
        header: sample_header(),
        nickname: "N".to_string(),
        message: "x".repeat(70_000),
    };
    let mut buf = Vec::new();
    let mut coder = SwagCoder::new();
    assert_eq!(
        coder.encode(&Packet::RoutedPacket(packet), &mut buf),
        Err(CodecError::PayloadTooLarge)
    );
}

#[test]
fn known_crc32_value() {
    let text = "{\"header\":{\"source_ip\":\"10.241.51.185\",\"source_port\":46455,\"dest_ip\":\"10.241.51.185\",\"dest_port\":50847,\"ttl\":16},\"table\":[]}";
    let bytes = text.as_bytes().to_vec();
    let packet = LegacyPacket::create_crc32(bytes.clone());
    assert_eq!(packet.checksum, 593877371);
    assert!(packet.verify_self());
    assert!(LegacyPacket::verify_crc32(bytes.clone(), 593877371));
    assert!(!LegacyPacket::verify_crc32(bytes, 593877372));
}

#[test]
fn stu_frame_round_trips() {
    let packet = RoutingPacket {
        header: sample_header(),
        table: Some(vec![RoutingEntry {
            target_ip: "127.0.0.1".to_string(),
            target_port: 6144,
            next_ip: "127.0.0.1".to_string(),
            next_port: 6143,
            hop_count: 32,
        }]),
    };
    let mut buf = Vec::new();
    let mut coder = SwagCoder::new();
    coder
        .encode(&Packet::RoutingPacket(packet, STU), &mut buf)
        .unwrap();
    match coder.decode(&mut buf).unwrap().unwrap() {
        Packet::RoutingPacket(p, tid) => {
            assert_eq!(tid, STU);
            assert_eq!(p.table.unwrap()[0].hop_count, 32);
        },
        _ => panic!("wrong packet kind"),
    }
}
