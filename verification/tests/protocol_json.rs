use morganite::protocol::{encode_payload, parse_routed, Packet, RoutedPacket, SharedHeader};

#[test]
fn test_parsing_routed_packet() {
    let json = r#"{"header":{
        "packet_type":       "data_message",
        "source_ip":          "192.168.123.122",
        "source_port":        6827,
        "dest_ip":     "192.168.234.233",
        "dest_port":   234,
        "ttl":                16},
        "nickname":           "Test",
        "message":               "Test Data"
    }"#;

    let packet = parse_routed(&json.as_bytes().to_vec(), 64).unwrap();
    assert_eq!(packet.header.source_ip, "192.168.123.122");
    assert_eq!(packet.header.source_port, 6827);
    assert_eq!(packet.header.dest_ip, "192.168.234.233");
    assert_eq!(packet.header.dest_port, 234);
    assert_eq!(packet.nickname, "Test");
    assert_eq!(packet.header.ttl, 16);
    assert_eq!(packet.message, "Test Data");
}

#[test]
fn test_serializing_routed_packet() {
    let packet = RoutedPacket {
        header: SharedHeader {
            source_ip: "192.168.101.101".to_string(),
            source_port: 1234,
            dest_ip: "153.132.143.121".to_string(),
            dest_port: 4321,
            ttl: 32,
        },
        nickname: "Test".to_string(),
        message: "Testing".to_string(),
    };

    let json = String::from_utf8(encode_payload(&Packet::RoutedPacket(packet))).unwrap();

    assert_eq!(
        json,
        r#"{"header":{"source_ip":"192.168.101.101","source_port":1234,"dest_ip":"153.132.143.121","dest_port":4321,"ttl":32},"nickname":"Test","message":"Testing"}"#
    );
}

#[test]
fn serializing_escapes_strings() {
    let packet = RoutedPacket {
        header: SharedHeader {
            source_ip: "a".to_string(),
            source_port: 1,
            dest_ip: "b".to_string(),
            dest_port: 2,
            ttl: 3,
        },
        nickname: "q\"uote\\back".to_string(),
        message: "line\nbreak\ttab\u{1}ctl".to_string(),
    };
    let json = String::from_utf8(encode_payload(&Packet::RoutedPacket(packet.clone()))).unwrap();
    assert!(json.contains(r#""nickname":"q\"uote\\back""#));
    assert!(json.contains(r#""message":"line\nbreak\ttab\u0001ctl""#));

    let back = parse_routed(&json.as_bytes().to_vec(), 8).unwrap();
    assert_eq!(back.nickname, packet.nickname);
    assert_eq!(back.message, packet.message);
}

#[test]
fn parsing_rejects_missing_field() {
    let json = r#"{"header":{"source_ip":"a","source_port":1,"dest_ip":"b","dest_port":2,"ttl":3},"nickname":"n"}"#;
    assert!(parse_routed(&json.as_bytes().to_vec(), 8).is_none());
}

#[test]
fn parsing_rejects_trailing_garbage() {
    let json = r#"{"header":{"source_ip":"a","source_port":1,"dest_ip":"b","dest_port":2,"ttl":3},"nickname":"n","message":"m"}x"#;
    assert!(parse_routed(&json.as_bytes().to_vec(), 8).is_none());
}

#[test]
fn parsing_rejects_oversized_port() {
    let json = r#"{"header":{"source_ip":"a","source_port":70000,"dest_ip":"b","dest_port":2,"ttl":3},"nickname":"n","message":"m"}"#;
    assert!(parse_routed(&json.as_bytes().to_vec(), 8).is_none());
}
