use morganite::packets::connection::ConnectionPacket;
use morganite::packets::header::{BaseHeader, PacketType};
use morganite::packets::message::MessagePacket;
use morganite::packets::routing_entry::{RoutingEntry, TTL};
use morganite::packets::Packet;

#[test]
fn test_packet() {
    let bytes = "Hello World!".as_bytes().to_vec();
    let packet = Packet::from_bytes(bytes.clone());
    let bytes = packet.to_bytes();

    assert_eq!(bytes, "Hello World!".as_bytes().to_vec());
}

#[test]
fn test_packet_long() {
    let text = "Hello World! This is a very long message that should be able to be sent over the network. I hope this works!";
    let bytes = text.as_bytes().to_vec();
    let packet = Packet::from_bytes(bytes.clone());
    let bytes = packet.to_bytes();

    assert_eq!(bytes, text.as_bytes().to_vec());
}

#[test]
fn test_connection_packet() {
    let name = String::from("ABC");
    let port = 1234;
    let is_first = true;
    let packet = ConnectionPacket::new(name.clone(), port, is_first);
    let bytes = packet.to_bytes();
    let packet = ConnectionPacket::from_bytes(bytes);

    assert_eq!(packet.name, name);
    assert_eq!(packet.port, port);
    assert_eq!(packet.is_first, is_first);
}

#[test]
fn test_connection_packet_long() {
    let name = String::from("ABC");
    let port = 1234;
    let is_first = false;
    let packet = ConnectionPacket::new(name.clone(), port, is_first);
    let bytes = packet.to_bytes();
    let packet = ConnectionPacket::from_bytes(bytes);

    assert_eq!(packet.name, name);
    assert_eq!(packet.port, port);
    assert_eq!(packet.is_first, is_first);
}

#[test]
fn test_base_header() {
    let header = BaseHeader::new(
        PacketType::Connection,
        0,
        String::from("ABC"),
        String::from("DEF"),
    );
    let bytes = header.to_bytes();
    let header = BaseHeader::from_bytes(bytes).unwrap();

    assert_eq!(header.get_ip(), String::from("DEF"));
    assert_eq!(header.get_target(), String::from("ABC"));
    assert_eq!(header.get_source(), String::from("DEF"));
}

#[test]
fn test_base_header_long() {
    let header = BaseHeader::new(
        PacketType::Connection,
        0,
        String::from("ABCDEF"),
        String::from("DEFGHI"),
    );
    let bytes = header.to_bytes();
    let header = BaseHeader::from_bytes(bytes).unwrap();

    assert_eq!(header.get_ip(), String::from("DEF"));
    assert_eq!(header.get_target(), String::from("ABC"));
    assert_eq!(header.get_source(), String::from("DEF"));
}

#[test]
fn test_message_packet() {
    let msg = String::from("Hello World!");
    let packet = MessagePacket::new(msg.clone());
    let bytes = packet.to_bytes();
    let packet = MessagePacket::from_bytes(bytes);

    assert_eq!(packet.get_message(), msg);
}

#[test]
fn test_message_packet_long() {
    let msg = String::from("Hello World! This is a very long message that should be able to be sent over the network. I hope this works!");
    let packet = MessagePacket::new(msg.clone());
    let bytes = packet.to_bytes();
    let packet = MessagePacket::from_bytes(bytes);

    assert_eq!(packet.get_message(), msg);
}

#[test]
fn test_message_packet_empty() {
    let msg = String::from("");
    let packet = MessagePacket::new(msg.clone());
    let bytes = packet.to_bytes();
    let packet = MessagePacket::from_bytes(bytes);

    assert_eq!(packet.get_message(), msg);
}

#[test]
fn to_bytes() {
    let entry = RoutingEntry {
        info_source: String::from("ABC"),
        destination: String::from("DEF"),
        ip: String::from("127.0.0.1"),
        port: 1234,
        hops: 0,
        ttl: TTL,
        dont_expire: false,
    };

    let bytes = entry.to_bytes();
    // ABC
    assert_eq!(bytes[0], 65);
    assert_eq!(bytes[1], 66);
    assert_eq!(bytes[2], 67);
    // DEF
    assert_eq!(bytes[3], 68);
    assert_eq!(bytes[4], 69);
    assert_eq!(bytes[5], 70);
    // 1234 = 0x04D2
    assert_eq!(bytes[6], 4);
    assert_eq!(bytes[7], 210);
    // 0
    assert_eq!(bytes[8], 0);
}

#[test]
fn from_bytes() {
    let bytes = vec![65, 66, 67, 68, 69, 70, 4, 210, 0];
    let entry = RoutingEntry::from_bytes(bytes, String::from("127.0.0.1"));

    assert_eq!(entry.info_source, String::from("ABC"));
    assert_eq!(entry.destination, String::from("DEF"));
    assert_eq!(entry.ip, String::from("127.0.0.1"));
    assert_eq!(entry.port, 1234);
    assert_eq!(entry.hops, 0);
}

#[test]
fn to_bytes_and_back() {
    let entry = RoutingEntry {
        info_source: String::from("ABC"),
        destination: String::from("DEF"),
        ip: String::from("127.0.0.1"),
        port: 1234,
        hops: 0,
        ttl: TTL,
        dont_expire: false,
    };

    let bytes = entry.to_bytes();
    let entry = RoutingEntry::from_bytes(bytes, String::from("127.0.0.1"));

    assert_eq!(entry.info_source, String::from("ABC"));
    assert_eq!(entry.destination, String::from("DEF"));
    assert_eq!(entry.ip, String::from("127.0.0.1"));
    assert_eq!(entry.port, 1234);
    assert_eq!(entry.hops, 0);
}

#[test]
fn routingtable_filters_and_serializes() {
    let mut table = morganite::routing::Routingtable::new();
    table.add_entry(RoutingEntry::new(
        String::from("ABC"),
        String::from("DEF"),
        String::from("127.0.0.1"),
        1234,
        0,
    ));
    table.add_entry(RoutingEntry::new(
        String::from("XYZ"),
        String::from("GHI"),
        String::from("127.0.0.2"),
        4321,
        2,
    ));

    assert_eq!(table.total_entries(String::from("ABC")), 1);
    assert_eq!(table.total_entries(String::from("none")), 2);
    assert!(table.get_entry(String::from("DEF")).is_some());
    assert!(table.get_entry(String::from("zzz")).is_none());

    let bytes = table.to_bytes(
        String::from("ABC"),
        String::from("127.0.0.1"),
        1234,
        String::from("ABC"),
    );
    // count byte, then 9 bytes per stored entry
    assert_eq!(bytes.len(), 1 + 9 * 2);
    assert_eq!(bytes[0], 1);

    table.clear_from(String::from("ABC"));
    assert_eq!(table.get_entries().len(), 1);
    table.remove_entry(String::from("GHI"));
    assert_eq!(table.get_entries().len(), 0);
}

#[test]
fn morganite_tracks_routes() {
    let mut m = morganite::morganite::Morganite::new(
        String::from("abc"),
        String::from("4000"),
        String::from("127.0.0.1"),
    );
    m.add_self_to_routingtable();
    assert_eq!(m.get_own_name(), String::from("abc"));
    assert_eq!(m.get_port_of(String::from("abc")), Some(4000));
    assert_eq!(m.get_ip_of(String::from("abc")), Some(String::from("127.0.0.1")));
    assert_eq!(m.get_addr_of(String::from("abc")), Some(String::from("127.0.0.1:4000")));

    // a broadcast blob from node DEF with one route to GHI
    let header = morganite::packets::header::BaseHeader::new(
        PacketType::Routing,
        32,
        String::from("abc"),
        String::from("DEF"),
    );
    let mut blob = header.to_bytes();
    blob.push(1);
    let entry = RoutingEntry::new(
        String::from("DEF"),
        String::from("GHI"),
        String::from("10.0.0.7"),
        9999,
        1,
    );
    let mut entry_bytes = entry.to_bytes();
    blob.append(&mut entry_bytes);
    m.update_routing_table(blob, String::from("10.0.0.7"));
    assert_eq!(m.get_port_of(String::from("GHI")), Some(9999));
}
