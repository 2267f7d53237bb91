use morganite::addr::NeighborAddr;
use morganite::events::{command_to_event, string_to_socketaddr, Commands};
use morganite::process::{build_routing_packet, forward_packet, handle_packet, PacketAction};
use morganite::protocol::{Packet, RoutedPacket, RoutingEntry, RoutingPacket, SharedHeader, CR, CRR,
    SCC, SCCR};
use morganite::shared::Shared;

fn addr(ip: &str, port: u16) -> NeighborAddr {
    NeighborAddr::new(ip.to_string(), port)
}

fn entry(target_port: u16, next_port: u16, hop_count: i32) -> RoutingEntry {
    RoutingEntry {
        target_ip: "127.0.0.1".to_string(),
        target_port,
        next_ip: "127.0.0.1".to_string(),
        next_port,
        hop_count,
    }
}

#[test]
pub fn test_get_routing_table() {
    let target = addr("127.0.0.1", 6666);
    let local = addr("127.0.0.1", 6142);
    let mut shared = Shared::new();
    shared.insert_direct(&addr("127.0.0.1", 12345), &addr("127.0.0.1", 12346), 2);
    shared.insert_direct(&addr("127.0.0.1", 6666), &addr("127.0.0.1", 1236), 2);
    shared.insert_direct(&addr("127.0.0.1", 1235), &addr("127.0.0.1", 6666), 2);
    shared.insert_direct(&addr("127.0.0.1", 12344), &addr("127.0.0.1", 6666), 2);

    // split horizon keeps the target's own row and every row through
    // it at home; the sender adds its own hop to the distance
    let advertised = shared.get_routing_table(&target, &local);
    assert_eq!(advertised.len(), 1);
    assert_eq!(advertised[0].target_ip, "127.0.0.1");
    assert_eq!(advertised[0].target_port, 12345);
    assert_eq!(advertised[0].next_ip, "127.0.0.1");
    assert_eq!(advertised[0].next_port, 6142);
    assert_eq!(advertised[0].hop_count, 3);

    let update = vec![
        entry(11111, 12345, 3),
        entry(11112, 12345, 4),
        entry(11113, 12345, 5),
    ];
    let rejected = shared.update_routing_table(&update, &target);
    assert_eq!(rejected, 0);

    // existing rows stand; the new targets are reached through the
    // sender with the advertised distance taken as is
    for (port, next_port, hops) in [
        (12345u16, 12346u16, 2i32),
        (6666, 1236, 2),
        (1235, 6666, 2),
        (12344, 6666, 2),
        (11111, 6666, 3),
        (11112, 6666, 4),
        (11113, 6666, 5),
    ] {
        let e = shared.get_entry(&addr("127.0.0.1", port)).unwrap();
        assert_eq!(e.next.port, next_port, "next hop for {port}");
        assert_eq!(e.hop_count, hops, "distance for {port}");
        assert!(e.ttl);
    }
    assert_eq!(shared.routing_table.len(), 7);
}

#[test]
fn apply_refuses_own_address() {
    let mut shared = Shared::new();
    let update = vec![
        RoutingEntry {
            target_ip: "127.0.0.1".to_string(),
            target_port: 6142,
            next_ip: "127.0.0.1".to_string(),
            next_port: 9,
            hop_count: 1,
        },
        RoutingEntry {
            target_ip: "127.0.0.1".to_string(),
            target_port: 7,
            next_ip: "127.0.0.1".to_string(),
            next_port: 6142,
            hop_count: 1,
        },
    ];
    let rejected = shared.update_routing_table(&update, &addr("127.0.0.1", 5000));
    assert_eq!(rejected, 2);
    assert!(shared.routing_table.is_empty());
    assert!(shared.get_entry(&addr("127.0.0.1", 6142)).is_none());
}

#[test]
fn apply_keeps_hops_monotone() {
    let mut shared = Shared::new();
    let peer = addr("127.0.0.1", 5000);
    shared.insert_direct(&addr("127.0.0.1", 7777), &peer, 3);
    // a worse advertisement is refused
    shared.update_routing_table(&vec![entry(7777, 5000, 9)], &peer);
    assert_eq!(shared.get_entry(&addr("127.0.0.1", 7777)).unwrap().hop_count, 3);
    // an equal or better one replaces
    shared.update_routing_table(&vec![entry(7777, 5000, 2)], &peer);
    assert_eq!(shared.get_entry(&addr("127.0.0.1", 7777)).unwrap().hop_count, 2);
}

#[test]
fn poison_spreads_within_one_cycle() {
    let mut shared = Shared::new();
    let peer = addr("127.0.0.1", 5000);
    let lost = addr("127.0.0.1", 7777);
    shared.insert_direct(&lost, &peer, 2);
    // the heartbeat clears the liveness flag
    shared.age_routing_table();
    // the neighbor advertises the target as unreachable; the worse
    // distance is refused, but the row stays silent
    shared.update_routing_table(&vec![entry(7777, 5000, 32)], &peer);
    // ... so the next aging step poisons it
    shared.age_routing_table();
    assert_eq!(shared.get_entry(&lost).unwrap().hop_count, 32);
}

#[test]
fn losing_a_neighbor_poisons_routes_through_it() {
    let mut shared = Shared::new();
    let peer = addr("127.0.0.1", 5000);
    let other = addr("127.0.0.1", 5001);
    shared.insert_direct(&addr("127.0.0.1", 7777), &peer, 2);
    shared.insert_direct(&addr("127.0.0.1", 8888), &other, 2);
    shared.poison_routes_through(&peer);
    assert_eq!(shared.get_entry(&addr("127.0.0.1", 7777)).unwrap().hop_count, 32);
    assert_eq!(shared.get_entry(&addr("127.0.0.1", 8888)).unwrap().hop_count, 2);
    shared.poison_all_routes();
    assert_eq!(shared.get_entry(&addr("127.0.0.1", 8888)).unwrap().hop_count, 32);
}

#[test]
fn peer_channels_track_connections() {
    let mut shared = Shared::new();
    let a = addr("127.0.0.1", 5000);
    let b = addr("127.0.0.1", 5001);
    shared.register_peer(&a);
    shared.register_peer(&b);
    shared.register_peer(&a);
    assert_eq!(shared.peers.len(), 2);
    shared.remove_peer(&a);
    assert_eq!(shared.peers.len(), 1);
    assert_eq!(shared.peers[0].port, 5001);
}

#[test]
fn forwarding_spends_ttl() {
    let routed = |ttl: u8| {
        Packet::RoutedPacket(RoutedPacket {
            header: SharedHeader {
                source_ip: "a".to_string(),
                source_port: 1,
                dest_ip: "b".to_string(),
                dest_port: 2,
                ttl,
            },
            nickname: "n".to_string(),
            message: "m".to_string(),
        })
    };
    match forward_packet(routed(16)).unwrap() {
        Packet::RoutedPacket(p) => assert_eq!(p.header.ttl, 15),
        _ => panic!("wrong packet kind"),
    }
    assert!(forward_packet(routed(1)).is_none());
    assert!(forward_packet(routed(0)).is_none());
}

#[test]
fn connect_request_installs_route_and_replies() {
    let mut shared = Shared::new();
    let remote = addr("127.0.0.1", 41000);
    let packet = Packet::RoutingPacket(
        RoutingPacket {
            header: SharedHeader {
                source_ip: "127.0.0.1".to_string(),
                source_port: 6143,
                dest_ip: "127.0.0.1".to_string(),
                dest_port: 6142,
                ttl: 16,
            },
            table: Some(Vec::new()),
        },
        CR,
    );
    match handle_packet(&mut shared, &remote, &packet) {
        PacketAction::Reply(Packet::RoutingPacket(reply, tid)) => {
            assert_eq!(tid, CRR);
            assert_eq!(reply.header.source_port, 6142);
            assert_eq!(reply.header.dest_port, 41000);
            // split horizon: the fresh direct route goes through the
            // neighbor itself, so nothing is advertised back
            assert_eq!(reply.table.unwrap().len(), 0);
        },
        other => panic!("unexpected action {other:?}"),
    }
    let direct = shared.get_entry(&addr("127.0.0.1", 6143)).unwrap();
    assert_eq!(direct.hop_count, 1);
    assert_eq!(direct.next.port, 41000);
}

#[test]
fn probe_and_ack_keep_liveness() {
    let mut shared = Shared::new();
    let remote = addr("127.0.0.1", 41000);
    shared.insert_direct(&addr("127.0.0.1", 6143), &remote, 1);
    shared.age_routing_table();

    let probe = Packet::RoutingPacket(
        RoutingPacket {
            header: SharedHeader {
                source_ip: "127.0.0.1".to_string(),
                source_port: 6143,
                dest_ip: "127.0.0.1".to_string(),
                dest_port: 6142,
                ttl: 16,
            },
            table: Some(Vec::new()),
        },
        SCC,
    );
    match handle_packet(&mut shared, &remote, &probe) {
        PacketAction::Reply(Packet::RoutingPacket(reply, tid)) => {
            assert_eq!(tid, SCCR);
            assert_eq!(reply.table.unwrap().len(), 0);
        },
        other => panic!("unexpected action {other:?}"),
    }

    let ack = Packet::RoutingPacket(
        RoutingPacket {
            header: SharedHeader {
                source_ip: "127.0.0.1".to_string(),
                source_port: 6143,
                dest_ip: "127.0.0.1".to_string(),
                dest_port: 6142,
                ttl: 16,
            },
            table: None,
        },
        SCCR,
    );
    match handle_packet(&mut shared, &remote, &ack) {
        PacketAction::Drop => {},
        other => panic!("unexpected action {other:?}"),
    }
    assert!(shared.get_entry(&addr("127.0.0.1", 6143)).unwrap().ttl);
    // an unconfirmed route would have been poisoned by now
    shared.age_routing_table();
    assert_eq!(shared.get_entry(&addr("127.0.0.1", 6143)).unwrap().hop_count, 1);
}

#[test]
fn routed_packets_are_delivered_or_forwarded() {
    let mut shared = Shared::new();
    let remote = addr("127.0.0.1", 41000);
    let next = addr("127.0.0.1", 6143);
    shared.insert_direct(&addr("127.0.0.1", 6144), &next, 2);
    let mk = |dest_port: u16, ttl: u8| {
        Packet::RoutedPacket(RoutedPacket {
            header: SharedHeader {
                source_ip: "127.0.0.1".to_string(),
                source_port: 7000,
                dest_ip: "127.0.0.1".to_string(),
                dest_port,
                ttl,
            },
            nickname: "nick".to_string(),
            message: "hi".to_string(),
        })
    };
    match handle_packet(&mut shared, &remote, &mk(6142, 5)) {
        PacketAction::Deliver(message, nickname) => {
            assert_eq!(message, "hi");
            assert_eq!(nickname, "nick");
        },
        other => panic!("unexpected action {other:?}"),
    }
    match handle_packet(&mut shared, &remote, &mk(6144, 5)) {
        PacketAction::ForwardTo(key, _) => assert_eq!(key.port, 6143),
        other => panic!("unexpected action {other:?}"),
    }
    match handle_packet(&mut shared, &remote, &mk(9999, 5)) {
        PacketAction::NoRoute => {},
        other => panic!("unexpected action {other:?}"),
    }
    match handle_packet(&mut shared, &remote, &mk(6144, 0)) {
        PacketAction::Drop => {},
        other => panic!("unexpected action {other:?}"),
    }
}

#[test]
fn quit_wave_advertises_poison() {
    let mut shared = Shared::new();
    let peer = addr("127.0.0.1", 5000);
    shared.insert_direct(&addr("127.0.0.1", 7777), &addr("127.0.0.1", 5009), 2);
    shared.poison_all_routes();
    let local = addr("127.0.0.1", 6142);
    match build_routing_packet(&shared, &peer, &local, morganite::protocol::STU) {
        Packet::RoutingPacket(p, _) => {
            let table = p.table.unwrap();
            assert_eq!(table.len(), 1);
            assert_eq!(table[0].hop_count, 32);
        },
        _ => panic!("wrong packet kind"),
    }
}

#[test]
fn message_resolution_uses_next_hop() {
    let mut shared = Shared::new();
    let dest = addr("127.0.0.1", 6144);
    let next = addr("127.0.0.1", 6143);
    shared.insert_direct(&dest, &next, 2);
    assert_eq!(shared.resolve_message_target(&dest).unwrap().port, 6143);
    // a direct entry through this node's own address resolves to the
    // destination itself
    let direct = addr("127.0.0.1", 6145);
    shared.insert_direct(&direct, &addr("127.0.0.1", 6142), 1);
    assert_eq!(shared.resolve_message_target(&direct).unwrap().port, 6145);
    assert!(shared.resolve_message_target(&addr("127.0.0.1", 1)).is_none());
    assert!(shared.already_connected(&direct));
    assert!(!shared.already_connected(&dest));
}

#[test]
fn commands_are_parsed() {
    assert!(matches!(command_to_event("quit"), Commands::Quit));
    assert!(matches!(command_to_event("help"), Commands::Help));
    assert!(matches!(command_to_event("contacts"), Commands::Contacts));
    match command_to_event("setnick neo") {
        Commands::SetOwnNick(n) => assert_eq!(n, "neo"),
        other => panic!("unexpected command {other:?}"),
    }
    match command_to_event("msg 127.0.0.1 6143 hello there friend") {
        Commands::Message(a, m) => {
            assert_eq!(a.ip, "127.0.0.1");
            assert_eq!(a.port, 6143);
            assert_eq!(m, "hello there friend");
        },
        other => panic!("unexpected command {other:?}"),
    }
    match command_to_event("connect 127.0.0.1 6143") {
        Commands::Connect(a) => {
            assert_eq!(a.ip, "127.0.0.1");
            assert_eq!(a.port, 6143);
        },
        other => panic!("unexpected command {other:?}"),
    }
    match command_to_event("msg 127.0.0.1 notaport hi") {
        Commands::Unknown(u) => assert_eq!(u, "Invalid IP or Port"),
        other => panic!("unexpected command {other:?}"),
    }
    match command_to_event("connect 127.0.0.1") {
        Commands::Unknown(u) => assert_eq!(u, "Invalid number of arguments"),
        other => panic!("unexpected command {other:?}"),
    }
    match command_to_event("dance") {
        Commands::Unknown(u) => assert_eq!(u, "dance"),
        other => panic!("unexpected command {other:?}"),
    }
    assert!(string_to_socketaddr("10.0.0.1", "80").is_some());
    assert!(string_to_socketaddr("10.0.0.1", "eighty").is_none());
    assert_eq!(
        morganite::arg_parsing::help(),
        "Usage: ./routingtable <port> <name (max 3 chars)>"
    );
}

#[test]
fn addr_text_formats() {
    let a = addr("127.0.0.1", 6142);
    assert_eq!(a.addr_text(), "127.0.0.1:6142");
    let mgr = morganite::routing_ttl_manager::RoutingTTLManager::new(
        morganite::routing::Routingtable::new(),
    );
    let mut mgr = mgr;
    mgr.tick();
}
