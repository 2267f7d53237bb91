//! The per-connection protocol state machine.
//!
//! A connection task races two sources: events handed to it by other
//! tasks, and packets read from its socket. The decisions for both
//! live here as pure functions over the shared state; the task itself
//! only performs the sends that these functions call for.

use vstd::prelude::*;

use crate::addr::{NeighborAddr, NeighborAddrV};
use crate::protocol::{
    Packet, PacketV, RoutedPacket, RoutedPacketV, RoutingPacket, RoutingPacketV, SharedHeader,
    SharedHeaderV, CR, CRR, MESSAGE, SCC, SCCR, STU,
};
use crate::shared::{
    records_view, spec_advertise, spec_apply_all, spec_find, spec_insert, spec_mark_alive,
    RoutingTableEntry, RoutingTableEntryV, Shared,
};
use crate::protocol::entries_view;

verus! {

/// What a connection task must do after one inbound packet.
#[derive(Debug)]
pub enum PacketAction {
    /// Surface a message for this node to the user interface:
    /// payload and sender nickname.
    Deliver(String, String),
    /// Hand the packet to the peer channel of the given key, to be
    /// forwarded there.
    ForwardTo(NeighborAddr, Packet),
    /// Send this packet back on the connection's own socket.
    Reply(Packet),
    /// Nothing to do.
    Drop,
    /// No route to the packet's destination: drop and log.
    NoRoute,
    /// A packet that breaks the protocol: log, discard, keep the
    /// connection.
    ProtocolViolation,
}

/// The header of every packet this node originates on a connection:
/// its own listener address as origin, the neighbor as destination,
/// and a fresh hop budget.
pub open spec fn reply_header(local: NeighborAddrV, remote: NeighborAddrV) -> SharedHeaderV {
    SharedHeaderV {
        source_ip: local.ip,
        source_port: local.port,
        dest_ip: remote.ip,
        dest_port: remote.port,
        ttl: 16,
    }
}

/// Builds the header for an outbound packet on this connection.
fn make_header(local: &NeighborAddr, remote: &NeighborAddr) -> (r: SharedHeader)
    ensures
        r@ == reply_header(local@, remote@),
{
    SharedHeader {
        source_ip: local.ip.clone(),
        source_port: local.port,
        dest_ip: remote.ip.clone(),
        dest_port: remote.port,
        ttl: 16,
    }
}

/// The packet sent for a user message: application data addressed to
/// its ultimate destination, with a fresh hop budget.
pub fn build_message_packet(
    local: &NeighborAddr,
    dest: &NeighborAddr,
    nickname: &String,
    message: String,
) -> (r: Packet)
    ensures
        r@ == PacketV::Routed(
            RoutedPacketV {
                header: SharedHeaderV {
                    source_ip: local@.ip,
                    source_port: local@.port,
                    dest_ip: dest@.ip,
                    dest_port: dest@.port,
                    ttl: 16,
                },
                nickname: nickname@,
                message: message@,
            },
        ),
{
    Packet::RoutedPacket(
        RoutedPacket {
            header: SharedHeader {
                source_ip: local.ip.clone(),
                source_port: local.port,
                dest_ip: dest.ip.clone(),
                dest_port: dest.port,
                ttl: 16,
            },
            nickname: nickname.clone(),
            message,
        },
    )
}

/// The control packet sent for a routing event: carries this node's
/// advertised table, except for the bare reachability probe.
pub fn build_routing_packet(
    shared: &Shared,
    remote: &NeighborAddr,
    local: &NeighborAddr,
    type_id: u8,
) -> (r: Packet)
    ensures
        r@ == PacketV::Routing(
            RoutingPacketV {
                header: reply_header(local@, remote@),
                table: Some(
                    if type_id == SCC {
                        Seq::empty()
                    } else {
                        spec_advertise(records_view(shared.routing_table@), remote@, local@)
                    },
                ),
            },
            type_id,
        ),
{
    let table = if type_id != SCC {
        shared.get_routing_table(remote, local)
    } else {
        let empty: Vec<crate::protocol::RoutingEntry> = Vec::new();
        proof {
            assert(entries_view(empty@) =~= Seq::<crate::protocol::RoutingEntryV>::empty());
        }
        empty
    };
    Packet::RoutingPacket(
        RoutingPacket { header: make_header(local, remote), table: Some(table) },
        type_id,
    )
}

/// The forwarded form of a packet: application data spends one hop
/// of its budget and is dropped when the budget would reach zero;
/// control traffic passes unchanged.
pub fn forward_packet(packet: Packet) -> (r: Option<Packet>)
    ensures
        match packet@ {
            PacketV::Routed(rp) => {
                &&& rp.header.ttl <= 1 ==> r is None
                &&& rp.header.ttl > 1 ==> (match r {
                    Some(p2) => p2@ == PacketV::Routed(
                        RoutedPacketV {
                            header: SharedHeaderV {
                                source_ip: rp.header.source_ip,
                                source_port: rp.header.source_port,
                                dest_ip: rp.header.dest_ip,
                                dest_port: rp.header.dest_port,
                                ttl: (rp.header.ttl - 1) as u8,
                            },
                            nickname: rp.nickname,
                            message: rp.message,
                        },
                    ),
                    None => false,
                })
            },
            PacketV::Routing(_, _) => r == Some(packet),
        },
{
    match packet {
        Packet::RoutedPacket(mut rp) => {
            if rp.header.ttl <= 1 {
                None
            } else {
                rp.header.ttl = rp.header.ttl - 1;
                Some(Packet::RoutedPacket(rp))
            }
        },
        Packet::RoutingPacket(rp, t) => Some(Packet::RoutingPacket(rp, t)),
    }
}

/// The advertised table carried by a routing packet, empty when
/// absent.
pub open spec fn table_of(rp: RoutingPacketV) -> Seq<crate::protocol::RoutingEntryV> {
    match rp.table {
        Some(t) => t,
        None => Seq::empty(),
    }
}

/// Reacts to one packet read from the connection to `remote`,
/// rewriting the shared state and naming the one send or surface
/// action the task owes.
#[verifier::rlimit(100)]
#[verifier::spinoff_prover]
pub fn handle_packet(shared: &mut Shared, remote: &NeighborAddr, packet: &Packet) -> (r:
    PacketAction)
    requires
        old(shared).wf(),
    ensures
        final(shared).wf(),
        final(shared).peers == old(shared).peers,
        final(shared).nickname == old(shared).nickname,
        final(shared).listener_addr == old(shared).listener_addr,
        match packet@ {
            PacketV::Routed(rp) => {
                let dest = NeighborAddrV { ip: rp.header.dest_ip, port: rp.header.dest_port };
                &&& final(shared).routing_table == old(shared).routing_table
                &&& dest == old(shared).listener_addr@ ==> (match r {
                    PacketAction::Deliver(message, nickname) => message@ == rp.message && nickname@
                        == rp.nickname,
                    _ => false,
                })
                &&& dest != old(shared).listener_addr@ && rp.header.ttl > 0 ==> (match spec_find(
                    records_view(old(shared).routing_table@),
                    dest,
                ) {
                    Some(e) => (match r {
                        PacketAction::ForwardTo(key, p) => key@ == e.next && p@ == packet@,
                        _ => false,
                    }),
                    None => r is NoRoute,
                })
                &&& dest != old(shared).listener_addr@ && rp.header.ttl == 0 ==> r is Drop
            },
            PacketV::Routing(rp, type_id) => {
                let src = NeighborAddrV { ip: rp.header.source_ip, port: rp.header.source_port };
                let tblv = table_of(rp);
                let oldt = records_view(old(shared).routing_table@);
                let localv = old(shared).listener_addr@;
                &&& type_id == CR ==> {
                    &&& src == localv ==> r is ProtocolViolation && final(shared).routing_table
                        == old(shared).routing_table
                    &&& src != localv ==> {
                        let t1 = spec_insert(
                            oldt,
                            src,
                            RoutingTableEntryV { next: remote@, hop_count: 1, ttl: true },
                        );
                        let t2 = spec_apply_all(t1, tblv, remote@, localv);
                        &&& records_view(final(shared).routing_table@) == t2
                        &&& (match r {
                            PacketAction::Reply(p) => p@ == PacketV::Routing(
                                RoutingPacketV {
                                    header: reply_header(localv, remote@),
                                    table: Some(spec_advertise(t2, remote@, localv)),
                                },
                                CRR,
                            ),
                            _ => false,
                        })
                    }
                }
                &&& type_id == STU ==> {
                    let t2 = spec_apply_all(oldt, tblv, remote@, localv);
                    &&& records_view(final(shared).routing_table@) == t2
                    &&& (match r {
                        PacketAction::Reply(p) => p@ == PacketV::Routing(
                            RoutingPacketV {
                                header: reply_header(localv, remote@),
                                table: Some(spec_advertise(t2, remote@, localv)),
                            },
                            CRR,
                        ),
                        _ => false,
                    })
                }
                &&& type_id == CRR ==> records_view(final(shared).routing_table@)
                    == spec_apply_all(oldt, tblv, remote@, localv) && r is Drop
                &&& type_id == SCC ==> final(shared).routing_table == old(shared).routing_table
                    && (match r {
                    PacketAction::Reply(p) => p@ == PacketV::Routing(
                        RoutingPacketV {
                            header: reply_header(localv, remote@),
                            table: Some(Seq::empty()),
                        },
                        SCCR,
                    ),
                    _ => false,
                })
                &&& type_id == SCCR ==> records_view(final(shared).routing_table@)
                    == spec_mark_alive(oldt, src) && r is Drop
                &&& type_id == MESSAGE ==> r is ProtocolViolation && final(shared).routing_table
                    == old(shared).routing_table
                &&& !(type_id == CR || type_id == CRR || type_id == SCC || type_id == SCCR
                    || type_id == STU || type_id == MESSAGE) ==> r is Drop
                    && final(shared).routing_table == old(shared).routing_table
            },
        },
{
    match packet {
        Packet::RoutedPacket(rp) => {
            let dest = NeighborAddr::new(rp.header.dest_ip.clone(), rp.header.dest_port);
            if dest.eq(&shared.listener_addr) {
                PacketAction::Deliver(rp.message.clone(), rp.nickname.clone())
            } else if rp.header.ttl > 0 {
                match shared.get_entry(&dest) {
                    Some(e) => PacketAction::ForwardTo(
                        e.next,
                        Packet::RoutedPacket(
                            RoutedPacket {
                                header: SharedHeader {
                                    source_ip: rp.header.source_ip.clone(),
                                    source_port: rp.header.source_port,
                                    dest_ip: rp.header.dest_ip.clone(),
                                    dest_port: rp.header.dest_port,
                                    ttl: rp.header.ttl,
                                },
                                nickname: rp.nickname.clone(),
                                message: rp.message.clone(),
                            },
                        ),
                    ),
                    None => PacketAction::NoRoute,
                }
            } else {
                PacketAction::Drop
            }
        },
        Packet::RoutingPacket(rp, type_id) => {
            let tid = *type_id;
            let src = NeighborAddr::new(rp.header.source_ip.clone(), rp.header.source_port);
            let empty_table: Vec<crate::protocol::RoutingEntry> = Vec::new();
            proof {
                assert(entries_view(empty_table@) =~= Seq::<
                    crate::protocol::RoutingEntryV,
                >::empty());
            }
            let table: &Vec<crate::protocol::RoutingEntry> = match &rp.table {
                Some(t) => t,
                None => &empty_table,
            };
            if tid == CR {
                if src.eq(&shared.listener_addr) {
                    PacketAction::ProtocolViolation
                } else {
                    shared.insert_direct(&src, remote, 1);
                    shared.update_routing_table(table, remote);
                    let local = shared.listener_addr.dup();
                    let reply = build_routing_packet(shared, remote, &local, CRR);
                    PacketAction::Reply(reply)
                }
            } else if tid == STU {
                shared.update_routing_table(table, remote);
                let local = shared.listener_addr.dup();
                let reply = build_routing_packet(shared, remote, &local, CRR);
                PacketAction::Reply(reply)
            } else if tid == CRR {
                shared.update_routing_table(table, remote);
                PacketAction::Drop
            } else if tid == SCC {
                let local = shared.listener_addr.dup();
                let reply = build_routing_packet(shared, remote, &local, SCC);
                match reply {
                    Packet::RoutingPacket(body, _) => PacketAction::Reply(
                        Packet::RoutingPacket(body, SCCR),
                    ),
                    Packet::RoutedPacket(_) => vstd::pervasive::unreached(),
                }
            } else if tid == SCCR {
                shared.mark_alive(&src);
                PacketAction::Drop
            } else if tid == MESSAGE {
                PacketAction::ProtocolViolation
            } else {
                PacketAction::Drop
            }
        },
    }
}

} // verus!
