//! The packet shapes carried by the codec, and their wire text.
//!
//! A packet is either a `RoutedPacket` (application data) or a
//! `RoutingPacket` (control traffic) tagged with a numeric type id.
//! The payload of a frame is the JSON text of the packet with stable
//! field names; this module writes that text canonically and reads it
//! back.

use vstd::prelude::*;

use crate::json::{
    ascii_seq, emit_ascii, emit_idec, emit_json_string, emit_udec, esc, find_field, is_digit_byte,
    is_ws_byte, lemma_esc_plain, lemma_find_field_canonical, lemma_int32_canonical,
    lemma_obj_tail_canonical, lemma_string_canonical, lemma_subrange_index, lemma_udec_all_digits,
    lemma_uint_canonical, lemma_ws_stops, obj_tail, parse_i32, parse_string_raw, parse_u64_max,
    skip_ws, sp_find_field, sp_int32, sp_obj_tail, sp_string, sp_uint, sp_ws, spec_idec,
    spec_json_string, spec_udec, esc_plain,
};
use crate::text::{bytes_to_string, lemma_utf8_unique};

verus! {

/// Type id of a routed (application data) packet.
pub const MESSAGE: u8 = 1;

/// Type id of a connect request.
pub const CR: u8 = 2;

/// Type id of a connect request reply.
pub const CRR: u8 = 3;

/// Type id of a reachability probe.
pub const SCC: u8 = 4;

/// Type id of a reachability probe reply.
pub const SCCR: u8 = 5;

/// Type id of a scheduled table update.
pub const STU: u8 = 6;

/// The header carried by every packet: origin listener address,
/// ultimate destination, and a hop budget.
#[derive(Clone, Debug, PartialEq, Eq)]
pub struct SharedHeader {
    pub source_ip: String,
    pub source_port: u16,
    pub dest_ip: String,
    pub dest_port: u16,
    pub ttl: u8,
}

/// Application data forwarded hop by hop toward its destination.
#[derive(Clone, Debug, PartialEq, Eq)]
pub struct RoutedPacket {
    pub header: SharedHeader,
    pub nickname: String,
    pub message: String,
}

/// One advertised route inside a routing packet.
#[derive(Clone, Debug, PartialEq, Eq)]
pub struct RoutingEntry {
    pub target_ip: String,
    pub target_port: u16,
    pub next_ip: String,
    pub next_port: u16,
    pub hop_count: i32,
}

/// Control traffic: an optional advertised table; the meaning comes
/// from the type id carried beside it.
#[derive(Clone, Debug, PartialEq, Eq)]
pub struct RoutingPacket {
    pub header: SharedHeader,
    pub table: Option<Vec<RoutingEntry>>,
}

/// A packet of the protocol.
#[derive(Clone, Debug, PartialEq, Eq)]
pub enum Packet {
    RoutedPacket(RoutedPacket),
    RoutingPacket(RoutingPacket, u8),
}

pub ghost struct SharedHeaderV {
    pub source_ip: Seq<char>,
    pub source_port: u16,
    pub dest_ip: Seq<char>,
    pub dest_port: u16,
    pub ttl: u8,
}

pub ghost struct RoutedPacketV {
    pub header: SharedHeaderV,
    pub nickname: Seq<char>,
    pub message: Seq<char>,
}

pub ghost struct RoutingEntryV {
    pub target_ip: Seq<char>,
    pub target_port: u16,
    pub next_ip: Seq<char>,
    pub next_port: u16,
    pub hop_count: i32,
}

pub ghost struct RoutingPacketV {
    pub header: SharedHeaderV,
    pub table: Option<Seq<RoutingEntryV>>,
}

pub ghost enum PacketV {
    Routed(RoutedPacketV),
    Routing(RoutingPacketV, u8),
}

impl View for SharedHeader {
    type V = SharedHeaderV;

    open spec fn view(&self) -> SharedHeaderV {
        SharedHeaderV {
            source_ip: self.source_ip@,
            source_port: self.source_port,
            dest_ip: self.dest_ip@,
            dest_port: self.dest_port,
            ttl: self.ttl,
        }
    }
}

impl View for RoutedPacket {
    type V = RoutedPacketV;

    open spec fn view(&self) -> RoutedPacketV {
        RoutedPacketV { header: self.header@, nickname: self.nickname@, message: self.message@ }
    }
}

impl View for RoutingEntry {
    type V = RoutingEntryV;

    open spec fn view(&self) -> RoutingEntryV {
        RoutingEntryV {
            target_ip: self.target_ip@,
            target_port: self.target_port,
            next_ip: self.next_ip@,
            next_port: self.next_port,
            hop_count: self.hop_count,
        }
    }
}

/// The views of a sequence of routing entries.
pub open spec fn entries_view(s: Seq<RoutingEntry>) -> Seq<RoutingEntryV> {
    s.map_values(|e: RoutingEntry| e@)
}

impl View for RoutingPacket {
    type V = RoutingPacketV;

    open spec fn view(&self) -> RoutingPacketV {
        RoutingPacketV {
            header: self.header@,
            table: match self.table {
                Some(entries) => Some(entries_view(entries@)),
                None => None,
            },
        }
    }
}

impl View for Packet {
    type V = PacketV;

    open spec fn view(&self) -> PacketV {
        match self {
            Packet::RoutedPacket(p) => PacketV::Routed(p@),
            Packet::RoutingPacket(p, t) => PacketV::Routing(p@, *t),
        }
    }
}

impl Packet {
    /// The type id that goes into the frame header for this packet.
    pub open spec fn spec_type_id(self) -> u8 {
        match self {
            Packet::RoutedPacket(_) => MESSAGE,
            Packet::RoutingPacket(_, t) => t,
        }
    }

    pub fn type_id(&self) -> (r: u8)
        ensures
            r == self.spec_type_id(),
    {
        match self {
            Packet::RoutedPacket(_) => MESSAGE,
            Packet::RoutingPacket(_, t) => *t,
        }
    }
}

/// The type id of a packet view.
pub open spec fn view_type_id(p: PacketV) -> u8 {
    match p {
        PacketV::Routed(_) => MESSAGE,
        PacketV::Routing(_, t) => t,
    }
}

// ---------------------------------------------------------------------
// canonical serialization
// ---------------------------------------------------------------------

/// `"key":` followed by the value bytes.
pub open spec fn ser_field(key: Seq<char>, val: Seq<u8>) -> Seq<u8> {
    seq![0x22u8] + ascii_seq(key) + seq![0x22u8, 0x3au8] + val
}

pub open spec fn ser_header(h: SharedHeaderV) -> Seq<u8> {
    seq![0x7bu8] + ser_field("source_ip"@, spec_json_string(h.source_ip)) + seq![0x2cu8]
        + ser_field("source_port"@, spec_udec(h.source_port as nat)) + seq![0x2cu8] + ser_field(
        "dest_ip"@,
        spec_json_string(h.dest_ip),
    ) + seq![0x2cu8] + ser_field("dest_port"@, spec_udec(h.dest_port as nat)) + seq![0x2cu8]
        + ser_field("ttl"@, spec_udec(h.ttl as nat)) + seq![0x7du8]
}

pub open spec fn ser_entry(e: RoutingEntryV) -> Seq<u8> {
    seq![0x7bu8] + ser_field("target_ip"@, spec_json_string(e.target_ip)) + seq![0x2cu8]
        + ser_field("target_port"@, spec_udec(e.target_port as nat)) + seq![0x2cu8] + ser_field(
        "next_ip"@,
        spec_json_string(e.next_ip),
    ) + seq![0x2cu8] + ser_field("next_port"@, spec_udec(e.next_port as nat)) + seq![0x2cu8]
        + ser_field("hop_count"@, spec_idec(e.hop_count as int)) + seq![0x7du8]
}

/// The entries of a table, joined by commas.
pub open spec fn ser_entries(s: Seq<RoutingEntryV>) -> Seq<u8>
    decreases s.len(),
{
    if s.len() == 0 {
        Seq::empty()
    } else if s.len() == 1 {
        ser_entry(s[0])
    } else {
        ser_entry(s[0]) + seq![0x2cu8] + ser_entries(s.drop_first())
    }
}

pub open spec fn ser_table(t: Option<Seq<RoutingEntryV>>) -> Seq<u8> {
    match t {
        Some(s) => seq![0x5bu8] + ser_entries(s) + seq![0x5du8],
        None => seq![0x6eu8, 0x75u8, 0x6cu8, 0x6cu8],
    }
}

pub open spec fn ser_routed(p: RoutedPacketV) -> Seq<u8> {
    seq![0x7bu8] + ser_field("header"@, ser_header(p.header)) + seq![0x2cu8] + ser_field(
        "nickname"@,
        spec_json_string(p.nickname),
    ) + seq![0x2cu8] + ser_field("message"@, spec_json_string(p.message)) + seq![0x7du8]
}

pub open spec fn ser_routing(p: RoutingPacketV) -> Seq<u8> {
    seq![0x7bu8] + ser_field("header"@, ser_header(p.header)) + seq![0x2cu8] + ser_field(
        "table"@,
        ser_table(p.table),
    ) + seq![0x7du8]
}

/// The JSON payload bytes of a packet.
pub open spec fn ser_payload(p: PacketV) -> Seq<u8> {
    match p {
        PacketV::Routed(rp) => ser_routed(rp),
        PacketV::Routing(rp, _) => ser_routing(rp),
    }
}

/// Writes `"key":`.
pub fn emit_field_start(out: &mut Vec<u8>, key: &str)
    requires
        key.is_ascii(),
    ensures
        final(out)@ == old(out)@ + seq![0x22u8] + ascii_seq(key@) + seq![0x22u8, 0x3au8],
{
    out.push(0x22);
    emit_ascii(out, key);
    out.push(0x22);
    out.push(0x3a);
    assert(out@ =~= old(out)@ + seq![0x22u8] + ascii_seq(key@) + seq![0x22u8, 0x3au8]);
}

#[verifier::rlimit(80)]
pub fn emit_header(out: &mut Vec<u8>, h: &SharedHeader)
    ensures
        final(out)@ == old(out)@ + ser_header(h@),
{
    out.push(0x7b);
    proof {
        ascii_key_source_ip();
    }
    emit_field_start(out, "source_ip");
    emit_json_string(out, self_str(&h.source_ip));
    out.push(0x2c);
    proof {
        ascii_key_source_port();
    }
    emit_field_start(out, "source_port");
    emit_udec(out, h.source_port as u64);
    out.push(0x2c);
    proof {
        ascii_key_dest_ip();
    }
    emit_field_start(out, "dest_ip");
    emit_json_string(out, self_str(&h.dest_ip));
    out.push(0x2c);
    proof {
        ascii_key_dest_port();
    }
    emit_field_start(out, "dest_port");
    emit_udec(out, h.dest_port as u64);
    out.push(0x2c);
    proof {
        ascii_key_ttl();
    }
    emit_field_start(out, "ttl");
    emit_udec(out, h.ttl as u64);
    out.push(0x7d);
    assert(out@ =~= old(out)@ + ser_header(h@));
}

/// The borrowed `&str` of a `String`, with the same view.
pub fn self_str(s: &String) -> (r: &str)
    ensures
        r@ == s@,
{
    s.as_str()
}

#[verifier::rlimit(80)]
pub fn emit_entry(out: &mut Vec<u8>, e: &RoutingEntry)
    ensures
        final(out)@ == old(out)@ + ser_entry(e@),
{
    out.push(0x7b);
    proof {
        ascii_key_target_ip();
    }
    emit_field_start(out, "target_ip");
    emit_json_string(out, self_str(&e.target_ip));
    out.push(0x2c);
    proof {
        ascii_key_target_port();
    }
    emit_field_start(out, "target_port");
    emit_udec(out, e.target_port as u64);
    out.push(0x2c);
    proof {
        ascii_key_next_ip();
    }
    emit_field_start(out, "next_ip");
    emit_json_string(out, self_str(&e.next_ip));
    out.push(0x2c);
    proof {
        ascii_key_next_port();
    }
    emit_field_start(out, "next_port");
    emit_udec(out, e.next_port as u64);
    out.push(0x2c);
    proof {
        ascii_key_hop_count();
    }
    emit_field_start(out, "hop_count");
    emit_idec(out, e.hop_count);
    out.push(0x7d);
    assert(out@ =~= old(out)@ + ser_entry(e@));
}

pub proof fn lemma_ser_entries_push(s: Seq<RoutingEntryV>, e: RoutingEntryV)
    ensures
        s.len() == 0 ==> ser_entries(s.push(e)) == ser_entry(e),
        s.len() > 0 ==> ser_entries(s.push(e)) == ser_entries(s) + seq![0x2cu8] + ser_entry(e),
    decreases s.len(),
{
    if s.len() == 0 {
        assert(s.push(e)[0] == e);
        assert(ser_entries(s.push(e)) == ser_entry(e));
    } else {
        let sp = s.push(e);
        assert(sp.len() >= 2);
        assert(sp[0] == s[0]);
        assert(sp.drop_first() =~= s.drop_first().push(e));
        lemma_ser_entries_push(s.drop_first(), e);
        if s.len() == 1 {
            assert(s.drop_first().len() == 0);
            assert(ser_entries(sp) == ser_entry(s[0]) + seq![0x2cu8] + ser_entry(e));
            assert(ser_entries(s) == ser_entry(s[0]));
            assert(ser_entries(sp) =~= ser_entries(s) + seq![0x2cu8] + ser_entry(e));
        } else {
            assert(ser_entries(sp) == ser_entry(s[0]) + seq![0x2cu8] + (ser_entries(s.drop_first())
                + seq![0x2cu8] + ser_entry(e)));
            assert(ser_entries(s) == ser_entry(s[0]) + seq![0x2cu8] + ser_entries(s.drop_first()));
            assert(ser_entries(sp) =~= ser_entries(s) + seq![0x2cu8] + ser_entry(e));
        }
    }
}

#[verifier::loop_isolation(false)]
pub fn emit_table(out: &mut Vec<u8>, t: &Option<Vec<RoutingEntry>>)
    ensures
        final(out)@ == old(out)@ + ser_table(
            match t {
                Some(entries) => Some(entries_view(entries@)),
                None => None,
            },
        ),
{
    match t {
        None => {
            out.push(0x6e);
            out.push(0x75);
            out.push(0x6c);
            out.push(0x6c);
            assert(out@ =~= old(out)@ + ser_table(None));
        },
        Some(entries) => {
            out.push(0x5b);
            let n = entries.len();
            let mut k: usize = 0;
            while k < n
                invariant
                    k <= n,
                    n == entries@.len(),
                    out@ == old(out)@ + seq![0x5bu8] + ser_entries(
                        entries_view(entries@.take(k as int)),
                    ),
                decreases n - k,
            {
                if k > 0 {
                    out.push(0x2c);
                }
                emit_entry(out, &entries[k]);
                proof {
                    let prefix = entries_view(entries@.take(k as int));
                    let ev = entries@[k as int]@;
                    assert(entries_view(entries@.take(k as int + 1)) =~= prefix.push(ev));
                    lemma_ser_entries_push(prefix, ev);
                    assert(prefix.len() == k);
                    if k == 0 {
                        assert(out@ =~= old(out)@ + seq![0x5bu8] + ser_entries(prefix.push(ev)));
                    } else {
                        assert(out@ =~= old(out)@ + seq![0x5bu8] + ser_entries(prefix.push(ev)));
                    }
                }
                k = k + 1;
            }
            proof {
                assert(entries@.take(n as int) =~= entries@);
            }
            out.push(0x5d);
            assert(out@ =~= old(out)@ + ser_table(Some(entries_view(entries@))));
        },
    }
}

#[verifier::rlimit(80)]
pub fn emit_routed(out: &mut Vec<u8>, p: &RoutedPacket)
    ensures
        final(out)@ == old(out)@ + ser_routed(p@),
{
    out.push(0x7b);
    proof {
        ascii_key_header();
    }
    emit_field_start(out, "header");
    emit_header(out, &p.header);
    out.push(0x2c);
    proof {
        ascii_key_nickname();
    }
    emit_field_start(out, "nickname");
    emit_json_string(out, self_str(&p.nickname));
    out.push(0x2c);
    proof {
        ascii_key_message();
    }
    emit_field_start(out, "message");
    emit_json_string(out, self_str(&p.message));
    out.push(0x7d);
    assert(out@ =~= old(out)@ + ser_routed(p@));
}

#[verifier::rlimit(80)]
pub fn emit_routing(out: &mut Vec<u8>, p: &RoutingPacket)
    ensures
        final(out)@ == old(out)@ + ser_routing(p@),
{
    out.push(0x7b);
    proof {
        ascii_key_header();
    }
    emit_field_start(out, "header");
    emit_header(out, &p.header);
    out.push(0x2c);
    proof {
        ascii_key_table();
    }
    emit_field_start(out, "table");
    emit_table(out, &p.table);
    out.push(0x7d);
    assert(out@ =~= old(out)@ + ser_routing(p@));
}

/// The canonical JSON payload of a packet.
pub fn encode_payload(p: &Packet) -> (r: Vec<u8>)
    ensures
        r@ == ser_payload(p@),
{
    let mut out: Vec<u8> = Vec::new();
    match p {
        Packet::RoutedPacket(rp) => emit_routed(&mut out, rp),
        Packet::RoutingPacket(rp, _) => emit_routing(&mut out, rp),
    }
    assert(out@ =~= ser_payload(p@));
    out
}

// ---------------------------------------------------------------------
// parsing: specification
// ---------------------------------------------------------------------

/// Whitespace, then the opening brace; the position after it.
pub open spec fn sp_obj_open(v: Seq<u8>, i: int) -> Option<int> {
    let i0 = sp_ws(v, i);
    if 0 <= i0 < v.len() && v[i0] == 0x7b {
        Some(i0 + 1)
    } else {
        None
    }
}

/// Whitespace, then a comma; the position after it.
pub open spec fn sp_comma(v: Seq<u8>, i: int) -> Option<int> {
    let i0 = sp_ws(v, i);
    if 0 <= i0 < v.len() && v[i0] == 0x2c {
        Some(i0 + 1)
    } else {
        None
    }
}

/// A JSON string whose content bytes are valid UTF-8, as characters.
pub open spec fn sp_string_utf8(v: Seq<u8>, i: int) -> Option<(Seq<char>, int)> {
    match sp_string(v, i) {
        None => None,
        Some((raw, j)) => if vstd::utf8::valid_utf8(raw) {
            Some((vstd::utf8::decode_utf8(raw), j))
        } else {
            None
        },
    }
}

/// Reads a shared header object starting at `i` (whitespace allowed);
/// yields its view and the position after the closing brace.
#[verifier::opaque]
pub open spec fn sp_parse_header(v: Seq<u8>, i: int, fuel: nat) -> Option<(SharedHeaderV, int)> {
    match sp_obj_open(v, i) {
        None => None,
        Some(o) => match sp_find_field(v, o, ascii_seq("source_ip"@), fuel) {
            None => None,
            Some(p1) => match sp_string_utf8(v, p1) {
                None => None,
                Some((s1, j1)) => match sp_comma(v, j1) {
                    None => None,
                    Some(c1) => match sp_find_field(v, c1, ascii_seq("source_port"@), fuel) {
                        None => None,
                        Some(p2) => match sp_uint(v, p2, 0xffff) {
                            None => None,
                            Some((n2, j2)) => match sp_comma(v, j2) {
                                None => None,
                                Some(c2) => match sp_find_field(v, c2, ascii_seq("dest_ip"@), fuel) {
                                    None => None,
                                    Some(p3) => match sp_string_utf8(v, p3) {
                                        None => None,
                                        Some((s3, j3)) => match sp_comma(v, j3) {
                                            None => None,
                                            Some(c3) => match sp_find_field(v, c3, ascii_seq("dest_port"@), fuel) {
                                                None => None,
                                                Some(p4) => match sp_uint(v, p4, 0xffff) {
                                                    None => None,
                                                    Some((n4, j4)) => match sp_comma(v, j4) {
                                                        None => None,
                                                        Some(c4) => match sp_find_field(v, c4, ascii_seq("ttl"@), fuel) {
                                                            None => None,
                                                            Some(p5) => match sp_uint(v, p5, 0xff) {
                                                                None => None,
                                                                Some((n5, j5)) => match sp_obj_tail(v, j5, fuel) {
                                                                    None => None,
                                                                    Some(e) => Some(
                                                                        (
                                                                            SharedHeaderV {
                                                                                source_ip: s1,
                                                                                source_port: n2 as u16,
                                                                                dest_ip: s3,
                                                                                dest_port: n4 as u16,
                                                                                ttl: n5 as u8,
                                                                            },
                                                                            e,
                                                                        ),
                                                                    ),
                                                                },
                                                            },
                                                        },
                                                    },
                                                },
                                            },
                                        },
                                    },
                                },
                            },
                        },
                    },
                },
            },
        },
    }
}

/// Reads one advertised route object starting at `i`.
#[verifier::opaque]
pub open spec fn sp_parse_entry(v: Seq<u8>, i: int, fuel: nat) -> Option<(RoutingEntryV, int)> {
    match sp_obj_open(v, i) {
        None => None,
        Some(o) => match sp_find_field(v, o, ascii_seq("target_ip"@), fuel) {
            None => None,
            Some(p1) => match sp_string_utf8(v, p1) {
                None => None,
                Some((s1, j1)) => match sp_comma(v, j1) {
                    None => None,
                    Some(c1) => match sp_find_field(v, c1, ascii_seq("target_port"@), fuel) {
                        None => None,
                        Some(p2) => match sp_uint(v, p2, 0xffff) {
                            None => None,
                            Some((n2, j2)) => match sp_comma(v, j2) {
                                None => None,
                                Some(c2) => match sp_find_field(v, c2, ascii_seq("next_ip"@), fuel) {
                                    None => None,
                                    Some(p3) => match sp_string_utf8(v, p3) {
                                        None => None,
                                        Some((s3, j3)) => match sp_comma(v, j3) {
                                            None => None,
                                            Some(c3) => match sp_find_field(v, c3, ascii_seq("next_port"@), fuel) {
                                                None => None,
                                                Some(p4) => match sp_uint(v, p4, 0xffff) {
                                                    None => None,
                                                    Some((n4, j4)) => match sp_comma(v, j4) {
                                                        None => None,
                                                        Some(c4) => match sp_find_field(v, c4, ascii_seq("hop_count"@), fuel) {
                                                            None => None,
                                                            Some(p5) => match sp_int32(v, p5) {
                                                                None => None,
                                                                Some((n5, j5)) => match sp_obj_tail(v, j5, fuel) {
                                                                    None => None,
                                                                    Some(e) => Some(
                                                                        (
                                                                            RoutingEntryV {
                                                                                target_ip: s1,
                                                                                target_port: n2 as u16,
                                                                                next_ip: s3,
                                                                                next_port: n4 as u16,
                                                                                hop_count: n5 as i32,
                                                                            },
                                                                            e,
                                                                        ),
                                                                    ),
                                                                },
                                                            },
                                                        },
                                                    },
                                                },
                                            },
                                        },
                                    },
                                },
                            },
                        },
                    },
                },
            },
        },
    }
}

/// After an entry inside an array: either the closing bracket or a
/// comma and another entry.
pub open spec fn sp_entries_rest(v: Seq<u8>, i: int, fuel: nat) -> Option<
    (Seq<RoutingEntryV>, int),
>
    decreases fuel,
{
    if fuel == 0 {
        None
    } else {
        let i0 = sp_ws(v, i);
        if 0 <= i0 < v.len() && v[i0] == 0x5d {
            Some((Seq::empty(), i0 + 1))
        } else if 0 <= i0 < v.len() && v[i0] == 0x2c {
            match sp_parse_entry(v, i0 + 1, fuel) {
                None => None,
                Some((e, j)) => match sp_entries_rest(v, j, (fuel - 1) as nat) {
                    None => None,
                    Some((rest, k)) => Some((seq![e] + rest, k)),
                },
            }
        } else {
            None
        }
    }
}

/// The contents of a table array whose opening bracket has been
/// consumed.
pub open spec fn sp_parse_table_array(v: Seq<u8>, i: int, fuel: nat) -> Option<
    (Seq<RoutingEntryV>, int),
> {
    let i0 = sp_ws(v, i);
    if 0 <= i0 < v.len() && v[i0] == 0x5d {
        Some((Seq::empty(), i0 + 1))
    } else {
        match sp_parse_entry(v, i, fuel) {
            None => None,
            Some((e, j)) => match sp_entries_rest(v, j, fuel) {
                None => None,
                Some((rest, k)) => Some((seq![e] + rest, k)),
            },
        }
    }
}

/// A table value: an array of entries or `null`.
pub open spec fn sp_parse_table(v: Seq<u8>, i: int, fuel: nat) -> Option<
    (Option<Seq<RoutingEntryV>>, int),
> {
    let i0 = sp_ws(v, i);
    if 0 <= i0 < v.len() && v[i0] == 0x5b {
        match sp_parse_table_array(v, i0 + 1, fuel) {
            None => None,
            Some((s, j)) => Some((Some(s), j)),
        }
    } else if 0 <= i0 && i0 + 4 <= v.len() && v[i0] == 0x6e && v[i0 + 1] == 0x75 && v[i0 + 2]
        == 0x6c && v[i0 + 3] == 0x6c {
        Some((None, i0 + 4))
    } else {
        None
    }
}

/// A whole routed packet payload: the object and nothing after it but
/// whitespace.
pub open spec fn sp_parse_routed(v: Seq<u8>, fuel: nat) -> Option<RoutedPacketV> {
    match sp_obj_open(v, 0) {
        None => None,
        Some(o) => match sp_find_field(v, o, ascii_seq("header"@), fuel) {
            None => None,
            Some(p1) => match sp_parse_header(v, p1, fuel) {
                None => None,
                Some((h, j1)) => match sp_comma(v, j1) {
                    None => None,
                    Some(c1) => match sp_find_field(v, c1, ascii_seq("nickname"@), fuel) {
                        None => None,
                        Some(p2) => match sp_string_utf8(v, p2) {
                            None => None,
                            Some((s2, j2)) => match sp_comma(v, j2) {
                                None => None,
                                Some(c2) => match sp_find_field(v, c2, ascii_seq("message"@), fuel) {
                                    None => None,
                                    Some(p3) => match sp_string_utf8(v, p3) {
                                        None => None,
                                        Some((s3, j3)) => match sp_obj_tail(v, j3, fuel) {
                                            None => None,
                                            Some(e) => if sp_ws(v, e) == v.len() {
                                                Some(
                                                    RoutedPacketV {
                                                        header: h,
                                                        nickname: s2,
                                                        message: s3,
                                                    },
                                                )
                                            } else {
                                                None
                                            },
                                        },
                                    },
                                },
                            },
                        },
                    },
                },
            },
        },
    }
}

/// A whole routing packet payload.
pub open spec fn sp_parse_routing(v: Seq<u8>, fuel: nat) -> Option<RoutingPacketV> {
    match sp_obj_open(v, 0) {
        None => None,
        Some(o) => match sp_find_field(v, o, ascii_seq("header"@), fuel) {
            None => None,
            Some(p1) => match sp_parse_header(v, p1, fuel) {
                None => None,
                Some((h, j1)) => match sp_comma(v, j1) {
                    None => None,
                    Some(c1) => match sp_find_field(v, c1, ascii_seq("table"@), fuel) {
                        None => None,
                        Some(p2) => match sp_parse_table(v, p2, fuel) {
                            None => None,
                            Some((t, j2)) => match sp_obj_tail(v, j2, fuel) {
                                None => None,
                                Some(e) => if sp_ws(v, e) == v.len() {
                                    Some(RoutingPacketV { header: h, table: t })
                                } else {
                                    None
                                },
                            },
                        },
                    },
                },
            },
        },
    }
}

/// A payload interpreted under a frame type id.
pub open spec fn sp_parse_payload(v: Seq<u8>, type_id: u8, fuel: nat) -> Option<PacketV> {
    if type_id == MESSAGE {
        match sp_parse_routed(v, fuel) {
            None => None,
            Some(p) => Some(PacketV::Routed(p)),
        }
    } else if type_id == CR || type_id == CRR || type_id == SCC || type_id == SCCR || type_id
        == STU {
        match sp_parse_routing(v, fuel) {
            None => None,
            Some(p) => Some(PacketV::Routing(p, type_id)),
        }
    } else {
        None
    }
}

// ---------------------------------------------------------------------
// parsing: executable code, mirroring the specification
// ---------------------------------------------------------------------

// Facts that the field names are ASCII, each proved from its literal.

pub proof fn ascii_key_length()
    ensures
        vstd::utf8::is_ascii_chars("length"@),
        esc_plain(ascii_seq("length"@)),
{
    reveal_strlit("length");
    assert(vstd::utf8::is_ascii_chars("length"@));
    assert forall|t: int| 0 <= t < ascii_seq("length"@).len() implies 0x20 <= #[trigger] ascii_seq(
        "length"@,
    )[t] < 0x80 && ascii_seq("length"@)[t] != 0x22 && ascii_seq("length"@)[t] != 0x5c by {
        assert(ascii_seq("length"@)[t] == ("length"@)[t] as u8);
    }
}

pub proof fn ascii_key_crc32()
    ensures
        vstd::utf8::is_ascii_chars("crc32"@),
        esc_plain(ascii_seq("crc32"@)),
{
    reveal_strlit("crc32");
    assert(vstd::utf8::is_ascii_chars("crc32"@));
    assert forall|t: int| 0 <= t < ascii_seq("crc32"@).len() implies 0x20 <= #[trigger] ascii_seq(
        "crc32"@,
    )[t] < 0x80 && ascii_seq("crc32"@)[t] != 0x22 && ascii_seq("crc32"@)[t] != 0x5c by {
        assert(ascii_seq("crc32"@)[t] == ("crc32"@)[t] as u8);
    }
}

pub proof fn ascii_key_type_id()
    ensures
        vstd::utf8::is_ascii_chars("type_id"@),
        esc_plain(ascii_seq("type_id"@)),
{
    reveal_strlit("type_id");
    assert(vstd::utf8::is_ascii_chars("type_id"@));
    assert forall|t: int| 0 <= t < ascii_seq("type_id"@).len() implies 0x20 <= #[trigger] ascii_seq(
        "type_id"@,
    )[t] < 0x80 && ascii_seq("type_id"@)[t] != 0x22 && ascii_seq("type_id"@)[t] != 0x5c by {
        assert(ascii_seq("type_id"@)[t] == ("type_id"@)[t] as u8);
    }
}

pub proof fn ascii_key_source_ip()
    ensures
        vstd::utf8::is_ascii_chars("source_ip"@),
        esc_plain(ascii_seq("source_ip"@)),
{
    reveal_strlit("source_ip");
    assert(vstd::utf8::is_ascii_chars("source_ip"@));
    assert forall|t: int| 0 <= t < ascii_seq("source_ip"@).len() implies 0x20 <= #[trigger] ascii_seq(
        "source_ip"@,
    )[t] < 0x80 && ascii_seq("source_ip"@)[t] != 0x22 && ascii_seq("source_ip"@)[t] != 0x5c by {
        assert(ascii_seq("source_ip"@)[t] == ("source_ip"@)[t] as u8);
    }
}

pub proof fn ascii_key_source_port()
    ensures
        vstd::utf8::is_ascii_chars("source_port"@),
        esc_plain(ascii_seq("source_port"@)),
{
    reveal_strlit("source_port");
    assert(vstd::utf8::is_ascii_chars("source_port"@));
    assert forall|t: int| 0 <= t < ascii_seq("source_port"@).len() implies 0x20 <= #[trigger] ascii_seq(
        "source_port"@,
    )[t] < 0x80 && ascii_seq("source_port"@)[t] != 0x22 && ascii_seq("source_port"@)[t] != 0x5c by {
        assert(ascii_seq("source_port"@)[t] == ("source_port"@)[t] as u8);
    }
}

pub proof fn ascii_key_dest_ip()
    ensures
        vstd::utf8::is_ascii_chars("dest_ip"@),
        esc_plain(ascii_seq("dest_ip"@)),
{
    reveal_strlit("dest_ip");
    assert(vstd::utf8::is_ascii_chars("dest_ip"@));
    assert forall|t: int| 0 <= t < ascii_seq("dest_ip"@).len() implies 0x20 <= #[trigger] ascii_seq(
        "dest_ip"@,
    )[t] < 0x80 && ascii_seq("dest_ip"@)[t] != 0x22 && ascii_seq("dest_ip"@)[t] != 0x5c by {
        assert(ascii_seq("dest_ip"@)[t] == ("dest_ip"@)[t] as u8);
    }
}

pub proof fn ascii_key_dest_port()
    ensures
        vstd::utf8::is_ascii_chars("dest_port"@),
        esc_plain(ascii_seq("dest_port"@)),
{
    reveal_strlit("dest_port");
    assert(vstd::utf8::is_ascii_chars("dest_port"@));
    assert forall|t: int| 0 <= t < ascii_seq("dest_port"@).len() implies 0x20 <= #[trigger] ascii_seq(
        "dest_port"@,
    )[t] < 0x80 && ascii_seq("dest_port"@)[t] != 0x22 && ascii_seq("dest_port"@)[t] != 0x5c by {
        assert(ascii_seq("dest_port"@)[t] == ("dest_port"@)[t] as u8);
    }
}

pub proof fn ascii_key_ttl()
    ensures
        vstd::utf8::is_ascii_chars("ttl"@),
        esc_plain(ascii_seq("ttl"@)),
{
    reveal_strlit("ttl");
    assert(vstd::utf8::is_ascii_chars("ttl"@));
    assert forall|t: int| 0 <= t < ascii_seq("ttl"@).len() implies 0x20 <= #[trigger] ascii_seq(
        "ttl"@,
    )[t] < 0x80 && ascii_seq("ttl"@)[t] != 0x22 && ascii_seq("ttl"@)[t] != 0x5c by {
        assert(ascii_seq("ttl"@)[t] == ("ttl"@)[t] as u8);
    }
}

pub proof fn ascii_key_target_ip()
    ensures
        vstd::utf8::is_ascii_chars("target_ip"@),
        esc_plain(ascii_seq("target_ip"@)),
{
    reveal_strlit("target_ip");
    assert(vstd::utf8::is_ascii_chars("target_ip"@));
    assert forall|t: int| 0 <= t < ascii_seq("target_ip"@).len() implies 0x20 <= #[trigger] ascii_seq(
        "target_ip"@,
    )[t] < 0x80 && ascii_seq("target_ip"@)[t] != 0x22 && ascii_seq("target_ip"@)[t] != 0x5c by {
        assert(ascii_seq("target_ip"@)[t] == ("target_ip"@)[t] as u8);
    }
}

pub proof fn ascii_key_target_port()
    ensures
        vstd::utf8::is_ascii_chars("target_port"@),
        esc_plain(ascii_seq("target_port"@)),
{
    reveal_strlit("target_port");
    assert(vstd::utf8::is_ascii_chars("target_port"@));
    assert forall|t: int| 0 <= t < ascii_seq("target_port"@).len() implies 0x20 <= #[trigger] ascii_seq(
        "target_port"@,
    )[t] < 0x80 && ascii_seq("target_port"@)[t] != 0x22 && ascii_seq("target_port"@)[t] != 0x5c by {
        assert(ascii_seq("target_port"@)[t] == ("target_port"@)[t] as u8);
    }
}

pub proof fn ascii_key_next_ip()
    ensures
        vstd::utf8::is_ascii_chars("next_ip"@),
        esc_plain(ascii_seq("next_ip"@)),
{
    reveal_strlit("next_ip");
    assert(vstd::utf8::is_ascii_chars("next_ip"@));
    assert forall|t: int| 0 <= t < ascii_seq("next_ip"@).len() implies 0x20 <= #[trigger] ascii_seq(
        "next_ip"@,
    )[t] < 0x80 && ascii_seq("next_ip"@)[t] != 0x22 && ascii_seq("next_ip"@)[t] != 0x5c by {
        assert(ascii_seq("next_ip"@)[t] == ("next_ip"@)[t] as u8);
    }
}

pub proof fn ascii_key_next_port()
    ensures
        vstd::utf8::is_ascii_chars("next_port"@),
        esc_plain(ascii_seq("next_port"@)),
{
    reveal_strlit("next_port");
    assert(vstd::utf8::is_ascii_chars("next_port"@));
    assert forall|t: int| 0 <= t < ascii_seq("next_port"@).len() implies 0x20 <= #[trigger] ascii_seq(
        "next_port"@,
    )[t] < 0x80 && ascii_seq("next_port"@)[t] != 0x22 && ascii_seq("next_port"@)[t] != 0x5c by {
        assert(ascii_seq("next_port"@)[t] == ("next_port"@)[t] as u8);
    }
}

pub proof fn ascii_key_hop_count()
    ensures
        vstd::utf8::is_ascii_chars("hop_count"@),
        esc_plain(ascii_seq("hop_count"@)),
{
    reveal_strlit("hop_count");
    assert(vstd::utf8::is_ascii_chars("hop_count"@));
    assert forall|t: int| 0 <= t < ascii_seq("hop_count"@).len() implies 0x20 <= #[trigger] ascii_seq(
        "hop_count"@,
    )[t] < 0x80 && ascii_seq("hop_count"@)[t] != 0x22 && ascii_seq("hop_count"@)[t] != 0x5c by {
        assert(ascii_seq("hop_count"@)[t] == ("hop_count"@)[t] as u8);
    }
}

pub proof fn ascii_key_header()
    ensures
        vstd::utf8::is_ascii_chars("header"@),
        esc_plain(ascii_seq("header"@)),
{
    reveal_strlit("header");
    assert(vstd::utf8::is_ascii_chars("header"@));
    assert forall|t: int| 0 <= t < ascii_seq("header"@).len() implies 0x20 <= #[trigger] ascii_seq(
        "header"@,
    )[t] < 0x80 && ascii_seq("header"@)[t] != 0x22 && ascii_seq("header"@)[t] != 0x5c by {
        assert(ascii_seq("header"@)[t] == ("header"@)[t] as u8);
    }
}

pub proof fn ascii_key_nickname()
    ensures
        vstd::utf8::is_ascii_chars("nickname"@),
        esc_plain(ascii_seq("nickname"@)),
{
    reveal_strlit("nickname");
    assert(vstd::utf8::is_ascii_chars("nickname"@));
    assert forall|t: int| 0 <= t < ascii_seq("nickname"@).len() implies 0x20 <= #[trigger] ascii_seq(
        "nickname"@,
    )[t] < 0x80 && ascii_seq("nickname"@)[t] != 0x22 && ascii_seq("nickname"@)[t] != 0x5c by {
        assert(ascii_seq("nickname"@)[t] == ("nickname"@)[t] as u8);
    }
}

pub proof fn ascii_key_message()
    ensures
        vstd::utf8::is_ascii_chars("message"@),
        esc_plain(ascii_seq("message"@)),
{
    reveal_strlit("message");
    assert(vstd::utf8::is_ascii_chars("message"@));
    assert forall|t: int| 0 <= t < ascii_seq("message"@).len() implies 0x20 <= #[trigger] ascii_seq(
        "message"@,
    )[t] < 0x80 && ascii_seq("message"@)[t] != 0x22 && ascii_seq("message"@)[t] != 0x5c by {
        assert(ascii_seq("message"@)[t] == ("message"@)[t] as u8);
    }
}

pub proof fn ascii_key_table()
    ensures
        vstd::utf8::is_ascii_chars("table"@),
        esc_plain(ascii_seq("table"@)),
{
    reveal_strlit("table");
    assert(vstd::utf8::is_ascii_chars("table"@));
    assert forall|t: int| 0 <= t < ascii_seq("table"@).len() implies 0x20 <= #[trigger] ascii_seq(
        "table"@,
    )[t] < 0x80 && ascii_seq("table"@)[t] != 0x22 && ascii_seq("table"@)[t] != 0x5c by {
        assert(ascii_seq("table"@)[t] == ("table"@)[t] as u8);
    }
}

/// Whitespace, then the opening brace.
pub fn obj_open(v: &Vec<u8>, i: usize) -> (r: Option<usize>)
    requires
        i <= v@.len(),
    ensures
        match r {
            Some(j) => sp_obj_open(v@, i as int) == Some(j as int) && j <= v@.len(),
            None => sp_obj_open(v@, i as int) is None,
        },
{
    let i0 = skip_ws(v, i);
    if i0 < v.len() && v[i0] == 0x7b {
        Some(i0 + 1)
    } else {
        None
    }
}

/// Whitespace, then a comma.
pub fn comma_sep(v: &Vec<u8>, i: usize) -> (r: Option<usize>)
    requires
        i <= v@.len(),
    ensures
        match r {
            Some(j) => sp_comma(v@, i as int) == Some(j as int) && j <= v@.len(),
            None => sp_comma(v@, i as int) is None,
        },
{
    let i0 = skip_ws(v, i);
    if i0 < v.len() && v[i0] == 0x2c {
        Some(i0 + 1)
    } else {
        None
    }
}

/// A JSON string as a `String`, refused when its bytes are not UTF-8.
pub fn parse_string_utf8(v: &Vec<u8>, i: usize) -> (r: Option<(String, usize)>)
    requires
        i <= v@.len(),
    ensures
        match r {
            Some(p) => sp_string_utf8(v@, i as int) == Some((p.0@, p.1 as int)) && p.1 <= v@.len(),
            None => sp_string_utf8(v@, i as int) is None,
        },
{
    broadcast use vstd::utf8::encode_utf8_valid_utf8, vstd::utf8::encode_utf8_decode_utf8;

    let (raw, j) = match parse_string_raw(v, i) {
        Some(x) => x,
        None => { return None; },
    };
    let ghost rawv = raw@;
    match bytes_to_string(raw) {
        Some(s) => {
            proof {
                assert(vstd::utf8::encode_utf8(s@) == rawv);
                assert(vstd::utf8::valid_utf8(rawv));
                assert(vstd::utf8::decode_utf8(rawv) == s@);
            }
            Some((s, j))
        },
        None => None,
    }
}

/// Reads a shared header object.
#[verifier::rlimit(100)]
#[verifier::spinoff_prover]
pub fn parse_header(v: &Vec<u8>, i: usize, fuel: usize) -> (r: Option<(SharedHeader, usize)>)
    requires
        i <= v@.len(),
    ensures
        match r {
            Some(p) => sp_parse_header(v@, i as int, fuel as nat) == Some((p.0@, p.1 as int))
                && p.1 <= v@.len(),
            None => sp_parse_header(v@, i as int, fuel as nat) is None,
        },
{
    proof {
        reveal(sp_parse_header);
        ascii_key_source_ip();
        ascii_key_source_port();
        ascii_key_dest_ip();
        ascii_key_dest_port();
        ascii_key_ttl();
    }
    let o = match obj_open(v, i) {
        Some(x) => x,
        None => { return None; },
    };
    let p1 = match find_field(v, o, "source_ip", fuel) {
        Some(x) => x,
        None => { return None; },
    };
    let (s1, j1) = match parse_string_utf8(v, p1) {
        Some(x) => x,
        None => { return None; },
    };
    let c1 = match comma_sep(v, j1) {
        Some(x) => x,
        None => { return None; },
    };
    let p2 = match find_field(v, c1, "source_port", fuel) {
        Some(x) => x,
        None => { return None; },
    };
    let (n2, j2) = match parse_u64_max(v, p2, 0xffff) {
        Some(x) => x,
        None => { return None; },
    };
    let c2 = match comma_sep(v, j2) {
        Some(x) => x,
        None => { return None; },
    };
    let p3 = match find_field(v, c2, "dest_ip", fuel) {
        Some(x) => x,
        None => { return None; },
    };
    let (s3, j3) = match parse_string_utf8(v, p3) {
        Some(x) => x,
        None => { return None; },
    };
    let c3 = match comma_sep(v, j3) {
        Some(x) => x,
        None => { return None; },
    };
    let p4 = match find_field(v, c3, "dest_port", fuel) {
        Some(x) => x,
        None => { return None; },
    };
    let (n4, j4) = match parse_u64_max(v, p4, 0xffff) {
        Some(x) => x,
        None => { return None; },
    };
    let c4 = match comma_sep(v, j4) {
        Some(x) => x,
        None => { return None; },
    };
    let p5 = match find_field(v, c4, "ttl", fuel) {
        Some(x) => x,
        None => { return None; },
    };
    let (n5, j5) = match parse_u64_max(v, p5, 0xff) {
        Some(x) => x,
        None => { return None; },
    };
    let e = match obj_tail(v, j5, fuel) {
        Some(x) => x,
        None => { return None; },
    };
    let h = SharedHeader {
        source_ip: s1,
        source_port: n2 as u16,
        dest_ip: s3,
        dest_port: n4 as u16,
        ttl: n5 as u8,
    };
    Some((h, e))
}

/// Reads one advertised route object.
#[verifier::rlimit(100)]
#[verifier::spinoff_prover]
pub fn parse_entry(v: &Vec<u8>, i: usize, fuel: usize) -> (r: Option<(RoutingEntry, usize)>)
    requires
        i <= v@.len(),
    ensures
        match r {
            Some(p) => sp_parse_entry(v@, i as int, fuel as nat) == Some((p.0@, p.1 as int)) && p.1
                <= v@.len(),
            None => sp_parse_entry(v@, i as int, fuel as nat) is None,
        },
{
    proof {
        reveal(sp_parse_entry);
        ascii_key_target_ip();
        ascii_key_target_port();
        ascii_key_next_ip();
        ascii_key_next_port();
        ascii_key_hop_count();
    }
    let o = match obj_open(v, i) {
        Some(x) => x,
        None => { return None; },
    };
    let p1 = match find_field(v, o, "target_ip", fuel) {
        Some(x) => x,
        None => { return None; },
    };
    let (s1, j1) = match parse_string_utf8(v, p1) {
        Some(x) => x,
        None => { return None; },
    };
    let c1 = match comma_sep(v, j1) {
        Some(x) => x,
        None => { return None; },
    };
    let p2 = match find_field(v, c1, "target_port", fuel) {
        Some(x) => x,
        None => { return None; },
    };
    let (n2, j2) = match parse_u64_max(v, p2, 0xffff) {
        Some(x) => x,
        None => { return None; },
    };
    let c2 = match comma_sep(v, j2) {
        Some(x) => x,
        None => { return None; },
    };
    let p3 = match find_field(v, c2, "next_ip", fuel) {
        Some(x) => x,
        None => { return None; },
    };
    let (s3, j3) = match parse_string_utf8(v, p3) {
        Some(x) => x,
        None => { return None; },
    };
    let c3 = match comma_sep(v, j3) {
        Some(x) => x,
        None => { return None; },
    };
    let p4 = match find_field(v, c3, "next_port", fuel) {
        Some(x) => x,
        None => { return None; },
    };
    let (n4, j4) = match parse_u64_max(v, p4, 0xffff) {
        Some(x) => x,
        None => { return None; },
    };
    let c4 = match comma_sep(v, j4) {
        Some(x) => x,
        None => { return None; },
    };
    let p5 = match find_field(v, c4, "hop_count", fuel) {
        Some(x) => x,
        None => { return None; },
    };
    let (n5, j5) = match parse_i32(v, p5) {
        Some(x) => x,
        None => { return None; },
    };
    let e = match obj_tail(v, j5, fuel) {
        Some(x) => x,
        None => { return None; },
    };
    let re = RoutingEntry {
        target_ip: s1,
        target_port: n2 as u16,
        next_ip: s3,
        next_port: n4 as u16,
        hop_count: n5,
    };
    Some((re, e))
}

/// Reads the contents of a table array whose opening bracket has been
/// consumed.
#[verifier::loop_isolation(false)]
#[verifier::rlimit(100)]
#[verifier::spinoff_prover]
pub fn parse_table_array(v: &Vec<u8>, i: usize, fuel: usize) -> (r: Option<
    (Vec<RoutingEntry>, usize),
>)
    requires
        i <= v@.len(),
    ensures
        match r {
            Some(p) => sp_parse_table_array(v@, i as int, fuel as nat) == Some(
                (entries_view(p.0@), p.1 as int),
            ) && p.1 <= v@.len(),
            None => sp_parse_table_array(v@, i as int, fuel as nat) is None,
        },
{
    let i0 = skip_ws(v, i);
    if i0 < v.len() && v[i0] == 0x5d {
        let acc: Vec<RoutingEntry> = Vec::new();
        proof {
            assert(entries_view(acc@) =~= Seq::<RoutingEntryV>::empty());
        }
        return Some((acc, i0 + 1));
    }
    let (e0, j0) = match parse_entry(v, i, fuel) {
        Some(x) => x,
        None => { return None; },
    };
    let mut acc: Vec<RoutingEntry> = Vec::new();
    let ghost ev0 = e0@;
    acc.push(e0);
    proof {
        assert(entries_view(acc@) =~= seq![ev0]);
    }
    let mut cur: usize = j0;
    let mut f: usize = fuel;
    loop
        invariant
            cur <= v@.len(),
            f <= fuel,
            sp_parse_table_array(v@, i as int, fuel as nat) == (match sp_entries_rest(
                v@,
                cur as int,
                f as nat,
            ) {
                Some((rest, k)) => Some((entries_view(acc@) + rest, k)),
                None => None::<(Seq<RoutingEntryV>, int)>,
            }),
        decreases f,
    {
        if f == 0 {
            return None;
        }
        let c = skip_ws(v, cur);
        if c < v.len() && v[c] == 0x5d {
            proof {
                assert(entries_view(acc@) + Seq::<RoutingEntryV>::empty() =~= entries_view(acc@));
            }
            return Some((acc, c + 1));
        }
        if c >= v.len() {
            return None;
        }
        if v[c] != 0x2c {
            return None;
        }
        let (e, j) = match parse_entry(v, c + 1, f) {
            Some(x) => x,
            None => { return None; },
        };
        let ghost acc0 = acc@;
        let ghost ev = e@;
        acc.push(e);
        proof {
            assert(entries_view(acc@) =~= entries_view(acc0).push(ev));
            match sp_entries_rest(v@, j as int, (f - 1) as nat) {
                Some(rr) => {
                    assert(entries_view(acc0) + (seq![ev] + rr.0) =~= (entries_view(acc0).push(ev))
                        + rr.0);
                },
                None => {},
            }
        }
        cur = j;
        f = f - 1;
    }
}

/// Reads a table value: an array of entries or `null`.
pub fn parse_table(v: &Vec<u8>, i: usize, fuel: usize) -> (r: Option<
    (Option<Vec<RoutingEntry>>, usize),
>)
    requires
        i <= v@.len(),
    ensures
        match r {
            Some(p) => sp_parse_table(v@, i as int, fuel as nat) == Some(
                (
                    match p.0 {
                        Some(entries) => Some(entries_view(entries@)),
                        None => None,
                    },
                    p.1 as int,
                ),
            ) && p.1 <= v@.len(),
            None => sp_parse_table(v@, i as int, fuel as nat) is None,
        },
{
    let i0 = skip_ws(v, i);
    if i0 < v.len() && v[i0] == 0x5b {
        match parse_table_array(v, i0 + 1, fuel) {
            Some(p) => Some((Some(p.0), p.1)),
            None => None,
        }
    } else if i0 < v.len() && v.len() - i0 >= 4 && v[i0] == 0x6e && v[i0 + 1] == 0x75 && v[i0 + 2]
        == 0x6c && v[i0 + 3] == 0x6c {
        Some((None, i0 + 4))
    } else {
        None
    }
}

/// Reads a whole routed packet payload.
#[verifier::rlimit(100)]
#[verifier::spinoff_prover]
pub fn parse_routed(v: &Vec<u8>, fuel: usize) -> (r: Option<RoutedPacket>)
    ensures
        match r {
            Some(p) => sp_parse_routed(v@, fuel as nat) == Some(p@),
            None => sp_parse_routed(v@, fuel as nat) is None,
        },
{
    proof {
        ascii_key_header();
        ascii_key_nickname();
        ascii_key_message();
    }
    let o = match obj_open(v, 0) {
        Some(x) => x,
        None => { return None; },
    };
    let p1 = match find_field(v, o, "header", fuel) {
        Some(x) => x,
        None => { return None; },
    };
    let (h, j1) = match parse_header(v, p1, fuel) {
        Some(x) => x,
        None => { return None; },
    };
    let c1 = match comma_sep(v, j1) {
        Some(x) => x,
        None => { return None; },
    };
    let p2 = match find_field(v, c1, "nickname", fuel) {
        Some(x) => x,
        None => { return None; },
    };
    let (s2, j2) = match parse_string_utf8(v, p2) {
        Some(x) => x,
        None => { return None; },
    };
    let c2 = match comma_sep(v, j2) {
        Some(x) => x,
        None => { return None; },
    };
    let p3 = match find_field(v, c2, "message", fuel) {
        Some(x) => x,
        None => { return None; },
    };
    let (s3, j3) = match parse_string_utf8(v, p3) {
        Some(x) => x,
        None => { return None; },
    };
    let e = match obj_tail(v, j3, fuel) {
        Some(x) => x,
        None => { return None; },
    };
    let t = skip_ws(v, e);
    if t != v.len() {
        return None;
    }
    Some(RoutedPacket { header: h, nickname: s2, message: s3 })
}

/// Reads a whole routing packet payload.
#[verifier::rlimit(100)]
#[verifier::spinoff_prover]
pub fn parse_routing(v: &Vec<u8>, fuel: usize) -> (r: Option<RoutingPacket>)
    ensures
        match r {
            Some(p) => sp_parse_routing(v@, fuel as nat) == Some(p@),
            None => sp_parse_routing(v@, fuel as nat) is None,
        },
{
    proof {
        ascii_key_header();
        ascii_key_table();
    }
    let o = match obj_open(v, 0) {
        Some(x) => x,
        None => { return None; },
    };
    let p1 = match find_field(v, o, "header", fuel) {
        Some(x) => x,
        None => { return None; },
    };
    let (h, j1) = match parse_header(v, p1, fuel) {
        Some(x) => x,
        None => { return None; },
    };
    let c1 = match comma_sep(v, j1) {
        Some(x) => x,
        None => { return None; },
    };
    let p2 = match find_field(v, c1, "table", fuel) {
        Some(x) => x,
        None => { return None; },
    };
    let (t, j2) = match parse_table(v, p2, fuel) {
        Some(x) => x,
        None => { return None; },
    };
    let e = match obj_tail(v, j2, fuel) {
        Some(x) => x,
        None => { return None; },
    };
    let tw = skip_ws(v, e);
    if tw != v.len() {
        return None;
    }
    Some(RoutingPacket { header: h, table: t })
}

/// Reads a payload under a frame type id.
pub fn parse_payload(v: &Vec<u8>, type_id: u8, fuel: usize) -> (r: Option<Packet>)
    ensures
        match r {
            Some(p) => sp_parse_payload(v@, type_id, fuel as nat) == Some(p@),
            None => sp_parse_payload(v@, type_id, fuel as nat) is None,
        },
{
    if type_id == MESSAGE {
        match parse_routed(v, fuel) {
            Some(p) => Some(Packet::RoutedPacket(p)),
            None => None,
        }
    } else if type_id == CR || type_id == CRR || type_id == SCC || type_id == SCCR || type_id
        == STU {
        match parse_routing(v, fuel) {
            Some(p) => Some(Packet::RoutingPacket(p, type_id)),
            None => None,
        }
    } else {
        None
    }
}

// ---------------------------------------------------------------------
// parsing inverts canonical serialization
// ---------------------------------------------------------------------

/// A part of a region of `v` is a subrange of `v`.
pub proof fn lemma_chunk(v: Seq<u8>, i: int, j: int, region: Seq<u8>, x: int, part: Seq<u8>)
    requires
        0 <= i <= j <= v.len(),
        v.subrange(i, j) == region,
        i <= x,
        x - i + part.len() <= region.len(),
        region.len() == j - i,
        forall|t: int| 0 <= t < part.len() ==> region[(x - i) + t] == #[trigger] part[t],
    ensures
        v.subrange(x, x + part.len()) == part,
{
    assert forall|t: int| 0 <= t < part.len() implies v.subrange(x, x + part.len() as int)[t]
        == part[t] by {
        lemma_subrange_index(v, x, x + part.len() as int, t);
        lemma_subrange_index(v, i, j, (x - i) + t);
        assert(v[i + ((x - i) + t)] == region[(x - i) + t]);
    }
    assert(v.subrange(x, x + part.len() as int) =~= part);
}

/// One byte of a region of `v`.
pub proof fn lemma_byte_at(v: Seq<u8>, i: int, j: int, region: Seq<u8>, x: int)
    requires
        0 <= i <= j <= v.len(),
        v.subrange(i, j) == region,
        i <= x < j,
        region.len() == j - i,
    ensures
        v[x] == region[x - i],
{
    lemma_subrange_index(v, i, j, x - i);
}

/// Finding a canonically serialized field yields the position of its
/// value, and the value bytes stand at that position.
pub proof fn lemma_field_at(
    v: Seq<u8>,
    i: int,
    j: int,
    region: Seq<u8>,
    fstart: int,
    key: Seq<char>,
    val: Seq<u8>,
    fuel: nat,
)
    requires
        0 <= i <= j <= v.len(),
        v.subrange(i, j) == region,
        region.len() == j - i,
        fuel >= 1,
        esc_plain(ascii_seq(key)),
        i <= fstart,
        fstart - i + ser_field(key, val).len() <= region.len(),
        forall|t: int|
            0 <= t < ser_field(key, val).len() ==> region[(fstart - i) + t] == #[trigger] ser_field(
                key,
                val,
            )[t],
        val.len() >= 1,
        !is_ws_byte(val[0]),
    ensures
        sp_find_field(v, fstart, ascii_seq(key), fuel) == Some(fstart + key.len() + 3),
        v.subrange(fstart + key.len() + 3, fstart + ser_field(key, val).len()) == val,
{
    let f = ser_field(key, val);
    let kl = key.len() as int;
    assert(ascii_seq(key).len() == key.len());
    assert(f.len() == kl + 3 + val.len());
    let keyreg = seq![0x22u8] + ascii_seq(key) + seq![0x22u8, 0x3au8];
    assert(keyreg.len() == kl + 3);
    assert forall|t: int| 0 <= t < keyreg.len() implies f[t] == #[trigger] keyreg[t] by {}
    lemma_chunk(v, i, j, region, fstart, keyreg);
    assert forall|t: int| 0 <= t < val.len() implies f[kl + 3 + t] == #[trigger] val[t] by {}
    lemma_chunk(v, i, j, region, fstart + kl + 3, val);
    let jv = fstart + kl + 3;
    assert(jv + val.len() <= v.len());
    lemma_byte_at(v, jv, jv + val.len(), val, jv);
    assert(v[jv] == val[0]);
    lemma_find_field_canonical(v, fstart, ascii_seq(key), fuel, jv);
}

/// Reading a canonically serialized header yields it back.
#[verifier::rlimit(100)]
#[verifier::spinoff_prover]
pub proof fn lemma_header_canonical(h: SharedHeaderV, v: Seq<u8>, i: int, j: int, fuel: nat)
    requires
        0 <= i <= j <= v.len(),
        v.subrange(i, j) == ser_header(h),
        fuel >= 1,
    ensures
        sp_parse_header(v, i, fuel) == Some((h, j)),
{
    broadcast use vstd::utf8::encode_utf8_valid_utf8, vstd::utf8::encode_utf8_decode_utf8;

    reveal(sp_parse_header);
    ascii_key_source_ip();
    ascii_key_source_port();
    ascii_key_dest_ip();
    ascii_key_dest_port();
    ascii_key_ttl();
    let region = ser_header(h);
    assert(region.len() == j - i);
    let v1 = spec_json_string(h.source_ip);
    let v2 = spec_udec(h.source_port as nat);
    let v3 = spec_json_string(h.dest_ip);
    let v4 = spec_udec(h.dest_port as nat);
    let v5 = spec_udec(h.ttl as nat);
    let f1 = ser_field("source_ip"@, v1);
    let f2 = ser_field("source_port"@, v2);
    let f3 = ser_field("dest_ip"@, v3);
    let f4 = ser_field("dest_port"@, v4);
    let f5 = ser_field("ttl"@, v5);
    lemma_udec_all_digits(h.source_port as nat);
    lemma_udec_all_digits(h.dest_port as nat);
    lemma_udec_all_digits(h.ttl as nat);
    let a1 = i + 1;
    let a2 = a1 + f1.len();
    let b2 = a2 + 1;
    let a3 = b2 + f2.len();
    let b3 = a3 + 1;
    let a4 = b3 + f3.len();
    let b4 = a4 + 1;
    let a5 = b4 + f4.len();
    let b5 = a5 + 1;
    let a6 = b5 + f5.len();
    assert(region == seq![0x7bu8] + f1 + seq![0x2cu8] + f2 + seq![0x2cu8] + f3 + seq![0x2cu8] + f4
        + seq![0x2cu8] + f5 + seq![0x7du8]);
    assert(region.len() == 1 + f1.len() + 1 + f2.len() + 1 + f3.len() + 1 + f4.len() + 1 + f5.len()
        + 1);
    lemma_byte_at(v, i, j, region, i);
    assert(v[i] == 0x7b);
    lemma_ws_stops(v, i);
    assert(sp_obj_open(v, i) == Some(a1));
    // source_ip
    assert forall|t: int| 0 <= t < f1.len() implies region[(a1 - i) + t] == #[trigger] f1[t] by {}
    lemma_field_at(v, i, j, region, a1, "source_ip"@, v1, fuel);
    let p1 = a1 + "source_ip"@.len() + 3;
    lemma_string_canonical(
        vstd::utf8::encode_utf8(h.source_ip),
        v,
        p1,
        p1 + v1.len() as int,
    );
    assert(p1 + v1.len() == a2);
    assert(sp_string_utf8(v, p1) == Some((h.source_ip, a2)));
    lemma_byte_at(v, i, j, region, a2);
    assert(v[a2] == 0x2c);
    lemma_ws_stops(v, a2);
    assert(sp_comma(v, a2) == Some(b2));
    // source_port
    assert forall|t: int| 0 <= t < f2.len() implies region[(b2 - i) + t] == #[trigger] f2[t] by {}
    lemma_field_at(v, i, j, region, b2, "source_port"@, v2, fuel);
    let p2 = b2 + "source_port"@.len() + 3;
    lemma_byte_at(v, i, j, region, a3);
    assert(v[a3] == 0x2c);
    assert(!is_digit_byte(v[a3]));
    lemma_uint_canonical(h.source_port as nat, 0xffff, v, p2, a3);
    lemma_ws_stops(v, a3);
    assert(sp_comma(v, a3) == Some(b3));
    // dest_ip
    assert forall|t: int| 0 <= t < f3.len() implies region[(b3 - i) + t] == #[trigger] f3[t] by {}
    lemma_field_at(v, i, j, region, b3, "dest_ip"@, v3, fuel);
    let p3 = b3 + "dest_ip"@.len() + 3;
    lemma_string_canonical(vstd::utf8::encode_utf8(h.dest_ip), v, p3, p3 + v3.len() as int);
    assert(p3 + v3.len() == a4);
    assert(sp_string_utf8(v, p3) == Some((h.dest_ip, a4)));
    lemma_byte_at(v, i, j, region, a4);
    assert(v[a4] == 0x2c);
    lemma_ws_stops(v, a4);
    assert(sp_comma(v, a4) == Some(b4));
    // dest_port
    assert forall|t: int| 0 <= t < f4.len() implies region[(b4 - i) + t] == #[trigger] f4[t] by {}
    lemma_field_at(v, i, j, region, b4, "dest_port"@, v4, fuel);
    let p4 = b4 + "dest_port"@.len() + 3;
    lemma_byte_at(v, i, j, region, a5);
    assert(v[a5] == 0x2c);
    assert(!is_digit_byte(v[a5]));
    lemma_uint_canonical(h.dest_port as nat, 0xffff, v, p4, a5);
    lemma_ws_stops(v, a5);
    assert(sp_comma(v, a5) == Some(b5));
    // ttl
    assert forall|t: int| 0 <= t < f5.len() implies region[(b5 - i) + t] == #[trigger] f5[t] by {}
    lemma_field_at(v, i, j, region, b5, "ttl"@, v5, fuel);
    let p5 = b5 + "ttl"@.len() + 3;
    lemma_byte_at(v, i, j, region, a6);
    assert(v[a6] == 0x7d);
    assert(!is_digit_byte(v[a6]));
    lemma_uint_canonical(h.ttl as nat, 0xff, v, p5, a6);
    lemma_obj_tail_canonical(v, a6, fuel);
    assert(a6 + 1 == j);
    assert(sp_parse_header(v, i, fuel) == Some(
        (
            SharedHeaderV {
                source_ip: h.source_ip,
                source_port: (h.source_port as nat) as u16,
                dest_ip: h.dest_ip,
                dest_port: (h.dest_port as nat) as u16,
                ttl: (h.ttl as nat) as u8,
            },
            j,
        ),
    ));
}

/// Reading a canonically serialized routing entry yields it back.
#[verifier::rlimit(100)]
#[verifier::spinoff_prover]
pub proof fn lemma_entry_canonical(e: RoutingEntryV, v: Seq<u8>, i: int, j: int, fuel: nat)
    requires
        0 <= i <= j <= v.len(),
        v.subrange(i, j) == ser_entry(e),
        fuel >= 1,
    ensures
        sp_parse_entry(v, i, fuel) == Some((e, j)),
{
    broadcast use vstd::utf8::encode_utf8_valid_utf8, vstd::utf8::encode_utf8_decode_utf8;

    reveal(sp_parse_entry);
    ascii_key_target_ip();
    ascii_key_target_port();
    ascii_key_next_ip();
    ascii_key_next_port();
    ascii_key_hop_count();
    let region = ser_entry(e);
    assert(region.len() == j - i);
    let v1 = spec_json_string(e.target_ip);
    let v2 = spec_udec(e.target_port as nat);
    let v3 = spec_json_string(e.next_ip);
    let v4 = spec_udec(e.next_port as nat);
    let v5 = spec_idec(e.hop_count as int);
    let f1 = ser_field("target_ip"@, v1);
    let f2 = ser_field("target_port"@, v2);
    let f3 = ser_field("next_ip"@, v3);
    let f4 = ser_field("next_port"@, v4);
    let f5 = ser_field("hop_count"@, v5);
    lemma_udec_all_digits(e.target_port as nat);
    lemma_udec_all_digits(e.next_port as nat);
    if e.hop_count < 0 {
        lemma_udec_all_digits((-(e.hop_count as int)) as nat);
        assert(v5[0] == 0x2d);
        assert(!is_ws_byte(v5[0]));
    } else {
        lemma_udec_all_digits(e.hop_count as nat);
        assert(!is_ws_byte(v5[0]));
    }
    let a1 = i + 1;
    let a2 = a1 + f1.len();
    let b2 = a2 + 1;
    let a3 = b2 + f2.len();
    let b3 = a3 + 1;
    let a4 = b3 + f3.len();
    let b4 = a4 + 1;
    let a5 = b4 + f4.len();
    let b5 = a5 + 1;
    let a6 = b5 + f5.len();
    assert(region == seq![0x7bu8] + f1 + seq![0x2cu8] + f2 + seq![0x2cu8] + f3 + seq![0x2cu8] + f4
        + seq![0x2cu8] + f5 + seq![0x7du8]);
    assert(region.len() == 1 + f1.len() + 1 + f2.len() + 1 + f3.len() + 1 + f4.len() + 1 + f5.len()
        + 1);
    lemma_byte_at(v, i, j, region, i);
    assert(v[i] == 0x7b);
    lemma_ws_stops(v, i);
    assert(sp_obj_open(v, i) == Some(a1));
    // target_ip
    assert forall|t: int| 0 <= t < f1.len() implies region[(a1 - i) + t] == #[trigger] f1[t] by {}
    lemma_field_at(v, i, j, region, a1, "target_ip"@, v1, fuel);
    let p1 = a1 + "target_ip"@.len() + 3;
    lemma_string_canonical(
        vstd::utf8::encode_utf8(e.target_ip),
        v,
        p1,
        p1 + v1.len() as int,
    );
    assert(p1 + v1.len() == a2);
    assert(sp_string_utf8(v, p1) == Some((e.target_ip, a2)));
    lemma_byte_at(v, i, j, region, a2);
    lemma_ws_stops(v, a2);
    assert(sp_comma(v, a2) == Some(b2));
    // target_port
    assert forall|t: int| 0 <= t < f2.len() implies region[(b2 - i) + t] == #[trigger] f2[t] by {}
    lemma_field_at(v, i, j, region, b2, "target_port"@, v2, fuel);
    let p2 = b2 + "target_port"@.len() + 3;
    lemma_byte_at(v, i, j, region, a3);
    assert(!is_digit_byte(v[a3]));
    lemma_uint_canonical(e.target_port as nat, 0xffff, v, p2, a3);
    lemma_ws_stops(v, a3);
    assert(sp_comma(v, a3) == Some(b3));
    // next_ip
    assert forall|t: int| 0 <= t < f3.len() implies region[(b3 - i) + t] == #[trigger] f3[t] by {}
    lemma_field_at(v, i, j, region, b3, "next_ip"@, v3, fuel);
    let p3 = b3 + "next_ip"@.len() + 3;
    lemma_string_canonical(vstd::utf8::encode_utf8(e.next_ip), v, p3, p3 + v3.len() as int);
    assert(p3 + v3.len() == a4);
    assert(sp_string_utf8(v, p3) == Some((e.next_ip, a4)));
    lemma_byte_at(v, i, j, region, a4);
    lemma_ws_stops(v, a4);
    assert(sp_comma(v, a4) == Some(b4));
    // next_port
    assert forall|t: int| 0 <= t < f4.len() implies region[(b4 - i) + t] == #[trigger] f4[t] by {}
    lemma_field_at(v, i, j, region, b4, "next_port"@, v4, fuel);
    let p4 = b4 + "next_port"@.len() + 3;
    lemma_byte_at(v, i, j, region, a5);
    assert(!is_digit_byte(v[a5]));
    lemma_uint_canonical(e.next_port as nat, 0xffff, v, p4, a5);
    lemma_ws_stops(v, a5);
    assert(sp_comma(v, a5) == Some(b5));
    // hop_count
    assert forall|t: int| 0 <= t < f5.len() implies region[(b5 - i) + t] == #[trigger] f5[t] by {}
    lemma_field_at(v, i, j, region, b5, "hop_count"@, v5, fuel);
    let p5 = b5 + "hop_count"@.len() + 3;
    lemma_byte_at(v, i, j, region, a6);
    assert(v[a6] == 0x7d);
    assert(!is_digit_byte(v[a6]));
    lemma_int32_canonical(e.hop_count as int, v, p5, a6);
    lemma_obj_tail_canonical(v, a6, fuel);
    assert(a6 + 1 == j);
    assert(sp_parse_entry(v, i, fuel) == Some(
        (
            RoutingEntryV {
                target_ip: e.target_ip,
                target_port: (e.target_port as nat) as u16,
                next_ip: e.next_ip,
                next_port: (e.next_port as nat) as u16,
                hop_count: ((e.hop_count as int) as i32),
            },
            j,
        ),
    ));
}

/// The wire text that follows the first entry of a table: either the
/// closing bracket or a comma and the next entry, repeated.
pub open spec fn ser_rest(s: Seq<RoutingEntryV>) -> Seq<u8>
    decreases s.len(),
{
    if s.len() == 0 {
        seq![0x5du8]
    } else {
        seq![0x2cu8] + ser_entry(s[0]) + ser_rest(s.drop_first())
    }
}

/// The grouped form of a serialized table body.
pub proof fn lemma_ser_entries_rest(s: Seq<RoutingEntryV>)
    ensures
        s.len() == 0 ==> ser_entries(s) + seq![0x5du8] == seq![0x5du8],
        s.len() > 0 ==> ser_entries(s) + seq![0x5du8] == ser_entry(s[0]) + ser_rest(
            s.drop_first(),
        ),
    decreases s.len(),
{
    if s.len() == 0 {
        assert(ser_entries(s) + seq![0x5du8] =~= seq![0x5du8]);
    } else if s.len() == 1 {
        assert(ser_rest(s.drop_first()) == seq![0x5du8]);
        assert(ser_entries(s) + seq![0x5du8] =~= ser_entry(s[0]) + ser_rest(s.drop_first()));
    } else {
        let d = s.drop_first();
        lemma_ser_entries_rest(d);
        assert(ser_entries(s) == ser_entry(s[0]) + seq![0x2cu8] + ser_entries(d));
        assert(ser_rest(d) == seq![0x2cu8] + ser_entry(d[0]) + ser_rest(d.drop_first()));
        assert(ser_entries(d) + seq![0x5du8] == ser_entry(d[0]) + ser_rest(d.drop_first()));
        assert(ser_entry(s[0]) + seq![0x2cu8] + (ser_entries(d) + seq![0x5du8]) =~= ser_entries(s)
            + seq![0x5du8]);
        assert(ser_entry(s[0]) + seq![0x2cu8] + (ser_entry(d[0]) + ser_rest(d.drop_first()))
            =~= ser_entry(s[0]) + ser_rest(d));
        assert(ser_entries(s) + seq![0x5du8] == ser_entry(s[0]) + ser_rest(d));
    }
}

/// Reading the rest of a canonically serialized table yields the
/// remaining entries.
pub proof fn lemma_entries_rest_canonical(
    s: Seq<RoutingEntryV>,
    v: Seq<u8>,
    i: int,
    j: int,
    fuel: nat,
)
    requires
        0 <= i <= j <= v.len(),
        v.subrange(i, j) == ser_rest(s),
        fuel >= s.len() + 1,
    ensures
        sp_entries_rest(v, i, fuel) == Some((s, j)),
    decreases s.len(),
{
    let region = ser_rest(s);
    assert(region.len() == j - i);
    if s.len() == 0 {
        lemma_byte_at(v, i, j, region, i);
        assert(v[i] == 0x5d);
        lemma_ws_stops(v, i);
        assert(s =~= Seq::<RoutingEntryV>::empty());
        assert(sp_entries_rest(v, i, fuel) == Some((s, j)));
    } else {
        let e0 = s[0];
        let d = s.drop_first();
        assert(region == seq![0x2cu8] + ser_entry(e0) + ser_rest(d));
        lemma_byte_at(v, i, j, region, i);
        assert(v[i] == 0x2c);
        lemma_ws_stops(v, i);
        let m = i + 1 + ser_entry(e0).len();
        assert forall|t: int| 0 <= t < ser_entry(e0).len() implies region[(i + 1 - i) + t]
            == #[trigger] ser_entry(e0)[t] by {}
        lemma_chunk(v, i, j, region, i + 1, ser_entry(e0));
        lemma_entry_canonical(e0, v, i + 1, m, fuel);
        assert forall|t: int| 0 <= t < ser_rest(d).len() implies region[(m - i) + t]
            == #[trigger] ser_rest(d)[t] by {}
        lemma_chunk(v, i, j, region, m, ser_rest(d));
        lemma_entries_rest_canonical(d, v, m, j, (fuel - 1) as nat);
        assert(seq![e0] + d =~= s);
        assert(sp_entries_rest(v, i, fuel) == Some((s, j)));
    }
}

/// Reading a canonically serialized table value yields it back.
pub proof fn lemma_table_canonical(
    t: Option<Seq<RoutingEntryV>>,
    v: Seq<u8>,
    i: int,
    j: int,
    fuel: nat,
)
    requires
        0 <= i <= j <= v.len(),
        v.subrange(i, j) == ser_table(t),
        fuel >= (match t {
            Some(s) => s.len() + 1,
            None => 1,
        }),
    ensures
        sp_parse_table(v, i, fuel) == Some((t, j)),
{
    let region = ser_table(t);
    assert(region.len() == j - i);
    match t {
        None => {
            lemma_byte_at(v, i, j, region, i);
            lemma_byte_at(v, i, j, region, i + 1);
            lemma_byte_at(v, i, j, region, i + 2);
            lemma_byte_at(v, i, j, region, i + 3);
            assert(v[i] == 0x6e && v[i + 1] == 0x75 && v[i + 2] == 0x6c && v[i + 3] == 0x6c);
            lemma_ws_stops(v, i);
            assert(sp_parse_table(v, i, fuel) == Some((t, j)));
        },
        Some(entries) => {
            lemma_byte_at(v, i, j, region, i);
            assert(v[i] == 0x5b);
            lemma_ws_stops(v, i);
            lemma_ser_entries_rest(entries);
            if entries.len() == 0 {
                assert(region =~= seq![0x5bu8, 0x5du8]);
                lemma_byte_at(v, i, j, region, i + 1);
                assert(v[i + 1] == 0x5d);
                lemma_ws_stops(v, i + 1);
                assert(entries =~= Seq::<RoutingEntryV>::empty());
                assert(sp_parse_table_array(v, i + 1, fuel) == Some((entries, j)));
            } else {
                let e0 = entries[0];
                let d = entries.drop_first();
                assert(ser_entries(entries) + seq![0x5du8] == ser_entry(e0) + ser_rest(d));
                assert(region == seq![0x5bu8] + (ser_entries(entries) + seq![0x5du8]));
                assert(region == seq![0x5bu8] + ser_entry(e0) + ser_rest(d)) by {
                    assert(region =~= seq![0x5bu8] + ser_entry(e0) + ser_rest(d));
                }
                let m = i + 1 + ser_entry(e0).len();
                assert forall|t2: int| 0 <= t2 < ser_entry(e0).len() implies region[(i + 1 - i)
                    + t2] == #[trigger] ser_entry(e0)[t2] by {}
                lemma_chunk(v, i, j, region, i + 1, ser_entry(e0));
                lemma_entry_canonical(e0, v, i + 1, m, fuel);
                assert forall|t2: int| 0 <= t2 < ser_rest(d).len() implies region[(m - i) + t2]
                    == #[trigger] ser_rest(d)[t2] by {}
                lemma_chunk(v, i, j, region, m, ser_rest(d));
                lemma_entries_rest_canonical(d, v, m, j, fuel);
                lemma_byte_at(v, i, j, region, i + 1);
                assert(v[i + 1] == 0x7b);
                lemma_ws_stops(v, i + 1);
                assert(seq![e0] + d =~= entries);
                assert(sp_parse_table_array(v, i + 1, fuel) == Some((entries, j)));
            }
            assert(sp_parse_table(v, i, fuel) == Some((t, j)));
        },
    }
}

/// Fuel that suffices to read the canonical form of a packet.
pub open spec fn payload_fuel(p: PacketV) -> nat {
    match p {
        PacketV::Routed(_) => 1,
        PacketV::Routing(rp, _) => match rp.table {
            Some(s) => s.len() + 1,
            None => 1,
        },
    }
}

/// Reading a canonically serialized routed packet yields it back.
#[verifier::rlimit(100)]
#[verifier::spinoff_prover]
pub proof fn lemma_routed_canonical(p: RoutedPacketV, v: Seq<u8>, fuel: nat)
    requires
        v == ser_routed(p),
        fuel >= 1,
    ensures
        sp_parse_routed(v, fuel) == Some(p),
{
    broadcast use vstd::utf8::encode_utf8_valid_utf8, vstd::utf8::encode_utf8_decode_utf8;

    ascii_key_header();
    ascii_key_nickname();
    ascii_key_message();
    let region = ser_routed(p);
    let i: int = 0;
    let j = region.len() as int;
    assert(v.subrange(i, j) =~= region);
    let v1 = ser_header(p.header);
    let v2 = spec_json_string(p.nickname);
    let v3 = spec_json_string(p.message);
    let f1 = ser_field("header"@, v1);
    let f2 = ser_field("nickname"@, v2);
    let f3 = ser_field("message"@, v3);
    let a1 = i + 1;
    let a2 = a1 + f1.len();
    let b2 = a2 + 1;
    let a3 = b2 + f2.len();
    let b3 = a3 + 1;
    let a4 = b3 + f3.len();
    assert(region == seq![0x7bu8] + f1 + seq![0x2cu8] + f2 + seq![0x2cu8] + f3 + seq![0x7du8]);
    assert(region.len() == 1 + f1.len() + 1 + f2.len() + 1 + f3.len() + 1);
    lemma_byte_at(v, i, j, region, i);
    assert(v[i] == 0x7b);
    lemma_ws_stops(v, i);
    assert(sp_obj_open(v, 0) == Some(a1));
    // header
    assert(v1.len() >= 1 && v1[0] == 0x7b) by {
        assert(v1 == seq![0x7bu8] + ser_field("source_ip"@, spec_json_string(p.header.source_ip))
            + seq![0x2cu8] + ser_field("source_port"@, spec_udec(p.header.source_port as nat))
            + seq![0x2cu8] + ser_field("dest_ip"@, spec_json_string(p.header.dest_ip))
            + seq![0x2cu8] + ser_field("dest_port"@, spec_udec(p.header.dest_port as nat))
            + seq![0x2cu8] + ser_field("ttl"@, spec_udec(p.header.ttl as nat)) + seq![0x7du8]);
    }
    assert forall|t: int| 0 <= t < f1.len() implies region[(a1 - i) + t] == #[trigger] f1[t] by {}
    lemma_field_at(v, i, j, region, a1, "header"@, v1, fuel);
    let p1 = a1 + "header"@.len() + 3;
    lemma_header_canonical(p.header, v, p1, p1 + v1.len() as int, fuel);
    assert(p1 + v1.len() == a2);
    lemma_byte_at(v, i, j, region, a2);
    assert(v[a2] == 0x2c);
    lemma_ws_stops(v, a2);
    assert(sp_comma(v, a2) == Some(b2));
    // nickname
    assert forall|t: int| 0 <= t < f2.len() implies region[(b2 - i) + t] == #[trigger] f2[t] by {}
    lemma_field_at(v, i, j, region, b2, "nickname"@, v2, fuel);
    let p2 = b2 + "nickname"@.len() + 3;
    lemma_string_canonical(vstd::utf8::encode_utf8(p.nickname), v, p2, p2 + v2.len() as int);
    assert(p2 + v2.len() == a3);
    assert(sp_string_utf8(v, p2) == Some((p.nickname, a3)));
    lemma_byte_at(v, i, j, region, a3);
    assert(v[a3] == 0x2c);
    lemma_ws_stops(v, a3);
    assert(sp_comma(v, a3) == Some(b3));
    // message
    assert forall|t: int| 0 <= t < f3.len() implies region[(b3 - i) + t] == #[trigger] f3[t] by {}
    lemma_field_at(v, i, j, region, b3, "message"@, v3, fuel);
    let p3 = b3 + "message"@.len() + 3;
    lemma_string_canonical(vstd::utf8::encode_utf8(p.message), v, p3, p3 + v3.len() as int);
    assert(p3 + v3.len() == a4);
    assert(sp_string_utf8(v, p3) == Some((p.message, a4)));
    lemma_byte_at(v, i, j, region, a4);
    assert(v[a4] == 0x7d);
    lemma_obj_tail_canonical(v, a4, fuel);
    assert(a4 + 1 == j);
    lemma_ws_stops(v, j);
    assert(sp_parse_routed(v, fuel) == Some(
        RoutedPacketV { header: p.header, nickname: p.nickname, message: p.message },
    ));
}

/// Reading a canonically serialized routing packet yields it back.
#[verifier::rlimit(100)]
#[verifier::spinoff_prover]
pub proof fn lemma_routing_canonical(p: RoutingPacketV, v: Seq<u8>, fuel: nat)
    requires
        v == ser_routing(p),
        fuel >= (match p.table {
            Some(s) => s.len() + 1,
            None => 1,
        }),
    ensures
        sp_parse_routing(v, fuel) == Some(p),
{
    ascii_key_header();
    ascii_key_table();
    let region = ser_routing(p);
    let i: int = 0;
    let j = region.len() as int;
    assert(v.subrange(i, j) =~= region);
    let v1 = ser_header(p.header);
    let v2 = ser_table(p.table);
    let f1 = ser_field("header"@, v1);
    let f2 = ser_field("table"@, v2);
    let a1 = i + 1;
    let a2 = a1 + f1.len();
    let b2 = a2 + 1;
    let a3 = b2 + f2.len();
    assert(region == seq![0x7bu8] + f1 + seq![0x2cu8] + f2 + seq![0x7du8]);
    assert(region.len() == 1 + f1.len() + 1 + f2.len() + 1);
    lemma_byte_at(v, i, j, region, i);
    assert(v[i] == 0x7b);
    lemma_ws_stops(v, i);
    assert(sp_obj_open(v, 0) == Some(a1));
    // header
    assert(v1.len() >= 1 && v1[0] == 0x7b) by {
        assert(v1 == seq![0x7bu8] + ser_field("source_ip"@, spec_json_string(p.header.source_ip))
            + seq![0x2cu8] + ser_field("source_port"@, spec_udec(p.header.source_port as nat))
            + seq![0x2cu8] + ser_field("dest_ip"@, spec_json_string(p.header.dest_ip))
            + seq![0x2cu8] + ser_field("dest_port"@, spec_udec(p.header.dest_port as nat))
            + seq![0x2cu8] + ser_field("ttl"@, spec_udec(p.header.ttl as nat)) + seq![0x7du8]);
    }
    assert forall|t: int| 0 <= t < f1.len() implies region[(a1 - i) + t] == #[trigger] f1[t] by {}
    lemma_field_at(v, i, j, region, a1, "header"@, v1, fuel);
    let p1 = a1 + "header"@.len() + 3;
    lemma_header_canonical(p.header, v, p1, p1 + v1.len() as int, fuel);
    assert(p1 + v1.len() == a2);
    lemma_byte_at(v, i, j, region, a2);
    assert(v[a2] == 0x2c);
    lemma_ws_stops(v, a2);
    assert(sp_comma(v, a2) == Some(b2));
    // table
    assert(v2.len() >= 1 && !is_ws_byte(v2[0])) by {
        match p.table {
            Some(s) => {
                assert(v2 == seq![0x5bu8] + ser_entries(s) + seq![0x5du8]);
                assert(v2[0] == 0x5b);
            },
            None => {
                assert(v2[0] == 0x6e);
            },
        }
    }
    assert forall|t: int| 0 <= t < f2.len() implies region[(b2 - i) + t] == #[trigger] f2[t] by {}
    lemma_field_at(v, i, j, region, b2, "table"@, v2, fuel);
    let p2 = b2 + "table"@.len() + 3;
    lemma_table_canonical(p.table, v, p2, p2 + v2.len() as int, fuel);
    assert(p2 + v2.len() == a3);
    lemma_byte_at(v, i, j, region, a3);
    assert(v[a3] == 0x7d);
    lemma_obj_tail_canonical(v, a3, fuel);
    assert(a3 + 1 == j);
    lemma_ws_stops(v, j);
    assert(sp_parse_routing(v, fuel) == Some(RoutingPacketV { header: p.header, table: p.table }));
}

/// True of the routing type ids a frame may carry.
pub open spec fn valid_routing_id(t: u8) -> bool {
    t == CR || t == CRR || t == SCC || t == SCCR || t == STU
}

/// A packet whose type id belongs on the wire.
pub open spec fn wf_packet(p: PacketV) -> bool {
    match p {
        PacketV::Routed(_) => true,
        PacketV::Routing(_, t) => valid_routing_id(t),
    }
}

/// The payload codec round trip: reading the canonical wire text of
/// any packet under its own type id yields that packet back.
pub proof fn lemma_payload_round_trip(p: PacketV, fuel: nat)
    requires
        wf_packet(p),
        fuel >= payload_fuel(p),
    ensures
        sp_parse_payload(ser_payload(p), view_type_id(p), fuel) == Some(p),
{
    match p {
        PacketV::Routed(rp) => {
            lemma_routed_canonical(rp, ser_payload(p), fuel);
        },
        PacketV::Routing(rp, t) => {
            lemma_routing_canonical(rp, ser_payload(p), fuel);
        },
    }
}

} // verus!
