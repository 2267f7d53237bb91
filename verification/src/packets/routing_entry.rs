//! One route of the early wire format.

use vstd::prelude::*;

use crate::bytesutil::{be16, be16_val, limit3, name_limit_ok, push_be16, push_str_bytes,
    truncate_name};
use crate::json::spec_udec;

verus! {

/// Seconds a fresh route stays alive without being renewed.
pub const TTL: u8 = 30;

/// A route of the early format: who told us, whom it reaches, and
/// where to connect.
#[derive(Debug)]
pub struct RoutingEntry {
    pub info_source: String,
    pub destination: String,
    pub ip: String,
    pub port: u16,
    pub hops: u8,
    pub ttl: u8,
    pub dont_expire: bool,
}

pub ghost struct LegacyEntryV {
    pub info_source: Seq<char>,
    pub destination: Seq<char>,
    pub ip: Seq<char>,
    pub port: u16,
    pub hops: u8,
    pub ttl: u8,
    pub dont_expire: bool,
}

impl View for RoutingEntry {
    type V = LegacyEntryV;

    open spec fn view(&self) -> LegacyEntryV {
        LegacyEntryV {
            info_source: self.info_source@,
            destination: self.destination@,
            ip: self.ip@,
            port: self.port,
            hops: self.hops,
            ttl: self.ttl,
            dont_expire: self.dont_expire,
        }
    }
}

/// The nine wire bytes of a route.
pub open spec fn spec_entry_bytes(e: LegacyEntryV) -> Seq<u8> {
    vstd::utf8::encode_utf8(e.info_source) + vstd::utf8::encode_utf8(e.destination) + be16(e.port)
        + seq![e.hops]
}

impl RoutingEntry {
    /// A route with both names limited to three bytes and a fresh
    /// lifetime.
    pub fn new(info_source: String, destination: String, ip: String, port: u16, hops: u8) -> (r:
        RoutingEntry)
        requires
            name_limit_ok(info_source@),
            name_limit_ok(destination@),
        ensures
            vstd::utf8::encode_utf8(r.info_source@) == limit3(
                vstd::utf8::encode_utf8(info_source@),
            ),
            vstd::utf8::encode_utf8(r.destination@) == limit3(
                vstd::utf8::encode_utf8(destination@),
            ),
            r.ip@ == ip@,
            r.port == port,
            r.hops == hops,
            r.ttl == TTL,
            r.dont_expire == false,
    {
        let truncated_source = truncate_name(&info_source);
        let truncated_destination = truncate_name(&destination);
        RoutingEntry {
            info_source: truncated_source,
            destination: truncated_destination,
            ip,
            port,
            hops,
            ttl: TTL,
            dont_expire: false,
        }
    }

    pub fn set_ttl(&mut self, ttl: u8)
        ensures
            *final(self) == (RoutingEntry { ttl, ..*old(self) }),
    {
        self.ttl = ttl;
    }

    pub fn set_dont_expire(&mut self, dont_expire: bool)
        ensures
            *final(self) == (RoutingEntry { dont_expire, ..*old(self) }),
    {
        self.dont_expire = dont_expire;
    }

    /// The `ip:port` text to connect to.
    pub fn get_address(&self) -> (r: String)
        ensures
            r@ == self.ip@ + seq![':'] + vstd::utf8::decode_utf8(spec_udec(self.port as nat)),
    {
        let a = crate::addr::NeighborAddr::new(self.ip.clone(), self.port);
        a.addr_text()
    }

    /// The route's wire bytes: both names, big-endian port, hops.
    pub fn to_bytes(&self) -> (r: Vec<u8>)
        ensures
            r@ == spec_entry_bytes(self@),
    {
        let mut bytes: Vec<u8> = Vec::new();
        push_str_bytes(&mut bytes, &self.info_source);
        push_str_bytes(&mut bytes, &self.destination);
        push_be16(&mut bytes, self.port);
        bytes.push(self.hops);
        proof {
            assert(bytes@ =~= spec_entry_bytes(self@));
        }
        bytes
    }

    /// Reads a route back from its nine wire bytes, taking the
    /// sender's IP as the route's address.
    pub fn from_bytes(bytes: Vec<u8>, ip: String) -> (r: RoutingEntry)
        requires
            bytes@.len() >= 9,
            vstd::utf8::valid_utf8(bytes@.subrange(0, 3)),
            vstd::utf8::valid_utf8(bytes@.subrange(3, 6)),
        ensures
            vstd::utf8::encode_utf8(r.info_source@) == bytes@.subrange(0, 3),
            vstd::utf8::encode_utf8(r.destination@) == bytes@.subrange(3, 6),
            r.ip@ == ip@,
            r.port == be16_val(bytes@[6], bytes@[7]),
            r.hops == bytes@[8],
            r.ttl == TTL,
            r.dont_expire == false,
    {
        let info_source = crate::text::utf8_range_string(&bytes, 0, 3);
        let destination = crate::text::utf8_range_string(&bytes, 3, 6);
        let port = (bytes[6] as u16) * 0x100 + (bytes[7] as u16);
        let hops = bytes[8];
        RoutingEntry { info_source, destination, ip, port, hops, ttl: TTL, dont_expire: false }
    }
}

} // verus!
