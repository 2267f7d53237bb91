//! A nine-byte variant of the early framing header that also carries
//! a hop count.

use vstd::prelude::*;

use crate::bytesutil::{limit3, name_limit_ok, push_str_bytes, truncate_name};

verus! {

/// Width of this header in bytes.
pub const BASE_HEADER_SIZE: usize = 72 / 8;

/// The header: raw type byte, hop budget, two names limited to three
/// bytes, and a hop count.
#[derive(Debug)]
pub struct BaseHeader {
    packet_type: u8,
    ttl: u8,
    target: String,
    source: String,
    hops: u8,
}

pub ghost struct WideHeaderV {
    pub packet_type: u8,
    pub ttl: u8,
    pub target: Seq<char>,
    pub source: Seq<char>,
    pub hops: u8,
}

impl View for BaseHeader {
    type V = WideHeaderV;

    closed spec fn view(&self) -> WideHeaderV {
        WideHeaderV {
            packet_type: self.packet_type,
            ttl: self.ttl,
            target: self.target@,
            source: self.source@,
            hops: self.hops,
        }
    }
}

impl BaseHeader {
    /// A header with both names limited to three bytes.
    pub fn new(packet_type: u8, ttl: u8, target: String, source: String, hops: u8) -> (r:
        BaseHeader)
        requires
            name_limit_ok(target@),
            name_limit_ok(source@),
        ensures
            r@.packet_type == packet_type,
            r@.ttl == ttl,
            r@.hops == hops,
            vstd::utf8::encode_utf8(r@.target) == limit3(vstd::utf8::encode_utf8(target@)),
            vstd::utf8::encode_utf8(r@.source) == limit3(vstd::utf8::encode_utf8(source@)),
    {
        let truncated_target = truncate_name(&target);
        let truncated_source = truncate_name(&source);
        BaseHeader {
            packet_type,
            ttl,
            target: truncated_target,
            source: truncated_source,
            hops,
        }
    }

    /// The header's wire bytes.
    pub fn to_bytes(&self) -> (r: Vec<u8>)
        ensures
            r@ == seq![self@.packet_type, self@.ttl] + vstd::utf8::encode_utf8(self@.target)
                + vstd::utf8::encode_utf8(self@.source) + seq![self@.hops],
    {
        let mut bytes: Vec<u8> = Vec::new();
        bytes.push(self.packet_type);
        bytes.push(self.ttl);
        push_str_bytes(&mut bytes, &self.target);
        push_str_bytes(&mut bytes, &self.source);
        bytes.push(self.hops);
        proof {
            assert(bytes@ =~= seq![self@.packet_type, self@.ttl] + vstd::utf8::encode_utf8(
                self@.target,
            ) + vstd::utf8::encode_utf8(self@.source) + seq![self@.hops]);
        }
        bytes
    }

    /// The source name.
    pub fn get_ip(&self) -> (r: String)
        ensures
            r@ == self@.source,
    {
        self.source.clone()
    }

    /// Reads a header back from its nine wire bytes.
    pub fn from_bytes(bytes: Vec<u8>) -> (r: BaseHeader)
        requires
            bytes@.len() >= 9,
            vstd::utf8::valid_utf8(bytes@.subrange(2, 5)),
            vstd::utf8::valid_utf8(bytes@.subrange(5, 8)),
        ensures
            r@.packet_type == bytes@[0],
            r@.ttl == bytes@[1],
            vstd::utf8::encode_utf8(r@.target) == bytes@.subrange(2, 5),
            vstd::utf8::encode_utf8(r@.source) == bytes@.subrange(5, 8),
            r@.hops == bytes@[8],
    {
        let packet_type = bytes[0];
        let ttl = bytes[1];
        let target = crate::text::utf8_range_string(&bytes, 2, 5);
        let source = crate::text::utf8_range_string(&bytes, 5, 8);
        let hops = bytes[8];
        BaseHeader { packet_type, ttl, target, source, hops }
    }
}

} // verus!
