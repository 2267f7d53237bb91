//! The fixed eight-byte header of the early wire format.

use vstd::prelude::*;

use crate::bytesutil::{limit3, name_limit_ok, push_str_bytes, truncate_name};

verus! {

/// Width of the early header in bytes.
pub const BASE_HEADER_SIZE: usize = 64 / 8;

/// What an early-format packet carries.
#[derive(Debug, Clone, PartialEq, Eq, Structural)]
pub enum PacketType {
    Connection,
    Routing,
    Message,
}

/// The single wire byte of a packet type.
pub open spec fn spec_type_byte(t: PacketType) -> u8 {
    match t {
        PacketType::Connection => 0,
        PacketType::Routing => 1,
        PacketType::Message => 2,
    }
}

/// The packet type behind a wire byte at most two.
pub open spec fn spec_type_of_byte(b: u8) -> PacketType {
    if b == 0 {
        PacketType::Connection
    } else if b == 1 {
        PacketType::Routing
    } else {
        PacketType::Message
    }
}

impl PacketType {
    /// The packet type named by a wire byte, refused above two.
    pub fn from_u8(value: u8) -> (r: Option<PacketType>)
        ensures
            match r {
                Some(t) => value <= 2 && t == spec_type_of_byte(value),
                None => value > 2,
            },
    {
        if value == 0 {
            Some(PacketType::Connection)
        } else if value == 1 {
            Some(PacketType::Routing)
        } else if value == 2 {
            Some(PacketType::Message)
        } else {
            None
        }
    }

    /// The wire byte of this packet type.
    pub fn to_u8(&self) -> (r: u8)
        ensures
            r == spec_type_byte(*self),
    {
        match self {
            PacketType::Connection => 0,
            PacketType::Routing => 1,
            PacketType::Message => 2,
        }
    }
}

/// The early framing header: type, hop budget, and two node names
/// limited to three bytes each.
#[derive(Debug)]
pub struct BaseHeader {
    packet_type: PacketType,
    ttl: u8,
    target: String,
    source: String,
}

pub ghost struct BaseHeaderV {
    pub packet_type: PacketType,
    pub ttl: u8,
    pub target: Seq<char>,
    pub source: Seq<char>,
}

impl View for BaseHeader {
    type V = BaseHeaderV;

    closed spec fn view(&self) -> BaseHeaderV {
        BaseHeaderV {
            packet_type: self.packet_type,
            ttl: self.ttl,
            target: self.target@,
            source: self.source@,
        }
    }
}

impl BaseHeader {
    /// A header with both names limited to three bytes.
    pub fn new(packet_type: PacketType, ttl: u8, target: String, source: String) -> (r: BaseHeader)
        requires
            name_limit_ok(target@),
            name_limit_ok(source@),
        ensures
            r@.packet_type == packet_type,
            r@.ttl == ttl,
            vstd::utf8::encode_utf8(r@.target) == limit3(vstd::utf8::encode_utf8(target@)),
            vstd::utf8::encode_utf8(r@.source) == limit3(vstd::utf8::encode_utf8(source@)),
    {
        let truncated_target = truncate_name(&target);
        let truncated_source = truncate_name(&source);
        BaseHeader { packet_type, ttl, target: truncated_target, source: truncated_source }
    }

    /// The header's wire bytes: type, hop budget, then both names.
    pub fn to_bytes(&self) -> (r: Vec<u8>)
        ensures
            r@ == seq![spec_type_byte(self@.packet_type), self@.ttl] + vstd::utf8::encode_utf8(
                self@.target,
            ) + vstd::utf8::encode_utf8(self@.source),
    {
        let mut bytes: Vec<u8> = Vec::new();
        bytes.push(self.packet_type.to_u8());
        bytes.push(self.ttl);
        push_str_bytes(&mut bytes, &self.target);
        push_str_bytes(&mut bytes, &self.source);
        proof {
            assert(bytes@ =~= seq![spec_type_byte(self@.packet_type), self@.ttl]
                + vstd::utf8::encode_utf8(self@.target) + vstd::utf8::encode_utf8(self@.source));
        }
        bytes
    }

    /// The source name.
    pub fn get_ip(&self) -> (r: String)
        ensures
            r@ == self@.source,
    {
        self.source.clone()
    }

    /// The target name.
    pub fn get_target(&self) -> (r: String)
        ensures
            r@ == self@.target,
    {
        self.target.clone()
    }

    /// The source name.
    pub fn get_source(&self) -> (r: String)
        ensures
            r@ == self@.source,
    {
        self.source.clone()
    }

    /// Reads a header back from its wire bytes; refused when the
    /// type byte names no packet type.
    pub fn from_bytes(bytes: Vec<u8>) -> (r: Option<BaseHeader>)
        requires
            bytes@.len() >= 8,
            vstd::utf8::valid_utf8(bytes@.subrange(2, 5)),
            vstd::utf8::valid_utf8(bytes@.subrange(5, 8)),
        ensures
            match r {
                Some(h) => bytes@[0] <= 2 && h@.packet_type == spec_type_of_byte(bytes@[0])
                    && h@.ttl == bytes@[1] && vstd::utf8::encode_utf8(h@.target) == bytes@.subrange(
                    2,
                    5,
                ) && vstd::utf8::encode_utf8(h@.source) == bytes@.subrange(5, 8),
                None => bytes@[0] > 2,
            },
    {
        let packet_type = match PacketType::from_u8(bytes[0]) {
            Some(t) => t,
            None => { return None; },
        };
        let ttl = bytes[1];
        let target = crate::text::utf8_range_string(&bytes, 2, 5);
        let source = crate::text::utf8_range_string(&bytes, 5, 8);
        Some(BaseHeader { packet_type, ttl, target, source })
    }
}

} // verus!
