//! The connect packet of the early wire format.

use vstd::prelude::*;

use crate::bytesutil::{be16, be16_val, push_be16, push_str_bytes};

verus! {

/// The greeting a connecting node sends: its name, its listener
/// port, and whether it opened the link.
#[derive(Debug)]
pub struct ConnectionPacket {
    pub name: String,
    pub port: u16,
    pub is_first: bool,
}

impl ConnectionPacket {
    pub fn new(name: String, port: u16, is_first: bool) -> (r: ConnectionPacket)
        ensures
            r.name@ == name@,
            r.port == port,
            r.is_first == is_first,
    {
        ConnectionPacket { name, port, is_first }
    }

    /// The packet's wire bytes: name, big-endian port, flag.
    pub fn to_bytes(&self) -> (r: Vec<u8>)
        ensures
            r@ == vstd::utf8::encode_utf8(self.name@) + be16(self.port) + seq![
                if self.is_first {
                    1u8
                } else {
                    0u8
                },
            ],
    {
        let mut bytes: Vec<u8> = Vec::new();
        push_str_bytes(&mut bytes, &self.name);
        push_be16(&mut bytes, self.port);
        bytes.push(if self.is_first { 1 } else { 0 });
        proof {
            assert(bytes@ =~= vstd::utf8::encode_utf8(self.name@) + be16(self.port) + seq![
                if self.is_first {
                    1u8
                } else {
                    0u8
                },
            ]);
        }
        bytes
    }

    /// Reads a packet back from its wire bytes: a three-byte name,
    /// the port, and the flag.
    pub fn from_bytes(bytes: Vec<u8>) -> (r: ConnectionPacket)
        requires
            bytes@.len() >= 6,
            vstd::utf8::valid_utf8(bytes@.subrange(0, 3)),
        ensures
            vstd::utf8::encode_utf8(r.name@) == bytes@.subrange(0, 3),
            r.port == be16_val(bytes@[3], bytes@[4]),
            r.is_first == (bytes@[5] == 1),
    {
        let name = crate::text::utf8_range_string(&bytes, 0, 3);
        let port = (bytes[3] as u16) * 0x100 + (bytes[4] as u16);
        let is_first = bytes[5] == 1;
        ConnectionPacket { name, port, is_first }
    }
}

} // verus!
