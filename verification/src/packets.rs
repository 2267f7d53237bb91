//! The early wire format: whole packets carried with a trailing
//! checksum.

use vstd::prelude::*;

pub mod connection;
pub mod header;
pub mod message;
pub mod routing_entry;

use crate::bytesutil::{be32, be32_val, push_be32};
use crate::crc::{crc32_hash, crc32_of};

verus! {

/// A packet of the early format: its bytes and their checksum.
#[derive(Debug)]
pub struct Packet {
    pub bytes: Vec<u8>,
    pub checksum: u32,
}

impl Packet {
    /// The packet's wire form: the bytes, then the checksum in four
    /// big-endian bytes.
    pub fn to_bytes(&self) -> (r: Vec<u8>)
        ensures
            r@ == self.bytes@ + be32(self.checksum),
    {
        let mut out: Vec<u8> = Vec::new();
        out.extend_from_slice(self.bytes.as_slice());
        push_be32(&mut out, self.checksum);
        proof {
            assert(out@ =~= self.bytes@ + be32(self.checksum));
        }
        out
    }

    /// Splits a wire form back into bytes and checksum; an empty
    /// buffer stands for an empty packet.
    pub fn from_bytes(bytes: Vec<u8>) -> (r: Packet)
        requires
            bytes@.len() == 0 || bytes@.len() >= 4,
        ensures
            bytes@.len() == 0 ==> r.bytes@.len() == 0 && r.checksum == 0,
            bytes@.len() >= 4 ==> r.bytes@ == bytes@.take(bytes@.len() - 4) && r.checksum
                == be32_val(
                bytes@[bytes@.len() - 4],
                bytes@[bytes@.len() - 3],
                bytes@[bytes@.len() - 2],
                bytes@[bytes@.len() - 1],
            ),
    {
        if bytes.len() == 0 {
            return Packet { bytes: Vec::new(), checksum: 0 };
        }
        let n = bytes.len();
        let body = crate::text::vec_take_range(&bytes, 0, n - 4);
        let checksum = (bytes[n - 4] as u32) * 0x1000000 + (bytes[n - 3] as u32) * 0x10000 + (
        bytes[n - 2] as u32) * 0x100 + (bytes[n - 1] as u32);
        Packet { bytes: body, checksum }
    }

    /// A packet whose checksum is freshly computed over its bytes.
    pub fn create_crc32(bytes: Vec<u8>) -> (r: Packet)
        ensures
            r.bytes@ == bytes@,
            r.checksum == crc32_of(bytes@),
    {
        let checksum = crc32_hash(bytes.as_slice());
        Packet { bytes, checksum }
    }

    /// True when the checksum matches the bytes.
    pub fn verify_crc32(bytes: Vec<u8>, checksum: u32) -> (r: bool)
        ensures
            r == (crc32_of(bytes@) == checksum),
    {
        crc32_hash(bytes.as_slice()) == checksum
    }

    /// True when this packet's checksum matches its bytes.
    pub fn verify_self(&self) -> (r: bool)
        ensures
            r == (crc32_of(self.bytes@) == self.checksum),
    {
        crc32_hash(self.bytes.as_slice()) == self.checksum
    }
}

} // verus!
