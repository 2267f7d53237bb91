//! The framed, checksummed packet codec.
//!
//! A frame is a 53-byte common header followed by the JSON payload it
//! describes. `encode` writes a frame for a packet; `decode` is fed a
//! growing byte buffer and takes one frame off its front per call,
//! holding on to a parsed header while the body is still short.

use vstd::prelude::*;

use crate::common_header::{
    emit_common_header, lemma_common_header_canonical, lemma_common_header_width,
    parse_common_header, ser_common_header, sp_parse_common_header, CommonHeader,
    COMMON_HEADER_LENGTH,
};
use crate::crc::{crc32_of, crc32_hash};
use crate::protocol::{
    encode_payload, lemma_payload_round_trip, parse_payload, payload_fuel, ser_payload,
    sp_parse_payload, valid_routing_id, view_type_id, wf_packet, Packet, PacketV, MESSAGE,
};
use crate::text::vec_take_range;

verus! {

/// Refuse buffers larger than this: a runaway frame is a fatal
/// framing error.
pub const MAX_ACCEPTED_LEN: usize = 8 * 1024 * 1024;

/// Why a frame could not be written or read.
#[derive(Clone, Copy, Debug, PartialEq, Eq, Structural)]
pub enum CodecError {
    /// The receive buffer outgrew the hard limit.
    BufferTooLarge,
    /// The 53 header bytes were not a well-formed common header.
    HeaderParse,
    /// The payload checksum did not match the header.
    CrcMismatch,
    /// The type id named no known packet shape.
    UnknownTypeId,
    /// The payload bytes were not a well-formed packet of the named
    /// type.
    PayloadParse,
    /// The payload would not fit the 16-bit length field.
    PayloadTooLarge,
    /// The type id would not fit its single header digit.
    TypeIdTooWide,
}

/// The stateful codec: between a header and its body, the parsed
/// header is kept here.
pub struct SwagCoder {
    has_common_header: bool,
    last_common_header: Option<CommonHeader>,
}

/// The full wire frame of a packet.
pub open spec fn spec_frame(p: PacketV) -> Seq<u8> {
    ser_common_header(frame_header(p)) + ser_payload(p)
}

/// The common header that `encode` writes for a packet.
pub open spec fn frame_header(p: PacketV) -> CommonHeader {
    CommonHeader {
        length: ser_payload(p).len() as u16,
        crc32: crc32_of(ser_payload(p)),
        type_id: view_type_id(p),
    }
}

impl SwagCoder {
    /// The codec holds a parsed header exactly while it waits for the
    /// body.
    pub closed spec fn wf(self) -> bool {
        self.has_common_header ==> self.last_common_header is Some
    }

    /// True while the codec expects a header next.
    pub closed spec fn awaiting_header(self) -> bool {
        !self.has_common_header
    }

    /// The header the codec holds while it waits for a body.
    pub closed spec fn pending_header(self) -> Option<CommonHeader> {
        self.last_common_header
    }

    pub fn new() -> (r: SwagCoder)
        ensures
            r.wf(),
            r.awaiting_header(),
    {
        SwagCoder { has_common_header: false, last_common_header: None }
    }

    /// Appends the frame of `item` to `dst`: the 53 header bytes,
    /// then the payload whose length and checksum the header names.
    pub fn encode(&mut self, item: &Packet, dst: &mut Vec<u8>) -> (r: Result<(), CodecError>)
        ensures
            *final(self) == *old(self),
            match r {
                Ok(()) => ser_payload(item@).len() <= 0xffff && view_type_id(item@) <= 9
                    && final(dst)@ == old(dst)@ + spec_frame(item@),
                Err(e) => final(dst)@ == old(dst)@ && (e == CodecError::PayloadTooLarge
                    || e == CodecError::TypeIdTooWide) && (ser_payload(item@).len() > 0xffff
                    || view_type_id(item@) > 9) && (e == CodecError::PayloadTooLarge
                    ==> ser_payload(item@).len() > 0xffff) && (e == CodecError::TypeIdTooWide
                    ==> view_type_id(item@) > 9),
            },
    {
        let payload = encode_payload(item);
        if payload.len() > 0xffff {
            return Err(CodecError::PayloadTooLarge);
        }
        let type_id = item.type_id();
        if type_id > 9 {
            return Err(CodecError::TypeIdTooWide);
        }
        let crc = crc32_hash(payload.as_slice());
        let header = CommonHeader { length: payload.len() as u16, crc32: crc, type_id };
        proof {
            lemma_common_header_width(header);
        }
        emit_common_header(dst, &header);
        let mut body = payload;
        dst.append(&mut body);
        proof {
            assert(dst@ =~= old(dst)@ + spec_frame(item@));
        }
        Ok(())
    }

    /// Takes one frame off the front of `src` if enough bytes are
    /// buffered: reads and consumes the header, then the body, checks
    /// the checksum, and hands back the packet. `Ok(None)` asks for
    /// more bytes.
    pub fn decode(&mut self, src: &mut Vec<u8>) -> (r: Result<Option<Packet>, CodecError>)
        requires
            old(self).wf(),
        ensures
            final(self).wf(),
            old(src)@.len() > MAX_ACCEPTED_LEN ==> r == Result::<Option<Packet>, CodecError>::Err(
                CodecError::BufferTooLarge,
            ) && *final(self) == *old(self) && final(src)@ == old(src)@,
            old(src)@.len() <= MAX_ACCEPTED_LEN && old(self).awaiting_header() ==> {
                &&& old(src)@.len() < COMMON_HEADER_LENGTH ==> r == Result::<
                    Option<Packet>,
                    CodecError,
                >::Ok(None) && *final(self) == *old(self) && final(src)@ == old(src)@
                &&& old(src)@.len() >= COMMON_HEADER_LENGTH ==> {
                    let hbytes = old(src)@.take(COMMON_HEADER_LENGTH as int);
                    let rest = old(src)@.skip(COMMON_HEADER_LENGTH as int);
                    match sp_parse_common_header(hbytes, hbytes.len() + 1) {
                        None => r == Result::<Option<Packet>, CodecError>::Err(
                            CodecError::HeaderParse,
                        ) && final(self).awaiting_header() && final(src)@ == rest,
                        Some(h) => decode_body_post(h, rest, r, *final(self), final(src)@),
                    }
                }
            },
            old(src)@.len() <= MAX_ACCEPTED_LEN && !old(self).awaiting_header() ==> decode_body_post(
                old(self).pending_header()->Some_0,
                old(src)@,
                r,
                *final(self),
                final(src)@,
            ),
    {
        if src.len() > MAX_ACCEPTED_LEN {
            return Err(CodecError::BufferTooLarge);
        }
        if !self.has_common_header {
            if src.len() < COMMON_HEADER_LENGTH {
                return Ok(None);
            }
            let hbytes = vec_take_range(src, 0, COMMON_HEADER_LENGTH);
            let rest = vec_take_range(src, COMMON_HEADER_LENGTH, src.len());
            *src = rest;
            let fuel = hbytes.len() + 1;
            let header = match parse_common_header(&hbytes, fuel) {
                Some(h) => h,
                None => { return Err(CodecError::HeaderParse); },
            };
            self.last_common_header = Some(header);
            self.has_common_header = true;
        }
        let header = match self.last_common_header {
            Some(h) => h,
            None => vstd::pervasive::unreached(),
        };
        let packet_length = header.length as usize;
        if src.len() < packet_length {
            return Ok(None);
        }
        let body = vec_take_range(src, 0, packet_length);
        let rest = vec_take_range(src, packet_length, src.len());
        *src = rest;
        let checksum = crc32_hash(body.as_slice());
        if checksum != header.crc32 {
            return Err(CodecError::CrcMismatch);
        }
        if !(header.type_id == MESSAGE || header.type_id == crate::protocol::CR || header.type_id
            == crate::protocol::CRR || header.type_id == crate::protocol::SCC || header.type_id
            == crate::protocol::SCCR || header.type_id == crate::protocol::STU) {
            return Err(CodecError::UnknownTypeId);
        }
        let fuel = body.len() + 1;
        let packet = match parse_payload(&body, header.type_id, fuel) {
            Some(p) => p,
            None => { return Err(CodecError::PayloadParse); },
        };
        self.has_common_header = false;
        Ok(Some(packet))
    }
}

/// What one decode call does once it holds a header `h` over the
/// remaining buffer `buf`.
pub open spec fn decode_body_post(
    h: CommonHeader,
    buf: Seq<u8>,
    r: Result<Option<Packet>, CodecError>,
    fself: SwagCoder,
    fsrc: Seq<u8>,
) -> bool {
    &&& buf.len() < h.length ==> r == Result::<Option<Packet>, CodecError>::Ok(None)
        && !fself.awaiting_header() && fself.pending_header() == Some(h) && fsrc == buf
    &&& buf.len() >= h.length ==> {
        let body = buf.take(h.length as int);
        let rest = buf.skip(h.length as int);
        &&& fsrc == rest
        &&& crc32_of(body) != h.crc32 ==> r == Result::<Option<Packet>, CodecError>::Err(
            CodecError::CrcMismatch,
        ) && !fself.awaiting_header()
        &&& crc32_of(body) == h.crc32 ==> {
            &&& !(h.type_id == MESSAGE || valid_routing_id(h.type_id)) ==> r == Result::<
                Option<Packet>,
                CodecError,
            >::Err(CodecError::UnknownTypeId) && !fself.awaiting_header()
            &&& (h.type_id == MESSAGE || valid_routing_id(h.type_id)) ==> match sp_parse_payload(
                body,
                h.type_id,
                body.len() + 1,
            ) {
                None => r == Result::<Option<Packet>, CodecError>::Err(CodecError::PayloadParse)
                    && !fself.awaiting_header(),
                Some(pv) => (match r {
                    Ok(Some(packet)) => packet@ == pv && fself.awaiting_header(),
                    _ => false,
                }),
            }
        }
    }
}

/// The codec round trip: the frame that `encode` writes for a packet
/// is read back by `decode` as exactly that packet, leaving whatever
/// follows the frame in the buffer. Holds for every packet whose
/// payload fits the length field.
#[verifier::rlimit(100)]
#[verifier::spinoff_prover]
pub proof fn lemma_codec_round_trip(p: PacketV, rest: Seq<u8>)
    requires
        wf_packet(p),
        ser_payload(p).len() <= 0xffff,
    ensures
        spec_frame(p).len() == COMMON_HEADER_LENGTH + ser_payload(p).len(),
        sp_parse_common_header(
            (spec_frame(p) + rest).take(COMMON_HEADER_LENGTH as int),
            (COMMON_HEADER_LENGTH + 1) as nat,
        ) == Some(frame_header(p)),
        (spec_frame(p) + rest).skip(COMMON_HEADER_LENGTH as int) == ser_payload(p) + rest,
        (ser_payload(p) + rest).take(frame_header(p).length as int) == ser_payload(p),
        (ser_payload(p) + rest).skip(frame_header(p).length as int) == rest,
        crc32_of((ser_payload(p) + rest).take(frame_header(p).length as int)) == frame_header(
            p,
        ).crc32,
        sp_parse_payload(ser_payload(p), frame_header(p).type_id, ser_payload(p).len() + 1)
            == Some(p),
{
    let payload = ser_payload(p);
    let h = frame_header(p);
    assert(view_type_id(p) <= 9);
    lemma_common_header_width(h);
    let frame = spec_frame(p);
    assert((frame + rest).take(COMMON_HEADER_LENGTH as int) =~= ser_common_header(h));
    lemma_common_header_canonical(h, ser_common_header(h), (COMMON_HEADER_LENGTH + 1) as nat);
    assert((frame + rest).skip(COMMON_HEADER_LENGTH as int) =~= payload + rest);
    assert((payload + rest).take(h.length as int) =~= payload);
    assert((payload + rest).skip(h.length as int) =~= rest);
    lemma_payload_fuel_bound(p);
    lemma_payload_round_trip(p, payload.len() + 1);
}

/// The length of a payload bounds the fuel its parse needs.
proof fn lemma_payload_fuel_bound(p: PacketV)
    ensures
        ser_payload(p).len() + 1 >= payload_fuel(p),
{
    match p {
        PacketV::Routed(_) => {},
        PacketV::Routing(rp, _) => {
            match rp.table {
                Some(s) => {
                    lemma_entries_at_least(s);
                },
                None => {},
            }
        },
    }
}

/// A serialized table is at least as long as its entry count.
proof fn lemma_entries_at_least(s: Seq<crate::protocol::RoutingEntryV>)
    ensures
        crate::protocol::ser_entries(s).len() >= s.len(),
    decreases s.len(),
{
    if s.len() == 0 {
    } else if s.len() == 1 {
        lemma_entry_len(s[0]);
    } else {
        lemma_entry_len(s[0]);
        lemma_entries_at_least(s.drop_first());
    }
}

/// A serialized entry is never empty.
proof fn lemma_entry_len(e: crate::protocol::RoutingEntryV)
    ensures
        crate::protocol::ser_entry(e).len() >= 1,
{
}

} // verus!
