//! The fixed-width framing preamble of every frame.
//!
//! The common header is a JSON object of three string fields, each a
//! zero-padded decimal: the payload length in five digits, its CRC-32
//! in ten, and the type id in one, which makes the serialized header
//! exactly 53 bytes for every legal packet.

use vstd::prelude::*;

use crate::json::{
    ascii_seq, emit_padded_udec, esc_plain, find_field, is_digit_byte, lemma_esc_plain,
    lemma_padded_canonical, lemma_string_canonical, lemma_udec_all_digits, lemma_udec_len_le,
    lemma_ws_stops, obj_tail, parse_string_raw, parse_u64_max, pow10, skip_ws, sp_find_field,
    sp_obj_tail, sp_string, sp_uint, sp_ws, spec_padded_udec, spec_udec,
};
use crate::protocol::{
    ascii_key_crc32, ascii_key_length, ascii_key_type_id, lemma_byte_at, lemma_chunk,
    lemma_field_at, ser_field, sp_comma, sp_obj_open,
};

verus! {

/// Width of the serialized common header in bytes.
pub const COMMON_HEADER_LENGTH: usize = 53;

/// The parsed framing preamble: payload byte count, its checksum, and
/// the packet type id.
#[derive(Clone, Copy, Debug, PartialEq, Eq, Structural)]
pub struct CommonHeader {
    pub length: u16,
    pub crc32: u32,
    pub type_id: u8,
}

/// The preamble as it stands on the wire: each number as a
/// zero-padded decimal string.
#[derive(Clone, Debug)]
pub struct CommonHeaderUnparsed {
    pub length: String,
    pub crc32: String,
    pub type_id: String,
}

/// The value of a decimal string, when it is one and fits `max`.
pub open spec fn dec_of(s: Seq<char>, max: nat) -> Option<nat> {
    let bytes = vstd::utf8::encode_utf8(s);
    match sp_uint(bytes, 0, max) {
        Some((n, j)) => if j == bytes.len() {
            Some(n)
        } else {
            None
        },
        None => None,
    }
}

impl CommonHeaderUnparsed {
    /// The zero-padded decimal strings of a parsed header.
    pub fn new(header: CommonHeader) -> (r: CommonHeaderUnparsed)
        requires
            header.type_id <= 9,
        ensures
            vstd::utf8::encode_utf8(r.length@) == spec_padded_udec(header.length as nat, 5),
            vstd::utf8::encode_utf8(r.crc32@) == spec_padded_udec(header.crc32 as nat, 10),
            vstd::utf8::encode_utf8(r.type_id@) == spec_padded_udec(header.type_id as nat, 1),
    {
        proof {
            lemma_header_digit_widths(header);
        }
        let mut lb: Vec<u8> = Vec::new();
        emit_padded_udec(&mut lb, header.length as u64, 5);
        let mut cb: Vec<u8> = Vec::new();
        emit_padded_udec(&mut cb, header.crc32 as u64, 10);
        let mut tb: Vec<u8> = Vec::new();
        emit_padded_udec(&mut tb, header.type_id as u64, 1);
        proof {
            lemma_padded_all_digits(header.length as nat, 5);
            lemma_padded_all_digits(header.crc32 as nat, 10);
            lemma_padded_all_digits(header.type_id as nat, 1);
        }
        CommonHeaderUnparsed {
            length: crate::text::ascii_string(lb),
            crc32: crate::text::ascii_string(cb),
            type_id: crate::text::ascii_string(tb),
        }
    }
}

/// The canonical decimal of every field fits its fixed width.
pub proof fn lemma_header_digit_widths(header: CommonHeader)
    ensures
        spec_udec(header.length as nat).len() <= 5,
        spec_udec(header.crc32 as nat).len() <= 10,
        header.type_id <= 9 ==> spec_udec(header.type_id as nat).len() <= 1,
{
    reveal_with_fuel(pow10, 11);
    assert((header.length as nat) < pow10(5));
    lemma_udec_len_le(header.length as nat, 5);
    assert((header.crc32 as nat) < pow10(10));
    lemma_udec_len_le(header.crc32 as nat, 10);
    if header.type_id <= 9 {
        assert(spec_udec(header.type_id as nat).len() == 1);
    }
}

/// Every byte of a zero-padded decimal is a digit.
pub proof fn lemma_padded_all_digits(n: nat, w: nat)
    ensures
        forall|i: int|
            0 <= i < spec_padded_udec(n, w).len() ==> is_digit_byte(
                #[trigger] spec_padded_udec(n, w)[i],
            ),
{
    lemma_udec_all_digits(n);
    assert forall|i: int| 0 <= i < spec_padded_udec(n, w).len() implies is_digit_byte(
        #[trigger] spec_padded_udec(n, w)[i],
    ) by {
        let zl = spec_padded_udec(n, w).len() - spec_udec(n).len();
        if i < zl {
            assert(spec_padded_udec(n, w)[i] == 0x30u8);
        } else {
            assert(spec_padded_udec(n, w)[i] == spec_udec(n)[i - zl]);
        }
    }
}

impl CommonHeader {
    /// The numbers behind the decimal strings of an unparsed header.
    pub fn from_unparsed(header: CommonHeaderUnparsed) -> (r: CommonHeader)
        requires
            dec_of(header.length@, 0xffff) is Some,
            dec_of(header.crc32@, 0xffffffff) is Some,
            dec_of(header.type_id@, 0xff) is Some,
        ensures
            Some(r.length as nat) == dec_of(header.length@, 0xffff),
            Some(r.crc32 as nat) == dec_of(header.crc32@, 0xffffffff),
            Some(r.type_id as nat) == dec_of(header.type_id@, 0xff),
    {
        let length = parse_dec_field(&header.length, 0xffff) as u16;
        let crc32 = parse_dec_field(&header.crc32, 0xffffffff) as u32;
        let type_id = parse_dec_field(&header.type_id, 0xff) as u8;
        CommonHeader { length, crc32, type_id }
    }
}

/// The number in a decimal string field.
fn parse_dec_field(s: &String, max: u64) -> (r: u64)
    requires
        max <= 0x100000000,
        dec_of(s@, max as nat) is Some,
    ensures
        Some(r as nat) == dec_of(s@, max as nat),
        r <= max,
{
    let bytes = s.as_str().as_bytes_vec();
    match parse_u64_max(&bytes, 0, max) {
        Some(p) => {
            if p.1 == bytes.len() {
                p.0
            } else {
                vstd::pervasive::unreached()
            }
        },
        None => vstd::pervasive::unreached(),
    }
}

// ---------------------------------------------------------------------
// the header on the wire
// ---------------------------------------------------------------------

/// The serialized common header: 53 bytes for every legal packet.
pub open spec fn ser_common_header(h: CommonHeader) -> Seq<u8> {
    seq![0x7bu8] + ser_field(
        "length"@,
        seq![0x22u8] + spec_padded_udec(h.length as nat, 5) + seq![0x22u8],
    ) + seq![0x2cu8] + ser_field(
        "crc32"@,
        seq![0x22u8] + spec_padded_udec(h.crc32 as nat, 10) + seq![0x22u8],
    ) + seq![0x2cu8] + ser_field(
        "type_id"@,
        seq![0x22u8] + spec_padded_udec(h.type_id as nat, 1) + seq![0x22u8],
    ) + seq![0x7du8]
}

/// The serialized common header is exactly 53 bytes wide whenever the
/// type id is a single digit.
pub proof fn lemma_common_header_width(h: CommonHeader)
    requires
        h.type_id <= 9,
    ensures
        ser_common_header(h).len() == COMMON_HEADER_LENGTH,
{
    lemma_header_digit_widths(h);
    reveal_strlit("length");
    reveal_strlit("crc32");
    reveal_strlit("type_id");
    assert(("length"@).len() == 6);
    assert(("crc32"@).len() == 5);
    assert(("type_id"@).len() == 7);
    assert(spec_padded_udec(h.length as nat, 5).len() == 5);
    assert(spec_padded_udec(h.crc32 as nat, 10).len() == 10);
    assert(spec_padded_udec(h.type_id as nat, 1).len() == 1);
}

/// Writes the 53 wire bytes of a common header.
pub fn emit_common_header(out: &mut Vec<u8>, h: &CommonHeader)
    requires
        h.type_id <= 9,
    ensures
        final(out)@ == old(out)@ + ser_common_header(*h),
{
    proof {
        lemma_header_digit_widths(*h);
    }
    out.push(0x7b);
    proof {
        ascii_key_length();
    }
    crate::protocol::emit_field_start(out, "length");
    out.push(0x22);
    emit_padded_udec(out, h.length as u64, 5);
    out.push(0x22);
    out.push(0x2c);
    proof {
        ascii_key_crc32();
    }
    crate::protocol::emit_field_start(out, "crc32");
    out.push(0x22);
    emit_padded_udec(out, h.crc32 as u64, 10);
    out.push(0x22);
    out.push(0x2c);
    proof {
        ascii_key_type_id();
    }
    crate::protocol::emit_field_start(out, "type_id");
    out.push(0x22);
    emit_padded_udec(out, h.type_id as u64, 1);
    out.push(0x22);
    out.push(0x7d);
    assert(out@ =~= old(out)@ + ser_common_header(*h));
}

/// Reads a common header object covering the whole buffer.
pub open spec fn sp_parse_common_header(v: Seq<u8>, fuel: nat) -> Option<CommonHeader> {
    match sp_obj_open(v, 0) {
        None => None,
        Some(o) => match sp_find_field(v, o, ascii_seq("length"@), fuel) {
            None => None,
            Some(p1) => match sp_string(v, p1) {
                None => None,
                Some((r1, j1)) => match full_dec(r1, 0xffff) {
                    None => None,
                    Some(n1) => match sp_comma(v, j1) {
                        None => None,
                        Some(c1) => match sp_find_field(v, c1, ascii_seq("crc32"@), fuel) {
                            None => None,
                            Some(p2) => match sp_string(v, p2) {
                                None => None,
                                Some((r2, j2)) => match full_dec(r2, 0xffffffff) {
                                    None => None,
                                    Some(n2) => match sp_comma(v, j2) {
                                        None => None,
                                        Some(c2) => match sp_find_field(
                                            v,
                                            c2,
                                            ascii_seq("type_id"@),
                                            fuel,
                                        ) {
                                            None => None,
                                            Some(p3) => match sp_string(v, p3) {
                                                None => None,
                                                Some((r3, j3)) => match full_dec(r3, 0xff) {
                                                    None => None,
                                                    Some(n3) => match sp_obj_tail(v, j3, fuel) {
                                                        None => None,
                                                        Some(e) => if sp_ws(v, e) == v.len() {
                                                            Some(
                                                                CommonHeader {
                                                                    length: n1 as u16,
                                                                    crc32: n2 as u32,
                                                                    type_id: n3 as u8,
                                                                },
                                                            )
                                                        } else {
                                                            None
                                                        },
                                                    },
                                                },
                                            },
                                        },
                                    },
                                },
                            },
                        },
                    },
                },
            },
        },
    }
}

/// The value of a byte sequence that is all decimal digits.
pub open spec fn full_dec(bytes: Seq<u8>, max: nat) -> Option<nat> {
    match sp_uint(bytes, 0, max) {
        Some((n, j)) => if j == bytes.len() {
            Some(n)
        } else {
            None
        },
        None => None,
    }
}

/// Reads the digits of one string field.
fn parse_digit_string(v: &Vec<u8>, i: usize, max: u64) -> (r: Option<(u64, usize)>)
    requires
        i <= v@.len(),
        max <= 0x100000000,
    ensures
        match r {
            Some(p) => (match sp_string(v@, i as int) {
                Some((raw, j)) => full_dec(raw, max as nat) == Some(p.0 as nat) && j == p.1 && p.1
                    <= v@.len() && p.0 <= max,
                None => false,
            }),
            None => (match sp_string(v@, i as int) {
                Some((raw, j)) => full_dec(raw, max as nat) is None,
                None => true,
            }),
        },
{
    let (raw, j) = match parse_string_raw(v, i) {
        Some(x) => x,
        None => { return None; },
    };
    match parse_u64_max(&raw, 0, max) {
        Some(p) => {
            if p.1 == raw.len() {
                Some((p.0, j))
            } else {
                None
            }
        },
        None => None,
    }
}

/// Reads a common header from its 53 wire bytes.
#[verifier::rlimit(100)]
#[verifier::spinoff_prover]
pub fn parse_common_header(v: &Vec<u8>, fuel: usize) -> (r: Option<CommonHeader>)
    ensures
        match r {
            Some(h) => sp_parse_common_header(v@, fuel as nat) == Some(h),
            None => sp_parse_common_header(v@, fuel as nat) is None,
        },
{
    proof {
        ascii_key_length();
        ascii_key_crc32();
        ascii_key_type_id();
    }
    let o = match crate::protocol::obj_open(v, 0) {
        Some(x) => x,
        None => { return None; },
    };
    let p1 = match find_field(v, o, "length", fuel) {
        Some(x) => x,
        None => { return None; },
    };
    let (n1, j1) = match parse_digit_string(v, p1, 0xffff) {
        Some(x) => x,
        None => { return None; },
    };
    let c1 = match crate::protocol::comma_sep(v, j1) {
        Some(x) => x,
        None => { return None; },
    };
    let p2 = match find_field(v, c1, "crc32", fuel) {
        Some(x) => x,
        None => { return None; },
    };
    let (n2, j2) = match parse_digit_string(v, p2, 0xffffffff) {
        Some(x) => x,
        None => { return None; },
    };
    let c2 = match crate::protocol::comma_sep(v, j2) {
        Some(x) => x,
        None => { return None; },
    };
    let p3 = match find_field(v, c2, "type_id", fuel) {
        Some(x) => x,
        None => { return None; },
    };
    let (n3, j3) = match parse_digit_string(v, p3, 0xff) {
        Some(x) => x,
        None => { return None; },
    };
    let e = match obj_tail(v, j3, fuel) {
        Some(x) => x,
        None => { return None; },
    };
    let t = skip_ws(v, e);
    if t != v.len() {
        return None;
    }
    Some(CommonHeader { length: n1 as u16, crc32: n2 as u32, type_id: n3 as u8 })
}

/// Reading back a serialized common header yields it unchanged.
#[verifier::rlimit(100)]
#[verifier::spinoff_prover]
pub proof fn lemma_common_header_canonical(h: CommonHeader, v: Seq<u8>, fuel: nat)
    requires
        v == ser_common_header(h),
        h.type_id <= 9,
        fuel >= 1,
    ensures
        sp_parse_common_header(v, fuel) == Some(h),
{
    ascii_key_length();
    ascii_key_crc32();
    ascii_key_type_id();
    lemma_header_digit_widths(h);
    let region = ser_common_header(h);
    let i: int = 0;
    let j = region.len() as int;
    assert(v.subrange(i, j) =~= region);
    let d1 = spec_padded_udec(h.length as nat, 5);
    let d2 = spec_padded_udec(h.crc32 as nat, 10);
    let d3 = spec_padded_udec(h.type_id as nat, 1);
    lemma_padded_all_digits(h.length as nat, 5);
    lemma_padded_all_digits(h.crc32 as nat, 10);
    lemma_padded_all_digits(h.type_id as nat, 1);
    let v1 = seq![0x22u8] + d1 + seq![0x22u8];
    let v2 = seq![0x22u8] + d2 + seq![0x22u8];
    let v3 = seq![0x22u8] + d3 + seq![0x22u8];
    let f1 = ser_field("length"@, v1);
    let f2 = ser_field("crc32"@, v2);
    let f3 = ser_field("type_id"@, v3);
    let a1 = i + 1;
    let a2 = a1 + f1.len();
    let b2 = a2 + 1;
    let a3 = b2 + f2.len();
    let b3 = a3 + 1;
    let a4 = b3 + f3.len();
    assert(region == seq![0x7bu8] + f1 + seq![0x2cu8] + f2 + seq![0x2cu8] + f3 + seq![0x7du8]);
    assert(region.len() == 1 + f1.len() + 1 + f2.len() + 1 + f3.len() + 1);
    lemma_byte_at(v, i, j, region, i);
    assert(v[i] == 0x7b);
    lemma_ws_stops(v, i);
    assert(sp_obj_open(v, 0) == Some(a1));
    // length
    assert forall|t: int| 0 <= t < f1.len() implies region[(a1 - i) + t] == #[trigger] f1[t] by {}
    lemma_field_at(v, i, j, region, a1, "length"@, v1, fuel);
    let p1 = a1 + "length"@.len() + 3;
    lemma_dec_string_value(h.length as nat, 5, 0xffff, v, p1, p1 + v1.len() as int);
    assert(p1 + v1.len() == a2);
    lemma_byte_at(v, i, j, region, a2);
    assert(v[a2] == 0x2c);
    lemma_ws_stops(v, a2);
    assert(sp_comma(v, a2) == Some(b2));
    // crc32
    assert forall|t: int| 0 <= t < f2.len() implies region[(b2 - i) + t] == #[trigger] f2[t] by {}
    lemma_field_at(v, i, j, region, b2, "crc32"@, v2, fuel);
    let p2 = b2 + "crc32"@.len() + 3;
    lemma_dec_string_value(h.crc32 as nat, 10, 0xffffffff, v, p2, p2 + v2.len() as int);
    assert(p2 + v2.len() == a3);
    lemma_byte_at(v, i, j, region, a3);
    assert(v[a3] == 0x2c);
    lemma_ws_stops(v, a3);
    assert(sp_comma(v, a3) == Some(b3));
    // type_id
    assert forall|t: int| 0 <= t < f3.len() implies region[(b3 - i) + t] == #[trigger] f3[t] by {}
    lemma_field_at(v, i, j, region, b3, "type_id"@, v3, fuel);
    let p3 = b3 + "type_id"@.len() + 3;
    lemma_dec_string_value(h.type_id as nat, 1, 0xff, v, p3, p3 + v3.len() as int);
    assert(p3 + v3.len() == a4);
    lemma_byte_at(v, i, j, region, a4);
    assert(v[a4] == 0x7d);
    crate::json::lemma_obj_tail_canonical(v, a4, fuel);
    assert(a4 + 1 == j);
    lemma_ws_stops(v, j);
    assert(sp_parse_common_header(v, fuel) == Some(
        CommonHeader {
            length: ((h.length as nat) as u16),
            crc32: ((h.crc32 as nat) as u32),
            type_id: ((h.type_id as nat) as u8),
        },
    ));
}

/// A quoted zero-padded decimal reads back as its number.
proof fn lemma_dec_string_value(n: nat, w: nat, max: nat, v: Seq<u8>, i: int, j: int)
    requires
        0 <= i <= j <= v.len(),
        v.subrange(i, j) == seq![0x22u8] + spec_padded_udec(n, w) + seq![0x22u8],
        spec_udec(n).len() <= w,
        n <= max,
    ensures
        sp_string(v, i) == Some((spec_padded_udec(n, w), j)),
        full_dec(spec_padded_udec(n, w), max) == Some(n),
{
    let d = spec_padded_udec(n, w);
    lemma_padded_all_digits(n, w);
    assert(esc_plain(d));
    lemma_esc_plain(d);
    lemma_string_canonical(d, v, i, j);
    assert(d.subrange(0, d.len() as int) =~= d);
    lemma_padded_canonical(n, w, max, d, 0, d.len() as int);
}

/// The port number in a decimal text.
pub fn parse_port_text(s: &String) -> (r: u16)
    requires
        full_dec(vstd::utf8::encode_utf8(s@), 0xffff) is Some,
    ensures
        Some(r as nat) == full_dec(vstd::utf8::encode_utf8(s@), 0xffff),
{
    parse_dec_field(s, 0xffff) as u16
}

} // verus!
