//! Small byte-order and name helpers shared by the packet formats.

use vstd::prelude::*;
use vstd::string::StringSliceAdditionalSpecFns;

verus! {

/// A 16-bit number as two big-endian bytes.
pub open spec fn be16(n: u16) -> Seq<u8> {
    seq![(n / 0x100) as u8, (n % 0x100) as u8]
}

/// The value of two big-endian bytes.
pub open spec fn be16_val(b0: u8, b1: u8) -> u16 {
    (b0 * 0x100 + b1) as u16
}

/// A 32-bit number as four big-endian bytes.
pub open spec fn be32(n: u32) -> Seq<u8> {
    seq![
        (n / 0x1000000) as u8,
        ((n / 0x10000) % 0x100) as u8,
        ((n / 0x100) % 0x100) as u8,
        (n % 0x100) as u8,
    ]
}

/// The value of four big-endian bytes.
pub open spec fn be32_val(b0: u8, b1: u8, b2: u8, b3: u8) -> u32 {
    (b0 * 0x1000000 + b1 * 0x10000 + b2 * 0x100 + b3) as u32
}

/// Reading back the two bytes of a number gives the number.
pub proof fn lemma_be16_roundtrip(n: u16)
    ensures
        be16_val(be16(n)[0], be16(n)[1]) == n,
{
}

/// Reading back the four bytes of a number gives the number.
pub proof fn lemma_be32_roundtrip(n: u32)
    ensures
        be32_val(be32(n)[0], be32(n)[1], be32(n)[2], be32(n)[3]) == n,
{
    assert(be32_val(be32(n)[0], be32(n)[1], be32(n)[2], be32(n)[3]) == n) by (nonlinear_arith);
}

/// Writes the two big-endian bytes of a 16-bit number.
pub fn push_be16(out: &mut Vec<u8>, n: u16)
    ensures
        final(out)@ == old(out)@ + be16(n),
{
    out.push((n / 0x100) as u8);
    out.push((n % 0x100) as u8);
    assert(out@ =~= old(out)@ + be16(n));
}

/// Writes the four big-endian bytes of a 32-bit number.
pub fn push_be32(out: &mut Vec<u8>, n: u32)
    ensures
        final(out)@ == old(out)@ + be32(n),
{
    out.push((n / 0x1000000) as u8);
    out.push(((n / 0x10000) % 0x100) as u8);
    out.push(((n / 0x100) % 0x100) as u8);
    out.push((n % 0x100) as u8);
    assert(out@ =~= old(out)@ + be32(n));
}

/// The first three UTF-8 bytes kept when a name is limited, the
/// whole name when it is short.
pub open spec fn limit3(b: Seq<u8>) -> Seq<u8> {
    if b.len() <= 3 {
        b
    } else {
        b.take(3)
    }
}

/// True when a name can be limited to three bytes without cutting a
/// character.
pub open spec fn name_limit_ok(s: Seq<char>) -> bool {
    vstd::utf8::encode_utf8(s).len() > 3 ==> vstd::utf8::is_char_boundary(
        vstd::utf8::encode_utf8(s),
        3,
    )
}

/// A copy of the name limited to three bytes.
pub fn truncate_name(s: &String) -> (r: String)
    requires
        name_limit_ok(s@),
    ensures
        vstd::utf8::encode_utf8(r@) == limit3(vstd::utf8::encode_utf8(s@)),
{
    let t = s.as_str();
    proof {
        assert(t@ == s@);
        assert(t.spec_bytes() == vstd::utf8::encode_utf8(s@));
    }
    let tb = t.as_bytes();
    if tb.len() <= 3 {
        let r = s.clone();
        proof {
            assert(r@ == s@);
            assert(vstd::utf8::encode_utf8(s@).len() <= 3);
            assert(vstd::utf8::encode_utf8(r@) =~= limit3(vstd::utf8::encode_utf8(s@)));
        }
        r
    } else {
        let pieces = t.split_at(3);
        let r = pieces.0.to_owned();
        proof {
            assert(pieces.0.spec_bytes() =~= vstd::utf8::encode_utf8(s@).subrange(0, 3));
            assert(vstd::utf8::encode_utf8(r@) =~= limit3(vstd::utf8::encode_utf8(s@)));
        }
        r
    }
}

/// Writes the UTF-8 bytes of a string.
pub fn push_str_bytes(out: &mut Vec<u8>, s: &String)
    ensures
        final(out)@ == old(out)@ + vstd::utf8::encode_utf8(s@),
{
    let b = s.as_str().as_bytes();
    out.extend_from_slice(b);
    assert(out@ =~= old(out)@ + vstd::utf8::encode_utf8(s@));
}

} // verus!
