//! Conversions between byte sequences and strings.

use vstd::prelude::*;

verus! {

/// Relies on String::from_utf8: succeeds exactly on valid UTF-8 and
/// returns the string holding those very bytes.
#[verifier::external_body]
pub fn bytes_to_string(v: Vec<u8>) -> (r: Option<String>)
    ensures
        match r {
            Some(s) => vstd::utf8::encode_utf8(s@) == v@,
            None => !vstd::utf8::valid_utf8(v@),
        },
{
    match String::from_utf8(v) {
        Ok(s) => Some(s),
        Err(_) => None,
    }
}

/// A string recovered from the UTF-8 bytes of another is that string.
pub proof fn lemma_utf8_unique(a: Seq<char>, b: Seq<char>)
    requires
        vstd::utf8::encode_utf8(a) == vstd::utf8::encode_utf8(b),
    ensures
        a == b,
{
    broadcast use vstd::utf8::encode_utf8_decode_utf8;

    assert(vstd::utf8::decode_utf8(vstd::utf8::encode_utf8(a)) == a);
    assert(vstd::utf8::decode_utf8(vstd::utf8::encode_utf8(b)) == b);
}

/// All-ASCII byte sequences are valid UTF-8.
pub proof fn lemma_ascii_valid_utf8(bytes: Seq<u8>)
    requires
        forall|i: int| 0 <= i < bytes.len() ==> #[trigger] bytes[i] < 0x80,
    ensures
        vstd::utf8::valid_utf8(bytes),
{
    assert(vstd::utf8::partial_valid_utf8(bytes, 0)) by {
        assert(bytes.subrange(0, 0) =~= Seq::<u8>::empty());
        reveal_with_fuel(vstd::utf8::valid_utf8, 1);
    }
    assert(forall|i: int|
        0 <= i < bytes.len() ==> vstd::utf8::is_leading_byte_width_1(#[trigger] bytes[i]));
    vstd::utf8::partial_valid_utf8_extend_ascii_block(bytes, 0, bytes.len() as int);
    assert(bytes.subrange(0, bytes.len() as int) =~= bytes);
}

/// A `String` from ASCII bytes; its UTF-8 bytes are exactly the input.
pub fn ascii_string(v: Vec<u8>) -> (r: String)
    requires
        forall|i: int| 0 <= i < v@.len() ==> #[trigger] v@[i] < 0x80,
    ensures
        vstd::utf8::encode_utf8(r@) == v@,
{
    let ghost bytes = v@;
    proof {
        lemma_ascii_valid_utf8(bytes);
    }
    match bytes_to_string(v) {
        Some(s) => s,
        None => vstd::pervasive::unreached(),
    }
}

/// A fresh copy of the bytes of `v` from `a` to `b`.
pub fn vec_take_range(v: &Vec<u8>, a: usize, b: usize) -> (r: Vec<u8>)
    requires
        a <= b <= v@.len(),
    ensures
        r@ == v@.subrange(a as int, b as int),
{
    let mut out: Vec<u8> = Vec::new();
    let mut k: usize = a;
    while k < b
        invariant
            a <= k <= b <= v@.len(),
            out@ == v@.subrange(a as int, k as int),
        decreases b - k,
    {
        out.push(v[k]);
        proof {
            assert(v@.subrange(a as int, k as int).push(v@[k as int]) =~= v@.subrange(
                a as int,
                k + 1 as int,
            ));
        }
        k = k + 1;
    }
    proof {
        if a == b {
            assert(out@ =~= v@.subrange(a as int, b as int));
        }
    }
    out
}

/// The `String` whose UTF-8 bytes are the given range of `v`.
pub fn utf8_range_string(v: &Vec<u8>, a: usize, b: usize) -> (r: String)
    requires
        a <= b <= v@.len(),
        vstd::utf8::valid_utf8(v@.subrange(a as int, b as int)),
    ensures
        vstd::utf8::encode_utf8(r@) == v@.subrange(a as int, b as int),
{
    let raw = vec_take_range(v, a, b);
    match bytes_to_string(raw) {
        Some(s) => s,
        None => vstd::pervasive::unreached(),
    }
}

/// True when two strings hold the same characters.
pub fn str_eq(a: &String, b: &String) -> (r: bool)
    ensures
        r == (a@ == b@),
{
    <String as PartialEq>::eq(a, b)
}

} // verus!
