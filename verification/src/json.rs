//! Byte-level reading and writing of the JSON wire text.
//!
//! The wire format of this node is JSON with a fixed shape: objects with
//! known field names, string values, unsigned and signed decimal numbers,
//! and one optional array. Serialization is canonical (no whitespace, the
//! declared field order, the shortest escapes); parsing is tolerant of
//! whitespace and of unknown fields carrying simple values.

use vstd::prelude::*;

verus! {

// ---------------------------------------------------------------------
// byte classes
// ---------------------------------------------------------------------

pub open spec fn is_digit_byte(b: u8) -> bool {
    0x30 <= b <= 0x39
}

pub open spec fn digit_val(b: u8) -> nat
    recommends
        is_digit_byte(b),
{
    (b - 0x30) as nat
}

pub open spec fn is_ws_byte(b: u8) -> bool {
    b == 0x20 || b == 0x09 || b == 0x0a || b == 0x0d
}

/// The byte sequence of an ASCII string, one byte per character.
pub open spec fn ascii_seq(s: Seq<char>) -> Seq<u8> {
    Seq::new(s.len(), |i: int| s[i] as u8)
}

// ---------------------------------------------------------------------
// decimal numbers, canonical form
// ---------------------------------------------------------------------

/// Decimal digits of `n`, most significant first, no leading zeros.
pub open spec fn spec_udec(n: nat) -> Seq<u8>
    decreases n,
{
    if n < 10 {
        seq![(0x30 + n) as u8]
    } else {
        spec_udec(n / 10).push((0x30 + n % 10) as u8)
    }
}

/// Decimal form of a signed number: a minus sign for negatives.
pub open spec fn spec_idec(n: int) -> Seq<u8> {
    if n < 0 {
        seq![0x2du8] + spec_udec((-n) as nat)
    } else {
        spec_udec(n as nat)
    }
}

/// `n` written with exactly `width` digits, zero-padded on the left.
pub open spec fn spec_padded_udec(n: nat, width: nat) -> Seq<u8>
    recommends
        spec_udec(n).len() <= width,
{
    Seq::new((width - spec_udec(n).len()) as nat, |i: int| 0x30u8) + spec_udec(n)
}

pub open spec fn pow10(k: nat) -> nat
    decreases k,
{
    if k == 0 {
        1
    } else {
        10 * pow10((k - 1) as nat)
    }
}

pub proof fn lemma_udec_len_le(n: nat, k: nat)
    requires
        k >= 1,
        n < pow10(k),
    ensures
        spec_udec(n).len() <= k,
    decreases k,
{
    if n < 10 {
    } else {
        assert(k >= 2) by {
            if k == 1 {
                assert(pow10(0nat) == 1);
                assert(pow10(1nat) == 10);
            }
        }
        assert(n / 10 < pow10((k - 1) as nat)) by {
            assert(pow10(k) == 10 * pow10((k - 1) as nat));
        }
        lemma_udec_len_le(n / 10, (k - 1) as nat);
    }
}

pub proof fn lemma_udec_all_digits(n: nat)
    ensures
        forall|i: int|
            0 <= i < spec_udec(n).len() ==> is_digit_byte(#[trigger] spec_udec(n)[i]),
        spec_udec(n).len() >= 1,
    decreases n,
{
    if n < 10 {
    } else {
        lemma_udec_all_digits(n / 10);
    }
}

/// Writes the canonical decimal digits of `n`.
pub fn emit_udec(out: &mut Vec<u8>, n: u64)
    ensures
        final(out)@ == old(out)@ + spec_udec(n as nat),
    decreases n,
{
    if n < 10 {
        out.push(0x30 + n as u8);
        assert(out@ =~= old(out)@ + spec_udec(n as nat));
    } else {
        let ghost mid = out@ + spec_udec((n / 10) as nat);
        emit_udec(out, n / 10);
        out.push(0x30 + (n % 10) as u8);
        assert(out@ =~= old(out)@ + spec_udec(n as nat));
    }
}

/// Writes the decimal form of a signed 32-bit number.
pub fn emit_idec(out: &mut Vec<u8>, n: i32)
    ensures
        final(out)@ == old(out)@ + spec_idec(n as int),
{
    if n < 0 {
        out.push(0x2d);
        let wide: i64 = n as i64;
        let m: u64 = (-wide) as u64;
        assert(m as nat == (-(n as int)) as nat);
        emit_udec(out, m);
        assert(out@ =~= old(out)@ + spec_idec(n as int));
    } else {
        emit_udec(out, n as u64);
        assert(out@ =~= old(out)@ + spec_idec(n as int));
    }
}

/// Number of digits of the canonical decimal form of `n`.
pub fn count_digits(n: u64) -> (r: usize)
    ensures
        r == spec_udec(n as nat).len(),
    decreases n,
{
    if n < 10 {
        1
    } else {
        let rest = count_digits(n / 10);
        proof {
            reveal_with_fuel(pow10, 21);
            assert((n as nat) < pow10(20));
            lemma_udec_len_le(n as nat, 20);
        }
        rest + 1
    }
}

/// Writes `n` zero-padded on the left to exactly `width` digits.
#[verifier::loop_isolation(false)]
pub fn emit_padded_udec(out: &mut Vec<u8>, n: u64, width: usize)
    requires
        spec_udec(n as nat).len() <= width,
    ensures
        final(out)@ == old(out)@ + spec_padded_udec(n as nat, width as nat),
        final(out)@.len() == old(out)@.len() + width,
{
    let digits = count_digits(n);
    let mut pad: usize = width - digits;
    let ghost zeros = Seq::new((width - digits) as nat, |i: int| 0x30u8);
    while pad > 0
        invariant
            pad <= width - digits,
            out@ == old(out)@ + zeros.take((width - digits - pad) as int),
        decreases pad,
    {
        out.push(0x30);
        proof {
            let k = (width - digits - pad) as int;
            assert(zeros.len() == width - digits);
            assert(0 <= k && k + 1 <= zeros.len());
            assert(forall|i: int| 0 <= i < zeros.len() ==> #[trigger] zeros[i] == 0x30u8);
            assert(zeros.take(k).push(0x30u8) =~= zeros.take(k + 1));
            assert(out@ =~= old(out)@ + zeros.take(k + 1));
        }
        pad = pad - 1;
    }
    assert(zeros.take((width - digits) as int) =~= zeros);
    emit_udec(out, n);
    assert(out@ =~= old(out)@ + spec_padded_udec(n as nat, width as nat));
}

// ---------------------------------------------------------------------
// string escaping, canonical form
// ---------------------------------------------------------------------

/// Lower-case hexadecimal digit for a value below 16.
pub open spec fn hex_digit(n: u8) -> u8
    recommends
        n < 16,
{
    if n < 10 {
        (0x30 + n) as u8
    } else {
        (0x57 + n) as u8
    }
}

/// Canonical escape of one byte inside a JSON string: the quote, the
/// backslash and the control bytes are escaped, everything else stands
/// for itself.
pub open spec fn esc_byte(b: u8) -> Seq<u8> {
    if b == 0x22 {
        seq![0x5cu8, 0x22u8]
    } else if b == 0x5c {
        seq![0x5cu8, 0x5cu8]
    } else if b == 0x08 {
        seq![0x5cu8, 0x62u8]
    } else if b == 0x09 {
        seq![0x5cu8, 0x74u8]
    } else if b == 0x0a {
        seq![0x5cu8, 0x6eu8]
    } else if b == 0x0c {
        seq![0x5cu8, 0x66u8]
    } else if b == 0x0d {
        seq![0x5cu8, 0x72u8]
    } else if b < 0x20 {
        seq![0x5cu8, 0x75u8, 0x30u8, 0x30u8, hex_digit(b / 16), hex_digit(b % 16)]
    } else {
        seq![b]
    }
}

/// Canonical escape of a whole byte sequence.
pub open spec fn esc(s: Seq<u8>) -> Seq<u8>
    decreases s.len(),
{
    if s.len() == 0 {
        Seq::empty()
    } else {
        esc_byte(s[0]) + esc(s.drop_first())
    }
}

pub proof fn lemma_esc_push(s: Seq<u8>, b: u8)
    ensures
        esc(s.push(b)) == esc(s) + esc_byte(b),
    decreases s.len(),
{
    if s.len() == 0 {
        assert(s.push(b)[0] == b);
        assert(s.push(b).drop_first() =~= Seq::<u8>::empty());
        assert(esc(s.push(b)) == esc_byte(b) + esc(Seq::<u8>::empty()));
        assert(esc(s.push(b)) =~= esc(s) + esc_byte(b));
    } else {
        assert(s.push(b)[0] == s[0]);
        assert(s.push(b).drop_first() =~= s.drop_first().push(b));
        lemma_esc_push(s.drop_first(), b);
        assert(esc(s.push(b)) == esc_byte(s[0]) + (esc(s.drop_first()) + esc_byte(b)));
        assert(esc(s.push(b)) =~= esc(s) + esc_byte(b));
    }
}

/// A byte sequence whose escape is itself: plain printable ASCII.
pub open spec fn esc_plain(s: Seq<u8>) -> bool {
    forall|i: int| 0 <= i < s.len() ==> 0x20 <= #[trigger] s[i] < 0x80 && s[i] != 0x22 && s[i] != 0x5c
}

pub proof fn lemma_esc_plain(s: Seq<u8>)
    requires
        esc_plain(s),
    ensures
        esc(s) == s,
    decreases s.len(),
{
    if s.len() == 0 {
        assert(esc(s) =~= s);
    } else {
        lemma_esc_plain(s.drop_first());
        assert(esc(s) =~= s);
    }
}

/// The serialized form of a JSON string: quotes around the escaped
/// UTF-8 bytes of the characters.
pub open spec fn spec_json_string(s: Seq<char>) -> Seq<u8> {
    seq![0x22u8] + esc(vstd::utf8::encode_utf8(s)) + seq![0x22u8]
}

/// Writes the canonical JSON string form of `s`.
#[verifier::loop_isolation(false)]
pub fn emit_json_string(out: &mut Vec<u8>, s: &str)
    ensures
        final(out)@ == old(out)@ + spec_json_string(s@),
{
    out.push(0x22);
    let b = s.as_bytes();
    let ghost raw = vstd::utf8::encode_utf8(s@);
    assert(b@ == raw);
    let n = b.len();
    let mut k: usize = 0;
    while k < n
        invariant
            n == b@.len(),
            k <= n,
            b@ == raw,
            out@ == old(out)@ + seq![0x22u8] + esc(raw.take(k as int)),
        decreases n - k,
    {
        let c = b[k];
        if c == 0x22 {
            out.push(0x5c);
            out.push(0x22);
        } else if c == 0x5c {
            out.push(0x5c);
            out.push(0x5c);
        } else if c == 0x08 {
            out.push(0x5c);
            out.push(0x62);
        } else if c == 0x09 {
            out.push(0x5c);
            out.push(0x74);
        } else if c == 0x0a {
            out.push(0x5c);
            out.push(0x6e);
        } else if c == 0x0c {
            out.push(0x5c);
            out.push(0x66);
        } else if c == 0x0d {
            out.push(0x5c);
            out.push(0x72);
        } else if c < 0x20 {
            out.push(0x5c);
            out.push(0x75);
            out.push(0x30);
            out.push(0x30);
            let hi = c / 16;
            let lo = c % 16;
            out.push(if hi < 10 { 0x30 + hi } else { 0x57 + hi });
            out.push(if lo < 10 { 0x30 + lo } else { 0x57 + lo });
        } else {
            out.push(c);
        }
        proof {
            lemma_esc_push(raw.take(k as int), raw[k as int]);
            assert(raw.take(k as int).push(raw[k as int]) =~= raw.take(k as int + 1));
            assert(out@ =~= old(out)@ + seq![0x22u8] + esc(raw.take(k as int + 1)));
        }
        k = k + 1;
    }
    proof {
        assert(raw.take(n as int) =~= raw);
    }
    out.push(0x22);
    assert(out@ =~= old(out)@ + spec_json_string(s@));
}

/// Writes the bytes of an ASCII literal, used for the fixed parts of
/// the wire text.
pub fn emit_ascii(out: &mut Vec<u8>, s: &str)
    requires
        s.is_ascii(),
    ensures
        final(out)@ == old(out)@ + ascii_seq(s@),
{
    broadcast use vstd::string::is_ascii_spec_bytes;

    let b = s.as_bytes();
    assert(b@ =~= ascii_seq(s@));
    out.extend_from_slice(b);
    assert(out@ =~= old(out)@ + ascii_seq(s@));
}

// ---------------------------------------------------------------------
// parsing: specification
// ---------------------------------------------------------------------

/// Position of the first byte at or after `i` that is not whitespace.
pub open spec fn sp_ws(v: Seq<u8>, i: int) -> int
    decreases v.len() - i,
{
    if 0 <= i < v.len() && is_ws_byte(v[i]) {
        sp_ws(v, i + 1)
    } else {
        i
    }
}

/// The raw byte that a short escape stands for, if the byte after the
/// backslash is one.
pub open spec fn unesc_short(e: u8) -> Option<u8> {
    if e == 0x22 {
        Some(0x22u8)
    } else if e == 0x5c {
        Some(0x5cu8)
    } else if e == 0x2f {
        Some(0x2fu8)
    } else if e == 0x62 {
        Some(0x08u8)
    } else if e == 0x66 {
        Some(0x0cu8)
    } else if e == 0x6e {
        Some(0x0au8)
    } else if e == 0x72 {
        Some(0x0du8)
    } else if e == 0x74 {
        Some(0x09u8)
    } else {
        None
    }
}

pub open spec fn is_hex_byte(b: u8) -> bool {
    is_digit_byte(b) || 0x61 <= b <= 0x66 || 0x41 <= b <= 0x46
}

pub open spec fn hex_val(b: u8) -> nat
    recommends
        is_hex_byte(b),
{
    if is_digit_byte(b) {
        (b - 0x30) as nat
    } else if 0x61 <= b <= 0x66 {
        (b - 0x57) as nat
    } else {
        (b - 0x37) as nat
    }
}

/// Content and end position of a JSON string whose opening quote has
/// already been consumed: `i` points at the first content byte.
pub open spec fn sp_str_body(v: Seq<u8>, i: int) -> Option<(Seq<u8>, int)>
    decreases v.len() - i,
{
    if i < 0 || i >= v.len() {
        None
    } else if v[i] == 0x22 {
        Some((Seq::empty(), i + 1))
    } else if v[i] == 0x5c {
        if i + 1 >= v.len() {
            None
        } else if v[i + 1] == 0x75 {
            if i + 6 <= v.len() && is_hex_byte(v[i + 2]) && is_hex_byte(v[i + 3]) && is_hex_byte(
                v[i + 4],
            ) && is_hex_byte(v[i + 5]) {
                let code = hex_val(v[i + 2]) * 4096 + hex_val(v[i + 3]) * 256 + hex_val(v[i + 4])
                    * 16 + hex_val(v[i + 5]);
                if code < 0x80 {
                    match sp_str_body(v, i + 6) {
                        Some(r) => Some((seq![code as u8] + r.0, r.1)),
                        None => None,
                    }
                } else {
                    None
                }
            } else {
                None
            }
        } else {
            match unesc_short(v[i + 1]) {
                Some(b) => match sp_str_body(v, i + 2) {
                    Some(r) => Some((seq![b] + r.0, r.1)),
                    None => None,
                },
                None => None,
            }
        }
    } else if v[i] < 0x20 {
        None
    } else {
        match sp_str_body(v, i + 1) {
            Some(r) => Some((seq![v[i]] + r.0, r.1)),
            None => None,
        }
    }
}

/// A whole JSON string starting at `i`: content bytes and end position.
pub open spec fn sp_string(v: Seq<u8>, i: int) -> Option<(Seq<u8>, int)> {
    if 0 <= i < v.len() && v[i] == 0x22 {
        sp_str_body(v, i + 1)
    } else {
        None
    }
}

/// Runs over decimal digits accumulating a value; refuses a value
/// above `max`; stops at the first non-digit.
pub open spec fn sp_uint_body(v: Seq<u8>, i: int, acc: nat, max: nat) -> Option<(nat, int)>
    decreases v.len() - i,
{
    if 0 <= i < v.len() && is_digit_byte(v[i]) {
        let acc2 = acc * 10 + digit_val(v[i]);
        if acc2 > max {
            None
        } else {
            sp_uint_body(v, i + 1, acc2, max)
        }
    } else {
        Some((acc, i))
    }
}

/// An unsigned decimal number starting at `i`, at most `max`.
pub open spec fn sp_uint(v: Seq<u8>, i: int, max: nat) -> Option<(nat, int)> {
    if 0 <= i < v.len() && is_digit_byte(v[i]) {
        sp_uint_body(v, i, 0, max)
    } else {
        None
    }
}

/// A signed decimal number in the range of a 32-bit integer.
pub open spec fn sp_int32(v: Seq<u8>, i: int) -> Option<(int, int)> {
    if 0 <= i < v.len() && v[i] == 0x2d {
        match sp_uint(v, i + 1, 0x80000000) {
            Some(r) => Some((-(r.0 as int), r.1)),
            None => None,
        }
    } else {
        match sp_uint(v, i, 0x7fffffff) {
            Some(r) => Some((r.0 as int, r.1)),
            None => None,
        }
    }
}

/// Steps over one simple JSON value: a string, a number, `true`,
/// `false` or `null`. Used for fields this node does not know.
pub open spec fn sp_skip_value(v: Seq<u8>, i: int) -> Option<int> {
    if i < 0 || i >= v.len() {
        None
    } else if v[i] == 0x22 {
        match sp_str_body(v, i + 1) {
            Some(r) => Some(r.1),
            None => None,
        }
    } else if v[i] == 0x2d {
        match sp_uint(v, i + 1, 0xffffffff) {
            Some(r) => Some(r.1),
            None => None,
        }
    } else if is_digit_byte(v[i]) {
        match sp_uint(v, i, 0xffffffff) {
            Some(r) => Some(r.1),
            None => None,
        }
    } else if v[i] == 0x74 {
        if v.len() - i >= 4 && v[i + 1] == 0x72 && v[i + 2] == 0x75 && v[i + 3] == 0x65 {
            Some(i + 4)
        } else {
            None
        }
    } else if v[i] == 0x66 {
        if v.len() - i >= 5 && v[i + 1] == 0x61 && v[i + 2] == 0x6c && v[i + 3] == 0x73 && v[i + 4]
            == 0x65 {
            Some(i + 5)
        } else {
            None
        }
    } else if v[i] == 0x6e {
        if v.len() - i >= 4 && v[i + 1] == 0x75 && v[i + 2] == 0x6c && v[i + 3] == 0x6c {
            Some(i + 4)
        } else {
            None
        }
    } else {
        None
    }
}

/// Inside an object, positioned where a field is expected: walks over
/// fields it does not know until it finds `key`, and yields the
/// position of that field's value. `fuel` bounds the unknown fields.
pub open spec fn sp_find_field(v: Seq<u8>, i: int, key: Seq<u8>, fuel: nat) -> Option<int>
    decreases fuel,
{
    if fuel == 0 {
        None
    } else {
        let i1 = sp_ws(v, i);
        match sp_string(v, i1) {
            Some(r) => {
                let i3 = sp_ws(v, r.1);
                if i3 < v.len() && v[i3] == 0x3a {
                    let i4 = sp_ws(v, i3 + 1);
                    if r.0 == key {
                        Some(i4)
                    } else {
                        match sp_skip_value(v, i4) {
                            Some(i5) => {
                                let i6 = sp_ws(v, i5);
                                if i6 < v.len() && v[i6] == 0x2c {
                                    sp_find_field(v, i6 + 1, key, (fuel - 1) as nat)
                                } else {
                                    None
                                }
                            },
                            None => None,
                        }
                    }
                } else {
                    None
                }
            },
            None => None,
        }
    }
}

/// Positioned right after a field's value: steps over any remaining
/// unknown fields and the closing brace, and yields the position after
/// the object.
pub open spec fn sp_obj_tail(v: Seq<u8>, i: int, fuel: nat) -> Option<int>
    decreases fuel,
{
    if fuel == 0 {
        None
    } else {
        let i1 = sp_ws(v, i);
        if i1 < v.len() && v[i1] == 0x7d {
            Some(i1 + 1)
        } else if i1 < v.len() && v[i1] == 0x2c {
            let i2 = sp_ws(v, i1 + 1);
            match sp_string(v, i2) {
                Some(r) => {
                    let i3 = sp_ws(v, r.1);
                    if i3 < v.len() && v[i3] == 0x3a {
                        let i4 = sp_ws(v, i3 + 1);
                        match sp_skip_value(v, i4) {
                            Some(i5) => sp_obj_tail(v, i5, (fuel - 1) as nat),
                            None => None,
                        }
                    } else {
                        None
                    }
                },
                None => None,
            }
        } else {
            None
        }
    }
}


// ---------------------------------------------------------------------
// parsing: executable code, each function mirrors its spec function
// ---------------------------------------------------------------------

/// Steps over whitespace.
#[verifier::loop_isolation(false)]
pub fn skip_ws(v: &Vec<u8>, i: usize) -> (r: usize)
    requires
        i <= v@.len(),
    ensures
        i <= r <= v@.len(),
        r as int == sp_ws(v@, i as int),
{
    let mut cur: usize = i;
    while cur < v.len() && (v[cur] == 0x20 || v[cur] == 0x09 || v[cur] == 0x0a || v[cur] == 0x0d)
        invariant
            i <= cur <= v@.len(),
            sp_ws(v@, i as int) == sp_ws(v@, cur as int),
        decreases v@.len() - cur,
    {
        cur = cur + 1;
    }
    cur
}

/// The value of a hexadecimal digit byte, if it is one.
pub fn hex_nib(b: u8) -> (r: Option<u8>)
    ensures
        match r {
            Some(x) => is_hex_byte(b) && x as nat == hex_val(b) && x < 16,
            None => !is_hex_byte(b),
        },
{
    if 0x30 <= b && b <= 0x39 {
        Some(b - 0x30)
    } else if 0x61 <= b && b <= 0x66 {
        Some(b - 0x57)
    } else if 0x41 <= b && b <= 0x46 {
        Some(b - 0x37)
    } else {
        None
    }
}

/// The raw byte behind a short escape, if the byte is one.
pub fn unescape_short(e: u8) -> (r: Option<u8>)
    ensures
        r == unesc_short(e),
{
    if e == 0x22 {
        Some(0x22)
    } else if e == 0x5c {
        Some(0x5c)
    } else if e == 0x2f {
        Some(0x2f)
    } else if e == 0x62 {
        Some(0x08)
    } else if e == 0x66 {
        Some(0x0c)
    } else if e == 0x6e {
        Some(0x0a)
    } else if e == 0x72 {
        Some(0x0d)
    } else if e == 0x74 {
        Some(0x09)
    } else {
        None
    }
}

/// Reads a JSON string starting at `i`; yields its raw content bytes
/// and the position after the closing quote.
#[verifier::loop_isolation(false)]
pub fn parse_string_raw(v: &Vec<u8>, i: usize) -> (r: Option<(Vec<u8>, usize)>)
    requires
        i <= v@.len(),
    ensures
        match r {
            Some(p) => sp_string(v@, i as int) == Some((p.0@, p.1 as int)) && i < p.1 <= v@.len(),
            None => sp_string(v@, i as int) is None,
        },
{
    if i >= v.len() {
        return None;
    }
    if v[i] != 0x22 {
        return None;
    }
    let mut cur: usize = i + 1;
    let mut acc: Vec<u8> = Vec::new();
    loop
        invariant
            i + 1 <= cur <= v@.len(),
            sp_str_body(v@, (i + 1) as int) == (match sp_str_body(v@, cur as int) {
                Some(r2) => Some((acc@ + r2.0, r2.1)),
                None => None::<(Seq<u8>, int)>,
            }),
        decreases v@.len() - cur,
    {
        if cur >= v.len() {
            return None;
        }
        let c = v[cur];
        if c == 0x22 {
            proof {
                assert(acc@ + Seq::<u8>::empty() =~= acc@);
            }
            return Some((acc, cur + 1));
        } else if c == 0x5c {
            if cur + 1 >= v.len() {
                return None;
            }
            let e = v[cur + 1];
            if e == 0x75 {
                if v.len() - cur < 6 {
                    return None;
                }
                let h0 = match hex_nib(v[cur + 2]) {
                    Some(x) => x,
                    None => { return None; },
                };
                let h1 = match hex_nib(v[cur + 3]) {
                    Some(x) => x,
                    None => { return None; },
                };
                let h2 = match hex_nib(v[cur + 4]) {
                    Some(x) => x,
                    None => { return None; },
                };
                let h3 = match hex_nib(v[cur + 5]) {
                    Some(x) => x,
                    None => { return None; },
                };
                let code: u32 = (h0 as u32) * 4096 + (h1 as u32) * 256 + (h2 as u32) * 16
                    + (h3 as u32);
                if code >= 0x80 {
                    return None;
                }
                let b: u8 = code as u8;
                let ghost acc0 = acc@;
                acc.push(b);
                proof {
                    assert(acc@ =~= acc0 + seq![b]);
                    match sp_str_body(v@, (cur + 6) as int) {
                        Some(r2) => {
                            assert(acc0 + (seq![b] + r2.0) =~= (acc0 + seq![b]) + r2.0);
                        },
                        None => {},
                    }
                }
                cur = cur + 6;
            } else {
                let b = match unescape_short(e) {
                    Some(x) => x,
                    None => { return None; },
                };
                let ghost acc0 = acc@;
                acc.push(b);
                proof {
                    assert(acc@ =~= acc0 + seq![b]);
                    match sp_str_body(v@, (cur + 2) as int) {
                        Some(r2) => {
                            assert(acc0 + (seq![b] + r2.0) =~= (acc0 + seq![b]) + r2.0);
                        },
                        None => {},
                    }
                }
                cur = cur + 2;
            }
        } else if c < 0x20 {
            return None;
        } else {
            let ghost acc0 = acc@;
            acc.push(c);
            proof {
                assert(acc@ =~= acc0 + seq![c]);
                match sp_str_body(v@, (cur + 1) as int) {
                    Some(r2) => {
                        assert(acc0 + (seq![c] + r2.0) =~= (acc0 + seq![c]) + r2.0);
                    },
                    None => {},
                }
            }
            cur = cur + 1;
        }
    }
}

/// Reads an unsigned decimal number bounded by `max`.
#[verifier::loop_isolation(false)]
pub fn parse_u64_max(v: &Vec<u8>, i: usize, max: u64) -> (r: Option<(u64, usize)>)
    requires
        i <= v@.len(),
        max <= 0x100000000,
    ensures
        match r {
            Some(p) => sp_uint(v@, i as int, max as nat) == Some((p.0 as nat, p.1 as int)) && i
                < p.1 <= v@.len() && p.0 <= max,
            None => sp_uint(v@, i as int, max as nat) is None,
        },
{
    if i >= v.len() {
        return None;
    }
    if v[i] < 0x30 || v[i] > 0x39 {
        return None;
    }
    let mut cur: usize = i;
    let mut acc: u64 = 0;
    loop
        invariant
            i <= cur <= v@.len(),
            acc <= max,
            cur > i || acc == 0,
            sp_uint_body(v@, i as int, 0, max as nat) == sp_uint_body(
                v@,
                cur as int,
                acc as nat,
                max as nat,
            ),
        decreases v@.len() - cur,
    {
        if cur >= v.len() {
            return Some((acc, cur));
        }
        let c = v[cur];
        if c < 0x30 || c > 0x39 {
            return Some((acc, cur));
        }
        let acc2: u64 = acc * 10 + (c - 0x30) as u64;
        if acc2 > max {
            return None;
        }
        acc = acc2;
        cur = cur + 1;
    }
}

/// Reads a signed decimal number in the range of an `i32`.
pub fn parse_i32(v: &Vec<u8>, i: usize) -> (r: Option<(i32, usize)>)
    requires
        i <= v@.len(),
    ensures
        match r {
            Some(p) => sp_int32(v@, i as int) == Some((p.0 as int, p.1 as int)) && i < p.1
                <= v@.len(),
            None => sp_int32(v@, i as int) is None,
        },
{
    if i < v.len() && v[i] == 0x2d {
        match parse_u64_max(v, i + 1, 0x80000000) {
            Some(p) => {
                let wide: i64 = -(p.0 as i64);
                Some((wide as i32, p.1))
            },
            None => None,
        }
    } else {
        match parse_u64_max(v, i, 0x7fffffff) {
            Some(p) => Some((p.0 as i32, p.1)),
            None => None,
        }
    }
}

/// Steps over one simple JSON value.
pub fn skip_value(v: &Vec<u8>, i: usize) -> (r: Option<usize>)
    requires
        i <= v@.len(),
    ensures
        match r {
            Some(j) => sp_skip_value(v@, i as int) == Some(j as int) && i < j <= v@.len(),
            None => sp_skip_value(v@, i as int) is None,
        },
{
    if i >= v.len() {
        return None;
    }
    let c = v[i];
    if c == 0x22 {
        match parse_string_raw(v, i) {
            Some(p) => Some(p.1),
            None => None,
        }
    } else if c == 0x2d {
        match parse_u64_max(v, i + 1, 0xffffffff) {
            Some(p) => Some(p.1),
            None => None,
        }
    } else if 0x30 <= c && c <= 0x39 {
        match parse_u64_max(v, i, 0xffffffff) {
            Some(p) => Some(p.1),
            None => None,
        }
    } else if c == 0x74 {
        if v.len() - i >= 4 && v[i + 1] == 0x72 && v[i + 2] == 0x75 && v[i + 3] == 0x65 {
            Some(i + 4)
        } else {
            None
        }
    } else if c == 0x66 {
        if v.len() - i >= 5 && v[i + 1] == 0x61 && v[i + 2] == 0x6c && v[i + 3] == 0x73 && v[i + 4]
            == 0x65 {
            Some(i + 5)
        } else {
            None
        }
    } else if c == 0x6e {
        if v.len() - i >= 4 && v[i + 1] == 0x75 && v[i + 2] == 0x6c && v[i + 3] == 0x6c {
            Some(i + 4)
        } else {
            None
        }
    } else {
        None
    }
}

/// True when the raw content bytes equal the ASCII key.
#[verifier::loop_isolation(false)]
pub fn bytes_eq_str(k: &Vec<u8>, key: &str) -> (r: bool)
    requires
        key.is_ascii(),
    ensures
        r == (k@ == ascii_seq(key@)),
{
    broadcast use vstd::string::is_ascii_spec_bytes;

    let kb = key.as_bytes();
    assert(kb@ =~= ascii_seq(key@));
    if k.len() != kb.len() {
        proof {
            assert(k@ != ascii_seq(key@));
        }
        return false;
    }
    let n = k.len();
    let mut j: usize = 0;
    while j < n
        invariant
            j <= n,
            n == k@.len() == kb@.len(),
            forall|t: int| 0 <= t < j ==> k@[t] == kb@[t],
        decreases n - j,
    {
        if k[j] != kb[j] {
            proof {
                assert(k@ != ascii_seq(key@));
            }
            return false;
        }
        j = j + 1;
    }
    proof {
        assert(k@ =~= kb@);
    }
    true
}

/// Walks over fields of an object until the field named `key`; yields
/// the position of its value.
#[verifier::loop_isolation(false)]
pub fn find_field(v: &Vec<u8>, i: usize, key: &str, fuel: usize) -> (r: Option<usize>)
    requires
        i <= v@.len(),
        key.is_ascii(),
    ensures
        match r {
            Some(j) => sp_find_field(v@, i as int, ascii_seq(key@), fuel as nat) == Some(j as int)
                && j <= v@.len(),
            None => sp_find_field(v@, i as int, ascii_seq(key@), fuel as nat) is None,
        },
{
    let mut cur: usize = i;
    let mut f: usize = fuel;
    loop
        invariant
            cur <= v@.len(),
            f <= fuel,
            sp_find_field(v@, i as int, ascii_seq(key@), fuel as nat) == sp_find_field(
                v@,
                cur as int,
                ascii_seq(key@),
                f as nat,
            ),
        decreases f,
    {
        if f == 0 {
            return None;
        }
        let i1 = skip_ws(v, cur);
        let (k, i2) = match parse_string_raw(v, i1) {
            Some(p) => p,
            None => { return None; },
        };
        let i3 = skip_ws(v, i2);
        if i3 >= v.len() {
            return None;
        }
        if v[i3] != 0x3a {
            return None;
        }
        let i4 = skip_ws(v, i3 + 1);
        if bytes_eq_str(&k, key) {
            return Some(i4);
        }
        let i5 = match skip_value(v, i4) {
            Some(j) => j,
            None => { return None; },
        };
        let i6 = skip_ws(v, i5);
        if i6 >= v.len() {
            return None;
        }
        if v[i6] != 0x2c {
            return None;
        }
        cur = i6 + 1;
        f = f - 1;
    }
}

/// Steps over any unknown trailing fields and the closing brace.
#[verifier::loop_isolation(false)]
pub fn obj_tail(v: &Vec<u8>, i: usize, fuel: usize) -> (r: Option<usize>)
    requires
        i <= v@.len(),
    ensures
        match r {
            Some(j) => sp_obj_tail(v@, i as int, fuel as nat) == Some(j as int) && j <= v@.len(),
            None => sp_obj_tail(v@, i as int, fuel as nat) is None,
        },
{
    let mut cur: usize = i;
    let mut f: usize = fuel;
    loop
        invariant
            cur <= v@.len(),
            f <= fuel,
            sp_obj_tail(v@, i as int, fuel as nat) == sp_obj_tail(v@, cur as int, f as nat),
        decreases f,
    {
        if f == 0 {
            return None;
        }
        let i1 = skip_ws(v, cur);
        if i1 >= v.len() {
            return None;
        }
        if v[i1] == 0x7d {
            return Some(i1 + 1);
        }
        if v[i1] != 0x2c {
            return None;
        }
        let i2 = skip_ws(v, i1 + 1);
        let (_k, i3) = match parse_string_raw(v, i2) {
            Some(p) => p,
            None => { return None; },
        };
        let i3w = skip_ws(v, i3);
        if i3w >= v.len() {
            return None;
        }
        if v[i3w] != 0x3a {
            return None;
        }
        let i4 = skip_ws(v, i3w + 1);
        let i5 = match skip_value(v, i4) {
            Some(j) => j,
            None => { return None; },
        };
        cur = i5;
        f = f - 1;
    }
}


// ---------------------------------------------------------------------
// parsing inverts canonical serialization
// ---------------------------------------------------------------------

pub proof fn lemma_subrange_index(v: Seq<u8>, i: int, j: int, t: int)
    requires
        0 <= i <= j <= v.len(),
        0 <= t < j - i,
    ensures
        v[i + t] == v.subrange(i, j)[t],
{
}

pub proof fn lemma_hex_digit_inverts(x: u8)
    requires
        x < 16,
    ensures
        is_hex_byte(hex_digit(x)),
        hex_val(hex_digit(x)) == x,
{
}

/// Skipping whitespace stands still where none is.
pub proof fn lemma_ws_stops(v: Seq<u8>, i: int)
    requires
        0 <= i <= v.len(),
        i == v.len() || !is_ws_byte(v[i]),
    ensures
        sp_ws(v, i) == i,
{
}

/// Reading a string body over the canonical escape of `raw` followed
/// by the closing quote yields `raw` back.
pub proof fn lemma_str_body_canonical(raw: Seq<u8>, v: Seq<u8>, i: int, j: int)
    requires
        0 <= i <= j <= v.len(),
        v.subrange(i, j) == esc(raw) + seq![0x22u8],
    ensures
        sp_str_body(v, i) == Some((raw, j)),
    decreases raw.len(),
{
    let region = esc(raw) + seq![0x22u8];
    assert(j - i == region.len());
    if raw.len() == 0 {
        assert(esc(raw) =~= Seq::<u8>::empty());
        assert(region.len() == 1);
        assert(region[0] == 0x22u8);
        lemma_subrange_index(v, i, j, 0);
        assert(v[i + 0] == region[0]);
        assert(v[i] == 0x22);
        assert(raw =~= Seq::<u8>::empty());
        assert(sp_str_body(v, i) == Some((raw, j)));
    } else {
        let b = raw[0];
        let rest = raw.drop_first();
        let eb = esc_byte(b);
        let w = eb.len() as int;
        assert(esc(raw) == eb + esc(rest));
        assert(w >= 1);
        assert(forall|t: int| 0 <= t < w ==> region[t] == eb[t]);
        assert forall|t: int| 0 <= t < w implies v[i + t] == eb[t] by {
            lemma_subrange_index(v, i, j, t);
        }
        assert(v.subrange(i + w, j) =~= esc(rest) + seq![0x22u8]) by {
            assert forall|t: int| 0 <= t < j - i - w implies v.subrange(i + w, j)[t] == (esc(rest)
                + seq![0x22u8])[t] by {
                lemma_subrange_index(v, i + w, j, t);
                lemma_subrange_index(v, i, j, w + t);
                assert(v[i + (w + t)] == region[w + t]);
                assert(region[w + t] == (esc(rest) + seq![0x22u8])[t]);
            }
        }
        lemma_str_body_canonical(rest, v, i + w, j);
        assert(seq![b] + rest =~= raw);
        if b == 0x22 {
            assert(v[i + 0] == eb[0] && v[i + 1] == eb[1]);
            assert(v[i] == 0x5c && v[i + 1] == 0x22);
            assert(unesc_short(v[i + 1]) == Some(0x22u8));
            assert(sp_str_body(v, i) == Some((seq![b] + rest, j)));
        } else if b == 0x5c {
            assert(v[i + 0] == eb[0] && v[i + 1] == eb[1]);
            assert(v[i] == 0x5c && v[i + 1] == 0x5c);
            assert(sp_str_body(v, i) == Some((seq![b] + rest, j)));
        } else if b == 0x08 || b == 0x09 || b == 0x0a || b == 0x0c || b == 0x0d {
            assert(v[i + 0] == eb[0] && v[i + 1] == eb[1]);
            assert(v[i] == 0x5c);
            assert(unesc_short(v[i + 1]) == Some(b));
            assert(sp_str_body(v, i) == Some((seq![b] + rest, j)));
        } else if b < 0x20 {
            assert(v[i + 0] == eb[0] && v[i + 1] == eb[1] && v[i + 2] == eb[2] && v[i + 3] == eb[3]
                && v[i + 4] == eb[4] && v[i + 5] == eb[5]);
            assert(v[i] == 0x5c && v[i + 1] == 0x75 && v[i + 2] == 0x30 && v[i + 3] == 0x30);
            assert(v[i + 4] == hex_digit(b / 16) && v[i + 5] == hex_digit(b % 16));
            lemma_hex_digit_inverts(b / 16);
            lemma_hex_digit_inverts(b % 16);
            assert(is_hex_byte(v[i + 2]) && is_hex_byte(v[i + 3]) && is_hex_byte(v[i + 4])
                && is_hex_byte(v[i + 5]));
            let code = hex_val(v[i + 2]) * 4096 + hex_val(v[i + 3]) * 256 + hex_val(v[i + 4]) * 16
                + hex_val(v[i + 5]);
            assert(code == (b / 16) * 16 + b % 16);
            assert(code == b);
            assert(sp_str_body(v, i) == Some((seq![b] + rest, j)));
        } else {
            assert(v[i + 0] == eb[0]);
            assert(v[i] == b);
            assert(b != 0x22 && b != 0x5c && !(b < 0x20));
            assert(sp_str_body(v, i) == Some((seq![b] + rest, j)));
        }
    }
}

/// Reading a canonical string with its quotes yields the raw bytes.
pub proof fn lemma_string_canonical(raw: Seq<u8>, v: Seq<u8>, i: int, j: int)
    requires
        0 <= i <= j <= v.len(),
        v.subrange(i, j) == seq![0x22u8] + esc(raw) + seq![0x22u8],
    ensures
        sp_string(v, i) == Some((raw, j)),
{
    let region = seq![0x22u8] + esc(raw) + seq![0x22u8];
    assert(j - i == region.len());
    assert(region.len() == esc(raw).len() + 2);
    assert(region[0] == 0x22u8);
    lemma_subrange_index(v, i, j, 0);
    assert(v[i + 0] == region[0]);
    assert(v[i] == 0x22);
    assert(v.subrange(i + 1, j) =~= esc(raw) + seq![0x22u8]) by {
        assert forall|t: int| 0 <= t < j - i - 1 implies v.subrange(i + 1, j)[t] == (esc(raw)
            + seq![0x22u8])[t] by {
            lemma_subrange_index(v, i + 1, j, t);
            lemma_subrange_index(v, i, j, 1 + t);
            assert(v[i + (1 + t)] == region[1 + t]);
            assert(region[1 + t] == (esc(raw) + seq![0x22u8])[t]);
        }
    }
    lemma_str_body_canonical(raw, v, i + 1, j);
}

/// Running the digit loop over the canonical digits of `n` multiplies
/// the accumulator through and adds `n`.
pub proof fn lemma_uint_chain(n: nat, acc: nat, max: nat, v: Seq<u8>, i: int, j: int)
    requires
        0 <= i <= j <= v.len(),
        v.subrange(i, j) == spec_udec(n),
        acc * pow10(spec_udec(n).len()) + n <= max,
    ensures
        sp_uint_body(v, i, acc, max) == sp_uint_body(
            v,
            j,
            (acc * pow10(spec_udec(n).len()) + n) as nat,
            max,
        ),
    decreases n,
{
    let digits = spec_udec(n);
    assert(j - i == digits.len());
    lemma_udec_all_digits(n);
    if n < 10 {
        assert(digits.len() == 1);
        assert(digits[0] == 0x30 + n);
        lemma_subrange_index(v, i, j, 0);
        assert(v[i + 0] == digits[0]);
        assert(v[i] == 0x30 + n);
        assert(is_digit_byte(v[i]));
        assert(digit_val(v[i]) == n);
        assert(pow10(1nat) == 10) by {
            reveal_with_fuel(pow10, 2);
        }
        assert(acc * 10 + n <= max);
        assert(sp_uint_body(v, i, acc, max) == sp_uint_body(v, i + 1, (acc * 10 + n) as nat, max));
    } else {
        let m = n / 10;
        let d = (0x30 + n % 10) as u8;
        assert(digits == spec_udec(m).push(d));
        let lp = spec_udec(m).len();
        assert(digits.len() == lp + 1);
        assert(v.subrange(i, j - 1) =~= spec_udec(m)) by {
            assert forall|t: int| 0 <= t < lp implies v.subrange(i, j - 1)[t] == spec_udec(m)[t] by {
                lemma_subrange_index(v, i, j - 1, t);
                lemma_subrange_index(v, i, j, t);
                assert(v[i + t] == digits[t]);
                assert(digits[t] == spec_udec(m)[t]);
            }
        }
        assert(pow10((lp + 1) as nat) == 10 * pow10(lp)) by {
            assert(pow10((lp + 1) as nat) == 10 * pow10((lp + 1 - 1) as nat));
        }
        let total = acc * pow10((lp + 1) as nat) + n;
        let midv = acc * pow10(lp) + m;
        assert(midv * 10 + n % 10 == total) by (nonlinear_arith)
            requires
                pow10((lp + 1) as nat) == 10 * pow10(lp),
                midv == acc * pow10(lp) + m,
                total == acc * pow10((lp + 1) as nat) + n,
                m == n / 10,
                n >= 10,
    ;
        assert(midv <= total) by (nonlinear_arith)
            requires
                midv >= 0,
                midv * 10 + n % 10 == total,
                n % 10 >= 0,
    ;
        lemma_uint_chain(m, acc, max, v, i, j - 1);
        lemma_subrange_index(v, i, j, lp as int);
        assert(v[i + lp] == digits[lp as int]);
        assert(digits[lp as int] == d);
        assert(v[j - 1] == d);
        assert(is_digit_byte(d) && digit_val(d) == n % 10);
        assert(sp_uint_body(v, j - 1, midv as nat, max) == sp_uint_body(v, j, total as nat, max));
    }
}

/// Reading an unsigned number over the canonical digits of `n` yields
/// `n`, provided no digit follows.
pub proof fn lemma_uint_canonical(n: nat, max: nat, v: Seq<u8>, i: int, j: int)
    requires
        0 <= i <= j <= v.len(),
        v.subrange(i, j) == spec_udec(n),
        n <= max,
        j == v.len() || !is_digit_byte(v[j]),
    ensures
        sp_uint(v, i, max) == Some((n, j)),
{
    let digits = spec_udec(n);
    lemma_udec_all_digits(n);
    lemma_subrange_index(v, i, j, 0);
    assert(v[i + 0] == digits[0]);
    assert(is_digit_byte(v[i]));
    assert(i < j);
    assert(0 * pow10(digits.len()) + n == n) by (nonlinear_arith);
    lemma_uint_chain(n, 0, max, v, i, j);
    assert(sp_uint_body(v, j, n, max) == Some((n, j)));
}

/// Reading a signed number over the canonical form of `n` yields `n`.
pub proof fn lemma_int32_canonical(n: int, v: Seq<u8>, i: int, j: int)
    requires
        0 <= i <= j <= v.len(),
        v.subrange(i, j) == spec_idec(n),
        -0x80000000 <= n <= 0x7fffffff,
        j == v.len() || !is_digit_byte(v[j]),
    ensures
        sp_int32(v, i) == Some((n, j)),
{
    let region = spec_idec(n);
    if n < 0 {
        let m = (-n) as nat;
        assert(region == seq![0x2du8] + spec_udec(m));
        lemma_udec_all_digits(m);
        assert(region[0] == 0x2d);
        lemma_subrange_index(v, i, j, 0);
        assert(v[i + 0] == region[0]);
        assert(v[i] == 0x2d);
        assert(i < j);
        assert(v.subrange(i + 1, j) =~= spec_udec(m)) by {
            assert forall|t: int| 0 <= t < j - i - 1 implies v.subrange(i + 1, j)[t] == spec_udec(
                m,
            )[t] by {
                lemma_subrange_index(v, i + 1, j, t);
                lemma_subrange_index(v, i, j, 1 + t);
                assert(v[i + (1 + t)] == region[1 + t]);
                assert(region[1 + t] == spec_udec(m)[t]);
            }
        }
        lemma_uint_canonical(m, 0x80000000, v, i + 1, j);
    } else {
        assert(region == spec_udec(n as nat));
        lemma_udec_all_digits(n as nat);
        lemma_subrange_index(v, i, j, 0);
        assert(v[i + 0] == region[0]);
        assert(is_digit_byte(v[i]));
        assert(v[i] != 0x2d);
        lemma_uint_canonical(n as nat, 0x7fffffff, v, i, j);
    }
}

/// Finding a field over the canonical text `"key":` succeeds at once.
pub proof fn lemma_find_field_canonical(v: Seq<u8>, i: int, key: Seq<u8>, fuel: nat, jv: int)
    requires
        fuel >= 1,
        0 <= i,
        jv == i + key.len() + 3,
        jv <= v.len(),
        v.subrange(i, jv) == seq![0x22u8] + key + seq![0x22u8, 0x3au8],
        esc_plain(key),
        jv == v.len() || !is_ws_byte(v[jv]),
    ensures
        sp_find_field(v, i, key, fuel) == Some(jv),
{
    let region = seq![0x22u8] + key + seq![0x22u8, 0x3au8];
    assert(region[0] == 0x22u8);
    lemma_subrange_index(v, i, jv, 0);
    assert(v[i + 0] == region[0]);
    assert(!is_ws_byte(v[i]));
    lemma_ws_stops(v, i);
    lemma_esc_plain(key);
    let q2 = i + 1 + key.len() as int;
    assert(v.subrange(i, q2 + 1) =~= seq![0x22u8] + esc(key) + seq![0x22u8]) by {
        assert forall|t: int| 0 <= t < key.len() + 2 implies v.subrange(i, q2 + 1)[t] == (
        seq![0x22u8] + esc(key) + seq![0x22u8])[t] by {
            lemma_subrange_index(v, i, q2 + 1, t);
            lemma_subrange_index(v, i, jv, t);
            assert(v[i + t] == region[t]);
            assert(region[t] == (seq![0x22u8] + esc(key) + seq![0x22u8])[t]);
        }
    }
    lemma_string_canonical(key, v, i, q2 + 1);
    lemma_subrange_index(v, i, jv, q2 + 1 - i);
    assert(v[i + (q2 + 1 - i)] == region[q2 + 1 - i]);
    assert(v[q2 + 1] == 0x3a);
    lemma_ws_stops(v, q2 + 1);
    lemma_ws_stops(v, jv);
    assert(sp_find_field(v, i, key, fuel) == Some(jv));
}

/// Closing an object over a canonical `}` succeeds at once.
pub proof fn lemma_obj_tail_canonical(v: Seq<u8>, i: int, fuel: nat)
    requires
        fuel >= 1,
        0 <= i < v.len(),
        v[i] == 0x7d,
    ensures
        sp_obj_tail(v, i, fuel) == Some(i + 1),
{
    lemma_ws_stops(v, i);
}

/// Leading zero digits leave the accumulator at zero.
pub proof fn lemma_uint_zeros(v: Seq<u8>, i: int, j: int, max: nat)
    requires
        0 <= i <= j <= v.len(),
        forall|t: int| i <= t < j ==> v[t] == 0x30u8,
    ensures
        sp_uint_body(v, i, 0, max) == sp_uint_body(v, j, 0, max),
    decreases j - i,
{
    if i < j {
        assert(v[i] == 0x30);
        assert(is_digit_byte(v[i]) && digit_val(v[i]) == 0);
        lemma_uint_zeros(v, i + 1, j, max);
    }
}

/// Reading an unsigned number over a zero-padded decimal yields the
/// number, provided no digit follows.
pub proof fn lemma_padded_canonical(n: nat, w: nat, max: nat, v: Seq<u8>, i: int, j: int)
    requires
        0 <= i <= j <= v.len(),
        v.subrange(i, j) == spec_padded_udec(n, w),
        spec_udec(n).len() <= w,
        n <= max,
        j == v.len() || !is_digit_byte(v[j]),
    ensures
        sp_uint(v, i, max) == Some((n, j)),
{
    let region = spec_padded_udec(n, w);
    let dl = spec_udec(n).len() as int;
    let zl = w - dl;
    assert(region.len() == w);
    assert(j - i == w);
    lemma_udec_all_digits(n);
    assert forall|t: int| i <= t < i + zl implies v[t] == 0x30u8 by {
        lemma_subrange_index(v, i, j, t - i);
        assert(v[t] == region[t - i]);
    }
    lemma_subrange_index(v, i, j, 0);
    assert(v[i + 0] == region[0]);
    assert(is_digit_byte(v[i])) by {
        if zl > 0 {
            assert(region[0] == 0x30u8);
        } else {
            assert(region[0] == spec_udec(n)[0]);
        }
    }
    lemma_uint_zeros(v, i, i + zl, max);
    assert(v.subrange(i + zl, j) =~= spec_udec(n)) by {
        assert forall|t: int| 0 <= t < dl implies v.subrange(i + zl, j)[t] == spec_udec(n)[t] by {
            lemma_subrange_index(v, i + zl, j, t);
            lemma_subrange_index(v, i, j, zl + t);
            assert(v[i + (zl + t)] == region[zl + t]);
            assert(region[zl + t] == spec_udec(n)[t]);
        }
    }
    assert(0 * pow10(spec_udec(n).len()) + n == n) by (nonlinear_arith);
    lemma_uint_chain(n, 0, max, v, i + zl, j);
    assert(sp_uint_body(v, j, n, max) == Some((n, j)));
}

} // verus!
