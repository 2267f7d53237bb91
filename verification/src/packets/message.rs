//! The data packet of the early wire format: a message padded to a
//! fixed width.

use vstd::prelude::*;

use crate::bytesutil::push_str_bytes;

verus! {

/// Width every early-format message is padded to.
pub const MESSAGE_WIDTH: usize = 320;

/// A user message.
#[derive(Debug)]
pub struct MessagePacket {
    pub msg: String,
}

/// The bytes left after the trailing zero padding is stripped.
pub open spec fn strip_trailing_nul(b: Seq<u8>) -> Seq<u8>
    decreases b.len(),
{
    if b.len() > 0 && b.last() == 0 {
        strip_trailing_nul(b.drop_last())
    } else {
        b
    }
}

/// The bytes left after leading zeros are stripped.
pub open spec fn strip_leading_nul(b: Seq<u8>) -> Seq<u8>
    decreases b.len(),
{
    if b.len() > 0 && b[0] == 0 {
        strip_leading_nul(b.drop_first())
    } else {
        b
    }
}

impl MessagePacket {
    pub fn new(msg: String) -> (r: MessagePacket)
        ensures
            r.msg@ == msg@,
    {
        MessagePacket { msg }
    }

    /// The message bytes padded with zeros to the fixed width.
    pub fn to_bytes(&self) -> (r: Vec<u8>)
        requires
            vstd::utf8::encode_utf8(self.msg@).len() <= MESSAGE_WIDTH,
        ensures
            r@ == vstd::utf8::encode_utf8(self.msg@) + Seq::new(
                (MESSAGE_WIDTH - vstd::utf8::encode_utf8(self.msg@).len()) as nat,
                |i: int| 0u8,
            ),
            r@.len() == MESSAGE_WIDTH,
    {
        let mut bytes: Vec<u8> = Vec::new();
        push_str_bytes(&mut bytes, &self.msg);
        let ghost msgb = vstd::utf8::encode_utf8(self.msg@);
        let ghost zeros = Seq::new((MESSAGE_WIDTH - msgb.len()) as nat, |i: int| 0u8);
        let mut pad: usize = MESSAGE_WIDTH - bytes.len();
        let ghost total = (MESSAGE_WIDTH - msgb.len()) as int;
        while pad > 0
            invariant
                pad <= total,
                bytes@ == msgb + zeros.take(total - pad),
                total == (MESSAGE_WIDTH - msgb.len()) as int,
                zeros == Seq::new((MESSAGE_WIDTH - msgb.len()) as nat, |i: int| 0u8),
            decreases pad,
        {
            bytes.push(0);
            proof {
                assert(zeros.take(total - pad).push(0u8) =~= zeros.take(total - (pad - 1)));
                assert(bytes@ =~= msgb + zeros.take(total - (pad - 1)));
            }
            pad = pad - 1;
        }
        proof {
            assert(zeros.take(total) =~= zeros);
            assert(bytes@ =~= msgb + zeros);
        }
        bytes
    }

    /// The message text.
    pub fn get_message(&self) -> (r: String)
        ensures
            r@ == self.msg@,
    {
        self.msg.clone()
    }

    /// Reads a message back from padded wire bytes: the zero padding
    /// on both sides is stripped.
    pub fn from_bytes(bytes: Vec<u8>) -> (r: MessagePacket)
        requires
            vstd::utf8::valid_utf8(strip_leading_nul(strip_trailing_nul(bytes@))),
        ensures
            vstd::utf8::encode_utf8(r.msg@) == strip_leading_nul(strip_trailing_nul(bytes@)),
    {
        let mut e: usize = bytes.len();
        proof {
            assert(bytes@.take(e as int) =~= bytes@);
        }
        while e > 0 && bytes[e - 1] == 0
            invariant
                e <= bytes@.len(),
                strip_trailing_nul(bytes@) == strip_trailing_nul(bytes@.take(e as int)),
            decreases e,
        {
            proof {
                assert(bytes@.take(e as int).drop_last() =~= bytes@.take(e - 1));
            }
            e = e - 1;
        }
        proof {
            assert(strip_trailing_nul(bytes@.take(e as int)) == bytes@.take(e as int));
        }
        let mut a: usize = 0;
        proof {
            assert(bytes@.subrange(0, e as int) =~= bytes@.take(e as int));
        }
        while a < e && bytes[a] == 0
            invariant
                a <= e <= bytes@.len(),
                strip_trailing_nul(bytes@) == bytes@.take(e as int),
                strip_leading_nul(bytes@.take(e as int)) == strip_leading_nul(
                    bytes@.subrange(a as int, e as int),
                ),
            decreases e - a,
        {
            proof {
                assert(bytes@.subrange(a as int, e as int).drop_first() =~= bytes@.subrange(
                    a + 1 as int,
                    e as int,
                ));
            }
            a = a + 1;
        }
        proof {
            assert(strip_leading_nul(bytes@.subrange(a as int, e as int)) == bytes@.subrange(
                a as int,
                e as int,
            ));
        }
        let msg = crate::text::utf8_range_string(&bytes, a, e);
        MessagePacket { msg }
    }
}

} // verus!
