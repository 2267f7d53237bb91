//! The address of a node: its listener IP text and port.
//!
//! A node is identified by the socket address it listens on. The
//! routing table and the peer-channel map are keyed by this type.

use vstd::prelude::*;

use crate::json::{ascii_seq, spec_udec};

verus! {

/// A socket address as the routing namespace sees it.
#[derive(Clone, Debug)]
pub struct NeighborAddr {
    pub ip: String,
    pub port: u16,
}

pub ghost struct NeighborAddrV {
    pub ip: Seq<char>,
    pub port: u16,
}

impl View for NeighborAddr {
    type V = NeighborAddrV;

    open spec fn view(&self) -> NeighborAddrV {
        NeighborAddrV { ip: self.ip@, port: self.port }
    }
}

impl NeighborAddr {
    pub fn new(ip: String, port: u16) -> (r: NeighborAddr)
        ensures
            r@ == (NeighborAddrV { ip: ip@, port }),
    {
        NeighborAddr { ip, port }
    }

    /// A copy with the same view.
    pub fn dup(&self) -> (r: NeighborAddr)
        ensures
            r@ == self@,
    {
        NeighborAddr { ip: self.ip.clone(), port: self.port }
    }

    /// The usual `ip:port` text of the address.
    pub fn addr_text(&self) -> (r: String)
        ensures
            r@ == self.ip@ + seq![':'] + vstd::utf8::decode_utf8(spec_udec(self.port as nat)),
    {
        let mut s = self.ip.clone();
        let mut digits: Vec<u8> = Vec::new();
        crate::json::emit_udec(&mut digits, self.port as u64);
        proof {
            crate::json::lemma_udec_all_digits(self.port as nat);
        }
        let ghost db = digits@;
        let ptext = crate::text::ascii_string(digits);
        proof {
            broadcast use vstd::utf8::encode_utf8_decode_utf8;

            assert(vstd::utf8::decode_utf8(db) == ptext@);
        }
        s.append(":");
        s.append(ptext.as_str());
        proof {
            reveal_strlit(":");
            assert((":"@) =~= seq![':']);
        }
        s
    }
}

impl PartialEq for NeighborAddr {
    fn eq(&self, other: &NeighborAddr) -> (r: bool) {
        self.ip == other.ip && self.port == other.port
    }
}

impl vstd::std_specs::cmp::PartialEqSpecImpl for NeighborAddr {
    open spec fn obeys_eq_spec() -> bool {
        true
    }

    open spec fn eq_spec(&self, other: &NeighborAddr) -> bool {
        self@ == other@
    }
}

} // verus!
