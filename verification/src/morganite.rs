//! The early node state: its routing table and its own identity.

use vstd::prelude::*;

use crate::bytesutil::{be16_val, limit3, name_limit_ok};
use crate::common_header::full_dec;
use crate::json::spec_udec;
use crate::packets::header::BaseHeader;
use crate::packets::routing_entry::{LegacyEntryV, RoutingEntry, TTL};
use crate::routing::{spec_clear_from, spec_find_dest, spec_remove_dest, Routingtable};

verus! {

/// The node of the early format: its table and its own name,
/// listener port text and address text.
#[derive(Debug)]
pub struct Morganite {
    routingtable: Routingtable,
    own_name: String,
    own_port: String,
    own_addr: String,
}

pub ghost struct MorganiteV {
    pub routingtable: Seq<LegacyEntryV>,
    pub own_name: Seq<char>,
    pub own_port: Seq<char>,
    pub own_addr: Seq<char>,
}

impl View for Morganite {
    type V = MorganiteV;

    closed spec fn view(&self) -> MorganiteV {
        MorganiteV {
            routingtable: self.routingtable@,
            own_name: self.own_name@,
            own_port: self.own_port@,
            own_addr: self.own_addr@,
        }
    }
}

/// One route as it stands in a broadcast blob, nine bytes starting
/// at position `9 + 9 k`.
pub open spec fn spec_blob_entry(b: Seq<u8>, ip: Seq<char>, k: int) -> LegacyEntryV {
    LegacyEntryV {
        info_source: vstd::utf8::decode_utf8(b.subrange(9 + 9 * k, 12 + 9 * k)),
        destination: vstd::utf8::decode_utf8(b.subrange(12 + 9 * k, 15 + 9 * k)),
        ip,
        port: be16_val(b[15 + 9 * k], b[16 + 9 * k]),
        hops: b[17 + 9 * k],
        ttl: TTL,
        dont_expire: false,
    }
}

/// The first `k` routes of a blob added to a table, skipping the
/// self-referential ones.
pub open spec fn spec_blob_fold(
    t: Seq<LegacyEntryV>,
    b: Seq<u8>,
    ip: Seq<char>,
    own: Seq<char>,
    k: nat,
) -> Seq<LegacyEntryV>
    decreases k,
{
    if k == 0 {
        t
    } else {
        let t2 = spec_blob_fold(t, b, ip, own, (k - 1) as nat);
        let e = spec_blob_entry(b, ip, k - 1);
        if e.info_source == own || e.destination == own || e.destination == e.info_source {
            t2
        } else {
            t2.push(e)
        }
    }
}

/// What a broadcast blob must look like before it is read: the
/// header, the count, and one nine-byte route per counted entry,
/// with the three-byte names valid UTF-8.
pub open spec fn blob_wf(b: Seq<u8>) -> bool {
    &&& b.len() >= 9
    &&& vstd::utf8::valid_utf8(b.subrange(2, 5))
    &&& vstd::utf8::valid_utf8(b.subrange(5, 8))
    &&& 9 + 9 * (b[8] as int) <= b.len()
    &&& forall|k: int|
        0 <= k < b[8] ==> vstd::utf8::valid_utf8(#[trigger] b.subrange(9 + 9 * k, 12 + 9 * k))
            && vstd::utf8::valid_utf8(b.subrange(12 + 9 * k, 15 + 9 * k))
}

impl Morganite {
    pub fn new(own_name: String, own_port: String, own_addr: String) -> (r: Morganite)
        ensures
            r@.routingtable == Seq::<LegacyEntryV>::empty(),
            r@.own_name == own_name@,
            r@.own_port == own_port@,
            r@.own_addr == own_addr@,
    {
        Morganite { routingtable: Routingtable::new(), own_name, own_port, own_addr }
    }

    /// This node's name.
    pub fn get_own_name(&self) -> (r: String)
        ensures
            r@ == self@.own_name,
    {
        self.own_name.clone()
    }

    /// Adds a route for this node itself, one hop away at its own
    /// address.
    pub fn add_self_to_routingtable(&mut self)
        requires
            name_limit_ok(old(self)@.own_name),
            full_dec(vstd::utf8::encode_utf8(old(self)@.own_port), 0xffff) is Some,
        ensures
            final(self)@.routingtable.len() == old(self)@.routingtable.len() + 1,
            final(self)@.routingtable.last().ip == old(self)@.own_addr,
            final(self)@.routingtable.last().hops == 1,
            vstd::utf8::encode_utf8(final(self)@.routingtable.last().destination) == limit3(
                vstd::utf8::encode_utf8(old(self)@.own_name),
            ),
            final(self)@.own_name == old(self)@.own_name,
            final(self)@.own_port == old(self)@.own_port,
            final(self)@.own_addr == old(self)@.own_addr,
    {
        let port = crate::common_header::parse_port_text(&self.own_port);
        let entry = RoutingEntry::new(
            self.own_name.clone(),
            self.own_name.clone(),
            self.own_addr.clone(),
            port,
            1,
        );
        self.routingtable.add_entry(entry);
    }

    /// Adds a route to the table.
    pub fn routingtable_add(&mut self, entry: RoutingEntry)
        ensures
            final(self)@.routingtable == old(self)@.routingtable.push(entry@),
            final(self)@.own_name == old(self)@.own_name,
            final(self)@.own_port == old(self)@.own_port,
            final(self)@.own_addr == old(self)@.own_addr,
    {
        self.routingtable.add_entry(entry);
    }

    /// Drops every route for a destination.
    pub fn remove_entry(&mut self, destination: String)
        ensures
            final(self)@.routingtable == spec_remove_dest(old(self)@.routingtable, destination@),
            final(self)@.own_name == old(self)@.own_name,
            final(self)@.own_port == old(self)@.own_port,
            final(self)@.own_addr == old(self)@.own_addr,
    {
        self.routingtable.remove_entry(destination);
    }

    /// Reads a broadcast blob into the table: forgets what the
    /// sender taught before, then adds each advertised route that
    /// does not point back at this node.
    #[verifier::loop_isolation(false)]
    #[verifier::rlimit(100)]
    #[verifier::spinoff_prover]
    pub fn update_routing_table(&mut self, bytes: Vec<u8>, ip: String)
        requires
            blob_wf(bytes@),
        ensures
            final(self)@.own_name == old(self)@.own_name,
            final(self)@.own_port == old(self)@.own_port,
            final(self)@.own_addr == old(self)@.own_addr,
            bytes@[0] > 2 ==> final(self)@.routingtable == old(self)@.routingtable,
            bytes@[0] <= 2 ==> final(self)@.routingtable == spec_blob_fold(
                spec_clear_from(
                    old(self)@.routingtable,
                    vstd::utf8::decode_utf8(bytes@.subrange(5, 8)),
                ),
                bytes@,
                ip@,
                old(self)@.own_name,
                bytes@[8] as nat,
            ),
    {
        broadcast use vstd::utf8::encode_utf8_decode_utf8, vstd::utf8::decode_utf8_encode_utf8;

        let header_bytes = crate::text::vec_take_range(&bytes, 0, bytes.len());
        proof {
            assert(header_bytes@ =~= bytes@);
        }
        let header = match BaseHeader::from_bytes(header_bytes) {
            Some(h) => h,
            None => { return ; },
        };
        let source = header.get_source();
        proof {
            assert(source@ == vstd::utf8::decode_utf8(bytes@.subrange(5, 8)));
        }
        self.routingtable.clear_from(source);
        let ghost base = self@.routingtable;
        let total = bytes[8] as usize;
        let mut k: usize = 0;
        while k < total
            invariant
                k <= total,
                total == bytes@[8] as int,
                blob_wf(bytes@),
                self@.routingtable == spec_blob_fold(
                    base,
                    bytes@,
                    ip@,
                    old(self)@.own_name,
                    k as nat,
                ),
                self@.own_name == old(self)@.own_name,
                self@.own_port == old(self)@.own_port,
                self@.own_addr == old(self)@.own_addr,
            decreases total - k,
        {
            proof {
                assert(9 * (k as int) + 9 <= 9 * (bytes@[8] as int));
            }
            let off = 9 + 9 * k;
            let entry_bytes = crate::text::vec_take_range(&bytes, off, off + 9);
            proof {
                assert(entry_bytes@.subrange(0, 3) =~= bytes@.subrange(
                    9 + 9 * (k as int),
                    12 + 9 * (k as int),
                ));
                assert(entry_bytes@.subrange(3, 6) =~= bytes@.subrange(
                    12 + 9 * (k as int),
                    15 + 9 * (k as int),
                ));
            }
            let entry = RoutingEntry::from_bytes(entry_bytes, ip.clone());
            let ghost ev = spec_blob_entry(bytes@, ip@, k as int);
            proof {
                assert(entry@.info_source == ev.info_source);
                assert(entry@.destination == ev.destination);
                assert(entry@ == ev);
            }
            let skip_it = crate::text::str_eq(&entry.info_source, &self.own_name)
                || crate::text::str_eq(&entry.destination, &self.own_name) || crate::text::str_eq(
                &entry.destination,
                &entry.info_source,
            );
            if !skip_it {
                self.routingtable.add_entry(entry);
            }
            k = k + 1;
        }
    }

    /// The listener port of a named node, when a route to it stands.
    pub fn get_port_of(&self, name: String) -> (r: Option<u16>)
        ensures
            match spec_find_dest(self@.routingtable, name@) {
                Some(e) => r == Some(e.port),
                None => r is None,
            },
    {
        match self.routingtable.get_entry(name) {
            Some(entry) => Some(entry.port),
            None => None,
        }
    }

    /// The IP text of a named node, when a route to it stands.
    pub fn get_ip_of(&self, name: String) -> (r: Option<String>)
        ensures
            match spec_find_dest(self@.routingtable, name@) {
                Some(e) => (match r {
                    Some(s) => s@ == e.ip,
                    None => false,
                }),
                None => r is None,
            },
    {
        match self.routingtable.get_entry(name) {
            Some(entry) => Some(entry.ip.clone()),
            None => None,
        }
    }

    /// The `ip:port` text of a named node, when a route to it
    /// stands.
    pub fn get_addr_of(&self, name: String) -> (r: Option<String>)
        ensures
            match spec_find_dest(self@.routingtable, name@) {
                Some(e) => (match r {
                    Some(s) => s@ == e.ip + seq![':'] + vstd::utf8::decode_utf8(
                        spec_udec(e.port as nat),
                    ),
                    None => false,
                }),
                None => r is None,
            },
    {
        match self.routingtable.get_entry(name) {
            Some(entry) => Some(entry.get_address()),
            None => None,
        }
    }

    /// The destinations reached directly through `of_target`.
    pub fn direct_sources(&self, of_target: String) -> (r: Vec<String>)
        ensures
            crate::routing::strings_view(r@) == crate::routing::spec_direct_sources(
                self@.routingtable,
                of_target@,
            ),
    {
        self.routingtable.get_direct_sources(of_target)
    }

    /// The broadcast bytes of the table, counted without routes from
    /// `poise`.
    pub fn table_bytes(&self, poise: String, own_ip: String, own_port: u16, own_name: String) -> (r:
        Vec<u8>)
        ensures
            r@ == seq![
                (crate::routing::spec_count_not_from(self@.routingtable, poise@) % 0x100) as u8,
            ] + crate::routing::spec_entries_blob(self@.routingtable),
    {
        self.routingtable.to_bytes(poise, own_ip, own_port, own_name)
    }
}

impl Default for Morganite {
    fn default() -> (r: Morganite)
        ensures
            r@.routingtable == Seq::<LegacyEntryV>::empty(),
            r@.own_name == "ans"@,
            r@.own_port == "12345"@,
            r@.own_addr == "127.0.0.1"@,
    {
        Morganite::new("ans".to_owned(), "12345".to_owned(), "127.0.0.1".to_owned())
    }
}

} // verus!
