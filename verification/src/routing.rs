//! The routing table of the early wire format: a list of named
//! routes, filtered and serialized for broadcasting.

use vstd::prelude::*;

use crate::bytesutil::be16;
use crate::packets::routing_entry::{spec_entry_bytes, LegacyEntryV, RoutingEntry};

verus! {

/// The views of a list of routes.
pub open spec fn legacy_view(s: Seq<RoutingEntry>) -> Seq<LegacyEntryV> {
    s.map_values(|e: RoutingEntry| e@)
}

/// The routes not learned from `poise`.
pub open spec fn spec_clear_from(s: Seq<LegacyEntryV>, poise: Seq<char>) -> Seq<LegacyEntryV>
    decreases s.len(),
{
    if s.len() == 0 {
        Seq::empty()
    } else {
        spec_clear_from(s.drop_last(), poise) + (if s.last().info_source == poise {
            Seq::empty()
        } else {
            seq![s.last()]
        })
    }
}

/// The routes whose destination is not `destination`.
pub open spec fn spec_remove_dest(s: Seq<LegacyEntryV>, destination: Seq<char>) -> Seq<
    LegacyEntryV,
>
    decreases s.len(),
{
    if s.len() == 0 {
        Seq::empty()
    } else {
        spec_remove_dest(s.drop_last(), destination) + (if s.last().destination == destination {
            Seq::empty()
        } else {
            seq![s.last()]
        })
    }
}

/// The destinations of the routes learned from `of_target`.
pub open spec fn spec_direct_sources(s: Seq<LegacyEntryV>, of_target: Seq<char>) -> Seq<Seq<char>>
    decreases s.len(),
{
    if s.len() == 0 {
        Seq::empty()
    } else {
        spec_direct_sources(s.drop_last(), of_target) + (if s.last().info_source == of_target {
            seq![s.last().destination]
        } else {
            Seq::empty()
        })
    }
}

/// The first route for a destination.
pub open spec fn spec_find_dest(s: Seq<LegacyEntryV>, destination: Seq<char>) -> Option<
    LegacyEntryV,
>
    decreases s.len(),
{
    if s.len() == 0 {
        None
    } else if s[0].destination == destination {
        Some(s[0])
    } else {
        spec_find_dest(s.drop_first(), destination)
    }
}

/// How many routes were not learned from `poise`.
pub open spec fn spec_count_not_from(s: Seq<LegacyEntryV>, poise: Seq<char>) -> nat
    decreases s.len(),
{
    if s.len() == 0 {
        0
    } else {
        spec_count_not_from(s.drop_last(), poise) + (if s.last().info_source == poise {
            0nat
        } else {
            1nat
        })
    }
}

/// The wire bytes of all routes in order.
pub open spec fn spec_entries_blob(s: Seq<LegacyEntryV>) -> Seq<u8>
    decreases s.len(),
{
    if s.len() == 0 {
        Seq::empty()
    } else {
        spec_entries_blob(s.drop_last()) + spec_entry_bytes(s.last())
    }
}

/// The views of a list of names.
pub open spec fn strings_view(s: Seq<String>) -> Seq<Seq<char>> {
    s.map_values(|x: String| x@)
}

/// The early routing table.
#[derive(Debug)]
pub struct Routingtable {
    entries: Vec<RoutingEntry>,
}

impl View for Routingtable {
    type V = Seq<LegacyEntryV>;

    closed spec fn view(&self) -> Seq<LegacyEntryV> {
        legacy_view(self.entries@)
    }
}

impl Routingtable {
    pub fn new() -> (r: Routingtable)
        ensures
            r@ == Seq::<LegacyEntryV>::empty(),
    {
        let r = Routingtable { entries: Vec::new() };
        proof {
            assert(r@ =~= Seq::<LegacyEntryV>::empty());
        }
        r
    }

    /// Removes all routes learned from `poise`.
    #[verifier::loop_isolation(false)]
    pub fn clear_from(&mut self, poise: String)
        ensures
            final(self)@ == spec_clear_from(old(self)@, poise@),
    {
        let mut kept: Vec<RoutingEntry> = Vec::new();
        let n = self.entries.len();
        let mut k: usize = 0;
        proof {
            assert(legacy_view(kept@) =~= spec_clear_from(old(self)@.take(0), poise@));
        }
        while k < n
            invariant
                k <= n,
                n == self.entries@.len(),
                legacy_view(kept@) == spec_clear_from(old(self)@.take(k as int), poise@),
                self.entries == old(self).entries,
            decreases n - k,
        {
            let ghost pre = legacy_view(kept@);
            let e = &self.entries[k];
            if !crate::text::str_eq(&e.info_source, &poise) {
                kept.push(
                    RoutingEntry {
                        info_source: e.info_source.clone(),
                        destination: e.destination.clone(),
                        ip: e.ip.clone(),
                        port: e.port,
                        hops: e.hops,
                        ttl: e.ttl,
                        dont_expire: e.dont_expire,
                    },
                );
                proof {
                    assert(legacy_view(kept@) =~= pre.push(old(self)@[k as int]));
                }
            }
            proof {
                assert(old(self)@.take(k as int + 1).drop_last() =~= old(self)@.take(k as int));
                assert(old(self)@.take(k as int + 1).last() == old(self)@[k as int]);
                if old(self)@[k as int].info_source == poise@ {
                    assert(legacy_view(kept@) =~= spec_clear_from(
                        old(self)@.take(k as int + 1),
                        poise@,
                    ));
                } else {
                    assert(legacy_view(kept@) =~= spec_clear_from(
                        old(self)@.take(k as int + 1),
                        poise@,
                    ));
                }
            }
            k = k + 1;
        }
        proof {
            assert(old(self)@.take(n as int) =~= old(self)@);
        }
        self.entries = kept;
    }

    /// Adds a route at the end.
    pub fn add_entry(&mut self, entry: RoutingEntry)
        ensures
            final(self)@ == old(self)@.push(entry@),
    {
        let ghost ev = entry@;
        self.entries.push(entry);
        proof {
            assert(self@ =~= old(self)@.push(ev));
        }
    }

    /// The destinations of all routes learned from `of_target`.
    #[verifier::loop_isolation(false)]
    pub fn get_direct_sources(&self, of_target: String) -> (r: Vec<String>)
        ensures
            strings_view(r@) == spec_direct_sources(self@, of_target@),
    {
        let mut out: Vec<String> = Vec::new();
        let n = self.entries.len();
        let mut k: usize = 0;
        proof {
            assert(strings_view(out@) =~= spec_direct_sources(self@.take(0), of_target@));
        }
        while k < n
            invariant
                k <= n,
                n == self.entries@.len(),
                strings_view(out@) == spec_direct_sources(self@.take(k as int), of_target@),
            decreases n - k,
        {
            let ghost pre = strings_view(out@);
            let e = &self.entries[k];
            if crate::text::str_eq(&e.info_source, &of_target) {
                out.push(e.destination.clone());
                proof {
                    assert(strings_view(out@) =~= pre.push(self@[k as int].destination));
                }
            }
            proof {
                assert(self@.take(k as int + 1).drop_last() =~= self@.take(k as int));
                assert(self@.take(k as int + 1).last() == self@[k as int]);
                assert(strings_view(out@) =~= spec_direct_sources(
                    self@.take(k as int + 1),
                    of_target@,
                ));
            }
            k = k + 1;
        }
        proof {
            assert(self@.take(n as int) =~= self@);
        }
        out
    }

    /// The first route for a destination.
    #[verifier::loop_isolation(false)]
    pub fn get_entry(&self, destination: String) -> (r: Option<&RoutingEntry>)
        ensures
            match r {
                Some(e) => spec_find_dest(self@, destination@) == Some(e@),
                None => spec_find_dest(self@, destination@) is None,
            },
    {
        let n = self.entries.len();
        let mut k: usize = 0;
        while k < n
            invariant
                k <= n,
                n == self.entries@.len(),
                forall|i: int| 0 <= i < k ==> (#[trigger] self@[i]).destination != destination@,
            decreases n - k,
        {
            if crate::text::str_eq(&self.entries[k].destination, &destination) {
                proof {
                    lemma_find_dest_at(self@, destination@, k as int);
                }
                return Some(&self.entries[k]);
            }
            k = k + 1;
        }
        proof {
            lemma_find_dest_none(self@, destination@);
        }
        None
    }

    /// Removes every route for a destination.
    #[verifier::loop_isolation(false)]
    pub fn remove_entry(&mut self, destination: String)
        ensures
            final(self)@ == spec_remove_dest(old(self)@, destination@),
    {
        let mut kept: Vec<RoutingEntry> = Vec::new();
        let n = self.entries.len();
        let mut k: usize = 0;
        proof {
            assert(legacy_view(kept@) =~= spec_remove_dest(old(self)@.take(0), destination@));
        }
        while k < n
            invariant
                k <= n,
                n == self.entries@.len(),
                legacy_view(kept@) == spec_remove_dest(old(self)@.take(k as int), destination@),
                self.entries == old(self).entries,
            decreases n - k,
        {
            let ghost pre = legacy_view(kept@);
            let e = &self.entries[k];
            if !crate::text::str_eq(&e.destination, &destination) {
                kept.push(
                    RoutingEntry {
                        info_source: e.info_source.clone(),
                        destination: e.destination.clone(),
                        ip: e.ip.clone(),
                        port: e.port,
                        hops: e.hops,
                        ttl: e.ttl,
                        dont_expire: e.dont_expire,
                    },
                );
                proof {
                    assert(legacy_view(kept@) =~= pre.push(old(self)@[k as int]));
                }
            }
            proof {
                assert(old(self)@.take(k as int + 1).drop_last() =~= old(self)@.take(k as int));
                assert(old(self)@.take(k as int + 1).last() == old(self)@[k as int]);
                assert(legacy_view(kept@) =~= spec_remove_dest(
                    old(self)@.take(k as int + 1),
                    destination@,
                ));
            }
            k = k + 1;
        }
        proof {
            assert(old(self)@.take(n as int) =~= old(self)@);
        }
        self.entries = kept;
    }

    /// How many routes were not learned from `poise`.
    #[verifier::loop_isolation(false)]
    pub fn total_entries(&self, poise: String) -> (r: usize)
        ensures
            r as nat == spec_count_not_from(self@, poise@),
    {
        let n = self.entries.len();
        let mut total: usize = 0;
        let mut k: usize = 0;
        proof {
            lemma_count_bound(self@, poise@);
        }
        while k < n
            invariant
                k <= n,
                n == self.entries@.len(),
                total as nat == spec_count_not_from(self@.take(k as int), poise@),
                total <= k,
            decreases n - k,
        {
            proof {
                assert(self@.take(k as int + 1).drop_last() =~= self@.take(k as int));
                assert(self@.take(k as int + 1).last() == self@[k as int]);
            }
            if !crate::text::str_eq(&self.entries[k].info_source, &poise) {
                total = total + 1;
            }
            k = k + 1;
        }
        proof {
            assert(self@.take(n as int) =~= self@);
        }
        total
    }

    /// The broadcast form of the table: the count of routes not from
    /// `poise` in one byte, then the wire bytes of every route.
    #[verifier::loop_isolation(false)]
    pub fn to_bytes(
        &self,
        poise: String,
        _own_ip: String,
        _own_port: u16,
        _own_name: String,
    ) -> (r: Vec<u8>)
        ensures
            r@ == seq![(spec_count_not_from(self@, poise@) % 0x100) as u8] + spec_entries_blob(
                self@,
            ),
    {
        let total = self.total_entries(poise);
        let mut out: Vec<u8> = Vec::new();
        let count_byte: u8 = (total % 0x100) as u8;
        proof {
            assert(count_byte as nat == spec_count_not_from(self@, poise@) % 0x100);
        }
        out.push(count_byte);
        let n = self.entries.len();
        let mut k: usize = 0;
        proof {
            assert(out@ =~= seq![count_byte] + spec_entries_blob(self@.take(0)));
        }
        while k < n
            invariant
                k <= n,
                n == self.entries@.len(),
                out@ == seq![count_byte] + spec_entries_blob(self@.take(k as int)),
            decreases n - k,
        {
            let ghost pre = out@;
            let mut piece = self.entries[k].to_bytes();
            out.append(&mut piece);
            proof {
                assert(self@.take(k as int + 1).drop_last() =~= self@.take(k as int));
                assert(self@.take(k as int + 1).last() == self@[k as int]);
                assert(out@ =~= seq![count_byte] + spec_entries_blob(self@.take(k as int + 1)));
            }
            k = k + 1;
        }
        proof {
            assert(self@.take(n as int) =~= self@);
        }
        out
    }

    /// The stored routes.
    pub fn get_entries(&self) -> (r: &Vec<RoutingEntry>)
        ensures
            legacy_view(r@) == self@,
    {
        &self.entries
    }

    /// Spends one second of every route's lifetime, except the
    /// pinned ones.
    #[verifier::loop_isolation(false)]
    pub fn decrement_ttl(&mut self)
        ensures
            final(self)@.len() == old(self)@.len(),
            forall|i: int|
                0 <= i < old(self)@.len() ==> #[trigger] final(self)@[i] == (LegacyEntryV {
                    ttl: if old(self)@[i].dont_expire || old(self)@[i].ttl == 0 {
                        old(self)@[i].ttl
                    } else {
                        (old(self)@[i].ttl - 1) as u8
                    },
                    ..old(self)@[i]
                }),
    {
        let n = self.entries.len();
        let mut k: usize = 0;
        while k < n
            invariant
                k <= n,
                n == self.entries@.len(),
                self@.len() == old(self)@.len(),
                forall|i: int|
                    k <= i < old(self)@.len() ==> #[trigger] self@[i] == old(self)@[i],
                forall|i: int|
                    0 <= i < k ==> #[trigger] self@[i] == (LegacyEntryV {
                        ttl: if old(self)@[i].dont_expire || old(self)@[i].ttl == 0 {
                            old(self)@[i].ttl
                        } else {
                            (old(self)@[i].ttl - 1) as u8
                        },
                        ..old(self)@[i]
                    }),
            decreases n - k,
        {
            let e = &self.entries[k];
            let new_ttl: u8 = if e.dont_expire || e.ttl == 0 {
                e.ttl
            } else {
                e.ttl - 1
            };
            let replacement = RoutingEntry {
                info_source: e.info_source.clone(),
                destination: e.destination.clone(),
                ip: e.ip.clone(),
                port: e.port,
                hops: e.hops,
                ttl: new_ttl,
                dont_expire: e.dont_expire,
            };
            let ghost pre = self.entries@;
            let ghost repv = replacement@;
            let ghost oldk = old(self)@[k as int];
            proof {
                assert(legacy_view(pre)[k as int] == oldk);
                assert(repv == (LegacyEntryV {
                    ttl: if oldk.dont_expire || oldk.ttl == 0 {
                        oldk.ttl
                    } else {
                        (oldk.ttl - 1) as u8
                    },
                    ..oldk
                }));
            }
            self.entries.remove(k);
            self.entries.insert(k, replacement);
            proof {
                assert(legacy_view(self.entries@) =~= legacy_view(pre).update(k as int, repv));
            }
            k = k + 1;
        }
    }

    /// Drops every route whose lifetime ran out.
    #[verifier::loop_isolation(false)]
    pub fn remove_expired_entries(&mut self)
        ensures
            final(self)@ == spec_keep_alive(old(self)@),
    {
        let mut kept: Vec<RoutingEntry> = Vec::new();
        let n = self.entries.len();
        let mut k: usize = 0;
        proof {
            assert(legacy_view(kept@) =~= spec_keep_alive(old(self)@.take(0)));
        }
        while k < n
            invariant
                k <= n,
                n == self.entries@.len(),
                legacy_view(kept@) == spec_keep_alive(old(self)@.take(k as int)),
                self.entries == old(self).entries,
            decreases n - k,
        {
            let ghost pre = legacy_view(kept@);
            let e = &self.entries[k];
            if e.ttl > 0 || e.dont_expire {
                kept.push(
                    RoutingEntry {
                        info_source: e.info_source.clone(),
                        destination: e.destination.clone(),
                        ip: e.ip.clone(),
                        port: e.port,
                        hops: e.hops,
                        ttl: e.ttl,
                        dont_expire: e.dont_expire,
                    },
                );
                proof {
                    assert(legacy_view(kept@) =~= pre.push(old(self)@[k as int]));
                }
            }
            proof {
                assert(old(self)@.take(k as int + 1).drop_last() =~= old(self)@.take(k as int));
                assert(old(self)@.take(k as int + 1).last() == old(self)@[k as int]);
                assert(legacy_view(kept@) =~= spec_keep_alive(old(self)@.take(k as int + 1)));
            }
            k = k + 1;
        }
        proof {
            assert(old(self)@.take(n as int) =~= old(self)@);
        }
        self.entries = kept;
    }
}

impl Default for Routingtable {
    fn default() -> (r: Routingtable)
        ensures
            r@ == Seq::<LegacyEntryV>::empty(),
    {
        Routingtable::new()
    }
}

/// The routes that have lifetime left or are pinned.
pub open spec fn spec_keep_alive(s: Seq<LegacyEntryV>) -> Seq<LegacyEntryV>
    decreases s.len(),
{
    if s.len() == 0 {
        Seq::empty()
    } else {
        spec_keep_alive(s.drop_last()) + (if s.last().ttl > 0 || s.last().dont_expire {
            seq![s.last()]
        } else {
            Seq::empty()
        })
    }
}

/// A first match at `k` is what the scan finds.
proof fn lemma_find_dest_at(s: Seq<LegacyEntryV>, destination: Seq<char>, k: int)
    requires
        0 <= k < s.len(),
        s[k].destination == destination,
        forall|i: int| 0 <= i < k ==> (#[trigger] s[i]).destination != destination,
    ensures
        spec_find_dest(s, destination) == Some(s[k]),
    decreases k,
{
    if k == 0 {
    } else {
        assert(s[0].destination != destination);
        assert(s.drop_first()[k - 1] == s[k]);
        assert(forall|i: int|
            0 <= i < k - 1 ==> (#[trigger] s.drop_first()[i]).destination != destination);
        lemma_find_dest_at(s.drop_first(), destination, k - 1);
    }
}

/// No match anywhere means the scan finds nothing.
proof fn lemma_find_dest_none(s: Seq<LegacyEntryV>, destination: Seq<char>)
    requires
        forall|i: int| 0 <= i < s.len() ==> (#[trigger] s[i]).destination != destination,
    ensures
        spec_find_dest(s, destination) is None,
    decreases s.len(),
{
    if s.len() > 0 {
        lemma_find_dest_none(s.drop_first(), destination);
    }
}

/// The count of kept routes never exceeds the table's size.
proof fn lemma_count_bound(s: Seq<LegacyEntryV>, poise: Seq<char>)
    ensures
        spec_count_not_from(s, poise) <= s.len(),
    decreases s.len(),
{
    if s.len() > 0 {
        lemma_count_bound(s.drop_last(), poise);
    }
}

} // verus!
