//! The shared state of the node and the distance-vector rules.
//!
//! One structure holds the routing table, the set of live peer
//! channels, the node's own listener address and nickname. Every rule
//! that reads or rewrites the table lives here: building the
//! advertisement for a neighbor (split horizon), applying a received
//! advertisement, the heartbeat's aging step, and the poisoning paths.

use vstd::prelude::*;

use crate::addr::{NeighborAddr, NeighborAddrV};
use crate::protocol::{entries_view, RoutingEntry, RoutingEntryV};
use crate::POISE_UNREACHABLE;

verus! {

/// One route: the neighbor to forward through, the distance, and the
/// liveness flag the heartbeat maintains.
#[derive(Clone, Debug)]
pub struct RoutingTableEntry {
    pub next: NeighborAddr,
    pub hop_count: i32,
    pub ttl: bool,
}

pub ghost struct RoutingTableEntryV {
    pub next: NeighborAddrV,
    pub hop_count: i32,
    pub ttl: bool,
}

impl View for RoutingTableEntry {
    type V = RoutingTableEntryV;

    open spec fn view(&self) -> RoutingTableEntryV {
        RoutingTableEntryV { next: self.next@, hop_count: self.hop_count, ttl: self.ttl }
    }
}

/// A keyed row of the routing table.
#[derive(Clone, Debug)]
pub struct RouteRecord {
    pub target: NeighborAddr,
    pub entry: RoutingTableEntry,
}

pub ghost struct RouteRecordV {
    pub target: NeighborAddrV,
    pub entry: RoutingTableEntryV,
}

impl View for RouteRecord {
    type V = RouteRecordV;

    open spec fn view(&self) -> RouteRecordV {
        RouteRecordV { target: self.target@, entry: self.entry@ }
    }
}

/// The views of the rows of a table.
pub open spec fn records_view(s: Seq<RouteRecord>) -> Seq<RouteRecordV> {
    s.map_values(|r: RouteRecord| r@)
}

/// The views of a list of peer addresses.
pub open spec fn addrs_view(s: Seq<NeighborAddr>) -> Seq<NeighborAddrV> {
    s.map_values(|a: NeighborAddr| a@)
}

/// The entry stored for a target, scanning from the front.
pub open spec fn spec_find(s: Seq<RouteRecordV>, t: NeighborAddrV) -> Option<RoutingTableEntryV>
    decreases s.len(),
{
    if s.len() == 0 {
        None
    } else if s[0].target == t {
        Some(s[0].entry)
    } else {
        spec_find(s.drop_first(), t)
    }
}

/// At most one row per target.
pub open spec fn unique_targets(s: Seq<RouteRecordV>) -> bool {
    forall|i: int, j: int| 0 <= i < j < s.len() ==> s[i].target != s[j].target
}

/// The row for target `t` rewritten to hold `e`.
pub open spec fn spec_replace(s: Seq<RouteRecordV>, t: NeighborAddrV, e: RoutingTableEntryV) -> Seq<
    RouteRecordV,
> {
    Seq::new(
        s.len(),
        |i: int|
            if s[i].target == t {
                RouteRecordV { target: t, entry: e }
            } else {
                s[i]
            },
    )
}

/// The distance written into an advertisement: the sender includes
/// its own hop; the unreachable sentinel passes through, and the
/// type's largest value saturates.
pub open spec fn advertised_hop(h: i32) -> i32 {
    if h == POISE_UNREACHABLE {
        h
    } else if h == i32::MAX {
        h
    } else {
        (h + 1) as i32
    }
}

/// The wire entry advertising row `r`, naming `local` as the next
/// hop.
pub open spec fn spec_wire_of(r: RouteRecordV, local: NeighborAddrV) -> RoutingEntryV {
    RoutingEntryV {
        target_ip: r.target.ip,
        target_port: r.target.port,
        next_ip: local.ip,
        next_port: local.port,
        hop_count: advertised_hop(r.entry.hop_count),
    }
}

/// Whether a row is advertised to `target`: strict split horizon, the
/// row for the neighbor itself and every row through it stay home.
pub open spec fn spec_advertised_to(r: RouteRecordV, target: NeighborAddrV) -> bool {
    r.target != target && r.entry.next != target
}

/// The advertisement built from a table for neighbor `target`.
pub open spec fn spec_advertise(
    s: Seq<RouteRecordV>,
    target: NeighborAddrV,
    local: NeighborAddrV,
) -> Seq<RoutingEntryV>
    decreases s.len(),
{
    if s.len() == 0 {
        Seq::empty()
    } else {
        spec_advertise(s.drop_last(), target, local) + (if spec_advertised_to(s.last(), target) {
            seq![spec_wire_of(s.last(), local)]
        } else {
            Seq::empty()
        })
    }
}

/// The target address named by a wire entry.
pub open spec fn wire_target(e: RoutingEntryV) -> NeighborAddrV {
    NeighborAddrV { ip: e.target_ip, port: e.target_port }
}

/// The next-hop address named by a wire entry.
pub open spec fn wire_next(e: RoutingEntryV) -> NeighborAddrV {
    NeighborAddrV { ip: e.next_ip, port: e.next_port }
}

/// One advertised entry applied to the table: entries naming the node
/// itself are refused; a new target is inserted through the sender; a
/// known target is replaced when the advertised distance is no worse.
pub open spec fn spec_apply_one(
    s: Seq<RouteRecordV>,
    e: RoutingEntryV,
    sender: NeighborAddrV,
    local: NeighborAddrV,
) -> Seq<RouteRecordV> {
    if wire_target(e) == local || wire_next(e) == local {
        s
    } else {
        match spec_find(s, wire_target(e)) {
            None => s.push(
                RouteRecordV {
                    target: wire_target(e),
                    entry: RoutingTableEntryV { next: sender, hop_count: e.hop_count, ttl: true },
                },
            ),
            Some(old_entry) => if e.hop_count <= old_entry.hop_count {
                spec_replace(
                    s,
                    wire_target(e),
                    RoutingTableEntryV { next: sender, hop_count: e.hop_count, ttl: true },
                )
            } else {
                s
            },
        }
    }
}

/// A whole advertisement applied in order.
pub open spec fn spec_apply_all(
    s: Seq<RouteRecordV>,
    updates: Seq<RoutingEntryV>,
    sender: NeighborAddrV,
    local: NeighborAddrV,
) -> Seq<RouteRecordV>
    decreases updates.len(),
{
    if updates.len() == 0 {
        s
    } else {
        spec_apply_all(
            spec_apply_one(s, updates[0], sender, local),
            updates.drop_first(),
            sender,
            local,
        )
    }
}

/// How many entries of an advertisement name the node itself and are
/// refused.
pub open spec fn spec_reject_count(updates: Seq<RoutingEntryV>, local: NeighborAddrV) -> nat
    decreases updates.len(),
{
    if updates.len() == 0 {
        0
    } else {
        (if wire_target(updates[0]) == local || wire_next(updates[0]) == local {
            1nat
        } else {
            0nat
        }) + spec_reject_count(updates.drop_first(), local)
    }
}

/// The heartbeat's aging step: a row that did not confirm liveness is
/// poisoned, and every flag is cleared for the next cycle.
pub open spec fn spec_age(s: Seq<RouteRecordV>) -> Seq<RouteRecordV> {
    Seq::new(
        s.len(),
        |i: int|
            RouteRecordV {
                target: s[i].target,
                entry: RoutingTableEntryV {
                    next: s[i].entry.next,
                    hop_count: if s[i].entry.ttl {
                        s[i].entry.hop_count
                    } else {
                        POISE_UNREACHABLE
                    },
                    ttl: false,
                },
            },
    )
}

/// Poison reverse on losing a neighbor: every route through it
/// becomes unreachable.
pub open spec fn spec_poison_from(s: Seq<RouteRecordV>, remote: NeighborAddrV) -> Seq<
    RouteRecordV,
> {
    Seq::new(
        s.len(),
        |i: int|
            RouteRecordV {
                target: s[i].target,
                entry: RoutingTableEntryV {
                    next: s[i].entry.next,
                    hop_count: if s[i].entry.next == remote {
                        POISE_UNREACHABLE
                    } else {
                        s[i].entry.hop_count
                    },
                    ttl: s[i].entry.ttl,
                },
            },
    )
}

/// Every route poisoned, as on quitting.
pub open spec fn spec_poison_all(s: Seq<RouteRecordV>) -> Seq<RouteRecordV> {
    Seq::new(
        s.len(),
        |i: int|
            RouteRecordV {
                target: s[i].target,
                entry: RoutingTableEntryV {
                    next: s[i].entry.next,
                    hop_count: POISE_UNREACHABLE,
                    ttl: s[i].entry.ttl,
                },
            },
    )
}

/// The row for `t` marked alive.
pub open spec fn spec_mark_alive(s: Seq<RouteRecordV>, t: NeighborAddrV) -> Seq<RouteRecordV> {
    Seq::new(
        s.len(),
        |i: int|
            if s[i].target == t {
                RouteRecordV {
                    target: s[i].target,
                    entry: RoutingTableEntryV {
                        next: s[i].entry.next,
                        hop_count: s[i].entry.hop_count,
                        ttl: true,
                    },
                }
            } else {
                s[i]
            },
    )
}

/// The row for `t` set to `e`, inserting it if absent.
pub open spec fn spec_insert(s: Seq<RouteRecordV>, t: NeighborAddrV, e: RoutingTableEntryV) -> Seq<
    RouteRecordV,
> {
    match spec_find(s, t) {
        None => s.push(RouteRecordV { target: t, entry: e }),
        Some(_) => spec_replace(s, t, e),
    }
}

/// Data shared by every task of the node: the live peer channels'
/// keys, the routing table, and this node's own identity.
pub struct Shared {
    pub peers: Vec<NeighborAddr>,
    pub nickname: String,
    pub listener_addr: NeighborAddr,
    pub routing_table: Vec<RouteRecord>,
}

impl Shared {
    /// The table invariants: one row per target, and never a row for
    /// this node itself; the peer list holds one key per live
    /// connection.
    pub open spec fn wf(self) -> bool {
        &&& unique_targets(records_view(self.routing_table@))
        &&& forall|i: int|
            0 <= i < self.routing_table@.len() ==> (#[trigger] records_view(self.routing_table@)[i]).target
                != self.listener_addr@
        &&& forall|i: int, j: int|
            0 <= i < j < self.peers@.len() ==> addrs_view(self.peers@)[i] != addrs_view(
                self.peers@,
            )[j]
    }

    /// A fresh node state with the default nickname and listener
    /// address.
    pub fn new() -> (r: Shared)
        ensures
            r.wf(),
            r.routing_table@.len() == 0,
            r.peers@.len() == 0,
            r.nickname@ == "Morganite"@,
            r.listener_addr@.ip == "127.0.0.1"@,
            r.listener_addr@.port == 6142,
    {
        Shared {
            peers: Vec::new(),
            nickname: "Morganite".to_owned(),
            listener_addr: NeighborAddr::new("127.0.0.1".to_owned(), 6142),
            routing_table: Vec::new(),
        }
    }

    /// The first row for `t`, if any.
    fn find_index(&self, t: &NeighborAddr) -> (r: Option<usize>)
        ensures
            match r {
                Some(k) => k < self.routing_table@.len() && records_view(self.routing_table@)[
                    k as int
                ].target == t@ && spec_find(records_view(self.routing_table@), t@) == Some(
                    records_view(self.routing_table@)[k as int].entry,
                ),
                None => spec_find(records_view(self.routing_table@), t@) is None,
            },
    {
        let n = self.routing_table.len();
        let mut k: usize = 0;
        while k < n
            invariant
                k <= n,
                n == self.routing_table@.len(),
                forall|i: int|
                    0 <= i < k ==> (#[trigger] records_view(self.routing_table@)[i]).target != t@,
            decreases n - k,
        {
            if self.routing_table[k].target.eq(t) {
                proof {
                    lemma_find_at(records_view(self.routing_table@), t@, k as int);
                }
                return Some(k);
            }
            k = k + 1;
        }
        proof {
            lemma_find_none(records_view(self.routing_table@), t@);
        }
        None
    }

    /// The stored entry for a target, cloned.
    pub fn get_entry(&self, t: &NeighborAddr) -> (r: Option<RoutingTableEntry>)
        ensures
            match r {
                Some(e) => spec_find(records_view(self.routing_table@), t@) == Some(e@),
                None => spec_find(records_view(self.routing_table@), t@) is None,
            },
    {
        match self.find_index(t) {
            Some(k) => {
                let rec = &self.routing_table[k];
                Some(
                    RoutingTableEntry {
                        next: rec.entry.next.dup(),
                        hop_count: rec.entry.hop_count,
                        ttl: rec.entry.ttl,
                    },
                )
            },
            None => None,
        }
    }

    /// Rewrites row `k`.
    fn replace_at(&mut self, k: usize, rec: RouteRecord)
        requires
            k < old(self).routing_table@.len(),
        ensures
            final(self).routing_table@ == old(self).routing_table@.update(k as int, rec),
            final(self).peers == old(self).peers,
            final(self).nickname == old(self).nickname,
            final(self).listener_addr == old(self).listener_addr,
    {
        self.routing_table.remove(k);
        self.routing_table.insert(k, rec);
        proof {
            assert(self.routing_table@ =~= old(self).routing_table@.update(k as int, rec));
        }
    }

    /// Builds the table advertised to neighbor `target`: strict split
    /// horizon with the node itself as the announced next hop.
    pub fn get_routing_table(&self, target: &NeighborAddr, local: &NeighborAddr) -> (r: Vec<
        RoutingEntry,
    >)
        ensures
            entries_view(r@) == spec_advertise(records_view(self.routing_table@), target@, local@),
    {
        let mut out: Vec<RoutingEntry> = Vec::new();
        let n = self.routing_table.len();
        let ghost tv = records_view(self.routing_table@);
        let mut k: usize = 0;
        proof {
            assert(tv.take(0) =~= Seq::<RouteRecordV>::empty());
            assert(entries_view(out@) =~= Seq::<RoutingEntryV>::empty());
        }
        while k < n
            invariant
                k <= n,
                n == self.routing_table@.len(),
                tv == records_view(self.routing_table@),
                entries_view(out@) == spec_advertise(tv.take(k as int), target@, local@),
            decreases n - k,
        {
            let rec = &self.routing_table[k];
            let ghost out0 = entries_view(out@);
            if !rec.target.eq(target) && !rec.entry.next.eq(target) {
                let hop = rec.entry.hop_count;
                let adv: i32 = if hop == POISE_UNREACHABLE {
                    hop
                } else if hop == i32::MAX {
                    hop
                } else {
                    hop + 1
                };
                out.push(
                    RoutingEntry {
                        target_ip: rec.target.ip.clone(),
                        target_port: rec.target.port,
                        next_ip: local.ip.clone(),
                        next_port: local.port,
                        hop_count: adv,
                    },
                );
                proof {
                    assert(entries_view(out@) =~= out0.push(spec_wire_of(tv[k as int], local@)));
                }
            }
            proof {
                assert(tv.take(k as int + 1).drop_last() =~= tv.take(k as int));
                assert(tv.take(k as int + 1).last() == tv[k as int]);
                if spec_advertised_to(tv[k as int], target@) {
                    assert(entries_view(out@) =~= spec_advertise(tv.take(k as int), target@, local@)
                        + seq![spec_wire_of(tv[k as int], local@)]);
                } else {
                    assert(entries_view(out@) =~= spec_advertise(
                        tv.take(k as int),
                        target@,
                        local@,
                    ) + Seq::<RoutingEntryV>::empty());
                }
            }
            k = k + 1;
        }
        proof {
            assert(tv.take(n as int) =~= tv);
        }
        out
    }

    /// Applies a received advertisement row by row; yields how many
    /// rows named this node and were refused.
    pub fn update_routing_table(&mut self, update: &Vec<RoutingEntry>, sender: &NeighborAddr) -> (r:
        usize)
        requires
            old(self).wf(),
        ensures
            final(self).wf(),
            records_view(final(self).routing_table@) == spec_apply_all(
                records_view(old(self).routing_table@),
                entries_view(update@),
                sender@,
                old(self).listener_addr@,
            ),
            r as nat == spec_reject_count(entries_view(update@), old(self).listener_addr@),
            final(self).peers == old(self).peers,
            final(self).nickname == old(self).nickname,
            final(self).listener_addr == old(self).listener_addr,
    {
        let n = update.len();
        let ghost uv = entries_view(update@);
        let ghost local = old(self).listener_addr@;
        let ghost sv = sender@;
        let mut rejected: usize = 0;
        let mut k: usize = 0;
        proof {
            assert(uv.skip(0) =~= uv);
        }
        while k < n
            invariant
                k <= n,
                n == update@.len(),
                uv == entries_view(update@),
                local == self.listener_addr@,
                sv == sender@,
                self.wf(),
                spec_apply_all(records_view(old(self).routing_table@), uv, sv, local)
                    == spec_apply_all(records_view(self.routing_table@), uv.skip(k as int), sv, local),
                rejected as nat + spec_reject_count(uv.skip(k as int), local) == spec_reject_count(
                    uv,
                    local,
                ),
                rejected <= k,
                self.peers == old(self).peers,
                self.nickname == old(self).nickname,
                self.listener_addr == old(self).listener_addr,
            decreases n - k,
        {
            let e = &update[k];
            let ghost pre = records_view(self.routing_table@);
            let ghost ev = uv[k as int];
            proof {
                assert(ev == update@[k as int]@);
                assert(uv.skip(k as int)[0] == ev);
                assert(uv.skip(k as int).drop_first() =~= uv.skip(k as int + 1));
            }
            let wt = NeighborAddr::new(e.target_ip.clone(), e.target_port);
            let wn = NeighborAddr::new(e.next_ip.clone(), e.next_port);
            if wt.eq(&self.listener_addr) || wn.eq(&self.listener_addr) {
                rejected = rejected + 1;
                proof {
                    assert(spec_apply_one(pre, ev, sv, local) == pre);
                }
            } else {
                match self.find_index(&wt) {
                    None => {
                        let rec = RouteRecord {
                            target: wt,
                            entry: RoutingTableEntry {
                                next: sender.dup(),
                                hop_count: e.hop_count,
                                ttl: true,
                            },
                        };
                        let ghost recv = rec@;
                        self.routing_table.push(rec);
                        proof {
                            assert(records_view(self.routing_table@) =~= pre.push(recv));
                            assert(pre.push(recv) == spec_apply_one(pre, ev, sv, local));
                            lemma_find_none_push_wf(pre, recv.target, recv.entry, local);
                        }
                    },
                    Some(idx) => {
                        if e.hop_count <= self.routing_table[idx].entry.hop_count {
                            let rec = RouteRecord {
                                target: wt,
                                entry: RoutingTableEntry {
                                    next: sender.dup(),
                                    hop_count: e.hop_count,
                                    ttl: true,
                                },
                            };
                            let ghost recv = rec@;
                            self.replace_at(idx, rec);
                            proof {
                                lemma_replace_is_update(pre, recv.target, recv.entry, idx as int);
                                assert(records_view(self.routing_table@) =~= pre.update(
                                    idx as int,
                                    recv,
                                ));
                                assert(records_view(self.routing_table@) == spec_replace(
                                    pre,
                                    recv.target,
                                    recv.entry,
                                ));
                                lemma_replace_wf(pre, recv.target, recv.entry, local);
                            }
                        } else {
                            proof {
                                assert(spec_apply_one(pre, ev, sv, local) == pre);
                            }
                        }
                    },
                }
            }
            k = k + 1;
        }
        proof {
            assert(uv.skip(n as int) =~= Seq::<RoutingEntryV>::empty());
        }
        rejected
    }

    /// Installs or rewrites the direct route to a neighbor, as on a
    /// connect request or an outbound connect.
    pub fn insert_direct(&mut self, target: &NeighborAddr, next: &NeighborAddr, hop_count: i32)
        requires
            old(self).wf(),
            target@ != old(self).listener_addr@,
        ensures
            final(self).wf(),
            records_view(final(self).routing_table@) == spec_insert(
                records_view(old(self).routing_table@),
                target@,
                RoutingTableEntryV { next: next@, hop_count, ttl: true },
            ),
            final(self).peers == old(self).peers,
            final(self).nickname == old(self).nickname,
            final(self).listener_addr == old(self).listener_addr,
    {
        let ghost pre = records_view(self.routing_table@);
        match self.find_index(target) {
            None => {
                let entry = RoutingTableEntry { next: next.dup(), hop_count, ttl: true };
                let rec = RouteRecord { target: target.dup(), entry };
                let ghost recv = rec@;
                self.routing_table.push(rec);
                proof {
                    assert(records_view(self.routing_table@) =~= pre.push(recv));
                    lemma_find_none_push_wf(pre, recv.target, recv.entry, self.listener_addr@);
                }
            },
            Some(idx) => {
                let entry = RoutingTableEntry { next: next.dup(), hop_count, ttl: true };
                let rec = RouteRecord { target: target.dup(), entry };
                let ghost recv = rec@;
                self.replace_at(idx, rec);
                proof {
                    lemma_replace_is_update(pre, recv.target, recv.entry, idx as int);
                    assert(records_view(self.routing_table@) =~= pre.update(idx as int, recv));
                    assert(records_view(self.routing_table@) == spec_replace(
                        pre,
                        recv.target,
                        recv.entry,
                    ));
                    lemma_replace_wf(pre, recv.target, recv.entry, self.listener_addr@);
                }
            },
        }
    }

    /// The heartbeat's aging step: poison what stayed silent, clear
    /// every liveness flag.
    #[verifier::loop_isolation(false)]
    pub fn age_routing_table(&mut self)
        requires
            old(self).wf(),
        ensures
            final(self).wf(),
            records_view(final(self).routing_table@) == spec_age(
                records_view(old(self).routing_table@),
            ),
            final(self).peers == old(self).peers,
            final(self).nickname == old(self).nickname,
            final(self).listener_addr == old(self).listener_addr,
    {
        let ghost pre = records_view(self.routing_table@);
        let n = self.routing_table.len();
        let mut k: usize = 0;
        proof {
            assert(spec_age(pre).skip(0) =~= spec_age(pre));
        }
        while k < n
            invariant
                k <= n,
                n == self.routing_table@.len(),
                records_view(self.routing_table@) =~= spec_age(pre).take(k as int) + pre.skip(
                    k as int,
                ),
                self.peers == old(self).peers,
                self.nickname == old(self).nickname,
                self.listener_addr == old(self).listener_addr,
            decreases n - k,
        {
            let rec = &self.routing_table[k];
            let newrec = RouteRecord {
                target: rec.target.dup(),
                entry: RoutingTableEntry {
                    next: rec.entry.next.dup(),
                    hop_count: if rec.entry.ttl {
                        rec.entry.hop_count
                    } else {
                        POISE_UNREACHABLE
                    },
                    ttl: false,
                },
            };
            let ghost nv = newrec@;
            proof {
                assert((records_view(self.routing_table@))[k as int] == pre[k as int]);
                assert(nv == spec_age(pre)[k as int]);
            }
            let ghost curv = records_view(self.routing_table@);
            self.replace_at(k, newrec);
            proof {
                assert(records_view(self.routing_table@) =~= curv.update(k as int, nv));
                assert(curv.update(k as int, nv) =~= spec_age(pre).take(k as int + 1)
                    + pre.skip(k as int + 1));
            }
            k = k + 1;
        }
        proof {
            assert(records_view(self.routing_table@) =~= spec_age(pre));
            lemma_pointwise_wf(pre, spec_age(pre), self.listener_addr@);
        }
    }

    /// Poison reverse on losing the connection to `remote`.
    #[verifier::loop_isolation(false)]
    #[verifier::rlimit(100)]
    #[verifier::spinoff_prover]
    pub fn poison_routes_through(&mut self, remote: &NeighborAddr)
        requires
            old(self).wf(),
        ensures
            final(self).wf(),
            records_view(final(self).routing_table@) == spec_poison_from(
                records_view(old(self).routing_table@),
                remote@,
            ),
            final(self).peers == old(self).peers,
            final(self).nickname == old(self).nickname,
            final(self).listener_addr == old(self).listener_addr,
    {
        let ghost pre = records_view(self.routing_table@);
        let ghost rv = remote@;
        let n = self.routing_table.len();
        let mut k: usize = 0;
        while k < n
            invariant
                k <= n,
                n == self.routing_table@.len(),
                records_view(self.routing_table@) =~= spec_poison_from(pre, rv).take(k as int)
                    + pre.skip(k as int),
                self.peers == old(self).peers,
                self.nickname == old(self).nickname,
                self.listener_addr == old(self).listener_addr,
            decreases n - k,
        {
            let rec = &self.routing_table[k];
            let newrec = RouteRecord {
                target: rec.target.dup(),
                entry: RoutingTableEntry {
                    next: rec.entry.next.dup(),
                    hop_count: if rec.entry.next.eq(remote) {
                        POISE_UNREACHABLE
                    } else {
                        rec.entry.hop_count
                    },
                    ttl: rec.entry.ttl,
                },
            };
            let ghost nv = newrec@;
            proof {
                assert((records_view(self.routing_table@))[k as int] == pre[k as int]);
                assert(nv == spec_poison_from(pre, rv)[k as int]);
            }
            let ghost curv = records_view(self.routing_table@);
            self.replace_at(k, newrec);
            proof {
                assert(records_view(self.routing_table@) =~= curv.update(k as int, nv));
                assert(curv.update(k as int, nv) =~= spec_poison_from(pre, rv).take(
                    k as int + 1,
                ) + pre.skip(k as int + 1));
            }
            k = k + 1;
        }
        proof {
            assert(records_view(self.routing_table@) =~= spec_poison_from(pre, rv));
            lemma_pointwise_wf(pre, spec_poison_from(pre, rv), self.listener_addr@);
        }
    }

    /// Every route poisoned, as on quitting.
    #[verifier::loop_isolation(false)]
    pub fn poison_all_routes(&mut self)
        requires
            old(self).wf(),
        ensures
            final(self).wf(),
            records_view(final(self).routing_table@) == spec_poison_all(
                records_view(old(self).routing_table@),
            ),
            final(self).peers == old(self).peers,
            final(self).nickname == old(self).nickname,
            final(self).listener_addr == old(self).listener_addr,
    {
        let ghost pre = records_view(self.routing_table@);
        let n = self.routing_table.len();
        let mut k: usize = 0;
        while k < n
            invariant
                k <= n,
                n == self.routing_table@.len(),
                records_view(self.routing_table@) =~= spec_poison_all(pre).take(k as int)
                    + pre.skip(k as int),
                self.peers == old(self).peers,
                self.nickname == old(self).nickname,
                self.listener_addr == old(self).listener_addr,
            decreases n - k,
        {
            let rec = &self.routing_table[k];
            let newrec = RouteRecord {
                target: rec.target.dup(),
                entry: RoutingTableEntry {
                    next: rec.entry.next.dup(),
                    hop_count: POISE_UNREACHABLE,
                    ttl: rec.entry.ttl,
                },
            };
            let ghost nv = newrec@;
            proof {
                assert((records_view(self.routing_table@))[k as int] == pre[k as int]);
                assert(nv == spec_poison_all(pre)[k as int]);
            }
            let ghost curv = records_view(self.routing_table@);
            self.replace_at(k, newrec);
            proof {
                assert(records_view(self.routing_table@) =~= curv.update(k as int, nv));
                assert(curv.update(k as int, nv) =~= spec_poison_all(pre).take(k as int + 1)
                    + pre.skip(k as int + 1));
            }
            k = k + 1;
        }
        proof {
            assert(records_view(self.routing_table@) =~= spec_poison_all(pre));
            lemma_pointwise_wf(pre, spec_poison_all(pre), self.listener_addr@);
        }
    }

    /// Marks the route whose target answered a probe as alive.
    #[verifier::loop_isolation(false)]
    pub fn mark_alive(&mut self, target: &NeighborAddr)
        requires
            old(self).wf(),
        ensures
            final(self).wf(),
            records_view(final(self).routing_table@) == spec_mark_alive(
                records_view(old(self).routing_table@),
                target@,
            ),
            final(self).peers == old(self).peers,
            final(self).nickname == old(self).nickname,
            final(self).listener_addr == old(self).listener_addr,
    {
        let ghost pre = records_view(self.routing_table@);
        let ghost tv = target@;
        let n = self.routing_table.len();
        let mut k: usize = 0;
        while k < n
            invariant
                k <= n,
                n == self.routing_table@.len(),
                records_view(self.routing_table@) =~= spec_mark_alive(pre, tv).take(k as int)
                    + pre.skip(k as int),
                self.peers == old(self).peers,
                self.nickname == old(self).nickname,
                self.listener_addr == old(self).listener_addr,
            decreases n - k,
        {
            let rec = &self.routing_table[k];
            let newrec = RouteRecord {
                target: rec.target.dup(),
                entry: RoutingTableEntry {
                    next: rec.entry.next.dup(),
                    hop_count: rec.entry.hop_count,
                    ttl: if rec.target.eq(target) {
                        true
                    } else {
                        rec.entry.ttl
                    },
                },
            };
            let ghost nv = newrec@;
            proof {
                assert((records_view(self.routing_table@))[k as int] == pre[k as int]);
                assert(nv == spec_mark_alive(pre, tv)[k as int]);
            }
            let ghost curv = records_view(self.routing_table@);
            self.replace_at(k, newrec);
            proof {
                assert(records_view(self.routing_table@) =~= curv.update(k as int, nv));
                assert(curv.update(k as int, nv) =~= spec_mark_alive(pre, tv).take(
                    k as int + 1,
                ) + pre.skip(k as int + 1));
            }
            k = k + 1;
        }
        proof {
            assert(records_view(self.routing_table@) =~= spec_mark_alive(pre, tv));
            lemma_pointwise_wf(pre, spec_mark_alive(pre, tv), self.listener_addr@);
        }
    }

    /// The peer-channel key a message for `dest` must be handed to:
    /// the destination itself on a direct link, else the next hop.
    pub fn resolve_message_target(&self, dest: &NeighborAddr) -> (r: Option<NeighborAddr>)
        ensures
            match spec_find(records_view(self.routing_table@), dest@) {
                None => r is None,
                Some(e) => (match r {
                    Some(a) => a@ == (if e.next == self.listener_addr@ {
                        dest@
                    } else {
                        e.next
                    }),
                    None => false,
                }),
            },
    {
        match self.find_index(dest) {
            None => None,
            Some(k) => {
                let rec = &self.routing_table[k];
                if rec.entry.next.eq(&self.listener_addr) {
                    Some(dest.dup())
                } else {
                    Some(rec.entry.next.dup())
                }
            },
        }
    }

    /// True when a direct connection to `addr` already stands.
    pub fn already_connected(&self, addr: &NeighborAddr) -> (r: bool)
        ensures
            r == (match spec_find(records_view(self.routing_table@), addr@) {
                Some(e) => e.hop_count == 1,
                None => false,
            }),
    {
        match self.find_index(addr) {
            None => false,
            Some(k) => self.routing_table[k].entry.hop_count == 1,
        }
    }

    /// Records the peer channel of a connection task that starts.
    #[verifier::loop_isolation(false)]
    pub fn register_peer(&mut self, addr: &NeighborAddr)
        requires
            old(self).wf(),
        ensures
            final(self).wf(),
            addrs_view(final(self).peers@).contains(addr@),
            forall|a: NeighborAddrV|
                #[trigger] addrs_view(final(self).peers@).contains(a) <==> (addrs_view(
                    old(self).peers@,
                ).contains(a) || a == addr@),
            final(self).routing_table == old(self).routing_table,
            final(self).nickname == old(self).nickname,
            final(self).listener_addr == old(self).listener_addr,
    {
        let n = self.peers.len();
        let mut k: usize = 0;
        while k < n
            invariant
                k <= n,
                n == self.peers@.len(),
                forall|i: int| 0 <= i < k ==> addrs_view(self.peers@)[i] != addr@,
            decreases n - k,
        {
            if self.peers[k].eq(addr) {
                proof {
                    assert(addrs_view(self.peers@)[k as int] == addr@);
                    assert(addrs_view(self.peers@).contains(addr@));
                }
                return ;
            }
            k = k + 1;
        }
        let ghost pre = addrs_view(self.peers@);
        self.peers.push(addr.dup());
        proof {
            assert(addrs_view(self.peers@) =~= pre.push(addr@));
            assert(addrs_view(self.peers@)[pre.len() as int] == addr@);
            assert(addrs_view(self.peers@).contains(addr@));
            assert forall|a: NeighborAddrV| #[trigger]
                addrs_view(self.peers@).contains(a) implies (pre.contains(a) || a == addr@) by {
                let i = choose|i: int|
                    0 <= i < addrs_view(self.peers@).len() && addrs_view(self.peers@)[i] == a;
                if i < pre.len() {
                    assert(pre[i] == a);
                }
            }
            assert forall|a: NeighborAddrV| pre.contains(a) implies #[trigger] addrs_view(
                self.peers@,
            ).contains(a) by {
                let i = choose|i: int| 0 <= i < pre.len() && pre[i] == a;
                assert(addrs_view(self.peers@)[i] == a);
            }
        }
    }

    /// Removes the peer channel of a connection task that exits.
    #[verifier::loop_isolation(false)]
    #[verifier::rlimit(100)]
    #[verifier::spinoff_prover]
    pub fn remove_peer(&mut self, addr: &NeighborAddr)
        requires
            old(self).wf(),
        ensures
            final(self).wf(),
            !addrs_view(final(self).peers@).contains(addr@),
            forall|a: NeighborAddrV|
                #[trigger] addrs_view(final(self).peers@).contains(a) <==> (addrs_view(
                    old(self).peers@,
                ).contains(a) && a != addr@),
            final(self).routing_table == old(self).routing_table,
            final(self).nickname == old(self).nickname,
            final(self).listener_addr == old(self).listener_addr,
    {
        let mut kept: Vec<NeighborAddr> = Vec::new();
        let n = self.peers.len();
        let mut k: usize = 0;
        while k < n
            invariant
                k <= n,
                n == self.peers@.len(),
                forall|i: int|
                    0 <= i < addrs_view(kept@).len() ==> #[trigger] addrs_view(kept@)[i] != addr@,
                forall|i: int|
                    0 <= i < addrs_view(kept@).len() ==> addrs_view(self.peers@).take(
                        k as int,
                    ).contains(#[trigger] addrs_view(kept@)[i]),
                forall|a: NeighborAddrV|
                    #[trigger] addrs_view(self.peers@).take(k as int).contains(a) && a != addr@
                        ==> addrs_view(kept@).contains(a),
                forall|i: int, j: int|
                    0 <= i < j < addrs_view(kept@).len() ==> addrs_view(kept@)[i] != addrs_view(
                        kept@,
                    )[j],
            decreases n - k,
        {
            let ghost prek = addrs_view(kept@);
            let ghost pv = addrs_view(self.peers@);
            if !self.peers[k].eq(addr) {
                let a = self.peers[k].dup();
                kept.push(a);
                proof {
                    assert(addrs_view(kept@) =~= prek.push(pv[k as int]));
                }
            }
            proof {
                assert(pv.take(k as int + 1) =~= pv.take(k as int).push(pv[k as int]));
                assert forall|a: NeighborAddrV| #[trigger]
                    pv.take(k as int + 1).contains(a) && a != addr@ implies addrs_view(
                    kept@,
                ).contains(a) by {
                    let i = choose|i: int|
                        0 <= i < pv.take(k as int + 1).len() && #[trigger] pv.take(
                            k as int + 1,
                        )[i] == a;
                    if i < k {
                        assert(pv.take(k as int).contains(a));
                        let i2 = choose|i2: int|
                            0 <= i2 < prek.len() && prek[i2] == a;
                        assert(addrs_view(kept@)[i2] == a);
                    } else {
                        assert(pv[k as int] == a);
                        assert(addrs_view(kept@)[prek.len() as int] == a);
                    }
                }
                assert forall|i: int|
                    0 <= i < addrs_view(kept@).len() implies addrs_view(self.peers@).take(
                    k as int + 1,
                ).contains(#[trigger] addrs_view(kept@)[i]) by {
                    if i < prek.len() {
                        assert(pv.take(k as int).contains(prek[i]));
                        let i2 = choose|i2: int|
                            0 <= i2 < pv.take(k as int).len() && pv.take(k as int)[i2] == prek[i];
                        assert(pv.take(k as int + 1)[i2] == prek[i]);
                    } else {
                        assert(addrs_view(kept@)[i] == pv[k as int]);
                        assert(pv.take(k as int + 1)[k as int] == pv[k as int]);
                    }
                }
                assert forall|i: int, j: int|
                    0 <= i < j < addrs_view(kept@).len() implies addrs_view(kept@)[i] != addrs_view(
                    kept@,
                )[j] by {
                    if j == addrs_view(kept@).len() - 1 && addrs_view(kept@).len() > prek.len() {
                        assert(pv.take(k as int).contains(addrs_view(kept@)[i]));
                        let i2 = choose|i2: int|
                            0 <= i2 < k && pv.take(k as int)[i2] == addrs_view(kept@)[i];
                        assert(pv[i2] == addrs_view(kept@)[i]);
                        assert(pv[i2] != pv[k as int]);
                    }
                }
            }
            k = k + 1;
        }
        proof {
            assert(addrs_view(self.peers@).take(n as int) =~= addrs_view(self.peers@));
        }
        self.peers = kept;
        proof {
            assert forall|a: NeighborAddrV| #[trigger]
                addrs_view(self.peers@).contains(a) implies a != addr@ by {}
            if addrs_view(self.peers@).contains(addr@) {
                assert(false);
            }
        }
    }

    /// A copy of the routing table for the user interface.
    pub fn routing_snapshot(&self) -> (r: Vec<RouteRecord>)
        ensures
            records_view(r@) == records_view(self.routing_table@),
    {
        let mut out: Vec<RouteRecord> = Vec::new();
        let n = self.routing_table.len();
        let mut k: usize = 0;
        while k < n
            invariant
                k <= n,
                n == self.routing_table@.len(),
                records_view(out@) =~= records_view(self.routing_table@).take(k as int),
            decreases n - k,
        {
            let rec = &self.routing_table[k];
            let ghost pre = records_view(out@);
            out.push(
                RouteRecord {
                    target: rec.target.dup(),
                    entry: RoutingTableEntry {
                        next: rec.entry.next.dup(),
                        hop_count: rec.entry.hop_count,
                        ttl: rec.entry.ttl,
                    },
                },
            );
            proof {
                assert(records_view(out@) =~= pre.push(
                    records_view(self.routing_table@)[k as int],
                ));
                assert(records_view(out@) =~= records_view(self.routing_table@).take(k as int + 1));
            }
            k = k + 1;
        }
        proof {
            assert(records_view(self.routing_table@).take(n as int) =~= records_view(
                self.routing_table@,
            ));
        }
        out
    }
}

/// A rewrite that keeps every row's target keeps the invariants.
proof fn lemma_pointwise_wf(pre: Seq<RouteRecordV>, post: Seq<RouteRecordV>, local: NeighborAddrV)
    requires
        unique_targets(pre),
        forall|i: int| 0 <= i < pre.len() ==> (#[trigger] pre[i]).target != local,
        post.len() == pre.len(),
        forall|i: int| 0 <= i < post.len() ==> (#[trigger] post[i]).target == pre[i].target,
    ensures
        unique_targets(post),
        forall|i: int| 0 <= i < post.len() ==> (#[trigger] post[i]).target != local,
{
}

// ---------------------------------------------------------------------
// lemmas about finding, replacing and well-formedness
// ---------------------------------------------------------------------

/// A first match at `k` is what the scan finds.
pub proof fn lemma_find_at(s: Seq<RouteRecordV>, t: NeighborAddrV, k: int)
    requires
        0 <= k < s.len(),
        s[k].target == t,
        forall|i: int| 0 <= i < k ==> (#[trigger] s[i]).target != t,
    ensures
        spec_find(s, t) == Some(s[k].entry),
    decreases k,
{
    if k == 0 {
    } else {
        assert(s[0].target != t);
        assert(s.drop_first()[k - 1] == s[k]);
        assert(forall|i: int| 0 <= i < k - 1 ==> (#[trigger] s.drop_first()[i]).target != t);
        lemma_find_at(s.drop_first(), t, k - 1);
    }
}

/// No match anywhere means the scan finds nothing.
pub proof fn lemma_find_none(s: Seq<RouteRecordV>, t: NeighborAddrV)
    requires
        forall|i: int| 0 <= i < s.len() ==> (#[trigger] s[i]).target != t,
    ensures
        spec_find(s, t) is None,
    decreases s.len(),
{
    if s.len() > 0 {
        lemma_find_none(s.drop_first(), t);
    }
}

/// A found target has a row.
pub proof fn lemma_find_some_index(s: Seq<RouteRecordV>, t: NeighborAddrV)
    requires
        spec_find(s, t) is Some,
    ensures
        exists|i: int|
            0 <= i < s.len() && (#[trigger] s[i]).target == t && s[i].entry == spec_find(
                s,
                t,
            )->Some_0,
    decreases s.len(),
{
    if s.len() > 0 {
        if s[0].target == t {
            assert(0 <= 0 < s.len() && s[0].target == t && s[0].entry == spec_find(s, t)->Some_0);
        } else {
            lemma_find_some_index(s.drop_first(), t);
            let i = choose|i: int|
                0 <= i < s.drop_first().len() && (#[trigger] s.drop_first()[i]).target == t
                    && s.drop_first()[i].entry == spec_find(s.drop_first(), t)->Some_0;
            assert(s[i + 1] == s.drop_first()[i]);
        }
    }
}

/// With unique targets, replacing the row for a present target is a
/// point update.
pub proof fn lemma_replace_is_update(
    s: Seq<RouteRecordV>,
    t: NeighborAddrV,
    e: RoutingTableEntryV,
    k: int,
)
    requires
        unique_targets(s),
        0 <= k < s.len(),
        s[k].target == t,
    ensures
        spec_replace(s, t, e) == s.update(k, RouteRecordV { target: t, entry: e }),
{
    assert forall|i: int| 0 <= i < s.len() implies spec_replace(s, t, e)[i] == s.update(
        k,
        RouteRecordV { target: t, entry: e },
    )[i] by {
        if i != k {
            assert(s[i].target != t);
        }
    }
    assert(spec_replace(s, t, e) =~= s.update(k, RouteRecordV { target: t, entry: e }));
}

/// Replacing keeps uniqueness and never touches the node's own
/// address.
pub proof fn lemma_replace_wf(
    s: Seq<RouteRecordV>,
    t: NeighborAddrV,
    e: RoutingTableEntryV,
    local: NeighborAddrV,
)
    requires
        unique_targets(s),
        forall|i: int| 0 <= i < s.len() ==> (#[trigger] s[i]).target != local,
        t != local,
    ensures
        unique_targets(spec_replace(s, t, e)),
        forall|i: int|
            0 <= i < spec_replace(s, t, e).len() ==> (#[trigger] spec_replace(s, t, e)[i]).target
                != local,
{
    let s2 = spec_replace(s, t, e);
    assert forall|i: int| 0 <= i < s2.len() implies (#[trigger] s2[i]).target != local by {
        if s[i].target == t {
            assert(s2[i].target == t);
        } else {
            assert(s2[i] == s[i]);
        }
    }
    assert forall|i: int, j: int| 0 <= i < j < s2.len() implies s2[i].target != s2[j].target by {
        assert(s2[i].target == s[i].target);
        assert(s2[j].target == s[j].target);
    }
}

/// Pushing a row for an absent target keeps uniqueness and the
/// no-self-route property.
pub proof fn lemma_find_none_push_wf(
    s: Seq<RouteRecordV>,
    t: NeighborAddrV,
    e: RoutingTableEntryV,
    local: NeighborAddrV,
)
    requires
        unique_targets(s),
        forall|i: int| 0 <= i < s.len() ==> (#[trigger] s[i]).target != local,
        spec_find(s, t) is None,
        t != local,
    ensures
        unique_targets(s.push(RouteRecordV { target: t, entry: e })),
        forall|i: int|
            0 <= i < s.push(RouteRecordV { target: t, entry: e }).len() ==> (#[trigger] s.push(
                RouteRecordV { target: t, entry: e },
            )[i]).target != local,
{
    let s2 = s.push(RouteRecordV { target: t, entry: e });
    lemma_find_none_no_index(s, t);
    assert forall|i: int, j: int| 0 <= i < j < s2.len() implies s2[i].target != s2[j].target by {
        if j == s.len() {
            assert(s2[i] == s[i]);
            assert(s2[j].target == t);
        } else {
            assert(s2[i] == s[i] && s2[j] == s[j]);
        }
    }
    assert forall|i: int| 0 <= i < s2.len() implies (#[trigger] s2[i]).target != local by {
        if i == s.len() {
            assert(s2[i].target == t);
        } else {
            assert(s2[i] == s[i]);
        }
    }
}

/// Finding nothing means no row matches.
pub proof fn lemma_find_none_no_index(s: Seq<RouteRecordV>, t: NeighborAddrV)
    requires
        spec_find(s, t) is None,
    ensures
        forall|i: int| 0 <= i < s.len() ==> (#[trigger] s[i]).target != t,
    decreases s.len(),
{
    if s.len() > 0 {
        lemma_find_none_no_index(s.drop_first(), t);
        assert forall|i: int| 0 <= i < s.len() implies (#[trigger] s[i]).target != t by {
            if i > 0 {
                assert(s.drop_first()[i - 1] == s[i]);
            }
        }
    }
}

// ---------------------------------------------------------------------
// laws of the routing engine
// ---------------------------------------------------------------------

/// Split horizon with the sender as announced next hop: an
/// advertisement built for neighbor `target` never carries a route to
/// `target` itself and names only `local` as the next hop. A stored
/// route whose next hop is `target` is never advertised back to it:
/// `spec_advertise` keeps only the rows that `spec_advertised_to`
/// admits, which refuses both the row for `target` and every row
/// through it.
pub proof fn lemma_split_horizon(s: Seq<RouteRecordV>, target: NeighborAddrV, local: NeighborAddrV)
    ensures
        forall|k: int|
            0 <= k < spec_advertise(s, target, local).len() ==> wire_target(
                #[trigger] spec_advertise(s, target, local)[k],
            ) != target,
        forall|k: int|
            0 <= k < spec_advertise(s, target, local).len() ==> wire_next(
                #[trigger] spec_advertise(s, target, local)[k],
            ) == local,
    decreases s.len(),
{
    if s.len() > 0 {
        lemma_split_horizon(s.drop_last(), target, local);
        let adv = spec_advertise(s, target, local);
        let advp = spec_advertise(s.drop_last(), target, local);
        assert forall|k: int| 0 <= k < adv.len() implies wire_target(#[trigger] adv[k]) != target
            && wire_next(adv[k]) == local by {
            if k < advp.len() {
                assert(adv[k] == advp[k]);
            } else {
                assert(adv[k] == spec_wire_of(s.last(), local));
            }
        }
    }
}

/// No self-loop: a table that never stores the node's own address
/// has no row for it.
pub proof fn lemma_no_self_route(s: Seq<RouteRecordV>, local: NeighborAddrV)
    requires
        forall|i: int| 0 <= i < s.len() ==> (#[trigger] s[i]).target != local,
    ensures
        spec_find(s, local) is None,
{
    lemma_find_none(s, local);
}

/// Monotone hop acceptance: after one advertised entry is applied,
/// the stored distance for its target is at most the larger of the
/// old distance and the advertised one.
pub proof fn lemma_monotone_hop(
    s: Seq<RouteRecordV>,
    e: RoutingEntryV,
    sender: NeighborAddrV,
    local: NeighborAddrV,
)
    requires
        unique_targets(s),
    ensures
        ({
            let s2 = spec_apply_one(s, e, sender, local);
            match spec_find(s2, wire_target(e)) {
                None => true,
                Some(n) => match spec_find(s, wire_target(e)) {
                    Some(o) => n.hop_count <= max_i32(o.hop_count, e.hop_count),
                    None => n.hop_count == e.hop_count,
                },
            }
        }),
{
    let t = wire_target(e);
    let s2 = spec_apply_one(s, e, sender, local);
    if wire_target(e) == local || wire_next(e) == local {
    } else {
        match spec_find(s, t) {
            None => {
                let rec = RouteRecordV {
                    target: t,
                    entry: RoutingTableEntryV { next: sender, hop_count: e.hop_count, ttl: true },
                };
                lemma_find_none_no_index(s, t);
                lemma_find_at(s.push(rec), t, s.len() as int);
            },
            Some(o) => {
                if e.hop_count <= o.hop_count {
                    lemma_find_some_index(s, t);
                    let k = choose|k: int|
                        0 <= k < s.len() && (#[trigger] s[k]).target == t && s[k].entry == o;
                    lemma_replace_is_update(
                        s,
                        t,
                        RoutingTableEntryV { next: sender, hop_count: e.hop_count, ttl: true },
                        k,
                    );
                    lemma_find_at(
                        s.update(
                            k,
                            RouteRecordV {
                                target: t,
                                entry: RoutingTableEntryV {
                                    next: sender,
                                    hop_count: e.hop_count,
                                    ttl: true,
                                },
                            },
                        ),
                        t,
                        k,
                    );
                }
            },
        }
    }
}

/// The larger of two distances.
pub open spec fn max_i32(a: i32, b: i32) -> i32 {
    if a >= b {
        a
    } else {
        b
    }
}

/// Poison propagation: a neighbor that advertises only the
/// unreachable distance for a target leaves the receiver storing that
/// distance within the same heartbeat cycle. Either the advertisement
/// is accepted at once, or the untouched row fails its liveness check
/// and the aging step poisons it.
pub proof fn lemma_poison_propagation(
    s: Seq<RouteRecordV>,
    updates: Seq<RoutingEntryV>,
    sender: NeighborAddrV,
    local: NeighborAddrV,
    t: NeighborAddrV,
)
    requires
        unique_targets(s),
        forall|k: int|
            0 <= k < updates.len() && wire_target(#[trigger] updates[k]) == t ==> updates[k].hop_count
                == POISE_UNREACHABLE,
        match spec_find(s, t) {
            Some(o) => o.hop_count == POISE_UNREACHABLE || !o.ttl,
            None => true,
        },
    ensures
        ({
            let aged = spec_age(spec_apply_all(s, updates, sender, local));
            match spec_find(aged, t) {
                Some(n) => n.hop_count == POISE_UNREACHABLE,
                None => true,
            }
        }),
{
    lemma_poison_apply_all(s, updates, sender, local, t);
    let s2 = spec_apply_all(s, updates, sender, local);
    lemma_age_find(s2, t);
}

/// Applying an advertisement whose rows for `t` are all poisoned
/// leaves `t` poisoned or silent.
proof fn lemma_poison_apply_all(
    s: Seq<RouteRecordV>,
    updates: Seq<RoutingEntryV>,
    sender: NeighborAddrV,
    local: NeighborAddrV,
    t: NeighborAddrV,
)
    requires
        unique_targets(s),
        forall|k: int|
            0 <= k < updates.len() && wire_target(#[trigger] updates[k]) == t ==> updates[k].hop_count
                == POISE_UNREACHABLE,
        match spec_find(s, t) {
            Some(o) => o.hop_count == POISE_UNREACHABLE || !o.ttl,
            None => true,
        },
    ensures
        unique_targets(spec_apply_all(s, updates, sender, local)),
        match spec_find(spec_apply_all(s, updates, sender, local), t) {
            Some(o) => o.hop_count == POISE_UNREACHABLE || !o.ttl,
            None => true,
        },
    decreases updates.len(),
{
    if updates.len() > 0 {
        let e = updates[0];
        let s2 = spec_apply_one(s, e, sender, local);
        lemma_apply_one_unique(s, e, sender, local);
        lemma_apply_one_find(s, e, sender, local, t);
        assert(forall|k: int|
            0 <= k < updates.drop_first().len() && wire_target(
                #[trigger] updates.drop_first()[k],
            ) == t ==> updates.drop_first()[k].hop_count == POISE_UNREACHABLE);
        lemma_poison_apply_all(s2, updates.drop_first(), sender, local, t);
    }
}

/// One applied row keeps uniqueness.
pub proof fn lemma_apply_one_unique(
    s: Seq<RouteRecordV>,
    e: RoutingEntryV,
    sender: NeighborAddrV,
    local: NeighborAddrV,
)
    requires
        unique_targets(s),
    ensures
        unique_targets(spec_apply_one(s, e, sender, local)),
{
    let t = wire_target(e);
    if wire_target(e) == local || wire_next(e) == local {
    } else {
        match spec_find(s, t) {
            None => {
                let rec = RouteRecordV {
                    target: t,
                    entry: RoutingTableEntryV { next: sender, hop_count: e.hop_count, ttl: true },
                };
                lemma_find_none_no_index(s, t);
                let s2 = s.push(rec);
                assert forall|i: int, j: int| 0 <= i < j < s2.len() implies s2[i].target
                    != s2[j].target by {
                    if j == s.len() {
                        assert(s2[i] == s[i]);
                    } else {
                        assert(s2[i] == s[i] && s2[j] == s[j]);
                    }
                }
            },
            Some(o) => {
                if e.hop_count <= o.hop_count {
                    let ne = RoutingTableEntryV { next: sender, hop_count: e.hop_count, ttl: true };
                    let s2 = spec_replace(s, t, ne);
                    assert forall|i: int, j: int| 0 <= i < j < s2.len() implies s2[i].target
                        != s2[j].target by {
                        assert(s2[i].target == s[i].target);
                        assert(s2[j].target == s[j].target);
                    }
                }
            },
        }
    }
}

/// What one applied row does to the record for `t`, when every
/// advertised distance for `t` is the poison sentinel.
proof fn lemma_apply_one_find(
    s: Seq<RouteRecordV>,
    e: RoutingEntryV,
    sender: NeighborAddrV,
    local: NeighborAddrV,
    t: NeighborAddrV,
)
    requires
        unique_targets(s),
        wire_target(e) == t ==> e.hop_count == POISE_UNREACHABLE,
        match spec_find(s, t) {
            Some(o) => o.hop_count == POISE_UNREACHABLE || !o.ttl,
            None => true,
        },
    ensures
        match spec_find(spec_apply_one(s, e, sender, local), t) {
            Some(o) => o.hop_count == POISE_UNREACHABLE || !o.ttl,
            None => true,
        },
{
    let te = wire_target(e);
    let s2 = spec_apply_one(s, e, sender, local);
    if wire_target(e) == local || wire_next(e) == local {
    } else {
        match spec_find(s, te) {
            None => {
                let rec = RouteRecordV {
                    target: te,
                    entry: RoutingTableEntryV { next: sender, hop_count: e.hop_count, ttl: true },
                };
                lemma_find_none_no_index(s, te);
                if te == t {
                    lemma_find_at(s.push(rec), t, s.len() as int);
                } else {
                    lemma_push_other_find(s, rec, t);
                }
            },
            Some(o) => {
                if e.hop_count <= o.hop_count {
                    let ne = RoutingTableEntryV { next: sender, hop_count: e.hop_count, ttl: true };
                    lemma_find_some_index(s, te);
                    let k = choose|k: int|
                        0 <= k < s.len() && (#[trigger] s[k]).target == te && s[k].entry == o;
                    lemma_replace_is_update(s, te, ne, k);
                    let s3 = s.update(k, RouteRecordV { target: te, entry: ne });
                    if te == t {
                        lemma_find_at(s3, t, k);
                    } else {
                        lemma_update_other_find(s, k, RouteRecordV { target: te, entry: ne }, t);
                    }
                }
            },
        }
    }
}

/// Pushing a row for another target does not change what `t` maps
/// to.
proof fn lemma_push_other_find(s: Seq<RouteRecordV>, rec: RouteRecordV, t: NeighborAddrV)
    requires
        rec.target != t,
    ensures
        spec_find(s.push(rec), t) == spec_find(s, t),
    decreases s.len(),
{
    if s.len() == 0 {
        assert(s.push(rec)[0] == rec);
        assert(s.push(rec).drop_first() =~= Seq::<RouteRecordV>::empty());
        assert(spec_find(Seq::<RouteRecordV>::empty(), t) is None);
        assert(spec_find(s.push(rec), t) is None);
        assert(spec_find(s, t) is None);
    } else {
        assert(s.push(rec)[0] == s[0]);
        assert(s.push(rec).drop_first() =~= s.drop_first().push(rec));
        lemma_push_other_find(s.drop_first(), rec, t);
    }
}

/// Updating a row for another target does not change what `t` maps
/// to.
proof fn lemma_update_other_find(s: Seq<RouteRecordV>, k: int, rec: RouteRecordV, t: NeighborAddrV)
    requires
        0 <= k < s.len(),
        rec.target != t,
        s[k].target != t,
    ensures
        spec_find(s.update(k, rec), t) == spec_find(s, t),
    decreases s.len(),
{
    let s2 = s.update(k, rec);
    if k == 0 {
        assert(s2[0] == rec);
        assert(s2.drop_first() =~= s.drop_first());
    } else {
        assert(s2[0] == s[0]);
        assert(s2.drop_first() =~= s.drop_first().update(k - 1, rec));
        if s[0].target != t {
            lemma_update_other_find(s.drop_first(), k - 1, rec, t);
        }
    }
}

/// Aging turns a silent or already-poisoned row into a poisoned one.
proof fn lemma_age_find(s: Seq<RouteRecordV>, t: NeighborAddrV)
    requires
        match spec_find(s, t) {
            Some(o) => o.hop_count == POISE_UNREACHABLE || !o.ttl,
            None => true,
        },
    ensures
        match spec_find(spec_age(s), t) {
            Some(n) => n.hop_count == POISE_UNREACHABLE,
            None => true,
        },
    decreases s.len(),
{
    if s.len() > 0 {
        let s2 = spec_age(s);
        assert(s2[0].target == s[0].target);
        if s[0].target == t {
            assert(spec_find(s2, t) == Some(s2[0].entry));
        } else {
            assert(s2.drop_first() =~= spec_age(s.drop_first()));
            lemma_age_find(s.drop_first(), t);
        }
    }
}

} // verus!
