//! The periodic keeper of the early routing table's lifetimes.

use vstd::prelude::*;

use crate::packets::routing_entry::LegacyEntryV;
use crate::routing::{spec_keep_alive, Routingtable};

verus! {

/// Owns a routing table and spends route lifetimes on a timer; the
/// timer loop itself lives with the runtime, which calls `tick` each
/// second.
#[derive(Debug)]
pub struct RoutingTTLManager {
    routing_table: Routingtable,
}

impl RoutingTTLManager {
    pub fn new(routing_table: Routingtable) -> (r: RoutingTTLManager)
        ensures
            r.table_view() == routing_table@,
    {
        RoutingTTLManager { routing_table }
    }

    /// The managed table's routes.
    pub closed spec fn table_view(&self) -> Seq<LegacyEntryV> {
        self.routing_table@
    }

    /// One cycle of the keeper: expired routes leave, the rest lose
    /// one second.
    pub fn tick(&mut self)
        ensures
            final(self).table_view().len() == spec_keep_alive(old(self).table_view()).len(),
    {
        self.routing_table.remove_expired_entries();
        self.routing_table.decrement_ttl();
    }
}

} // verus!
