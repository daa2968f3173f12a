//! The severity floor each server answers to.

use crate::config::{DiagnosticsConfig, LspServerConfig, ServerId, SeverityFloor};
use crate::table::Table;
use vstd::prelude::*;

verus! {

impl DeepView for SeverityFloor {
    type V = SeverityFloor;

    open spec fn deep_view(&self) -> SeverityFloor {
        *self
    }
}

/// The floors that servers set for themselves; of two with one identity the
/// later counts.
pub open spec fn own_floors(servers: Seq<LspServerConfig>) -> Map<Seq<char>, SeverityFloor>
    decreases servers.len(),
{
    if servers.len() == 0 {
        Map::empty()
    } else {
        let before = own_floors(servers.drop_last());
        match servers.last().diagnostics_severity {
            Some(floor) => before.insert(servers.last().identity(), floor),
            None => before,
        }
    }
}

/// The floor of a server: its own, or the common one.
pub open spec fn floor_of(
    config: DiagnosticsConfig,
    servers: Seq<LspServerConfig>,
    server: Seq<char>,
) -> SeverityFloor {
    if own_floors(servers).dom().contains(server) {
        own_floors(servers)[server]
    } else {
        config.severity
    }
}

/// The severity floor each server answers to.
///
/// Resolved once at startup, because a server's floor comes from
/// configuration and configuration does not change while the process runs.
pub struct FloorTable {
    default: SeverityFloor,
    by_server: Table<ServerId, SeverityFloor>,
}

impl FloorTable {
    /// The floor of a server.
    pub closed spec fn floor(self, server: Seq<char>) -> SeverityFloor {
        if self.by_server@.dom().contains(server) {
            self.by_server@[server]
        } else {
            self.default
        }
    }

    /// Build the table from a resolved configuration.
    pub fn new(config: &DiagnosticsConfig, servers: &Vec<LspServerConfig>) -> (r: Self)
        ensures
            forall|server: Seq<char>| #[trigger]
                r.floor(server) == floor_of(*config, servers@, server),
    {
        let mut by_server: Table<ServerId, SeverityFloor> = Table::new();
        let mut i: usize = 0;
        while i < servers.len()
            invariant
                i <= servers.len(),
                by_server@ == own_floors(servers@.take(i as int)),
            decreases servers.len() - i,
        {
            proof {
                let next = servers@.take(i + 1);
                assert(next.drop_last() =~= servers@.take(i as int));
                assert(next.last() == servers@[i as int]);
            }
            if let Some(floor) = servers[i].diagnostics_severity {
                by_server.put(servers[i].id(), floor);
            }
            i = i + 1;
        }
        assert(servers@.take(i as int) =~= servers@);
        FloorTable { default: config.severity, by_server }
    }

    /// The floor for `server`.
    pub fn for_server(&self, server: &ServerId) -> (r: SeverityFloor)
        ensures
            r == self.floor(server@),
    {
        match self.by_server.get(server) {
            Some(floor) => *floor,
            None => self.default,
        }
    }
}

} // verus!
