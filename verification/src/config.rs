//! Retention configuration and the fixed set of sub-pruner indices.

use vstd::prelude::*;

verus! {

/// Number of sub-pruners; also the length of the progress table and of a
/// target-version vector carried by a prune command.
pub const NUM_PRUNER_INDICES: usize = 4;

/// The fixed enumeration of sub-pruners.  The ordinal position doubles as
/// the index into the progress table and into a target-version vector.
#[derive(Clone, Copy, Debug)]
pub enum PrunerIndex {
    LedgerPruner,
    TransactionStorePruner,
    EventStorePruner,
    StateStorePruner,
}

impl PrunerIndex {
    /// Ordinal of this sub-pruner.
    pub open spec fn spec_ordinal(self) -> usize {
        match self {
            PrunerIndex::LedgerPruner => 0,
            PrunerIndex::TransactionStorePruner => 1,
            PrunerIndex::EventStorePruner => 2,
            PrunerIndex::StateStorePruner => 3,
        }
    }

    pub fn ordinal(self) -> (i: usize)
        ensures
            i == self.spec_ordinal(),
            i < NUM_PRUNER_INDICES,
    {
        match self {
            PrunerIndex::LedgerPruner => 0,
            PrunerIndex::TransactionStorePruner => 1,
            PrunerIndex::EventStorePruner => 2,
            PrunerIndex::StateStorePruner => 3,
        }
    }
}

/// Per-store retention windows plus the cap on versions advanced per
/// internal pruning step.  A window of `None` disables pruning for the
/// store(s) it governs.
#[derive(Clone, Copy, Debug)]
pub struct StoragePrunerConfig {
    /// Retention window for the state store.
    pub state_store_prune_window: Option<u64>,
    /// Retention window shared by the ledger, transaction and event stores.
    pub default_prune_window: Option<u64>,
    /// Upper bound on the number of versions a sub-pruner advances in one
    /// batch.
    pub max_versions_per_batch: u64,
}

impl StoragePrunerConfig {
    /// The window governing the sub-pruner at `index`.
    pub open spec fn spec_window_for(self, index: int) -> Option<u64> {
        if index == 3 {
            self.state_store_prune_window
        } else {
            self.default_prune_window
        }
    }

    pub fn window_for(&self, index: usize) -> (w: Option<u64>)
        requires
            index < NUM_PRUNER_INDICES,
        ensures
            w == self.spec_window_for(index as int),
    {
        if index == 3 {
            self.state_store_prune_window
        } else {
            self.default_prune_window
        }
    }

    /// Target version for the sub-pruner at `index` when the latest
    /// committed version is `latest`: `latest - window`, saturating at 0.
    /// A disabled window yields target 0, which is a no-op for every
    /// possible progress value.
    pub open spec fn spec_prune_target(self, latest: u64, index: int) -> u64 {
        match self.spec_window_for(index) {
            Option::None => 0u64,
            Option::Some(w) => if latest >= w {
                (latest - w) as u64
            } else {
                0u64
            },
        }
    }

    pub fn prune_target(&self, latest: u64, index: usize) -> (t: u64)
        requires
            index < NUM_PRUNER_INDICES,
        ensures
            t == self.spec_prune_target(latest, index as int),
            t <= latest,
    {
        match self.window_for(index) {
            Option::None => 0,
            Option::Some(w) => if latest >= w {
                latest - w
            } else {
                0
            },
        }
    }
}

} // verus!
