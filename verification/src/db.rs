//! The version-indexed ledger database: four logically distinct stores
//! written in lockstep by commits, plus the persisted prune watermarks.
//!
//! Destructive prune batches go through [`Database::prune_batch`], which
//! applies one store's deletions and its watermark update as a single
//! atomic write, or fails as a whole when the backing storage refuses the
//! write.

use vstd::prelude::*;

use crate::config::NUM_PRUNER_INDICES;
use crate::error::StoreError;
use crate::event_store::event_index_records;
use crate::event_store::event_records;
use crate::event_store::EventStore;
use crate::event_store::EventStoreModel;
use crate::records::RecordModel;
use crate::records::RecordsModel;
use crate::records::VersionedRecords;
use crate::state_store::distinct_keys;
use crate::state_store::value_set_records;
use crate::state_store::StateRecordModel;
use crate::state_store::StateStore;
use crate::state_store::StateStoreModel;

verus! {

/// Mathematical model of the whole database.
#[verifier::ext_equal]
pub ghost struct DatabaseModel {
    pub state: StateStoreModel,
    pub transactions: RecordsModel,
    pub ledger: RecordsModel,
    pub events: EventStoreModel,
    pub next_version: u64,
    pub fail_commits: bool,
}

impl DatabaseModel {
    /// Every version a record carries has been committed.
    pub open spec fn versions_bounded(self) -> bool {
        &&& forall|i: int|
            0 <= i < self.state.records.len() ==> (#[trigger] self.state.records[i]).version
                < self.next_version
        &&& forall|i: int|
            0 <= i < self.transactions.records.len() ==> (
            #[trigger] self.transactions.records[i]).version < self.next_version
        &&& forall|i: int|
            0 <= i < self.ledger.records.len() ==> (#[trigger] self.ledger.records[i]).version
                < self.next_version
        &&& forall|i: int|
            0 <= i < self.events.events.records.len() ==> (
            #[trigger] self.events.events.records[i]).version < self.next_version
        &&& forall|i: int|
            0 <= i < self.events.index.records.len() ==> (
            #[trigger] self.events.index.records[i]).version < self.next_version
    }

    pub open spec fn wf(self) -> bool {
        &&& self.state.wf()
        &&& self.transactions.wf()
        &&& self.ledger.wf()
        &&& self.events.wf()
        &&& self.versions_bounded()
        &&& forall|i: int| 0 <= i < NUM_PRUNER_INDICES ==> #[trigger] self.watermark_of(i)
            <= self.next_version
    }

    /// The persisted watermark of the sub-pruner at `index`, in canonical
    /// order: ledger, transactions, events, state.
    pub open spec fn watermark_of(self, index: int) -> u64 {
        if index == 0 {
            self.ledger.watermark
        } else if index == 1 {
            self.transactions.watermark
        } else if index == 2 {
            self.events.watermark()
        } else {
            self.state.watermark
        }
    }

    /// The latest committed version, if any.
    pub open spec fn latest_version(self) -> Option<u64> {
        if self.next_version == 0 {
            Option::None
        } else {
            Option::Some((self.next_version - 1) as u64)
        }
    }

    /// No persisted watermark exceeds the latest committed version.
    pub open spec fn watermarks_valid(self) -> bool {
        forall|i: int|
            0 <= i < NUM_PRUNER_INDICES ==> #[trigger] self.watermark_of(i) == 0
                || self.watermark_of(i) < self.next_version
    }

    /// The database after one committed prune batch of the sub-pruner at
    /// `index` with new watermark `new_wm`.
    pub open spec fn prune_one(self, index: int, new_wm: u64) -> DatabaseModel {
        if index == 0 {
            DatabaseModel { ledger: self.ledger.pruned(new_wm), ..self }
        } else if index == 1 {
            DatabaseModel { transactions: self.transactions.pruned(new_wm), ..self }
        } else if index == 2 {
            DatabaseModel { events: self.events.pruned(new_wm), ..self }
        } else {
            DatabaseModel { state: self.state.pruned(new_wm), ..self }
        }
    }

    /// The database after the sub-pruner at `index` has pruned to `target`
    /// in batches of at most `cap` versions each.
    pub open spec fn prune_index_to(self, index: int, target: u64, cap: u64) -> DatabaseModel {
        if index == 0 {
            DatabaseModel { ledger: self.ledger.pruned_to(target, cap), ..self }
        } else if index == 1 {
            DatabaseModel { transactions: self.transactions.pruned_to(target, cap), ..self }
        } else if index == 2 {
            DatabaseModel { events: self.events.pruned_to(target, cap), ..self }
        } else {
            DatabaseModel { state: self.state.pruned_to(target, cap), ..self }
        }
    }
}

/// The ledger database.
pub struct Database {
    state_store: StateStore,
    transaction_store: VersionedRecords,
    ledger_store: VersionedRecords,
    event_store: EventStore,
    next_version: u64,
    fail_commits: bool,
}

impl View for Database {
    type V = DatabaseModel;

    closed spec fn view(&self) -> DatabaseModel {
        DatabaseModel {
            state: self.state_store@,
            transactions: self.transaction_store@,
            ledger: self.ledger_store@,
            events: self.event_store@,
            next_version: self.next_version,
            fail_commits: self.fail_commits,
        }
    }
}

impl Database {
    /// An empty database: no committed versions, all watermarks zero.
    pub fn new() -> (db: Database)
        ensures
            db@.wf(),
            db@.watermarks_valid(),
            db@.next_version == 0,
            db@.state.records == Seq::<StateRecordModel>::empty(),
            db@.transactions.records == Seq::<RecordModel>::empty(),
            db@.ledger.records == Seq::<RecordModel>::empty(),
            db@.events.events.records == Seq::<RecordModel>::empty(),
            forall|i: int| 0 <= i < NUM_PRUNER_INDICES ==> #[trigger] db@.watermark_of(i) == 0,
            !db@.fail_commits,
    {
        Database {
            state_store: StateStore::new(),
            transaction_store: VersionedRecords::new(),
            ledger_store: VersionedRecords::new(),
            event_store: EventStore::new(),
            next_version: 0,
            fail_commits: false,
        }
    }

    pub fn state_store(&self) -> (r: &StateStore)
        ensures
            r@ == self@.state,
    {
        &self.state_store
    }

    pub fn transaction_store(&self) -> (r: &VersionedRecords)
        ensures
            r@ == self@.transactions,
    {
        &self.transaction_store
    }

    pub fn ledger_store(&self) -> (r: &VersionedRecords)
        ensures
            r@ == self@.ledger,
    {
        &self.ledger_store
    }

    pub fn event_store(&self) -> (r: &EventStore)
        ensures
            r@ == self@.events,
    {
        &self.event_store
    }

    /// The latest committed version, if any.
    pub fn latest_version(&self) -> (r: Option<u64>)
        ensures
            r == self@.latest_version(),
    {
        if self.next_version == 0 {
            None
        } else {
            Some(self.next_version - 1)
        }
    }

    /// The persisted watermark of the sub-pruner at `index`.
    pub fn watermark(&self, index: usize) -> (w: u64)
        requires
            index < NUM_PRUNER_INDICES,
        ensures
            w == self@.watermark_of(index as int),
    {
        if index == 0 {
            self.ledger_store.watermark()
        } else if index == 1 {
            self.transaction_store.watermark()
        } else if index == 2 {
            self.event_store.watermark()
        } else {
            self.state_store.watermark()
        }
    }

    /// Make every following prune batch fail at its commit, or succeed
    /// again: the storage-fault model of this in-memory database.
    pub fn set_fail_commits(&mut self, fail: bool)
        ensures
            final(self)@ == (DatabaseModel { fail_commits: fail, ..old(self)@ }),
    {
        self.fail_commits = fail;
        proof {
            assert(self@ =~= (DatabaseModel { fail_commits: fail, ..old(self)@ }));
        }
    }

    /// Commit the next version: its state values, its transaction, its
    /// accumulator node and its events land in their stores together.
    /// Returns the version assigned.
    pub fn commit(
        &mut self,
        value_set: Vec<(Vec<u8>, Vec<u8>)>,
        transaction: Vec<u8>,
        accumulator_node: Vec<u8>,
        events: Vec<Vec<u8>>,
    ) -> (version: u64)
        requires
            old(self)@.wf(),
            old(self)@.next_version < u64::MAX,
            distinct_keys(value_set@),
        ensures
            final(self)@.wf(),
            version == old(self)@.next_version,
            final(self)@.next_version == old(self)@.next_version + 1,
            final(self)@.state.records == old(self)@.state.records + value_set_records(
                value_set@,
                version,
            ),
            final(self)@.transactions.records == old(self)@.transactions.records.push(
                (RecordModel { version, data: transaction@ }),
            ),
            final(self)@.ledger.records == old(self)@.ledger.records.push(
                (RecordModel { version, data: accumulator_node@ }),
            ),
            final(self)@.events.events.records == old(self)@.events.events.records
                + event_records(version, events@),
            final(self)@.events.index.records == old(self)@.events.index.records
                + event_index_records(version, events@.len() as int),
            forall|i: int|
                0 <= i < NUM_PRUNER_INDICES ==> #[trigger] final(self)@.watermark_of(i) == old(
                    self,
                )@.watermark_of(i),
            final(self)@.fail_commits == old(self)@.fail_commits,
    {
        let version = self.next_version;
        let ghost n_events: int = events@.len() as int;
        let event_count = events.len();
        proof {
            assert(old(self)@.watermark_of(0) <= old(self)@.next_version);
            assert(old(self)@.watermark_of(1) <= old(self)@.next_version);
            assert(old(self)@.watermark_of(2) <= old(self)@.next_version);
            assert(old(self)@.watermark_of(3) <= old(self)@.next_version);
        }
        self.state_store.put_value_set(value_set, version);
        self.transaction_store.append(version, transaction);
        self.ledger_store.append(version, accumulator_node);
        self.event_store.put_events(version, events);
        self.next_version = version + 1;
        proof {
            crate::event_store::lemma_event_index_records_props(version, n_events);
            assert(self@.versions_bounded());
            assert forall|i: int| 0 <= i < NUM_PRUNER_INDICES implies #[trigger] self@.watermark_of(
                i,
            ) <= self@.next_version by {
                assert(old(self)@.watermark_of(i) <= old(self)@.next_version);
            }
        }
        version
    }

    /// One prune batch of the sub-pruner at `index`: its deletions and its
    /// watermark update are committed as one atomic write, which either
    /// lands in full or fails in full.
    pub fn prune_batch(&mut self, index: usize, target: u64, batch_cap: u64) -> (r: Result<
        u64,
        StoreError,
    >)
        requires
            old(self)@.wf(),
            index < NUM_PRUNER_INDICES,
            old(self)@.watermark_of(index as int) < target,
            target <= old(self)@.next_version,
            1 <= batch_cap,
        ensures
            final(self)@.wf(),
            old(self)@.fail_commits ==> r == Err::<u64, StoreError>(StoreError::CommitFailed)
                && final(self)@ == old(self)@,
            !old(self)@.fail_commits ==> {
                &&& r is Ok
                &&& r->Ok_0 == (if old(self)@.watermark_of(index as int) + batch_cap <= target {
                    old(self)@.watermark_of(index as int) + batch_cap
                } else {
                    target as int
                })
                &&& final(self)@ == old(self)@.prune_one(index as int, r->Ok_0)
                &&& final(self)@.watermark_of(index as int) == r->Ok_0
            },
    {
        if self.fail_commits {
            return Err(StoreError::CommitFailed);
        }
        let progress = self.watermark(index);
        let new_wm: u64;
        if index == 0 {
            new_wm = self.ledger_store.prune_batch(progress, target, batch_cap);
        } else if index == 1 {
            new_wm = self.transaction_store.prune_batch(progress, target, batch_cap);
        } else if index == 2 {
            new_wm = self.event_store.prune_batch(progress, target, batch_cap);
        } else {
            new_wm = self.state_store.prune_batch(progress, target, batch_cap);
        }
        proof {
            assert(self@ =~= old(self)@.prune_one(index as int, new_wm));
            lemma_prune_one_wf(old(self)@, index as int, new_wm);
        }
        Ok(new_wm)
    }
}

/// One prune batch keeps the database well-formed.
proof fn lemma_prune_one_wf(m: DatabaseModel, index: int, new_wm: u64)
    requires
        m.wf(),
        0 <= index < NUM_PRUNER_INDICES,
        new_wm <= m.next_version,
    ensures
        m.prune_one(index, new_wm).wf(),
{
    let out = m.prune_one(index, new_wm);
    if index == 0 {
        crate::records::lemma_records_pruned_wf(m.ledger, new_wm);
        assert forall|i: int| 0 <= i < out.ledger.records.len() implies (
        #[trigger] out.ledger.records[i]).version < out.next_version by {
            crate::util::lemma_filter_element_index(
                m.ledger.records,
                crate::records::retained_by(new_wm),
                i,
            );
        }
    } else if index == 1 {
        crate::records::lemma_records_pruned_wf(m.transactions, new_wm);
        assert forall|i: int| 0 <= i < out.transactions.records.len() implies (
        #[trigger] out.transactions.records[i]).version < out.next_version by {
            crate::util::lemma_filter_element_index(
                m.transactions.records,
                crate::records::retained_by(new_wm),
                i,
            );
        }
    } else if index == 2 {
        crate::records::lemma_records_pruned_wf(m.events.events, new_wm);
        crate::records::lemma_records_pruned_wf(m.events.index, new_wm);
        assert forall|i: int| 0 <= i < out.events.events.records.len() implies (
        #[trigger] out.events.events.records[i]).version < out.next_version by {
            crate::util::lemma_filter_element_index(
                m.events.events.records,
                crate::records::retained_by(new_wm),
                i,
            );
        }
        assert forall|i: int| 0 <= i < out.events.index.records.len() implies (
        #[trigger] out.events.index.records[i]).version < out.next_version by {
            crate::util::lemma_filter_element_index(
                m.events.index.records,
                crate::records::retained_by(new_wm),
                i,
            );
        }
    } else {
        crate::state_store::lemma_filter_keeps_no_slot_clash(
            m.state.records,
            crate::state_store::retained_state(m.state.records, m.state.watermark, new_wm),
        );
        assert forall|i: int| 0 <= i < out.state.records.len() implies (
        #[trigger] out.state.records[i]).version < out.next_version by {
            crate::util::lemma_filter_element_index(
                m.state.records,
                crate::state_store::retained_state(m.state.records, m.state.watermark, new_wm),
                i,
            );
        }
    }
    assert forall|i: int| 0 <= i < NUM_PRUNER_INDICES implies #[trigger] out.watermark_of(i)
        <= out.next_version by {
        assert(m.watermark_of(i) <= m.next_version);
    }
}

} // verus!
