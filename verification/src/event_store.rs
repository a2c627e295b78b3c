//! The event store: event payloads per version plus a secondary index,
//! both pruned over the same contiguous version range in the same batch.

use vstd::prelude::*;

use crate::codec::encode_u64_le;
use crate::codec::u64_le_bytes;
use crate::error::StoreError;
use crate::records::RecordModel;
use crate::records::RecordsModel;
use crate::records::VersionedRecords;

verus! {

/// Mathematical model of the event store.
#[verifier::ext_equal]
pub ghost struct EventStoreModel {
    pub events: RecordsModel,
    pub index: RecordsModel,
}

impl EventStoreModel {
    /// Both halves well-formed and pruned in lockstep.
    pub open spec fn wf(self) -> bool {
        &&& self.events.wf()
        &&& self.index.wf()
        &&& self.events.watermark == self.index.watermark
    }

    pub open spec fn watermark(self) -> u64 {
        self.events.watermark
    }

    /// The store after one committed prune batch with watermark `new_wm`.
    pub open spec fn pruned(self, new_wm: u64) -> EventStoreModel {
        EventStoreModel { events: self.events.pruned(new_wm), index: self.index.pruned(new_wm) }
    }

    /// The store after pruning to `target` in batches of at most `cap`
    /// versions each.
    pub open spec fn pruned_to(self, target: u64, cap: u64) -> EventStoreModel {
        EventStoreModel {
            events: self.events.pruned_to(target, cap),
            index: self.index.pruned_to(target, cap),
        }
    }
}

/// The index records one version's events add: the ordinal of each event,
/// little-endian.
pub open spec fn event_index_records(version: u64, count: int) -> Seq<RecordModel>
    decreases count,
{
    if count <= 0 {
        Seq::<RecordModel>::empty()
    } else {
        event_index_records(version, count - 1).push(
            (RecordModel { version, data: u64_le_bytes(((count - 1) as u64)) }),
        )
    }
}

/// Shape of the index records of one version: `count` entries, all at
/// `version`.
pub proof fn lemma_event_index_records_props(version: u64, count: int)
    requires
        count >= 0,
    ensures
        event_index_records(version, count).len() == count,
        forall|i: int|
            0 <= i < count ==> (#[trigger] event_index_records(version, count)[i]).version
                == version,
    decreases count,
{
    if count > 0 {
        lemma_event_index_records_props(version, count - 1);
        assert forall|i: int| 0 <= i < count implies (#[trigger] event_index_records(
            version,
            count,
        )[i]).version == version by {
            if i < count - 1 {
                assert(event_index_records(version, count)[i] == event_index_records(
                    version,
                    count - 1,
                )[i]);
            }
        }
    }
}

/// The event records one version's events add, in order.
pub open spec fn event_records(version: u64, events: Seq<Vec<u8>>) -> Seq<RecordModel> {
    events.map_values(|e: Vec<u8>| RecordModel { version, data: e@ })
}

/// Event payloads per version plus a secondary ordinal index.
pub struct EventStore {
    events: VersionedRecords,
    index: VersionedRecords,
}

impl View for EventStore {
    type V = EventStoreModel;

    closed spec fn view(&self) -> EventStoreModel {
        EventStoreModel { events: self.events@, index: self.index@ }
    }
}

impl EventStore {
    pub fn new() -> (s: Self)
        ensures
            s@.wf(),
            s@.events.records == Seq::<RecordModel>::empty(),
            s@.index.records == Seq::<RecordModel>::empty(),
            s@.watermark() == 0,
    {
        EventStore { events: VersionedRecords::new(), index: VersionedRecords::new() }
    }

    pub fn watermark(&self) -> (w: u64)
        ensures
            w == self@.watermark(),
    {
        self.events.watermark()
    }

    /// Record the events `version` emitted, together with their index
    /// entries.
    pub fn put_events(&mut self, version: u64, events: Vec<Vec<u8>>)
        requires
            old(self)@.wf(),
            version >= old(self)@.watermark(),
            events@.len() <= u64::MAX,
        ensures
            final(self)@.wf(),
            final(self)@.events.records == old(self)@.events.records + event_records(
                version,
                events@,
            ),
            final(self)@.index.records == old(self)@.index.records + event_index_records(
                version,
                events@.len() as int,
            ),
            final(self)@.watermark() == old(self)@.watermark(),
    {
        let ghost evs: Seq<Vec<u8>> = events@;
        let mut rest = events;
        let mut n: u64 = 0;
        proof {
            assert(event_records(version, evs.take(0)) =~= Seq::<RecordModel>::empty());
            assert(self@.events.records =~= old(self)@.events.records + event_records(
                version,
                evs.take(0),
            ));
            assert(self@.index.records =~= old(self)@.index.records + event_index_records(
                version,
                0,
            ));
        }
        while rest.len() > 0
            invariant
                0 <= n <= evs.len(),
                evs.len() <= u64::MAX,
                rest@ == evs.skip(n as int),
                self@.wf(),
                version >= self@.watermark(),
                self@.watermark() == old(self)@.watermark(),
                self@.events.records == old(self)@.events.records + event_records(
                    version,
                    evs.take(n as int),
                ),
                self@.index.records == old(self)@.index.records + event_index_records(
                    version,
                    n as int,
                ),
            decreases rest.len(),
        {
            proof {
                assert(evs.skip(n as int)[0] == evs[n as int]);
                assert(evs.skip(n as int).len() > 0);
                assert(n < evs.len());
            }
            let e = rest.remove(0);
            proof {
                assert(e == evs[n as int]);
                assert(rest@ =~= evs.skip(n as int + 1));
            }
            let ghost events_pre = self@.events.records;
            let ghost index_pre = self@.index.records;
            self.events.append(version, e);
            let mut entry: Vec<u8> = Vec::new();
            encode_u64_le(n, &mut entry);
            proof {
                assert(entry@ =~= u64_le_bytes(n));
            }
            self.index.append(version, entry);
            proof {
                assert(evs.take(n as int + 1) =~= evs.take(n as int).push(evs[n as int]));
                assert(event_records(version, evs.take(n as int + 1)) =~= event_records(
                    version,
                    evs.take(n as int),
                ).push((RecordModel { version, data: evs[n as int]@ })));
                assert(self@.events.records =~= old(self)@.events.records + event_records(
                    version,
                    evs.take(n as int + 1),
                ));
                assert(event_index_records(version, n as int + 1) == event_index_records(
                    version,
                    n as int,
                ).push((RecordModel { version, data: u64_le_bytes(n) })));
                assert(self@.index.records =~= old(self)@.index.records + event_index_records(
                    version,
                    n as int + 1,
                ));
            }
            n = n + 1;
        }
        proof {
            assert(evs.take(n as int) =~= evs);
        }
    }

    /// All event payloads `version` emitted, in order.  Versions below the
    /// watermark have been pruned and are refused.
    pub fn get_events_by_version(&self, version: u64) -> (r: Result<Vec<Vec<u8>>, StoreError>)
        ensures
            r is Err <==> version < self@.watermark(),
            r is Err ==> r->Err_0 == StoreError::VersionPruned,
            r is Ok ==> crate::util::byte_views(r->Ok_0@) == self@.events.data_at(version),
    {
        self.events.get_by_version(version)
    }

    /// One prune batch over both halves: events and index entries of
    /// `[progress, new_wm)` are deleted together with the watermark update.
    pub fn prune_batch(&mut self, progress: u64, target: u64, batch_cap: u64) -> (new_wm: u64)
        requires
            old(self)@.wf(),
            progress == old(self)@.watermark(),
            progress < target,
            1 <= batch_cap,
        ensures
            final(self)@.wf(),
            progress < new_wm <= target,
            new_wm - progress <= batch_cap,
            new_wm == (if progress + batch_cap <= target {
                progress + batch_cap
            } else {
                target as int
            }),
            final(self)@ == old(self)@.pruned(new_wm),
    {
        let wm_events = self.events.prune_batch(progress, target, batch_cap);
        let wm_index = self.index.prune_batch(progress, target, batch_cap);
        proof {
            assert(wm_events == wm_index);
            assert(self@ =~= old(self)@.pruned(wm_events));
        }
        wm_events
    }
}

} // verus!
