//! Versioned record storage shared by the ledger, transaction and event
//! stores: append-only records tagged with the version that wrote them,
//! plus a watermark below which all records have been deleted.
//!
//! Pruning deletes, in bounded batches, every record whose version lies in
//! `[watermark, new_watermark)`; the deletions and the watermark update are
//! applied by one call, standing for one atomic write.

use vstd::prelude::*;

use crate::error::StoreError;
use crate::util::byte_views;
use crate::util::clone_bytes;
use crate::util::lemma_filter_empty;
use crate::util::lemma_filter_push;

verus! {

/// One record: the payload some version wrote into this store.
pub struct VersionedRecord {
    pub version: u64,
    pub data: Vec<u8>,
}

/// Mathematical model of one record.
#[verifier::ext_equal]
pub ghost struct RecordModel {
    pub version: u64,
    pub data: Seq<u8>,
}

impl View for VersionedRecord {
    type V = RecordModel;

    open spec fn view(&self) -> RecordModel {
        RecordModel { version: self.version, data: self.data@ }
    }
}

/// Model sequence of a record vector.
pub open spec fn record_models(s: Seq<VersionedRecord>) -> Seq<RecordModel> {
    s.map_values(|r: VersionedRecord| r@)
}

/// The payloads of a model sequence, in order.
pub open spec fn record_datas(s: Seq<RecordModel>) -> Seq<Seq<u8>> {
    s.map_values(|r: RecordModel| r.data)
}

/// Holds of the records `version` wrote.
pub open spec fn written_by(version: u64) -> spec_fn(RecordModel) -> bool {
    |r: RecordModel| r.version == version
}

/// Holds of the records a prune batch with new watermark `new_wm` keeps.
pub open spec fn retained_by(new_wm: u64) -> spec_fn(RecordModel) -> bool {
    |r: RecordModel| r.version >= new_wm
}

/// Mathematical model of a whole store.
#[verifier::ext_equal]
pub ghost struct RecordsModel {
    pub records: Seq<RecordModel>,
    pub watermark: u64,
}

impl RecordsModel {
    /// Every record below the watermark has been deleted.
    pub open spec fn wf(self) -> bool {
        forall|i: int| 0 <= i < self.records.len() ==> self.records[i].version >= self.watermark
    }

    /// The payloads the records of `version` hold, in record order.
    pub open spec fn data_at(self, version: u64) -> Seq<Seq<u8>> {
        record_datas(self.records.filter(written_by(version)))
    }

    /// The store after one committed prune batch with watermark `new_wm`.
    pub open spec fn pruned(self, new_wm: u64) -> RecordsModel {
        RecordsModel { records: self.records.filter(retained_by(new_wm)), watermark: new_wm }
    }

    /// The store after pruning to `target` in batches of at most `cap`
    /// versions each.
    pub open spec fn pruned_to(self, target: u64, cap: u64) -> RecordsModel
        decreases target - self.watermark,
    {
        if cap == 0 || self.watermark >= target {
            self
        } else {
            let step: u64 = if target <= self.watermark + cap {
                target
            } else {
                (self.watermark + cap) as u64
            };
            self.pruned(step).pruned_to(target, cap)
        }
    }
}

/// One prune batch keeps the store well-formed: everything below the new
/// watermark is deleted.
pub proof fn lemma_records_pruned_wf(m: RecordsModel, new_wm: u64)
    ensures
        m.pruned(new_wm).wf(),
{
    let f = m.records.filter(retained_by(new_wm));
    assert forall|i: int| 0 <= i < f.len() implies f[i].version >= new_wm by {
        Seq::lemma_filter_pred(m.records, retained_by(new_wm), i);
    }
}

/// One prune batch never changes what a version at or above the new
/// watermark holds.
pub proof fn lemma_records_pruned_preserves_data_at(m: RecordsModel, new_wm: u64, v: u64)
    requires
        new_wm <= v,
    ensures
        m.pruned(new_wm).data_at(v) == m.data_at(v),
{
    assert forall|x: RecordModel| #[trigger] written_by(v)(x) implies retained_by(new_wm)(x) by {
    }
    crate::util::lemma_filter_absorb(m.records, retained_by(new_wm), written_by(v));
}

/// Pruning to a target in bounded batches keeps the store well-formed and
/// lands the watermark exactly on the target.
pub proof fn lemma_records_pruned_to_wf(m: RecordsModel, target: u64, cap: u64)
    requires
        m.wf(),
    ensures
        m.pruned_to(target, cap).wf(),
        m.pruned_to(target, cap).watermark == (if cap == 0 || m.watermark >= target {
            m.watermark
        } else {
            target
        }),
    decreases target - m.watermark,
{
    if cap == 0 || m.watermark >= target {
    } else {
        let step: u64 = if target <= m.watermark + cap {
            target
        } else {
            (m.watermark + cap) as u64
        };
        lemma_records_pruned_wf(m, step);
        lemma_records_pruned_to_wf(m.pruned(step), target, cap);
    }
}

/// Pruning to a target in bounded batches never changes what a version at
/// or above the target holds.
pub proof fn lemma_records_pruned_to_preserves_data_at(
    m: RecordsModel,
    target: u64,
    cap: u64,
    v: u64,
)
    requires
        target <= v,
    ensures
        m.pruned_to(target, cap).data_at(v) == m.data_at(v),
    decreases target - m.watermark,
{
    if cap == 0 || m.watermark >= target {
    } else {
        let step: u64 = if target <= m.watermark + cap {
            target
        } else {
            (m.watermark + cap) as u64
        };
        lemma_records_pruned_preserves_data_at(m, step, v);
        lemma_records_pruned_to_preserves_data_at(m.pruned(step), target, cap, v);
    }
}

/// A store of versioned records with a deletion watermark.
pub struct VersionedRecords {
    records: Vec<VersionedRecord>,
    watermark: u64,
}

impl View for VersionedRecords {
    type V = RecordsModel;

    closed spec fn view(&self) -> RecordsModel {
        RecordsModel { records: record_models(self.records@), watermark: self.watermark }
    }
}

impl VersionedRecords {
    pub fn new() -> (s: Self)
        ensures
            s@.wf(),
            s@.records == Seq::<RecordModel>::empty(),
            s@.watermark == 0,
    {
        let s = VersionedRecords { records: Vec::new(), watermark: 0 };
        proof {
            assert(s@.records =~= Seq::<RecordModel>::empty());
        }
        s
    }

    pub fn watermark(&self) -> (w: u64)
        ensures
            w == self@.watermark,
    {
        self.watermark
    }

    /// Record `data` as written by `version`.
    pub fn append(&mut self, version: u64, data: Vec<u8>)
        requires
            old(self)@.wf(),
            version >= old(self)@.watermark,
        ensures
            final(self)@.wf(),
            final(self)@.records == old(self)@.records.push(
                (RecordModel { version, data: data@ }),
            ),
            final(self)@.watermark == old(self)@.watermark,
    {
        let ghost data_model: Seq<u8> = data@;
        self.records.push(VersionedRecord { version, data });
        proof {
            assert(self@.records =~= old(self)@.records.push(
                (RecordModel { version, data: data_model }),
            ));
        }
    }

    /// All payloads written by `version`, in record order.  Versions below
    /// the watermark have been pruned and are refused.
    pub fn get_by_version(&self, version: u64) -> (r: Result<Vec<Vec<u8>>, StoreError>)
        ensures
            r is Err <==> version < self@.watermark,
            r is Err ==> r->Err_0 == StoreError::VersionPruned,
            r is Ok ==> byte_views(r->Ok_0@) == self@.data_at(version),
    {
        if version < self.watermark {
            return Err(StoreError::VersionPruned);
        }
        let ghost pred = written_by(version);
        let ghost models: Seq<RecordModel> = self@.records;
        let mut out: Vec<Vec<u8>> = Vec::new();
        let mut i: usize = 0;
        proof {
            lemma_filter_empty::<RecordModel>(pred);
            assert(models.take(0) =~= Seq::<RecordModel>::empty());
            assert(byte_views(out@) =~= record_datas(models.take(0).filter(pred)));
        }
        while i < self.records.len()
            invariant
                i <= self.records.len(),
                pred == written_by(version),
                models == self@.records,
                models.len() == self.records.len(),
                forall|k: int| 0 <= k < models.len() ==> models[k] == #[trigger] self.records@[k]@,
                byte_views(out@) == record_datas(models.take(i as int).filter(pred)),
            decreases self.records.len() - i,
        {
            proof {
                assert(models.take(i + 1) =~= models.take(i as int).push(models[i as int]));
                lemma_filter_push(models.take(i as int), models[i as int], pred);
            }
            let ghost out_pre = out@;
            let ghost part = models.take(i as int).filter(pred);
            proof {
                assert(byte_views(out_pre) == record_datas(part));
                assert(byte_views(out_pre).len() == out_pre.len());
                assert(record_datas(part).len() == part.len());
                assert(out_pre.len() == part.len());
            }
            let rec = &self.records[i];
            proof {
                assert(self.records@[i as int]@ == models[i as int]);
                assert(rec@ == models[i as int]);
            }
            if rec.version == version {
                let d = clone_bytes(&rec.data);
                out.push(d);
                proof {
                    assert(pred(models[i as int]));
                    assert(models.take(i + 1).filter(pred) == part.push(models[i as int]));
                    assert forall|k: int| 0 <= k < out@.len() implies byte_views(out@)[k]
                        == record_datas(part.push(models[i as int]))[k] by {
                        if k < out_pre.len() {
                            assert(byte_views(out_pre)[k] == record_datas(part)[k]);
                        } else {
                            assert(byte_views(out_pre).len() == out_pre.len());
                            assert(record_datas(part).len() == part.len());
                            assert(k == part.len());
                            assert(out@[k] == d);
                            assert(part.push(models[i as int])[k] == models[i as int]);
                        }
                    }
                    assert(byte_views(out@) =~= record_datas(models.take(i + 1).filter(pred)));
                }
            } else {
                proof {
                    assert(!pred(models[i as int]));
                    assert(models.take(i + 1).filter(pred) == part);
                    assert(byte_views(out@) =~= record_datas(models.take(i + 1).filter(pred)));
                }
            }
            i = i + 1;
        }
        proof {
            assert(models.take(models.len() as int) =~= models);
        }
        Ok(out)
    }

    /// One prune batch: starting at `progress` (the current watermark),
    /// advance the watermark by at most `batch_cap` versions, but not past
    /// `target`, deleting every record whose version falls below the new
    /// watermark; the deletions and the watermark update land together.
    pub fn prune_batch(&mut self, progress: u64, target: u64, batch_cap: u64) -> (new_wm: u64)
        requires
            old(self)@.wf(),
            progress == old(self)@.watermark,
            progress < target,
            1 <= batch_cap,
        ensures
            final(self)@.wf(),
            progress < new_wm <= target,
            new_wm - progress <= batch_cap,
            new_wm == (if progress + batch_cap <= target {
                progress + batch_cap
            } else {
                target as int
            }),
            final(self)@ == old(self)@.pruned(new_wm),
    {
        let new_wm: u64 = if target - progress <= batch_cap {
            target
        } else {
            progress + batch_cap
        };
        let ghost orig: Seq<RecordModel> = self@.records;
        let ghost pred = retained_by(new_wm);
        let ghost mut j: int = 0;
        let mut kept: Vec<VersionedRecord> = Vec::new();
        proof {
            lemma_filter_empty::<RecordModel>(pred);
            assert(orig.take(0) =~= Seq::<RecordModel>::empty());
            assert(record_models(kept@) =~= orig.take(0).filter(pred));
            assert(record_models(self.records@) =~= orig.skip(0));
        }
        while self.records.len() > 0
            invariant
                0 <= j <= orig.len(),
                pred == retained_by(new_wm),
                record_models(kept@) == orig.take(j).filter(pred),
                record_models(self.records@) == orig.skip(j),
            decreases self.records.len(),
        {
            let ghost before: Seq<VersionedRecord> = self.records@;
            let ghost kept_pre: Seq<VersionedRecord> = kept@;
            let ghost part = orig.take(j).filter(pred);
            proof {
                assert(record_models(before).len() == before.len());
                assert(record_models(before)[0] == orig.skip(j)[0]);
                assert(before[0]@ == orig.skip(j)[0]);
                assert(orig[j] == orig.skip(j)[0]);
                assert(orig.take(j + 1) =~= orig.take(j).push(orig[j]));
                lemma_filter_push(orig.take(j), orig[j], pred);
            }
            let r = self.records.remove(0);
            proof {
                assert(r@ == orig[j]);
                assert forall|k: int| 0 <= k < self.records@.len() implies record_models(
                    self.records@,
                )[k] == orig.skip(j + 1)[k] by {
                    assert(self.records@[k] == before.remove(0)[k]);
                    assert(before.remove(0)[k] == before[k + 1]);
                    assert(record_models(before)[k + 1] == before[k + 1]@);
                    assert(record_models(before)[k + 1] == orig.skip(j)[k + 1]);
                }
                assert(record_models(self.records@) =~= orig.skip(j + 1));
            }
            if r.version >= new_wm {
                kept.push(r);
                proof {
                    assert(pred(orig[j]));
                    assert(orig.take(j + 1).filter(pred) == part.push(orig[j]));
                    assert(kept@ == kept_pre.push(r));
                    assert forall|k: int| 0 <= k < kept@.len() implies record_models(kept@)[k]
                        == part.push(orig[j])[k] by {
                        if k < kept_pre.len() {
                            assert(record_models(kept_pre)[k] == part[k]);
                        } else {
                            assert(kept@[k] == r);
                            assert(part.push(orig[j])[k] == orig[j]);
                        }
                    }
                    assert(record_models(kept@) =~= orig.take(j + 1).filter(pred));
                }
            } else {
                proof {
                    assert(!pred(orig[j]));
                    assert(orig.take(j + 1).filter(pred) == part);
                    assert(record_models(kept@) =~= orig.take(j + 1).filter(pred));
                }
            }
            proof {
                j = j + 1;
            }
        }
        proof {
            assert(orig.skip(j).len() == 0);
            assert(j == orig.len());
            assert(orig.take(j) =~= orig);
        }
        self.records = kept;
        self.watermark = new_wm;
        proof {
            assert(self@ =~= old(self)@.pruned(new_wm));
            assert forall|i: int| 0 <= i < self@.records.len() implies self@.records[i].version
                >= self@.watermark by {
                Seq::lemma_filter_pred(orig, pred, i);
            }
        }
        new_wm
    }
}

} // verus!
