//! The versioned state store and its pruner.
//!
//! A key's value history is a set of records `(key, version, value)`; the
//! value visible at version `v` is the record with the greatest version not
//! exceeding `v`.  Pruning advances a watermark and deletes only records
//! that are fully superseded below the new watermark, so the value visible
//! at any retained version is never deleted, even when that value's own
//! version is older than the watermark.

use vstd::prelude::*;

use crate::error::StoreError;
use crate::util::bytes_eq;
use crate::util::clone_bytes;
use crate::util::lemma_filter_element_index;
use crate::util::lemma_filter_empty;
use crate::util::lemma_filter_push;

verus! {

/// One versioned write of a key.
pub struct StateRecord {
    pub key: Vec<u8>,
    pub version: u64,
    pub value: Vec<u8>,
}

/// Mathematical model of one state record.
#[verifier::ext_equal]
pub ghost struct StateRecordModel {
    pub key: Seq<u8>,
    pub version: u64,
    pub value: Seq<u8>,
}

impl View for StateRecord {
    type V = StateRecordModel;

    open spec fn view(&self) -> StateRecordModel {
        StateRecordModel { key: self.key@, version: self.version, value: self.value@ }
    }
}

/// Model sequence of a record vector.
pub open spec fn state_models(s: Seq<StateRecord>) -> Seq<StateRecordModel> {
    s.map_values(|r: StateRecord| r@)
}

/// Two records write the same key at the same version.
pub open spec fn same_slot(a: StateRecordModel, b: StateRecordModel) -> bool {
    a.key == b.key && a.version == b.version
}

/// No two records write the same key at the same version.
pub open spec fn no_slot_clash(s: Seq<StateRecordModel>) -> bool {
    forall|i: int, j: int|
        0 <= i < s.len() && 0 <= j < s.len() && i != j ==> !same_slot(#[trigger] s[i], #[trigger] s[j])
}

/// The record of `key` with the greatest version not exceeding `v`, if any.
pub open spec fn best_at(s: Seq<StateRecordModel>, key: Seq<u8>, v: u64) -> Option<
    StateRecordModel,
>
    decreases s.len(),
{
    if s.len() == 0 {
        Option::None
    } else {
        let rest = best_at(s.drop_last(), key, v);
        let r = s.last();
        if r.key == key && r.version <= v {
            match rest {
                Option::None => Option::Some(r),
                Option::Some(b) => if r.version > b.version {
                    Option::Some(r)
                } else {
                    Option::Some(b)
                },
            }
        } else {
            rest
        }
    }
}

/// The value of `key` visible at version `v`, if any.
pub open spec fn value_at(s: Seq<StateRecordModel>, key: Seq<u8>, v: u64) -> Option<Seq<u8>> {
    match best_at(s, key, v) {
        Option::None => Option::None,
        Option::Some(b) => Option::Some(b.value),
    }
}

/// Some record of the same key with a strictly greater version, not above
/// `wm`, exists in `s`: deleting `r` can never change a read at or above
/// `wm`.
pub open spec fn superseded_below(s: Seq<StateRecordModel>, r: StateRecordModel, wm: u64) -> bool {
    exists|j: int|
        0 <= j < s.len() && (#[trigger] s[j]).key == r.key && r.version < s[j].version
            && s[j].version <= wm
}

/// Holds of the records a state prune batch keeps: a record is deleted
/// only when its version lies in `[progress, wm)` and it is superseded
/// below `wm`.
pub open spec fn retained_state(
    s: Seq<StateRecordModel>,
    progress: u64,
    wm: u64,
) -> spec_fn(StateRecordModel) -> bool {
    |r: StateRecordModel|
        !(progress <= r.version && r.version < wm && superseded_below(s, r, wm))
}

/// Mathematical model of the state store.
#[verifier::ext_equal]
pub ghost struct StateStoreModel {
    pub records: Seq<StateRecordModel>,
    pub watermark: u64,
}

impl StateStoreModel {
    pub open spec fn wf(self) -> bool {
        no_slot_clash(self.records)
    }

    /// The store after one committed prune batch with watermark `new_wm`.
    pub open spec fn pruned(self, new_wm: u64) -> StateStoreModel {
        StateStoreModel {
            records: self.records.filter(retained_state(self.records, self.watermark, new_wm)),
            watermark: new_wm,
        }
    }

    /// The store after pruning to `target` in batches of at most `cap`
    /// versions each.
    pub open spec fn pruned_to(self, target: u64, cap: u64) -> StateStoreModel
        decreases target - self.watermark,
    {
        if cap == 0 || self.watermark >= target {
            self
        } else {
            let step: u64 = if target <= self.watermark + cap {
                target
            } else {
                (self.watermark + cap) as u64
            };
            self.pruned(step).pruned_to(target, cap)
        }
    }
}

/// The versioned state store.
pub struct StateStore {
    records: Vec<StateRecord>,
    watermark: u64,
}

impl View for StateStore {
    type V = StateStoreModel;

    closed spec fn view(&self) -> StateStoreModel {
        StateStoreModel { records: state_models(self.records@), watermark: self.watermark }
    }
}

/// The records a committed value set adds: one record per key, all at
/// `version`, in value-set order.
pub open spec fn value_set_records(kvs: Seq<(Vec<u8>, Vec<u8>)>, version: u64) -> Seq<
    StateRecordModel,
> {
    kvs.map_values(|p: (Vec<u8>, Vec<u8>)| StateRecordModel { key: p.0@, version, value: p.1@ })
}

/// The keys of a value set are pairwise distinct.
pub open spec fn distinct_keys(kvs: Seq<(Vec<u8>, Vec<u8>)>) -> bool {
    forall|i: int, j: int|
        0 <= i < kvs.len() && 0 <= j < kvs.len() && i != j ==> (#[trigger] kvs[i]).0@ != (
        #[trigger] kvs[j]).0@
}

impl StateStore {
    pub fn new() -> (s: Self)
        ensures
            s@.wf(),
            s@.records == Seq::<StateRecordModel>::empty(),
            s@.watermark == 0,
    {
        let s = StateStore { records: Vec::new(), watermark: 0 };
        proof {
            assert(s@.records =~= Seq::<StateRecordModel>::empty());
        }
        s
    }

    pub fn watermark(&self) -> (w: u64)
        ensures
            w == self@.watermark,
    {
        self.watermark
    }

    /// Commit one version's value set: one record per key, all at
    /// `version`, which must be newer than everything already stored.
    pub fn put_value_set(&mut self, value_set: Vec<(Vec<u8>, Vec<u8>)>, version: u64)
        requires
            old(self)@.wf(),
            version >= old(self)@.watermark,
            forall|i: int|
                0 <= i < old(self)@.records.len() ==> (#[trigger] old(self)@.records[i]).version
                    < version,
            distinct_keys(value_set@),
        ensures
            final(self)@.wf(),
            final(self)@.records == old(self)@.records + value_set_records(value_set@, version),
            final(self)@.watermark == old(self)@.watermark,
    {
        let ghost orig: Seq<StateRecordModel> = self@.records;
        let ghost kvs: Seq<(Vec<u8>, Vec<u8>)> = value_set@;
        let mut rest = value_set;
        let ghost mut j: int = 0;
        proof {
            assert(self@.records =~= orig + value_set_records(kvs.take(0), version));
        }
        while rest.len() > 0
            invariant
                0 <= j <= kvs.len(),
                rest@ == kvs.skip(j),
                self@.records == orig + value_set_records(kvs.take(j), version),
                self@.watermark == old(self)@.watermark,
            decreases rest.len(),
        {
            let ghost rest_pre: Seq<(Vec<u8>, Vec<u8>)> = rest@;
            let (k, v) = rest.remove(0);
            proof {
                assert(kvs.skip(j)[0] == kvs[j]);
                assert((k, v) == kvs[j]);
                assert(rest@ =~= kvs.skip(j + 1));
            }
            let ghost rec_model = StateRecordModel { key: k@, version, value: v@ };
            let ghost before: Seq<StateRecord> = self.records@;
            self.records.push(StateRecord { key: k, version, value: v });
            proof {
                assert(self@.records =~= state_models(before).push(rec_model));
                assert(kvs.take(j + 1) =~= kvs.take(j).push(kvs[j]));
                assert(value_set_records(kvs.take(j + 1), version) =~= value_set_records(
                    kvs.take(j),
                    version,
                ).push(rec_model));
                assert(self@.records =~= orig + value_set_records(kvs.take(j + 1), version));
                j = j + 1;
            }
        }
        proof {
            assert(kvs.take(j) =~= kvs);
            assert(self@.records == orig + value_set_records(kvs, version));
            lemma_append_version_keeps_wf(orig, kvs, version);
        }
    }

    /// The value of `key` visible at `version`: the record with the
    /// greatest version not exceeding it.  Versions below the watermark
    /// have been pruned and are refused.
    pub fn get_value_by_version(&self, key: &Vec<u8>, version: u64) -> (r: Result<
        Option<Vec<u8>>,
        StoreError,
    >)
        ensures
            r is Err <==> version < self@.watermark,
            r is Err ==> r->Err_0 == StoreError::VersionPruned,
            r is Ok ==> (r->Ok_0 is Some <==> value_at(self@.records, key@, version) is Some),
            r is Ok && r->Ok_0 is Some ==> r->Ok_0->0@ == value_at(
                self@.records,
                key@,
                version,
            )->0,
    {
        if version < self.watermark {
            return Err(StoreError::VersionPruned);
        }
        let ghost models: Seq<StateRecordModel> = self@.records;
        let mut best: Option<usize> = None;
        let mut i: usize = 0;
        proof {
            assert(models.take(0) =~= Seq::<StateRecordModel>::empty());
        }
        while i < self.records.len()
            invariant
                i <= self.records.len(),
                models == self@.records,
                models.len() == self.records.len(),
                forall|k: int| 0 <= k < models.len() ==> models[k] == #[trigger] self.records@[k]@,
                match best {
                    Option::None => best_at(models.take(i as int), key@, version) is None,
                    Option::Some(idx) => idx < i && best_at(models.take(i as int), key@, version)
                        == Option::Some(models[idx as int]),
                },
            decreases self.records.len() - i,
        {
            proof {
                assert(models.take(i + 1).drop_last() =~= models.take(i as int));
                assert(models.take(i + 1).last() == models[i as int]);
                assert(self.records@[i as int]@ == models[i as int]);
            }
            let rec = &self.records[i];
            if bytes_eq(&rec.key, key) && rec.version <= version {
                match best {
                    None => {
                        best = Some(i);
                    },
                    Some(bi) => {
                        let b = &self.records[bi];
                        if rec.version > b.version {
                            best = Some(i);
                        }
                    },
                }
            }
            i = i + 1;
        }
        proof {
            assert(models.take(models.len() as int) =~= models);
        }
        match best {
            None => Ok(None),
            Some(idx) => Ok(Some(clone_bytes(&self.records[idx].value))),
        }
    }

    /// One prune batch: starting at `progress` (the current watermark),
    /// advance the watermark by at most `batch_cap` versions, but not past
    /// `target`, deleting exactly the records of `[progress, new_wm)` that
    /// are superseded below the new watermark; the deletions and the
    /// watermark update land together.
    pub fn prune_batch(&mut self, progress: u64, target: u64, batch_cap: u64) -> (new_wm: u64)
        requires
            old(self)@.wf(),
            progress == old(self)@.watermark,
            progress < target,
            1 <= batch_cap,
        ensures
            final(self)@.wf(),
            progress < new_wm <= target,
            new_wm - progress <= batch_cap,
            new_wm == (if progress + batch_cap <= target {
                progress + batch_cap
            } else {
                target as int
            }),
            final(self)@ == old(self)@.pruned(new_wm),
    {
        let new_wm: u64 = if target - progress <= batch_cap {
            target
        } else {
            progress + batch_cap
        };
        let ghost orig: Seq<StateRecordModel> = self@.records;
        let ghost pred = retained_state(orig, progress, new_wm);

        // Decide, per record, whether the batch keeps it.
        let mut keep: Vec<bool> = Vec::new();
        let mut i: usize = 0;
        while i < self.records.len()
            invariant
                i <= self.records.len(),
                pred == retained_state(orig, progress, new_wm),
                orig == self@.records,
                orig.len() == self.records.len(),
                forall|k: int| 0 <= k < orig.len() ==> orig[k] == #[trigger] self.records@[k]@,
                keep@.len() == i,
                forall|k: int| 0 <= k < i ==> keep@[k] == pred(orig[k]),
            decreases self.records.len() - i,
        {
            proof {
                assert(self.records@[i as int]@ == orig[i as int]);
            }
            let rec = &self.records[i];
            let mut keep_it: bool = true;
            if progress <= rec.version && rec.version < new_wm {
                if is_superseded(&self.records, i, new_wm) {
                    keep_it = false;
                }
            }
            proof {
                assert(keep_it == pred(orig[i as int]));
            }
            keep.push(keep_it);
            i = i + 1;
        }

        // Apply the batch: drop every record the batch deletes.
        let mut j: usize = 0;
        let mut kept: Vec<StateRecord> = Vec::new();
        proof {
            lemma_filter_empty::<StateRecordModel>(pred);
            assert(orig.take(0) =~= Seq::<StateRecordModel>::empty());
            assert(state_models(kept@) =~= orig.take(0).filter(pred));
            assert(state_models(self.records@) =~= orig.skip(0));
        }
        while self.records.len() > 0
            invariant
                0 <= j <= orig.len(),
                orig.len() <= usize::MAX,
                pred == retained_state(orig, progress, new_wm),
                keep@.len() == orig.len(),
                forall|k: int| 0 <= k < orig.len() ==> keep@[k] == pred(orig[k]),
                state_models(kept@) == orig.take(j as int).filter(pred),
                state_models(self.records@) == orig.skip(j as int),
            decreases self.records.len(),
        {
            let ghost before: Seq<StateRecord> = self.records@;
            let ghost kept_pre: Seq<StateRecord> = kept@;
            let ghost part = orig.take(j as int).filter(pred);
            proof {
                assert(state_models(kept_pre) == part);
                assert(kept_pre.len() == part.len());
                assert(state_models(before).len() == before.len());
                assert(state_models(before)[0] == orig.skip(j as int)[0]);
                assert(before[0]@ == orig.skip(j as int)[0]);
                assert(orig[j as int] == orig.skip(j as int)[0]);
                assert(orig.take(j as int + 1) =~= orig.take(j as int).push(orig[j as int]));
                lemma_filter_push(orig.take(j as int), orig[j as int], pred);
            }
            let r = self.records.remove(0);
            proof {
                assert(r@ == orig[j as int]);
                assert forall|k: int| 0 <= k < self.records@.len() implies state_models(
                    self.records@,
                )[k] == orig.skip(j + 1)[k] by {
                    assert(self.records@[k] == before.remove(0)[k]);
                    assert(before.remove(0)[k] == before[k + 1]);
                    assert(state_models(before)[k + 1] == before[k + 1]@);
                    assert(state_models(before)[k + 1] == orig.skip(j as int)[k + 1]);
                }
                assert(state_models(self.records@) =~= orig.skip(j + 1));
            }
            let keep_it = keep[j];
            proof {
                assert(keep_it == pred(orig[j as int]));
            }
            if keep_it {
                kept.push(r);
                proof {
                    assert(orig.take(j as int + 1).filter(pred) == part.push(orig[j as int]));
                    assert(kept@ == kept_pre.push(r));
                    assert forall|k: int| 0 <= k < kept@.len() implies state_models(kept@)[k]
                        == part.push(orig[j as int])[k] by {
                        if k < kept_pre.len() {
                            assert(state_models(kept_pre)[k] == part[k]);
                        } else {
                            assert(k == part.len());
                            assert(kept@[k] == r);
                            assert(part.push(orig[j as int])[k] == orig[j as int]);
                        }
                    }
                    assert(state_models(kept@) =~= orig.take(j as int + 1).filter(pred));
                }
            } else {
                proof {
                    assert(orig.take(j as int + 1).filter(pred) == part);
                    assert(state_models(kept@) =~= orig.take(j as int + 1).filter(pred));
                }
            }
            proof {
                assert(state_models(self.records@).len() == self.records@.len());
                assert(j < orig.len());
            }
            j = j + 1;
        }
        proof {
            assert(orig.skip(j as int).len() == 0);
            assert(j == orig.len());
            assert(orig.take(j as int) =~= orig);
        }
        self.records = kept;
        self.watermark = new_wm;
        proof {
            assert(self@ =~= old(self)@.pruned(new_wm));
            lemma_filter_keeps_no_slot_clash(orig, pred);
        }
        new_wm
    }
}

/// Whether some record of the same key as `records[idx]` has a strictly
/// greater version not above `wm`.
fn is_superseded(records: &Vec<StateRecord>, idx: usize, wm: u64) -> (r: bool)
    requires
        idx < records@.len(),
    ensures
        r <==> superseded_below(state_models(records@), records@[idx as int]@, wm),
{
    let ghost models = state_models(records@);
    let ghost target_rec = records@[idx as int]@;
    let mut k: usize = 0;
    while k < records.len()
        invariant
            k <= records@.len(),
            idx < records@.len(),
            models == state_models(records@),
            models.len() == records@.len(),
            forall|m: int| 0 <= m < models.len() ==> models[m] == #[trigger] records@[m]@,
            target_rec == records@[idx as int]@,
            forall|m: int|
                0 <= m < k ==> !((#[trigger] models[m]).key == target_rec.key
                    && target_rec.version < models[m].version && models[m].version <= wm),
        decreases records@.len() - k,
    {
        proof {
            assert(records@[k as int]@ == models[k as int]);
        }
        let cand = &records[k];
        if cand.version <= wm {
            let base = &records[idx];
            if base.version < cand.version && bytes_eq(&cand.key, &base.key) {
                proof {
                    assert(models[k as int].key == target_rec.key && target_rec.version
                        < models[k as int].version && models[k as int].version <= wm);
                }
                return true;
            }
        }
        k = k + 1;
    }
    false
}

/// Appending records of a strictly newer version with distinct keys keeps
/// the store free of slot clashes.
proof fn lemma_append_version_keeps_wf(
    orig: Seq<StateRecordModel>,
    kvs: Seq<(Vec<u8>, Vec<u8>)>,
    version: u64,
)
    requires
        no_slot_clash(orig),
        forall|i: int| 0 <= i < orig.len() ==> (#[trigger] orig[i]).version < version,
        distinct_keys(kvs),
    ensures
        no_slot_clash(orig + value_set_records(kvs, version)),
{
    let all = orig + value_set_records(kvs, version);
    assert forall|i: int, j: int|
        0 <= i < all.len() && 0 <= j < all.len() && i != j implies !same_slot(all[i], all[j]) by {
        if i < orig.len() && j < orig.len() {
            assert(!same_slot(orig[i], orig[j]));
        } else if i < orig.len() && j >= orig.len() {
            assert(all[i].version < version && all[j].version == version);
        } else if i >= orig.len() && j < orig.len() {
            assert(all[j].version < version && all[i].version == version);
        } else {
            assert(kvs[i - orig.len()].0@ != kvs[j - orig.len()].0@);
            assert(all[i].key != all[j].key);
        }
    }
}

/// Deleting records never introduces a slot clash.
pub proof fn lemma_filter_keeps_no_slot_clash(
    s: Seq<StateRecordModel>,
    pred: spec_fn(StateRecordModel) -> bool,
)
    requires
        no_slot_clash(s),
    ensures
        no_slot_clash(s.filter(pred)),
    decreases s.len(),
{
    reveal(Seq::filter);
    if s.len() > 0 {
        assert(no_slot_clash(s.drop_last())) by {
            assert forall|i: int, j: int|
                0 <= i < s.drop_last().len() && 0 <= j < s.drop_last().len() && i != j implies
                !same_slot(s.drop_last()[i], s.drop_last()[j]) by {
                assert(s[i] == s.drop_last()[i]);
                assert(s[j] == s.drop_last()[j]);
            }
        }
        lemma_filter_keeps_no_slot_clash(s.drop_last(), pred);
        let sub = s.drop_last().filter(pred);
        if pred(s.last()) {
            assert forall|i: int, j: int|
                0 <= i < sub.push(s.last()).len() && 0 <= j < sub.push(s.last()).len() && i != j
                implies !same_slot(sub.push(s.last())[i], sub.push(s.last())[j]) by {
                if i < sub.len() && j < sub.len() {
                    assert(!same_slot(sub[i], sub[j]));
                } else if i < sub.len() {
                    lemma_filter_element_index(s.drop_last(), pred, i);
                    let wi = choose|w: int|
                        0 <= w < s.drop_last().len() && s.drop_last()[w] == sub[i];
                    assert(s[wi] == sub[i]);
                    assert(!same_slot(s[wi], s.last()));
                } else if j < sub.len() {
                    lemma_filter_element_index(s.drop_last(), pred, j);
                    let wj = choose|w: int|
                        0 <= w < s.drop_last().len() && s.drop_last()[w] == sub[j];
                    assert(s[wj] == sub[j]);
                    assert(!same_slot(s.last(), s[wj]));
                }
            }
        }
    }
}

/// What `best_at` returns: a record of `key` with the greatest version not
/// exceeding `v`, drawn from the sequence; `None` exactly when the
/// sequence holds no such record.
pub proof fn lemma_best_at_characterization(s: Seq<StateRecordModel>, key: Seq<u8>, v: u64)
    ensures
        match best_at(s, key, v) {
            Option::None => forall|i: int|
                0 <= i < s.len() ==> !((#[trigger] s[i]).key == key && s[i].version <= v),
            Option::Some(b) => {
                &&& exists|i: int| 0 <= i < s.len() && (#[trigger] s[i]) == b
                &&& b.key == key
                &&& b.version <= v
                &&& forall|i: int|
                    0 <= i < s.len() && (#[trigger] s[i]).key == key && s[i].version <= v
                        ==> s[i].version <= b.version
            },
        },
    decreases s.len(),
{
    if s.len() > 0 {
        let s0 = s.drop_last();
        lemma_best_at_characterization(s0, key, v);
        let r = s.last();
        let rest = best_at(s0, key, v);
        assert(forall|i: int| 0 <= i < s0.len() ==> #[trigger] s[i] == s0[i]);
        match best_at(s, key, v) {
            Option::None => {
                assert forall|i: int| 0 <= i < s.len() implies !((#[trigger] s[i]).key == key
                    && s[i].version <= v) by {
                    if i < s.len() - 1 {
                        assert(s[i] == s0[i]);
                        assert(!(s0[i].key == key && s0[i].version <= v));
                    }
                }
            },
            Option::Some(b) => {
                if r.key == key && r.version <= v {
                    match rest {
                        Option::None => {
                            assert(s[s.len() - 1] == b);
                        },
                        Option::Some(b0) => {
                            if r.version > b0.version {
                                assert(s[s.len() - 1] == b);
                            } else {
                                let wi = choose|i: int| 0 <= i < s0.len() && (#[trigger] s0[i])
                                    == b0;
                                assert(s[wi] == b);
                            }
                        },
                    }
                } else {
                    let b0 = rest->0;
                    let wi = choose|i: int| 0 <= i < s0.len() && (#[trigger] s0[i]) == b0;
                    assert(s[wi] == b);
                }
                assert forall|i: int|
                    0 <= i < s.len() && (#[trigger] s[i]).key == key && s[i].version <= v implies
                    s[i].version <= b.version by {
                    if i < s.len() - 1 {
                        assert(s[i] == s0[i]);
                        match rest {
                            Option::None => {
                                assert(!(s0[i].key == key && s0[i].version <= v));
                            },
                            Option::Some(b0) => {
                                assert(s0[i].version <= b0.version);
                            },
                        }
                    }
                }
            },
        }
    }
}

/// Pruning a batch never changes the value visible at any version at or
/// above the new watermark: deleted records are fully superseded there.
pub proof fn lemma_pruned_preserves_value_at(
    m: StateStoreModel,
    new_wm: u64,
    key: Seq<u8>,
    v: u64,
)
    requires
        m.wf(),
        new_wm <= v,
    ensures
        value_at(m.pruned(new_wm).records, key, v) == value_at(m.records, key, v),
{
    let s = m.records;
    let pred = retained_state(s, m.watermark, new_wm);
    let f = s.filter(pred);
    lemma_best_at_characterization(s, key, v);
    lemma_best_at_characterization(f, key, v);
    match best_at(s, key, v) {
        Option::None => {
            if best_at(f, key, v) is Some {
                let b2 = best_at(f, key, v)->0;
                let fi = choose|i: int| 0 <= i < f.len() && f[i] == b2;
                lemma_filter_element_index(s, pred, fi);
                let w = choose|w: int| 0 <= w < s.len() && s[w] == f[fi];
                assert(s[w].key == key && s[w].version <= v);
            }
        },
        Option::Some(b) => {
            // The winning record is not superseded below the new watermark,
            // so the batch keeps it.
            assert(pred(b)) by {
                if !pred(b) {
                    let j = choose|j: int|
                        0 <= j < s.len() && (#[trigger] s[j]).key == b.key && b.version
                            < s[j].version && s[j].version <= new_wm;
                    assert(s[j].version <= v);
                    assert(s[j].version <= b.version);
                }
            }
            let wi = choose|i: int| 0 <= i < s.len() && s[i] == b;
            Seq::lemma_filter_contains(s, pred, wi);
            assert(f.contains(s[wi]));
            let fi = choose|i: int| 0 <= i < f.len() && f[i] == b;
            assert(f[fi].key == key && f[fi].version <= v);
            assert(best_at(f, key, v) is Some);
            let b2 = best_at(f, key, v)->0;
            // Every record of the filtered sequence occurs in the original,
            // so the filtered winner cannot beat the original winner.
            let fi2 = choose|i: int| 0 <= i < f.len() && f[i] == b2;
            lemma_filter_element_index(s, pred, fi2);
            let w2 = choose|w: int| 0 <= w < s.len() && s[w] == f[fi2];
            assert(s[w2].version <= b.version);
            assert(b.version <= b2.version);
            assert(same_slot(s[wi], s[w2]));
            if wi != w2 {
                assert(!same_slot(s[wi], s[w2]));
            }
            assert(b == b2);
        },
    }
}

/// Pruning to a target in bounded batches never changes the value visible
/// at any version at or above the target.
pub proof fn lemma_pruned_to_preserves_value_at(
    m: StateStoreModel,
    target: u64,
    cap: u64,
    key: Seq<u8>,
    v: u64,
)
    requires
        m.wf(),
        target <= v,
    ensures
        value_at(m.pruned_to(target, cap).records, key, v) == value_at(m.records, key, v),
    decreases target - m.watermark,
{
    if cap == 0 || m.watermark >= target {
    } else {
        let step: u64 = if target <= m.watermark + cap {
            target
        } else {
            (m.watermark + cap) as u64
        };
        lemma_pruned_preserves_value_at(m, step, key, v);
        lemma_filter_keeps_no_slot_clash(
            m.records,
            retained_state(m.records, m.watermark, step),
        );
        lemma_pruned_to_preserves_value_at(m.pruned(step), target, cap, key, v);
    }
}

/// Pruning to a target in bounded batches keeps the store well-formed and
/// lands the watermark exactly on the target.
pub proof fn lemma_pruned_to_wf(m: StateStoreModel, target: u64, cap: u64)
    requires
        m.wf(),
    ensures
        m.pruned_to(target, cap).wf(),
        m.pruned_to(target, cap).watermark == (if cap == 0 || m.watermark >= target {
            m.watermark
        } else {
            target
        }),
    decreases target - m.watermark,
{
    if cap == 0 || m.watermark >= target {
    } else {
        let step: u64 = if target <= m.watermark + cap {
            target
        } else {
            (m.watermark + cap) as u64
        };
        lemma_filter_keeps_no_slot_clash(
            m.records,
            retained_state(m.records, m.watermark, step),
        );
        lemma_pruned_to_wf(m.pruned(step), target, cap);
    }
}

} // verus!
