//! The pruner's front door: the object commit paths interact with.
//!
//! It turns the configured retention windows and the latest committed
//! version into one combined `Prune` command — every store advances
//! toward its own window-adjusted target in the same command — enqueues
//! it, and waits until the worker has caught up for the index at hand, or
//! surfaces the worker's recorded error.  Targets behind current progress
//! are silently a no-op: the pruner never prunes backward.

use vstd::prelude::*;

use crate::command::Command;
use crate::command::CommandQueue;
use crate::config::StoragePrunerConfig;
use crate::config::NUM_PRUNER_INDICES;
use crate::db::Database;
use crate::db::DatabaseModel;
use crate::error::StoreError;
use crate::worker::active_count;
use crate::worker::apply_prune_from;
use crate::command::has_quit;
use crate::worker::lemma_apply_prune_from_props;
use crate::worker::lemma_apply_prune_preserves_reads;
use crate::worker::lemma_run_commands_quit;
use crate::worker::run_commands;
use crate::worker::targets_bounded;
use crate::worker::Worker;
use crate::worker::WorkerModel;
use crate::worker::WorkerStatus;

verus! {

/// The one combined target vector a wake builds: each sub-pruner's own
/// window-adjusted target for the given latest committed version.
pub open spec fn combined_targets(config: StoragePrunerConfig, latest: u64) -> Seq<u64> {
    Seq::new(NUM_PRUNER_INDICES as nat, |i: int| config.spec_prune_target(latest, i))
}

/// The front door: a handle over the worker and its command queue.
pub struct Pruner {
    config: StoragePrunerConfig,
    worker: Worker,
    queue: CommandQueue,
}

impl Pruner {
    /// The database as the worker sees it.
    pub closed spec fn db_model(self) -> DatabaseModel {
        self.worker@.db
    }

    /// The progress table: per index, the highest version fully pruned
    /// below.
    pub closed spec fn progress_model(self) -> Seq<u64> {
        self.worker@.progress
    }

    pub closed spec fn status_model(self) -> WorkerStatus {
        self.worker@.status
    }

    pub closed spec fn config_model(self) -> StoragePrunerConfig {
        self.config
    }

    pub closed spec fn worker_model(self) -> WorkerModel {
        self.worker@
    }

    pub closed spec fn wf(self) -> bool {
        &&& self.worker@.wf()
        &&& self.worker@.progress.len() == NUM_PRUNER_INDICES
        &&& self.queue@.len() == 0
        &&& !(self.worker@.status is StoppedOk)
        &&& self.worker@.batch_cap == self.config.max_versions_per_batch
    }

    /// Build the front door over a database: validate the persisted
    /// watermarks against the latest committed version, seed the progress
    /// table from them, and set up the worker.  A persisted watermark
    /// beyond the latest committed version is a startup error, never
    /// silently clamped.
    pub fn new(db: Database, config: StoragePrunerConfig) -> (r: Result<Pruner, StoreError>)
        requires
            db@.wf(),
            1 <= config.max_versions_per_batch,
        ensures
            r is Ok <==> db@.watermarks_valid(),
            r is Err ==> r->Err_0 == StoreError::WatermarkBeyondLatest,
            r is Ok ==> {
                let p = r->Ok_0;
                &&& p.wf()
                &&& p.db_model() == db@
                &&& p.config_model() == config
                &&& p.status_model() == WorkerStatus::Running
                &&& forall|i: int|
                    0 <= i < NUM_PRUNER_INDICES ==> #[trigger] p.progress_model()[i]
                        == db@.watermark_of(i)
            },
    {
        let latest = db.latest_version();
        let mut progress: Vec<u64> = Vec::new();
        let mut i: usize = 0;
        while i < NUM_PRUNER_INDICES
            invariant
                i <= NUM_PRUNER_INDICES,
                latest == db@.latest_version(),
                progress@.len() == i,
                forall|k: int| 0 <= k < i ==> #[trigger] progress@[k] == db@.watermark_of(k),
                forall|k: int|
                    0 <= k < i ==> #[trigger] db@.watermark_of(k) == 0 || db@.watermark_of(k)
                        < db@.next_version,
            decreases NUM_PRUNER_INDICES - i,
        {
            let wm = db.watermark(i);
            let valid = wm == 0 || match latest {
                Some(l) => wm <= l,
                None => false,
            };
            if !valid {
                proof {
                    assert(!(db@.watermark_of(i as int) == 0 || db@.watermark_of(i as int)
                        < db@.next_version));
                }
                return Err(StoreError::WatermarkBeyondLatest);
            }
            progress.push(wm);
            i = i + 1;
        }
        let worker = Worker::new(db, progress, config.max_versions_per_batch);
        Ok(Pruner { config, worker, queue: CommandQueue::new() })
    }

    /// Read access to the database the worker owns.
    pub fn db(&self) -> (r: &Database)
        ensures
            r@ == self.db_model(),
    {
        self.worker.db()
    }

    /// The highest version the sub-pruner at `index` has fully pruned
    /// below.
    pub fn get_progress(&self, index: usize) -> (p: u64)
        requires
            self.wf(),
            index < NUM_PRUNER_INDICES,
        ensures
            p == self.progress_model()[index as int],
    {
        self.worker.progress(index)
    }

    /// Translate the latest committed version into one combined `Prune`
    /// command, enqueue it, and wait until progress for `index` has
    /// reached its target — or return at once when the target is already
    /// met or the worker has recorded an error.
    ///
    /// Progress never decreases, and in every store each version at or
    /// above the store's new watermark still reads exactly as before the
    /// call.
    pub fn wake_and_wait(&mut self, latest_version: u64, index: usize) -> (r: Result<
        (),
        StoreError,
    >)
        requires
            old(self).wf(),
            index < NUM_PRUNER_INDICES,
            latest_version < old(self).db_model().next_version,
        ensures
            final(self).wf(),
            final(self).config_model() == old(self).config_model(),
            final(self).db_model().next_version == old(self).db_model().next_version,
            forall|k: int|
                0 <= k < NUM_PRUNER_INDICES ==> #[trigger] old(self).progress_model()[k]
                    <= final(self).progress_model()[k],
            forall|k: int|
                0 <= k < NUM_PRUNER_INDICES ==> #[trigger] final(self).db_model().watermark_of(k)
                    == final(self).progress_model()[k],
            ({
                let target = old(self).config_model().spec_prune_target(
                    latest_version,
                    index as int,
                );
                let stale = target > old(self).progress_model()[index as int];
                &&& (old(self).status_model() matches WorkerStatus::StoppedErr(e) ==> r
                    == Err::<(), StoreError>(e) && *final(self) == *old(self))
                &&& (old(self).status_model() is Running && !stale ==> r
                    == Ok::<(), StoreError>(()) && *final(self) == *old(self))
                &&& (old(self).status_model() is Running && stale && old(
                    self,
                ).db_model().fail_commits ==> r == Err::<(), StoreError>(StoreError::CommitFailed))
                &&& (old(self).status_model() is Running && stale && !old(
                    self,
                ).db_model().fail_commits ==> r == Ok::<(), StoreError>(()))
                &&& (r is Ok ==> final(self).progress_model()[index as int] >= target)
                &&& (old(self).status_model() is Running && stale ==> final(self).worker_model()
                    == apply_prune_from(
                    old(self).worker_model(),
                    combined_targets(old(self).config_model(), latest_version),
                    0,
                ))
            }),
            forall|key: Seq<u8>, v: u64|
                v >= final(self).progress_model()[3] ==> crate::state_store::value_at(
                    final(self).db_model().state.records,
                    key,
                    v,
                ) == crate::state_store::value_at(old(self).db_model().state.records, key, v),
            forall|v: u64|
                v >= final(self).progress_model()[1]
                    ==> final(self).db_model().transactions.data_at(v)
                    == old(self).db_model().transactions.data_at(v),
            forall|v: u64|
                v >= final(self).progress_model()[0] ==> final(self).db_model().ledger.data_at(v)
                    == old(self).db_model().ledger.data_at(v),
            forall|v: u64|
                v >= final(self).progress_model()[2]
                    ==> final(self).db_model().events.events.data_at(v)
                    == old(self).db_model().events.events.data_at(v),
            forall|v: u64|
                v >= final(self).progress_model()[2]
                    ==> final(self).db_model().events.index.data_at(v)
                    == old(self).db_model().events.index.data_at(v),
    {
        match self.worker.status() {
            WorkerStatus::StoppedErr(e) => {
                return Err(e);
            },
            WorkerStatus::StoppedOk => {
                proof {
                    assert(false);
                }
                return Err(StoreError::CommitFailed);
            },
            WorkerStatus::Running => {
            },
        }
        let target = self.config.prune_target(latest_version, index);
        let current = self.worker.progress(index);
        if target <= current {
            return Ok(());
        }
        let ghost w0 = self.worker@;
        let mut targets: Vec<u64> = Vec::new();
        targets.push(self.config.prune_target(latest_version, 0));
        targets.push(self.config.prune_target(latest_version, 1));
        targets.push(self.config.prune_target(latest_version, 2));
        targets.push(self.config.prune_target(latest_version, 3));
        proof {
            assert(targets@ =~= combined_targets(self.config, latest_version));
            assert(targets_bounded(targets@, w0.db.next_version));
        }
        let ghost tv = targets@;
        self.queue.send(Command::Prune { target_db_versions: targets });
        let ghost q0 = self.queue@;
        self.worker.work(&mut self.queue);
        proof {
            assert(!(q0[0] is Quit));
            assert(q0.skip(1) =~= Seq::<Command>::empty());
            assert(!has_quit(q0.skip(1)));
            assert(run_commands(w0, q0) == run_commands(apply_prune_from(w0, tv, 0), q0.skip(1)));
            lemma_apply_prune_from_props(w0, tv, 0);
            assert(self.worker@ == apply_prune_from(w0, tv, 0));
            lemma_apply_prune_preserves_reads(w0, tv, 0);
            assert(active_count(w0.progress, tv) == NUM_PRUNER_INDICES);
            assert(tv[index as int] == target);
            if w0.db.fail_commits {
                assert(tv[index as int] > w0.progress[index as int]);
                assert(self.worker@.status == WorkerStatus::StoppedErr(StoreError::CommitFailed));
            }
            assert forall|key: Seq<u8>, v: u64| v >= self.worker@.progress[3] implies
                crate::state_store::value_at(self.worker@.db.state.records, key, v)
                == crate::state_store::value_at(w0.db.state.records, key, v) by {
                assert(self.worker@.progress[3] == self.worker@.db.watermark_of(3));
            }
        }
        match self.worker.status() {
            WorkerStatus::Running => Ok(()),
            WorkerStatus::StoppedErr(e) => Err(e),
            WorkerStatus::StoppedOk => {
                proof {
                    assert(false);
                }
                Err(StoreError::CommitFailed)
            },
        }
    }

    /// Stop the worker — shutdown discards any queued work by design —
    /// and hand the database back, exactly as the worker left it.
    pub fn shutdown(self) -> (db: Database)
        requires
            self.wf(),
        ensures
            db@ == self.db_model(),
    {
        let Pruner { config: _, worker, queue } = self;
        let mut worker = worker;
        let mut queue = queue;
        let stop = match worker.status() {
            WorkerStatus::Running => true,
            _ => false,
        };
        if stop {
            let ghost w0 = worker@;
            queue.send(Command::Quit);
            let ghost q0 = queue@;
            worker.work(&mut queue);
            proof {
                assert(q0[0] is Quit);
                assert(has_quit(q0));
                lemma_run_commands_quit(w0, q0);
                assert(worker@.db == w0.db);
            }
        }
        worker.into_db()
    }
}

} // verus!
