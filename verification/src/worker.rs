//! The worker: the single consumer of the command queue and the sole
//! writer of destructive prune batches.
//!
//! Its loop takes the next command; before acting on a `Prune` it scans
//! the whole backlog, and if a `Quit` is queued anywhere it discards every
//! queued command — the pending `Prune` included — and stops.  Shutdown
//! takes absolute priority over queued pruning work; un-pruned ranges
//! simply remain for the next session.  A `Prune` it does act on is
//! executed to completion, store by store in canonical order, in batches
//! of at most `max_versions_per_batch` versions, each batch committed
//! atomically with its watermark update.  A batch-commit failure stops the
//! worker for good; the error is kept for every later caller.

use vstd::prelude::*;

use crate::command::has_quit;
use crate::command::Command;
use crate::command::CommandQueue;
use crate::config::NUM_PRUNER_INDICES;
use crate::db::Database;
use crate::db::DatabaseModel;
use crate::error::StoreError;

verus! {

/// The worker's state machine: `Running` until a `Quit` is processed or a
/// batch commit fails; both stops are terminal.
#[derive(Clone, Copy, Debug, PartialEq, Eq, Structural)]
pub enum WorkerStatus {
    Running,
    StoppedOk,
    StoppedErr(StoreError),
}

/// Mathematical model of the worker.
#[verifier::ext_equal]
pub ghost struct WorkerModel {
    pub db: DatabaseModel,
    pub progress: Seq<u64>,
    pub batch_cap: u64,
    pub status: WorkerStatus,
}

impl WorkerModel {
    /// The progress table mirrors the persisted watermarks, entry by
    /// entry, and batches make progress.
    pub open spec fn wf(self) -> bool {
        &&& self.db.wf()
        &&& 1 <= self.batch_cap
        &&& self.progress.len() <= NUM_PRUNER_INDICES
        &&& forall|i: int|
            0 <= i < self.progress.len() ==> #[trigger] self.progress[i] == self.db.watermark_of(
                i,
            )
    }
}

/// How many progress entries a target vector can drive.
pub open spec fn active_count(progress: Seq<u64>, targets: Seq<u64>) -> int {
    if progress.len() <= targets.len() {
        progress.len() as int
    } else {
        targets.len() as int
    }
}

/// No target asks to prune past the committed history.
pub open spec fn targets_bounded(targets: Seq<u64>, next_version: u64) -> bool {
    forall|i: int| 0 <= i < targets.len() ==> #[trigger] targets[i] <= next_version
}

/// Every queued `Prune`'s targets are bounded by the committed history.
pub open spec fn commands_bounded(cmds: Seq<Command>, next_version: u64) -> bool {
    forall|i: int|
        0 <= i < cmds.len() ==> ((#[trigger] cmds[i]) matches Command::Prune {
            target_db_versions,
        } ==> targets_bounded(target_db_versions@, next_version))
}

/// One `Prune` command executed to completion from index `i` on, in
/// canonical store order: each store whose target lies ahead of its
/// progress is pruned to that target in bounded batches, unless the
/// storage fails its first batch, which stops the worker with the error
/// and leaves the remaining stores untouched.
pub open spec fn apply_prune_from(w: WorkerModel, targets: Seq<u64>, i: int) -> WorkerModel
    decreases active_count(w.progress, targets) - i,
{
    if i < 0 || i >= active_count(w.progress, targets) {
        w
    } else {
        let t = targets[i];
        let p = w.progress[i];
        if t <= p {
            apply_prune_from(w, targets, i + 1)
        } else if w.db.fail_commits {
            WorkerModel { status: WorkerStatus::StoppedErr(StoreError::CommitFailed), ..w }
        } else {
            let w2 = WorkerModel {
                db: w.db.prune_index_to(i, t, w.batch_cap),
                progress: w.progress.update(i, t),
                ..w
            };
            apply_prune_from(w2, targets, i + 1)
        }
    }
}

/// The worker's whole loop on a queue snapshot: commands are taken in
/// order; a `Quit` — or a `Prune` with a `Quit` queued anywhere behind it
/// — stops the worker cleanly with every queued command discarded.
pub open spec fn run_commands(w: WorkerModel, cmds: Seq<Command>) -> WorkerModel
    decreases cmds.len(),
{
    if !(w.status is Running) || cmds.len() == 0 {
        w
    } else {
        match cmds[0] {
            Command::Quit => WorkerModel { status: WorkerStatus::StoppedOk, ..w },
            Command::Prune { target_db_versions } => {
                if has_quit(cmds.skip(1)) {
                    WorkerModel { status: WorkerStatus::StoppedOk, ..w }
                } else {
                    run_commands(apply_prune_from(w, target_db_versions@, 0), cmds.skip(1))
                }
            },
        }
    }
}

/// The worker.
pub struct Worker {
    db: Database,
    progress: Vec<u64>,
    batch_cap: u64,
    status: WorkerStatus,
}

impl View for Worker {
    type V = WorkerModel;

    closed spec fn view(&self) -> WorkerModel {
        WorkerModel {
            db: self.db@,
            progress: self.progress@,
            batch_cap: self.batch_cap,
            status: self.status,
        }
    }
}

impl Worker {
    /// A worker over `db`, with the progress table seeded from the
    /// persisted watermarks.
    pub fn new(db: Database, progress: Vec<u64>, max_versions_per_batch: u64) -> (w: Worker)
        requires
            db@.wf(),
            1 <= max_versions_per_batch,
            progress@.len() <= NUM_PRUNER_INDICES,
            forall|i: int|
                0 <= i < progress@.len() ==> #[trigger] progress@[i] == db@.watermark_of(i),
        ensures
            w@ == (WorkerModel {
                db: db@,
                progress: progress@,
                batch_cap: max_versions_per_batch,
                status: WorkerStatus::Running,
            }),
            w@.wf(),
    {
        Worker { db, progress, batch_cap: max_versions_per_batch, status: WorkerStatus::Running }
    }

    /// Give the database back, stopping nothing: the owner decides when.
    pub fn into_db(self) -> (db: Database)
        ensures
            db@ == self@.db,
    {
        self.db
    }

    pub fn db(&self) -> (r: &Database)
        ensures
            r@ == self@.db,
    {
        &self.db
    }

    pub fn status(&self) -> (s: WorkerStatus)
        ensures
            s == self@.status,
    {
        self.status
    }

    pub fn progress(&self, index: usize) -> (p: u64)
        requires
            index < self@.progress.len(),
        ensures
            p == self@.progress[index as int],
    {
        self.progress[index]
    }

    /// Execute one `Prune` command to completion: for each index in
    /// canonical order, while progress lags the target, ask the store for
    /// one batch of at most `max_versions_per_batch` versions and commit
    /// it atomically with the watermark update.  A failed batch commit
    /// records the error and stops; nothing of that batch lands.
    fn execute_prune(&mut self, targets: &Vec<u64>)
        requires
            old(self)@.wf(),
            old(self)@.status is Running,
            targets_bounded(targets@, old(self)@.db.next_version),
        ensures
            final(self)@ == apply_prune_from(old(self)@, targets@, 0),
            final(self)@.wf(),
    {
        let count: usize = if self.progress.len() <= targets.len() {
            self.progress.len()
        } else {
            targets.len()
        };
        let mut i: usize = 0;
        while i < count
            invariant
                i <= count,
                self@.wf(),
                self@.status is Running,
                count == active_count(self@.progress, targets@),
                self@.progress.len() == old(self)@.progress.len(),
                self@.batch_cap == old(self)@.batch_cap,
                self@.db.next_version == old(self)@.db.next_version,
                targets_bounded(targets@, self@.db.next_version),
                apply_prune_from(self@, targets@, i as int) == apply_prune_from(
                    old(self)@,
                    targets@,
                    0,
                ),
            decreases count - i,
        {
            let t = targets[i];
            let p = self.progress[i];
            if t > p {
                let ghost w_top = self@;
                let mut failed: Option<StoreError> = None;
                while failed.is_none() && self.progress[i] < t
                    invariant
                        i < count,
                        count == active_count(self@.progress, targets@),
                        t == targets@[i as int],
                        t <= self@.db.next_version,
                        self@.batch_cap == w_top.batch_cap,
                        self@.status == w_top.status,
                        self@.progress.len() == w_top.progress.len(),
                        self@.wf(),
                        failed is None ==> {
                            &&& self@.db.fail_commits == w_top.db.fail_commits
                            &&& self@.db.next_version == w_top.db.next_version
                            &&& (WorkerModel {
                                db: self@.db.prune_index_to(i as int, t, self@.batch_cap),
                                progress: self@.progress.update(i as int, t),
                                ..self@
                            }) == (WorkerModel {
                                db: w_top.db.prune_index_to(i as int, t, w_top.batch_cap),
                                progress: w_top.progress.update(i as int, t),
                                ..w_top
                            })
                            &&& self@.progress[i as int] <= t
                            &&& (w_top.db.fail_commits ==> self@ == w_top)
                        },
                        failed is Some ==> {
                            &&& failed == Option::Some(StoreError::CommitFailed)
                            &&& w_top.db.fail_commits
                            &&& self@ == w_top
                        },
                    decreases (if failed is Some {
                        0int
                    } else {
                        1int
                    }), t - self@.progress[i as int],
                {
                    let ghost w_batch = self@;
                    let r = self.db.prune_batch(i, t, self.batch_cap);
                    match r {
                        Ok(new_wm) => {
                            proof {
                                assert(!self@.db.fail_commits);
                            }
                            self.progress.set(i, new_wm);
                            proof {
                                lemma_prune_index_to_step(
                                    w_batch.db,
                                    i as int,
                                    t,
                                    self@.batch_cap,
                                    new_wm,
                                );
                                assert(self@.progress.update(i as int, t)
                                    =~= w_batch.progress.update(i as int, t));
                                assert forall|k: int|
                                    0 <= k < self@.progress.len() implies #[trigger] self@
                                    .progress[k] == self@.db.watermark_of(k) by {
                                    lemma_prune_one_other_watermarks(
                                        w_batch.db,
                                        i as int,
                                        new_wm,
                                        k,
                                    );
                                }
                            }
                        },
                        Err(e) => {
                            failed = Some(e);
                            proof {
                                assert(self@.db.fail_commits);
                            }
                        },
                    }
                }
                match failed {
                    Some(e) => {
                        self.status = WorkerStatus::StoppedErr(e);
                        proof {
                            assert(self@ =~= (WorkerModel {
                                status: WorkerStatus::StoppedErr(StoreError::CommitFailed),
                                ..w_top
                            }));
                            assert(apply_prune_from(w_top, targets@, i as int) == self@);
                        }
                        return ;
                    },
                    None => {
                        proof {
                            assert(self@.progress[i as int] == t);
                            assert(!w_top.db.fail_commits) by {
                                if w_top.db.fail_commits {
                                    assert(self@ == w_top);
                                }
                            }
                            assert(self@.db.prune_index_to(i as int, t, self@.batch_cap)
                                == self@.db) by {
                                lemma_prune_index_to_done(self@.db, i as int, t, self@.batch_cap);
                            }
                            assert(self@.progress.update(i as int, t) =~= self@.progress);
                            assert(self@ =~= (WorkerModel {
                                db: self@.db.prune_index_to(i as int, t, self@.batch_cap),
                                progress: self@.progress.update(i as int, t),
                                ..self@
                            }));
                            assert(self@ == (WorkerModel {
                                db: w_top.db.prune_index_to(i as int, t, w_top.batch_cap),
                                progress: w_top.progress.update(i as int, t),
                                ..w_top
                            }));
                            assert(apply_prune_from(w_top, targets@, i as int)
                                == apply_prune_from(self@, targets@, i as int + 1));
                        }
                    },
                }
            } else {
                proof {
                    assert(apply_prune_from(self@, targets@, i as int) == apply_prune_from(
                        self@,
                        targets@,
                        i as int + 1,
                    ));
                }
            }
            i = i + 1;
        }
        proof {
            assert(apply_prune_from(self@, targets@, i as int) == self@);
        }
    }

    /// Drain the queue: execute each `Prune` in order, stopping cleanly —
    /// with the whole backlog discarded — as soon as a `Quit` is next or
    /// queued anywhere behind the `Prune` at hand, and stopping with the
    /// recorded error when a batch commit fails.
    pub fn work(&mut self, queue: &mut CommandQueue)
        requires
            old(self)@.wf(),
            old(self)@.status is Running,
            commands_bounded(old(queue)@, old(self)@.db.next_version),
        ensures
            final(self)@ == run_commands(old(self)@, old(queue)@),
            final(self)@.wf(),
            final(queue)@.len() == 0,
    {
        loop
            invariant
                self@.wf(),
                commands_bounded(queue@, self@.db.next_version),
                run_commands(self@, queue@) == run_commands(old(self)@, old(queue)@),
            ensures
                self@ == run_commands(old(self)@, old(queue)@),
                self@.wf(),
                queue@.len() == 0,
            decreases queue@.len(),
        {
            let ghost w_pre = self@;
            let ghost q_pre = queue@;
            if !matches!(self.status, WorkerStatus::Running) {
                queue.clear();
                proof {
                    assert(run_commands(w_pre, q_pre) == w_pre);
                }
                break ;
            }
            let cmd = queue.pop_front();
            match cmd {
                None => {
                    break ;
                },
                Some(Command::Quit) => {
                    self.status = WorkerStatus::StoppedOk;
                    queue.clear();
                    proof {
                        assert(self@ =~= (WorkerModel { status: WorkerStatus::StoppedOk, ..w_pre
                        }));
                        assert(run_commands(w_pre, q_pre) == self@);
                    }
                    break ;
                },
                Some(Command::Prune { target_db_versions }) => {
                    if queue.contains_quit() {
                        self.status = WorkerStatus::StoppedOk;
                        queue.clear();
                        proof {
                            assert(self@ =~= (WorkerModel {
                                status: WorkerStatus::StoppedOk,
                                ..w_pre
                            }));
                            assert(run_commands(w_pre, q_pre) == self@);
                        }
                        break ;
                    } else {
                        proof {
                            assert(q_pre[0] matches Command::Prune { target_db_versions: tv }
                                ==> targets_bounded(tv@, self@.db.next_version));
                            assert(targets_bounded(
                                target_db_versions@,
                                self@.db.next_version,
                            ));
                        }
                        self.execute_prune(&target_db_versions);
                        proof {
                            lemma_apply_prune_from_props(w_pre, target_db_versions@, 0);
                            assert forall|k: int| 0 <= k < queue@.len() implies ((
                            #[trigger] queue@[k]) matches Command::Prune { target_db_versions: tv }
                                ==> targets_bounded(tv@, self@.db.next_version)) by {
                                assert(queue@[k] == q_pre[k + 1]);
                            }
                            assert(run_commands(w_pre, q_pre) == run_commands(self@, queue@));
                        }
                    }
                },
            }
        }
    }
}

/// One committed batch is one unfolding of `pruned_to`: pruning the store
/// at `index` by a batch and then to the target equals pruning it to the
/// target from where it was.
proof fn lemma_prune_index_to_step(m: DatabaseModel, index: int, target: u64, cap: u64, new_wm: u64)
    requires
        m.wf(),
        0 <= index < NUM_PRUNER_INDICES,
        m.watermark_of(index) < target,
        1 <= cap,
        new_wm == (if m.watermark_of(index) + cap <= target {
            m.watermark_of(index) + cap
        } else {
            target as int
        }),
    ensures
        m.prune_one(index, new_wm).prune_index_to(index, target, cap) == m.prune_index_to(
            index,
            target,
            cap,
        ),
{
    if index == 0 {
        assert(m.ledger.pruned_to(target, cap) == m.ledger.pruned(new_wm).pruned_to(target, cap));
    } else if index == 1 {
        assert(m.transactions.pruned_to(target, cap) == m.transactions.pruned(new_wm).pruned_to(
            target,
            cap,
        ));
    } else if index == 2 {
        assert(m.events.events.pruned_to(target, cap) == m.events.events.pruned(
            new_wm,
        ).pruned_to(target, cap));
        assert(m.events.index.pruned_to(target, cap) == m.events.index.pruned(new_wm).pruned_to(
            target,
            cap,
        ));
        assert(m.events.pruned_to(target, cap) =~= m.events.pruned(new_wm).pruned_to(
            target,
            cap,
        ));
    } else {
        assert(m.state.pruned_to(target, cap) == m.state.pruned(new_wm).pruned_to(target, cap));
    }
    assert(m.prune_one(index, new_wm).prune_index_to(index, target, cap) =~= m.prune_index_to(
        index,
        target,
        cap,
    ));
}

/// Once the watermark has reached the target, `prune_index_to` is the
/// identity.
proof fn lemma_prune_index_to_done(m: DatabaseModel, index: int, target: u64, cap: u64)
    requires
        m.wf(),
        0 <= index < NUM_PRUNER_INDICES,
        m.watermark_of(index) >= target,
    ensures
        m.prune_index_to(index, target, cap) == m,
{
    if index == 0 {
        assert(m.ledger.pruned_to(target, cap) == m.ledger);
    } else if index == 1 {
        assert(m.transactions.pruned_to(target, cap) == m.transactions);
    } else if index == 2 {
        assert(m.events.events.pruned_to(target, cap) == m.events.events);
        assert(m.events.index.pruned_to(target, cap) == m.events.index);
        assert(m.events.pruned_to(target, cap) =~= m.events);
    } else {
        assert(m.state.pruned_to(target, cap) == m.state);
    }
    assert(m.prune_index_to(index, target, cap) =~= m);
}

/// A batch of the sub-pruner at `index` leaves every other watermark
/// alone and sets that one.
proof fn lemma_prune_one_other_watermarks(m: DatabaseModel, index: int, new_wm: u64, k: int)
    requires
        0 <= index < NUM_PRUNER_INDICES,
        0 <= k < NUM_PRUNER_INDICES,
    ensures
        k == index ==> m.prune_one(index, new_wm).watermark_of(k) == new_wm,
        k != index ==> m.prune_one(index, new_wm).watermark_of(k) == m.watermark_of(k),
{
}

/// What one executed `Prune` command guarantees: well-formedness, the
/// fixed fields, and — for every index — monotone progress, reaching the
/// target when the worker is still running.
pub proof fn lemma_apply_prune_from_props(w: WorkerModel, targets: Seq<u64>, i: int)
    requires
        w.wf(),
        w.status is Running,
        targets_bounded(targets, w.db.next_version),
        0 <= i,
    ensures
        ({
            let r = apply_prune_from(w, targets, i);
            &&& r.wf()
            &&& r.batch_cap == w.batch_cap
            &&& r.db.next_version == w.db.next_version
            &&& r.db.fail_commits == w.db.fail_commits
            &&& r.progress.len() == w.progress.len()
            &&& forall|k: int| 0 <= k < w.progress.len() ==> #[trigger] w.progress[k]
                <= r.progress[k]
            &&& (r.status is Running || r.status == WorkerStatus::StoppedErr(
                StoreError::CommitFailed,
            ))
            &&& (r.status is Running ==> forall|k: int|
                i <= k < active_count(w.progress, targets) ==> #[trigger] r.progress[k]
                    >= targets[k])
            &&& (!w.db.fail_commits ==> r.status is Running)
            &&& (w.db.fail_commits && (exists|k: int|
                i <= k < active_count(w.progress, targets) && targets[k] > #[trigger] w.progress[k])
                ==> r.status == WorkerStatus::StoppedErr(StoreError::CommitFailed))
            &&& forall|k: int| 0 <= k < NUM_PRUNER_INDICES ==> #[trigger] w.db.watermark_of(k)
                <= r.db.watermark_of(k)
        }),
    decreases active_count(w.progress, targets) - i,
{
    if i < 0 || i >= active_count(w.progress, targets) {
    } else {
        let t = targets[i];
        let p = w.progress[i];
        let r = apply_prune_from(w, targets, i);
        if t <= p {
            lemma_apply_prune_from_props(w, targets, i + 1);
            assert(r == apply_prune_from(w, targets, i + 1));
            if r.status is Running {
                assert forall|k: int| i <= k < active_count(w.progress, targets) implies #[trigger] r.progress[k] >= targets[k] by {
                    if k == i {
                        assert(w.progress[i] <= r.progress[i]);
                    }
                }
            }
            if w.db.fail_commits && (exists|k: int|
                i <= k < active_count(w.progress, targets) && targets[k] > #[trigger] w.progress[k]) {
                let k = choose|k: int|
                    i <= k < active_count(w.progress, targets) && targets[k] > #[trigger] w.progress[k];
                assert(k != i);
                assert(i + 1 <= k < active_count(w.progress, targets) && targets[k]
                    > w.progress[k]);
            }
        } else if w.db.fail_commits {
        } else {
            let w2 = WorkerModel {
                db: w.db.prune_index_to(i, t, w.batch_cap),
                progress: w.progress.update(i, t),
                ..w
            };
            lemma_prune_index_to_props(w.db, i, t, w.batch_cap);
            assert forall|k: int| 0 <= k < w2.progress.len() implies #[trigger] w2.progress[k]
                == w2.db.watermark_of(k) by {
                if k != i {
                    assert(w.progress[k] == w.db.watermark_of(k));
                    assert(w2.db.watermark_of(k) == w.db.watermark_of(k));
                }
            }
            assert(w2.wf());
            lemma_apply_prune_from_props(w2, targets, i + 1);
            assert(r == apply_prune_from(w2, targets, i + 1));
            assert forall|k: int| 0 <= k < w.progress.len() implies #[trigger] w.progress[k]
                <= r.progress[k] by {
                assert(w2.progress[k] <= r.progress[k]);
                if k == i {
                    assert(w2.progress[i] == t);
                }
            }
            if r.status is Running {
                assert forall|k: int| i <= k < active_count(w.progress, targets) implies #[trigger] r.progress[k] >= targets[k] by {
                    if k == i {
                        assert(w2.progress[i] <= r.progress[i]);
                    }
                }
            }
            assert forall|k: int| 0 <= k < NUM_PRUNER_INDICES implies #[trigger] w.db.watermark_of(
                k,
            ) <= r.db.watermark_of(k) by {
                assert(w2.db.watermark_of(k) <= r.db.watermark_of(k));
                if k == i {
                    assert(w.progress[i] == w.db.watermark_of(i));
                    assert(w2.db.watermark_of(i) == t);
                }
            }
        }
    }
}

/// What one executed `Prune` command can never do: change what a
/// retained version holds.  In every store, every version at or above the
/// store's final watermark reads exactly as before the command.
pub proof fn lemma_apply_prune_preserves_reads(w: WorkerModel, targets: Seq<u64>, i: int)
    requires
        w.wf(),
        w.status is Running,
        targets_bounded(targets, w.db.next_version),
        0 <= i,
    ensures
        ({
            let r = apply_prune_from(w, targets, i);
            &&& forall|key: Seq<u8>, v: u64|
                v >= r.db.state.watermark ==> crate::state_store::value_at(
                    r.db.state.records,
                    key,
                    v,
                ) == crate::state_store::value_at(w.db.state.records, key, v)
            &&& forall|v: u64| v >= r.db.transactions.watermark ==> r.db.transactions.data_at(v)
                == w.db.transactions.data_at(v)
            &&& forall|v: u64| v >= r.db.ledger.watermark ==> r.db.ledger.data_at(v)
                == w.db.ledger.data_at(v)
            &&& forall|v: u64| v >= r.db.events.events.watermark ==> r.db.events.events.data_at(
                v,
            ) == w.db.events.events.data_at(v)
            &&& forall|v: u64| v >= r.db.events.index.watermark ==> r.db.events.index.data_at(v)
                == w.db.events.index.data_at(v)
        }),
    decreases active_count(w.progress, targets) - i,
{
    lemma_apply_prune_from_props(w, targets, i);
    let r = apply_prune_from(w, targets, i);
    if i >= active_count(w.progress, targets) {
    } else {
        let t = targets[i];
        let p = w.progress[i];
        if t <= p {
            lemma_apply_prune_preserves_reads(w, targets, i + 1);
        } else if w.db.fail_commits {
        } else {
            let w2 = WorkerModel {
                db: w.db.prune_index_to(i, t, w.batch_cap),
                progress: w.progress.update(i, t),
                ..w
            };
            lemma_prune_index_to_props(w.db, i, t, w.batch_cap);
            assert forall|k: int| 0 <= k < w2.progress.len() implies #[trigger] w2.progress[k]
                == w2.db.watermark_of(k) by {
                if k != i {
                    assert(w.progress[k] == w.db.watermark_of(k));
                    assert(w2.db.watermark_of(k) == w.db.watermark_of(k));
                }
            }
            assert(w2.wf());
            lemma_apply_prune_from_props(w2, targets, i + 1);
            lemma_apply_prune_preserves_reads(w2, targets, i + 1);
            assert(r == apply_prune_from(w2, targets, i + 1));
            if i == 3 {
                assert(w2.db.state == w.db.state.pruned_to(t, w.batch_cap));
                assert(w.db.state.watermark == p);
                crate::state_store::lemma_pruned_to_wf(w.db.state, t, w.batch_cap);
                assert(w2.db.state.watermark == t);
                assert forall|key: Seq<u8>, v: u64| v >= r.db.state.watermark implies
                    crate::state_store::value_at(r.db.state.records, key, v)
                    == crate::state_store::value_at(w.db.state.records, key, v) by {
                    assert(w2.db.watermark_of(3) <= r.db.watermark_of(3));
                    assert(v >= t);
                    crate::state_store::lemma_pruned_to_preserves_value_at(
                        w.db.state,
                        t,
                        w.batch_cap,
                        key,
                        v,
                    );
                }
            } else if i == 0 {
                crate::records::lemma_records_pruned_to_wf(w.db.ledger, t, w.batch_cap);
                assert forall|v: u64| v >= r.db.ledger.watermark implies r.db.ledger.data_at(v)
                    == w.db.ledger.data_at(v) by {
                    assert(w2.db.watermark_of(0) <= r.db.watermark_of(0));
                    assert(v >= t);
                    crate::records::lemma_records_pruned_to_preserves_data_at(
                        w.db.ledger,
                        t,
                        w.batch_cap,
                        v,
                    );
                }
            } else if i == 1 {
                crate::records::lemma_records_pruned_to_wf(w.db.transactions, t, w.batch_cap);
                assert forall|v: u64| v >= r.db.transactions.watermark implies
                    r.db.transactions.data_at(v) == w.db.transactions.data_at(v) by {
                    assert(w2.db.watermark_of(1) <= r.db.watermark_of(1));
                    assert(v >= t);
                    crate::records::lemma_records_pruned_to_preserves_data_at(
                        w.db.transactions,
                        t,
                        w.batch_cap,
                        v,
                    );
                }
            } else {
                crate::records::lemma_records_pruned_to_wf(w.db.events.events, t, w.batch_cap);
                crate::records::lemma_records_pruned_to_wf(w.db.events.index, t, w.batch_cap);
                assert forall|v: u64| v >= r.db.events.events.watermark implies
                    r.db.events.events.data_at(v) == w.db.events.events.data_at(v) by {
                    assert(w2.db.watermark_of(2) <= r.db.watermark_of(2));
                    assert(v >= t);
                    crate::records::lemma_records_pruned_to_preserves_data_at(
                        w.db.events.events,
                        t,
                        w.batch_cap,
                        v,
                    );
                }
                assert forall|v: u64| v >= r.db.events.index.watermark implies
                    r.db.events.index.data_at(v) == w.db.events.index.data_at(v) by {
                    assert(w2.db.watermark_of(2) <= r.db.watermark_of(2));
                    assert(v >= t);
                    crate::records::lemma_records_pruned_to_preserves_data_at(
                        w.db.events.index,
                        t,
                        w.batch_cap,
                        v,
                    );
                }
            }
        }
    }
}

/// Shutdown takes absolute priority over queued work: with a `Quit`
/// queued anywhere, a running worker stops cleanly and applies nothing —
/// the database and the progress table come out exactly as they went in.
pub proof fn lemma_run_commands_quit(w: WorkerModel, cmds: Seq<Command>)
    requires
        w.status is Running,
        has_quit(cmds),
    ensures
        run_commands(w, cmds) == (WorkerModel { status: WorkerStatus::StoppedOk, ..w }),
{
    let qi = choose|i: int| 0 <= i < cmds.len() && (#[trigger] cmds[i]) is Quit;
    match cmds[0] {
        Command::Quit => {
        },
        Command::Prune { .. } => {
            assert(qi != 0);
            assert(cmds.skip(1)[qi - 1] is Quit);
            assert(has_quit(cmds.skip(1)));
        },
    }
}

/// Whatever the command sequence, every progress entry is non-decreasing,
/// and the worker stays well-formed over an unchanged committed history.
pub proof fn lemma_run_commands_props(w: WorkerModel, cmds: Seq<Command>)
    requires
        w.wf(),
        commands_bounded(cmds, w.db.next_version),
    ensures
        ({
            let r = run_commands(w, cmds);
            &&& r.wf()
            &&& r.batch_cap == w.batch_cap
            &&& r.db.next_version == w.db.next_version
            &&& r.progress.len() == w.progress.len()
            &&& forall|k: int| 0 <= k < w.progress.len() ==> #[trigger] w.progress[k]
                <= r.progress[k]
        }),
    decreases cmds.len(),
{
    if !(w.status is Running) || cmds.len() == 0 {
    } else {
        match cmds[0] {
            Command::Quit => {
            },
            Command::Prune { target_db_versions } => {
                if has_quit(cmds.skip(1)) {
                } else {
                    assert(commands_bounded(cmds, w.db.next_version));
                    assert(cmds[0] matches Command::Prune { target_db_versions: tv }
                        ==> targets_bounded(tv@, w.db.next_version));
                    lemma_apply_prune_from_props(w, target_db_versions@, 0);
                    let w2 = apply_prune_from(w, target_db_versions@, 0);
                    assert forall|k: int| 0 <= k < cmds.skip(1).len() implies ((#[trigger] cmds.skip(
                        1,
                    )[k]) matches Command::Prune { target_db_versions: tv } ==> targets_bounded(
                        tv@,
                        w2.db.next_version,
                    )) by {
                        assert(cmds.skip(1)[k] == cmds[k + 1]);
                    }
                    lemma_run_commands_props(w2, cmds.skip(1));
                    let r = run_commands(w, cmds);
                    assert(r == run_commands(w2, cmds.skip(1)));
                    assert forall|k: int| 0 <= k < w.progress.len() implies #[trigger] w.progress[k]
                        <= r.progress[k] by {
                        assert(w.progress[k] <= w2.progress[k]);
                        assert(w2.progress[k] <= r.progress[k]);
                    }
                }
            },
        }
    }
}

/// Pruning one store to a target keeps the database well-formed, sets
/// that store's watermark to the target and leaves the rest alone.
proof fn lemma_prune_index_to_props(m: DatabaseModel, index: int, target: u64, cap: u64)
    requires
        m.wf(),
        0 <= index < NUM_PRUNER_INDICES,
        m.watermark_of(index) < target,
        target <= m.next_version,
        1 <= cap,
    ensures
        ({
            let r = m.prune_index_to(index, target, cap);
            &&& r.wf()
            &&& r.watermark_of(index) == target
            &&& forall|k: int|
                0 <= k < NUM_PRUNER_INDICES && k != index ==> #[trigger] r.watermark_of(k)
                    == m.watermark_of(k)
            &&& r.next_version == m.next_version
            &&& r.fail_commits == m.fail_commits
        }),
{
    let r = m.prune_index_to(index, target, cap);
    if index == 0 {
        crate::records::lemma_records_pruned_to_wf(m.ledger, target, cap);
        lemma_records_pruned_to_bounded(m.ledger, target, cap, m.next_version);
    } else if index == 1 {
        crate::records::lemma_records_pruned_to_wf(m.transactions, target, cap);
        lemma_records_pruned_to_bounded(m.transactions, target, cap, m.next_version);
    } else if index == 2 {
        crate::records::lemma_records_pruned_to_wf(m.events.events, target, cap);
        crate::records::lemma_records_pruned_to_wf(m.events.index, target, cap);
        lemma_records_pruned_to_bounded(m.events.events, target, cap, m.next_version);
        lemma_records_pruned_to_bounded(m.events.index, target, cap, m.next_version);
    } else {
        crate::state_store::lemma_pruned_to_wf(m.state, target, cap);
        lemma_state_pruned_to_bounded(m.state, target, cap, m.next_version);
    }
    assert forall|k: int| 0 <= k < NUM_PRUNER_INDICES implies #[trigger] r.watermark_of(k)
        <= r.next_version by {
        assert(m.watermark_of(k) <= m.next_version);
    }
}

/// Batched pruning of a record store keeps every record's version bound.
proof fn lemma_records_pruned_to_bounded(
    m: crate::records::RecordsModel,
    target: u64,
    cap: u64,
    bound: u64,
)
    requires
        forall|i: int| 0 <= i < m.records.len() ==> (#[trigger] m.records[i]).version < bound,
    ensures
        forall|i: int|
            0 <= i < m.pruned_to(target, cap).records.len() ==> (#[trigger] m.pruned_to(
                target,
                cap,
            ).records[i]).version < bound,
    decreases target - m.watermark,
{
    if cap == 0 || m.watermark >= target {
    } else {
        let step: u64 = if target <= m.watermark + cap {
            target
        } else {
            (m.watermark + cap) as u64
        };
        assert forall|i: int| 0 <= i < m.pruned(step).records.len() implies (#[trigger] m.pruned(
            step,
        ).records[i]).version < bound by {
            crate::util::lemma_filter_element_index(
                m.records,
                crate::records::retained_by(step),
                i,
            );
        }
        lemma_records_pruned_to_bounded(m.pruned(step), target, cap, bound);
        assert(m.pruned_to(target, cap) == m.pruned(step).pruned_to(target, cap));
    }
}

/// Batched pruning of the state store keeps every record's version bound.
proof fn lemma_state_pruned_to_bounded(
    m: crate::state_store::StateStoreModel,
    target: u64,
    cap: u64,
    bound: u64,
)
    requires
        forall|i: int| 0 <= i < m.records.len() ==> (#[trigger] m.records[i]).version < bound,
    ensures
        forall|i: int|
            0 <= i < m.pruned_to(target, cap).records.len() ==> (#[trigger] m.pruned_to(
                target,
                cap,
            ).records[i]).version < bound,
    decreases target - m.watermark,
{
    if cap == 0 || m.watermark >= target {
    } else {
        let step: u64 = if target <= m.watermark + cap {
            target
        } else {
            (m.watermark + cap) as u64
        };
        assert forall|i: int| 0 <= i < m.pruned(step).records.len() implies (#[trigger] m.pruned(
            step,
        ).records[i]).version < bound by {
            crate::util::lemma_filter_element_index(
                m.records,
                crate::state_store::retained_state(m.records, m.watermark, step),
                i,
            );
        }
        lemma_state_pruned_to_bounded(m.pruned(step), target, cap, bound);
        assert(m.pruned_to(target, cap) == m.pruned(step).pruned_to(target, cap));
    }
}

} // verus!
