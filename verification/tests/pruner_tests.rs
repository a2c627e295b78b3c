//! End-to-end tests of the pruner: the front door, the worker's command
//! loop, batching, restart and failure handling.

use prunedb::command::{Command, CommandQueue};
use prunedb::config::{PrunerIndex, StoragePrunerConfig, NUM_PRUNER_INDICES};
use prunedb::db::Database;
use prunedb::error::StoreError;
use prunedb::pruner::Pruner;
use prunedb::state_store::StateStore;
use prunedb::worker::{Worker, WorkerStatus};

fn put_value_set(db: &mut Database, value_set: Vec<(Vec<u8>, Vec<u8>)>, version: u64) {
    let v = db.commit(value_set, Vec::new(), Vec::new(), Vec::new());
    assert_eq!(v, version);
}

fn verify_state_in_store(
    state_store: &StateStore,
    key: &Vec<u8>,
    expected_value: Option<&Vec<u8>>,
    version: u64,
) {
    let value = state_store.get_value_by_version(key, version).unwrap();
    assert_eq!(value.as_ref(), expected_value);
}

fn test_config() -> StoragePrunerConfig {
    StoragePrunerConfig {
        state_store_prune_window: Some(0),
        default_prune_window: Some(0),
        max_versions_per_batch: 100,
    }
}

#[test]
fn test_state_store_pruner() {
    let key = String::from("test_key1").into_bytes();

    let value0 = String::from("test_val1").into_bytes();
    let value1 = String::from("test_val2").into_bytes();
    let value2 = String::from("test_val3").into_bytes();

    let mut db = Database::new();
    put_value_set(&mut db, vec![(key.clone(), value0.clone())], 0);
    put_value_set(&mut db, vec![(key.clone(), value1.clone())], 1);
    put_value_set(&mut db, vec![(key.clone(), value2.clone())], 2);

    let mut pruner = Pruner::new(db, test_config()).unwrap();

    // Prune till version=0.
    {
        pruner
            .wake_and_wait(0, PrunerIndex::StateStorePruner as usize)
            .unwrap();
        verify_state_in_store(pruner.db().state_store(), &key, Some(&value0), 0);
        verify_state_in_store(pruner.db().state_store(), &key, Some(&value1), 1);
        verify_state_in_store(pruner.db().state_store(), &key, Some(&value2), 2);
    }
    // Prune till version=1.
    {
        pruner
            .wake_and_wait(1, PrunerIndex::StateStorePruner as usize)
            .unwrap();
        // version 0 is gone.
        assert!(pruner
            .db()
            .state_store()
            .get_value_by_version(&key, 0)
            .is_err());
        // version 1 is still there.
        verify_state_in_store(pruner.db().state_store(), &key, Some(&value1), 1);
        verify_state_in_store(pruner.db().state_store(), &key, Some(&value2), 2);
    }
    // Prune till version=2.
    {
        pruner
            .wake_and_wait(2, PrunerIndex::StateStorePruner as usize)
            .unwrap();
        // version 1 is gone.
        assert!(pruner
            .db()
            .state_store()
            .get_value_by_version(&key, 1)
            .is_err());
        // version 2 is still there.
        verify_state_in_store(pruner.db().state_store(), &key, Some(&value2), 2);
    }
}

#[test]
fn test_worker_quit_eagerly() {
    let key = String::from("test_key1").into_bytes();

    let value0 = String::from("test_val1").into_bytes();
    let value1 = String::from("test_val2").into_bytes();
    let value2 = String::from("test_val3").into_bytes();

    let mut db = Database::new();
    put_value_set(&mut db, vec![(key.clone(), value0.clone())], 0);
    put_value_set(&mut db, vec![(key.clone(), value1.clone())], 1);
    put_value_set(&mut db, vec![(key.clone(), value2.clone())], 2);

    {
        let mut queue = CommandQueue::new();
        let mut worker = Worker::new(db, vec![0, 0], 100);
        queue.send(Command::Prune {
            target_db_versions: vec![1, 0, 0, 0, 0],
        });
        queue.send(Command::Prune {
            target_db_versions: vec![2, 0, 0, 0, 0],
        });
        queue.send(Command::Quit);
        // Worker quits immediately although `Command::Quit` is not the first command sent.
        worker.work(&mut queue);
        assert!(matches!(worker.status(), WorkerStatus::StoppedOk));
        let db = worker.into_db();
        verify_state_in_store(db.state_store(), &key, Some(&value0), 0);
        verify_state_in_store(db.state_store(), &key, Some(&value1), 1);
        verify_state_in_store(db.state_store(), &key, Some(&value2), 2);
    }
}

#[test]
fn progress_is_monotone_across_wakes() {
    let key = b"k".to_vec();
    let mut db = Database::new();
    for v in 0..6u64 {
        put_value_set(&mut db, vec![(key.clone(), vec![v as u8])], v);
    }
    let mut pruner = Pruner::new(db, test_config()).unwrap();
    let mut last = vec![0u64; NUM_PRUNER_INDICES];
    for latest in [2u64, 1, 4, 3, 5] {
        pruner
            .wake_and_wait(latest, PrunerIndex::StateStorePruner as usize)
            .unwrap();
        for i in 0..NUM_PRUNER_INDICES {
            let now = pruner.get_progress(i);
            assert!(now >= last[i]);
            last[i] = now;
        }
    }
    assert_eq!(last[PrunerIndex::StateStorePruner as usize], 5);
}

#[test]
fn wake_with_target_behind_progress_is_a_no_op() {
    let key = b"k".to_vec();
    let mut db = Database::new();
    for v in 0..3u64 {
        put_value_set(&mut db, vec![(key.clone(), vec![v as u8])], v);
    }
    let mut pruner = Pruner::new(db, test_config()).unwrap();
    pruner
        .wake_and_wait(2, PrunerIndex::StateStorePruner as usize)
        .unwrap();
    assert_eq!(
        pruner.get_progress(PrunerIndex::StateStorePruner as usize),
        2
    );
    // A target below current progress is silently satisfied.
    pruner
        .wake_and_wait(1, PrunerIndex::StateStorePruner as usize)
        .unwrap();
    assert_eq!(
        pruner.get_progress(PrunerIndex::StateStorePruner as usize),
        2
    );
}

#[test]
fn disabled_window_never_prunes() {
    let key = b"k".to_vec();
    let mut db = Database::new();
    for v in 0..3u64 {
        put_value_set(&mut db, vec![(key.clone(), vec![v as u8])], v);
    }
    let config = StoragePrunerConfig {
        state_store_prune_window: None,
        default_prune_window: Some(0),
        max_versions_per_batch: 100,
    };
    let mut pruner = Pruner::new(db, config).unwrap();
    pruner
        .wake_and_wait(2, PrunerIndex::StateStorePruner as usize)
        .unwrap();
    assert_eq!(
        pruner.get_progress(PrunerIndex::StateStorePruner as usize),
        0
    );
    let value = pruner
        .db()
        .state_store()
        .get_value_by_version(&key, 0)
        .unwrap();
    assert_eq!(value, Some(vec![0u8]));
}

#[test]
fn restart_keeps_progress_and_deletes_nothing_more() {
    let key = b"k".to_vec();
    let mut db = Database::new();
    for v in 0..4u64 {
        put_value_set(&mut db, vec![(key.clone(), vec![v as u8])], v);
    }
    let mut pruner = Pruner::new(db, test_config()).unwrap();
    pruner
        .wake_and_wait(2, PrunerIndex::StateStorePruner as usize)
        .unwrap();
    let before = pruner.get_progress(PrunerIndex::StateStorePruner as usize);
    assert_eq!(before, 2);

    // Stop the worker and reopen the database.
    let db = pruner.shutdown();
    let reopened = Pruner::new(db, test_config()).unwrap();
    for i in 0..NUM_PRUNER_INDICES {
        assert_eq!(reopened.get_progress(i), reopened.db().watermark(i));
    }
    assert_eq!(
        reopened.get_progress(PrunerIndex::StateStorePruner as usize),
        2
    );
    // No deletions beyond the watermark: retained versions still read.
    verify_state_in_store(reopened.db().state_store(), &key, Some(&vec![2u8]), 2);
    verify_state_in_store(reopened.db().state_store(), &key, Some(&vec![3u8]), 3);
    assert!(reopened
        .db()
        .state_store()
        .get_value_by_version(&key, 1)
        .is_err());
}

#[test]
fn batch_cap_bounds_each_step() {
    let mut db = Database::new();
    for v in 0..6u64 {
        put_value_set(
            &mut db,
            vec![(b"k".to_vec(), vec![v as u8])],
            v,
        );
    }
    // Target B*3 = 6 versions ahead with cap B = 2: each internal step
    // advances the watermark by at most 2.
    let ledger = PrunerIndex::LedgerPruner as usize;
    let mut snapshots = Vec::new();
    let mut wm = db.watermark(ledger);
    while wm < 6 {
        wm = db.prune_batch(ledger, 6, 2).unwrap();
        snapshots.push(wm);
    }
    assert_eq!(snapshots, vec![2, 4, 6]);
}

#[test]
fn failed_batch_commit_stops_the_worker_for_good() {
    let key = b"k".to_vec();
    let mut db = Database::new();
    for v in 0..3u64 {
        put_value_set(&mut db, vec![(key.clone(), vec![v as u8])], v);
    }
    db.set_fail_commits(true);
    let mut pruner = Pruner::new(db, test_config()).unwrap();
    let err = pruner
        .wake_and_wait(2, PrunerIndex::StateStorePruner as usize)
        .unwrap_err();
    assert_eq!(err, StoreError::CommitFailed);
    // Every subsequent call, for any index, returns the stored error.
    let err = pruner
        .wake_and_wait(2, PrunerIndex::LedgerPruner as usize)
        .unwrap_err();
    assert_eq!(err, StoreError::CommitFailed);
    // Nothing was deleted by the failed batch.
    verify_state_in_store(pruner.db().state_store(), &key, Some(&vec![0u8]), 0);
}

#[test]
fn startup_rejects_watermark_beyond_latest() {
    let mut db = Database::new();
    put_value_set(&mut db, vec![(b"k".to_vec(), vec![1u8])], 0);
    // Push the ledger watermark to 1 while the latest committed version
    // is 0: reopening must report the inconsistency, not clamp it.
    db.prune_batch(PrunerIndex::LedgerPruner as usize, 1, 10)
        .unwrap();
    let outcome = Pruner::new(db, test_config());
    assert!(matches!(outcome, Err(StoreError::WatermarkBeyondLatest)));
}
