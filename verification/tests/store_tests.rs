//! Tests of the stores and the codec underneath the pruner.

use prunedb::codec::{decode_u64_le, encode_u64_le};
use prunedb::config::PrunerIndex;
use prunedb::db::Database;
use prunedb::error::StoreError;

#[test]
fn u64_codec_round_trips_and_is_little_endian() {
    let mut out = Vec::new();
    encode_u64_le(0x0102030405060708, &mut out);
    assert_eq!(out, vec![0x08, 0x07, 0x06, 0x05, 0x04, 0x03, 0x02, 0x01]);
    assert_eq!(decode_u64_le(&out, 0), 0x0102030405060708);

    let mut max = Vec::new();
    encode_u64_le(u64::MAX, &mut max);
    assert_eq!(max, vec![0xff; 8]);
    assert_eq!(decode_u64_le(&max, 0), u64::MAX);

    let mut zero = Vec::new();
    encode_u64_le(0, &mut zero);
    assert_eq!(zero, vec![0; 8]);
    assert_eq!(decode_u64_le(&zero, 0), 0);
}

#[test]
fn commits_land_in_every_store() {
    let mut db = Database::new();
    let v = db.commit(
        vec![(b"key".to_vec(), b"value".to_vec())],
        b"txn0".to_vec(),
        b"node0".to_vec(),
        vec![b"ev0".to_vec(), b"ev1".to_vec()],
    );
    assert_eq!(v, 0);
    assert_eq!(db.latest_version(), Some(0));

    let state = db
        .state_store()
        .get_value_by_version(&b"key".to_vec(), 0)
        .unwrap();
    assert_eq!(state, Some(b"value".to_vec()));

    let txns = db.transaction_store().get_by_version(0).unwrap();
    assert_eq!(txns, vec![b"txn0".to_vec()]);

    let nodes = db.ledger_store().get_by_version(0).unwrap();
    assert_eq!(nodes, vec![b"node0".to_vec()]);

    let events = db.event_store().get_events_by_version(0).unwrap();
    assert_eq!(events, vec![b"ev0".to_vec(), b"ev1".to_vec()]);
}

#[test]
fn range_stores_prune_contiguously_and_refuse_pruned_reads() {
    let mut db = Database::new();
    for v in 0..4u64 {
        db.commit(
            Vec::new(),
            vec![v as u8],
            vec![0x10 + v as u8],
            vec![vec![0x20 + v as u8]],
        );
    }
    let txn_index = PrunerIndex::TransactionStorePruner as usize;
    let wm = db.prune_batch(txn_index, 2, 100).unwrap();
    assert_eq!(wm, 2);
    assert_eq!(db.watermark(txn_index), 2);

    // Below the watermark: refused as pruned.
    assert_eq!(
        db.transaction_store().get_by_version(1).unwrap_err(),
        StoreError::VersionPruned
    );
    // At and above the watermark: intact.
    assert_eq!(
        db.transaction_store().get_by_version(2).unwrap(),
        vec![vec![2u8]]
    );
    assert_eq!(
        db.transaction_store().get_by_version(3).unwrap(),
        vec![vec![3u8]]
    );
    // The other stores are untouched by the transaction-store batch.
    assert_eq!(db.ledger_store().get_by_version(0).unwrap(), vec![vec![0x10u8]]);
    assert_eq!(
        db.event_store().get_events_by_version(0).unwrap(),
        vec![vec![0x20u8]]
    );
}

#[test]
fn event_store_prunes_events_and_index_together() {
    let mut db = Database::new();
    for v in 0..3u64 {
        db.commit(
            Vec::new(),
            Vec::new(),
            Vec::new(),
            vec![vec![v as u8], vec![0x40 + v as u8]],
        );
    }
    let event_index = PrunerIndex::EventStorePruner as usize;
    let wm = db.prune_batch(event_index, 2, 100).unwrap();
    assert_eq!(wm, 2);
    assert_eq!(
        db.event_store().get_events_by_version(0).unwrap_err(),
        StoreError::VersionPruned
    );
    assert_eq!(
        db.event_store().get_events_by_version(2).unwrap(),
        vec![vec![2u8], vec![0x42u8]]
    );
}

#[test]
fn state_pruning_keeps_the_visible_value_of_an_old_key() {
    let mut db = Database::new();
    // "old" is written once at version 0 and never again; "hot" is
    // rewritten at every version.
    db.commit(
        vec![
            (b"old".to_vec(), b"keep-me".to_vec()),
            (b"hot".to_vec(), b"h0".to_vec()),
        ],
        Vec::new(),
        Vec::new(),
        Vec::new(),
    );
    for v in 1..4u64 {
        db.commit(
            vec![(b"hot".to_vec(), format!("h{}", v).into_bytes())],
            Vec::new(),
            Vec::new(),
            Vec::new(),
        );
    }
    let state_index = PrunerIndex::StateStorePruner as usize;
    let wm = db.prune_batch(state_index, 3, 100).unwrap();
    assert_eq!(wm, 3);
    // The value of "old" visible at the retained frontier survives, even
    // though its own version is below the watermark.
    assert_eq!(
        db.state_store()
            .get_value_by_version(&b"old".to_vec(), 3)
            .unwrap(),
        Some(b"keep-me".to_vec())
    );
    // Superseded "hot" values are gone from the retained range reads only
    // through versions at or above the watermark.
    assert_eq!(
        db.state_store()
            .get_value_by_version(&b"hot".to_vec(), 3)
            .unwrap(),
        Some(b"h3".to_vec())
    );
    assert_eq!(
        db.state_store()
            .get_value_by_version(&b"hot".to_vec(), 2)
            .unwrap_err(),
        StoreError::VersionPruned
    );
}

#[test]
fn fail_injection_aborts_the_whole_batch() {
    let mut db = Database::new();
    for v in 0..3u64 {
        db.commit(Vec::new(), vec![v as u8], Vec::new(), Vec::new());
    }
    db.set_fail_commits(true);
    let txn_index = PrunerIndex::TransactionStorePruner as usize;
    let err = db.prune_batch(txn_index, 2, 100).unwrap_err();
    assert_eq!(err, StoreError::CommitFailed);
    // Nothing landed: neither deletions nor the watermark update.
    assert_eq!(db.watermark(txn_index), 0);
    assert_eq!(db.transaction_store().get_by_version(0).unwrap(), vec![vec![0u8]]);
    // Recovery of the storage lets the batch through.
    db.set_fail_commits(false);
    assert_eq!(db.prune_batch(txn_index, 2, 100).unwrap(), 2);
}
