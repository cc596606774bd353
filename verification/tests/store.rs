use crossover_db::error::StorageError;
use crossover_db::listing::{decode_row, scan_guild};
use crossover_db::codec::Key;
use crossover_db::store::{found_target, CrossoverDb, MAX_DATABASES};

fn fresh() -> (tempfile::TempDir, CrossoverDb) {
    let dir = tempfile::tempdir().unwrap();
    let db = CrossoverDb::new(dir.path().to_str().unwrap()).unwrap();
    (dir, db)
}

/// Writes one raw entry into the store's database, past the store.
fn plant(dir: &tempfile::TempDir, key: &[u8], value: &[u8]) {
    let env = heed::EnvOpenOptions::new()
        .max_dbs(MAX_DATABASES)
        .open(dir.path())
        .unwrap();
    let raw: heed::Database<heed::types::ByteSlice, heed::types::ByteSlice> =
        env.create_database(Some("crossovers")).unwrap();
    let mut txn = env.write_txn().unwrap();
    raw.put(&mut txn, key, value).unwrap();
    txn.commit().unwrap();
}

#[test]
fn put_get_list_remove_get() {
    let (_dir, db) = fresh();
    assert_eq!(db.put_crossover(100, 1, 2), Ok(()));
    assert_eq!(db.get_crossover(100, 1), Ok(Some(2)));
    assert_eq!(db.get_all(100), Ok(vec![(1, 2)]));
    assert_eq!(db.remove_crossover(100, 1, 2), Ok(true));
    assert_eq!(db.get_crossover(100, 1), Ok(None));
}

#[test]
fn open_fails_where_there_is_no_directory() {
    let dir = tempfile::tempdir().unwrap();
    let missing = dir.path().join("missing");
    let r = CrossoverDb::new(missing.to_str().unwrap());
    assert!(matches!(r, Err(StorageError::Unavailable(_))));
}

#[test]
fn put_then_get_returns_the_target() {
    let (_dir, db) = fresh();
    for (guild, source, target) in [(1u64, 2u64, 3u64), (0, 0, 0), (u64::MAX, u64::MAX, u64::MAX), (7, 1 << 40, 9)] {
        assert_eq!(db.put_crossover(guild, source, target), Ok(()));
        assert_eq!(db.get_crossover(guild, source), Ok(Some(target)));
    }
}

#[test]
fn get_of_what_was_never_put_is_empty() {
    let (_dir, db) = fresh();
    assert_eq!(db.get_crossover(1, 2), Ok(None));
    db.put_crossover(1, 2, 3).unwrap();
    assert_eq!(db.get_crossover(1, 3), Ok(None));
    assert_eq!(db.get_crossover(2, 1), Ok(None));
}

#[test]
fn remove_of_what_is_not_there_is_false() {
    let (_dir, db) = fresh();
    assert_eq!(db.remove_crossover(5, 6, 7), Ok(false));
    db.put_crossover(5, 6, 7).unwrap();
    assert_eq!(db.remove_crossover(5, 7, 7), Ok(false));
    assert_eq!(db.remove_crossover(6, 6, 7), Ok(false));
    assert_eq!(db.get_crossover(5, 6), Ok(Some(7)));
}

#[test]
fn remove_is_idempotent() {
    let (_dir, db) = fresh();
    db.put_crossover(5, 6, 7).unwrap();
    assert_eq!(db.remove_crossover(5, 6, 7), Ok(true));
    assert_eq!(db.remove_crossover(5, 6, 7), Ok(false));
}

#[test]
fn remove_goes_by_the_key_alone() {
    let (_dir, db) = fresh();
    db.put_crossover(5, 6, 7).unwrap();
    assert_eq!(db.remove_crossover(5, 6, 999), Ok(true));
    assert_eq!(db.get_crossover(5, 6), Ok(None));
}

#[test]
fn put_remove_get_is_empty() {
    let (_dir, db) = fresh();
    db.put_crossover(11, 12, 13).unwrap();
    assert_eq!(db.remove_crossover(11, 12, 13), Ok(true));
    assert_eq!(db.get_crossover(11, 12), Ok(None));
    assert_eq!(db.get_all(11), Ok(vec![]));
}

#[test]
fn guilds_do_not_interfere() {
    let (_dir, db) = fresh();
    db.put_crossover(1, 50, 100).unwrap();
    db.put_crossover(2, 50, 200).unwrap();
    assert_eq!(db.get_crossover(1, 50), Ok(Some(100)));
    assert_eq!(db.get_crossover(2, 50), Ok(Some(200)));
    assert_eq!(db.remove_crossover(1, 50, 100), Ok(true));
    assert_eq!(db.get_crossover(2, 50), Ok(Some(200)));
}

#[test]
fn listing_holds_the_guild_and_nothing_else() {
    let (_dir, db) = fresh();
    db.put_crossover(10, 1, 11).unwrap();
    db.put_crossover(10, 2, 12).unwrap();
    db.put_crossover(20, 3, 13).unwrap();
    assert_eq!(db.get_all(10), Ok(vec![(1, 11), (2, 12)]));
    assert_eq!(db.get_all(20), Ok(vec![(3, 13)]));
}

#[test]
fn listing_of_an_unknown_guild_is_empty() {
    let (_dir, db) = fresh();
    assert_eq!(db.get_all(10), Ok(vec![]));
    db.put_crossover(20, 3, 13).unwrap();
    assert_eq!(db.get_all(10), Ok(vec![]));
}

#[test]
fn listing_ascends_by_source() {
    let (_dir, db) = fresh();
    for source in [70_000u64, 2, 256, 1, u64::MAX, 255, 1 << 56] {
        db.put_crossover(9, source, source / 2).unwrap();
    }
    db.put_crossover(8, 5, 5).unwrap();
    db.put_crossover(10, 0, 5).unwrap();
    assert_eq!(
        db.get_all(9),
        Ok(vec![
            (1, 0),
            (2, 1),
            (255, 127),
            (256, 128),
            (70_000, 35_000),
            (1 << 56, 1 << 55),
            (u64::MAX, u64::MAX / 2),
        ])
    );
}

#[test]
fn last_put_wins() {
    let (_dir, db) = fresh();
    db.put_crossover(3, 4, 5).unwrap();
    db.put_crossover(3, 4, 6).unwrap();
    assert_eq!(db.get_crossover(3, 4), Ok(Some(6)));
    assert_eq!(db.get_all(3), Ok(vec![(4, 6)]));
}

#[test]
fn what_was_committed_is_there_after_reopening() {
    let dir = tempfile::tempdir().unwrap();
    let path = dir.path().to_str().unwrap();
    {
        let db = CrossoverDb::new(path).unwrap();
        db.put_crossover(1, 2, 3).unwrap();
        db.put_crossover(1, 4, 5).unwrap();
        db.remove_crossover(1, 4, 5).unwrap();
    }
    let db = CrossoverDb::new(path).unwrap();
    assert_eq!(db.get_crossover(1, 2), Ok(Some(3)));
    assert_eq!(db.get_crossover(1, 4), Ok(None));
}

#[test]
fn a_write_transaction_sees_its_own_writes() {
    let (_dir, db) = fresh();
    let mut txn = db.write_txn().unwrap();
    assert_eq!(txn.get(1, 2), Ok(None));
    assert_eq!(txn.put(1, 2, 3), Ok(()));
    assert_eq!(txn.get(1, 2), Ok(Some(3)));
    assert_eq!(txn.put(1, 1, 9), Ok(()));
    assert_eq!(txn.put(2, 0, 9), Ok(()));
    assert_eq!(txn.list(1), Ok(vec![(1, 9), (2, 3)]));
    assert_eq!(txn.remove(1, 2), Ok(true));
    assert_eq!(txn.remove(1, 2), Ok(false));
    assert_eq!(txn.get(1, 2), Ok(None));
    assert_eq!(txn.list(1), Ok(vec![(1, 9)]));
    assert_eq!(txn.commit(), Ok(()));
    assert_eq!(db.get_all(1), Ok(vec![(1, 9)]));
    assert_eq!(db.get_all(2), Ok(vec![(0, 9)]));
}

#[test]
fn a_dropped_write_transaction_leaves_no_trace() {
    let (_dir, db) = fresh();
    db.put_crossover(1, 2, 3).unwrap();
    {
        let mut txn = db.write_txn().unwrap();
        txn.put(1, 2, 4).unwrap();
        txn.put(1, 5, 6).unwrap();
        txn.remove(1, 2).unwrap();
    }
    assert_eq!(db.get_crossover(1, 2), Ok(Some(3)));
    assert_eq!(db.get_all(1), Ok(vec![(2, 3)]));
}

#[test]
fn a_read_transaction_reads_one_snapshot() {
    let (_dir, db) = fresh();
    db.put_crossover(1, 2, 3).unwrap();
    let txn = db.read_txn().unwrap();
    assert_eq!(txn.get(1, 2), Ok(Some(3)));
    assert_eq!(txn.get(1, 3), Ok(None));
    assert_eq!(txn.list(1), Ok(vec![(2, 3)]));
    assert_eq!(txn.commit(), Ok(()));
}

#[test]
fn a_value_that_is_no_target_is_corrupt() {
    let (dir, db) = fresh();
    db.put_crossover(1, 1, 1).unwrap();
    plant(&dir, &Key { guild: 1, source: 2 }.encode(), &[1, 2, 3]);
    assert_eq!(db.get_crossover(1, 2), Err(StorageError::Corrupt));
    assert_eq!(db.get_crossover(1, 1), Ok(Some(1)));
    assert_eq!(db.get_all(1), Err(StorageError::Corrupt));
}

#[test]
fn a_key_that_is_no_key_is_corrupt() {
    let (dir, db) = fresh();
    db.put_crossover(1, 1, 1).unwrap();
    plant(&dir, &[9, 9, 9], &[0, 0, 0, 0, 0, 0, 0, 1]);
    assert_eq!(db.get_crossover(1, 1), Ok(Some(1)));
    assert_eq!(db.get_all(1), Err(StorageError::Corrupt));
    assert_eq!(db.get_all(2), Err(StorageError::Corrupt));
}

#[test]
fn a_planted_record_is_read_like_any_other() {
    let (dir, db) = fresh();
    plant(
        &dir,
        &[0, 0, 0, 0, 0, 0, 0, 7, 0, 0, 0, 0, 0, 0, 1, 0],
        &[0, 0, 0, 0, 0, 0, 2, 0],
    );
    assert_eq!(db.get_crossover(7, 256), Ok(Some(512)));
    assert_eq!(db.get_all(7), Ok(vec![(256, 512)]));
}

#[test]
fn found_target_reads_what_a_lookup_found() {
    assert_eq!(found_target(None), Ok(None));
    assert_eq!(found_target(Some(vec![0, 0, 0, 0, 0, 0, 0, 2])), Ok(Some(2)));
    assert_eq!(found_target(Some(vec![2])), Err(StorageError::Corrupt));
    assert_eq!(found_target(Some(vec![])), Err(StorageError::Corrupt));
}

#[test]
fn decode_row_wants_a_key_and_a_target() {
    let key = Key { guild: 3, source: 4 };
    assert_eq!(decode_row(&key.encode(), &[0, 0, 0, 0, 0, 0, 0, 5]), Some((key, 5)));
    assert_eq!(decode_row(&key.encode(), &[5]), None);
    assert_eq!(decode_row(&[3, 4], &[0, 0, 0, 0, 0, 0, 0, 5]), None);
}

#[test]
fn scan_draws_one_guild_from_a_walk_over_all() {
    let (dir, db) = fresh();
    db.put_crossover(2, 9, 90).unwrap();
    db.put_crossover(1, 7, 70).unwrap();
    db.put_crossover(2, 3, 30).unwrap();
    db.put_crossover(3, 1, 10).unwrap();
    let env = heed::EnvOpenOptions::new()
        .max_dbs(MAX_DATABASES)
        .open(dir.path())
        .unwrap();
    let raw: heed::Database<heed::types::ByteSlice, heed::types::ByteSlice> =
        env.create_database(Some("crossovers")).unwrap();
    let txn = env.read_txn().unwrap();
    let mut it = raw.iter(&txn).unwrap();
    assert_eq!(scan_guild(&mut it, 2), Ok(vec![(3, 30), (9, 90)]));
    let mut it = raw.iter(&txn).unwrap();
    it.next();
    assert_eq!(scan_guild(&mut it, 2), Ok(vec![(3, 30), (9, 90)]));
    let mut it = raw.iter(&txn).unwrap();
    it.next();
    it.next();
    assert_eq!(scan_guild(&mut it, 2), Ok(vec![(9, 90)]));
    assert_eq!(scan_guild(&mut it, 2), Ok(vec![]));
}

#[test]
fn a_second_read_transaction_on_one_thread_fails() {
    let (_dir, db) = fresh();
    db.put_crossover(1, 2, 3).unwrap();
    let first = db.read_txn().unwrap();
    assert!(matches!(db.read_txn(), Err(StorageError::TransactionFailed(_))));
    assert!(matches!(db.get_crossover(1, 2), Err(StorageError::TransactionFailed(_))));
    assert!(matches!(db.get_all(1), Err(StorageError::TransactionFailed(_))));
    assert_eq!(first.get(1, 2), Ok(Some(3)));
    assert_eq!(first.commit(), Ok(()));
    assert_eq!(db.get_crossover(1, 2), Ok(Some(3)));
}

#[test]
fn a_full_store_fails_the_transaction_and_keeps_what_it_had() {
    let (_dir, db) = fresh();
    db.put_crossover(1, 0, 7).unwrap();
    let mut failure = None;
    {
        let mut txn = db.write_txn().unwrap();
        for source in 0..1_000_000u64 {
            if let Err(e) = txn.put(1, source, source) {
                failure = Some(e);
                break;
            }
        }
    }
    assert!(matches!(failure, Some(StorageError::TransactionFailed(_))));
    assert_eq!(db.get_all(1), Ok(vec![(0, 7)]));
}

#[test]
fn a_read_transaction_can_answer_and_end_in_one() {
    let (_dir, db) = fresh();
    db.put_crossover(1, 2, 3).unwrap();
    db.put_crossover(1, 1, 4).unwrap();
    assert_eq!(db.read_txn().unwrap().get_and_commit(1, 2), Ok(Some(3)));
    assert_eq!(db.read_txn().unwrap().get_and_commit(1, 3), Ok(None));
    assert_eq!(db.read_txn().unwrap().list_and_commit(1), Ok(vec![(1, 4), (2, 3)]));
    assert_eq!(db.read_txn().unwrap().list_and_commit(2), Ok(vec![]));
}

#[test]
fn a_read_transaction_that_finds_corruption_says_so_and_ends() {
    let (dir, db) = fresh();
    plant(&dir, &Key { guild: 1, source: 2 }.encode(), &[1, 2, 3]);
    assert_eq!(db.read_txn().unwrap().get_and_commit(1, 2), Err(StorageError::Corrupt));
    assert_eq!(db.read_txn().unwrap().list_and_commit(1), Err(StorageError::Corrupt));
    assert_eq!(db.read_txn().unwrap().get_and_commit(1, 3), Ok(None));
}

#[test]
fn a_remove_that_is_committed_at_once_stays() {
    let (_dir, db) = fresh();
    db.put_crossover(1, 2, 3).unwrap();
    assert_eq!(db.write_txn().unwrap().remove_and_commit(1, 3), Ok(false));
    assert_eq!(db.get_crossover(1, 2), Ok(Some(3)));
    assert_eq!(db.write_txn().unwrap().remove_and_commit(1, 2), Ok(true));
    assert_eq!(db.get_crossover(1, 2), Ok(None));
    assert_eq!(db.write_txn().unwrap().remove_and_commit(1, 2), Ok(false));
}
