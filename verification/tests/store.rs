use chain_index::db::Database;
use chain_index::records::{BlockRow, CoinInsert, Digest, Direction, SpendInsert, StorageError};

fn d(n: u64) -> Digest {
    Digest { w0: n, w1: 0, w2: 0, w3: 0 }
}

fn block(n: u64) -> BlockRow {
    BlockRow { hash: d(1000 + n), timestamp: 5000 + n }
}

fn coin(n: u64, parent: u64) -> CoinInsert {
    CoinInsert { coin_id: d(n), parent_coin_id: d(parent), puzzle_hash: d(7000 + n), amount: n }
}

fn spend(n: u64) -> SpendInsert {
    SpendInsert { coin_id: d(n), puzzle_reveal: vec![1, 2, 3], solution: vec![4, 5] }
}

#[test]
fn peak_advances_on_each_ingested_block() {
    let mut db = Database::new();
    assert_eq!(db.peak_height(), None);
    assert!(db.ingest_block(0, block(0), vec![coin(1, 0)], vec![]).is_ok());
    assert_eq!(db.peak_height(), Some(0));
    assert!(db.ingest_block(1, block(1), vec![], vec![]).is_ok());
    assert_eq!(db.peak_height(), Some(1));
}

#[test]
fn peak_unchanged_after_failed_attempt_then_advances() {
    let mut db = Database::new();
    assert!(db.ingest_block(0, block(0), vec![], vec![]).is_ok());
    // A rejected out-of-sequence attempt leaves no partial state behind.
    assert_eq!(
        db.ingest_block(2, block(2), vec![coin(9, 0)], vec![]),
        Err(StorageError::SequenceError)
    );
    assert_eq!(db.peak_height(), Some(0));
    assert_eq!(db.coin(d(9)), None);
    assert!(db.ingest_block(1, block(1), vec![], vec![]).is_ok());
    assert_eq!(db.peak_height(), Some(1));
}

#[test]
fn block_hash_lookup_round_trips() {
    let mut db = Database::new();
    assert!(db.ingest_block(0, block(0), vec![], vec![]).is_ok());
    assert!(db.ingest_block(1, block(1), vec![], vec![]).is_ok());
    for h in 0..2u32 {
        let row = db.block(h).unwrap();
        assert_eq!(db.block_height(row.hash), Some(h));
    }
    assert_eq!(db.block_height(d(12345)), None);
}

#[test]
fn secondary_indexes_track_coins_and_spends() {
    let mut db = Database::new();
    assert!(db.ingest_block(0, block(0), vec![coin(1, 900)], vec![]).is_ok());
    assert!(db.ingest_block(1, block(1), vec![coin(2, 1)], vec![spend(1)]).is_ok());

    assert_eq!(db.coins_by_created_height(0), vec![d(1)]);
    assert_eq!(db.coins_by_created_height(1), vec![d(2)]);
    assert_eq!(db.coins_by_spent_height(1), vec![d(1)]);
    assert_eq!(db.coins_by_spent_height(0), Vec::<Digest>::new());
    assert_eq!(db.coins_by_parent_coin_id(d(900)), vec![d(1)]);
    assert_eq!(db.coins_by_parent_coin_id(d(1)), vec![d(2)]);
    assert_eq!(db.coins_by_parent_coin_id(d(2)), Vec::<Digest>::new());

    let stored = db.coin(d(1)).unwrap();
    assert_eq!(stored.created_height, 0);
    assert_eq!(stored.parent_coin_id, d(900));
    let sp = db.coin_spend(d(1)).unwrap();
    assert_eq!(sp.spent_height, 1);
    assert_eq!(sp.puzzle_reveal, vec![1, 2, 3]);
    assert_eq!(sp.solution, vec![4, 5]);
}

#[test]
fn repeated_reads_return_identical_results() {
    let mut db = Database::new();
    assert!(db.ingest_block(0, block(0), vec![coin(1, 0)], vec![]).is_ok());
    assert!(db.ingest_block(1, block(1), vec![], vec![spend(1)]).is_ok());
    assert_eq!(db.block(0), db.block(0));
    assert_eq!(db.block(7), db.block(7));
    assert_eq!(db.coin(d(1)), db.coin(d(1)));
    let a = db.coin_spend(d(1)).unwrap();
    let b = db.coin_spend(d(1)).unwrap();
    assert_eq!(a.spent_height, b.spent_height);
    assert_eq!(a.puzzle_reveal, b.puzzle_reveal);
    assert_eq!(a.solution, b.solution);
}

#[test]
fn range_scan_pages_ascending_and_descending() {
    let mut db = Database::new();
    for h in 0..20u32 {
        assert!(db.ingest_block(h, block(h as u64), vec![], vec![]).is_ok());
    }
    let forward = db.blocks_range(10, 15, Direction::Forward);
    let expected: Vec<BlockRow> = (10..15u64).map(block).collect();
    assert_eq!(forward, expected);
    let backward = db.blocks_range(10, 15, Direction::Reverse);
    let expected_rev: Vec<BlockRow> = (10..15u64).rev().map(block).collect();
    assert_eq!(backward, expected_rev);
    // A window past the ingested range yields only its overlapping part.
    let clipped = db.blocks_range(18, 25, Direction::Forward);
    assert_eq!(clipped, vec![block(18), block(19)]);
    assert_eq!(db.blocks_range(25, 30, Direction::Forward), Vec::<BlockRow>::new());
}

#[test]
fn double_spend_is_rejected_and_state_kept() {
    let mut db = Database::new();
    assert!(db.ingest_block(0, block(0), vec![coin(1, 0)], vec![]).is_ok());
    assert!(db.ingest_block(1, block(1), vec![], vec![spend(1)]).is_ok());
    assert_eq!(
        db.ingest_block(2, block(2), vec![], vec![spend(1)]),
        Err(StorageError::ConflictError)
    );
    assert_eq!(db.peak_height(), Some(1));
    assert_eq!(db.coin_spend(d(1)).unwrap().spent_height, 1);
    assert_eq!(db.block(2), None);
}

#[test]
fn out_of_sequence_height_is_rejected() {
    let mut db = Database::new();
    assert!(db.ingest_block(0, block(0), vec![], vec![]).is_ok());
    assert_eq!(
        db.ingest_block(2, block(2), vec![], vec![]),
        Err(StorageError::SequenceError)
    );
    // The first block of an empty store must sit at height zero.
    let mut empty = Database::new();
    assert_eq!(
        empty.ingest_block(1, block(1), vec![], vec![]),
        Err(StorageError::SequenceError)
    );
}

#[test]
fn duplicate_coin_creation_is_rejected() {
    let mut db = Database::new();
    assert!(db.ingest_block(0, block(0), vec![coin(1, 0)], vec![]).is_ok());
    assert_eq!(
        db.ingest_block(1, block(1), vec![coin(1, 0)], vec![]),
        Err(StorageError::ConflictError)
    );
    // Twice inside one batch is a conflict as well.
    assert_eq!(
        db.ingest_block(1, block(1), vec![coin(2, 0), coin(2, 0)], vec![]),
        Err(StorageError::ConflictError)
    );
}

#[test]
fn repeated_block_hash_is_rejected() {
    let mut db = Database::new();
    assert!(db.ingest_block(0, block(0), vec![], vec![]).is_ok());
    assert_eq!(
        db.ingest_block(1, block(0), vec![], vec![]),
        Err(StorageError::ConflictError)
    );
}

#[test]
fn spend_of_unknown_coin_is_rejected() {
    let mut db = Database::new();
    assert!(db.ingest_block(0, block(0), vec![], vec![]).is_ok());
    assert_eq!(
        db.ingest_block(1, block(1), vec![], vec![spend(42)]),
        Err(StorageError::ConflictError)
    );
}

#[test]
fn coin_created_and_spent_in_one_block() {
    let mut db = Database::new();
    assert!(db.ingest_block(0, block(0), vec![coin(1, 0)], vec![spend(1)]).is_ok());
    assert_eq!(db.coin(d(1)).unwrap().created_height, 0);
    assert_eq!(db.coin_spend(d(1)).unwrap().spent_height, 0);
    assert_eq!(db.coins_by_created_height(0), vec![d(1)]);
    assert_eq!(db.coins_by_spent_height(0), vec![d(1)]);
}
