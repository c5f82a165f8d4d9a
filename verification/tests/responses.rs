use chain_index::api::{
    block_by_hash_response, block_by_height_response, blocks_response, coin_by_id_response,
    coins_by_block_response, coins_by_parent_response, latest_block_response, state_response,
    BlocksRequest,
};
use chain_index::db::Database;
use chain_index::default_limit;
use chain_index::records::{BlockRow, CoinInsert, Digest, SpendInsert};

fn d(n: u64) -> Digest {
    Digest { w0: n, w1: n, w2: 0, w3: n }
}

fn block(n: u64) -> BlockRow {
    BlockRow { hash: d(1000 + n), timestamp: 5000 + n }
}

fn coin(n: u64, parent: u64) -> CoinInsert {
    CoinInsert { coin_id: d(n), parent_coin_id: d(parent), puzzle_hash: d(7000 + n), amount: n }
}

fn spend(n: u64) -> SpendInsert {
    SpendInsert { coin_id: d(n), puzzle_reveal: vec![9, 9], solution: vec![8] }
}

#[test]
fn default_page_size_is_fifty() {
    assert_eq!(default_limit(), 50);
}

#[test]
fn state_reports_zero_while_empty_then_the_peak() {
    let db = Database::new();
    assert_eq!(state_response(&db).peak_height, 0);
    let mut db = Database::new();
    assert!(db.ingest_block(0, block(0), vec![], vec![]).is_ok());
    assert!(db.ingest_block(1, block(1), vec![], vec![]).is_ok());
    assert_eq!(state_response(&db).peak_height, 1);
}

#[test]
fn latest_block_follows_the_peak() {
    let db = Database::new();
    assert!(latest_block_response(&db).is_none());
    let mut db = Database::new();
    assert!(db.ingest_block(0, block(0), vec![], vec![]).is_ok());
    let br = latest_block_response(&db).unwrap();
    assert_eq!(br.block.height, 0);
    assert_eq!(br.block.row, block(0));
}

#[test]
fn block_lookups_by_height_and_hash() {
    let mut db = Database::new();
    assert!(db.ingest_block(0, block(0), vec![], vec![]).is_ok());
    assert!(db.ingest_block(1, block(1), vec![], vec![]).is_ok());
    let br = block_by_height_response(&db, 1).unwrap();
    assert_eq!(br.block.row, block(1));
    assert!(block_by_height_response(&db, 5).is_none());
    let bh = block_by_hash_response(&db, block(0).hash).unwrap();
    assert_eq!(bh.block.height, 0);
    assert_eq!(bh.block.row, block(0));
    assert!(block_by_hash_response(&db, d(424242)).is_none());
}

#[test]
fn block_listing_pages_forward_and_reverse() {
    let mut db = Database::new();
    for h in 0..7u32 {
        assert!(db.ingest_block(h, block(h as u64), vec![], vec![]).is_ok());
    }
    let page = blocks_response(&db, &BlocksRequest { limit: 3, start: Some(2), reverse: false });
    let heights: Vec<u32> = page.blocks.iter().map(|b| b.height).collect();
    assert_eq!(heights, vec![2, 3, 4]);
    assert_eq!(page.blocks[0].row, block(2));

    let page = blocks_response(&db, &BlocksRequest { limit: 3, start: None, reverse: true });
    let heights: Vec<u32> = page.blocks.iter().map(|b| b.height).collect();
    assert_eq!(heights, vec![6, 5, 4]);

    let page = blocks_response(&db, &BlocksRequest { limit: 3, start: Some(1), reverse: true });
    let heights: Vec<u32> = page.blocks.iter().map(|b| b.height).collect();
    assert_eq!(heights, vec![1, 0]);

    let page = blocks_response(
        &db,
        &BlocksRequest { limit: default_limit(), start: None, reverse: false },
    );
    assert_eq!(page.blocks.len(), 7);
}

#[test]
fn coins_by_block_deduplicates_created_and_spent() {
    let mut db = Database::new();
    // Coin 1 is created at height 0; coin 2 is created and spent inside
    // height 1, so it appears in both indexes of that block but must be
    // answered once.
    assert!(db.ingest_block(0, block(0), vec![coin(1, 500)], vec![]).is_ok());
    assert!(
        db.ingest_block(1, block(1), vec![coin(2, 1)], vec![spend(2), spend(1)]).is_ok()
    );
    let cr = coins_by_block_response(&db, block(1).hash).unwrap();
    let ids: Vec<Digest> = cr.coins.iter().map(|c| c.coin_id).collect();
    assert_eq!(ids, vec![d(2), d(1)]);
    assert_eq!(cr.coins[0].spent_height, Some(1));
    assert_eq!(cr.coins[0].row.created_height, 1);
    assert_eq!(cr.coins[1].spent_height, Some(1));
    assert_eq!(cr.coins[1].row.created_height, 0);
    assert!(coins_by_block_response(&db, d(31337)).is_none());
}

#[test]
fn children_resolve_to_their_records() {
    let mut db = Database::new();
    assert!(db.ingest_block(0, block(0), vec![coin(1, 500)], vec![]).is_ok());
    assert!(db.ingest_block(1, block(1), vec![coin(2, 1), coin(3, 1)], vec![]).is_ok());
    let cr = coins_by_parent_response(&db, d(1));
    let ids: Vec<Digest> = cr.coins.iter().map(|c| c.coin_id).collect();
    assert_eq!(ids, vec![d(2), d(3)]);
    assert_eq!(cr.coins[0].row.parent_coin_id, d(1));
    assert_eq!(cr.coins[0].spent_height, None);
    assert!(coins_by_parent_response(&db, d(999)).coins.is_empty());
}

#[test]
fn coin_detail_exposes_spend_payloads_only_when_spent() {
    let mut db = Database::new();
    assert!(db.ingest_block(0, block(0), vec![coin(1, 500)], vec![]).is_ok());
    let cr = coin_by_id_response(&db, d(1)).unwrap();
    assert_eq!(cr.coin.coin_id, d(1));
    assert_eq!(cr.coin.row.amount, 1);
    assert_eq!(cr.coin.spent_height, None);
    assert!(cr.puzzle_reveal.is_none());
    assert!(cr.solution.is_none());

    assert!(db.ingest_block(1, block(1), vec![], vec![spend(1)]).is_ok());
    let cr = coin_by_id_response(&db, d(1)).unwrap();
    assert_eq!(cr.coin.spent_height, Some(1));
    assert_eq!(cr.puzzle_reveal.unwrap(), vec![9, 9]);
    assert_eq!(cr.solution.unwrap(), vec![8]);

    assert!(coin_by_id_response(&db, d(77)).is_none());
}
