use vstd::prelude::*;

use crate::db::Database;
use crate::imap::{imap_contains_key, imap_entries, imap_insert, imap_into_values, imap_new};
use crate::records::{BlockRow, CoinRow, Digest, Direction, distinct_digests};

verus! {

broadcast use vstd::seq_lib::group_seq_properties;

/// The read API bundle handed to the request layer.
#[derive(Clone)]
pub struct App {
    pub db: Database,
}

/// One coin as answered to a caller: its id, its stored record, and the height
/// it was spent at, if it was.
#[derive(Clone, Copy, PartialEq, Eq, Structural, Debug)]
pub struct Coin {
    pub coin_id: Digest,
    pub row: CoinRow,
    pub spent_height: Option<u32>,
}

/// One block as answered to a caller: its height and its stored record.
#[derive(Clone, Copy, PartialEq, Eq, Structural, Debug)]
pub struct Block {
    pub height: u32,
    pub row: BlockRow,
}

/// The current peak, zero while the store is empty.
#[derive(Clone, Copy, PartialEq, Eq, Structural, Debug)]
pub struct StateResponse {
    pub peak_height: u32,
}

/// A single-block answer.
#[derive(Clone, Copy, PartialEq, Eq, Structural, Debug)]
pub struct BlockResponse {
    pub block: Block,
}

/// A block-listing request: page size, optional starting height, direction.
#[derive(Clone, Copy, PartialEq, Eq, Structural, Debug)]
pub struct BlocksRequest {
    pub limit: u32,
    pub start: Option<u32>,
    pub reverse: bool,
}

/// A block-listing answer, in the requested order.
#[derive(Debug)]
pub struct BlocksResponse {
    pub blocks: Vec<Block>,
}

/// A coin-listing answer.
#[derive(Debug)]
pub struct CoinsResponse {
    pub coins: Vec<Coin>,
}

/// A single-coin answer, with the spend payloads when the coin is spent.
#[derive(Debug)]
pub struct CoinResponse {
    pub coin: Coin,
    pub puzzle_reveal: Option<Vec<u8>>,
    pub solution: Option<Vec<u8>>,
}

/// The deduplication key of a digest: its four words.
pub open spec fn key_of(d: Digest) -> (u64, u64, u64, u64) {
    (d.w0, d.w1, d.w2, d.w3)
}

fn digest_key(d: Digest) -> (r: (u64, u64, u64, u64))
    ensures
        r == key_of(d),
{
    (d.w0, d.w1, d.w2, d.w3)
}

/// The distinct digests of a sequence, each at its first occurrence, in order.
pub open spec fn dedup_first(s: Seq<Digest>) -> Seq<Digest>
    decreases s.len(),
{
    if s.len() == 0 {
        Seq::<Digest>::empty()
    } else {
        let front = dedup_first(s.drop_last());
        if s.drop_last().contains(s.last()) {
            front
        } else {
            front.push(s.last())
        }
    }
}

/// Law of the deduplication: the result holds exactly the digests of its
/// input, each once.
pub proof fn lemma_dedup_first(s: Seq<Digest>)
    ensures
        forall|id: Digest| dedup_first(s).contains(id) <==> s.contains(id),
        distinct_digests(dedup_first(s)),
    decreases s.len(),
{
    if s.len() == 0 {
    } else {
        let front = s.drop_last();
        lemma_dedup_first(front);
        assert forall|id: Digest| s.contains(id) <==> (front.contains(id) || id == s.last()) by {
            if s.contains(id) {
                let i = choose|i: int| 0 <= i < s.len() && s[i] == id;
                if i < s.len() - 1 {
                    assert(front[i] == id);
                }
            }
            if front.contains(id) {
                let i = choose|i: int| 0 <= i < front.len() && front[i] == id;
                assert(s[i] == id);
            }
            if id == s.last() {
                assert(s[s.len() - 1] == id);
            }
        }
        if !front.contains(s.last()) {
            let d = dedup_first(front).push(s.last());
            assert forall|k1: int, k2: int| 0 <= k1 < k2 < d.len() implies d[k1] != d[k2] by {
                if k2 == d.len() - 1 {
                    assert(d[k1] == dedup_first(front)[k1]);
                    assert(dedup_first(front).contains(d[k1]));
                }
            }
        }
    }
}

/// The coin answer a stored coin resolves to: its record, and its spent height
/// when a spend is attached.
pub open spec fn spec_resolved_coin(db: Database, id: Digest) -> Coin {
    Coin {
        coin_id: id,
        row: db.spec_coin(id)->0,
        spent_height: match db.spec_coin_spend(id) {
            Some(s) => Some(s.spent_height),
            None => None,
        },
    }
}

/// Resolve one stored coin id to its answer.
fn resolve_coin(db: &Database, id: Digest) -> (r: Coin)
    requires
        db.wf(),
        db.spec_coin(id) is Some,
    ensures
        r == spec_resolved_coin(*db, id),
{
    let row = match db.coin(id) {
        Some(c) => c,
        None => CoinRow { parent_coin_id: id, puzzle_hash: id, amount: 0, created_height: 0 },
    };
    let spent_height = match db.coin_spend(id) {
        Some(s) => Some(s.spent_height),
        None => None,
    };
    Coin { coin_id: id, row, spent_height }
}

/// The current peak as answered to a caller; zero while nothing is ingested.
pub fn state_response(db: &Database) -> (r: StateResponse)
    requires
        db.wf(),
    ensures
        r.peak_height == (match db.spec_peak() {
            Some(p) => p,
            None => 0u32,
        }),
{
    let height = match db.peak_height() {
        Some(p) => p,
        None => 0,
    };
    StateResponse { peak_height: height }
}

/// The block at the peak, or `None` while the store is empty.
pub fn latest_block_response(db: &Database) -> (r: Option<BlockResponse>)
    requires
        db.wf(),
    ensures
        match r {
            Some(br) => db.spec_peak() == Some(br.block.height) && db.spec_block(br.block.height)
                == Some(br.block.row),
            None => db.spec_peak() is None,
        },
{
    proof {
        db.lemma_heights();
    }
    match db.peak_height() {
        Some(height) => match db.block(height) {
            Some(row) => Some(BlockResponse { block: Block { height, row } }),
            None => None,
        },
        None => None,
    }
}

/// The block at a given height, or `None` if none is stored there.
pub fn block_by_height_response(db: &Database, height: u32) -> (r: Option<BlockResponse>)
    requires
        db.wf(),
    ensures
        match r {
            Some(br) => br.block.height == height && db.spec_block(height) == Some(br.block.row),
            None => db.spec_block(height) is None,
        },
{
    match db.block(height) {
        Some(row) => Some(BlockResponse { block: Block { height, row } }),
        None => None,
    }
}

/// The block carrying a given hash, or `None` if no block does.
pub fn block_by_hash_response(db: &Database, hash: Digest) -> (r: Option<BlockResponse>)
    requires
        db.wf(),
    ensures
        match r {
            Some(br) => db.spec_block_height(hash) == Some(br.block.height) && db.spec_block(
                br.block.height,
            ) == Some(br.block.row),
            None => db.spec_block_height(hash) is None,
        },
{
    proof {
        db.lemma_heights();
        db.lemma_block_height_in_range(hash);
    }
    match db.block_height(hash) {
        Some(height) => match db.block(height) {
            Some(row) => Some(BlockResponse { block: Block { height, row } }),
            None => None,
        },
        None => None,
    }
}

/// The `[lo, hi)` height window a listing request asks for, already clamped to
/// the ingested range at the top.
pub open spec fn spec_blocks_window(db: Database, req: BlocksRequest) -> (int, int) {
    if req.reverse {
        let top = (match req.start {
            Some(s) => s,
            None => (match db.spec_peak() {
                Some(p) => p,
                None => 0u32,
            }),
        }) as int;
        let hi = if top + 1 < db.num_blocks() {
            top + 1
        } else {
            db.num_blocks()
        };
        let lo = if top + 1 - (req.limit as int) > 0 {
            top + 1 - (req.limit as int)
        } else {
            0
        };
        (lo, hi)
    } else {
        let lo = (match req.start {
            Some(s) => s,
            None => 0u32,
        }) as int;
        let hi = if lo + (req.limit as int) < db.num_blocks() {
            lo + (req.limit as int)
        } else {
            db.num_blocks()
        };
        (lo, hi)
    }
}

/// A page of blocks: the requested window, each block paired with its height,
/// ascending by default and descending when the request is reversed.
pub fn blocks_response(db: &Database, req: &BlocksRequest) -> (r: BlocksResponse)
    requires
        db.wf(),
    ensures
        ({
            let (lo, hi) = spec_blocks_window(*db, *req);
            &&& (lo >= hi ==> r.blocks@.len() == 0)
            &&& (lo < hi ==> r.blocks@.len() == hi - lo)
            &&& (!req.reverse ==> forall|k: int|
                0 <= k < r.blocks@.len() ==> ((#[trigger] r.blocks@[k]).height as int == lo + k
                    && db.spec_block(r.blocks@[k].height) == Some(r.blocks@[k].row)))
            &&& (req.reverse ==> forall|k: int|
                0 <= k < r.blocks@.len() ==> ((#[trigger] r.blocks@[k]).height as int == hi - 1 - k
                    && db.spec_block(r.blocks@[k].height) == Some(r.blocks@[k].row)))
        }),
{
    proof {
        db.lemma_heights();
    }
    let nblocks: u64 = match db.peak_height() {
        Some(p) => p as u64 + 1,
        None => 0,
    };
    assert(nblocks as int == db.num_blocks());
    let mut blocks: Vec<Block> = Vec::new();
    if req.limit == 0 {
        return BlocksResponse { blocks };
    }
    if req.reverse {
        let top: u32 = match req.start {
            Some(s) => s,
            None => match db.peak_height() {
                Some(p) => p,
                None => 0,
            },
        };
        let hi_u: u64 = top as u64 + 1;
        let lo_u: u64 = if (req.limit as u64) <= (top as u64) {
            top as u64 + 1 - req.limit as u64
        } else {
            0
        };
        assert(lo_u <= top as u64);
        let rows = db.blocks_range(lo_u as u32, hi_u, Direction::Reverse);
        let hi_eff: u64 = if hi_u < nblocks {
            hi_u
        } else {
            nblocks
        };
        let mut k: usize = 0;
        while k < rows.len()
            invariant
                k <= rows@.len(),
                blocks@.len() == k,
                forall|m: int|
                    0 <= m < k ==> ((#[trigger] blocks@[m]).height as int == hi_eff - 1 - m
                        && db.spec_block(blocks@[m].height) == Some(blocks@[m].row)),
            decreases rows@.len() - k,
        {
            let height = (hi_eff - 1 - (k as u64)) as u32;
            blocks.push(Block { height, row: rows[k] });
            k += 1;
        }
    } else {
        let lo_u: u32 = match req.start {
            Some(s) => s,
            None => 0,
        };
        let hi_u: u64 = lo_u as u64 + req.limit as u64;
        let rows = db.blocks_range(lo_u, hi_u, Direction::Forward);
        let mut k: usize = 0;
        while k < rows.len()
            invariant
                k <= rows@.len(),
                blocks@.len() == k,
                forall|m: int|
                    0 <= m < k ==> ((#[trigger] blocks@[m]).height as int == lo_u + m
                        && db.spec_block(blocks@[m].height) == Some(blocks@[m].row)),
            decreases rows@.len() - k,
        {
            let height = (lo_u as u64 + k as u64) as u32;
            blocks.push(Block { height, row: rows[k] });
            k += 1;
        }
    }
    BlocksResponse { blocks }
}

/// Every coin touched by the block with a given hash — created there or spent
/// there — each exactly once, created coins first, resolved to its answer.
pub fn coins_by_block_response(db: &Database, hash: Digest) -> (r: Option<CoinsResponse>)
    requires
        db.wf(),
    ensures
        match r {
            Some(cr) => ({
                let ded = dedup_first(
                    db.spec_created_at(db.spec_block_height(hash)->0) + db.spec_spent_at(
                        db.spec_block_height(hash)->0,
                    ),
                );
                &&& db.spec_block_height(hash) is Some
                &&& cr.coins@.len() == ded.len()
                &&& (forall|k: int|
                    0 <= k < ded.len() ==> #[trigger] cr.coins@[k] == spec_resolved_coin(
                        *db,
                        ded[k],
                    ))
            }),
            None => db.spec_block_height(hash) is None,
        },
{
    let height = match db.block_height(hash) {
        Some(h) => h,
        None => {
            return None;
        },
    };
    let mut all = db.coins_by_created_height(height);
    let mut spent_part = db.coins_by_spent_height(height);
    all.append(&mut spent_part);
    let ghost cl = db.spec_created_at(height).len() as int;
    let mut m = imap_new();
    let mut i: usize = 0;
    while i < all.len()
        invariant
            i <= all@.len(),
            all@ == db.spec_created_at(height) + db.spec_spent_at(height),
            imap_entries(m).len() == dedup_first(all@.take(i as int)).len(),
            forall|k: int|
                0 <= k < imap_entries(m).len() ==> ({
                    let e = #[trigger] imap_entries(m)[k];
                    e.0 == key_of(dedup_first(all@.take(i as int))[k]) && e.1
                        == spec_resolved_coin(*db, dedup_first(all@.take(i as int))[k])
                }),
        decreases all@.len() - i,
    {
        let id = all[i];
        let key = digest_key(id);
        let ghost prefix = all@.take(i as int);
        let ghost ded = dedup_first(prefix);
        proof {
            lemma_dedup_first(prefix);
            assert(all@.take(i as int + 1).drop_last() =~= prefix);
            assert(all@.take(i as int + 1).last() == id);
        }
        let present = imap_contains_key(&m, &key);
        proof {
            if present {
                let k = choose|k: int|
                    0 <= k < imap_entries(m).len() && (#[trigger] imap_entries(m)[k]).0 == key;
                assert(key_of(ded[k]) == key_of(id));
                assert(ded[k] == id);
                assert(ded.contains(id));
                assert(prefix.contains(id));
            } else {
                if prefix.contains(id) {
                    assert(ded.contains(id));
                    let k = choose|k: int| 0 <= k < ded.len() && ded[k] == id;
                    assert(imap_entries(m)[k].0 == key_of(id));
                    assert(false);
                }
            }
        }
        if !present {
            proof {
                if (i as int) < cl {
                    assert(db.spec_created_at(height)[i as int] == id);
                    assert(db.spec_created_at(height).contains(id));
                    db.lemma_created_index_exact(height, id);
                } else {
                    assert(db.spec_spent_at(height)[i as int - cl] == id);
                    assert(db.spec_spent_at(height).contains(id));
                    db.lemma_spent_index_exact(height, id);
                }
            }
            let coin = resolve_coin(db, id);
            imap_insert(&mut m, key, coin);
        }
        i += 1;
    }
    proof {
        assert(all@.take(all@.len() as int) =~= all@);
    }
    let coins = imap_into_values(m);
    Some(CoinsResponse { coins })
}

/// All children of a coin, each exactly once, resolved to their answers.
pub fn coins_by_parent_response(db: &Database, parent: Digest) -> (r: CoinsResponse)
    requires
        db.wf(),
    ensures
        forall|k: int|
            0 <= k < r.coins@.len() ==> ((#[trigger] r.coins@[k]) == spec_resolved_coin(
                *db,
                r.coins@[k].coin_id,
            ) && db.child_of(parent, r.coins@[k].coin_id)),
        forall|id: Digest|
            #[trigger] db.child_of(parent, id) ==> exists|k: int|
                0 <= k < r.coins@.len() && (#[trigger] r.coins@[k]).coin_id == id,
        forall|k1: int, k2: int|
            0 <= k1 < k2 < r.coins@.len() ==> (#[trigger] r.coins@[k1]).coin_id != (
            #[trigger] r.coins@[k2]).coin_id,
{
    let ids = db.coins_by_parent_coin_id(parent);
    let mut coins: Vec<Coin> = Vec::new();
    let mut i: usize = 0;
    while i < ids.len()
        invariant
            i <= ids@.len(),
            coins@.len() == i,
            forall|k: int|
                0 <= k < i ==> ((#[trigger] coins@[k]) == spec_resolved_coin(*db, ids@[k])
                    && coins@[k].coin_id == ids@[k]),
        decreases ids@.len() - i,
    {
        let id = ids[i];
        proof {
            assert(ids@.contains(id));
            assert(db.child_of(parent, id));
        }
        let coin = resolve_coin(db, id);
        coins.push(coin);
        i += 1;
    }
    proof {
        assert forall|id: Digest| #[trigger] db.child_of(parent, id) implies exists|k: int|
            0 <= k < coins@.len() && (#[trigger] coins@[k]).coin_id == id by {
            assert(ids@.contains(id));
            let k = choose|k: int| 0 <= k < ids@.len() && ids@[k] == id;
            assert(coins@[k].coin_id == id);
        }
    }
    CoinsResponse { coins }
}

/// One coin by id with its record, and — when it is spent — the spent height
/// and the spend's opaque payloads; `None` for an unknown id.
pub fn coin_by_id_response(db: &Database, coin_id: Digest) -> (r: Option<CoinResponse>)
    requires
        db.wf(),
    ensures
        match r {
            Some(cr) => db.spec_coin(coin_id) is Some && cr.coin == spec_resolved_coin(
                *db,
                coin_id,
            ) && (match db.spec_coin_spend(coin_id) {
                Some(s) => (cr.puzzle_reveal matches Some(p) && p@ == s.puzzle_reveal@) && (
                cr.solution matches Some(q) && q@ == s.solution@),
                None => cr.puzzle_reveal is None && cr.solution is None,
            }),
            None => db.spec_coin(coin_id) is None,
        },
{
    let row = match db.coin(coin_id) {
        Some(c) => c,
        None => {
            return None;
        },
    };
    match db.coin_spend(coin_id) {
        Some(spend) => Some(
            CoinResponse {
                coin: Coin {
                    coin_id,
                    row,
                    spent_height: Some(spend.spent_height),
                },
                puzzle_reveal: Some(spend.puzzle_reveal),
                solution: Some(spend.solution),
            },
        ),
        None => Some(
            CoinResponse { coin: Coin { coin_id, row, spent_height: None }, puzzle_reveal: None, solution: None },
        ),
    }
}

} // verus!
