use vstd::prelude::*;

use crate::records::{
    BlockRow, CoinInsert, CoinRow, CoinSpendRow, Digest, Direction, SpendInsert, StorageError,
    coin_ids, coin_row_of, distinct_digests, spend_ids,
};

verus! {

broadcast use vstd::seq_lib::group_seq_properties;

/// Every key in the association list is distinct from every other.
pub open spec fn unique_keys<T>(s: Seq<(Digest, T)>) -> bool {
    forall|i: int, j: int|
        0 <= i < s.len() && 0 <= j < s.len() && i != j ==> (#[trigger] s[i]).0 != (#[trigger] s[j]).0
}

/// The indexed ledger store: primary records for blocks, coins and coin
/// spends, together with the denormalized secondary indexes that are kept in
/// lock-step with them on every ingested block.
#[derive(Clone)]
pub struct Database {
    /// Block records, indexed by height; heights are contiguous from 0.
    blocks: Vec<BlockRow>,
    /// Reverse mapping from block hash to height, one entry per block.
    hash_index: Vec<(Digest, u32)>,
    /// Primary coin records, keyed by coin id.
    coins: Vec<(Digest, CoinRow)>,
    /// Spend records, keyed by coin id; at most one per coin.
    spends: Vec<(Digest, CoinSpendRow)>,
    /// For each height, the ids of the coins created by that block.
    created_index: Vec<Vec<Digest>>,
    /// For each height, the ids of the coins spent by that block.
    spent_index: Vec<Vec<Digest>>,
    /// One (parent coin id, child coin id) pair per coin.
    parent_pairs: Vec<(Digest, Digest)>,
}

impl Database {
    /// How many blocks have been ingested.
    pub closed spec fn num_blocks(self) -> int {
        self.blocks@.len() as int
    }

    /// The highest ingested height, or `None` while the store is empty.
    pub closed spec fn spec_peak(self) -> Option<u32> {
        if self.blocks@.len() == 0 {
            None
        } else {
            Some((self.blocks@.len() - 1) as u32)
        }
    }

    /// The block record stored at a height, if one was ingested.
    pub closed spec fn spec_block(self, height: u32) -> Option<BlockRow> {
        if (height as int) < self.blocks@.len() {
            Some(self.blocks@[height as int])
        } else {
            None
        }
    }

    spec fn block_hash_at(self, height: u32, hash: Digest) -> bool {
        (height as int) < self.blocks@.len() && self.blocks@[height as int].hash == hash
    }

    /// Some ingested block carries this hash.
    pub closed spec fn has_block_hash(self, hash: Digest) -> bool {
        exists|h: u32| self.block_hash_at(h, hash)
    }

    /// The height holding the block with this hash, if any.
    pub closed spec fn spec_block_height(self, hash: Digest) -> Option<u32> {
        if self.has_block_hash(hash) {
            Some(choose|h: u32| self.block_hash_at(h, hash))
        } else {
            None
        }
    }

    spec fn coin_key_at(self, i: int, coin_id: Digest) -> bool {
        0 <= i < self.coins@.len() && self.coins@[i].0 == coin_id
    }

    /// A coin with this id has been created.
    pub closed spec fn has_coin(self, coin_id: Digest) -> bool {
        exists|i: int| self.coin_key_at(i, coin_id)
    }

    /// The coin record stored under this id, if any.
    pub closed spec fn spec_coin(self, coin_id: Digest) -> Option<CoinRow> {
        if self.has_coin(coin_id) {
            let i = choose|i: int| self.coin_key_at(i, coin_id);
            Some(self.coins@[i].1)
        } else {
            None
        }
    }

    spec fn spend_key_at(self, i: int, coin_id: Digest) -> bool {
        0 <= i < self.spends@.len() && self.spends@[i].0 == coin_id
    }

    /// The coin with this id has been spent.
    pub closed spec fn has_spend(self, coin_id: Digest) -> bool {
        exists|i: int| self.spend_key_at(i, coin_id)
    }

    /// The spend record attached to this coin id, if any.
    pub closed spec fn spec_coin_spend(self, coin_id: Digest) -> Option<CoinSpendRow> {
        if self.has_spend(coin_id) {
            let i = choose|i: int| self.spend_key_at(i, coin_id);
            Some(self.spends@[i].1)
        } else {
            None
        }
    }

    /// The ids of the coins created at a height, in the order their block
    /// carried them; empty for heights never ingested.
    pub closed spec fn spec_created_at(self, height: u32) -> Seq<Digest> {
        if (height as int) < self.created_index@.len() {
            self.created_index@[height as int]@
        } else {
            Seq::<Digest>::empty()
        }
    }

    /// The ids of the coins spent at a height, in the order their block
    /// carried them; empty for heights never ingested.
    pub closed spec fn spec_spent_at(self, height: u32) -> Seq<Digest> {
        if (height as int) < self.spent_index@.len() {
            self.spent_index@[height as int]@
        } else {
            Seq::<Digest>::empty()
        }
    }

    /// The stored coin record for `coin_id` names `parent` as its parent.
    pub open spec fn child_of(self, parent: Digest, coin_id: Digest) -> bool {
        match self.spec_coin(coin_id) {
            Some(c) => c.parent_coin_id == parent,
            None => false,
        }
    }

    /// The stored coin record for `coin_id` carries `height` as its created height.
    pub open spec fn created_at_height(self, height: u32, coin_id: Digest) -> bool {
        match self.spec_coin(coin_id) {
            Some(c) => c.created_height == height,
            None => false,
        }
    }

    /// The stored spend record for `coin_id` carries `height` as its spent height.
    pub open spec fn spent_at_height(self, height: u32, coin_id: Digest) -> bool {
        match self.spec_coin_spend(coin_id) {
            Some(s) => s.spent_height == height,
            None => false,
        }
    }

    spec fn created_cell(self, height: u32, coin_id: Digest) -> bool {
        self.spec_created_at(height).contains(coin_id)
    }

    spec fn spent_cell(self, height: u32, coin_id: Digest) -> bool {
        self.spec_spent_at(height).contains(coin_id)
    }

    spec fn pair_present(self, parent: Digest, coin_id: Digest) -> bool {
        exists|i: int|
            0 <= i < self.parent_pairs@.len() && self.parent_pairs@[i] == (parent, coin_id)
    }

    /// The well-formedness invariant: heights are contiguous, hashes and keys
    /// are unique, and every secondary index holds exactly the projection of
    /// the primary records it is derived from.
    pub closed spec fn wf(self) -> bool {
        &&& self.blocks@.len() <= 0x1_0000_0000
        &&& self.hash_index@.len() == self.blocks@.len()
        &&& (forall|i: int|
            0 <= i < self.blocks@.len() ==> #[trigger] self.hash_index@[i] == (
            self.blocks@[i].hash,
            i as u32,
        ))
        &&& (forall|i: int, j: int|
            0 <= i < self.blocks@.len() && 0 <= j < self.blocks@.len() && i != j
                ==> (#[trigger] self.blocks@[i]).hash != (#[trigger] self.blocks@[j]).hash)
        &&& unique_keys(self.coins@)
        &&& (forall|i: int|
            0 <= i < self.coins@.len() ==> (#[trigger] self.coins@[i]).1.created_height
                < self.blocks@.len())
        &&& unique_keys(self.spends@)
        &&& (forall|i: int|
            0 <= i < self.spends@.len() ==> self.has_coin((#[trigger] self.spends@[i]).0)
                && self.spends@[i].1.spent_height < self.blocks@.len())
        &&& self.created_index@.len() == self.blocks@.len()
        &&& self.spent_index@.len() == self.blocks@.len()
        &&& (forall|h: u32| distinct_digests(#[trigger] self.spec_created_at(h)))
        &&& (forall|h: u32| distinct_digests(#[trigger] self.spec_spent_at(h)))
        &&& (forall|h: u32, id: Digest|
            #![trigger self.created_cell(h, id)]
            #![trigger self.created_at_height(h, id)]
            self.created_cell(h, id) <==> self.created_at_height(h, id))
        &&& (forall|h: u32, id: Digest|
            #![trigger self.spent_cell(h, id)]
            #![trigger self.spent_at_height(h, id)]
            self.spent_cell(h, id) <==> self.spent_at_height(h, id))
        &&& (forall|i: int, j: int|
            0 <= i < self.parent_pairs@.len() && 0 <= j < self.parent_pairs@.len() && i != j
                ==> (#[trigger] self.parent_pairs@[i]).1 != (#[trigger] self.parent_pairs@[j]).1)
        &&& (forall|p: Digest, id: Digest|
            #![trigger self.pair_present(p, id)]
            #![trigger self.child_of(p, id)]
            self.pair_present(p, id) <==> self.child_of(p, id))
    }

    proof fn lemma_coin_at(self, i: int)
        requires
            unique_keys(self.coins@),
            0 <= i < self.coins@.len(),
        ensures
            self.has_coin(self.coins@[i].0),
            self.spec_coin(self.coins@[i].0) == Some(self.coins@[i].1),
    {
        let id = self.coins@[i].0;
        assert(self.coin_key_at(i, id));
        let j = choose|j: int| self.coin_key_at(j, id);
        assert(self.coin_key_at(j, id));
        assert(j == i);
    }

    proof fn lemma_spend_at(self, i: int)
        requires
            unique_keys(self.spends@),
            0 <= i < self.spends@.len(),
        ensures
            self.has_spend(self.spends@[i].0),
            self.spec_coin_spend(self.spends@[i].0) == Some(self.spends@[i].1),
    {
        let id = self.spends@[i].0;
        assert(self.spend_key_at(i, id));
        let j = choose|j: int| self.spend_key_at(j, id);
        assert(self.spend_key_at(j, id));
        assert(j == i);
    }

    proof fn lemma_block_at(self, h: u32)
        requires
            self.blocks@.len() <= 0x1_0000_0000,
            forall|i: int, j: int|
                0 <= i < self.blocks@.len() && 0 <= j < self.blocks@.len() && i != j
                    ==> (#[trigger] self.blocks@[i]).hash != (#[trigger] self.blocks@[j]).hash,
            (h as int) < self.blocks@.len(),
        ensures
            self.has_block_hash(self.blocks@[h as int].hash),
            self.spec_block_height(self.blocks@[h as int].hash) == Some(h),
    {
        let hash = self.blocks@[h as int].hash;
        assert(self.block_hash_at(h, hash));
        let h2 = choose|h2: u32| self.block_hash_at(h2, hash);
        assert(self.block_hash_at(h2, hash));
        assert(h2 == h) by {
            if h2 != h {
                assert(self.blocks@[h2 as int].hash != self.blocks@[h as int].hash);
            }
        }
    }

    /// A fresh, empty store.
    pub fn new() -> (r: Database)
        ensures
            r.wf(),
            r.num_blocks() == 0,
            r.spec_peak() is None,
            forall|h: u32| r.spec_block(h) is None,
            forall|d: Digest| r.spec_block_height(d) is None,
            forall|d: Digest| r.spec_coin(d) is None,
            forall|d: Digest| r.spec_coin_spend(d) is None,
            forall|h: u32| r.spec_created_at(h) == Seq::<Digest>::empty(),
            forall|h: u32| r.spec_spent_at(h) == Seq::<Digest>::empty(),
            forall|p: Digest, id: Digest| !r.child_of(p, id),
    {
        Database {
            blocks: Vec::new(),
            hash_index: Vec::new(),
            coins: Vec::new(),
            spends: Vec::new(),
            created_index: Vec::new(),
            spent_index: Vec::new(),
            parent_pairs: Vec::new(),
        }
    }

    /// The current highest ingested height, or `None` while the store is empty.
    pub fn peak_height(&self) -> (r: Option<u32>)
        requires
            self.wf(),
        ensures
            r == self.spec_peak(),
    {
        let n = self.blocks.len();
        if n == 0 {
            None
        } else {
            Some((n - 1) as u32)
        }
    }

    /// Point lookup of the block record at a height.
    pub fn block(&self, height: u32) -> (r: Option<BlockRow>)
        ensures
            r == self.spec_block(height),
    {
        if (height as usize) < self.blocks.len() {
            Some(self.blocks[height as usize])
        } else {
            None
        }
    }

    /// Reverse lookup of a block's height through the hash index.
    pub fn block_height(&self, hash: Digest) -> (r: Option<u32>)
        requires
            self.wf(),
        ensures
            r == self.spec_block_height(hash),
    {
        let mut i: usize = 0;
        while i < self.hash_index.len()
            invariant
                i <= self.hash_index@.len(),
                forall|k: int| 0 <= k < i ==> (#[trigger] self.blocks@[k]).hash != hash,
            decreases self.hash_index@.len() - i,
        {
            let entry = self.hash_index[i];
            if entry.0 == hash {
                proof {
                    self.lemma_block_at(i as u32);
                }
                return Some(entry.1);
            }
            i += 1;
        }
        proof {
            if self.has_block_hash(hash) {
                let h = choose|h: u32| self.block_hash_at(h, hash);
                assert(self.blocks@[h as int].hash == hash);
                assert(false);
            }
        }
        None
    }

    /// Point lookup of the coin record under a coin id.
    pub fn coin(&self, coin_id: Digest) -> (r: Option<CoinRow>)
        requires
            self.wf(),
        ensures
            r == self.spec_coin(coin_id),
    {
        match find_key(&self.coins, coin_id) {
            Some(i) => {
                proof {
                    self.lemma_coin_at(i as int);
                }
                Some(self.coins[i].1)
            },
            None => {
                proof {
                    if self.has_coin(coin_id) {
                        let k = choose|k: int| self.coin_key_at(k, coin_id);
                        assert(self.coins@[k].0 == coin_id);
                        assert(false);
                    }
                }
                None
            },
        }
    }

    /// Point lookup of the spend record attached to a coin id.
    pub fn coin_spend(&self, coin_id: Digest) -> (r: Option<CoinSpendRow>)
        requires
            self.wf(),
        ensures
            match r {
                Some(s) => self.spec_coin_spend(coin_id) matches Some(t) && s.spent_height
                    == t.spent_height && s.puzzle_reveal@ == t.puzzle_reveal@ && s.solution@
                    == t.solution@,
                None => self.spec_coin_spend(coin_id) is None,
            },
    {
        match find_key(&self.spends, coin_id) {
            Some(i) => {
                proof {
                    self.lemma_spend_at(i as int);
                }
                let row = &self.spends[i].1;
                Some(
                    CoinSpendRow {
                        spent_height: row.spent_height,
                        puzzle_reveal: copy_bytes(&row.puzzle_reveal),
                        solution: copy_bytes(&row.solution),
                    },
                )
            },
            None => {
                proof {
                    if self.has_spend(coin_id) {
                        let k = choose|k: int| self.spend_key_at(k, coin_id);
                        assert(self.spends@[k].0 == coin_id);
                        assert(false);
                    }
                }
                None
            },
        }
    }

    /// The ids of the coins created at a height.
    pub fn coins_by_created_height(&self, height: u32) -> (r: Vec<Digest>)
        ensures
            r@ == self.spec_created_at(height),
    {
        if (height as usize) < self.created_index.len() {
            copy_digests(&self.created_index[height as usize])
        } else {
            let r: Vec<Digest> = Vec::new();
            assert(r@ =~= self.spec_created_at(height));
            r
        }
    }

    /// The ids of the coins spent at a height.
    pub fn coins_by_spent_height(&self, height: u32) -> (r: Vec<Digest>)
        ensures
            r@ == self.spec_spent_at(height),
    {
        if (height as usize) < self.spent_index.len() {
            copy_digests(&self.spent_index[height as usize])
        } else {
            let r: Vec<Digest> = Vec::new();
            assert(r@ =~= self.spec_spent_at(height));
            r
        }
    }

    /// The ids of all coins whose parent is `parent`, each exactly once.
    pub fn coins_by_parent_coin_id(&self, parent: Digest) -> (r: Vec<Digest>)
        requires
            self.wf(),
        ensures
            distinct_digests(r@),
            forall|id: Digest|
                #![trigger r@.contains(id)]
                #![trigger self.child_of(parent, id)]
                r@.contains(id) <==> self.child_of(parent, id),
    {
        let mut out: Vec<Digest> = Vec::new();
        let mut i: usize = 0;
        while i < self.parent_pairs.len()
            invariant
                i <= self.parent_pairs@.len(),
                distinct_digests(out@),
                forall|id: Digest|
                    #[trigger] out@.contains(id) <==> exists|k: int|
                        0 <= k < i && #[trigger] self.parent_pairs@[k] == (parent, id),
            decreases self.parent_pairs@.len() - i,
        {
            let entry = self.parent_pairs[i];
            if entry.0 == parent {
                proof {
                    if out@.contains(entry.1) {
                        let k = choose|k: int|
                            0 <= k < i && self.parent_pairs@[k] == (parent, entry.1);
                        assert(self.parent_pairs@[k].1 == self.parent_pairs@[i as int].1);
                        assert(false);
                    }
                }
                out.push(entry.1);
            }
            i += 1;
        }
        proof {
            assert forall|id: Digest| out@.contains(id) <==> self.pair_present(parent, id) by {
                if self.pair_present(parent, id) {
                    let k = choose|k: int|
                        0 <= k < self.parent_pairs@.len() && self.parent_pairs@[k] == (
                        parent,
                        id,
                        );
                    assert(self.parent_pairs@[k] == (parent, id));
                }
            }
        }
        out
    }

    /// Ordered scan of block records with height in `[start, end)`, ascending
    /// for `Forward` and descending for `Reverse`; the window is clamped to the
    /// ingested range, and a window past it yields nothing.
    pub fn blocks_range(&self, start: u32, end: u64, direction: Direction) -> (r: Vec<BlockRow>)
        requires
            self.wf(),
        ensures
            ({
                let lo = start as int;
                let hi = if (end as int) < self.num_blocks() {
                    end as int
                } else {
                    self.num_blocks()
                };
                &&& (lo >= hi ==> r@ =~= Seq::<BlockRow>::empty())
                &&& (lo < hi ==> r@.len() == hi - lo)
                &&& (lo < hi && direction == Direction::Forward ==> forall|k: int|
                    0 <= k < hi - lo ==> self.spec_block((lo + k) as u32) == Some(r@[k]))
                &&& (lo < hi && direction == Direction::Reverse ==> forall|k: int|
                    0 <= k < hi - lo ==> self.spec_block((hi - 1 - k) as u32) == Some(r@[k]))
            }),
    {
        let n = self.blocks.len();
        let hi: usize = if end < (n as u64) {
            end as usize
        } else {
            n
        };
        if (start as u64) >= (hi as u64) {
            return Vec::new();
        }
        let lo = start as usize;
        let mut out: Vec<BlockRow> = Vec::new();
        match direction {
            Direction::Forward => {
                let mut k: usize = lo;
                while k < hi
                    invariant
                        lo <= k <= hi <= self.blocks@.len(),
                        out@.len() == k - lo,
                        forall|m: int| 0 <= m < k - lo ==> out@[m] == self.blocks@[lo + m],
                    decreases hi - k,
                {
                    out.push(self.blocks[k]);
                    k += 1;
                }
            },
            Direction::Reverse => {
                let mut k: usize = hi;
                while k > lo
                    invariant
                        lo <= k <= hi <= self.blocks@.len(),
                        out@.len() == hi - k,
                        forall|m: int| 0 <= m < hi - k ==> out@[m] == self.blocks@[hi - 1 - m],
                    decreases k - lo,
                {
                    k -= 1;
                    out.push(self.blocks[k]);
                }
            },
        }
        out
    }
}

/// The coin table entry a creation request settles into.
pub open spec fn coin_entry_of(c: CoinInsert, height: u32) -> (Digest, CoinRow) {
    (c.coin_id, coin_row_of(c, height))
}

/// The coin table entries of a whole creation batch, in batch order.
pub open spec fn coin_entries_of(created: Seq<CoinInsert>, height: u32) -> Seq<(Digest, CoinRow)> {
    created.map_values(|c: CoinInsert| coin_entry_of(c, height))
}

/// The (parent, child) pairs contributed by a creation batch, in batch order.
pub open spec fn parent_pairs_of(created: Seq<CoinInsert>) -> Seq<(Digest, Digest)> {
    created.map_values(|c: CoinInsert| (c.parent_coin_id, c.coin_id))
}

impl Database {
    /// Every created coin id is fresh and occurs only once in its batch.
    pub open spec fn creations_ok(self, created: Seq<CoinInsert>) -> bool {
        &&& distinct_digests(coin_ids(created))
        &&& (forall|i: int|
            0 <= i < created.len() ==> !self.has_coin((#[trigger] created[i]).coin_id))
    }

    /// Every spend targets a coin that exists (already stored, or created by
    /// the same batch), has no spend yet, and is spent only once in the batch.
    pub open spec fn spends_ok(self, created: Seq<CoinInsert>, spent: Seq<SpendInsert>) -> bool {
        &&& distinct_digests(spend_ids(spent))
        &&& (forall|i: int|
            0 <= i < spent.len() ==> {
                let id = (#[trigger] spent[i]).coin_id;
                (self.has_coin(id) || coin_ids(created).contains(id)) && !self.has_spend(id)
            })
    }

    /// The whole block batch is acceptable on top of the current state.
    pub open spec fn batch_ok(
        self,
        height: u32,
        row: BlockRow,
        created: Seq<CoinInsert>,
        spent: Seq<SpendInsert>,
    ) -> bool {
        &&& height as int == self.num_blocks()
        &&& !self.has_block_hash(row.hash)
        &&& self.creations_ok(created)
        &&& self.spends_ok(created, spent)
    }

    proof fn lemma_absent_coin(self, id: Digest)
        requires
            forall|k: int| 0 <= k < self.coins@.len() ==> (#[trigger] self.coins@[k]).0 != id,
        ensures
            !self.has_coin(id),
    {
        if self.has_coin(id) {
            let k = choose|k: int| self.coin_key_at(k, id);
            assert(self.coins@[k].0 == id);
            assert(false);
        }
    }

    proof fn lemma_absent_spend(self, id: Digest)
        requires
            forall|k: int| 0 <= k < self.spends@.len() ==> (#[trigger] self.spends@[k]).0 != id,
        ensures
            !self.has_spend(id),
    {
        if self.has_spend(id) {
            let k = choose|k: int| self.spend_key_at(k, id);
            assert(self.spends@[k].0 == id);
            assert(false);
        }
    }

    proof fn lemma_absent_block_hash(self, hash: Digest)
        requires
            forall|k: int| 0 <= k < self.blocks@.len() ==> (#[trigger] self.blocks@[k]).hash != hash,
        ensures
            !self.has_block_hash(hash),
    {
        if self.has_block_hash(hash) {
            let h = choose|h: u32| self.block_hash_at(h, hash);
            assert(self.blocks@[h as int].hash == hash);
            assert(false);
        }
    }

    proof fn lemma_fresh_hashes(self, hash: Digest)
        requires
            self.blocks@.len() <= 0x1_0000_0000,
            !self.has_block_hash(hash),
        ensures
            forall|k: int| 0 <= k < self.blocks@.len() ==> (#[trigger] self.blocks@[k]).hash != hash,
    {
        assert forall|k: int|
            0 <= k < self.blocks@.len() implies (#[trigger] self.blocks@[k]).hash != hash by {
            if self.blocks@[k].hash == hash {
                assert(self.block_hash_at(k as u32, hash));
                assert(false);
            }
        }
    }

    /// How the block lookups change when one block is appended.
    proof fn lemma_blocks_after_push(pre: Database, post: Database, row: BlockRow, height: u32)
        requires
            pre.blocks@.len() <= 0xFFFF_FFFF,
            forall|i: int, j: int|
                0 <= i < pre.blocks@.len() && 0 <= j < pre.blocks@.len() && i != j
                    ==> (#[trigger] pre.blocks@[i]).hash != (#[trigger] pre.blocks@[j]).hash,
            !pre.has_block_hash(row.hash),
            height as int == pre.blocks@.len(),
            post.blocks@ == pre.blocks@.push(row),
        ensures
            forall|i: int, j: int|
                0 <= i < post.blocks@.len() && 0 <= j < post.blocks@.len() && i != j
                    ==> (#[trigger] post.blocks@[i]).hash != (#[trigger] post.blocks@[j]).hash,
            post.spec_block(height) == Some(row),
            forall|h2: u32| h2 != height ==> post.spec_block(h2) == pre.spec_block(h2),
            post.spec_block_height(row.hash) == Some(height),
            forall|d: Digest|
                d != row.hash ==> post.spec_block_height(d) == pre.spec_block_height(d),
    {
        pre.lemma_fresh_hashes(row.hash);
        assert(post.blocks@[height as int] == row);
        post.lemma_block_at(height);
        assert forall|d: Digest|
            d != row.hash implies post.spec_block_height(d) == pre.spec_block_height(d) by {
            if pre.has_block_hash(d) {
                let h = choose|h: u32| pre.block_hash_at(h, d);
                pre.lemma_block_at(h);
                assert(post.blocks@[h as int].hash == d);
                post.lemma_block_at(h);
            } else {
                if post.has_block_hash(d) {
                    let h = choose|h: u32| post.block_hash_at(h, d);
                    if (h as int) < pre.blocks@.len() {
                        assert(pre.block_hash_at(h, d));
                        assert(false);
                    } else {
                        assert(post.blocks@[h as int] == row);
                        assert(false);
                    }
                }
            }
        }
    }

    /// How the coin lookups change when a creation batch is appended.
    proof fn lemma_coins_after_batch(
        pre: Database,
        post: Database,
        created: Seq<CoinInsert>,
        height: u32,
    )
        requires
            unique_keys(pre.coins@),
            unique_keys(post.coins@),
            post.coins@ == pre.coins@ + coin_entries_of(created, height),
            forall|i: int| 0 <= i < created.len() ==> !pre.has_coin((#[trigger] created[i]).coin_id),
        ensures
            forall|i: int|
                0 <= i < created.len() ==> post.spec_coin((#[trigger] created[i]).coin_id) == Some(
                    coin_row_of(created[i], height),
                ),
            forall|id: Digest|
                !coin_ids(created).contains(id) ==> post.spec_coin(id) == pre.spec_coin(id),
            forall|id: Digest|
                #[trigger] post.has_coin(id) <==> pre.has_coin(id) || coin_ids(created).contains(
                    id,
                ),
    {
        let n = pre.coins@.len() as int;
        assert forall|i: int|
            0 <= i < created.len() implies post.spec_coin(#[trigger] created[i].coin_id) == Some(
            coin_row_of(created[i], height),
        ) by {
            assert(post.coins@[n + i] == coin_entry_of(created[i], height));
            post.lemma_coin_at(n + i);
        }
        assert forall|id: Digest|
            !coin_ids(created).contains(id) implies post.spec_coin(id) == pre.spec_coin(id) by {
            if pre.has_coin(id) {
                let k = choose|k: int| pre.coin_key_at(k, id);
                pre.lemma_coin_at(k);
                assert(post.coins@[k] == pre.coins@[k]);
                post.lemma_coin_at(k);
            } else {
                if post.has_coin(id) {
                    let k = choose|k: int| post.coin_key_at(k, id);
                    if k < n {
                        assert(pre.coin_key_at(k, id));
                        assert(false);
                    } else {
                        assert(post.coins@[k] == coin_entry_of(created[k - n], height));
                        assert(coin_ids(created)[k - n] == id);
                        assert(false);
                    }
                }
            }
        }
        assert forall|id: Digest|
            #[trigger] post.has_coin(id) <==> pre.has_coin(id) || coin_ids(created).contains(
            id,
        ) by {
            if pre.has_coin(id) {
                let k = choose|k: int| pre.coin_key_at(k, id);
                assert(post.coins@[k] == pre.coins@[k]);
                assert(post.coin_key_at(k, id));
            }
            if coin_ids(created).contains(id) {
                let i = choose|i: int| 0 <= i < coin_ids(created).len() && coin_ids(created)[i]
                    == id;
                assert(post.coins@[n + i] == coin_entry_of(created[i], height));
                assert(post.coin_key_at(n + i, id));
            }
            if post.has_coin(id) && !pre.has_coin(id) {
                let k = choose|k: int| post.coin_key_at(k, id);
                if k < n {
                    assert(pre.coin_key_at(k, id));
                    assert(false);
                } else {
                    assert(post.coins@[k] == coin_entry_of(created[k - n], height));
                    assert(coin_ids(created)[k - n] == id);
                }
            }
        }
    }

    /// How the spend lookups change when a spend batch is appended.
    proof fn lemma_spends_after_batch(
        pre: Database,
        post: Database,
        spent: Seq<SpendInsert>,
        height: u32,
    )
        requires
            unique_keys(pre.spends@),
            unique_keys(post.spends@),
            post.spends@.len() == pre.spends@.len() + spent.len(),
            forall|k: int| 0 <= k < pre.spends@.len() ==> post.spends@[k] == pre.spends@[k],
            forall|k: int|
                0 <= k < spent.len() ==> (#[trigger] post.spends@[pre.spends@.len() + k]).0
                    == spent[k].coin_id,
            forall|k: int|
                0 <= k < spent.len() ==> {
                    let e = #[trigger] post.spends@[pre.spends@.len() + k];
                    e.1.spent_height == height && e.1.puzzle_reveal@ == spent[k].puzzle_reveal@
                        && e.1.solution@ == spent[k].solution@
                },
        ensures
            forall|k: int|
                0 <= k < spent.len() ==> (post.spec_coin_spend(
                    (#[trigger] spent[k]).coin_id,
                ) matches Some(s) && s.spent_height == height && s.puzzle_reveal@
                    == spent[k].puzzle_reveal@ && s.solution@ == spent[k].solution@),
            forall|id: Digest|
                !spend_ids(spent).contains(id) ==> post.spec_coin_spend(id) == pre.spec_coin_spend(
                    id,
                ),
            forall|id: Digest|
                #[trigger] post.has_spend(id) <==> pre.has_spend(id) || spend_ids(spent).contains(
                    id,
                ),
    {
        let n = pre.spends@.len() as int;
        assert forall|k: int|
            0 <= k < spent.len() implies (post.spec_coin_spend(
            #[trigger] spent[k].coin_id,
        ) matches Some(s) && s.spent_height == height && s.puzzle_reveal@
            == spent[k].puzzle_reveal@ && s.solution@ == spent[k].solution@) by {
            assert(post.spends@[n + k].0 == spent[k].coin_id);
            post.lemma_spend_at(n + k);
        }
        assert forall|id: Digest|
            !spend_ids(spent).contains(id) implies post.spec_coin_spend(id)
            == pre.spec_coin_spend(id) by {
            if pre.has_spend(id) {
                let k = choose|k: int| pre.spend_key_at(k, id);
                pre.lemma_spend_at(k);
                assert(post.spends@[k] == pre.spends@[k]);
                post.lemma_spend_at(k);
            } else {
                if post.has_spend(id) {
                    let k = choose|k: int| post.spend_key_at(k, id);
                    if k < n {
                        assert(pre.spend_key_at(k, id));
                        assert(false);
                    } else {
                        let k2 = k - n;
                        assert(post.spends@[n + k2].0 == spent[k2].coin_id);
                        assert(spend_ids(spent)[k2] == id);
                        assert(false);
                    }
                }
            }
        }
        assert forall|id: Digest|
            #[trigger] post.has_spend(id) <==> pre.has_spend(id) || spend_ids(spent).contains(
            id,
        ) by {
            if pre.has_spend(id) {
                let k = choose|k: int| pre.spend_key_at(k, id);
                assert(post.spends@[k] == pre.spends@[k]);
                assert(post.spend_key_at(k, id));
            }
            if spend_ids(spent).contains(id) {
                let i = choose|i: int| 0 <= i < spend_ids(spent).len() && spend_ids(spent)[i]
                    == id;
                assert(post.spends@[n + i].0 == spent[i].coin_id);
                assert(post.spend_key_at(n + i, id));
            }
            if post.has_spend(id) && !pre.has_spend(id) {
                let k = choose|k: int| post.spend_key_at(k, id);
                if k < n {
                    assert(pre.spend_key_at(k, id));
                    assert(false);
                } else {
                    let k2 = k - n;
                    assert(post.spends@[n + k2].0 == spent[k2].coin_id);
                    assert(spend_ids(spent)[k2] == id);
                }
            }
        }
    }

    /// Ingest one block as a single atomic unit: store its record and hash
    /// mapping, insert the coins it creates, attach the spends it carries, and
    /// keep every secondary index in step. A refused block (wrong height, a
    /// repeated hash, a repeated coin id, or a double spend) changes nothing.
    #[verifier::rlimit(60)]
    pub fn ingest_block(
        &mut self,
        height: u32,
        row: BlockRow,
        created: Vec<CoinInsert>,
        spent: Vec<SpendInsert>,
    ) -> (r: Result<(), StorageError>)
        requires
            old(self).wf(),
        ensures
            final(self).wf(),
            r is Err ==> *final(self) == *old(self),
            r is Ok <==> old(self).batch_ok(height, row, created@, spent@),
            r matches Err(e) ==> ((e == StorageError::SequenceError) <==> (height as int != old(
                self,
            ).num_blocks())),
            r is Ok ==> final(self).num_blocks() == old(self).num_blocks() + 1,
            r is Ok ==> final(self).spec_peak() == Some(height),
            r is Ok ==> final(self).spec_block(height) == Some(row),
            r is Ok ==> (forall|h2: u32|
                h2 != height ==> final(self).spec_block(h2) == old(self).spec_block(h2)),
            r is Ok ==> final(self).spec_block_height(row.hash) == Some(height),
            r is Ok ==> (forall|d: Digest|
                d != row.hash ==> final(self).spec_block_height(d) == old(self).spec_block_height(
                    d,
                )),
            r is Ok ==> (forall|i: int|
                0 <= i < created@.len() ==> final(self).spec_coin(
                    (#[trigger] created@[i]).coin_id,
                ) == Some(coin_row_of(created@[i], height))),
            r is Ok ==> (forall|id: Digest|
                !coin_ids(created@).contains(id) ==> final(self).spec_coin(id) == old(
                    self,
                ).spec_coin(id)),
            r is Ok ==> (forall|k: int|
                0 <= k < spent@.len() ==> (final(self).spec_coin_spend(
                    (#[trigger] spent@[k]).coin_id,
                ) matches Some(s) && s.spent_height == height && s.puzzle_reveal@
                    == spent@[k].puzzle_reveal@ && s.solution@ == spent@[k].solution@)),
            r is Ok ==> (forall|id: Digest|
                !spend_ids(spent@).contains(id) ==> final(self).spec_coin_spend(id) == old(
                    self,
                ).spec_coin_spend(id)),
            r is Ok ==> final(self).spec_created_at(height) == coin_ids(created@),
            r is Ok ==> (forall|h2: u32|
                h2 != height ==> final(self).spec_created_at(h2) == old(self).spec_created_at(h2)),
            r is Ok ==> final(self).spec_spent_at(height) == spend_ids(spent@),
            r is Ok ==> (forall|h2: u32|
                h2 != height ==> final(self).spec_spent_at(h2) == old(self).spec_spent_at(h2)),
    {
        // Validation: decide everything before the first write.
        if (height as u64) != (self.blocks.len() as u64) {
            return Err(StorageError::SequenceError);
        }
        if find_key(&self.hash_index, row.hash).is_some() {
            proof {
                let i = choose|i: int|
                    0 <= i < self.hash_index@.len() && self.hash_index@[i].0 == row.hash;
                assert(self.hash_index@[i] == (self.blocks@[i].hash, i as u32));
                assert(self.block_hash_at(i as u32, row.hash));
            }
            return Err(StorageError::ConflictError);
        }
        proof {
            assert forall|k: int|
                0 <= k < self.blocks@.len() implies (#[trigger] self.blocks@[k]).hash
                != row.hash by {
                assert(self.hash_index@[k] == (self.blocks@[k].hash, k as u32));
                assert(self.hash_index@[k].0 != row.hash);
            }
            self.lemma_absent_block_hash(row.hash);
        }
        let mut created_ids: Vec<Digest> = Vec::new();
        let mut i: usize = 0;
        while i < created.len()
            invariant
                i <= created@.len(),
                created_ids@ == coin_ids(created@.take(i as int)),
                distinct_digests(created_ids@),
                forall|k: int| 0 <= k < i ==> !self.has_coin((#[trigger] created@[k]).coin_id),
            decreases created@.len() - i,
        {
            let id = created[i].coin_id;
            if contains_digest(&created_ids, id) {
                proof {
                    let k = choose|k: int|
                        0 <= k < created_ids@.len() && created_ids@[k] == id;
                    assert(created@.take(i as int)[k].coin_id == id);
                    assert(coin_ids(created@)[k] == id);
                    assert(coin_ids(created@)[i as int] == id);
                    assert(!distinct_digests(coin_ids(created@)));
                }
                return Err(StorageError::ConflictError);
            }
            if find_key(&self.coins, id).is_some() {
                proof {
                    let k = choose|k: int|
                        0 <= k < self.coins@.len() && self.coins@[k].0 == id;
                    assert(self.coin_key_at(k, id));
                    assert(self.has_coin(created@[i as int].coin_id));
                }
                return Err(StorageError::ConflictError);
            }
            proof {
                self.lemma_absent_coin(id);
            }
            created_ids.push(id);
            i += 1;
            proof {
                assert(created_ids@ =~= coin_ids(created@.take(i as int)));
            }
        }
        proof {
            assert(created@.take(created@.len() as int) =~= created@);
            assert(self.creations_ok(created@));
        }
        let mut spent_ids: Vec<Digest> = Vec::new();
        let mut j: usize = 0;
        while j < spent.len()
            invariant
                j <= spent@.len(),
                spent_ids@ == spend_ids(spent@.take(j as int)),
                distinct_digests(spent_ids@),
                forall|k: int|
                    0 <= k < j ==> {
                        let id = (#[trigger] spent@[k]).coin_id;
                        (self.has_coin(id) || coin_ids(created@).contains(id)) && !self.has_spend(
                            id,
                        )
                    },
            decreases spent@.len() - j,
        {
            let id = spent[j].coin_id;
            if contains_digest(&spent_ids, id) {
                proof {
                    let k = choose|k: int| 0 <= k < spent_ids@.len() && spent_ids@[k] == id;
                    assert(spent@.take(j as int)[k].coin_id == id);
                    assert(spend_ids(spent@)[k] == id);
                    assert(spend_ids(spent@)[j as int] == id);
                    assert(!distinct_digests(spend_ids(spent@)));
                }
                return Err(StorageError::ConflictError);
            }
            if find_key(&self.spends, id).is_some() {
                proof {
                    let k = choose|k: int|
                        0 <= k < self.spends@.len() && self.spends@[k].0 == id;
                    assert(self.spend_key_at(k, id));
                    assert(self.has_spend(spent@[j as int].coin_id));
                }
                return Err(StorageError::ConflictError);
            }
            let known = find_key(&self.coins, id).is_some() || contains_digest(&created_ids, id);
            if !known {
                proof {
                    self.lemma_absent_coin(id);
                    assert(!coin_ids(created@).contains(spent@[j as int].coin_id));
                }
                return Err(StorageError::ConflictError);
            }
            proof {
                self.lemma_absent_spend(id);
                if !created_ids@.contains(id) {
                    let k = choose|k: int|
                        0 <= k < self.coins@.len() && self.coins@[k].0 == id;
                    assert(self.coin_key_at(k, id));
                }
            }
            spent_ids.push(id);
            j += 1;
            proof {
                assert(spent_ids@ =~= spend_ids(spent@.take(j as int)));
            }
        }
        proof {
            assert(spent@.take(spent@.len() as int) =~= spent@);
            assert(self.spends_ok(created@, spent@));
            assert(self.batch_ok(height, row, created@, spent@));
        }
        // Application: every index moves in the same atomic step.
        let ghost pre = *self;
        self.hash_index.push((row.hash, height));
        self.blocks.push(row);
        let mut created_bucket: Vec<Digest> = Vec::new();
        let mut i2: usize = 0;
        while i2 < created.len()
            invariant
                i2 <= created@.len(),
                self.blocks@ == pre.blocks@.push(row),
                self.hash_index@ == pre.hash_index@.push((row.hash, height)),
                self.spends@ == pre.spends@,
                self.created_index@ == pre.created_index@,
                self.spent_index@ == pre.spent_index@,
                self.coins@ == pre.coins@ + coin_entries_of(created@.take(i2 as int), height),
                created_bucket@ == coin_ids(created@.take(i2 as int)),
                self.parent_pairs@ == pre.parent_pairs@ + parent_pairs_of(
                    created@.take(i2 as int),
                ),
            decreases created@.len() - i2,
        {
            let c = created[i2];
            self.coins.push(
                (
                    c.coin_id,
                    CoinRow {
                        parent_coin_id: c.parent_coin_id,
                        puzzle_hash: c.puzzle_hash,
                        amount: c.amount,
                        created_height: height,
                    },
                ),
            );
            created_bucket.push(c.coin_id);
            self.parent_pairs.push((c.parent_coin_id, c.coin_id));
            i2 += 1;
            proof {
                assert(self.coins@ =~= pre.coins@ + coin_entries_of(
                    created@.take(i2 as int),
                    height,
                ));
                assert(created_bucket@ =~= coin_ids(created@.take(i2 as int)));
                assert(self.parent_pairs@ =~= pre.parent_pairs@ + parent_pairs_of(
                    created@.take(i2 as int),
                ));
            }
        }
        proof {
            assert(created@.take(created@.len() as int) =~= created@);
        }
        self.created_index.push(created_bucket);
        let mut spent_bucket: Vec<Digest> = Vec::new();
        let mut j2: usize = 0;
        while j2 < spent.len()
            invariant
                j2 <= spent@.len(),
                self.blocks@ == pre.blocks@.push(row),
                self.hash_index@ == pre.hash_index@.push((row.hash, height)),
                self.coins@ == pre.coins@ + coin_entries_of(created@, height),
                self.created_index@.len() == pre.created_index@.len() + 1,
                forall|k: int|
                    0 <= k < pre.created_index@.len() ==> #[trigger] self.created_index@[k]
                        == pre.created_index@[k],
                self.created_index@[pre.created_index@.len() as int]@ == coin_ids(created@),
                self.spent_index@ == pre.spent_index@,
                self.parent_pairs@ == pre.parent_pairs@ + parent_pairs_of(created@),
                self.spends@.len() == pre.spends@.len() + j2,
                forall|k: int| 0 <= k < pre.spends@.len() ==> self.spends@[k] == pre.spends@[k],
                forall|k: int|
                    0 <= k < j2 ==> (#[trigger] self.spends@[pre.spends@.len() + k]).0
                        == spent@[k].coin_id,
                forall|k: int|
                    0 <= k < j2 ==> {
                        let e = #[trigger] self.spends@[pre.spends@.len() + k];
                        e.1.spent_height == height && e.1.puzzle_reveal@
                            == spent@[k].puzzle_reveal@ && e.1.solution@ == spent@[k].solution@
                    },
                spent_bucket@ == spend_ids(spent@.take(j2 as int)),
            decreases spent@.len() - j2,
        {
            let s = &spent[j2];
            let reveal_copy = copy_bytes(&s.puzzle_reveal);
            let solution_copy = copy_bytes(&s.solution);
            self.spends.push(
                (
                    s.coin_id,
                    CoinSpendRow {
                        spent_height: height,
                        puzzle_reveal: reveal_copy,
                        solution: solution_copy,
                    },
                ),
            );
            spent_bucket.push(s.coin_id);
            j2 += 1;
            proof {
                assert(spent_bucket@ =~= spend_ids(spent@.take(j2 as int)));
            }
        }
        proof {
            assert(spent@.take(spent@.len() as int) =~= spent@);
        }
        self.spent_index.push(spent_bucket);
        proof {
            self.lemma_ingest_done(pre, height, row, created@, spent@);
        }
        Ok(())
    }

    /// The batched writes of one accepted block restore the invariant and move
    /// every observable lookup exactly as the ingestion contract states.
    #[verifier::rlimit(100)]
    proof fn lemma_ingest_done(
        self,
        pre: Database,
        height: u32,
        row: BlockRow,
        created: Seq<CoinInsert>,
        spent: Seq<SpendInsert>,
    )
        requires
            pre.wf(),
            pre.batch_ok(height, row, created, spent),
            self.blocks@ == pre.blocks@.push(row),
            self.hash_index@ == pre.hash_index@.push((row.hash, height)),
            self.coins@ == pre.coins@ + coin_entries_of(created, height),
            self.parent_pairs@ == pre.parent_pairs@ + parent_pairs_of(created),
            self.spends@.len() == pre.spends@.len() + spent.len(),
            forall|k: int| 0 <= k < pre.spends@.len() ==> self.spends@[k] == pre.spends@[k],
            forall|k: int|
                0 <= k < spent.len() ==> (#[trigger] self.spends@[pre.spends@.len() + k]).0
                    == spent[k].coin_id,
            forall|k: int|
                0 <= k < spent.len() ==> {
                    let e = #[trigger] self.spends@[pre.spends@.len() + k];
                    e.1.spent_height == height && e.1.puzzle_reveal@ == spent[k].puzzle_reveal@
                        && e.1.solution@ == spent[k].solution@
                },
            self.created_index@.len() == pre.created_index@.len() + 1,
            forall|k: int|
                0 <= k < pre.created_index@.len() ==> #[trigger] self.created_index@[k]
                    == pre.created_index@[k],
            self.created_index@[pre.created_index@.len() as int]@ == coin_ids(created),
            self.spent_index@.len() == pre.spent_index@.len() + 1,
            forall|k: int|
                0 <= k < pre.spent_index@.len() ==> #[trigger] self.spent_index@[k]
                    == pre.spent_index@[k],
            self.spent_index@[pre.spent_index@.len() as int]@ == spend_ids(spent),
        ensures
            self.wf(),
            self.num_blocks() == pre.num_blocks() + 1,
            self.spec_peak() == Some(height),
            self.spec_block(height) == Some(row),
            forall|h2: u32| h2 != height ==> self.spec_block(h2) == pre.spec_block(h2),
            self.spec_block_height(row.hash) == Some(height),
            forall|d: Digest|
                d != row.hash ==> self.spec_block_height(d) == pre.spec_block_height(d),
            forall|i: int|
                0 <= i < created.len() ==> self.spec_coin((#[trigger] created[i]).coin_id) == Some(
                    coin_row_of(created[i], height),
                ),
            forall|id: Digest|
                !coin_ids(created).contains(id) ==> self.spec_coin(id) == pre.spec_coin(id),
            forall|k: int|
                0 <= k < spent.len() ==> (self.spec_coin_spend(
                    (#[trigger] spent[k]).coin_id,
                ) matches Some(s) && s.spent_height == height && s.puzzle_reveal@
                    == spent[k].puzzle_reveal@ && s.solution@ == spent[k].solution@),
            forall|id: Digest|
                !spend_ids(spent).contains(id) ==> self.spec_coin_spend(id)
                    == pre.spec_coin_spend(id),
            self.spec_created_at(height) == coin_ids(created),
            forall|h2: u32| h2 != height ==> self.spec_created_at(h2) == pre.spec_created_at(h2),
            self.spec_spent_at(height) == spend_ids(spent),
            forall|h2: u32| h2 != height ==> self.spec_spent_at(h2) == pre.spec_spent_at(h2),
    {
        let n = pre.coins@.len() as int;
        let m = pre.spends@.len() as int;
        let nb = pre.blocks@.len() as int;
        // Key uniqueness of the grown tables.
        assert forall|a: int, b: int|
            0 <= a < self.coins@.len() && 0 <= b < self.coins@.len() && a != b implies (
        #[trigger] self.coins@[a]).0 != (#[trigger] self.coins@[b]).0 by {
            if a >= n && b >= n {
                assert(self.coins@[a] == coin_entry_of(created[a - n], height));
                assert(self.coins@[b] == coin_entry_of(created[b - n], height));
                assert(coin_ids(created)[a - n] == created[a - n].coin_id);
                assert(coin_ids(created)[b - n] == created[b - n].coin_id);
            } else if a < n && b >= n {
                assert(self.coins@[b] == coin_entry_of(created[b - n], height));
                if pre.coins@[a].0 == created[b - n].coin_id {
                    assert(pre.coin_key_at(a, created[b - n].coin_id));
                    assert(pre.has_coin(created[b - n].coin_id));
                    assert(false);
                }
            } else if a >= n && b < n {
                assert(self.coins@[a] == coin_entry_of(created[a - n], height));
                if pre.coins@[b].0 == created[a - n].coin_id {
                    assert(pre.coin_key_at(b, created[a - n].coin_id));
                    assert(pre.has_coin(created[a - n].coin_id));
                    assert(false);
                }
            }
        }
        assert forall|a: int, b: int|
            0 <= a < self.spends@.len() && 0 <= b < self.spends@.len() && a != b implies (
        #[trigger] self.spends@[a]).0 != (#[trigger] self.spends@[b]).0 by {
            if a >= m && b >= m {
                assert(self.spends@[m + (a - m)].0 == spent[a - m].coin_id);
                assert(self.spends@[m + (b - m)].0 == spent[b - m].coin_id);
                assert(spend_ids(spent)[a - m] == spent[a - m].coin_id);
                assert(spend_ids(spent)[b - m] == spent[b - m].coin_id);
            } else if a < m && b >= m {
                assert(self.spends@[m + (b - m)].0 == spent[b - m].coin_id);
                if pre.spends@[a].0 == spent[b - m].coin_id {
                    assert(pre.spend_key_at(a, spent[b - m].coin_id));
                    assert(false);
                }
            } else if a >= m && b < m {
                assert(self.spends@[m + (a - m)].0 == spent[a - m].coin_id);
                if pre.spends@[b].0 == spent[a - m].coin_id {
                    assert(pre.spend_key_at(b, spent[a - m].coin_id));
                    assert(false);
                }
            }
        }
        Database::lemma_blocks_after_push(pre, self, row, height);
        Database::lemma_coins_after_batch(pre, self, created, height);
        Database::lemma_spends_after_batch(pre, self, spent, height);
        // The hash index keeps one entry per block.
        assert forall|i: int|
            0 <= i < self.blocks@.len() implies #[trigger] self.hash_index@[i] == (
        self.blocks@[i].hash,
        i as u32,
        ) by {
            if i < nb {
                assert(pre.hash_index@[i] == (pre.blocks@[i].hash, i as u32));
            }
        }
        // Every coin's created height is in range.
        assert forall|i: int|
            0 <= i < self.coins@.len() implies (#[trigger] self.coins@[i]).1.created_height
            < self.blocks@.len() by {
            if i >= n {
                assert(self.coins@[i] == coin_entry_of(created[i - n], height));
            } else {
                assert(pre.coins@[i].1.created_height < nb);
            }
        }
        // Every spend refers to a stored coin and a height in range.
        assert forall|i: int|
            0 <= i < self.spends@.len() implies self.has_coin((#[trigger] self.spends@[i]).0)
            && self.spends@[i].1.spent_height < self.blocks@.len() by {
            if i < m {
                assert(self.spends@[i] == pre.spends@[i]);
                assert(pre.has_coin(pre.spends@[i].0));
            } else {
                let k = i - m;
                assert(self.spends@[m + k].0 == spent[k].coin_id);
                assert((pre.has_coin(spent[k].coin_id) || coin_ids(created).contains(
                    spent[k].coin_id,
                )) && !pre.has_spend(spent[k].coin_id));
            }
        }
        // The created index matches the coin records, cell by cell.
        assert forall|h: u32, id: Digest|
            #![trigger self.created_cell(h, id)]
            #![trigger self.created_at_height(h, id)]
            self.created_cell(h, id) <==> self.created_at_height(h, id) by {
            if (h as int) < nb {
                assert(self.spec_created_at(h) == pre.spec_created_at(h));
                if coin_ids(created).contains(id) {
                    let k = choose|k: int|
                        0 <= k < coin_ids(created).len() && coin_ids(created)[k] == id;
                    assert(self.spec_coin(created[k].coin_id) == Some(
                        coin_row_of(created[k], height),
                    ));
                    assert(!pre.has_coin(created[k].coin_id));
                    assert(!pre.created_at_height(h, id));
                    assert(!pre.created_cell(h, id));
                } else {
                    assert(self.spec_coin(id) == pre.spec_coin(id));
                    assert(pre.created_cell(h, id) <==> pre.created_at_height(h, id));
                }
            } else if h == height {
                assert(self.spec_created_at(h) == coin_ids(created));
                if coin_ids(created).contains(id) {
                    let k = choose|k: int|
                        0 <= k < coin_ids(created).len() && coin_ids(created)[k] == id;
                    assert(self.spec_coin(created[k].coin_id) == Some(
                        coin_row_of(created[k], height),
                    ));
                    assert(self.created_at_height(h, id));
                }
                if self.created_at_height(h, id) && !coin_ids(created).contains(id) {
                    assert(self.spec_coin(id) == pre.spec_coin(id));
                    assert(pre.has_coin(id));
                    let k = choose|k: int| pre.coin_key_at(k, id);
                    pre.lemma_coin_at(k);
                    assert(pre.coins@[k].1.created_height < nb);
                    assert(false);
                }
            } else {
                assert((h as int) > self.created_index@.len() - 1);
                assert(self.spec_created_at(h) == Seq::<Digest>::empty());
                assert(!self.created_cell(h, id));
                if self.created_at_height(h, id) {
                    if coin_ids(created).contains(id) {
                        let k = choose|k: int|
                            0 <= k < coin_ids(created).len() && coin_ids(created)[k] == id;
                        assert(self.spec_coin(created[k].coin_id) == Some(
                            coin_row_of(created[k], height),
                        ));
                        assert(false);
                    } else {
                        assert(self.spec_coin(id) == pre.spec_coin(id));
                        assert(pre.has_coin(id));
                        let k = choose|k: int| pre.coin_key_at(k, id);
                        pre.lemma_coin_at(k);
                        assert(pre.coins@[k].1.created_height < nb);
                        assert(false);
                    }
                }
            }
        }
        // The spent index matches the spend records, cell by cell.
        assert forall|h: u32, id: Digest|
            #![trigger self.spent_cell(h, id)]
            #![trigger self.spent_at_height(h, id)]
            self.spent_cell(h, id) <==> self.spent_at_height(h, id) by {
            if (h as int) < nb {
                assert(self.spec_spent_at(h) == pre.spec_spent_at(h));
                if spend_ids(spent).contains(id) {
                    let k = choose|k: int|
                        0 <= k < spend_ids(spent).len() && spend_ids(spent)[k] == id;
                    assert(self.spec_coin_spend(spent[k].coin_id) matches Some(s)
                        && s.spent_height == height);
                    assert(!pre.has_spend(spent[k].coin_id));
                    assert(!pre.spent_at_height(h, id));
                    assert(!pre.spent_cell(h, id));
                } else {
                    assert(self.spec_coin_spend(id) == pre.spec_coin_spend(id));
                    assert(pre.spent_cell(h, id) <==> pre.spent_at_height(h, id));
                }
            } else if h == height {
                assert(self.spec_spent_at(h) == spend_ids(spent));
                if spend_ids(spent).contains(id) {
                    let k = choose|k: int|
                        0 <= k < spend_ids(spent).len() && spend_ids(spent)[k] == id;
                    assert(self.spec_coin_spend(spent[k].coin_id) matches Some(s)
                        && s.spent_height == height);
                    assert(self.spent_at_height(h, id));
                }
                if self.spent_at_height(h, id) && !spend_ids(spent).contains(id) {
                    assert(self.spec_coin_spend(id) == pre.spec_coin_spend(id));
                    assert(pre.has_spend(id));
                    let k = choose|k: int| pre.spend_key_at(k, id);
                    pre.lemma_spend_at(k);
                    assert(pre.spends@[k].1.spent_height < nb);
                    assert(false);
                }
            } else {
                assert(self.spec_spent_at(h) == Seq::<Digest>::empty());
                assert(!self.spent_cell(h, id));
                if self.spent_at_height(h, id) {
                    if spend_ids(spent).contains(id) {
                        let k = choose|k: int|
                            0 <= k < spend_ids(spent).len() && spend_ids(spent)[k] == id;
                        assert(self.spec_coin_spend(spent[k].coin_id) matches Some(s)
                            && s.spent_height == height);
                        assert(false);
                    } else {
                        assert(self.spec_coin_spend(id) == pre.spec_coin_spend(id));
                        assert(pre.has_spend(id));
                        let k = choose|k: int| pre.spend_key_at(k, id);
                        pre.lemma_spend_at(k);
                        assert(pre.spends@[k].1.spent_height < nb);
                        assert(false);
                    }
                }
            }
        }
        // Parent pairs still name each child once.
        let np = pre.parent_pairs@.len() as int;
        assert forall|a: int, b: int|
            0 <= a < self.parent_pairs@.len() && 0 <= b < self.parent_pairs@.len() && a != b implies (
        #[trigger] self.parent_pairs@[a]).1 != (#[trigger] self.parent_pairs@[b]).1 by {
            if a >= np && b >= np {
                assert(self.parent_pairs@[a] == (
                    created[a - np].parent_coin_id,
                    created[a - np].coin_id,
                ));
                assert(self.parent_pairs@[b] == (
                    created[b - np].parent_coin_id,
                    created[b - np].coin_id,
                ));
                assert(coin_ids(created)[a - np] == created[a - np].coin_id);
                assert(coin_ids(created)[b - np] == created[b - np].coin_id);
            } else if a < np && b >= np {
                assert(pre.pair_present(pre.parent_pairs@[a].0, pre.parent_pairs@[a].1));
                assert(pre.child_of(pre.parent_pairs@[a].0, pre.parent_pairs@[a].1));
                assert(self.parent_pairs@[b] == (
                    created[b - np].parent_coin_id,
                    created[b - np].coin_id,
                ));
                assert(!pre.has_coin(created[b - np].coin_id));
            } else if a >= np && b < np {
                assert(pre.pair_present(pre.parent_pairs@[b].0, pre.parent_pairs@[b].1));
                assert(pre.child_of(pre.parent_pairs@[b].0, pre.parent_pairs@[b].1));
                assert(self.parent_pairs@[a] == (
                    created[a - np].parent_coin_id,
                    created[a - np].coin_id,
                ));
                assert(!pre.has_coin(created[a - np].coin_id));
            }
        }
        // Parent pairs match the coin records, pair by pair.
        assert forall|p: Digest, id: Digest|
            #![trigger self.pair_present(p, id)]
            #![trigger self.child_of(p, id)]
            self.pair_present(p, id) <==> self.child_of(p, id) by {
            if self.pair_present(p, id) {
                let k = choose|k: int|
                    0 <= k < self.parent_pairs@.len() && self.parent_pairs@[k] == (p, id);
                if k < np {
                    assert(pre.parent_pairs@[k] == (p, id));
                    assert(pre.pair_present(p, id));
                    assert(pre.child_of(p, id));
                    assert(pre.has_coin(id));
                    if coin_ids(created).contains(id) {
                        let k2 = choose|k2: int|
                            0 <= k2 < coin_ids(created).len() && coin_ids(created)[k2] == id;
                        assert(!pre.has_coin(created[k2].coin_id));
                        assert(false);
                    }
                    assert(self.spec_coin(id) == pre.spec_coin(id));
                } else {
                    let k2 = k - np;
                    assert(self.parent_pairs@[np + k2] == (
                        created[k2].parent_coin_id,
                        created[k2].coin_id,
                    ));
                    assert(self.spec_coin(created[k2].coin_id) == Some(
                        coin_row_of(created[k2], height),
                    ));
                }
            }
            if self.child_of(p, id) {
                if coin_ids(created).contains(id) {
                    let k = choose|k: int|
                        0 <= k < coin_ids(created).len() && coin_ids(created)[k] == id;
                    assert(self.spec_coin(created[k].coin_id) == Some(
                        coin_row_of(created[k], height),
                    ));
                    assert(created[k].parent_coin_id == p);
                    assert(self.parent_pairs@[np + k] == (p, id));
                    assert(self.pair_present(p, id));
                } else {
                    assert(self.spec_coin(id) == pre.spec_coin(id));
                    assert(pre.child_of(p, id));
                    assert(pre.pair_present(p, id));
                    let k = choose|k: int|
                        0 <= k < pre.parent_pairs@.len() && pre.parent_pairs@[k] == (p, id);
                    assert(self.parent_pairs@[k] == (p, id));
                    assert(self.pair_present(p, id));
                }
            }
        }
        // Bucket distinctness carries over to the new state.
        assert forall|h: u32| distinct_digests(#[trigger] self.spec_created_at(h)) by {
            if (h as int) < nb {
                assert(self.spec_created_at(h) == pre.spec_created_at(h));
                assert(distinct_digests(pre.spec_created_at(h)));
            } else if h == height {
                assert(self.spec_created_at(h) == coin_ids(created));
            } else {
                assert(self.spec_created_at(h) == Seq::<Digest>::empty());
            }
        }
        assert forall|h: u32| distinct_digests(#[trigger] self.spec_spent_at(h)) by {
            if (h as int) < nb {
                assert(self.spec_spent_at(h) == pre.spec_spent_at(h));
                assert(distinct_digests(pre.spec_spent_at(h)));
            } else if h == height {
                assert(self.spec_spent_at(h) == spend_ids(spent));
            } else {
                assert(self.spec_spent_at(h) == Seq::<Digest>::empty());
            }
        }
        // The remaining observable clauses.
        assert(self.spec_peak() == Some(height));
        assert forall|h2: u32|
            h2 != height implies self.spec_created_at(h2) == pre.spec_created_at(h2) by {
            if (h2 as int) >= nb {
                assert(self.spec_created_at(h2) =~= pre.spec_created_at(h2));
            }
        }
        assert forall|h2: u32|
            h2 != height implies self.spec_spent_at(h2) == pre.spec_spent_at(h2) by {
            if (h2 as int) >= nb {
                assert(self.spec_spent_at(h2) =~= pre.spec_spent_at(h2));
            }
        }
    }
}

impl Database {
    /// How the peak, the block count and the stored heights relate: heights
    /// form the contiguous range below the peak.
    pub proof fn lemma_heights(self)
        requires
            self.wf(),
        ensures
            self.num_blocks() <= 0x1_0000_0000,
            (self.spec_peak() is None) <==> self.num_blocks() == 0,
            self.spec_peak() matches Some(p) ==> p as int == self.num_blocks() - 1,
            forall|h: u32| #[trigger] self.spec_block(h) is Some <==> (h as int) < self.num_blocks(),
    {
    }

    /// A height answered by the hash index always holds a block, and that
    /// block carries the hash that was asked about.
    pub proof fn lemma_block_height_in_range(self, hash: Digest)
        requires
            self.wf(),
        ensures
            self.spec_block_height(hash) matches Some(h) ==> (self.spec_block(h) matches Some(b)
                && b.hash == hash),
    {
        if self.has_block_hash(hash) {
            let h = choose|h: u32| self.block_hash_at(h, hash);
            assert(self.block_hash_at(h, hash));
        }
    }

    /// Law: the hash index round-trips. The block stored at any ingested
    /// height is found again at that height when looked up by its own hash.
    pub proof fn lemma_block_hash_round_trip(self, height: u32)
        requires
            self.wf(),
        ensures
            self.spec_block(height) matches Some(b) ==> self.spec_block_height(b.hash) == Some(
                height,
            ),
    {
        match self.spec_block(height) {
            Some(b) => {
                self.lemma_block_at(height);
            },
            None => {},
        }
    }

    /// Law: every stored coin is listed in the created index under its own
    /// created height.
    pub proof fn lemma_created_coin_indexed(self, coin_id: Digest)
        requires
            self.wf(),
        ensures
            self.spec_coin(coin_id) matches Some(c) ==> self.spec_created_at(
                c.created_height,
            ).contains(coin_id),
    {
        match self.spec_coin(coin_id) {
            Some(c) => {
                assert(self.created_at_height(c.created_height, coin_id));
                assert(self.created_cell(c.created_height, coin_id));
            },
            None => {},
        }
    }

    /// Law: every stored spend is listed in the spent index under its own
    /// spent height.
    pub proof fn lemma_spent_coin_indexed(self, coin_id: Digest)
        requires
            self.wf(),
        ensures
            self.spec_coin_spend(coin_id) matches Some(s) ==> self.spec_spent_at(
                s.spent_height,
            ).contains(coin_id),
    {
        match self.spec_coin_spend(coin_id) {
            Some(s) => {
                assert(self.spent_at_height(s.spent_height, coin_id));
                assert(self.spent_cell(s.spent_height, coin_id));
            },
            None => {},
        }
    }

    /// Law: every stored coin is a child of its own parent, so it is listed by
    /// a parent lookup for that parent.
    pub proof fn lemma_child_coin_indexed(self, coin_id: Digest)
        requires
            self.wf(),
        ensures
            self.spec_coin(coin_id) matches Some(c) ==> self.child_of(c.parent_coin_id, coin_id),
    {
    }

    /// Law: the created index is exact. An id listed at a height belongs to a
    /// stored coin created at exactly that height.
    pub proof fn lemma_created_index_exact(self, height: u32, coin_id: Digest)
        requires
            self.wf(),
            self.spec_created_at(height).contains(coin_id),
        ensures
            self.spec_coin(coin_id) matches Some(c) && c.created_height == height,
    {
        assert(self.created_cell(height, coin_id));
        assert(self.created_at_height(height, coin_id));
    }

    /// Law: the spent index is exact. An id listed at a height belongs to a
    /// stored coin whose spend happened at exactly that height.
    pub proof fn lemma_spent_index_exact(self, height: u32, coin_id: Digest)
        requires
            self.wf(),
            self.spec_spent_at(height).contains(coin_id),
        ensures
            self.spec_coin_spend(coin_id) matches Some(s) && s.spent_height == height,
            self.spec_coin(coin_id) is Some,
    {
        assert(self.spent_cell(height, coin_id));
        assert(self.spent_at_height(height, coin_id));
        assert(self.has_spend(coin_id));
        let k = choose|k: int| self.spend_key_at(k, coin_id);
        assert(self.has_coin(self.spends@[k].0));
    }
}

/// Linear search of an association list for a key.
fn find_key<T>(entries: &Vec<(Digest, T)>, id: Digest) -> (r: Option<usize>)
    ensures
        match r {
            Some(i) => i < entries@.len() && entries@[i as int].0 == id,
            None => forall|k: int| 0 <= k < entries@.len() ==> (#[trigger] entries@[k]).0 != id,
        },
{
    let mut i: usize = 0;
    while i < entries.len()
        invariant
            i <= entries@.len(),
            forall|k: int| 0 <= k < i ==> (#[trigger] entries@[k]).0 != id,
        decreases entries@.len() - i,
    {
        if entries[i].0 == id {
            return Some(i);
        }
        i += 1;
    }
    None
}

/// Whether a digest occurs in the vector.
fn contains_digest(v: &Vec<Digest>, id: Digest) -> (r: bool)
    ensures
        r == v@.contains(id),
{
    let mut i: usize = 0;
    while i < v.len()
        invariant
            i <= v@.len(),
            forall|k: int| 0 <= k < i ==> v@[k] != id,
        decreases v@.len() - i,
    {
        if v[i] == id {
            return true;
        }
        i += 1;
    }
    false
}

/// An element-for-element copy of a digest vector.
fn copy_digests(v: &Vec<Digest>) -> (r: Vec<Digest>)
    ensures
        r@ == v@,
{
    let mut out: Vec<Digest> = Vec::new();
    let mut i: usize = 0;
    while i < v.len()
        invariant
            i <= v@.len(),
            out@ == v@.take(i as int),
        decreases v@.len() - i,
    {
        out.push(v[i]);
        i += 1;
        assert(out@ =~= v@.take(i as int));
    }
    assert(out@ =~= v@);
    out
}

/// A byte-for-byte copy of an opaque payload.
fn copy_bytes(v: &Vec<u8>) -> (r: Vec<u8>)
    ensures
        r@ == v@,
{
    let mut out: Vec<u8> = Vec::new();
    let mut i: usize = 0;
    while i < v.len()
        invariant
            i <= v@.len(),
            out@ == v@.take(i as int),
        decreases v@.len() - i,
    {
        out.push(v[i]);
        i += 1;
        assert(out@ =~= v@.take(i as int));
    }
    assert(out@ =~= v@);
    out
}

} // verus!
