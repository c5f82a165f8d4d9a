use vstd::prelude::*;

verus! {

/// A fixed-size 256-bit content digest (a block hash or coin id), held as four
/// 64-bit words; `w0` is the most significant word in the encoded byte order.
#[derive(Clone, Copy, PartialEq, Eq, Hash, Structural, Debug)]
pub struct Digest {
    pub w0: u64,
    pub w1: u64,
    pub w2: u64,
    pub w3: u64,
}

/// The stored record of one block: its content hash plus header data that this
/// layer carries but does not interpret.
#[derive(Clone, Copy, PartialEq, Eq, Structural, Debug)]
pub struct BlockRow {
    pub hash: Digest,
    pub timestamp: u64,
}

/// The stored record of one coin: where it came from and what it is worth.
#[derive(Clone, Copy, PartialEq, Eq, Structural, Debug)]
pub struct CoinRow {
    pub parent_coin_id: Digest,
    pub puzzle_hash: Digest,
    pub amount: u64,
    pub created_height: u32,
}

/// The stored record of a coin's spend: the height it was spent at, plus the
/// opaque puzzle reveal and solution payloads.
#[derive(Clone, Debug)]
pub struct CoinSpendRow {
    pub spent_height: u32,
    pub puzzle_reveal: Vec<u8>,
    pub solution: Vec<u8>,
}

/// One coin to be created by a block under ingestion; the engine assigns the
/// created height itself.
#[derive(Clone, Copy, PartialEq, Eq, Structural, Debug)]
pub struct CoinInsert {
    pub coin_id: Digest,
    pub parent_coin_id: Digest,
    pub puzzle_hash: Digest,
    pub amount: u64,
}

/// One coin spend carried by a block under ingestion; the engine assigns the
/// spent height itself.
#[derive(Clone, Debug)]
pub struct SpendInsert {
    pub coin_id: Digest,
    pub puzzle_reveal: Vec<u8>,
    pub solution: Vec<u8>,
}

/// Why an ingestion was refused. Absence of a record is never an error: reads
/// report it as `None`.
#[derive(Clone, Copy, PartialEq, Eq, Structural, Debug)]
pub enum StorageError {
    /// The block's height does not directly follow the current peak.
    SequenceError,
    /// A coin or block hash would be created twice, or a coin spent twice.
    ConflictError,
}

/// Iteration order for a range scan.
#[derive(Clone, Copy, PartialEq, Eq, Structural, Debug)]
pub enum Direction {
    Forward,
    Reverse,
}

/// The coin row a creation request settles into once its block is accepted.
pub open spec fn coin_row_of(c: CoinInsert, height: u32) -> CoinRow {
    CoinRow {
        parent_coin_id: c.parent_coin_id,
        puzzle_hash: c.puzzle_hash,
        amount: c.amount,
        created_height: height,
    }
}

/// No digest occurs twice in the sequence.
pub open spec fn distinct_digests(s: Seq<Digest>) -> bool {
    forall|i: int, j: int| 0 <= i < j < s.len() ==> s[i] != s[j]
}

/// The coin ids of a batch of creation requests, in batch order.
pub open spec fn coin_ids(created: Seq<CoinInsert>) -> Seq<Digest> {
    created.map_values(|c: CoinInsert| c.coin_id)
}

/// The coin ids of a batch of spend requests, in batch order.
pub open spec fn spend_ids(spent: Seq<SpendInsert>) -> Seq<Digest> {
    spent.map_values(|s: SpendInsert| s.coin_id)
}

} // verus!
