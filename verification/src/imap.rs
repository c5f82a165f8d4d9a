use vstd::prelude::*;

use indexmap::IndexMap;

use crate::api::Coin;

verus! {

/// The key under which a response coin is deduplicated: a digest's four words,
/// compared componentwise by the standard tuple equality.
pub type CoinKey = (u64, u64, u64, u64);

#[verifier::external_type_specification]
#[verifier::external_body]
#[verifier::reject_recursive_types(K)]
#[verifier::reject_recursive_types(V)]
#[verifier::reject_recursive_types(S)]
pub struct ExIndexMap<K, V, S>(IndexMap<K, V, S>);

/// The entries an insertion-ordered map holds, oldest first.
pub uninterp spec fn imap_entries(m: IndexMap<CoinKey, Coin>) -> Seq<(CoinKey, Coin)>;

/// Relies on indexmap's `IndexMap::new`: a freshly created map holds nothing.
#[verifier::external_body]
pub(crate) fn imap_new() -> (r: IndexMap<CoinKey, Coin>)
    ensures
        imap_entries(r) == Seq::<(CoinKey, Coin)>::empty(),
{
    IndexMap::new()
}

/// Some stored entry carries this key.
pub open spec fn imap_has_key(m: IndexMap<CoinKey, Coin>, k: CoinKey) -> bool {
    exists|i: int| 0 <= i < imap_entries(m).len() && (#[trigger] imap_entries(m)[i]).0 == k
}

/// Relies on indexmap's `IndexMap::contains_key`: true exactly when a key
/// equal to `k` is stored.
#[verifier::external_body]
pub(crate) fn imap_contains_key(m: &IndexMap<CoinKey, Coin>, k: &CoinKey) -> (r: bool)
    ensures
        r == imap_has_key(*m, *k),
{
    m.contains_key(k)
}

/// Relies on indexmap's `IndexMap::insert`: a key not yet present is inserted
/// last in order, keeping every earlier entry in place.
#[verifier::external_body]
pub(crate) fn imap_insert(m: &mut IndexMap<CoinKey, Coin>, k: CoinKey, v: Coin)
    requires
        forall|i: int|
            0 <= i < imap_entries(*old(m)).len() ==> (#[trigger] imap_entries(*old(m))[i]).0 != k,
    ensures
        imap_entries(*final(m)) == imap_entries(*old(m)).push((k, v)),
{
    m.insert(k, v);
}

/// Relies on indexmap's `IndexMap::into_values`: the values come out in the
/// map's insertion order.
#[verifier::external_body]
pub(crate) fn imap_into_values(m: IndexMap<CoinKey, Coin>) -> (r: Vec<Coin>)
    ensures
        r@.len() == imap_entries(m).len(),
        forall|i: int| 0 <= i < r@.len() ==> r@[i] == imap_entries(m)[i].1,
{
    m.into_values().collect()
}

} // verus!
