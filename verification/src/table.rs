//! Association lists read as finite maps.
//!
//! A definition lists its entries in order. Read as a map, a later entry
//! replaces an earlier one that has the same key, as successive inserts would.

use vstd::prelude::*;

verus! {

/// The map that a list of entries denotes: the entries inserted one by one,
/// from the first to the last.
pub open spec fn table<K, V>(entries: Seq<(K, V)>) -> Map<K, V>
    decreases entries.len(),
{
    if entries.len() == 0 {
        Map::empty()
    } else {
        table(entries.drop_last()).insert(entries.last().0, entries.last().1)
    }
}

/// The position of the last entry with the given key, or -1 if no entry has it.
pub open spec fn last_position<K, V>(entries: Seq<(K, V)>, key: K) -> int
    decreases entries.len(),
{
    if entries.len() == 0 {
        -1
    } else if entries.last().0 == key {
        entries.len() - 1
    } else {
        last_position(entries.drop_last(), key)
    }
}

/// `last_position` is -1 or the position of an entry with the key that no
/// later entry shares, and it is -1 only if no entry has the key.
pub proof fn lemma_last_position<K, V>(entries: Seq<(K, V)>, key: K)
    ensures
        -1 <= last_position(entries, key) < entries.len(),
        last_position(entries, key) >= 0 ==> entries[last_position(entries, key)].0 == key,
        forall|j: int|
            last_position(entries, key) < j < entries.len() ==> (#[trigger] entries[j]).0 != key,
    decreases entries.len(),
{
    if entries.len() > 0 && entries.last().0 != key {
        let front = entries.drop_last();
        lemma_last_position(front, key);
        assert forall|j: int| last_position(entries, key) < j < entries.len() implies (
            #[trigger] entries[j]
        ).0 != key by {
            if j < front.len() {
                assert(front[j] == entries[j]);
            }
        }
    }
}

/// A position whose key no later entry shares is the last position of that key.
pub proof fn lemma_last_position_is<K, V>(entries: Seq<(K, V)>, key: K, at: int)
    requires
        0 <= at < entries.len(),
        entries[at].0 == key,
        forall|j: int| at < j < entries.len() ==> (#[trigger] entries[j]).0 != key,
    ensures
        last_position(entries, key) == at,
{
    lemma_last_position(entries, key);
}

/// The map holds exactly the keys that occur in the list, each with the value
/// of its last entry.
pub proof fn lemma_table_lookup<K, V>(entries: Seq<(K, V)>, key: K)
    ensures
        table(entries).contains_key(key) <==> last_position(entries, key) >= 0,
        table(entries).contains_key(key) ==> table(entries)[key] == entries[last_position(
            entries,
            key,
        )].1,
    decreases entries.len(),
{
    if entries.len() > 0 {
        lemma_table_lookup(entries.drop_last(), key);
        lemma_last_position(entries.drop_last(), key);
    }
}

} // verus!
