//! What the stored bytes mean.
//!
//! A transaction sees a map from key bytes to value bytes. The functions here
//! read such a map as a set of crossovers; the store's contracts are stated
//! over them.

use crate::codec::{id_bytes, id_of, key_bytes, key_of};
use crate::error::StorageError;
use vstd::prelude::*;

verus! {

/// Every entry has the shape of a record: a key of sixteen bytes and a value
/// of eight.
pub open spec fn well_formed(entries: Map<Seq<u8>, Seq<u8>>) -> bool {
    forall|key: Seq<u8>| #[trigger]
        entries.contains_key(key) ==> row_of((key, entries[key])) is Some
}

/// The guild, source and target that one entry holds, if it has the shape of
/// a record.
pub open spec fn row_of(entry: (Seq<u8>, Seq<u8>)) -> Option<(u64, u64, u64)> {
    match (key_of(entry.0), id_of(entry.1)) {
        (Some((guild, source)), Some(target)) => Some((guild, source, target)),
        _ => None,
    }
}

/// The entries after `target` was put for `source` in `guild`.
pub open spec fn with_crossover(
    entries: Map<Seq<u8>, Seq<u8>>,
    guild: u64,
    source: u64,
    target: u64,
) -> Map<Seq<u8>, Seq<u8>> {
    entries.insert(key_bytes(guild, source), id_bytes(target))
}

/// The entries after the crossover of `source` in `guild` was removed.
pub open spec fn without_crossover(
    entries: Map<Seq<u8>, Seq<u8>>,
    guild: u64,
    source: u64,
) -> Map<Seq<u8>, Seq<u8>> {
    entries.remove(key_bytes(guild, source))
}

/// Whether anything is kept for `source` in `guild`.
pub open spec fn has_crossover(entries: Map<Seq<u8>, Seq<u8>>, guild: u64, source: u64) -> bool {
    entries.contains_key(key_bytes(guild, source))
}

/// What a lookup of `source` in `guild` gives: nothing where nothing is
/// kept, the target where one is kept, and `Corrupt` where the value kept is
/// not a target.
pub open spec fn lookup(entries: Map<Seq<u8>, Seq<u8>>, guild: u64, source: u64) -> Result<
    Option<u64>,
    StorageError,
> {
    if !has_crossover(entries, guild, source) {
        Ok(None)
    } else {
        match id_of(entries[key_bytes(guild, source)]) {
            Some(target) => Ok(Some(target)),
            None => Err(StorageError::Corrupt),
        }
    }
}

/// `rows` is the listing of `guild`: its `(source, target)` pairs, each
/// once, by ascending source, and nothing else.
pub open spec fn is_guild_listing(
    entries: Map<Seq<u8>, Seq<u8>>,
    guild: u64,
    rows: Seq<(u64, u64)>,
) -> bool {
    &&& forall|i: int, j: int|
        0 <= i < j < rows.len() ==> (#[trigger] rows[i]).0 < (#[trigger] rows[j]).0
    &&& forall|i: int|
        0 <= i < rows.len() ==> lookup(entries, guild, (#[trigger] rows[i]).0) == Ok::<
            Option<u64>,
            StorageError,
        >(Some(rows[i].1))
    &&& forall|source: u64| #[trigger]
        has_crossover(entries, guild, source) ==> exists|i: int|
            0 <= i < rows.len() && (#[trigger] rows[i]).0 == source
}

/// The `(source, target)` pairs of `guild` among `items`, in the order of
/// `items`. Items that are not records are passed over.
pub open spec fn guild_rows(items: Seq<(Seq<u8>, Seq<u8>)>, guild: u64) -> Seq<(u64, u64)>
    decreases items.len(),
{
    if items.len() == 0 {
        Seq::empty()
    } else {
        let before = guild_rows(items.drop_last(), guild);
        match row_of(items.last()) {
            Some((g, source, target)) => if g == guild {
                before.push((source, target))
            } else {
                before
            },
            None => before,
        }
    }
}

} // verus!
