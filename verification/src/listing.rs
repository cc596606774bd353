//! The listing of one guild, drawn from a walk over all entries in key order.

use crate::codec::{bytes_lt, decode_id, id_bytes, key_bytes, Key};
use crate::codec_laws::{
    lemma_id_bytes_round_trip, lemma_id_round_trip, lemma_key_bytes_round_trip, lemma_key_order,
    lemma_key_round_trip,
};
use crate::engine::{iter_next, iter_rest, lists_in_order};
use crate::error::StorageError;
use crate::model::{guild_rows, has_crossover, is_guild_listing, lookup, row_of, well_formed};
use vstd::prelude::*;

verus! {

/// Reads one entry as a record, if it has the shape of one.
pub fn decode_row(key: &[u8], value: &[u8]) -> (row: Option<(Key, u64)>)
    ensures
        row == match row_of((key@, value@)) {
            Some((guild, source, target)) => Some((Key { guild, source }, target)),
            None => None,
        },
{
    match Key::decode(key) {
        Some(place) => match decode_id(value) {
            Some(target) => Some((place, target)),
            None => None,
        },
        None => None,
    }
}

/// Every item has the shape of a record.
pub open spec fn all_rows(items: Seq<(Seq<u8>, Seq<u8>)>) -> bool {
    forall|i: int| 0 <= i < items.len() ==> row_of(#[trigger] items[i]) is Some
}

/// Walks the cursor to its end and collects the `(source, target)` pairs of
/// `guild`, in the cursor's order. An entry that is not a record stops the
/// walk with `Corrupt`; an engine failure stops it with `TransactionFailed`.
pub fn scan_guild(
    it: &mut heed::RoIter<heed::types::ByteSlice, heed::types::ByteSlice>,
    guild: u64,
) -> (r: Result<Vec<(u64, u64)>, StorageError>)
    ensures
        match r {
            Ok(rows) => all_rows(iter_rest(old(it))) && rows@ == guild_rows(
                iter_rest(old(it)),
                guild,
            ),
            Err(StorageError::Corrupt) => !all_rows(iter_rest(old(it))),
            Err(StorageError::TransactionFailed(_)) => true,
            Err(StorageError::Unavailable(_)) => false,
        },
{
    let ghost all = iter_rest(it);
    let ghost mut seen: int = 0;
    let mut rows: Vec<(u64, u64)> = Vec::new();
    proof {
        assert(all.skip(0) =~= all);
        assert(all.take(0) =~= Seq::<(Seq<u8>, Seq<u8>)>::empty());
    }
    loop
        invariant
            all == iter_rest(old(it)),
            0 <= seen <= all.len(),
            iter_rest(it) == all.skip(seen),
            all_rows(all.take(seen)),
            rows@ == guild_rows(all.take(seen), guild),
        decreases all.len() - seen,
    {
        match iter_next(it) {
            None => {
                proof {
                    assert(all.take(seen) =~= all);
                }
                return Ok(rows);
            },
            Some(Err(error)) => {
                return Err(StorageError::transaction_failed(&error));
            },
            Some(Ok(entry)) => {
                proof {
                    assert(all.skip(seen)[0] == all[seen]);
                    assert(all.skip(seen).skip(1) =~= all.skip(seen + 1));
                    assert(all.take(seen + 1).drop_last() =~= all.take(seen));
                    assert(all.take(seen + 1).last() == all[seen]);
                }
                match decode_row(entry.0.as_slice(), entry.1.as_slice()) {
                    None => {
                        proof {
                            assert(row_of(all[seen]) is None);
                        }
                        return Err(StorageError::Corrupt);
                    },
                    Some((place, target)) => {
                        if place.guild == guild {
                            rows.push((place.source, target));
                        }
                        proof {
                            assert forall|i: int| 0 <= i < seen + 1 implies row_of(
                                #[trigger] all.take(seen + 1)[i],
                            ) is Some by {
                                if i < seen {
                                    assert(all.take(seen + 1)[i] == all.take(seen)[i]);
                                }
                            }
                            seen = seen + 1;
                        }
                    },
                }
            },
        }
    }
}

/// What the rows drawn from the first `n` items have to do with those
/// items: each row is one of them, the rows ascend by source, and no item of
/// the guild is left out.
spec fn rows_match(
    items: Seq<(Seq<u8>, Seq<u8>)>,
    n: int,
    guild: u64,
    rows: Seq<(u64, u64)>,
) -> bool {
    &&& forall|i: int|
        0 <= i < rows.len() ==> exists|j: int|
            0 <= j < n && #[trigger] items[j] == row_entry(guild, #[trigger] rows[i])
    &&& forall|i: int, j: int|
        0 <= i < j < rows.len() ==> (#[trigger] rows[i]).0 < (#[trigger] rows[j]).0
    &&& forall|j: int, source: u64|
        0 <= j < n && (#[trigger] items[j]).0 == #[trigger] key_bytes(guild, source)
            ==> exists|i: int| 0 <= i < rows.len() && (#[trigger] rows[i]).0 == source
}

/// The entry that keeps `row` for `guild`.
spec fn row_entry(guild: u64, row: (u64, u64)) -> (Seq<u8>, Seq<u8>) {
    (key_bytes(guild, row.0), id_bytes(row.1))
}

/// The rows drawn from records in key order match those records.
proof fn lemma_rows_match(
    items: Seq<(Seq<u8>, Seq<u8>)>,
    entries: Map<Seq<u8>, Seq<u8>>,
    n: int,
    guild: u64,
)
    requires
        lists_in_order(items, entries),
        all_rows(items),
        0 <= n <= items.len(),
    ensures
        rows_match(items, n, guild, guild_rows(items.take(n), guild)),
    decreases n,
{
    let rows = guild_rows(items.take(n), guild);
    if n > 0 {
        let before = guild_rows(items.take(n - 1), guild);
        lemma_rows_match(items, entries, n - 1, guild);
        assert(items.take(n).drop_last() =~= items.take(n - 1));
        let item = items[n - 1];
        assert(items.take(n).last() == item);
        let (g, source, target) = row_of(item).unwrap();
        lemma_key_bytes_round_trip(item.0);
        lemma_id_bytes_round_trip(item.1);
        assert(item == row_entry(g, (source, target)));
        if g == guild {
            assert(rows == before.push((source, target)));
            assert forall|i: int| 0 <= i < rows.len() implies exists|j: int|
                0 <= j < n && #[trigger] items[j] == row_entry(guild, #[trigger] rows[i]) by {
                if i < before.len() {
                    let j = choose|j: int|
                        0 <= j < n - 1 && #[trigger] items[j] == row_entry(guild, before[i]);
                    assert(items[j] == row_entry(guild, rows[i]));
                } else {
                    assert(items[n - 1] == row_entry(guild, rows[i]));
                }
            }
            assert forall|i: int, j: int| 0 <= i < j < rows.len() implies (#[trigger] rows[i]).0
                < (#[trigger] rows[j]).0 by {
                if j == before.len() {
                    let k = choose|k: int|
                        0 <= k < n - 1 && #[trigger] items[k] == row_entry(guild, before[i]);
                    assert(bytes_lt(items[k].0, items[n - 1].0));
                    lemma_key_order(guild, before[i].0, guild, source);
                } else {
                    assert(rows[i] == before[i] && rows[j] == before[j]);
                }
            }
            assert forall|j: int, s: u64|
                0 <= j < n && (#[trigger] items[j]).0 == #[trigger] key_bytes(
                    guild,
                    s,
                ) implies exists|i: int| 0 <= i < rows.len() && (#[trigger] rows[i]).0 == s by {
                if j < n - 1 {
                    let i = choose|i: int| 0 <= i < before.len() && (#[trigger] before[i]).0 == s;
                    assert(rows[i].0 == s);
                } else {
                    lemma_key_round_trip(guild, s);
                    assert(rows[before.len() as int].0 == s);
                }
            }
        } else {
            assert(rows == before);
            assert forall|j: int, s: u64|
                0 <= j < n && (#[trigger] items[j]).0 == #[trigger] key_bytes(
                    guild,
                    s,
                ) implies exists|i: int| 0 <= i < rows.len() && (#[trigger] rows[i]).0 == s by {
                if j == n - 1 {
                    lemma_key_round_trip(guild, s);
                }
            }
        }
    } else {
        assert(items.take(0) =~= Seq::<(Seq<u8>, Seq<u8>)>::empty());
    }
}

/// A walk over all entries in key order finds every item a record exactly
/// when every entry is one, and the rows drawn from it are then the listing
/// of the guild.
pub proof fn lemma_rows_are_listing(
    items: Seq<(Seq<u8>, Seq<u8>)>,
    entries: Map<Seq<u8>, Seq<u8>>,
    guild: u64,
)
    requires
        lists_in_order(items, entries),
    ensures
        all_rows(items) <==> well_formed(entries),
        all_rows(items) ==> is_guild_listing(entries, guild, guild_rows(items, guild)),
{
    if all_rows(items) {
        assert forall|key: Seq<u8>| #[trigger] entries.contains_key(key) implies row_of(
            (key, entries[key]),
        ) is Some by {
            let i = choose|i: int| 0 <= i < items.len() && #[trigger] items[i].0 == key;
            assert(items[i] == (key, entries[key]));
        }
        let rows = guild_rows(items, guild);
        lemma_rows_match(items, entries, items.len() as int, guild);
        assert(items.take(items.len() as int) =~= items);
        assert forall|i: int| 0 <= i < rows.len() implies lookup(
            entries,
            guild,
            (#[trigger] rows[i]).0,
        ) == Ok::<Option<u64>, StorageError>(Some(rows[i].1)) by {
            let j = choose|j: int|
                0 <= j < items.len() && #[trigger] items[j] == row_entry(guild, rows[i]);
            assert(entries.contains_key(items[j].0));
            lemma_id_round_trip(rows[i].1);
        }
        assert forall|source: u64| #[trigger]
            has_crossover(entries, guild, source) implies exists|i: int|
            0 <= i < rows.len() && (#[trigger] rows[i]).0 == source by {
            let key = key_bytes(guild, source);
            let j = choose|j: int| 0 <= j < items.len() && #[trigger] items[j].0 == key;
            assert(items[j].0 == key_bytes(guild, source));
        }
    } else {
        let i = choose|i: int| 0 <= i < items.len() && !(row_of(#[trigger] items[i]) is Some);
        assert(entries.contains_key(items[i].0));
        assert(items[i] == (items[i].0, entries[items[i].0]));
    }
}

} // verus!
