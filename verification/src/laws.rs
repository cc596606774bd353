//! What holds of the store's operations, whatever a transaction saw before.
//!
//! Each law is stated over the entries that one transaction sees, with the
//! functions by which the operations' own contracts say what they do.

use crate::codec_laws::{lemma_id_round_trip, lemma_key_bytes_injective, lemma_key_round_trip};
use crate::error::StorageError;
use crate::model::{
    has_crossover, is_guild_listing, lookup, well_formed, with_crossover, without_crossover,
};
use vstd::prelude::*;

verus! {

/// A crossover that was put is what a lookup of its guild and source finds.
pub proof fn law_put_then_get(
    entries: Map<Seq<u8>, Seq<u8>>,
    guild: u64,
    source: u64,
    target: u64,
)
    ensures
        lookup(with_crossover(entries, guild, source, target), guild, source) == Ok::<
            Option<u64>,
            StorageError,
        >(Some(target)),
{
    lemma_id_round_trip(target);
}

/// Removing where nothing is kept finds nothing and changes nothing.
pub proof fn law_remove_absent(entries: Map<Seq<u8>, Seq<u8>>, guild: u64, source: u64)
    requires
        !has_crossover(entries, guild, source),
    ensures
        without_crossover(entries, guild, source) == entries,
{
    assert(without_crossover(entries, guild, source) =~= entries);
}

/// After a put and a remove of the same guild and source, a lookup finds
/// nothing.
pub proof fn law_put_remove_get(
    entries: Map<Seq<u8>, Seq<u8>>,
    guild: u64,
    source: u64,
    target: u64,
)
    ensures
        has_crossover(with_crossover(entries, guild, source, target), guild, source),
        lookup(
            without_crossover(with_crossover(entries, guild, source, target), guild, source),
            guild,
            source,
        ) == Ok::<Option<u64>, StorageError>(None),
{
}

/// A put changes no lookup but that of its own guild and source.
pub proof fn law_put_elsewhere(
    entries: Map<Seq<u8>, Seq<u8>>,
    guild: u64,
    source: u64,
    target: u64,
    other_guild: u64,
    other_source: u64,
)
    requires
        guild != other_guild || source != other_source,
    ensures
        lookup(with_crossover(entries, guild, source, target), other_guild, other_source)
            == lookup(entries, other_guild, other_source),
{
    lemma_key_bytes_injective(guild, source, other_guild, other_source);
}

/// Two guilds that put the same source do not interfere: each finds its own
/// target.
pub proof fn law_guilds_do_not_interfere(
    entries: Map<Seq<u8>, Seq<u8>>,
    g1: u64,
    g2: u64,
    source: u64,
    t1: u64,
    t2: u64,
)
    requires
        g1 != g2,
    ensures
        ({
            let after = with_crossover(with_crossover(entries, g1, source, t1), g2, source, t2);
            &&& lookup(after, g1, source) == Ok::<Option<u64>, StorageError>(Some(t1))
            &&& lookup(after, g2, source) == Ok::<Option<u64>, StorageError>(Some(t2))
        }),
{
    let first = with_crossover(entries, g1, source, t1);
    law_put_then_get(entries, g1, source, t1);
    law_put_then_get(first, g2, source, t2);
    law_put_elsewhere(first, g2, source, t2, g1, source);
}

/// The last put wins.
pub proof fn law_overwrite(
    entries: Map<Seq<u8>, Seq<u8>>,
    guild: u64,
    source: u64,
    t1: u64,
    t2: u64,
)
    ensures
        lookup(
            with_crossover(with_crossover(entries, guild, source, t1), guild, source, t2),
            guild,
            source,
        ) == Ok::<Option<u64>, StorageError>(Some(t2)),
        with_crossover(with_crossover(entries, guild, source, t1), guild, source, t2)
            == with_crossover(entries, guild, source, t2),
{
    law_put_then_get(with_crossover(entries, guild, source, t1), guild, source, t2);
    assert(with_crossover(with_crossover(entries, guild, source, t1), guild, source, t2)
        =~= with_crossover(entries, guild, source, t2));
}

/// Entries that are all records stay so under a put and under a remove: the
/// store never writes anything that it could not read.
pub proof fn law_shape_is_kept(
    entries: Map<Seq<u8>, Seq<u8>>,
    guild: u64,
    source: u64,
    target: u64,
)
    requires
        well_formed(entries),
    ensures
        well_formed(with_crossover(entries, guild, source, target)),
        well_formed(without_crossover(entries, guild, source)),
{
    lemma_key_round_trip(guild, source);
    lemma_id_round_trip(target);
}

/// A pair stands in the listing of a guild exactly when a lookup of its
/// source in that guild finds its target: nothing of the guild is left out,
/// and nothing of another guild gets in.
pub proof fn law_listing_membership(
    entries: Map<Seq<u8>, Seq<u8>>,
    guild: u64,
    rows: Seq<(u64, u64)>,
    source: u64,
    target: u64,
)
    requires
        is_guild_listing(entries, guild, rows),
    ensures
        rows.contains((source, target)) <==> lookup(entries, guild, source) == Ok::<
            Option<u64>,
            StorageError,
        >(Some(target)),
{
    if rows.contains((source, target)) {
        let i = choose|i: int| 0 <= i < rows.len() && rows[i] == (source, target);
        assert(lookup(entries, guild, rows[i].0) == Ok::<Option<u64>, StorageError>(
            Some(rows[i].1),
        ));
    }
    if lookup(entries, guild, source) == Ok::<Option<u64>, StorageError>(Some(target)) {
        assert(has_crossover(entries, guild, source));
        let i = choose|i: int| 0 <= i < rows.len() && (#[trigger] rows[i]).0 == source;
        assert(lookup(entries, guild, rows[i].0) == Ok::<Option<u64>, StorageError>(
            Some(rows[i].1),
        ));
        assert(rows[i] == (source, target));
    }
}

/// Two listings of one guild over the same entries agree on the first `n`
/// sources.
proof fn lemma_listings_agree(
    entries: Map<Seq<u8>, Seq<u8>>,
    guild: u64,
    a: Seq<(u64, u64)>,
    b: Seq<(u64, u64)>,
    n: int,
)
    requires
        is_guild_listing(entries, guild, a),
        is_guild_listing(entries, guild, b),
        0 <= n <= a.len(),
        n <= b.len(),
    ensures
        forall|k: int| 0 <= k < n ==> (#[trigger] a[k]).0 == (#[trigger] b[k]).0,
    decreases n,
{
    if n > 0 {
        lemma_listings_agree(entries, guild, a, b, n - 1);
        let i = n - 1;
        assert(has_crossover(entries, guild, a[i].0));
        assert(has_crossover(entries, guild, b[i].0));
        let in_b = choose|j: int| 0 <= j < b.len() && (#[trigger] b[j]).0 == a[i].0;
        let in_a = choose|j: int| 0 <= j < a.len() && (#[trigger] a[j]).0 == b[i].0;
        if in_b < i {
            assert(a[in_b].0 == b[in_b].0);
        }
        if in_a < i {
            assert(a[in_a].0 == b[in_a].0);
        }
        if in_b > i {
            assert(b[i].0 < b[in_b].0);
        }
        if in_a > i {
            assert(a[i].0 < a[in_a].0);
        }
    }
}

/// The entries and the guild decide the listing: there is at most one.
pub proof fn law_listing_unique(
    entries: Map<Seq<u8>, Seq<u8>>,
    guild: u64,
    a: Seq<(u64, u64)>,
    b: Seq<(u64, u64)>,
)
    requires
        is_guild_listing(entries, guild, a),
        is_guild_listing(entries, guild, b),
    ensures
        a == b,
{
    let n = if a.len() <= b.len() {
        a.len() as int
    } else {
        b.len() as int
    };
    lemma_listings_agree(entries, guild, a, b, n);
    if a.len() > n {
        assert(has_crossover(entries, guild, a[n].0));
        let j = choose|j: int| 0 <= j < b.len() && (#[trigger] b[j]).0 == a[n].0;
        assert(a[j].0 == b[j].0);
    }
    if b.len() > n {
        assert(has_crossover(entries, guild, b[n].0));
        let j = choose|j: int| 0 <= j < a.len() && (#[trigger] a[j]).0 == b[n].0;
        assert(a[j].0 == b[j].0);
    }
    assert forall|k: int| 0 <= k < a.len() implies a[k] == b[k] by {
        assert(a[k].0 == b[k].0);
        assert(lookup(entries, guild, a[k].0) == Ok::<Option<u64>, StorageError>(Some(a[k].1)));
        assert(lookup(entries, guild, b[k].0) == Ok::<Option<u64>, StorageError>(Some(b[k].1)));
    }
    assert(a =~= b);
}

/// A guild of which nothing is kept has the empty listing, whatever is kept
/// for other guilds.
pub proof fn law_listing_of_absent_guild(
    entries: Map<Seq<u8>, Seq<u8>>,
    guild: u64,
    rows: Seq<(u64, u64)>,
)
    requires
        forall|source: u64| !has_crossover(entries, guild, source),
        is_guild_listing(entries, guild, rows),
    ensures
        rows.len() == 0,
{
    if rows.len() > 0 {
        assert(has_crossover(entries, guild, rows[0].0));
    }
}

/// After two puts for one guild and one for another, the listing of the
/// first guild is its two crossovers, by ascending source, and nothing of
/// the other guild.
pub proof fn law_listing_after_puts(
    entries: Map<Seq<u8>, Seq<u8>>,
    guild: u64,
    s1: u64,
    t1: u64,
    s2: u64,
    t2: u64,
    other_guild: u64,
    s3: u64,
    t3: u64,
    rows: Seq<(u64, u64)>,
)
    requires
        forall|source: u64| !has_crossover(entries, guild, source),
        guild != other_guild,
        s1 != s2,
        is_guild_listing(
            with_crossover(
                with_crossover(with_crossover(entries, guild, s1, t1), guild, s2, t2),
                other_guild,
                s3,
                t3,
            ),
            guild,
            rows,
        ),
    ensures
        rows == if s1 < s2 {
            seq![(s1, t1), (s2, t2)]
        } else {
            seq![(s2, t2), (s1, t1)]
        },
{
    let first = with_crossover(entries, guild, s1, t1);
    let second = with_crossover(first, guild, s2, t2);
    let after = with_crossover(second, other_guild, s3, t3);
    let expected = if s1 < s2 {
        seq![(s1, t1), (s2, t2)]
    } else {
        seq![(s2, t2), (s1, t1)]
    };
    law_put_then_get(entries, guild, s1, t1);
    law_put_elsewhere(first, guild, s2, t2, guild, s1);
    law_put_elsewhere(second, other_guild, s3, t3, guild, s1);
    law_put_then_get(first, guild, s2, t2);
    law_put_elsewhere(second, other_guild, s3, t3, guild, s2);
    assert forall|source: u64| #[trigger] has_crossover(after, guild, source) implies source == s1
        || source == s2 by {
        lemma_key_bytes_injective(guild, source, guild, s1);
        lemma_key_bytes_injective(guild, source, guild, s2);
        lemma_key_bytes_injective(guild, source, other_guild, s3);
        assert(!has_crossover(entries, guild, source));
    }
    assert forall|source: u64| #[trigger] has_crossover(after, guild, source) implies exists|
        i: int,
    |
        0 <= i < expected.len() && (#[trigger] expected[i]).0 == source by {
        if source == expected[0].0 {
        } else {
            assert(expected[1].0 == source);
        }
    }
    assert(is_guild_listing(after, guild, expected));
    law_listing_unique(after, guild, rows, expected);
}

} // verus!
