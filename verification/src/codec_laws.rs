//! What holds of the byte layout: decoding undoes encoding, distinct keys have
//! distinct bytes, and the byte-wise order of keys is the order of
//! `(guild, source)`.

use crate::codec::{
    be_bytes, be_value, bytes_lt, id_bytes, id_of, key_bytes, key_of, precedes_at, radix,
};
use vstd::prelude::*;

verus! {

/// The weights of the eight positions of an identifier.
pub proof fn lemma_radix_values()
    ensures
        radix(0) == 1,
        radix(1) == 0x100,
        radix(2) == 0x1_0000,
        radix(3) == 0x100_0000,
        radix(4) == 0x1_0000_0000,
        radix(5) == 0x100_0000_0000,
        radix(6) == 0x1_0000_0000_0000,
        radix(7) == 0x100_0000_0000_0000,
        radix(8) == 0x1_0000_0000_0000_0000,
{
    reveal_with_fuel(radix, 9);
}

/// A byte string of `n` bytes stands for a number below `256` to the `n`.
pub proof fn lemma_be_value_bound(bytes: Seq<u8>)
    ensures
        be_value(bytes) < radix(bytes.len()),
    decreases bytes.len(),
{
    if bytes.len() > 0 {
        lemma_be_value_bound(bytes.drop_last());
    }
}

/// `be_bytes` gives `len` bytes, and the byte at `i` is the digit of `x` that
/// `len - 1 - i` lower digits follow.
pub proof fn lemma_be_bytes_digits(x: nat, len: nat)
    ensures
        be_bytes(x, len).len() == len,
        forall|i: int|
            0 <= i < len ==> (#[trigger] be_bytes(x, len)[i]) as nat == (x / radix(
                (len - 1 - i) as nat,
            )) % 256,
    decreases len,
{
    if len > 0 {
        let rest = (len - 1) as nat;
        lemma_be_bytes_digits(x / 256, rest);
        assert forall|i: int| 0 <= i < len implies (#[trigger] be_bytes(x, len)[i]) as nat == (x
            / radix((len - 1 - i) as nat)) % 256 by {
            if i < rest {
                let below = (rest - 1 - i) as nat;
                assert(be_bytes(x, len)[i] == be_bytes(x / 256, rest)[i]);
                assert(radix((len - 1 - i) as nat) == 256 * radix(below));
                lemma_radix_positive(below);
                vstd::arithmetic::div_mod::lemma_div_denominator(
                    x as int,
                    256,
                    radix(below) as int,
                );
                assert((x / 256) / radix(below) == x / (256 * radix(below)));
            } else {
                assert(i == rest);
                assert(be_bytes(x, len)[i] == (x % 256) as u8);
                assert(radix(0) == 1);
                assert(x / 1 == x);
            }
        }
    }
}

/// Every weight is at least one.
pub proof fn lemma_radix_positive(n: nat)
    ensures
        radix(n) > 0,
    decreases n,
{
    if n > 0 {
        lemma_radix_positive((n - 1) as nat);
    }
}

/// Reading back what `be_bytes` wrote gives `x` again, as far as `len` bytes
/// can hold it.
pub proof fn lemma_value_of_bytes(x: nat, len: nat)
    ensures
        be_value(be_bytes(x, len)) == x % radix(len),
    decreases len,
{
    if len > 0 {
        let rest = (len - 1) as nat;
        lemma_value_of_bytes(x / 256, rest);
        let written = be_bytes(x, len);
        assert(written.drop_last() =~= be_bytes(x / 256, rest));
        assert(written.last() == (x % 256) as u8);
        lemma_radix_positive(rest);
        vstd::arithmetic::div_mod::lemma_breakdown(x as int, 256, radix(rest) as int);
        vstd::arithmetic::mul::lemma_mul_is_commutative(256, radix(rest) as int);
    } else {
        assert(radix(0) == 1);
    }
}

/// Writing out what a byte string stands for gives the byte string again.
pub proof fn lemma_bytes_of_value(bytes: Seq<u8>)
    ensures
        be_bytes(be_value(bytes), bytes.len()) == bytes,
    decreases bytes.len(),
{
    if bytes.len() > 0 {
        let init = bytes.drop_last();
        lemma_bytes_of_value(init);
        let v = be_value(bytes);
        assert(v / 256 == be_value(init));
        assert(v % 256 == bytes.last() as nat);
        assert(be_bytes(v, bytes.len()) =~= bytes);
    } else {
        assert(be_bytes(0, 0) =~= bytes);
    }
}

/// Weights grow with the position.
pub proof fn lemma_radix_step(n: nat)
    ensures
        radix(n + 1) == 256 * radix(n),
        n < 8 ==> radix(n + 1) <= radix(8),
{
    lemma_radix_values();
    reveal_with_fuel(radix, 9);
}

/// Decoding the bytes of an identifier gives the identifier.
pub proof fn lemma_id_round_trip(x: u64)
    ensures
        id_bytes(x).len() == 8,
        be_value(id_bytes(x)) == x,
        id_of(id_bytes(x)) == Some(x),
{
    lemma_be_bytes_digits(x as nat, 8);
    lemma_value_of_bytes(x as nat, 8);
    lemma_radix_values();
    assert((x as nat) % radix(8) == x as nat);
}

/// Eight bytes are the encoding of the identifier that they decode to.
pub proof fn lemma_id_bytes_round_trip(bytes: Seq<u8>)
    requires
        bytes.len() == 8,
    ensures
        be_value(bytes) <= u64::MAX,
        id_bytes(be_value(bytes) as u64) == bytes,
{
    lemma_be_value_bound(bytes);
    lemma_radix_values();
    lemma_bytes_of_value(bytes);
}

/// Decoding the bytes of a key gives its guild and source.
pub proof fn lemma_key_round_trip(guild: u64, source: u64)
    ensures
        key_bytes(guild, source).len() == 16,
        key_of(key_bytes(guild, source)) == Some((guild, source)),
{
    lemma_id_round_trip(guild);
    lemma_id_round_trip(source);
    let key = key_bytes(guild, source);
    assert(key.subrange(0, 8) =~= id_bytes(guild));
    assert(key.subrange(8, 16) =~= id_bytes(source));
}

/// Sixteen bytes are the encoding of the key that they decode to.
pub proof fn lemma_key_bytes_round_trip(bytes: Seq<u8>)
    requires
        bytes.len() == 16,
    ensures
        key_of(bytes) is Some,
        key_bytes(key_of(bytes).unwrap().0, key_of(bytes).unwrap().1) == bytes,
{
    lemma_id_bytes_round_trip(bytes.subrange(0, 8));
    lemma_id_bytes_round_trip(bytes.subrange(8, 16));
    assert(bytes.subrange(0, 8) + bytes.subrange(8, 16) =~= bytes);
}

/// Two keys have the same bytes only if they are the same key.
pub proof fn lemma_key_bytes_injective(g1: u64, s1: u64, g2: u64, s2: u64)
    ensures
        key_bytes(g1, s1) == key_bytes(g2, s2) <==> g1 == g2 && s1 == s2,
{
    lemma_key_round_trip(g1, s1);
    lemma_key_round_trip(g2, s2);
}

/// Among byte strings of one length, the one that comes first byte-wise
/// stands for the smaller number.
pub proof fn lemma_order_gives_value_order(a: Seq<u8>, b: Seq<u8>, i: int)
    requires
        a.len() == b.len(),
        precedes_at(a, b, i),
    ensures
        be_value(a) < be_value(b),
    decreases a.len(),
{
    let a_init = a.drop_last();
    let b_init = b.drop_last();
    if i == a.len() - 1 {
        assert(a_init =~= b_init);
    } else {
        assert(precedes_at(a_init, b_init, i));
        lemma_order_gives_value_order(a_init, b_init, i);
    }
}

/// Byte strings of one length that stand for the same number are equal.
pub proof fn lemma_value_injective(a: Seq<u8>, b: Seq<u8>)
    requires
        a.len() == b.len(),
        be_value(a) == be_value(b),
    ensures
        a == b,
{
    lemma_bytes_of_value(a);
    lemma_bytes_of_value(b);
}

/// Among byte strings of one length, the one that stands for the smaller
/// number comes first byte-wise.
pub proof fn lemma_value_order_gives_order(a: Seq<u8>, b: Seq<u8>)
    requires
        a.len() == b.len(),
        be_value(a) < be_value(b),
    ensures
        bytes_lt(a, b),
    decreases a.len(),
{
    let a_init = a.drop_last();
    let b_init = b.drop_last();
    if be_value(a_init) < be_value(b_init) {
        lemma_value_order_gives_order(a_init, b_init);
        let i = choose|i: int| precedes_at(a_init, b_init, i);
        assert forall|j: int| 0 <= j < i implies a[j] == b[j] by {
            assert(a[j] == a_init[j]);
            assert(b[j] == b_init[j]);
        }
        assert(a[i] == a_init[i] && b[i] == b_init[i]);
        assert(precedes_at(a, b, i));
    } else {
        lemma_value_injective(a_init, b_init);
        assert forall|j: int| 0 <= j < a.len() - 1 implies a[j] == b[j] by {
            assert(a[j] == a_init[j]);
            assert(b[j] == b_init[j]);
        }
        assert(precedes_at(a, b, a.len() - 1));
    }
}

/// What two byte strings stand for when written one after the other.
pub proof fn lemma_value_of_concat(a: Seq<u8>, b: Seq<u8>)
    ensures
        be_value(a + b) == be_value(a) * radix(b.len()) + be_value(b),
    decreases b.len(),
{
    if b.len() == 0 {
        assert(a + b =~= a);
        assert(radix(0) == 1);
    } else {
        let b_init = b.drop_last();
        lemma_value_of_concat(a, b_init);
        assert((a + b).drop_last() =~= a + b_init);
        assert(radix(b.len()) == 256 * radix(b_init.len()));
        assert(be_value(a) * (256 * radix(b_init.len())) == 256 * (be_value(a) * radix(
            b_init.len(),
        ))) by (nonlinear_arith);
    }
}

/// The number that the sixteen bytes of a key stand for.
pub proof fn lemma_key_value(guild: u64, source: u64)
    ensures
        be_value(key_bytes(guild, source)) == guild * 0x1_0000_0000_0000_0000 + source,
{
    lemma_id_round_trip(guild);
    lemma_id_round_trip(source);
    lemma_value_of_concat(id_bytes(guild), id_bytes(source));
    lemma_radix_values();
}

/// Keys are ordered byte-wise as their `(guild, source)` pairs are ordered:
/// by guild first, and within one guild by source.
pub proof fn lemma_key_order(g1: u64, s1: u64, g2: u64, s2: u64)
    ensures
        bytes_lt(key_bytes(g1, s1), key_bytes(g2, s2)) <==> g1 < g2 || (g1 == g2 && s1 < s2),
{
    let k1 = key_bytes(g1, s1);
    let k2 = key_bytes(g2, s2);
    lemma_key_round_trip(g1, s1);
    lemma_key_round_trip(g2, s2);
    lemma_key_value(g1, s1);
    lemma_key_value(g2, s2);
    if bytes_lt(k1, k2) {
        let i = choose|i: int| precedes_at(k1, k2, i);
        lemma_order_gives_value_order(k1, k2, i);
    }
    if g1 < g2 || (g1 == g2 && s1 < s2) {
        lemma_value_order_gives_order(k1, k2);
    }
}

} // verus!
