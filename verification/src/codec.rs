//! The byte layout of stored records.
//!
//! Every identifier is a `u64` written as eight bytes, most significant byte
//! first. A key is the guild's eight bytes followed by the source's eight
//! bytes; a value is the target's eight bytes. With this layout the engine's
//! byte-wise key order is the numeric order of `(guild, source)`.

use crate::codec_laws::{
    lemma_be_bytes_digits, lemma_be_value_bound, lemma_radix_positive, lemma_radix_step,
    lemma_radix_values,
};
use vstd::prelude::*;

verus! {

/// Number of bytes that one identifier occupies.
pub const ID_LEN: usize = 8;

/// Number of bytes of an encoded key: a guild followed by a source.
pub const KEY_LEN: usize = 16;

/// The number that a byte string stands for, most significant byte first.
pub open spec fn be_value(bytes: Seq<u8>) -> nat
    decreases bytes.len(),
{
    if bytes.len() == 0 {
        0
    } else {
        256 * be_value(bytes.drop_last()) + bytes.last() as nat
    }
}

/// The `len` low-order bytes of `x`, most significant byte first.
pub open spec fn be_bytes(x: nat, len: nat) -> Seq<u8>
    decreases len,
{
    if len == 0 {
        Seq::empty()
    } else {
        be_bytes(x / 256, (len - 1) as nat).push((x % 256) as u8)
    }
}

/// The eight bytes of an identifier.
pub open spec fn id_bytes(x: u64) -> Seq<u8> {
    be_bytes(x as nat, 8)
}

/// The identifier that `bytes` holds, if they are exactly eight.
pub open spec fn id_of(bytes: Seq<u8>) -> Option<u64> {
    if bytes.len() == 8 {
        Some(be_value(bytes) as u64)
    } else {
        None
    }
}

/// The sixteen bytes under which the crossover of `source` in `guild` is kept.
pub open spec fn key_bytes(guild: u64, source: u64) -> Seq<u8> {
    id_bytes(guild) + id_bytes(source)
}

/// The guild and source that `bytes` hold, if they are exactly sixteen.
pub open spec fn key_of(bytes: Seq<u8>) -> Option<(u64, u64)> {
    if bytes.len() == 16 {
        Some((be_value(bytes.subrange(0, 8)) as u64, be_value(bytes.subrange(8, 16)) as u64))
    } else {
        None
    }
}

/// Byte-wise order: `a` comes before `b` when, at the first position where
/// they differ, `a` has the smaller byte, or when `a` is a proper prefix of
/// `b`.
pub open spec fn bytes_lt(a: Seq<u8>, b: Seq<u8>) -> bool {
    exists|i: int| precedes_at(a, b, i)
}

/// `a` and `b` agree before position `i`, and `a` is the smaller one there.
pub open spec fn precedes_at(a: Seq<u8>, b: Seq<u8>, i: int) -> bool {
    &&& 0 <= i <= a.len()
    &&& i < b.len()
    &&& forall|j: int| 0 <= j < i ==> a[j] == b[j]
    &&& (i == a.len() || a[i] < b[i])
}

/// `256` to the power `n`: the weight of the byte that `n` bytes follow.
pub open spec fn radix(n: nat) -> nat
    decreases n,
{
    if n == 0 {
        1
    } else {
        256 * radix((n - 1) as nat)
    }
}

/// Reads the identifier that starts at `start`.
pub fn read_id(bytes: &[u8], start: usize) -> (id: u64)
    requires
        start + 8 <= bytes@.len(),
    ensures
        id as nat == be_value(bytes@.subrange(start as int, start + 8)),
{
    let ghost window = bytes@.subrange(start as int, start + 8);
    let n: usize = bytes.len();
    let mut id: u64 = 0;
    let mut i: usize = 0;
    while i < 8
        invariant
            i <= 8,
            n == bytes@.len(),
            start + 8 <= bytes@.len(),
            window == bytes@.subrange(start as int, start + 8),
            id as nat == be_value(window.take(i as int)),
        decreases 8 - i,
    {
        let b: u8 = bytes[start + i];
        proof {
            let next = window.take(i + 1);
            assert(next.drop_last() =~= window.take(i as int));
            assert(next.last() == b);
            lemma_be_value_bound(window.take(i as int));
            lemma_be_value_bound(next);
            lemma_radix_values();
            lemma_radix_step(i as nat);
        }
        id = id * 256 + b as u64;
        i = i + 1;
    }
    proof {
        assert(window.take(8) =~= window);
    }
    id
}

/// Appends the eight bytes of `x` to `out`.
pub fn write_id(out: &mut Vec<u8>, x: u64)
    ensures
        final(out)@ == old(out)@ + id_bytes(x),
{
    let ghost before = out@;
    let mut i: usize = 0;
    let mut weight: u64 = 0x100_0000_0000_0000;
    proof {
        lemma_radix_values();
        lemma_be_bytes_digits(x as nat, 8);
        assert(id_bytes(x).take(0) =~= Seq::<u8>::empty());
        assert(before + Seq::<u8>::empty() =~= before);
    }
    while i < 8
        invariant
            i <= 8,
            i < 8 ==> weight as nat == radix((7 - i) as nat),
            out@ == before + id_bytes(x).take(i as int),
            id_bytes(x).len() == 8,
            forall|k: int|
                0 <= k < 8 ==> (#[trigger] id_bytes(x)[k]) as nat == (x as nat / radix(
                    (7 - k) as nat,
                )) % 256,
        decreases 8 - i,
    {
        proof {
            lemma_radix_positive((7 - i) as nat);
        }
        let b: u8 = ((x / weight) % 256) as u8;
        proof {
            assert(b == id_bytes(x)[i as int]);
            assert(id_bytes(x).take(i + 1) =~= id_bytes(x).take(i as int).push(b));
            assert(before + id_bytes(x).take(i + 1) =~= (before + id_bytes(x).take(i as int)).push(
                b,
            ));
        }
        out.push(b);
        i = i + 1;
        if i < 8 {
            proof {
                lemma_radix_step((7 - i) as nat);
            }
            weight = weight / 256;
        }
    }
    proof {
        assert(id_bytes(x).take(8) =~= id_bytes(x));
    }
}

/// Decodes one identifier from exactly eight bytes.
pub fn decode_id(bytes: &[u8]) -> (id: Option<u64>)
    ensures
        id == id_of(bytes@),
{
    if bytes.len() != ID_LEN {
        return None;
    }
    let id = read_id(bytes, 0);
    proof {
        assert(bytes@.subrange(0, 8) =~= bytes@);
    }
    Some(id)
}

/// Encodes one identifier as eight bytes.
pub fn encode_id(x: u64) -> (out: Vec<u8>)
    ensures
        out@ == id_bytes(x),
{
    let mut out: Vec<u8> = Vec::new();
    write_id(&mut out, x);
    proof {
        assert(Seq::<u8>::empty() + id_bytes(x) =~= id_bytes(x));
    }
    out
}

/// The place of one crossover in the store: a source channel within a guild.
#[derive(Clone, Copy, Debug, PartialEq, Eq, Structural)]
pub struct Key {
    pub guild: u64,
    pub source: u64,
}

impl Key {
    /// The sixteen bytes under which this key is kept.
    pub open spec fn bytes(self) -> Seq<u8> {
        key_bytes(self.guild, self.source)
    }

    /// Encodes the key: the guild's eight bytes, then the source's.
    pub fn encode(&self) -> (out: Vec<u8>)
        ensures
            out@ == self.bytes(),
    {
        let mut out: Vec<u8> = Vec::new();
        write_id(&mut out, self.guild);
        write_id(&mut out, self.source);
        proof {
            assert(Seq::<u8>::empty() + id_bytes(self.guild) + id_bytes(self.source)
                =~= self.bytes());
        }
        out
    }

    /// Decodes a key from exactly sixteen bytes.
    pub fn decode(bytes: &[u8]) -> (key: Option<Key>)
        ensures
            key == match key_of(bytes@) {
                Some((guild, source)) => Some(Key { guild, source }),
                None => None,
            },
    {
        if bytes.len() != KEY_LEN {
            return None;
        }
        let guild = read_id(bytes, 0);
        let source = read_id(bytes, 8);
        Some(Key { guild, source })
    }
}

} // verus!
