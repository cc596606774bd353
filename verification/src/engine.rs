//! The storage engine as the store sees it.
//!
//! The engine is LMDB, reached through `heed`. Nothing in this file is proved:
//! it declares the engine's types, names what a transaction sees, and wraps
//! each engine call that the store makes in a function whose contract is
//! taken on trust from the engine's source and documentation. What the
//! store proves of itself, it proves from these contracts.
//!
//! A database here holds raw bytes on both sides (`heed::types::ByteSlice`),
//! so the engine never encodes or decodes anything itself.

use crate::codec::bytes_lt;
use vstd::prelude::*;

verus! {

/// `heed::Env`: an opened environment. Opaque.
#[verifier::external_type_specification]
#[verifier::external_body]
pub struct ExEnv(heed::Env);

/// `heed::Error`: whatever the engine reports. Opaque.
#[verifier::external_type_specification]
#[verifier::external_body]
pub struct ExEngineError(heed::Error);

/// `heed::types::UnalignedSlice`: the codec marker of which `ByteSlice` is
/// the instance for `u8`. Opaque.
#[verifier::external_type_specification]
#[verifier::external_body]
#[verifier::reject_recursive_types(T)]
pub struct ExUnalignedSlice<T>(heed::types::UnalignedSlice<T>);

/// `heed::Database`: the handle of one database of an environment. Opaque.
#[verifier::external_type_specification]
#[verifier::external_body]
#[verifier::reject_recursive_types(KC)]
#[verifier::reject_recursive_types(DC)]
pub struct ExDatabase<KC, DC>(heed::Database<KC, DC>);

/// `heed::RoTxn`: a read transaction. Opaque.
#[verifier::external_type_specification]
#[verifier::external_body]
#[verifier::reject_recursive_types(T)]
pub struct ExRoTxn<'e, T>(heed::RoTxn<'e, T>);

/// `heed::RwTxn`: a write transaction. Opaque.
#[verifier::external_type_specification]
#[verifier::external_body]
#[verifier::reject_recursive_types(T)]
pub struct ExRwTxn<'e, 'p, T>(heed::RwTxn<'e, 'p, T>);

/// `heed::RoIter`: a cursor that walks a database in key order. Opaque.
#[verifier::external_type_specification]
#[verifier::external_body]
#[verifier::reject_recursive_types(KC)]
#[verifier::reject_recursive_types(DC)]
pub struct ExRoIter<'txn, KC, DC>(heed::RoIter<'txn, KC, DC>);

/// Which environment `env` is. Handles made from one environment carry its
/// identity, and the engine refuses to mix handles of different ones.
pub uninterp spec fn env_ident(env: &heed::Env) -> int;

/// The environment that the database handle `db` was made from.
pub uninterp spec fn database_env(
    db: heed::Database<heed::types::ByteSlice, heed::types::ByteSlice>,
) -> int;

/// The environment that the read transaction `txn` was begun in.
pub uninterp spec fn read_txn_env(txn: &heed::RoTxn) -> int;

/// The environment that the write transaction `txn` was begun in.
pub uninterp spec fn write_txn_env(txn: &heed::RwTxn) -> int;

/// What the read transaction `txn` sees in `db`: the snapshot that was taken
/// when it began.
pub uninterp spec fn read_view(
    db: heed::Database<heed::types::ByteSlice, heed::types::ByteSlice>,
    txn: &heed::RoTxn,
) -> Map<Seq<u8>, Seq<u8>>;

/// What the write transaction `txn` sees in `db`: the snapshot that was taken
/// when it began, with its own writes so far.
pub uninterp spec fn write_view(
    db: heed::Database<heed::types::ByteSlice, heed::types::ByteSlice>,
    txn: &heed::RwTxn,
) -> Map<Seq<u8>, Seq<u8>>;

/// The entries that the cursor `it` has yet to hand out, in the order in
/// which it will.
pub uninterp spec fn iter_rest(
    it: &heed::RoIter<heed::types::ByteSlice, heed::types::ByteSlice>,
) -> Seq<(Seq<u8>, Seq<u8>)>;

/// `items` lists `entries` in key order: keys strictly ascending byte-wise,
/// every item an entry, every entry an item.
pub open spec fn lists_in_order(
    items: Seq<(Seq<u8>, Seq<u8>)>,
    entries: Map<Seq<u8>, Seq<u8>>,
) -> bool {
    &&& forall|i: int, j: int|
        0 <= i < j < items.len() ==> bytes_lt(#[trigger] items[i].0, #[trigger] items[j].0)
    &&& forall|i: int|
        0 <= i < items.len() ==> entries.contains_key(#[trigger] items[i].0) && entries[items[i].0]
            == items[i].1
    &&& forall|key: Seq<u8>| #[trigger]
        entries.contains_key(key) ==> exists|i: int|
            0 <= i < items.len() && #[trigger] items[i].0 == key
}

/// `heed::EnvOpenOptions::new`, `max_dbs` and `open`: opens the environment
/// in the directory `path`, with room for `max_dbs` named databases. Nothing
/// is claimed of the outcome: it depends on the file system.
#[verifier::external_body]
pub(crate) fn open_env(path: &str, max_dbs: u32) -> (r: Result<heed::Env, heed::Error>) {
    heed::EnvOpenOptions::new().max_dbs(max_dbs).open(std::path::Path::new(path))
}

/// `heed::Env::create_database`: opens the database `name` of `env`, creating
/// it if it is not there. The engine panics on a name that holds a NUL, so
/// none may. A handle that comes back belongs to `env`.
#[verifier::external_body]
pub(crate) fn create_database(env: &heed::Env, name: &str) -> (r: Result<
    heed::Database<heed::types::ByteSlice, heed::types::ByteSlice>,
    heed::Error,
>)
    requires
        forall|i: int| 0 <= i < name@.len() ==> name@[i] != '\0',
    ensures
        r matches Ok(db) ==> database_env(db) == env_ident(env),
{
    env.create_database(Some(name))
}

/// `heed::Env::read_txn`: begins a read transaction. One that comes back
/// belongs to `env`; what it sees is whatever was last committed, of which
/// nothing is claimed.
#[verifier::external_body]
pub(crate) fn begin_read(env: &heed::Env) -> (r: Result<heed::RoTxn<'_>, heed::Error>)
    ensures
        r matches Ok(txn) ==> read_txn_env(&txn) == env_ident(env),
{
    env.read_txn()
}

/// `heed::Env::write_txn`: begins a write transaction, waiting until no other
/// one is open. One that comes back belongs to `env`; what it sees is
/// whatever was last committed, of which nothing is claimed.
#[verifier::external_body]
pub(crate) fn begin_write(env: &heed::Env) -> (r: Result<heed::RwTxn<'_, '_>, heed::Error>)
    ensures
        r matches Ok(txn) ==> write_txn_env(&txn) == env_ident(env),
{
    env.write_txn()
}

/// `heed::RoTxn::commit`: ends a read transaction. Nothing is claimed of the
/// outcome.
#[verifier::external_body]
pub(crate) fn commit_read(txn: heed::RoTxn) -> (r: Result<(), heed::Error>) {
    txn.commit()
}

/// `heed::RwTxn::commit`: makes the writes of a transaction durable, all or
/// none. Nothing is claimed of the outcome.
#[verifier::external_body]
pub(crate) fn commit_write(txn: heed::RwTxn) -> (r: Result<(), heed::Error>) {
    txn.commit()
}

/// `Deref::deref` of `heed::RwTxn`: the write transaction as a reader of
/// its own state. The reader belongs to the same environment and sees, in
/// every database, what the write transaction sees.
#[verifier::external_body]
pub(crate) fn as_reader<'t, 'e>(txn: &'t heed::RwTxn<'e, 'e>) -> (reader: &'t heed::RoTxn<'e>)
    ensures
        read_txn_env(reader) == write_txn_env(txn),
        forall|db: heed::Database<heed::types::ByteSlice, heed::types::ByteSlice>| #[trigger]
            read_view(db, reader) == write_view(db, txn),
{
    std::ops::Deref::deref(txn)
}

/// `heed::Database::get`: looks `key` up in what `txn` sees. The engine
/// panics when `db` and `txn` are of different environments. Short of an
/// engine error, the value comes back exactly when the key is there.
#[verifier::external_body]
pub(crate) fn db_get(
    db: &heed::Database<heed::types::ByteSlice, heed::types::ByteSlice>,
    txn: &heed::RoTxn,
    key: &[u8],
) -> (r: Result<Option<Vec<u8>>, heed::Error>)
    requires
        database_env(*db) == read_txn_env(txn),
    ensures
        r matches Ok(Some(value)) ==> read_view(*db, txn).contains_key(key@) && read_view(
            *db,
            txn,
        )[key@] == value@,
        r matches Ok(None) ==> !read_view(*db, txn).contains_key(key@),
{
    db.get(txn, key).map(|found| found.map(|value| value.to_vec()))
}

/// `heed::Database::put`: stores `value` under `key`, in place of any value
/// that was there. The engine panics when `db` and `txn` are of different
/// environments, and not otherwise. On success the transaction sees the new
/// entry and all else as before; on an engine error nothing is claimed of
/// what it sees.
#[verifier::external_body]
pub(crate) fn db_put(
    db: &heed::Database<heed::types::ByteSlice, heed::types::ByteSlice>,
    txn: &mut heed::RwTxn,
    key: &[u8],
    value: &[u8],
) -> (r: Result<(), heed::Error>)
    requires
        database_env(*db) == write_txn_env(old(txn)),
    ensures
        write_txn_env(final(txn)) == write_txn_env(old(txn)),
        r is Ok ==> write_view(*db, final(txn)) == write_view(*db, old(txn)).insert(key@, value@),
    no_unwind
{
    db.put(txn, key, value)
}

/// `heed::Database::delete`: removes the entry of `key`. The engine panics
/// when `db` and `txn` are of different environments, and not otherwise. On
/// success it says whether there was an entry, and the transaction sees all
/// else as before; on an engine error nothing is claimed of what it sees.
#[verifier::external_body]
pub(crate) fn db_delete(
    db: &heed::Database<heed::types::ByteSlice, heed::types::ByteSlice>,
    txn: &mut heed::RwTxn,
    key: &[u8],
) -> (r: Result<bool, heed::Error>)
    requires
        database_env(*db) == write_txn_env(old(txn)),
    ensures
        write_txn_env(final(txn)) == write_txn_env(old(txn)),
        r matches Ok(found) ==> found == write_view(*db, old(txn)).contains_key(key@)
            && write_view(*db, final(txn)) == write_view(*db, old(txn)).remove(key@),
    no_unwind
{
    db.delete(txn, key)
}

/// `heed::Database::iter`: a cursor over all that `txn` sees in `db`, in
/// byte-wise key order. The engine panics when `db` and `txn` are of
/// different environments.
#[verifier::external_body]
pub(crate) fn db_iter<'t>(
    db: &heed::Database<heed::types::ByteSlice, heed::types::ByteSlice>,
    txn: &'t heed::RoTxn,
) -> (r: Result<heed::RoIter<'t, heed::types::ByteSlice, heed::types::ByteSlice>, heed::Error>)
    requires
        database_env(*db) == read_txn_env(txn),
    ensures
        r matches Ok(it) ==> lists_in_order(iter_rest(&it), read_view(*db, txn)),
{
    db.iter(txn)
}

/// `Iterator::next` of `heed::RoIter`: hands out the next entry, copied.
/// `None` comes only at the end; an entry that comes is the first of those
/// that were left, and the others stay. Of an engine error nothing is
/// claimed.
#[verifier::external_body]
pub(crate) fn iter_next(
    it: &mut heed::RoIter<heed::types::ByteSlice, heed::types::ByteSlice>,
) -> (r: Option<Result<(Vec<u8>, Vec<u8>), heed::Error>>)
    ensures
        r is None ==> iter_rest(old(it)).len() == 0,
        r matches Some(Ok(entry)) ==> iter_rest(old(it)).len() > 0 && iter_rest(old(it))[0] == (
            entry.0@,
            entry.1@,
        ) && iter_rest(final(it)) == iter_rest(old(it)).skip(1),
{
    it.next().map(|step| step.map(|(key, value)| (key.to_vec(), value.to_vec())))
}

/// `ToString::to_string` of `heed::Error`: the engine's message. Nothing is
/// claimed of its text.
#[verifier::external_body]
pub(crate) fn error_text(error: &heed::Error) -> (text: String) {
    error.to_string()
}

} // verus!
