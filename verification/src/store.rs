//! The store: crossovers kept in one database of the engine, read and
//! written through transactions.
//!
//! [`ReadTxn`] and [`WriteTxn`] say exactly what each operation does to the
//! entries that the transaction sees. The operations of [`CrossoverDb`] run
//! one transaction each; that a later transaction sees what an earlier one
//! committed is the engine's promise and is not stated here.

use crate::codec::{decode_id, encode_id, id_of, Key};
use crate::engine::{
    as_reader, begin_read, begin_write, commit_read, commit_write, create_database,
    database_env, db_delete, db_get, db_iter, db_put, env_ident, iter_rest, open_env,
    read_txn_env, read_view, write_txn_env, write_view,
};
use crate::error::StorageError;
use crate::listing::{lemma_rows_are_listing, scan_guild};
use crate::model::{
    has_crossover, is_guild_listing, lookup, well_formed, with_crossover, without_crossover,
};
use vstd::prelude::*;

verus! {

/// Room for named databases that the environment is opened with.
pub const MAX_DATABASES: u32 = 3000;

/// Reads what a lookup found: nothing, a target, or bytes that are no target.
pub fn found_target(found: Option<Vec<u8>>) -> (r: Result<Option<u64>, StorageError>)
    ensures
        r == match found {
            None => Ok::<Option<u64>, StorageError>(None),
            Some(value) => match id_of(value@) {
                Some(target) => Ok(Some(target)),
                None => Err(StorageError::Corrupt),
            },
        },
{
    match found {
        None => Ok(None),
        Some(value) => match decode_id(value.as_slice()) {
            Some(target) => Ok(Some(target)),
            None => Err(StorageError::Corrupt),
        },
    }
}

/// Looks `source` in `guild` up in what `txn` sees in `db`.
fn get_in(
    db: &heed::Database<heed::types::ByteSlice, heed::types::ByteSlice>,
    txn: &heed::RoTxn,
    guild: u64,
    source: u64,
) -> (r: Result<Option<u64>, StorageError>)
    requires
        database_env(*db) == read_txn_env(txn),
    ensures
        r matches Err(StorageError::TransactionFailed(_)) || r == lookup(
            read_view(*db, txn),
            guild,
            source,
        ),
{
    let key = Key { guild, source }.encode();
    let found = StorageError::in_transaction(db_get(db, txn, key.as_slice()))?;
    found_target(found)
}

/// Lists `guild` from what `txn` sees in `db`.
fn list_in(
    db: &heed::Database<heed::types::ByteSlice, heed::types::ByteSlice>,
    txn: &heed::RoTxn,
    guild: u64,
) -> (r: Result<Vec<(u64, u64)>, StorageError>)
    requires
        database_env(*db) == read_txn_env(txn),
    ensures
        match r {
            Ok(rows) => well_formed(read_view(*db, txn)) && is_guild_listing(
                read_view(*db, txn),
                guild,
                rows@,
            ),
            Err(StorageError::Corrupt) => !well_formed(read_view(*db, txn)),
            Err(StorageError::TransactionFailed(_)) => true,
            Err(StorageError::Unavailable(_)) => false,
        },
{
    let mut it = StorageError::in_transaction(db_iter(db, txn))?;
    proof {
        lemma_rows_are_listing(iter_rest(&it), read_view(*db, txn), guild);
    }
    scan_guild(&mut it, guild)
}

/// A read transaction on the store's database: a snapshot that stays as it
/// is until the transaction ends.
pub struct ReadTxn<'e> {
    txn: heed::RoTxn<'e>,
    db: heed::Database<heed::types::ByteSlice, heed::types::ByteSlice>,
}

impl<'e> View for ReadTxn<'e> {
    type V = Map<Seq<u8>, Seq<u8>>;

    /// The entries that the transaction sees.
    closed spec fn view(&self) -> Map<Seq<u8>, Seq<u8>> {
        read_view(self.db, &self.txn)
    }
}

impl<'e> ReadTxn<'e> {
    #[verifier::type_invariant]
    spec fn same_environment(self) -> bool {
        database_env(self.db) == read_txn_env(&self.txn)
    }

    /// The target kept for `source` in `guild`, if any. Short of an engine
    /// failure the result is that of `lookup` on what the transaction sees.
    pub fn get(&self, guild: u64, source: u64) -> (r: Result<Option<u64>, StorageError>)
        ensures
            r matches Err(StorageError::TransactionFailed(_)) || r == lookup(
                self@,
                guild,
                source,
            ),
    {
        proof {
            use_type_invariant(self);
        }
        get_in(&self.db, &self.txn, guild, source)
    }

    /// The `(source, target)` pairs of `guild`, by ascending source. The walk
    /// goes over every entry that the transaction sees, and one that is not a
    /// record makes the result `Corrupt`, whichever guild it might belong to.
    pub fn list(&self, guild: u64) -> (r: Result<Vec<(u64, u64)>, StorageError>)
        ensures
            match r {
                Ok(rows) => well_formed(self@) && is_guild_listing(self@, guild, rows@),
                Err(StorageError::Corrupt) => !well_formed(self@),
                Err(StorageError::TransactionFailed(_)) => true,
                Err(StorageError::Unavailable(_)) => false,
            },
    {
        proof {
            use_type_invariant(self);
        }
        list_in(&self.db, &self.txn, guild)
    }

    /// Ends the transaction.
    pub fn commit(self) -> (r: Result<(), StorageError>)
        ensures
            r matches Err(failure) ==> failure is TransactionFailed,
    {
        StorageError::in_transaction(commit_read(self.txn))
    }

    /// Looks up as `get` does and ends the transaction. A lookup that gave
    /// an error is the result, and the transaction is dropped; after any
    /// other lookup the transaction is committed, and the lookup is the
    /// result unless the commit fails.
    pub fn get_and_commit(self, guild: u64, source: u64) -> (r: Result<Option<u64>, StorageError>)
        ensures
            r matches Err(StorageError::TransactionFailed(_)) || r == lookup(
                self@,
                guild,
                source,
            ),
    {
        let found = self.get(guild, source)?;
        self.commit()?;
        Ok(found)
    }

    /// Lists as `list` does and ends the transaction. A listing that gave an
    /// error is the result, and the transaction is dropped; after any other
    /// listing the transaction is committed, and the listing is the result
    /// unless the commit fails.
    pub fn list_and_commit(self, guild: u64) -> (r: Result<Vec<(u64, u64)>, StorageError>)
        ensures
            match r {
                Ok(rows) => well_formed(self@) && is_guild_listing(self@, guild, rows@),
                Err(StorageError::Corrupt) => !well_formed(self@),
                Err(StorageError::TransactionFailed(_)) => true,
                Err(StorageError::Unavailable(_)) => false,
            },
    {
        let rows = self.list(guild)?;
        self.commit()?;
        Ok(rows)
    }
}

/// A write transaction on the store's database. Its writes are seen by
/// itself at once, and by others only when it has been committed; dropped, it
/// leaves no trace.
pub struct WriteTxn<'e> {
    txn: heed::RwTxn<'e, 'e>,
    db: heed::Database<heed::types::ByteSlice, heed::types::ByteSlice>,
}

impl<'e> View for WriteTxn<'e> {
    type V = Map<Seq<u8>, Seq<u8>>;

    /// The entries that the transaction sees.
    closed spec fn view(&self) -> Map<Seq<u8>, Seq<u8>> {
        write_view(self.db, &self.txn)
    }
}

impl<'e> WriteTxn<'e> {
    #[verifier::type_invariant]
    spec fn same_environment(self) -> bool {
        database_env(self.db) == write_txn_env(&self.txn)
    }

    /// The target kept for `source` in `guild`, if any, the transaction's own
    /// writes included. Short of an engine failure the result is that of
    /// `lookup` on what the transaction sees.
    pub fn get(&self, guild: u64, source: u64) -> (r: Result<Option<u64>, StorageError>)
        ensures
            r matches Err(StorageError::TransactionFailed(_)) || r == lookup(
                self@,
                guild,
                source,
            ),
    {
        proof {
            use_type_invariant(self);
        }
        get_in(&self.db, as_reader(&self.txn), guild, source)
    }

    /// The `(source, target)` pairs of `guild`, by ascending source, the
    /// transaction's own writes included. As `ReadTxn::list`.
    pub fn list(&self, guild: u64) -> (r: Result<Vec<(u64, u64)>, StorageError>)
        ensures
            match r {
                Ok(rows) => well_formed(self@) && is_guild_listing(self@, guild, rows@),
                Err(StorageError::Corrupt) => !well_formed(self@),
                Err(StorageError::TransactionFailed(_)) => true,
                Err(StorageError::Unavailable(_)) => false,
            },
    {
        proof {
            use_type_invariant(self);
        }
        list_in(&self.db, as_reader(&self.txn), guild)
    }

    /// Keeps `target` for `source` in `guild`, in place of whatever was kept
    /// there. After a failure the transaction is fit only to be dropped.
    pub fn put(&mut self, guild: u64, source: u64, target: u64) -> (r: Result<(), StorageError>)
        ensures
            r is Ok ==> final(self)@ == with_crossover(old(self)@, guild, source, target),
            r matches Err(failure) ==> failure is TransactionFailed,
    {
        proof {
            use_type_invariant(&*self);
        }
        let key = Key { guild, source }.encode();
        let value = encode_id(target);
        StorageError::in_transaction(
            db_put(&self.db, &mut self.txn, key.as_slice(), value.as_slice()),
        )
    }

    /// Removes what is kept for `source` in `guild`, and says whether
    /// anything was. After a failure the transaction is fit only to be
    /// dropped.
    pub fn remove(&mut self, guild: u64, source: u64) -> (r: Result<bool, StorageError>)
        ensures
            r matches Ok(found) ==> found == has_crossover(old(self)@, guild, source),
            r is Ok ==> final(self)@ == without_crossover(old(self)@, guild, source),
            r matches Err(failure) ==> failure is TransactionFailed,
    {
        proof {
            use_type_invariant(&*self);
        }
        let key = Key { guild, source }.encode();
        StorageError::in_transaction(db_delete(&self.db, &mut self.txn, key.as_slice()))
    }

    /// Makes the writes of the transaction durable, all or none.
    pub fn commit(self) -> (r: Result<(), StorageError>)
        ensures
            r matches Err(failure) ==> failure is TransactionFailed,
    {
        StorageError::in_transaction(commit_write(self.txn))
    }

    /// Removes as `remove` does and commits. The flag that comes back says
    /// whether anything was kept for `source` in `guild` in what the
    /// transaction saw; a remove or a commit that fails fails the whole.
    pub fn remove_and_commit(self, guild: u64, source: u64) -> (r: Result<bool, StorageError>)
        ensures
            r matches Ok(found) ==> found == has_crossover(self@, guild, source),
            r matches Err(failure) ==> failure is TransactionFailed,
    {
        let mut txn = self;
        let found = txn.remove(guild, source)?;
        txn.commit()?;
        Ok(found)
    }
}

/// The store of crossovers: one database of one environment of the engine.
pub struct CrossoverDb {
    env: heed::Env,
    db: heed::Database<heed::types::ByteSlice, heed::types::ByteSlice>,
}

impl CrossoverDb {
    #[verifier::type_invariant]
    spec fn same_environment(self) -> bool {
        database_env(self.db) == env_ident(&self.env)
    }

    /// Opens the store in the directory `path`, which must exist, and sets up
    /// its database there if it has none yet. Every failure is `Unavailable`.
    pub fn new(path: &str) -> (r: Result<CrossoverDb, StorageError>)
        ensures
            r matches Err(failure) ==> failure is Unavailable,
    {
        let env = match open_env(path, MAX_DATABASES) {
            Ok(env) => env,
            Err(error) => {
                return Err(StorageError::unavailable(&error));
            },
        };
        proof {
            lemma_database_name();
        }
        match create_database(&env, "crossovers") {
            Ok(db) => Ok(CrossoverDb { env, db }),
            Err(error) => Err(StorageError::unavailable(&error)),
        }
    }

    /// Begins a read transaction.
    pub fn read_txn(&self) -> (r: Result<ReadTxn<'_>, StorageError>)
        ensures
            r matches Err(failure) ==> failure is TransactionFailed,
    {
        proof {
            use_type_invariant(self);
        }
        let txn = StorageError::in_transaction(begin_read(&self.env))?;
        Ok(ReadTxn { txn, db: self.db })
    }

    /// Begins a write transaction, waiting until no other one is open on the
    /// environment. A thread that holds one must end it before it begins
    /// another, or it waits for itself.
    pub fn write_txn(&self) -> (r: Result<WriteTxn<'_>, StorageError>)
        ensures
            r matches Err(failure) ==> failure is TransactionFailed,
    {
        proof {
            use_type_invariant(self);
        }
        let txn = StorageError::in_transaction(begin_write(&self.env))?;
        Ok(WriteTxn { txn, db: self.db })
    }

    /// The target kept for `source` in `guild`, if any, as one read
    /// transaction sees it.
    pub fn get_crossover(&self, guild: u64, source: u64) -> (r: Result<Option<u64>, StorageError>)
        ensures
            r matches Err(failure) ==> failure is TransactionFailed || failure is Corrupt,
    {
        let txn = self.read_txn()?;
        txn.get_and_commit(guild, source)
    }

    /// The `(source, target)` pairs of `guild`, by ascending source, as one
    /// read transaction sees them. A guild of which nothing is kept has the
    /// empty listing.
    pub fn get_all(&self, guild: u64) -> (r: Result<Vec<(u64, u64)>, StorageError>)
        ensures
            r matches Err(failure) ==> failure is TransactionFailed || failure is Corrupt,
            r matches Ok(rows) ==> forall|i: int, j: int|
                0 <= i < j < rows@.len() ==> (#[trigger] rows@[i]).0 < (#[trigger] rows@[j]).0,
    {
        let txn = self.read_txn()?;
        txn.list_and_commit(guild)
    }

    /// Keeps `target` for `source` in `guild`, in one write transaction: the
    /// put is committed, or nothing has changed.
    pub fn put_crossover(&self, guild: u64, source: u64, target: u64) -> (r: Result<
        (),
        StorageError,
    >)
        ensures
            r matches Err(failure) ==> failure is TransactionFailed,
    {
        let mut txn = self.write_txn()?;
        txn.put(guild, source, target)?;
        txn.commit()
    }

    /// Removes what is kept for `source` in `guild`, in one write
    /// transaction, and says whether anything was. The key alone decides:
    /// `target` takes no part.
    pub fn remove_crossover(&self, guild: u64, source: u64, target: u64) -> (r: Result<
        bool,
        StorageError,
    >)
        ensures
            r matches Err(failure) ==> failure is TransactionFailed,
    {
        let txn = self.write_txn()?;
        txn.remove_and_commit(guild, source)
    }
}

/// The name of the store's database holds no NUL.
proof fn lemma_database_name()
    ensures
        forall|i: int| 0 <= i < "crossovers"@.len() ==> "crossovers"@[i] != '\0',
{
    reveal_strlit("crossovers");
}

} // verus!
