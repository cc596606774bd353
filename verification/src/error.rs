//! The ways in which the store fails.

use crate::engine::error_text;
use vstd::prelude::*;

verus! {

/// `String::push_str`: appends `tail` to `text`. Taken on trust from the
/// standard library's documentation.
pub assume_specification[ String::push_str ](text: &mut String, tail: &str)
    ensures
        final(text)@ == old(text)@ + tail@,
;

/// What the engine said when it failed.
#[derive(Clone, Debug, PartialEq, Eq)]
pub struct DbError(pub String);

impl DbError {
    /// The text that introduces every engine failure.
    pub open spec fn prefix() -> Seq<char> {
        "Database Error: "@
    }

    /// The failure as a reader sees it: the engine's words behind a fixed
    /// introduction.
    pub fn message(&self) -> (out: String)
        ensures
            out@ == Self::prefix() + self.0@,
    {
        let mut out = String::new();
        out.push_str("Database Error: ");
        out.push_str(self.0.as_str());
        proof {
            assert(Seq::<char>::empty() + Self::prefix() =~= Self::prefix());
        }
        out
    }
}

/// Why an operation of the store did not give a result.
#[derive(Clone, Debug, PartialEq, Eq)]
pub enum StorageError {
    /// The storage path could not be opened, or the engine could not set up
    /// its database there. Comes only from opening the store.
    Unavailable(DbError),
    /// A transaction could not begin, work or commit. Nothing that it was
    /// to write has taken effect.
    TransactionFailed(DbError),
    /// Stored bytes do not have the shape of a record.
    Corrupt,
}

impl StorageError {
    /// The engine failure `error` as the failure of a transaction.
    pub fn transaction_failed(error: &heed::Error) -> (failure: StorageError)
        ensures
            failure is TransactionFailed,
    {
        StorageError::TransactionFailed(DbError(error_text(error)))
    }

    /// What a step of a transaction gave, as the store reports it: the value
    /// where the engine gave one, and the failure of the transaction where
    /// the engine failed.
    pub fn in_transaction<T>(outcome: Result<T, heed::Error>) -> (r: Result<T, StorageError>)
        ensures
            match outcome {
                Ok(value) => r == Ok::<T, StorageError>(value),
                Err(_) => r matches Err(StorageError::TransactionFailed(_)),
            },
    {
        match outcome {
            Ok(value) => Ok(value),
            Err(error) => Err(StorageError::transaction_failed(&error)),
        }
    }

    /// The engine failure `error` as the failure to open the store.
    pub fn unavailable(error: &heed::Error) -> (failure: StorageError)
        ensures
            failure is Unavailable,
    {
        StorageError::Unavailable(DbError(error_text(error)))
    }
}

} // verus!
