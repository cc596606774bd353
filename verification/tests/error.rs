use crossover_db::error::{DbError, StorageError};

#[test]
fn message_puts_the_introduction_first() {
    assert_eq!(DbError(String::from("boom")).message(), "Database Error: boom");
    assert_eq!(DbError(String::new()).message(), "Database Error: ");
}

#[test]
fn engine_failure_in_a_transaction_keeps_the_engine_words() {
    let failure = StorageError::transaction_failed(&heed::Error::DatabaseClosing);
    assert_eq!(
        failure,
        StorageError::TransactionFailed(DbError(String::from(
            "database is in a closing phase, you can't open it at the same time"
        )))
    );
}

#[test]
fn engine_failure_at_opening_keeps_the_engine_words() {
    let failure = StorageError::unavailable(&heed::Error::InvalidDatabaseTyping);
    assert_eq!(
        failure,
        StorageError::Unavailable(DbError(String::from(
            "database was previously opened with different types"
        )))
    );
}

#[test]
fn a_step_that_gave_a_value_gives_it_on() {
    assert_eq!(StorageError::in_transaction(Ok(7u64)), Ok(7));
    assert_eq!(StorageError::in_transaction(Ok(Some(vec![1u8, 2]))), Ok(Some(vec![1, 2])));
}

#[test]
fn a_step_that_the_engine_failed_fails_the_transaction() {
    let outcome: Result<u64, heed::Error> = Err(heed::Error::DatabaseClosing);
    assert_eq!(
        StorageError::in_transaction(outcome),
        Err(StorageError::TransactionFailed(DbError(String::from(
            "database is in a closing phase, you can't open it at the same time"
        ))))
    );
}
