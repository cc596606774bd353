use crossover_db::error::{DbError, StorageError};
use crossover_db::relay::{relay_target, watched_guild};

#[test]
fn a_message_of_someone_else_in_a_guild_is_watched() {
    assert_eq!(watched_guild(false, false, Some(100)), Some(100));
}

#[test]
fn own_messages_and_bots_and_direct_messages_are_not_watched() {
    assert_eq!(watched_guild(true, false, Some(100)), None);
    assert_eq!(watched_guild(false, true, Some(100)), None);
    assert_eq!(watched_guild(true, true, Some(100)), None);
    assert_eq!(watched_guild(false, false, None), None);
}

#[test]
fn a_target_that_was_found_is_relayed_to() {
    assert_eq!(relay_target(Ok(Some(2))), Some(2));
}

#[test]
fn nothing_is_relayed_where_nothing_was_found_or_the_lookup_failed() {
    assert_eq!(relay_target(Ok(None)), None);
    assert_eq!(relay_target(Err(StorageError::Corrupt)), None);
    assert_eq!(
        relay_target(Err(StorageError::TransactionFailed(DbError(String::from("x"))))),
        None
    );
}
