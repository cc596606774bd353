//! What the listener decides for each message: whether to consult the store,
//! and where to relay.

use crate::error::StorageError;
use vstd::prelude::*;

verus! {

/// The guild to look a crossover up in, for a message posted in `guild`:
/// none for the bot's own messages, for those of other bots, and for
/// messages outside any guild.
pub fn watched_guild(own: bool, by_bot: bool, guild: Option<u64>) -> (watched: Option<u64>)
    ensures
        watched == if own || by_bot {
            None
        } else {
            guild
        },
{
    if own || by_bot {
        None
    } else {
        guild
    }
}

/// The channel to relay to, given what the lookup of the message's channel
/// gave. A lookup that failed relays nothing.
pub fn relay_target(found: Result<Option<u64>, StorageError>) -> (target: Option<u64>)
    ensures
        target == match found {
            Ok(Some(channel)) => Some(channel),
            _ => None,
        },
{
    match found {
        Ok(Some(channel)) => Some(channel),
        _ => None,
    }
}

} // verus!
