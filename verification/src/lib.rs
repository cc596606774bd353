//! A guild-scoped store of channel crossovers on top of an embedded,
//! transactional key-value engine.
//!
//! A crossover says that what is posted in a source channel of a guild is
//! relayed to a target channel. The store keeps one target per
//! `(guild, source)`, under a key of sixteen bytes that sorts as the pair
//! does.
//!
//! - [`codec`] is the byte layout, [`codec_laws`] what holds of it.
//! - [`engine`] is the engine as the store sees it: what is taken on trust.
//! - [`model`] reads the entries that a transaction sees as crossovers.
//! - [`store`] holds the store and its transactions, [`listing`] the walk
//!   that lists one guild.
//! - [`laws`] is what holds of the operations, whatever was stored before.
//! - [`error`] is the ways in which the store fails.
//! - [`relay`] is what a listener decides with the store's answer, and
//!   [`render`] the text in which a listing is shown.

pub mod codec;
pub mod codec_laws;
pub mod engine;
pub mod error;
pub mod laws;
pub mod listing;
pub mod model;
pub mod relay;
pub mod render;
pub mod store;
