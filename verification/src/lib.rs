//! Verified core of a security camera recorder's database layer.
//!
//! The crate keeps the in-memory picture of a SQLite database of recordings: cameras, their
//! streams, the directories that hold sample files, and per-day summaries of what was recorded.
//! It decides which statement to run next and what the reply means; running the statement is left
//! to the caller.

pub mod aggregate;
pub mod batches;
pub mod calendar;
mod calls;
pub mod cameras;
pub mod changer;
pub mod changes;
pub mod collections;
pub mod commit;
pub mod days;
pub mod delete;
pub mod dirs;
pub mod entries;
pub mod error;
pub mod ids;
pub mod insert;
pub mod keys;
pub mod laws;
pub mod ledger;
pub mod links;
pub mod listing;
pub mod load;
pub mod mirror;
pub mod model;
pub mod playback;
pub mod recording;
pub mod reload;
pub mod reopen;
pub mod runs;
pub mod sentence;
pub mod statement;
pub mod stream;
pub mod summary;
pub mod sums;
pub mod text;
pub mod transaction;
pub mod upkeep;
pub mod uuids;
