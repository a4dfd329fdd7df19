//! Undo logging for a small auction record store.
//!
//! Every insert, update and delete on a tracked table is answered by one
//! entry in an append-only log: the statement that takes the change back.
//! The entries are written by database triggers, which this crate generates
//! from a typed description of each table. The crate also holds a model of
//! the tables and the log, on which the generated statements are executed and
//! replayed, so that what the triggers record is proved to undo what was done.

pub mod backup;
pub mod export;
pub mod import;
pub mod json;
pub mod log;
pub mod migration;
pub mod parse;
pub mod replay;
pub mod reset;
pub mod schema;
pub mod seed;
pub mod statement;
pub mod store;
pub mod template;
pub mod text;
pub mod trigger;
pub mod value;
