//! Persistence core for multi-turn conversation threads.
//!
//! A conversation is an ordered sequence of exchanges owned, through its
//! parent project, by a single user. The store replaces a conversation
//! wholesale on every save, derives its title from the first exchange, and
//! applies one ownership filter on every read, write, or delete.

pub mod codec;
pub mod db;
pub mod directory;
pub mod error;
pub mod exchange;
pub mod laws;
pub mod store;
