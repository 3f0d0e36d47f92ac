//! A node of a distributed hash table: its records, its peers, and what it does
//! about the commands and events that reach it.
//!
//! Every function states in its contract what it returns or changes. What other
//! crates do is behind a few functions whose contracts are believed, not
//! proved; each names the call that it stands for.

pub mod dht;
pub mod dht_db;
pub mod input;
pub mod node;
pub mod outside;
pub mod record;
pub mod routing_table;
pub mod text;
