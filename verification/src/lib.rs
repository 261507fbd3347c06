//! RushDB: an in-memory key-value store with a length-prefixed binary wire
//! protocol, bincode snapshots, server settings and a small command-line client.
//!
//! The modules hold the verified logic; networking, files and the terminal
//! live in the application crate around it.
pub mod bench;
pub mod cli;
pub mod config;
pub mod persistence;
pub mod protocol;
pub mod store;
pub mod store_laws;
pub mod text;
pub mod wire_laws;
