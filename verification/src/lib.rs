//! An in-memory cache server that speaks RESP2: protocol, commands, storage,
//! persistence, replication and cluster routing.
pub mod benchmark;
pub mod cluster;
pub mod cmd;
pub mod connection;
pub mod persistence;
pub mod random;
pub mod replication;
pub mod resp;
pub mod store;
pub mod text;
