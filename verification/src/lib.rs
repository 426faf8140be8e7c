//! A minimal, wire-compatible in-memory key/value server core that speaks
//! the Redis Serialization Protocol (RESP) and supports asynchronous
//! primary-to-replica replication.
//!
//! The crate holds the verified logic only: the RESP codec, the command
//! classifier, the TTL store, the coordinator that owns the replica table
//! and the write ledger (including the `WAIT` barrier), and the replica
//! side's handshake frames and replay step. The surrounding process reads
//! and writes the sockets, runs the threads and timers, and carries out
//! what these functions decide.

pub mod cli;
pub mod command;
pub mod coordinator;
pub mod digits;
pub mod handler;
pub mod replica;
pub mod resp_encode;
pub mod resp_parser;
pub mod store;
