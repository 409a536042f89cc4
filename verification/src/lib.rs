//! Snapshot codec for ledger state.
//!
//! A snapshot is a versioned binary record of the complete state of a ledger
//! at one slot. [`snapshot::snapshot_bank`] encodes a frozen state,
//! [`snapshot::rebuild_bank`] validates bytes and rebuilds the state from
//! them. Both are specified over the mathematical content of the state, and
//! decoding is proved to undo encoding.
//!
//! The format is a tree of records. A record is a sequence of numbered
//! fields; a field holds a varint, eight little-endian bytes, or a run of
//! bytes, which may itself be a record. Keys and hashes are runs of exactly
//! 32 bytes. Keyed collections are written as repeated entries that carry
//! their key, so that a key that occurs twice is seen when decoding. Fields
//! under numbers that the schema does not use are skipped.

pub mod error;
pub mod varint;
pub mod wire;
pub mod writer;
pub mod reader;
pub mod key;
pub mod scalar;
pub mod repeat;
pub mod codec;

pub mod account;
pub mod fees;
pub mod rent;
pub mod inflation;
pub mod hard_forks;
pub mod persistence;
pub mod blockhash_queue;
pub mod stakes;
pub mod epoch_stakes;
pub mod epoch_rewards;
pub mod header;
pub mod bank;

pub mod equivalence;
pub mod snapshot;
pub mod ledger;
