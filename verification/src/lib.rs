//! Proof-of-work fee search for ledger transactions.
//!
//! A transaction is admitted by the remote contract only when its canonical
//! hash falls inside an acceptance window derived from a contract-held prefix.
//! This crate holds the deterministic parts of finding such a transaction:
//!
//! - [`field`], [`hex`] and [`decimal`]: field elements, their order, their
//!   successor, and their notation, over the big-endian numerals of
//!   [`radix`];
//! - [`hasher`]: the chained hash over field elements;
//! - [`window`]: the acceptance window and its derivation from the prefix;
//! - [`call`], [`transaction`], [`inscription`]: the calls, the fields that
//!   are hashed, and the constants of the inscription;
//! - [`worker`] and [`signal`]: the search worker and the flag that stops it;
//! - [`coordinator`]: the election of the single winner among the workers;
//! - [`submit`]: the transaction that is sent, once;
//! - [`config`]: what a run is configured with.

pub mod call;
pub mod config;
pub mod coordinator;
pub mod decimal;
pub mod field;
pub mod hasher;
pub mod hex;
pub mod inscription;
pub mod radix;
pub mod signal;
pub mod submit;
pub mod transaction;
pub mod window;
pub mod worker;
