//! A background garbage-collection subsystem for a multi-store,
//! version-indexed ledger database, together with the account-state
//! map it serves.
//!
//! Every committed transaction writes versioned records into several
//! logically distinct stores (state values, transactions, the history
//! accumulator, events).  The pruner deletes records older than a
//! configurable retention window, in bounded batches, behind a single
//! worker that is the sole writer of destructive operations, while
//! readers keep querying un-pruned versions.

pub mod account_state;
pub mod codec;
pub mod command;
pub mod config;
pub mod db;
pub mod error;
pub mod event_store;
pub mod mock;
pub mod pruner;
pub mod records;
pub mod resources;
pub mod state_store;
pub mod util;
pub mod worker;
