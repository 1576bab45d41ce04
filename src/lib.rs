//! Cache-aside layer, admission control and ingestion scheduling for a
//! ledger-metrics service, with contracts checked by Verus.

pub mod stats;
pub mod text;
pub mod error;
pub mod corridor;
pub mod keys;
pub mod config;
pub mod store;
pub mod cache;
pub mod admission;
pub mod schedule;
pub mod ids;
pub mod query;
pub mod state;
