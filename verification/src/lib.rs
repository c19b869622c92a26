//! In-memory index of a wallet's transactions, kept in step with a full
//! node's transaction feed.

pub mod history;
pub mod laws;
pub mod model;
pub mod query;
pub mod scripthash;
pub mod status;
pub mod store;
pub mod sync;
pub mod types;
