//! A pool of rate-limited API keys shared by many request pipelines.
//!
//! The library holds the key table, the allocation algorithm that charges
//! keys against a per-minute limit, the fallback rules between domains, and
//! the decisions that drive requests (retry, cooldown, removal of keys).
pub mod allocation;
pub mod decode;
pub mod domain;
pub mod error;
pub mod key;
pub mod laws;
pub mod models;
pub mod pool;
pub mod request;
pub mod retry;
pub mod schema;
pub mod storage;

pub use domain::{Domain, IntoSelector, KeyDomain, KeySelector};
pub use error::{ApiError, PoolError};
pub use key::{ApiKey, StoredKey};
pub use pool::{KeyPool, PoolBuilder};
pub use storage::{KeyPoolStorage, KeyTable};
