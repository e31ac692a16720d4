//! A local, durable resource cache: URI-keyed byte payloads with metadata,
//! TTL expiry, bounded connection pooling, and usage analytics, backed by an
//! embedded transactional storage engine.

use vstd::prelude::*;

pub mod analytics;
pub mod cache;
pub mod charset;
pub mod config;
pub mod db;
pub mod meta;
pub mod pathnorm;
pub mod record;
pub mod registry;
pub mod text;

pub use analytics::CacheAnalytics;
pub use cache::{PoolStats, ResourceCache};
pub use charset::parse_charset;
pub use config::CacheConfig;
pub use meta::MetaEntry;
pub use pathnorm::{normalize_db_path, normalize_path_components};
pub use record::{CachedResource, ResourceContent, ResourceInfo};
pub use registry::InitRegistry;

verus! {

/// The error taxonomy of the cache: bad configuration, pool acquisition
/// failure, engine-level storage failure, and abnormal dispatch failure.
#[derive(Debug, Clone, PartialEq, Eq)]
pub enum CacheError {
    Validation(String),
    Pool(String),
    Storage(String),
    Dispatch(String),
}

impl CacheError {
    /// A human-readable description of the error.
    pub fn message(&self) -> (r: &String)
        ensures
            r == self.text(),
    {
        match self {
            CacheError::Validation(m) => m,
            CacheError::Pool(m) => m,
            CacheError::Storage(m) => m,
            CacheError::Dispatch(m) => m,
        }
    }

    /// The message carried by the error, whatever its kind.
    pub open spec fn text(&self) -> &String {
        match self {
            CacheError::Validation(m) => m,
            CacheError::Pool(m) => m,
            CacheError::Storage(m) => m,
            CacheError::Dispatch(m) => m,
        }
    }
}

} // verus!
