//! Cache configuration and its validation.
//!
//! A configuration is validated before any pool or filesystem activity:
//! the storage path must be non-empty, and the pool bounds must be
//! consistent with one another and with the engine's own constraints, so
//! that building the pool can never abort. Durations are carried as
//! milliseconds.

use vstd::prelude::*;

verus! {

use crate::CacheError;
use crate::text::has_suffix;

/// The pool's default maximum size when none is configured.
pub const DEFAULT_POOL_MAX: u32 = 10;

/// Configuration for the resource cache.
pub struct CacheConfig {
    /// Storage file path for the cache.
    pub database_path: String,
    /// Default time-to-live for cached resources, in milliseconds; zero
    /// means resources never expire.
    pub default_ttl_ms: u64,
    /// Advisory maximum cache size in megabytes (0 = unlimited); not
    /// enforced.
    pub max_size_mb: u64,
    /// Whether expired resources should be cleaned up automatically.
    pub auto_cleanup: bool,
    /// Interval between cleanups of expired resources, in milliseconds.
    pub cleanup_interval_ms: u64,
    /// Minimum number of idle connections kept in the pool.
    pub pool_min_connections: Option<u32>,
    /// Maximum number of connections in the pool.
    pub pool_max_connections: Option<u32>,
    /// Timeout for acquiring a pooled connection, in milliseconds.
    pub pool_connection_timeout_ms: Option<u64>,
    /// Maximum lifetime of a pooled connection, in milliseconds; recycles
    /// long-lived connections.
    pub pool_max_lifetime_ms: Option<u64>,
}

impl CacheConfig {
    /// The storage path is present.
    pub open spec fn path_ok(&self) -> bool {
        self.database_path@.len() > 0
    }

    /// The configured pool bounds are consistent: when both are given the
    /// minimum does not exceed the maximum, and each bound on its own is
    /// one the pool can be built with (a positive maximum; a minimum no
    /// larger than the default maximum when no maximum is given; positive
    /// timeout and lifetime).
    pub open spec fn pool_ok(&self) -> bool {
        &&& match (self.pool_min_connections, self.pool_max_connections) {
            (Some(min), Some(max)) => min <= max,
            (Some(min), None) => min <= DEFAULT_POOL_MAX,
            _ => true,
        }
        &&& match self.pool_max_connections {
            Some(max) => max > 0,
            None => true,
        }
        &&& self.pool_connection_timeout_ms != Some(0u64)
        &&& self.pool_max_lifetime_ms != Some(0u64)
    }

    /// A configuration fit for constructing a cache.
    pub open spec fn valid(&self) -> bool {
        self.path_ok() && self.pool_ok()
    }

    /// The pool capacity this configuration asks for: the configured
    /// maximum, or the pool's default when none is given.
    pub open spec fn spec_effective_pool_max(&self) -> u32 {
        match self.pool_max_connections {
            Some(mx) => mx,
            None => DEFAULT_POOL_MAX,
        }
    }

    /// Checks the configuration, yielding a `Validation` error exactly
    /// when it is not valid.
    pub fn validate(&self) -> (r: Result<(), CacheError>)
        ensures
            r is Ok <==> self.valid(),
            r matches Err(e) ==> e is Validation,
    {
        if self.database_path.as_str().unicode_len() == 0 {
            return Err(
                CacheError::Validation(String::from_str("database_path cannot be empty")),
            );
        }
        match (self.pool_min_connections, self.pool_max_connections) {
            (Some(min), Some(max)) => {
                if min > max {
                    return Err(
                        CacheError::Validation(
                            String::from_str(
                                "pool_min_connections must not exceed pool_max_connections",
                            ),
                        ),
                    );
                }
            },
            (Some(min), None) => {
                if min > DEFAULT_POOL_MAX {
                    return Err(
                        CacheError::Validation(
                            String::from_str(
                                "pool_min_connections must not exceed the default pool maximum",
                            ),
                        ),
                    );
                }
            },
            _ => {},
        }
        if let Some(max) = self.pool_max_connections {
            if max == 0 {
                return Err(
                    CacheError::Validation(
                        String::from_str("pool_max_connections must be positive"),
                    ),
                );
            }
        }
        if let Some(t) = self.pool_connection_timeout_ms {
            if t == 0 {
                return Err(
                    CacheError::Validation(
                        String::from_str("pool_connection_timeout must be positive"),
                    ),
                );
            }
        }
        if let Some(l) = self.pool_max_lifetime_ms {
            if l == 0 {
                return Err(
                    CacheError::Validation(String::from_str("pool_max_lifetime must be positive")),
                );
            }
        }
        Ok(())
    }
}

/// A configuration whose minimum pool bound exceeds its maximum is never
/// valid: constructing a cache with it fails with a `Validation` error
/// before any pool or filesystem activity.
pub proof fn lemma_pool_bounds_validation(c: CacheConfig, mn: u32, mx: u32)
    requires
        c.pool_min_connections == Some(mn),
        c.pool_max_connections == Some(mx),
        mn > mx,
    ensures
        !c.valid(),
{
}

/// Relies on `dirs::home_dir`: the user's home directory as a string, when
/// the platform knows one. The result depends on the environment, so
/// nothing is promised of it.
#[verifier::external_body]
fn home_dir_string() -> (r: Option<String>) {
    dirs::home_dir().map(|p| p.to_string_lossy().into_owned())
}

impl Default for CacheConfig {
    /// The default configuration: storage beneath the user's home
    /// directory (or the working directory when no home is known), a one
    /// hour time-to-live, a 100 MB advisory size, cleanup every five
    /// minutes, and a pool of one to ten connections with a thirty second
    /// acquisition timeout and five minute connection lifetime.
    fn default() -> (r: Self)
        ensures
            r.default_ttl_ms == 3_600_000,
            r.max_size_mb == 100,
            r.auto_cleanup == true,
            r.cleanup_interval_ms == 300_000,
            r.pool_min_connections == Some(1u32),
            r.pool_max_connections == Some(10u32),
            r.pool_connection_timeout_ms == Some(30_000u64),
            r.pool_max_lifetime_ms == Some(300_000u64),
            r.valid(),
            has_suffix(r.database_path@, "cache.db"@),
    {
        let mut database_path = match home_dir_string() {
            Some(home) => {
                let mut p = home;
                p.append("/.resource_cache/");
                p
            },
            None => String::from_str("./"),
        };
        let ghost stem = database_path@;
        database_path.append("cache.db");
        proof {
            reveal_strlit("cache.db");
            let suffix = "cache.db"@;
            let full = database_path@;
            assert(full == stem + suffix);
            assert forall|i: int| 0 <= i < suffix.len() implies full.subrange(
                full.len() - suffix.len(),
                full.len() as int,
            )[i] == suffix[i] by {
                assert(full.subrange(full.len() - suffix.len(), full.len() as int)[i] == full[
                    full.len() - suffix.len() + i
                ]);
                assert(full[stem.len() + i] == suffix[i]);
                assert(full.len() - suffix.len() + i == stem.len() + i);
            }
            assert(full.subrange(full.len() - suffix.len(), full.len() as int) =~= suffix);
        }
        CacheConfig {
            database_path,
            default_ttl_ms: 3_600_000,
            max_size_mb: 100,
            auto_cleanup: true,
            cleanup_interval_ms: 300_000,
            pool_min_connections: Some(1),
            pool_max_connections: Some(10),
            pool_connection_timeout_ms: Some(30_000),
            pool_max_lifetime_ms: Some(300_000),
        }
    }
}

} // verus!
