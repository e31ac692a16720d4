//! The resource cache: a URI-keyed store of byte payloads with metadata,
//! TTL expiry, bounded connection pooling, and usage analytics, backed by
//! an embedded transactional storage engine.
//!
//! Construction validates the configuration before any pool or
//! filesystem activity, then proves the on-disk schema present through
//! the initialization registry's double-checked protocol. Every operation
//! acquires one pooled connection, runs its engine work against it, and
//! updates the in-memory analytics.

use vstd::prelude::*;

verus! {

use crate::CacheError;
use crate::analytics::{
    CacheAnalytics,
    hit_recorded,
    miss_recorded,
    sat_inc,
    sat_add,
    sat_sub,
    sat_add_u64,
    sat_sub_u64,
};
use crate::charset::{lower_seq, lower_string};
use crate::config::CacheConfig;
use crate::db::{
    DbPool,
    DbConn,
    pool_build,
    pool_acquire,
    pool_state,
    db_init,
    db_upsert,
    db_select_live,
    db_touch,
    db_count_live,
    db_select_all_live,
    db_search,
    db_delete_uri,
    db_clear,
    db_delete_expired,
    db_sum_sizes,
    db_count_rows,
    db_insert_history,
    db_vacuum,
    now_millis,
    new_resource_id,
};
use crate::pathnorm::normalize_db_path;
use crate::record::{
    ResourceContent,
    CachedResource,
    build_row,
    row_to_content,
    row_to_record,
};
use crate::registry::InitRegistry;
use crate::text::{contains_sub, str_contains, push_char};

/// Connection pool statistics: an approximate snapshot, read without
/// locking, so always a little stale under concurrency.
#[derive(Debug, Clone)]
pub struct PoolStats {
    /// Maximum number of connections in the pool.
    pub max_connections: u32,
    /// Connections currently handed out.
    pub active_connections: u32,
    /// Connections waiting idle in the pool.
    pub idle_connections: u32,
}

/// Whether a migration failure signals that a concurrent initializer won
/// the schema-creation race at the engine level: its lowercased message
/// names an already existing or duplicate object. Such a failure is
/// benign and downgraded to success.
pub open spec fn benign_migration_error(msg: Seq<char>) -> bool {
    contains_sub(lower_seq(msg), "already exists"@) || contains_sub(lower_seq(msg), "duplicate"@)
}

/// Whether a migration failure is a benign concurrent-duplicate signal.
fn is_benign_migration_error(msg: &str) -> (r: bool)
    ensures
        r == benign_migration_error(msg@),
{
    let lowered = lower_string(msg);
    str_contains(lowered.as_str(), "already exists") || str_contains(
        lowered.as_str(),
        "duplicate",
    )
}

/// The embedded-engine resource cache.
pub struct ResourceCache {
    config: CacheConfig,
    analytics: CacheAnalytics,
    pool: DbPool,
}

impl ResourceCache {
    /// The cache's in-memory analytics, as a specification value.
    pub closed spec fn spec_analytics(&self) -> CacheAnalytics {
        self.analytics
    }

    /// The cache's configuration, as a specification value.
    pub closed spec fn spec_config(&self) -> CacheConfig {
        self.config
    }

    /// The capacity of the cache's connection pool, as a specification
    /// value: fixed at construction from the configuration.
    pub closed spec fn spec_pool_capacity(&self) -> u32 {
        crate::db::pool_capacity(self.pool)
    }

    /// The cache's internal consistency: its read counters add up.
    pub open spec fn wf(&self) -> bool {
        self.spec_analytics().wf()
    }

    /// Constructs a cache over the configured storage file: validates the
    /// configuration (failing fast with a `Validation` error, before any
    /// pool or filesystem activity), builds the bounded connection pool,
    /// and proves the schema present through the registry's
    /// double-checked protocol. `cwd` is the caller's working directory,
    /// used to normalize a relative storage path into the registry key.
    pub fn new(config: CacheConfig, registry: &InitRegistry, cwd: &str) -> (r: Result<
        ResourceCache,
        CacheError,
    >)
        requires
            cwd@.len() > 0,
            cwd@[0] == '/',
        ensures
            !config.valid() ==> r is Err,
            r matches Err(e) ==> ((e is Validation) <==> !config.valid()),
            r matches Ok(c) ==> {
                &&& c.wf()
                &&& c.spec_config() == config
                &&& c.spec_pool_capacity() == config.spec_effective_pool_max()
                &&& c.spec_analytics().total_requests == 0
                &&& c.spec_analytics().cache_hits == 0
                &&& c.spec_analytics().cache_misses == 0
                &&& c.spec_analytics().cache_size_bytes == 0
                &&& c.spec_analytics().resource_count == 0
                &&& c.spec_analytics().eviction_count == 0
            },
    {
        match config.validate() {
            Ok(()) => {},
            Err(e) => {
                return Err(e);
            },
        }
        let analytics = CacheAnalytics::new(now_millis());
        let pool = match pool_build(
            config.database_path.as_str(),
            config.pool_min_connections,
            config.pool_max_connections,
            config.pool_connection_timeout_ms,
            config.pool_max_lifetime_ms,
        ) {
            Ok(p) => p,
            Err(msg) => {
                return Err(CacheError::Pool(msg));
            },
        };
        match init_schema(&pool, config.database_path.as_str(), registry, cwd) {
            Ok(()) => {},
            Err(e) => {
                return Err(e);
            },
        }
        Ok(ResourceCache { config, analytics, pool })
    }

    /// Stores a resource under its URI with the configured default
    /// time-to-live, returning the fresh id. An existing row under the
    /// same URI is replaced.
    pub fn store_resource(&mut self, resource: &ResourceContent) -> (r: Result<String, CacheError>)
        requires
            old(self).wf(),
        ensures
            final(self).wf(),
            final(self).spec_config() == old(self).spec_config(),
            final(self).spec_pool_capacity() == old(self).spec_pool_capacity(),
            r matches Ok(id) ==> id@.len() == 36,
            r is Ok ==> stored_counters(
                old(self).spec_analytics(),
                final(self).spec_analytics(),
                resource.data@.len() as u64,
            ),
            r is Err ==> final(self).spec_analytics() == old(self).spec_analytics(),
            r matches Err(e) ==> !(e is Dispatch),
    {
        let ttl = self.config.default_ttl_ms;
        self.store_resource_with_ttl(resource, ttl)
    }

    /// Stores a resource under its URI with the given time-to-live in
    /// milliseconds (zero meaning the resource never expires), returning
    /// the fresh id. An existing row under the same URI is replaced; the
    /// approximate size and count counters are bumped, to be corrected by
    /// the next reconciliation. The stored row is exactly what
    /// `build_row` describes: encoding folded into the metadata blob,
    /// expiry stamp from the time-to-live, size from the content length.
    pub fn store_resource_with_ttl(&mut self, resource: &ResourceContent, ttl_ms: u64) -> (r:
        Result<String, CacheError>)
        requires
            old(self).wf(),
        ensures
            final(self).wf(),
            final(self).spec_config() == old(self).spec_config(),
            final(self).spec_pool_capacity() == old(self).spec_pool_capacity(),
            r matches Ok(id) ==> id@.len() == 36,
            r is Ok ==> stored_counters(
                old(self).spec_analytics(),
                final(self).spec_analytics(),
                resource.data@.len() as u64,
            ),
            r is Err ==> final(self).spec_analytics() == old(self).spec_analytics(),
            r matches Err(e) ==> !(e is Dispatch),
            r matches Err(e) && e is Validation ==> ttl_ms > 0,
            ttl_ms > i64::MAX ==> (r matches Err(e) && e is Validation),
    {
        let id = new_resource_id();
        let id_out = crate::meta::clone_string(&id);
        let now = now_millis();
        let row = match build_row(resource, ttl_ms, now, id) {
            Ok(row) => row,
            Err(e) => {
                return Err(e);
            },
        };
        let mut conn = match pool_acquire(&self.pool) {
            Ok(c) => c,
            Err(msg) => {
                return Err(CacheError::Pool(msg));
            },
        };
        match db_upsert(&mut conn, &row) {
            Ok(()) => {},
            Err(msg) => {
                return Err(CacheError::Storage(msg));
            },
        }
        let added = self.analytics.resource_count;
        self.analytics.resource_count = sat_add_u64(added, 1);
        let size = self.analytics.cache_size_bytes;
        self.analytics.cache_size_bytes = sat_add_u64(size, resource.data.len() as u64);
        Ok(id_out)
    }

    /// Reads the resource under a URI, if a live row holds it: expiry is
    /// a read-time filter, so an expired-but-unswept row is invisible. A
    /// hit stamps the row's access time and count, reconstructs the
    /// boundary value exactly as `row_to_content` describes (metadata
    /// decoded, encoding resolved by its precedence), and counts a hit; a
    /// miss counts a miss.
    pub fn get_resource(&mut self, uri: &str) -> (r: Result<Option<ResourceContent>, CacheError>)
        requires
            old(self).wf(),
        ensures
            final(self).wf(),
            final(self).spec_config() == old(self).spec_config(),
            final(self).spec_pool_capacity() == old(self).spec_pool_capacity(),
            r matches Ok(Some(c)) ==> c.info.uri@ == uri@,
            r matches Ok(Some(c)) ==> exists|row: crate::record::RowValues|
                #[trigger] crate::record::reconstructed(c, row) && row.uri@ == uri@,
            r matches Ok(Some(c)) ==> hit_recorded(
                old(self).spec_analytics(),
                final(self).spec_analytics(),
            ),
            r matches Ok(None) ==> miss_recorded(
                old(self).spec_analytics(),
                final(self).spec_analytics(),
            ),
            r is Err ==> final(self).spec_analytics() == old(self).spec_analytics(),
            r matches Err(e) ==> !(e is Dispatch) && !(e is Validation),
    {
        let now = now_millis();
        let conn = match pool_acquire(&self.pool) {
            Ok(c) => c,
            Err(msg) => {
                return Err(CacheError::Pool(msg));
            },
        };
        let found = match db_select_live(&conn, uri, now) {
            Ok(v) => v,
            Err(msg) => {
                return Err(CacheError::Storage(msg));
            },
        };
        match found {
            Some(row) => {
                match db_touch(&conn, uri, now) {
                    Ok(_) => {},
                    Err(msg) => {
                        return Err(CacheError::Storage(msg));
                    },
                }
                let content = match row_to_content(&row) {
                    Ok(c) => c,
                    Err(e) => {
                        return Err(e);
                    },
                };
                self.analytics.record_hit();
                Ok(Some(content))
            },
            None => {
                self.analytics.record_miss();
                Ok(None)
            },
        }
    }

    /// Whether a live resource exists under the URI, without touching
    /// access statistics.
    pub fn contains_resource(&self, uri: &str) -> (r: Result<bool, CacheError>)
        ensures
            r matches Err(e) ==> e is Pool || e is Storage,
    {
        let now = now_millis();
        let conn = match pool_acquire(&self.pool) {
            Ok(c) => c,
            Err(msg) => {
                return Err(CacheError::Pool(msg));
            },
        };
        match db_count_live(&conn, uri, now) {
            Ok(count) => Ok(count > 0),
            Err(msg) => Err(CacheError::Storage(msg)),
        }
    }

    /// Lists every live resource, most recently accessed first. Metadata
    /// blobs are decoded permissively: a malformed one yields the
    /// resource with no metadata entries. Every returned element is the
    /// faithful listed reconstruction of some stored row.
    pub fn list_cached_resources(&self) -> (r: Result<Vec<CachedResource>, CacheError>)
        ensures
            r matches Ok(list) ==> forall|a: int, b: int|
                0 <= a < b < list.len() ==> #[trigger] list[a].accessed_at
                    >= #[trigger] list[b].accessed_at,
            r matches Ok(list) ==> crate::record::all_listed(list@),
            r matches Err(e) ==> e is Pool || e is Storage,
    {
        let now = now_millis();
        let conn = match pool_acquire(&self.pool) {
            Ok(c) => c,
            Err(msg) => {
                return Err(CacheError::Pool(msg));
            },
        };
        let rows = match db_select_all_live(&conn, now) {
            Ok(rows) => rows,
            Err(msg) => {
                return Err(CacheError::Storage(msg));
            },
        };
        let records = rows_to_records(&rows);
        proof {
            assert forall|a: int, b: int|
                0 <= a < b < records.len() implies #[trigger] records[a].accessed_at
                >= #[trigger] records[b].accessed_at by {
                assert(crate::record::listed_record(records[a], rows[a]));
                assert(crate::record::listed_record(records[b], rows[b]));
                assert(rows[a].accessed_at >= rows[b].accessed_at);
            }
        }
        Ok(records)
    }

    /// Lists every live resource whose URI, content-type or serialized
    /// metadata contains the query as a substring, most recently accessed
    /// first. The query is wrapped in the engine's wildcard markers with
    /// no escaping of wildcard characters it may itself contain — a
    /// documented pass-through, not a sanitized contract. Every returned
    /// element is the faithful listed reconstruction of some stored row.
    pub fn search_resources(&self, query: &str) -> (r: Result<Vec<CachedResource>, CacheError>)
        ensures
            r matches Ok(list) ==> forall|a: int, b: int|
                0 <= a < b < list.len() ==> #[trigger] list[a].accessed_at
                    >= #[trigger] list[b].accessed_at,
            r matches Ok(list) ==> crate::record::all_listed(list@),
            r matches Err(e) ==> e is Pool || e is Storage,
    {
        let now = now_millis();
        let mut pattern = String::new();
        push_char(&mut pattern, '%');
        pattern.append(query);
        push_char(&mut pattern, '%');
        let conn = match pool_acquire(&self.pool) {
            Ok(c) => c,
            Err(msg) => {
                return Err(CacheError::Pool(msg));
            },
        };
        let rows = match db_search(&conn, pattern.as_str(), now) {
            Ok(rows) => rows,
            Err(msg) => {
                return Err(CacheError::Storage(msg));
            },
        };
        let records = rows_to_records(&rows);
        proof {
            assert forall|a: int, b: int|
                0 <= a < b < records.len() implies #[trigger] records[a].accessed_at
                >= #[trigger] records[b].accessed_at by {
                assert(crate::record::listed_record(records[a], rows[a]));
                assert(crate::record::listed_record(records[b], rows[b]));
                assert(rows[a].accessed_at >= rows[b].accessed_at);
            }
        }
        Ok(records)
    }

    /// Removes the row under a URI, reporting whether anything went; the
    /// approximate resource count steps down on a removal.
    pub fn remove_resource(&mut self, uri: &str) -> (r: Result<bool, CacheError>)
        requires
            old(self).wf(),
        ensures
            final(self).wf(),
            final(self).spec_config() == old(self).spec_config(),
            final(self).spec_pool_capacity() == old(self).spec_pool_capacity(),
            r matches Ok(removed) ==> {
                if removed {
                    final(self).spec_analytics() == (CacheAnalytics {
                        resource_count: sat_sub(old(self).spec_analytics().resource_count, 1),
                        ..old(self).spec_analytics()
                    })
                } else {
                    final(self).spec_analytics() == old(self).spec_analytics()
                }
            },
            r is Err ==> final(self).spec_analytics() == old(self).spec_analytics(),
            r matches Err(e) ==> e is Pool || e is Storage,
    {
        let conn = match pool_acquire(&self.pool) {
            Ok(c) => c,
            Err(msg) => {
                return Err(CacheError::Pool(msg));
            },
        };
        let changes = match db_delete_uri(&conn, uri) {
            Ok(n) => n,
            Err(msg) => {
                return Err(CacheError::Storage(msg));
            },
        };
        if changes > 0 {
            let count = self.analytics.resource_count;
            self.analytics.resource_count = sat_sub_u64(count, 1);
            Ok(true)
        } else {
            Ok(false)
        }
    }

    /// Empties the store: deletes every resource row and every analytics
    /// history row, and resets the in-memory analytics to zero. The cache
    /// stays ready for use.
    pub fn clear(&mut self) -> (r: Result<(), CacheError>)
        requires
            old(self).wf(),
        ensures
            final(self).wf(),
            final(self).spec_config() == old(self).spec_config(),
            final(self).spec_pool_capacity() == old(self).spec_pool_capacity(),
            r is Ok ==> {
                &&& final(self).spec_analytics().total_requests == 0
                &&& final(self).spec_analytics().cache_hits == 0
                &&& final(self).spec_analytics().cache_misses == 0
                &&& final(self).spec_analytics().cache_size_bytes == 0
                &&& final(self).spec_analytics().resource_count == 0
                &&& final(self).spec_analytics().eviction_count == 0
            },
            r is Err ==> final(self).spec_analytics() == old(self).spec_analytics(),
            r matches Err(e) ==> e is Pool || e is Storage,
    {
        let conn = match pool_acquire(&self.pool) {
            Ok(c) => c,
            Err(msg) => {
                return Err(CacheError::Pool(msg));
            },
        };
        match db_clear(&conn) {
            Ok(()) => {},
            Err(msg) => {
                return Err(CacheError::Storage(msg));
            },
        }
        self.analytics = CacheAnalytics::new(now_millis());
        Ok(())
    }

    /// The authoritative eviction sweep: deletes every row whose expiry
    /// stamp has passed, returning how many went. The eviction counter
    /// steps up by the count; afterwards the analytics are reconciled
    /// against the store and one history snapshot is appended. The
    /// opportunistic on-insert trigger must never be relied on in its
    /// stead.
    pub fn cleanup_expired(&mut self) -> (r: Result<u64, CacheError>)
        requires
            old(self).wf(),
        ensures
            final(self).wf(),
            final(self).spec_config() == old(self).spec_config(),
            final(self).spec_pool_capacity() == old(self).spec_pool_capacity(),
            final(self).spec_analytics().total_requests == old(
                self,
            ).spec_analytics().total_requests,
            final(self).spec_analytics().cache_hits == old(self).spec_analytics().cache_hits,
            final(self).spec_analytics().cache_misses == old(self).spec_analytics().cache_misses,
            r matches Ok(n) ==> final(self).spec_analytics().eviction_count == sat_add(
                old(self).spec_analytics().eviction_count,
                n,
            ),
            r matches Err(e) ==> e is Pool || e is Storage,
    {
        let now = now_millis();
        let conn = match pool_acquire(&self.pool) {
            Ok(c) => c,
            Err(msg) => {
                return Err(CacheError::Pool(msg));
            },
        };
        let removed = match db_delete_expired(&conn, now) {
            Ok(n) => n,
            Err(msg) => {
                return Err(CacheError::Storage(msg));
            },
        };
        let removed_count = removed as u64;
        let evictions = self.analytics.eviction_count;
        self.analytics.eviction_count = sat_add_u64(evictions, removed_count);
        self.analytics.last_cleanup_ms = now;
        let live = self.analytics.resource_count;
        self.analytics.resource_count = sat_sub_u64(live, removed_count);
        match self.update_analytics(&conn) {
            Ok(()) => {},
            Err(e) => {
                return Err(e);
            },
        }
        Ok(removed_count)
    }

    /// Reconciles the size and count fields against the store and appends
    /// one immutable history snapshot. Invoked from the eviction sweep;
    /// never on every mutation, to bound cost.
    fn update_analytics(&mut self, conn: &DbConn) -> (r: Result<(), CacheError>)
        requires
            old(self).wf(),
        ensures
            final(self).wf(),
            final(self).spec_config() == old(self).spec_config(),
            final(self).spec_pool_capacity() == old(self).spec_pool_capacity(),
            final(self).spec_analytics().total_requests == old(
                self,
            ).spec_analytics().total_requests,
            final(self).spec_analytics().cache_hits == old(self).spec_analytics().cache_hits,
            final(self).spec_analytics().cache_misses == old(self).spec_analytics().cache_misses,
            final(self).spec_analytics().eviction_count == old(
                self,
            ).spec_analytics().eviction_count,
            r matches Err(e) ==> e is Storage,
    {
        let total_size = match db_sum_sizes(conn) {
            Ok(s) => s,
            Err(msg) => {
                return Err(CacheError::Storage(msg));
            },
        };
        let count = match db_count_rows(conn) {
            Ok(c) => c,
            Err(msg) => {
                return Err(CacheError::Storage(msg));
            },
        };
        self.analytics.cache_size_bytes = if total_size >= 0 {
            total_size as u64
        } else {
            0
        };
        self.analytics.resource_count = count as u64;
        let ts = now_millis();
        match db_insert_history(
            conn,
            ts,
            self.analytics.cache_hits,
            self.analytics.total_requests,
            self.analytics.cache_size_bytes,
            self.analytics.eviction_count,
        ) {
            Ok(()) => Ok(()),
            Err(msg) => Err(CacheError::Storage(msg)),
        }
    }

    /// The in-memory analytics snapshot.
    pub fn get_analytics(&self) -> (r: &CacheAnalytics)
        ensures
            *r == self.spec_analytics(),
    {
        &self.analytics
    }

    /// The sum of recorded sizes over all rows, swept or not: a physical
    /// footprint metric, not a logical-liveness one.
    pub fn get_cache_size(&self) -> (r: Result<u64, CacheError>)
        ensures
            r matches Err(e) ==> e is Pool || e is Storage,
    {
        let conn = match pool_acquire(&self.pool) {
            Ok(c) => c,
            Err(msg) => {
                return Err(CacheError::Pool(msg));
            },
        };
        match db_sum_sizes(&conn) {
            Ok(s) => Ok(
                if s >= 0 {
                    s as u64
                } else {
                    0
                },
            ),
            Err(msg) => Err(CacheError::Storage(msg)),
        }
    }

    /// Compacts the storage file, reclaiming engine free space.
    pub fn compact(&mut self) -> (r: Result<(), CacheError>)
        requires
            old(self).wf(),
        ensures
            final(self).wf(),
            final(self).spec_config() == old(self).spec_config(),
            final(self).spec_pool_capacity() == old(self).spec_pool_capacity(),
            final(self).spec_analytics() == old(self).spec_analytics(),
            r matches Err(e) ==> e is Pool || e is Storage,
    {
        let conn = match pool_acquire(&self.pool) {
            Ok(c) => c,
            Err(msg) => {
                return Err(CacheError::Pool(msg));
            },
        };
        match db_vacuum(&conn) {
            Ok(()) => Ok(()),
            Err(msg) => Err(CacheError::Storage(msg)),
        }
    }

    /// An approximate snapshot of the pool's capacity and usage: the
    /// reported maximum is the capacity the pool was built with, and the
    /// active and idle counts never add up past it. Which moment the
    /// counts show is approximate under concurrency.
    pub fn get_pool_stats(&self) -> (r: PoolStats)
        ensures
            r.max_connections == self.spec_pool_capacity(),
            r.active_connections + r.idle_connections <= r.max_connections,
    {
        let (max_connections, connections, idle_connections) = pool_state(&self.pool);
        let active_connections = if connections >= idle_connections {
            connections - idle_connections
        } else {
            0
        };
        PoolStats { max_connections, active_connections, idle_connections }
    }
}

/// How the approximate counters move on a successful store: one more
/// resource, its bytes added, everything else untouched.
pub open spec fn stored_counters(pre: CacheAnalytics, post: CacheAnalytics, added: u64) -> bool {
    &&& post.resource_count == sat_inc(pre.resource_count)
    &&& post.cache_size_bytes == sat_add(pre.cache_size_bytes, added)
    &&& post.total_requests == pre.total_requests
    &&& post.cache_hits == pre.cache_hits
    &&& post.cache_misses == pre.cache_misses
    &&& post.eviction_count == pre.eviction_count
    &&& post.last_cleanup_ms == pre.last_cleanup_ms
}

/// Converts listed rows one for one, keeping their order.
fn rows_to_records(rows: &Vec<crate::record::RowValues>) -> (r: Vec<CachedResource>)
    ensures
        r.len() == rows.len(),
        forall|k: int|
            0 <= k < rows.len() ==> #[trigger] crate::record::listed_record(r[k], rows[k]),
        crate::record::all_listed(r@),
{
    let mut out: Vec<CachedResource> = Vec::new();
    let mut k: usize = 0;
    while k < rows.len()
        invariant
            k <= rows.len(),
            out.len() == k,
            forall|t: int|
                0 <= t < k ==> #[trigger] crate::record::listed_record(out[t], rows[t]),
        decreases rows.len() - k,
    {
        let rec = row_to_record(&rows[k]);
        out.push(rec);
        k = k + 1;
    }
    proof {
        assert forall|t: int|
            0 <= t < out@.len() implies #[trigger] crate::record::listed_from_some_row(
            out@[t],
        ) by {
            assert(crate::record::listed_record(out[t], rows[t]));
            assert(out[t] == out@[t]);
            assert(rows[t] == rows@[t]);
            assert(crate::record::listed_record(out@[t], rows@[t]));
        }
        assert(crate::record::all_listed(out@));
    }
    out
}

/// Guarantees the on-disk schema at the latest version exactly once per
/// distinct storage path, safely across concurrently constructed
/// instances: check the registry, acquire a connection, re-check (closing
/// the race window), run pragmas and migrations, and mark the normalized
/// path. A migration failure whose message signals a concurrent
/// duplicate is downgraded to success; any other failure is fatal to
/// construction.
fn init_schema(pool: &DbPool, db_path: &str, registry: &InitRegistry, cwd: &str) -> (r: Result<
    (),
    CacheError,
>)
    requires
        cwd@.len() > 0,
        cwd@[0] == '/',
    ensures
        r matches Err(e) ==> e is Pool || e is Storage,
{
    let key = normalize_db_path(db_path, cwd);
    if registry.contains(&key) {
        return Ok(());
    }
    let mut conn = match pool_acquire(pool) {
        Ok(c) => c,
        Err(msg) => {
            return Err(CacheError::Pool(msg));
        },
    };
    if registry.contains(&key) {
        return Ok(());
    }
    match db_init(&mut conn) {
        Ok(()) => {
            registry.mark(&key);
            Ok(())
        },
        Err(msg) => {
            if is_benign_migration_error(msg.as_str()) {
                registry.mark(&key);
                Ok(())
            } else {
                Err(CacheError::Storage(msg))
            }
        },
    }
}

} // verus!
