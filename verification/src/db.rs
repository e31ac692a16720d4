//! The storage engine behind the cache: pooled connections to one SQLite
//! file, reached through a set of trusted wrappers.
//!
//! Each wrapper's body holds one engine operation and the conversions its
//! arguments and results need; its contract states only what the engine's
//! source and documentation show. What a query returns depends on the
//! state of the storage file, which other processes share, so the
//! contracts promise properties of every outcome (a returned row matches
//! the query's filter; a count is non-negative) and never which rows are
//! on disk.

use vstd::prelude::*;

verus! {

use crate::record::{RowValues, live_at};

/// The bounded connection pool for one storage file. The pool type's own
/// generic parameter is bounded by an outside trait, which Verus refuses
/// to declare, so the pool is held opaquely in this struct.
#[verifier::external_body]
pub struct DbPool {
    pool: r2d2::Pool<r2d2_sqlite::SqliteConnectionManager>,
}

/// One acquired connection, held opaquely for the same reason.
#[verifier::external_body]
pub struct DbConn {
    conn: r2d2::PooledConnection<r2d2_sqlite::SqliteConnectionManager>,
}

#[verifier::external_type_specification]
#[verifier::external_body]
pub struct ExRow<'a>(rusqlite::Row<'a>);

#[verifier::external_type_specification]
#[verifier::external_body]
pub struct ExRusqliteError(rusqlite::Error);

/// The versioned forward migration: the resources table with its indexes,
/// the analytics history table, and the opportunistic after-insert
/// cleanup trigger.
fn schema_up_sql() -> &'static str {
    "CREATE TABLE IF NOT EXISTS resources (
        id TEXT PRIMARY KEY,
        uri TEXT UNIQUE NOT NULL,
        content BLOB NOT NULL,
        content_type TEXT,
        metadata_json TEXT,
        created_at INTEGER NOT NULL,
        accessed_at INTEGER NOT NULL,
        expires_at INTEGER,
        access_count INTEGER DEFAULT 0,
        size_bytes INTEGER NOT NULL
    );
    CREATE INDEX IF NOT EXISTS idx_resources_uri ON resources(uri);
    CREATE INDEX IF NOT EXISTS idx_resources_expires ON resources(expires_at);
    CREATE INDEX IF NOT EXISTS idx_resources_accessed ON resources(accessed_at);
    CREATE TABLE IF NOT EXISTS cache_analytics (
        id INTEGER PRIMARY KEY AUTOINCREMENT,
        timestamp INTEGER NOT NULL,
        hit_rate REAL,
        total_requests INTEGER,
        cache_size_mb REAL,
        eviction_count INTEGER
    );
    CREATE TRIGGER IF NOT EXISTS cleanup_expired_resources
     AFTER INSERT ON resources
     BEGIN
         DELETE FROM resources
         WHERE expires_at IS NOT NULL
         AND expires_at < strftime('%s', 'now') * 1000;
     END;"
}

/// The matching backward migration.
fn schema_down_sql() -> &'static str {
    "DROP TABLE IF EXISTS cache_analytics;
    DROP TABLE IF EXISTS resources;"
}

fn upsert_sql() -> &'static str {
    "INSERT OR REPLACE INTO resources (
        id, uri, content, content_type, metadata_json,
        created_at, accessed_at, expires_at, access_count, size_bytes
    ) VALUES (?1, ?2, ?3, ?4, ?5, ?6, ?7, ?8, ?9, ?10)"
}

fn select_live_sql() -> &'static str {
    "SELECT id, uri, content, content_type, metadata_json,
            created_at, accessed_at, expires_at, access_count, size_bytes
     FROM resources
     WHERE uri = ?1
     AND (expires_at IS NULL OR expires_at > ?2)"
}

fn select_all_live_sql() -> &'static str {
    "SELECT id, uri, content, content_type, metadata_json,
            created_at, accessed_at, expires_at, access_count, size_bytes
     FROM resources
     WHERE expires_at IS NULL OR expires_at > ?1
     ORDER BY accessed_at DESC"
}

fn search_sql() -> &'static str {
    "SELECT id, uri, content, content_type, metadata_json,
            created_at, accessed_at, expires_at, access_count, size_bytes
     FROM resources
     WHERE (expires_at IS NULL OR expires_at > ?2)
     AND (uri LIKE ?1 OR content_type LIKE ?1 OR metadata_json LIKE ?1)
     ORDER BY accessed_at DESC"
}

fn history_sql() -> &'static str {
    "INSERT INTO cache_analytics
     (timestamp, hit_rate, total_requests, cache_size_mb, eviction_count)
     VALUES (?1, CASE WHEN ?3 = 0 THEN 0 ELSE CAST(?2 AS REAL) / ?3 END,
             ?3, CAST(?4 AS REAL) / 1048576, ?5)"
}

/// The capacity a pool was built with: the configured maximum number of
/// connections, fixed for the pool's lifetime. The builder records it at
/// construction and never changes it, so it is a function of the pool
/// value alone; `pool_build` pins it and `pool_state` reports it.
pub uninterp spec fn pool_capacity(p: DbPool) -> u32;

/// Relies on `SqliteConnectionManager::file` and `r2d2::Builder`: builds
/// the bounded connection pool for one storage file. The requires mirror
/// the builder's own aborts: a positive maximum, a minimum within the
/// maximum (10 when none is configured), and positive timeout and
/// lifetime. Building waits for the minimum connections and fails with
/// the pool's error otherwise. The pool's capacity is the configured
/// maximum, or the builder's default of 10 when none is given.
#[verifier::external_body]
pub fn pool_build(
    path: &str,
    min: Option<u32>,
    max: Option<u32>,
    timeout_ms: Option<u64>,
    lifetime_ms: Option<u64>,
) -> (r: Result<DbPool, String>)
    requires
        max matches Some(mx) ==> mx > 0,
        match (min, max) {
            (Some(mn), Some(mx)) => mn <= mx,
            (Some(mn), None) => mn <= 10,
            _ => true,
        },
        timeout_ms != Some(0u64),
        lifetime_ms != Some(0u64),
    ensures
        r matches Ok(p) ==> pool_capacity(p) == (match max {
            Some(mx) => mx,
            None => 10u32,
        }),
{
    let manager = r2d2_sqlite::SqliteConnectionManager::file(path);
    let mut b = r2d2::Pool::builder().min_idle(min);
    if let Some(mx) = max {
        b = b.max_size(mx);
    }
    if let Some(t) = timeout_ms {
        b = b.connection_timeout(std::time::Duration::from_millis(t));
    }
    b = b.max_lifetime(lifetime_ms.map(std::time::Duration::from_millis));
    let pool = b.build(manager).map_err(|e| e.to_string())?;
    Ok(DbPool { pool })
}

/// Relies on `r2d2::Pool::get`: acquires a pooled connection, waiting at
/// most the configured timeout, and fails with the pool's error after it.
#[verifier::external_body]
pub fn pool_acquire(pool: &DbPool) -> (r: Result<DbConn, String>) {
    let conn = pool.pool.get().map_err(|e| e.to_string())?;
    Ok(DbConn { conn })
}

/// Relies on `r2d2::Pool::state` and `max_size`: an approximate snapshot
/// of (maximum, open connections, idle connections). The snapshot races
/// concurrent use, so nothing is promised of which moment it shows; but
/// the pool maintains, under its internal lock, that idle connections
/// never exceed open ones and open ones never exceed the capacity, and
/// the reported maximum is the capacity the pool was built with.
#[verifier::external_body]
pub fn pool_state(pool: &DbPool) -> (r: (u32, u32, u32))
    ensures
        r.0 == pool_capacity(*pool),
        r.2 <= r.1 <= pool_capacity(*pool),
{
    let st = pool.pool.state();
    (pool.pool.max_size(), st.connections, st.idle_connections)
}

/// Relies on `rusqlite::Connection::pragma_update`, `busy_timeout` and
/// `rusqlite_migration::Migrations::to_latest`: applies the engine
/// pragmas (write-ahead journaling, balanced durability, a fixed page
/// cache, in-memory temporary storage, a five second busy timeout) and
/// runs the forward migrations, failing with the engine's message.
#[verifier::external_body]
pub fn db_init(conn: &mut DbConn) -> (r: Result<(), String>) {
    let conn = &mut conn.conn;
    conn.pragma_update(None, "journal_mode", "WAL").map_err(|e| e.to_string())?;
    conn.pragma_update(None, "synchronous", "NORMAL").map_err(|e| e.to_string())?;
    conn.pragma_update(None, "cache_size", 10000).map_err(|e| e.to_string())?;
    conn.pragma_update(None, "temp_store", "memory").map_err(|e| e.to_string())?;
    conn.busy_timeout(std::time::Duration::from_secs(5)).map_err(|e| e.to_string())?;
    let migrations = rusqlite_migration::Migrations::new(
        vec![rusqlite_migration::M::up(schema_up_sql()).down(schema_down_sql())],
    );
    migrations.to_latest(&mut *conn).map_err(|e| e.to_string())
}

/// Relies on `rusqlite::Row::get`: reads the ten columns of one resources
/// row into plain values, in schema order.
#[verifier::external_body]
fn read_row(row: &rusqlite::Row<'_>) -> (r: Result<RowValues, rusqlite::Error>) {
    Ok(
        RowValues {
            id: row.get(0)?,
            uri: row.get(1)?,
            content: row.get(2)?,
            content_type: row.get(3)?,
            metadata_blob: row.get(4)?,
            created_at: row.get(5)?,
            accessed_at: row.get(6)?,
            expires_at: row.get(7)?,
            access_count: row.get(8)?,
            size_bytes: row.get(9)?,
        },
    )
}

/// Relies on `rusqlite::Row::get`: reads a single integer column.
#[verifier::external_body]
fn read_i64(row: &rusqlite::Row<'_>) -> (r: Result<i64, rusqlite::Error>) {
    row.get(0)
}

/// Relies on `Connection::transaction` and `execute`: upserts one row,
/// keyed by its unique `uri`, inside a committed transaction. Which row
/// ends up on disk under concurrency is the engine's affair; nothing is
/// promised beyond success or the engine's error.
#[verifier::external_body]
pub fn db_upsert(
    conn: &mut DbConn,
    row: &RowValues,
) -> (r: Result<(), String>) {
    let tx = conn.conn.transaction().map_err(|e| e.to_string())?;
    let params = (
        &row.id, &row.uri, &row.content, &row.content_type, &row.metadata_blob,
        row.created_at, row.accessed_at, row.expires_at, row.access_count, row.size_bytes,
    );
    tx.execute(upsert_sql(), params).map_err(|e| e.to_string())?;
    tx.commit().map_err(|e| e.to_string())
}

/// Relies on `Statement::query_row`: the row whose `uri` equals the key
/// and whose expiry stamp is absent or later than `now`, if one exists.
/// The query's filter is part of its text, so any returned row matches
/// the key and is live at `now`.
#[verifier::external_body]
pub fn db_select_live(
    conn: &DbConn,
    uri: &str,
    now: i64,
) -> (r: Result<Option<RowValues>, String>)
    ensures
        r matches Ok(Some(row)) ==> row.uri@ == uri@ && live_at(row.expires_at, now),
{
    let mut stmt = conn.conn.prepare(select_live_sql()).map_err(|e| e.to_string())?;
    match stmt.query_row((uri, now), read_row) {
        Ok(v) => Ok(Some(v)),
        Err(rusqlite::Error::QueryReturnedNoRows) => Ok(None),
        Err(e) => Err(e.to_string()),
    }
}

/// Relies on `Connection::execute`: stamps the row's access time and
/// bumps its access count.
#[verifier::external_body]
pub fn db_touch(
    conn: &DbConn,
    uri: &str,
    now: i64,
) -> (r: Result<usize, String>) {
    conn.conn.execute(
        "UPDATE resources SET accessed_at = ?1, access_count = access_count + 1 WHERE uri = ?2",
        (now, uri),
    ).map_err(|e| e.to_string())
}

/// Relies on `Connection::query_row`: how many rows match the key under
/// the liveness filter. A count is never negative.
#[verifier::external_body]
pub fn db_count_live(
    conn: &DbConn,
    uri: &str,
    now: i64,
) -> (r: Result<i64, String>)
    ensures
        r matches Ok(c) ==> c >= 0,
{
    conn.conn.query_row(
        "SELECT COUNT(*) FROM resources WHERE uri = ?1 AND (expires_at IS NULL OR expires_at > ?2)",
        (uri, now),
        read_i64,
    ).map_err(|e| e.to_string())
}

/// Relies on `Statement::query_map`: every live row, most recently
/// accessed first. The query's filter and ordering are part of its text,
/// so every returned row is live at `now` and access times never
/// increase along the list.
#[verifier::external_body]
pub fn db_select_all_live(
    conn: &DbConn,
    now: i64,
) -> (r: Result<Vec<RowValues>, String>)
    ensures
        r matches Ok(rows) ==> forall|k: int|
            0 <= k < rows.len() ==> live_at(#[trigger] rows[k].expires_at, now),
        r matches Ok(rows) ==> forall|a: int, b: int|
            0 <= a < b < rows.len() ==> #[trigger] rows[a].accessed_at >= #[trigger] rows[b].accessed_at,
{
    let mut stmt = conn.conn.prepare(select_all_live_sql()).map_err(|e| e.to_string())?;
    let mapped = stmt.query_map((now,), read_row).map_err(|e| e.to_string())?;
    let mut out = Vec::new();
    for r in mapped {
        out.push(r.map_err(|e| e.to_string())?);
    }
    Ok(out)
}

/// Relies on `Statement::query_map`: every live row whose uri,
/// content-type or metadata blob matches the `LIKE` pattern, most
/// recently accessed first. The engine's wildcard characters in the
/// pattern keep their meaning. As for the full listing, every returned
/// row is live at `now` and access times never increase along the list.
#[verifier::external_body]
pub fn db_search(
    conn: &DbConn,
    pattern: &str,
    now: i64,
) -> (r: Result<Vec<RowValues>, String>)
    ensures
        r matches Ok(rows) ==> forall|k: int|
            0 <= k < rows.len() ==> live_at(#[trigger] rows[k].expires_at, now),
        r matches Ok(rows) ==> forall|a: int, b: int|
            0 <= a < b < rows.len() ==> #[trigger] rows[a].accessed_at >= #[trigger] rows[b].accessed_at,
{
    let mut stmt = conn.conn.prepare(search_sql()).map_err(|e| e.to_string())?;
    let mapped = stmt.query_map((pattern, now), read_row).map_err(|e| e.to_string())?;
    let mut out = Vec::new();
    for r in mapped {
        out.push(r.map_err(|e| e.to_string())?);
    }
    Ok(out)
}

/// Relies on `Connection::execute`: deletes the row with the given uri,
/// returning how many rows went (zero or one, the uri being unique;
/// nothing is promised of it).
#[verifier::external_body]
pub fn db_delete_uri(
    conn: &DbConn,
    uri: &str,
) -> (r: Result<usize, String>) {
    conn.conn.execute("DELETE FROM resources WHERE uri = ?1", (uri,)).map_err(|e| e.to_string())
}

/// Relies on `Connection::execute`: empties the resources table and the
/// analytics history.
#[verifier::external_body]
pub fn db_clear(conn: &DbConn) -> (r: Result<
    (),
    String,
>) {
    conn.conn.execute("DELETE FROM resources", ()).map_err(|e| e.to_string())?;
    conn.conn.execute("DELETE FROM cache_analytics", ()).map_err(|e| e.to_string())?;
    Ok(())
}

/// Relies on `Connection::execute`: deletes every row whose expiry stamp
/// exists and is at or before `now`, returning how many went.
#[verifier::external_body]
pub fn db_delete_expired(
    conn: &DbConn,
    now: i64,
) -> (r: Result<usize, String>) {
    conn.conn.execute(
        "DELETE FROM resources WHERE expires_at IS NOT NULL AND expires_at <= ?1",
        (now,),
    ).map_err(|e| e.to_string())
}

/// Relies on `Connection::query_row`: the sum of the recorded sizes over
/// all rows, swept or not — a physical footprint, zero when the table is
/// empty.
#[verifier::external_body]
pub fn db_sum_sizes(conn: &DbConn) -> (r:
    Result<i64, String>) {
    let conn = &conn.conn;
    conn.query_row(
        "SELECT COALESCE(SUM(size_bytes), 0) FROM resources",
        (),
        read_i64,
    ).map_err(|e| e.to_string())
}

/// Relies on `Connection::query_row`: how many rows the resources table
/// holds. A count is never negative.
#[verifier::external_body]
pub fn db_count_rows(conn: &DbConn) -> (r:
    Result<i64, String>)
    ensures
        r matches Ok(c) ==> c >= 0,
{
    let conn = &conn.conn;
    conn.query_row("SELECT COUNT(*) FROM resources", (), read_i64).map_err(|e| e.to_string())
}

/// Relies on `Connection::execute`: appends one immutable analytics
/// snapshot row; the hit rate and the size in megabytes are derived by
/// the engine from the integer counters handed in.
#[verifier::external_body]
pub fn db_insert_history(
    conn: &DbConn,
    timestamp: i64,
    hits: u64,
    total: u64,
    size_bytes: u64,
    evictions: u64,
) -> (r: Result<(), String>) {
    conn.conn.execute(
        history_sql(),
        (timestamp, hits as i64, total as i64, size_bytes as i64, evictions as i64),
    ).map_err(|e| e.to_string())?;
    Ok(())
}

/// Relies on `Connection::execute`: compacts the storage file, reclaiming
/// free space.
#[verifier::external_body]
pub fn db_vacuum(conn: &DbConn) -> (r: Result<
    (),
    String,
>) {
    conn.conn.execute("VACUUM", ()).map_err(|e| e.to_string())?;
    Ok(())
}

/// Relies on `chrono::Utc::now`: the current time in milliseconds since
/// the epoch. The clock is the machine's; nothing is promised of it.
#[verifier::external_body]
pub fn now_millis() -> (r: i64) {
    chrono::Utc::now().timestamp_millis()
}

/// Relies on `uuid::Uuid::new_v4`: a fresh random identifier in the
/// hyphenated textual form, which is 36 characters long.
#[verifier::external_body]
pub fn new_resource_id() -> (r: String)
    ensures
        r@.len() == 36,
{
    uuid::Uuid::new_v4().to_string()
}

} // verus!
