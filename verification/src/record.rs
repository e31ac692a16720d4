//! Cached resources: boundary values, persisted rows, and the pure logic
//! that builds a row at store time and reconstructs a resource at read
//! time.
//!
//! Expiry is a read-time filter: a row is live while its expiry stamp is
//! absent or still in the future; an expired-but-unswept row stays on disk
//! but is invisible to reads. A resource's encoding is resolved with the
//! precedence: the reserved metadata key first, else a charset parameter
//! of the content-type, else absent.

use vstd::prelude::*;

verus! {

use crate::CacheError;
use crate::charset::{parse_charset, parse_charset_spec};
use crate::meta::{
    MetaEntry,
    clone_string,
    enc_meta,
    parse_meta_spec,
    lookup_spec,
    upsert_spec,
    encode_metadata,
    decode_metadata,
    metadata_get,
    metadata_upsert,
    lemma_lookup_after_upsert,
    lemma_lookup_other_after_upsert,
};

/// Descriptive information about a resource.
pub struct ResourceInfo {
    /// The resource's URI, its unique business key.
    pub uri: String,
    /// An optional display name.
    pub name: Option<String>,
    /// An optional description.
    pub description: Option<String>,
    /// An optional MIME content type.
    pub mime_type: Option<String>,
    /// Free-form metadata entries.
    pub metadata: Vec<MetaEntry>,
}

/// A resource as handed across the cache's boundary.
pub struct ResourceContent {
    /// Descriptive information.
    pub info: ResourceInfo,
    /// The content bytes.
    pub data: Vec<u8>,
    /// An optional explicit text encoding.
    pub encoding: Option<String>,
}

/// A cached resource as reconstructed from the store.
pub struct CachedResource {
    /// Unique cache entry id.
    pub id: String,
    /// The resource's URI.
    pub uri: String,
    /// The content bytes.
    pub content: Vec<u8>,
    /// The MIME content type, if any.
    pub content_type: Option<String>,
    /// The metadata entries; empty when the stored blob was malformed.
    pub metadata: Vec<MetaEntry>,
    /// When the resource was first cached, in milliseconds since the
    /// epoch.
    pub created_at: i64,
    /// When the resource was last read, in milliseconds since the epoch.
    pub accessed_at: i64,
    /// When the resource expires, if ever, in milliseconds since the
    /// epoch.
    pub expires_at: Option<i64>,
    /// How many times the resource has been read.
    pub access_count: u64,
    /// The content's size in bytes as recorded at write time.
    pub size_bytes: u64,
}

/// The plain column values of one stored row, as exchanged with the
/// storage engine.
pub struct RowValues {
    pub id: String,
    pub uri: String,
    pub content: Vec<u8>,
    pub content_type: Option<String>,
    pub metadata_blob: String,
    pub created_at: i64,
    pub accessed_at: i64,
    pub expires_at: Option<i64>,
    pub access_count: i64,
    pub size_bytes: i64,
}

/// The reserved metadata key that carries a resource's encoding.
pub open spec fn encoding_key() -> Seq<char> {
    seq!['e', 'n', 'c', 'o', 'd', 'i', 'n', 'g']
}

/// The metadata key that carries a resource's name.
pub open spec fn name_key() -> Seq<char> {
    seq!['n', 'a', 'm', 'e']
}

/// The metadata key that carries a resource's description.
pub open spec fn description_key() -> Seq<char> {
    seq!['d', 'e', 's', 'c', 'r', 'i', 'p', 't', 'i', 'o', 'n']
}

/// Whether a row is visible to reads at the given time: no expiry stamp,
/// or one still in the future.
pub open spec fn live_at(expires_at: Option<i64>, now: i64) -> bool {
    match expires_at {
        None => true,
        Some(e) => e > now,
    }
}

/// Whether a row is visible to reads at the given time.
pub fn is_live(expires_at: &Option<i64>, now: i64) -> (r: bool)
    ensures
        r == live_at(*expires_at, now),
{
    match expires_at {
        None => true,
        Some(e) => *e > now,
    }
}

/// Whether the expiry stamp for a store at `now` with the given
/// time-to-live can be represented: the time-to-live itself and the sum
/// must both fit a signed millisecond stamp.
pub open spec fn expiry_ok(now: i64, ttl_ms: u64) -> bool {
    ttl_ms == 0 || (ttl_ms <= i64::MAX && now + ttl_ms <= i64::MAX)
}

/// The expiry stamp for a store at `now`: none for the zero time-to-live,
/// which means the resource never expires, else `now` plus the
/// time-to-live.
pub open spec fn expiry_of(now: i64, ttl_ms: u64) -> Option<i64> {
    if ttl_ms == 0 {
        None
    } else {
        Some((now + ttl_ms) as i64)
    }
}

/// The metadata entries as stored: the explicit encoding, when one is
/// given, folded in under the reserved key.
pub open spec fn folded_meta(meta: Seq<(Seq<char>, Seq<char>)>, enc: Option<Seq<char>>) -> Seq<
    (Seq<char>, Seq<char>),
> {
    match enc {
        Some(e) => upsert_spec(meta, encoding_key(), e),
        None => meta,
    }
}

/// The encoding resolved at read time: the reserved metadata key first,
/// else a charset parameter of the content-type, else absent.
pub open spec fn resolved_encoding(
    meta: Seq<(Seq<char>, Seq<char>)>,
    content_type: Option<Seq<char>>,
) -> Option<Seq<char>> {
    match lookup_spec(meta, encoding_key()) {
        Some(e) => Some(e),
        None => match content_type {
            Some(ct) => parse_charset_spec(ct),
            None => None,
        },
    }
}

/// The decoded metadata entries of a blob, or no entries when the blob is
/// malformed.
pub open spec fn meta_or_empty(blob: Seq<char>) -> Seq<(Seq<char>, Seq<char>)> {
    match parse_meta_spec(blob) {
        Some(es) => es,
        None => Seq::empty(),
    }
}

/// Copies an optional string.
fn clone_opt_string(s: &Option<String>) -> (r: Option<String>)
    ensures
        r.deep_view() == s.deep_view(),
{
    match s {
        Some(v) => Some(clone_string(v)),
        None => None,
    }
}

/// Copies a byte vector.
fn clone_bytes(b: &Vec<u8>) -> (r: Vec<u8>)
    ensures
        r@ == b@,
{
    let mut out: Vec<u8> = Vec::new();
    let mut i: usize = 0;
    while i < b.len()
        invariant
            i <= b@.len(),
            out@ == b@.subrange(0, i as int),
        decreases b@.len() - i,
    {
        out.push(b[i]);
        proof {
            assert(out@ =~= b@.subrange(0, i + 1));
        }
        i = i + 1;
    }
    proof {
        assert(b@.subrange(0, b@.len() as int) == b@);
    }
    out
}

/// Copies metadata entries.
fn clone_entries(entries: &Vec<MetaEntry>) -> (r: Vec<MetaEntry>)
    ensures
        r.deep_view() == entries.deep_view(),
{
    let mut out: Vec<MetaEntry> = Vec::new();
    let mut i: usize = 0;
    proof {
        assert(out.deep_view() =~= entries.deep_view().subrange(0, 0));
    }
    while i < entries.len()
        invariant
            i <= entries.len(),
            out.deep_view() == entries.deep_view().subrange(0, i as int),
        decreases entries.len() - i,
    {
        let e = &entries[i];
        let ghost pre = out.deep_view();
        out.push(MetaEntry { key: clone_string(&e.key), value: clone_string(&e.value) });
        proof {
            assert(out.deep_view() =~= pre.push((e.key@, e.value@)));
            assert(e.deep_view() == entries.deep_view()[i as int]);
            assert(entries.deep_view().subrange(0, i + 1) =~= pre.push(
                entries.deep_view()[i as int],
            ));
        }
        i = i + 1;
    }
    proof {
        assert(entries.deep_view().subrange(0, entries.deep_view().len() as int)
            == entries.deep_view());
    }
    out
}

/// Builds the row that stores `resource` at time `now_ms` under the fresh
/// id: the explicit encoding is folded into the metadata blob, the expiry
/// stamp is computed from the time-to-live (zero meaning never), and the
/// recorded size is the content's byte length. Fails with a `Validation`
/// error exactly when the expiry stamp cannot be represented.
pub fn build_row(resource: &ResourceContent, ttl_ms: u64, now_ms: i64, id: String) -> (r: Result<
    RowValues,
    CacheError,
>)
    ensures
        r is Ok <==> expiry_ok(now_ms, ttl_ms),
        r matches Err(e) ==> e is Validation,
        r matches Ok(row) ==> {
            &&& row.id@ == id@
            &&& row.uri@ == resource.info.uri@
            &&& row.content@ == resource.data@
            &&& row.content_type.deep_view() == resource.info.mime_type.deep_view()
            &&& row.metadata_blob@ == enc_meta(
                folded_meta(resource.info.metadata.deep_view(), resource.encoding.deep_view()),
            )
            &&& row.created_at == now_ms
            &&& row.accessed_at == now_ms
            &&& row.expires_at == expiry_of(now_ms, ttl_ms)
            &&& row.access_count == 1
            &&& row.size_bytes == (if resource.data@.len() <= i64::MAX {
                resource.data@.len() as int
            } else {
                i64::MAX as int
            })
        },
{
    let expires_at: Option<i64> = if ttl_ms == 0 {
        None
    } else {
        if ttl_ms > i64::MAX as u64 {
            return Err(CacheError::Validation(String::from_str("invalid time-to-live")));
        }
        let ttl_signed = ttl_ms as i64;
        if now_ms > i64::MAX - ttl_signed {
            return Err(CacheError::Validation(String::from_str("invalid time-to-live")));
        }
        Some(now_ms + ttl_signed)
    };
    let folded = match &resource.encoding {
        Some(enc) => {
            let folded = metadata_upsert(&resource.info.metadata, "encoding", enc.as_str());
            proof {
                reveal_strlit("encoding");
                assert("encoding"@ =~= encoding_key());
            }
            folded
        },
        None => clone_entries(&resource.info.metadata),
    };
    let metadata_blob = encode_metadata(&folded);
    let n = resource.data.len();
    let size_bytes: i64 = if (n as u64) <= i64::MAX as u64 {
        n as i64
    } else {
        i64::MAX
    };
    Ok(
        RowValues {
            id,
            uri: clone_string(&resource.info.uri),
            content: clone_bytes(&resource.data),
            content_type: clone_opt_string(&resource.info.mime_type),
            metadata_blob,
            created_at: now_ms,
            accessed_at: now_ms,
            expires_at,
            access_count: 1,
            size_bytes,
        },
    )
}

/// The boundary value `c` is the faithful reconstruction of the stored
/// row: same uri, content bytes and content-type; metadata decoded from
/// the blob; name and description from their metadata keys; the encoding
/// resolved with its precedence.
pub open spec fn reconstructed(c: ResourceContent, row: RowValues) -> bool {
    &&& c.info.uri@ == row.uri@
    &&& c.info.metadata.deep_view() == meta_or_empty(row.metadata_blob@)
    &&& c.info.name.deep_view() == lookup_spec(meta_or_empty(row.metadata_blob@), name_key())
    &&& c.info.description.deep_view() == lookup_spec(
        meta_or_empty(row.metadata_blob@),
        description_key(),
    )
    &&& c.info.mime_type.deep_view() == row.content_type.deep_view()
    &&& c.data@ == row.content@
    &&& c.encoding.deep_view() == resolved_encoding(
        meta_or_empty(row.metadata_blob@),
        row.content_type.deep_view(),
    )
}

/// Reconstructs the boundary value of a row read by `get`: metadata is
/// decoded strictly (a malformed blob is a `Storage` error), the name and
/// description come from their metadata keys, and the encoding is
/// resolved with its precedence.
pub fn row_to_content(row: &RowValues) -> (r: Result<ResourceContent, CacheError>)
    ensures
        r is Ok <==> parse_meta_spec(row.metadata_blob@) is Some,
        r matches Err(e) ==> e is Storage,
        r matches Ok(c) ==> reconstructed(c, *row),
{
    let metadata = match decode_metadata(row.metadata_blob.as_str()) {
        Some(m) => m,
        None => {
            return Err(CacheError::Storage(String::from_str("failed to parse metadata")));
        },
    };
    let name = metadata_get(&metadata, "name");
    proof {
        reveal_strlit("name");
        assert("name"@ =~= name_key());
    }
    let description = metadata_get(&metadata, "description");
    proof {
        reveal_strlit("description");
        assert("description"@ =~= description_key());
    }
    let encoding = resolve_encoding(&metadata, &row.content_type);
    Ok(
        ResourceContent {
            info: ResourceInfo {
                uri: clone_string(&row.uri),
                name,
                description,
                mime_type: clone_opt_string(&row.content_type),
                metadata,
            },
            data: clone_bytes(&row.content),
            encoding,
        },
    )
}

/// Resolves a resource's encoding: the reserved metadata key first, else
/// a charset parameter of the content-type, else absent.
pub fn resolve_encoding(metadata: &Vec<MetaEntry>, content_type: &Option<String>) -> (r: Option<
    String,
>)
    ensures
        r.deep_view() == resolved_encoding(metadata.deep_view(), content_type.deep_view()),
{
    let from_meta = metadata_get(metadata, "encoding");
    proof {
        reveal_strlit("encoding");
        assert("encoding"@ =~= encoding_key());
    }
    match from_meta {
        Some(e) => Some(e),
        None => match content_type {
            Some(ct) => parse_charset(ct.as_str()),
            None => None,
        },
    }
}

/// The listed value `r` is the permissive reconstruction of the stored
/// row: every column carried over, the metadata decoded (or empty when
/// the blob is malformed), and the counters clamped to be non-negative.
pub open spec fn listed_record(r: CachedResource, row: RowValues) -> bool {
    &&& r.id@ == row.id@
    &&& r.uri@ == row.uri@
    &&& r.content@ == row.content@
    &&& r.content_type.deep_view() == row.content_type.deep_view()
    &&& r.metadata.deep_view() == meta_or_empty(row.metadata_blob@)
    &&& r.created_at == row.created_at
    &&& r.accessed_at == row.accessed_at
    &&& r.expires_at == row.expires_at
    &&& r.access_count == clamp_count(row.access_count)
    &&& r.size_bytes == clamp_count(row.size_bytes)
}

/// The value is the faithful listed reconstruction of some stored row.
pub open spec fn listed_from_some_row(rec: CachedResource) -> bool {
    exists|row: RowValues| #[trigger] listed_record(rec, row)
}

/// Every element of the list is the faithful listed reconstruction of
/// some stored row.
pub open spec fn all_listed(list: Seq<CachedResource>) -> bool {
    forall|k: int| 0 <= k < list.len() ==> #[trigger] listed_from_some_row(list[k])
}

/// Reconstructs a listed row permissively: a malformed metadata blob
/// yields the resource with no metadata entries.
pub fn row_to_record(row: &RowValues) -> (r: CachedResource)
    ensures
        listed_record(r, *row),
{
    let metadata = match decode_metadata(row.metadata_blob.as_str()) {
        Some(m) => m,
        None => {
            let empty: Vec<MetaEntry> = Vec::new();
            proof {
                assert(empty.deep_view() =~= Seq::<(Seq<char>, Seq<char>)>::empty());
            }
            empty
        },
    };
    let access_count: u64 = if row.access_count >= 0 {
        row.access_count as u64
    } else {
        0
    };
    let size_bytes: u64 = if row.size_bytes >= 0 {
        row.size_bytes as u64
    } else {
        0
    };
    CachedResource {
        id: clone_string(&row.id),
        uri: clone_string(&row.uri),
        content: clone_bytes(&row.content),
        content_type: clone_opt_string(&row.content_type),
        metadata,
        created_at: row.created_at,
        accessed_at: row.accessed_at,
        expires_at: row.expires_at,
        access_count,
        size_bytes,
    }
}

/// A stored access count as a reader sees it: never negative.
pub open spec fn clamp_count(c: i64) -> u64 {
    if c >= 0 {
        c as u64
    } else {
        0
    }
}

/// A resource stored with the zero time-to-live never expires: the row
/// carries no expiry stamp and is live at every later time.
pub proof fn lemma_zero_ttl_never_expires(now_ms: i64, read_ms: i64)
    ensures
        expiry_of(now_ms, 0) is None,
        live_at(expiry_of(now_ms, 0), read_ms),
{
}

/// A resource stored with a positive time-to-live is invisible to reads
/// from the moment its time-to-live has fully elapsed.
pub proof fn lemma_ttl_expiry(now_ms: i64, ttl_ms: u64, read_ms: i64)
    requires
        ttl_ms > 0,
        expiry_ok(now_ms, ttl_ms),
        read_ms >= now_ms + ttl_ms,
    ensures
        !live_at(expiry_of(now_ms, ttl_ms), read_ms),
{
}

/// A resource stored with a positive time-to-live is still visible to
/// reads strictly before its expiry stamp.
pub proof fn lemma_ttl_not_yet_expired(now_ms: i64, ttl_ms: u64, read_ms: i64)
    requires
        ttl_ms > 0,
        expiry_ok(now_ms, ttl_ms),
        read_ms < now_ms + ttl_ms,
    ensures
        live_at(expiry_of(now_ms, ttl_ms), read_ms),
{
}

/// Storing then reading a resource round-trips: the stored metadata blob
/// decodes back to the folded entries; the encoding resolved at read
/// time is the explicit encoding when one was stored, else an `encoding`
/// entry the caller's metadata already carried, else the content-type's
/// charset; and folding the encoding in leaves every other key — the
/// name and description among them — as it was.
pub proof fn lemma_round_trip(
    meta: Seq<(Seq<char>, Seq<char>)>,
    enc: Option<Seq<char>>,
    content_type: Option<Seq<char>>,
)
    ensures
        meta_or_empty(enc_meta(folded_meta(meta, enc))) == folded_meta(meta, enc),
        enc matches Some(e) ==> resolved_encoding(folded_meta(meta, enc), content_type) == Some(e),
        enc is None && lookup_spec(meta, encoding_key()) is Some ==> resolved_encoding(
            folded_meta(meta, enc),
            content_type,
        ) == lookup_spec(meta, encoding_key()),
        enc is None && lookup_spec(meta, encoding_key()) is None ==> resolved_encoding(
            folded_meta(meta, enc),
            content_type,
        ) == (match content_type {
            Some(ct) => parse_charset_spec(ct),
            None => None,
        }),
        lookup_spec(folded_meta(meta, enc), name_key()) == lookup_spec(meta, name_key()),
        lookup_spec(folded_meta(meta, enc), description_key()) == lookup_spec(
            meta,
            description_key(),
        ),
{
    crate::meta::lemma_metadata_round_trip(folded_meta(meta, enc));
    match enc {
        Some(e) => {
            lemma_lookup_after_upsert(meta, encoding_key(), e);
            assert(name_key() != encoding_key());
            assert(description_key() != encoding_key());
            lemma_lookup_other_after_upsert(meta, encoding_key(), e, name_key());
            lemma_lookup_other_after_upsert(meta, encoding_key(), e, description_key());
        },
        None => {},
    }
}

} // verus!
