//! In-memory cache analytics.
//!
//! Request counters update synchronously on every read; size and count
//! fields are approximate until a reconciliation pass recomputes them from
//! the store. The hit rate is the exact ratio of hits to requests, exposed
//! in millionths to keep the arithmetic exact; it is zero while no request
//! has been made.

use vstd::prelude::*;

verus! {

/// One more, saturating at the type's maximum.
pub open spec fn sat_inc(x: u64) -> u64 {
    if x == u64::MAX {
        x
    } else {
        (x + 1) as u64
    }
}

/// Saturating addition.
pub open spec fn sat_add(x: u64, y: u64) -> u64 {
    if x + y > u64::MAX {
        u64::MAX
    } else {
        (x + y) as u64
    }
}

/// Saturating subtraction.
pub open spec fn sat_sub(x: u64, y: u64) -> u64 {
    if x >= y {
        (x - y) as u64
    } else {
        0
    }
}

/// Saturating addition, executably.
pub fn sat_add_u64(x: u64, y: u64) -> (r: u64)
    ensures
        r == sat_add(x, y),
{
    if x > u64::MAX - y {
        u64::MAX
    } else {
        x + y
    }
}

/// Saturating subtraction, executably.
pub fn sat_sub_u64(x: u64, y: u64) -> (r: u64)
    ensures
        r == sat_sub(x, y),
{
    if x >= y {
        x - y
    } else {
        0
    }
}

/// Cache analytics and performance counters.
pub struct CacheAnalytics {
    /// Total cache read requests.
    pub total_requests: u64,
    /// Reads that found a live resource.
    pub cache_hits: u64,
    /// Reads that found nothing live.
    pub cache_misses: u64,
    /// Total size of cached resources in bytes; approximate until
    /// reconciled.
    pub cache_size_bytes: u64,
    /// Number of cached resources; approximate until reconciled.
    pub resource_count: u64,
    /// Number of expired resources evicted so far.
    pub eviction_count: u64,
    /// When expired resources were last cleaned up, in milliseconds since
    /// the epoch.
    pub last_cleanup_ms: i64,
}

/// How analytics change when a read hits: the request and hit counters
/// step together (stopping at the counter type's end), everything else
/// stays.
pub open spec fn hit_recorded(pre: CacheAnalytics, post: CacheAnalytics) -> bool {
    &&& post.total_requests == sat_inc(pre.total_requests)
    &&& post.cache_hits == (if pre.total_requests == u64::MAX {
        pre.cache_hits
    } else {
        sat_inc(pre.cache_hits)
    })
    &&& post.cache_misses == pre.cache_misses
    &&& post.cache_size_bytes == pre.cache_size_bytes
    &&& post.resource_count == pre.resource_count
    &&& post.eviction_count == pre.eviction_count
    &&& post.last_cleanup_ms == pre.last_cleanup_ms
}

/// How analytics change when a read misses.
pub open spec fn miss_recorded(pre: CacheAnalytics, post: CacheAnalytics) -> bool {
    &&& post.total_requests == sat_inc(pre.total_requests)
    &&& post.cache_misses == (if pre.total_requests == u64::MAX {
        pre.cache_misses
    } else {
        sat_inc(pre.cache_misses)
    })
    &&& post.cache_hits == pre.cache_hits
    &&& post.cache_size_bytes == pre.cache_size_bytes
    &&& post.resource_count == pre.resource_count
    &&& post.eviction_count == pre.eviction_count
    &&& post.last_cleanup_ms == pre.last_cleanup_ms
}

impl CacheAnalytics {
    /// Every read is a hit or a miss: the counters add up.
    pub open spec fn wf(&self) -> bool {
        self.cache_hits + self.cache_misses == self.total_requests
    }

    /// Fresh analytics: all counters at zero.
    pub fn new(now_ms: i64) -> (r: Self)
        ensures
            r.total_requests == 0,
            r.cache_hits == 0,
            r.cache_misses == 0,
            r.cache_size_bytes == 0,
            r.resource_count == 0,
            r.eviction_count == 0,
            r.last_cleanup_ms == now_ms,
            r.wf(),
    {
        CacheAnalytics {
            total_requests: 0,
            cache_hits: 0,
            cache_misses: 0,
            cache_size_bytes: 0,
            resource_count: 0,
            eviction_count: 0,
            last_cleanup_ms: now_ms,
        }
    }

    /// Counts one read that hit.
    pub fn record_hit(&mut self)
        requires
            old(self).wf(),
        ensures
            final(self).wf(),
            hit_recorded(*old(self), *final(self)),
    {
        if self.total_requests < u64::MAX {
            self.total_requests = self.total_requests + 1;
            self.cache_hits = self.cache_hits + 1;
        }
    }

    /// Counts one read that missed.
    pub fn record_miss(&mut self)
        requires
            old(self).wf(),
        ensures
            final(self).wf(),
            miss_recorded(*old(self), *final(self)),
    {
        if self.total_requests < u64::MAX {
            self.total_requests = self.total_requests + 1;
            self.cache_misses = self.cache_misses + 1;
        }
    }

    /// The hit rate in millionths: `hits / total_requests` scaled by one
    /// million, or zero while no request has been made.
    pub open spec fn hit_rate_millionths_spec(&self) -> int {
        if self.total_requests == 0 {
            0
        } else {
            (self.cache_hits * 1_000_000) / (self.total_requests as int)
        }
    }

    /// The hit rate in millionths, exactly.
    pub fn hit_rate_millionths(&self) -> (r: u64)
        requires
            self.wf(),
        ensures
            r == self.hit_rate_millionths_spec(),
            r <= 1_000_000,
    {
        if self.total_requests == 0 {
            0
        } else {
            let scaled: u128 = (self.cache_hits as u128) * 1_000_000;
            let rate: u128 = scaled / (self.total_requests as u128);
            proof {
                assert(self.cache_hits <= self.total_requests);
                assert(self.cache_hits * 1_000_000 <= self.total_requests * 1_000_000) by (
                nonlinear_arith)
                    requires
                        self.cache_hits <= self.total_requests,
                ;
                assert((self.cache_hits * 1_000_000) / (self.total_requests as int) <= (
                self.total_requests * 1_000_000) / (self.total_requests as int)) by (
                nonlinear_arith)
                    requires
                        self.cache_hits * 1_000_000 <= self.total_requests * 1_000_000,
                        self.total_requests > 0,
                ;
                assert((self.total_requests * 1_000_000) / (self.total_requests as int)
                    == 1_000_000) by (nonlinear_arith)
                    requires
                        self.total_requests > 0,
                ;
            }
            rate as u64
        }
    }
}

/// The hit rate is safe at the edges: it is zero while nothing has been
/// requested, and a sole hit without misses makes it exactly one.
pub proof fn lemma_hit_rate_edges(a: CacheAnalytics)
    requires
        a.wf(),
    ensures
        a.total_requests == 0 ==> a.hit_rate_millionths_spec() == 0,
        a.cache_hits == 1 && a.cache_misses == 0 ==> a.hit_rate_millionths_spec() == 1_000_000,
{
    if a.total_requests != 0 && a.cache_hits == 1 && a.cache_misses == 0 {
        assert(a.total_requests == 1);
        assert(a.hit_rate_millionths_spec() == 1_000_000 as int / 1int);
    }
}

} // verus!
