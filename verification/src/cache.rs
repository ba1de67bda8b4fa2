//! The time-windowed status cache.
//!
//! One slot remembers the last successful status fetch together with
//! whatever was derived from it, stamped with the monotonic time of the
//! fetch.  A read within the time-to-live window returns the slot; a
//! later read misses and the caller replaces the slot wholesale.  The
//! caller supplies the clock readings, so the decision itself is pure.

use vstd::prelude::*;

verus! {

/// How long a cached status stays fresh, in milliseconds.
pub const STATUS_CACHE_TTL_MS: u64 = 500;

/// The single cache slot: absent until the first successful fetch, then
/// always the latest fetch with its capture time.
pub struct StatusCache<T> {
    pub slot: Option<(u64, T)>,
}

/// Whether a slot captured at `at` is still fresh at `now`: the capture
/// does not lie in the future and no more than the time-to-live has
/// passed.
pub open spec fn fresh_at(at: u64, now: u64) -> bool {
    at <= now && now - at <= STATUS_CACHE_TTL_MS
}

impl<T> StatusCache<T> {
    /// An empty cache: every read misses until the first store.
    pub fn new() -> (r: StatusCache<T>)
        ensures
            r.slot is None,
    {
        StatusCache { slot: None }
    }

    /// Read the cache: the stored value exactly when the slot is filled
    /// and still fresh, nothing otherwise.  A `None` tells the caller to
    /// fetch from the backend.
    pub fn lookup(&self, now_ms: u64) -> (r: Option<&T>)
        ensures
            match r {
                Option::Some(v) => {
                    &&& self.slot matches Option::Some((at, stored)) && v == stored && fresh_at(
                        at,
                        now_ms,
                    )
                },
                Option::None => match self.slot {
                    Option::Some((at, _)) => !fresh_at(at, now_ms),
                    Option::None => true,
                },
            },
    {
        match &self.slot {
            Option::Some((at, stored)) => {
                if *at <= now_ms && now_ms - *at <= STATUS_CACHE_TTL_MS {
                    Some(stored)
                } else {
                    None
                }
            },
            Option::None => None,
        }
    }

    /// Replace the slot wholesale with a fresh capture; the previous
    /// content, fresh or stale, is discarded.
    pub fn store(&mut self, now_ms: u64, value: T)
        ensures
            final(self).slot matches Option::Some((at, stored)) && at == now_ms && stored
                == value,
    {
        self.slot = Some((now_ms, value));
    }
}

/// Within the time-to-live, a read after a store returns exactly the
/// stored value: the backend is not consulted again.
pub proof fn lemma_cache_hit_within_ttl<T>(cache: StatusCache<T>, stored_at: u64, now: u64)
    requires
        cache.slot matches Option::Some((at, _)) && at == stored_at,
        stored_at <= now,
        now - stored_at <= STATUS_CACHE_TTL_MS,
    ensures
        cache.slot matches Option::Some((at, _)) && fresh_at(at, now),
{
}

/// Once the time-to-live has elapsed, a read misses even though the
/// slot still holds the old capture: the caller must fetch anew.
pub proof fn lemma_cache_miss_after_ttl<T>(cache: StatusCache<T>, stored_at: u64, now: u64)
    requires
        cache.slot matches Option::Some((at, _)) && at == stored_at,
        now > stored_at + STATUS_CACHE_TTL_MS,
    ensures
        cache.slot matches Option::Some((at, _)) && !fresh_at(at, now),
{
}

} // verus!
