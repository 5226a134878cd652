//! The caches of a server and their limits.
use vstd::prelude::*;

verus! {

/// The caches of a server.
#[derive(Debug, Clone, Copy, PartialEq, Eq, Structural)]
pub enum CacheKind {
    /// Targets of challenges, by prefix.
    Challenge,
    /// Responses by track id.
    Get,
    /// Responses by metadata.
    GetMetadata,
    /// Search results.
    Search,
}

/// How long entries of a cache live and how many there can be.
#[derive(Debug, Clone, Copy, PartialEq, Eq, Structural)]
pub struct CacheLimits {
    /// Seconds after which an entry expires.
    pub time_to_live: Option<u64>,
    /// Seconds without use after which an entry expires.
    pub time_to_idle: Option<u64>,
    /// How many entries are kept.
    pub max_capacity: u64,
}

/// The limits of each cache: challenges expire after five minutes, responses
/// by track id after a week, search results after a day or four hours without
/// use, and responses by metadata never.
pub fn cache_limits(kind: CacheKind) -> (limits: CacheLimits)
    ensures
        limits == (match kind {
            CacheKind::Challenge => CacheLimits {
                time_to_live: Some(300),
                time_to_idle: None,
                max_capacity: 500000,
            },
            CacheKind::Get => CacheLimits {
                time_to_live: Some(604800),
                time_to_idle: None,
                max_capacity: 10000000,
            },
            CacheKind::GetMetadata => CacheLimits {
                time_to_live: None,
                time_to_idle: None,
                max_capacity: 5000000,
            },
            CacheKind::Search => CacheLimits {
                time_to_live: Some(86400),
                time_to_idle: Some(14400),
                max_capacity: 5000000,
            },
        }),
{
    match kind {
        CacheKind::Challenge => CacheLimits {
            time_to_live: Some(60 * 5),
            time_to_idle: None,
            max_capacity: 500000,
        },
        CacheKind::Get => CacheLimits {
            time_to_live: Some(60 * 60 * 24 * 7),
            time_to_idle: None,
            max_capacity: 10000000,
        },
        CacheKind::GetMetadata => CacheLimits {
            time_to_live: None,
            time_to_idle: None,
            max_capacity: 5000000,
        },
        CacheKind::Search => CacheLimits {
            time_to_live: Some(60 * 60 * 24),
            time_to_idle: Some(60 * 60 * 4),
            max_capacity: 5000000,
        },
    }
}

} // verus!
