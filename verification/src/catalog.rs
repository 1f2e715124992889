//! Records that the catalog synchronisation works with. The catalog client
//! itself — HTTP, pagination, rate-limit retries — lives outside the
//! library; these are the plain values it produces.

use vstd::prelude::*;

verus! {

/// A catalog user: an author or submitter of a hack.
pub struct User {
    pub id: Option<u32>,
    pub name: String,
}

/// A catalog answer together with the rate-limit headers that came with it,
/// which the synchronisation uses to pace its next request.
pub struct RateLimitedResponse<T> {
    pub data: T,
    pub rate_limit_remaining: Option<u32>,
    pub rate_limit_reset: Option<u64>,
}

} // verus!
