//! The public REST endpoints and the response cache policy.

use vstd::prelude::*;
use vstd::string::*;
use crate::utils::elapsed_since;

verus! {

/// The cached kinds of public data.
#[derive(Clone, Copy, PartialEq, Eq, Structural)]
pub enum CacheType {
    Price,
    Market,
    Fees,
    Network,
    Supply,
    Dag,
}

/// The endpoint that serves each kind.
pub open spec fn endpoint_of(kind: CacheType) -> Seq<char> {
    match kind {
        CacheType::Price => "https://api.kaspa.org/info/price"@,
        CacheType::Market => "https://api.kaspa.org/info/marketcap"@,
        CacheType::Fees => "https://api.kaspa.org/info/fee-estimate"@,
        CacheType::Network => "https://api.kaspa.org/info/hashrate"@,
        CacheType::Supply => "https://api.kaspa.org/info/coinsupply"@,
        CacheType::Dag => "https://api.kaspa.org/info/blockdag"@,
    }
}

impl CacheType {
    /// The endpoint of this kind.
    pub fn endpoint(&self) -> (r: &'static str)
        ensures
            r@ == endpoint_of(*self),
    {
        match self {
            CacheType::Price => "https://api.kaspa.org/info/price",
            CacheType::Market => "https://api.kaspa.org/info/marketcap",
            CacheType::Fees => "https://api.kaspa.org/info/fee-estimate",
            CacheType::Network => "https://api.kaspa.org/info/hashrate",
            CacheType::Supply => "https://api.kaspa.org/info/coinsupply",
            CacheType::Dag => "https://api.kaspa.org/info/blockdag",
        }
    }
}

/// How long (in nanoseconds) a cached response is served: one minute.
pub const CACHE_TTL_NANOS: u64 = 60_000_000_000;

/// A response stored at `stored_at` may still be served at `now`.
pub open spec fn is_fresh(stored_at: u64, now: u64) -> bool {
    elapsed_since(stored_at, now) < CACHE_TTL_NANOS
}

/// Serve the cached response (stored at `stored_at`, if there is one) at
/// time `now`, or fetch anew? Times are nanoseconds on a monotonic clock.
pub fn serve_from_cache(stored_at: Option<u64>, now: u64) -> (r: bool)
    ensures
        r == (stored_at matches Some(t) && is_fresh(t, now)),
{
    match stored_at {
        Some(t) => {
            let elapsed = if now >= t {
                now - t
            } else {
                0
            };
            elapsed < CACHE_TTL_NANOS
        },
        None => false,
    }
}

/// The endpoint with the balance of `addr`.
pub fn balance_url(addr: &str) -> (r: String)
    ensures
        r@ == "https://api.kaspa.org/addresses/"@ + addr@ + "/balance"@,
{
    let mut r = String::from_str("https://api.kaspa.org/addresses/");
    r.append(addr);
    r.append("/balance");
    r
}

/// The endpoint with the details (block hashes) of transaction `tx`.
pub fn transaction_url(tx: &str) -> (r: String)
    ensures
        r@ == "https://api.kaspa.org/transactions/"@ + tx@,
{
    let mut r = String::from_str("https://api.kaspa.org/transactions/");
    r.append(tx);
    r
}

} // verus!
