//! The process-wide admission limiter: a quota of characters accepted per minute.

use vstd::prelude::*;

verus! {

/// The limiter type of the outside crate that the quota is kept in.
type DirectLimiter = governor::RateLimiter<
    governor::state::NotKeyed,
    governor::state::InMemoryState,
    governor::clock::DefaultClock,
    governor::middleware::NoOpMiddleware,
>;

/// Holds the outside crate's limiter, whose type Verus cannot declare (its bounds name the
/// crate's own traits).
#[verifier::external_body]
pub struct GovernorLimiter {
    inner: DirectLimiter,
}

/// The burst size a limiter was made with: the most cells it admits in one check.
pub uninterp spec fn limiter_burst(l: GovernorLimiter) -> nat;

/// Relies on `governor::Quota::per_minute` and `governor::RateLimiter::direct`: a limiter that
/// allows `per_minute` cells per minute, all of them in one burst.
#[verifier::external_body]
fn new_direct_limiter(per_minute: u32) -> (r: GovernorLimiter)
    requires
        per_minute >= 1,
    ensures
        limiter_burst(r) == per_minute,
{
    let n = std::num::NonZeroU32::new(per_minute).unwrap_or(std::num::NonZeroU32::MIN);
    GovernorLimiter { inner: governor::RateLimiter::direct(governor::Quota::per_minute(n)) }
}

/// Relies on `governor::RateLimiter::check_n`: whether `n` cells are allowed now, which they are
/// counted against when they are. The answer depends on the time and on earlier calls. A batch
/// above the burst size would overflow the crate's time arithmetic, so it is never asked for.
#[verifier::external_body]
fn limiter_check_n(limiter: &GovernorLimiter, n: u32) -> (r: bool)
    requires
        1 <= n <= limiter_burst(*limiter),
{
    let n = std::num::NonZeroU32::new(n).unwrap_or(std::num::NonZeroU32::MIN);
    limiter.inner.check_n(n).is_ok()
}

/// A quota of characters per minute, shared by all submissions of the process.
pub struct AdmissionLimiter {
    limiter: GovernorLimiter,
    per_minute: u32,
}

/// The number of quota cells a text of `len` bytes costs: its length, and at least one.
pub open spec fn quota_cost(len: nat) -> nat {
    if len == 0 {
        1
    } else {
        len
    }
}

/// The number of quota cells a text of `len` bytes costs, when it can be counted at all.
pub fn quota_cells(len: usize) -> (r: Option<u32>)
    ensures
        r == (if quota_cost(len as nat) > u32::MAX {
            None
        } else {
            Some(quota_cost(len as nat) as u32)
        }),
{
    if len == 0 {
        Some(1)
    } else if len > u32::MAX as usize {
        None
    } else {
        Some(len as u32)
    }
}

impl AdmissionLimiter {
    #[verifier::type_invariant]
    spec fn wf(&self) -> bool {
        limiter_burst(self.limiter) == self.per_minute && self.per_minute >= 1
    }

    /// The number of characters allowed per minute.
    pub closed spec fn quota(&self) -> nat {
        self.per_minute as nat
    }

    /// A limiter that accepts `per_minute` characters per minute.
    pub fn new(per_minute: u32) -> (r: AdmissionLimiter)
        requires
            per_minute >= 1,
        ensures
            r.quota() == per_minute,
    {
        AdmissionLimiter { limiter: new_direct_limiter(per_minute), per_minute }
    }

    /// The number of characters allowed per minute.
    pub fn per_minute(&self) -> (r: u32)
        ensures
            r == self.quota(),
    {
        self.per_minute
    }

    /// Asks to consume the quota for a text of `len` bytes: `quota_cells(len)` cells. `None`
    /// when the text is too large to be counted at all; `Some(false)` without asking when it is
    /// larger than a whole minute's quota; otherwise whether the limiter admitted it now.
    pub fn try_consume(&self, len: usize) -> (r: Option<bool>)
        ensures
            r is None <==> quota_cost(len as nat) > u32::MAX,
            quota_cost(len as nat) <= u32::MAX && quota_cost(len as nat) > self.quota() ==> r
                == Some(false),
    {
        proof {
            use_type_invariant(self);
        }
        match quota_cells(len) {
            None => None,
            Some(cells) => {
                if cells > self.per_minute {
                    Some(false)
                } else {
                    Some(limiter_check_n(&self.limiter, cells))
                }
            },
        }
    }
}

} // verus!
