//! Per-worker token bucket. Time is read by the caller: every operation that
//! depends on the clock takes the current reading of a monotonic clock in
//! nanoseconds.
use vstd::prelude::*;

verus! {

/// Nanoseconds in one second; one token is held as this many nano-tokens.
pub const NANOS_PER_SEC: u64 = 1_000_000_000;

/// Why a token bucket could not be built.
#[derive(Debug, Clone, Copy, PartialEq, Eq, Structural)]
pub enum BucketError {
    /// The number of clients was zero.
    NoClients,
    /// The aggregate rate was below the number of clients (this covers a
    /// rate of zero), so a worker would get no token per second.
    RpsBelowClients,
}

/// What a worker should do after asking the bucket for a token.
#[derive(Debug, Clone, Copy, PartialEq, Eq, Structural)]
pub enum Acquire {
    /// A token was taken: the request may go out now.
    Granted,
    /// No token was available: sleep this many nanoseconds, then ask again.
    Wait(u64),
}

/// A token bucket whose capacity and fill rate are both `floor(rps / clients)`
/// tokens per second. Tokens are counted in nano-tokens so that partial
/// refills are kept exactly.
#[derive(Clone)]
pub struct TokenBucket {
    capacity: u64,
    fill_rate: u64,
    tokens: i128,
    last_refill: u64,
    /// Tokens granted since the clock was last started.
    granted: Ghost<nat>,
    /// When the clock was last started.
    since: Ghost<int>,
    /// The balance when the clock was last started.
    base: Ghost<int>,
}

/// The number of nano-tokens after refilling `tokens` for `elapsed`
/// nanoseconds at `rate` tokens per second, capped at `capacity` tokens.
pub open spec fn refilled(tokens: int, elapsed: int, rate: int, capacity: int) -> int {
    let full = capacity * NANOS_PER_SEC;
    if tokens + elapsed * rate >= full {
        full
    } else {
        tokens + elapsed * rate
    }
}

/// Nanoseconds since `since` on a clock that now reads `now` (zero if the
/// reading is older).
pub open spec fn elapsed_since(now: u64, since: u64) -> int {
    if now >= since {
        now - since
    } else {
        0
    }
}

impl TokenBucket {
    pub closed spec fn spec_capacity(&self) -> u64 {
        self.capacity
    }

    pub closed spec fn spec_fill_rate(&self) -> u64 {
        self.fill_rate
    }

    /// Current tokens, in nano-tokens.
    pub closed spec fn spec_tokens(&self) -> int {
        self.tokens as int
    }

    pub closed spec fn spec_last_refill(&self) -> u64 {
        self.last_refill
    }

    /// Tokens granted since the clock was last started (by `try_new` or
    /// `update`).
    pub closed spec fn spec_granted(&self) -> nat {
        self.granted@
    }

    /// The clock reading at which the clock was last started.
    pub closed spec fn spec_since(&self) -> int {
        self.since@
    }

    /// The balance, in nano-tokens, when the clock was last started.
    pub closed spec fn spec_base(&self) -> int {
        self.base@
    }

    /// Capacity equals the fill rate and is at least one token; a token is
    /// taken whenever more than zero remain, so the balance stays above minus
    /// one token and never exceeds the capacity.
    pub closed spec fn wf(&self) -> bool {
        &&& self.capacity == self.fill_rate
        &&& self.fill_rate >= 1
        &&& -(NANOS_PER_SEC as int) < self.tokens <= self.capacity * NANOS_PER_SEC
        &&& self.tokens + NANOS_PER_SEC * self.granted@ <= self.base@ + self.fill_rate * (
        self.last_refill - self.since@)
    }

    /// Builds the bucket of one of `clients` workers that share `rps` requests
    /// per second. It starts empty, with its refill clock started at `now`.
    pub fn try_new(rps: u64, clients: usize, now: u64) -> (r: Result<TokenBucket, BucketError>)
        ensures
            clients == 0 ==> r == Err::<TokenBucket, BucketError>(BucketError::NoClients),
            clients > 0 && rps < clients ==> r == Err::<TokenBucket, BucketError>(
                BucketError::RpsBelowClients,
            ),
            r is Ok <==> clients > 0 && rps > 0 && rps >= clients,
            r matches Ok(b) ==> {
                &&& b.wf()
                &&& b.spec_capacity() == rps / (clients as u64)
                &&& b.spec_fill_rate() == rps / (clients as u64)
                &&& b.spec_tokens() == 0
                &&& b.spec_last_refill() == now
                &&& b.spec_granted() == 0
                &&& b.spec_since() == now
                &&& b.spec_base() == 0
            },
    {
        if clients == 0 {
            return Err(BucketError::NoClients);
        }
        if rps < clients as u64 {
            return Err(BucketError::RpsBelowClients);
        }
        let rate: u64 = rps / clients as u64;
        proof {
            assert(rate >= 1) by (nonlinear_arith)
                requires
                    rps >= clients,
                    clients > 0,
                    rate == rps / (clients as u64),
            ;
        }
        Ok(
            TokenBucket {
                capacity: rate,
                fill_rate: rate,
                tokens: 0,
                last_refill: now,
                granted: Ghost(0),
                since: Ghost(now as int),
                base: Ghost(0),
            },
        )
    }

    /// Maximum number of whole tokens the bucket holds.
    pub fn capacity(&self) -> (r: u64)
        ensures
            r == self.spec_capacity(),
    {
        self.capacity
    }

    /// Tokens added per second.
    pub fn fill_rate(&self) -> (r: u64)
        ensures
            r == self.spec_fill_rate(),
    {
        self.fill_rate
    }

    /// Current balance in nano-tokens.
    pub fn tokens(&self) -> (r: i128)
        ensures
            r == self.spec_tokens(),
    {
        self.tokens
    }

    /// Restarts the refill clock at `now` without touching the balance, so
    /// that time spent before `now` earns no tokens.
    pub fn update(&mut self, now: u64)
        requires
            old(self).wf(),
        ensures
            final(self).wf(),
            final(self).spec_last_refill() == now,
            final(self).spec_tokens() == old(self).spec_tokens(),
            final(self).spec_capacity() == old(self).spec_capacity(),
            final(self).spec_fill_rate() == old(self).spec_fill_rate(),
            final(self).spec_granted() == 0,
            final(self).spec_since() == now,
            final(self).spec_base() == old(self).spec_tokens(),
    {
        self.last_refill = now;
        self.granted = Ghost(0);
        self.since = Ghost(now as int);
        self.base = Ghost(self.tokens as int);
    }

    /// One attempt to take a token at time `now`: first refill for the time
    /// since the last refill (capped at the capacity), then take one token if
    /// any balance is left, else ask the caller to wait `1 / fill_rate` seconds
    /// and try again.
    pub fn try_acquire(&mut self, now: u64) -> (r: Acquire)
        requires
            old(self).wf(),
        ensures
            final(self).wf(),
            final(self).spec_capacity() == old(self).spec_capacity(),
            final(self).spec_fill_rate() == old(self).spec_fill_rate(),
            final(self).spec_since() == old(self).spec_since(),
            final(self).spec_base() == old(self).spec_base(),
            final(self).spec_granted() == old(self).spec_granted() + if r == Acquire::Granted {
                1nat
            } else {
                0nat
            },
            ({
                let e = elapsed_since(now, old(self).spec_last_refill());
                let t = refilled(
                    old(self).spec_tokens(),
                    e,
                    old(self).spec_fill_rate() as int,
                    old(self).spec_capacity() as int,
                );
                &&& final(self).spec_last_refill() == if e > 0 {
                    now
                } else {
                    old(self).spec_last_refill()
                }
                &&& t > 0 ==> r == Acquire::Granted && final(self).spec_tokens() == t
                    - NANOS_PER_SEC
                &&& t <= 0 ==> r == Acquire::Wait(NANOS_PER_SEC / old(self).spec_fill_rate())
                    && final(self).spec_tokens() == t
            }),
    {
        let elapsed: u64 = if now >= self.last_refill {
            now - self.last_refill
        } else {
            0
        };
        let ghost t0 = self.tokens as int;
        proof {
            assert(elapsed as int * self.fill_rate as int <= u64::MAX as int * u64::MAX as int)
                by (nonlinear_arith)
                requires
                    elapsed <= u64::MAX,
                    self.fill_rate <= u64::MAX,
            ;
            assert(self.capacity as int * NANOS_PER_SEC as int <= u64::MAX as int
                * NANOS_PER_SEC as int) by (nonlinear_arith)
                requires
                    self.capacity <= u64::MAX,
            ;
        }
        let added: u128 = elapsed as u128 * self.fill_rate as u128;
        let ghost old_last = self.last_refill as int;
        if added > 0 {
            let full: i128 = self.capacity as i128 * NANOS_PER_SEC as i128;
            let headroom: u128 = (full - self.tokens) as u128;
            if added >= headroom {
                self.tokens = full;
            } else {
                self.tokens = self.tokens + added as i128;
            }
            self.last_refill = now;
        }
        proof {
            assert(added > 0 <==> elapsed > 0) by (nonlinear_arith)
                requires
                    added == elapsed as int * self.fill_rate as int,
                    self.fill_rate >= 1,
            ;
        }
        proof {
            assert(elapsed as int * self.fill_rate as int == added);
            if added > 0 {
                assert(self.last_refill == old_last + elapsed);
                assert(self.fill_rate * (self.last_refill - self.since@) == self.fill_rate * (
                old_last - self.since@) + added) by (nonlinear_arith)
                    requires
                        self.last_refill == old_last + elapsed,
                        added == elapsed * self.fill_rate,
                ;
            }
            assert(self.tokens + NANOS_PER_SEC * self.granted@ <= self.base@ + self.fill_rate * (
            self.last_refill - self.since@));
        }
        if self.tokens > 0 {
            self.tokens = self.tokens - NANOS_PER_SEC as i128;
            self.granted = Ghost(self.granted@ + 1);
            Acquire::Granted
        } else {
            Acquire::Wait(NANOS_PER_SEC / self.fill_rate)
        }
    }
}

/// Having waited at least `1 / fill_rate` seconds since the last refill, a
/// worker is granted a token at once, whatever its balance was.
pub proof fn lemma_wait_grants_token(b: TokenBucket, now: u64)
    requires
        b.wf(),
        elapsed_since(now, b.spec_last_refill()) * b.spec_fill_rate() >= NANOS_PER_SEC,
    ensures
        refilled(
            b.spec_tokens(),
            elapsed_since(now, b.spec_last_refill()),
            b.spec_fill_rate() as int,
            b.spec_capacity() as int,
        ) > 0,
{
    assert(b.spec_capacity() * NANOS_PER_SEC >= NANOS_PER_SEC) by (nonlinear_arith)
        requires
            b.spec_capacity() >= 1,
    ;
}

/// Tokens take time: once the clock was started at `since` with a balance of
/// `base` nano-tokens, `g` grants need `(g - 1)` tokens' worth of refill, so
/// `(g - 1) * 10^9 < base + fill_rate * (last_refill - since)`. An empty
/// bucket at one token per second grants its third token no sooner than two
/// seconds after its clock started.
pub proof fn lemma_grants_take_time(b: TokenBucket)
    requires
        b.wf(),
    ensures
        NANOS_PER_SEC * (b.spec_granted() - 1) < b.spec_base() + b.spec_fill_rate() * (
        b.spec_last_refill() - b.spec_since()),
{
}

} // verus!
