//! Splitting a fixed number of requests across a fleet of workers.
use vstd::prelude::*;

verus! {

use std::time::Duration;

/// Why a load profile was refused.
#[derive(Debug, Clone, Copy, PartialEq, Eq, Structural)]
pub enum ConfigError {
    /// `clients` was zero.
    NoClients,
    /// Both a request count and a duration were given.
    CountAndDuration,
    /// Neither a request count nor a duration was given.
    NoCountNorDuration,
    /// More clients than requests were asked for.
    MoreClientsThanRequests,
    /// A rate was given that is zero or below the number of clients.
    RpsBelowClients,
}

/// The load profile of one run: a request count or a duration, the number of
/// concurrent workers, and an optional aggregate request rate.
#[derive(Debug, Clone)]
pub struct BenchOption {
    pub count: Option<u64>,
    pub duration: Option<Duration>,
    pub clients: usize,
    pub rps: Option<u64>,
}

/// The sizes of the `c` quotas that `n` requests are split into: `c - 1`
/// quotas of `n / c` and a last one that takes the remainder.
pub open spec fn work_plan(n: nat, c: nat) -> Seq<nat> {
    Seq::new(c, |i: int| if i + 1 < c { n / c } else { (n - (c - 1) * (n / c)) as nat })
}

/// The sum of a sequence of naturals.
pub open spec fn total_of(s: Seq<nat>) -> nat
    decreases s.len(),
{
    if s.len() == 0 {
        0
    } else {
        total_of(s.drop_last()) + s.last()
    }
}

/// What a fresh iterator of `BenchOption` hands out, for a profile whose
/// count is `count` (zero when no count was given).
pub open spec fn plan_of(count: nat, clients: nat) -> Seq<nat> {
    if count == 0 {
        Seq::empty()
    } else {
        work_plan(count, clients)
    }
}

impl BenchOption {
    /// The profile is usable: workers exist, exactly one stop condition is
    /// set, and a count leaves every worker at least one request.
    pub open spec fn wf(&self) -> bool {
        &&& self.clients > 0
        &&& self.count is Some != self.duration is Some
        &&& (self.count is Some ==> self.clients <= self.count->0)
        &&& (self.rps is Some ==> self.rps->0 > 0 && self.rps->0 >= self.clients)
    }

    pub fn try_new(
        count: Option<u64>,
        duration: Option<Duration>,
        clients: usize,
        rps: Option<u64>,
    ) -> (r: Result<BenchOption, ConfigError>)
        ensures
            clients == 0 ==> r == Err::<BenchOption, ConfigError>(ConfigError::NoClients),
            clients > 0 && count is Some && duration is Some ==> r == Err::<BenchOption, ConfigError>(
                ConfigError::CountAndDuration,
            ),
            clients > 0 && count is None && duration is None ==> r == Err::<BenchOption, ConfigError>(
                ConfigError::NoCountNorDuration,
            ),
            clients > 0 && duration is None && count is Some && clients > count->0 ==> r == Err::<
                BenchOption,
                ConfigError,
            >(ConfigError::MoreClientsThanRequests),
            clients > 0 && count is Some != duration is Some && (count is Some ==> clients
                <= count->0) && rps is Some && (rps->0 == 0 || rps->0 < clients) ==> r == Err::<
                BenchOption,
                ConfigError,
            >(ConfigError::RpsBelowClients),
            r is Ok <==> (clients > 0 && count is Some != duration is Some && (count is Some
                ==> clients <= count->0) && (rps is Some ==> rps->0 > 0 && rps->0 >= clients)),
            r matches Ok(o) ==> o.wf() && o.count == count && o.duration == duration && o.clients
                == clients && o.rps == rps,
    {
        if clients == 0 {
            return Err(ConfigError::NoClients);
        }
        if count.is_some() && duration.is_some() {
            return Err(ConfigError::CountAndDuration);
        }
        if count.is_none() && duration.is_none() {
            return Err(ConfigError::NoCountNorDuration);
        }
        if let Some(c) = count {
            if clients as u64 > c {
                return Err(ConfigError::MoreClientsThanRequests);
            }
        }
        if let Some(r) = rps {
            if r == 0 || r < clients as u64 {
                return Err(ConfigError::RpsBelowClients);
            }
        }
        Ok(BenchOption { count, duration, clients, rps })
    }

    /// A cursor over the per-worker quotas of this profile. In duration mode
    /// (no count) it hands out nothing.
    pub fn iter(&self) -> (r: BenchOptionIterator)
        requires
            self.clients > 0,
        ensures
            r.wf(),
            r@ == plan_of(
                match self.count {
                    Some(c) => c as nat,
                    None => 0,
                },
                self.clients as nat,
            ),
    {
        let count: u64 = match self.count {
            Some(c) => c,
            None => 0,
        };
        let clients_left: usize = if count == 0 {
            0
        } else {
            self.clients
        };
        let chunk_size: u64 = count / self.clients as u64;
        let r = BenchOptionIterator { remaining: count, chunk_size, clients_left };
        proof {
            let n = count as nat;
            let c = self.clients as nat;
            if count != 0 {
                assert(chunk_size == n / c);
                assert((c - 1) * (n / c) <= c * (n / c)) by (nonlinear_arith)
                    requires
                        c > 0,
                ;
                assert(c * (n / c) <= n) by (nonlinear_arith)
                    requires
                        c > 0,
                ;
                assert(r@ =~= plan_of(n, c));
            } else {
                assert(r@ =~= plan_of(n, c));
            }
        }
        r
    }
}

/// A cursor over the quotas of a run: each pull hands the next worker its
/// share, and the last worker takes the remainder.
#[derive(Debug, Clone)]
pub struct BenchOptionIterator {
    remaining: u64,
    chunk_size: u64,
    clients_left: usize,
}

impl View for BenchOptionIterator {
    type V = Seq<nat>;

    /// The quotas still to be handed out, in order.
    closed spec fn view(&self) -> Seq<nat> {
        let k = self.clients_left as nat;
        let q = self.chunk_size as nat;
        Seq::new(
            k,
            |i: int| if i + 1 < k { q } else { (self.remaining - (k - 1) * q) as nat },
        )
    }
}

impl BenchOptionIterator {
    /// The remainder left for the last worker covers the quotas before it.
    pub closed spec fn wf(&self) -> bool {
        self.clients_left > 0 ==> self.remaining >= (self.clients_left - 1) * self.chunk_size
    }

    /// Hands out the next quota, or `None` once every worker has had one.
    pub fn next(&mut self) -> (r: Option<u64>)
        requires
            old(self).wf(),
        ensures
            final(self).wf(),
            old(self)@.len() == 0 ==> r is None && final(self)@ == old(self)@,
            old(self)@.len() > 0 ==> r == Some(old(self)@[0] as u64) && final(self)@
                == old(self)@.drop_first(),
    {
        if self.clients_left == 0 {
            return None;
        }
        let ghost before = self@;
        self.clients_left = self.clients_left - 1;
        if self.clients_left == 0 {
            let next = self.remaining;
            self.remaining = 0;
            proof {
                assert(before.len() == 1);
                assert((before.len() - 1) * (self.chunk_size as nat) == 0) by (nonlinear_arith)
                    requires
                        before.len() == 1,
                ;
                assert(before[0] == next as nat);
                assert(self@ =~= before.drop_first());
            }
            Some(next)
        } else {
            let chunk = self.chunk_size;
            proof {
                let k = self.clients_left as nat;
                assert(k * chunk >= chunk) by (nonlinear_arith)
                    requires
                        k >= 1,
                ;
            }
            self.remaining = self.remaining - chunk;
            proof {
                let k = self.clients_left as nat;
                assert((k - 1) * chunk + chunk == k * chunk) by (nonlinear_arith);
                assert(before[0] == chunk as nat);
                assert(self@ =~= before.drop_first());
            }
            Some(chunk)
        }
    }
}

/// Sum of a sequence that repeats `q` for `k` entries and ends with `last`.
proof fn lemma_total_of_repeated(k: nat, q: nat, last: nat)
    ensures
        total_of(Seq::new(k + 1, |i: int| if i < k { q } else { last })) == k * q + last,
    decreases k,
{
    let s = Seq::new(k + 1, |i: int| if i < k { q } else { last });
    assert(s.last() == last);
    assert(total_of(s) == total_of(s.drop_last()) + last);
    if k == 0 {
        assert(s.drop_last() =~= Seq::<nat>::empty());
        assert(total_of(Seq::<nat>::empty()) == 0);
    } else {
        let j = (k - 1) as nat;
        lemma_total_of_repeated(j, q, q);
        assert(s.drop_last() =~= Seq::new(j + 1, |i: int| if i < j { q } else { q }));
        assert(k * q == j * q + q) by (nonlinear_arith)
            requires
                j + 1 == k,
        ;
    }
}

/// For every request count `n` and worker count `c` with `0 < c <= n`, the
/// `c` quotas add up to exactly `n`; each of the first `c - 1` is `n / c`
/// and the last is the remainder `n - (c - 1) * (n / c)`.
pub proof fn lemma_work_plan_is_exact(n: nat, c: nat)
    requires
        0 < c <= n,
    ensures
        work_plan(n, c).len() == c,
        total_of(work_plan(n, c)) == n,
        forall|i: int| 0 <= i < c - 1 ==> #[trigger] work_plan(n, c)[i] == n / c,
        work_plan(n, c)[c - 1] == n - (c - 1) * (n / c),
{
    let k = (c - 1) as nat;
    let q = n / c;
    assert(k * q <= c * q) by (nonlinear_arith)
        requires
            k <= c,
    ;
    assert(c * q <= n) by (nonlinear_arith)
        requires
            c > 0,
            q == n / c,
    ;
    let last = (n - k * q) as nat;
    lemma_total_of_repeated(k, q, last);
    assert(work_plan(n, c) =~= Seq::new(k + 1, |i: int| if i < k { q } else { last }));
}

} // verus!
