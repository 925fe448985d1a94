//! Decisions of the worker fleet: the plan each worker starts with, when a
//! worker issues its next request, and how a failed request is classified.
//! Spawning, the start barrier, sleeping and the network calls are done by
//! the caller, which reports back what happened.
use vstd::prelude::*;
use crate::bucket::{BucketError, TokenBucket};
use crate::plan::{plan_of, BenchOption};

verus! {

/// Why a run could not start.
#[derive(Debug, Clone, Copy, PartialEq, Eq, Structural)]
pub enum BenchError {
    /// Neither a (non-zero) request count nor a duration was given, or both.
    NoStopCondition,
    /// There are no workers.
    NoClients,
    /// The rate limiter could not be built.
    Bucket(BucketError),
}

/// How a worker decides that it is done.
#[derive(Debug, Clone, Copy, PartialEq, Eq, Structural)]
pub enum WorkerMode {
    /// Issue exactly this many requests.
    ByCount(u64),
    /// Issue requests until the run's duration has elapsed.
    ByDuration,
}

/// What one worker starts with: its stop condition and, when a rate is set,
/// its own token bucket.
#[derive(Clone)]
pub struct WorkerPlan {
    pub mode: WorkerMode,
    pub bucket: Option<TokenBucket>,
}

/// Whether a profile has exactly one stop condition: a non-zero request
/// count or a duration.
pub open spec fn has_stop_condition(count: Option<u64>, has_duration: bool) -> bool {
    match count {
        Some(c) => c > 0 && !has_duration,
        None => has_duration,
    }
}

/// A bucket in the state that `TokenBucket::try_new(rps, clients, now)`
/// builds.
pub open spec fn fresh_bucket(b: TokenBucket, rps: u64, clients: usize, now: u64) -> bool {
    &&& b.wf()
    &&& b.spec_capacity() == rps / (clients as u64)
    &&& b.spec_fill_rate() == rps / (clients as u64)
    &&& b.spec_tokens() == 0
    &&& b.spec_last_refill() == now
    &&& b.spec_granted() == 0
    &&& b.spec_since() == now
    &&& b.spec_base() == 0
}

/// Plans the fleet of a run started at `now`: one plan per client, with the
/// quotas of the work plan in count mode, and a fresh token bucket per worker
/// when a rate is set. Fails before any worker starts when the profile has no
/// single stop condition or its rate cannot be split across the workers.
pub fn plan_workers(opts: &BenchOption, now: u64) -> (r: Result<Vec<WorkerPlan>, BenchError>)
    ensures
        !has_stop_condition(opts.count, opts.duration is Some) ==> r == Err::<
            Vec<WorkerPlan>,
            BenchError,
        >(BenchError::NoStopCondition),
        has_stop_condition(opts.count, opts.duration is Some) && opts.clients == 0 ==> r == Err::<
            Vec<WorkerPlan>,
            BenchError,
        >(BenchError::NoClients),
        has_stop_condition(opts.count, opts.duration is Some) && opts.clients > 0 && opts.rps is Some
            && (opts.rps->0 as int) < (opts.clients as int) ==> r == Err::<
            Vec<WorkerPlan>,
            BenchError,
        >(BenchError::Bucket(BucketError::RpsBelowClients)),
        r is Ok <==> has_stop_condition(opts.count, opts.duration is Some) && opts.clients > 0 && (
        opts.rps is Some ==> opts.rps->0 >= opts.clients),
        r matches Ok(v) ==> {
            let quotas = plan_of(
                match opts.count {
                    Some(c) => c as nat,
                    None => 0,
                },
                opts.clients as nat,
            );
            &&& v.len() == opts.clients
            &&& forall|i: int|
                0 <= i < v.len() ==> {
                    &&& (#[trigger] v@[i]).mode == if quotas.len() > 0 {
                        WorkerMode::ByCount(quotas[i] as u64)
                    } else {
                        WorkerMode::ByDuration
                    }
                    &&& match opts.rps {
                        None => v@[i].bucket is None,
                        Some(rps) => (v@[i].bucket matches Some(b) && fresh_bucket(
                            b,
                            rps,
                            opts.clients,
                            now,
                        )),
                    }
                }
        },
{
    let mut plans: Vec<WorkerPlan> = Vec::new();
    let with_count = match opts.count {
        Some(c) => c > 0,
        None => false,
    };
    let stop_ok = match opts.count {
        Some(c) => c > 0 && opts.duration.is_none(),
        None => opts.duration.is_some(),
    };
    if !stop_ok {
        return Err(BenchError::NoStopCondition);
    }
    if opts.clients == 0 {
        return Err(BenchError::NoClients);
    }
    let mut quotas = opts.iter();
    let ghost all = quotas@;
    proof {
        assert(with_count == (all.len() > 0));
    }
    let mut i: usize = 0;
    while i < opts.clients
        invariant
            opts.clients > 0,
            i <= opts.clients,
            plans.len() == i,
            quotas.wf(),
            with_count == (all.len() > 0),
            all == plan_of(
                match opts.count {
                    Some(c) => c as nat,
                    None => 0,
                },
                opts.clients as nat,
            ),
            with_count ==> all.len() == opts.clients && quotas@ == all.subrange(
                i as int,
                all.len() as int,
            ),
            i > 0 && opts.rps is Some ==> opts.rps->0 >= opts.clients,
            has_stop_condition(opts.count, opts.duration is Some),
            forall|j: int|
                0 <= j < i ==> {
                    &&& (#[trigger] plans@[j]).mode == if with_count {
                        WorkerMode::ByCount(all[j] as u64)
                    } else {
                        WorkerMode::ByDuration
                    }
                    &&& match opts.rps {
                        None => plans@[j].bucket is None,
                        Some(rps) => (plans@[j].bucket matches Some(b) && fresh_bucket(
                            b,
                            rps,
                            opts.clients,
                            now,
                        )),
                    }
                },
        decreases opts.clients - i,
    {
        let mode = if with_count {
            let ghost before = quotas@;
            let q = quotas.next();
            proof {
                assert(before.len() > 0);
                assert(before[0] == all[i as int]);
                assert(quotas@ =~= all.subrange(i + 1, all.len() as int));
            }
            match q {
                Some(c) => WorkerMode::ByCount(c),
                None => WorkerMode::ByDuration,
            }
        } else {
            WorkerMode::ByDuration
        };
        let bucket = match opts.rps {
            None => None,
            Some(rps) => match TokenBucket::try_new(rps, opts.clients, now) {
                Ok(b) => Some(b),
                Err(e) => {
                    return Err(BenchError::Bucket(e));
                },
            },
        };
        plans.push(WorkerPlan { mode, bucket });
        i = i + 1;
    }
    Ok(plans)
}

/// The next thing a worker does.
#[derive(Debug, Clone, Copy, PartialEq, Eq, Structural)]
pub enum Step {
    /// Issue one more request (after taking a token, if the worker has a bucket).
    Issue,
    /// The worker is done.
    Stop,
}

/// The loop state of one worker: its stop condition and how many requests it
/// has issued.
#[derive(Debug, Clone, Copy, PartialEq, Eq, Structural)]
pub struct WorkerLoop {
    pub mode: WorkerMode,
    pub issued: u64,
}

impl WorkerLoop {
    pub fn new(mode: WorkerMode) -> (r: WorkerLoop)
        ensures
            r.mode == mode,
            r.issued == 0,
    {
        WorkerLoop { mode, issued: 0 }
    }

    /// Decides, before each iteration, whether to issue another request.
    /// Cancellation is observed here and only here. In count mode the worker
    /// stops after its quota; in duration mode it stops once `in_time` (the
    /// run's elapsed time is below its duration) no longer holds.
    pub fn next_step(&mut self, cancelled: bool, in_time: bool) -> (r: Step)
        ensures
            final(self).mode == old(self).mode,
            r == Step::Issue <==> !cancelled && match old(self).mode {
                WorkerMode::ByCount(q) => old(self).issued < q,
                WorkerMode::ByDuration => in_time,
            },
            final(self).issued == if r == Step::Issue && old(self).issued < u64::MAX {
                old(self).issued + 1
            } else {
                old(self).issued as int
            },
    {
        let go = !cancelled && match self.mode {
            WorkerMode::ByCount(q) => self.issued < q,
            WorkerMode::ByDuration => in_time,
        };
        if go {
            if self.issued < u64::MAX {
                self.issued = self.issued + 1;
            }
            Step::Issue
        } else {
            Step::Stop
        }
    }
}

impl WorkerPlan {
    /// Called once when the worker's loop starts at `now`: in duration mode
    /// the bucket's clock restarts so that no tokens accrue during setup.
    pub fn begin(&mut self, now: u64)
        requires
            old(self).bucket matches Some(b) ==> b.wf(),
        ensures
            final(self).mode == old(self).mode,
            match (old(self).bucket, final(self).bucket) {
                (None, None) => true,
                (Some(b0), Some(b1)) => if old(self).mode == WorkerMode::ByDuration {
                    &&& b1.wf()
                    &&& b1.spec_tokens() == b0.spec_tokens()
                    &&& b1.spec_capacity() == b0.spec_capacity()
                    &&& b1.spec_fill_rate() == b0.spec_fill_rate()
                    &&& b1.spec_last_refill() == now
                    &&& b1.spec_granted() == 0
                    &&& b1.spec_since() == now
                    &&& b1.spec_base() == b0.spec_tokens()
                } else {
                    b1 == b0
                },
                _ => false,
            },
    {
        if self.mode == WorkerMode::ByDuration {
            match &mut self.bucket {
                Some(b) => b.update(now),
                None => {},
            }
        }
    }
}

/// The label under which a failed request is counted.
#[derive(Debug, Clone, Copy, PartialEq, Eq, Structural)]
pub enum ErrorPhase {
    Timeout,
    Connect,
    Request,
    Redirect,
    Unknown,
}

/// What the transport reported about a failed request.
#[derive(Debug, Clone, Copy, PartialEq, Eq, Structural)]
pub struct Failure {
    /// The request timed out.
    pub timeout: bool,
    /// The connection could not be established.
    pub connect: bool,
    /// The request could not be built or sent.
    pub request: bool,
    /// The redirect policy was violated.
    pub redirect: bool,
}

pub open spec fn phase_of(f: Failure) -> ErrorPhase {
    if f.timeout {
        ErrorPhase::Timeout
    } else if f.connect {
        ErrorPhase::Connect
    } else if f.request {
        ErrorPhase::Request
    } else if f.redirect {
        ErrorPhase::Redirect
    } else {
        ErrorPhase::Unknown
    }
}

/// Classifies a failed request, in priority order timeout, connect,
/// request, redirect, and unknown for anything else.
pub fn classify_error(f: &Failure) -> (r: ErrorPhase)
    ensures
        r == phase_of(*f),
{
    if f.timeout {
        ErrorPhase::Timeout
    } else if f.connect {
        ErrorPhase::Connect
    } else if f.request {
        ErrorPhase::Request
    } else if f.redirect {
        ErrorPhase::Redirect
    } else {
        ErrorPhase::Unknown
    }
}

pub open spec fn phase_name(p: ErrorPhase) -> Seq<char> {
    match p {
        ErrorPhase::Timeout => seq!['t', 'i', 'm', 'e', 'o', 'u', 't'],
        ErrorPhase::Connect => seq!['c', 'o', 'n', 'n', 'e', 'c', 't'],
        ErrorPhase::Request => seq!['r', 'e', 'q', 'u', 'e', 's', 't'],
        ErrorPhase::Redirect => seq!['r', 'e', 'd', 'i', 'r', 'e', 'c', 't'],
        ErrorPhase::Unknown => seq!['u', 'n', 'k', 'n', 'o', 'w', 'n'],
    }
}

impl ErrorPhase {
    /// The phase's label as recorded in the error counter.
    pub fn as_str(&self) -> (r: &'static str)
        ensures
            r@ == phase_name(*self),
    {
        proof {
            reveal_strlit("timeout");
            reveal_strlit("connect");
            reveal_strlit("request");
            reveal_strlit("redirect");
            reveal_strlit("unknown");
        }
        match self {
            ErrorPhase::Timeout => "timeout",
            ErrorPhase::Connect => "connect",
            ErrorPhase::Request => "request",
            ErrorPhase::Redirect => "redirect",
            ErrorPhase::Unknown => "unknown",
        }
    }
}

} // verus!
