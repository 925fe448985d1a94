use hb::bench::{
    classify_error, plan_workers, BenchError, ErrorPhase, Failure, Step, WorkerLoop, WorkerMode,
    WorkerPlan,
};
use hb::bucket::{Acquire, BucketError};
use hb::metrics::{DurationPoint, ErrorMetrics, RequestDurationSecondsMetrics};
use hb::plan::BenchOption;
use hb::format::format_percent;
use std::time::Duration;

const NO_FAILURE: Failure = Failure { timeout: false, connect: false, request: false, redirect: false };

/// Runs one worker against a transport that answers at once, on a simulated
/// clock; returns the statuses it saw and the time it finished.
fn run_worker(plan: &mut WorkerPlan, start: u64, status: u16) -> (Vec<u16>, u64) {
    let mut now = start;
    plan.begin(now);
    let mut lp = WorkerLoop::new(plan.mode);
    let mut seen = Vec::new();
    while lp.next_step(false, true) == Step::Issue {
        if let Some(b) = plan.bucket.as_mut() {
            loop {
                match b.try_acquire(now) {
                    Acquire::Granted => break,
                    Acquire::Wait(d) => now += d,
                }
            }
        }
        seen.push(status);
    }
    (seen, now)
}

fn duration_buckets() -> Vec<u64> {
    [0.001, 0.005, 0.01, 0.025, 0.05, 0.07, 0.1, 0.25, 0.5, 1.0, 5.0, 10.0]
        .iter()
        .map(|s: &f64| (s * 1e9).round() as u64)
        .collect()
}

#[test]
fn scenario_count_run_against_instant_stub() {
    let opts = BenchOption::try_new(Some(9), None, 3, None).unwrap();
    let mut plans = plan_workers(&opts, 0).unwrap();
    assert_eq!(plans.len(), 3);
    let mut statuses = Vec::new();
    for plan in plans.iter_mut() {
        let (seen, _) = run_worker(plan, 0, 200);
        statuses.extend(seen);
    }
    assert_eq!(statuses.len(), 9);
    assert!(statuses.iter().all(|s| *s == 200));

    let bounds = duration_buckets();
    let mut buckets = vec![0u64; bounds.len() + 1];
    buckets[0] = 9;
    let point = DurationPoint {
        status: Some("200".to_string()),
        count: 9,
        sum: 0,
        min: Some(0),
        max: Some(0),
        bounds,
        bucket_counts: buckets,
    };
    let m = RequestDurationSecondsMetrics::try_from_points(vec![point], 0, 0).unwrap();
    assert_eq!(m.count(), 9);
    assert_eq!(m.status_2xx_count(), 9);
    assert_eq!(m.http_success_rate(), 10_000);
    assert_eq!(format_percent(&m.http_success_rate()), "100.00%");
    assert!(ErrorMetrics::new(vec![]).error_messages().is_empty());
}

#[test]
fn scenario_rate_limited_run_takes_two_seconds() {
    let opts = BenchOption::try_new(Some(9), None, 3, Some(3)).unwrap();
    let mut plans = plan_workers(&opts, 0).unwrap();
    let mut finished = 0;
    let mut total = 0;
    for plan in plans.iter_mut() {
        assert_eq!(plan.bucket.as_ref().unwrap().fill_rate(), 1);
        let (seen, end) = run_worker(plan, 0, 200);
        total += seen.len();
        finished = finished.max(end);
    }
    assert_eq!(total, 9);
    assert!(finished >= 2_000_000_000);
}

#[test]
fn plans_follow_the_work_plan() {
    let opts = BenchOption::try_new(Some(10), None, 3, None).unwrap();
    let plans = plan_workers(&opts, 0).unwrap();
    let modes: Vec<WorkerMode> = plans.iter().map(|p| p.mode).collect();
    assert_eq!(
        modes,
        vec![WorkerMode::ByCount(3), WorkerMode::ByCount(3), WorkerMode::ByCount(4)]
    );
    assert!(plans.iter().all(|p| p.bucket.is_none()));
}

#[test]
fn plans_in_duration_mode() {
    let opts = BenchOption::try_new(None, Some(Duration::from_secs(2)), 2, Some(10)).unwrap();
    let plans = plan_workers(&opts, 7).unwrap();
    assert_eq!(plans.len(), 2);
    for p in &plans {
        assert_eq!(p.mode, WorkerMode::ByDuration);
        let b = p.bucket.as_ref().unwrap();
        assert_eq!(b.capacity(), 5);
        assert_eq!(b.tokens(), 0);
    }
}

#[test]
fn plans_refuse_bad_profiles() {
    let both = BenchOption {
        count: Some(4),
        duration: Some(Duration::from_secs(1)),
        clients: 2,
        rps: None,
    };
    assert_eq!(plan_workers(&both, 0).err(), Some(BenchError::NoStopCondition));
    let neither = BenchOption { count: None, duration: None, clients: 2, rps: None };
    assert_eq!(plan_workers(&neither, 0).err(), Some(BenchError::NoStopCondition));
    let slow = BenchOption { count: Some(4), duration: None, clients: 2, rps: Some(1) };
    assert_eq!(
        plan_workers(&slow, 0).err(),
        Some(BenchError::Bucket(BucketError::RpsBelowClients))
    );
    let none = BenchOption { count: Some(4), duration: None, clients: 0, rps: None };
    assert_eq!(plan_workers(&none, 0).err(), Some(BenchError::NoClients));
    let zero_and_duration = BenchOption {
        count: Some(0),
        duration: Some(Duration::from_secs(1)),
        clients: 0,
        rps: None,
    };
    assert_eq!(plan_workers(&zero_and_duration, 0).err(), Some(BenchError::NoStopCondition));
    let zero = BenchOption { count: Some(0), duration: None, clients: 1, rps: None };
    assert_eq!(plan_workers(&zero, 0).err(), Some(BenchError::NoStopCondition));
}

#[test]
fn cancellation_stops_the_loop() {
    let mut lp = WorkerLoop::new(WorkerMode::ByCount(5));
    assert_eq!(lp.next_step(false, false), Step::Issue);
    assert_eq!(lp.next_step(true, true), Step::Stop);
    assert_eq!(lp.issued, 1);
    let mut d = WorkerLoop::new(WorkerMode::ByDuration);
    assert_eq!(d.next_step(false, true), Step::Issue);
    assert_eq!(d.next_step(false, false), Step::Stop);
}

#[test]
fn duration_mode_resets_the_bucket_clock() {
    let opts = BenchOption::try_new(None, Some(Duration::from_secs(2)), 1, Some(1)).unwrap();
    let mut plans = plan_workers(&opts, 0).unwrap();
    let plan = &mut plans[0];
    plan.begin(50_000_000_000);
    let b = plan.bucket.as_mut().unwrap();
    assert_eq!(b.try_acquire(50_000_000_000), Acquire::Wait(1_000_000_000));
}

#[test]
fn error_classification() {
    let timeout = Failure { timeout: true, connect: true, ..NO_FAILURE };
    assert_eq!(classify_error(&timeout), ErrorPhase::Timeout);
    assert_eq!(classify_error(&timeout).as_str(), "timeout");
    let refused = Failure { connect: true, ..NO_FAILURE };
    assert_eq!(classify_error(&refused).as_str(), "connect");
    let request = Failure { request: true, redirect: true, ..NO_FAILURE };
    assert_eq!(classify_error(&request).as_str(), "request");
    let redirect = Failure { redirect: true, ..NO_FAILURE };
    assert_eq!(classify_error(&redirect).as_str(), "redirect");
    assert_eq!(classify_error(&NO_FAILURE).as_str(), "unknown");
}
