use hb::plan::{BenchOption, ConfigError};
use std::time::Duration;

fn quotas(count: u64, clients: usize) -> Vec<u64> {
    let opts = BenchOption::try_new(Some(count), None, clients, None).unwrap();
    let mut iter = opts.iter();
    let mut out = Vec::new();
    while let Some(q) = iter.next() {
        out.push(q);
    }
    out
}

#[test]
fn test_bench_option_iterator_exact_division() {
    let bench_option = BenchOption::try_new(Some(9), None, 3, None).unwrap();

    let mut iter = bench_option.iter();

    assert_eq!(iter.next(), Some(3));
    assert_eq!(iter.next(), Some(3));
    assert_eq!(iter.next(), Some(3));
    assert_eq!(iter.next(), None);
}

#[test]
fn test_bench_option_iterator() {
    let bench_option = BenchOption::try_new(Some(10), None, 3, None).unwrap();

    let mut iter = bench_option.iter();

    assert_eq!(iter.next(), Some(3));
    assert_eq!(iter.next(), Some(3));
    assert_eq!(iter.next(), Some(4));
    assert_eq!(iter.next(), None);
}

#[test]
fn test_bench_option_iterator_single_client() {
    let bench_option = BenchOption::try_new(Some(5), None, 1, None).unwrap();

    let mut iter = bench_option.iter();

    assert_eq!(iter.next(), Some(5));
    assert_eq!(iter.next(), None);
}

#[test]
fn test_bench_option_iterator_no_requests() {
    let bench_option = BenchOption::try_new(None, None, 3, None);
    assert!(bench_option.is_err());
}

#[test]
fn test_bench_option_iterator_zero_clients() {
    let bench_option = BenchOption::try_new(Some(5), None, 0, None);
    assert!(bench_option.is_err());
}

#[test]
fn test_bench_option_iterator_more_clients_than_requests() {
    let bench_option = BenchOption::try_new(Some(2), None, 5, None);
    assert!(bench_option.is_err());
}

#[test]
fn work_plan_examples() {
    assert_eq!(quotas(10, 3), vec![3, 3, 4]);
    assert_eq!(quotas(9, 3), vec![3, 3, 3]);
    assert_eq!(quotas(5, 1), vec![5]);
}

#[test]
fn work_plan_sums_to_total() {
    for n in 1..40u64 {
        for c in 1..=(n as usize) {
            let q = quotas(n, c);
            assert_eq!(q.len(), c);
            assert_eq!(q.iter().sum::<u64>(), n);
            for x in &q[..c - 1] {
                assert_eq!(*x, n / c as u64);
            }
            assert_eq!(q[c - 1], n - (c as u64 - 1) * (n / c as u64));
        }
    }
}

#[test]
fn work_plan_equal_clients_and_requests() {
    assert_eq!(quotas(4, 4), vec![1, 1, 1, 1]);
}

#[test]
fn work_plan_largest_count() {
    assert_eq!(quotas(u64::MAX, 2), vec![u64::MAX / 2, u64::MAX - u64::MAX / 2]);
}

#[test]
fn duration_mode_hands_out_no_quota() {
    let opts = BenchOption::try_new(None, Some(Duration::from_secs(5)), 2, Some(10)).unwrap();
    let mut iter = opts.iter();
    assert_eq!(iter.next(), None);
}

#[test]
fn bench_option_errors() {
    assert_eq!(
        BenchOption::try_new(Some(5), None, 0, None).unwrap_err(),
        ConfigError::NoClients
    );
    assert_eq!(
        BenchOption::try_new(Some(5), Some(Duration::from_secs(1)), 1, None).unwrap_err(),
        ConfigError::CountAndDuration
    );
    assert_eq!(
        BenchOption::try_new(None, None, 1, None).unwrap_err(),
        ConfigError::NoCountNorDuration
    );
    assert_eq!(
        BenchOption::try_new(Some(2), None, 5, None).unwrap_err(),
        ConfigError::MoreClientsThanRequests
    );
    assert_eq!(
        BenchOption::try_new(Some(5), None, 1, Some(0)).unwrap_err(),
        ConfigError::RpsBelowClients
    );
    assert_eq!(
        BenchOption::try_new(None, Some(Duration::from_secs(1)), 4, Some(3)).unwrap_err(),
        ConfigError::RpsBelowClients
    );
    assert!(BenchOption::try_new(Some(5), None, 4, Some(4)).is_ok());
}
