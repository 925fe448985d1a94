use hb::metrics::{
    status_key, DurationPoint, ErrorMetrics, ErrorPoint, MetricsError,
    RequestDurationSecondsMetrics, ResponseSizeBytesMetrics, SizePoint, StartTimeMetrics,
    StatusClass,
};

fn point(status: &str, count: u64, sum: u64, min: u64, max: u64, buckets: Vec<u64>) -> DurationPoint {
    DurationPoint {
        status: Some(status.to_string()),
        count,
        sum,
        min: Some(min),
        max: Some(max),
        bounds: vec![1_000_000_000, 2_000_000_000],
        bucket_counts: buckets,
    }
}

#[test]
fn status_classes() {
    assert_eq!(status_key("200"), Some(StatusClass::S2xx));
    assert_eq!(status_key("299"), Some(StatusClass::S2xx));
    assert_eq!(status_key("301"), Some(StatusClass::S3xx));
    assert_eq!(status_key("404"), Some(StatusClass::S4xx));
    assert_eq!(status_key("503"), Some(StatusClass::S5xx));
    assert_eq!(status_key("600"), Some(StatusClass::Other));
    assert_eq!(status_key("99"), Some(StatusClass::Other));
    assert_eq!(status_key("70000"), None);
    assert_eq!(status_key("ok"), None);
}

#[test]
fn summary_over_classes() {
    let pts = vec![
        point("200", 2, 3_000_000_000, 1_000_000_000, 2_000_000_000, vec![1, 1, 0]),
        point("201", 4, 1_000_000_000, 100, 500_000_000, vec![0, 1, 3]),
        point("404", 2, 0, 0, 3_000_000_000, vec![2, 0, 0]),
    ];
    let m = RequestDurationSecondsMetrics::try_from_points(pts, 3, 1_000_000_000).unwrap();
    assert_eq!(m.count(), 8);
    assert_eq!(m.status_2xx_count(), 6);
    assert_eq!(m.status_3xx_count(), 0);
    assert_eq!(m.status_4xx_count(), 2);
    assert_eq!(m.status_5xx_count(), 0);
    assert_eq!(m.http_success_rate(), 7_500);
    assert_eq!(m.mean(), 500_000_000);
    assert_eq!(m.min(), 0);
    assert_eq!(m.max(), 3_000_000_000);
    // merged 2xx buckets [1, 2, 3]: the median is interpolated in bucket 1
    assert_eq!(m.p50(), 2_000_000_000);
    assert_eq!(m.percentile(250_000), 1_250_000_000);
    // five requests in the two seconds since the last tick
    assert_eq!(m.rps(3_000_000_000), 2);
    assert_eq!(m.rps(1_000_000_000), 0);
}

#[test]
fn percentile_is_capped_at_max_and_zero_without_2xx() {
    let m = RequestDurationSecondsMetrics::try_from_points(
        vec![point("200", 3, 0, 0, 1_500_000_000, vec![0, 0, 3])],
        0,
        0,
    )
    .unwrap();
    assert_eq!(m.p99(), 1_500_000_000);
    let none = RequestDurationSecondsMetrics::try_from_points(
        vec![point("500", 3, 0, 0, 1, vec![3, 0, 0])],
        0,
        0,
    )
    .unwrap();
    assert_eq!(none.p50(), 0);
    assert_eq!(none.http_success_rate(), 0);
}

#[test]
fn empty_snapshot() {
    let m = RequestDurationSecondsMetrics::try_from_points(vec![], 0, 0).unwrap();
    assert_eq!(m.count(), 0);
    assert_eq!(m.http_success_rate(), 0);
    assert_eq!(m.mean(), 0);
    assert_eq!(m.min(), 0);
    assert_eq!(m.max(), 0);
    assert_eq!(m.p95(), 0);
}

#[test]
fn bad_snapshots() {
    let mut missing = point("200", 1, 0, 0, 0, vec![1, 0, 0]);
    missing.status = None;
    assert_eq!(
        RequestDurationSecondsMetrics::try_from_points(vec![missing], 0, 0).unwrap_err(),
        MetricsError::BadStatus
    );
    assert_eq!(
        RequestDurationSecondsMetrics::try_from_points(vec![point("x", 1, 0, 0, 0, vec![1, 0, 0])], 0, 0)
            .unwrap_err(),
        MetricsError::BadStatus
    );
    let pts = vec![
        point("200", 1, 0, 0, 0, vec![1, 0, 0]),
        point("204", 1, 0, 0, 0, vec![1, 0]),
    ];
    assert_eq!(
        RequestDurationSecondsMetrics::try_from_points(pts, 0, 0).unwrap_err(),
        MetricsError::Inconsistent
    );
    let pts = vec![
        point("500", u64::MAX, 0, 0, 0, vec![0, 0, 0]),
        point("500", 1, 0, 0, 0, vec![0, 0, 0]),
    ];
    assert_eq!(
        RequestDurationSecondsMetrics::try_from_points(pts, 0, 0).unwrap_err(),
        MetricsError::Inconsistent
    );
}

#[test]
fn response_sizes() {
    let m = ResponseSizeBytesMetrics::try_from_points(&vec![
        SizePoint { count: 2, sum: 300 },
        SizePoint { count: 1, sum: 100 },
    ])
    .unwrap();
    assert_eq!(m.count(), 3);
    assert_eq!(m.sum(), 400);
    assert_eq!(m.mean(), 133);
    let empty = ResponseSizeBytesMetrics::try_from_points(&vec![]).unwrap();
    assert_eq!(empty.mean(), 0);
    assert_eq!(
        ResponseSizeBytesMetrics::try_from_points(&vec![
            SizePoint { count: 1, sum: u64::MAX },
            SizePoint { count: 1, sum: 1 },
        ])
        .unwrap_err(),
        MetricsError::Inconsistent
    );
}

#[test]
fn error_lines() {
    let m = ErrorMetrics::new(vec![
        ErrorPoint { phase: Some("timeout".to_string()), value: 3 },
        ErrorPoint { phase: None, value: 9 },
        ErrorPoint { phase: Some("connect".to_string()), value: 12 },
    ]);
    assert_eq!(
        m.error_messages(),
        vec!["phase: timeout, count: 3".to_string(), "phase: connect, count: 12".to_string()]
    );
}

#[test]
fn start_time_and_elapsed() {
    let s = StartTimeMetrics::new(vec![10_000_000_000, 11_000_000_000]);
    assert_eq!(s.start_time(), 10_000_000_000);
    assert_eq!(s.elapsed_time(12_499_999_999), 2);
    assert_eq!(s.elapsed_time(12_500_000_000), 3);
    assert_eq!(s.elapsed_time(9_000_000_000), 0);
    assert_eq!(StartTimeMetrics::new(vec![]).start_time(), 0);
}
