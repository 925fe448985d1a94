use hb::metrics::{
    DurationPoint, ErrorMetrics, ErrorPoint, RequestDurationSecondsMetrics,
    ResponseSizeBytesMetrics, SizePoint, StartTimeMetrics,
};
use hb::otlp::{console_interval_secs, exec_mode_of};
use hb::report::{dummy_title, ExecMode, HorizontalRule, OutputFormat, ProgressBar, Reporter};

#[test]
fn progress_in_count_mode() {
    let (cur, cur_text, target, target_text) = ExecMode::ByCount(2000).state_progress(5, 1500);
    assert_eq!((cur, target), (1500, 2000));
    assert_eq!(cur_text, "2K");
    assert_eq!(target_text, "2K");
}

#[test]
fn progress_in_duration_mode_is_capped() {
    let (cur, cur_text, target, target_text) = ExecMode::ByDuration(90).state_progress(100, 7);
    assert_eq!((cur, target), (90, 90));
    assert_eq!(cur_text, "1m30s");
    assert_eq!(target_text, "1m30s");
}

#[test]
fn bar_rendering() {
    let bar = ProgressBar::from_kinds(0, 5, &ExecMode::ByCount(10));
    let expected = format!("      5/10    [{}>{}] 50.0%\n", "=".repeat(25), " ".repeat(25));
    assert_eq!(bar.to_string(), expected);
    let full = ProgressBar::new(12, "12".to_string(), 10, "10".to_string());
    assert_eq!(full.to_string(), format!("     12/10    [{}>] 100.0%\n", "=".repeat(50)));
    let third = ProgressBar::new(1, "1".to_string(), 3, "3".to_string());
    assert_eq!(
        third.to_string(),
        format!("      1/3     [{}>{}] 33.3%\n", "=".repeat(17), " ".repeat(33))
    );
}

#[test]
fn rule_rendering() {
    let rule = HorizontalRule::new("-", 3);
    assert_eq!(rule.render_at("T"), "---\n \u{276F}\u{276F} T\n---\n");

}

#[test]
fn title_is_blank() {
    assert_eq!(dummy_title(), " ".repeat(13));
}

#[test]
fn exec_modes_and_interval() {
    assert_eq!(exec_mode_of(Some(3), None), Some(ExecMode::ByCount(3)));
    assert_eq!(exec_mode_of(None, Some(4)), Some(ExecMode::ByDuration(4)));
    assert_eq!(exec_mode_of(Some(3), Some(4)), None);
    assert_eq!(exec_mode_of(None, None), None);
    assert_eq!(console_interval_secs(false), 1);
    assert_eq!(console_interval_secs(true), u64::MAX);
}

#[test]
fn reporter_values_and_header() {
    let pt = DurationPoint {
        status: Some("200".to_string()),
        count: 4,
        sum: 4_000_000_000,
        min: Some(500_000_000),
        max: Some(1_500_000_000),
        bounds: vec![1_000_000_000, 2_000_000_000],
        bucket_counts: vec![2, 2, 0],
    };
    let d = RequestDurationSecondsMetrics::try_from_points(vec![pt], 0, 0).unwrap();
    let s = StartTimeMetrics::new(vec![0]);
    let r = ResponseSizeBytesMetrics::try_from_points(&vec![SizePoint { count: 4, sum: 400 }]).unwrap();
    let e = ErrorMetrics::new(vec![ErrorPoint { phase: Some("connect".to_string()), value: 1 }]);
    let rep = Reporter::new(&d, &s, &r, Some(&e), &ExecMode::ByCount(8), 2_000_000_000);
    assert_eq!(rep.counter.total, 4);
    assert_eq!(rep.counter.status_2xx, 4);
    assert_eq!(rep.summary.http_success_rate, 10_000);
    assert_eq!(rep.summary.rps, 2);
    assert_eq!(rep.duration.mean, 1_000_000_000);
    assert_eq!(rep.duration.p50, 1_000_000_000);
    assert_eq!(rep.duration.min, 500_000_000);
    assert_eq!(rep.response_size.mean, 100);
    assert_eq!(rep.errors.len(), 1);
    assert_eq!(rep.errors[0].message, "phase: connect, count: 1");
    assert_eq!(rep.bar.current, 4);
    assert_eq!(rep.bar.target, 8);
    assert_eq!(rep.header(OutputFormat::Json, false, false, "T"), None);
    assert_eq!(rep.header(OutputFormat::Text, true, false, "T"), None);
    assert_eq!(rep.header(OutputFormat::Text, false, false, "T"), Some(rep.progress_bar()));
    let with_rule = rep.header(OutputFormat::Text, false, true, "T").unwrap();
    let line = "\u{2500}".repeat(80);
    assert_eq!(
        with_rule,
        format!("{line}\n \u{276F}\u{276F} T\n{line}\n\n{}", rep.progress_bar())
    );
    assert_eq!(rep.horizontal_rule("T"), format!("{line}\n \u{276F}\u{276F} T\n{line}\n"));
}
