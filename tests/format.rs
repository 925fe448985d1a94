use hb::format::{format_duration, format_dynamic_precision, format_iec, format_percent, format_si};

#[test]
fn test_format_si() {
    assert_eq!(format_si(&999), "999");
    assert_eq!(format_si(&1000), "1K");
    assert_eq!(format_si(&1500), "2K");
    assert_eq!(format_si(&1_000_000), "1M");
    assert_eq!(format_si(&1_500_000), "2M");
    assert_eq!(format_si(&1_000_000_000), "1G");
    assert_eq!(format_si(&1_500_000_000), "2G");
    assert_eq!(format_si(&1_000_000_000_000), "1T");
}

#[test]
fn test_format_iec() {
    assert_eq!(format_iec(&1023), "1023.00B");
    assert_eq!(format_iec(&1024), "1.00KiB");
    assert_eq!(format_iec(&1536), "1.50KiB");
    assert_eq!(format_iec(&1_048_576), "1.00MiB");
    assert_eq!(format_iec(&1_572_864), "1.50MiB");
    assert_eq!(format_iec(&1_073_741_824), "1.00GiB");
    assert_eq!(format_iec(&1_610_612_736), "1.50GiB");
    assert_eq!(format_iec(&1_099_511_627_776), "1.00TiB");
}

#[test]
fn test_format_duration() {
    assert_eq!(format_duration(&59), "59s");
    assert_eq!(format_duration(&60), "1m0s");
    assert_eq!(format_duration(&61), "1m1s");
    assert_eq!(format_duration(&3600), "1h0m0s");
    assert_eq!(format_duration(&3661), "1h1m1s");
    assert_eq!(format_duration(&86400), "1d0h0m0s");
    assert_eq!(format_duration(&90061), "1d1h1m1s");
}

#[test]
fn format_edges() {
    assert_eq!(format_si(&0), "0");
    assert_eq!(format_si(&2500), "2K");
    assert_eq!(format_si(&999_999), "1000K");
    assert_eq!(format_si(&u64::MAX), "18446744T");
    assert_eq!(format_iec(&0), "0.00B");
    assert_eq!(format_iec(&1152), "1.12KiB");
    assert_eq!(format_duration(&0), "0s");
    assert_eq!(format_duration(&86_401), "1d0h0m1s");
    assert_eq!(format_duration(&3601), "1h0m1s");
}

#[test]
fn percent_and_seconds() {
    assert_eq!(format_percent(&10000), "100.00%");
    assert_eq!(format_percent(&5), "0.05%");
    assert_eq!(format_dynamic_precision(&1_000_000_000), "1s");
    assert_eq!(format_dynamic_precision(&1_234_567_890), "1.235s");
    assert_eq!(format_dynamic_precision(&12_300_000), "0.01s");
    assert_eq!(format_dynamic_precision(&50_000_000), "0.05s");
    assert_eq!(format_dynamic_precision(&0), "0s");
    assert_eq!(format_dynamic_precision(&7), "0.000000007s");
}
