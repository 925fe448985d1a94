use hb::http::{calculate_header_size, Method};

fn header(name: &str, value: Option<&str>) -> (String, Option<String>) {
    (name.to_string(), value.map(|v| v.to_string()))
}

#[test]
fn test_calculate_header_size() {
    let headers = vec![
        header("content-type", Some("application/json")),
        header("content-length", Some("42")),
        header("x-custom-header", Some("test-value")),
    ];
    assert_eq!(calculate_header_size(&headers), 83);
}

#[test]
fn test_calculate_header_size_with_empty_headers() {
    assert_eq!(calculate_header_size(&vec![]), 2);
}

#[test]
fn test_calculate_header_size_with_invalid_value() {
    let headers = vec![header("x-binary", None)];
    assert_eq!(calculate_header_size(&headers), 14);
}

#[test]
fn header_size_of_two_headers() {
    let headers = vec![
        header("content-type", Some("application/json")),
        header("content-length", Some("42")),
    ];
    let expected = "content-type: application/json\r\n".len() + "content-length: 42\r\n".len() + 2;
    assert_eq!(calculate_header_size(&headers), expected as u64);
}

#[test]
fn header_size_counts_bytes() {
    let headers = vec![header("x", Some("é"))];
    assert_eq!(calculate_header_size(&headers), 1 + 2 + 2 + 2 + 2);
}

#[test]
fn method_names() {
    assert_eq!(Method::Get.as_str(), "GET");
    assert_eq!(Method::Options.as_str(), "OPTIONS");
    assert_eq!(Method::Patch.as_str(), "PATCH");
}
