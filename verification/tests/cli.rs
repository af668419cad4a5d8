use deltu::cli::{base_url_for, http_get_request, parse_http_url, EXIT_FAILURE, EXIT_USAGE};

#[test]
fn parse_http_url_handles_forms() {
    assert_eq!(
        parse_http_url("http://127.0.0.1:8080/v1/status").unwrap(),
        ("127.0.0.1".to_string(), 8080, "/v1/status".to_string())
    );
    assert_eq!(parse_http_url("http://localhost:8080").unwrap(), ("localhost".to_string(), 8080, "/".to_string()));
    assert!(parse_http_url("https://x:1/").unwrap_err().contains("http://"));
}

#[test]
fn version_is_set() {
    assert!(!deltu::version().is_empty());
}

#[test]
fn base_url_and_request_text() {
    assert_eq!(base_url_for("127.0.0.1:8080"), "http://127.0.0.1:8080");
    let request = http_get_request("localhost", 8080, "/health");
    assert!(request.starts_with("GET /health HTTP/1.1\r\n"));
    assert!(request.contains("localhost:8080"));
    assert!(request.ends_with("\r\n\r\n"));
}

#[test]
fn exit_codes_are_distinct() {
    assert_eq!(EXIT_FAILURE, 1);
    assert_eq!(EXIT_USAGE, 2);
}
