use serde_json::Value;
use vynkor_plugins::network::request::{
    parse_request, HttpRequestParams, MultipartPart, RawHttpRequest, DEFAULT_RETRY_BACKOFF_MS,
    MAX_HEADERS_TOTAL_BYTES, MAX_HEADER_COUNT, MAX_MULTIPART_FILENAME_BYTES,
    MAX_MULTIPART_NAME_BYTES, MAX_REDIRECTS, MAX_REQUEST_BODY_BYTES, MAX_RETRIES,
    MAX_RETRY_BACKOFF_MS, MAX_TIMEOUT_MS, MAX_URL_LEN,
};
use vynkor_plugins::strmap::StrMap;

fn text(v: &Value, key: &str) -> Option<String> {
    v.get(key).and_then(Value::as_str).map(str::to_string)
}

fn part(v: &Value) -> MultipartPart {
    MultipartPart {
        name: text(v, "name").unwrap(),
        value: text(v, "value"),
        file_base64: text(v, "file_base64"),
        filename: text(v, "filename"),
        content_type: text(v, "content_type"),
    }
}

fn decode(bytes: &[u8]) -> Result<RawHttpRequest, String> {
    let v: Value = serde_json::from_slice(bytes).map_err(|e| e.to_string())?;
    let mut headers: StrMap<String> = StrMap::new();
    if let Some(map) = v.get("headers").and_then(Value::as_object) {
        for (k, h) in map {
            headers.insert(k.clone(), h.as_str().unwrap().to_string());
        }
    }
    Ok(RawHttpRequest {
        method: text(&v, "method"),
        url: text(&v, "url"),
        headers,
        body: text(&v, "body"),
        body_base64: text(&v, "body_base64"),
        multipart: v
            .get("multipart")
            .and_then(Value::as_array)
            .map(|parts| parts.iter().map(part).collect()),
        cache_ttl_ms: v.get("cache_ttl_ms").and_then(Value::as_u64),
        use_cookies: v.get("use_cookies").and_then(Value::as_bool),
        timeout_ms: v.get("timeout_ms").and_then(Value::as_u64),
        max_retries: v.get("max_retries").and_then(Value::as_u64).map(|n| n as u32),
        retry_backoff_ms: v.get("retry_backoff_ms").and_then(Value::as_u64),
        follow_redirects: v.get("follow_redirects").and_then(Value::as_bool),
        max_redirects: v.get("max_redirects").and_then(Value::as_u64).map(|n| n as usize),
    })
}

fn parse(bytes: &[u8]) -> Result<HttpRequestParams, String> {
    parse_request(decode(bytes))
}

fn quote(s: &str) -> String {
    serde_json::to_string(s).unwrap()
}

#[test]
fn rejects_missing_url() {
    let err = parse(br#"{"method": "GET"}"#).unwrap_err();
    assert!(err.contains("url"), "error was: {err}");
}

#[test]
fn rejects_bad_scheme() {
    let err = parse(br#"{"method": "GET", "url": "file:///etc/passwd"}"#).unwrap_err();
    assert!(err.contains("scheme"), "error was: {err}");
}

#[test]
fn rejects_bad_method() {
    let err = parse(br#"{"method": "TRACE", "url": "https://example.com"}"#).unwrap_err();
    assert!(err.contains("method"), "error was: {err}");
}

#[test]
fn accepts_minimal_valid_request() {
    let params = parse(br#"{"method": "get", "url": "https://example.com/thing"}"#).unwrap();
    assert_eq!(params.method, "GET");
    assert_eq!(params.url, "https://example.com/thing");
    assert_eq!(params.timeout_ms, MAX_TIMEOUT_MS);
    assert!(params.body.is_none());
}

#[test]
fn clamps_timeout_above_cap() {
    let params =
        parse(br#"{"method": "GET", "url": "https://example.com", "timeout_ms": 999999}"#).unwrap();
    assert_eq!(params.timeout_ms, MAX_TIMEOUT_MS);
}

#[test]
fn preserves_timeout_below_cap() {
    let params =
        parse(br#"{"method": "GET", "url": "https://example.com", "timeout_ms": 500}"#).unwrap();
    assert_eq!(params.timeout_ms, 500);
}

#[test]
fn accepts_body_base64_alone() {
    let params = parse(
        br#"{
            "method": "POST",
            "url": "https://example.com/upload",
            "headers": {"Content-Type": "application/octet-stream"},
            "body_base64": "AAEC/w=="
        }"#,
    )
    .unwrap();
    assert!(params.body.is_none());
    assert_eq!(params.body_base64.as_deref(), Some("AAEC/w=="));
}

#[test]
fn rejects_both_body_and_body_base64() {
    let err = parse(
        br#"{
            "method": "POST",
            "url": "https://example.com/upload",
            "body": "text",
            "body_base64": "AAEC/w=="
        }"#,
    )
    .unwrap_err();
    assert!(err.contains("not both"), "error was: {err}");
}

#[test]
fn rejects_oversized_body_base64() {
    let huge_b64 = "A".repeat((MAX_REQUEST_BODY_BYTES / 3) * 4 + 8);
    let body = format!(
        r#"{{"method": "POST", "url": "https://example.com/upload", "body_base64": {}}}"#,
        quote(&huge_b64)
    );
    let err = parse(body.as_bytes()).unwrap_err();
    assert!(err.contains("cap"), "error was: {err}");
}

fn upload(b64: String) -> Result<HttpRequestParams, String> {
    let mut raw = decode(br#"{"method": "POST", "url": "https://example.com/upload"}"#).unwrap();
    raw.body_base64 = Some(b64);
    parse_request(Ok(raw))
}

#[test]
fn the_cap_is_on_the_decoded_size() {
    let most = "A".repeat(MAX_REQUEST_BODY_BYTES / 3 * 4 + 2);
    assert!(upload(format!("{most}==")).is_ok(), "exactly the cap");
    let err = upload(format!("{most}A=")).unwrap_err();
    assert!(err.contains("cap"), "one byte over: {err}");
    let err = upload(format!("{most}AA")).unwrap_err();
    assert!(err.contains("cap"), "two bytes over: {err}");
    assert!(upload("=".to_string()).is_ok(), "what does not decode has no size");
}

#[test]
fn defaults_to_no_retries() {
    let params = parse(br#"{"method": "GET", "url": "https://example.com"}"#).unwrap();
    assert_eq!(params.max_retries, 0);
    assert_eq!(params.retry_backoff_ms, DEFAULT_RETRY_BACKOFF_MS);
}

#[test]
fn clamps_max_retries_above_cap() {
    let params =
        parse(br#"{"method": "GET", "url": "https://example.com", "max_retries": 99}"#).unwrap();
    assert_eq!(params.max_retries, MAX_RETRIES);
}

#[test]
fn rejects_url_over_length_cap() {
    let long_path = "a".repeat(MAX_URL_LEN);
    let url = format!("https://example.com/{long_path}");
    let body = format!(r#"{{"method": "GET", "url": {}}}"#, quote(&url));
    let err = parse(body.as_bytes()).unwrap_err();
    assert!(err.contains("url"), "error was: {err}");
}

#[test]
fn rejects_too_many_headers() {
    let headers: Vec<String> =
        (0..MAX_HEADER_COUNT + 1).map(|i| format!(r#""h{i}": "v""#)).collect();
    let body = format!(
        r#"{{"method": "GET", "url": "https://example.com", "headers": {{{}}}}}"#,
        headers.join(",")
    );
    let err = parse(body.as_bytes()).unwrap_err();
    assert!(err.contains("too many headers"), "error was: {err}");
}

#[test]
fn rejects_headers_over_total_byte_cap() {
    let body = format!(
        r#"{{"method": "GET", "url": "https://example.com", "headers": {{"h": {}}}}}"#,
        quote(&"v".repeat(MAX_HEADERS_TOTAL_BYTES + 1))
    );
    let err = parse(body.as_bytes()).unwrap_err();
    assert!(err.contains("byte total cap"), "error was: {err}");
}

#[test]
fn clamps_retry_backoff_above_cap() {
    let params =
        parse(br#"{"method": "GET", "url": "https://example.com", "retry_backoff_ms": 999999}"#)
            .unwrap();
    assert_eq!(params.retry_backoff_ms, MAX_RETRY_BACKOFF_MS);
}

#[test]
fn defaults_max_redirects_to_cap() {
    let params = parse(br#"{"method": "GET", "url": "https://example.com"}"#).unwrap();
    assert_eq!(params.max_redirects, MAX_REDIRECTS);
}

#[test]
fn preserves_max_redirects_below_cap() {
    let params =
        parse(br#"{"method": "GET", "url": "https://example.com", "max_redirects": 2}"#).unwrap();
    assert_eq!(params.max_redirects, 2);
}

#[test]
fn clamps_max_redirects_above_cap() {
    let params =
        parse(br#"{"method": "GET", "url": "https://example.com", "max_redirects": 99}"#).unwrap();
    assert_eq!(params.max_redirects, MAX_REDIRECTS);
}

#[test]
fn defaults_cache_and_cookies_off() {
    let params = parse(br#"{"method": "GET", "url": "https://example.com"}"#).unwrap();
    assert_eq!(params.cache_ttl_ms, 0);
    assert!(!params.use_cookies);
    assert!(params.multipart.is_none());
}

#[test]
fn parses_multipart_parts() {
    let params = parse(
        br#"{
            "method": "POST",
            "url": "https://example.com/upload",
            "multipart": [
                {"name": "note", "value": "hello"},
                {"name": "file", "file_base64": "AAEC/w==", "filename": "blob.bin", "content_type": "application/octet-stream"}
            ]
        }"#,
    )
    .unwrap();
    let parts = params.multipart.unwrap();
    assert_eq!(parts.len(), 2);
    assert_eq!(parts[0].name, "note");
    assert_eq!(parts[0].value.as_deref(), Some("hello"));
    assert_eq!(parts[1].file_base64.as_deref(), Some("AAEC/w=="));
    assert_eq!(parts[1].filename.as_deref(), Some("blob.bin"));
}

#[test]
fn rejects_multipart_with_body_and_body_base64() {
    let err = parse(
        br#"{
            "method": "POST",
            "url": "https://example.com/upload",
            "body": "text",
            "multipart": [{"name": "a", "value": "b"}]
        }"#,
    )
    .unwrap_err();
    assert!(err.contains("multipart is mutually exclusive"), "error was: {err}");

    let err = parse(
        br#"{
            "method": "POST",
            "url": "https://example.com/upload",
            "body_base64": "AAEC/w==",
            "multipart": [{"name": "a", "value": "b"}]
        }"#,
    )
    .unwrap_err();
    assert!(err.contains("multipart is mutually exclusive"), "error was: {err}");
}

#[test]
fn rejects_part_with_both_or_neither_value_and_file() {
    let err = parse(
        br#"{
            "method": "POST",
            "url": "https://example.com/upload",
            "multipart": [{"name": "a", "value": "b", "file_base64": "AA=="}]
        }"#,
    )
    .unwrap_err();
    assert!(err.contains("both value and file_base64"), "error was: {err}");

    let err = parse(
        br#"{
            "method": "POST",
            "url": "https://example.com/upload",
            "multipart": [{"name": "a"}]
        }"#,
    )
    .unwrap_err();
    assert!(err.contains("exactly one of value or file_base64"), "error was: {err}");
}

#[test]
fn rejects_oversized_part_name_and_filename() {
    let big_name = "n".repeat(MAX_MULTIPART_NAME_BYTES + 1);
    let body = format!(
        r#"{{"method": "POST", "url": "https://example.com/upload", "multipart": [{{"name": {}, "value": "v"}}]}}"#,
        quote(&big_name)
    );
    let err = parse(body.as_bytes()).unwrap_err();
    assert!(err.contains("name must be"), "error was: {err}");

    let big_file = "f".repeat(MAX_MULTIPART_FILENAME_BYTES + 1);
    let body = format!(
        r#"{{"method": "POST", "url": "https://example.com/upload", "multipart": [{{"name": "a", "value": "v", "filename": {}}}]}}"#,
        quote(&big_file)
    );
    let err = parse(body.as_bytes()).unwrap_err();
    assert!(err.contains("filename exceeds"), "error was: {err}");
}

#[test]
fn rejects_multipart_total_over_body_cap() {
    let big_value = "x".repeat(MAX_REQUEST_BODY_BYTES + 1);
    let body = format!(
        r#"{{"method": "POST", "url": "https://example.com/upload", "multipart": [{{"name": "a", "value": {}}}]}}"#,
        quote(&big_value)
    );
    let err = parse(body.as_bytes()).unwrap_err();
    assert!(err.contains("more than the"), "error was: {err}");
}

#[test]
fn parses_cache_ttl_and_cookies() {
    let params = parse(
        br#"{
            "method": "GET",
            "url": "https://example.com",
            "cache_ttl_ms": 5000,
            "use_cookies": true
        }"#,
    )
    .unwrap();
    assert_eq!(params.cache_ttl_ms, 5000);
    assert!(params.use_cookies);
}

#[test]
fn invalid_json_is_told_with_the_parser_message() {
    let err = parse(b"{").unwrap_err();
    assert!(err.starts_with("invalid JSON: "), "error was: {err}");
    let err = parse_request(Err("boom".to_string())).unwrap_err();
    assert_eq!(err, "invalid JSON: boom");
}

#[test]
fn unparsable_url_is_told_with_the_parser_message() {
    let err = parse(br#"{"method": "GET", "url": "http://"}"#).unwrap_err();
    assert!(err.contains("url"), "error was: {err}");
    assert!(err.contains("empty host"), "error was: {err}");
}
