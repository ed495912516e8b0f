use serde_json::Value;
use vynkor_plugins::search::provider::{
    urlencode_query, BraveProvider, Provider, RawHit, RawSearchResponse, TavilyProvider,
};
use vynkor_plugins::search::request::{
    is_allowed_key_env, parse_allowed_key_envs, parse_request, Provider as ReqProvider,
    RawSearchRequest, WebSearchParams, DEFAULT_BRAVE_BASE_URL, DEFAULT_COUNT,
    DEFAULT_TAVILY_BASE_URL, MAX_COUNT, MAX_QUERY_CHARS, MAX_TIMEOUT_MS,
};

fn brave() -> WebSearchParams {
    WebSearchParams {
        query: "vynkor plugins".to_string(),
        provider: ReqProvider::Brave,
        api_key_env: "SEARCH_BRAVE_KEY".to_string(),
        base_url: "https://api.search.brave.com".to_string(),
        count: 5,
        timeout_ms: 30_000,
    }
}

fn tavily() -> WebSearchParams {
    WebSearchParams {
        query: "vynkor plugins".to_string(),
        provider: ReqProvider::Tavily,
        api_key_env: "SEARCH_TAVILY_KEY".to_string(),
        base_url: "https://api.tavily.com".to_string(),
        count: 5,
        timeout_ms: 30_000,
    }
}

fn text(v: &Value, key: &str) -> String {
    v.get(key).and_then(Value::as_str).unwrap_or_default().to_string()
}

fn hits(results: Option<&Value>, snippet: &str) -> Option<Vec<RawHit>> {
    results.and_then(Value::as_array).map(|a| {
        a.iter()
            .map(|h| RawHit { title: text(h, "title"), url: text(h, "url"), text: text(h, snippet) })
            .collect()
    })
}

fn brave_body(bytes: &[u8]) -> Result<RawSearchResponse, String> {
    let v: Value = serde_json::from_slice(bytes).map_err(|e| e.to_string())?;
    Ok(RawSearchResponse { hits: hits(v["web"].get("results"), "description") })
}

fn tavily_body(bytes: &[u8]) -> Result<RawSearchResponse, String> {
    let v: Value = serde_json::from_slice(bytes).map_err(|e| e.to_string())?;
    Ok(RawSearchResponse { hits: hits(v.get("results"), "content") })
}

#[test]
fn builds_get_request_with_token_header() {
    let req = BraveProvider.build_http_request(&brave(), "vault-key-123");
    assert_eq!(req.method, "GET");
    assert_eq!(
        req.url,
        "https://api.search.brave.com/res/v1/web/search?q=vynkor%20plugins&count=5"
    );
    assert_eq!(
        req.headers.get("X-Subscription-Token").map(String::as_str),
        Some("vault-key-123")
    );
    assert!(req.body.is_empty());
}

#[test]
fn brave_key_never_appears_in_url_or_body() {
    let req = BraveProvider.build_http_request(&brave(), "vault-key-123");
    assert!(!req.url.contains("vault-key-123"));
    assert!(!req.body.contains("vault-key-123"));
}

#[test]
fn brave_strips_trailing_slash_from_base_url() {
    let mut p = brave();
    p.base_url = "https://api.search.brave.com/".to_string();
    let req = BraveProvider.build_http_request(&p, "k");
    assert_eq!(
        req.url,
        "https://api.search.brave.com/res/v1/web/search?q=vynkor%20plugins&count=5"
    );
}

#[test]
fn brave_parses_valid_response() {
    let body = br#"{"web": {"results": [{"title": "vynkor",
        "url": "https://example.com/vynkor", "description": "A plugin kernel"}]}}"#;
    let results = BraveProvider.parse_response(brave_body(body)).unwrap();
    assert_eq!(results.len(), 1);
    assert_eq!(results[0].title, "vynkor");
    assert_eq!(results[0].url, "https://example.com/vynkor");
    assert_eq!(results[0].snippet, "A plugin kernel");
}

#[test]
fn brave_rejects_malformed_json() {
    let err = BraveProvider.parse_response(brave_body(b"not json")).unwrap_err();
    assert!(err.contains("malformed brave response"), "error was: {err}");
}

#[test]
fn brave_missing_fields_default_to_empty() {
    let body = br#"{"web": {"results": [{"url": "https://example.com/x"}]}}"#;
    let results = BraveProvider.parse_response(brave_body(body)).unwrap();
    assert_eq!(results.len(), 1);
    assert_eq!(results[0].title, "");
    assert_eq!(results[0].snippet, "");
}

#[test]
fn null_web_block_yields_empty_results() {
    let results = BraveProvider.parse_response(brave_body(br#"{"web": null}"#)).unwrap();
    assert!(results.is_empty());
}

#[test]
fn builds_post_request_with_bearer_auth() {
    let req = TavilyProvider.build_http_request(&tavily(), "vault-key-123");
    assert_eq!(req.method, "POST");
    assert_eq!(req.url, "https://api.tavily.com/search");
    assert_eq!(
        req.headers.get("Authorization").map(String::as_str),
        Some("Bearer vault-key-123")
    );
    let body: Value = serde_json::from_str(&req.body).unwrap();
    assert_eq!(body["query"], "vynkor plugins");
    assert_eq!(body["max_results"], 5);
}

#[test]
fn tavily_key_never_appears_in_url_or_body() {
    let req = TavilyProvider.build_http_request(&tavily(), "vault-key-123");
    assert!(!req.url.contains("vault-key-123"));
    assert!(!req.body.contains("vault-key-123"));
}

#[test]
fn tavily_strips_trailing_slash_from_base_url() {
    let mut p = tavily();
    p.base_url = "https://api.tavily.com/".to_string();
    let req = TavilyProvider.build_http_request(&p, "k");
    assert_eq!(req.url, "https://api.tavily.com/search");
}

#[test]
fn tavily_parses_valid_response() {
    let body = br#"{"results": [{"title": "vynkor",
        "url": "https://example.com/vynkor", "content": "A plugin kernel"}]}"#;
    let results = TavilyProvider.parse_response(tavily_body(body)).unwrap();
    assert_eq!(results.len(), 1);
    assert_eq!(results[0].title, "vynkor");
    assert_eq!(results[0].url, "https://example.com/vynkor");
    assert_eq!(results[0].snippet, "A plugin kernel");
}

#[test]
fn tavily_rejects_malformed_json() {
    let err = TavilyProvider.parse_response(tavily_body(b"not json")).unwrap_err();
    assert!(err.contains("malformed tavily response"), "error was: {err}");
}

#[test]
fn tavily_missing_fields_default_to_empty() {
    let body = br#"{"results": [{"title": "only a title"}]}"#;
    let results = TavilyProvider.parse_response(tavily_body(body)).unwrap();
    assert_eq!(results.len(), 1);
    assert_eq!(results[0].title, "only a title");
    assert_eq!(results[0].url, "");
    assert_eq!(results[0].snippet, "");
}

#[test]
fn empty_results_is_a_valid_outcome() {
    let results = TavilyProvider.parse_response(tavily_body(br#"{"results": []}"#)).unwrap();
    assert!(results.is_empty());
}

#[test]
fn query_encoding_keeps_unreserved_and_escapes_bytes() {
    assert_eq!(urlencode_query("aZ09-_.~"), "aZ09-_.~");
    assert_eq!(urlencode_query("a&b=c/é"), "a%26b%3Dc%2F%C3%A9");
}

fn decode(v: Value) -> Result<RawSearchRequest, String> {
    let s = |k: &str| v.get(k).and_then(Value::as_str).map(str::to_string);
    Ok(RawSearchRequest {
        query: s("query"),
        provider: s("provider"),
        api_key_env: s("api_key_env"),
        base_url: s("base_url"),
        count: v.get("count").and_then(Value::as_u64).map(|n| n as u32),
        timeout_ms: v.get("timeout_ms").and_then(Value::as_u64),
    })
}

fn valid_json() -> Value {
    serde_json::from_str(
        r#"{"query": "vynkor plugin kernel", "api_key_env": "SEARCH_BRAVE_KEY"}"#,
    )
    .unwrap()
}

fn parse(v: Value) -> Result<WebSearchParams, String> {
    parse_request(decode(v))
}

#[test]
fn accepts_minimal_request_defaults_to_brave() {
    let params = parse(valid_json()).unwrap();
    assert_eq!(params.provider, ReqProvider::Brave);
    assert_eq!(params.base_url, DEFAULT_BRAVE_BASE_URL);
    assert_eq!(params.count, DEFAULT_COUNT);
    assert_eq!(params.timeout_ms, MAX_TIMEOUT_MS);
    assert_eq!(params.query, "vynkor plugin kernel");
}

#[test]
fn selects_tavily_provider() {
    let mut body = valid_json();
    body["provider"] = "tavily".into();
    let params = parse(body).unwrap();
    assert_eq!(params.provider, ReqProvider::Tavily);
    assert_eq!(params.base_url, DEFAULT_TAVILY_BASE_URL);
}

#[test]
fn rejects_missing_query() {
    let mut body = valid_json();
    body.as_object_mut().unwrap().remove("query");
    let err = parse(body).unwrap_err();
    assert!(err.contains("query"), "error was: {err}");
}

#[test]
fn rejects_empty_query() {
    let mut body = valid_json();
    body["query"] = "   ".into();
    let err = parse(body).unwrap_err();
    assert!(err.contains("query"), "error was: {err}");
}

#[test]
fn rejects_oversized_query() {
    let mut body = valid_json();
    body["query"] = "x".repeat(MAX_QUERY_CHARS + 1).into();
    let err = parse(body).unwrap_err();
    assert!(err.contains("max length"), "error was: {err}");
}

#[test]
fn accepts_explicit_base_url() {
    let mut body = valid_json();
    body["base_url"] = "http://localhost:8080".into();
    let params = parse(body).unwrap();
    assert_eq!(params.base_url, "http://localhost:8080");
}

#[test]
fn clamps_count_above_cap() {
    let mut body = valid_json();
    body["count"] = 99.into();
    let params = parse(body).unwrap();
    assert_eq!(params.count, MAX_COUNT);
}

#[test]
fn clamps_timeout_ms_above_cap() {
    let mut body = valid_json();
    body["timeout_ms"] = 999_999.into();
    let params = parse(body).unwrap();
    assert_eq!(params.timeout_ms, MAX_TIMEOUT_MS);
}

#[test]
fn undecodable_search_requests_are_told() {
    let err = parse_request(Err("boom".to_string())).unwrap_err();
    assert!(err.contains("boom"), "error was: {err}");
}

#[test]
fn allowed_key_envs_empty_by_default() {
    assert!(parse_allowed_key_envs("").is_empty());
}

#[test]
fn allowed_key_envs_parses_comma_list() {
    let allowed = parse_allowed_key_envs("SEARCH_BRAVE_KEY, SEARCH_TAVILY_KEY ,,");
    assert!(is_allowed_key_env("SEARCH_BRAVE_KEY", &allowed));
    assert!(is_allowed_key_env("SEARCH_TAVILY_KEY", &allowed));
    assert_eq!(allowed.len(), 2);
}

#[test]
fn is_allowed_key_env_rejects_unlisted_name() {
    let allowed = parse_allowed_key_envs("SEARCH_BRAVE_KEY");
    assert!(!is_allowed_key_env("AWS_SECRET_ACCESS_KEY", &allowed));
}

#[test]
fn is_allowed_key_env_is_case_sensitive() {
    let allowed = parse_allowed_key_envs("SEARCH_BRAVE_KEY");
    assert!(!is_allowed_key_env("search_brave_key", &allowed));
}

#[test]
fn is_allowed_key_env_rejects_everything_when_empty() {
    let allowed = parse_allowed_key_envs("");
    assert!(!is_allowed_key_env("SEARCH_BRAVE_KEY", &allowed));
}
