use base64::Engine;
use std::collections::hash_map::DefaultHasher;
use std::hash::{Hash, Hasher};
use serde_json::Value;
use vynkor_plugins::action::ActionStatus;
use vynkor_plugins::network::cache::{
    cache_key, is_cacheable, request_body_hash, CacheEntry, CacheStore, CACHE_MAX_ENTRIES,
    CACHE_MAX_TOTAL_BYTES,
};
use vynkor_plugins::network::cookies::{collect_cookies, cookie_header, parse_set_cookie};
use vynkor_plugins::network::handler::{
    after_attempt, after_literal, after_resolution, begin_fetch, begin_http, completed_event,
    completed_outcome, finish_fetch, gate_request, is_retryable_status, prepare_fetch, push_chunk,
    read_error, redirect_cap, redirect_step, refused_outcome, route, send_error, url_host,
    FetchError, FetchOutcome, FetchStep, Gate, HttpOutcome, HttpStep, Inbound, LoopAction,
    Redirect, COMPLETED_EVENT, MAX_BODY_BYTES,
};
use vynkor_plugins::network::inflight::Inflight;
use vynkor_plugins::network::multipart::build_multipart_body;
use vynkor_plugins::network::request::{
    HttpRequestParams, MultipartPart, RawHttpRequest, MAX_REDIRECTS,
};
use vynkor_plugins::network::ssrf::{Allowlist, Blocklist, Ip};
use vynkor_plugins::strmap::StrMap;

fn params(url: &str) -> HttpRequestParams {
    HttpRequestParams {
        method: "GET".to_string(),
        url: url.to_string(),
        headers: StrMap::new(),
        body: None,
        body_base64: None,
        multipart: None,
        cache_ttl_ms: 0,
        use_cookies: false,
        timeout_ms: 5000,
        max_retries: 0,
        retry_backoff_ms: 1,
        follow_redirects: false,
        max_redirects: MAX_REDIRECTS,
    }
}

/// What a server gives back to one attempt.
enum Served {
    Response(u16, Vec<(&'static str, &'static str)>, Vec<u8>),
    Echo,
    Failed(FetchError),
}

fn text_response(status: u16, body: &str) -> Served {
    Served::Response(status, vec![("content-type", "text/plain")], body.as_bytes().to_vec())
}

/// Runs a whole series against `server`, the n-th attempt getting what it
/// gives for n, and counts the attempts that reach it.
fn fetch(p: &HttpRequestParams, server: fn(usize) -> Served) -> (FetchOutcome, usize) {
    let mut series = begin_fetch(p);
    let mut sent = 0;
    loop {
        let result = match prepare_fetch(p, "----b", None, p.use_cookies) {
            Err(e) => Err(e),
            Ok(out) => {
                let served = server(sent);
                sent += 1;
                match served {
                    Served::Failed(e) => Err(e),
                    Served::Echo => {
                        Ok((200, Vec::new(), out.body.unwrap_or_default()))
                    }
                    Served::Response(s, h, b) => Ok((s, h, b)),
                }
            }
        };
        let result = match result {
            Err(e) => Err(e),
            Ok((status, headers, bytes)) => {
                let mut body: Vec<u8> = Vec::new();
                let mut failed = None;
                for chunk in bytes.chunks(1 << 20) {
                    if let Err(e) = push_chunk(&mut body, &chunk.to_vec()) {
                        failed = Some(e);
                        break;
                    }
                }
                match failed {
                    Some(e) => Err(e),
                    None => {
                        let mut map: StrMap<String> = StrMap::new();
                        for (k, v) in headers {
                            map.insert(k.to_string(), v.to_string());
                        }
                        Ok(finish_fetch(status, map, &Vec::new(), p.use_cookies, body))
                    }
                }
            }
        };
        match after_attempt(series, p, result) {
            FetchStep::Retry { series: next, .. } => series = next,
            FetchStep::Done { outcome } => return (outcome, sent),
        }
    }
}

#[test]
fn fetch_returns_status_headers_body() {
    let (out, _) = fetch(&params("http://127.0.0.1/"), |_| text_response(200, "hello"));
    let resp = out.response.unwrap();
    assert_eq!(resp.status, 200);
    assert_eq!(resp.headers.get("content-type").unwrap(), "text/plain");
    assert_eq!(resp.body, "hello");
}

#[test]
fn fetch_base64_encodes_non_utf8_body() {
    let raw_body: &[u8] = &[0xff, 0xfe, 0xfd, 0x00, 0x01];
    let (out, _) = fetch(&params("http://127.0.0.1/"), |_| {
        Served::Response(200, vec![], vec![0xff, 0xfe, 0xfd, 0x00, 0x01])
    });
    let resp = out.response.unwrap();
    assert_eq!(resp.body_encoding, "base64");
    let decoded = base64::engine::general_purpose::STANDARD.decode(&resp.body).unwrap();
    assert_eq!(decoded, raw_body);
}

#[test]
fn fetch_returns_utf8_encoding_for_text_body() {
    let (out, _) = fetch(&params("http://127.0.0.1/"), |_| text_response(200, "hello"));
    assert_eq!(out.response.unwrap().body_encoding, "utf8");
}

#[test]
fn fetch_sends_body_base64_byte_exact() {
    let raw_body: &[u8] = &[0x00, 0x01, 0x02, 0xff, 0xfe, 0x7f];
    let mut p = params("http://127.0.0.1/");
    p.method = "POST".to_string();
    p.body_base64 = Some(base64::engine::general_purpose::STANDARD.encode(raw_body));
    let (out, _) = fetch(&p, |_| Served::Echo);
    let resp = out.response.unwrap();
    assert_eq!(resp.status, 200);
    assert_eq!(resp.body_encoding, "base64");
    let echoed = base64::engine::general_purpose::STANDARD.decode(&resp.body).unwrap();
    assert_eq!(echoed, raw_body);
}

#[test]
fn fetch_rejects_body_and_body_base64_together() {
    let mut p = params("http://127.0.0.1/");
    p.body = Some("text".to_string());
    p.body_base64 = Some("AAEC/w==".to_string());
    let (out, sent) = fetch(&p, |_| text_response(200, ""));
    let err = out.response.unwrap_err();
    assert!(err.contains("not both"), "error was: {err}");
    assert_eq!(sent, 0);
}

#[test]
fn fetch_errors_on_body_over_cap() {
    let (out, _) = fetch(&params("http://127.0.0.1/"), |_| {
        text_response(200, &"x".repeat(MAX_BODY_BYTES + 1))
    });
    let err = out.response.unwrap_err();
    assert!(err.contains("10 MiB"), "error was: {err}");
}

#[test]
fn fetch_accepts_a_body_at_the_cap() {
    let (out, _) = fetch(&params("http://127.0.0.1/"), |_| {
        text_response(200, &"x".repeat(MAX_BODY_BYTES))
    });
    assert_eq!(out.response.unwrap().body.len(), MAX_BODY_BYTES);
}

#[test]
fn fetch_does_not_follow_redirect_by_default() {
    let (out, sent) = fetch(&params("http://127.0.0.1/"), |_| {
        Served::Response(302, vec![("location", "http://example.invalid/")], vec![])
    });
    assert_eq!(out.response.unwrap().status, 302);
    assert_eq!(sent, 1);
}

#[test]
fn fetch_retries_on_retryable_status_then_succeeds() {
    let mut p = params("http://127.0.0.1/");
    p.max_retries = 1;
    let (out, sent) = fetch(&p, |n| {
        if n == 0 { text_response(503, "") } else { text_response(200, "ok") }
    });
    let resp = out.response.unwrap();
    assert_eq!(resp.status, 200);
    assert_eq!(resp.body, "ok");
    assert_eq!(sent, 2);
    assert_eq!(out.stats.attempts, 2);
}

#[test]
fn fetch_does_not_retry_non_retryable_status() {
    let mut p = params("http://127.0.0.1/");
    p.max_retries = 3;
    let (out, sent) = fetch(&p, |_| text_response(404, ""));
    assert_eq!(out.response.unwrap().status, 404);
    assert_eq!(sent, 1);
}

#[test]
fn fetch_errors_on_timeout() {
    let mut p = params("http://127.0.0.1/");
    p.timeout_ms = 100;
    let (out, _) = fetch(&p, |_| Served::Failed(send_error("operation timed out", false)));
    let err = out.response.unwrap_err();
    assert!(err.contains("request failed"), "error was: {err}");
    assert!(err.contains("operation timed out"), "error was: {err}");
}

#[test]
fn fetch_does_not_retry_body_over_cap() {
    let mut p = params("http://127.0.0.1/");
    p.max_retries = 3;
    let (out, connections) = fetch(&p, |_| text_response(200, &"x".repeat(MAX_BODY_BYTES + 1)));
    let err = out.response.unwrap_err();
    assert!(err.contains("10 MiB"), "error was: {err}");
    assert_eq!(connections, 1, "body-over-cap is deterministic and must not be retried");
}

#[test]
fn fetch_does_not_retry_redirect_policy_rejection() {
    let mut p = params("http://127.0.0.1/");
    p.max_retries = 3;
    let (out, connections) = fetch(&p, |_| {
        Served::Failed(send_error("error following redirect for url (http://example.invalid/)", true))
    });
    let err = out.response.unwrap_err();
    assert!(err.contains("error following redirect"), "error was: {err}");
    assert_eq!(connections, 1, "a rejected redirect hop is deterministic and must not be retried");
}

#[test]
fn transport_errors_are_retried_with_doubling_backoff() {
    let mut p = params("http://127.0.0.1/");
    p.max_retries = 2;
    p.retry_backoff_ms = 200;
    let series = begin_fetch(&p);
    let first = after_attempt(series, &p, Err(read_error("reset")));
    let FetchStep::Retry { sleep_ms, series } = first else { panic!("retries left") };
    assert_eq!(sleep_ms, 200);
    assert_eq!(series.attempt, 1);
    assert_eq!(series.backoff_ms, 400);
    let second = after_attempt(series, &p, Err(send_error("reset", false)));
    let FetchStep::Retry { sleep_ms, series } = second else { panic!("retries left") };
    assert_eq!(sleep_ms, 400);
    assert_eq!(series.attempt, 2);
    let third = after_attempt(series, &p, Err(send_error("reset", false)));
    let FetchStep::Done { outcome } = third else { panic!("no retries left") };
    assert_eq!(outcome.stats.attempts, 3);
    assert_eq!(outcome.response.unwrap_err(), "request failed: reset");
}

#[test]
fn cookies_are_those_of_the_last_response() {
    let mut p = params("http://127.0.0.1/");
    p.max_retries = 1;
    p.use_cookies = true;
    let answer = |status: u16, cookie: &str| {
        Ok(finish_fetch(status, StrMap::new(), &vec![cookie.to_string()], true, Vec::new()))
    };
    // The last attempt has no response, so it sets no cookie.
    let first = after_attempt(begin_fetch(&p), &p, answer(503, "a=1"));
    let FetchStep::Retry { series, .. } = first else { panic!("one retry left") };
    let last = after_attempt(series, &p, Err(send_error("reset", false)));
    let FetchStep::Done { outcome } = last else { panic!("no retries left") };
    assert!(outcome.response.is_err());
    assert_eq!(outcome.stats.attempts, 2);
    assert!(outcome.set_cookies.is_empty());
    // A last response replaces the cookies of an earlier one.
    let first = after_attempt(begin_fetch(&p), &p, answer(503, "a=1"));
    let FetchStep::Retry { series, .. } = first else { panic!("one retry left") };
    let last = after_attempt(series, &p, answer(200, "b=2"));
    let FetchStep::Done { outcome } = last else { panic!("it succeeded") };
    assert_eq!(outcome.set_cookies, vec![("b".to_string(), "2".to_string())]);
}

#[test]
fn retryable_statuses() {
    for status in [429, 500, 502, 503, 504] {
        assert!(is_retryable_status(status), "{status}");
    }
    for status in [200, 404, 501, 505, 599] {
        assert!(!is_retryable_status(status), "{status}");
    }
}

#[test]
fn parse_set_cookie_extracts_first_pair() {
    assert_eq!(
        parse_set_cookie("session=abc123; Path=/; HttpOnly"),
        Some(("session".to_string(), "abc123".to_string()))
    );
    assert_eq!(parse_set_cookie("a=b=c"), Some(("a".to_string(), "b=c".to_string())));
    assert_eq!(
        parse_set_cookie("  padded = value "),
        Some(("padded".to_string(), "value".to_string()))
    );
}

#[test]
fn parse_set_cookie_rejects_malformed_and_control_chars() {
    assert_eq!(parse_set_cookie("no-equals-here"), None);
    assert_eq!(parse_set_cookie(""), None);
    assert_eq!(parse_set_cookie("=val"), None);
    let header = "evil=va\u{1b}lue; Path=/";
    let (name, value) = parse_set_cookie(header).unwrap();
    assert_eq!(name, "evil");
    assert_eq!(value, "value", "control chars stripped");
}

#[test]
fn cookie_header_joins_pairs_and_none_for_empty() {
    assert_eq!(cookie_header(&vec![]), None);
    assert_eq!(
        cookie_header(&vec![
            ("session".to_string(), "abc".to_string()),
            ("theme".to_string(), "dark".to_string()),
        ]),
        Some("session=abc; theme=dark".to_string())
    );
}

#[test]
fn cookies_are_collected_and_sent_back() {
    let headers = vec!["a=1; Path=/".to_string(), "bad".to_string(), "b=2".to_string()];
    let jar = collect_cookies(&headers);
    assert_eq!(
        jar,
        vec![("a".to_string(), "1".to_string()), ("b".to_string(), "2".to_string())]
    );
    let mut p = params("http://127.0.0.1/");
    p.use_cookies = true;
    let out = prepare_fetch(&p, "----b", Some(&jar), true).unwrap();
    assert!(out.headers.contains(&("cookie".to_string(), "a=1; b=2".to_string())));
    let (resp, kept) = finish_fetch(200, StrMap::new(), &headers, true, b"x".to_vec());
    assert_eq!(resp.status, 200);
    assert_eq!(kept, jar);
    let (_, kept) = finish_fetch(200, StrMap::new(), &headers, false, b"x".to_vec());
    assert!(kept.is_empty());
}

#[test]
fn multipart_body_frames_parts_and_terminates() {
    let parts = vec![
        MultipartPart {
            name: "note".into(),
            value: Some("hello".into()),
            file_base64: None,
            filename: None,
            content_type: None,
        },
        MultipartPart {
            name: "file".into(),
            value: None,
            file_base64: Some("aGVsbG8=".into()), // "hello" — keeps the body UTF-8
            filename: Some("blob.bin".into()),
            content_type: Some("application/octet-stream".into()),
        },
    ];
    let boundary = "----testboundary";
    let body = build_multipart_body(&parts, boundary).unwrap();
    let text = String::from_utf8(body).unwrap();
    assert!(
        text.starts_with("------testboundary\r\n"),
        "wire body opens with --{boundary}: {text}"
    );
    assert!(text.contains("Content-Disposition: form-data; name=\"note\""));
    assert!(text.contains("Content-Type: text/plain; charset=utf-8\r\n\r\nhello\r\n"));
    assert!(text.contains("; filename=\"blob.bin\""));
    assert!(text.contains("Content-Type: application/octet-stream\r\n\r\nhello\r\n"));
    assert!(text.ends_with("----testboundary--\r\n"));
}

#[test]
fn multipart_body_sanitizes_quotes_and_crlf_in_tokens() {
    let parts = vec![MultipartPart {
        name: "a\"b\r\nc".into(),
        value: Some("v".into()),
        file_base64: None,
        filename: Some("f\"n\r\n".into()),
        content_type: None,
    }];
    let body = build_multipart_body(&parts, "----b").unwrap();
    let text = String::from_utf8(body).unwrap();
    assert!(text.contains("name=\"a'bc\""), "quote escaped, CR/LF stripped: {text}");
    assert!(text.contains("filename=\"f'n\""), "quote escaped, CR/LF stripped: {text}");
    assert!(!text.contains("a\"b"), "raw quote gone");
    assert!(!text.contains("f\"n"), "raw quote gone");
}

#[test]
fn cache_store_hit_and_expiry() {
    let mut store = CacheStore::new();
    let entry = CacheEntry {
        stored_at_ms: 0,
        expires_at_ms: 100,
        status: 200,
        headers: StrMap::new(),
        body: b"hello".to_vec(),
        body_encoding: "utf8",
    };
    store.put("a|GET|u|0".to_string(), entry);
    assert_eq!(store.len(), 1);
    assert!(store.get("a|GET|u|0", 99).is_some(), "fresh");
    assert!(store.get("a|GET|u|0", 100).is_some(), "expiry is <= (inclusive)");
    assert!(store.get("a|GET|u|0", 101).is_none(), "expired");
    assert!(store.get("b|GET|u|0", 0).is_none(), "different key");
}

#[test]
fn cache_store_evicts_oldest_over_limits() {
    let mut store = CacheStore::new();
    for i in 0..CACHE_MAX_ENTRIES + 5 {
        store.put(
            format!("k{i}"),
            CacheEntry {
                stored_at_ms: i as u64,
                expires_at_ms: u64::MAX,
                status: 200,
                headers: StrMap::new(),
                body: vec![1u8; 16],
                body_encoding: "utf8",
            },
        );
    }
    assert_eq!(store.len(), CACHE_MAX_ENTRIES);
    assert!(store.get("k0", 0).is_none(), "oldest evicted");
    assert!(store.get(&format!("k{}", CACHE_MAX_ENTRIES + 4), 0).is_some(), "newest kept");
}

#[test]
fn cache_store_rejects_body_over_total_budget() {
    let mut store = CacheStore::new();
    store.put(
        "big".to_string(),
        CacheEntry {
            stored_at_ms: 0,
            expires_at_ms: u64::MAX,
            status: 200,
            headers: StrMap::new(),
            body: vec![0u8; CACHE_MAX_TOTAL_BYTES + 1],
            body_encoding: "utf8",
        },
    );
    assert!(store.is_empty(), "oversized body never enters");
}

#[test]
fn cache_store_evicts_by_total_bytes() {
    let mut store = CacheStore::new();
    for i in 0..3u64 {
        store.put(
            format!("k{i}"),
            CacheEntry {
                stored_at_ms: i,
                expires_at_ms: u64::MAX,
                status: 200,
                headers: StrMap::new(),
                body: vec![0u8; CACHE_MAX_TOTAL_BYTES / 2],
                body_encoding: "utf8",
            },
        );
    }
    assert_eq!(store.len(), 2);
    assert!(store.get("k0", 0).is_none());
    assert!(store.get("k1", 0).is_some());
    assert!(store.get("k2", 0).is_some());
}

#[test]
fn cache_key_is_per_caller() {
    let k1 = cache_key("caller_a", "GET", "https://x/", 7);
    let k2 = cache_key("caller_b", "GET", "https://x/", 7);
    assert_ne!(k1, k2);
    let k3 = cache_key("caller_a", "POST", "https://x/", 7);
    assert_ne!(k1, k3);
    assert_eq!(k1, "caller_a|GET|https://x/|7");
    let k4 = cache_key("caller_a", "GET", "https://x/|0", 7);
    assert_ne!(k4, cache_key("caller_a", "GET", "https://x/", 0x07));
    assert_ne!(k4, cache_key("caller_a", "GET", "https://x/|07", 0));
}

#[test]
fn fingerprints_hash_the_body_as_std_hashes_its_fields() {
    let mut p = params("https://x/");
    p.body = Some("alpha".into());
    let mut h = DefaultHasher::new();
    p.body.hash(&mut h);
    p.body_base64.hash(&mut h);
    assert_eq!(request_body_hash(&p), h.finish());

    let part = MultipartPart {
        name: "a".into(),
        value: None,
        file_base64: Some("AAEC".into()),
        filename: Some("f".into()),
        content_type: None,
    };
    let mut h = DefaultHasher::new();
    "multipart".hash(&mut h);
    part.name.hash(&mut h);
    part.value.hash(&mut h);
    part.file_base64.hash(&mut h);
    part.filename.hash(&mut h);
    part.content_type.hash(&mut h);
    p.multipart = Some(vec![part]);
    assert_eq!(request_body_hash(&p), h.finish());
}

#[test]
fn request_body_hash_distinguishes_bodies_but_not_multipart_boundaries() {
    let mut p1 = params("https://x/");
    p1.body = Some("alpha".into());
    let mut p2 = params("https://x/");
    p2.body = Some("beta".into());
    assert_ne!(request_body_hash(&p1), request_body_hash(&p2));

    let part = MultipartPart {
        name: "a".into(),
        value: Some("v".into()),
        file_base64: None,
        filename: None,
        content_type: None,
    };
    let mut m1 = params("https://x/");
    m1.multipart = Some(vec![part.clone()]);
    let mut m2 = params("https://x/");
    m2.multipart = Some(vec![part.clone()]);
    assert_eq!(request_body_hash(&m1), request_body_hash(&m2), "same content, same hash");
    let mut m3 = params("https://x/");
    m3.body = Some("not multipart".into());
    assert_ne!(request_body_hash(&m1), request_body_hash(&m3));
}

#[test]
fn is_cacheable_only_for_2xx_without_no_store() {
    let mut h: StrMap<String> = StrMap::new();
    assert!(is_cacheable(200, &h));
    assert!(!is_cacheable(404, &h), "non-2xx not cacheable");
    h.insert("Cache-Control".into(), "max-age=60".into());
    assert!(is_cacheable(200, &h), "no-store absent");
    h.insert("cache-control".into(), "no-cache, no-store".into());
    assert!(!is_cacheable(200, &h), "no-store present");
}

#[test]
fn inflight_cap_tracks_and_releases_per_caller() {
    let mut inflight = Inflight::new(2);
    assert!(inflight.try_acquire("a").is_ok());
    assert!(inflight.try_acquire("a").is_ok());
    let err = inflight.try_acquire("a").unwrap_err();
    assert!(err.contains("in flight"), "error was: {err}");
    // Different caller is unaffected — the cap is per caller, not global.
    assert!(inflight.try_acquire("b").is_ok());

    inflight.release("a");
    assert!(inflight.try_acquire("a").is_ok());
    assert!(inflight.try_acquire("a").is_err());
    // Releasing below zero / unknown callers is a no-op, not a panic.
    inflight.release("a");
    inflight.release("a");
    inflight.release("never_acquired");
}

fn http_request(action_id: &str, caller: &str) -> Inbound {
    Inbound::Action {
        action_id: action_id.to_string(),
        action: "http_request".to_string(),
        caller: caller.to_string(),
        params_json: b"{}".to_vec(),
    }
}

#[test]
fn per_caller_cap_rejects_over_limit_requests() {
    let mut inflight = Inflight::new(2);
    let mut ok = 0;
    let mut rejected = 0;
    for (id, caller) in [
        ("x-0", "caller_x"),
        ("x-1", "caller_x"),
        ("x-2", "caller_x"),
        ("x-3", "caller_x"),
        ("x-4", "caller_x"),
        ("y-1", "caller_y"),
    ] {
        match route(&mut inflight, http_request(id, caller), 0) {
            LoopAction::Spawn { action_id, caller: c, .. } => {
                assert_eq!(action_id, id);
                assert_eq!(c, caller);
                ok += 1;
            }
            LoopAction::Reply { reply } => {
                assert_eq!(reply.action_id, id);
                assert_eq!(reply.status, ActionStatus::ActionError);
                assert!(
                    reply.error.contains("in flight"),
                    "unexpected rejection: {}",
                    reply.error
                );
                rejected += 1;
            }
            other => panic!("unexpected action: {other:?}"),
        }
    }
    assert_eq!(ok, 3, "caller_x's 2 + caller_y's 1 should all succeed");
    assert_eq!(rejected, 3, "caller_x's remaining 3 should be rejected");
    inflight.release("caller_x");
    assert!(matches!(
        route(&mut inflight, http_request("x-5", "caller_x"), 0),
        LoopAction::Spawn { .. }
    ));
}

#[test]
fn the_loop_answers_pings_and_stops_on_shutdown() {
    let mut inflight = Inflight::new(0);
    match route(&mut inflight, Inbound::Ping { timestamp: 5 }, 9) {
        LoopAction::Pong { original_timestamp, server_timestamp } => {
            assert_eq!(original_timestamp, 5);
            assert_eq!(server_timestamp, 9);
        }
        other => panic!("unexpected action: {other:?}"),
    }
    assert!(matches!(route(&mut inflight, Inbound::Shutdown, 0), LoopAction::Stop));
    assert!(matches!(
        route(&mut inflight, Inbound::PublishAck { accepted: false }, 0),
        LoopAction::PublishFailed
    ));
    assert!(matches!(
        route(&mut inflight, Inbound::PublishAck { accepted: true }, 0),
        LoopAction::Ignore
    ));
    for i in 0..20 {
        assert!(matches!(
            route(&mut inflight, http_request(&format!("action-{i}"), "caller_x"), 0),
            LoopAction::Spawn { .. }
        ));
    }
}

#[test]
fn redirect_max_caps_hops() {
    let (block, allow) = (Blocklist::default(), Allowlist::default());
    // The chain A -> B -> C: the first redirect is hop 1, the second hop 2.
    assert_eq!(redirect_step(1, 1, "b.example", None, &block, &allow), Redirect::Follow);
    assert_eq!(redirect_step(2, 1, "c.example", None, &block, &allow), Redirect::Stop);
    assert_eq!(redirect_step(2, 2, "c.example", None, &block, &allow), Redirect::Follow);
    assert_eq!(
        redirect_step(1, 2, "10.0.0.1", Some(Ip::v4(10, 0, 0, 1)), &block, &allow),
        Redirect::Refuse("address 10.0.0.1 is blocked by SSRF policy".to_string())
    );
}

#[test]
fn requests_to_blocked_literals_are_refused_and_hosts_resolved() {
    let (block, allow) = (Blocklist::default(), Allowlist::default());
    assert_eq!(url_host("http://127.0.0.1/x"), Some("127.0.0.1".to_string()));
    assert_eq!(url_host("http://Example.com:8080/x"), Some("example.com".to_string()));
    assert_eq!(url_host("not a url"), None);
    let literal = gate_request(
        &Some("127.0.0.1".to_string()),
        Some(Ip::v4(127, 0, 0, 1)),
        &block,
        &allow,
    );
    assert_eq!(
        literal,
        Gate::Refuse("address 127.0.0.1 is blocked by SSRF policy".to_string())
    );
    let public =
        gate_request(&Some("8.8.8.8".to_string()), Some(Ip::v4(8, 8, 8, 8)), &block, &allow);
    assert!(!matches!(public, Gate::Refuse(_)));
}

fn event(out: &HttpOutcome) -> Value {
    assert_eq!(COMPLETED_EVENT, "request_completed");
    serde_json::from_str(&completed_event(out)).unwrap()
}

#[test]
fn request_completed_event_reports_retry_count_on_success() {
    let (fetched, _) = fetch(&params("http://127.0.0.1/"), |_| text_response(200, "hello"));
    let out = completed_outcome(
        fetched.response,
        fetched.stats.attempts,
        "127.0.0.1".to_string(),
        12,
    );
    let v = event(&out);
    assert_eq!(v["status"], 200);
    assert_eq!(v["host"], "127.0.0.1");
    assert_eq!(v["retry_count"], 0, "one attempt, no retries");
    assert_eq!(v["error"], "");
    assert_eq!(v["latency_ms"].as_u64(), Some(12));
    let reply: Value = serde_json::from_slice(&out.response.unwrap()).unwrap();
    assert_eq!(reply["status"], 200);
    assert_eq!(reply["body"], "hello");
    assert_eq!(reply["body_encoding"], "utf8");
    assert_eq!(reply["headers"]["content-type"], "text/plain");
}

#[test]
fn request_completed_event_reports_retry_count_on_failure() {
    let mut p = params("http://127.0.0.1/");
    p.max_retries = 2;
    let (fetched, _) = fetch(&p, |_| Served::Failed(send_error("connection closed", false)));
    let out = completed_outcome(
        fetched.response,
        fetched.stats.attempts,
        "127.0.0.1".to_string(),
        3,
    );
    let v = event(&out);
    assert_eq!(v["status"], 0, "no HTTP response was ever received");
    assert_eq!(v["host"], "127.0.0.1");
    assert_eq!(v["retry_count"], 2, "max_retries 2: 3 attempts, 2 retries");
    assert!(!v["error"].as_str().unwrap().is_empty());
}

#[test]
fn refused_requests_report_no_status() {
    let out = refused_outcome("no \"way\"".to_string(), "h".to_string(), 4);
    assert_eq!(out.status, 0);
    assert_eq!(out.retry_count, 0);
    assert_eq!(event(&out)["error"], "no \"way\"");
}

fn raw_request(url: &str) -> RawHttpRequest {
    RawHttpRequest {
        method: Some("GET".to_string()),
        url: Some(url.to_string()),
        headers: StrMap::new(),
        body: None,
        body_base64: None,
        multipart: None,
        cache_ttl_ms: None,
        use_cookies: None,
        timeout_ms: None,
        max_retries: None,
        retry_backoff_ms: None,
        follow_redirects: Some(true),
        max_redirects: Some(2),
    }
}

fn arrived(url: &str) -> (HttpRequestParams, Option<String>) {
    match begin_http(Ok(raw_request(url)), 0) {
        HttpStep::ReadLiteral { params, host } => (params, host),
        other => panic!("unexpected step: {other:?}"),
    }
}

#[test]
fn bad_requests_end_at_once() {
    match begin_http(Err("eof".to_string()), 5) {
        HttpStep::Done { outcome } => {
            assert_eq!(outcome.response.unwrap_err(), "invalid JSON: eof");
            assert_eq!(outcome.host, "");
            assert_eq!(outcome.latency_ms, 5);
        }
        other => panic!("unexpected step: {other:?}"),
    }
}

#[test]
fn blocked_literals_are_refused_before_any_fetch() {
    let (block, allow) = (Blocklist::default(), Allowlist::default());
    let (p, host) = arrived("http://169.254.169.254/latest");
    assert_eq!(redirect_cap(&p), Some(2));
    match after_literal(p, host, Some(Ip::v4(169, 254, 169, 254)), &block, &allow, 1) {
        HttpStep::Done { outcome } => {
            assert_eq!(
                outcome.response.unwrap_err(),
                "address 169.254.169.254 is blocked by SSRF policy"
            );
            assert_eq!(outcome.host, "169.254.169.254");
        }
        other => panic!("unexpected step: {other:?}"),
    }
}

#[test]
fn names_are_resolved_before_the_fetch() {
    let (block, allow) = (Blocklist::default(), Allowlist::default());
    for (addr, reached) in [(Ip::v4(8, 8, 8, 8), true), (Ip::v4(127, 0, 0, 1), false)] {
        let (p, host) = arrived("http://example.com/");
        let HttpStep::Resolve { params, host } = after_literal(p, host, None, &block, &allow, 1)
        else {
            panic!("a name is resolved")
        };
        match after_resolution(params, host, &Ok(vec![addr]), &block, &allow, 2) {
            HttpStep::Fetch { params, host } => {
                assert!(reached);
                assert_eq!(params.url, "http://example.com/");
                assert_eq!(host, "example.com");
            }
            HttpStep::Done { outcome } => {
                assert!(!reached);
                let err = outcome.response.unwrap_err();
                assert!(err.contains("blocked by SSRF policy"), "error was: {err}");
            }
            other => panic!("unexpected step: {other:?}"),
        }
    }
}
