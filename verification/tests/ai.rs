use serde_json::Value;
use vynkor_plugins::ai::config::{
    from_env, parse_json, seed, AiConfig, DiscoverySource, AGENTS_ENV, DISCOVERY_ENV, MODELS_ENV,
};
use vynkor_plugins::ai::db::{Agent, AiDb, Model};
use vynkor_plugins::ai::handler::{
    admit_chat, decoded_body, prepare_chat, response_body, NetworkHttpResponse, NetworkReply,
    Outbound,
};
use vynkor_plugins::ai::provider::{AnthropicProvider, RawAnthropicResponse, Usage};
use vynkor_plugins::ai::request::{
    parse_request, ChatCompletionParams, Message, Provider, RawChatRequest,
    DEFAULT_ANTHROPIC_BASE_URL, DEFAULT_MAX_TOKENS, MAX_MAX_TOKENS,
};
use vynkor_plugins::ai::usage::UsageRow;

fn text(v: &Value, key: &str) -> String {
    v.get(key).and_then(Value::as_str).unwrap_or_default().to_string()
}

fn flag(v: &Value, key: &str) -> bool {
    v.get(key).and_then(Value::as_bool).unwrap_or(false)
}

fn decode<T>(raw: &str, item: fn(&Value) -> T) -> Result<Vec<T>, String> {
    let v: Value = serde_json::from_str(raw).map_err(|e| e.to_string())?;
    Ok(v.as_array().ok_or("invalid type")?.iter().map(item).collect())
}

fn model_item(v: &Value) -> Model {
    Model {
        id: text(v, "id"),
        provider: text(v, "provider"),
        base_url: text(v, "base_url"),
        api_key_env: text(v, "api_key_env"),
        is_default: flag(v, "is_default"),
        discovered_at: None,
        last_seen: 0,
    }
}

fn agent_item(v: &Value) -> Agent {
    Agent {
        id: text(v, "id"),
        name: text(v, "name"),
        model_id: text(v, "model_id"),
        system_prompt: text(v, "system_prompt"),
        goal: text(v, "goal"),
        description: text(v, "description"),
        is_default: flag(v, "is_default"),
        created_at: 0,
    }
}

fn source_item(v: &Value) -> DiscoverySource {
    DiscoverySource {
        provider: text(v, "provider"),
        base_url: text(v, "base_url"),
        api_key_env: text(v, "api_key_env"),
    }
}

#[test]
fn parses_models_json() {
    let raw = r#"[
        {"id":"sonnet-5","provider":"anthropic","api_key_env":"ANTHROPIC_API_KEY","is_default":true},
        {"id":"llama3.2","provider":"openai","base_url":"http://localhost:11434/v1","api_key_env":"OLLAMA_API_KEY"}
    ]"#;
    let models = parse_json(MODELS_ENV, decode(raw, model_item)).unwrap();
    assert_eq!(models.len(), 2);
    assert_eq!(models[0].provider, "anthropic");
    assert!(models[0].is_default);
    assert_eq!(models[1].base_url, "http://localhost:11434/v1");
}

#[test]
fn parses_agents_json() {
    let raw = r#"[
        {"id":"code","name":"Coder","model_id":"qwen2.5-coder","system_prompt":"code only","goal":"help","description":"dev","is_default":true}
    ]"#;
    let agents = parse_json(AGENTS_ENV, decode(raw, agent_item)).unwrap();
    assert_eq!(agents[0].id, "code");
    assert_eq!(agents[0].model_id, "qwen2.5-coder");
    assert_eq!(agents[0].system_prompt, "code only");
}

#[test]
fn parses_discovery_json() {
    let raw = r#"[
        {"provider":"ollama","base_url":"http://localhost:11434"},
        {"provider":"openai","base_url":"https://api.openai.com/v1","api_key_env":"OPENAI_API_KEY"}
    ]"#;
    let sources = parse_json(DISCOVERY_ENV, decode(raw, source_item)).unwrap();
    assert_eq!(sources.len(), 2);
    assert_eq!(sources[0].provider, "ollama");
    assert_eq!(sources[1].api_key_env, "OPENAI_API_KEY");
}

#[test]
fn rejects_invalid_json() {
    let err = parse_json(MODELS_ENV, decode("not json", model_item)).unwrap_err();
    assert!(err.contains(MODELS_ENV), "error was: {err}");
}

#[test]
fn empty_env_is_default_config() {
    let none = || Err("never decoded".to_string());
    let (cfg, notes) =
        from_env(&None, none(), &None, Err("never decoded".to_string()), &None, Err(String::new()));
    assert!(cfg.models.is_empty() && cfg.agents.is_empty() && cfg.discovery.is_empty());
    assert!(notes.is_empty());
}

#[test]
fn bad_lists_are_noted_and_skipped() {
    let (cfg, notes) = from_env(
        &Some("not json".to_string()),
        decode("not json", model_item),
        &Some("[]".to_string()),
        decode("[]", agent_item),
        &None,
        Ok(Vec::new()),
    );
    assert!(cfg.models.is_empty());
    assert_eq!(notes.len(), 1);
    assert!(notes[0].contains(MODELS_ENV), "{}", notes[0]);
}

fn model(id: &str) -> Model {
    Model {
        id: id.to_string(),
        provider: "openai".to_string(),
        base_url: "http://localhost:11434/v1".to_string(),
        api_key_env: "OLLAMA_API_KEY".to_string(),
        is_default: false,
        discovered_at: None,
        last_seen: 0,
    }
}

fn agent(id: &str, model_id: &str) -> Agent {
    Agent {
        id: id.to_string(),
        name: id.to_string(),
        model_id: model_id.to_string(),
        system_prompt: "be helpful".to_string(),
        goal: String::new(),
        description: String::new(),
        is_default: false,
        created_at: 1_750_000_000_000,
    }
}

#[test]
fn upsert_model_then_list() {
    let mut d = AiDb::open();
    d.upsert_model(model("llama3.2"));
    assert_eq!(d.list_models(), vec![model("llama3.2")]);
}

#[test]
fn upsert_model_is_idempotent() {
    let mut d = AiDb::open();
    d.upsert_model(model("a"));
    d.upsert_model(model("a"));
    assert_eq!(d.list_models().len(), 1);
}

#[test]
fn default_model_returns_none_when_unset() {
    assert!(AiDb::open().default_model().is_none());
}

#[test]
fn get_model_missing_is_none() {
    assert!(AiDb::open().get_model("nope").is_none());
}

#[test]
fn delete_model_removes() {
    let mut d = AiDb::open();
    d.upsert_model(model("x"));
    d.delete_model("x");
    assert!(d.get_model("x").is_none());
}

#[test]
fn agent_crud() {
    let mut d = AiDb::open();
    let a = agent("code", "qwen2.5-coder");
    d.upsert_agent(agent("code", "qwen2.5-coder"));
    assert_eq!(d.get_agent("code"), Some(agent("code", "qwen2.5-coder")));
    assert_eq!(d.list_agents(), vec![a]);
    d.delete_agent("code");
    assert!(d.get_agent("code").is_none());
}

#[test]
fn usage_stats_aggregates_by_model_and_agent() {
    let mut d = AiDb::open();
    d.record_usage(UsageRow {
        agent_id: "code".into(),
        model_id: "qwen".into(),
        input_tokens: 10,
        output_tokens: 5,
    });
    d.record_usage(UsageRow {
        agent_id: "code".into(),
        model_id: "qwen".into(),
        input_tokens: 2,
        output_tokens: 3,
    });
    d.record_usage(UsageRow {
        agent_id: String::new(),
        model_id: "llama".into(),
        input_tokens: 7,
        output_tokens: 1,
    });

    let s = d.usage_stats();
    assert_eq!(s.totals.requests, 3);
    assert_eq!(s.totals.input_tokens, 19);
    assert_eq!(s.totals.output_tokens, 9);

    let qwen = s.by_model.iter().find(|(id, _)| id == "qwen").unwrap().1;
    assert_eq!(qwen.requests, 2);
    assert_eq!(qwen.input_tokens, 12);

    let code = s.by_agent.iter().find(|(id, _)| id == "code").unwrap().1;
    assert_eq!(code.requests, 2);
    assert_eq!(code.output_tokens, 8);
    assert_eq!(s.by_model[0].0, "qwen", "busiest first");
    let summed: u64 = s.by_model.iter().map(|(_, b)| b.requests).sum();
    assert_eq!(summed, s.totals.requests);
}

#[test]
fn one_model_is_the_default() {
    let mut d = AiDb::open();
    d.upsert_model(model("b"));
    d.upsert_model(model("a"));
    d.set_model_default("a");
    d.set_model_default("b");
    assert_eq!(d.default_model().unwrap().id, "b");
    assert_eq!(d.list_models().iter().filter(|m| m.is_default).count(), 1);
    assert_eq!(d.list_models()[0].id, "b", "the default comes first");
    d.touch_model("a", 77);
    assert_eq!(d.get_model("a").unwrap().last_seen, 77);
    d.upsert_agent(agent("x", "a"));
    d.set_agent_default("x");
    assert_eq!(d.default_agent().unwrap().id, "x");
}

#[test]
fn seeding_leaves_one_default() {
    let mut m1 = model("m1");
    m1.is_default = true;
    let mut m2 = model("m2");
    m2.is_default = true;
    let cfg = AiConfig {
        models: vec![m1, m2],
        agents: vec![agent("a1", "m1")],
        discovery: Vec::new(),
    };
    let mut d = AiDb::open();
    seed(&mut d, &cfg);
    assert_eq!(d.list_models().len(), 2);
    assert_eq!(d.list_models().iter().filter(|m| m.is_default).count(), 1);
    assert_eq!(d.list_agents().len(), 1);
}

fn params() -> ChatCompletionParams {
    ChatCompletionParams {
        provider: Provider::Anthropic,
        base_url: "https://api.anthropic.com".to_string(),
        model: "sonnet-5".to_string(),
        api_key_env: "ANTHROPIC_API_KEY".to_string(),
        messages: vec![Message { role: "user".to_string(), content: "hi".to_string() }],
        max_tokens: 1024,
        timeout_ms: 30_000,
    }
}

fn anthropic_body(bytes: &[u8]) -> Result<RawAnthropicResponse, String> {
    let v: Value = serde_json::from_slice(bytes).map_err(|e| e.to_string())?;
    Ok(RawAnthropicResponse {
        content: v["content"].as_array().unwrap().iter().map(|b| text(b, "text")).collect(),
        stop_reason: v.get("stop_reason").and_then(Value::as_str).map(str::to_string),
        usage: Usage {
            input_tokens: v["usage"]["input_tokens"].as_u64().unwrap(),
            output_tokens: v["usage"]["output_tokens"].as_u64().unwrap(),
        },
    })
}

#[test]
fn builds_request_with_auth_header_and_no_leaked_key_in_url() {
    let req = AnthropicProvider.build_http_request(&params(), "sk-secret");
    assert_eq!(req.url, "https://api.anthropic.com/v1/messages");
    assert_eq!(req.headers.get("x-api-key").unwrap(), "sk-secret");
    assert!(!req.url.contains("sk-secret"));
    assert!(req.body.contains("sonnet-5"));
}

#[test]
fn the_request_body_is_the_messages_call() {
    let mut p = params();
    p.messages[0].content = "say \"hi\"\n".to_string();
    let req = AnthropicProvider.build_http_request(&p, "sk-secret");
    let body: Value = serde_json::from_str(&req.body).unwrap();
    assert_eq!(body["model"], "sonnet-5");
    assert_eq!(body["max_tokens"], 1024);
    assert_eq!(body["messages"][0]["role"], "user");
    assert_eq!(body["messages"][0]["content"], "say \"hi\"\n");
}

#[test]
fn anthropic_parses_valid_response() {
    let body = br#"{"content": [{"type": "text", "text": "hello there"}],
        "stop_reason": "end_turn", "usage": {"input_tokens": 5, "output_tokens": 3}}"#;
    let result = AnthropicProvider.parse_response(anthropic_body(body)).unwrap();
    assert_eq!(result.content, "hello there");
    assert_eq!(result.stop_reason, "end_turn");
    assert_eq!(result.usage.input_tokens, 5);
    assert_eq!(result.usage.output_tokens, 3);
}

#[test]
fn rejects_response_with_no_content_blocks() {
    let body = br#"{"content": [], "usage": {"input_tokens": 1, "output_tokens": 0}}"#;
    let err = AnthropicProvider.parse_response(anthropic_body(body)).unwrap_err();
    assert!(err.contains("no content blocks"), "error was: {err}");
}

#[test]
fn anthropic_rejects_malformed_json() {
    let err = AnthropicProvider.parse_response(anthropic_body(b"not json")).unwrap_err();
    assert!(err.contains("malformed"), "error was: {err}");
}

fn valid_anthropic_json() -> Value {
    serde_json::from_str(
        r#"{
            "provider": "anthropic",
            "model": "sonnet-5",
            "api_key_env": "ANTHROPIC_API_KEY",
            "messages": [{"role": "user", "content": "hi"}]
        }"#,
    )
    .unwrap()
}

fn raw_chat(v: Value) -> Result<RawChatRequest, String> {
    let s = |k: &str| v.get(k).and_then(Value::as_str).map(str::to_string);
    Ok(RawChatRequest {
        provider: s("provider"),
        base_url: s("base_url"),
        model: s("model"),
        api_key_env: s("api_key_env"),
        messages: v.get("messages").and_then(Value::as_array).map(|a| {
            a.iter()
                .map(|m| Message { role: text(m, "role"), content: text(m, "content") })
                .collect()
        }),
        max_tokens: v.get("max_tokens").and_then(Value::as_u64).map(|n| n as u32),
        timeout_ms: v.get("timeout_ms").and_then(Value::as_u64),
    })
}

fn parse(v: Value) -> Result<ChatCompletionParams, String> {
    parse_request(raw_chat(v))
}

#[test]
fn accepts_minimal_anthropic_request() {
    let params = parse(valid_anthropic_json()).unwrap();
    assert_eq!(params.provider, Provider::Anthropic);
    assert_eq!(params.base_url, DEFAULT_ANTHROPIC_BASE_URL);
    assert_eq!(params.max_tokens, DEFAULT_MAX_TOKENS);
    assert_eq!(params.messages.len(), 1);
}

#[test]
fn rejects_missing_provider() {
    let mut body = valid_anthropic_json();
    body.as_object_mut().unwrap().remove("provider");
    let err = parse(body).unwrap_err();
    assert!(err.contains("provider"), "error was: {err}");
}

#[test]
fn openai_requires_base_url() {
    let mut body = valid_anthropic_json();
    body["provider"] = "openai".into();
    let err = parse(body).unwrap_err();
    assert!(err.contains("base_url"), "error was: {err}");
}

#[test]
fn openai_accepts_explicit_base_url() {
    let mut body = valid_anthropic_json();
    body["provider"] = "openai".into();
    body["base_url"] = "http://localhost:11434/v1".into();
    let params = parse(body).unwrap();
    assert_eq!(params.provider, Provider::OpenAi);
    assert_eq!(params.base_url, "http://localhost:11434/v1");
}

#[test]
fn rejects_missing_messages() {
    let mut body = valid_anthropic_json();
    body.as_object_mut().unwrap().remove("messages");
    let err = parse(body).unwrap_err();
    assert!(err.contains("messages"), "error was: {err}");
}

#[test]
fn rejects_empty_messages() {
    let mut body = valid_anthropic_json();
    body["messages"] = Value::Array(Vec::new());
    let err = parse(body).unwrap_err();
    assert!(err.contains("messages"), "error was: {err}");
}

#[test]
fn clamps_max_tokens_above_cap() {
    let mut body = valid_anthropic_json();
    body["max_tokens"] = 999_999.into();
    let params = parse(body).unwrap();
    assert_eq!(params.max_tokens, MAX_MAX_TOKENS);
}

#[test]
fn chats_need_an_allowed_key_that_is_set() {
    let err = admit_chat(raw_chat(valid_anthropic_json()), "OTHER_KEY").unwrap_err();
    assert!(err.contains("ANTHROPIC_API_KEY"), "error was: {err}");
    let p = admit_chat(raw_chat(valid_anthropic_json()), "X, ANTHROPIC_API_KEY").unwrap();
    assert_eq!(
        prepare_chat(&p, String::new()).unwrap_err(),
        "environment variable ANTHROPIC_API_KEY is not set"
    );
    match prepare_chat(&p, "sk".to_string()).unwrap() {
        Outbound::Anthropic { http } => {
            assert_eq!(http.method, "POST");
            assert_eq!(http.url, "https://api.anthropic.com/v1/messages");
        }
        other => panic!("unexpected: {other:?}"),
    }
}

fn answered(status: u16, body: &str, body_encoding: &str) -> NetworkReply {
    NetworkReply::Answered {
        response: NetworkHttpResponse {
            status,
            body: body.to_string(),
            body_encoding: body_encoding.to_string(),
        },
    }
}

#[test]
fn bodies_are_taken_as_they_decode() {
    let response = |status: u16, encoding: &str| NetworkHttpResponse {
        status,
        body: "x".to_string(),
        body_encoding: encoding.to_string(),
    };
    assert_eq!(decoded_body(response(200, "base64"), Ok(vec![7])), Ok(vec![7]));
    assert_eq!(decoded_body(response(200, "utf8"), Ok(vec![7])), Ok(b"x".to_vec()));
    assert_eq!(
        decoded_body(response(200, "base64"), Err("bad".to_string())),
        Err("malformed base64 response body: bad".to_string())
    );
    assert_eq!(
        decoded_body(response(404, "base64"), Ok(vec![7])),
        Err("provider returned HTTP 404: x".to_string())
    );
}

#[test]
fn network_replies_give_the_body_or_the_error() {
    assert_eq!(response_body(answered(200, "hi", "utf8")), Ok(b"hi".to_vec()));
    assert_eq!(response_body(answered(200, "AAEC/w==", "base64")), Ok(vec![0, 1, 2, 255]));
    assert!(response_body(answered(200, "*", "base64")).is_err());
    let err = response_body(answered(500, "oops", "utf8")).unwrap_err();
    assert!(err.contains("500"), "error was: {err}");
    for reply in [
        NetworkReply::CallFailed { error: "boom".to_string() },
        NetworkReply::Refused { error: "boom".to_string() },
        NetworkReply::Undecodable { error: "boom".to_string() },
    ] {
        assert!(response_body(reply).unwrap_err().contains("boom"));
    }
}
