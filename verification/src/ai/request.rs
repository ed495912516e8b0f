//! Parameters of the `chat_completion` action.

use crate::text::{join2, lesser, same};
use vstd::prelude::*;

verus! {

/// Longest timeout; longer ones are cut down to it.
pub const MAX_TIMEOUT_MS: u64 = 30_000;

/// Token limit where the caller names none.
pub const DEFAULT_MAX_TOKENS: u32 = 1024;

/// Largest token limit; larger ones are cut down to it.
pub const MAX_MAX_TOKENS: u32 = 8192;

pub const DEFAULT_ANTHROPIC_BASE_URL: &'static str = "https://api.anthropic.com";

/// The setting that lists the environment variables a caller may name as
/// `api_key_env`, separated by commas. Nothing is permitted where it is unset.
pub const ALLOWED_KEY_ENVS_ENV: &'static str = "AI_PLUGIN_ALLOWED_KEY_ENVS";

/// One message of a conversation.
#[derive(Debug, PartialEq, Eq)]
pub struct Message {
    pub role: String,
    pub content: String,
}

/// A provider of completions.
#[derive(Debug, Clone, Copy, PartialEq, Eq, Structural)]
pub enum Provider {
    Anthropic,
    OpenAi,
}

/// Validated parameters of a completion.
#[derive(Debug, PartialEq, Eq)]
pub struct ChatCompletionParams {
    pub provider: Provider,
    pub base_url: String,
    pub model: String,
    pub api_key_env: String,
    pub messages: Vec<Message>,
    pub max_tokens: u32,
    pub timeout_ms: u64,
}

/// Decoded parameters, before validation.
#[derive(Debug)]
pub struct RawChatRequest {
    pub provider: Option<String>,
    pub base_url: Option<String>,
    pub model: Option<String>,
    pub api_key_env: Option<String>,
    pub messages: Option<Vec<Message>>,
    pub max_tokens: Option<u32>,
    pub timeout_ms: Option<u64>,
}

/// The provider of that name.
pub open spec fn provider_named(name: Seq<char>) -> Option<Provider> {
    if name == "anthropic"@ {
        Some(Provider::Anthropic)
    } else if name == "openai"@ {
        Some(Provider::OpenAi)
    } else {
        None
    }
}

/// Whether a base URL is given.
pub open spec fn has_base_url(raw: RawChatRequest) -> bool {
    raw.base_url is Some && raw.base_url->0@.len() > 0
}

/// What is wrong with decoded parameters, if anything.
pub open spec fn raw_error(raw: RawChatRequest) -> Option<Seq<char>> {
    if raw.provider is None {
        Some("missing required field: provider"@)
    } else if provider_named(raw.provider->0@) is None {
        Some("unsupported provider: "@ + raw.provider->0@)
    } else if provider_named(raw.provider->0@) == Some(Provider::OpenAi) && !has_base_url(raw) {
        Some("missing required field: base_url"@)
    } else if raw.model is None {
        Some("missing required field: model"@)
    } else if raw.model->0@.len() == 0 {
        Some("model must not be empty"@)
    } else if raw.api_key_env is None {
        Some("missing required field: api_key_env"@)
    } else if raw.api_key_env->0@.len() == 0 {
        Some("api_key_env must not be empty"@)
    } else if raw.messages is None {
        Some("missing required field: messages"@)
    } else if raw.messages->0@.len() == 0 {
        Some("messages must not be empty"@)
    } else {
        None
    }
}

/// Whether `p` is what valid parameters come to, with defaults filled in and
/// cut down to the caps.
pub open spec fn accepted(raw: RawChatRequest, p: ChatCompletionParams) -> bool {
    &&& Some(p.provider) == provider_named(raw.provider->0@)
    &&& p.base_url@ == if has_base_url(raw) {
        raw.base_url->0@
    } else {
        "https://api.anthropic.com"@
    }
    &&& p.model == raw.model->0
    &&& p.api_key_env == raw.api_key_env->0
    &&& p.messages == raw.messages->0
    &&& p.max_tokens == match raw.max_tokens {
        Some(n) => lesser(n as nat, MAX_MAX_TOKENS as nat),
        None => DEFAULT_MAX_TOKENS as nat,
    }
    &&& p.timeout_ms == match raw.timeout_ms {
        Some(n) => lesser(n as nat, MAX_TIMEOUT_MS as nat),
        None => MAX_TIMEOUT_MS as nat,
    }
}

/// Validates the decoded parameters of a `chat_completion` action.
pub fn parse_request(parsed: Result<RawChatRequest, String>) -> (r: Result<
    ChatCompletionParams,
    String,
>)
    ensures
        match (parsed, r) {
            (Err(e), Err(m)) => m@ == "invalid JSON: "@ + e@,
            (Err(_), Ok(_)) => false,
            (Ok(raw), Err(m)) => raw_error(raw) == Some(m@),
            (Ok(raw), Ok(p)) => raw_error(raw) is None && accepted(raw, p),
        },
{
    let raw = match parsed {
        Err(e) => return Err(join2("invalid JSON: ", e.as_str())),
        Ok(raw) => raw,
    };
    let provider = match &raw.provider {
        None => return Err("missing required field: provider".to_owned()),
        Some(name) => if same(name.as_str(), "anthropic") {
            Provider::Anthropic
        } else if same(name.as_str(), "openai") {
            Provider::OpenAi
        } else {
            return Err(join2("unsupported provider: ", name.as_str()));
        },
    };
    let base_url = match raw.base_url {
        Some(u) if !u.as_str().is_empty() => u,
        _ => match provider {
            Provider::Anthropic => "https://api.anthropic.com".to_owned(),
            Provider::OpenAi => return Err("missing required field: base_url".to_owned()),
        },
    };
    let model = match raw.model {
        Some(m) => m,
        None => return Err("missing required field: model".to_owned()),
    };
    if model.as_str().is_empty() {
        return Err("model must not be empty".to_owned());
    }
    let api_key_env = match raw.api_key_env {
        Some(k) => k,
        None => return Err("missing required field: api_key_env".to_owned()),
    };
    if api_key_env.as_str().is_empty() {
        return Err("api_key_env must not be empty".to_owned());
    }
    let messages = match raw.messages {
        Some(m) => m,
        None => return Err("missing required field: messages".to_owned()),
    };
    if messages.len() == 0 {
        return Err("messages must not be empty".to_owned());
    }
    let max_tokens: u32 = match raw.max_tokens {
        Some(n) => if n <= MAX_MAX_TOKENS {
            n
        } else {
            MAX_MAX_TOKENS
        },
        None => DEFAULT_MAX_TOKENS,
    };
    let timeout_ms: u64 = match raw.timeout_ms {
        Some(n) => if n <= MAX_TIMEOUT_MS {
            n
        } else {
            MAX_TIMEOUT_MS
        },
        None => MAX_TIMEOUT_MS,
    };
    Ok(
        ChatCompletionParams {
            provider,
            base_url,
            model,
            api_key_env,
            messages,
            max_tokens,
            timeout_ms,
        },
    )
}

/// Parameters are accepted exactly where a provider that is served, a model, a key
/// variable and at least one message are named, and a base URL where the provider
/// has none of its own.
pub proof fn lemma_what_is_accepted(raw: RawChatRequest)
    ensures
        raw_error(raw) is None <==> {
            &&& raw.provider is Some
            &&& raw.provider->0@ == "anthropic"@ || raw.provider->0@ == "openai"@ && raw.base_url
                is Some && raw.base_url->0@.len() > 0
            &&& raw.model is Some && raw.model->0@.len() > 0
            &&& raw.api_key_env is Some && raw.api_key_env->0@.len() > 0
            &&& raw.messages is Some && raw.messages->0@.len() > 0
        },
{
    reveal_strlit("anthropic");
    reveal_strlit("openai");
    assert("anthropic"@.len() == 9 && "openai"@.len() == 6);
}

/// What the caller asks for is kept as it is; token limits are cut down to 8192 and
/// timeouts to 30 seconds, and where nothing is asked for the limit is 1024 tokens
/// and 30 seconds.
pub proof fn lemma_what_is_asked_for_is_kept(raw: RawChatRequest, p: ChatCompletionParams)
    requires
        raw_error(raw) is None,
        accepted(raw, p),
    ensures
        Some(p.model) == raw.model,
        Some(p.api_key_env) == raw.api_key_env,
        Some(p.messages) == raw.messages,
        p.provider == Provider::Anthropic <==> raw.provider->0@ == "anthropic"@,
        raw.base_url is Some && raw.base_url->0@.len() > 0 ==> p.base_url@ == raw.base_url->0@,
        raw.base_url is None ==> p.base_url@ == "https://api.anthropic.com"@,
        raw.max_tokens is None ==> p.max_tokens == 1024,
        raw.max_tokens matches Some(n) ==> p.max_tokens == if n <= 8192 { n } else { 8192 },
        raw.timeout_ms is None ==> p.timeout_ms == 30_000,
        raw.timeout_ms matches Some(n) ==> p.timeout_ms == if n <= 30_000 { n } else { 30_000 },
{
    lemma_what_is_accepted(raw);
    reveal_strlit("anthropic");
    reveal_strlit("openai");
    assert("anthropic"@.len() == 9 && "openai"@.len() == 6);
}

/// Accepted parameters stay inside every cap and leave nothing empty, whatever
/// the caller asked for.
pub proof fn lemma_accepted_within_caps(raw: RawChatRequest, p: ChatCompletionParams)
    requires
        raw_error(raw) is None,
        accepted(raw, p),
    ensures
        p.max_tokens <= MAX_MAX_TOKENS,
        p.timeout_ms <= MAX_TIMEOUT_MS,
        p.base_url@.len() > 0,
        p.model@.len() > 0,
        p.api_key_env@.len() > 0,
        p.messages@.len() > 0,
{
    reveal_strlit("https://api.anthropic.com");
}

} // verus!
