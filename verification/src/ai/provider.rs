//! Requests to the Anthropic Messages API, and its responses.

use crate::ai::request::{ChatCompletionParams, Message};
use crate::fields::{join, joined, lemma_joined_grows, trim_trailing, without_trailing};
use crate::number::{dec, decimal};
use crate::search::provider::HttpRequestJson;
use crate::strmap::StrMap;
use crate::text::{join2, texts};
use crate::trusted::{json_quote, json_quoted};
use vstd::prelude::*;

verus! {

/// API version that the `anthropic-version` header pins.
pub const ANTHROPIC_VERSION: &'static str = "2023-06-01";

/// Tokens that a completion used.
#[derive(Debug, Clone, Copy, PartialEq, Eq, Structural)]
pub struct Usage {
    pub input_tokens: u64,
    pub output_tokens: u64,
}

/// A completion in the shape that callers see.
#[derive(Debug, PartialEq, Eq)]
pub struct ChatResult {
    pub content: String,
    pub stop_reason: String,
    pub usage: Usage,
}

/// A decoded response: the text of each content block, empty where a block has
/// none.
#[derive(Debug, PartialEq, Eq)]
pub struct RawAnthropicResponse {
    pub content: Vec<String>,
    pub stop_reason: Option<String>,
    pub usage: Usage,
}

/// The Anthropic Messages API: `POST {base_url}/v1/messages`, the key in
/// `x-api-key`.
#[derive(Debug, Clone, Copy, PartialEq, Eq, Structural)]
pub struct AnthropicProvider;

/// One message as JSON.
pub open spec fn message_text(m: Message) -> Seq<char> {
    "{\"content\":"@ + json_quoted(m.content@) + ",\"role\":"@ + json_quoted(m.role@) + "}"@
}

/// Where a completion is asked for.
pub open spec fn url_text(params: ChatCompletionParams) -> Seq<char> {
    without_trailing(params.base_url@, '/') + "/v1/messages"@
}

/// What is sent to ask for it.
pub open spec fn body_text(params: ChatCompletionParams) -> Seq<char> {
    "{\"max_tokens\":"@ + decimal(params.max_tokens as nat) + ",\"messages\":["@ + joined(
        Seq::new(params.messages@.len(), |i: int| message_text(params.messages@[i])),
        ","@,
    ) + "],\"model\":"@ + json_quoted(params.model@) + "}"@
}

/// The headers that are sent with it.
pub open spec fn header_texts(api_key: Seq<char>) -> Map<Seq<char>, Seq<char>> {
    Map::empty().insert("x-api-key"@, api_key).insert("anthropic-version"@, "2023-06-01"@).insert(
        "content-type"@,
        "application/json"@,
    )
}

/// The completion in a decoded response: its first block.
pub open spec fn result_of(raw: RawAnthropicResponse) -> Option<(Seq<char>, Seq<char>, Usage)> {
    if raw.content@.len() == 0 {
        None
    } else {
        Some(
            (
                raw.content@[0]@,
                match raw.stop_reason {
                    Some(s) => s@,
                    None => Seq::empty(),
                },
                raw.usage,
            ),
        )
    }
}

/// The messages of a conversation go out in the caller's order, none left out: the
/// body lists exactly one member for each, the `i`-th with the content and the
/// role of the `i`-th message.
pub proof fn lemma_messages_go_out_in_order(params: ChatCompletionParams) -> (members: Seq<
    Seq<char>,
>)
    ensures
        members.len() == params.messages@.len(),
        forall|i: int|
            0 <= i < params.messages@.len() ==> (#[trigger] members[i]) == "{\"content\":"@
                + json_quoted(params.messages@[i].content@) + ",\"role\":"@ + json_quoted(
                params.messages@[i].role@,
            ) + "}"@,
        body_text(params) == "{\"max_tokens\":"@ + decimal(params.max_tokens as nat)
            + ",\"messages\":["@ + joined(members, ","@) + "],\"model\":"@ + json_quoted(
            params.model@,
        ) + "}"@,
{
    let members = Seq::new(params.messages@.len(), |i: int| message_text(params.messages@[i]));
    members
}

/// A message that is added to a conversation comes last: the request says what it
/// said before, and then the new message.
pub proof fn lemma_a_conversation_goes_on(
    shorter: ChatCompletionParams,
    longer: ChatCompletionParams,
    next: Message,
) -> (said: Seq<char>)
    requires
        shorter.messages@.len() > 0,
        longer.messages@ == shorter.messages@.push(next),
        longer.max_tokens == shorter.max_tokens,
        longer.model == shorter.model,
    ensures
        body_text(shorter) == said + "],\"model\":"@ + json_quoted(shorter.model@) + "}"@,
        body_text(longer) == said + ",{\"content\":"@ + json_quoted(next.content@) + ",\"role\":"@
            + json_quoted(next.role@) + "}],\"model\":"@ + json_quoted(shorter.model@) + "}"@,
{
    let a = Seq::new(shorter.messages@.len(), |i: int| message_text(shorter.messages@[i]));
    let b = Seq::new(longer.messages@.len(), |i: int| message_text(longer.messages@[i]));
    assert(b =~= a.push(message_text(next)));
    lemma_joined_grows(a, ","@, message_text(next));
    let said = "{\"max_tokens\":"@ + decimal(shorter.max_tokens as nat) + ",\"messages\":["@
        + joined(a, ","@);
    reveal_strlit(",");
    reveal_strlit("{\"content\":");
    reveal_strlit(",{\"content\":");
    reveal_strlit("}");
    reveal_strlit("],\"model\":");
    reveal_strlit("}],\"model\":");
    assert(","@ + "{\"content\":"@ =~= ",{\"content\":"@);
    assert("}"@ + "],\"model\":"@ =~= "}],\"model\":"@);
    assert(body_text(longer) =~= said + (","@ + "{\"content\":"@) + json_quoted(next.content@)
        + ",\"role\":"@ + json_quoted(next.role@) + ("}"@ + "],\"model\":"@) + json_quoted(
        shorter.model@,
    ) + "}"@);
    said
}

impl AnthropicProvider {
    /// The request that performs a completion. The URL and the body are
    /// functions of the parameters alone, so the key reaches the provider in a
    /// header only.
    pub fn build_http_request(&self, params: &ChatCompletionParams, api_key: &str) -> (r:
        HttpRequestJson)
        ensures
            r.method@ == "POST"@,
            r.url@ == url_text(*params),
            r.body@ == body_text(*params),
            r.headers@.map_values(|v: String| v@) == header_texts(api_key@),
            r.timeout_ms == params.timeout_ms,
            exists|members: Seq<Seq<char>>|
                members.len() == params.messages@.len() && (forall|i: int|
                    0 <= i < params.messages@.len() ==> (#[trigger] members[i])
                        == "{\"content\":"@ + json_quoted(params.messages@[i].content@)
                        + ",\"role\":"@ + json_quoted(params.messages@[i].role@) + "}"@) && r.body@
                    == "{\"max_tokens\":"@ + decimal(params.max_tokens as nat)
                    + ",\"messages\":["@ + #[trigger] joined(members, ","@) + "],\"model\":"@
                    + json_quoted(params.model@) + "}"@,
            r.url@ == without_trailing(params.base_url@, '/') + "/v1/messages"@,
            r.headers@.dom().contains("x-api-key"@) && r.headers@["x-api-key"@]@ == api_key@,
            r.headers@.dom().contains("anthropic-version"@) && r.headers@["anthropic-version"@]@
                == "2023-06-01"@,
            r.headers@.dom().contains("content-type"@) && r.headers@["content-type"@]@
                == "application/json"@,
    {
        let mut url = trim_trailing(params.base_url.as_str(), '/');
        url.append("/v1/messages");
        let mut messages: Vec<String> = Vec::new();
        let mut i: usize = 0;
        while i < params.messages.len()
            invariant
                i <= params.messages.len(),
                messages@.len() == i,
                forall|j: int|
                    0 <= j < i ==> (#[trigger] messages@[j])@ == message_text(params.messages@[j]),
            decreases params.messages.len() - i,
        {
            let m = &params.messages[i];
            let mut t = join2("{\"content\":", json_quote(m.content.as_str()).as_str());
            t.append(",\"role\":");
            t.append(json_quote(m.role.as_str()).as_str());
            t.append("}");
            messages.push(t);
            i += 1;
        }
        let mut body = join2("{\"max_tokens\":", dec(params.max_tokens as u64).as_str());
        body.append(",\"messages\":[");
        body.append(join(&messages, ",").as_str());
        body.append("],\"model\":");
        body.append(json_quote(params.model.as_str()).as_str());
        body.append("}");
        assert(texts(messages@) =~= Seq::new(
            params.messages@.len(),
            |i: int| message_text(params.messages@[i]),
        ));
        proof {
            let members = lemma_messages_go_out_in_order(*params);
            assert(joined(members, ","@).len() >= 0);
            reveal_strlit("x-api-key");
            reveal_strlit("anthropic-version");
            reveal_strlit("content-type");
            assert("x-api-key"@.len() == 9 && "anthropic-version"@.len() == 17
                && "content-type"@.len() == 12);
        }
        let mut headers: StrMap<String> = StrMap::new();
        let _ = headers.insert("x-api-key".to_owned(), api_key.to_owned());
        let _ = headers.insert("anthropic-version".to_owned(), "2023-06-01".to_owned());
        let _ = headers.insert("content-type".to_owned(), "application/json".to_owned());
        HttpRequestJson { method: "POST", url, headers, body, timeout_ms: params.timeout_ms }
    }

    /// The completion in a decoded response.
    pub fn parse_response(&self, body: Result<RawAnthropicResponse, String>) -> (r: Result<
        ChatResult,
        String,
    >)
        ensures
            match (body, r) {
                (Err(e), Err(m)) => m@ == "malformed anthropic response: "@ + e@,
                (Err(_), Ok(_)) => false,
                (Ok(raw), Err(m)) => result_of(raw) is None && m@
                    == "anthropic response has no content blocks"@,
                (Ok(raw), Ok(c)) => result_of(raw) == Some((c.content@, c.stop_reason@, c.usage)),
            },
            r is Ok <==> body is Ok && body->Ok_0.content@.len() > 0,
            r is Ok ==> r->Ok_0.content@ == body->Ok_0.content@[0]@ && r->Ok_0.usage.input_tokens
                == body->Ok_0.usage.input_tokens && r->Ok_0.usage.output_tokens
                == body->Ok_0.usage.output_tokens && r->Ok_0.stop_reason@ == (match (
                body->Ok_0.stop_reason
            ) {
                Some(s) => s@,
                None => Seq::empty(),
            }),
    {
        match body {
            Err(e) => Err(join2("malformed anthropic response: ", e.as_str())),
            Ok(raw) => {
                if raw.content.len() == 0 {
                    return Err("anthropic response has no content blocks".to_owned());
                }
                let content = raw.content[0].clone();
                let stop_reason = match raw.stop_reason {
                    Some(s) => s,
                    None => String::new(),
                };
                Ok(ChatResult { content, stop_reason, usage: raw.usage })
            },
        }
    }
}

/// The answer is the text of the first content block, with the provider's reason
/// for stopping and its token counts; without a block there is none.
pub proof fn lemma_the_first_block_is_the_answer(raw: RawAnthropicResponse)
    ensures
        result_of(raw) is None <==> raw.content@.len() == 0,
        result_of(raw) matches Some((content, reason, usage)) ==> content == raw.content@[0]@
            && usage == raw.usage && (raw.stop_reason matches Some(s) ==> reason == s@),
{
}

/// A completion is asked for at the base URL, with or without slashes at its end,
/// with the key, the pinned version and a JSON body.
pub proof fn lemma_where_a_completion_is_asked_for(
    params: ChatCompletionParams,
    bare: ChatCompletionParams,
    api_key: Seq<char>,
)
    requires
        bare.base_url@.len() > 0 && bare.base_url@.last() != '/',
        params.base_url@ == bare.base_url@ || params.base_url@ == bare.base_url@.push('/'),
    ensures
        url_text(params) == bare.base_url@ + "/v1/messages"@,
        header_texts(api_key).dom() == set!["x-api-key"@, "anthropic-version"@, "content-type"@],
        header_texts(api_key)["x-api-key"@] == api_key,
        header_texts(api_key)["anthropic-version"@] == "2023-06-01"@,
        header_texts(api_key)["content-type"@] == "application/json"@,
{
    reveal_with_fuel(without_trailing, 2);
    assert(bare.base_url@.push('/').drop_last() =~= bare.base_url@);
    reveal_strlit("x-api-key");
    reveal_strlit("anthropic-version");
    reveal_strlit("content-type");
    assert("x-api-key"@.len() == 9 && "anthropic-version"@.len() == 17 && "content-type"@.len()
        == 12);
    assert(header_texts(api_key).dom() =~= set![
        "x-api-key"@,
        "anthropic-version"@,
        "content-type"@,
    ]);
}

/// The key reaches the provider in one header and nowhere else: requests for
/// the same parameters with different keys differ in that header alone.
pub proof fn lemma_key_only_in_header(
    params: ChatCompletionParams,
    key_a: Seq<char>,
    key_b: Seq<char>,
    a: HttpRequestJson,
    b: HttpRequestJson,
)
    requires
        a.url@ == url_text(params) && b.url@ == url_text(params),
        a.body@ == body_text(params) && b.body@ == body_text(params),
        a.headers@.map_values(|v: String| v@) == header_texts(key_a),
        b.headers@.map_values(|v: String| v@) == header_texts(key_b),
    ensures
        a.url@ == b.url@,
        a.body@ == b.body@,
        a.headers@.map_values(|v: String| v@).remove("x-api-key"@) == b.headers@.map_values(
            |v: String| v@,
        ).remove("x-api-key"@),
        header_texts(key_a)["x-api-key"@] == key_a,
{
    reveal_strlit("x-api-key");
    reveal_strlit("anthropic-version");
    reveal_strlit("content-type");
    assert("x-api-key"@.len() == 9 && "anthropic-version"@.len() == 17 && "content-type"@.len()
        == 12);
}

} // verus!
