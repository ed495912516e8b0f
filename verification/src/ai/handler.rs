//! The course of a `chat_completion` action: which request is sent through the
//! `network` plugin, and what becomes of its reply.

use crate::ai::provider::{body_text, header_texts, url_text, AnthropicProvider};
use crate::ai::request::{
    accepted, parse_request, raw_error, ChatCompletionParams, Provider, RawChatRequest,
};
use crate::number::{dec, decimal};
use crate::search::provider::HttpRequestJson;
use crate::search::request::{allowed_names, is_allowed_key_env, parse_allowed_key_envs};
use crate::text::{bytes_outcome, join2, join3, push_text, same};
use crate::trusted::{base64_bytes, base64_decode};
use vstd::prelude::*;

verus! {

/// The complaint about a key variable that the operator did not permit.
pub open spec fn not_allowed(api_key_env: Seq<char>) -> Seq<char> {
    "api_key_env '"@ + api_key_env + "' is not in the operator's AI_PLUGIN_ALLOWED_KEY_ENVS allowlist"@
}

/// Admits a request: its parameters are valid and the operator permits the key
/// variable that it names. `allowed_raw` is the value of the setting, empty
/// where it is unset.
pub fn admit_chat(parsed: Result<RawChatRequest, String>, allowed_raw: &str) -> (r: Result<
    ChatCompletionParams,
    String,
>)
    ensures
        match (parsed, r) {
            (Err(e), Err(m)) => m@ == "invalid JSON: "@ + e@,
            (Err(_), Ok(_)) => false,
            (Ok(raw), Err(m)) => if raw_error(raw) is Some {
                raw_error(raw) == Some(m@)
            } else {
                !allowed_names(allowed_raw@).contains(raw.api_key_env->0@) && m@ == not_allowed(
                    raw.api_key_env->0@,
                )
            },
            (Ok(raw), Ok(p)) => raw_error(raw) is None && accepted(raw, p) && allowed_names(
                allowed_raw@,
            ).contains(p.api_key_env@),
        },
        r is Ok <==> parsed is Ok && raw_error(parsed->Ok_0) is None && allowed_names(
            allowed_raw@,
        ).contains(parsed->Ok_0.api_key_env->0@),
        parsed is Ok && raw_error(parsed->Ok_0) is None && r is Err ==> r->Err_0@
            == "api_key_env '"@ + parsed->Ok_0.api_key_env->0@
            + "' is not in the operator's AI_PLUGIN_ALLOWED_KEY_ENVS allowlist"@,
{
    let params = match parse_request(parsed) {
        Ok(p) => p,
        Err(e) => return Err(e),
    };
    let allowed = parse_allowed_key_envs(allowed_raw);
    if !is_allowed_key_env(params.api_key_env.as_str(), &allowed) {
        return Err(
            join3(
                "api_key_env '",
                params.api_key_env.as_str(),
                "' is not in the operator's AI_PLUGIN_ALLOWED_KEY_ENVS allowlist",
            ),
        );
    }
    Ok(params)
}

/// What is sent for an admitted request.
#[derive(Debug, PartialEq, Eq)]
pub enum Outbound {
    /// Send this through `network`.
    Anthropic { http: HttpRequestJson },
    /// The adapter for OpenAI-compatible servers builds the request, with this
    /// key.
    OpenAi { api_key: String },
}

/// Prepares what is sent. `api_key` is the value of the key variable, empty
/// where it is unset.
pub fn prepare_chat(params: &ChatCompletionParams, api_key: String) -> (r: Result<
    Outbound,
    String,
>)
    ensures
        match r {
            Err(e) => api_key@.len() == 0 && e@ == "environment variable "@ + params.api_key_env@
                + " is not set"@,
            Ok(out) => api_key@.len() > 0 && match out {
                Outbound::Anthropic { http } => {
                    &&& params.provider == Provider::Anthropic
                    &&& http.method@ == "POST"@
                    &&& http.url@ == url_text(*params)
                    &&& http.body@ == body_text(*params)
                    &&& http.headers@.map_values(|v: String| v@) == header_texts(api_key@)
                    &&& http.timeout_ms == params.timeout_ms
                },
                Outbound::OpenAi { api_key: k } => params.provider == Provider::OpenAi && k
                    == api_key,
            },
        },
{
    if api_key.as_str().is_empty() {
        return Err(
            join3("environment variable ", params.api_key_env.as_str(), " is not set"),
        );
    }
    match params.provider {
        Provider::Anthropic => Ok(
            Outbound::Anthropic {
                http: AnthropicProvider.build_http_request(params, api_key.as_str()),
            },
        ),
        Provider::OpenAi => Ok(Outbound::OpenAi { api_key }),
    }
}

/// The reply of `network`, as far as it is needed.
#[derive(Debug, PartialEq, Eq)]
pub struct NetworkHttpResponse {
    pub status: u16,
    pub body: String,
    pub body_encoding: String,
}

/// How sending a request through `network` went.
#[derive(Debug, PartialEq, Eq)]
pub enum NetworkReply {
    /// The call did not reach `network`.
    CallFailed { error: String },
    /// `network` ended the action with an error.
    Refused { error: String },
    /// What `network` replied did not decode.
    Undecodable { error: String },
    /// The decoded reply.
    Answered { response: NetworkHttpResponse },
}

/// The provider's body in a response, or why there is none, given what base64
/// makes of the body.
pub open spec fn body_given(
    response: NetworkHttpResponse,
    decoded: Result<Seq<u8>, Seq<char>>,
) -> Result<Seq<u8>, Seq<char>> {
    if !(200 <= response.status < 300) {
        Err("provider returned HTTP "@ + decimal(response.status as nat) + ": "@ + response.body@)
    } else if response.body_encoding@ == "base64"@ {
        match decoded {
            Ok(b) => Ok(b),
            Err(e) => Err("malformed base64 response body: "@ + e),
        }
    } else {
        Ok(vstd::utf8::encode_utf8(response.body@))
    }
}

/// The provider's body in a response, given what base64 makes of the body: only
/// a success with a readable body has one.
pub fn decoded_body(response: NetworkHttpResponse, decoded: Result<Vec<u8>, String>) -> (r: Result<
    Vec<u8>,
    String,
>)
    ensures
        bytes_outcome(r) == body_given(response, bytes_outcome(decoded)),
        !(200 <= response.status < 300) ==> r is Err && r->Err_0@ == "provider returned HTTP "@
            + decimal(response.status as nat) + ": "@ + response.body@,
        200 <= response.status < 300 && response.body_encoding@ != "base64"@ ==> r is Ok
            && r->Ok_0@ == vstd::utf8::encode_utf8(response.body@),
        200 <= response.status < 300 && response.body_encoding@ == "base64"@ ==> (r is Ok
            <==> decoded is Ok) && (decoded is Ok ==> r->Ok_0@ == decoded->Ok_0@),
{
    if response.status < 200 || response.status >= 300 {
        let mut e = join2("provider returned HTTP ", dec(response.status as u64).as_str());
        e.append(": ");
        e.append(response.body.as_str());
        return Err(e);
    }
    if same(response.body_encoding.as_str(), "base64") {
        match decoded {
            Ok(b) => Ok(b),
            Err(e) => Err(join2("malformed base64 response body: ", e.as_str())),
        }
    } else {
        let mut b: Vec<u8> = Vec::new();
        push_text(&mut b, response.body.as_str());
        assert(b@ =~= vstd::utf8::encode_utf8(response.body@));
        Ok(b)
    }
}

/// The provider's body in a reply of `network`, or why there is none.
pub open spec fn reply_body(reply: NetworkReply) -> Result<Seq<u8>, Seq<char>> {
    match reply {
        NetworkReply::CallFailed { error } => Err("network plugin call failed: "@ + error@),
        NetworkReply::Refused { error } => Err("network plugin error: "@ + error@),
        NetworkReply::Undecodable { error } => Err("malformed network response: "@ + error@),
        NetworkReply::Answered { response } => body_given(
            response,
            base64_bytes(response.body@),
        ),
    }
}

/// Only a success has a body: what is in it reaches the caller byte for byte, and
/// every other status is reported with what the provider said.
pub proof fn lemma_only_a_success_has_a_body(response: NetworkHttpResponse)
    ensures
        ({
            let body = reply_body(NetworkReply::Answered { response });
            &&& body is Ok ==> 200 <= response.status < 300
            &&& 200 <= response.status < 300 && response.body_encoding@ == "utf8"@ ==> body == Ok::<
                Seq<u8>,
                Seq<char>,
            >(vstd::utf8::encode_utf8(response.body@))
            &&& 200 <= response.status < 300 && response.body_encoding@ == "base64"@ ==> (body is Ok
                <==> base64_bytes(response.body@) is Ok) && (body is Ok ==> body == base64_bytes(
                response.body@,
            ))
            &&& !(200 <= response.status < 300) ==> body == Err::<Seq<u8>, Seq<char>>(
                "provider returned HTTP "@ + decimal(response.status as nat) + ": "@
                    + response.body@,
            )
        }),
{
    reveal_strlit("utf8");
    reveal_strlit("base64");
    assert("utf8"@.len() == 4 && "base64"@.len() == 6);
}

/// The provider's body in a reply of `network`.
pub fn response_body(reply: NetworkReply) -> (r: Result<Vec<u8>, String>)
    ensures
        bytes_outcome(r) == reply_body(reply),
        r is Ok ==> reply is Answered && 200 <= reply->response.status < 300,
        reply matches NetworkReply::Answered { response } ==> (200 <= response.status < 300
            && response.body_encoding@ != "base64"@ ==> r is Ok && r->Ok_0@
            == vstd::utf8::encode_utf8(response.body@)),
        reply matches NetworkReply::Answered { response } ==> (200 <= response.status < 300
            && response.body_encoding@ == "base64"@ ==> bytes_outcome(r) is Ok == (base64_bytes(
            response.body@,
        ) is Ok) && (r is Ok ==> base64_bytes(response.body@) == Ok::<Seq<u8>, Seq<char>>(
            r->Ok_0@,
        ))),
{
    match reply {
        NetworkReply::CallFailed { error } => Err(
            join2("network plugin call failed: ", error.as_str()),
        ),
        NetworkReply::Refused { error } => Err(join2("network plugin error: ", error.as_str())),
        NetworkReply::Undecodable { error } => Err(
            join2("malformed network response: ", error.as_str()),
        ),
        NetworkReply::Answered { response } => {
            let decoded = base64_decode(response.body.as_str());
            decoded_body(response, decoded)
        },
    }
}

} // verus!
