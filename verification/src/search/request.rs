//! Parameters of the `web_search` action.

use crate::fields::{comma_items, lemma_list_grows, list_items, trim, trimmed};
use crate::number::{dec, decimal};
use crate::strmap::StrSet;
use crate::text::{join2, lemma_push_contains, lesser, same, texts};
use vstd::prelude::*;

verus! {

/// Longest query, in characters.
pub const MAX_QUERY_CHARS: usize = 400;

/// Result count where the caller names none.
pub const DEFAULT_COUNT: u32 = 5;

/// Largest result count; larger ones are cut down to it.
pub const MAX_COUNT: u32 = 20;

/// Longest timeout; longer ones are cut down to it.
pub const MAX_TIMEOUT_MS: u64 = 30_000;

pub const DEFAULT_BRAVE_BASE_URL: &'static str = "https://api.search.brave.com";

pub const DEFAULT_TAVILY_BASE_URL: &'static str = "https://api.tavily.com";

/// The setting that lists the environment variables a caller may name as
/// `api_key_env`, separated by commas. Nothing is permitted where it is unset.
pub const ALLOWED_KEY_ENVS_ENV: &'static str = "SEARCH_PLUGIN_ALLOWED_KEY_ENVS";

/// The names that a comma-separated list permits.
pub open spec fn allowed_names(raw: Seq<char>) -> Set<Seq<char>> {
    list_items(raw).to_set()
}

/// The names that the operator's list permits.
pub fn parse_allowed_key_envs(raw: &str) -> (r: StrSet)
    ensures
        r@ == allowed_names(raw@),
{
    let items = comma_items(raw);
    let ghost all = list_items(raw@);
    let mut out = StrSet::new();
    let mut i: usize = 0;
    assert(all.take(0).to_set() =~= Set::empty());
    while i < items.len()
        invariant
            i <= items.len(),
            texts(items@) == all,
            out@ == all.take(i as int).to_set(),
        decreases items.len() - i,
    {
        let ghost before = all.take(i as int);
        assert(all[i as int] == items@[i as int]@);
        assert(all.take(i + 1) =~= before.push(all[i as int]));
        out.insert(items[i].clone());
        assert(before.push(all[i as int]).to_set() =~= before.to_set().insert(all[i as int])) by {
            assert forall|x: Seq<char>| #[trigger]
                before.push(all[i as int]).to_set().contains(x)
                    <==> before.to_set().insert(all[i as int]).contains(x) by {
                lemma_push_contains(before, all[i as int], x);
            }
        }
        i += 1;
    }
    assert(all.take(all.len() as int) =~= all);
    out
}

/// Whether `name` may be named as `api_key_env`. Case matters.
pub fn is_allowed_key_env(name: &str, allowed: &StrSet) -> (r: bool)
    ensures
        r == allowed@.contains(name@),
{
    allowed.contains(name)
}

/// Without a list nothing is permitted, and an empty name or one with blanks at
/// its ends never is.
pub proof fn lemma_allowlist_denies_by_default(raw: Seq<char>, name: Seq<char>)
    requires
        list_items(raw).len() == 0 || name.len() == 0 || trimmed(name) != name,
    ensures
        !allowed_names(raw).contains(name),
{
    crate::fields::lemma_list_items(raw);
}

/// A search provider.
#[derive(Debug, Clone, Copy, PartialEq, Eq, Structural)]
pub enum Provider {
    Brave,
    Tavily,
}

/// The name of a provider.
pub open spec fn provider_name(p: Provider) -> Seq<char> {
    match p {
        Provider::Brave => "brave"@,
        Provider::Tavily => "tavily"@,
    }
}

/// The provider that is asked for: Brave where none is named.
pub open spec fn provider_named(name: Option<Seq<char>>) -> Option<Provider> {
    match name {
        None => Some(Provider::Brave),
        Some(n) => if n == "brave"@ {
            Some(Provider::Brave)
        } else if n == "tavily"@ {
            Some(Provider::Tavily)
        } else {
            None
        },
    }
}

/// Asking for a provider by its name gives that provider.
pub proof fn lemma_provider_names(p: Provider)
    ensures
        provider_named(Some(provider_name(p))) == Some(p),
{
    reveal_strlit("brave");
    reveal_strlit("tavily");
    assert("brave"@.len() != "tavily"@.len());
}

impl Provider {
    /// The name by which callers ask for the provider.
    pub fn as_str(&self) -> (r: &'static str)
        ensures
            r@ == provider_name(*self),
    {
        match self {
            Provider::Brave => "brave",
            Provider::Tavily => "tavily",
        }
    }
}

/// Validated parameters of a search.
#[derive(Debug, PartialEq, Eq)]
pub struct WebSearchParams {
    pub query: String,
    pub provider: Provider,
    /// Name of an environment variable that holds the key; never a key.
    pub api_key_env: String,
    pub base_url: String,
    pub count: u32,
    pub timeout_ms: u64,
}

/// Decoded parameters, before validation.
#[derive(Debug)]
pub struct RawSearchRequest {
    pub query: Option<String>,
    pub provider: Option<String>,
    pub api_key_env: Option<String>,
    pub base_url: Option<String>,
    pub count: Option<u32>,
    pub timeout_ms: Option<u64>,
}

/// The provider that decoded parameters ask for.
pub open spec fn asked_provider(raw: RawSearchRequest) -> Option<Provider> {
    provider_named(crate::text::opt_text(raw.provider))
}

/// What is wrong with decoded parameters, if anything.
pub open spec fn raw_error(raw: RawSearchRequest) -> Option<Seq<char>> {
    if raw.query is None {
        Some("missing required field: query"@)
    } else if trimmed(raw.query->0@).len() == 0 {
        Some("query must not be empty"@)
    } else if trimmed(raw.query->0@).len() > MAX_QUERY_CHARS {
        Some(
            "query exceeds max length of 400 chars (got "@ + decimal(trimmed(raw.query->0@).len())
                + ")"@,
        )
    } else if asked_provider(raw) is None {
        Some("unsupported provider: "@ + raw.provider->0@)
    } else if raw.api_key_env is None {
        Some("missing required field: api_key_env"@)
    } else if raw.api_key_env->0@.len() == 0 {
        Some("api_key_env must not be empty"@)
    } else {
        None
    }
}

/// Where a provider is reached unless the caller says otherwise.
pub open spec fn default_base_url(p: Provider) -> Seq<char> {
    match p {
        Provider::Brave => "https://api.search.brave.com"@,
        Provider::Tavily => "https://api.tavily.com"@,
    }
}

/// Whether `p` is what valid parameters come to: trimmed, with defaults filled
/// in and cut down to the caps.
pub open spec fn accepted(raw: RawSearchRequest, p: WebSearchParams) -> bool {
    &&& p.query@ == trimmed(raw.query->0@)
    &&& Some(p.provider) == asked_provider(raw)
    &&& p.api_key_env == raw.api_key_env->0
    &&& p.base_url@ == if raw.base_url is Some && raw.base_url->0@.len() > 0 {
        raw.base_url->0@
    } else {
        default_base_url(p.provider)
    }
    &&& p.count == match raw.count {
        Some(n) => lesser(n as nat, MAX_COUNT as nat),
        None => DEFAULT_COUNT as nat,
    }
    &&& p.timeout_ms == match raw.timeout_ms {
        Some(n) => lesser(n as nat, MAX_TIMEOUT_MS as nat),
        None => MAX_TIMEOUT_MS as nat,
    }
}

/// Validates the decoded parameters of a `web_search` action.
pub fn parse_request(parsed: Result<RawSearchRequest, String>) -> (r: Result<
    WebSearchParams,
    String,
>)
    ensures
        match (parsed, r) {
            (Err(e), Err(m)) => m@ == "invalid JSON: "@ + e@,
            (Err(_), Ok(_)) => false,
            (Ok(raw), Err(m)) => raw_error(raw) == Some(m@),
            (Ok(raw), Ok(p)) => raw_error(raw) is None && accepted(raw, p),
        },
{
    let raw = match parsed {
        Err(e) => return Err(join2("invalid JSON: ", e.as_str())),
        Ok(raw) => raw,
    };
    let query = match &raw.query {
        Some(q) => trim(q.as_str()),
        None => return Err("missing required field: query".to_owned()),
    };
    let n: usize = query.as_str().unicode_len();
    if n == 0 {
        return Err("query must not be empty".to_owned());
    }
    if n > MAX_QUERY_CHARS {
        let mut e = "query exceeds max length of 400 chars (got ".to_owned();
        e.append(dec(n as u64).as_str());
        e.append(")");
        return Err(e);
    }
    let provider = match &raw.provider {
        None => Provider::Brave,
        Some(name) => if same(name.as_str(), "brave") {
            Provider::Brave
        } else if same(name.as_str(), "tavily") {
            Provider::Tavily
        } else {
            return Err(join2("unsupported provider: ", name.as_str()));
        },
    };
    let api_key_env = match raw.api_key_env {
        Some(k) => k,
        None => return Err("missing required field: api_key_env".to_owned()),
    };
    if api_key_env.as_str().is_empty() {
        return Err("api_key_env must not be empty".to_owned());
    }
    let base_url = match raw.base_url {
        Some(u) if !u.as_str().is_empty() => u,
        _ => match provider {
            Provider::Brave => "https://api.search.brave.com".to_owned(),
            Provider::Tavily => "https://api.tavily.com".to_owned(),
        },
    };
    let count: u32 = match raw.count {
        Some(c) => if c <= MAX_COUNT {
            c
        } else {
            MAX_COUNT
        },
        None => DEFAULT_COUNT,
    };
    let timeout_ms: u64 = match raw.timeout_ms {
        Some(t) => if t <= MAX_TIMEOUT_MS {
            t
        } else {
            MAX_TIMEOUT_MS
        },
        None => MAX_TIMEOUT_MS,
    };
    Ok(WebSearchParams { query, provider, api_key_env, base_url, count, timeout_ms })
}

/// A search is accepted exactly where it names a query of 1 to 400 characters, blanks
/// around it aside, a key variable, and no provider but Brave or Tavily.
pub proof fn lemma_what_is_accepted(raw: RawSearchRequest)
    ensures
        raw_error(raw) is None <==> {
            &&& raw.query is Some
            &&& 1 <= trimmed(raw.query->0@).len() <= 400
            &&& raw.provider is None || raw.provider->0@ == "brave"@ || raw.provider->0@
                == "tavily"@
            &&& raw.api_key_env is Some && raw.api_key_env->0@.len() > 0
        },
{
    reveal_strlit("brave");
    reveal_strlit("tavily");
    assert("brave"@.len() == 5 && "tavily"@.len() == 6);
}

/// What the caller asks for is kept: the trimmed query, the provider, Brave where none
/// is named, the key variable and the base URL; up to 20 results and 30 seconds, five
/// results and 30 seconds where nothing is asked for.
pub proof fn lemma_what_is_asked_for_is_kept(raw: RawSearchRequest, p: WebSearchParams)
    requires
        raw_error(raw) is None,
        accepted(raw, p),
    ensures
        p.query@ == trimmed(raw.query->0@),
        Some(p.api_key_env) == raw.api_key_env,
        p.provider == Provider::Tavily <==> raw.provider is Some && raw.provider->0@ == "tavily"@,
        raw.base_url is Some && raw.base_url->0@.len() > 0 ==> p.base_url@ == raw.base_url->0@,
        raw.base_url is None && p.provider == Provider::Brave ==> p.base_url@
            == "https://api.search.brave.com"@,
        raw.base_url is None && p.provider == Provider::Tavily ==> p.base_url@
            == "https://api.tavily.com"@,
        raw.count is None ==> p.count == 5,
        raw.count matches Some(n) ==> p.count == if n <= 20 { n } else { 20 },
        raw.timeout_ms is None ==> p.timeout_ms == 30_000,
        raw.timeout_ms matches Some(n) ==> p.timeout_ms == if n <= 30_000 { n } else { 30_000 },
{
    reveal_strlit("brave");
    reveal_strlit("tavily");
    assert("brave"@.len() == 5 && "tavily"@.len() == 6);
}

/// A list permits the names that it holds: every entry that is written behind a comma
/// adds itself, and permits nothing else.
pub proof fn lemma_a_list_permits_its_names(raw: Seq<char>, entry: Seq<char>, name: Seq<char>)
    requires
        !entry.contains(','),
        trimmed(entry).len() > 0,
    ensures
        allowed_names(raw.push(',') + entry).contains(name) <==> allowed_names(raw).contains(name)
            || name == trimmed(entry),
        allowed_names(entry).contains(name) <==> name == trimmed(entry),
{
    lemma_list_grows(raw, entry);
    lemma_push_contains(list_items(raw), trimmed(entry), name);
    let one = seq![trimmed(entry)];
    assert(one[0] == trimmed(entry));
}

/// Accepted parameters stay inside every cap, whatever the caller asked for.
pub proof fn lemma_accepted_within_caps(raw: RawSearchRequest, p: WebSearchParams)
    requires
        raw_error(raw) is None,
        accepted(raw, p),
    ensures
        0 < p.query@.len() <= MAX_QUERY_CHARS,
        trimmed(p.query@) == p.query@,
        p.count <= MAX_COUNT,
        p.timeout_ms <= MAX_TIMEOUT_MS,
        p.api_key_env@.len() > 0,
        p.base_url@.len() > 0,
{
    crate::fields::lemma_trimmed_idempotent(raw.query->0@);
    reveal_strlit("https://api.search.brave.com");
    reveal_strlit("https://api.tavily.com");
}

} // verus!
