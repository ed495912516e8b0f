//! Requests to search providers, and their responses.

use crate::fields::{trim_trailing, without_trailing};
use crate::number::{dec, decimal, hex_byte, push_hex_byte};
use crate::search::request::WebSearchParams;
use crate::strmap::StrMap;
use crate::text::{join2, join3};
use crate::trusted::{json_quote, json_quoted};
use vstd::prelude::*;

verus! {

/// An outbound HTTP request, in the shape of `http_request` parameters.
#[derive(Debug, PartialEq, Eq)]
pub struct HttpRequestJson {
    pub method: &'static str,
    pub url: String,
    pub headers: StrMap<String>,
    pub body: String,
    pub timeout_ms: u64,
}

/// One search hit.
#[derive(Debug, PartialEq, Eq)]
pub struct SearchResult {
    pub title: String,
    pub url: String,
    pub snippet: String,
}

/// The query with its hits.
#[derive(Debug, PartialEq, Eq)]
pub struct SearchResponse {
    pub query: String,
    pub results: Vec<SearchResult>,
}

/// One hit as a provider returns it: fields that it left out are empty.
#[derive(Debug, PartialEq, Eq)]
pub struct RawHit {
    pub title: String,
    pub url: String,
    /// What the provider calls `description` or `content`.
    pub text: String,
}

/// A decoded response. `hits` is nothing where the provider returned no list.
#[derive(Debug, PartialEq, Eq)]
pub struct RawSearchResponse {
    pub hits: Option<Vec<RawHit>>,
}

/// Whether `results` are the hits, one for one and in order.
pub open spec fn normalized(hits: Seq<RawHit>, results: Seq<SearchResult>) -> bool {
    &&& results.len() == hits.len()
    &&& forall|i: int|
        0 <= i < hits.len() ==> (#[trigger] results[i]) == (SearchResult {
            title: hits[i].title,
            url: hits[i].url,
            snippet: hits[i].text,
        })
}

/// Every hit reaches the caller, in the provider's order, with its title, its address
/// and its text.
pub proof fn lemma_every_hit_reaches_the_caller(
    hits: Seq<RawHit>,
    results: Seq<SearchResult>,
    i: int,
)
    requires
        normalized(hits, results),
        0 <= i < hits.len(),
    ensures
        results.len() == hits.len(),
        results[i].title == hits[i].title,
        results[i].url == hits[i].url,
        results[i].snippet == hits[i].text,
{
    assert(results[i] == (SearchResult {
        title: hits[i].title,
        url: hits[i].url,
        snippet: hits[i].text,
    }));
}

/// The hits in the shape that callers see.
fn normalize(hits: Vec<RawHit>) -> (r: Vec<SearchResult>)
    ensures
        normalized(hits@, r@),
{
    let mut out: Vec<SearchResult> = Vec::new();
    let mut i: usize = 0;
    while i < hits.len()
        invariant
            i <= hits.len(),
            normalized(hits@.take(i as int), out@),
        decreases hits.len() - i,
    {
        let h = &hits[i];
        out.push(
            SearchResult { title: h.title.clone(), url: h.url.clone(), snippet: h.text.clone() },
        );
        i += 1;
    }
    out
}

/// A search provider: how it is asked, and how it answers. What goes into the
/// URL and the body is a function of the parameters alone, so the key reaches
/// the provider in a header only.
pub trait Provider {
    /// The HTTP method.
    spec fn method_text(&self) -> Seq<char>;

    /// Where a search is sent.
    spec fn url_text(&self, params: WebSearchParams) -> Seq<char>;

    /// The body that is sent with it.
    spec fn body_text(&self, params: WebSearchParams) -> Seq<char>;

    /// The headers that are sent with it.
    spec fn header_texts(&self, api_key: Seq<char>) -> Map<Seq<char>, Seq<char>>;

    /// What the provider is called in complaints.
    spec fn label(&self) -> Seq<char>;

    /// The request that performs a search with the key `api_key`.
    fn build_http_request(&self, params: &WebSearchParams, api_key: &str) -> (r: HttpRequestJson)
        ensures
            r.method@ == self.method_text(),
            r.url@ == self.url_text(*params),
            r.body@ == self.body_text(*params),
            r.headers@.map_values(|v: String| v@) == self.header_texts(api_key@),
            r.timeout_ms == params.timeout_ms,
    ;

    /// The hits in a decoded response. No list, or an empty one, is no error.
    fn parse_response(&self, body: Result<RawSearchResponse, String>) -> (r: Result<
        Vec<SearchResult>,
        String,
    >)
        ensures
            match (body, r) {
                (Err(e), Err(m)) => m@ == "malformed "@ + self.label() + " response: "@ + e@,
                (Ok(raw), Ok(results)) => match raw.hits {
                    Some(hits) => normalized(hits@, results@),
                    None => results@.len() == 0,
                },
                _ => false,
            },
    ;
}

/// The hits in a decoded response of the provider called `label`.
fn hits_of(label: &str, body: Result<RawSearchResponse, String>) -> (r: Result<
    Vec<SearchResult>,
    String,
>)
    ensures
        match (body, r) {
            (Err(e), Err(m)) => m@ == "malformed "@ + label@ + " response: "@ + e@,
            (Ok(raw), Ok(results)) => match raw.hits {
                Some(hits) => normalized(hits@, results@),
                None => results@.len() == 0,
            },
            _ => false,
        },
{
    match body {
        Err(e) => {
            let mut m = join3("malformed ", label, " response: ");
            m.append(e.as_str());
            Err(m)
        },
        Ok(raw) => match raw.hits {
            Some(hits) => Ok(normalize(hits)),
            None => Ok(Vec::new()),
        },
    }
}

// ---------------------------------------------------------------------------
// Query encoding
// ---------------------------------------------------------------------------

/// Bytes that stand for themselves in a query: letters, digits, `-`, `_`, `.`
/// and `~`.
pub open spec fn is_unreserved(b: u8) -> bool {
    ||| 48 <= b <= 57
    ||| 65 <= b <= 90
    ||| 97 <= b <= 122
    ||| b == 45
    ||| b == 95
    ||| b == 46
    ||| b == 126
}

/// One byte in a query.
pub open spec fn encoded_byte(b: u8) -> Seq<char> {
    if is_unreserved(b) {
        seq![b as char]
    } else {
        seq!['%'] + hex_byte(b)
    }
}

/// Bytes in a query.
pub open spec fn encoded(bytes: Seq<u8>) -> Seq<char>
    decreases bytes.len(),
{
    if bytes.len() == 0 {
        Seq::empty()
    } else {
        encoded(bytes.drop_last()) + encoded_byte(bytes.last())
    }
}

/// A text in a query: the encoding of its UTF-8 bytes.
pub open spec fn query_text(s: Seq<char>) -> Seq<char> {
    encoded(vstd::utf8::encode_utf8(s))
}

/// Encoding goes byte by byte: letters, digits, `-`, `_`, `.` and `~` stand for
/// themselves, every other byte is `%` and its two digits, and what is written one
/// after the other is encoded one after the other.
pub proof fn lemma_encoding_goes_byte_by_byte(bytes: Seq<u8>, b: u8)
    ensures
        encoded(Seq::empty()) == Seq::<char>::empty(),
        encoded(bytes.push(b)) == encoded(bytes) + encoded_byte(b),
        'a' <= b as char <= 'z' || 'A' <= b as char <= 'Z' || '0' <= b as char <= '9' || b as char
            == '-' || b as char == '_' || b as char == '.' || b as char == '~' ==> encoded_byte(b)
            == seq![b as char],
        !('a' <= b as char <= 'z' || 'A' <= b as char <= 'Z' || '0' <= b as char <= '9' || b as char
            == '-' || b as char == '_' || b as char == '.' || b as char == '~') ==> encoded_byte(b)
            == seq!['%'] + hex_byte(b),
{
    assert(bytes.push(b).drop_last() =~= bytes);
}

/// Percent-encodes a text for a query: every byte that does not stand for
/// itself becomes `%` and two hexadecimal digits.
pub fn urlencode_query(s: &str) -> (r: String)
    ensures
        r@ == query_text(s@),
{
    let bytes = s.as_bytes();
    let mut out = String::new();
    let mut i: usize = 0;
    assert(bytes@.take(0) =~= Seq::empty());
    while i < bytes.len()
        invariant
            i <= bytes.len(),
            out@ == encoded(bytes@.take(i as int)),
        decreases bytes.len() - i,
    {
        let b: u8 = bytes[i];
        let ghost before = out@;
        if (48 <= b && b <= 57) || (65 <= b && b <= 90) || (97 <= b && b <= 122) || b == 45 || b
            == 95 || b == 46 || b == 126 {
            out.push(b as char);
            assert(out@ =~= before + encoded_byte(b));
        } else {
            out.push('%');
            push_hex_byte(&mut out, b);
            assert(out@ =~= before + encoded_byte(b));
        }
        assert(bytes@.take(i + 1).drop_last() =~= bytes@.take(i as int));
        i += 1;
    }
    assert(bytes@.take(bytes@.len() as int) =~= bytes@);
    out
}

/// Whether a character can stand inside a query value.
pub open spec fn is_query_char(c: char) -> bool {
    c == '%' || (c as u32 <= 126 && is_unreserved(c as u8))
}

/// An encoded text holds nothing that could end the value or the query: no
/// `&`, `=`, `#`, `?`, `/` and no blank.
pub proof fn lemma_encoding_is_contained(bytes: Seq<u8>)
    ensures
        forall|i: int| 0 <= i < encoded(bytes).len() ==> is_query_char(#[trigger] encoded(bytes)[i]),
    decreases bytes.len(),
{
    if bytes.len() > 0 {
        let front = encoded(bytes.drop_last());
        let tail = encoded_byte(bytes.last());
        lemma_encoding_is_contained(bytes.drop_last());
        assert forall|i: int| 0 <= i < encoded(bytes).len() implies is_query_char(
            #[trigger] encoded(bytes)[i],
        ) by {
            if i < front.len() {
                assert(encoded(bytes)[i] == front[i]);
            } else {
                assert(encoded(bytes)[i] == tail[i - front.len()]);
            }
        }
    }
}

// ---------------------------------------------------------------------------
// Brave
// ---------------------------------------------------------------------------

/// Brave Search: `GET {base_url}/res/v1/web/search`, the key in
/// `X-Subscription-Token`.
#[derive(Debug, Clone, Copy, PartialEq, Eq, Structural)]
pub struct BraveProvider;

impl Provider for BraveProvider {
    open spec fn method_text(&self) -> Seq<char> {
        "GET"@
    }

    open spec fn url_text(&self, params: WebSearchParams) -> Seq<char> {
        without_trailing(params.base_url@, '/') + "/res/v1/web/search?q="@ + query_text(
            params.query@,
        ) + "&count="@ + decimal(params.count as nat)
    }

    open spec fn body_text(&self, params: WebSearchParams) -> Seq<char> {
        Seq::empty()
    }

    open spec fn header_texts(&self, api_key: Seq<char>) -> Map<Seq<char>, Seq<char>> {
        Map::empty().insert("X-Subscription-Token"@, api_key).insert(
            "Accept"@,
            "application/json"@,
        )
    }

    open spec fn label(&self) -> Seq<char> {
        "brave"@
    }

    fn build_http_request(&self, params: &WebSearchParams, api_key: &str) -> (r: HttpRequestJson) {
        let mut url = trim_trailing(params.base_url.as_str(), '/');
        url.append("/res/v1/web/search?q=");
        url.append(urlencode_query(params.query.as_str()).as_str());
        url.append("&count=");
        url.append(dec(params.count as u64).as_str());
        let mut headers: StrMap<String> = StrMap::new();
        let _ = headers.insert("X-Subscription-Token".to_owned(), api_key.to_owned());
        let _ = headers.insert("Accept".to_owned(), "application/json".to_owned());
        HttpRequestJson {
            method: "GET",
            url,
            headers,
            body: String::new(),
            timeout_ms: params.timeout_ms,
        }
    }

    fn parse_response(&self, body: Result<RawSearchResponse, String>) -> (r: Result<
        Vec<SearchResult>,
        String,
    >) {
        hits_of("brave", body)
    }
}

// ---------------------------------------------------------------------------
// Tavily
// ---------------------------------------------------------------------------

/// Tavily Search: `POST {base_url}/search`, the key as a bearer token.
#[derive(Debug, Clone, Copy, PartialEq, Eq, Structural)]
pub struct TavilyProvider;

impl Provider for TavilyProvider {
    open spec fn method_text(&self) -> Seq<char> {
        "POST"@
    }

    open spec fn url_text(&self, params: WebSearchParams) -> Seq<char> {
        without_trailing(params.base_url@, '/') + "/search"@
    }

    open spec fn body_text(&self, params: WebSearchParams) -> Seq<char> {
        "{\"max_results\":"@ + decimal(params.count as nat) + ",\"query\":"@ + json_quoted(
            params.query@,
        ) + "}"@
    }

    open spec fn header_texts(&self, api_key: Seq<char>) -> Map<Seq<char>, Seq<char>> {
        Map::empty().insert("Authorization"@, "Bearer "@ + api_key).insert(
            "content-type"@,
            "application/json"@,
        )
    }

    open spec fn label(&self) -> Seq<char> {
        "tavily"@
    }

    fn build_http_request(&self, params: &WebSearchParams, api_key: &str) -> (r: HttpRequestJson) {
        let mut url = trim_trailing(params.base_url.as_str(), '/');
        url.append("/search");
        let mut body = join2("{\"max_results\":", dec(params.count as u64).as_str());
        body.append(",\"query\":");
        body.append(json_quote(params.query.as_str()).as_str());
        body.append("}");
        let mut headers: StrMap<String> = StrMap::new();
        let _ = headers.insert("Authorization".to_owned(), join2("Bearer ", api_key));
        let _ = headers.insert("content-type".to_owned(), "application/json".to_owned());
        HttpRequestJson { method: "POST", url, headers, body, timeout_ms: params.timeout_ms }
    }

    fn parse_response(&self, body: Result<RawSearchResponse, String>) -> (r: Result<
        Vec<SearchResult>,
        String,
    >) {
        hits_of("tavily", body)
    }
}

/// Whether `r` is the request of a provider for `params` with a key.
pub open spec fn asks<P: Provider>(
    provider: P,
    params: WebSearchParams,
    api_key: Seq<char>,
    r: HttpRequestJson,
) -> bool {
    &&& r.method@ == provider.method_text()
    &&& r.url@ == provider.url_text(params)
    &&& r.body@ == provider.body_text(params)
    &&& r.headers@.map_values(|v: String| v@) == provider.header_texts(api_key)
    &&& r.timeout_ms == params.timeout_ms
}

/// Whether two requests differ in the header `name` at most.
pub open spec fn alike_but_for(a: HttpRequestJson, b: HttpRequestJson, name: Seq<char>) -> bool {
    &&& a.method@ == b.method@
    &&& a.url@ == b.url@
    &&& a.body@ == b.body@
    &&& a.timeout_ms == b.timeout_ms
    &&& a.headers@.map_values(|v: String| v@).remove(name) == b.headers@.map_values(
        |v: String| v@,
    ).remove(name)
}

/// Brave is asked with the query and the number of results in the URL and no body, Tavily
/// with both in a JSON body; each at its base URL, slashes at its end aside, and with
/// its own headers.
pub proof fn lemma_how_providers_are_asked(
    params: WebSearchParams,
    api_key: Seq<char>,
    r: HttpRequestJson,
)
    ensures
        asks(BraveProvider, params, api_key, r) ==> {
            &&& r.method@ == "GET"@
            &&& r.url@ == without_trailing(params.base_url@, '/') + "/res/v1/web/search?q="@
                + query_text(params.query@) + "&count="@ + decimal(params.count as nat)
            &&& r.body@.len() == 0
            &&& r.headers@.map_values(|v: String| v@).dom() == set![
                "X-Subscription-Token"@,
                "Accept"@,
            ]
            &&& r.headers@["X-Subscription-Token"@]@ == api_key
            &&& r.headers@["Accept"@]@ == "application/json"@
            &&& r.timeout_ms == params.timeout_ms
        },
        asks(TavilyProvider, params, api_key, r) ==> {
            &&& r.method@ == "POST"@
            &&& r.url@ == without_trailing(params.base_url@, '/') + "/search"@
            &&& r.body@ == "{\"max_results\":"@ + decimal(params.count as nat) + ",\"query\":"@
                + json_quoted(params.query@) + "}"@
            &&& r.headers@.map_values(|v: String| v@).dom() == set![
                "Authorization"@,
                "content-type"@,
            ]
            &&& r.headers@["Authorization"@]@ == "Bearer "@ + api_key
            &&& r.headers@["content-type"@]@ == "application/json"@
            &&& r.timeout_ms == params.timeout_ms
        },
{
    reveal_strlit("X-Subscription-Token");
    reveal_strlit("Accept");
    reveal_strlit("Authorization");
    reveal_strlit("content-type");
    assert("X-Subscription-Token"@.len() == 20 && "Accept"@.len() == 6);
    assert("Authorization"@.len() == 13 && "content-type"@.len() == 12);
    let texts = r.headers@.map_values(|v: String| v@);
    if asks(BraveProvider, params, api_key, r) {
        assert(texts.dom() =~= set!["X-Subscription-Token"@, "Accept"@]);
        assert(texts["X-Subscription-Token"@] == api_key);
        assert(texts["Accept"@] == "application/json"@);
        assert(r.headers@.dom().contains("X-Subscription-Token"@));
        assert(r.headers@.dom().contains("Accept"@));
    }
    if asks(TavilyProvider, params, api_key, r) {
        assert(texts.dom() =~= set!["Authorization"@, "content-type"@]);
        assert(texts["Authorization"@] == "Bearer "@ + api_key);
        assert(texts["content-type"@] == "application/json"@);
        assert(r.headers@.dom().contains("Authorization"@));
        assert(r.headers@.dom().contains("content-type"@));
    }
}

/// The key reaches a provider in one header and nowhere else: requests for the
/// same parameters with different keys differ in that header alone.
pub proof fn lemma_key_only_in_header(
    params: WebSearchParams,
    key_a: Seq<char>,
    key_b: Seq<char>,
    a: HttpRequestJson,
    b: HttpRequestJson,
)
    ensures
        asks(BraveProvider, params, key_a, a) && asks(BraveProvider, params, key_b, b)
            ==> alike_but_for(a, b, "X-Subscription-Token"@),
        BraveProvider.header_texts(key_a)["X-Subscription-Token"@] == key_a,
        asks(TavilyProvider, params, key_a, a) && asks(TavilyProvider, params, key_b, b)
            ==> alike_but_for(a, b, "Authorization"@),
        TavilyProvider.header_texts(key_a)["Authorization"@] == "Bearer "@ + key_a,
{
    reveal_strlit("X-Subscription-Token");
    reveal_strlit("Accept");
    reveal_strlit("Authorization");
    reveal_strlit("content-type");
    assert("X-Subscription-Token"@.len() == 20 && "Accept"@.len() == 6);
    assert("Authorization"@.len() == 13 && "content-type"@.len() == 12);
    assert(BraveProvider.header_texts(key_a).remove("X-Subscription-Token"@)
        =~= BraveProvider.header_texts(key_b).remove("X-Subscription-Token"@));
    assert(TavilyProvider.header_texts(key_a).remove("Authorization"@)
        =~= TavilyProvider.header_texts(key_b).remove("Authorization"@));
}

} // verus!
