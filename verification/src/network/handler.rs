//! One `http_request` from validated parameters to its reply: what is sent,
//! what is made of the response, and when to try again.

use crate::action::{replies_error, response_envelope, ActionReply};
use crate::json::{is_object_text, quoted_texts, text_object_json};
use crate::network::cookies::{
    collect_cookies, cookie_header, cookie_line, cookies_of, pair_view, pairs_view,
};
use crate::network::inflight::{in_flight, over_limit, Inflight};
use crate::network::multipart::{
    decode_parts, decoded_view, decodings, frame_multipart, multipart_bytes,
};
use crate::network::request::{
    is_parsed, parse_request, HttpRequestParams, RawHttpRequest, MAX_RETRY_BACKOFF_MS,
};
use crate::network::ssrf::{
    check_host_reachable, check_literal_ip_host, host_error, permits, resolution, Allowlist,
    Blocklist, Ip,
};
use crate::number::{dec, decimal};
use crate::strmap::StrMap;
use crate::text::{
    bytes_outcome, has_infix, join2, lemma_infix_at_end, lemma_infix_stays, lesser, lower_ascii,
    opt_text, push_bytes, same, same_ignoring_case, texts,
};
use crate::trusted::{
    base64_bytes, base64_decode, base64_encode, base64_size, base64_text, json_quote, json_quoted, lowercase,
    parse_url, url_parts, utf8_text,
};
use vstd::prelude::*;
use vstd::utf8::{decode_utf8, encode_utf8, valid_utf8};

verus! {

/// Response bodies larger than this are rejected, never truncated.
pub const MAX_BODY_BYTES: usize = 10_485_760;

/// Failure of one attempt, with whether another one could help.
#[derive(Debug)]
pub struct FetchError {
    pub message: String,
    pub retryable: bool,
}

impl FetchError {
    /// A failure that may pass (connection refused, timeout).
    pub fn transient(message: String) -> (r: FetchError)
        ensures
            r.message == message,
            r.retryable,
    {
        FetchError { message, retryable: true }
    }

    /// A failure that every attempt reproduces.
    pub fn deterministic(message: String) -> (r: FetchError)
        ensures
            r.message == message,
            !r.retryable,
    {
        FetchError { message, retryable: false }
    }
}

/// One response as it is handed to the caller.
#[derive(Debug)]
pub struct HttpResponseJson {
    pub status: u16,
    pub headers: StrMap<String>,
    /// The body as it is where it is valid UTF-8, otherwise in base64.
    pub body: String,
    /// `"utf8"` or `"base64"`.
    pub body_encoding: &'static str,
    /// `"hit"` or `"miss"` where the caller asked for caching.
    pub cache: Option<&'static str>,
}

/// How many attempts a series of attempts made.
#[derive(Debug, Clone, Copy, PartialEq, Eq, Structural)]
pub struct FetchStats {
    pub attempts: u32,
}

/// How a series of attempts ended.
#[derive(Debug)]
pub struct FetchOutcome {
    pub response: Result<HttpResponseJson, String>,
    pub stats: FetchStats,
    /// Cookies set by the last response, where the caller asked for cookies.
    pub set_cookies: Vec<(String, String)>,
}

// ---------------------------------------------------------------------------
// Before the send
// ---------------------------------------------------------------------------

/// The bytes of the request body, given what decoding made of the parts and of
/// `body_base64`.
pub open spec fn body_bytes(
    p: HttpRequestParams,
    parts: Seq<Result<Seq<u8>, Seq<char>>>,
    body: Result<Seq<u8>, Seq<char>>,
    boundary: Seq<char>,
) -> Result<Option<Seq<u8>>, Seq<char>> {
    match p.multipart {
        Some(m) => if p.body is Some || p.body_base64 is Some {
            Err("multipart is mutually exclusive with body and body_base64"@)
        } else {
            match multipart_bytes(m@, parts, boundary) {
                Ok(b) => Ok(Some(b)),
                Err(e) => Err(e),
            }
        },
        None => if p.body is Some && p.body_base64 is Some {
            Err("set body or body_base64, not both"@)
        } else if p.body is Some {
            Ok(Some(encode_utf8(p.body->0@)))
        } else if p.body_base64 is Some {
            match body {
                Ok(b) => Ok(Some(b)),
                Err(e) => Err("invalid body_base64: "@ + e),
            }
        } else {
            Ok(None)
        },
    }
}

/// The body of a request by contents.
pub open spec fn body_outcome(r: Result<Option<Vec<u8>>, String>) -> Result<
    Option<Seq<u8>>,
    Seq<char>,
> {
    match r {
        Ok(Some(b)) => Ok(Some(b@)),
        Ok(None) => Ok(None),
        Err(e) => Err(e@),
    }
}

/// The request body, given what decoding made of its parts and of
/// `body_base64`.
pub fn frame_body(
    params: &HttpRequestParams,
    parts: &Vec<Result<Vec<u8>, String>>,
    body: &Result<Vec<u8>, String>,
    boundary: &str,
) -> (r: Result<Option<Vec<u8>>, String>)
    requires
        params.multipart is Some ==> parts@.len() == params.multipart->0@.len(),
    ensures
        body_outcome(r) == body_bytes(
            *params,
            decoded_view(parts@),
            bytes_outcome(*body),
            boundary@,
        ),
{
    match &params.multipart {
        Some(m) => {
            if params.body.is_some() || params.body_base64.is_some() {
                return Err("multipart is mutually exclusive with body and body_base64".to_owned());
            }
            match frame_multipart(m, parts, boundary) {
                Ok(b) => Ok(Some(b)),
                Err(e) => Err(e),
            }
        },
        None => match (&params.body, &params.body_base64) {
            (Some(_), Some(_)) => Err("set body or body_base64, not both".to_owned()),
            (Some(text), None) => {
                let b = text.as_str().as_bytes_vec();
                Ok(Some(b))
            },
            (None, Some(_)) => match body {
                Ok(b) => {
                    let copy = crate::text::copy_bytes(b);
                    Ok(Some(copy))
                },
                Err(e) => Err(join2("invalid body_base64: ", e.as_str())),
            },
            (None, None) => Ok(None),
        },
    }
}

/// What base64 makes of the parts of a request; nothing where it has none.
pub open spec fn part_decodings(p: HttpRequestParams) -> Seq<Result<Seq<u8>, Seq<char>>> {
    match p.multipart {
        Some(m) => decodings(m@),
        None => Seq::empty(),
    }
}

/// What base64 makes of `body_base64`; nothing where there is none.
pub open spec fn body_decoding(p: HttpRequestParams) -> Result<Seq<u8>, Seq<char>> {
    match p.body_base64 {
        Some(b) => base64_bytes(b@),
        None => Ok(Seq::empty()),
    }
}

/// The body of a request is what the caller gave: a text in UTF-8, the bytes that
/// base64 stands for, or the framed parts; nothing where nothing was given. Two
/// kinds at once are refused.
pub proof fn lemma_what_is_sent_as_body(
    p: HttpRequestParams,
    parts: Seq<Result<Seq<u8>, Seq<char>>>,
    body: Result<Seq<u8>, Seq<char>>,
    boundary: Seq<char>,
)
    ensures
        ({
            let sent = body_bytes(p, parts, body, boundary);
            &&& p.multipart is None && p.body is None && p.body_base64 is None ==> sent is Ok
                && sent->Ok_0 is None
            &&& p.multipart is None && p.body is Some && p.body_base64 is None ==> sent is Ok
                && sent->Ok_0 == Some(encode_utf8(p.body->0@))
            &&& p.multipart is None && p.body is None && p.body_base64 is Some ==> (sent is Ok
                <==> body is Ok) && (body is Ok ==> sent->Ok_0 == Some(body->Ok_0))
            &&& p.multipart is Some && p.body is None && p.body_base64 is None ==> {
                let framed = multipart_bytes(p.multipart->0@, parts, boundary);
                (sent is Ok <==> framed is Ok) && (framed is Ok ==> sent->Ok_0 == Some(
                    framed->Ok_0,
                ))
            }
            &&& p.body is Some && p.body_base64 is Some ==> sent is Err
            &&& p.multipart is Some && (p.body is Some || p.body_base64 is Some) ==> sent is Err
        }),
{
}

/// The bytes of the request body.
pub fn request_body(params: &HttpRequestParams, boundary: &str) -> (r: Result<
    Option<Vec<u8>>,
    String,
>)
    ensures
        body_outcome(r) == body_bytes(
            *params,
            part_decodings(*params),
            body_decoding(*params),
            boundary@,
        ),
        params.body_base64 is Some && r is Ok ==> r->Ok_0 is Some && r->Ok_0->0@.len()
            == base64_size(params.body_base64->0@),
{
    let parts = match &params.multipart {
        Some(m) => decode_parts(m),
        None => {
            let none: Vec<Result<Vec<u8>, String>> = Vec::new();
            none
        },
    };
    let body = match &params.body_base64 {
        Some(b) => base64_decode(b.as_str()),
        None => {
            let empty: Vec<u8> = Vec::new();
            Ok(empty)
        },
    };
    frame_body(params, &parts, &body, boundary)
}

/// The first `k` of the caller's headers, without `Content-Type` where a
/// multipart body brings its own.
pub open spec fn kept_headers(
    headers: StrMap<String>,
    multipart: bool,
    k: nat,
) -> Seq<(Seq<char>, Seq<char>)>
    decreases k,
{
    if k == 0 {
        Seq::empty()
    } else {
        let before = kept_headers(headers, multipart, (k - 1) as nat);
        let name = headers.order()[k - 1];
        if multipart && lower_ascii(name) == lower_ascii("content-type"@) {
            before
        } else {
            before.push((name, headers@[name]@))
        }
    }
}

/// Whether the caller sent a header of that name, in whatever case.
pub open spec fn sends_header(headers: Map<Seq<char>, String>, name: Seq<char>) -> bool {
    exists|k: Seq<char>|
        #[trigger] headers.dom().contains(k) && lower_ascii(k) == lower_ascii(name)
}

/// The cookie line to attach: the jar's, unless the caller brings its own
/// `Cookie` header or asked for no cookies.
pub open spec fn attached_cookie(
    p: HttpRequestParams,
    jar: Option<Seq<(Seq<char>, Seq<char>)>>,
    use_cookies: bool,
) -> Option<Seq<char>> {
    if use_cookies && !sends_header(p.headers@, "cookie"@) && jar is Some {
        cookie_line(jar->0)
    } else {
        None
    }
}

/// The jar's cookies are attached exactly where the caller asked for cookies, sends
/// no `Cookie` header of its own, in whatever case, and the jar holds any.
pub proof fn lemma_when_cookies_are_attached(
    p: HttpRequestParams,
    jar: Option<Seq<(Seq<char>, Seq<char>)>>,
    use_cookies: bool,
)
    ensures
        attached_cookie(p, jar, use_cookies) is Some <==> use_cookies && (jar matches Some(cookies)
            && cookies.len() > 0) && forall|k: Seq<char>| #[trigger]
            p.headers@.dom().contains(k) ==> lower_ascii(k) != lower_ascii("cookie"@),
        attached_cookie(p, jar, use_cookies) is Some ==> attached_cookie(p, jar, use_cookies)
            == cookie_line(jar->0),
{
}

/// Everything that goes into the header block of a request, in order.
pub open spec fn sent_headers(
    p: HttpRequestParams,
    boundary: Seq<char>,
    cookie: Option<Seq<char>>,
) -> Seq<(Seq<char>, Seq<char>)> {
    let own = kept_headers(p.headers, p.multipart is Some, p.headers.order().len());
    let typed = if p.multipart is Some {
        own.push(("content-type"@, "multipart/form-data; boundary="@ + boundary))
    } else {
        own
    };
    match cookie {
        Some(c) => typed.push(("cookie"@, c)),
        None => typed,
    }
}

/// Whether a header block carries a header of that name with that value.
pub open spec fn goes_out(
    headers: Seq<(String, String)>,
    name: Seq<char>,
    value: Seq<char>,
) -> bool {
    exists|i: int|
        0 <= i < headers.len() && (#[trigger] headers[i]).0@ == name && headers[i].1@ == value
}

/// Every header of the caller is sent with its value, but for `Content-Type`, in
/// whatever case, where the body is multipart.
pub proof fn lemma_caller_headers_are_kept(
    headers: StrMap<String>,
    multipart: bool,
    k: nat,
    i: int,
)
    requires
        0 <= i < k,
        !multipart || lower_ascii(headers.order()[i]) != lower_ascii("content-type"@),
    ensures
        kept_headers(headers, multipart, k).contains(
            (headers.order()[i], headers@[headers.order()[i]]@),
        ),
    decreases k,
{
    let all = kept_headers(headers, multipart, k);
    let item = (headers.order()[i], headers@[headers.order()[i]]@);
    let before = kept_headers(headers, multipart, (k - 1) as nat);
    if i == k - 1 {
        assert(all[before.len() as int] == item);
    } else {
        lemma_caller_headers_are_kept(headers, multipart, (k - 1) as nat, i);
        let j = before.index_of(item);
        assert(all[j] == item);
    }
}

/// Without a multipart body the caller's headers go out as they came: all of
/// them, in order, with their values.
pub proof fn lemma_caller_headers_unchanged(headers: StrMap<String>, k: nat)
    ensures
        kept_headers(headers, false, k).len() == k,
        forall|i: int|
            0 <= i < k ==> (#[trigger] kept_headers(headers, false, k)[i]) == (
                headers.order()[i],
                headers@[headers.order()[i]]@,
            ),
    decreases k,
{
    if k > 0 {
        lemma_caller_headers_unchanged(headers, (k - 1) as nat);
    }
}

/// Of a multipart request none of the caller's `Content-Type` headers is left,
/// and nothing is sent that the caller did not ask for.
pub proof fn lemma_multipart_drops_content_type(headers: StrMap<String>, k: nat)
    ensures
        forall|i: int|
            0 <= i < kept_headers(headers, true, k).len() ==> lower_ascii(
                (#[trigger] kept_headers(headers, true, k)[i]).0,
            ) != lower_ascii("content-type"@) && kept_headers(headers, true, k)[i].1
                == headers@[kept_headers(headers, true, k)[i].0]@ && exists|j: int|
                0 <= j < k && headers.order()[j] == kept_headers(headers, true, k)[i].0,
    decreases k,
{
    if k > 0 {
        lemma_multipart_drops_content_type(headers, (k - 1) as nat);
        let before = kept_headers(headers, true, (k - 1) as nat);
        let all = kept_headers(headers, true, k);
        assert forall|i: int| 0 <= i < all.len() implies lower_ascii((#[trigger] all[i]).0)
            != lower_ascii("content-type"@) && all[i].1 == headers@[all[i].0]@ && exists|j: int|
            0 <= j < k && headers.order()[j] == all[i].0 by {
            if i < before.len() {
                assert(all[i] == before[i]);
                let j = choose|j: int| 0 <= j < k - 1 && headers.order()[j] == before[i].0;
                assert(headers.order()[j] == all[i].0);
            } else {
                assert(headers.order()[k - 1] == all[i].0);
            }
        }
    }
}

/// A request without multipart parts to which no cookie is attached carries the
/// caller's headers and nothing else. Multipart parts add their `Content-Type`
/// behind them, a cookie its line at the very end.
pub proof fn lemma_what_headers_are_sent(
    p: HttpRequestParams,
    boundary: Seq<char>,
    cookie: Option<Seq<char>>,
)
    ensures
        p.multipart is None && cookie is None ==> sent_headers(p, boundary, cookie).len()
            == p.headers.order().len() && forall|i: int|
            0 <= i < p.headers.order().len() ==> (#[trigger] sent_headers(p, boundary, cookie)[i])
                == (p.headers.order()[i], p.headers@[p.headers.order()[i]]@),
        forall|i: int|
            0 <= i < p.headers.order().len() && (p.multipart is None || lower_ascii(
                #[trigger] p.headers.order()[i],
            ) != lower_ascii("content-type"@)) ==> sent_headers(p, boundary, cookie).contains(
                (p.headers.order()[i], p.headers@[p.headers.order()[i]]@),
            ),
        p.multipart is Some ==> sent_headers(p, boundary, cookie).contains(
            ("content-type"@, "multipart/form-data; boundary="@ + boundary),
        ),
        cookie is Some ==> sent_headers(p, boundary, cookie).len() > 0 && sent_headers(
            p,
            boundary,
            cookie,
        ).last() == ("cookie"@, cookie->0),
{
    let n = p.headers.order().len();
    let multipart = p.multipart is Some;
    let own = kept_headers(p.headers, multipart, n);
    let all = sent_headers(p, boundary, cookie);
    lemma_caller_headers_unchanged(p.headers, n);
    assert forall|i: int|
        0 <= i < n && (p.multipart is None || lower_ascii(#[trigger] p.headers.order()[i])
            != lower_ascii("content-type"@)) implies all.contains(
        (p.headers.order()[i], p.headers@[p.headers.order()[i]]@),
    ) by {
        lemma_caller_headers_are_kept(p.headers, multipart, n, i);
        let item = (p.headers.order()[i], p.headers@[p.headers.order()[i]]@);
        let j = own.index_of(item);
        assert(all[j] == item);
    }
    if multipart {
        assert(all[own.len() as int] == (
            "content-type"@,
            "multipart/form-data; boundary="@ + boundary,
        ));
    }
}

/// A request that is ready to be sent.
#[derive(Debug)]
pub struct Outgoing {
    pub method: String,
    pub url: String,
    pub headers: Vec<(String, String)>,
    pub body: Option<Vec<u8>>,
    pub timeout_ms: u64,
}

fn push_header(headers: &mut Vec<(String, String)>, name: &str, value: &str)
    ensures
        pairs_view(final(headers)@) == pairs_view(old(headers)@).push((name@, value@)),
{
    headers.push((name.to_owned(), value.to_owned()));
}

fn caller_headers(headers: &StrMap<String>, multipart: bool) -> (r: Vec<(String, String)>)
    ensures
        pairs_view(r@) == kept_headers(*headers, multipart, headers.order().len()),
{
    let mut out: Vec<(String, String)> = Vec::new();
    let n: usize = headers.len();
    let mut i: usize = 0;
    while i < n
        invariant
            i <= n == headers.order().len(),
            pairs_view(out@) == kept_headers(*headers, multipart, i as nat),
        decreases n - i,
    {
        let (k, v) = headers.entry_at(i);
        if !(multipart && same_ignoring_case(k.as_str(), "content-type")) {
            push_header(&mut out, k.as_str(), v.as_str());
        }
        i += 1;
    }
    out
}

/// Whether the caller sent a header of that name, in whatever case.
pub fn has_header(headers: &StrMap<String>, name: &str) -> (r: bool)
    ensures
        r == sends_header(headers@, name@),
{
    let n: usize = headers.len();
    headers.keys_are_distinct();
    let mut i: usize = 0;
    while i < n
        invariant
            i <= n == headers.order().len(),
            forall|j: int|
                0 <= j < i ==> lower_ascii(#[trigger] headers.order()[j]) != lower_ascii(name@),
        decreases n - i,
    {
        let (k, _) = headers.entry_at(i);
        if same_ignoring_case(k.as_str(), name) {
            return true;
        }
        i += 1;
    }
    assert forall|k: Seq<char>| #[trigger] headers@.dom().contains(k) implies lower_ascii(k)
        != lower_ascii(name@) by {
        let j = headers.order().index_of(k);
    }
    false
}

/// A jar by its contents.
pub open spec fn jar_view(jar: Option<&Vec<(String, String)>>) -> Option<
    Seq<(Seq<char>, Seq<char>)>,
> {
    match jar {
        Some(v) => Some(pairs_view(v@)),
        None => None,
    }
}

/// The request for `params` with the body `body`.
pub fn assemble(
    params: &HttpRequestParams,
    body: Option<Vec<u8>>,
    boundary: &str,
    jar: Option<&Vec<(String, String)>>,
    use_cookies: bool,
) -> (r: Outgoing)
    ensures
        r.method == params.method,
        r.url == params.url,
        r.timeout_ms == params.timeout_ms,
        r.body == body,
        pairs_view(r.headers@) == sent_headers(
            *params,
            boundary@,
            attached_cookie(*params, jar_view(jar), use_cookies),
        ),
        forall|name: Seq<char>| #[trigger]
            params.headers@.dom().contains(name) && (params.multipart is None || lower_ascii(name)
                != lower_ascii("content-type"@)) ==> goes_out(
                r.headers@,
                name,
                params.headers@[name]@,
            ),
        params.multipart is Some ==> goes_out(
            r.headers@,
            "content-type"@,
            "multipart/form-data; boundary="@ + boundary@,
        ),
        params.multipart is None && (!use_cookies || jar is None || jar->0@.len() == 0)
            ==> r.headers@.len() == params.headers@.dom().len() && forall|i: int|
            0 <= i < r.headers@.len() ==> params.headers@.dom().contains(
                (#[trigger] r.headers@[i]).0@,
            ) && r.headers@[i].1@ == params.headers@[r.headers@[i].0@]@,
{
    params.headers.keys_are_distinct();
    let mut headers = caller_headers(&params.headers, params.multipart.is_some());
    if params.multipart.is_some() {
        push_header(
            &mut headers,
            "content-type",
            join2("multipart/form-data; boundary=", boundary).as_str(),
        );
    }
    if use_cookies && !has_header(&params.headers, "cookie") {
        if let Some(cookies) = jar {
            if let Some(line) = cookie_header(cookies) {
                push_header(&mut headers, "cookie", line.as_str());
            }
        }
    }
    proof {
        let cookie = attached_cookie(*params, jar_view(jar), use_cookies);
        lemma_what_headers_are_sent(*params, boundary@, cookie);
        let all = sent_headers(*params, boundary@, cookie);
        assert(all == pairs_view(headers@));
        assert forall|name: Seq<char>| #[trigger]
            params.headers@.dom().contains(name) && (params.multipart is None || lower_ascii(name)
                != lower_ascii("content-type"@)) implies goes_out(
            headers@,
            name,
            params.headers@[name]@,
        ) by {
            let i = params.headers.order().index_of(name);
            assert(params.headers.order()[i] == name);
            let j = all.index_of((name, params.headers@[name]@));
            assert(pair_view(headers@[j]) == all[j]);
        }
        if params.multipart is Some {
            let j = all.index_of(
                ("content-type"@, "multipart/form-data; boundary="@ + boundary@),
            );
            assert(pair_view(headers@[j]) == all[j]);
        }
        if params.multipart is None && cookie is None {
            assert forall|i: int| 0 <= i < headers@.len() implies params.headers@.dom().contains(
                (#[trigger] headers@[i]).0@,
            ) && headers@[i].1@ == params.headers@[headers@[i].0@]@ by {
                assert(pair_view(headers@[i]) == all[i]);
                assert(params.headers.order().to_set().contains(params.headers.order()[i]));
            }
        }
    }
    Outgoing {
        method: params.method.clone(),
        url: params.url.clone(),
        headers,
        body,
        timeout_ms: params.timeout_ms,
    }
}

/// The request to send for `params`, or why it cannot be sent. `boundary`
/// frames a multipart body, `jar` holds the caller's cookies for the host.
pub fn prepare_fetch(
    params: &HttpRequestParams,
    boundary: &str,
    jar: Option<&Vec<(String, String)>>,
    use_cookies: bool,
) -> (r: Result<Outgoing, FetchError>)
    ensures
        ({
            let body = body_bytes(
                *params,
                part_decodings(*params),
                body_decoding(*params),
                boundary@,
            );
            match r {
                Ok(out) => {
                    &&& out.method == params.method
                    &&& out.url == params.url
                    &&& out.timeout_ms == params.timeout_ms
                    &&& body_outcome(Ok(out.body)) == body
                    &&& pairs_view(out.headers@) == sent_headers(
                        *params,
                        boundary@,
                        attached_cookie(*params, jar_view(jar), use_cookies),
                    )
                },
                Err(e) => body == Err::<Option<Seq<u8>>, Seq<char>>(e.message@) && !e.retryable,
            }
        }),
        params.body_base64 is Some && r is Ok ==> r->Ok_0.body is Some && r->Ok_0.body->0@.len()
            == base64_size(params.body_base64->0@),
        r is Ok ==> forall|name: Seq<char>| #[trigger]
            params.headers@.dom().contains(name) && (params.multipart is None || lower_ascii(name)
                != lower_ascii("content-type"@)) ==> goes_out(
                r->Ok_0.headers@,
                name,
                params.headers@[name]@,
            ),
        r is Ok && params.multipart is Some ==> goes_out(
            r->Ok_0.headers@,
            "content-type"@,
            "multipart/form-data; boundary="@ + boundary@,
        ),
        r is Ok && params.multipart is None && (!use_cookies || jar is None || jar->0@.len() == 0)
            ==> r->Ok_0.headers@.len() == params.headers@.dom().len() && forall|i: int|
            0 <= i < r->Ok_0.headers@.len() ==> params.headers@.dom().contains(
                (#[trigger] r->Ok_0.headers@[i]).0@,
            ) && r->Ok_0.headers@[i].1@ == params.headers@[r->Ok_0.headers@[i].0@]@,
        params.multipart is None && params.body is Some && params.body_base64 is None ==> r is Ok
            && r->Ok_0.body is Some && r->Ok_0.body->0@ == encode_utf8(params.body->0@),
        params.multipart is None && params.body is None && params.body_base64 is None ==> r is Ok
            && r->Ok_0.body is None,
        params.multipart is None && params.body is None && params.body_base64 is Some ==> match (
            base64_bytes(params.body_base64->0@)
        ) {
            Ok(bytes) => r is Ok && r->Ok_0.body is Some && r->Ok_0.body->0@ == bytes,
            Err(_) => r is Err,
        },
{
    match request_body(params, boundary) {
        Err(e) => Err(FetchError::deterministic(e)),
        Ok(body) => Ok(assemble(params, body, boundary, jar, use_cookies)),
    }
}

// ---------------------------------------------------------------------------
// After the send
// ---------------------------------------------------------------------------

/// A failed send. A hop that the redirect policy refused replays identically,
/// anything else may pass.
pub fn send_error(message: &str, is_redirect: bool) -> (r: FetchError)
    ensures
        r.message@ == "request failed: "@ + message@,
        r.retryable == !is_redirect,
{
    let text = join2("request failed: ", message);
    if is_redirect {
        FetchError::deterministic(text)
    } else {
        FetchError::transient(text)
    }
}

/// A failure while reading the response body.
pub fn read_error(message: &str) -> (r: FetchError)
    ensures
        r.message@ == "body read error: "@ + message@,
        r.retryable,
{
    FetchError::transient(join2("body read error: ", message))
}

/// Appends one chunk of the response body; fails once the body is larger than
/// the cap.
pub fn push_chunk(body: &mut Vec<u8>, chunk: &Vec<u8>) -> (r: Result<(), FetchError>)
    ensures
        final(body)@ == old(body)@ + chunk@,
        match r {
            Ok(_) => final(body)@.len() <= MAX_BODY_BYTES,
            Err(e) => final(body)@.len() > MAX_BODY_BYTES && !e.retryable && e.message@
                == "response body exceeds 10 MiB cap"@,
        },
{
    push_bytes(body, chunk.as_slice());
    if body.len() > MAX_BODY_BYTES {
        return Err(FetchError::deterministic("response body exceeds 10 MiB cap".to_owned()));
    }
    Ok(())
}

/// Whether `text` with the mark `encoding` gives back exactly `bytes`.
pub open spec fn reads_back(text: Seq<char>, encoding: Seq<char>, bytes: Seq<u8>) -> bool {
    if encoding == "utf8"@ {
        encode_utf8(text) == bytes
    } else {
        encoding == "base64"@ && base64_bytes(text) == Ok::<Seq<u8>, Seq<char>>(bytes)
    }
}

/// A response body as text: as it is where it is valid UTF-8, otherwise in
/// base64. Either way it reads back exactly.
pub fn encode_body(bytes: Vec<u8>) -> (r: (String, &'static str))
    requires
        bytes@.len() <= MAX_BODY_BYTES,
    ensures
        valid_utf8(bytes@) ==> r.0@ == decode_utf8(bytes@) && r.1@ == "utf8"@,
        !valid_utf8(bytes@) ==> r.0@ == base64_text(bytes@) && r.1@ == "base64"@,
        reads_back(r.0@, r.1@, bytes@),
{
    proof {
        reveal_strlit("utf8");
        reveal_strlit("base64");
        assert("utf8"@.len() == 4 && "base64"@.len() == 6);
    }
    match utf8_text(bytes) {
        Ok(text) => {
            proof {
                vstd::utf8::decode_utf8_encode_utf8(bytes@);
            }
            (text, "utf8")
        },
        Err(raw) => (base64_encode(&raw), "base64"),
    }
}

/// What one attempt gives: the response, and the cookies it sets where the
/// caller asked for cookies.
pub fn finish_fetch(
    status: u16,
    headers: StrMap<String>,
    set_cookie: &Vec<String>,
    use_cookies: bool,
    body: Vec<u8>,
) -> (r: (HttpResponseJson, Vec<(String, String)>))
    requires
        body@.len() <= MAX_BODY_BYTES,
    ensures
        r.0.status == status,
        r.0.headers == headers,
        r.0.cache is None,
        valid_utf8(body@) ==> r.0.body@ == decode_utf8(body@) && r.0.body_encoding@ == "utf8"@,
        !valid_utf8(body@) ==> r.0.body@ == base64_text(body@) && r.0.body_encoding@
            == "base64"@,
        reads_back(r.0.body@, r.0.body_encoding@, body@),
        pairs_view(r.1@) == if use_cookies {
            cookies_of(texts(set_cookie@))
        } else {
            Seq::empty()
        },
{
    let set_cookies = if use_cookies {
        collect_cookies(set_cookie)
    } else {
        let none: Vec<(String, String)> = Vec::new();
        none
    };
    let (body, body_encoding) = encode_body(body);
    (HttpResponseJson { status, headers, body, body_encoding, cache: None }, set_cookies)
}

// ---------------------------------------------------------------------------
// Retries
// ---------------------------------------------------------------------------

/// Statuses worth another attempt: rate limiting and passing server failures.
pub open spec fn retryable_status(status: u16) -> bool {
    status == 429 || status == 500 || status == 502 || status == 503 || status == 504
}

/// Too many requests and a server's passing failures are worth another attempt;
/// success, redirects, other mistakes of the caller and a method that the server
/// does not implement are not.
pub proof fn lemma_which_statuses_are_retried(status: u16)
    ensures
        retryable_status(status) <==> status == 429 || 500 <= status <= 504 && status != 501,
        status < 400 ==> !retryable_status(status),
{
}

/// Decides [`retryable_status`].
pub fn is_retryable_status(status: u16) -> (r: bool)
    ensures
        r == retryable_status(status),
        r <==> status == 429 || 500 <= status <= 504 && status != 501,
{
    status == 429 || status == 500 || status == 502 || status == 503 || status == 504
}

/// A series of attempts, between two of them.
#[derive(Debug)]
pub struct FetchSeries {
    /// Attempts made so far.
    pub attempt: u32,
    /// How long to wait before the next one.
    pub backoff_ms: u64,
}

/// What to do after an attempt.
#[derive(Debug)]
pub enum FetchStep {
    /// Wait `sleep_ms`, then try again in the state `series`.
    Retry { sleep_ms: u64, series: FetchSeries },
    /// The series is over.
    Done { outcome: FetchOutcome },
}

/// The series before its first attempt.
pub fn begin_fetch(params: &HttpRequestParams) -> (r: FetchSeries)
    ensures
        r.attempt == 0,
        r.backoff_ms == params.retry_backoff_ms,
{
    FetchSeries { attempt: 0, backoff_ms: params.retry_backoff_ms }
}

/// Whether an attempt that ended like this is worth another one.
pub open spec fn worth_retrying(
    result: Result<(HttpResponseJson, Vec<(String, String)>), FetchError>,
) -> bool {
    match result {
        Ok(r) => retryable_status(r.0.status),
        Err(e) => e.retryable,
    }
}

/// Goes on after an attempt that ended in `result`: another attempt where
/// retries are left and one could help, otherwise the end of the series. The
/// cookies of the series are those of its last response: earlier ones count for
/// nothing, and an attempt without a response sets none.
pub fn after_attempt(
    series: FetchSeries,
    params: &HttpRequestParams,
    result: Result<(HttpResponseJson, Vec<(String, String)>), FetchError>,
) -> (r: FetchStep)
    requires
        series.attempt <= params.max_retries < u32::MAX,
        series.backoff_ms <= u64::MAX / 2,
    ensures
        r is Retry <==> series.attempt < params.max_retries && (match result {
            Ok(p) => p.0.status == 429 || 500 <= p.0.status <= 504 && p.0.status != 501,
            Err(e) => e.retryable,
        }),
        match r {
            FetchStep::Retry { sleep_ms, series: next } => {
                &&& series.attempt < params.max_retries
                &&& worth_retrying(result)
                &&& sleep_ms == series.backoff_ms
                &&& next.attempt == series.attempt + 1
                &&& next.backoff_ms == lesser(
                    (series.backoff_ms * 2) as nat,
                    MAX_RETRY_BACKOFF_MS as nat,
                )
                &&& next.backoff_ms == if series.backoff_ms * 2 <= 5_000 {
                    series.backoff_ms * 2
                } else {
                    5_000
                }
            },
            FetchStep::Done { outcome } => {
                &&& series.attempt == params.max_retries || !worth_retrying(result)
                &&& outcome.stats.attempts == series.attempt + 1
                &&& outcome.stats.attempts <= params.max_retries + 1
                &&& outcome.response == match result {
                    Ok(r) => Ok(r.0),
                    Err(e) => Err(e.message),
                }
                &&& outcome.set_cookies@ == match result {
                    Ok(r) => r.1@,
                    Err(_) => Seq::empty(),
                }
            },
        },
{
    let worth = match &result {
        Ok(p) => is_retryable_status(p.0.status),
        Err(e) => e.retryable,
    };
    let retry = series.attempt < params.max_retries && worth;
    let (response, set_cookies) = match result {
        Ok(p) => (Ok(p.0), p.1),
        Err(e) => {
            let none: Vec<(String, String)> = Vec::new();
            (Err(e.message), none)
        },
    };
    if retry {
        let doubled: u64 = series.backoff_ms * 2;
        let backoff_ms: u64 = if doubled <= MAX_RETRY_BACKOFF_MS {
            doubled
        } else {
            MAX_RETRY_BACKOFF_MS
        };
        FetchStep::Retry {
            sleep_ms: series.backoff_ms,
            series: FetchSeries { attempt: series.attempt + 1, backoff_ms },
        }
    } else {
        FetchStep::Done {
            outcome: FetchOutcome {
                response,
                stats: FetchStats { attempts: series.attempt + 1 },
                set_cookies,
            },
        }
    }
}

// ---------------------------------------------------------------------------
// Admission of a request, and of every redirect
// ---------------------------------------------------------------------------

/// What to do with a request before anything is sent.
#[derive(Debug, PartialEq, Eq)]
pub enum Gate {
    /// Refuse it with this message.
    Refuse(String),
    /// Resolve the host first and check what it resolves to.
    Resolve,
    /// Send it.
    Send,
}

/// The host of a request: empty where its URL names none, nothing where its
/// URL does not parse.
pub open spec fn host_of(url: Result<(Seq<char>, Option<Seq<char>>), Seq<char>>) -> Option<
    Seq<char>,
> {
    match url {
        Ok(p) => Some(
            match p.1 {
                Some(h) => h,
                None => Seq::empty(),
            },
        ),
        Err(_) => None,
    }
}

/// The host of `url`.
pub fn url_host(url: &str) -> (r: Option<String>)
    ensures
        opt_text(r) == host_of(url_parts(url@)),
{
    match parse_url(url) {
        Ok(p) => match p.1 {
            Some(h) => Some(h),
            None => {
                let empty = String::new();
                Some(empty)
            },
        },
        Err(_) => None,
    }
}

/// Whether to send a request to `host` (nothing where the URL does not parse),
/// `literal` being the address that the host writes down, if it does.
pub fn gate_request(
    host: &Option<String>,
    literal: Option<Ip>,
    block: &Blocklist,
    allow: &Allowlist,
) -> (r: Gate)
    ensures
        match *host {
            None => r is Send,
            Some(h) => match literal {
                Some(ip) => if permits(lowercase(h@), ip, *block, *allow) {
                    r is Send
                } else {
                    r matches Gate::Refuse(e) && e@ == "address "@ + h@
                        + " is blocked by SSRF policy"@
                },
                None => if h@.len() == 0 {
                    r is Send
                } else {
                    r is Resolve
                },
            },
        },
{
    match host {
        None => Gate::Send,
        Some(h) => match check_literal_ip_host(h.as_str(), literal, block, allow) {
            Err(e) => Gate::Refuse(e),
            Ok(_) => if literal.is_none() && !h.as_str().is_empty() {
                Gate::Resolve
            } else {
                Gate::Send
            },
        },
    }
}

/// What to do with a redirect.
#[derive(Debug, PartialEq, Eq)]
pub enum Redirect {
    /// Hand out the redirect response itself.
    Stop,
    /// Follow it.
    Follow,
    /// Fail with this message.
    Refuse(String),
}

/// Decides on a redirect to `host` after `hops` requests (the first one
/// counts), so that exactly `max_redirects` redirects are followed.
pub fn redirect_step(
    hops: usize,
    max_redirects: usize,
    host: &str,
    literal: Option<Ip>,
    block: &Blocklist,
    allow: &Allowlist,
) -> (r: Redirect)
    ensures
        if hops > max_redirects {
            r is Stop
        } else if literal is Some && !permits(lowercase(host@), literal->0, *block, *allow) {
            r matches Redirect::Refuse(e) && e@ == "address "@ + host@
                + " is blocked by SSRF policy"@
        } else {
            r is Follow
        },
{
    if hops > max_redirects {
        return Redirect::Stop;
    }
    match check_literal_ip_host(host, literal, block, allow) {
        Ok(_) => Redirect::Follow,
        Err(e) => Redirect::Refuse(e),
    }
}

// ---------------------------------------------------------------------------
// The outcome
// ---------------------------------------------------------------------------

/// How one `http_request` ended: what the caller gets, and what the
/// `request_completed` event carries.
#[derive(Debug)]
pub struct HttpOutcome {
    pub response: Result<Vec<u8>, String>,
    /// Status of the last attempt; `0` where no response was obtained.
    pub status: u16,
    pub host: String,
    pub latency_ms: u64,
    /// How many times the fetch was retried.
    pub retry_count: u32,
}

/// The outcome of a request that was never sent.
pub fn refused_outcome(error: String, host: String, latency_ms: u64) -> (r: HttpOutcome)
    ensures
        r.response == Err::<Vec<u8>, String>(error),
        r.status == 0,
        r.host == host,
        r.latency_ms == latency_ms,
        r.retry_count == 0,
{
    HttpOutcome { response: Err(error), status: 0, host, latency_ms, retry_count: 0 }
}

/// Whether `t` is the reply for a response.
pub open spec fn is_response_text(resp: HttpResponseJson, t: Seq<char>) -> bool {
    exists|headers: Seq<char>| #[trigger]
        is_object_text(quoted_texts(resp.headers@), headers) && t == "{\"body\":"@ + json_quoted(
            resp.body@,
        ) + ",\"body_encoding\":"@ + json_quoted(resp.body_encoding@) + ",\"headers\":"@
            + headers + ",\"status\":"@ + decimal(resp.status as nat) + "}"@
}

/// A reply carries the body, how it is encoded, the headers and the status, each
/// under its own name.
pub proof fn lemma_what_a_reply_carries(resp: HttpResponseJson, t: Seq<char>) -> (headers: Seq<char>)
    requires
        is_response_text(resp, t),
    ensures
        has_infix(t, "{\"body\":"@ + json_quoted(resp.body@)),
        has_infix(t, ",\"body_encoding\":"@ + json_quoted(resp.body_encoding@)),
        has_infix(t, ",\"headers\":"@ + headers),
        is_object_text(resp.headers@.map_values(|v: String| json_quoted(v@)), headers),
        has_infix(t, ",\"status\":"@ + decimal(resp.status as nat) + "}"@),
{
    let headers = choose|headers: Seq<char>| #[trigger]
        is_object_text(quoted_texts(resp.headers@), headers) && t == "{\"body\":"@ + json_quoted(
            resp.body@,
        ) + ",\"body_encoding\":"@ + json_quoted(resp.body_encoding@) + ",\"headers\":"@
            + headers + ",\"status\":"@ + decimal(resp.status as nat) + "}"@;
    let p0 = "{\"body\":"@;
    let p1 = json_quoted(resp.body@);
    let p2 = ",\"body_encoding\":"@;
    let p3 = json_quoted(resp.body_encoding@);
    let p4 = ",\"headers\":"@;
    let p5 = headers;
    let p6 = ",\"status\":"@;
    let p7 = decimal(resp.status as nat);
    let p8 = "}"@;
    let t0 = p0;
    let t1 = t0 + p1;
    let t2 = t1 + p2;
    let t3 = t2 + p3;
    let t4 = t3 + p4;
    let t5 = t4 + p5;
    let t6 = t5 + p6;
    let t7 = t6 + p7;
    let t8 = t7 + p8;
    assert(t1 =~= Seq::<char>::empty() + (p0 + p1));
    lemma_infix_at_end(Seq::<char>::empty(), p0 + p1);
    lemma_infix_stays(t1, p0 + p1, p2);
    lemma_infix_stays(t2, p0 + p1, p3);
    lemma_infix_stays(t3, p0 + p1, p4);
    lemma_infix_stays(t4, p0 + p1, p5);
    lemma_infix_stays(t5, p0 + p1, p6);
    lemma_infix_stays(t6, p0 + p1, p7);
    lemma_infix_stays(t7, p0 + p1, p8);
    assert(t3 =~= t1 + (p2 + p3));
    lemma_infix_at_end(t1, p2 + p3);
    lemma_infix_stays(t3, p2 + p3, p4);
    lemma_infix_stays(t4, p2 + p3, p5);
    lemma_infix_stays(t5, p2 + p3, p6);
    lemma_infix_stays(t6, p2 + p3, p7);
    lemma_infix_stays(t7, p2 + p3, p8);
    assert(t5 =~= t3 + (p4 + p5));
    lemma_infix_at_end(t3, p4 + p5);
    lemma_infix_stays(t5, p4 + p5, p6);
    lemma_infix_stays(t6, p4 + p5, p7);
    lemma_infix_stays(t7, p4 + p5, p8);
    assert(t8 =~= t5 + (p6 + p7 + p8));
    lemma_infix_at_end(t5, p6 + p7 + p8);
    assert(t == t8);
    headers
}

/// The reply for a response.
pub fn response_json(resp: &HttpResponseJson) -> (r: String)
    ensures
        is_response_text(*resp, r@),
{
    let headers = text_object_json(&resp.headers);
    let mut s = join2("{\"body\":", json_quote(resp.body.as_str()).as_str());
    s.append(",\"body_encoding\":");
    s.append(json_quote(resp.body_encoding).as_str());
    s.append(",\"headers\":");
    s.append(headers.as_str());
    s.append(",\"status\":");
    s.append(dec(resp.status as u64).as_str());
    s.append("}");
    s
}

/// Whether `r` is how a request to `host` ended whose fetch gave `response`
/// after that many attempts.
pub open spec fn is_completed(
    response: Result<HttpResponseJson, String>,
    attempts: u32,
    host: String,
    latency_ms: u64,
    r: HttpOutcome,
) -> bool {
    &&& r.host == host
    &&& r.latency_ms == latency_ms
    &&& r.retry_count == if attempts == 0 {
        0
    } else {
        attempts - 1
    }
    &&& match response {
        Ok(resp) => r.status == resp.status && (r.response matches Ok(data)
            && exists|t: Seq<char>| #[trigger]
            is_response_text(resp, t) && data@ == encode_utf8(t)),
        Err(e) => r.status == 0 && r.response == Err::<Vec<u8>, String>(e),
    }
}

/// The outcome of a fetch tells the status of the last response, zero where there was
/// none, and one retry less than there were attempts.
pub proof fn lemma_what_an_outcome_tells(
    response: Result<HttpResponseJson, String>,
    attempts: u32,
    host: String,
    latency_ms: u64,
    r: HttpOutcome,
)
    requires
        is_completed(response, attempts, host, latency_ms, r),
    ensures
        r.response is Ok <==> response is Ok,
        response matches Ok(resp) ==> r.status == resp.status && exists|t: Seq<char>| #[trigger]
            is_response_text(resp, t) && r.response->Ok_0@ == encode_utf8(t),
        response matches Err(e) ==> r.status == 0 && r.response->Err_0 == e,
        attempts > 0 ==> r.retry_count + 1 == attempts,
        r.host == host && r.latency_ms == latency_ms,
{
}

/// The outcome of a fetch.
pub fn completed_outcome(
    response: Result<HttpResponseJson, String>,
    attempts: u32,
    host: String,
    latency_ms: u64,
) -> (r: HttpOutcome)
    ensures
        is_completed(response, attempts, host, latency_ms, r),
{
    let retry_count: u32 = attempts.saturating_sub(1);
    match response {
        Ok(resp) => {
            let text = response_json(&resp);
            let data = text.as_str().as_bytes_vec();
            HttpOutcome { response: Ok(data), status: resp.status, host, latency_ms, retry_count }
        },
        Err(e) => HttpOutcome { response: Err(e), status: 0, host, latency_ms, retry_count },
    }
}

// ---------------------------------------------------------------------------
// A request from its arrival to its outcome
// ---------------------------------------------------------------------------

/// A request under way.
#[derive(Debug)]
pub enum HttpStep {
    /// Find out which address `host` writes down, if it does, and go on with
    /// [`after_literal`].
    ReadLiteral { params: HttpRequestParams, host: Option<String> },
    /// Resolve the host and go on with [`after_resolution`].
    Resolve { params: HttpRequestParams, host: String },
    /// Fetch and go on with [`completed_outcome`].
    Fetch { params: HttpRequestParams, host: String },
    /// It is over.
    Done { outcome: HttpOutcome },
}

/// Whether `r` is the outcome of a request that was turned away.
pub open spec fn is_refused(
    error: Seq<char>,
    host: Seq<char>,
    latency_ms: u64,
    r: HttpOutcome,
) -> bool {
    &&& r.response matches Err(e) && e@ == error
    &&& r.status == 0
    &&& r.host@ == host
    &&& r.latency_ms == latency_ms
    &&& r.retry_count == 0
}

/// The host as it is reported: empty where there is none.
pub open spec fn reported_host(host: Option<String>) -> Seq<char> {
    match host {
        Some(h) => h@,
        None => Seq::empty(),
    }
}

/// Takes up a request.
pub fn begin_http(parsed: Result<RawHttpRequest, String>, elapsed_ms: u64) -> (r: HttpStep)
    ensures
        match r {
            HttpStep::Done { outcome } => exists|e: String| #[trigger]
                is_parsed(parsed, Err(e)) && is_refused(e@, Seq::empty(), elapsed_ms, outcome),
            HttpStep::ReadLiteral { params, host } => is_parsed(parsed, Ok(params)) && opt_text(
                host,
            ) == host_of(url_parts(params.url@)),
            _ => false,
        },
{
    match parse_request(parsed) {
        Err(e) => {
            let host = String::new();
            HttpStep::Done { outcome: refused_outcome(e, host, elapsed_ms) }
        },
        Ok(params) => {
            let host = url_host(params.url.as_str());
            HttpStep::ReadLiteral { params, host }
        },
    }
}

/// Goes on once it is known which address the host writes down: a blocked one
/// is refused, a name is resolved first.
pub fn after_literal(
    params: HttpRequestParams,
    host: Option<String>,
    literal: Option<Ip>,
    block: &Blocklist,
    allow: &Allowlist,
    elapsed_ms: u64,
) -> (r: HttpStep)
    ensures
        ({
            let h = reported_host(host);
            if host is Some && literal is Some && !permits(
                lowercase(h),
                literal->0,
                *block,
                *allow,
            ) {
                r matches HttpStep::Done { outcome } && is_refused(
                    "address "@ + h + " is blocked by SSRF policy"@,
                    h,
                    elapsed_ms,
                    outcome,
                )
            } else if host is Some && literal is None && h.len() > 0 {
                r matches HttpStep::Resolve { params: p, host: n } && p == params && n@ == h
            } else {
                r matches HttpStep::Fetch { params: p, host: n } && p == params && n@ == h
            }
        }),
{
    let decision = gate_request(&host, literal, block, allow);
    let name = match host {
        Some(h) => h,
        None => {
            let none = String::new();
            none
        },
    };
    match decision {
        Gate::Refuse(e) => HttpStep::Done { outcome: refused_outcome(e, name, elapsed_ms) },
        Gate::Resolve => HttpStep::Resolve { params, host: name },
        Gate::Send => HttpStep::Fetch { params, host: name },
    }
}

/// Goes on once the host is resolved: it fails at once where nothing it
/// resolves to may be reached.
pub fn after_resolution(
    params: HttpRequestParams,
    host: String,
    resolved: &Result<Vec<Ip>, String>,
    block: &Blocklist,
    allow: &Allowlist,
    elapsed_ms: u64,
) -> (r: HttpStep)
    ensures
        match host_error(host@, lowercase(host@), resolution(*resolved), *block, *allow) {
            Some(e) => r matches HttpStep::Done { outcome } && is_refused(
                e,
                host@,
                elapsed_ms,
                outcome,
            ),
            None => r == (HttpStep::Fetch { params, host }),
        },
{
    match check_host_reachable(host.as_str(), resolved, block, allow) {
        Err(e) => HttpStep::Done { outcome: refused_outcome(e, host, elapsed_ms) },
        Ok(_) => HttpStep::Fetch { params, host },
    }
}

/// How many redirects the client for a request follows; nothing for one that
/// follows none.
pub fn redirect_cap(params: &HttpRequestParams) -> (r: Option<usize>)
    ensures
        r == if params.follow_redirects {
            Some(params.max_redirects)
        } else {
            None
        },
{
    if params.follow_redirects {
        Some(params.max_redirects)
    } else {
        None
    }
}

/// The event that follows the reply to a request.
pub const COMPLETED_EVENT: &'static str = "request_completed";

/// What the event says of an outcome.
pub open spec fn completed_text(outcome: HttpOutcome) -> Seq<char> {
    let error = match outcome.response {
        Ok(_) => Seq::empty(),
        Err(e) => e@,
    };
    "{\"error\":"@ + json_quoted(error) + ",\"host\":"@ + json_quoted(outcome.host@)
        + ",\"latency_ms\":"@ + decimal(outcome.latency_ms as nat) + ",\"retry_count\":"@ + decimal(
        outcome.retry_count as nat,
    ) + ",\"status\":"@ + decimal(outcome.status as nat) + "}"@
}

/// The event tells the error, empty for a success, and the host, the latency, the
/// number of retries and the status, each under its own name.
pub proof fn lemma_what_the_event_tells(outcome: HttpOutcome)
    ensures
        outcome.response is Ok ==> has_infix(
            completed_text(outcome),
            "{\"error\":"@ + json_quoted(Seq::empty()),
        ),
        outcome.response matches Err(e) ==> has_infix(
            completed_text(outcome),
            "{\"error\":"@ + json_quoted(e@),
        ),
        has_infix(completed_text(outcome), ",\"host\":"@ + json_quoted(outcome.host@)),
        has_infix(
            completed_text(outcome),
            ",\"latency_ms\":"@ + decimal(outcome.latency_ms as nat) + ",\"retry_count\":"@,
        ),
        has_infix(
            completed_text(outcome),
            ",\"retry_count\":"@ + decimal(outcome.retry_count as nat) + ",\"status\":"@,
        ),
        has_infix(
            completed_text(outcome),
            ",\"status\":"@ + decimal(outcome.status as nat) + "}"@,
        ),
{
    let error = match outcome.response {
        Ok(_) => Seq::empty(),
        Err(e) => e@,
    };
    let p0 = "{\"error\":"@;
    let p1 = json_quoted(error);
    let p2 = ",\"host\":"@;
    let p3 = json_quoted(outcome.host@);
    let p4 = ",\"latency_ms\":"@;
    let p5 = decimal(outcome.latency_ms as nat);
    let p6 = ",\"retry_count\":"@;
    let p7 = decimal(
        outcome.retry_count as nat,
    );
    let p8 = ",\"status\":"@;
    let p9 = decimal(outcome.status as nat);
    let p10 = "}"@;
    let t0 = p0;
    let t1 = t0 + p1;
    let t2 = t1 + p2;
    let t3 = t2 + p3;
    let t4 = t3 + p4;
    let t5 = t4 + p5;
    let t6 = t5 + p6;
    let t7 = t6 + p7;
    let t8 = t7 + p8;
    let t9 = t8 + p9;
    let t10 = t9 + p10;
    assert(t1 =~= Seq::<char>::empty() + (p0 + p1));
    lemma_infix_at_end(Seq::<char>::empty(), p0 + p1);
    lemma_infix_stays(t1, p0 + p1, p2);
    lemma_infix_stays(t2, p0 + p1, p3);
    lemma_infix_stays(t3, p0 + p1, p4);
    lemma_infix_stays(t4, p0 + p1, p5);
    lemma_infix_stays(t5, p0 + p1, p6);
    lemma_infix_stays(t6, p0 + p1, p7);
    lemma_infix_stays(t7, p0 + p1, p8);
    lemma_infix_stays(t8, p0 + p1, p9);
    lemma_infix_stays(t9, p0 + p1, p10);
    assert(t3 =~= t1 + (p2 + p3));
    lemma_infix_at_end(t1, p2 + p3);
    lemma_infix_stays(t3, p2 + p3, p4);
    lemma_infix_stays(t4, p2 + p3, p5);
    lemma_infix_stays(t5, p2 + p3, p6);
    lemma_infix_stays(t6, p2 + p3, p7);
    lemma_infix_stays(t7, p2 + p3, p8);
    lemma_infix_stays(t8, p2 + p3, p9);
    lemma_infix_stays(t9, p2 + p3, p10);
    assert(t6 =~= t3 + (p4 + p5 + p6));
    lemma_infix_at_end(t3, p4 + p5 + p6);
    lemma_infix_stays(t6, p4 + p5 + p6, p7);
    lemma_infix_stays(t7, p4 + p5 + p6, p8);
    lemma_infix_stays(t8, p4 + p5 + p6, p9);
    lemma_infix_stays(t9, p4 + p5 + p6, p10);
    assert(t8 =~= t5 + (p6 + p7 + p8));
    lemma_infix_at_end(t5, p6 + p7 + p8);
    lemma_infix_stays(t8, p6 + p7 + p8, p9);
    lemma_infix_stays(t9, p6 + p7 + p8, p10);
    assert(t10 =~= t7 + (p8 + p9 + p10));
    lemma_infix_at_end(t7, p8 + p9 + p10);
    assert(completed_text(outcome) == t10);
}

/// The payload of the best-effort `request_completed` event: the error is
/// empty for a success.
pub fn completed_event(outcome: &HttpOutcome) -> (r: String)
    ensures
        r@ == completed_text(*outcome),
{
    let quoted = match &outcome.response {
        Ok(_) => {
            let none = String::new();
            json_quote(none.as_str())
        },
        Err(e) => json_quote(e.as_str()),
    };
    let mut s = join2("{\"error\":", quoted.as_str());
    s.append(",\"host\":");
    s.append(json_quote(outcome.host.as_str()).as_str());
    s.append(",\"latency_ms\":");
    s.append(dec(outcome.latency_ms).as_str());
    s.append(",\"retry_count\":");
    s.append(dec(outcome.retry_count as u64).as_str());
    s.append(",\"status\":");
    s.append(dec(outcome.status as u64).as_str());
    s.append("}");
    s
}

// ---------------------------------------------------------------------------
// The message loop
// ---------------------------------------------------------------------------

/// A message from the kernel.
#[derive(Debug)]
pub enum Inbound {
    Ping { timestamp: u64 },
    Shutdown,
    PublishAck { accepted: bool },
    Action { action_id: String, action: String, caller: String, params_json: Vec<u8> },
    Other,
}

/// What the loop does about a message.
#[derive(Debug)]
pub enum LoopAction {
    /// Answer a ping.
    Pong { original_timestamp: u64, server_timestamp: u64 },
    /// Leave the loop.
    Stop,
    /// Note that an event was not published.
    PublishFailed,
    /// Run the request in a task of its own; its slot is taken.
    Spawn { action_id: String, caller: String, params_json: Vec<u8> },
    /// Send this reply.
    Reply { reply: ActionReply },
    /// Nothing to do.
    Ignore,
}

/// Decides what to do about `msg`. A request of a caller with a free slot
/// takes the slot and runs; without one it is refused on the spot.
pub fn route(inflight: &mut Inflight, msg: Inbound, now_ms: u64) -> (r: LoopAction)
    ensures
        final(inflight).limit() == old(inflight).limit(),
        match msg {
            Inbound::Ping { timestamp } => r == (LoopAction::Pong {
                original_timestamp: timestamp,
                server_timestamp: now_ms,
            }) && final(inflight).active() == old(inflight).active(),
            Inbound::Shutdown => r is Stop && final(inflight).active() == old(inflight).active(),
            Inbound::PublishAck { accepted } => (if accepted {
                r is Ignore
            } else {
                r is PublishFailed
            }) && final(inflight).active() == old(inflight).active(),
            Inbound::Other => r is Ignore && final(inflight).active() == old(inflight).active(),
            Inbound::Action { action_id, action, caller, params_json } => {
                let n = in_flight(old(inflight).active(), caller@);
                let limit = old(inflight).limit();
                if action@ != "http_request"@ {
                    &&& r matches LoopAction::Reply { reply }
                    &&& replies_error(reply, action_id, "unknown action: "@ + action@)
                    &&& final(inflight).active() == old(inflight).active()
                } else if limit == 0 || n < limit {
                    &&& r == LoopAction::Spawn { action_id, caller, params_json }
                    &&& limit == 0 ==> final(inflight).active() == old(inflight).active()
                    &&& limit > 0 ==> in_flight(final(inflight).active(), caller@) == n + 1
                    &&& forall|c: Seq<char>|
                        c != caller@ ==> in_flight(final(inflight).active(), c) == in_flight(
                            old(inflight).active(),
                            c,
                        )
                } else {
                    &&& r matches LoopAction::Reply { reply }
                    &&& replies_error(reply, action_id, over_limit(caller@, n, limit as nat))
                    &&& final(inflight).active() == old(inflight).active()
                }
            },
        },
{
    match msg {
        Inbound::Ping { timestamp } => LoopAction::Pong {
            original_timestamp: timestamp,
            server_timestamp: now_ms,
        },
        Inbound::Shutdown => LoopAction::Stop,
        Inbound::PublishAck { accepted } => if accepted {
            LoopAction::Ignore
        } else {
            LoopAction::PublishFailed
        },
        Inbound::Other => LoopAction::Ignore,
        Inbound::Action { action_id, action, caller, params_json } => {
            if !same(action.as_str(), "http_request") {
                return LoopAction::Reply {
                    reply: response_envelope(
                        action_id,
                        Err(join2("unknown action: ", action.as_str())),
                    ),
                };
            }
            match inflight.try_acquire(caller.as_str()) {
                Ok(_) => LoopAction::Spawn { action_id, caller, params_json },
                Err(e) => LoopAction::Reply { reply: response_envelope(action_id, Err(e)) },
            }
        },
    }
}

/// A request that is turned away is reported with its error, without a status and without
/// retries, under its host and with the time that it took.
pub proof fn lemma_what_a_refusal_reports(
    error: Seq<char>,
    host: Seq<char>,
    latency_ms: u64,
    r: HttpOutcome,
)
    requires
        is_refused(error, host, latency_ms, r),
    ensures
        r.response is Err,
        r.response->Err_0@ == error,
        r.status == 0,
        r.retry_count == 0,
        r.host@ == host,
        r.latency_ms == latency_ms,
{
}

/// The host of a request is the one in its URL, empty where that names none; a URL that
/// does not parse has none.
pub proof fn lemma_which_host_it_is(
    url: Result<(Seq<char>, Option<Seq<char>>), Seq<char>>,
    host: Option<String>,
)
    ensures
        url is Err ==> host_of(url) is None,
        url is Ok ==> host_of(url) is Some,
        url matches Ok(parts) ==> (parts.1 is Some ==> host_of(url) == parts.1) && (parts.1 is None
            ==> host_of(url)->0.len() == 0),
        host is Some ==> reported_host(host) == host->0@,
        host is None ==> reported_host(host).len() == 0,
{
}

/// A body that was encoded for a reply gives the same bytes when it is decoded the way its
/// mark says.
pub proof fn lemma_bodies_read_back(text: Seq<char>, encoding: Seq<char>, bytes: Seq<u8>)
    ensures
        reads_back(text, "utf8"@, bytes) ==> encode_utf8(text) == bytes,
        reads_back(text, "base64"@, bytes) ==> base64_bytes(text) == Ok::<Seq<u8>, Seq<char>>(
            bytes,
        ),
        encoding != "utf8"@ && encoding != "base64"@ ==> !reads_back(text, encoding, bytes),
{
    reveal_strlit("utf8");
    reveal_strlit("base64");
    assert("utf8"@.len() == 4 && "base64"@.len() == 6);
}

} // verus!
