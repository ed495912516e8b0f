//! Validation of the parameters of an `http_request` action.

use crate::number::{dec, decimal};
use crate::strmap::StrMap;
use crate::text::{
    ascii_only, byte_count, byte_len, join2, join3, lesser, opt_text, same, upper_ascii,
};
use crate::trusted::{base64_size, parse_url, to_upper, uppercase, url_parts};
use vstd::prelude::*;

verus! {

/// Hard ceiling on `timeout_ms`; a larger value is clamped, never rejected.
pub const MAX_TIMEOUT_MS: u64 = 30_000;

/// Hard ceiling on `max_retries`.
pub const MAX_RETRIES: u32 = 5;

/// Initial backoff between attempts where the caller names none.
pub const DEFAULT_RETRY_BACKOFF_MS: u64 = 200;

/// Hard ceiling on `retry_backoff_ms`, and on its growth between attempts.
pub const MAX_RETRY_BACKOFF_MS: u64 = 5_000;

/// Hard ceiling on the length of a URL, in bytes.
pub const MAX_URL_LEN: usize = 8_192;

/// Hard ceiling on the number of headers.
pub const MAX_HEADER_COUNT: usize = 100;

/// Hard ceiling on the bytes of all header names and values together.
pub const MAX_HEADERS_TOTAL_BYTES: usize = 32_768;

/// Hard ceiling on the decoded size of a request body.
pub const MAX_REQUEST_BODY_BYTES: usize = 26_214_400;

/// Hard ceiling on redirect hops.
pub const MAX_REDIRECTS: usize = 10;

/// Hard ceiling on the name of a multipart part, in bytes.
pub const MAX_MULTIPART_NAME_BYTES: usize = 256;

/// Hard ceiling on the file name of a multipart part, in bytes.
pub const MAX_MULTIPART_FILENAME_BYTES: usize = 1_024;

/// One `multipart/form-data` part. Exactly one of `value` and `file_base64`
/// is required.
#[derive(Debug, Clone, PartialEq, Eq)]
pub struct MultipartPart {
    pub name: String,
    pub value: Option<String>,
    pub file_base64: Option<String>,
    pub filename: Option<String>,
    pub content_type: Option<String>,
}

/// The parameters as the caller sent them, before validation.
#[derive(Debug)]
pub struct RawHttpRequest {
    pub method: Option<String>,
    pub url: Option<String>,
    pub headers: StrMap<String>,
    pub body: Option<String>,
    pub body_base64: Option<String>,
    pub multipart: Option<Vec<MultipartPart>>,
    pub cache_ttl_ms: Option<u64>,
    pub use_cookies: Option<bool>,
    pub timeout_ms: Option<u64>,
    pub max_retries: Option<u32>,
    pub retry_backoff_ms: Option<u64>,
    pub follow_redirects: Option<bool>,
    pub max_redirects: Option<usize>,
}

/// Validated parameters of one request.
#[derive(Debug)]
pub struct HttpRequestParams {
    pub method: String,
    pub url: String,
    pub headers: StrMap<String>,
    /// UTF-8 request body, exclusive with `body_base64` and `multipart`.
    pub body: Option<String>,
    /// Binary request body in base64.
    pub body_base64: Option<String>,
    /// Parts of a `multipart/form-data` body.
    pub multipart: Option<Vec<MultipartPart>>,
    /// How long a response may be served from the cache; `0` disables it.
    pub cache_ttl_ms: u64,
    /// Whether the caller's session cookies are kept and sent.
    pub use_cookies: bool,
    pub timeout_ms: u64,
    pub max_retries: u32,
    pub retry_backoff_ms: u64,
    pub follow_redirects: bool,
    pub max_redirects: usize,
}

// ---------------------------------------------------------------------------
// Parts
// ---------------------------------------------------------------------------

/// What is wrong with the `i`-th part by itself, if anything.
pub open spec fn part_error(i: nat, part: MultipartPart) -> Option<Seq<char>> {
    let here = "multipart part "@ + decimal(i);
    if part.name@.len() == 0 || byte_len(part.name@) > MAX_MULTIPART_NAME_BYTES {
        Some(here + " name must be 1..="@ + decimal(MAX_MULTIPART_NAME_BYTES as nat) + " bytes"@)
    } else if part.filename is Some && byte_len(part.filename->0@)
        > MAX_MULTIPART_FILENAME_BYTES {
        Some(
            here + " filename exceeds "@ + decimal(MAX_MULTIPART_FILENAME_BYTES as nat)
                + "-byte cap"@,
        )
    } else if part.value is Some && part.file_base64 is Some {
        Some(here + " has both value and file_base64 — pick one"@)
    } else if part.value is None && part.file_base64 is None {
        Some(here + " needs exactly one of value or file_base64"@)
    } else if part.file_base64 is Some && decoded_estimate(part) > MAX_REQUEST_BODY_BYTES {
        Some(
            here + " decodes to more than the "@ + decimal(MAX_REQUEST_BODY_BYTES as nat)
                + "-byte cap"@,
        )
    } else {
        None
    }
}

/// Bytes that a part will take up: its text, or three bytes for every four
/// base64 characters.
pub open spec fn decoded_estimate(part: MultipartPart) -> nat {
    match part.value {
        Some(v) => byte_len(v@),
        None => match part.file_base64 {
            Some(b) => byte_len(b@) * 3 / 4,
            None => 0,
        },
    }
}

/// What is wrong with the first `k` parts: the complaint about the first bad
/// one.
pub open spec fn first_part_error(parts: Seq<MultipartPart>, k: nat) -> Option<Seq<char>>
    decreases k,
{
    if k == 0 {
        None
    } else {
        match first_part_error(parts, (k - 1) as nat) {
            Some(e) => Some(e),
            None => part_error((k - 1) as nat, parts[k - 1]),
        }
    }
}

/// Estimated bytes of the first `k` parts together.
pub open spec fn estimate_of(parts: Seq<MultipartPart>, k: nat) -> nat
    decreases k,
{
    if k == 0 {
        0
    } else {
        estimate_of(parts, (k - 1) as nat) + decoded_estimate(parts[k - 1])
    }
}

/// What is wrong with a list of parts, if anything.
pub open spec fn multipart_error(parts: Seq<MultipartPart>) -> Option<Seq<char>> {
    match first_part_error(parts, parts.len()) {
        Some(e) => Some(e),
        None => if estimate_of(parts, parts.len()) > MAX_REQUEST_BODY_BYTES {
            Some(
                "multipart body decodes to more than the "@ + decimal(
                    MAX_REQUEST_BODY_BYTES as nat,
                ) + "-byte cap"@,
            )
        } else {
            None
        },
    }
}

fn check_part(i: usize, part: &MultipartPart) -> (r: Result<u128, String>)
    ensures
        match r {
            Ok(n) => part_error(i as nat, *part) is None && n == decoded_estimate(*part),
            Err(e) => part_error(i as nat, *part) == Some(e@),
        },
{
    let here = join2("multipart part ", dec(i as u64).as_str());
    if part.name.as_str().is_empty() || byte_count(part.name.as_str())
        > MAX_MULTIPART_NAME_BYTES {
        let at = join2(here.as_str(), " name must be 1..=");
        return Err(join3(at.as_str(), dec(MAX_MULTIPART_NAME_BYTES as u64).as_str(), " bytes"));
    }
    if let Some(f) = &part.filename {
        if byte_count(f.as_str()) > MAX_MULTIPART_FILENAME_BYTES {
            let at = join2(here.as_str(), " filename exceeds ");
            return Err(
                join3(at.as_str(), dec(MAX_MULTIPART_FILENAME_BYTES as u64).as_str(), "-byte cap"),
            );
        }
    }
    match (&part.value, &part.file_base64) {
        (Some(v), None) => Ok(byte_count(v.as_str()) as u128),
        (None, Some(b64)) => {
            let estimate: u128 = byte_count(b64.as_str()) as u128 * 3 / 4;
            if estimate > MAX_REQUEST_BODY_BYTES as u128 {
                let at = join2(here.as_str(), " decodes to more than the ");
                return Err(
                    join3(at.as_str(), dec(MAX_REQUEST_BODY_BYTES as u64).as_str(), "-byte cap"),
                );
            }
            Ok(estimate)
        },
        (Some(_), Some(_)) => Err(
            join2(here.as_str(), " has both value and file_base64 — pick one"),
        ),
        (None, None) => Err(
            join2(here.as_str(), " needs exactly one of value or file_base64"),
        ),
    }
}

/// Checks every part by itself, then their size together.
pub fn validate_multipart(parts: &Vec<MultipartPart>) -> (r: Result<(), String>)
    ensures
        match r {
            Ok(_) => multipart_error(parts@) is None,
            Err(e) => multipart_error(parts@) == Some(e@),
        },
{
    let mut total: u128 = 0;
    let mut over = false;
    let mut i: usize = 0;
    while i < parts.len()
        invariant
            i <= parts.len(),
            first_part_error(parts@, i as nat) is None,
            !over ==> total == estimate_of(parts@, i as nat) && total <= MAX_REQUEST_BODY_BYTES,
            over ==> estimate_of(parts@, i as nat) > MAX_REQUEST_BODY_BYTES,
        decreases parts.len() - i,
    {
        match check_part(i, &parts[i]) {
            Ok(n) => {
                if !over {
                    if n > MAX_REQUEST_BODY_BYTES as u128 {
                        over = true;
                    } else {
                        total = total + n;
                        if total > MAX_REQUEST_BODY_BYTES as u128 {
                            over = true;
                        }
                    }
                }
                i += 1;
            },
            Err(e) => {
                proof {
                    lemma_first_error_stays(parts@, (i + 1) as nat, parts@.len());
                }
                return Err(e);
            },
        }
    }
    if over {
        return Err(
            join3(
                "multipart body decodes to more than the ",
                dec(MAX_REQUEST_BODY_BYTES as u64).as_str(),
                "-byte cap",
            ),
        );
    }
    Ok(())
}

proof fn lemma_first_error_stays(parts: Seq<MultipartPart>, k: nat, n: nat)
    requires
        k <= n <= parts.len(),
        first_part_error(parts, k) is Some,
    ensures
        first_part_error(parts, n) == first_part_error(parts, k),
    decreases n - k,
{
    if k < n {
        lemma_first_error_stays(parts, k, (n - 1) as nat);
    }
}

// ---------------------------------------------------------------------------
// Headers
// ---------------------------------------------------------------------------

/// Bytes of the first `k` header names and values.
pub open spec fn header_bytes(headers: StrMap<String>, k: nat) -> nat
    decreases k,
{
    if k == 0 {
        0
    } else {
        let name = headers.order()[k - 1];
        header_bytes(headers, (k - 1) as nat) + byte_len(name) + byte_len(headers@[name]@)
    }
}

/// Whether all header names and values together exceed the cap.
fn headers_too_large(headers: &StrMap<String>) -> (r: bool)
    ensures
        r == (header_bytes(*headers, headers.order().len()) > MAX_HEADERS_TOTAL_BYTES),
{
    let n: usize = headers.len();
    let mut total: u128 = 0;
    let mut over = false;
    let mut i: usize = 0;
    while i < n
        invariant
            i <= n == headers.order().len(),
            !over ==> total == header_bytes(*headers, i as nat) && total
                <= MAX_HEADERS_TOTAL_BYTES,
            over ==> header_bytes(*headers, i as nat) > MAX_HEADERS_TOTAL_BYTES,
        decreases n - i,
    {
        let (k, v) = headers.entry_at(i);
        if !over {
            total = total + byte_count(k.as_str()) as u128 + byte_count(v.as_str()) as u128;
            if total > MAX_HEADERS_TOTAL_BYTES as u128 {
                over = true;
            }
        }
        i += 1;
    }
    over
}

// ---------------------------------------------------------------------------
// The request
// ---------------------------------------------------------------------------

/// The methods that may be sent.
pub open spec fn is_allowed_method(m: Seq<char>) -> bool {
    m == "GET"@ || m == "POST"@ || m == "PUT"@ || m == "DELETE"@ || m == "PATCH"@ || m == "HEAD"@
        || m == "OPTIONS"@
}

/// Decides [`is_allowed_method`].
pub fn allowed_method(m: &str) -> (r: bool)
    ensures
        r == is_allowed_method(m@),
        r <==> m@ == "GET"@ || m@ == "POST"@ || m@ == "PUT"@ || m@ == "DELETE"@ || m@ == "PATCH"@
            || m@ == "HEAD"@ || m@ == "OPTIONS"@,
{
    same(m, "GET") || same(m, "POST") || same(m, "PUT") || same(m, "DELETE") || same(m, "PATCH")
        || same(m, "HEAD") || same(m, "OPTIONS")
}

/// How many bytes a base64 text stands for.
fn decoded_size(b64: &str) -> (r: usize)
    ensures
        r == base64_size(b64@),
{
    let bytes = b64.as_bytes();
    let n: usize = bytes.len();
    let whole: usize = n / 4 * 3;
    if n == 0 || n % 4 != 0 || bytes[n - 1] != 0x3d {
        whole
    } else if bytes[n - 2] != 0x3d {
        whole - 1
    } else {
        whole - 2
    }
}

/// What is wrong with a request, if anything: the first complaint in order.
/// `upper` is the method in upper case, `url` what the URL parser says of the
/// URL.
pub open spec fn request_error(
    raw: RawHttpRequest,
    upper: Seq<char>,
    url: Result<(Seq<char>, Option<Seq<char>>), Seq<char>>,
) -> Option<Seq<char>> {
    if raw.method is None {
        Some("missing required field: method"@)
    } else if !is_allowed_method(upper) {
        Some("unsupported method: "@ + upper)
    } else if raw.url is None {
        Some("missing required field: url"@)
    } else if byte_len(raw.url->0@) > MAX_URL_LEN {
        Some("url exceeds "@ + decimal(MAX_URL_LEN as nat) + "-byte cap"@)
    } else if url is Err {
        Some("invalid url: "@ + url->Err_0)
    } else if url->Ok_0.0 != "http"@ && url->Ok_0.0 != "https"@ {
        Some("blocked scheme: "@ + url->Ok_0.0)
    } else if raw.headers.order().len() > MAX_HEADER_COUNT {
        Some("too many headers: max "@ + decimal(MAX_HEADER_COUNT as nat))
    } else if header_bytes(raw.headers, raw.headers.order().len()) > MAX_HEADERS_TOTAL_BYTES {
        Some("headers exceed "@ + decimal(MAX_HEADERS_TOTAL_BYTES as nat) + "-byte total cap"@)
    } else if raw.body is Some && raw.body_base64 is Some {
        Some("set body or body_base64, not both"@)
    } else if raw.multipart is Some && (raw.body is Some || raw.body_base64 is Some) {
        Some("multipart is mutually exclusive with body and body_base64"@)
    } else if raw.multipart is Some && multipart_error(raw.multipart->0@) is Some {
        multipart_error(raw.multipart->0@)
    } else if raw.body_base64 is Some && base64_size(raw.body_base64->0@)
        > MAX_REQUEST_BODY_BYTES {
        Some(
            "body_base64 decodes to more than the "@ + decimal(MAX_REQUEST_BODY_BYTES as nat)
                + "-byte cap"@,
        )
    } else {
        None
    }
}

/// The value that the caller gave, or `default`, but no more than `max`.
pub open spec fn clamped(given: Option<nat>, default: nat, max: nat) -> nat {
    lesser(
        match given {
            Some(n) => n,
            None => default,
        },
        max,
    )
}

pub open spec fn opt_nat(o: Option<u64>) -> Option<nat> {
    match o {
        Some(n) => Some(n as nat),
        None => None,
    }
}

/// Whether `p` holds the request `raw` with defaults filled in and numbers
/// clamped, sent with the method `upper`.
pub open spec fn request_accepted(
    raw: RawHttpRequest,
    upper: Seq<char>,
    p: HttpRequestParams,
) -> bool {
    &&& p.method@ == upper
    &&& raw.url == Some(p.url)
    &&& p.headers == raw.headers
    &&& p.body == raw.body
    &&& p.body_base64 == raw.body_base64
    &&& p.multipart == raw.multipart
    &&& p.cache_ttl_ms == raw.cache_ttl_ms.unwrap_or(0)
    &&& p.use_cookies == raw.use_cookies.unwrap_or(false)
    &&& p.timeout_ms == clamped(
        opt_nat(raw.timeout_ms),
        MAX_TIMEOUT_MS as nat,
        MAX_TIMEOUT_MS as nat,
    )
    &&& p.max_retries == lesser(raw.max_retries.unwrap_or(0) as nat, MAX_RETRIES as nat)
    &&& p.retry_backoff_ms == clamped(
        opt_nat(raw.retry_backoff_ms),
        DEFAULT_RETRY_BACKOFF_MS as nat,
        MAX_RETRY_BACKOFF_MS as nat,
    )
    &&& p.follow_redirects == raw.follow_redirects.unwrap_or(false)
    &&& p.max_redirects == lesser(
        raw.max_redirects.unwrap_or(MAX_REDIRECTS) as nat,
        MAX_REDIRECTS as nat,
    )
}

/// `n`, but no more than `max`.
pub fn at_most(n: u64, max: u64) -> (r: u64)
    ensures
        r == lesser(n as nat, max as nat),
{
    if n <= max {
        n
    } else {
        max
    }
}

/// Validates `raw`, given its method in upper case and what the URL parser
/// says of its URL (either empty where the caller sent none).
pub fn validate_request(
    raw: RawHttpRequest,
    upper: String,
    url: Result<(String, Option<String>), String>,
) -> (r: Result<HttpRequestParams, String>)
    ensures
        match r {
            Ok(p) => request_error(raw, upper@, url_outcome(url)) is None && request_accepted(
                raw,
                upper@,
                p,
            ),
            Err(e) => request_error(raw, upper@, url_outcome(url)) == Some(e@),
        },
{
    if raw.method.is_none() {
        return Err("missing required field: method".to_owned());
    }
    if !allowed_method(upper.as_str()) {
        return Err(join2("unsupported method: ", upper.as_str()));
    }
    let url_str = match &raw.url {
        Some(u) => u.clone(),
        None => {
            return Err("missing required field: url".to_owned());
        },
    };
    if byte_count(url_str.as_str()) > MAX_URL_LEN {
        return Err(join3("url exceeds ", dec(MAX_URL_LEN as u64).as_str(), "-byte cap"));
    }
    match &url {
        Err(e) => {
            return Err(join2("invalid url: ", e.as_str()));
        },
        Ok(parts) => {
            if !same(parts.0.as_str(), "http") && !same(parts.0.as_str(), "https") {
                return Err(join2("blocked scheme: ", parts.0.as_str()));
            }
        },
    }
    if raw.headers.len() > MAX_HEADER_COUNT {
        return Err(join2("too many headers: max ", dec(MAX_HEADER_COUNT as u64).as_str()));
    }
    if headers_too_large(&raw.headers) {
        return Err(
            join3(
                "headers exceed ",
                dec(MAX_HEADERS_TOTAL_BYTES as u64).as_str(),
                "-byte total cap",
            ),
        );
    }
    if raw.body.is_some() && raw.body_base64.is_some() {
        return Err("set body or body_base64, not both".to_owned());
    }
    if raw.multipart.is_some() && (raw.body.is_some() || raw.body_base64.is_some()) {
        return Err("multipart is mutually exclusive with body and body_base64".to_owned());
    }
    if let Some(parts) = &raw.multipart {
        match validate_multipart(parts) {
            Ok(_) => {},
            Err(e) => {
                return Err(e);
            },
        }
    }
    if let Some(b64) = &raw.body_base64 {
        if decoded_size(b64.as_str()) > MAX_REQUEST_BODY_BYTES {
            return Err(
                join3(
                    "body_base64 decodes to more than the ",
                    dec(MAX_REQUEST_BODY_BYTES as u64).as_str(),
                    "-byte cap",
                ),
            );
        }
    }
    let timeout_ms: u64 = at_most(raw.timeout_ms.unwrap_or(MAX_TIMEOUT_MS), MAX_TIMEOUT_MS);
    let retries: u32 = raw.max_retries.unwrap_or(0);
    let max_retries: u32 = if retries <= MAX_RETRIES {
        retries
    } else {
        MAX_RETRIES
    };
    let retry_backoff_ms: u64 = at_most(
        raw.retry_backoff_ms.unwrap_or(DEFAULT_RETRY_BACKOFF_MS),
        MAX_RETRY_BACKOFF_MS,
    );
    let hops: usize = raw.max_redirects.unwrap_or(MAX_REDIRECTS);
    let max_redirects: usize = if hops <= MAX_REDIRECTS {
        hops
    } else {
        MAX_REDIRECTS
    };
    Ok(
        HttpRequestParams {
            method: upper,
            url: url_str,
            headers: raw.headers,
            body: raw.body,
            body_base64: raw.body_base64,
            multipart: raw.multipart,
            cache_ttl_ms: raw.cache_ttl_ms.unwrap_or(0),
            use_cookies: raw.use_cookies.unwrap_or(false),
            timeout_ms,
            max_retries,
            retry_backoff_ms,
            follow_redirects: raw.follow_redirects.unwrap_or(false),
            max_redirects,
        },
    )
}

/// What the URL parser said, by its contents.
pub open spec fn url_outcome(url: Result<(String, Option<String>), String>) -> Result<
    (Seq<char>, Option<Seq<char>>),
    Seq<char>,
> {
    match url {
        Ok(p) => Ok((p.0@, opt_text(p.1))),
        Err(e) => Err(e@),
    }
}

/// The method in upper case; empty where there is none.
pub open spec fn upper_method(raw: RawHttpRequest) -> Seq<char> {
    match raw.method {
        Some(m) => uppercase(m@),
        None => Seq::empty(),
    }
}

/// What the URL parser says of the URL of a request.
pub open spec fn parsed_url(raw: RawHttpRequest) -> Result<
    (Seq<char>, Option<Seq<char>>),
    Seq<char>,
> {
    match raw.url {
        Some(u) => url_parts(u@),
        None => Err(Seq::empty()),
    }
}

/// Whether `r` is what validation makes of the parameters of a request.
pub open spec fn is_parsed(
    parsed: Result<RawHttpRequest, String>,
    r: Result<HttpRequestParams, String>,
) -> bool {
    match (parsed, r) {
        (Err(e), Err(m)) => m@ == "invalid JSON: "@ + e@,
        (Err(e), Ok(p)) => false,
        (Ok(raw), Err(m)) => request_error(raw, upper_method(raw), parsed_url(raw)) == Some(m@),
        (Ok(raw), Ok(p)) => request_error(raw, upper_method(raw), parsed_url(raw)) is None
            && request_accepted(raw, upper_method(raw), p),
    }
}

/// Validates the parameters of an `http_request` action, decoded from JSON
/// or not decodable. The error is a message for the caller.
pub fn parse_request(parsed: Result<RawHttpRequest, String>) -> (r: Result<
    HttpRequestParams,
    String,
>)
    ensures
        is_parsed(parsed, r),
        parsed matches Ok(raw) ==> (raw.method matches Some(m) ==> (ascii_only(m@) ==> uppercase(m@)
            == upper_ascii(m@))),
{
    match parsed {
        Err(e) => Err(join2("invalid JSON: ", e.as_str())),
        Ok(raw) => {
            let upper = match &raw.method {
                Some(m) => to_upper(m.as_str()),
                None => String::new(),
            };
            let url = match &raw.url {
                Some(u) => parse_url(u.as_str()),
                None => Err(String::new()),
            };
            validate_request(raw, upper, url)
        },
    }
}

/// What keeps to the rules is accepted: a method that may be sent, an `http` or
/// `https` URL of at most 8192 bytes, at most 100 headers of 32 KiB together, and at
/// most one kind of body, inside 25 MiB. Nothing else is.
pub proof fn lemma_what_is_accepted(
    raw: RawHttpRequest,
    upper: Seq<char>,
    url: Result<(Seq<char>, Option<Seq<char>>), Seq<char>>,
)
    ensures
        request_error(raw, upper, url) is None <==> {
            &&& raw.method is Some
            &&& upper == "GET"@ || upper == "POST"@ || upper == "PUT"@ || upper == "DELETE"@ || upper
                == "PATCH"@ || upper == "HEAD"@ || upper == "OPTIONS"@
            &&& raw.url is Some && byte_len(raw.url->0@) <= 8192
            &&& url matches Ok(parts) && (parts.0 == "http"@ || parts.0 == "https"@)
            &&& raw.headers.order().len() <= 100
            &&& header_bytes(raw.headers, raw.headers.order().len()) <= 32 * 1024
            &&& raw.body is None || raw.body_base64 is None
            &&& raw.multipart is Some ==> raw.body is None && raw.body_base64 is None
                && multipart_error(raw.multipart->0@) is None
            &&& raw.body_base64 is Some ==> base64_size(raw.body_base64->0@) <= 25 * 1024 * 1024
        },
{
}

/// Parts are accepted exactly where each has a name of at most 256 bytes, a file
/// name of at most 1024, and either a text or a file, all together inside 25 MiB.
pub proof fn lemma_which_parts_are_accepted(parts: Seq<MultipartPart>)
    ensures
        multipart_error(parts) is None ==> forall|i: int|
            #![trigger parts[i]]
            0 <= i < parts.len() ==> {
                &&& parts[i].name@.len() > 0 && byte_len(parts[i].name@) <= 256
                &&& parts[i].filename is Some ==> byte_len(parts[i].filename->0@) <= 1024
                &&& parts[i].value is Some <==> parts[i].file_base64 is None
            },
        multipart_error(parts) is None ==> estimate_of(parts, parts.len()) <= 25 * 1024 * 1024,
        (forall|i: int|
            #![trigger parts[i]]
            0 <= i < parts.len() ==> {
                &&& parts[i].name@.len() > 0 && byte_len(parts[i].name@) <= 256
                &&& parts[i].filename is Some ==> byte_len(parts[i].filename->0@) <= 1024
                &&& parts[i].value is Some <==> parts[i].file_base64 is None
            }) && estimate_of(parts, parts.len()) <= 25 * 1024 * 1024 ==> multipart_error(parts)
            is None,
{
    lemma_no_part_error(parts, parts.len());
    lemma_estimates(parts, parts.len());
}

proof fn lemma_no_part_error(parts: Seq<MultipartPart>, k: nat)
    ensures
        first_part_error(parts, k) is None <==> forall|i: int|
            0 <= i < k ==> part_error(i as nat, #[trigger] parts[i]) is None,
    decreases k,
{
    if k > 0 {
        lemma_no_part_error(parts, (k - 1) as nat);
        let last = parts[k - 1];
        assert(part_error((k - 1) as nat, last) is None || part_error((k - 1) as nat, last)
            is Some);
    }
}

proof fn lemma_estimates(parts: Seq<MultipartPart>, k: nat)
    requires
        k <= parts.len(),
    ensures
        forall|i: int|
            0 <= i < k ==> decoded_estimate(#[trigger] parts[i]) <= estimate_of(parts, k),
    decreases k,
{
    if k > 0 {
        lemma_estimates(parts, (k - 1) as nat);
    }
}

/// What the caller asks for is kept as it is, inside the caps: 30 seconds, five
/// retries, five seconds between them and ten redirects. Where nothing is asked
/// for, a request waits 30 seconds, is sent once, follows no redirect, keeps no
/// cookies and is not cached; retries start 200 milliseconds apart.
pub proof fn lemma_what_is_asked_for_is_kept(
    raw: RawHttpRequest,
    upper: Seq<char>,
    p: HttpRequestParams,
)
    requires
        request_accepted(raw, upper, p),
    ensures
        p.method@ == upper,
        raw.url == Some(p.url),
        p.headers == raw.headers,
        p.body == raw.body && p.body_base64 == raw.body_base64 && p.multipart == raw.multipart,
        raw.cache_ttl_ms is None ==> p.cache_ttl_ms == 0,
        raw.cache_ttl_ms matches Some(n) ==> p.cache_ttl_ms == n,
        raw.use_cookies is None ==> !p.use_cookies,
        raw.use_cookies matches Some(b) ==> p.use_cookies == b,
        raw.follow_redirects is None ==> !p.follow_redirects,
        raw.follow_redirects matches Some(b) ==> p.follow_redirects == b,
        raw.timeout_ms is None ==> p.timeout_ms == 30_000,
        raw.timeout_ms matches Some(n) ==> p.timeout_ms == if n <= 30_000 { n } else { 30_000 },
        raw.max_retries is None ==> p.max_retries == 0,
        raw.max_retries matches Some(n) ==> p.max_retries == if n <= 5 { n } else { 5 },
        raw.retry_backoff_ms is None ==> p.retry_backoff_ms == 200,
        raw.retry_backoff_ms matches Some(n) ==> p.retry_backoff_ms == if n <= 5_000 {
            n
        } else {
            5_000
        },
        raw.max_redirects is None ==> p.max_redirects == 10,
        raw.max_redirects matches Some(n) ==> p.max_redirects == if n <= 10 { n } else { 10 },
{
}

/// The bytes of all headers together are those of every name and every value.
pub proof fn lemma_header_bytes_add_up(headers: StrMap<String>, k: nat)
    ensures
        header_bytes(headers, 0) == 0,
        header_bytes(headers, k + 1) == header_bytes(headers, k) + byte_len(headers.order()[k as int])
            + byte_len(headers@[headers.order()[k as int]]@),
{
}

/// A validated request stays inside every cap, whatever the caller asked for.
pub proof fn lemma_accepted_within_caps(
    raw: RawHttpRequest,
    upper: Seq<char>,
    url: Result<(Seq<char>, Option<Seq<char>>), Seq<char>>,
    p: HttpRequestParams,
)
    requires
        request_error(raw, upper, url) is None,
        request_accepted(raw, upper, p),
    ensures
        is_allowed_method(p.method@),
        byte_len(p.url@) <= MAX_URL_LEN,
        p.headers.order().len() <= MAX_HEADER_COUNT,
        header_bytes(p.headers, p.headers.order().len()) <= MAX_HEADERS_TOTAL_BYTES,
        p.timeout_ms <= MAX_TIMEOUT_MS,
        p.max_retries <= MAX_RETRIES,
        p.retry_backoff_ms <= MAX_RETRY_BACKOFF_MS,
        p.max_redirects <= MAX_REDIRECTS,
        !(p.body is Some && p.body_base64 is Some),
        p.body_base64 is Some ==> base64_size(p.body_base64->0@) <= MAX_REQUEST_BODY_BYTES,
        p.multipart is Some ==> p.body is None && p.body_base64 is None && estimate_of(
            p.multipart->0@,
            p.multipart->0@.len(),
        ) <= MAX_REQUEST_BODY_BYTES,
{
}

/// What a caller asks for is judged by its method in capitals and by its URL as it parses;
/// parameters that are no JSON are refused.
pub proof fn lemma_how_a_request_is_judged(
    parsed: Result<RawHttpRequest, String>,
    r: Result<HttpRequestParams, String>,
)
    requires
        is_parsed(parsed, r),
    ensures
        parsed matches Err(e) ==> r is Err && r->Err_0@ == "invalid JSON: "@ + e@,
        parsed is Ok && parsed->Ok_0.method is Some && parsed->Ok_0.url is Some ==> (r is Ok
            <==> request_error(
            parsed->Ok_0,
            uppercase(parsed->Ok_0.method->0@),
            url_parts(parsed->Ok_0.url->0@),
        ) is None),
        r is Ok ==> parsed is Ok && parsed->Ok_0.method is Some && request_accepted(
            parsed->Ok_0,
            uppercase(parsed->Ok_0.method->0@),
            r->Ok_0,
        ),
{
}

/// A part takes up the bytes of its text, or three bytes for every four characters of its
/// file, and parts together what each of them takes up.
pub proof fn lemma_what_parts_take_up(parts: Seq<MultipartPart>, k: nat)
    requires
        k < parts.len(),
    ensures
        estimate_of(parts, 0) == 0,
        parts[k as int].value matches Some(v) ==> estimate_of(parts, k + 1) == estimate_of(parts, k)
            + byte_len(v@),
        parts[k as int].value is None && parts[k as int].file_base64 is Some ==> estimate_of(
            parts,
            k + 1,
        ) == estimate_of(parts, k) + byte_len(parts[k as int].file_base64->0@) * 3 / 4,
{
}

} // verus!
