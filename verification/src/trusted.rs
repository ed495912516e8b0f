//! Calls into other crates, and into parts of `std`, whose contracts are
//! believed rather than proved. Everything else in the library rests on these.

use base64::Engine;
use chrono::{FixedOffset, TimeZone};
use crate::number::hex_char;
use crate::text::{ascii_only, lower_ascii, opt_text, upper_ascii};
use cron::Schedule;
use std::str::FromStr;
use vstd::prelude::*;
use vstd::utf8::encode_utf8;

verus! {

// ---------------------------------------------------------------------------
// std
// ---------------------------------------------------------------------------

/// `String::from_utf8`: text where the bytes are valid UTF-8, otherwise the
/// bytes back unchanged.
#[verifier::external_body]
pub(crate) fn utf8_text(bytes: Vec<u8>) -> (r: Result<String, Vec<u8>>)
    ensures
        match r {
            Ok(s) => vstd::utf8::valid_utf8(bytes@) && s@ == vstd::utf8::decode_utf8(bytes@),
            Err(b) => !vstd::utf8::valid_utf8(bytes@) && b@ == bytes@,
        },
{
    String::from_utf8(bytes).map_err(|e| e.into_bytes())
}

/// Bytes read as UTF-8, with replacement characters where they are not.
pub uninterp spec fn lossy_text(bytes: Seq<u8>) -> Seq<char>;

/// `String::from_utf8_lossy`: the text itself where the bytes are valid UTF-8.
/// How invalid bytes are replaced is not stated; the result depends on the
/// bytes alone.
#[verifier::external_body]
pub(crate) fn utf8_lossy(bytes: &Vec<u8>) -> (r: String)
    ensures
        r@ == lossy_text(bytes@),
        vstd::utf8::valid_utf8(bytes@) ==> r@ == vstd::utf8::decode_utf8(bytes@),
{
    String::from_utf8_lossy(bytes).into_owned()
}

/// What `{:?}` prints for a text: the text in double quotes, escaped.
pub uninterp spec fn debug_text(s: Seq<char>) -> Seq<char>;

/// The `Debug` form of `str`, as `format!("{:?}", s)` prints it. How it
/// escapes is not stated; the result depends on the text alone.
#[verifier::external_body]
pub(crate) fn debug_form(s: &str) -> (r: String)
    ensures
        r@ == debug_text(s@),
{
    format!("{:?}", s)
}

/// A text in Unicode upper case.
pub uninterp spec fn uppercase(s: Seq<char>) -> Seq<char>;

/// `str::to_uppercase`. ASCII text becomes what its letters are as capitals.
/// Which other character maps to which is left to Unicode; the result depends
/// on the text alone.
#[verifier::external_body]
pub(crate) fn to_upper(s: &str) -> (r: String)
    ensures
        r@ == uppercase(s@),
        ascii_only(s@) ==> r@ == upper_ascii(s@),
{
    s.to_uppercase()
}

/// A text in Unicode lower case.
pub uninterp spec fn lowercase(s: Seq<char>) -> Seq<char>;

/// `str::to_lowercase`. ASCII text becomes what its letters are as small ones.
/// Which other character maps to which is left to Unicode; the result depends
/// on the text alone.
#[verifier::external_body]
pub(crate) fn to_lower(s: &str) -> (r: String)
    ensures
        r@ == lowercase(s@),
        ascii_only(s@) ==> r@ == lower_ascii(s@),
{
    s.to_lowercase()
}

// ---------------------------------------------------------------------------
// base64
// ---------------------------------------------------------------------------

/// How many `=` pad the last group of a base64 text, two at most.
pub open spec fn base64_padding(s: Seq<char>) -> nat {
    let bytes = encode_utf8(s);
    let n = bytes.len();
    if n == 0 || bytes[n - 1] != 0x3d {
        0
    } else if n == 1 || bytes[n - 2] != 0x3d {
        1
    } else {
        2
    }
}

/// How many bytes a base64 text stands for: three for each whole group of four
/// characters, less one for each `=` that pads the last group. What is left over
/// of a group stands for nothing.
pub open spec fn base64_size(s: Seq<char>) -> int {
    let n = encode_utf8(s).len();
    n / 4 * 3 - if n % 4 == 0 {
        base64_padding(s) as int
    } else {
        0
    }
}

/// The bytes that a text stands for in standard base64, or the decoder's
/// complaint about it.
pub uninterp spec fn base64_bytes(s: Seq<char>) -> Result<Seq<u8>, Seq<char>>;

/// `base64::engine::general_purpose::STANDARD.decode`: the decoded bytes, or
/// the message of its `DecodeError`. What decodes has canonical padding, so the
/// length of the text and its padding give the number of bytes.
#[verifier::external_body]
pub(crate) fn base64_decode(s: &str) -> (r: Result<Vec<u8>, String>)
    ensures
        match r {
            Ok(b) => base64_bytes(s@) matches Ok(x) && x == b@ && b@.len() == base64_size(s@),
            Err(e) => base64_bytes(s@) matches Err(x) && x == e@,
        },
{
    base64::engine::general_purpose::STANDARD.decode(s).map_err(|e| e.to_string())
}

/// Bytes written in standard base64.
pub uninterp spec fn base64_text(bytes: Seq<u8>) -> Seq<char>;

/// `base64::engine::general_purpose::STANDARD.encode`: the encoded text, which
/// the decoder of the same engine reads back to the same bytes.
#[verifier::external_body]
pub(crate) fn base64_encode(bytes: &Vec<u8>) -> (r: String)
    requires
        bytes@.len() <= 0x4000_0000,
    ensures
        r@ == base64_text(bytes@),
        match base64_bytes(r@) {
            Ok(b) => b == bytes@,
            Err(e) => false,
        },
{
    base64::engine::general_purpose::STANDARD.encode(bytes)
}

// ---------------------------------------------------------------------------
// url
// ---------------------------------------------------------------------------

/// Scheme and host of the URL that a text writes down, or the parser's
/// complaint about it.
pub uninterp spec fn url_parts(s: Seq<char>) -> Result<
    (Seq<char>, Option<Seq<char>>),
    Seq<char>,
>;

/// `url::Url::parse`, with `scheme` and `host_str` of what it gives, or the
/// message of its `ParseError`.
#[verifier::external_body]
pub(crate) fn parse_url(s: &str) -> (r: Result<(String, Option<String>), String>)
    ensures
        match r {
            Ok(p) => url_parts(s@) matches Ok(x) && x == (p.0@, opt_text(p.1)),
            Err(e) => url_parts(s@) matches Err(x) && x == e@,
        },
{
    match url::Url::parse(s) {
        Ok(u) => Ok((u.scheme().to_string(), u.host_str().map(str::to_string))),
        Err(e) => Err(e.to_string()),
    }
}

// ---------------------------------------------------------------------------
// cron and chrono
// ---------------------------------------------------------------------------

/// What the cron parser complains about in an expression; none for a valid
/// one.
pub uninterp spec fn cron_complaint(expr: Seq<char>) -> Option<Seq<char>>;

/// `cron::Schedule::from_str`: whether it accepts the expression, or the
/// message of its error.
#[verifier::external_body]
pub(crate) fn cron_check(expr: &str) -> (r: Result<(), String>)
    ensures
        match r {
            Ok(_) => cron_complaint(expr@) is None,
            Err(e) => cron_complaint(expr@) == Some(e@),
        },
{
    Schedule::from_str(expr).map(|_| ()).map_err(|e| e.to_string())
}

/// The first instant after `after_ms` that a valid expression names, read in
/// a time zone `offset_secs` east of UTC. None inside where there is none;
/// none at all where `after_ms` is no instant that chrono can hold.
pub uninterp spec fn cron_occurrence(
    expr: Seq<char>,
    offset_secs: int,
    after_ms: int,
) -> Option<Option<i64>>;

/// Whether adding a second to the instant leaves the range of chrono.
pub open spec fn in_last_second(ms: int) -> bool {
    8_210_266_876_799_000 <= ms <= 8_210_266_876_799_999
}

/// The first item of `cron::Schedule::after`, in milliseconds, for the instant
/// that `chrono`'s `FixedOffset::east_opt` and `timestamp_millis_opt` give. It
/// lies after the instant asked for. In the last second of the range of
/// `chrono` the iterator panics.
#[verifier::external_body]
pub(crate) fn cron_next(expr: &str, offset_secs: i32, after_ms: i64) -> (r: Option<Option<i64>>)
    requires
        cron_complaint(expr@) is None,
        -86_400 < offset_secs < 86_400,
        !in_last_second(after_ms as int),
    ensures
        r == cron_occurrence(expr@, offset_secs as int, after_ms as int),
        match r {
            Some(Some(n)) => n > after_ms,
            _ => true,
        },
{
    let schedule = Schedule::from_str(expr).expect("checked before");
    let offset = FixedOffset::east_opt(offset_secs).expect("checked before");
    let after = offset.timestamp_millis_opt(after_ms).single()?;
    Some(schedule.after(&after).next().map(|next| next.timestamp_millis()))
}

// ---------------------------------------------------------------------------
// serde_json
// ---------------------------------------------------------------------------

/// How one character stands inside a JSON string.
pub open spec fn json_escaped(c: char) -> Seq<char> {
    if c == '"' {
        seq!['\\', '"']
    } else if c == '\\' {
        seq!['\\', '\\']
    } else if c == '\u{8}' {
        seq!['\\', 'b']
    } else if c == '\u{9}' {
        seq!['\\', 't']
    } else if c == '\u{a}' {
        seq!['\\', 'n']
    } else if c == '\u{c}' {
        seq!['\\', 'f']
    } else if c == '\u{d}' {
        seq!['\\', 'r']
    } else if c <= '\u{1f}' {
        seq![
            '\\',
            'u',
            '0',
            '0',
            hex_char((c as nat) / 16),
            hex_char((c as nat) % 16),
        ]
    } else {
        seq![c]
    }
}

/// Text as it stands inside a JSON string.
pub open spec fn json_escaped_text(s: Seq<char>) -> Seq<char>
    decreases s.len(),
{
    if s.len() == 0 {
        Seq::empty()
    } else {
        json_escaped_text(s.drop_last()) + json_escaped(s.last())
    }
}

/// Text as a JSON string, quotes included.
pub open spec fn json_quoted(s: Seq<char>) -> Seq<char> {
    seq!['"'] + json_escaped_text(s) + seq!['"']
}

/// `serde_json::to_string` of a text: the JSON string literal. It cannot fail
/// there, as it writes to memory.
#[verifier::external_body]
pub(crate) fn json_quote(s: &str) -> (r: String)
    ensures
        r@ == json_quoted(s@),
{
    serde_json::to_string(s).expect("text always serializes")
}

/// The value that a JSON text writes down, in compact form, or the parser's
/// complaint about the text.
pub uninterp spec fn json_reading(s: Seq<char>) -> Result<Seq<char>, Seq<char>>;

/// `serde_json::from_str` into a `serde_json::Value`, and that value's compact
/// text, or the message of the `serde_json::Error`. What the text says is not
/// stated; it depends on the given text alone.
#[verifier::external_body]
pub(crate) fn json_reread(s: &str) -> (r: Result<String, String>)
    ensures
        match r {
            Ok(t) => json_reading(s@) matches Ok(x) && x == t@,
            Err(e) => json_reading(s@) matches Err(x) && x == e@,
        },
{
    match serde_json::from_str::<serde_json::Value>(s) {
        Ok(v) => Ok(v.to_string()),
        Err(e) => Err(e.to_string()),
    }
}

/// How many members the JSON object that the bytes write down has, nothing
/// where they write down some other value, or the parser's complaint.
pub uninterp spec fn json_members(bytes: Seq<u8>) -> Result<Option<nat>, Seq<char>>;

/// `serde_json::from_slice` into a `serde_json::Value`, with the length of
/// what its `as_object` gives, or the message of the `serde_json::Error`.
#[verifier::external_body]
pub(crate) fn json_member_count(bytes: &[u8]) -> (r: Result<Option<usize>, String>)
    ensures
        match r {
            Ok(None) => json_members(bytes@) matches Ok(None),
            Ok(Some(n)) => json_members(bytes@) matches Ok(Some(m)) && m == n,
            Err(e) => json_members(bytes@) matches Err(x) && x == e@,
        },
{
    match serde_json::from_slice::<serde_json::Value>(bytes) {
        Ok(v) => Ok(v.as_object().map(|o| o.len())),
        Err(e) => Err(e.to_string()),
    }
}

/// The text under a member of the JSON object that the bytes write down, nothing
/// where there is no such member or it is no text, or the parser's complaint.
pub uninterp spec fn json_text_at(bytes: Seq<u8>, name: Seq<char>) -> Result<
    Option<Seq<char>>,
    Seq<char>,
>;

/// `serde_json::from_slice` into a `serde_json::Value`, with `get` and `as_str`
/// on it, or the message of the `serde_json::Error`.
#[verifier::external_body]
pub(crate) fn json_text_member(bytes: &[u8], name: &str) -> (r: Result<Option<String>, String>)
    ensures
        match r {
            Ok(t) => json_text_at(bytes@, name@) matches Ok(x) && x == opt_text(t),
            Err(e) => json_text_at(bytes@, name@) matches Err(x) && x == e@,
        },
{
    match serde_json::from_slice::<serde_json::Value>(bytes) {
        Ok(v) => Ok(v.get(name).and_then(|t| t.as_str()).map(|t| t.to_owned())),
        Err(e) => Err(e.to_string()),
    }
}

/// The number under a member of the JSON object that the bytes write down,
/// nothing where there is no such member or it is no unsigned integer of 64
/// bits, or the parser's complaint.
pub uninterp spec fn json_number_at(bytes: Seq<u8>, name: Seq<char>) -> Result<
    Option<u64>,
    Seq<char>,
>;

/// `serde_json::from_slice` into a `serde_json::Value`, with `get` and `as_u64`
/// on it, or the message of the `serde_json::Error`.
#[verifier::external_body]
pub(crate) fn json_number_member(bytes: &[u8], name: &str) -> (r: Result<Option<u64>, String>)
    ensures
        match r {
            Ok(n) => json_number_at(bytes@, name@) matches Ok(x) && x == n,
            Err(e) => json_number_at(bytes@, name@) matches Err(x) && x == e@,
        },
{
    match serde_json::from_slice::<serde_json::Value>(bytes) {
        Ok(v) => Ok(v.get(name).and_then(|n| n.as_u64())),
        Err(e) => Err(e.to_string()),
    }
}

} // verus!
