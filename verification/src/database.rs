//! The `database` plugin: validation and limits of per-caller key-value and
//! SQL storage.

use crate::caller::{caller_error, check_caller_id};
use crate::fields::{is_blank, trimmed};
use crate::json::{
    array_json, array_text, found_reply, found_text, is_object_text, object_json, read_stored,
    stored_value, value_texts,
};
use crate::number::{dec, decimal, signed_dec, signed_decimal};
use crate::settings::{read_setting, setting};
use crate::strmap::StrMap;
use crate::text::{
    ascii_alphanumeric, byte_count, byte_len, chars_of, is_ascii_alphanumeric, join2, join3,
    lower_ascii, occurs_at, opt_text, outcome, outcome_view, same, texts, to_ascii_lower,
};
use crate::trusted::{base64_encode, base64_text, json_quote, json_quoted, json_reading};
use vstd::prelude::*;

verus! {

/// Configuration of the storage.
#[derive(Debug, PartialEq, Eq)]
pub struct DbConfig {
    pub data_dir: String,
    pub pool_size: u32,
    pub busy_timeout_ms: u64,
    /// Ceiling on the file of one caller; `0` for none.
    pub max_db_bytes: u64,
}

/// SQLite page size, fixed so that bytes convert to pages exactly.
pub const PAGE_SIZE: u32 = 4096;

/// The configuration from the values of the `DATABASE_PLUGIN_*` settings.
pub fn load_config(
    data_dir: String,
    pool_size: &Option<String>,
    busy_timeout_ms: &Option<String>,
    max_db_bytes: &Option<String>,
) -> (r: DbConfig)
    ensures
        r.data_dir == data_dir,
        r.pool_size == setting(*pool_size, u32::MAX as nat, 4),
        r.busy_timeout_ms == setting(*busy_timeout_ms, u64::MAX as nat, 5000),
        r.max_db_bytes == setting(*max_db_bytes, u64::MAX as nat, 268_435_456),
{
    let pool: u64 = read_setting(pool_size, u32::MAX as u64, 4);
    DbConfig {
        data_dir,
        pool_size: pool as u32,
        busy_timeout_ms: read_setting(busy_timeout_ms, u64::MAX, 5000),
        max_db_bytes: read_setting(max_db_bytes, u64::MAX, 268_435_456),
    }
}

/// The ceiling on pages that keeps a file within `max_db_bytes`, at least one
/// page; none where there is no ceiling.
pub fn max_pages(max_db_bytes: u64) -> (r: Option<u64>)
    ensures
        match r {
            None => max_db_bytes == 0,
            Some(n) => max_db_bytes > 0 && n >= 1 && (n == max_db_bytes / 4096 || (n == 1
                && max_db_bytes < 4096)),
        },
        r is Some && max_db_bytes >= 4096 ==> r->0 * 4096 <= max_db_bytes,
{
    if max_db_bytes == 0 {
        return None;
    }
    let n: u64 = max_db_bytes / PAGE_SIZE as u64;
    if n < 1 {
        Some(1)
    } else {
        Some(n)
    }
}

/// Hands a caller id back where it is safe as a file name.
pub fn sanitize_caller_id(caller_plugin_id: &str) -> (r: Result<&str, String>)
    ensures
        match r {
            Ok(s) => caller_error(caller_plugin_id@) is None && s@ == caller_plugin_id@,
            Err(e) => caller_error(caller_plugin_id@) == Some(e@),
        },
{
    check_caller_id(caller_plugin_id)
}

/// The file that holds the data of a caller.
pub fn caller_file(caller_plugin_id: &str) -> (r: Result<String, String>)
    ensures
        match r {
            Ok(s) => caller_error(caller_plugin_id@) is None && s@ == caller_plugin_id@ + ".db"@,
            Err(e) => caller_error(caller_plugin_id@) == Some(e@),
        },
{
    match sanitize_caller_id(caller_plugin_id) {
        Ok(id) => Ok(join2(id, ".db")),
        Err(e) => Err(e),
    }
}

// ---------------------------------------------------------------------------
// ATTACH
// ---------------------------------------------------------------------------

/// Characters of SQL words.
pub open spec fn is_word_char(c: char) -> bool {
    is_ascii_alphanumeric(c) || c == '_'
}

/// Whether the word that stands at `pos` with length `n` is the whole content
/// of a quoted literal.
pub open spec fn quoted_alone(s: Seq<char>, pos: int, n: int) -> bool {
    &&& pos > 0
    &&& pos + n < s.len()
    &&& s[pos - 1] == s[pos + n]
    &&& s[pos - 1] == '\'' || s[pos - 1] == '"'
}

/// Whether `word` stands at `pos` as a word of its own, outside a literal that
/// holds nothing else.
pub open spec fn keyword_at(s: Seq<char>, word: Seq<char>, pos: int) -> bool {
    &&& occurs_at(s, word, pos)
    &&& pos == 0 || !is_word_char(s[pos - 1])
    &&& pos + word.len() == s.len() || !is_word_char(s[pos + word.len()])
    &&& !quoted_alone(s, pos, word.len() as int)
}

/// Whether a statement uses `ATTACH`, in whatever case.
pub open spec fn uses_attach(sql: Seq<char>) -> bool {
    exists|pos: int| #[trigger] keyword_at(lower_ascii(sql), "attach"@, pos)
}

/// A statement uses `ATTACH` where the word stands on its own, however it is written,
/// between other text that neither makes it part of a longer word nor quotes it
/// alone; a statement in which the word occurs nowhere does not use it.
pub proof fn lemma_which_statements_attach(
    before: Seq<char>,
    word: Seq<char>,
    after: Seq<char>,
)
    requires
        lower_ascii(word) == "attach"@,
        before.len() > 0 ==> {
            let c = lower_ascii(before).last();
            !('a' <= c <= 'z' || '0' <= c <= '9' || c == '_' || c == '\'' || c == '"')
        },
        after.len() > 0 ==> {
            let c = lower_ascii(after)[0];
            !('a' <= c <= 'z' || 'A' <= c <= 'Z' || '0' <= c <= '9' || c == '_')
        },
        before.len() > 0 ==> !('A' <= lower_ascii(before).last() <= 'Z'),
    ensures
        uses_attach(before + word + after),
{
    reveal_strlit("attach");
    let sql = before + word + after;
    let low = lower_ascii(sql);
    let pos = before.len() as int;
    assert(word.len() == 6) by {
        assert(lower_ascii(word).len() == 6);
    }
    assert(low.subrange(pos, pos + 6) =~= lower_ascii(word));
    assert(occurs_at(low, "attach"@, pos));
    if before.len() > 0 {
        assert(low[pos - 1] == lower_ascii(before).last());
    }
    if after.len() > 0 {
        assert(low[pos + 6] == lower_ascii(after)[0]);
    }
    assert(keyword_at(low, "attach"@, pos));
}

/// A statement in which the letters of `ATTACH` occur nowhere in a row does not use it.
pub proof fn lemma_other_statements_do_not_attach(sql: Seq<char>)
    requires
        forall|pos: int| !occurs_at(lower_ascii(sql), "attach"@, pos),
    ensures
        !uses_attach(sql),
{
}

/// The first position at or after `from` where `needle` stands in `haystack`.
pub fn find_from(haystack: &Vec<char>, needle: &Vec<char>, from: usize) -> (r: Option<usize>)
    requires
        needle@.len() > 0,
    ensures
        match r {
            Some(p) => from <= p && p + needle@.len() <= haystack@.len() && occurs_at(
                haystack@,
                needle@,
                p as int,
            ) && forall|k: int| from <= k < p ==> !occurs_at(haystack@, needle@, k),
            None => forall|k: int| from <= k ==> !occurs_at(haystack@, needle@, k),
        },
{
    if from >= haystack.len() || needle.len() > haystack.len() - from {
        return None;
    }
    let last: usize = haystack.len() - needle.len();
    let mut p: usize = from;
    while p <= last
        invariant
            from <= p <= last + 1,
            last + needle.len() == haystack.len(),
            needle.len() > 0,
            forall|k: int| from <= k < p ==> !occurs_at(haystack@, needle@, k),
        decreases last + 1 - p,
    {
        let mut j: usize = 0;
        while j < needle.len() && haystack[p + j] == needle[j]
            invariant
                j <= needle.len(),
                p <= last,
                last + needle.len() == haystack.len(),
                forall|k: int| 0 <= k < j ==> haystack@[p + k] == needle@[k],
            decreases needle.len() - j,
        {
            j += 1;
        }
        if j == needle.len() {
            assert(haystack@.subrange(p as int, p + needle@.len()) =~= needle@);
            return Some(p);
        }
        assert(haystack@.subrange(p as int, p + needle@.len())[j as int] != needle@[j as int]);
        p += 1;
    }
    None
}

/// Whether a statement uses `ATTACH` as a word of its own, in whatever case,
/// outside a quoted literal that holds nothing else.
pub fn rejects_attach(sql: &str) -> (r: bool)
    ensures
        r == uses_attach(sql@),
{
    let cs = chars_of(to_ascii_lower(sql).as_str());
    let needle = chars_of("attach");
    proof {
        reveal_strlit("attach");
    }
    let mut from: usize = 0;
    loop
        invariant
            cs@ == lower_ascii(sql@),
            needle@ == "attach"@,
            needle@.len() == 6,
            from <= cs@.len(),
            forall|k: int| 0 <= k < from ==> !#[trigger] keyword_at(cs@, needle@, k),
        decreases cs.len() - from,
    {
        let pos: usize = match find_from(&cs, &needle, from) {
            Some(p) => p,
            None => {
                assert forall|k: int| !#[trigger] keyword_at(cs@, needle@, k) by {
                    if 0 <= k && k >= from {
                        assert(!occurs_at(cs@, needle@, k));
                    }
                }
                return false;
            },
        };
        let after: usize = pos + needle.len();
        let before_ok = pos == 0 || !(ascii_alphanumeric(cs[pos - 1]) || cs[pos - 1] == '_');
        let after_ok = after == cs.len() || !(ascii_alphanumeric(cs[after]) || cs[after] == '_');
        let quoted = pos > 0 && after < cs.len() && cs[pos - 1] == cs[after] && (cs[pos - 1] == '\''
            || cs[pos - 1] == '"');
        assert((before_ok && after_ok && !quoted) == keyword_at(cs@, needle@, pos as int));
        if before_ok && after_ok && !quoted {
            return true;
        }
        assert forall|k: int| 0 <= k < pos + 1 implies !#[trigger] keyword_at(
            cs@,
            needle@,
            k,
        ) by {
            if from <= k < pos {
                assert(!occurs_at(cs@, needle@, k));
            }
        }
        from = pos + 1;
    }
}

// ---------------------------------------------------------------------------
// Requests
// ---------------------------------------------------------------------------

/// A validated request. Values and SQL parameters are JSON text.
#[derive(Debug, PartialEq, Eq)]
pub enum DbRequest {
    Get { key: String },
    SetKey { key: String, value: String, ttl_ms: Option<i64> },
    Delete { key: String },
    BatchGet { keys: Vec<String> },
    Query { sql: String, params: Vec<String> },
    Incr { key: String, delta: i64 },
    Keys { prefix: String },
    Append { key: String, value: String },
    Patch { key: String, path: String, value: String },
}

/// The shape that the parameters of an action have.
#[derive(Debug, Clone, Copy, PartialEq, Eq, Structural)]
pub enum DbShape {
    Key,
    KeyValueTtl,
    Keys,
    Sql,
    KeyDelta,
    Prefix,
    KeyValue,
    KeyPathValue,
}

/// Decoded parameters, before validation.
#[derive(Debug)]
pub enum RawDbParams {
    Key { key: String },
    KeyValueTtl { key: String, value: String, ttl_ms: Option<i64> },
    Keys { keys: Vec<String> },
    Sql { sql: String, params: Vec<String> },
    /// `delta` is nothing where the caller left it out.
    KeyDelta { key: String, delta: Option<i64> },
    /// `prefix` is nothing where the caller left it out.
    Prefix { prefix: Option<String> },
    KeyValue { key: String, value: String },
    KeyPathValue { key: String, path: String, value: String },
}

/// The shape of decoded parameters.
pub open spec fn shape_of(raw: RawDbParams) -> DbShape {
    match raw {
        RawDbParams::Key { .. } => DbShape::Key,
        RawDbParams::KeyValueTtl { .. } => DbShape::KeyValueTtl,
        RawDbParams::Keys { .. } => DbShape::Keys,
        RawDbParams::Sql { .. } => DbShape::Sql,
        RawDbParams::KeyDelta { .. } => DbShape::KeyDelta,
        RawDbParams::Prefix { .. } => DbShape::Prefix,
        RawDbParams::KeyValue { .. } => DbShape::KeyValue,
        RawDbParams::KeyPathValue { .. } => DbShape::KeyPathValue,
    }
}

/// The shape that an action asks for; none where nobody serves it.
pub open spec fn asked_shape(action: Seq<char>) -> Option<DbShape> {
    if action == "db_get"@ || action == "db_delete"@ {
        Some(DbShape::Key)
    } else if action == "db_set"@ {
        Some(DbShape::KeyValueTtl)
    } else if action == "db_batch_get"@ {
        Some(DbShape::Keys)
    } else if action == "db_query"@ {
        Some(DbShape::Sql)
    } else if action == "db_incr"@ {
        Some(DbShape::KeyDelta)
    } else if action == "db_keys"@ {
        Some(DbShape::Prefix)
    } else if action == "db_append"@ {
        Some(DbShape::KeyValue)
    } else if action == "db_patch"@ {
        Some(DbShape::KeyPathValue)
    } else {
        None
    }
}

/// Every action takes the parameters that it needs, and other names are not served.
pub proof fn lemma_what_each_action_takes(action: Seq<char>)
    ensures
        action == "db_get"@ || action == "db_delete"@ <==> asked_shape(action) == Some(
            DbShape::Key,
        ),
        action == "db_set"@ <==> asked_shape(action) == Some(DbShape::KeyValueTtl),
        action == "db_batch_get"@ <==> asked_shape(action) == Some(DbShape::Keys),
        action == "db_query"@ <==> asked_shape(action) == Some(DbShape::Sql),
        action == "db_incr"@ <==> asked_shape(action) == Some(DbShape::KeyDelta),
        action == "db_keys"@ <==> asked_shape(action) == Some(DbShape::Prefix),
        action == "db_append"@ <==> asked_shape(action) == Some(DbShape::KeyValue),
        action == "db_patch"@ <==> asked_shape(action) == Some(DbShape::KeyPathValue),
{
    reveal_strlit("db_get");
    reveal_strlit("db_delete");
    reveal_strlit("db_set");
    reveal_strlit("db_batch_get");
    reveal_strlit("db_query");
    reveal_strlit("db_incr");
    reveal_strlit("db_keys");
    reveal_strlit("db_append");
    reveal_strlit("db_patch");
    assert("db_get"@.len() == 6 && "db_delete"@.len() == 9 && "db_set"@.len() == 6 && "db_batch_get"@.len() == 12 && "db_query"@.len() == 8 && "db_incr"@.len() == 7 && "db_keys"@.len() == 7 && "db_append"@.len() == 9 && "db_patch"@.len() == 8);
    assert("db_get"@[3] == 'g' && "db_set"@[3] == 's');
    assert("db_delete"@[3] == 'd' && "db_append"@[3] == 'a');
    assert("db_query"@[3] == 'q' && "db_patch"@[3] == 'p');
    assert("db_incr"@[3] == 'i' && "db_keys"@[3] == 'k');
}

/// The shape to decode the parameters of `action` into.
pub fn params_shape(action: &str) -> (r: Option<DbShape>)
    ensures
        r == asked_shape(action@),
{
    if same(action, "db_get") || same(action, "db_delete") {
        Some(DbShape::Key)
    } else if same(action, "db_set") {
        Some(DbShape::KeyValueTtl)
    } else if same(action, "db_batch_get") {
        Some(DbShape::Keys)
    } else if same(action, "db_query") {
        Some(DbShape::Sql)
    } else if same(action, "db_incr") {
        Some(DbShape::KeyDelta)
    } else if same(action, "db_keys") {
        Some(DbShape::Prefix)
    } else if same(action, "db_append") {
        Some(DbShape::KeyValue)
    } else if same(action, "db_patch") {
        Some(DbShape::KeyPathValue)
    } else {
        None
    }
}

/// What the parameters of an action should look like.
pub open spec fn expected_fields(shape: DbShape) -> Seq<char> {
    match shape {
        DbShape::Key => "{key}"@,
        DbShape::KeyValueTtl => "{key, value, ttl_ms?}"@,
        DbShape::Keys => "{keys: [..]}"@,
        DbShape::Sql => "{sql, params?}"@,
        DbShape::KeyDelta => "{key, delta?}"@,
        DbShape::Prefix => "{prefix?}"@,
        DbShape::KeyValue => "{key, value}"@,
        DbShape::KeyPathValue => "{key, path, value}"@,
    }
}

/// What is wrong with a key, if anything.
pub open spec fn key_error(key: Seq<char>) -> Option<Seq<char>> {
    if key.len() == 0 {
        Some("params.key must be a non-empty string"@)
    } else {
        None
    }
}

/// Hands a key back where it is not empty.
pub fn require_nonempty_key(key: String) -> (r: Result<String, String>)
    ensures
        match r {
            Ok(k) => key_error(key@) is None && k == key,
            Err(e) => key_error(key@) == Some(e@),
        },
{
    if key.as_str().is_empty() {
        Err("params.key must be a non-empty string".to_owned())
    } else {
        Ok(key)
    }
}

/// What is wrong with decoded parameters, if anything.
pub open spec fn raw_error(raw: RawDbParams) -> Option<Seq<char>> {
    match raw {
        RawDbParams::Key { key } => key_error(key@),
        RawDbParams::KeyValueTtl { key, .. } => key_error(key@),
        RawDbParams::Keys { keys } => if keys@.len() == 0 {
            Some("params.keys must be a non-empty array"@)
        } else {
            None
        },
        RawDbParams::Sql { sql, .. } => if trimmed(sql@).len() == 0 {
            Some("params.sql must be a non-empty string"@)
        } else {
            None
        },
        RawDbParams::KeyDelta { key, .. } => key_error(key@),
        RawDbParams::Prefix { .. } => None,
        RawDbParams::KeyValue { key, .. } => key_error(key@),
        RawDbParams::KeyPathValue { key, path, .. } => if key@.len() == 0 {
            key_error(key@)
        } else if path@.len() == 0 {
            Some("params.path must be a non-empty string"@)
        } else {
            None
        },
    }
}

/// What is wrong with a request, if anything.
pub open spec fn db_error(action: Seq<char>, parsed: Result<RawDbParams, Seq<char>>) -> Option<
    Seq<char>,
> {
    match asked_shape(action) {
        None => Some("unknown action: "@ + action),
        Some(shape) => match parsed {
            Err(e) => Some(
                "invalid params for "@ + action + ", expected "@ + expected_fields(shape) + ": "@
                    + e,
            ),
            Ok(raw) => raw_error(raw),
        },
    }
}

/// A time to live counts only where it is positive.
pub open spec fn live_ttl(ttl_ms: Option<i64>) -> Option<i64> {
    match ttl_ms {
        Some(t) => if t > 0 {
            Some(t)
        } else {
            None
        },
        None => None,
    }
}

/// Whether `req` is the request that the parameters ask for.
pub open spec fn db_accepted(action: Seq<char>, raw: RawDbParams, req: DbRequest) -> bool {
    match raw {
        RawDbParams::Key { key } => if action == "db_get"@ {
            req == (DbRequest::Get { key })
        } else {
            req == (DbRequest::Delete { key })
        },
        RawDbParams::KeyValueTtl { key, value, ttl_ms } => req == (DbRequest::SetKey {
            key,
            value,
            ttl_ms: live_ttl(ttl_ms),
        }),
        RawDbParams::Keys { keys } => req == (DbRequest::BatchGet { keys }),
        RawDbParams::Sql { sql, params } => req == (DbRequest::Query { sql, params }),
        RawDbParams::KeyDelta { key, delta } => req == (DbRequest::Incr {
            key,
            delta: delta.unwrap_or(1i64),
        }),
        RawDbParams::Prefix { prefix } => req matches DbRequest::Keys { prefix: p } && match prefix {
            Some(x) => p == x,
            None => p@.len() == 0,
        },
        RawDbParams::KeyValue { key, value } => req == (DbRequest::Append { key, value }),
        RawDbParams::KeyPathValue { key, path, value } => req == (DbRequest::Patch {
            key,
            path,
            value,
        }),
    }
}

/// The request does what the caller asked for, with the key and the value that were
/// given: a time to live counts only above zero, an increment without an amount is
/// by one, and a listing without a prefix lists every key.
pub proof fn lemma_what_is_asked_for_is_done(action: Seq<char>, raw: RawDbParams, req: DbRequest)
    requires
        db_accepted(action, raw, req),
    ensures
        raw matches RawDbParams::Key { key } ==> (action == "db_get"@ ==> req == (DbRequest::Get {
            key,
        })) && (action == "db_delete"@ ==> req == (DbRequest::Delete { key })),
        raw matches RawDbParams::KeyValueTtl { key, value, ttl_ms } ==> (req
            matches DbRequest::SetKey { key: k, value: v, ttl_ms: t } && k == key && v == value && (
        t is Some <==> ttl_ms is Some && ttl_ms->0 > 0) && (t is Some ==> t == ttl_ms)),
        raw matches RawDbParams::Keys { keys } ==> req == (DbRequest::BatchGet { keys }),
        raw matches RawDbParams::Sql { sql, params } ==> req == (DbRequest::Query { sql, params }),
        raw matches RawDbParams::KeyDelta { key, delta } ==> (req
            matches DbRequest::Incr { key: k, delta: d } && k == key && d == (if delta is Some {
            delta->0
        } else {
            1
        })),
        raw matches RawDbParams::Prefix { prefix } ==> (req matches DbRequest::Keys { prefix: p } && (
        prefix is Some ==> p == prefix->0) && (prefix is None ==> p@.len() == 0)),
        raw matches RawDbParams::KeyValue { key, value } ==> req == (DbRequest::Append {
            key,
            value,
        }),
        raw matches RawDbParams::KeyPathValue { key, path, value } ==> req == (DbRequest::Patch {
            key,
            path,
            value,
        }),
{
    reveal_strlit("db_get");
    reveal_strlit("db_delete");
    assert("db_get"@.len() == 6 && "db_delete"@.len() == 9);
}

/// Parameters are accepted exactly where what they name is there: a key, at least one
/// key of a batch, a statement that is not blank, a path.
pub proof fn lemma_what_is_accepted(raw: RawDbParams)
    ensures
        raw_error(raw) is None <==> match raw {
            RawDbParams::Key { key } => key@.len() > 0,
            RawDbParams::KeyValueTtl { key, .. } => key@.len() > 0,
            RawDbParams::Keys { keys } => keys@.len() > 0,
            RawDbParams::Sql { sql, .. } => trimmed(sql@).len() > 0,
            RawDbParams::KeyDelta { key, .. } => key@.len() > 0,
            RawDbParams::Prefix { .. } => true,
            RawDbParams::KeyValue { key, .. } => key@.len() > 0,
            RawDbParams::KeyPathValue { key, path, .. } => key@.len() > 0 && path@.len() > 0,
        },
{
}

/// Validates the parameters of `action`: `parsed` is what decoding them into
/// the shape of the action gave.
pub fn parse_request(action: &str, parsed: Result<RawDbParams, String>) -> (r: Result<
    DbRequest,
    String,
>)
    requires
        parsed is Ok && asked_shape(action@) is Some ==> asked_shape(action@) == Some(
            shape_of(parsed->Ok_0),
        ),
    ensures
        match r {
            Ok(req) => db_error(action@, outcome(parsed)) is None && parsed is Ok && db_accepted(
                action@,
                parsed->Ok_0,
                req,
            ),
            Err(e) => db_error(action@, outcome(parsed)) == Some(e@),
        },
        r is Ok && action@ == "db_get"@ ==> r->Ok_0 == (DbRequest::Get {
            key: parsed->Ok_0->Key_key,
        }),
        r is Ok && action@ == "db_delete"@ ==> r->Ok_0 == (DbRequest::Delete {
            key: parsed->Ok_0->Key_key,
        }),
        r is Ok && action@ == "db_set"@ ==> r->Ok_0 is SetKey && r->Ok_0->SetKey_key
            == parsed->Ok_0->KeyValueTtl_key && r->Ok_0->SetKey_value
            == parsed->Ok_0->KeyValueTtl_value,
{
    proof {
        lemma_what_each_action_takes(action@);
        reveal_strlit("db_get");
        reveal_strlit("db_delete");
        assert("db_get"@.len() == 6 && "db_delete"@.len() == 9);
    }
    let shape = match params_shape(action) {
        Some(s) => s,
        None => {
            return Err(join2("unknown action: ", action));
        },
    };
    let raw = match parsed {
        Ok(raw) => raw,
        Err(e) => {
            let expected = match shape {
                DbShape::Key => "{key}",
                DbShape::KeyValueTtl => "{key, value, ttl_ms?}",
                DbShape::Keys => "{keys: [..]}",
                DbShape::Sql => "{sql, params?}",
                DbShape::KeyDelta => "{key, delta?}",
                DbShape::Prefix => "{prefix?}",
                DbShape::KeyValue => "{key, value}",
                DbShape::KeyPathValue => "{key, path, value}",
            };
            let mut out = "invalid params for ".to_owned();
            out.append(action);
            out.append(", expected ");
            out.append(expected);
            out.append(": ");
            out.append(e.as_str());
            return Err(out);
        },
    };
    match raw {
        RawDbParams::Key { key } => match require_nonempty_key(key) {
            Ok(key) => if same(action, "db_get") {
                Ok(DbRequest::Get { key })
            } else {
                Ok(DbRequest::Delete { key })
            },
            Err(e) => Err(e),
        },
        RawDbParams::KeyValueTtl { key, value, ttl_ms } => match require_nonempty_key(key) {
            Ok(key) => {
                let ttl_ms = match ttl_ms {
                    Some(t) => if t > 0 {
                        Some(t)
                    } else {
                        None
                    },
                    None => None,
                };
                Ok(DbRequest::SetKey { key, value, ttl_ms })
            },
            Err(e) => Err(e),
        },
        RawDbParams::Keys { keys } => {
            if keys.len() == 0 {
                return Err("params.keys must be a non-empty array".to_owned());
            }
            Ok(DbRequest::BatchGet { keys })
        },
        RawDbParams::Sql { sql, params } => {
            if is_blank(sql.as_str()) {
                return Err("params.sql must be a non-empty string".to_owned());
            }
            Ok(DbRequest::Query { sql, params })
        },
        RawDbParams::KeyDelta { key, delta } => match require_nonempty_key(key) {
            Ok(key) => Ok(DbRequest::Incr { key, delta: delta.unwrap_or(1i64) }),
            Err(e) => Err(e),
        },
        RawDbParams::Prefix { prefix } => {
            let prefix = match prefix {
                Some(p) => p,
                None => String::new(),
            };
            Ok(DbRequest::Keys { prefix })
        },
        RawDbParams::KeyValue { key, value } => match require_nonempty_key(key) {
            Ok(key) => Ok(DbRequest::Append { key, value }),
            Err(e) => Err(e),
        },
        RawDbParams::KeyPathValue { key, path, value } => match require_nonempty_key(key) {
            Ok(key) => {
                if path.as_str().is_empty() {
                    return Err("params.path must be a non-empty string".to_owned());
                }
                Ok(DbRequest::Patch { key, path, value })
            },
            Err(e) => Err(e),
        },
    }
}

/// Admits a request: a caller is there and the parameters are valid. Nothing
/// is opened before that.
pub fn admit_request(caller: &str, action: &str, parsed: Result<RawDbParams, String>) -> (r: Result<
    DbRequest,
    String,
>)
    requires
        parsed is Ok && asked_shape(action@) is Some ==> asked_shape(action@) == Some(
            shape_of(parsed->Ok_0),
        ),
    ensures
        match r {
            Ok(req) => caller@.len() > 0 && db_error(action@, outcome(parsed)) is None
                && parsed is Ok && db_accepted(action@, parsed->Ok_0, req),
            Err(e) => if caller@.len() == 0 {
                e@ == "missing caller_plugin_id (rejected before touching any database)"@
            } else {
                db_error(action@, outcome(parsed)) == Some(e@)
            },
        },
{
    if caller.is_empty() {
        return Err(
            "missing caller_plugin_id (rejected before touching any database)".to_owned(),
        );
    }
    parse_request(action, parsed)
}

// ---------------------------------------------------------------------------
// Limits
// ---------------------------------------------------------------------------

/// The complaint about a value that is too large.
pub open spec fn value_complaint(len: nat, max: nat) -> Seq<char> {
    "value exceeds max_value_bytes ("@ + decimal(len) + " > "@ + decimal(max) + ")"@
}

/// Checks the size of a value to store, given as JSON text.
pub fn check_value(value: &str, max_value_bytes: usize) -> (r: Result<(), String>)
    ensures
        match r {
            Ok(_) => byte_len(value@) <= max_value_bytes,
            Err(e) => byte_len(value@) > max_value_bytes && e@ == value_complaint(
                byte_len(value@),
                max_value_bytes as nat,
            ),
        },
        r is Ok <==> byte_len(value@) <= max_value_bytes,
        r matches Err(e) ==> e@ == "value exceeds max_value_bytes ("@ + decimal(byte_len(value@))
            + " > "@ + decimal(max_value_bytes as nat) + ")"@,
{
    let n: usize = byte_count(value);
    if n > max_value_bytes {
        let mut e = "value exceeds max_value_bytes (".to_owned();
        e.append(dec(n as u64).as_str());
        e.append(" > ");
        e.append(dec(max_value_bytes as u64).as_str());
        e.append(")");
        return Err(e);
    }
    Ok(())
}

/// What a response has used of its budget.
#[derive(Debug, Clone, Copy, PartialEq, Eq, Structural)]
pub struct ResponseBudget {
    pub used: usize,
    pub max: usize,
}

/// Bytes of one entry of a batch: its value, its key and JSON punctuation.
pub open spec fn batch_entry_bytes(key: Seq<char>, value: Seq<char>) -> nat {
    byte_len(value) + byte_len(key) + 4
}

/// Bytes of one row of a result: the row and its separator.
pub open spec fn row_bytes(row: Seq<char>) -> nat {
    byte_len(row) + 1
}

impl ResponseBudget {
    /// A budget of `max` bytes, nothing used.
    pub fn new(max: usize) -> (r: ResponseBudget)
        ensures
            r.used == 0,
            r.max == max,
    {
        ResponseBudget { used: 0, max }
    }

    fn charge(&mut self, what: &str, bytes: u128) -> (r: Result<(), String>)
        requires
            old(self).used <= old(self).max,
            bytes <= 4 * usize::MAX,
        ensures
            final(self).max == old(self).max,
            final(self).used <= final(self).max,
            match r {
                Ok(_) => final(self).used == old(self).used + bytes,
                Err(e) => old(self).used + bytes > old(self).max && *final(self) == *old(self)
                    && e@ == what@ + " result exceeds max_response_bytes (> "@ + decimal(
                    old(self).max as nat,
                ) + ")"@,
            },
    {
        let total: u128 = self.used as u128 + bytes;
        if total > self.max as u128 {
            let head = join2(what, " result exceeds max_response_bytes (> ");
            return Err(join3(head.as_str(), dec(self.max as u64).as_str(), ")"));
        }
        self.used = total as usize;
        Ok(())
    }

    /// Accounts for one entry of a batch; refuses where the response would
    /// grow past its budget.
    pub fn charge_batch_entry(&mut self, key: &str, value: &str) -> (r: Result<(), String>)
        requires
            old(self).used <= old(self).max,
        ensures
            final(self).max == old(self).max,
            final(self).used <= final(self).max,
            match r {
                Ok(_) => final(self).used == old(self).used + batch_entry_bytes(key@, value@),
                Err(e) => old(self).used + batch_entry_bytes(key@, value@) > old(self).max
                    && *final(self) == *old(self) && e@
                    == "batch_get result exceeds max_response_bytes (> "@ + decimal(
                    old(self).max as nat,
                ) + ")"@,
            },
    {
        let n: u128 = byte_count(value) as u128 + byte_count(key) as u128 + 4;
        let r = self.charge("batch_get", n);
        proof {
            reveal_strlit("batch_get");
            reveal_strlit(" result exceeds max_response_bytes (> ");
            reveal_strlit("batch_get result exceeds max_response_bytes (> ");
            assert("batch_get"@ + " result exceeds max_response_bytes (> "@
                =~= "batch_get result exceeds max_response_bytes (> "@);
        }
        r
    }

    /// Accounts for one row of a query result, given as JSON text.
    pub fn charge_row(&mut self, row: &str) -> (r: Result<(), String>)
        requires
            old(self).used <= old(self).max,
        ensures
            final(self).max == old(self).max,
            final(self).used <= final(self).max,
            match r {
                Ok(_) => final(self).used == old(self).used + row_bytes(row@),
                Err(e) => old(self).used + row_bytes(row@) > old(self).max && *final(self)
                    == *old(self) && e@ == "query result exceeds max_response_bytes (> "@
                    + decimal(old(self).max as nat) + ")"@,
            },
    {
        let n: u128 = byte_count(row) as u128 + 1;
        let r = self.charge("query", n);
        proof {
            reveal_strlit("query");
            reveal_strlit(" result exceeds max_response_bytes (> ");
            reveal_strlit("query result exceeds max_response_bytes (> ");
            assert("query"@ + " result exceeds max_response_bytes (> "@
                =~= "query result exceeds max_response_bytes (> "@);
        }
        r
    }
}

/// Refuses a statement that uses `ATTACH`.
pub fn check_statement(sql: &str) -> (r: Result<(), String>)
    ensures
        match r {
            Ok(_) => !uses_attach(sql@),
            Err(e) => uses_attach(sql@) && e@
                == "ATTACH is not permitted in db_query statements"@,
        },
{
    if rejects_attach(sql) {
        return Err("ATTACH is not permitted in db_query statements".to_owned());
    }
    Ok(())
}

// ---------------------------------------------------------------------------
// Replies
// ---------------------------------------------------------------------------

/// The reply to a read that found the row `row`.
pub open spec fn get_text(key: Seq<char>, row: Option<Seq<char>>) -> Result<Seq<char>, Seq<char>> {
    found_text(
        match row {
            Some(raw) => Some(stored_value(key, raw)),
            None => None,
        },
    )
}

/// A read tells whether there is a value, and hands out what is stored as it reads;
/// what is stored and is no JSON is an error.
pub proof fn lemma_what_a_read_says(key: Seq<char>, raw: Seq<char>)
    ensures
        get_text(key, None) == Ok::<Seq<char>, Seq<char>>("{\"found\":false,\"value\":null}"@),
        json_reading(raw) matches Ok(v) ==> get_text(key, Some(raw)) == Ok::<Seq<char>, Seq<char>>(
            "{\"found\":true,\"value\":"@ + v + "}"@,
        ),
        json_reading(raw) is Err ==> get_text(key, Some(raw)) is Err,
{
}

/// The reply to a read that found the row `row`.
pub fn get_reply(key: &str, row: &Option<String>) -> (r: Result<String, String>)
    ensures
        outcome_view(r) == get_text(key@, opt_text(*row)),
        row is None ==> r is Ok && r->Ok_0@ == "{\"found\":false,\"value\":null}"@,
        row matches Some(raw) ==> match json_reading(raw@) {
            Ok(v) => r is Ok && r->Ok_0@ == "{\"found\":true,\"value\":"@ + v + "}"@,
            Err(_) => r is Err,
        },
{
    match row {
        Some(raw) => found_reply(Some(read_stored(key, raw.as_str()))),
        None => found_reply(None),
    }
}

/// The reply to a deletion that removed `rows_affected` rows.
pub fn delete_reply(rows_affected: u64) -> (r: String)
    ensures
        r@ == if rows_affected > 0 {
            "{\"deleted\":true}"@
        } else {
            "{\"deleted\":false}"@
        },
{
    if rows_affected > 0 {
        "{\"deleted\":true}".to_owned()
    } else {
        "{\"deleted\":false}".to_owned()
    }
}

/// The value under a key of a batch: `null` where there is no row.
pub open spec fn batch_value(key: Seq<char>, row: Option<Seq<char>>) -> Result<
    Seq<char>,
    Seq<char>,
> {
    match row {
        Some(raw) => stored_value(key, raw),
        None => Ok("null"@),
    }
}

/// The values of a batch, by their contents.
pub open spec fn batch_values(keys: Seq<Seq<char>>, rows: Seq<Option<Seq<char>>>) -> Seq<
    Result<Seq<char>, Seq<char>>,
> {
    Seq::new(keys.len(), |i: int| batch_value(keys[i], rows[i]))
}

/// What the first `n` entries of a batch come to: the bytes that they use and
/// the values under their keys, or the first complaint.
pub open spec fn batch_so_far(
    keys: Seq<Seq<char>>,
    values: Seq<Result<Seq<char>, Seq<char>>>,
    max: nat,
    n: nat,
) -> Result<(nat, Map<Seq<char>, Seq<char>>), Seq<char>>
    decreases n,
{
    if n == 0 {
        Ok((0, Map::empty()))
    } else {
        match batch_so_far(keys, values, max, (n - 1) as nat) {
            Err(e) => Err(e),
            Ok(sofar) => match values[n - 1] {
                Err(e) => Err(e),
                Ok(v) => {
                    let used = sofar.0 + batch_entry_bytes(keys[n - 1], v);
                    if used > max {
                        Err(
                            "batch_get result exceeds max_response_bytes (> "@ + decimal(max)
                                + ")"@,
                        )
                    } else {
                        Ok((used, sofar.1.insert(keys[n - 1], v)))
                    }
                },
            },
        }
    }
}

/// A batch hands out what is stored under each of its keys, `null` where there is
/// nothing, and nothing under any other key, as long as everything reads and all
/// of it stays inside the cap.
pub proof fn lemma_what_a_batch_hands_out(
    keys: Seq<Seq<char>>,
    values: Seq<Result<Seq<char>, Seq<char>>>,
    max: nat,
    n: nat,
)
    requires
        n <= keys.len() == values.len(),
        batch_so_far(keys, values, max, n) is Ok,
    ensures
        forall|i: int| 0 <= i < n ==> (#[trigger] values[i]) is Ok,
        forall|i: int|
            0 <= i < n && (forall|j: int| i < j < n ==> keys[j] != keys[i])
                ==> batch_so_far(keys, values, max, n)->Ok_0.1.dom().contains(#[trigger] keys[i])
                && batch_so_far(keys, values, max, n)->Ok_0.1[keys[i]] == values[i]->Ok_0,
        forall|k: Seq<char>| #[trigger]
            batch_so_far(keys, values, max, n)->Ok_0.1.dom().contains(k) ==> exists|i: int|
                0 <= i < n && keys[i] == k,
        batch_so_far(keys, values, max, n)->Ok_0.0 <= max || n == 0,
    decreases n,
{
    if n > 0 {
        let before = batch_so_far(keys, values, max, (n - 1) as nat);
        lemma_what_a_batch_hands_out(keys, values, max, (n - 1) as nat);
        let all = batch_so_far(keys, values, max, n)->Ok_0.1;
        assert forall|i: int|
            0 <= i < n && (forall|j: int| i < j < n ==> keys[j] != keys[i]) implies
            all.dom().contains(#[trigger] keys[i]) && all[keys[i]] == values[i]->Ok_0 by {
            if i < n - 1 {
                assert(keys[n - 1] != keys[i]);
                assert(before->Ok_0.1.dom().contains(keys[i]));
            }
        }
        assert forall|k: Seq<char>| #[trigger] all.dom().contains(k) implies exists|i: int|
            0 <= i < n && keys[i] == k by {
            if k == keys[n - 1] {
            } else {
                assert(before->Ok_0.1.dom().contains(k));
            }
        }
    }
}

/// What a batch hands out under a key: the stored value as it reads, or `null`.
pub proof fn lemma_what_a_batch_says_of_a_key(key: Seq<char>, row: Option<Seq<char>>)
    ensures
        row is None ==> batch_value(key, row) == Ok::<Seq<char>, Seq<char>>("null"@),
        row matches Some(raw) ==> (batch_value(key, row) is Ok <==> json_reading(raw) is Ok) && (
        batch_value(key, row) is Ok ==> batch_value(key, row) == json_reading(raw)),
{
}

proof fn lemma_batch_stuck(
    keys: Seq<Seq<char>>,
    values: Seq<Result<Seq<char>, Seq<char>>>,
    max: nat,
    n: nat,
    m: nat,
)
    requires
        batch_so_far(keys, values, max, n) is Err,
        n <= m,
    ensures
        batch_so_far(keys, values, max, m) == batch_so_far(keys, values, max, n),
    decreases m,
{
    if n < m {
        lemma_batch_stuck(keys, values, max, n, (m - 1) as nat);
    }
}

/// Rows that were found, as texts.
pub open spec fn row_texts(rows: Seq<Option<String>>) -> Seq<Option<Seq<char>>> {
    Seq::new(rows.len(), |i: int| opt_text(rows[i]))
}

/// Values that were read, as texts.
pub open spec fn outcome_texts(values: Seq<Result<String, String>>) -> Seq<
    Result<Seq<char>, Seq<char>>,
> {
    Seq::new(values.len(), |i: int| outcome_view(values[i]))
}

/// Whether `r` is the reply to a batch of reads that gave `values`.
pub open spec fn is_batch_reply(
    keys: Seq<Seq<char>>,
    values: Seq<Result<Seq<char>, Seq<char>>>,
    max: nat,
    r: Result<Seq<char>, Seq<char>>,
) -> bool {
    match batch_so_far(keys, values, max, keys.len()) {
        Err(e) => r == Err::<Seq<char>, Seq<char>>(e),
        Ok(all) => r is Ok && exists|t: Seq<char>| #[trigger]
            is_object_text(all.1, t) && r->Ok_0 == "{\"values\":"@ + t + "}"@,
    }
}

/// The reply to a batch of reads that found `rows`, one for each key: the values
/// by key, refused as soon as they would grow past the cap.
pub fn batch_reply(keys: &Vec<String>, rows: &Vec<Option<String>>, max_response_bytes: usize) -> (r:
    Result<String, String>)
    requires
        keys@.len() == rows@.len(),
    ensures
        is_batch_reply(
            texts(keys@),
            batch_values(texts(keys@), row_texts(rows@)),
            max_response_bytes as nat,
            outcome_view(r),
        ),
{
    let ghost read = batch_values(texts(keys@), row_texts(rows@));
    let mut values: Vec<Result<String, String>> = Vec::new();
    let mut i: usize = 0;
    while i < keys.len()
        invariant
            i <= keys@.len() == rows@.len(),
            read == batch_values(texts(keys@), row_texts(rows@)),
            values@.len() == i,
            forall|j: int| 0 <= j < i ==> outcome_view(#[trigger] values@[j]) == read[j],
        decreases keys.len() - i,
    {
        values.push(
            match &rows[i] {
                Some(raw) => read_stored(keys[i].as_str(), raw.as_str()),
                None => Ok("null".to_owned()),
            },
        );
        i += 1;
    }
    assert(outcome_texts(values@) =~= read);
    batch_given(keys, &values, max_response_bytes)
}

/// The reply to a batch of reads that gave `values`, one for each key.
pub fn batch_given(
    keys: &Vec<String>,
    values: &Vec<Result<String, String>>,
    max_response_bytes: usize,
) -> (r: Result<String, String>)
    requires
        keys@.len() == values@.len(),
    ensures
        is_batch_reply(
            texts(keys@),
            outcome_texts(values@),
            max_response_bytes as nat,
            outcome_view(r),
        ),
{
    let ghost ks = texts(keys@);
    let ghost vs = outcome_texts(values@);
    let ghost max = max_response_bytes as nat;
    let mut budget = ResponseBudget::new(max_response_bytes);
    let mut object: StrMap<String> = StrMap::new();
    let mut i: usize = 0;
    assert(value_texts(object@) =~= Map::empty());
    while i < keys.len()
        invariant
            i <= keys@.len() == values@.len(),
            ks == texts(keys@),
            vs == outcome_texts(values@),
            max == max_response_bytes,
            budget.max == max_response_bytes,
            budget.used <= budget.max,
            batch_so_far(ks, vs, max, i as nat) == Ok::<
                (nat, Map<Seq<char>, Seq<char>>),
                Seq<char>,
            >((budget.used as nat, value_texts(object@))),
        decreases keys.len() - i,
    {
        let key = keys[i].as_str();
        assert(ks[i as int] == key@);
        assert(vs[i as int] == outcome_view(values@[i as int]));
        let value = match &values[i] {
            Ok(v) => v.clone(),
            Err(e) => {
                proof {
                    lemma_batch_stuck(ks, vs, max, (i + 1) as nat, ks.len());
                }
                return Err(e.clone());
            },
        };
        match budget.charge_batch_entry(key, value.as_str()) {
            Ok(_) => {},
            Err(e) => {
                proof {
                    lemma_batch_stuck(ks, vs, max, (i + 1) as nat, ks.len());
                }
                return Err(e);
            },
        }
        let ghost before = value_texts(object@);
        let ghost v = value@;
        let _ = object.insert(keys[i].clone(), value);
        assert(value_texts(object@) =~= before.insert(key@, v));
        i += 1;
    }
    let text = object_json(&object);
    assert(is_object_text(batch_so_far(ks, vs, max, ks.len())->Ok_0.1, text@));
    Ok(join3("{\"values\":", text.as_str(), "}"))
}

// ---------------------------------------------------------------------------
// Query parameters and change events
// ---------------------------------------------------------------------------

/// A parameter of a query, by the kind of its JSON value.
#[derive(Debug, PartialEq, Eq)]
pub enum JsonParam {
    Null,
    Flag { value: bool },
    /// A number that is a 64-bit integer.
    Integer { value: i64 },
    /// Any other number.
    Real,
    Text { text: String },
    /// An array or an object, as compact JSON.
    Nested { json: String },
}

/// What a parameter is bound as.
#[derive(Debug, PartialEq, Eq)]
pub enum Bound {
    Null,
    Integer { value: i64 },
    /// The number itself, as a float.
    Real,
    Text { text: String },
}

/// What a query parameter is bound as: a flag as one or zero, what SQLite has
/// no type for as JSON text.
pub fn bind_json_param(param: JsonParam) -> (r: Bound)
    ensures
        r == (match param {
            JsonParam::Null => Bound::Null,
            JsonParam::Flag { value } => Bound::Integer {
                value: if value {
                    1
                } else {
                    0
                },
            },
            JsonParam::Integer { value } => Bound::Integer { value },
            JsonParam::Real => Bound::Real,
            JsonParam::Text { text } => Bound::Text { text },
            JsonParam::Nested { json } => Bound::Text { text: json },
        }),
{
    match param {
        JsonParam::Null => Bound::Null,
        JsonParam::Flag { value } => {
            if value {
                Bound::Integer { value: 1 }
            } else {
                Bound::Integer { value: 0 }
            }
        },
        JsonParam::Integer { value } => Bound::Integer { value },
        JsonParam::Real => Bound::Real,
        JsonParam::Text { text } => Bound::Text { text },
        JsonParam::Nested { json } => Bound::Text { text: json },
    }
}

/// The event that follows the reply to a `db_set`.
pub const CHANGED_EVENT: &'static str = "changed";

/// The event to publish once `req` was carried out: one for each `db_set`.
pub fn change_event(req: &DbRequest) -> (r: Option<&'static str>)
    ensures
        match r {
            Some(e) => req is SetKey && e@ == CHANGED_EVENT@,
            None => !(req is SetKey),
        },
{
    match req {
        DbRequest::SetKey { .. } => Some(CHANGED_EVENT),
        _ => None,
    }
}

// ---------------------------------------------------------------------------
// Query results
// ---------------------------------------------------------------------------

/// How a column of a row is read.
#[derive(Debug, Clone, Copy, PartialEq, Eq, Structural)]
pub enum ColumnKind {
    Null,
    Text,
    Integer,
    Real,
    Blob,
}

/// How a column of that type is read; nothing for a type that is not served.
pub open spec fn kind_of(sql_type: Seq<char>, is_null: bool) -> Option<ColumnKind> {
    if is_null {
        Some(ColumnKind::Null)
    } else if sql_type == "TEXT"@ {
        Some(ColumnKind::Text)
    } else if sql_type == "INTEGER"@ {
        Some(ColumnKind::Integer)
    } else if sql_type == "REAL"@ {
        Some(ColumnKind::Real)
    } else if sql_type == "BLOB"@ {
        Some(ColumnKind::Blob)
    } else {
        None
    }
}

/// A column is read by its type, and as nothing where it holds nothing.
pub proof fn lemma_how_columns_are_read(sql_type: Seq<char>)
    ensures
        kind_of(sql_type, true) == Some(ColumnKind::Null),
        kind_of("TEXT"@, false) == Some(ColumnKind::Text),
        kind_of("INTEGER"@, false) == Some(ColumnKind::Integer),
        kind_of("REAL"@, false) == Some(ColumnKind::Real),
        kind_of("BLOB"@, false) == Some(ColumnKind::Blob),
        kind_of(sql_type, false) is Some ==> sql_type == "TEXT"@ || sql_type == "INTEGER"@
            || sql_type == "REAL"@ || sql_type == "BLOB"@,
{
    reveal_strlit("TEXT");
    reveal_strlit("INTEGER");
    reveal_strlit("REAL");
    reveal_strlit("BLOB");
    assert("TEXT"@.len() == 4 && "INTEGER"@.len() == 7 && "REAL"@.len() == 4 && "BLOB"@.len() == 4);
    assert("TEXT"@[0] == 'T' && "REAL"@[0] == 'R' && "BLOB"@[0] == 'B');
}

/// How a column of that type is read.
pub fn column_kind(sql_type: &str, is_null: bool) -> (r: Result<ColumnKind, String>)
    ensures
        match r {
            Ok(k) => kind_of(sql_type@, is_null) == Some(k),
            Err(e) => kind_of(sql_type@, is_null) is None && e@
                == "unsupported SQLite column type: "@ + sql_type@,
        },
{
    if is_null {
        Ok(ColumnKind::Null)
    } else if same(sql_type, "TEXT") {
        Ok(ColumnKind::Text)
    } else if same(sql_type, "INTEGER") {
        Ok(ColumnKind::Integer)
    } else if same(sql_type, "REAL") {
        Ok(ColumnKind::Real)
    } else if same(sql_type, "BLOB") {
        Ok(ColumnKind::Blob)
    } else {
        Err(join2("unsupported SQLite column type: ", sql_type))
    }
}

/// The value in a column of a row.
#[derive(Debug, PartialEq, Eq)]
pub enum Cell {
    Null,
    Text { text: String },
    Integer { value: i64 },
    /// The number as JSON.
    Real { json: String },
    Blob { bytes: Vec<u8> },
}

/// A value as JSON: bytes go as base64.
pub open spec fn cell_text(c: Cell) -> Seq<char> {
    match c {
        Cell::Null => "null"@,
        Cell::Text { text } => json_quoted(text@),
        Cell::Integer { value } => signed_decimal(value as int),
        Cell::Real { json } => json@,
        Cell::Blob { bytes } => json_quoted(base64_text(bytes@)),
    }
}

/// Whether bytes are few enough to be written as base64.
pub open spec fn fits_base64(c: Cell) -> bool {
    c matches Cell::Blob { bytes } ==> bytes@.len() <= 0x4000_0000
}

fn cell_json(c: &Cell) -> (r: String)
    requires
        fits_base64(*c),
    ensures
        r@ == cell_text(*c),
{
    match c {
        Cell::Null => "null".to_owned(),
        Cell::Text { text } => json_quote(text.as_str()),
        Cell::Integer { value } => signed_dec(*value),
        Cell::Real { json } => json.clone(),
        Cell::Blob { bytes } => json_quote(base64_encode(bytes).as_str()),
    }
}

/// The first `n` columns of a row by name; of two with one name the later one
/// counts.
pub open spec fn columns_so_far(columns: Seq<(String, Cell)>, n: nat) -> Map<Seq<char>, Seq<char>>
    decreases n,
{
    if n == 0 {
        Map::empty()
    } else {
        columns_so_far(columns, (n - 1) as nat).insert(
            columns[n - 1].0@,
            cell_text(columns[n - 1].1),
        )
    }
}

/// A row holds each of its columns under its name: text quoted, integers in digits,
/// bytes in base64, nothing as `null`.
pub proof fn lemma_what_a_row_holds(columns: Seq<(String, Cell)>, n: nat)
    requires
        n <= columns.len(),
    ensures
        forall|i: int|
            0 <= i < n && (forall|j: int| i < j < n ==> columns[j].0@ != columns[i].0@)
                ==> columns_so_far(columns, n).dom().contains((#[trigger] columns[i]).0@)
                && columns_so_far(columns, n)[columns[i].0@] == match columns[i].1 {
                Cell::Null => "null"@,
                Cell::Text { text } => json_quoted(text@),
                Cell::Integer { value } => signed_decimal(value as int),
                Cell::Real { json } => json@,
                Cell::Blob { bytes } => json_quoted(base64_text(bytes@)),
            },
        forall|k: Seq<char>| #[trigger]
            columns_so_far(columns, n).dom().contains(k) ==> exists|i: int|
                0 <= i < n && (#[trigger] columns[i]).0@ == k,
    decreases n,
{
    if n > 0 {
        lemma_what_a_row_holds(columns, (n - 1) as nat);
        let before = columns_so_far(columns, (n - 1) as nat);
        let all = columns_so_far(columns, n);
        let last = columns[n - 1];
        assert forall|i: int|
            0 <= i < n && (forall|j: int| i < j < n ==> columns[j].0@ != columns[i].0@) implies
            all.dom().contains((#[trigger] columns[i]).0@) && all[columns[i].0@] == cell_text(
            columns[i].1,
        ) by {
            if i < n - 1 {
                assert(columns[n - 1].0@ != columns[i].0@);
                assert(before.dom().contains(columns[i].0@));
            }
        }
        assert forall|k: Seq<char>| #[trigger] all.dom().contains(k) implies exists|i: int|
            0 <= i < n && (#[trigger] columns[i]).0@ == k by {
            if k == last.0@ {
                assert(columns[n - 1].0@ == k);
            } else {
                assert(before.dom().contains(k));
            }
        }
    }
}

/// A row as a JSON object.
pub fn row_to_json(columns: &Vec<(String, Cell)>) -> (r: String)
    requires
        forall|i: int| 0 <= i < columns@.len() ==> fits_base64((#[trigger] columns@[i]).1),
    ensures
        is_object_text(columns_so_far(columns@, columns@.len()), r@),
{
    let mut m: StrMap<String> = StrMap::new();
    let mut i: usize = 0;
    while i < columns.len()
        invariant
            i <= columns.len(),
            forall|i: int| 0 <= i < columns@.len() ==> fits_base64((#[trigger] columns@[i]).1),
            value_texts(m@) == columns_so_far(columns@, i as nat),
        decreases columns.len() - i,
    {
        let text = cell_json(&columns[i].1);
        let _ = m.insert(columns[i].0.clone(), text);
        i += 1;
    }
    object_json(&m)
}

/// The rows of a result that came in so far.
#[derive(Debug, PartialEq, Eq)]
pub struct QueryResult {
    pub budget: ResponseBudget,
    /// The rows as JSON.
    pub rows: Vec<String>,
    pub rows_affected: u64,
}

/// Bytes that rows use.
pub open spec fn rows_bytes(rows: Seq<Seq<char>>) -> nat
    decreases rows.len(),
{
    if rows.len() == 0 {
        0
    } else {
        rows_bytes(rows.drop_last()) + row_bytes(rows.last())
    }
}

impl QueryResult {
    /// Whether the budget accounts for the rows.
    pub open spec fn accounted(&self) -> bool {
        self.budget.used <= self.budget.max && self.budget.used == rows_bytes(texts(self.rows@))
    }

    /// A result without rows.
    pub fn new(max_response_bytes: usize) -> (r: QueryResult)
        ensures
            r.accounted(),
            r.budget.max == max_response_bytes,
            r.rows@.len() == 0,
            r.rows_affected == 0,
    {
        let r = QueryResult {
            budget: ResponseBudget::new(max_response_bytes),
            rows: Vec::new(),
            rows_affected: 0,
        };
        r
    }

    /// Takes in a row; refuses it where the result would grow past its cap.
    pub fn push_row(&mut self, row: String) -> (r: Result<(), String>)
        requires
            old(self).accounted(),
        ensures
            final(self).accounted(),
            final(self).budget.max == old(self).budget.max,
            final(self).rows_affected == old(self).rows_affected,
            match r {
                Ok(_) => texts(final(self).rows@) == texts(old(self).rows@).push(row@),
                Err(e) => final(self).rows == old(self).rows && rows_bytes(
                    texts(old(self).rows@),
                ) + row_bytes(row@) > old(self).budget.max && e@
                    == "query result exceeds max_response_bytes (> "@ + decimal(
                    old(self).budget.max as nat,
                ) + ")"@,
            },
    {
        match self.budget.charge_row(row.as_str()) {
            Ok(_) => {},
            Err(e) => return Err(e),
        }
        let ghost before = texts(self.rows@);
        self.rows.push(row);
        assert(texts(self.rows@) =~= before.push(row@));
        assert(before.push(row@).drop_last() =~= before);
        Ok(())
    }

    /// Takes note of how many rows a statement changed.
    pub fn add_affected(&mut self, n: u64)
        requires
            old(self).rows_affected + n <= u64::MAX,
        ensures
            final(self).rows_affected == old(self).rows_affected + n,
            final(self).rows == old(self).rows,
            final(self).budget == old(self).budget,
    {
        self.rows_affected = self.rows_affected + n;
    }

    /// The reply with all rows.
    pub fn reply(&self) -> (r: String)
        ensures
            r@ == "{\"rows\":"@ + array_text(texts(self.rows@)) + ",\"rows_affected\":"@ + decimal(
                self.rows_affected as nat,
            ) + "}"@,
    {
        let mut s = join2("{\"rows\":", array_json(&self.rows).as_str());
        s.append(",\"rows_affected\":");
        s.append(dec(self.rows_affected).as_str());
        s.append("}");
        s
    }
}

/// A request fails where nobody serves its action, where its parameters do not decode, and
/// where they do not keep to the rules, each with its own complaint.
pub proof fn lemma_what_a_request_fails_with(
    action: Seq<char>,
    parsed: Result<RawDbParams, Seq<char>>,
)
    ensures
        asked_shape(action) is None ==> db_error(action, parsed) == Some("unknown action: "@ + action),
        asked_shape(action) is Some && parsed is Err ==> db_error(action, parsed) == Some(
            "invalid params for "@ + action + ", expected "@ + expected_fields(
                asked_shape(action)->0,
            ) + ": "@ + parsed->Err_0,
        ),
        asked_shape(action) is Some && parsed is Ok ==> db_error(action, parsed) == raw_error(
            parsed->Ok_0,
        ),
{
}

/// Rows use their bytes and one more each.
pub proof fn lemma_what_rows_use(rows: Seq<Seq<char>>, row: Seq<char>)
    ensures
        rows_bytes(Seq::empty()) == 0,
        rows_bytes(rows.push(row)) == rows_bytes(rows) + byte_len(row) + 1,
{
    assert(rows.push(row).drop_last() =~= rows);
}

/// The value of every key of a batch is read from the row that was found for it, and is
/// `null` where none was.
pub proof fn lemma_batches_keep_their_order(
    keys: Seq<Seq<char>>,
    rows: Seq<Option<String>>,
    i: int,
)
    requires
        keys.len() == rows.len(),
        0 <= i < keys.len(),
    ensures
        batch_values(keys, row_texts(rows)).len() == keys.len(),
        rows[i] is None ==> batch_values(keys, row_texts(rows))[i] == Ok::<Seq<char>, Seq<char>>(
            "null"@,
        ),
        rows[i] is Some ==> batch_values(keys, row_texts(rows))[i] == stored_value(
            keys[i],
            rows[i]->0@,
        ),
{
    assert(row_texts(rows)[i] == opt_text(rows[i]));
}

/// A batch is answered exactly where nothing went wrong on the way, with the values by
/// their keys; otherwise with what went wrong first.
pub proof fn lemma_how_a_batch_is_answered(
    keys: Seq<Seq<char>>,
    values: Seq<Result<Seq<char>, Seq<char>>>,
    max: nat,
    r: Result<Seq<char>, Seq<char>>,
)
    requires
        is_batch_reply(keys, values, max, r),
    ensures
        r is Ok <==> batch_so_far(keys, values, max, keys.len()) is Ok,
        batch_so_far(keys, values, max, keys.len()) matches Err(e) ==> r == Err::<
            Seq<char>,
            Seq<char>,
        >(e),
        r is Ok ==> exists|t: Seq<char>| #[trigger]
            is_object_text(batch_so_far(keys, values, max, keys.len())->Ok_0.1, t) && r->Ok_0
                == "{\"values\":"@ + t + "}"@,
{
}

/// `ATTACH` counts exactly where the word is part of no longer word and is not all that a
/// pair of quotes holds.
pub proof fn lemma_where_attach_counts(sql: Seq<char>)
    ensures
        uses_attach(sql) <==> exists|pos: int| #[trigger]
            occurs_at(lower_ascii(sql), "attach"@, pos) && {
                let low = lower_ascii(sql);
                let c = low[pos - 1];
                let d = low[pos + 6];
                &&& pos == 0 || !('a' <= c <= 'z' || 'A' <= c <= 'Z' || '0' <= c <= '9' || c == '_')
                &&& pos + 6 == low.len() || !('a' <= d <= 'z' || 'A' <= d <= 'Z' || '0' <= d <= '9'
                    || d == '_')
                &&& !(pos > 0 && pos + 6 < low.len() && c == d && (c == '\'' || c == '"'))
            },
{
    reveal_strlit("attach");
    assert("attach"@.len() == 6);
    let low = lower_ascii(sql);
    if uses_attach(sql) {
        let pos = choose|pos: int| #[trigger] keyword_at(low, "attach"@, pos);
        assert(occurs_at(low, "attach"@, pos));
    }
    if exists|pos: int| #[trigger]
        occurs_at(low, "attach"@, pos) && {
            let c = low[pos - 1];
            let d = low[pos + 6];
            &&& pos == 0 || !('a' <= c <= 'z' || 'A' <= c <= 'Z' || '0' <= c <= '9' || c == '_')
            &&& pos + 6 == low.len() || !('a' <= d <= 'z' || 'A' <= d <= 'Z' || '0' <= d <= '9' || d
                == '_')
            &&& !(pos > 0 && pos + 6 < low.len() && c == d && (c == '\'' || c == '"'))
        } {
        let pos = choose|pos: int| #[trigger]
            occurs_at(low, "attach"@, pos) && {
                let c = low[pos - 1];
                let d = low[pos + 6];
                &&& pos == 0 || !('a' <= c <= 'z' || 'A' <= c <= 'Z' || '0' <= c <= '9' || c == '_')
                &&& pos + 6 == low.len() || !('a' <= d <= 'z' || 'A' <= d <= 'Z' || '0' <= d <= '9'
                    || d == '_')
                &&& !(pos > 0 && pos + 6 < low.len() && c == d && (c == '\'' || c == '"'))
            };
        assert(keyword_at(low, "attach"@, pos));
    }
}

/// An entry of a batch uses the bytes of its key and of its value, and four more.
pub proof fn lemma_what_batch_entries_use(key: Seq<char>, value: Seq<char>)
    ensures
        batch_entry_bytes(key, value) == byte_len(key) + byte_len(value) + 4,
{
}

} // verus!
