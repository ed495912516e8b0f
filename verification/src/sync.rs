//! The `sync` plugin: one versioned key-value store whose every mutation is
//! published as a delta.

use crate::action::{response_envelope, ActionReply, ActionStatus};
use crate::database::DbConfig;
use crate::fields::{join, joined};
use crate::json::{found_reply, found_text, read_stored, stored_value};
use crate::number::{dec, decimal, signed_dec, signed_decimal};
use crate::settings::{read_setting, setting};
use crate::sorting::{sort_distinct, sorted_keys, sorted_names};
use crate::strmap::StrMap;
use crate::text::{
    byte_count, byte_len, has_infix, has_prefix, join2, join3, lemma_infix_at_end,
    lemma_infix_stays, lemma_push_contains, lower_ascii, outcome_view, push_text, same,
    starts_with, texts, to_ascii_lower,
};
use crate::trusted::{json_quote, json_quoted, json_reading};
use vstd::prelude::*;

verus! {

/// Event published on every mutation.
pub const DELTA_EVENT_TYPE: &'static str = "sync.delta";

/// The file of the store, below the data directory.
pub const DB_FILE: &'static str = "sync.db";

/// The storage configuration from the values of the `SYNC_PLUGIN_*` settings.
pub fn load_config(
    data_dir: String,
    pool_size: &Option<String>,
    busy_timeout_ms: &Option<String>,
    max_db_bytes: &Option<String>,
) -> (r: DbConfig)
    ensures
        r.data_dir == data_dir,
        r.pool_size == setting(*pool_size, u32::MAX as nat, 4),
        r.busy_timeout_ms == setting(*busy_timeout_ms, u64::MAX as nat, 5000),
        r.max_db_bytes == setting(*max_db_bytes, u64::MAX as nat, 268_435_456),
{
    let pool: u64 = read_setting(pool_size, u32::MAX as u64, 4);
    DbConfig {
        data_dir,
        pool_size: pool as u32,
        busy_timeout_ms: read_setting(busy_timeout_ms, u64::MAX, 5000),
        max_db_bytes: read_setting(max_db_bytes, u64::MAX, 268_435_456),
    }
}

/// Limits on values and replies, and the age at which heartbeats expire.
#[derive(Debug, Clone, Copy, PartialEq, Eq, Structural)]
pub struct SyncLimits {
    pub max_value_bytes: usize,
    pub max_response_bytes: usize,
    /// `0` keeps heartbeats forever.
    pub heartbeat_ttl_secs: u64,
}

/// The limits from the values of the `SYNC_PLUGIN_*` settings.
pub fn load_limits(
    max_value_bytes: &Option<String>,
    max_response_bytes: &Option<String>,
    heartbeat_ttl_secs: &Option<String>,
) -> (r: SyncLimits)
    ensures
        r.max_value_bytes == setting(*max_value_bytes, usize::MAX as nat, 1_048_576),
        r.max_response_bytes == setting(*max_response_bytes, usize::MAX as nat, 4_194_304),
        r.heartbeat_ttl_secs == setting(*heartbeat_ttl_secs, u64::MAX as nat, 300),
{
    let value: u64 = read_setting(max_value_bytes, usize::MAX as u64, 1_048_576);
    let response: u64 = read_setting(max_response_bytes, usize::MAX as u64, 4_194_304);
    SyncLimits {
        max_value_bytes: value as usize,
        max_response_bytes: response as usize,
        heartbeat_ttl_secs: read_setting(heartbeat_ttl_secs, u64::MAX, 300),
    }
}

// ---------------------------------------------------------------------------
// Requests
// ---------------------------------------------------------------------------

/// A validated request. Values are compact JSON text.
#[derive(Debug, PartialEq, Eq)]
pub enum SyncRequest {
    Get { key: String },
    SetKey { key: String, value: String },
    Del { key: String },
    Snapshot,
}

/// The shape that the parameters of an action have.
#[derive(Debug, Clone, Copy, PartialEq, Eq, Structural)]
pub enum SyncShape {
    /// The parameters are not looked at.
    Ignored,
    Key,
    KeyValue,
}

/// Decoded parameters, before validation.
#[derive(Debug)]
pub enum RawSyncParams {
    Ignored,
    Key { key: String },
    KeyValue { key: String, value: String },
}

/// The shape of decoded parameters.
pub open spec fn shape_of(raw: RawSyncParams) -> SyncShape {
    match raw {
        RawSyncParams::Ignored => SyncShape::Ignored,
        RawSyncParams::Key { .. } => SyncShape::Key,
        RawSyncParams::KeyValue { .. } => SyncShape::KeyValue,
    }
}

/// The shape that an action asks for; none where nobody serves it.
pub open spec fn asked_shape(action: Seq<char>) -> Option<SyncShape> {
    if action == "sync_get_snapshot"@ {
        Some(SyncShape::Ignored)
    } else if action == "sync_get"@ || action == "sync_del"@ {
        Some(SyncShape::Key)
    } else if action == "sync_set"@ {
        Some(SyncShape::KeyValue)
    } else {
        None
    }
}

/// The shape to decode the parameters of `action` into.
pub fn params_shape(action: &str) -> (r: Option<SyncShape>)
    ensures
        r == asked_shape(action@),
{
    if same(action, "sync_get_snapshot") {
        Some(SyncShape::Ignored)
    } else if same(action, "sync_get") || same(action, "sync_del") {
        Some(SyncShape::Key)
    } else if same(action, "sync_set") {
        Some(SyncShape::KeyValue)
    } else {
        None
    }
}

/// The complaint about parameters that did not decode.
pub open spec fn shape_error(action: Seq<char>, e: Seq<char>) -> Seq<char> {
    "invalid params for "@ + action + if action == "sync_set"@ {
        ", expected {key, value}: "@
    } else {
        ", expected {key}: "@
    } + e
}

/// What is wrong with a request, if anything.
pub open spec fn request_error(
    action: Seq<char>,
    params: Result<RawSyncParams, String>,
) -> Option<Seq<char>> {
    match asked_shape(action) {
        None => Some("unknown action: "@ + action),
        Some(SyncShape::Ignored) => None,
        Some(_) => match params {
            Err(e) => Some(shape_error(action, e@)),
            Ok(raw) => if key_of(raw).len() == 0 {
                Some("params.key must be a non-empty string"@)
            } else {
                None
            },
        },
    }
}

/// The key that decoded parameters name.
pub open spec fn key_of(raw: RawSyncParams) -> Seq<char> {
    match raw {
        RawSyncParams::Ignored => Seq::empty(),
        RawSyncParams::Key { key } => key@,
        RawSyncParams::KeyValue { key, .. } => key@,
    }
}

/// The request that valid parameters of `action` stand for.
pub open spec fn request_of(action: Seq<char>, raw: RawSyncParams) -> SyncRequest {
    match raw {
        RawSyncParams::Ignored => SyncRequest::Snapshot,
        RawSyncParams::KeyValue { key, value } => SyncRequest::SetKey { key, value },
        RawSyncParams::Key { key } => if action == "sync_get"@ {
            SyncRequest::Get { key }
        } else {
            SyncRequest::Del { key }
        },
    }
}

/// Every action asks for what its name says: a read, a write with the given value, a
/// deletion or everything. A key must not be empty, and nothing else is served.
pub proof fn lemma_what_each_action_asks_for(action: Seq<char>, raw: RawSyncParams)
    requires
        asked_shape(action) == Some(shape_of(raw)),
    ensures
        action == "sync_get_snapshot"@ ==> request_error(action, Ok(raw)) is None && request_of(
            action,
            raw,
        ) is Snapshot,
        action == "sync_get"@ ==> request_of(action, raw) is Get && request_of(action, raw)->Get_key@
            == key_of(raw),
        action == "sync_del"@ ==> request_of(action, raw) is Del && request_of(action, raw)->Del_key@
            == key_of(raw),
        action == "sync_set"@ ==> request_of(action, raw) is SetKey && request_of(
            action,
            raw,
        )->SetKey_key@ == key_of(raw) && request_of(action, raw)->value == raw->value,
        action == "sync_get_snapshot"@ || action == "sync_get"@ || action == "sync_del"@ || action
            == "sync_set"@,
        action != "sync_get_snapshot"@ ==> (request_error(action, Ok(raw)) is None <==> key_of(
            raw,
        ).len() > 0),
{
    reveal_strlit("sync_get_snapshot");
    reveal_strlit("sync_get");
    reveal_strlit("sync_del");
    reveal_strlit("sync_set");
    assert("sync_get_snapshot"@.len() == 17 && "sync_get"@.len() == 8 && "sync_del"@.len() == 8
        && "sync_set"@.len() == 8);
    assert("sync_get"@[5] == 'g' && "sync_del"@[5] == 'd' && "sync_set"@[5] == 's');
}

/// Validates the decoded parameters of an action.
pub fn parse_request(action: &str, params: Result<RawSyncParams, String>) -> (r: Result<
    SyncRequest,
    String,
>)
    requires
        params matches Ok(raw) ==> (asked_shape(action@) matches Some(s) ==> shape_of(raw) == s),
    ensures
        match r {
            Ok(q) => request_error(action@, params) is None && q == match params {
                Ok(raw) => request_of(action@, raw),
                Err(_) => SyncRequest::Snapshot,
            },
            Err(e) => request_error(action@, params) == Some(e@),
        },
{
    match params_shape(action) {
        None => return Err(join2("unknown action: ", action)),
        Some(SyncShape::Ignored) => return Ok(SyncRequest::Snapshot),
        Some(_) => {},
    }
    match params {
        Err(e) => {
            let mut m = join2("invalid params for ", action);
            if same(action, "sync_set") {
                m.append(", expected {key, value}: ");
            } else {
                m.append(", expected {key}: ");
            }
            m.append(e.as_str());
            Err(m)
        },
        Ok(RawSyncParams::KeyValue { key, value }) => if key.as_str().is_empty() {
            Err("params.key must be a non-empty string".to_owned())
        } else {
            Ok(SyncRequest::SetKey { key, value })
        },
        Ok(RawSyncParams::Key { key }) => if key.as_str().is_empty() {
            Err("params.key must be a non-empty string".to_owned())
        } else if same(action, "sync_get") {
            Ok(SyncRequest::Get { key })
        } else {
            Ok(SyncRequest::Del { key })
        },
        Ok(RawSyncParams::Ignored) => Ok(SyncRequest::Snapshot),
    }
}

/// Admits a request: the caller must be known before anything else is looked at.
pub fn admit_request(
    caller_plugin_id: &str,
    action: &str,
    params: Result<RawSyncParams, String>,
) -> (r: Result<SyncRequest, String>)
    requires
        params matches Ok(raw) ==> (asked_shape(action@) matches Some(s) ==> shape_of(raw) == s),
    ensures
        match r {
            Ok(q) => caller_plugin_id@.len() > 0 && request_error(action@, params) is None && q
                == match params {
                Ok(raw) => request_of(action@, raw),
                Err(_) => SyncRequest::Snapshot,
            },
            Err(e) => if caller_plugin_id@.len() == 0 {
                e@ == "missing caller_plugin_id (rejected before touching any database)"@
            } else {
                request_error(action@, params) == Some(e@)
            },
        },
{
    if caller_plugin_id.is_empty() {
        return Err("missing caller_plugin_id (rejected before touching any database)".to_owned());
    }
    parse_request(action, params)
}

// ---------------------------------------------------------------------------
// The store
// ---------------------------------------------------------------------------

/// A stored value, as compact JSON text, and when it was written.
#[derive(Debug, PartialEq, Eq)]
pub struct SyncRow {
    pub value: String,
    pub updated_at: i64,
}

/// A single mutation, as it is published. `value` is the JSON text that was
/// written, or nothing for a deletion; `version` is the version of the store
/// after the mutation.
#[derive(Debug, PartialEq, Eq)]
pub struct Delta {
    pub op: &'static str,
    pub key: String,
    pub value: Option<String>,
    pub version: i64,
    pub updated_at: i64,
}

/// The payload that publishes a delta.
pub open spec fn payload_text(d: Delta) -> Seq<char> {
    "{\"key\":"@ + json_quoted(d.key@) + ",\"op\":"@ + json_quoted(d.op@) + ",\"updated_at\":"@
        + signed_decimal(d.updated_at as int) + ",\"value\":"@ + (match d.value {
        Some(v) => v@,
        None => "null"@,
    }) + ",\"version\":"@ + signed_decimal(d.version as int) + "}"@
}

/// A published delta tells the key, what was done, when, what was written, `null` for a
/// deletion, and the version, each under its own name.
pub proof fn lemma_what_a_delta_tells(d: Delta)
    ensures
        has_infix(payload_text(d), "{\"key\":"@ + json_quoted(d.key@)),
        has_infix(payload_text(d), ",\"op\":"@ + json_quoted(d.op@)),
        has_infix(
            payload_text(d),
            ",\"updated_at\":"@ + signed_decimal(d.updated_at as int) + ",\"value\":"@,
        ),
        d.value matches Some(v) ==> has_infix(
            payload_text(d),
            ",\"value\":"@ + v@ + ",\"version\":"@,
        ),
        d.value is None ==> has_infix(
            payload_text(d),
            ",\"value\":"@ + "null"@ + ",\"version\":"@,
        ),
        has_infix(
            payload_text(d),
            ",\"version\":"@ + signed_decimal(d.version as int) + "}"@,
        ),
{
    let value = match d.value {
        Some(v) => v@,
        None => "null"@,
    };
    let p0 = "{\"key\":"@;
    let p1 = json_quoted(d.key@);
    let p2 = ",\"op\":"@;
    let p3 = json_quoted(d.op@);
    let p4 = ",\"updated_at\":"@;
    let p5 = signed_decimal(d.updated_at as int);
    let p6 = ",\"value\":"@;
    let p7 = value;
    let p8 = ",\"version\":"@;
    let p9 = signed_decimal(d.version as int);
    let p10 = "}"@;
    let t0 = p0;
    let t1 = t0 + p1;
    let t2 = t1 + p2;
    let t3 = t2 + p3;
    let t4 = t3 + p4;
    let t5 = t4 + p5;
    let t6 = t5 + p6;
    let t7 = t6 + p7;
    let t8 = t7 + p8;
    let t9 = t8 + p9;
    let t10 = t9 + p10;
    assert(t1 =~= Seq::<char>::empty() + (p0 + p1));
    lemma_infix_at_end(Seq::<char>::empty(), p0 + p1);
    lemma_infix_stays(t1, p0 + p1, p2);
    lemma_infix_stays(t2, p0 + p1, p3);
    lemma_infix_stays(t3, p0 + p1, p4);
    lemma_infix_stays(t4, p0 + p1, p5);
    lemma_infix_stays(t5, p0 + p1, p6);
    lemma_infix_stays(t6, p0 + p1, p7);
    lemma_infix_stays(t7, p0 + p1, p8);
    lemma_infix_stays(t8, p0 + p1, p9);
    lemma_infix_stays(t9, p0 + p1, p10);
    assert(t3 =~= t1 + (p2 + p3));
    lemma_infix_at_end(t1, p2 + p3);
    lemma_infix_stays(t3, p2 + p3, p4);
    lemma_infix_stays(t4, p2 + p3, p5);
    lemma_infix_stays(t5, p2 + p3, p6);
    lemma_infix_stays(t6, p2 + p3, p7);
    lemma_infix_stays(t7, p2 + p3, p8);
    lemma_infix_stays(t8, p2 + p3, p9);
    lemma_infix_stays(t9, p2 + p3, p10);
    assert(t6 =~= t3 + (p4 + p5 + p6));
    lemma_infix_at_end(t3, p4 + p5 + p6);
    lemma_infix_stays(t6, p4 + p5 + p6, p7);
    lemma_infix_stays(t7, p4 + p5 + p6, p8);
    lemma_infix_stays(t8, p4 + p5 + p6, p9);
    lemma_infix_stays(t9, p4 + p5 + p6, p10);
    assert(t8 =~= t5 + (p6 + p7 + p8));
    lemma_infix_at_end(t5, p6 + p7 + p8);
    lemma_infix_stays(t8, p6 + p7 + p8, p9);
    lemma_infix_stays(t9, p6 + p7 + p8, p10);
    assert(t10 =~= t7 + (p8 + p9 + p10));
    lemma_infix_at_end(t7, p8 + p9 + p10);
    assert(payload_text(d) == t10);
}

impl Delta {
    /// The JSON object that publishes this delta.
    pub fn payload_json(&self) -> (r: String)
        ensures
            r@ == payload_text(*self),
    {
        let mut s = "{\"key\":".to_owned();
        s.append(json_quote(self.key.as_str()).as_str());
        s.append(",\"op\":");
        s.append(json_quote(self.op).as_str());
        s.append(",\"updated_at\":");
        s.append(signed_dec(self.updated_at).as_str());
        s.append(",\"value\":");
        match &self.value {
            Some(v) => s.append(v.as_str()),
            None => s.append("null"),
        }
        s.append(",\"version\":");
        s.append(signed_dec(self.version).as_str());
        s.append("}");
        s
    }
}

/// The versioned store.
#[derive(Debug, PartialEq, Eq)]
pub struct SyncStore {
    pub version: i64,
    pub rows: StrMap<SyncRow>,
}

/// The rows that a delta makes of `rows`.
pub open spec fn applied(rows: Map<Seq<char>, SyncRow>, d: Delta) -> Map<Seq<char>, SyncRow> {
    match d.value {
        Some(value) => rows.insert(d.key@, SyncRow { value, updated_at: d.updated_at }),
        None => rows.remove(d.key@),
    }
}

/// The rows that deltas, one after the other, make of `rows`.
pub open spec fn replayed(
    rows: Map<Seq<char>, SyncRow>,
    deltas: Seq<Delta>,
) -> Map<Seq<char>, SyncRow>
    decreases deltas.len(),
{
    if deltas.len() == 0 {
        rows
    } else {
        applied(replayed(rows, deltas.drop_last()), deltas.last())
    }
}

/// Whether deltas take a store on from version `from`, one version each, and
/// each is named for what it does.
pub open spec fn versioned(deltas: Seq<Delta>, from: int) -> bool {
    forall|i: int|
        0 <= i < deltas.len() ==> (#[trigger] deltas[i]).version == from + 1 + i && deltas[i].op@
            == if deltas[i].value is Some {
            "set"@
        } else {
            "del"@
        }
}

/// Whether `deltas` take `before` to `after`.
pub open spec fn takes_on(before: SyncStore, deltas: Seq<Delta>, after: SyncStore) -> bool {
    &&& versioned(deltas, before.version as int)
    &&& after.version == before.version + deltas.len()
    &&& after.rows@ == replayed(before.rows@, deltas)
}

// ---------------------------------------------------------------------------
// Heartbeats
// ---------------------------------------------------------------------------

/// Whether a row is a heartbeat older than `ttl_secs` at `now_ms`.
pub open spec fn is_stale(key: Seq<char>, row: SyncRow, ttl_secs: u64, now_ms: int) -> bool {
    &&& ttl_secs > 0
    &&& has_prefix(lower_ascii(key), "heartbeat."@)
    &&& row.updated_at < now_ms - ttl_secs * 1000
}

/// The keys of all stale heartbeats.
pub open spec fn stale_keys(
    rows: Map<Seq<char>, SyncRow>,
    ttl_secs: u64,
    now_ms: int,
) -> Set<Seq<char>> {
    Set::new(|k: Seq<char>| rows.dom().contains(k) && is_stale(k, rows[k], ttl_secs, now_ms))
}

/// The rows without stale heartbeats.
pub open spec fn live_rows(
    rows: Map<Seq<char>, SyncRow>,
    ttl_secs: u64,
    now_ms: int,
) -> Map<Seq<char>, SyncRow> {
    rows.remove_keys(stale_keys(rows, ttl_secs, now_ms))
}

/// What is pruned is exactly what is a heartbeat by its name, in whatever case, and has
/// not been written for longer than the limit; without a limit nothing is.
pub proof fn lemma_what_is_pruned(
    rows: Map<Seq<char>, SyncRow>,
    ttl_secs: u64,
    now_ms: int,
    key: Seq<char>,
)
    requires
        rows.dom().contains(key),
    ensures
        live_rows(rows, ttl_secs, now_ms).dom().contains(key) <==> ttl_secs == 0 || !has_prefix(
            lower_ascii(key),
            "heartbeat."@,
        ) || now_ms - rows[key].updated_at <= 1000 * ttl_secs,
        live_rows(rows, ttl_secs, now_ms).dom().contains(key) ==> live_rows(
            rows,
            ttl_secs,
            now_ms,
        )[key] == rows[key],
{
}

/// The keys that deltas speak of.
pub open spec fn delta_keys(deltas: Seq<Delta>) -> Seq<Seq<char>> {
    Seq::new(deltas.len(), |i: int| deltas[i].key@)
}

/// Whether `deltas` are the deletions of all stale heartbeats, in the order of
/// their keys, at `now_ms`.
pub open spec fn prunes(
    deltas: Seq<Delta>,
    rows: Map<Seq<char>, SyncRow>,
    ttl_secs: u64,
    now_ms: i64,
) -> bool {
    &&& sorted_names(delta_keys(deltas), stale_keys(rows, ttl_secs, now_ms as int))
    &&& forall|i: int|
        0 <= i < deltas.len() ==> (#[trigger] deltas[i]).value is None && deltas[i].updated_at
            == now_ms
}

/// Whether the age limit and the time can be told apart in milliseconds.
pub open spec fn clock_fits(ttl_secs: u64, now_ms: i64) -> bool {
    &&& now_ms >= 0
    &&& ttl_secs <= 9_223_372_036_854_775
}

proof fn lemma_replay_deletes(rows: Map<Seq<char>, SyncRow>, deltas: Seq<Delta>)
    requires
        forall|i: int| 0 <= i < deltas.len() ==> (#[trigger] deltas[i]).value is None,
    ensures
        replayed(rows, deltas) == rows.remove_keys(delta_keys(deltas).to_set()),
    decreases deltas.len(),
{
    let keys = delta_keys(deltas);
    if deltas.len() == 0 {
        assert(rows.remove_keys(keys.to_set()) =~= rows);
    } else {
        let front = deltas.drop_last();
        lemma_replay_deletes(rows, front);
        let fk = delta_keys(front);
        assert(keys =~= fk.push(deltas.last().key@));
        assert forall|k: Seq<char>| keys.to_set().contains(k) <==> (fk.to_set().contains(k) || k
            == deltas.last().key@) by {
            if keys.contains(k) {
                let i = keys.index_of(k);
                assert(keys[i] == k);
                if i < fk.len() {
                    assert(fk[i] == k);
                }
            }
            if fk.contains(k) {
                let i = fk.index_of(k);
                assert(keys[i] == k);
            }
            assert(keys[keys.len() - 1] == deltas.last().key@);
        }
        assert(rows.remove_keys(keys.to_set()) =~= rows.remove_keys(fk.to_set()).remove(
            deltas.last().key@,
        ));
    }
}

impl SyncStore {
    /// A store that was never written to.
    pub fn new() -> (r: SyncStore)
        ensures
            r.version == 0,
            r.rows@ == Map::<Seq<char>, SyncRow>::empty(),
    {
        SyncStore { version: 0, rows: StrMap::new() }
    }

    /// The stale heartbeats, in the order of their keys.
    fn find_stale(&self, ttl_secs: u64, now_ms: i64) -> (r: Vec<String>)
        requires
            clock_fits(ttl_secs, now_ms),
        ensures
            sorted_names(texts(r@), stale_keys(self.rows@, ttl_secs, now_ms as int)),
            r@.len() <= self.rows@.dom().len(),
    {
        let mut found: Vec<String> = Vec::new();
        let ghost all = stale_keys(self.rows@, ttl_secs, now_ms as int);
        if ttl_secs == 0 {
            assert(texts(found@).to_set() =~= all);
            return found;
        }
        let cutoff: i64 = now_ms - (ttl_secs as i64) * 1000;
        self.rows.keys_are_distinct();
        let n: usize = self.rows.len();
        let ghost order = self.rows.order();
        let mut i: usize = 0;
        while i < n
            invariant
                i <= n == order.len(),
                order == self.rows.order(),
                order.no_duplicates(),
                ttl_secs > 0,
                cutoff == now_ms - ttl_secs * 1000,
                found@.len() <= i,
                texts(found@).no_duplicates(),
                forall|k: Seq<char>| #[trigger]
                    texts(found@).contains(k) <==> order.take(i as int).contains(k) && is_stale(
                        k,
                        self.rows@[k],
                        ttl_secs,
                        now_ms as int,
                    ),
            decreases n - i,
        {
            let (k, row) = self.rows.entry_at(i);
            let ghost before = texts(found@);
            let ghost taken = order.take(i as int);
            assert(order.take(i + 1) =~= taken.push(order[i as int]));
            assert(!taken.contains(k@)) by {
                if taken.contains(k@) {
                    let j = taken.index_of(k@);
                    assert(order[j] == k@);
                }
            }
            if starts_with(to_ascii_lower(k.as_str()).as_str(), "heartbeat.") && row.updated_at
                < cutoff {
                assert(is_stale(k@, self.rows@[k@], ttl_secs, now_ms as int));
                found.push(k.clone());
                assert(texts(found@) =~= before.push(k@));
                assert(!before.contains(k@));
                assert(texts(found@).no_duplicates());
            }
            assert forall|x: Seq<char>| #[trigger]
                texts(found@).contains(x) <==> order.take(i + 1).contains(x) && is_stale(
                    x,
                    self.rows@[x],
                    ttl_secs,
                    now_ms as int,
                ) by {
                lemma_push_contains(taken, k@, x);
                lemma_push_contains(before, k@, x);
                assert(before.contains(x) <==> taken.contains(x) && is_stale(
                    x,
                    self.rows@[x],
                    ttl_secs,
                    now_ms as int,
                ));
            }
            i += 1;
        }
        let r = sort_distinct(&found);
        proof {
            assert(order.take(n as int) =~= order);
            assert(texts(found@).to_set() =~= all) by {
                assert forall|x: Seq<char>| texts(found@).to_set().contains(x) <==> all.contains(
                    x,
                ) by {
                    assert(order.to_set().contains(x) <==> order.contains(x));
                    assert(texts(found@).contains(x) <==> order.take(n as int).contains(x)
                        && is_stale(x, self.rows@[x], ttl_secs, now_ms as int));
                }
            }
        }
        r
    }

    /// Deletes stale heartbeats, one version each.
    pub fn prune_heartbeats(&mut self, heartbeat_ttl_secs: u64, now_ms: i64) -> (r: Vec<Delta>)
        requires
            clock_fits(heartbeat_ttl_secs, now_ms),
            old(self).version + old(self).rows@.dom().len() <= i64::MAX,
        ensures
            prunes(r@, old(self).rows@, heartbeat_ttl_secs, now_ms),
            final(self).rows@ == live_rows(old(self).rows@, heartbeat_ttl_secs, now_ms as int),
            takes_on(*old(self), r@, *final(self)),
            r@.len() <= old(self).rows@.dom().len(),
    {
        let keys = self.find_stale(heartbeat_ttl_secs, now_ms);
        let ghost before = *self;
        let mut deltas: Vec<Delta> = Vec::new();
        let mut i: usize = 0;
        while i < keys.len()
            invariant
                i <= keys@.len() <= before.rows@.dom().len(),
                before.version + before.rows@.dom().len() <= i64::MAX,
                deltas@.len() == i,
                takes_on(before, deltas@, *self),
                forall|j: int|
                    0 <= j < i ==> (#[trigger] deltas@[j]).value is None && deltas@[j].updated_at
                        == now_ms && deltas@[j].key@ == keys@[j]@,
            decreases keys.len() - i,
        {
            let ghost sofar = deltas@;
            let _ = self.rows.remove(keys[i].as_str());
            self.version = self.version + 1;
            deltas.push(
                Delta {
                    op: "del",
                    key: keys[i].clone(),
                    value: None,
                    version: self.version,
                    updated_at: now_ms,
                },
            );
            assert(deltas@.drop_last() =~= sofar);
            i += 1;
        }
        proof {
            assert(delta_keys(deltas@) =~= texts(keys@));
            lemma_replay_deletes(before.rows@, deltas@);
        }
        deltas
    }
}

// ---------------------------------------------------------------------------
// Operations
// ---------------------------------------------------------------------------

/// The reply to a read.
pub open spec fn get_reply(rows: Map<Seq<char>, SyncRow>, key: Seq<char>) -> Result<
    Seq<char>,
    Seq<char>,
> {
    found_text(
        if rows.dom().contains(key) {
            Some(stored_value(key, rows[key].value@))
        } else {
            None
        },
    )
}

/// What is wrong with a value to write, if anything.
pub open spec fn value_error(value: Seq<char>, max_value_bytes: nat) -> Option<Seq<char>> {
    if byte_len(value) > max_value_bytes {
        Some(
            "value exceeds max_value_bytes ("@ + decimal(byte_len(value)) + " > "@ + decimal(
                max_value_bytes,
            ) + ")"@,
        )
    } else {
        None
    }
}

/// The reply to a write that left the store at `version`.
pub open spec fn set_reply(version: int) -> Seq<char> {
    "{\"ok\":true,\"version\":"@ + signed_decimal(version) + "}"@
}

/// The reply to a deletion that left the store at `version`.
pub open spec fn del_reply(deleted: bool, version: int) -> Seq<char> {
    if deleted {
        "{\"deleted\":true,\"version\":"@ + signed_decimal(version) + "}"@
    } else {
        "{\"deleted\":false,\"version\":"@ + signed_decimal(version) + "}"@
    }
}

/// Whether the stored value under `key` is not JSON.
pub open spec fn is_corrupt(rows: Map<Seq<char>, SyncRow>, key: Seq<char>) -> bool {
    rows.dom().contains(key) && json_reading(rows[key].value@) is Err
}

/// The text of a snapshot that lists `names` with `values`.
pub open spec fn snapshot_text(
    version: int,
    names: Seq<Seq<char>>,
    values: Seq<Seq<char>>,
) -> Seq<char> {
    "{\"state\":{"@ + joined(
        Seq::new(names.len(), |i: int| json_quoted(names[i]) + ":"@ + values[i]),
        ","@,
    ) + "},\"version\":"@ + signed_decimal(version) + "}"@
}

/// The stored values under `names`, read as JSON.
pub open spec fn read_values(rows: Map<Seq<char>, SyncRow>, names: Seq<Seq<char>>) -> Seq<
    Seq<char>,
> {
    Seq::new(names.len(), |i: int| json_reading(rows[names[i]].value@)->Ok_0)
}

/// The complaint about a snapshot of `size` bytes.
pub open spec fn snapshot_error(size: nat, max_response_bytes: nat) -> Seq<char> {
    "snapshot exceeds max_response_bytes ("@ + decimal(size) + " > "@ + decimal(max_response_bytes)
        + ")"@
}

/// Whether `r` is the reply to a request for everything: all keys in order,
/// unless some stored value is corrupt or the text is too long.
pub open spec fn is_snapshot_reply(
    version: int,
    rows: Map<Seq<char>, SyncRow>,
    max_response_bytes: nat,
    r: Result<Seq<char>, Seq<char>>,
) -> bool {
    if exists|k: Seq<char>| #[trigger] is_corrupt(rows, k) {
        exists|k: Seq<char>| #[trigger]
            is_corrupt(rows, k) && r == stored_value(k, rows[k].value@)
    } else {
        exists|names: Seq<Seq<char>>| #[trigger]
            sorted_names(names, rows.dom()) && r == capped_snapshot(
                snapshot_text(version, names, read_values(rows, names)),
                max_response_bytes,
            )
    }
}

/// The snapshot `t`, unless it is too long.
pub open spec fn capped_snapshot(t: Seq<char>, max_response_bytes: nat) -> Result<
    Seq<char>,
    Seq<char>,
> {
    if byte_len(t) > max_response_bytes {
        Err(snapshot_error(byte_len(t), max_response_bytes))
    } else {
        Ok(t)
    }
}

/// The snapshot that lists `names` with `values`, each value being JSON text.
pub fn snapshot_json(
    version: i64,
    names: &Vec<String>,
    values: &Vec<String>,
    max_response_bytes: usize,
) -> (r: Result<String, String>)
    requires
        names@.len() == values@.len(),
    ensures
        outcome_view(r) == capped_snapshot(
            snapshot_text(version as int, texts(names@), texts(values@)),
            max_response_bytes as nat,
        ),
{
    let ghost listed = texts(names@);
    let ghost read = texts(values@);
    let mut members: Vec<String> = Vec::new();
    let mut i: usize = 0;
    while i < names.len()
        invariant
            i <= names@.len() == values@.len(),
            listed == texts(names@),
            read == texts(values@),
            members@.len() == i,
            forall|j: int|
                0 <= j < i ==> (#[trigger] members@[j])@ == json_quoted(listed[j]) + ":"@ + read[j],
        decreases names.len() - i,
    {
        members.push(join3(json_quote(names[i].as_str()).as_str(), ":", values[i].as_str()));
        i += 1;
    }
    let mut t = join2("{\"state\":{", join(&members, ",").as_str());
    t.append("},\"version\":");
    t.append(signed_dec(version).as_str());
    t.append("}");
    assert(texts(members@) =~= Seq::new(
        listed.len(),
        |i: int| json_quoted(listed[i]) + ":"@ + read[i],
    ));
    assert(t@ == snapshot_text(version as int, listed, read));
    let size: usize = byte_count(t.as_str());
    if size > max_response_bytes {
        let mut m = join2("snapshot exceeds max_response_bytes (", dec(size as u64).as_str());
        m.append(" > ");
        m.append(dec(max_response_bytes as u64).as_str());
        m.append(")");
        return Err(m);
    }
    Ok(t)
}

/// What an operation replies, and the mutations it made of the store.
#[derive(Debug, PartialEq, Eq)]
pub struct SyncOutcome {
    /// The reply, as JSON text.
    pub reply: Result<String, String>,
    /// What is to be written to the file, in order.
    pub changes: Vec<Delta>,
}

/// Whether an operation on `before` leaves `after` with that outcome.
pub open spec fn performs(
    before: SyncStore,
    req: SyncRequest,
    limits: SyncLimits,
    now_ms: i64,
    prune_ms: i64,
    after: SyncStore,
    out: SyncOutcome,
) -> bool {
    let ttl = limits.heartbeat_ttl_secs;
    let live = live_rows(before.rows@, ttl, prune_ms as int);
    &&& takes_on(before, out.changes@, after)
    &&& match req {
        SyncRequest::Get { key } => {
            &&& after == before
            &&& out.changes@.len() == 0
            &&& outcome_view(out.reply) == get_reply(before.rows@, key@)
        },
        SyncRequest::SetKey { key, value } => match value_error(
            value@,
            limits.max_value_bytes as nat,
        ) {
            Some(e) => {
                &&& after == before
                &&& out.changes@.len() == 0
                &&& outcome_view(out.reply) == Err::<Seq<char>, Seq<char>>(e)
            },
            None => {
                &&& out.changes@.len() > 0
                &&& prunes(out.changes@.drop_last(), before.rows@, ttl, prune_ms)
                &&& out.changes@.last().key == key
                &&& out.changes@.last().value == Some(value)
                &&& out.changes@.last().updated_at == now_ms
                &&& after.rows@ == live.insert(key@, SyncRow { value, updated_at: now_ms })
                &&& outcome_view(out.reply) == Ok::<Seq<char>, Seq<char>>(
                    set_reply(after.version as int),
                )
            },
        },
        SyncRequest::Del { key } => {
            let there = before.rows@.dom().contains(key@);
            &&& after.rows@ == before.rows@.remove(key@)
            &&& out.changes@.len() == if there {
                1int
            } else {
                0
            }
            &&& there ==> out.changes@[0].key == key && out.changes@[0].value is None
                && out.changes@[0].updated_at == now_ms
            &&& outcome_view(out.reply) == Ok::<Seq<char>, Seq<char>>(
                del_reply(there, after.version as int),
            )
        },
        SyncRequest::Snapshot => {
            &&& prunes(out.changes@, before.rows@, ttl, prune_ms)
            &&& after.rows@ == live
            &&& is_snapshot_reply(
                after.version as int,
                live,
                limits.max_response_bytes as nat,
                outcome_view(out.reply),
            )
        },
    }
}

impl SyncStore {
    /// Reads the value under `key`.
    fn handle_get(&self, key: &str) -> (r: Result<String, String>)
        ensures
            outcome_view(r) == get_reply(self.rows@, key@),
    {
        match self.rows.get(key) {
            Some(row) => found_reply(Some(read_stored(key, row.value.as_str()))),
            None => found_reply(None),
        }
    }

    /// Everything in the store, as one JSON object.
    fn snapshot_reply(&self, max_response_bytes: usize) -> (r: Result<String, String>)
        ensures
            is_snapshot_reply(
                self.version as int,
                self.rows@,
                max_response_bytes as nat,
                outcome_view(r),
            ),
    {
        let names = sorted_keys(&self.rows);
        let ghost listed = texts(names@);
        let ghost rows = self.rows@;
        let mut values: Vec<String> = Vec::new();
        let mut i: usize = 0;
        while i < names.len()
            invariant
                i <= names@.len(),
                listed == texts(names@),
                rows == self.rows@,
                sorted_names(listed, rows.dom()),
                values@.len() == i,
                forall|j: int| 0 <= j < i ==> !is_corrupt(rows, #[trigger] listed[j]),
                forall|j: int|
                    0 <= j < i ==> (#[trigger] values@[j])@ == json_reading(
                        rows[listed[j]].value@,
                    )->Ok_0,
            decreases names.len() - i,
        {
            let key = names[i].as_str();
            assert(listed.to_set().contains(listed[i as int]));
            assert(rows.dom().contains(key@));
            let row: &SyncRow = match self.rows.get(key) {
                Some(row) => row,
                None => {
                    // every listed key is there
                    assert(false);
                    return Err(String::new());
                },
            };
            match read_stored(key, row.value.as_str()) {
                Ok(v) => {
                    values.push(v);
                },
                Err(e) => {
                    assert(is_corrupt(rows, key@));
                    return Err(e);
                },
            }
            i += 1;
        }
        proof {
            assert(texts(values@) =~= read_values(rows, listed));
            assert forall|k: Seq<char>| !#[trigger] is_corrupt(rows, k) by {
                if rows.dom().contains(k) {
                    assert(listed.to_set().contains(k));
                    let j = listed.index_of(k);
                    assert(!is_corrupt(rows, listed[j]));
                }
            }
        }
        snapshot_json(self.version, &names, &values, max_response_bytes)
    }

    /// Writes a value, after stale heartbeats are gone.
    fn handle_set(
        &mut self,
        key: String,
        value: String,
        limits: SyncLimits,
        now_ms: i64,
        prune_ms: i64,
    ) -> (r: SyncOutcome)
        requires
            clock_fits(limits.heartbeat_ttl_secs, prune_ms),
            old(self).version + old(self).rows@.dom().len() < i64::MAX,
        ensures
            performs(
                *old(self),
                SyncRequest::SetKey { key, value },
                limits,
                now_ms,
                prune_ms,
                *final(self),
                r,
            ),
    {
        let n: usize = byte_count(value.as_str());
        if n > limits.max_value_bytes {
            let mut m = join2("value exceeds max_value_bytes (", dec(n as u64).as_str());
            m.append(" > ");
            m.append(dec(limits.max_value_bytes as u64).as_str());
            m.append(")");
            return SyncOutcome { reply: Err(m), changes: Vec::new() };
        }
        let mut changes = self.prune_heartbeats(limits.heartbeat_ttl_secs, prune_ms);
        let ghost pruned = changes@;
        let row = SyncRow { value: value.clone(), updated_at: now_ms };
        let _ = self.rows.insert(key.clone(), row);
        self.version = self.version + 1;
        changes.push(
            Delta { op: "set", key, value: Some(value), version: self.version, updated_at: now_ms },
        );
        assert(changes@.drop_last() =~= pruned);
        let mut t = join2("{\"ok\":true,\"version\":", signed_dec(self.version).as_str());
        t.append("}");
        SyncOutcome { reply: Ok(t), changes }
    }

    /// Deletes a key.
    fn handle_del(&mut self, key: String, limits: SyncLimits, now_ms: i64, prune_ms: i64) -> (r:
        SyncOutcome)
        requires
            old(self).version < i64::MAX,
        ensures
            performs(
                *old(self),
                SyncRequest::Del { key },
                limits,
                now_ms,
                prune_ms,
                *final(self),
                r,
            ),
    {
        let deleted = self.rows.remove(key.as_str()).is_some();
        let mut changes: Vec<Delta> = Vec::new();
        let mut t = String::new();
        if deleted {
            self.version = self.version + 1;
            changes.push(
                Delta { op: "del", key, value: None, version: self.version, updated_at: now_ms },
            );
            assert(changes@.drop_last() =~= Seq::<Delta>::empty());
            proof {
                reveal_with_fuel(replayed, 2);
            }
            t.append("{\"deleted\":true,\"version\":");
        } else {
            assert(old(self).rows@.remove(key@) =~= old(self).rows@);
            t.append("{\"deleted\":false,\"version\":");
        }
        t.append(signed_dec(self.version).as_str());
        t.append("}");
        assert(t@ =~= del_reply(deleted, self.version as int));
        SyncOutcome { reply: Ok(t), changes }
    }

    /// Performs an admitted request. `now_ms` is the time at which the request
    /// came, `prune_ms` that at which stale heartbeats are looked for.
    pub fn handle(&mut self, req: SyncRequest, limits: SyncLimits, now_ms: i64, prune_ms: i64) -> (r:
        SyncOutcome)
        requires
            clock_fits(limits.heartbeat_ttl_secs, prune_ms),
            old(self).version + old(self).rows@.dom().len() < i64::MAX,
        ensures
            performs(*old(self), req, limits, now_ms, prune_ms, *final(self), r),
            req matches SyncRequest::Get { key } ==> *final(self) == *old(self),
            req matches SyncRequest::SetKey { key, value } ==> (r.reply is Ok <==> byte_len(value@)
                <= limits.max_value_bytes),
            req matches SyncRequest::SetKey { key, value } ==> (r.reply is Ok
                ==> final(self).rows@.dom().contains(key@) && final(self).rows@[key@].value == value
                && final(self).rows@[key@].updated_at == now_ms),
            req matches SyncRequest::Del { key } ==> !final(self).rows@.dom().contains(key@),
            final(self).version == old(self).version + r.changes@.len(),
    {
        match req {
            SyncRequest::Get { key } => SyncOutcome {
                reply: self.handle_get(key.as_str()),
                changes: Vec::new(),
            },
            SyncRequest::SetKey { key, value } => self.handle_set(
                key,
                value,
                limits,
                now_ms,
                prune_ms,
            ),
            SyncRequest::Del { key } => self.handle_del(key, limits, now_ms, prune_ms),
            SyncRequest::Snapshot => {
                let changes = self.prune_heartbeats(limits.heartbeat_ttl_secs, prune_ms);
                let reply = self.snapshot_reply(limits.max_response_bytes);
                SyncOutcome { reply, changes }
            },
        }
    }
}

/// The reply to an action and the events to publish after it.
#[derive(Debug, PartialEq, Eq)]
pub struct SyncAnswer {
    pub response: ActionReply,
    pub deltas: Vec<Delta>,
}

/// The answer to an action: the response first, and behind a success the deltas
/// in the order of their versions. A failure publishes nothing.
pub fn answer(action_id: String, outcome: SyncOutcome) -> (r: SyncAnswer)
    ensures
        r.response.action_id == action_id,
        match outcome.reply {
            Ok(t) => r.response.status == ActionStatus::ActionOk && r.response.data_json@
                == vstd::utf8::encode_utf8(t@) && r.response.error@.len() == 0 && r.deltas
                == outcome.changes,
            Err(e) => r.response.status == ActionStatus::ActionError
                && r.response.data_json@.len() == 0 && r.response.error == e && r.deltas@.len()
                == 0,
        },
{
    match outcome.reply {
        Ok(t) => {
            let mut data: Vec<u8> = Vec::new();
            push_text(&mut data, t.as_str());
            SyncAnswer {
                response: response_envelope(action_id, Ok(data)),
                deltas: outcome.changes,
            }
        },
        Err(e) => SyncAnswer {
            response: response_envelope(action_id, Err(e)),
            deltas: Vec::new(),
        },
    }
}

// ---------------------------------------------------------------------------
// Laws
// ---------------------------------------------------------------------------

/// Whether a request writes or deletes `key` itself.
pub open spec fn changes(req: SyncRequest, key: Seq<char>) -> bool {
    match req {
        SyncRequest::SetKey { key: k, .. } => k@ == key,
        SyncRequest::Del { key: k } => k@ == key,
        _ => false,
    }
}

/// Whether pruning spares `key`: it is no heartbeat, or a young one, or nothing
/// is pruned.
pub open spec fn outlives(
    rows: Map<Seq<char>, SyncRow>,
    ttl_secs: u64,
    now_ms: int,
    key: Seq<char>,
) -> bool {
    ||| ttl_secs == 0
    ||| !has_prefix(lower_ascii(key), "heartbeat."@)
    ||| rows[key].updated_at >= now_ms - ttl_secs * 1000
}

/// Whether a store went from one state to the next by a request that neither
/// writes nor deletes `key` nor prunes it.
pub open spec fn spares(before: SyncStore, after: SyncStore, key: Seq<char>) -> bool {
    exists|
        req: SyncRequest,
        limits: SyncLimits,
        now_ms: i64,
        prune_ms: i64,
        out: SyncOutcome,
    | #[trigger]
        performs(before, req, limits, now_ms, prune_ms, after, out) && !changes(req, key)
            && outlives(before.rows@, limits.heartbeat_ttl_secs, prune_ms as int, key)
}

/// What is kept under a key outlasts any number of requests that spare it.
pub proof fn lemma_spared(states: Seq<SyncStore>, key: Seq<char>)
    requires
        states.len() > 0,
        states[0].rows@.dom().contains(key),
        forall|i: int|
            0 <= i < states.len() - 1 ==> spares(#[trigger] states[i], states[i + 1], key),
    ensures
        states.last().rows@.dom().contains(key),
        states.last().rows@[key] == states[0].rows@[key],
    decreases states.len(),
{
    if states.len() > 1 {
        let last = states.len() - 2;
        let earlier = states.drop_last();
        assert forall|i: int| 0 <= i < earlier.len() - 1 implies spares(
            #[trigger] earlier[i],
            earlier[i + 1],
            key,
        ) by {
            assert(earlier[i] == states[i]);
        }
        lemma_spared(earlier, key);
        assert(spares(states[last], states[last + 1], key));
    }
}

/// A value that was written is what a read finds, whatever was asked of the
/// store in between, as long as that spared the key.
pub proof fn lemma_get_after_set(
    before: SyncStore,
    states: Seq<SyncStore>,
    after: SyncStore,
    key: String,
    value: String,
    limits: SyncLimits,
    set_ms: i64,
    set_prune_ms: i64,
    get_ms: i64,
    get_prune_ms: i64,
    written: SyncOutcome,
    found: SyncOutcome,
)
    requires
        states.len() > 0,
        performs(
            before,
            SyncRequest::SetKey { key, value },
            limits,
            set_ms,
            set_prune_ms,
            states[0],
            written,
        ),
        written.reply is Ok,
        forall|i: int|
            0 <= i < states.len() - 1 ==> spares(#[trigger] states[i], states[i + 1], key@),
        performs(
            states.last(),
            SyncRequest::Get { key },
            limits,
            get_ms,
            get_prune_ms,
            after,
            found,
        ),
        json_reading(value@) is Ok,
    ensures
        outcome_view(found.reply) == Ok::<Seq<char>, Seq<char>>(
            "{\"found\":true,\"value\":"@ + json_reading(value@)->Ok_0 + "}"@,
        ),
        after == states.last(),
{
    lemma_spared(states, key@);
}

/// What each request does: a read changes nothing and hands out what is stored; a write
/// leaves the value under its key, moves the version on and publishes the write last;
/// a deletion takes the key away, alone, and publishes that; a snapshot changes
/// nothing but the stale heartbeats it prunes.
pub proof fn lemma_what_each_request_does(
    before: SyncStore,
    req: SyncRequest,
    limits: SyncLimits,
    now_ms: i64,
    prune_ms: i64,
    after: SyncStore,
    out: SyncOutcome,
)
    requires
        performs(before, req, limits, now_ms, prune_ms, after, out),
    ensures
        after.version == before.version + out.changes@.len(),
        forall|i: int|
            0 <= i < out.changes@.len() ==> (#[trigger] out.changes@[i]).version == before.version + 1
                + i && (out.changes@[i].value is Some ==> out.changes@[i].op@ == "set"@) && (
            out.changes@[i].value is None ==> out.changes@[i].op@ == "del"@),
        req matches SyncRequest::Get { key } ==> after == before && out.changes@.len() == 0 && (
        !before.rows@.dom().contains(key@) ==> outcome_view(out.reply) == Ok::<
            Seq<char>,
            Seq<char>,
        >("{\"found\":false,\"value\":null}"@)) && (before.rows@.dom().contains(key@) && json_reading(
            before.rows@[key@].value@,
        ) is Ok ==> outcome_view(out.reply) == Ok::<Seq<char>, Seq<char>>(
            "{\"found\":true,\"value\":"@ + json_reading(before.rows@[key@].value@)->Ok_0 + "}"@,
        )),
        req matches SyncRequest::SetKey { key, value } ==> (out.reply is Ok <==> byte_len(value@)
            <= limits.max_value_bytes) && (out.reply is Err ==> after == before
            && out.changes@.len() == 0) && (out.reply is Ok ==> after.rows@.dom().contains(key@)
            && after.rows@[key@].value == value && after.rows@[key@].updated_at == now_ms
            && out.changes@.len() > 0 && out.changes@.last().key == key
            && out.changes@.last().value == Some(value) && out.reply->Ok_0@
            == "{\"ok\":true,\"version\":"@ + signed_decimal(after.version as int) + "}"@),
        req matches SyncRequest::Del { key } ==> !after.rows@.dom().contains(key@) && (
        forall|other: Seq<char>|
            other != key@ ==> (#[trigger] after.rows@.dom().contains(other)
                <==> before.rows@.dom().contains(other)) && (after.rows@.dom().contains(other)
                ==> after.rows@[other] == before.rows@[other])) && (out.changes@.len() == 1
            <==> before.rows@.dom().contains(key@)) && out.reply is Ok && out.reply->Ok_0@ == (
        if before.rows@.dom().contains(key@) {
            "{\"deleted\":true,\"version\":"@
        } else {
            "{\"deleted\":false,\"version\":"@
        }) + signed_decimal(after.version as int) + "}"@,
        req is Snapshot ==> after.rows@ == live_rows(
            before.rows@,
            limits.heartbeat_ttl_secs,
            prune_ms as int,
        ) && forall|i: int| 0 <= i < out.changes@.len() ==> (#[trigger] out.changes@[i]).value
            is None,
{
    if req is SetKey {
        let value = req->value;
        if out.reply is Ok {
            assert(outcome_view(out.reply)->Ok_0 == out.reply->Ok_0@);
        }
    }
    if req is Del {
        assert(outcome_view(out.reply)->Ok_0 == out.reply->Ok_0@);
    }
}

/// A snapshot lists everything that is stored, each key once and in order with its
/// value as it reads, and the version, unless it is longer than the cap.
pub proof fn lemma_what_a_snapshot_lists(
    version: int,
    rows: Map<Seq<char>, SyncRow>,
    max_response_bytes: nat,
    r: Result<Seq<char>, Seq<char>>,
)
    requires
        is_snapshot_reply(version, rows, max_response_bytes, r),
        forall|k: Seq<char>|
            rows.dom().contains(k) ==> json_reading((#[trigger] rows[k]).value@) is Ok,
    ensures
        exists|names: Seq<Seq<char>>| #[trigger]
            names.no_duplicates() && names.to_set() == rows.dom() && ({
                let t = "{\"state\":{"@ + joined(
                    Seq::new(
                        names.len(),
                        |i: int|
                            json_quoted(names[i]) + ":"@ + json_reading(
                                rows[names[i]].value@,
                            )->Ok_0,
                    ),
                    ","@,
                ) + "},\"version\":"@ + signed_decimal(version) + "}"@;
                (r is Ok <==> byte_len(t) <= max_response_bytes) && (r is Ok ==> r->Ok_0 == t)
            }),
{
    assert forall|k: Seq<char>| !#[trigger] is_corrupt(rows, k) by {
        if rows.dom().contains(k) {
            assert(json_reading(rows[k].value@) is Ok);
        }
    }
    let names = choose|names: Seq<Seq<char>>| #[trigger]
        sorted_names(names, rows.dom()) && r == capped_snapshot(
            snapshot_text(version, names, read_values(rows, names)),
            max_response_bytes,
        );
    assert(names.no_duplicates());
    assert(Seq::new(
        names.len(),
        |i: int| json_quoted(names[i]) + ":"@ + read_values(rows, names)[i],
    ) =~= Seq::new(
        names.len(),
        |i: int| json_quoted(names[i]) + ":"@ + json_reading(rows[names[i]].value@)->Ok_0,
    ));
}

/// Deleting a key that is not there changes nothing and publishes nothing: the
/// version stays in step with the state.
pub proof fn lemma_del_of_nothing(
    s0: SyncStore,
    s1: SyncStore,
    key: String,
    limits: SyncLimits,
    now_ms: i64,
    prune_ms: i64,
    out: SyncOutcome,
)
    requires
        performs(s0, SyncRequest::Del { key }, limits, now_ms, prune_ms, s1, out),
        !s0.rows@.dom().contains(key@),
    ensures
        s1.version == s0.version,
        s1.rows@ == s0.rows@,
        out.changes@.len() == 0,
{
}

/// Whoever holds the rows of a store and replays what was published since holds
/// the rows of the store after it, across any two operations.
pub proof fn lemma_replay_composes(s0: SyncStore, s1: SyncStore, s2: SyncStore, a: Seq<Delta>, b: Seq<
    Delta,
>)
    requires
        takes_on(s0, a, s1),
        takes_on(s1, b, s2),
    ensures
        takes_on(s0, a + b, s2),
    decreases b.len(),
{
    lemma_replay_concat(s0.rows@, a, b);
}

proof fn lemma_replay_concat(rows: Map<Seq<char>, SyncRow>, a: Seq<Delta>, b: Seq<Delta>)
    ensures
        replayed(rows, a + b) == replayed(replayed(rows, a), b),
    decreases b.len(),
{
    if b.len() == 0 {
        assert(a + b =~= a);
    } else {
        lemma_replay_concat(rows, a, b.drop_last());
        assert((a + b).drop_last() =~= a + b.drop_last());
        assert((a + b).last() == b.last());
    }
}

/// Heartbeats that are younger than the limit, and keys that are no heartbeats,
/// outlive pruning; with a limit of zero everything does.
pub proof fn lemma_prune_spares(
    rows: Map<Seq<char>, SyncRow>,
    ttl_secs: u64,
    now_ms: int,
    key: Seq<char>,
)
    requires
        rows.dom().contains(key),
        outlives(rows, ttl_secs, now_ms, key),
    ensures
        live_rows(rows, ttl_secs, now_ms).dom().contains(key),
        live_rows(rows, ttl_secs, now_ms)[key] == rows[key],
{
}

/// Pruning deletes every heartbeat that is too old, each once, as of now, and nothing
/// else.
pub proof fn lemma_what_pruning_deletes(
    deltas: Seq<Delta>,
    rows: Map<Seq<char>, SyncRow>,
    ttl_secs: u64,
    now_ms: i64,
    key: Seq<char>,
    i: int,
)
    requires
        prunes(deltas, rows, ttl_secs, now_ms),
    ensures
        0 <= i < deltas.len() ==> deltas[i].value is None && deltas[i].updated_at == now_ms
            && rows.dom().contains(deltas[i].key@),
        0 <= i < deltas.len() ==> ttl_secs > 0 && has_prefix(
            lower_ascii(deltas[i].key@),
            "heartbeat."@,
        ) && now_ms - rows[deltas[i].key@].updated_at > 1000 * ttl_secs,
        rows.dom().contains(key) && ttl_secs > 0 && has_prefix(lower_ascii(key), "heartbeat."@)
            && now_ms - rows[key].updated_at > 1000 * ttl_secs ==> exists|j: int|
            0 <= j < deltas.len() && (#[trigger] deltas[j]).key@ == key,
{
    let keys = delta_keys(deltas);
    let stale = stale_keys(rows, ttl_secs, now_ms as int);
    if 0 <= i < deltas.len() {
        assert(keys[i] == deltas[i].key@);
        assert(keys.to_set().contains(keys[i]));
        assert(stale.contains(keys[i]));
    }
    if rows.dom().contains(key) && ttl_secs > 0 && has_prefix(lower_ascii(key), "heartbeat."@)
        && now_ms - rows[key].updated_at > 1000 * ttl_secs {
        assert(stale.contains(key));
        assert(keys.to_set().contains(key));
        let j = keys.index_of(key);
        assert(deltas[j].key@ == key);
    }
}

/// A corrupt value makes a request for everything fail, with the complaint about a value
/// that is corrupt.
pub proof fn lemma_corrupt_values_are_reported(
    version: int,
    rows: Map<Seq<char>, SyncRow>,
    max_response_bytes: nat,
    r: Result<Seq<char>, Seq<char>>,
    key: Seq<char>,
)
    requires
        is_snapshot_reply(version, rows, max_response_bytes, r),
        rows.dom().contains(key),
        json_reading(rows[key].value@) is Err,
    ensures
        r is Err,
        exists|k: Seq<char>|
            rows.dom().contains(k) && json_reading((#[trigger] rows[k]).value@) is Err && r
                == stored_value(k, rows[k].value@),
{
    assert(is_corrupt(rows, key));
    let k = choose|k: Seq<char>| #[trigger]
        is_corrupt(rows, k) && r == stored_value(k, rows[k].value@);
    assert(rows.dom().contains(k) && json_reading(rows[k].value@) is Err);
}

/// A value is too large exactly where it has more bytes than are allowed, and the complaint
/// tells both numbers.
pub proof fn lemma_which_values_are_too_large(value: Seq<char>, max_value_bytes: nat)
    ensures
        value_error(value, max_value_bytes) is Some <==> byte_len(value) > max_value_bytes,
        value_error(value, max_value_bytes) matches Some(e) ==> e
            == "value exceeds max_value_bytes ("@ + decimal(byte_len(value)) + " > "@ + decimal(
            max_value_bytes,
        ) + ")"@,
{
}

} // verus!
