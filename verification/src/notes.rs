//! The `notes` plugin: notes kept as documents of the `database` plugin.

use crate::fields::{is_blank, lemma_trimmed_idempotent, trim, trimmed};
use crate::listing::{
    comes_before, id_num, id_value, lemma_listing_counts, lemma_lists, lemma_page, lists,
    order_kept, page_of, take_page,
};
use crate::number::{dec, decimal};
use crate::settings::{read_setting, setting};
use crate::sorting::Ranked;
use crate::text::{
    byte_count, byte_len, join2, join3, list_contains, opt_text, same, texts,
};
use vstd::prelude::*;

verus! {

pub const MAX_TITLE_BYTES: usize = 512;

/// 256 KiB: headroom under the database's own cap on values.
pub const MAX_BODY_BYTES: usize = 262_144;

pub const MAX_TAGS: usize = 32;

pub const MAX_TAG_BYTES: usize = 64;

pub const DEFAULT_LIMIT: usize = 100;

pub const MAX_LIMIT: usize = 500;

/// Runtime configuration.
#[derive(Debug, Clone, Copy, PartialEq, Eq, Structural)]
pub struct Config {
    /// Timeout of one call into the database.
    pub db_timeout_ms: u32,
}

impl Default for Config {
    fn default() -> (r: Config)
        ensures
            r.db_timeout_ms == 5000,
    {
        Config { db_timeout_ms: 5000 }
    }
}

impl Config {
    /// The configuration from the value of `NOTES_PLUGIN_DB_TIMEOUT_MS`.
    pub fn from_env(db_timeout_ms: &Option<String>) -> (r: Config)
        ensures
            r.db_timeout_ms == setting(*db_timeout_ms, u32::MAX as nat, 5000),
    {
        let timeout: u64 = read_setting(db_timeout_ms, u32::MAX as u64, 5000);
        Config { db_timeout_ms: timeout as u32 }
    }
}

// ---------------------------------------------------------------------------
// Tags
// ---------------------------------------------------------------------------

/// Tags trimmed, blank ones and repetitions dropped, or the first complaint.
pub open spec fn clean_tags(raw: Seq<Seq<char>>) -> Result<Seq<Seq<char>>, Seq<char>>
    decreases raw.len(),
{
    if raw.len() == 0 {
        Ok(Seq::empty())
    } else {
        match clean_tags(raw.drop_last()) {
            Err(e) => Err(e),
            Ok(out) => {
                let tag = trimmed(raw.last());
                if tag.len() == 0 {
                    Ok(out)
                } else if byte_len(tag) > MAX_TAG_BYTES {
                    Err(
                        "params.tags contains a tag longer than "@ + decimal(MAX_TAG_BYTES as nat)
                            + " bytes"@,
                    )
                } else if out.contains(tag) {
                    Ok(out)
                } else if out.len() == MAX_TAGS {
                    Err("params.tags exceeds "@ + decimal(MAX_TAGS as nat) + " unique tags"@)
                } else {
                    Ok(out.push(tag))
                }
            },
        }
    }
}

/// A list of texts, or an error, by contents.
pub open spec fn texts_outcome(r: Result<Vec<String>, String>) -> Result<
    Seq<Seq<char>>,
    Seq<char>,
> {
    match r {
        Ok(v) => Ok(texts(v@)),
        Err(e) => Err(e@),
    }
}

/// Trims tags, drops blank ones and repetitions, enforces the caps.
pub fn sanitize_tags(raw: &Vec<String>) -> (r: Result<Vec<String>, String>)
    ensures
        texts_outcome(r) == clean_tags(texts(raw@)),
{
    let mut out: Vec<String> = Vec::new();
    let mut i: usize = 0;
    assert(texts(raw@).take(0) =~= Seq::empty());
    assert(texts(out@) =~= Seq::empty());
    while i < raw.len()
        invariant
            i <= raw.len(),
            clean_tags(texts(raw@).take(i as int)) == Ok::<Seq<Seq<char>>, Seq<char>>(texts(out@)),
        decreases raw.len() - i,
    {
        let ghost now = texts(raw@).take(i + 1);
        assert(now.drop_last() =~= texts(raw@).take(i as int));
        assert(now.last() == raw@[i as int]@);
        let tag = trim(raw[i].as_str());
        if !tag.as_str().is_empty() {
            if byte_count(tag.as_str()) > MAX_TAG_BYTES {
                proof {
                    lemma_tag_error_stays(texts(raw@), i + 1);
                }
                return Err(
                    join3(
                        "params.tags contains a tag longer than ",
                        dec(MAX_TAG_BYTES as u64).as_str(),
                        " bytes",
                    ),
                );
            }
            if !list_contains(&out, tag.as_str()) {
                if out.len() == MAX_TAGS {
                    proof {
                        lemma_tag_error_stays(texts(raw@), i + 1);
                    }
                    return Err(
                        join3(
                            "params.tags exceeds ",
                            dec(MAX_TAGS as u64).as_str(),
                            " unique tags",
                        ),
                    );
                }
                let ghost before = texts(out@);
                out.push(tag);
                assert(texts(out@) =~= before.push(tag@));
            }
        }
        i += 1;
    }
    assert(texts(raw@).take(raw@.len() as int) =~= texts(raw@));
    Ok(out)
}

proof fn lemma_tag_error_stays(raw: Seq<Seq<char>>, k: int)
    requires
        0 <= k <= raw.len(),
        clean_tags(raw.take(k)) is Err,
    ensures
        clean_tags(raw) == clean_tags(raw.take(k)),
    decreases raw.len(),
{
    if k == raw.len() {
        assert(raw.take(k) =~= raw);
    } else {
        assert(raw.drop_last().take(k) =~= raw.take(k));
        lemma_tag_error_stays(raw.drop_last(), k);
    }
}

/// Cleaned tags are inside the caps, trimmed, not blank, and all different.
pub proof fn lemma_clean_tags(raw: Seq<Seq<char>>)
    requires
        clean_tags(raw) is Ok,
    ensures
        clean_tags(raw)->Ok_0.len() <= MAX_TAGS,
        clean_tags(raw)->Ok_0.no_duplicates(),
        forall|i: int|
            0 <= i < clean_tags(raw)->Ok_0.len() ==> ok_tag(#[trigger] clean_tags(raw)->Ok_0[i]),
    decreases raw.len(),
{
    if raw.len() > 0 {
        lemma_clean_tags(raw.drop_last());
        lemma_trimmed_idempotent(raw.last());
        let before = clean_tags(raw.drop_last())->Ok_0;
        let all = clean_tags(raw)->Ok_0;
        let tag = trimmed(raw.last());
        if all == before.push(tag) && all != before {
            assert forall|i: int, j: int|
                0 <= i < all.len() && 0 <= j < all.len() && i != j implies all[i] != all[j] by {
                if i < before.len() {
                }
                if j < before.len() {
                }
            }
            assert forall|i: int| 0 <= i < all.len() implies ok_tag(#[trigger] all[i]) by {
                if i < before.len() {
                }
            }
        }
    }
}

/// Cleaning keeps every tag that is not blank, trimmed, in the order in which it comes
/// first, and makes up none. It complains exactly about a tag of more than 64 bytes
/// and about more than 32 different ones.
pub proof fn lemma_cleaning_keeps_tags(raw: Seq<Seq<char>>, next: Seq<char>)
    requires
        clean_tags(raw) is Ok,
    ensures
        forall|i: int|
            0 <= i < raw.len() && trimmed(#[trigger] raw[i]).len() > 0 ==> clean_tags(
                raw,
            )->Ok_0.contains(trimmed(raw[i])),
        forall|k: int|
            0 <= k < clean_tags(raw)->Ok_0.len() ==> exists|i: int|
                0 <= i < raw.len() && trimmed(#[trigger] raw[i]) == #[trigger] clean_tags(
                    raw,
                )->Ok_0[k],
        trimmed(next).len() == 0 || clean_tags(raw)->Ok_0.contains(trimmed(next)) && byte_len(
            trimmed(next),
        ) <= 64 ==> clean_tags(raw.push(next)) == clean_tags(raw),
        trimmed(next).len() > 0 && byte_len(trimmed(next)) > 64 ==> clean_tags(raw.push(next))
            is Err,
        trimmed(next).len() > 0 && byte_len(trimmed(next)) <= 64 && !clean_tags(
            raw,
        )->Ok_0.contains(trimmed(next)) ==> match clean_tags(raw.push(next)) {
            Ok(out) => clean_tags(raw)->Ok_0.len() < 32 && out == clean_tags(raw)->Ok_0.push(
                trimmed(next),
            ),
            Err(_) => clean_tags(raw)->Ok_0.len() >= 32,
        },
    decreases raw.len(),
{
    assert(raw.push(next).drop_last() =~= raw);
    lemma_clean_tags(raw);
    if raw.len() > 0 {
        let front = raw.drop_last();
        lemma_cleaning_keeps_tags(front, raw.last());
        assert(front.push(raw.last()) =~= raw);
        let before = clean_tags(front)->Ok_0;
        let out = clean_tags(raw)->Ok_0;
        let tag = trimmed(raw.last());
        assert forall|i: int| 0 <= i < raw.len() && trimmed(#[trigger] raw[i]).len()
            > 0 implies out.contains(trimmed(raw[i])) by {
            if i < front.len() {
                assert(front[i] == raw[i]);
                let k = before.index_of(trimmed(raw[i]));
                assert(out[k] == trimmed(raw[i]));
            } else if !before.contains(tag) {
                assert(out[before.len() as int] == tag);
            }
        }
        assert forall|k: int| 0 <= k < out.len() implies exists|i: int|
            0 <= i < raw.len() && trimmed(#[trigger] raw[i]) == #[trigger] out[k] by {
            if k < before.len() {
                assert(out[k] == before[k]);
                let i = choose|i: int|
                    0 <= i < front.len() && trimmed(#[trigger] front[i]) == before[k];
                assert(raw[i] == front[i]);
            } else {
                assert(trimmed(raw[raw.len() - 1]) == out[k]);
            }
        }
    }
}

/// Whether a tag needs no cleaning.
pub open spec fn ok_tag(t: Seq<char>) -> bool {
    t.len() > 0 && trimmed(t) == t && byte_len(t) <= MAX_TAG_BYTES
}

/// Cleaning cleaned tags changes nothing.
pub proof fn lemma_clean_tags_idempotent(raw: Seq<Seq<char>>)
    requires
        clean_tags(raw) is Ok,
    ensures
        clean_tags(clean_tags(raw)->Ok_0) == clean_tags(raw),
{
    lemma_clean_tags(raw);
    lemma_clean_is_fixed(clean_tags(raw)->Ok_0);
}

proof fn lemma_clean_is_fixed(tags: Seq<Seq<char>>)
    requires
        tags.len() <= MAX_TAGS,
        tags.no_duplicates(),
        forall|i: int| 0 <= i < tags.len() ==> ok_tag(#[trigger] tags[i]),
    ensures
        clean_tags(tags) == Ok::<Seq<Seq<char>>, Seq<char>>(tags),
    decreases tags.len(),
{
    if tags.len() > 0 {
        lemma_clean_is_fixed(tags.drop_last());
        assert(ok_tag(tags[tags.len() - 1]));
        assert(!tags.drop_last().contains(tags.last())) by {
            if tags.drop_last().contains(tags.last()) {
                let k = tags.drop_last().index_of(tags.last());
                assert(tags.drop_last()[k] == tags.last());
                assert(tags[k] == tags[tags.len() - 1]);
            }
        }
        assert(tags.drop_last().push(tags.last()) =~= tags);
    } else {
        assert(tags =~= Seq::empty());
    }
}

// ---------------------------------------------------------------------------
// Requests
// ---------------------------------------------------------------------------

/// A validated request.
#[derive(Debug)]
pub enum NotesRequest {
    Create { title: String, body: String, tags: Vec<String> },
    Get { id: String },
    List { tag: Option<String>, limit: usize, offset: usize },
    Update {
        id: String,
        title: Option<String>,
        body: Option<String>,
        tags: Option<Vec<String>>,
    },
    Delete { id: String },
}

/// The shape that the parameters of an action have.
#[derive(Debug, Clone, Copy, PartialEq, Eq, Structural)]
pub enum NotesShape {
    Create,
    Id,
    List,
    Update,
}

/// Decoded parameters, before validation.
#[derive(Debug)]
pub enum RawNotesParams {
    Create { title: String, body: String, tags: Vec<String> },
    Id { id: String },
    List { tag: Option<String>, limit: Option<usize>, offset: Option<usize> },
    Update {
        id: String,
        title: Option<String>,
        body: Option<String>,
        tags: Option<Vec<String>>,
    },
}

/// The shape of decoded parameters.
pub open spec fn shape_of(raw: RawNotesParams) -> NotesShape {
    match raw {
        RawNotesParams::Create { .. } => NotesShape::Create,
        RawNotesParams::Id { .. } => NotesShape::Id,
        RawNotesParams::List { .. } => NotesShape::List,
        RawNotesParams::Update { .. } => NotesShape::Update,
    }
}

/// The shape that an action asks for; none where nobody serves it.
pub open spec fn asked_shape(action: Seq<char>) -> Option<NotesShape> {
    if action == "note_create"@ {
        Some(NotesShape::Create)
    } else if action == "note_get"@ || action == "note_delete"@ {
        Some(NotesShape::Id)
    } else if action == "note_list"@ {
        Some(NotesShape::List)
    } else if action == "note_update"@ {
        Some(NotesShape::Update)
    } else {
        None
    }
}

/// The shape to decode the parameters of `action` into.
pub fn params_shape(action: &str) -> (r: Option<NotesShape>)
    ensures
        r == asked_shape(action@),
{
    if same(action, "note_create") {
        Some(NotesShape::Create)
    } else if same(action, "note_get") || same(action, "note_delete") {
        Some(NotesShape::Id)
    } else if same(action, "note_list") {
        Some(NotesShape::List)
    } else if same(action, "note_update") {
        Some(NotesShape::Update)
    } else {
        None
    }
}

/// Creating, listing and updating take parameters of their own; getting and deleting
/// take an id. Nothing else is served.
pub proof fn lemma_what_each_action_takes(action: Seq<char>)
    ensures
        action == "note_create"@ <==> asked_shape(action) == Some(NotesShape::Create),
        action == "note_get"@ || action == "note_delete"@ <==> asked_shape(action) == Some(
            NotesShape::Id,
        ),
        action == "note_list"@ <==> asked_shape(action) == Some(NotesShape::List),
        action == "note_update"@ <==> asked_shape(action) == Some(NotesShape::Update),
{
    reveal_strlit("note_create");
    reveal_strlit("note_get");
    reveal_strlit("note_delete");
    reveal_strlit("note_list");
    reveal_strlit("note_update");
    assert("note_create"@.len() == 11 && "note_get"@.len() == 8 && "note_delete"@.len() == 11
        && "note_list"@.len() == 9 && "note_update"@.len() == 11);
    assert("note_create"@[5] == 'c' && "note_delete"@[5] == 'd' && "note_update"@[5] == 'u');
}

/// What the parameters of an action should look like.
pub open spec fn expected_fields(shape: NotesShape) -> Seq<char> {
    match shape {
        NotesShape::Create => "{title?, body?, tags?}"@,
        NotesShape::Id => "{id}"@,
        NotesShape::List => "{tag?, limit?, offset?}"@,
        NotesShape::Update => "{id, title?, body?, tags?}"@,
    }
}

/// What is wrong with the size of a field, if anything.
pub open spec fn size_error(field: Seq<char>, value: Seq<char>, max: nat) -> Option<Seq<char>> {
    if byte_len(value) > max {
        Some(
            "params."@ + field + " exceeds "@ + decimal(max) + " bytes (got "@ + decimal(
                byte_len(value),
            ) + ")"@,
        )
    } else {
        None
    }
}

/// Checks the size of a field.
pub fn check_size(field: &str, value: &str, max: usize) -> (r: Result<(), String>)
    ensures
        match r {
            Ok(_) => size_error(field@, value@, max as nat) is None,
            Err(e) => size_error(field@, value@, max as nat) == Some(e@),
        },
{
    let n: usize = byte_count(value);
    if n > max {
        let mut e = "params.".to_owned();
        e.append(field);
        e.append(" exceeds ");
        e.append(dec(max as u64).as_str());
        e.append(" bytes (got ");
        e.append(dec(n as u64).as_str());
        e.append(")");
        return Err(e);
    }
    Ok(())
}

/// The first of two complaints.
pub open spec fn first_error(a: Option<Seq<char>>, b: Option<Seq<char>>) -> Option<Seq<char>> {
    match a {
        Some(e) => Some(e),
        None => b,
    }
}

/// What is wrong with an optional field, if anything.
pub open spec fn opt_size_error(field: Seq<char>, value: Option<String>, max: nat) -> Option<
    Seq<char>,
> {
    match value {
        Some(v) => size_error(field, v@, max),
        None => None,
    }
}

/// What is wrong with a list of tags, if anything.
pub open spec fn tags_error(tags: Seq<String>) -> Option<Seq<char>> {
    match clean_tags(texts(tags)) {
        Ok(_) => None,
        Err(e) => Some(e),
    }
}

/// What is wrong with decoded parameters, if anything.
pub open spec fn raw_error(raw: RawNotesParams) -> Option<Seq<char>> {
    match raw {
        RawNotesParams::Create { title, body, tags } => if trimmed(title@).len() == 0 && trimmed(
            body@,
        ).len() == 0 {
            Some("note_create requires a non-empty title or body"@)
        } else {
            first_error(
                size_error("title"@, title@, MAX_TITLE_BYTES as nat),
                first_error(
                    size_error("body"@, body@, MAX_BODY_BYTES as nat),
                    tags_error(tags@),
                ),
            )
        },
        RawNotesParams::Id { id } => if id@.len() == 0 {
            Some("params.id must be a non-empty string"@)
        } else {
            None
        },
        RawNotesParams::List { tag, limit, offset } => if limit is Some && (limit->0 == 0
            || limit->0 > MAX_LIMIT) {
            Some("params.limit must be between 1 and "@ + decimal(MAX_LIMIT as nat))
        } else {
            None
        },
        RawNotesParams::Update { id, title, body, tags } => if id@.len() == 0 {
            Some("params.id must be a non-empty string"@)
        } else if title is None && body is None && tags is None {
            Some("note_update requires at least one of title, body, tags"@)
        } else {
            first_error(
                opt_size_error("title"@, title, MAX_TITLE_BYTES as nat),
                first_error(
                    opt_size_error("body"@, body, MAX_BODY_BYTES as nat),
                    match tags {
                        Some(t) => tags_error(t@),
                        None => None,
                    },
                ),
            )
        },
    }
}

/// What is wrong with a request, if anything.
pub open spec fn notes_error(
    action: Seq<char>,
    parsed: Result<RawNotesParams, Seq<char>>,
) -> Option<Seq<char>> {
    match asked_shape(action) {
        None => Some("unknown action: "@ + action),
        Some(shape) => match parsed {
            Err(e) => Some(
                "invalid params for "@ + action + ", expected "@ + expected_fields(shape) + ": "@
                    + e,
            ),
            Ok(raw) => raw_error(raw),
        },
    }
}

/// A note is accepted with a title or a body that is not blank, a title of at most 512
/// bytes and a body of at most 256 KiB; a change needs an id and something to
/// change; a page holds 1 to 500 notes.
pub proof fn lemma_what_is_accepted(raw: RawNotesParams)
    ensures
        raw matches RawNotesParams::Create { title, body, tags } ==> (raw_error(raw) is None <==> (
        trimmed(title@).len() > 0 || trimmed(body@).len() > 0) && byte_len(title@) <= 512
            && byte_len(body@) <= 256 * 1024 && clean_tags(texts(tags@)) is Ok),
        raw matches RawNotesParams::Id { id } ==> (raw_error(raw) is None <==> id@.len() > 0),
        raw matches RawNotesParams::List { tag, limit, offset } ==> (raw_error(raw) is None
            <==> limit is None || 1 <= limit->0 <= 500),
        raw matches RawNotesParams::Update { id, title, body, tags } ==> (raw_error(raw) is None
            <==> id@.len() > 0 && (title is Some || body is Some || tags is Some) && (title is Some
            ==> byte_len(title->0@) <= 512) && (body is Some ==> byte_len(body->0@) <= 256 * 1024)
            && (tags is Some ==> clean_tags(texts(tags->0@)) is Ok)),
{
}

/// What the caller asks for is what is done: a note is created and changed with the
/// given title and body and the cleaned tags, and listings take 100 notes from the
/// first one where nothing else is asked for.
pub proof fn lemma_what_is_asked_for_is_done(
    action: Seq<char>,
    raw: RawNotesParams,
    req: NotesRequest,
)
    requires
        notes_accepted(action, raw, req),
    ensures
        raw matches RawNotesParams::Create { title, body, tags } ==> (req
            matches NotesRequest::Create { title: t, body: b, tags: g } && t == title && b == body
            && clean_tags(texts(tags@)) == Ok::<Seq<Seq<char>>, Seq<char>>(texts(g@))),
        raw matches RawNotesParams::Id { id } && action == "note_get"@ ==> req
            == (NotesRequest::Get { id: raw->Id_id }),
        raw matches RawNotesParams::Id { id } && action == "note_delete"@ ==> req
            == (NotesRequest::Delete { id: raw->Id_id }),
        raw matches RawNotesParams::List { tag, limit, offset } ==> (req
            matches NotesRequest::List { tag: t, limit: l, offset: o } && l == (if limit is Some {
            limit->0
        } else {
            100
        }) && o == (if offset is Some {
            offset->0
        } else {
            0
        }) && (t is Some <==> tag is Some && trimmed(tag->0@).len() > 0) && (t is Some ==> t->0@
            == trimmed(tag->0@))),
        raw matches RawNotesParams::Update { id, title, body, tags } ==> (req
            matches NotesRequest::Update { id: i, title: t, body: b, tags: g } && i == id && t
            == title && b == body && (g is Some <==> tags is Some) && (tags is Some ==> clean_tags(
            texts(tags->0@),
        ) == Ok::<Seq<Seq<char>>, Seq<char>>(texts(g->0@)))),
{
    reveal_strlit("note_get");
    reveal_strlit("note_delete");
    assert("note_get"@.len() == 8 && "note_delete"@.len() == 11);
}

/// The tag that a listing is narrowed to: trimmed, none where it is blank.
pub open spec fn tag_filter(tag: Option<String>) -> Option<Seq<char>> {
    match tag {
        Some(t) => if trimmed(t@).len() == 0 {
            None
        } else {
            Some(trimmed(t@))
        },
        None => None,
    }
}

/// Whether `req` is the request that the parameters ask for.
pub open spec fn notes_accepted(action: Seq<char>, raw: RawNotesParams, req: NotesRequest) -> bool {
    match raw {
        RawNotesParams::Create { title, body, tags } => {
            &&& req matches NotesRequest::Create { title: t, body: b, tags: g }
            &&& t == title
            &&& b == body
            &&& clean_tags(texts(tags@)) == Ok::<Seq<Seq<char>>, Seq<char>>(texts(g@))
        },
        RawNotesParams::Id { id } => if action == "note_get"@ {
            req == NotesRequest::Get { id }
        } else {
            req == NotesRequest::Delete { id }
        },
        RawNotesParams::List { tag, limit, offset } => {
            &&& req matches NotesRequest::List { tag: t, limit: l, offset: o }
            &&& opt_text(t) == tag_filter(tag)
            &&& l == limit.unwrap_or(DEFAULT_LIMIT)
            &&& o == offset.unwrap_or(0)
        },
        RawNotesParams::Update { id, title, body, tags } => {
            &&& req matches NotesRequest::Update { id: i, title: t, body: b, tags: g }
            &&& i == id
            &&& t == title
            &&& b == body
            &&& match tags {
                Some(v) => g is Some && clean_tags(texts(v@)) == Ok::<Seq<Seq<char>>, Seq<char>>(
                    texts(g->0@),
                ),
                None => g is None,
            }
        },
    }
}

fn invalid_params(action: &str, expected: &str, e: &str) -> (r: String)
    ensures
        r@ == "invalid params for "@ + action@ + ", expected "@ + expected@ + ": "@ + e@,
{
    let mut out = "invalid params for ".to_owned();
    out.append(action);
    out.append(", expected ");
    out.append(expected);
    out.append(": ");
    out.append(e);
    out
}

/// Validates the parameters of `action`: `parsed` is what decoding them into
/// the shape of the action gave.
pub fn parse_request(action: &str, parsed: Result<RawNotesParams, String>) -> (r: Result<
    NotesRequest,
    String,
>)
    requires
        parsed is Ok && asked_shape(action@) is Some ==> asked_shape(action@) == Some(
            shape_of(parsed->Ok_0),
        ),
    ensures
        match r {
            Ok(req) => notes_error(action@, crate::text::outcome(parsed)) is None && parsed is Ok
                && notes_accepted(action@, parsed->Ok_0, req),
            Err(e) => notes_error(action@, crate::text::outcome(parsed)) == Some(e@),
        },
{
    let shape = match params_shape(action) {
        Some(s) => s,
        None => {
            return Err(join2("unknown action: ", action));
        },
    };
    let raw = match parsed {
        Ok(raw) => raw,
        Err(e) => {
            let expected = match shape {
                NotesShape::Create => "{title?, body?, tags?}",
                NotesShape::Id => "{id}",
                NotesShape::List => "{tag?, limit?, offset?}",
                NotesShape::Update => "{id, title?, body?, tags?}",
            };
            return Err(invalid_params(action, expected, e.as_str()));
        },
    };
    match raw {
        RawNotesParams::Create { title, body, tags } => {
            if is_blank(title.as_str()) && is_blank(body.as_str()) {
                return Err("note_create requires a non-empty title or body".to_owned());
            }
            match check_size("title", title.as_str(), MAX_TITLE_BYTES) {
                Ok(_) => {},
                Err(e) => {
                    return Err(e);
                },
            }
            match check_size("body", body.as_str(), MAX_BODY_BYTES) {
                Ok(_) => {},
                Err(e) => {
                    return Err(e);
                },
            }
            match sanitize_tags(&tags) {
                Ok(tags) => Ok(NotesRequest::Create { title, body, tags }),
                Err(e) => Err(e),
            }
        },
        RawNotesParams::Id { id } => {
            if id.as_str().is_empty() {
                return Err("params.id must be a non-empty string".to_owned());
            }
            if same(action, "note_get") {
                Ok(NotesRequest::Get { id })
            } else {
                Ok(NotesRequest::Delete { id })
            }
        },
        RawNotesParams::List { tag, limit, offset } => {
            let limit: usize = limit.unwrap_or(DEFAULT_LIMIT);
            if limit == 0 || limit > MAX_LIMIT {
                return Err(
                    join2("params.limit must be between 1 and ", dec(MAX_LIMIT as u64).as_str()),
                );
            }
            let tag = match tag {
                Some(t) => {
                    let t = trim(t.as_str());
                    if t.as_str().is_empty() {
                        None
                    } else {
                        Some(t)
                    }
                },
                None => None,
            };
            Ok(NotesRequest::List { tag, limit, offset: offset.unwrap_or(0) })
        },
        RawNotesParams::Update { id, title, body, tags } => {
            if id.as_str().is_empty() {
                return Err("params.id must be a non-empty string".to_owned());
            }
            if title.is_none() && body.is_none() && tags.is_none() {
                return Err("note_update requires at least one of title, body, tags".to_owned());
            }
            if let Some(t) = &title {
                match check_size("title", t.as_str(), MAX_TITLE_BYTES) {
                    Ok(_) => {},
                    Err(e) => {
                        return Err(e);
                    },
                }
            }
            if let Some(b) = &body {
                match check_size("body", b.as_str(), MAX_BODY_BYTES) {
                    Ok(_) => {},
                    Err(e) => {
                        return Err(e);
                    },
                }
            }
            let tags = match tags {
                Some(raw) => match sanitize_tags(&raw) {
                    Ok(t) => Some(t),
                    Err(e) => {
                        return Err(e);
                    },
                },
                None => None,
            };
            Ok(NotesRequest::Update { id, title, body, tags })
        },
    }
}

// ---------------------------------------------------------------------------
// Notes
// ---------------------------------------------------------------------------

/// One note.
#[derive(Debug, PartialEq, Eq)]
pub struct Note {
    pub id: String,
    pub title: String,
    pub body: String,
    pub tags: Vec<String>,
    pub created_at_ms: i64,
    pub updated_at_ms: i64,
}

/// What a listing of notes is sorted by: the latest change first, then the
/// larger id.
#[derive(Debug, Clone, Copy, PartialEq, Eq, Structural)]
pub struct NoteKey {
    pub updated_at_ms: i64,
    pub id: u64,
}

impl Ranked for NoteKey {
    open spec fn before_or_level(&self, other: &Self) -> bool {
        self.updated_at_ms > other.updated_at_ms || (self.updated_at_ms == other.updated_at_ms
            && self.id >= other.id)
    }

    fn not_after(&self, other: &Self) -> (r: bool) {
        self.updated_at_ms > other.updated_at_ms || (self.updated_at_ms == other.updated_at_ms
            && self.id >= other.id)
    }

    proof fn rank_total(a: &Self, b: &Self) {
    }

    proof fn rank_transitive(a: &Self, b: &Self, c: &Self) {
    }
}

/// Whether a note is listed under `tag` (any note where none is asked for).
pub open spec fn has_tag(note: Note, tag: Option<Seq<char>>) -> bool {
    match tag {
        Some(t) => texts(note.tags@).contains(t),
        None => true,
    }
}

pub open spec fn note_key(note: Note) -> NoteKey {
    NoteKey { updated_at_ms: note.updated_at_ms, id: id_value(note.id@) }
}

/// Whether `q` lists the notes under `tag`: the latest change first, ties by
/// the larger id.
pub open spec fn is_note_listing(
    notes: Seq<Note>,
    tag: Option<Seq<char>>,
    q: Seq<usize>,
) -> bool {
    lists(notes.len(), |i: int| has_tag(notes[i], tag), |i: int| note_key(notes[i]), q)
}

/// Whether a note carries `tag`, where one is given.
pub open spec fn asked_for(note: Note, tag: Option<String>) -> bool {
    tag matches Some(t) ==> texts(note.tags@).contains(t@)
}

/// A listing of notes names those that carry the asked tag, all of them and no others,
/// each once; the latest change comes first, and of two that changed together the
/// one with the larger id.
pub proof fn lemma_listed_notes_carry_the_tag(
    notes: Seq<Note>,
    tag: Option<String>,
    q: Seq<usize>,
)
    requires
        is_note_listing(notes, opt_text(tag), q),
    ensures
        forall|a: int|
            #![trigger q[a]]
            0 <= a < q.len() ==> {
                &&& q[a] < notes.len()
                &&& tag is Some ==> texts(notes[q[a] as int].tags@).contains(tag->0@)
            },
        q.no_duplicates(),
        q.len() == Set::new(|j: usize| j < notes.len() && asked_for(notes[j as int], tag)).len(),
        forall|j: usize|
            j < notes.len() && (tag is None || texts(notes[j as int].tags@).contains(tag->0@))
                ==> #[trigger] q.contains(j),
        forall|a: int, b: int|
            #![trigger q[a], q[b]]
            0 <= a < b < q.len() ==> {
                let (x, y) = (notes[q[a] as int], notes[q[b] as int]);
                x.updated_at_ms > y.updated_at_ms || x.updated_at_ms == y.updated_at_ms && id_value(
                    x.id@,
                ) >= id_value(y.id@)
            },
{
    let keep = |i: int| has_tag(notes[i], opt_text(tag));
    let key = |i: int| note_key(notes[i]);
    lemma_listing_counts(notes.len(), keep, key, q);
    assert forall|note: Note| #[trigger]
        has_tag(note, opt_text(tag)) == asked_for(note, tag) by {}
    let kept = Set::new(|j: usize| j < notes.len() && keep(j as int));
    let asked = Set::new(|j: usize| j < notes.len() && asked_for(notes[j as int], tag));
    assert(kept =~= asked);
    assert forall|a: int| #![trigger q[a]] 0 <= a < q.len() implies q[a] < notes.len() && asked_for(
        notes[q[a] as int],
        tag,
    ) by {
        assert(keep(q[a] as int));
    }
    assert forall|j: usize| j < notes.len() && asked_for(notes[j as int], tag) implies
        #[trigger] q.contains(j) by {
        assert(keep(j as int));
    }
    assert forall|a: int, b: int| #![trigger q[a], q[b]] 0 <= a < b < q.len() implies {
        let (x, y) = (notes[q[a] as int], notes[q[b] as int]);
        x.updated_at_ms > y.updated_at_ms || x.updated_at_ms == y.updated_at_ms && id_value(x.id@)
            >= id_value(y.id@)
    } by {
        assert(comes_before(key, q[a], q[b]));
    }
}

/// The page of notes under `tag`, as positions in `notes`, and how many there
/// are on all pages.
pub fn list_notes(notes: &Vec<Note>, tag: &Option<String>, limit: usize, offset: usize) -> (r: (
    Vec<usize>,
    usize,
))
    ensures
        exists|q: Seq<usize>|
            is_note_listing(notes@, opt_text(*tag), q) && r.0@ == page_of(
                q,
                offset as nat,
                limit as nat,
            ) && r.1 == q.len(),
        forall|a: int|
            #![trigger r.0@[a]]
            0 <= a < r.0@.len() ==> {
                &&& r.0@[a] < notes@.len()
                &&& tag is Some ==> texts(notes@[r.0@[a] as int].tags@).contains(tag->0@)
            },
        forall|a: int, b: int|
            #![trigger r.0@[a], r.0@[b]]
            0 <= a < b < r.0@.len() ==> r.0@[a] != r.0@[b] && notes@[r.0@[a] as int].updated_at_ms
                >= notes@[r.0@[b] as int].updated_at_ms,
        r.1 == Set::new(|j: usize| j < notes@.len() && asked_for(notes@[j as int], *tag)).len(),
        r.0@.len() == if offset >= r.1 {
            0
        } else if limit <= r.1 - offset {
            limit as int
        } else {
            r.1 - offset
        },
        offset == 0 && limit >= r.1 ==> forall|j: usize|
            j < notes@.len() && (tag is None || texts(notes@[j as int].tags@).contains(tag->0@))
                ==> #[trigger] r.0@.contains(j),
{
    let mut kept: Vec<usize> = Vec::new();
    let mut keys: Vec<NoteKey> = Vec::new();
    let ghost keep = |i: int| has_tag(notes@[i], opt_text(*tag));
    let ghost key = |i: int| note_key(notes@[i]);
    let mut i: usize = 0;
    while i < notes.len()
        invariant
            i <= notes.len(),
            keep == |i: int| has_tag(notes@[i], opt_text(*tag)),
            key == |i: int| note_key(notes@[i]),
            kept@.len() == keys@.len(),
            forall|a: int| 0 <= a < kept@.len() ==> (#[trigger] kept@[a]) < i && keep(
                kept@[a] as int,
            ),
            forall|a: int, b: int|
                0 <= a < b < kept@.len() ==> (#[trigger] kept@[a]) < (#[trigger] kept@[b]),
            forall|j: usize| j < i && keep(j as int) ==> #[trigger] kept@.contains(j),
            forall|a: int| 0 <= a < kept@.len() ==> (#[trigger] keys@[a]) == key(kept@[a] as int),
        decreases notes.len() - i,
    {
        let note = &notes[i];
        let matching = match tag {
            Some(t) => list_contains(&note.tags, t.as_str()),
            None => true,
        };
        assert(matching == keep(i as int));
        let ghost before = kept@;
        if matching {
            kept.push(i);
            keys.push(NoteKey { updated_at_ms: note.updated_at_ms, id: id_num(note.id.as_str()) });
            assert forall|j: usize| j < i + 1 && keep(j as int) implies #[trigger] kept@.contains(
                j,
            ) by {
                if j < i {
                    assert(before.contains(j));
                    let k = before.index_of(j);
                    assert(kept@[k] == j);
                } else {
                    assert(kept@[before.len() as int] == j);
                }
            }
        }
        i += 1;
    }
    let q = order_kept(&kept, &keys);
    proof {
        lemma_lists(notes@.len(), keep, key, kept@, keys@, q@);
    }
    proof {
        lemma_listed_notes_carry_the_tag(notes@, *tag, q@);
        lemma_page(q@, offset as nat, limit as nat);
    }
    let page = take_page(&q, offset, limit);
    assert(offset == 0 && limit >= q@.len() ==> page@ =~= q@);
    (page, q.len())
}

/// The note after a change at `now_ms`, or why it is refused.
pub fn update_note(
    note: Note,
    title: Option<String>,
    body: Option<String>,
    tags: Option<Vec<String>>,
    now_ms: i64,
) -> (r: Result<Note, String>)
    ensures
        ({
            let new_title = title.unwrap_or(note.title);
            let new_body = body.unwrap_or(note.body);
            if trimmed(new_title@).len() == 0 && trimmed(new_body@).len() == 0 {
                r matches Err(e) && e@ == "note must keep a non-empty title or body"@
            } else {
                r == Ok::<Note, String>(
                    (Note {
                        id: note.id,
                        title: new_title,
                        body: new_body,
                        tags: tags.unwrap_or(note.tags),
                        created_at_ms: note.created_at_ms,
                        updated_at_ms: now_ms,
                    }),
                )
            }
        }),
{
    let title = title.unwrap_or(note.title);
    let body = body.unwrap_or(note.body);
    let tags = tags.unwrap_or(note.tags);
    if is_blank(title.as_str()) && is_blank(body.as_str()) {
        return Err("note must keep a non-empty title or body".to_owned());
    }
    Ok(
        Note {
            id: note.id,
            title,
            body,
            tags,
            created_at_ms: note.created_at_ms,
            updated_at_ms: now_ms,
        },
    )
}

// ---------------------------------------------------------------------------
// Actions
// ---------------------------------------------------------------------------

/// A change event to publish after the reply.
#[derive(Debug, PartialEq, Eq)]
pub struct ChangeEvent {
    pub op: &'static str,
    pub id: String,
}

/// What a handled action replies with.
#[derive(Debug, PartialEq, Eq)]
pub enum NotesData {
    Created { note: Note },
    Got { note: Option<Note> },
    /// The notes at the positions `page` of `notes`.
    Listed { notes: Vec<Note>, page: Vec<usize>, total: usize },
    Updated { note: Note },
    Deleted { deleted: bool },
}

/// One handled action.
#[derive(Debug, PartialEq, Eq)]
pub struct ActionResult {
    pub data: NotesData,
    pub event: Option<ChangeEvent>,
}

/// An action under way: what the storage is asked for next, and what is kept
/// until it answers.
#[derive(Debug)]
pub enum NotesStep {
    /// Ask for a fresh id.
    AwaitId { title: String, body: String, tags: Vec<String> },
    /// Ask for the note `id`, to hand it out.
    AwaitNote { id: String },
    /// Ask for all notes.
    AwaitAll { tag: Option<String>, limit: usize, offset: usize },
    /// Ask for the note `id`, to change it.
    AwaitTarget {
        id: String,
        title: Option<String>,
        body: Option<String>,
        tags: Option<Vec<String>>,
    },
    /// Store `note`.
    AwaitStored { note: Note, created: bool },
    /// Delete the note `id`.
    AwaitDeleted { id: String },
    /// Nothing left to ask.
    Done { result: Result<ActionResult, String> },
}

/// What the storage answers.
#[derive(Debug)]
pub enum NotesReply {
    Id(u64),
    Found(Option<Note>),
    All(Vec<Note>),
    Stored,
    Deleted(bool),
    Failed(String),
}

/// Whether `reply` answers what `step` asks.
pub open spec fn answers(step: NotesStep, reply: NotesReply) -> bool {
    match step {
        NotesStep::AwaitId { .. } => reply is Id || reply is Failed,
        NotesStep::AwaitNote { .. } => reply is Found || reply is Failed,
        NotesStep::AwaitAll { .. } => reply is All || reply is Failed,
        NotesStep::AwaitTarget { .. } => reply is Found || reply is Failed,
        NotesStep::AwaitStored { .. } => reply is Stored || reply is Failed,
        NotesStep::AwaitDeleted { .. } => reply is Deleted || reply is Failed,
        NotesStep::Done { .. } => false,
    }
}

/// The first step of a request.
pub fn begin(req: NotesRequest) -> (r: NotesStep)
    ensures
        match req {
            NotesRequest::Create { title, body, tags } => r == NotesStep::AwaitId {
                title,
                body,
                tags,
            },
            NotesRequest::Get { id } => r == NotesStep::AwaitNote { id },
            NotesRequest::List { tag, limit, offset } => r == NotesStep::AwaitAll {
                tag,
                limit,
                offset,
            },
            NotesRequest::Update { id, title, body, tags } => r == NotesStep::AwaitTarget {
                id,
                title,
                body,
                tags,
            },
            NotesRequest::Delete { id } => r == NotesStep::AwaitDeleted { id },
        },
{
    match req {
        NotesRequest::Create { title, body, tags } => NotesStep::AwaitId { title, body, tags },
        NotesRequest::Get { id } => NotesStep::AwaitNote { id },
        NotesRequest::List { tag, limit, offset } => NotesStep::AwaitAll { tag, limit, offset },
        NotesRequest::Update { id, title, body, tags } => NotesStep::AwaitTarget {
            id,
            title,
            body,
            tags,
        },
        NotesRequest::Delete { id } => NotesStep::AwaitDeleted { id },
    }
}

/// Whether a step ends the action successfully with `data`, publishing `op`
/// for `id` where there was a change.
pub open spec fn ends_with(
    step: NotesStep,
    data: NotesData,
    change: Option<(Seq<char>, Seq<char>)>,
) -> bool {
    &&& step matches NotesStep::Done { result }
    &&& result matches Ok(a)
    &&& a.data == data
    &&& match change {
        Some((op, id)) => a.event is Some && a.event->0.op@ == op && a.event->0.id@ == id,
        None => a.event is None,
    }
}

/// Whether a step ends the action with the error `e`.
pub open spec fn fails_with(step: NotesStep, e: Seq<char>) -> bool {
    &&& step matches NotesStep::Done { result }
    &&& result matches Err(m)
    &&& m@ == e
}

/// An action that ends well replies with its data, and announces a change exactly
/// where there was one, under the id that changed; one that fails gives its error.
pub proof fn lemma_how_an_action_ends(
    step: NotesStep,
    data: NotesData,
    change: Option<(Seq<char>, Seq<char>)>,
    e: Seq<char>,
)
    ensures
        ends_with(step, data, change) ==> step is Done && step->result is Ok
            && step->result->Ok_0.data == data && (step->result->Ok_0.event is Some <==> change
            is Some),
        ends_with(step, data, change) ==> (change matches Some((op, id))
            ==> step->result->Ok_0.event->0.op@ == op && step->result->Ok_0.event->0.id@ == id),
        fails_with(step, e) ==> step is Done && step->result is Err && step->result->Err_0@ == e,
        !(ends_with(step, data, change) && fails_with(step, e)),
{
}

fn done(data: NotesData, event: Option<ChangeEvent>) -> (r: NotesStep)
    ensures
        r == (NotesStep::Done { result: Ok(ActionResult { data, event }) }),
{
    NotesStep::Done { result: Ok(ActionResult { data, event }) }
}

/// Goes on with an action: `reply` answers what `step` asked, at `now_ms`.
pub fn advance(step: NotesStep, reply: NotesReply, now_ms: i64) -> (r: NotesStep)
    requires
        answers(step, reply),
    ensures
        match (step, reply) {
            (_, NotesReply::Failed(e)) => fails_with(r, e@),
            (NotesStep::AwaitId { title, body, tags }, NotesReply::Id(n)) => {
                &&& r matches NotesStep::AwaitStored { note, created }
                &&& created
                &&& note.id@ == decimal(n as nat)
                &&& note.title == title
                &&& note.body == body
                &&& note.tags == tags
                &&& note.created_at_ms == now_ms
                &&& note.updated_at_ms == now_ms
            },
            (NotesStep::AwaitNote { id }, NotesReply::Found(note)) => ends_with(
                r,
                NotesData::Got { note },
                None,
            ),
            (NotesStep::AwaitAll { tag, limit, offset }, NotesReply::All(all)) => {
                &&& r matches NotesStep::Done { result }
                &&& result matches Ok(a)
                &&& a.event is None
                &&& a.data matches NotesData::Listed { notes, page, total }
                &&& notes == all
                &&& exists|q: Seq<usize>|
                    is_note_listing(all@, opt_text(tag), q) && page@ == page_of(
                        q,
                        offset as nat,
                        limit as nat,
                    ) && total == q.len()
            },
            (NotesStep::AwaitTarget { id, title, body, tags }, NotesReply::Found(found)) => {
                match found {
                    None => fails_with(r, "note not found: "@ + id@),
                    Some(note) => if trimmed(title.unwrap_or(note.title)@).len() == 0 && trimmed(
                        body.unwrap_or(note.body)@,
                    ).len() == 0 {
                        fails_with(r, "note must keep a non-empty title or body"@)
                    } else {
                        r == (NotesStep::AwaitStored {
                            note: Note {
                                id: note.id,
                                title: title.unwrap_or(note.title),
                                body: body.unwrap_or(note.body),
                                tags: tags.unwrap_or(note.tags),
                                created_at_ms: note.created_at_ms,
                                updated_at_ms: now_ms,
                            },
                            created: false,
                        })
                    },
                }
            },
            (NotesStep::AwaitStored { note, created }, NotesReply::Stored) => if created {
                ends_with(r, NotesData::Created { note }, Some(("created"@, note.id@)))
            } else {
                ends_with(r, NotesData::Updated { note }, Some(("updated"@, note.id@)))
            },
            (NotesStep::AwaitDeleted { id }, NotesReply::Deleted(deleted)) => ends_with(
                r,
                NotesData::Deleted { deleted },
                if deleted {
                    Some(("deleted"@, id@))
                } else {
                    None
                },
            ),
            _ => false,
        },
{
    match (step, reply) {
        (_, NotesReply::Failed(e)) => NotesStep::Done { result: Err(e) },
        (NotesStep::AwaitId { title, body, tags }, NotesReply::Id(n)) => NotesStep::AwaitStored {
            note: Note {
                id: dec(n),
                title,
                body,
                tags,
                created_at_ms: now_ms,
                updated_at_ms: now_ms,
            },
            created: true,
        },
        (NotesStep::AwaitNote { id: _ }, NotesReply::Found(note)) => done(
            NotesData::Got { note },
            None,
        ),
        (NotesStep::AwaitAll { tag, limit, offset }, NotesReply::All(notes)) => {
            let (page, total) = list_notes(&notes, &tag, limit, offset);
            done(NotesData::Listed { notes, page, total }, None)
        },
        (NotesStep::AwaitTarget { id, title, body, tags }, NotesReply::Found(found)) => match found {
            None => NotesStep::Done { result: Err(join2("note not found: ", id.as_str())) },
            Some(note) => match update_note(note, title, body, tags, now_ms) {
                Ok(note) => NotesStep::AwaitStored { note, created: false },
                Err(e) => NotesStep::Done { result: Err(e) },
            },
        },
        (NotesStep::AwaitStored { note, created }, NotesReply::Stored) => {
            let id = note.id.clone();
            if created {
                done(NotesData::Created { note }, Some(ChangeEvent { op: "created", id }))
            } else {
                done(NotesData::Updated { note }, Some(ChangeEvent { op: "updated", id }))
            }
        },
        (NotesStep::AwaitDeleted { id }, NotesReply::Deleted(deleted)) => {
            let event = if deleted {
                Some(ChangeEvent { op: "deleted", id })
            } else {
                None
            };
            done(NotesData::Deleted { deleted }, event)
        },
        (s, _) => s,
    }
}

/// A request fails where nobody serves its action, where its parameters do not decode, and
/// where they do not keep to the rules, each with its own complaint.
pub proof fn lemma_what_a_request_fails_with(
    action: Seq<char>,
    parsed: Result<RawNotesParams, Seq<char>>,
)
    ensures
        asked_shape(action) is None ==> notes_error(action, parsed) == Some("unknown action: "@ + action),
        asked_shape(action) is Some && parsed is Err ==> notes_error(action, parsed) == Some(
            "invalid params for "@ + action + ", expected "@ + expected_fields(
                asked_shape(action)->0,
            ) + ": "@ + parsed->Err_0,
        ),
        asked_shape(action) is Some && parsed is Ok ==> notes_error(action, parsed) == raw_error(
            parsed->Ok_0,
        ),
        action == "note_create"@ ==> expected_fields(asked_shape(action)->0) == "{title?, body?, tags?}"@,
        action == "note_get"@ ==> expected_fields(asked_shape(action)->0) == "{id}"@,
        action == "note_list"@ ==> expected_fields(asked_shape(action)->0) == "{tag?, limit?, offset?}"@,
        action == "note_update"@ ==> expected_fields(asked_shape(action)->0) == "{id, title?, body?, tags?}"@,
{
    lemma_what_each_action_takes(action);
}

} // verus!
