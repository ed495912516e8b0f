//! The `scheduler` plugin: one-shot and cron schedules kept as documents of
//! the `database` plugin.

use crate::fields::{
    all_white, is_word, join, joined, lemma_words_apart, lemma_words_are_words, lemma_words_joined,
    lemma_words_padded, words, words_of,
};
use crate::listing::{
    comes_before, id_num, id_value, lemma_listing_counts, lemma_lists, lemma_page, lists,
    order_kept, page_of, take_page,
};
use crate::number::{dec, decimal, signed_dec, signed_decimal};
use crate::settings::{read_setting, setting};
use crate::sorting::Ranked;
use crate::text::{is_white_space, join2, join3, outcome};
use crate::trusted::{
    cron_check, cron_complaint, cron_next, cron_occurrence, debug_form, debug_text,
    in_last_second,
};
use vstd::prelude::*;
use vstd::utf8::{
    encode_utf8, encode_utf8_decode_utf8, encode_utf8_valid_utf8, is_char_boundary,
    is_char_boundary_start_end_of_seq,
};

verus! {

/// Runtime configuration.
#[derive(Debug, Clone, Copy, PartialEq, Eq, Structural)]
pub struct Config {
    /// Timeout of one call into the database or to a fired action.
    pub db_timeout_ms: u32,
    /// Seconds between two scans; `0` disables scanning.
    pub scan_secs: u64,
}

impl Default for Config {
    fn default() -> (r: Config)
        ensures
            r == (Config { db_timeout_ms: 5000, scan_secs: 30 }),
    {
        Config { db_timeout_ms: 5000, scan_secs: 30 }
    }
}

impl Config {
    /// The configuration from the values of `SCHEDULER_PLUGIN_DB_TIMEOUT_MS`
    /// and `SCHEDULER_PLUGIN_SCAN_SECS`.
    pub fn from_env(db_timeout_ms: &Option<String>, scan_secs: &Option<String>) -> (r: Config)
        ensures
            r.db_timeout_ms == setting(*db_timeout_ms, u32::MAX as nat, 5000),
            r.scan_secs == setting(*scan_secs, u64::MAX as nat, 30),
    {
        let timeout: u64 = read_setting(db_timeout_ms, u32::MAX as u64, 5000);
        Config {
            db_timeout_ms: timeout as u32,
            scan_secs: read_setting(scan_secs, u64::MAX, 30),
        }
    }
}

// ---------------------------------------------------------------------------
// Documents
// ---------------------------------------------------------------------------

/// When a schedule fires.
#[derive(Debug, PartialEq, Eq)]
pub enum Trigger {
    /// Once, at an instant.
    Once { at_ms: i64 },
    /// Again and again, by a cron expression read so many minutes east of UTC.
    Cron { expr: String, tz_offset_min: i32 },
}

/// What a fire delivers. Payload and parameters are JSON text.
#[derive(Debug, PartialEq, Eq)]
pub enum Fire {
    /// A best-effort `fired` event.
    Event { payload: String },
    /// A call of the action `name`.
    Action { name: String, params: String },
}

/// One schedule: what fires, and when.
#[derive(Debug, PartialEq, Eq)]
pub struct ScheduleDoc {
    pub id: String,
    pub name: Option<String>,
    /// Disabled schedules stay but never fire.
    pub enabled: bool,
    pub trigger: Trigger,
    pub fire: Fire,
    /// Whether a one-shot has fired.
    pub fired_once: bool,
    pub fire_count: u64,
    /// The instant up to which fires are accounted for: that which a one-shot was
    /// scheduled for, or the present at which a cron schedule fired last.
    pub last_fired_ms: Option<i64>,
    /// What went wrong with the last fire, if anything.
    pub last_error: Option<String>,
    pub created_at_ms: i64,
    pub updated_at_ms: i64,
}

/// A schedule that is due.
#[derive(Debug, PartialEq, Eq)]
pub struct DueFire {
    pub doc: ScheduleDoc,
    /// The instant that this fire was scheduled for.
    pub scheduled_for_ms: i64,
    /// Whether that instant has passed already.
    pub late: bool,
}

fn copy_opt(o: &Option<String>) -> (r: Option<String>)
    ensures
        r == *o,
{
    match o {
        Some(s) => Some(s.clone()),
        None => None,
    }
}

fn copy_doc(d: &ScheduleDoc) -> (r: ScheduleDoc)
    ensures
        r == *d,
{
    ScheduleDoc {
        id: d.id.clone(),
        name: copy_opt(&d.name),
        enabled: d.enabled,
        trigger: match &d.trigger {
            Trigger::Once { at_ms } => Trigger::Once { at_ms: *at_ms },
            Trigger::Cron { expr, tz_offset_min } => Trigger::Cron {
                expr: expr.clone(),
                tz_offset_min: *tz_offset_min,
            },
        },
        fire: match &d.fire {
            Fire::Event { payload } => Fire::Event { payload: payload.clone() },
            Fire::Action { name, params } => Fire::Action {
                name: name.clone(),
                params: params.clone(),
            },
        },
        fired_once: d.fired_once,
        fire_count: d.fire_count,
        last_fired_ms: d.last_fired_ms,
        last_error: copy_opt(&d.last_error),
        created_at_ms: d.created_at_ms,
        updated_at_ms: d.updated_at_ms,
    }
}

// ---------------------------------------------------------------------------
// Cron expressions
// ---------------------------------------------------------------------------

/// A cron expression with single spaces between its fields, five fields
/// preceded by a `0` for the seconds.
pub open spec fn normal_expr(expr: Seq<char>) -> Seq<char> {
    let fields = words_of(expr);
    if fields.len() == 5 {
        "0 "@ + joined(fields, " "@)
    } else {
        joined(fields, " "@)
    }
}

/// Collapses white space and puts a seconds field before a five-field
/// expression; others keep their fields.
pub fn normalize_cron_expr(expr: &str) -> (r: String)
    ensures
        r@ == normal_expr(expr@),
{
    let fields = words(expr);
    let line = join(&fields, " ");
    if fields.len() == 5 {
        join2("0 ", line.as_str())
    } else {
        line
    }
}

/// Normalizing a normal expression changes nothing.
pub proof fn lemma_normal_expr_idempotent(expr: Seq<char>)
    ensures
        normal_expr(normal_expr(expr)) == normal_expr(expr),
{
    let fields = words_of(expr);
    let blank = " "@;
    reveal_strlit(" ");
    reveal_strlit("0 ");
    assert(is_white_space(blank[0]));
    lemma_words_are_words(expr);
    lemma_words_joined(fields, blank);
    if fields.len() == 5 {
        let all = seq!["0"@] + fields;
        reveal_strlit("0");
        assert(is_word("0"@));
        assert forall|i: int| 0 <= i < all.len() implies is_word(#[trigger] all[i]) by {
            if i > 0 {
                assert(all[i] == fields[i - 1]);
            }
        }
        lemma_words_joined(all, blank);
        lemma_joined_first("0"@, fields, blank);
        assert(normal_expr(expr) =~= joined(all, blank));
    }
}

/// Spacing has no influence on the normal form: neither white space around the
/// expression nor how much of it stands between two of its fields.
pub proof fn lemma_normal_expr_ignores_spacing(
    before: Seq<char>,
    a: Seq<char>,
    gap: Seq<char>,
    b: Seq<char>,
    after: Seq<char>,
)
    requires
        all_white(before),
        all_white(gap),
        gap.len() > 0,
        all_white(after),
    ensures
        normal_expr(before + (a + gap + b) + after) == normal_expr(a + " "@ + b),
{
    reveal_strlit(" ");
    assert(is_white_space(" "@[0]));
    lemma_words_padded(before, a + gap + b, after);
    lemma_words_apart(a, gap, b);
    lemma_words_apart(a, " "@, b);
}

/// Five fields are preceded by a `0` for the seconds; any other number of fields
/// stays as it is.
pub proof fn lemma_normal_expr_fields(fields: Seq<Seq<char>>)
    requires
        forall|i: int| 0 <= i < fields.len() ==> is_word(#[trigger] fields[i]),
    ensures
        fields.len() == 5 ==> normal_expr(joined(fields, " "@)) == "0 "@ + fields[0] + " "@
            + fields[1] + " "@ + fields[2] + " "@ + fields[3] + " "@ + fields[4],
        fields.len() != 5 ==> normal_expr(joined(fields, " "@)) == joined(fields, " "@),
{
    reveal_strlit(" ");
    assert(is_white_space(" "@[0]));
    lemma_words_joined(fields, " "@);
    if fields.len() == 5 {
        let (a, b, c, d) = (fields.take(1), fields.take(2), fields.take(3), fields.take(4));
        assert(fields.drop_last() =~= d);
        assert(d.drop_last() =~= c);
        assert(c.drop_last() =~= b);
        assert(b.drop_last() =~= a);
        assert(joined(a, " "@) == fields[0]);
        assert(joined(b, " "@) == joined(a, " "@) + " "@ + fields[1]);
        assert(joined(c, " "@) == joined(b, " "@) + " "@ + fields[2]);
        assert(joined(d, " "@) == joined(c, " "@) + " "@ + fields[3]);
        assert(joined(fields, " "@) == joined(d, " "@) + " "@ + fields[4]);
        assert(normal_expr(joined(fields, " "@)) =~= "0 "@ + fields[0] + " "@ + fields[1] + " "@
            + fields[2] + " "@ + fields[3] + " "@ + fields[4]);
    }
}

proof fn lemma_joined_first(first: Seq<char>, rest: Seq<Seq<char>>, sep: Seq<char>)
    requires
        rest.len() > 0,
    ensures
        joined(seq![first] + rest, sep) == first + sep + joined(rest, sep),
    decreases rest.len(),
{
    let all = seq![first] + rest;
    assert(all.last() == rest.last());
    if rest.len() == 1 {
        assert(all.drop_last() =~= seq![first]);
        assert(joined(seq![first], sep) == first);
        assert(joined(rest, sep) == rest[0]);
    } else {
        lemma_joined_first(first, rest.drop_last(), sep);
        assert(all.drop_last() =~= seq![first] + rest.drop_last());
    }
    assert(joined(all, sep) =~= first + sep + joined(rest, sep));
}

/// Offsets from −12:00 to +14:00, in minutes.
pub open spec fn offset_in_range(tz_offset_min: int) -> bool {
    -720 <= tz_offset_min <= 840
}

/// The complaint about an offset out of range.
pub open spec fn offset_complaint(tz_offset_min: int) -> Seq<char> {
    "tz_offset_min out of range (-720..=840): "@ + signed_decimal(tz_offset_min)
}

/// The offset in seconds, where it is in range.
pub fn fixed_offset(tz_offset_min: i32) -> (r: Result<i32, String>)
    ensures
        match r {
            Ok(secs) => offset_in_range(tz_offset_min as int) && secs == tz_offset_min * 60,
            Err(e) => !offset_in_range(tz_offset_min as int) && e@ == offset_complaint(
                tz_offset_min as int,
            ),
        },
        r is Ok <==> -720 <= tz_offset_min <= 840,
{
    if !(-720 <= tz_offset_min && tz_offset_min <= 840) {
        return Err(
            join2(
                "tz_offset_min out of range (-720..=840): ",
                signed_dec(tz_offset_min as i64).as_str(),
            ),
        );
    }
    Ok(tz_offset_min * 60)
}

/// The complaint about an expression that does not parse.
pub open spec fn expr_complaint(expr: Seq<char>, e: Seq<char>) -> Seq<char> {
    "invalid cron expression "@ + debug_text(expr) + ": "@ + e
}

fn invalid_expr(expr: &str, e: &str) -> (r: String)
    ensures
        r@ == expr_complaint(expr@, e@),
{
    let head = join2("invalid cron expression ", debug_form(expr).as_str());
    join3(head.as_str(), ": ", e)
}

/// Decides on an expression, given what the cron parser says of its normal
/// form.
pub fn validate_parsed(expr: &str, parsed: Result<(), String>, tz_offset_min: i32) -> (r: Result<
    (),
    String,
>)
    ensures
        outcome(r) == match parsed {
            Err(e) => Err(expr_complaint(expr@, e@)),
            Ok(_) => if offset_in_range(tz_offset_min as int) {
                Ok(())
            } else {
                Err(offset_complaint(tz_offset_min as int))
            },
        },
{
    match parsed {
        Err(e) => Err(invalid_expr(expr, e.as_str())),
        Ok(_) => match fixed_offset(tz_offset_min) {
            Ok(_) => Ok(()),
            Err(e) => Err(e),
        },
    }
}

/// Checks a cron expression and its offset.
pub fn validate_cron_expr(expr: &str, tz_offset_min: i32) -> (r: Result<(), String>)
    ensures
        outcome(r) == match cron_complaint(normal_expr(expr@)) {
            Some(e) => Err(expr_complaint(expr@, e)),
            None => if offset_in_range(tz_offset_min as int) {
                Ok(())
            } else {
                Err(offset_complaint(tz_offset_min as int))
            },
        },
{
    let parsed = cron_check(normalize_cron_expr(expr).as_str());
    validate_parsed(expr, parsed, tz_offset_min)
}

/// The first occurrence of an expression after an instant, or why there is no
/// telling.
pub open spec fn next_occurrence(
    expr: Seq<char>,
    tz_offset_min: int,
    after_ms: int,
) -> Result<Option<i64>, Seq<char>> {
    let normal = normal_expr(expr);
    if !offset_in_range(tz_offset_min) {
        Err(offset_complaint(tz_offset_min))
    } else if cron_complaint(normal) is Some {
        Err(expr_complaint(expr, cron_complaint(normal)->0))
    } else {
        match cron_occurrence(normal, tz_offset_min * 60, after_ms) {
            Some(next) => Ok(next),
            None => Err("timestamp out of range: "@ + signed_decimal(after_ms)),
        }
    }
}

/// An expression that parses is read exactly as many minutes east of UTC as the
/// offset says, west of it where the offset is negative; an offset beyond -12:00
/// or +14:00, or an expression that does not parse, gives an error.
pub proof fn lemma_occurrences_are_read_at_the_offset(
    expr: Seq<char>,
    tz_offset_min: int,
    after_ms: int,
)
    ensures
        next_occurrence(expr, tz_offset_min, after_ms) is Ok <==> -720 <= tz_offset_min <= 840
            && cron_complaint(normal_expr(expr)) is None && cron_occurrence(
            normal_expr(expr),
            60 * tz_offset_min,
            after_ms,
        ) is Some,
        next_occurrence(expr, tz_offset_min, after_ms) is Ok ==> cron_occurrence(
            normal_expr(expr),
            60 * tz_offset_min,
            after_ms,
        ) == Some(next_occurrence(expr, tz_offset_min, after_ms)->Ok_0),
{
}

/// First cron occurrence strictly after `after_ms`, read in the given offset.
pub fn next_cron_after_ms(expr: &str, tz_offset_min: i32, after_ms: i64) -> (r: Result<
    Option<i64>,
    String,
>)
    requires
        !in_last_second(after_ms as int),
    ensures
        outcome(r) == next_occurrence(expr@, tz_offset_min as int, after_ms as int),
        match r {
            Ok(Some(n)) => n > after_ms,
            _ => true,
        },
        -720 <= tz_offset_min <= 840 && cron_complaint(normal_expr(expr@)) is None ==> match (
            cron_occurrence(normal_expr(expr@), tz_offset_min * 60, after_ms as int)
        ) {
            Some(next) => r == Ok::<Option<i64>, String>(next),
            None => r is Err,
        },
        !(-720 <= tz_offset_min <= 840) || cron_complaint(normal_expr(expr@)) is Some ==> r is Err,
{
    let secs: i32 = match fixed_offset(tz_offset_min) {
        Ok(s) => s,
        Err(e) => {
            return Err(e);
        },
    };
    let normal = normalize_cron_expr(expr);
    match cron_check(normal.as_str()) {
        Err(e) => {
            return Err(invalid_expr(expr, e.as_str()));
        },
        Ok(_) => {},
    }
    match cron_next(normal.as_str(), secs, after_ms) {
        Some(next) => Ok(next),
        None => Err(join2("timestamp out of range: ", signed_dec(after_ms).as_str())),
    }
}

// ---------------------------------------------------------------------------
// Due schedules
// ---------------------------------------------------------------------------

/// The instant up to which a schedule's occurrences are accounted for: its
/// last fire, or its creation.
pub open spec fn reference_ms(doc: ScheduleDoc) -> i64 {
    match doc.last_fired_ms {
        Some(t) => t,
        None => doc.created_at_ms,
    }
}

/// The instant at which a schedule fires next, given what its cron expression
/// names (for a one-shot that does not matter). None where nothing is pending.
pub open spec fn next_fire_given(
    doc: ScheduleDoc,
    occurrence: Result<Option<i64>, Seq<char>>,
) -> Option<i64> {
    if !doc.enabled {
        None
    } else {
        match doc.trigger {
            Trigger::Once { at_ms } => if doc.fired_once {
                None
            } else {
                Some(at_ms)
            },
            Trigger::Cron { .. } => match occurrence {
                Ok(next) => next,
                Err(_) => None,
            },
        }
    }
}

/// What the cron expression of a schedule names after what is accounted for;
/// nothing for a one-shot.
pub open spec fn occurrence_of(doc: ScheduleDoc) -> Result<Option<i64>, Seq<char>> {
    match doc.trigger {
        Trigger::Once { .. } => Ok(None),
        Trigger::Cron { expr, tz_offset_min } => next_occurrence(
            expr@,
            tz_offset_min as int,
            reference_ms(doc) as int,
        ),
    }
}

/// The instant at which a schedule fires next.
pub open spec fn next_fire(doc: ScheduleDoc) -> Option<i64> {
    next_fire_given(doc, occurrence_of(doc))
}

/// Whether a cron schedule fires next after what is accounted for, if at all.
pub open spec fn goes_on(doc: ScheduleDoc) -> bool {
    doc.trigger is Cron && next_fire(doc) is Some ==> next_fire(doc)->0 > reference_ms(doc)
}

/// Whether the next occurrence of a schedule can be computed: the cron
/// iterator cannot start in the last second that chrono can hold.
pub open spec fn computable(doc: ScheduleDoc) -> bool {
    doc.enabled && doc.trigger is Cron ==> !in_last_second(reference_ms(doc) as int)
}

/// A disabled schedule fires never, a one-shot at its instant unless it has fired,
/// and a cron schedule at what its expression, read at its offset, names after
/// its last fire, or after its creation where it has not fired yet.
pub proof fn lemma_when_a_schedule_fires(doc: ScheduleDoc)
    ensures
        !doc.enabled ==> next_fire(doc) is None,
        doc.enabled && doc.trigger is Once ==> next_fire(doc) == if doc.fired_once {
            None
        } else {
            Some(doc.trigger->at_ms)
        },
        doc.enabled && doc.trigger is Cron && next_fire(doc) is Some ==> cron_occurrence(
            normal_expr(doc.trigger->expr@),
            60 * doc.trigger->tz_offset_min,
            match doc.last_fired_ms {
                Some(t) => t as int,
                None => doc.created_at_ms as int,
            },
        ) == Some(next_fire(doc)),
        doc.enabled && doc.trigger is Cron && -720 <= doc.trigger->tz_offset_min <= 840
            && cron_complaint(normal_expr(doc.trigger->expr@)) is None ==> (next_fire(doc) is None
            ==> {
            let named = cron_occurrence(
                normal_expr(doc.trigger->expr@),
                60 * doc.trigger->tz_offset_min,
                match doc.last_fired_ms {
                    Some(t) => t as int,
                    None => doc.created_at_ms as int,
                },
            );
            named is None || named->0 is None
        }),
{
}

/// Decides [`computable`].
pub fn is_computable(doc: &ScheduleDoc) -> (r: bool)
    ensures
        r == computable(*doc),
{
    let cron = match &doc.trigger {
        Trigger::Once { .. } => false,
        Trigger::Cron { .. } => true,
    };
    let reference: i64 = match doc.last_fired_ms {
        Some(t) => t,
        None => doc.created_at_ms,
    };
    !(doc.enabled && cron) || reference < 8_210_266_876_799_000 || reference
        > 8_210_266_876_799_999
}

/// The instant at which the schedule fires next, given what its cron expression
/// names.
pub fn next_from(doc: &ScheduleDoc, occurrence: Result<Option<i64>, String>) -> (r: Option<i64>)
    ensures
        r == next_fire_given(*doc, outcome(occurrence)),
{
    if !doc.enabled {
        return None;
    }
    match &doc.trigger {
        Trigger::Once { at_ms } => if doc.fired_once {
            None
        } else {
            Some(*at_ms)
        },
        Trigger::Cron { .. } => match occurrence {
            Ok(next) => next,
            Err(_) => None,
        },
    }
}

/// The instant at which the schedule fires next; none where nothing is pending
/// (disabled, done, or a cron expression that does not parse or names nothing
/// more). A cron schedule never fires at or before what is accounted for.
pub fn next_fire_ms(doc: &ScheduleDoc) -> (r: Option<i64>)
    requires
        computable(*doc),
    ensures
        r == next_fire(*doc),
        goes_on(*doc),
        !doc.enabled ==> r is None,
        doc.enabled ==> match doc.trigger {
            Trigger::Once { at_ms } => r == if doc.fired_once {
                None
            } else {
                Some(at_ms)
            },
            Trigger::Cron { expr, tz_offset_min } => {
                let from = match doc.last_fired_ms {
                    Some(t) => t,
                    None => doc.created_at_ms,
                };
                let named = cron_occurrence(normal_expr(expr@), tz_offset_min * 60, from as int);
                r == if -720 <= tz_offset_min <= 840 && cron_complaint(normal_expr(expr@)) is None
                    && named is Some {
                    named->0
                } else {
                    None
                }
            },
        },
{
    if !doc.enabled {
        return None;
    }
    match &doc.trigger {
        Trigger::Once { .. } => next_from(doc, Ok(None)),
        Trigger::Cron { expr, tz_offset_min } => {
            let reference: i64 = match doc.last_fired_ms {
                Some(t) => t,
                None => doc.created_at_ms,
            };
            next_from(doc, next_cron_after_ms(expr.as_str(), *tz_offset_min, reference))
        },
    }
}

/// The fire of a schedule that is due at `now_ms`, given when it fires next.
pub open spec fn fire_given(doc: ScheduleDoc, next: Option<i64>, now_ms: int) -> Option<DueFire> {
    match next {
        Some(t) => if t <= now_ms {
            Some(DueFire { doc, scheduled_for_ms: t, late: now_ms > t })
        } else {
            None
        },
        None => None,
    }
}

/// The fires of the first `k` schedules that are due, in order, given when
/// each fires next.
pub open spec fn fires_given(
    docs: Seq<ScheduleDoc>,
    nexts: Seq<Option<i64>>,
    now_ms: int,
    k: nat,
) -> Seq<DueFire>
    decreases k,
{
    if k == 0 {
        Seq::empty()
    } else {
        let before = fires_given(docs, nexts, now_ms, (k - 1) as nat);
        match fire_given(docs[k - 1], nexts[k - 1], now_ms) {
            Some(f) => before.push(f),
            None => before,
        }
    }
}

/// When each schedule fires next.
pub open spec fn next_fires(docs: Seq<ScheduleDoc>) -> Seq<Option<i64>> {
    Seq::new(docs.len(), |i: int| next_fire(docs[i]))
}

/// The schedules of `docs` that are due at `now_ms`, in order; `nexts` says
/// when each fires next.
pub fn select_due(docs: &Vec<ScheduleDoc>, nexts: &Vec<Option<i64>>, now_ms: i64) -> (r: Vec<
    DueFire,
>)
    requires
        docs@.len() == nexts@.len(),
    ensures
        r@ == fires_given(docs@, nexts@, now_ms as int, docs@.len()),
{
    let mut out: Vec<DueFire> = Vec::new();
    let mut i: usize = 0;
    while i < docs.len()
        invariant
            i <= docs.len() == nexts.len(),
            out@ == fires_given(docs@, nexts@, now_ms as int, i as nat),
        decreases docs.len() - i,
    {
        if let Some(t) = nexts[i] {
            if t <= now_ms {
                out.push(
                    DueFire { doc: copy_doc(&docs[i]), scheduled_for_ms: t, late: now_ms > t },
                );
            }
        }
        i += 1;
    }
    out
}

/// Every schedule whose instant has come fires, exactly once in a scan and in the
/// order of the documents; `at` says which document each fire is of.
pub proof fn lemma_all_that_is_due_fires(
    docs: Seq<ScheduleDoc>,
    nexts: Seq<Option<i64>>,
    now_ms: int,
    k: nat,
) -> (at: Seq<int>)
    requires
        k <= docs.len() == nexts.len(),
    ensures
        at.len() == fires_given(docs, nexts, now_ms, k).len(),
        forall|a: int, b: int| 0 <= a < b < at.len() ==> at[a] < at[b],
        forall|a: int|
            #![trigger at[a]]
            0 <= a < at.len() ==> {
                let f = fires_given(docs, nexts, now_ms, k)[a];
                &&& 0 <= at[a] < k
                &&& f.doc == docs[at[a]]
                &&& nexts[at[a]] == Some(f.scheduled_for_ms)
                &&& f.scheduled_for_ms <= now_ms
                &&& f.late <==> f.scheduled_for_ms < now_ms
            },
        forall|i: int|
            0 <= i < k && (#[trigger] nexts[i]) is Some && nexts[i]->0 <= now_ms ==> at.contains(i),
    decreases k,
{
    if k == 0 {
        Seq::empty()
    } else {
        let before = lemma_all_that_is_due_fires(docs, nexts, now_ms, (k - 1) as nat);
        let fires = fires_given(docs, nexts, now_ms, (k - 1) as nat);
        let at = if nexts[k - 1] is Some && nexts[k - 1]->0 <= now_ms {
            before.push(k - 1)
        } else {
            before
        };
        assert forall|a: int| #![trigger at[a]] 0 <= a < at.len() implies {
            let f = fires_given(docs, nexts, now_ms, k)[a];
            &&& 0 <= at[a] < k
            &&& f.doc == docs[at[a]]
            &&& nexts[at[a]] == Some(f.scheduled_for_ms)
            &&& f.scheduled_for_ms <= now_ms
            &&& f.late <==> f.scheduled_for_ms < now_ms
        } by {
            if a < before.len() {
                assert(at[a] == before[a]);
                assert(fires_given(docs, nexts, now_ms, k)[a] == fires[a]);
            }
        }
        assert forall|i: int|
            0 <= i < k && (#[trigger] nexts[i]) is Some && nexts[i]->0
                <= now_ms implies at.contains(i) by {
            if i < k - 1 {
                let a = before.index_of(i);
                assert(at[a] == i);
            } else {
                assert(at[before.len() as int] == i);
            }
        }
        at
    }
}

fn all_next_fires(docs: &Vec<ScheduleDoc>) -> (r: Vec<Option<i64>>)
    requires
        forall|i: int| 0 <= i < docs@.len() ==> computable(#[trigger] docs@[i]),
    ensures
        r@ == next_fires(docs@),
        forall|i: int| 0 <= i < docs@.len() ==> goes_on(#[trigger] docs@[i]),
{
    let mut out: Vec<Option<i64>> = Vec::new();
    let mut i: usize = 0;
    while i < docs.len()
        invariant
            i <= docs.len(),
            forall|j: int| 0 <= j < i ==> goes_on(#[trigger] docs@[j]),
            forall|i: int| 0 <= i < docs@.len() ==> computable(#[trigger] docs@[i]),
            out@ == next_fires(docs@).take(i as int),
        decreases docs.len() - i,
    {
        out.push(next_fire_ms(&docs[i]));
        i += 1;
    }
    out
}

/// Every schedule that is due at `now_ms`, in the order of `docs`.
pub fn due_schedules(docs: &Vec<ScheduleDoc>, now_ms: i64) -> (r: Vec<DueFire>)
    requires
        forall|i: int| 0 <= i < docs@.len() ==> computable(#[trigger] docs@[i]),
    ensures
        r@ == fires_given(docs@, next_fires(docs@), now_ms as int, docs@.len()),
        forall|i: int| 0 <= i < docs@.len() ==> goes_on(#[trigger] docs@[i]),
        forall|i: int|
            0 <= i < docs@.len() && next_fire(#[trigger] docs@[i]) is Some && next_fire(
                docs@[i],
            )->0 <= now_ms ==> exists|a: int|
                0 <= a < r@.len() && (#[trigger] r@[a]).doc == docs@[i] && Some(
                    r@[a].scheduled_for_ms,
                ) == next_fire(docs@[i]),
        forall|a: int|
            0 <= a < r@.len() ==> docs@.contains((#[trigger] r@[a]).doc) && next_fire(r@[a].doc)
                == Some(r@[a].scheduled_for_ms) && r@[a].scheduled_for_ms <= now_ms && (r@[a].late
                <==> r@[a].scheduled_for_ms < now_ms),
{
    let nexts = all_next_fires(docs);
    let r = select_due(docs, &nexts, now_ms);
    proof {
        let at = lemma_all_that_is_due_fires(docs@, nexts@, now_ms as int, docs@.len());
        assert forall|i: int|
            0 <= i < docs@.len() && next_fire(#[trigger] docs@[i]) is Some && next_fire(
                docs@[i],
            )->0 <= now_ms implies exists|a: int|
            0 <= a < r@.len() && (#[trigger] r@[a]).doc == docs@[i] && Some(r@[a].scheduled_for_ms)
                == next_fire(docs@[i]) by {
            assert(nexts@[i] == next_fire(docs@[i]));
            let a = at.index_of(i);
            assert(at[a] == i);
            assert(r@[a].doc == docs@[i]);
        }
        assert forall|a: int| 0 <= a < r@.len() implies docs@.contains((#[trigger] r@[a]).doc)
            && next_fire(r@[a].doc) == Some(r@[a].scheduled_for_ms) && r@[a].scheduled_for_ms
            <= now_ms && (r@[a].late <==> r@[a].scheduled_for_ms < now_ms) by {
            assert(0 <= at[a] < docs@.len());
            assert(nexts@[at[a]] == next_fire(docs@[at[a]]));
        }
    }
    r
}

/// Nothing fires that is disabled, done or not due yet, and a fire is late
/// exactly where its instant has passed.
pub proof fn lemma_fires(
    docs: Seq<ScheduleDoc>,
    occurrences: Seq<Result<Option<i64>, Seq<char>>>,
    nexts: Seq<Option<i64>>,
    now_ms: int,
    k: nat,
)
    requires
        k <= docs.len() == occurrences.len() == nexts.len(),
        forall|i: int|
            0 <= i < docs.len() ==> #[trigger] nexts[i] == next_fire_given(
                docs[i],
                occurrences[i],
            ),
    ensures
        forall|i: int|
            0 <= i < fires_given(docs, nexts, now_ms, k).len() ==> {
                let f = #[trigger] fires_given(docs, nexts, now_ms, k)[i];
                &&& f.doc.enabled
                &&& docs.contains(f.doc)
                &&& f.scheduled_for_ms <= now_ms
                &&& f.late == (f.scheduled_for_ms < now_ms)
                &&& f.doc.trigger matches Trigger::Once { at_ms } ==> !f.doc.fired_once
                    && f.scheduled_for_ms == at_ms
            },
    decreases k,
{
    if k > 0 {
        lemma_fires(docs, occurrences, nexts, now_ms, (k - 1) as nat);
    }
}

// ---------------------------------------------------------------------------
// Firing
// ---------------------------------------------------------------------------

/// What a fire at `now_ms` accounts for: the instant it was scheduled for, and of
/// a cron schedule everything up to the present, so that occurrences missed on
/// the way are never made up for.
pub open spec fn accounted_ms(fire: DueFire, now_ms: i64) -> i64 {
    if fire.doc.trigger is Cron && now_ms > fire.scheduled_for_ms {
        now_ms
    } else {
        fire.scheduled_for_ms
    }
}

/// The document after a fire: a one-shot is done, the count goes up, and what
/// the fire accounts for is noted.
pub open spec fn marked(fire: DueFire, now_ms: i64) -> ScheduleDoc {
    ScheduleDoc {
        fired_once: fire.doc.fired_once || fire.doc.trigger is Once,
        fire_count: (fire.doc.fire_count + 1) as u64,
        last_fired_ms: Some(accounted_ms(fire, now_ms)),
        last_error: None,
        updated_at_ms: now_ms,
        ..fire.doc
    }
}

/// The document to store before the fire is dispatched: at most once, a crash
/// in between loses that one fire.
pub fn mark_fired(fire: DueFire, now_ms: i64) -> (r: ScheduleDoc)
    requires
        fire.doc.fire_count < u64::MAX,
    ensures
        r == marked(fire, now_ms),
        r.fire_count == fire.doc.fire_count + 1,
        r.fired_once <==> fire.doc.fired_once || fire.doc.trigger is Once,
        fire.doc.trigger is Once ==> r.last_fired_ms == Some(fire.scheduled_for_ms),
        fire.doc.trigger is Cron ==> r.last_fired_ms is Some && r.last_fired_ms->0 >= now_ms
            && r.last_fired_ms->0 >= fire.scheduled_for_ms && (r.last_fired_ms->0 == now_ms
            || r.last_fired_ms->0 == fire.scheduled_for_ms),
        r.last_error is None,
        r.updated_at_ms == now_ms,
        r.id == fire.doc.id && r.name == fire.doc.name && r.enabled == fire.doc.enabled && r.trigger
            == fire.doc.trigger && r.fire == fire.doc.fire && r.created_at_ms
            == fire.doc.created_at_ms,
{
    let mut doc = fire.doc;
    let once = match &doc.trigger {
        Trigger::Once { .. } => true,
        Trigger::Cron { .. } => false,
    };
    if once {
        doc.fired_once = true;
    }
    doc.fire_count = doc.fire_count + 1;
    doc.last_fired_ms = if !once && now_ms > fire.scheduled_for_ms {
        Some(now_ms)
    } else {
        Some(fire.scheduled_for_ms)
    };
    doc.last_error = None;
    doc.updated_at_ms = now_ms;
    doc
}

/// A one-shot that has fired never fires again, and a cron schedule goes on
/// after both the instant that just fired and the present.
pub proof fn lemma_fires_at_most_once(fire: DueFire, now_ms: i64, later: ScheduleDoc)
    requires
        later == marked(fire, now_ms),
    ensures
        later.trigger is Once ==> next_fire(later) is None,
        later.trigger is Cron ==> reference_ms(later) >= now_ms,
        reference_ms(later) >= fire.scheduled_for_ms,
        later.enabled == fire.doc.enabled,
        later.trigger == fire.doc.trigger,
{
}

/// A fire is counted, forgets the last error, and leaves everything else that was
/// asked for as it is.
pub proof fn lemma_a_fire_is_counted(fire: DueFire, now_ms: i64)
    requires
        fire.doc.fire_count < u64::MAX,
    ensures
        marked(fire, now_ms).fire_count == fire.doc.fire_count + 1,
        fire.doc.trigger is Once ==> marked(fire, now_ms).fired_once && marked(
            fire,
            now_ms,
        ).last_fired_ms == Some(fire.scheduled_for_ms),
        fire.doc.trigger is Cron ==> marked(fire, now_ms).fired_once == fire.doc.fired_once
            && marked(fire, now_ms).last_fired_ms is Some && marked(fire, now_ms).last_fired_ms->0
            == if now_ms >= fire.scheduled_for_ms {
            now_ms
        } else {
            fire.scheduled_for_ms
        },
        marked(fire, now_ms).last_error is None,
        marked(fire, now_ms).updated_at_ms == now_ms,
        marked(fire, now_ms).id == fire.doc.id,
        marked(fire, now_ms).name == fire.doc.name,
        marked(fire, now_ms).enabled == fire.doc.enabled,
        marked(fire, now_ms).trigger == fire.doc.trigger,
        marked(fire, now_ms).fire == fire.doc.fire,
        marked(fire, now_ms).created_at_ms == fire.doc.created_at_ms,
{
}

/// The documents after a scan at `now_ms`: those of the schedules that were due
/// are marked, the others are as they were.
pub open spec fn scanned(docs: Seq<ScheduleDoc>, now_ms: i64) -> Seq<ScheduleDoc> {
    Seq::new(
        docs.len(),
        |i: int|
            match fire_given(docs[i], next_fire(docs[i]), now_ms as int) {
                Some(f) => marked(f, now_ms),
                None => docs[i],
            },
    )
}

/// Missed occurrences are never made up for: a second scan at the same instant
/// finds nothing due. (That no occurrence lies at or before what is accounted
/// for is what [`due_schedules`] finds out by computing it.)
pub proof fn lemma_no_backfill(docs: Seq<ScheduleDoc>, now_ms: i64)
    requires
        forall|i: int|
            0 <= i < docs.len() ==> goes_on(#[trigger] scanned(docs, now_ms)[i]),
    ensures
        fires_given(
            scanned(docs, now_ms),
            next_fires(scanned(docs, now_ms)),
            now_ms as int,
            docs.len(),
        ) == Seq::<DueFire>::empty(),
{
    lemma_none_due(docs, now_ms, docs.len());
}

proof fn lemma_none_due(docs: Seq<ScheduleDoc>, now_ms: i64, k: nat)
    requires
        k <= docs.len(),
        forall|i: int|
            0 <= i < docs.len() ==> goes_on(#[trigger] scanned(docs, now_ms)[i]),
    ensures
        fires_given(
            scanned(docs, now_ms),
            next_fires(scanned(docs, now_ms)),
            now_ms as int,
            k,
        ) == Seq::<DueFire>::empty(),
    decreases k,
{
    if k > 0 {
        lemma_none_due(docs, now_ms, (k - 1) as nat);
        let after = scanned(docs, now_ms);
        assert(goes_on(after[k - 1]));
        assert(next_fires(after)[k - 1] == next_fire(after[k - 1]));
    }
}

/// What a `fired` event carries beside its payload.
#[derive(Debug, PartialEq, Eq)]
pub struct FiredEvent {
    pub schedule_id: String,
    pub name: Option<String>,
    pub scheduled_for_ms: i64,
    pub late: bool,
    pub fire_count: u64,
}

/// The `fired` event for a marked document.
pub fn fired_event(doc: &ScheduleDoc, scheduled_for_ms: i64, late: bool) -> (r: FiredEvent)
    ensures
        r == (FiredEvent {
            schedule_id: doc.id,
            name: doc.name,
            scheduled_for_ms,
            late,
            fire_count: doc.fire_count,
        }),
{
    FiredEvent {
        schedule_id: doc.id.clone(),
        name: copy_opt(&doc.name),
        scheduled_for_ms,
        late,
        fire_count: doc.fire_count,
    }
}

/// Longest error kept with a document, in bytes.
pub const MAX_ERROR_BYTES: usize = 256;

/// Whether the first `n` bytes of an error are kept: they end with a character,
/// stay inside the cap, and no more of them do.
pub open spec fn is_cut(bytes: Seq<u8>, n: int) -> bool {
    &&& 0 <= n <= bytes.len()
    &&& n <= MAX_ERROR_BYTES
    &&& is_char_boundary(bytes, n)
    &&& forall|m: int|
        n < m <= bytes.len() && m <= MAX_ERROR_BYTES ==> !#[trigger] is_char_boundary(bytes, m)
}

/// Whether `kept` is what is kept of an error: its longest beginning inside the
/// cap that does not split a character.
pub open spec fn is_kept_error(error: Seq<char>, kept: Seq<char>) -> bool {
    exists|n: int| #[trigger]
        is_cut(encode_utf8(error), n) && encode_utf8(kept) == encode_utf8(error).take(n)
}

/// Where to cut an error.
fn error_cut(error: &str) -> (r: usize)
    ensures
        is_cut(encode_utf8(error@), r as int),
{
    let ghost bytes = encode_utf8(error@);
    let len: usize = error.as_bytes().len();
    proof {
        encode_utf8_valid_utf8(error@);
        is_char_boundary_start_end_of_seq(bytes);
    }
    if len <= MAX_ERROR_BYTES {
        return len;
    }
    let mut n: usize = MAX_ERROR_BYTES;
    while !error.is_char_boundary(n)
        invariant
            n <= MAX_ERROR_BYTES < len,
            bytes == encode_utf8(error@),
            len == bytes.len(),
            is_char_boundary(bytes, 0),
            forall|m: int|
                n < m <= bytes.len() && m <= MAX_ERROR_BYTES ==> !#[trigger] is_char_boundary(
                    bytes,
                    m,
                ),
        decreases n,
    {
        n -= 1;
    }
    n
}

/// The document with the error of its last dispatch, cut to its cap.
pub fn record_last_error(doc: ScheduleDoc, error: &str, now_ms: i64) -> (r: ScheduleDoc)
    ensures
        r == (ScheduleDoc { last_error: r.last_error, updated_at_ms: now_ms, ..doc }),
        r.last_error is Some,
        is_kept_error(error@, r.last_error->0@),
{
    let n: usize = error_cut(error);
    let (head, _) = error.split_at(n);
    assert(encode_utf8(error@).take(n as int) =~= encode_utf8(error@).subrange(0, n as int));
    let mut doc = doc;
    doc.last_error = Some(head.to_owned());
    doc.updated_at_ms = now_ms;
    doc
}

/// A short error is kept whole, a longer one inside the cap, and what is kept of
/// it depends on the error alone.
pub proof fn lemma_kept_error(error: Seq<char>, a: Seq<char>, b: Seq<char>)
    requires
        is_kept_error(error, a),
        is_kept_error(error, b),
    ensures
        a == b,
        encode_utf8(a).len() <= MAX_ERROR_BYTES,
        encode_utf8(error).len() <= MAX_ERROR_BYTES ==> a == error,
{
    let bytes = encode_utf8(error);
    let n = choose|n: int| #[trigger] is_cut(bytes, n) && encode_utf8(a) == bytes.take(n);
    let m = choose|m: int| #[trigger] is_cut(bytes, m) && encode_utf8(b) == bytes.take(m);
    encode_utf8_valid_utf8(error);
    is_char_boundary_start_end_of_seq(bytes);
    assert(!(n < m) && !(m < n));
    encode_utf8_decode_utf8(a);
    encode_utf8_decode_utf8(b);
    encode_utf8_decode_utf8(error);
    if bytes.len() <= MAX_ERROR_BYTES {
        assert(n == bytes.len());
        assert(bytes.take(n) =~= bytes);
    }
}

// ---------------------------------------------------------------------------
// Scans
// ---------------------------------------------------------------------------

/// A scan under way: what to do next, and what is kept until it is done.
/// `rest` are the fires still to come, `total` is how many there were.
#[derive(Debug)]
pub enum ScanStep {
    /// Ask for all schedules.
    AwaitAll,
    /// Store the mark of a fire, before anything is dispatched.
    AwaitMarked {
        doc: ScheduleDoc,
        scheduled_for_ms: i64,
        late: bool,
        rest: Vec<DueFire>,
        total: usize,
    },
    /// Publish a `fired` event with this payload.
    AwaitPublished { event: FiredEvent, payload: String, rest: Vec<DueFire>, total: usize },
    /// Call this action for the schedule `id`.
    AwaitCalled { id: String, name: String, params: String, rest: Vec<DueFire>, total: usize },
    /// Ask for the schedule `id`, whose action failed.
    AwaitFailed { id: String, error: String, rest: Vec<DueFire>, total: usize },
    /// Store the schedule with its error.
    AwaitNoted { doc: ScheduleDoc, rest: Vec<DueFire>, total: usize },
    /// The scan is over, with the number of schedules that were due.
    Done { result: Result<usize, String> },
}

/// What became of a step. A failure in a fire never ends the scan.
#[derive(Debug)]
pub enum ScanReply {
    /// All schedules, or why they could not be read.
    All(Result<Vec<ScheduleDoc>, String>),
    /// Stored, or not.
    Stored,
    /// Published, or not.
    Published,
    /// How the call went.
    Called(Result<(), String>),
    /// The schedule asked for; nothing where it is gone or could not be read.
    Found(Option<ScheduleDoc>),
}

/// Whether the marks of all these fires can be counted.
pub open spec fn countable(fires: Seq<DueFire>) -> bool {
    forall|i: int| 0 <= i < fires.len() ==> (#[trigger] fires[i]).doc.fire_count < u64::MAX
}

/// The fires still to come.
pub open spec fn still_due(step: ScanStep) -> Seq<DueFire> {
    match step {
        ScanStep::AwaitAll => Seq::empty(),
        ScanStep::AwaitMarked { rest, .. } => rest@,
        ScanStep::AwaitPublished { rest, .. } => rest@,
        ScanStep::AwaitCalled { rest, .. } => rest@,
        ScanStep::AwaitFailed { rest, .. } => rest@,
        ScanStep::AwaitNoted { rest, .. } => rest@,
        ScanStep::Done { .. } => Seq::empty(),
    }
}

/// How many schedules were due, once that is known.
pub open spec fn due_count(step: ScanStep) -> Option<usize> {
    match step {
        ScanStep::AwaitAll => None,
        ScanStep::AwaitMarked { total, .. } => Some(total),
        ScanStep::AwaitPublished { total, .. } => Some(total),
        ScanStep::AwaitCalled { total, .. } => Some(total),
        ScanStep::AwaitFailed { total, .. } => Some(total),
        ScanStep::AwaitNoted { total, .. } => Some(total),
        ScanStep::Done { result } => match result {
            Ok(n) => Some(n),
            Err(_) => None,
        },
    }
}

/// Whether `reply` says what became of `step`.
pub open spec fn scan_answers(step: ScanStep, reply: ScanReply) -> bool {
    match step {
        ScanStep::AwaitAll => reply matches ScanReply::All(r) && (r matches Ok(docs) ==> forall|
            i: int,
        |
            0 <= i < docs@.len() ==> computable(#[trigger] docs@[i]) && docs@[i].fire_count
                < u64::MAX),
        ScanStep::AwaitMarked { .. } => reply is Stored,
        ScanStep::AwaitPublished { .. } => reply is Published,
        ScanStep::AwaitCalled { .. } => reply is Called,
        ScanStep::AwaitFailed { .. } => reply is Found,
        ScanStep::AwaitNoted { .. } => reply is Stored,
        ScanStep::Done { .. } => false,
    }
}

/// Whether `step` takes up the first of the fires still to come, or ends the
/// scan where there is none.
pub open spec fn takes_up(step: ScanStep, fires: Seq<DueFire>, total: usize, now_ms: i64) -> bool {
    if fires.len() == 0 {
        step == (ScanStep::Done { result: Ok(total) })
    } else {
        &&& step matches ScanStep::AwaitMarked { doc, scheduled_for_ms, late, rest, total: n }
        &&& doc == marked(fires[0], now_ms)
        &&& scheduled_for_ms == fires[0].scheduled_for_ms
        &&& late == fires[0].late
        &&& rest@ == fires.drop_first()
        &&& n == total
    }
}

/// A scan deals with its fires one after the other, first come first served, and
/// ends with their number once none is left.
pub proof fn lemma_scan_takes_the_first(
    step: ScanStep,
    fires: Seq<DueFire>,
    total: usize,
    now_ms: i64,
)
    requires
        takes_up(step, fires, total, now_ms),
    ensures
        fires.len() == 0 ==> step is Done && step->result == Ok::<usize, String>(total),
        fires.len() > 0 ==> step is AwaitMarked && step->AwaitMarked_doc.id == fires[0].doc.id
            && step->AwaitMarked_doc.fire == fires[0].doc.fire
            && step->AwaitMarked_scheduled_for_ms == fires[0].scheduled_for_ms
            && step->AwaitMarked_late == fires[0].late && seq![fires[0]]
            + step->AwaitMarked_rest@ == fires && step->AwaitMarked_total == total,
{
    if fires.len() > 0 {
        assert(seq![fires[0]] + fires.drop_first() =~= fires);
    }
}

fn take_up(fires: Vec<DueFire>, total: usize, now_ms: i64) -> (r: ScanStep)
    requires
        countable(fires@),
    ensures
        takes_up(r, fires@, total, now_ms),
        countable(still_due(r)),
{
    if fires.len() == 0 {
        return ScanStep::Done { result: Ok(total) };
    }
    let mut rest = fires;
    let fire = rest.remove(0);
    let scheduled_for_ms: i64 = fire.scheduled_for_ms;
    let late = fire.late;
    let doc = mark_fired(fire, now_ms);
    ScanStep::AwaitMarked { doc, scheduled_for_ms, late, rest, total }
}

/// The first step of a scan.
pub fn begin_scan() -> (r: ScanStep)
    ensures
        r is AwaitAll,
{
    ScanStep::AwaitAll
}

/// Goes on with a scan at `now_ms`: every fire is marked first and dispatched
/// after that, one at a time in the order of the schedules, and an action that
/// fails is noted with its schedule. `clock_ms` is the instant of the reply.
pub fn scan_step(step: ScanStep, reply: ScanReply, now_ms: i64, clock_ms: i64) -> (r: ScanStep)
    requires
        scan_answers(step, reply),
        countable(still_due(step)),
    ensures
        countable(still_due(r)),
        due_count(step) is Some ==> due_count(r) == due_count(step),
        match (step, reply) {
            (ScanStep::AwaitAll, ScanReply::All(Err(e))) => r == (ScanStep::Done { result: Err(e) }),
            (ScanStep::AwaitAll, ScanReply::All(Ok(docs))) => {
                let due = fires_given(docs@, next_fires(docs@), now_ms as int, docs@.len());
                &&& takes_up(r, due, due.len() as usize, now_ms)
                &&& due.len() <= usize::MAX
            },
            (
                ScanStep::AwaitMarked { doc, scheduled_for_ms, late, rest, total },
                ScanReply::Stored,
            ) => match doc.fire {
                Fire::Event { payload } => r == (ScanStep::AwaitPublished {
                    event: FiredEvent {
                        schedule_id: doc.id,
                        name: doc.name,
                        scheduled_for_ms,
                        late,
                        fire_count: doc.fire_count,
                    },
                    payload,
                    rest,
                    total,
                }),
                Fire::Action { name, params } => r == (ScanStep::AwaitCalled {
                    id: doc.id,
                    name,
                    params,
                    rest,
                    total,
                }),
            },
            (ScanStep::AwaitPublished { rest, total, .. }, ScanReply::Published) => takes_up(
                r,
                rest@,
                total,
                now_ms,
            ),
            (ScanStep::AwaitCalled { rest, total, .. }, ScanReply::Called(Ok(_))) => takes_up(
                r,
                rest@,
                total,
                now_ms,
            ),
            (ScanStep::AwaitCalled { id, rest, total, .. }, ScanReply::Called(Err(error))) => r == (
            ScanStep::AwaitFailed { id, error, rest, total }),
            (ScanStep::AwaitFailed { rest, total, .. }, ScanReply::Found(None)) => takes_up(
                r,
                rest@,
                total,
                now_ms,
            ),
            (ScanStep::AwaitFailed { error, rest, total, .. }, ScanReply::Found(Some(doc))) => {
                &&& r matches ScanStep::AwaitNoted { doc: noted, rest: left, total: n }
                &&& noted == (ScheduleDoc {
                    last_error: noted.last_error,
                    updated_at_ms: clock_ms,
                    ..doc
                })
                &&& noted.last_error is Some
                &&& is_kept_error(error@, noted.last_error->0@)
                &&& left == rest
                &&& n == total
            },
            (ScanStep::AwaitNoted { rest, total, .. }, ScanReply::Stored) => takes_up(
                r,
                rest@,
                total,
                now_ms,
            ),
            _ => false,
        },
{
    match (step, reply) {
        (ScanStep::AwaitAll, ScanReply::All(Err(e))) => ScanStep::Done { result: Err(e) },
        (ScanStep::AwaitAll, ScanReply::All(Ok(docs))) => {
            let due = due_schedules(&docs, now_ms);
            proof {
                lemma_fires_from(docs@, next_fires(docs@), now_ms as int, docs@.len());
            }
            let total: usize = due.len();
            take_up(due, total, now_ms)
        },
        (
            ScanStep::AwaitMarked { doc, scheduled_for_ms, late, rest, total },
            ScanReply::Stored,
        ) => {
            let event = fired_event(&doc, scheduled_for_ms, late);
            match doc.fire {
                Fire::Event { payload } => ScanStep::AwaitPublished { event, payload, rest, total },
                Fire::Action { name, params } => ScanStep::AwaitCalled {
                    id: doc.id,
                    name,
                    params,
                    rest,
                    total,
                },
            }
        },
        (ScanStep::AwaitPublished { rest, total, .. }, ScanReply::Published) => take_up(
            rest,
            total,
            now_ms,
        ),
        (ScanStep::AwaitCalled { rest, total, .. }, ScanReply::Called(Ok(_))) => take_up(
            rest,
            total,
            now_ms,
        ),
        (ScanStep::AwaitCalled { id, rest, total, .. }, ScanReply::Called(Err(error))) => {
            ScanStep::AwaitFailed { id, error, rest, total }
        },
        (ScanStep::AwaitFailed { rest, total, .. }, ScanReply::Found(None)) => take_up(
            rest,
            total,
            now_ms,
        ),
        (ScanStep::AwaitFailed { error, rest, total, .. }, ScanReply::Found(Some(doc))) => {
            ScanStep::AwaitNoted {
                doc: record_last_error(doc, error.as_str(), clock_ms),
                rest,
                total,
            }
        },
        (ScanStep::AwaitNoted { rest, total, .. }, ScanReply::Stored) => take_up(
            rest,
            total,
            now_ms,
        ),
        (s, _) => s,
    }
}

/// The document of every fire is one of those it was selected from.
proof fn lemma_fires_from(docs: Seq<ScheduleDoc>, nexts: Seq<Option<i64>>, now_ms: int, k: nat)
    requires
        k <= docs.len() == nexts.len(),
    ensures
        fires_given(docs, nexts, now_ms, k).len() <= k,
        forall|i: int|
            0 <= i < fires_given(docs, nexts, now_ms, k).len() ==> docs.contains(
                (#[trigger] fires_given(docs, nexts, now_ms, k)[i]).doc,
            ),
    decreases k,
{
    if k > 0 {
        lemma_fires_from(docs, nexts, now_ms, (k - 1) as nat);
        let before = fires_given(docs, nexts, now_ms, (k - 1) as nat);
        let all = fires_given(docs, nexts, now_ms, k);
    }
}

// ---------------------------------------------------------------------------
// Listings
// ---------------------------------------------------------------------------

/// What a listing is sorted by: the soonest fire first, schedules with nothing
/// pending last, then the smaller id.
#[derive(Debug, Clone, Copy, PartialEq, Eq, Structural)]
pub struct ScheduleKey {
    pub next: Option<i64>,
    pub id: u64,
}

/// Whether a pending fire comes before another one, if that is pending at all.
pub open spec fn sooner(a: Option<i64>, b: Option<i64>) -> bool {
    match (a, b) {
        (Some(x), Some(y)) => x < y,
        (Some(_), None) => true,
        (None, _) => false,
    }
}

impl Ranked for ScheduleKey {
    open spec fn before_or_level(&self, other: &Self) -> bool {
        sooner(self.next, other.next) || (self.next == other.next && self.id <= other.id)
    }

    fn not_after(&self, other: &Self) -> (r: bool) {
        match (self.next, other.next) {
            (Some(x), Some(y)) => x < y || (x == y && self.id <= other.id),
            (Some(_), None) => true,
            (None, Some(_)) => false,
            (None, None) => self.id <= other.id,
        }
    }

    proof fn rank_total(a: &Self, b: &Self) {
    }

    proof fn rank_transitive(a: &Self, b: &Self, c: &Self) {
    }
}

pub open spec fn schedule_key(doc: ScheduleDoc, next: Option<i64>) -> ScheduleKey {
    ScheduleKey { next, id: id_value(doc.id@) }
}

/// Whether `q` lists all schedules by when they fire next.
pub open spec fn is_schedule_listing(
    docs: Seq<ScheduleDoc>,
    nexts: Seq<Option<i64>>,
    q: Seq<usize>,
) -> bool {
    lists(
        docs.len(),
        |i: int| true,
        |i: int| schedule_key(docs[i], nexts[i]),
        q,
    )
}

/// A listing names every schedule once: what fires sooner comes first, what never
/// fires comes last, and of two that fire together the one with the smaller id
/// comes first.
pub proof fn lemma_listed_schedules_are_all(
    docs: Seq<ScheduleDoc>,
    nexts: Seq<Option<i64>>,
    q: Seq<usize>,
)
    requires
        docs.len() == nexts.len() <= usize::MAX,
        is_schedule_listing(docs, nexts, q),
    ensures
        q.no_duplicates(),
        forall|a: int| 0 <= a < q.len() ==> (#[trigger] q[a]) < docs.len(),
        forall|j: usize| j < docs.len() ==> #[trigger] q.contains(j),
        forall|a: int, b: int|
            #![trigger q[a], q[b]]
            0 <= a < b < q.len() ==> match (nexts[q[a] as int], nexts[q[b] as int]) {
                (Some(x), Some(y)) => x < y || x == y && id_value(docs[q[a] as int].id@)
                    <= id_value(docs[q[b] as int].id@),
                (Some(_), None) => true,
                (None, Some(_)) => false,
                (None, None) => id_value(docs[q[a] as int].id@) <= id_value(
                    docs[q[b] as int].id@,
                ),
            },
{
    let keep = |i: int| true;
    let key = |i: int| schedule_key(docs[i], nexts[i]);
    lemma_listing_counts(docs.len(), keep, key, q);
    assert forall|j: usize| j < docs.len() implies #[trigger] q.contains(j) by {
        assert(keep(j as int));
    }
    assert forall|a: int, b: int| #![trigger q[a], q[b]] 0 <= a < b < q.len() implies match (
        nexts[q[a] as int],
        nexts[q[b] as int],
    ) {
        (Some(x), Some(y)) => x < y || x == y && id_value(docs[q[a] as int].id@) <= id_value(
            docs[q[b] as int].id@,
        ),
        (Some(_), None) => true,
        (None, Some(_)) => false,
        (None, None) => id_value(docs[q[a] as int].id@) <= id_value(docs[q[b] as int].id@),
    } by {
        assert(comes_before(key, q[a], q[b]));
    }
}

/// The page of schedules, as positions in `docs`; `nexts` says when each fires
/// next.
pub fn list_schedules(
    docs: &Vec<ScheduleDoc>,
    nexts: &Vec<Option<i64>>,
    limit: usize,
    offset: usize,
) -> (r: Vec<usize>)
    requires
        docs@.len() == nexts@.len(),
    ensures
        exists|q: Seq<usize>|
            is_schedule_listing(docs@, nexts@, q) && r@ == page_of(
                q,
                offset as nat,
                limit as nat,
            ),
        forall|a: int| 0 <= a < r@.len() ==> (#[trigger] r@[a]) < docs@.len(),
        forall|a: int, b: int|
            #![trigger r@[a], r@[b]]
            0 <= a < b < r@.len() ==> r@[a] != r@[b] && match (
                nexts@[r@[a] as int],
                nexts@[r@[b] as int],
            ) {
                (Some(x), Some(y)) => x <= y,
                (None, Some(_)) => false,
                _ => true,
            },
        r@.len() == if offset >= docs@.len() {
            0
        } else if limit <= docs@.len() - offset {
            limit as int
        } else {
            docs@.len() - offset
        },
{
    let mut kept: Vec<usize> = Vec::new();
    let mut keys: Vec<ScheduleKey> = Vec::new();
    let ghost keep = |i: int| true;
    let ghost key = |i: int| schedule_key(docs@[i], nexts@[i]);
    let mut i: usize = 0;
    while i < docs.len()
        invariant
            i <= docs.len() == nexts.len(),
            keep == |i: int| true,
            key == |i: int| schedule_key(docs@[i], nexts@[i]),
            kept@.len() == keys@.len() == i,
            forall|a: int| 0 <= a < kept@.len() ==> (#[trigger] kept@[a]) == a,
            forall|a: int| 0 <= a < kept@.len() ==> (#[trigger] keys@[a]) == key(kept@[a] as int),
        decreases docs.len() - i,
    {
        kept.push(i);
        keys.push(ScheduleKey { next: nexts[i], id: id_num(docs[i].id.as_str()) });
        i += 1;
    }
    let q = order_kept(&kept, &keys);
    proof {
        assert forall|j: usize| j < docs@.len() && keep(
            j as int,
        ) implies #[trigger] kept@.contains(j) by {
            assert(kept@[j as int] == j);
        }
        lemma_lists(docs@.len(), keep, key, kept@, keys@, q@);
    }
    proof {
        lemma_listed_schedules_are_all(docs@, nexts@, q@);
        lemma_page(q@, offset as nat, limit as nat);
    }
    take_page(&q, offset, limit)
}

// ---------------------------------------------------------------------------
// Actions
// ---------------------------------------------------------------------------

/// A schedule to set, with its trigger resolved.
#[derive(Debug)]
pub struct NewSchedule {
    pub id: Option<String>,
    pub name: Option<String>,
    pub enabled: bool,
    pub trigger: Trigger,
    pub fire: Fire,
}

/// A validated request.
#[derive(Debug)]
pub enum SchedulerRequest {
    SetSchedule { new: NewSchedule },
    Get { id: String },
    List { limit: usize, offset: usize },
    Delete { id: String },
}

/// The document of a schedule that is set: nothing has fired yet.
pub open spec fn fresh_doc(
    id: String,
    new: NewSchedule,
    created_at_ms: i64,
    now_ms: i64,
) -> ScheduleDoc {
    ScheduleDoc {
        id,
        name: new.name,
        enabled: new.enabled,
        trigger: new.trigger,
        fire: new.fire,
        fired_once: false,
        fire_count: 0,
        last_fired_ms: None,
        last_error: None,
        created_at_ms,
        updated_at_ms: now_ms,
    }
}

/// A schedule that is set is what the caller asked for and has not fired yet.
pub proof fn lemma_a_set_schedule_is_as_asked_for(
    id: String,
    new: NewSchedule,
    created_at_ms: i64,
    now_ms: i64,
)
    ensures
        fresh_doc(id, new, created_at_ms, now_ms).id == id,
        fresh_doc(id, new, created_at_ms, now_ms).name == new.name,
        fresh_doc(id, new, created_at_ms, now_ms).enabled == new.enabled,
        fresh_doc(id, new, created_at_ms, now_ms).trigger == new.trigger,
        fresh_doc(id, new, created_at_ms, now_ms).fire == new.fire,
        fresh_doc(id, new, created_at_ms, now_ms).fire_count == 0,
        !fresh_doc(id, new, created_at_ms, now_ms).fired_once,
        fresh_doc(id, new, created_at_ms, now_ms).last_fired_ms is None,
        fresh_doc(id, new, created_at_ms, now_ms).last_error is None,
        fresh_doc(id, new, created_at_ms, now_ms).created_at_ms == created_at_ms,
        fresh_doc(id, new, created_at_ms, now_ms).updated_at_ms == now_ms,
        new.enabled && new.trigger is Once ==> next_fire(
            fresh_doc(id, new, created_at_ms, now_ms),
        ) == Some(new.trigger->at_ms),
{
}

/// The document of a schedule that is set.
pub fn build_doc(id: String, new: NewSchedule, created_at_ms: i64, now_ms: i64) -> (r: ScheduleDoc)
    ensures
        r == fresh_doc(id, new, created_at_ms, now_ms),
        r.id == id && r.name == new.name && r.enabled == new.enabled && r.trigger == new.trigger
            && r.fire == new.fire,
        r.fire_count == 0 && !r.fired_once && r.last_fired_ms is None && r.last_error is None,
        r.created_at_ms == created_at_ms && r.updated_at_ms == now_ms,
{
    ScheduleDoc {
        id,
        name: new.name,
        enabled: new.enabled,
        trigger: new.trigger,
        fire: new.fire,
        fired_once: false,
        fire_count: 0,
        last_fired_ms: None,
        last_error: None,
        created_at_ms,
        updated_at_ms: now_ms,
    }
}

/// A change event to publish after the reply.
#[derive(Debug, PartialEq, Eq)]
pub struct ChangeEvent {
    pub op: &'static str,
    pub id: String,
}

/// What a handled action replies with.
#[derive(Debug, PartialEq, Eq)]
pub enum SchedulerData {
    Stored { created: bool, schedule: ScheduleDoc },
    Got { schedule: Option<ScheduleDoc> },
    /// The schedules at the positions `page` of `schedules`.
    Listed { schedules: Vec<ScheduleDoc>, page: Vec<usize>, total: usize },
    Deleted { deleted: bool },
}

/// One handled action.
#[derive(Debug, PartialEq, Eq)]
pub struct ActionResult {
    pub data: SchedulerData,
    pub event: Option<ChangeEvent>,
}

/// An action under way: what the storage is asked for next, and what is kept
/// until it answers.
#[derive(Debug)]
pub enum SchedulerStep {
    /// Ask for the schedule `id`, to replace it.
    AwaitExisting { id: String, new: NewSchedule },
    /// Ask for a fresh id.
    AwaitId { new: NewSchedule },
    /// Store `doc`.
    AwaitStored { doc: ScheduleDoc, created: bool },
    /// Ask for the schedule `id`, to hand it out.
    AwaitDoc { id: String },
    /// Ask for all schedules.
    AwaitAll { limit: usize, offset: usize },
    /// Delete the schedule `id`.
    AwaitDeleted { id: String },
    /// Nothing left to ask.
    Done { result: Result<ActionResult, String> },
}

/// What the storage answers.
#[derive(Debug)]
pub enum SchedulerReply {
    Id(u64),
    Found(Option<ScheduleDoc>),
    All(Vec<ScheduleDoc>),
    Stored,
    Deleted(bool),
    Failed(String),
}

/// Whether `reply` answers what `step` asks.
pub open spec fn answers(step: SchedulerStep, reply: SchedulerReply) -> bool {
    match step {
        SchedulerStep::AwaitExisting { .. } => reply is Found || reply is Failed,
        SchedulerStep::AwaitId { .. } => reply is Id || reply is Failed,
        SchedulerStep::AwaitStored { .. } => reply is Stored || reply is Failed,
        SchedulerStep::AwaitDoc { .. } => reply is Found || reply is Failed,
        SchedulerStep::AwaitAll { .. } => reply is Failed || (reply matches SchedulerReply::All(d)
            && forall|i: int| 0 <= i < d@.len() ==> computable(#[trigger] d@[i])),
        SchedulerStep::AwaitDeleted { .. } => reply is Deleted || reply is Failed,
        SchedulerStep::Done { .. } => false,
    }
}

/// The first step of a request.
pub fn begin(req: SchedulerRequest) -> (r: SchedulerStep)
    ensures
        match req {
            SchedulerRequest::SetSchedule { new } => match new.id {
                Some(id) => r == (SchedulerStep::AwaitExisting {
                    id,
                    new: NewSchedule { id: None, ..new },
                }),
                None => r == (SchedulerStep::AwaitId { new }),
            },
            SchedulerRequest::Get { id } => r == (SchedulerStep::AwaitDoc { id }),
            SchedulerRequest::List { limit, offset } => r == (SchedulerStep::AwaitAll {
                limit,
                offset,
            }),
            SchedulerRequest::Delete { id } => r == (SchedulerStep::AwaitDeleted { id }),
        },
{
    match req {
        SchedulerRequest::SetSchedule { new } => {
            let NewSchedule { id, name, enabled, trigger, fire } = new;
            let rest = NewSchedule { id: None, name, enabled, trigger, fire };
            match id {
                Some(id) => SchedulerStep::AwaitExisting { id, new: rest },
                None => SchedulerStep::AwaitId { new: rest },
            }
        },
        SchedulerRequest::Get { id } => SchedulerStep::AwaitDoc { id },
        SchedulerRequest::List { limit, offset } => SchedulerStep::AwaitAll { limit, offset },
        SchedulerRequest::Delete { id } => SchedulerStep::AwaitDeleted { id },
    }
}

/// Whether a step ends the action successfully with `data`, publishing `op`
/// for `id` where there was a change.
pub open spec fn ends_with(
    step: SchedulerStep,
    data: SchedulerData,
    change: Option<(Seq<char>, Seq<char>)>,
) -> bool {
    &&& step matches SchedulerStep::Done { result }
    &&& result matches Ok(a)
    &&& a.data == data
    &&& match change {
        Some((op, id)) => a.event is Some && a.event->0.op@ == op && a.event->0.id@ == id,
        None => a.event is None,
    }
}

/// Whether a step ends the action with the error `e`.
pub open spec fn fails_with(step: SchedulerStep, e: Seq<char>) -> bool {
    &&& step matches SchedulerStep::Done { result }
    &&& result matches Err(m)
    &&& m@ == e
}

/// An action that ends well replies with its data, and announces a change exactly
/// where there was one, under the id that changed; one that fails gives its error.
pub proof fn lemma_how_an_action_ends(
    step: SchedulerStep,
    data: SchedulerData,
    change: Option<(Seq<char>, Seq<char>)>,
    e: Seq<char>,
)
    ensures
        ends_with(step, data, change) ==> step is Done && step->result is Ok
            && step->result->Ok_0.data == data && (step->result->Ok_0.event is Some <==> change
            is Some),
        ends_with(step, data, change) ==> (change matches Some((op, id))
            ==> step->result->Ok_0.event->0.op@ == op && step->result->Ok_0.event->0.id@ == id),
        fails_with(step, e) ==> step is Done && step->result is Err && step->result->Err_0@ == e,
        !(ends_with(step, data, change) && fails_with(step, e)),
{
}

fn done(data: SchedulerData, event: Option<ChangeEvent>) -> (r: SchedulerStep)
    ensures
        r == (SchedulerStep::Done { result: Ok(ActionResult { data, event }) }),
{
    SchedulerStep::Done { result: Ok(ActionResult { data, event }) }
}

/// Goes on with an action: `reply` answers what `step` asked, at `now_ms`.
pub fn advance(step: SchedulerStep, reply: SchedulerReply, now_ms: i64) -> (r: SchedulerStep)
    requires
        answers(step, reply),
    ensures
        match (step, reply) {
            (_, SchedulerReply::Failed(e)) => fails_with(r, e@),
            (SchedulerStep::AwaitExisting { id, new }, SchedulerReply::Found(found)) => {
                let created_at = match found {
                    Some(d) => d.created_at_ms,
                    None => now_ms,
                };
                r == (SchedulerStep::AwaitStored {
                    doc: fresh_doc(id, new, created_at, now_ms),
                    created: found is None,
                })
            },
            (SchedulerStep::AwaitId { new }, SchedulerReply::Id(n)) => {
                &&& r matches SchedulerStep::AwaitStored { doc, created }
                &&& created
                &&& doc.id@ == decimal(n as nat)
                &&& doc == fresh_doc(doc.id, new, now_ms, now_ms)
            },
            (SchedulerStep::AwaitStored { doc, created }, SchedulerReply::Stored) => ends_with(
                r,
                SchedulerData::Stored { created, schedule: doc },
                Some(
                    (if created {
                        "created"@
                    } else {
                        "updated"@
                    }, doc.id@),
                ),
            ),
            (SchedulerStep::AwaitDoc { id }, SchedulerReply::Found(schedule)) => ends_with(
                r,
                SchedulerData::Got { schedule },
                None,
            ),
            (SchedulerStep::AwaitAll { limit, offset }, SchedulerReply::All(all)) => {
                &&& r matches SchedulerStep::Done { result }
                &&& result matches Ok(a)
                &&& a.event is None
                &&& a.data matches SchedulerData::Listed { schedules, page, total }
                &&& schedules == all
                &&& total == all@.len()
                &&& exists|q: Seq<usize>|
                    is_schedule_listing(all@, next_fires(all@), q) && page@ == page_of(
                        q,
                        offset as nat,
                        limit as nat,
                    )
            },
            (SchedulerStep::AwaitDeleted { id }, SchedulerReply::Deleted(deleted)) => ends_with(
                r,
                SchedulerData::Deleted { deleted },
                if deleted {
                    Some(("deleted"@, id@))
                } else {
                    None
                },
            ),
            _ => false,
        },
{
    match (step, reply) {
        (_, SchedulerReply::Failed(e)) => SchedulerStep::Done { result: Err(e) },
        (SchedulerStep::AwaitExisting { id, new }, SchedulerReply::Found(found)) => {
            let (created_at, created): (i64, bool) = match &found {
                Some(d) => (d.created_at_ms, false),
                None => (now_ms, true),
            };
            SchedulerStep::AwaitStored { doc: build_doc(id, new, created_at, now_ms), created }
        },
        (SchedulerStep::AwaitId { new }, SchedulerReply::Id(n)) => SchedulerStep::AwaitStored {
            doc: build_doc(dec(n), new, now_ms, now_ms),
            created: true,
        },
        (SchedulerStep::AwaitStored { doc, created }, SchedulerReply::Stored) => {
            let id = doc.id.clone();
            let op = if created {
                "created"
            } else {
                "updated"
            };
            done(SchedulerData::Stored { created, schedule: doc }, Some(ChangeEvent { op, id }))
        },
        (SchedulerStep::AwaitDoc { id: _ }, SchedulerReply::Found(schedule)) => done(
            SchedulerData::Got { schedule },
            None,
        ),
        (SchedulerStep::AwaitAll { limit, offset }, SchedulerReply::All(schedules)) => {
            let nexts = all_next_fires(&schedules);
            let page = list_schedules(&schedules, &nexts, limit, offset);
            let total: usize = schedules.len();
            done(SchedulerData::Listed { schedules, page, total }, None)
        },
        (SchedulerStep::AwaitDeleted { id }, SchedulerReply::Deleted(deleted)) => {
            let event = if deleted {
                Some(ChangeEvent { op: "deleted", id })
            } else {
                None
            };
            done(SchedulerData::Deleted { deleted }, event)
        },
        (s, _) => s,
    }
}

/// A schedule is due from its instant on, and is late once that has passed; the fire
/// carries the schedule and the instant.
pub proof fn lemma_when_a_fire_is_due(doc: ScheduleDoc, next: Option<i64>, now_ms: int)
    ensures
        fire_given(doc, next, now_ms) is Some <==> next is Some && next->0 <= now_ms,
        fire_given(doc, next, now_ms) matches Some(fire) ==> fire.doc == doc
            && Some(fire.scheduled_for_ms) == next && (fire.late <==> next->0 < now_ms),
{
}

/// At most 256 bytes of an error are kept, and all of it where it is no longer.
pub proof fn lemma_how_much_of_an_error_is_kept(error: Seq<char>, kept: Seq<char>)
    requires
        is_kept_error(error, kept),
    ensures
        encode_utf8(kept).len() <= 256,
        encode_utf8(kept) == encode_utf8(error).take(encode_utf8(kept).len() as int),
        encode_utf8(error).len() <= 256 ==> kept == error,
{
    lemma_kept_error(error, kept, kept);
}

} // verus!
