//! The `calendar` plugin: events kept as documents of the `database` plugin,
//! and the reminders that they ask for.

use crate::fields::{trim, trimmed};
use crate::listing::{
    id_num, id_value, lemma_listing_counts, lemma_lists, lemma_page, lists, order_kept, page_of,
    take_page,
};
use crate::number::{dec, decimal, signed_dec, signed_decimal};
use crate::settings::{read_setting, setting};
use crate::sorting::Ranked;
use crate::text::{join2, join3, list_contains, lower_ascii, opt_text, same, texts, to_ascii_lower};
use vstd::prelude::*;

verus! {

/// Runtime configuration.
#[derive(Debug, Clone, Copy, PartialEq, Eq, Structural)]
pub struct Config {
    /// Timeout of one call into the database.
    pub db_timeout_ms: u32,
    /// Seconds between two scans for reminders; `0` disables scanning.
    pub scan_secs: u64,
    /// Whether reminders also go through the `notify` plugin.
    pub notify_enabled: bool,
}

impl Default for Config {
    fn default() -> (r: Config)
        ensures
            r == (Config { db_timeout_ms: 5000, scan_secs: 30, notify_enabled: true }),
    {
        Config { db_timeout_ms: 5000, scan_secs: 30, notify_enabled: true }
    }
}

/// Whether a switch is on: unset counts as on, blank, `false` and `0` as off.
pub open spec fn switch_on(value: Option<String>) -> bool {
    match value {
        None => true,
        Some(s) => {
            let v = lower_ascii(trimmed(s@));
            v.len() > 0 && v != "false"@ && v != "0"@
        },
    }
}

impl Config {
    /// The configuration from the values of `CALENDAR_PLUGIN_DB_TIMEOUT_MS`,
    /// `CALENDAR_PLUGIN_SCAN_SECS` and `CALENDAR_PLUGIN_NOTIFY`.
    pub fn from_env(
        db_timeout_ms: &Option<String>,
        scan_secs: &Option<String>,
        notify: &Option<String>,
    ) -> (r: Config)
        ensures
            r.db_timeout_ms == setting(*db_timeout_ms, u32::MAX as nat, 5000),
            r.scan_secs == setting(*scan_secs, u64::MAX as nat, 30),
            r.notify_enabled == switch_on(*notify),
            notify is None ==> r.notify_enabled,
            notify matches Some(s) ==> (r.notify_enabled <==> trimmed(s@).len() > 0 && lower_ascii(
                trimmed(s@),
            ) != "false"@ && lower_ascii(trimmed(s@)) != "0"@),
            db_timeout_ms is None ==> r.db_timeout_ms == 5000,
            scan_secs is None ==> r.scan_secs == 30,
    {
        let timeout: u64 = read_setting(db_timeout_ms, u32::MAX as u64, 5000);
        let notify_enabled = match notify {
            None => true,
            Some(s) => {
                let v = to_ascii_lower(trim(s.as_str()).as_str());
                !v.as_str().is_empty() && !same(v.as_str(), "false") && !same(v.as_str(), "0")
            },
        };
        Config {
            db_timeout_ms: timeout as u32,
            scan_secs: read_setting(scan_secs, u64::MAX, 30),
            notify_enabled,
        }
    }
}

// ---------------------------------------------------------------------------
// Events
// ---------------------------------------------------------------------------

/// One event.
#[derive(Debug, PartialEq, Eq)]
pub struct EventDoc {
    pub id: String,
    pub title: String,
    pub description: String,
    pub start_ms: i64,
    pub end_ms: Option<i64>,
    pub all_day: bool,
    pub remind_before_ms: Option<i64>,
    pub reminder_fired: bool,
    pub tags: Vec<String>,
    pub created_at_ms: i64,
    pub updated_at_ms: i64,
}

/// A new event, before it has an id.
#[derive(Debug, PartialEq, Eq)]
pub struct NewEvent {
    pub title: String,
    pub description: String,
    pub start_ms: i64,
    pub end_ms: Option<i64>,
    pub all_day: bool,
    pub remind_before_ms: Option<i64>,
    pub tags: Vec<String>,
}

/// A change of an event: a given field replaces the event's.
#[derive(Debug, PartialEq, Eq)]
pub struct EventPatch {
    pub title: Option<String>,
    pub description: Option<String>,
    pub start_ms: Option<i64>,
    pub end_ms: Option<i64>,
    pub all_day: Option<bool>,
    pub remind_before_ms: Option<i64>,
    pub tags: Option<Vec<String>>,
}

/// A validated request.
#[derive(Debug)]
pub enum CalendarRequest {
    Create { event: NewEvent },
    Get { id: String },
    List {
        from_ms: Option<i64>,
        to_ms: Option<i64>,
        tag: Option<String>,
        limit: usize,
        offset: usize,
    },
    Update { id: String, patch: EventPatch },
    Delete { id: String },
}

/// Whether a change gives the event another start, end or reminder lead.
pub open spec fn times_changed(doc: EventDoc, patch: EventPatch) -> bool {
    ||| patch.start_ms is Some && patch.start_ms->0 != doc.start_ms
    ||| patch.end_ms is Some && patch.end_ms != doc.end_ms
    ||| patch.remind_before_ms is Some && patch.remind_before_ms != doc.remind_before_ms
}

/// The event after a change at `now_ms`. A change of its times makes a
/// reminder that already fired due again.
pub open spec fn patched(doc: EventDoc, patch: EventPatch, now_ms: i64) -> EventDoc {
    EventDoc {
        id: doc.id,
        title: patch.title.unwrap_or(doc.title),
        description: patch.description.unwrap_or(doc.description),
        start_ms: patch.start_ms.unwrap_or(doc.start_ms),
        end_ms: match patch.end_ms {
            Some(e) => Some(e),
            None => doc.end_ms,
        },
        all_day: patch.all_day.unwrap_or(doc.all_day),
        remind_before_ms: match patch.remind_before_ms {
            Some(r) => Some(r),
            None => doc.remind_before_ms,
        },
        reminder_fired: doc.reminder_fired && !times_changed(doc, patch),
        tags: patch.tags.unwrap_or(doc.tags),
        created_at_ms: doc.created_at_ms,
        updated_at_ms: now_ms,
    }
}

/// A change replaces what it names and nothing else.
pub proof fn lemma_a_change_replaces_what_it_names(doc: EventDoc, patch: EventPatch, now_ms: i64)
    ensures
        ({
            let new = patched(doc, patch, now_ms);
            &&& new.id == doc.id && new.created_at_ms == doc.created_at_ms
            &&& new.updated_at_ms == now_ms
            &&& new.title == if patch.title is Some { patch.title->0 } else { doc.title }
            &&& new.description == if patch.description is Some {
                patch.description->0
            } else {
                doc.description
            }
            &&& new.start_ms == if patch.start_ms is Some { patch.start_ms->0 } else { doc.start_ms }
            &&& new.end_ms == if patch.end_ms is Some { patch.end_ms } else { doc.end_ms }
            &&& new.all_day == if patch.all_day is Some { patch.all_day->0 } else { doc.all_day }
            &&& new.remind_before_ms == if patch.remind_before_ms is Some {
                patch.remind_before_ms
            } else {
                doc.remind_before_ms
            }
            &&& new.tags == if patch.tags is Some { patch.tags->0 } else { doc.tags }
            &&& new.reminder_fired <==> doc.reminder_fired && new.start_ms == doc.start_ms
                && new.end_ms == doc.end_ms && new.remind_before_ms == doc.remind_before_ms
        }),
{
}

/// Whether an event ends before it starts.
pub open spec fn ends_before_start(doc: EventDoc) -> bool {
    doc.end_ms is Some && doc.end_ms->0 < doc.start_ms
}

/// The complaint about an event that would end before it starts.
pub open spec fn order_complaint(end: int, start: int) -> Seq<char> {
    "resulting end_ms must be >= start_ms ("@ + signed_decimal(end) + " < "@ + signed_decimal(start)
        + ")"@
}

/// The event after a change at `now_ms`, or why it is refused.
pub fn update_event(doc: EventDoc, patch: EventPatch, now_ms: i64) -> (r: Result<
    EventDoc,
    String,
>)
    ensures
        ({
            let new = patched(doc, patch, now_ms);
            if ends_before_start(new) {
                r matches Err(e) && e@ == order_complaint(
                    new.end_ms->0 as int,
                    new.start_ms as int,
                )
            } else {
                r == Ok::<EventDoc, String>(new)
            }
        }),
        r is Err <==> ({
            let end = if patch.end_ms is Some { patch.end_ms } else { doc.end_ms };
            let start = if patch.start_ms is Some { patch.start_ms->0 } else { doc.start_ms };
            end is Some && end->0 < start
        }),
        r is Ok ==> r->Ok_0.id == doc.id && r->Ok_0.created_at_ms == doc.created_at_ms
            && r->Ok_0.updated_at_ms == now_ms,
        r is Ok && patch.start_ms is Some ==> r->Ok_0.start_ms == patch.start_ms->0,
        r is Ok && patch.start_ms is None ==> r->Ok_0.start_ms == doc.start_ms,
        r is Ok ==> (r->Ok_0.reminder_fired <==> doc.reminder_fired && r->Ok_0.start_ms
            == doc.start_ms && r->Ok_0.end_ms == doc.end_ms && r->Ok_0.remind_before_ms
            == doc.remind_before_ms),
{
    let start_ms: i64 = patch.start_ms.unwrap_or(doc.start_ms);
    let end_ms = match patch.end_ms {
        Some(e) => Some(e),
        None => doc.end_ms,
    };
    let remind_before_ms = match patch.remind_before_ms {
        Some(r) => Some(r),
        None => doc.remind_before_ms,
    };
    let changed = start_ms != doc.start_ms || (match (patch.end_ms, doc.end_ms) {
        (Some(a), Some(b)) => a != b,
        (Some(_), None) => true,
        (None, _) => false,
    }) || (match (patch.remind_before_ms, doc.remind_before_ms) {
        (Some(a), Some(b)) => a != b,
        (Some(_), None) => true,
        (None, _) => false,
    });
    if let Some(end) = end_ms {
        if end < start_ms {
            let mut e = "resulting end_ms must be >= start_ms (".to_owned();
            e.append(signed_dec(end).as_str());
            e.append(" < ");
            e.append(signed_dec(start_ms).as_str());
            e.append(")");
            return Err(e);
        }
    }
    Ok(
        EventDoc {
            id: doc.id,
            title: patch.title.unwrap_or(doc.title),
            description: patch.description.unwrap_or(doc.description),
            start_ms,
            end_ms,
            all_day: patch.all_day.unwrap_or(doc.all_day),
            remind_before_ms,
            reminder_fired: doc.reminder_fired && !changed,
            tags: patch.tags.unwrap_or(doc.tags),
            created_at_ms: doc.created_at_ms,
            updated_at_ms: now_ms,
        },
    )
}

/// A change that leaves the times alone leaves the reminder alone; one that
/// moves them makes it due again.
pub proof fn lemma_reminder_rearmed(doc: EventDoc, patch: EventPatch, now_ms: i64)
    ensures
        times_changed(doc, patch) ==> !patched(doc, patch, now_ms).reminder_fired,
        !times_changed(doc, patch) ==> patched(doc, patch, now_ms).reminder_fired
            == doc.reminder_fired && patched(doc, patch, now_ms).start_ms == doc.start_ms
            && patched(doc, patch, now_ms).end_ms == doc.end_ms && patched(
            doc,
            patch,
            now_ms,
        ).remind_before_ms == doc.remind_before_ms,
{
}

// ---------------------------------------------------------------------------
// Listings
// ---------------------------------------------------------------------------

/// What a listing of events is sorted by: the earlier start first, then the
/// smaller id.
#[derive(Debug, Clone, Copy, PartialEq, Eq, Structural)]
pub struct EventKey {
    pub start_ms: i64,
    pub id: u64,
}

impl Ranked for EventKey {
    open spec fn before_or_level(&self, other: &Self) -> bool {
        self.start_ms < other.start_ms || (self.start_ms == other.start_ms && self.id <= other.id)
    }

    fn not_after(&self, other: &Self) -> (r: bool) {
        self.start_ms < other.start_ms || (self.start_ms == other.start_ms && self.id <= other.id)
    }

    proof fn rank_total(a: &Self, b: &Self) {
    }

    proof fn rank_transitive(a: &Self, b: &Self, c: &Self) {
    }
}

/// Whether an event starts inside the asked range and carries the asked tag.
pub open spec fn event_listed(
    doc: EventDoc,
    from_ms: Option<i64>,
    to_ms: Option<i64>,
    tag: Option<Seq<char>>,
) -> bool {
    &&& from_ms is Some ==> doc.start_ms >= from_ms->0
    &&& to_ms is Some ==> doc.start_ms <= to_ms->0
    &&& tag is Some ==> texts(doc.tags@).contains(tag->0)
}

pub open spec fn event_key(doc: EventDoc) -> EventKey {
    EventKey { start_ms: doc.start_ms, id: id_value(doc.id@) }
}

/// Whether `q` lists the asked events in chronological order, ties by the
/// smaller id.
pub open spec fn is_event_listing(
    events: Seq<EventDoc>,
    from_ms: Option<i64>,
    to_ms: Option<i64>,
    tag: Option<Seq<char>>,
    q: Seq<usize>,
) -> bool {
    lists(
        events.len(),
        |i: int| event_listed(events[i], from_ms, to_ms, tag),
        |i: int| event_key(events[i]),
        q,
    )
}

/// Whether an event starts no earlier than `from_ms` and no later than `to_ms`,
/// where these are given, and carries `tag`, where one is given.
pub open spec fn asked_for(
    doc: EventDoc,
    from_ms: Option<i64>,
    to_ms: Option<i64>,
    tag: Option<String>,
) -> bool {
    &&& from_ms matches Some(from) ==> from <= doc.start_ms
    &&& to_ms matches Some(to) ==> doc.start_ms <= to
    &&& tag matches Some(t) ==> exists|k: int|
        0 <= k < doc.tags@.len() && (#[trigger] doc.tags@[k])@ == t@
}

/// A listing of events names those that start inside the asked window, both bounds
/// included, and carry the asked tag, as many as there are of them and no others;
/// the earlier start comes first, and of two that start together the one with
/// the smaller id.
pub proof fn lemma_listed_events_are_inside_the_window(
    events: Seq<EventDoc>,
    from_ms: Option<i64>,
    to_ms: Option<i64>,
    tag: Option<String>,
    q: Seq<usize>,
)
    requires
        is_event_listing(events, from_ms, to_ms, opt_text(tag), q),
    ensures
        forall|a: int|
            #![trigger q[a]]
            0 <= a < q.len() ==> {
                &&& q[a] < events.len()
                &&& from_ms is Some ==> events[q[a] as int].start_ms >= from_ms->0
                &&& to_ms is Some ==> events[q[a] as int].start_ms <= to_ms->0
                &&& tag is Some ==> exists|k: int|
                    0 <= k < events[q[a] as int].tags@.len() && (
                    #[trigger] events[q[a] as int].tags@[k])@ == tag->0@
            },
        q.no_duplicates(),
        q.len() == Set::new(
            |j: usize| j < events.len() && asked_for(events[j as int], from_ms, to_ms, tag),
        ).len(),
        forall|j: usize|
            j < events.len() && (from_ms is None || from_ms->0 <= events[j as int].start_ms) && (
            to_ms is None || events[j as int].start_ms <= to_ms->0) && (tag is None || exists|
                k: int,
            |
                0 <= k < events[j as int].tags@.len() && (#[trigger] events[j as int].tags@[k])@
                    == tag->0@) ==> #[trigger] q.contains(j),
        forall|a: int, b: int|
            #![trigger q[a], q[b]]
            0 <= a < b < q.len() ==> {
                let (x, y) = (events[q[a] as int], events[q[b] as int]);
                x.start_ms < y.start_ms || x.start_ms == y.start_ms && id_value(x.id@) <= id_value(
                    y.id@,
                )
            },
{
    let keep = |i: int| event_listed(events[i], from_ms, to_ms, opt_text(tag));
    let key = |i: int| event_key(events[i]);
    lemma_listing_counts(events.len(), keep, key, q);
    assert forall|doc: EventDoc| #[trigger]
        event_listed(doc, from_ms, to_ms, opt_text(tag)) == asked_for(
            doc,
            from_ms,
            to_ms,
            tag,
        ) by {
        if tag is Some {
            let t = tag->0@;
            if texts(doc.tags@).contains(t) {
                let k = texts(doc.tags@).index_of(t);
                assert(doc.tags@[k]@ == t);
            }
            if exists|k: int| 0 <= k < doc.tags@.len() && (#[trigger] doc.tags@[k])@ == t {
                let k = choose|k: int| 0 <= k < doc.tags@.len() && (#[trigger] doc.tags@[k])@ == t;
                assert(texts(doc.tags@)[k] == t);
            }
        }
    }
    let kept = Set::new(|j: usize| j < events.len() && keep(j as int));
    let asked = Set::new(
        |j: usize| j < events.len() && asked_for(events[j as int], from_ms, to_ms, tag),
    );
    assert(kept =~= asked);
    assert forall|a: int| #![trigger q[a]] 0 <= a < q.len() implies q[a] < events.len()
        && asked_for(events[q[a] as int], from_ms, to_ms, tag) by {
        assert(keep(q[a] as int));
    }
    assert forall|j: usize|
        j < events.len() && asked_for(events[j as int], from_ms, to_ms, tag) implies
        #[trigger] q.contains(j) by {
        assert(keep(j as int));
    }
    assert forall|a: int, b: int| #![trigger q[a], q[b]] 0 <= a < b < q.len() implies {
        let (x, y) = (events[q[a] as int], events[q[b] as int]);
        x.start_ms < y.start_ms || x.start_ms == y.start_ms && id_value(x.id@) <= id_value(y.id@)
    } by {
        assert(crate::listing::comes_before(key, q[a], q[b]));
    }
}

/// The page of the asked events, as positions in `events`, and how many there
/// are on all pages.
pub fn list_events(
    events: &Vec<EventDoc>,
    from_ms: Option<i64>,
    to_ms: Option<i64>,
    tag: &Option<String>,
    limit: usize,
    offset: usize,
) -> (r: (Vec<usize>, usize))
    ensures
        exists|q: Seq<usize>|
            is_event_listing(events@, from_ms, to_ms, opt_text(*tag), q) && r.0@ == page_of(
                q,
                offset as nat,
                limit as nat,
            ) && r.1 == q.len(),
        forall|a: int|
            #![trigger r.0@[a]]
            0 <= a < r.0@.len() ==> {
                &&& r.0@[a] < events@.len()
                &&& from_ms is Some ==> events@[r.0@[a] as int].start_ms >= from_ms->0
                &&& to_ms is Some ==> events@[r.0@[a] as int].start_ms <= to_ms->0
                &&& tag is Some ==> exists|k: int|
                    0 <= k < events@[r.0@[a] as int].tags@.len() && (
                    #[trigger] events@[r.0@[a] as int].tags@[k])@ == tag->0@
            },
        forall|a: int, b: int|
            #![trigger r.0@[a], r.0@[b]]
            0 <= a < b < r.0@.len() ==> r.0@[a] != r.0@[b] && events@[r.0@[a] as int].start_ms
                <= events@[r.0@[b] as int].start_ms,
        r.1 == Set::new(
            |j: usize| j < events@.len() && asked_for(events@[j as int], from_ms, to_ms, *tag),
        ).len(),
        r.0@.len() == if offset >= r.1 {
            0
        } else if limit <= r.1 - offset {
            limit as int
        } else {
            r.1 - offset
        },
        offset == 0 && limit >= r.1 ==> forall|j: usize|
            j < events@.len() && (from_ms is None || from_ms->0 <= events@[j as int].start_ms) && (
            to_ms is None || events@[j as int].start_ms <= to_ms->0) && (tag is None || exists|
                k: int,
            |
                0 <= k < events@[j as int].tags@.len() && (#[trigger] events@[j as int].tags@[k])@
                    == tag->0@) ==> #[trigger] r.0@.contains(j),
{
    let mut kept: Vec<usize> = Vec::new();
    let mut keys: Vec<EventKey> = Vec::new();
    let ghost keep = |i: int| event_listed(events@[i], from_ms, to_ms, opt_text(*tag));
    let ghost key = |i: int| event_key(events@[i]);
    let mut i: usize = 0;
    while i < events.len()
        invariant
            i <= events.len(),
            keep == |i: int| event_listed(events@[i], from_ms, to_ms, opt_text(*tag)),
            key == |i: int| event_key(events@[i]),
            kept@.len() == keys@.len(),
            forall|a: int| 0 <= a < kept@.len() ==> (#[trigger] kept@[a]) < i && keep(
                kept@[a] as int,
            ),
            forall|a: int, b: int|
                0 <= a < b < kept@.len() ==> (#[trigger] kept@[a]) < (#[trigger] kept@[b]),
            forall|j: usize| j < i && keep(j as int) ==> #[trigger] kept@.contains(j),
            forall|a: int| 0 <= a < kept@.len() ==> (#[trigger] keys@[a]) == key(kept@[a] as int),
        decreases events.len() - i,
    {
        let doc = &events[i];
        let in_from = match from_ms {
            Some(from) => doc.start_ms >= from,
            None => true,
        };
        let in_to = match to_ms {
            Some(to) => doc.start_ms <= to,
            None => true,
        };
        let in_tag = match tag {
            Some(t) => list_contains(&doc.tags, t.as_str()),
            None => true,
        };
        assert((in_from && in_to && in_tag) == keep(i as int));
        let ghost before = kept@;
        if in_from && in_to && in_tag {
            kept.push(i);
            keys.push(EventKey { start_ms: doc.start_ms, id: id_num(doc.id.as_str()) });
            assert forall|j: usize| j < i + 1 && keep(j as int) implies #[trigger] kept@.contains(
                j,
            ) by {
                if j < i {
                    assert(before.contains(j));
                    let k = before.index_of(j);
                    assert(kept@[k] == j);
                } else {
                    assert(kept@[before.len() as int] == j);
                }
            }
        }
        i += 1;
    }
    let q = order_kept(&kept, &keys);
    proof {
        lemma_lists(events@.len(), keep, key, kept@, keys@, q@);
    }
    proof {
        lemma_listed_events_are_inside_the_window(events@, from_ms, to_ms, *tag, q@);
        lemma_page(q@, offset as nat, limit as nat);
    }
    let page = take_page(&q, offset, limit);
    assert(offset == 0 && limit >= q@.len() ==> page@ =~= q@);
    (page, q.len())
}

// ---------------------------------------------------------------------------
// Actions
// ---------------------------------------------------------------------------

/// A change event to publish after the reply.
#[derive(Debug, PartialEq, Eq)]
pub struct ChangeEvent {
    pub op: &'static str,
    pub id: String,
}

/// What a handled action replies with.
#[derive(Debug, PartialEq, Eq)]
pub enum CalendarData {
    Created { event: EventDoc },
    Got { event: Option<EventDoc> },
    /// The events at the positions `page` of `events`.
    Listed { events: Vec<EventDoc>, page: Vec<usize>, total: usize },
    Updated { event: EventDoc },
    Deleted { deleted: bool },
}

/// One handled action.
#[derive(Debug, PartialEq, Eq)]
pub struct ActionResult {
    pub data: CalendarData,
    pub event: Option<ChangeEvent>,
}

/// An action under way: what the storage is asked for next, and what is kept
/// until it answers.
#[derive(Debug)]
pub enum CalendarStep {
    /// Ask for a fresh id.
    AwaitId { new: NewEvent },
    /// Ask for the event `id`, to hand it out.
    AwaitEvent { id: String },
    /// Ask for all events.
    AwaitAll {
        from_ms: Option<i64>,
        to_ms: Option<i64>,
        tag: Option<String>,
        limit: usize,
        offset: usize,
    },
    /// Ask for the event `id`, to change it.
    AwaitTarget { id: String, patch: EventPatch },
    /// Store `event`.
    AwaitStored { event: EventDoc, created: bool },
    /// Delete the event `id`.
    AwaitDeleted { id: String },
    /// Nothing left to ask.
    Done { result: Result<ActionResult, String> },
}

/// What the storage answers.
#[derive(Debug)]
pub enum CalendarReply {
    Id(u64),
    Found(Option<EventDoc>),
    All(Vec<EventDoc>),
    Stored,
    Deleted(bool),
    Failed(String),
}

/// Whether `reply` answers what `step` asks.
pub open spec fn answers(step: CalendarStep, reply: CalendarReply) -> bool {
    match step {
        CalendarStep::AwaitId { .. } => reply is Id || reply is Failed,
        CalendarStep::AwaitEvent { .. } => reply is Found || reply is Failed,
        CalendarStep::AwaitAll { .. } => reply is All || reply is Failed,
        CalendarStep::AwaitTarget { .. } => reply is Found || reply is Failed,
        CalendarStep::AwaitStored { .. } => reply is Stored || reply is Failed,
        CalendarStep::AwaitDeleted { .. } => reply is Deleted || reply is Failed,
        CalendarStep::Done { .. } => false,
    }
}

/// The first step of a request.
pub fn begin(req: CalendarRequest) -> (r: CalendarStep)
    ensures
        match req {
            CalendarRequest::Create { event } => r == CalendarStep::AwaitId { new: event },
            CalendarRequest::Get { id } => r == CalendarStep::AwaitEvent { id },
            CalendarRequest::List { from_ms, to_ms, tag, limit, offset } => r
                == CalendarStep::AwaitAll { from_ms, to_ms, tag, limit, offset },
            CalendarRequest::Update { id, patch } => r == CalendarStep::AwaitTarget { id, patch },
            CalendarRequest::Delete { id } => r == CalendarStep::AwaitDeleted { id },
        },
{
    match req {
        CalendarRequest::Create { event } => CalendarStep::AwaitId { new: event },
        CalendarRequest::Get { id } => CalendarStep::AwaitEvent { id },
        CalendarRequest::List { from_ms, to_ms, tag, limit, offset } => CalendarStep::AwaitAll {
            from_ms,
            to_ms,
            tag,
            limit,
            offset,
        },
        CalendarRequest::Update { id, patch } => CalendarStep::AwaitTarget { id, patch },
        CalendarRequest::Delete { id } => CalendarStep::AwaitDeleted { id },
    }
}

/// Whether a step ends the action successfully with `data`, publishing `op`
/// for `id` where there was a change.
pub open spec fn ends_with(
    step: CalendarStep,
    data: CalendarData,
    change: Option<(Seq<char>, Seq<char>)>,
) -> bool {
    &&& step matches CalendarStep::Done { result }
    &&& result matches Ok(a)
    &&& a.data == data
    &&& match change {
        Some((op, id)) => a.event is Some && a.event->0.op@ == op && a.event->0.id@ == id,
        None => a.event is None,
    }
}

/// Whether a step ends the action with the error `e`.
pub open spec fn fails_with(step: CalendarStep, e: Seq<char>) -> bool {
    &&& step matches CalendarStep::Done { result }
    &&& result matches Err(m)
    &&& m@ == e
}

/// Whether `doc` is the event `new`, created at `now_ms` under the number `n`.
pub open spec fn created_from(doc: EventDoc, new: NewEvent, n: u64, now_ms: i64) -> bool {
    &&& doc.id@ == decimal(n as nat)
    &&& doc.title == new.title
    &&& doc.description == new.description
    &&& doc.start_ms == new.start_ms
    &&& doc.end_ms == new.end_ms
    &&& doc.all_day == new.all_day
    &&& doc.remind_before_ms == new.remind_before_ms
    &&& !doc.reminder_fired
    &&& doc.tags == new.tags
    &&& doc.created_at_ms == now_ms
    &&& doc.updated_at_ms == now_ms
}

/// A new event is what the caller asked for, under the number it got, and its
/// reminder has not fired.
pub proof fn lemma_a_new_event_is_as_asked_for(doc: EventDoc, new: NewEvent, n: u64, now_ms: i64)
    requires
        created_from(doc, new, n, now_ms),
    ensures
        doc.id@ == decimal(n as nat),
        doc.title == new.title && doc.description == new.description && doc.tags == new.tags,
        doc.start_ms == new.start_ms && doc.end_ms == new.end_ms && doc.all_day == new.all_day,
        doc.remind_before_ms == new.remind_before_ms && !doc.reminder_fired,
        doc.created_at_ms == now_ms && doc.updated_at_ms == now_ms,
        new.remind_before_ms is Some ==> is_due(doc, new.start_ms - new.remind_before_ms->0),
{
}

/// An action that ends well replies with its data, and announces a change exactly
/// where there was one, under the id that changed; one that fails gives its error.
pub proof fn lemma_how_an_action_ends(
    step: CalendarStep,
    data: CalendarData,
    change: Option<(Seq<char>, Seq<char>)>,
    e: Seq<char>,
)
    ensures
        ends_with(step, data, change) ==> step is Done && step->result is Ok
            && step->result->Ok_0.data == data && (step->result->Ok_0.event is Some <==> change
            is Some),
        ends_with(step, data, change) ==> (change matches Some((op, id))
            ==> step->result->Ok_0.event->0.op@ == op && step->result->Ok_0.event->0.id@ == id),
        fails_with(step, e) ==> step is Done && step->result is Err && step->result->Err_0@ == e,
        !(ends_with(step, data, change) && fails_with(step, e)),
{
}

fn done(data: CalendarData, event: Option<ChangeEvent>) -> (r: CalendarStep)
    ensures
        r == (CalendarStep::Done { result: Ok(ActionResult { data, event }) }),
{
    CalendarStep::Done { result: Ok(ActionResult { data, event }) }
}

/// Goes on with an action: `reply` answers what `step` asked, at `now_ms`.
pub fn advance(step: CalendarStep, reply: CalendarReply, now_ms: i64) -> (r: CalendarStep)
    requires
        answers(step, reply),
    ensures
        match (step, reply) {
            (_, CalendarReply::Failed(e)) => fails_with(r, e@),
            (CalendarStep::AwaitId { new }, CalendarReply::Id(n)) => {
                &&& r matches CalendarStep::AwaitStored { event, created }
                &&& created
                &&& created_from(event, new, n, now_ms)
            },
            (CalendarStep::AwaitEvent { id }, CalendarReply::Found(event)) => ends_with(
                r,
                CalendarData::Got { event },
                None,
            ),
            (
                CalendarStep::AwaitAll { from_ms, to_ms, tag, limit, offset },
                CalendarReply::All(all),
            ) => {
                &&& r matches CalendarStep::Done { result }
                &&& result matches Ok(a)
                &&& a.event is None
                &&& a.data matches CalendarData::Listed { events, page, total }
                &&& events == all
                &&& exists|q: Seq<usize>|
                    is_event_listing(all@, from_ms, to_ms, opt_text(tag), q) && page@ == page_of(
                        q,
                        offset as nat,
                        limit as nat,
                    ) && total == q.len()
            },
            (CalendarStep::AwaitTarget { id, patch }, CalendarReply::Found(found)) => match found {
                None => fails_with(r, "event not found: "@ + id@),
                Some(doc) => {
                    let new = patched(doc, patch, now_ms);
                    if ends_before_start(new) {
                        fails_with(
                            r,
                            order_complaint(new.end_ms->0 as int, new.start_ms as int),
                        )
                    } else {
                        r == (CalendarStep::AwaitStored { event: new, created: false })
                    }
                },
            },
            (CalendarStep::AwaitStored { event, created }, CalendarReply::Stored) => if created {
                ends_with(r, CalendarData::Created { event }, Some(("created"@, event.id@)))
            } else {
                ends_with(r, CalendarData::Updated { event }, Some(("updated"@, event.id@)))
            },
            (CalendarStep::AwaitDeleted { id }, CalendarReply::Deleted(deleted)) => ends_with(
                r,
                CalendarData::Deleted { deleted },
                if deleted {
                    Some(("deleted"@, id@))
                } else {
                    None
                },
            ),
            _ => false,
        },
{
    match (step, reply) {
        (_, CalendarReply::Failed(e)) => CalendarStep::Done { result: Err(e) },
        (CalendarStep::AwaitId { new }, CalendarReply::Id(n)) => CalendarStep::AwaitStored {
            event: EventDoc {
                id: dec(n),
                title: new.title,
                description: new.description,
                start_ms: new.start_ms,
                end_ms: new.end_ms,
                all_day: new.all_day,
                remind_before_ms: new.remind_before_ms,
                reminder_fired: false,
                tags: new.tags,
                created_at_ms: now_ms,
                updated_at_ms: now_ms,
            },
            created: true,
        },
        (CalendarStep::AwaitEvent { id: _ }, CalendarReply::Found(event)) => done(
            CalendarData::Got { event },
            None,
        ),
        (
            CalendarStep::AwaitAll { from_ms, to_ms, tag, limit, offset },
            CalendarReply::All(events),
        ) => {
            let (page, total) = list_events(&events, from_ms, to_ms, &tag, limit, offset);
            done(CalendarData::Listed { events, page, total }, None)
        },
        (CalendarStep::AwaitTarget { id, patch }, CalendarReply::Found(found)) => match found {
            None => CalendarStep::Done { result: Err(join2("event not found: ", id.as_str())) },
            Some(doc) => match update_event(doc, patch, now_ms) {
                Ok(event) => CalendarStep::AwaitStored { event, created: false },
                Err(e) => CalendarStep::Done { result: Err(e) },
            },
        },
        (CalendarStep::AwaitStored { event, created }, CalendarReply::Stored) => {
            let id = event.id.clone();
            if created {
                done(CalendarData::Created { event }, Some(ChangeEvent { op: "created", id }))
            } else {
                done(CalendarData::Updated { event }, Some(ChangeEvent { op: "updated", id }))
            }
        },
        (CalendarStep::AwaitDeleted { id }, CalendarReply::Deleted(deleted)) => {
            let event = if deleted {
                Some(ChangeEvent { op: "deleted", id })
            } else {
                None
            };
            done(CalendarData::Deleted { deleted }, event)
        },
        (s, _) => s,
    }
}

// ---------------------------------------------------------------------------
// Reminders
// ---------------------------------------------------------------------------

/// A reminder that is due.
#[derive(Debug)]
pub struct DueFire {
    pub event: EventDoc,
    pub remind_at_ms: i64,
    /// Whether the event had started by then.
    pub late: bool,
}

/// Whether the reminder of an event is due at `now_ms`: it has not fired, it is
/// asked for, and its instant has come.
pub open spec fn is_due(event: EventDoc, now_ms: int) -> bool {
    &&& !event.reminder_fired
    &&& event.remind_before_ms is Some
    &&& event.start_ms - event.remind_before_ms->0 <= now_ms
}

/// The instant of a reminder, or the earliest that there is where it lies before
/// that.
pub open spec fn remind_at(event: EventDoc) -> int {
    let at = event.start_ms - event.remind_before_ms->0;
    if at < i64::MIN {
        i64::MIN as int
    } else {
        at
    }
}

/// Where in the first `k` events those stand whose reminders are due, in order.
pub open spec fn due_positions(events: Seq<EventDoc>, now_ms: int, k: nat) -> Seq<int>
    decreases k,
{
    if k == 0 {
        Seq::empty()
    } else {
        let before = due_positions(events, now_ms, (k - 1) as nat);
        if is_due(events[k - 1], now_ms) {
            before.push(k - 1)
        } else {
            before
        }
    }
}

/// Whether `fire` is the reminder of an event at `now_ms`. The event may have
/// started already.
pub open spec fn is_reminder_of(fire: DueFire, event: EventDoc, now_ms: int) -> bool {
    &&& fire.event == (EventDoc { tags: fire.event.tags, ..event })
    &&& fire.event.tags@ == event.tags@
    &&& fire.remind_at_ms == remind_at(event)
    &&& fire.late == (event.start_ms < now_ms)
}

/// Every reminder whose instant has come is due, exactly once and in the order of
/// the events: one that was asked for, has not fired, and lies so long before the
/// start of its event.
pub proof fn lemma_all_reminders_that_are_due(events: Seq<EventDoc>, now_ms: int, k: nat)
    requires
        k <= events.len(),
    ensures
        forall|a: int|
            #![trigger due_positions(events, now_ms, k)[a]]
            0 <= a < due_positions(events, now_ms, k).len() ==> {
                let i = due_positions(events, now_ms, k)[a];
                &&& 0 <= i < k
                &&& !events[i].reminder_fired
                &&& events[i].remind_before_ms is Some
                &&& now_ms >= events[i].start_ms - events[i].remind_before_ms->0
            },
        forall|i: int|
            0 <= i < k && !(#[trigger] events[i]).reminder_fired && events[i].remind_before_ms
                is Some && now_ms >= events[i].start_ms - events[i].remind_before_ms->0
                ==> due_positions(events, now_ms, k).contains(i),
        forall|a: int, b: int|
            0 <= a < b < due_positions(events, now_ms, k).len() ==> due_positions(
                events,
                now_ms,
                k,
            )[a] < due_positions(events, now_ms, k)[b],
    decreases k,
{
    if k > 0 {
        lemma_all_reminders_that_are_due(events, now_ms, (k - 1) as nat);
        let before = due_positions(events, now_ms, (k - 1) as nat);
        let all = due_positions(events, now_ms, k);
        assert forall|a: int| #![trigger all[a]] 0 <= a < all.len() implies {
            let i = all[a];
            &&& 0 <= i < k
            &&& !events[i].reminder_fired
            &&& events[i].remind_before_ms is Some
            &&& now_ms >= events[i].start_ms - events[i].remind_before_ms->0
        } by {
            if a < before.len() {
                assert(all[a] == before[a]);
            }
        }
        assert forall|i: int|
            0 <= i < k && !(#[trigger] events[i]).reminder_fired && events[i].remind_before_ms
                is Some && now_ms >= events[i].start_ms
                - events[i].remind_before_ms->0 implies all.contains(i) by {
            if i < k - 1 {
                let a = before.index_of(i);
                assert(all[a] == i);
            } else {
                assert(all[before.len() as int] == i);
            }
        }
        assert forall|a: int, b: int| 0 <= a < b < all.len() implies all[a] < all[b] by {
            assert(all[a] == before[a]);
            if b < before.len() {
                assert(all[b] == before[b]);
            }
        }
    }
}

fn copy_event(e: &EventDoc) -> (r: EventDoc)
    ensures
        r == (EventDoc { tags: r.tags, ..*e }),
        r.tags@ == e.tags@,
{
    let mut tags: Vec<String> = Vec::new();
    let mut i: usize = 0;
    while i < e.tags.len()
        invariant
            i <= e.tags.len(),
            tags@ == e.tags@.take(i as int),
        decreases e.tags.len() - i,
    {
        tags.push(e.tags[i].clone());
        assert(tags@ =~= e.tags@.take(i + 1));
        i += 1;
    }
    assert(e.tags@.take(e.tags@.len() as int) =~= e.tags@);
    EventDoc {
        id: e.id.clone(),
        title: e.title.clone(),
        description: e.description.clone(),
        start_ms: e.start_ms,
        end_ms: e.end_ms,
        all_day: e.all_day,
        remind_before_ms: e.remind_before_ms,
        reminder_fired: e.reminder_fired,
        tags,
        created_at_ms: e.created_at_ms,
        updated_at_ms: e.updated_at_ms,
    }
}

/// The reminders that are due at `now_ms`, in the order of `events`.
pub fn due_events(events: &Vec<EventDoc>, now_ms: i64) -> (r: Vec<DueFire>)
    ensures
        r@.len() == due_positions(events@, now_ms as int, events@.len()).len(),
        forall|i: int|
            0 <= i < r@.len() ==> is_reminder_of(
                #[trigger] r@[i],
                events@[due_positions(events@, now_ms as int, events@.len())[i]],
                now_ms as int,
            ),
        now_ms >= 0 ==> wordable(r@, now_ms),
        forall|i: int|
            0 <= i < events@.len() && !(#[trigger] events@[i]).reminder_fired
                && events@[i].remind_before_ms is Some && events@[i].start_ms
                - events@[i].remind_before_ms->0 <= now_ms ==> exists|a: int|
                0 <= a < r@.len() && (#[trigger] r@[a]).event.id == events@[i].id && r@[a].event.title
                    == events@[i].title && r@[a].event.start_ms == events@[i].start_ms && (
                r@[a].late <==> events@[i].start_ms < now_ms),
        forall|a: int|
            0 <= a < r@.len() ==> !(#[trigger] r@[a]).event.reminder_fired
                && r@[a].event.remind_before_ms is Some && r@[a].event.start_ms
                - r@[a].event.remind_before_ms->0 <= now_ms && (r@[a].late
                <==> r@[a].event.start_ms < now_ms),
{
    let mut out: Vec<DueFire> = Vec::new();
    let mut i: usize = 0;
    while i < events.len()
        invariant
            i <= events.len(),
            out@.len() == due_positions(events@, now_ms as int, i as nat).len(),
            forall|j: int|
                0 <= j < out@.len() ==> is_reminder_of(
                    #[trigger] out@[j],
                    events@[due_positions(events@, now_ms as int, i as nat)[j]],
                    now_ms as int,
                ),
            now_ms >= 0 ==> wordable(out@, now_ms),
        decreases events.len() - i,
    {
        let event = &events[i];
        if let Some(before) = event.remind_before_ms {
            let at: i128 = event.start_ms as i128 - before as i128;
            if !event.reminder_fired && at <= now_ms as i128 {
                let remind_at_ms: i64 = if at < i64::MIN as i128 {
                    i64::MIN
                } else {
                    at as i64
                };
                let late = event.start_ms < now_ms;
                out.push(DueFire { event: copy_event(event), remind_at_ms, late });
            }
        }
        i += 1;
    }
    proof {
        let at = due_positions(events@, now_ms as int, events@.len());
        lemma_all_reminders_that_are_due(events@, now_ms as int, events@.len());
        assert forall|i: int|
            0 <= i < events@.len() && !(#[trigger] events@[i]).reminder_fired
                && events@[i].remind_before_ms is Some && events@[i].start_ms
                - events@[i].remind_before_ms->0 <= now_ms implies exists|a: int|
            0 <= a < out@.len() && (#[trigger] out@[a]).event.id == events@[i].id
                && out@[a].event.title == events@[i].title && out@[a].event.start_ms
                == events@[i].start_ms && (out@[a].late <==> events@[i].start_ms < now_ms) by {
            let a = at.index_of(i);
            assert(is_reminder_of(out@[a], events@[at[a]], now_ms as int));
        }
        assert forall|a: int| 0 <= a < out@.len() implies !(#[trigger] out@[a]).event.reminder_fired
            && out@[a].event.remind_before_ms is Some && out@[a].event.start_ms
            - out@[a].event.remind_before_ms->0 <= now_ms && (out@[a].late
            <==> out@[a].event.start_ms < now_ms) by {
            assert(is_reminder_of(out@[a], events@[at[a]], now_ms as int));
        }
    }
    out
}

/// A reminder that has fired is never due again, nor does a change of its event
/// make it due that leaves the times alone.
pub proof fn lemma_fires_at_most_once(event: EventDoc, patch: EventPatch, set_ms: i64, now_ms: int)
    requires
        event.reminder_fired,
    ensures
        !is_due(event, now_ms),
        !times_changed(event, patch) ==> !is_due(patched(event, patch, set_ms), now_ms),
{
}

/// The events after a scan at `now_ms`: those whose reminders were due are
/// marked, the others are as they were.
pub open spec fn scanned(events: Seq<EventDoc>, now_ms: int) -> Seq<EventDoc> {
    Seq::new(
        events.len(),
        |i: int|
            if is_due(events[i], now_ms) {
                EventDoc { reminder_fired: true, ..events[i] }
            } else {
                events[i]
            },
    )
}

/// A second scan at the same instant finds nothing due.
pub proof fn lemma_scan_leaves_nothing_due(events: Seq<EventDoc>, now_ms: int, k: nat)
    requires
        k <= events.len(),
    ensures
        due_positions(scanned(events, now_ms), now_ms, k).len() == 0,
    decreases k,
{
    if k > 0 {
        lemma_scan_leaves_nothing_due(events, now_ms, (k - 1) as nat);
    }
}

/// What a `due` event carries.
#[derive(Debug, PartialEq, Eq)]
pub struct DuePayload {
    pub event_id: String,
    pub title: String,
    pub start_ms: i64,
    pub remind_at_ms: i64,
    pub late: bool,
}

/// The document to store before a reminder goes out, and what its `due` event
/// carries. The mark is stored first: a crash in between loses one reminder,
/// the other order would repeat it forever.
pub fn fire_reminder(fire: DueFire) -> (r: (EventDoc, DuePayload))
    ensures
        r.0 == (EventDoc { reminder_fired: true, ..fire.event }),
        r.1 == (DuePayload {
            event_id: fire.event.id,
            title: fire.event.title,
            start_ms: fire.event.start_ms,
            remind_at_ms: fire.remind_at_ms,
            late: fire.late,
        }),
{
    let payload = DuePayload {
        event_id: fire.event.id.clone(),
        title: fire.event.title.clone(),
        start_ms: fire.event.start_ms,
        remind_at_ms: fire.remind_at_ms,
        late: fire.late,
    };
    let mut doc = fire.event;
    doc.reminder_fired = true;
    (doc, payload)
}

/// The text of a reminder at `now_ms`: the event has been missed, is about to
/// start, or starts in so many minutes.
pub open spec fn reminder_text(fire: DueFire, now_ms: int) -> Seq<char> {
    let title = fire.event.title@;
    let lead = fire.event.start_ms - now_ms;
    if fire.late {
        title + " — missed reminder (started earlier)"@
    } else if fire.event.remind_before_ms == Some(0i64) || lead < 60_000 {
        title + " starts now"@
    } else {
        title + " starts in ~"@ + decimal((lead / 60_000) as nat) + " min"@
    }
}

/// A reminder names its event. One for an event that has started says so; one at
/// the start, or less than a minute before it, says that it starts now; any other
/// gives the whole minutes that are left.
pub proof fn lemma_what_a_reminder_says(fire: DueFire, now_ms: int, minutes: nat)
    ensures
        fire.late ==> reminder_text(fire, now_ms) == fire.event.title@
            + " — missed reminder (started earlier)"@,
        !fire.late && (fire.event.remind_before_ms == Some(0i64) || fire.event.start_ms - now_ms
            < 60_000) ==> reminder_text(fire, now_ms) == fire.event.title@ + " starts now"@,
        !fire.late && fire.event.remind_before_ms != Some(0i64) && minutes >= 1 && now_ms + 60_000
            * minutes <= fire.event.start_ms < now_ms + 60_000 * (minutes + 1) ==> reminder_text(
            fire,
            now_ms,
        ) == fire.event.title@ + " starts in ~"@ + decimal(minutes) + " min"@,
{
}

/// Whether the lead of a reminder can be computed.
pub open spec fn lead_fits(fire: DueFire, now_ms: i64) -> bool {
    !fire.late && fire.event.remind_before_ms != Some(0i64) ==> i64::MIN <= fire.event.start_ms
        - now_ms <= i64::MAX
}

/// The text of a reminder at `now_ms`.
pub fn reminder_message(fire: &DueFire, now_ms: i64) -> (r: String)
    requires
        lead_fits(*fire, now_ms),
    ensures
        r@ == reminder_text(*fire, now_ms as int),
        fire.late ==> r@ == fire.event.title@ + " — missed reminder (started earlier)"@,
        !fire.late && (fire.event.remind_before_ms == Some(0i64) || fire.event.start_ms - now_ms
            < 60_000) ==> r@ == fire.event.title@ + " starts now"@,
        !fire.late && fire.event.remind_before_ms != Some(0i64) && fire.event.start_ms - now_ms
            >= 60_000 ==> r@ == fire.event.title@ + " starts in ~"@ + decimal(
            ((fire.event.start_ms - now_ms) / 60_000) as nat,
        ) + " min"@,
{
    let title = fire.event.title.as_str();
    if fire.late {
        return join2(title, " — missed reminder (started earlier)");
    }
    let at_start = match fire.event.remind_before_ms {
        Some(lead) => lead == 0,
        None => false,
    };
    if at_start {
        return join2(title, " starts now");
    }
    let lead: i64 = fire.event.start_ms - now_ms;
    if lead < 60_000 {
        return join2(title, " starts now");
    }
    let minutes: u64 = lead as u64 / 60_000;
    let head = join2(title, " starts in ~");
    join3(head.as_str(), dec(minutes).as_str(), " min")
}

// ---------------------------------------------------------------------------
// Scans
// ---------------------------------------------------------------------------

/// A scan under way: what to do next, and what is kept until it is done.
/// `rest` are the reminders still to come, `total` is how many there were.
#[derive(Debug)]
pub enum ScanStep {
    /// Store the mark of a reminder, before anything goes out.
    AwaitMarked {
        doc: EventDoc,
        due: DuePayload,
        message: Option<String>,
        rest: Vec<DueFire>,
        total: usize,
    },
    /// Publish a `due` event.
    AwaitPublished { due: DuePayload, message: Option<String>, rest: Vec<DueFire>, total: usize },
    /// Send this message through `notify`.
    AwaitNotified { message: String, rest: Vec<DueFire>, total: usize },
    /// The scan is over, with the number of reminders that were due.
    Done { result: Result<usize, String> },
}

/// What became of a step. Only a mark that could not be stored ends the scan.
#[derive(Debug)]
pub enum ScanReply {
    Stored(Result<(), String>),
    /// Published, or not.
    Published,
    /// Delivered, or not.
    Notified,
}

/// Whether all these reminders can be worded.
pub open spec fn wordable(fires: Seq<DueFire>, now_ms: i64) -> bool {
    forall|i: int| 0 <= i < fires.len() ==> lead_fits(#[trigger] fires[i], now_ms)
}

/// The reminders still to come.
pub open spec fn still_due(step: ScanStep) -> Seq<DueFire> {
    match step {
        ScanStep::AwaitMarked { rest, .. } => rest@,
        ScanStep::AwaitPublished { rest, .. } => rest@,
        ScanStep::AwaitNotified { rest, .. } => rest@,
        ScanStep::Done { .. } => Seq::empty(),
    }
}

/// Whether `reply` says what became of `step`.
pub open spec fn scan_answers(step: ScanStep, reply: ScanReply) -> bool {
    match step {
        ScanStep::AwaitMarked { .. } => reply is Stored,
        ScanStep::AwaitPublished { .. } => reply is Published,
        ScanStep::AwaitNotified { .. } => reply is Notified,
        ScanStep::Done { .. } => false,
    }
}

/// The text that goes to `notify` for a reminder, where that is asked for.
pub open spec fn notified_text(fire: DueFire, notify: bool, now_ms: i64) -> Option<Seq<char>> {
    if notify {
        Some(reminder_text(fire, now_ms as int))
    } else {
        None
    }
}

/// Whether `step` takes up the first of the reminders still to come, or ends
/// the scan where there is none.
pub open spec fn takes_up(
    step: ScanStep,
    fires: Seq<DueFire>,
    total: usize,
    notify: bool,
    now_ms: i64,
) -> bool {
    if fires.len() == 0 {
        step == (ScanStep::Done { result: Ok(total) })
    } else {
        let fire = fires[0];
        &&& step matches ScanStep::AwaitMarked { doc, due, message, rest, total: n }
        &&& doc == (EventDoc { reminder_fired: true, ..fire.event })
        &&& due == (DuePayload {
            event_id: fire.event.id,
            title: fire.event.title,
            start_ms: fire.event.start_ms,
            remind_at_ms: fire.remind_at_ms,
            late: fire.late,
        })
        &&& opt_text(message) == notified_text(fire, notify, now_ms)
        &&& rest@ == fires.drop_first()
        &&& n == total
    }
}

/// A scan deals with its reminders one after the other, first come first served:
/// it marks the event, announces the reminder, and words it for `notify` exactly
/// where that is asked for. It ends with their number once none is left.
pub proof fn lemma_scan_takes_the_first(
    step: ScanStep,
    fires: Seq<DueFire>,
    total: usize,
    notify: bool,
    now_ms: i64,
)
    requires
        takes_up(step, fires, total, notify, now_ms),
    ensures
        fires.len() == 0 ==> step is Done && step->result == Ok::<usize, String>(total),
        fires.len() > 0 ==> {
            &&& step is AwaitMarked
            &&& step->doc.reminder_fired
            &&& step->doc.id == fires[0].event.id
            &&& step->doc.start_ms == fires[0].event.start_ms
            &&& step->doc.tags == fires[0].event.tags
            &&& step->AwaitMarked_due.event_id == fires[0].event.id
            &&& step->AwaitMarked_due.title == fires[0].event.title
            &&& step->AwaitMarked_due.start_ms == fires[0].event.start_ms
            &&& step->AwaitMarked_due.remind_at_ms == fires[0].remind_at_ms
            &&& step->AwaitMarked_due.late == fires[0].late
            &&& step->AwaitMarked_message is Some <==> notify
            &&& notify ==> step->AwaitMarked_message->0@ == reminder_text(fires[0], now_ms as int)
            &&& seq![fires[0]] + step->AwaitMarked_rest@ == fires
            &&& step->AwaitMarked_total == total
        },
{
    if fires.len() > 0 {
        assert(seq![fires[0]] + fires.drop_first() =~= fires);
    }
}

fn take_up(fires: Vec<DueFire>, total: usize, notify: bool, now_ms: i64) -> (r: ScanStep)
    requires
        notify ==> wordable(fires@, now_ms),
    ensures
        takes_up(r, fires@, total, notify, now_ms),
        notify ==> wordable(still_due(r), now_ms),
{
    if fires.len() == 0 {
        return ScanStep::Done { result: Ok(total) };
    }
    let mut rest = fires;
    let fire = rest.remove(0);
    let message = if notify {
        Some(reminder_message(&fire, now_ms))
    } else {
        None
    };
    let (doc, due) = fire_reminder(fire);
    ScanStep::AwaitMarked { doc, due, message, rest, total }
}

/// Begins a scan at `now_ms` over the reminders that are due.
pub fn begin_scan(fires: Vec<DueFire>, notify: bool, now_ms: i64) -> (r: ScanStep)
    requires
        notify ==> wordable(fires@, now_ms),
    ensures
        fires@.len() <= usize::MAX,
        takes_up(r, fires@, fires@.len() as usize, notify, now_ms),
        notify ==> wordable(still_due(r), now_ms),
{
    let total: usize = fires.len();
    take_up(fires, total, notify, now_ms)
}

/// Goes on with a scan: each reminder is marked first and goes out after that,
/// one at a time in order. A reminder that could not be published or delivered
/// does not keep the others from going out.
pub fn scan_step(step: ScanStep, reply: ScanReply, notify: bool, now_ms: i64) -> (r: ScanStep)
    requires
        scan_answers(step, reply),
        notify ==> wordable(still_due(step), now_ms),
    ensures
        notify ==> wordable(still_due(r), now_ms),
        match (step, reply) {
            (ScanStep::AwaitMarked { .. }, ScanReply::Stored(Err(e))) => r == (ScanStep::Done {
                result: Err(e),
            }),
            (
                ScanStep::AwaitMarked { doc, due, message, rest, total },
                ScanReply::Stored(Ok(_)),
            ) => r == (ScanStep::AwaitPublished { due, message, rest, total }),
            (
                ScanStep::AwaitPublished { due, message, rest, total },
                ScanReply::Published,
            ) => match message {
                Some(m) => r == (ScanStep::AwaitNotified { message: m, rest, total }),
                None => takes_up(r, rest@, total, notify, now_ms),
            },
            (ScanStep::AwaitNotified { message, rest, total }, ScanReply::Notified) => takes_up(
                r,
                rest@,
                total,
                notify,
                now_ms,
            ),
            _ => false,
        },
{
    match (step, reply) {
        (ScanStep::AwaitMarked { .. }, ScanReply::Stored(Err(e))) => ScanStep::Done {
            result: Err(e),
        },
        (
            ScanStep::AwaitMarked { due, message, rest, total, .. },
            ScanReply::Stored(Ok(_)),
        ) => ScanStep::AwaitPublished { due, message, rest, total },
        (
            ScanStep::AwaitPublished { message, rest, total, .. },
            ScanReply::Published,
        ) => match message {
            Some(message) => ScanStep::AwaitNotified { message, rest, total },
            None => take_up(rest, total, notify, now_ms),
        },
        (ScanStep::AwaitNotified { rest, total, .. }, ScanReply::Notified) => take_up(
            rest,
            total,
            notify,
            now_ms,
        ),
        (s, _) => s,
    }
}

/// A reminder comes the asked-for time before its event, not before the earliest instant
/// that there is; it is late where the event has started, and carries the event.
pub proof fn lemma_what_a_reminder_is_of(fire: DueFire, event: EventDoc, now_ms: int)
    requires
        is_reminder_of(fire, event, now_ms),
        event.remind_before_ms is Some,
    ensures
        event.start_ms - event.remind_before_ms->0 >= i64::MIN ==> fire.remind_at_ms
            == event.start_ms - event.remind_before_ms->0,
        event.start_ms - event.remind_before_ms->0 < i64::MIN ==> fire.remind_at_ms == i64::MIN,
        fire.late <==> event.start_ms < now_ms,
        fire.event.id == event.id,
        fire.event.title == event.title,
        fire.event.start_ms == event.start_ms,
        fire.event.end_ms == event.end_ms,
        fire.event.tags@ == event.tags@,
{
}

/// An event may end when it starts, but not before; the complaint names both instants.
pub proof fn lemma_no_event_ends_before_it_starts(doc: EventDoc)
    ensures
        doc.end_ms is None ==> !ends_before_start(doc),
        doc.end_ms matches Some(end) ==> (ends_before_start(doc) <==> end < doc.start_ms),
        doc.end_ms matches Some(end) ==> order_complaint(end as int, doc.start_ms as int)
            == "resulting end_ms must be >= start_ms ("@ + signed_decimal(end as int) + " < "@
            + signed_decimal(doc.start_ms as int) + ")"@,
{
}

} // verus!
