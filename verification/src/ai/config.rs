//! Models, agents and discovery sources that the operator declares.

use crate::ai::db::{Agent, AiDb, Model};
use crate::ai::table::{flagged_only, keyed, listed_before, Row, Table};
use crate::sorting::text_le;
use crate::text::{join3, texts};
use vstd::prelude::*;

verus! {

pub const MODELS_ENV: &'static str = "AI_PLUGIN_MODELS";

pub const AGENTS_ENV: &'static str = "AI_PLUGIN_AGENTS";

pub const DISCOVERY_ENV: &'static str = "AI_PLUGIN_DISCOVERY";

/// A provider whose model list is pulled: `ollama` or `openai`.
#[derive(Debug, PartialEq, Eq)]
pub struct DiscoverySource {
    pub provider: String,
    pub base_url: String,
    pub api_key_env: String,
}

/// What the operator declared.
#[derive(Debug, PartialEq, Eq)]
pub struct AiConfig {
    pub models: Vec<Model>,
    pub agents: Vec<Agent>,
    pub discovery: Vec<DiscoverySource>,
}

/// A declaration as it was decoded, or the complaint that names the setting.
pub fn parse_json<T>(name: &str, decoded: Result<Vec<T>, String>) -> (r: Result<Vec<T>, String>)
    ensures
        match (decoded, r) {
            (Ok(a), Ok(b)) => a == b,
            (Err(e), Err(m)) => m@ == name@ + " is not valid JSON: "@ + e@,
            _ => false,
        },
{
    match decoded {
        Ok(v) => Ok(v),
        Err(e) => Err(join3(name, " is not valid JSON: ", e.as_str())),
    }
}

/// Whether a setting holds anything.
pub open spec fn is_declared(raw: Option<String>) -> bool {
    raw is Some && raw->0@.len() > 0
}

/// The declared items: none where the setting is unset, empty or malformed.
pub open spec fn declared_items<T>(raw: Option<String>, decoded: Result<Vec<T>, String>) -> Seq<T> {
    if is_declared(raw) && decoded is Ok {
        decoded->Ok_0@
    } else {
        Seq::empty()
    }
}

/// The note that a malformed declaration is ignored.
pub open spec fn ignored_note(name: Seq<char>, e: Seq<char>) -> Seq<char> {
    "config: "@ + name + " is not valid JSON: "@ + e + " (ignoring "@ + name + ")"@
}

/// What is noted of a setting: that its declaration is ignored where it is
/// malformed, and otherwise nothing.
pub open spec fn ignored_notes<T>(
    name: Seq<char>,
    raw: Option<String>,
    decoded: Result<Vec<T>, String>,
) -> Seq<Seq<char>> {
    if is_declared(raw) && decoded is Err {
        seq![ignored_note(name, decoded->Err_0@)]
    } else {
        Seq::empty()
    }
}

/// The declared items, and a note where a declaration is ignored.
fn declared<T>(name: &str, raw: &Option<String>, decoded: Result<Vec<T>, String>) -> (r: (
    Vec<T>,
    Option<String>,
))
    ensures
        r.0@ == declared_items(*raw, decoded),
        ignored_notes(name@, *raw, decoded) == match r.1 {
            Some(note) => seq![note@],
            None => Seq::empty(),
        },
{
    let set = match raw {
        Some(s) => !s.as_str().is_empty(),
        None => false,
    };
    if !set {
        return (Vec::new(), None);
    }
    match parse_json(name, decoded) {
        Ok(items) => (items, None),
        Err(e) => {
            let mut note = "config: ".to_owned();
            note.append(e.as_str());
            note.append(" (ignoring ");
            note.append(name);
            note.append(")");
            assert(note@ =~= ignored_note(name@, decoded->Err_0@));
            (Vec::new(), Some(note))
        },
    }
}

/// The configuration from the three settings, each with its decoded content,
/// and a note for each declaration that is ignored.
pub fn from_env(
    models_raw: &Option<String>,
    models: Result<Vec<Model>, String>,
    agents_raw: &Option<String>,
    agents: Result<Vec<Agent>, String>,
    discovery_raw: &Option<String>,
    discovery: Result<Vec<DiscoverySource>, String>,
) -> (r: (AiConfig, Vec<String>))
    ensures
        r.0.models@ == declared_items(*models_raw, models),
        r.0.agents@ == declared_items(*agents_raw, agents),
        r.0.discovery@ == declared_items(*discovery_raw, discovery),
        texts(r.1@) == ignored_notes("AI_PLUGIN_MODELS"@, *models_raw, models) + ignored_notes(
            "AI_PLUGIN_AGENTS"@,
            *agents_raw,
            agents,
        ) + ignored_notes("AI_PLUGIN_DISCOVERY"@, *discovery_raw, discovery),
        models_raw is None ==> r.0.models@.len() == 0,
        agents_raw is None ==> r.0.agents@.len() == 0,
        discovery_raw is None ==> r.0.discovery@.len() == 0,
        models_raw is Some && models_raw->0@.len() > 0 && models is Ok ==> r.0.models@
            == models->Ok_0@,
        agents_raw is Some && agents_raw->0@.len() > 0 && agents is Ok ==> r.0.agents@
            == agents->Ok_0@,
        discovery_raw is Some && discovery_raw->0@.len() > 0 && discovery is Ok ==> r.0.discovery@
            == discovery->Ok_0@,
{
    let mut notes: Vec<String> = Vec::new();
    let (models, n1) = declared("AI_PLUGIN_MODELS", models_raw, models);
    if let Some(note) = n1 {
        notes.push(note);
    }
    let (agents, n2) = declared("AI_PLUGIN_AGENTS", agents_raw, agents);
    if let Some(note) = n2 {
        notes.push(note);
    }
    let (discovery, n3) = declared("AI_PLUGIN_DISCOVERY", discovery_raw, discovery);
    if let Some(note) = n3 {
        notes.push(note);
    }
    (AiConfig { models, agents, discovery }, notes)
}

// ---------------------------------------------------------------------------
// Seeding
// ---------------------------------------------------------------------------

/// The rows after the declared ones were put in, one after the other.
pub open spec fn upserted<R: Row>(rows: Map<Seq<char>, R>, declared: Seq<R>) -> Map<Seq<char>, R>
    decreases declared.len(),
{
    if declared.len() == 0 {
        rows
    } else {
        upserted(rows, declared.drop_last()).insert(declared.last().key(), declared.last())
    }
}

/// The id of the last declared row that is flagged.
pub open spec fn last_flagged<R: Row>(declared: Seq<R>) -> Option<Seq<char>>
    decreases declared.len(),
{
    if declared.len() == 0 {
        None
    } else if declared.last().flagged() {
        Some(declared.last().key())
    } else {
        last_flagged(declared.drop_last())
    }
}

/// Whether the row under `id` is listed before all others.
pub open spec fn is_first<R: Row>(rows: Map<Seq<char>, R>, id: Seq<char>) -> bool {
    &&& rows.dom().contains(id)
    &&& forall|k: Seq<char>| #[trigger]
        rows.dom().contains(k) && k != id ==> listed_before(rows[id], rows[k])
}

/// Whether seeding takes `before` to `after`: the declared rows are in, and one
/// row is the default: the last declared one that is flagged, or else the one
/// that is listed first.
pub open spec fn is_seeded<R: Row>(
    before: Map<Seq<char>, R>,
    declared: Seq<R>,
    after: Map<Seq<char>, R>,
) -> bool {
    let rows = upserted(before, declared);
    match last_flagged(declared) {
        Some(id) => after == flagged_only(rows, id),
        None => if rows == Map::<Seq<char>, R>::empty() {
            after == rows
        } else {
            exists|id: Seq<char>| #[trigger] is_first(rows, id) && after == flagged_only(rows, id)
        },
    }
}

proof fn lemma_upserted<R: Row>(rows: Map<Seq<char>, R>, declared: Seq<R>)
    requires
        keyed(rows),
    ensures
        keyed(upserted(rows, declared)),
        forall|k: Seq<char>| #[trigger]
            rows.dom().contains(k) ==> upserted(rows, declared).dom().contains(k),
        last_flagged(declared) matches Some(id) ==> upserted(rows, declared).dom().contains(id),
        forall|i: int|
            0 <= i < declared.len() ==> upserted(rows, declared).dom().contains(
                (#[trigger] declared[i]).key(),
            ),
    decreases declared.len(),
{
    if declared.len() > 0 {
        lemma_upserted(rows, declared.drop_last());
        assert forall|i: int| 0 <= i < declared.len() implies upserted(
            rows,
            declared,
        ).dom().contains((#[trigger] declared[i]).key()) by {
            if i < declared.len() - 1 {
                assert(declared.drop_last()[i] == declared[i]);
            }
        }
    }
}

/// A table that holds anything has exactly one default once it was seeded, no
/// row that was in it is gone, and every declared one is in it.
pub proof fn lemma_seed_leaves_one_default<R: Row>(
    before: Map<Seq<char>, R>,
    declared: Seq<R>,
    after: Map<Seq<char>, R>,
)
    requires
        keyed(before),
        is_seeded(before, declared, after),
    ensures
        forall|k: Seq<char>| #[trigger] before.dom().contains(k) ==> after.dom().contains(k),
        forall|i: int|
            0 <= i < declared.len() ==> after.dom().contains((#[trigger] declared[i]).key()),
        after != Map::<Seq<char>, R>::empty() ==> exists|id: Seq<char>|
            after.dom().contains(id) && forall|k: Seq<char>| #[trigger]
                after.dom().contains(k) ==> after[k].flagged() == (k == id),
{
    let rows = upserted(before, declared);
    lemma_upserted(before, declared);
    match last_flagged(declared) {
        Some(id) => {
            crate::ai::table::lemma_single_default(rows, id);
        },
        None => {
            if rows != Map::<Seq<char>, R>::empty() {
                let id = choose|id: Seq<char>| #[trigger]
                    is_first(rows, id) && after == flagged_only(rows, id);
                crate::ai::table::lemma_single_default(rows, id);
            }
        },
    }
}

/// Puts the declared rows in and settles the default.
fn seed_table<R: Row>(table: &mut Table<R>, declared: &Vec<R>)
    requires
        keyed(old(table).rows@),
    ensures
        is_seeded(old(table).rows@, declared@, final(table).rows@),
        keyed(final(table).rows@),
{
    let ghost before = table.rows@;
    let mut chosen: Option<String> = None;
    let mut i: usize = 0;
    assert(declared@.take(0) =~= Seq::empty());
    while i < declared.len()
        invariant
            i <= declared.len(),
            keyed(table.rows@),
            table.rows@ == upserted(before, declared@.take(i as int)),
            match chosen {
                Some(id) => last_flagged(declared@.take(i as int)) == Some(id@),
                None => last_flagged(declared@.take(i as int)) is None,
            },
        decreases declared.len() - i,
    {
        let row = &declared[i];
        assert(declared@.take(i + 1).drop_last() =~= declared@.take(i as int));
        assert(declared@.take(i + 1).last() == *row);
        table.upsert(row.copy());
        if row.is_flagged() {
            chosen = Some(row.id());
        }
        i += 1;
    }
    assert(declared@.take(declared@.len() as int) =~= declared@);
    let ghost rows = table.rows@;
    match chosen {
        Some(id) => {
            table.set_default(id.as_str());
        },
        None => {
            let all = table.list();
            if all.len() == 0 {
                proof {
                    assert forall|k: Seq<char>| !rows.dom().contains(k) by {
                        if rows.dom().contains(k) {
                            let i = choose|i: int|
                                0 <= i < all@.len() && (#[trigger] all@[i]).key() == k;
                        }
                    }
                    assert(rows =~= Map::<Seq<char>, R>::empty());
                }
                return;
            }
            let id = all[0].id();
            proof {
                assert(rows.dom().contains(all@[0].key()));
                assert(rows != Map::<Seq<char>, R>::empty());
                assert forall|k: Seq<char>| #[trigger]
                    rows.dom().contains(k) && k != id@ implies listed_before(
                    rows[id@],
                    rows[k],
                ) by {
                    let i = choose|i: int| 0 <= i < all@.len() && (#[trigger] all@[i]).key() == k;
                    assert(listed_before(all@[0], all@[i]));
                    assert(rows[all@[i].key()] == all@[i]);
                }
                assert(is_first(rows, id@));
            }
            table.set_default(id.as_str());
        },
    }
}

/// Puts the declared models and agents in and settles one default of each: a
/// declared one wins, otherwise the first that is stored.
pub fn seed(db: &mut AiDb, cfg: &AiConfig)
    requires
        old(db).well_formed(),
    ensures
        final(db).well_formed(),
        is_seeded(old(db).models.rows@, cfg.models@, final(db).models.rows@),
        is_seeded(old(db).agents.rows@, cfg.agents@, final(db).agents.rows@),
        final(db).usage == old(db).usage,
{
    seed_table(&mut db.models, &cfg.models);
    seed_table(&mut db.agents, &cfg.agents);
}

/// A declaration counts where its setting holds anything and is JSON; one that is set and
/// is no JSON is passed over with a note that names it.
pub proof fn lemma_what_is_declared<T>(
    name: Seq<char>,
    raw: Option<String>,
    decoded: Result<Vec<T>, String>,
)
    ensures
        raw is None || raw->0@.len() == 0 || decoded is Err ==> declared_items(raw, decoded).len()
            == 0,
        raw is Some && raw->0@.len() > 0 && decoded is Ok ==> declared_items(raw, decoded)
            == decoded->Ok_0@,
        raw is Some && raw->0@.len() > 0 && decoded is Err ==> ignored_notes(name, raw, decoded)
            == seq![
            "config: "@ + name + " is not valid JSON: "@ + decoded->Err_0@ + " (ignoring "@ + name
                + ")"@,
        ],
        raw is None || raw->0@.len() == 0 || decoded is Ok ==> ignored_notes(
            name,
            raw,
            decoded,
        ).len() == 0,
{
}

proof fn lemma_last_put_in_stays<R: Row>(
    rows: Map<Seq<char>, R>,
    declared: Seq<R>,
    k: Seq<char>,
    i: int,
)
    requires
        0 <= i < declared.len(),
        declared[i].key() == k,
        forall|j: int| i < j < declared.len() ==> (#[trigger] declared[j]).key() != k,
    ensures
        upserted(rows, declared).dom().contains(k),
        upserted(rows, declared)[k] == declared[i],
    decreases declared.len(),
{
    if i < declared.len() - 1 {
        let front = declared.drop_last();
        assert(front[i] == declared[i]);
        assert forall|j: int| i < j < front.len() implies (#[trigger] front[j]).key() != k by {
            assert(front[j] == declared[j]);
        }
        lemma_last_put_in_stays(rows, front, k, i);
        assert(declared[declared.len() - 1].key() != k);
    }
}

proof fn lemma_not_put_in_stays<R: Row>(
    rows: Map<Seq<char>, R>,
    declared: Seq<R>,
    k: Seq<char>,
)
    requires
        forall|j: int| 0 <= j < declared.len() ==> (#[trigger] declared[j]).key() != k,
    ensures
        upserted(rows, declared).dom().contains(k) == rows.dom().contains(k),
        rows.dom().contains(k) ==> upserted(rows, declared)[k] == rows[k],
    decreases declared.len(),
{
    if declared.len() > 0 {
        let front = declared.drop_last();
        assert forall|j: int| 0 <= j < front.len() implies (#[trigger] front[j]).key() != k by {
            assert(front[j] == declared[j]);
        }
        lemma_not_put_in_stays(rows, front, k);
        assert(declared[declared.len() - 1].key() != k);
    }
}

proof fn lemma_last_flag_found<R: Row>(declared: Seq<R>, i: int)
    requires
        0 <= i < declared.len(),
        declared[i].flagged(),
        forall|j: int| i < j < declared.len() ==> !(#[trigger] declared[j]).flagged(),
    ensures
        last_flagged(declared) == Some(declared[i].key()),
    decreases declared.len(),
{
    if i < declared.len() - 1 {
        let front = declared.drop_last();
        assert(front[i] == declared[i]);
        assert forall|j: int| i < j < front.len() implies !(#[trigger] front[j]).flagged() by {
            assert(front[j] == declared[j]);
        }
        lemma_last_flag_found(front, i);
        assert(!declared[declared.len() - 1].flagged());
    }
}

proof fn lemma_no_flag_found<R: Row>(declared: Seq<R>)
    requires
        forall|j: int| 0 <= j < declared.len() ==> !(#[trigger] declared[j]).flagged(),
    ensures
        last_flagged(declared) is None,
    decreases declared.len(),
{
    if declared.len() > 0 {
        let front = declared.drop_last();
        assert forall|j: int| 0 <= j < front.len() implies !(#[trigger] front[j]).flagged() by {
            assert(front[j] == declared[j]);
        }
        lemma_no_flag_found(front);
        assert(!declared[declared.len() - 1].flagged());
    }
}

proof fn lemma_seeding_only_flags<R: Row>(
    before: Map<Seq<char>, R>,
    declared: Seq<R>,
    after: Map<Seq<char>, R>,
    k: Seq<char>,
    flag: bool,
)
    requires
        is_seeded(before, declared, after),
        upserted(before, declared).dom().contains(k),
    ensures
        after.dom().contains(k),
        after[k].with_flag(flag) == upserted(before, declared)[k].with_flag(flag),
{
    let rows = upserted(before, declared);
    rows[k].flag_is_separate(true, flag);
    rows[k].flag_is_separate(false, flag);
}

/// The last declaration of an id is what is stored under it, the default flag aside, and
/// what is not declared stays as it was.
pub proof fn lemma_the_last_declaration_counts<R: Row>(
    before: Map<Seq<char>, R>,
    declared: Seq<R>,
    after: Map<Seq<char>, R>,
    k: Seq<char>,
    i: int,
    flag: bool,
)
    requires
        keyed(before),
        is_seeded(before, declared, after),
    ensures
        0 <= i < declared.len() && declared[i].key() == k && (forall|j: int|
            i < j < declared.len() ==> (#[trigger] declared[j]).key() != k) ==> after.dom().contains(
            k,
        ) && after[k].with_flag(flag) == declared[i].with_flag(flag),
        before.dom().contains(k) && (forall|j: int|
            0 <= j < declared.len() ==> (#[trigger] declared[j]).key() != k)
            ==> after.dom().contains(k) && after[k].with_flag(flag) == before[k].with_flag(flag),
{
    if 0 <= i < declared.len() && declared[i].key() == k && (forall|j: int|
        i < j < declared.len() ==> (#[trigger] declared[j]).key() != k) {
        lemma_last_put_in_stays(before, declared, k, i);
        lemma_seeding_only_flags(before, declared, after, k, flag);
    }
    if before.dom().contains(k) && (forall|j: int|
        0 <= j < declared.len() ==> (#[trigger] declared[j]).key() != k) {
        lemma_not_put_in_stays(before, declared, k);
        lemma_seeding_only_flags(before, declared, after, k, flag);
    }
}

/// The last declared default is the default, whatever was one before.
pub proof fn lemma_a_declared_default_wins<R: Row>(
    before: Map<Seq<char>, R>,
    declared: Seq<R>,
    after: Map<Seq<char>, R>,
    i: int,
    k: Seq<char>,
)
    requires
        keyed(before),
        is_seeded(before, declared, after),
        0 <= i < declared.len(),
        declared[i].flagged(),
        forall|j: int| i < j < declared.len() ==> !(#[trigger] declared[j]).flagged(),
        after.dom().contains(k),
    ensures
        after[k].flagged() <==> k == declared[i].key(),
{
    lemma_last_flag_found(declared, i);
    lemma_upserted(before, declared);
    crate::ai::table::lemma_single_default(upserted(before, declared), declared[i].key());
}

/// Where no declaration is a default, one that was stored stays the default, and
/// otherwise the smallest id becomes it.
pub proof fn lemma_a_stored_default_stays<R: Row>(
    before: Map<Seq<char>, R>,
    declared: Seq<R>,
    after: Map<Seq<char>, R>,
    id: Seq<char>,
    k: Seq<char>,
)
    requires
        keyed(before),
        is_seeded(before, declared, after),
        forall|j: int| 0 <= j < declared.len() ==> !(#[trigger] declared[j]).flagged(),
        after.dom().contains(id),
        after.dom().contains(k),
        after[id].flagged(),
        k != id,
    ensures
        !after[k].flagged(),
        upserted(before, declared)[k].flagged() ==> upserted(before, declared)[id].flagged(),
        upserted(before, declared)[k].flagged() == upserted(before, declared)[id].flagged()
            ==> text_le(id, k),
{
    let rows = upserted(before, declared);
    lemma_no_flag_found(declared);
    lemma_upserted(before, declared);
    assert(rows != Map::<Seq<char>, R>::empty());
    let first = choose|first: Seq<char>| #[trigger]
        is_first(rows, first) && after == flagged_only(rows, first);
    crate::ai::table::lemma_single_default(rows, first);
    assert(rows.dom().contains(id) && rows.dom().contains(k));
    assert(id == first);
    assert(listed_before(rows[id], rows[k]));
}

} // verus!
