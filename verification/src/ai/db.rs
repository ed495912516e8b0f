//! Models, agents and token usage.

use crate::ai::table::{flagged_only, is_listing, keyed, Row, Table};
use crate::ai::usage::{
    is_breakdown, summarize, sums_fit, sums_up, GroupBy, UsageRow, UsageStats,
};
use crate::sorting::text_le;
use vstd::prelude::*;

verus! {

/// A model to complete with. `base_url` and `api_key_env` stay on the host.
#[derive(Debug, PartialEq, Eq)]
pub struct Model {
    pub id: String,
    pub provider: String,
    pub base_url: String,
    pub api_key_env: String,
    pub is_default: bool,
    pub discovered_at: Option<i64>,
    pub last_seen: i64,
}

impl Row for Model {
    open spec fn key(&self) -> Seq<char> {
        self.id@
    }

    open spec fn flagged(&self) -> bool {
        self.is_default
    }

    open spec fn with_flag(&self, flag: bool) -> Self {
        Model { is_default: flag, ..*self }
    }

    proof fn flag_is_separate(&self, flag: bool, other: bool) {
    }

    fn id(&self) -> (r: String) {
        self.id.clone()
    }

    fn is_flagged(&self) -> (r: bool) {
        self.is_default
    }

    fn copy(&self) -> (r: Self) {
        self.flag(self.is_default)
    }

    fn flag(&self, flag: bool) -> (r: Self) {
        Model {
            id: self.id.clone(),
            provider: self.provider.clone(),
            base_url: self.base_url.clone(),
            api_key_env: self.api_key_env.clone(),
            is_default: flag,
            discovered_at: self.discovered_at,
            last_seen: self.last_seen,
        }
    }
}

/// A model with the framing that makes an agent of it.
#[derive(Debug, PartialEq, Eq)]
pub struct Agent {
    pub id: String,
    pub name: String,
    pub model_id: String,
    pub system_prompt: String,
    pub goal: String,
    pub description: String,
    pub is_default: bool,
    pub created_at: i64,
}

impl Row for Agent {
    open spec fn key(&self) -> Seq<char> {
        self.id@
    }

    open spec fn flagged(&self) -> bool {
        self.is_default
    }

    open spec fn with_flag(&self, flag: bool) -> Self {
        Agent { is_default: flag, ..*self }
    }

    proof fn flag_is_separate(&self, flag: bool, other: bool) {
    }

    fn id(&self) -> (r: String) {
        self.id.clone()
    }

    fn is_flagged(&self) -> (r: bool) {
        self.is_default
    }

    fn copy(&self) -> (r: Self) {
        self.flag(self.is_default)
    }

    fn flag(&self, flag: bool) -> (r: Self) {
        Agent {
            id: self.id.clone(),
            name: self.name.clone(),
            model_id: self.model_id.clone(),
            system_prompt: self.system_prompt.clone(),
            goal: self.goal.clone(),
            description: self.description.clone(),
            is_default: flag,
            created_at: self.created_at,
        }
    }
}

/// The models, agents and completions that the plugin keeps.
#[derive(Debug, PartialEq, Eq)]
pub struct AiDb {
    pub models: Table<Model>,
    pub agents: Table<Agent>,
    pub usage: Vec<UsageRow>,
}

/// The row of `id`, if there is one.
pub open spec fn row_at<R>(rows: Map<Seq<char>, R>, id: Seq<char>) -> Option<R> {
    if rows.dom().contains(id) {
        Some(rows[id])
    } else {
        None
    }
}

/// Whether `r` is a flagged row, or nothing where no row is flagged.
pub open spec fn is_default_row<R: Row>(rows: Map<Seq<char>, R>, r: Option<R>) -> bool {
    match r {
        Some(row) => row.flagged() && rows.dom().contains(row.key()) && rows[row.key()] == row,
        None => forall|k: Seq<char>| #[trigger] rows.dom().contains(k) ==> !rows[k].flagged(),
    }
}

impl AiDb {
    /// Whether every row stands under its own id.
    pub open spec fn well_formed(&self) -> bool {
        keyed(self.models.rows@) && keyed(self.agents.rows@)
    }

    /// An empty database.
    pub fn open() -> (r: Self)
        ensures
            r.well_formed(),
            r.models.rows@ == Map::<Seq<char>, Model>::empty(),
            r.agents.rows@ == Map::<Seq<char>, Agent>::empty(),
            r.usage@.len() == 0,
    {
        AiDb { models: Table::new(), agents: Table::new(), usage: Vec::new() }
    }

    /// Puts a model under its id, in place of the one that was there.
    pub fn upsert_model(&mut self, m: Model)
        requires
            old(self).well_formed(),
        ensures
            final(self).well_formed(),
            final(self).models.rows@ == old(self).models.rows@.insert(m.id@, m),
            final(self).agents == old(self).agents,
            final(self).usage == old(self).usage,
    {
        self.models.upsert(m);
    }

    /// The model of that id.
    pub fn get_model(&self, id: &str) -> (r: Option<Model>)
        ensures
            r == row_at(self.models.rows@, id@),
            r is Some <==> self.models.rows@.dom().contains(id@),
            r matches Some(found) ==> found == self.models.rows@[id@],
    {
        self.models.get(id)
    }

    /// All models, the default first and then by id.
    pub fn list_models(&self) -> (r: Vec<Model>)
        requires
            self.well_formed(),
        ensures
            is_listing(self.models.rows@, r@),
            forall|i: int, j: int|
                0 <= i < j < r@.len() ==> (#[trigger] r@[i]).is_default && !(
                #[trigger] r@[j]).is_default || r@[i].is_default == r@[j].is_default && r@[i].id@
                    != r@[j].id@ && text_le(r@[i].id@, r@[j].id@),
    {
        self.models.list()
    }

    /// The default model.
    pub fn default_model(&self) -> (r: Option<Model>)
        requires
            self.well_formed(),
        ensures
            is_default_row(self.models.rows@, r),
            r matches Some(found) ==> found.is_default && self.models.rows@.dom().contains(
                found.id@,
            ) && self.models.rows@[found.id@] == found,
            r is None ==> forall|k: Seq<char>| #[trigger]
                self.models.rows@.dom().contains(k) ==> !self.models.rows@[k].is_default,
    {
        self.models.default_row()
    }

    /// Notes that a model was seen at `now_ms`.
    pub fn touch_model(&mut self, id: &str, now_ms: i64)
        requires
            old(self).well_formed(),
        ensures
            final(self).well_formed(),
            final(self).models.rows@ == if old(self).models.rows@.dom().contains(id@) {
                old(self).models.rows@.insert(
                    id@,
                    (Model { last_seen: now_ms, ..old(self).models.rows@[id@] }),
                )
            } else {
                old(self).models.rows@
            },
            final(self).agents == old(self).agents,
            final(self).usage == old(self).usage,
    {
        match self.models.get(id) {
            Some(m) => {
                let mut m = m;
                m.last_seen = now_ms;
                self.models.upsert(m);
            },
            None => {},
        }
    }

    /// Removes a model.
    pub fn delete_model(&mut self, id: &str)
        requires
            old(self).well_formed(),
        ensures
            final(self).well_formed(),
            final(self).models.rows@ == old(self).models.rows@.remove(id@),
            final(self).agents == old(self).agents,
            final(self).usage == old(self).usage,
    {
        self.models.delete(id);
    }

    /// Makes `id` the only default model.
    pub fn set_model_default(&mut self, id: &str)
        requires
            old(self).well_formed(),
        ensures
            final(self).well_formed(),
            final(self).models.rows@ == flagged_only(old(self).models.rows@, id@),
            final(self).agents == old(self).agents,
            final(self).usage == old(self).usage,
            final(self).models.rows@.dom() == old(self).models.rows@.dom(),
            forall|k: Seq<char>| #[trigger]
                old(self).models.rows@.dom().contains(k) ==> final(self).models.rows@[k] == (Model {
                    is_default: k == id@,
                    ..old(self).models.rows@[k]
                }),
    {
        self.models.set_default(id);
    }

    /// Puts an agent under its id, in place of the one that was there.
    pub fn upsert_agent(&mut self, a: Agent)
        requires
            old(self).well_formed(),
        ensures
            final(self).well_formed(),
            final(self).agents.rows@ == old(self).agents.rows@.insert(a.id@, a),
            final(self).models == old(self).models,
            final(self).usage == old(self).usage,
    {
        self.agents.upsert(a);
    }

    /// The agent of that id.
    pub fn get_agent(&self, id: &str) -> (r: Option<Agent>)
        ensures
            r == row_at(self.agents.rows@, id@),
            r is Some <==> self.agents.rows@.dom().contains(id@),
            r matches Some(found) ==> found == self.agents.rows@[id@],
    {
        self.agents.get(id)
    }

    /// All agents, the default first and then by id.
    pub fn list_agents(&self) -> (r: Vec<Agent>)
        requires
            self.well_formed(),
        ensures
            is_listing(self.agents.rows@, r@),
            forall|i: int, j: int|
                0 <= i < j < r@.len() ==> (#[trigger] r@[i]).is_default && !(
                #[trigger] r@[j]).is_default || r@[i].is_default == r@[j].is_default && r@[i].id@
                    != r@[j].id@ && text_le(r@[i].id@, r@[j].id@),
    {
        self.agents.list()
    }

    /// The default agent.
    pub fn default_agent(&self) -> (r: Option<Agent>)
        requires
            self.well_formed(),
        ensures
            is_default_row(self.agents.rows@, r),
            r matches Some(found) ==> found.is_default && self.agents.rows@.dom().contains(
                found.id@,
            ) && self.agents.rows@[found.id@] == found,
            r is None ==> forall|k: Seq<char>| #[trigger]
                self.agents.rows@.dom().contains(k) ==> !self.agents.rows@[k].is_default,
    {
        self.agents.default_row()
    }

    /// Removes an agent.
    pub fn delete_agent(&mut self, id: &str)
        requires
            old(self).well_formed(),
        ensures
            final(self).well_formed(),
            final(self).agents.rows@ == old(self).agents.rows@.remove(id@),
            final(self).models == old(self).models,
            final(self).usage == old(self).usage,
    {
        self.agents.delete(id);
    }

    /// Makes `id` the only default agent.
    pub fn set_agent_default(&mut self, id: &str)
        requires
            old(self).well_formed(),
        ensures
            final(self).well_formed(),
            final(self).agents.rows@ == flagged_only(old(self).agents.rows@, id@),
            final(self).models == old(self).models,
            final(self).usage == old(self).usage,
            final(self).agents.rows@.dom() == old(self).agents.rows@.dom(),
            forall|k: Seq<char>| #[trigger]
                old(self).agents.rows@.dom().contains(k) ==> final(self).agents.rows@[k] == (Agent {
                    is_default: k == id@,
                    ..old(self).agents.rows@[k]
                }),
    {
        self.agents.set_default(id);
    }

    /// Notes what a completion used.
    pub fn record_usage(&mut self, row: UsageRow)
        ensures
            final(self).usage@ == old(self).usage@.push(row),
            final(self).models == old(self).models,
            final(self).agents == old(self).agents,
    {
        self.usage.push(row);
    }

    /// What was used, in total and by model and agent.
    pub fn usage_stats(&self) -> (r: UsageStats)
        requires
            sums_fit(self.usage@),
        ensures
            sums_up(r.totals, self.usage@, GroupBy::Model, None),
            is_breakdown(self.usage@, GroupBy::Model, r.by_model@),
            is_breakdown(self.usage@, GroupBy::Agent, r.by_agent@),
    {
        summarize(&self.usage)
    }
}

/// What was put in is found under its id, in place of what was there, and every other row
/// stays; what was removed is not found any more.
pub proof fn lemma_a_row_is_found_under_its_id<R>(
    rows: Map<Seq<char>, R>,
    id: Seq<char>,
    row: R,
    other: Seq<char>,
)
    ensures
        row_at(rows.insert(id, row), id) == Some(row),
        row_at(rows.remove(id), id) is None,
        other != id ==> row_at(rows.insert(id, row), other) == row_at(rows, other),
        other != id ==> row_at(rows.remove(id), other) == row_at(rows, other),
        row_at(Map::<Seq<char>, R>::empty(), id) is None,
{
}

/// The flag is all that making a model or an agent the default changes.
pub proof fn lemma_a_flag_changes_nothing_else(m: Model, a: Agent, flag: bool)
    ensures
        m.with_flag(flag) == (Model { is_default: flag, ..m }),
        a.with_flag(flag) == (Agent { is_default: flag, ..a }),
        m.key() == m.id@,
        a.key() == a.id@,
        m.flagged() == m.is_default,
        a.flagged() == a.is_default,
{
}

} // verus!
