//! Token usage, in total and by model and agent.

use crate::sorting::{sort_distinct, sort_order, sorted_names, sorts_before, text_le, Ranked};
use crate::text::{lemma_push_contains, list_contains, same, texts};
use vstd::prelude::*;

verus! {

/// What one completion used.
#[derive(Debug, PartialEq, Eq)]
pub struct UsageRow {
    pub agent_id: String,
    pub model_id: String,
    pub input_tokens: u64,
    pub output_tokens: u64,
}

/// What a group of completions used.
#[derive(Debug, Clone, Copy, PartialEq, Eq, Structural)]
pub struct UsageBucket {
    pub requests: u64,
    pub input_tokens: u64,
    pub output_tokens: u64,
}

/// What all completions used, in total and by model and agent.
#[derive(Debug, PartialEq, Eq)]
pub struct UsageStats {
    pub totals: UsageBucket,
    pub by_model: Vec<(String, UsageBucket)>,
    pub by_agent: Vec<(String, UsageBucket)>,
}

/// By which id completions are grouped.
#[derive(Debug, Clone, Copy, PartialEq, Eq, Structural)]
pub enum GroupBy {
    Model,
    Agent,
}

/// The id of the group that a completion belongs to.
pub open spec fn group_of(row: UsageRow, by: GroupBy) -> Seq<char> {
    match by {
        GroupBy::Model => row.model_id@,
        GroupBy::Agent => row.agent_id@,
    }
}

/// The completions of one group, or all of them.
pub open spec fn in_group(row: UsageRow, by: GroupBy, id: Option<Seq<char>>) -> bool {
    match id {
        Some(id) => group_of(row, by) == id,
        None => true,
    }
}

/// How many completions there are in a group.
pub open spec fn requests_in(rows: Seq<UsageRow>, by: GroupBy, id: Option<Seq<char>>) -> nat
    decreases rows.len(),
{
    if rows.len() == 0 {
        0
    } else {
        requests_in(rows.drop_last(), by, id) + if in_group(rows.last(), by, id) {
            1nat
        } else {
            0
        }
    }
}

/// Tokens that the completions of a group took in.
pub open spec fn input_in(rows: Seq<UsageRow>, by: GroupBy, id: Option<Seq<char>>) -> nat
    decreases rows.len(),
{
    if rows.len() == 0 {
        0
    } else {
        input_in(rows.drop_last(), by, id) + if in_group(rows.last(), by, id) {
            rows.last().input_tokens as nat
        } else {
            0
        }
    }
}

/// Tokens that the completions of a group put out.
pub open spec fn output_in(rows: Seq<UsageRow>, by: GroupBy, id: Option<Seq<char>>) -> nat
    decreases rows.len(),
{
    if rows.len() == 0 {
        0
    } else {
        output_in(rows.drop_last(), by, id) + if in_group(rows.last(), by, id) {
            rows.last().output_tokens as nat
        } else {
            0
        }
    }
}

/// Whether a bucket holds what a group used.
pub open spec fn sums_up(
    b: UsageBucket,
    rows: Seq<UsageRow>,
    by: GroupBy,
    id: Option<Seq<char>>,
) -> bool {
    &&& b.requests == requests_in(rows, by, id)
    &&& b.input_tokens == input_in(rows, by, id)
    &&& b.output_tokens == output_in(rows, by, id)
}

/// Whether the token sums fit the signed integers in which they are kept.
pub open spec fn sums_fit(rows: Seq<UsageRow>) -> bool {
    &&& rows.len() <= i64::MAX
    &&& input_in(rows, GroupBy::Model, None) <= i64::MAX
    &&& output_in(rows, GroupBy::Model, None) <= i64::MAX
}

/// The ids of all groups.
pub open spec fn group_ids(rows: Seq<UsageRow>, by: GroupBy) -> Set<Seq<char>> {
    Set::new(|id: Seq<char>| exists|i: int| 0 <= i < rows.len() && group_of(#[trigger] rows[i], by)
        == id)
}

/// The ids of listed groups.
pub open spec fn ids_of(groups: Seq<(String, UsageBucket)>) -> Seq<Seq<char>> {
    Seq::new(groups.len(), |i: int| groups[i].0@)
}

/// Whether one group is listed before another: more requests first, then by id.
pub open spec fn group_before(a: (String, UsageBucket), b: (String, UsageBucket)) -> bool {
    a.1.requests > b.1.requests || (a.1.requests == b.1.requests && text_le(a.0@, b.0@))
}

/// Whether `groups` lists every group once with what it used, more requests
/// first.
pub open spec fn is_breakdown(
    rows: Seq<UsageRow>,
    by: GroupBy,
    groups: Seq<(String, UsageBucket)>,
) -> bool {
    &&& ids_of(groups).no_duplicates()
    &&& ids_of(groups).to_set() == group_ids(rows, by)
    &&& forall|i: int|
        0 <= i < groups.len() ==> sums_up((#[trigger] groups[i]).1, rows, by, Some(groups[i].0@))
    &&& forall|i: int, j: int|
        0 <= i < j < groups.len() ==> group_before(#[trigger] groups[i], #[trigger] groups[j])
}

proof fn lemma_part_of_total(rows: Seq<UsageRow>, by: GroupBy, id: Option<Seq<char>>)
    ensures
        requests_in(rows, by, id) <= rows.len(),
        input_in(rows, by, id) <= input_in(rows, GroupBy::Model, None),
        output_in(rows, by, id) <= output_in(rows, GroupBy::Model, None),
        id is None ==> requests_in(rows, by, id) == rows.len(),
    decreases rows.len(),
{
    if rows.len() > 0 {
        lemma_part_of_total(rows.drop_last(), by, id);
    }
}

proof fn lemma_prefix_sums(rows: Seq<UsageRow>, n: int)
    requires
        0 <= n <= rows.len(),
    ensures
        input_in(rows.take(n), GroupBy::Model, None) <= input_in(rows, GroupBy::Model, None),
        output_in(rows.take(n), GroupBy::Model, None) <= output_in(rows, GroupBy::Model, None),
    decreases rows.len() - n,
{
    if n < rows.len() {
        lemma_prefix_sums(rows, n + 1);
        assert(rows.take(n + 1).drop_last() =~= rows.take(n));
    } else {
        assert(rows.take(n) =~= rows);
    }
}

/// What the completions of one group, or all of them, used.
fn sum_group(rows: &Vec<UsageRow>, by: GroupBy, id: Option<&str>) -> (r: UsageBucket)
    requires
        sums_fit(rows@),
    ensures
        sums_up(
            r,
            rows@,
            by,
            match id {
                Some(s) => Some(s@),
                None => None,
            },
        ),
{
    let ghost gid: Option<Seq<char>> = match id {
        Some(s) => Some(s@),
        None => None,
    };
    let mut requests: u64 = 0;
    let mut input_tokens: u64 = 0;
    let mut output_tokens: u64 = 0;
    let mut i: usize = 0;
    assert(rows@.take(0) =~= Seq::empty());
    while i < rows.len()
        invariant
            i <= rows.len(),
            sums_fit(rows@),
            gid == match id {
                Some(s) => Some(s@),
                None => None,
            },
            requests == requests_in(rows@.take(i as int), by, gid),
            input_tokens == input_in(rows@.take(i as int), by, gid),
            output_tokens == output_in(rows@.take(i as int), by, gid),
        decreases rows.len() - i,
    {
        let row = &rows[i];
        let mine = match id {
            None => true,
            Some(id) => match by {
                GroupBy::Model => same(row.model_id.as_str(), id),
                GroupBy::Agent => same(row.agent_id.as_str(), id),
            },
        };
        proof {
            let next = rows@.take(i + 1);
            assert(next.drop_last() =~= rows@.take(i as int));
            assert(next.last() == *row);
            lemma_part_of_total(next, by, gid);
            lemma_prefix_sums(rows@, i + 1);
        }
        if mine {
            requests = requests + 1;
            input_tokens = input_tokens + row.input_tokens;
            output_tokens = output_tokens + row.output_tokens;
        }
        i += 1;
    }
    assert(rows@.take(rows@.len() as int) =~= rows@);
    UsageBucket { requests, input_tokens, output_tokens }
}

/// The ids of all groups, in order.
fn list_groups(rows: &Vec<UsageRow>, by: GroupBy) -> (r: Vec<String>)
    ensures
        sorted_names(texts(r@), group_ids(rows@, by)),
{
    let mut found: Vec<String> = Vec::new();
    let mut i: usize = 0;
    assert(texts(found@) =~= Seq::empty());
    while i < rows.len()
        invariant
            i <= rows.len(),
            texts(found@).no_duplicates(),
            forall|id: Seq<char>| #[trigger]
                texts(found@).contains(id) <==> exists|j: int|
                    0 <= j < i && group_of(#[trigger] rows@[j], by) == id,
        decreases rows.len() - i,
    {
        let id = match by {
            GroupBy::Model => rows[i].model_id.clone(),
            GroupBy::Agent => rows[i].agent_id.clone(),
        };
        let ghost before = texts(found@);
        assert(id@ == group_of(rows@[i as int], by));
        let known = list_contains(&found, id.as_str());
        assert(known == before.contains(id@));
        if !known {
            found.push(id.clone());
            assert(texts(found@) =~= before.push(id@));
        }
        assert forall|x: Seq<char>| #[trigger] texts(found@).contains(x) <==> exists|j: int|
            0 <= j < i + 1 && group_of(#[trigger] rows@[j], by) == x by {
            lemma_push_contains(before, id@, x);
            if before.contains(x) {
                let j = choose|j: int| 0 <= j < i && group_of(#[trigger] rows@[j], by) == x;
                assert(group_of(rows@[j], by) == x);
            }
            if x == id@ {
                assert(group_of(rows@[i as int], by) == x);
            }
        }
        i += 1;
    }
    assert(texts(found@).to_set() =~= group_ids(rows@, by)) by {
        assert forall|x: Seq<char>| texts(found@).to_set().contains(x) <==> group_ids(
            rows@,
            by,
        ).contains(x) by {
            assert(texts(found@).contains(x) <==> exists|j: int|
                0 <= j < rows@.len() && group_of(#[trigger] rows@[j], by) == x);
        }
    }
    sort_distinct(&found)
}

/// Where a group stands in a breakdown.
#[derive(Debug, PartialEq, Eq)]
pub struct GroupRank {
    pub requests: u64,
}

impl Ranked for GroupRank {
    open spec fn before_or_level(&self, other: &Self) -> bool {
        self.requests >= other.requests
    }

    fn not_after(&self, other: &Self) -> (r: bool) {
        self.requests >= other.requests
    }

    proof fn rank_total(a: &Self, b: &Self) {
    }

    proof fn rank_transitive(a: &Self, b: &Self, c: &Self) {
    }
}

/// What every group used, more requests first.
fn break_down(rows: &Vec<UsageRow>, by: GroupBy) -> (r: Vec<(String, UsageBucket)>)
    requires
        sums_fit(rows@),
    ensures
        is_breakdown(rows@, by, r@),
{
    let ids = list_groups(rows, by);
    let ghost names = texts(ids@);
    let mut buckets: Vec<UsageBucket> = Vec::new();
    let mut ranks: Vec<GroupRank> = Vec::new();
    let mut i: usize = 0;
    while i < ids.len()
        invariant
            i <= ids.len(),
            sums_fit(rows@),
            names == texts(ids@),
            buckets@.len() == i,
            ranks@.len() == i,
            forall|j: int|
                0 <= j < i ==> sums_up(#[trigger] buckets@[j], rows@, by, Some(names[j])),
            forall|j: int| 0 <= j < i ==> (#[trigger] ranks@[j]).requests == buckets@[j].requests,
        decreases ids.len() - i,
    {
        let b = sum_group(rows, by, Some(ids[i].as_str()));
        buckets.push(b);
        ranks.push(GroupRank { requests: b.requests });
        i += 1;
    }
    let p = sort_order(&ranks);
    let mut out: Vec<(String, UsageBucket)> = Vec::new();
    let mut i: usize = 0;
    while i < p.len()
        invariant
            i <= p@.len() == ids@.len() == buckets@.len(),
            names == texts(ids@),
            forall|j: int| 0 <= j < p@.len() ==> (#[trigger] p@[j]) < ids@.len(),
            out@.len() == i,
            forall|j: int|
                0 <= j < i ==> (#[trigger] out@[j]).0@ == names[p@[j] as int] && out@[j].1
                    == buckets@[p@[j] as int],
        decreases p.len() - i,
    {
        out.push((ids[p[i]].clone(), buckets[p[i]]));
        i += 1;
    }
    proof {
        let listed = ids_of(out@);
        assert forall|i: int, j: int| 0 <= i < j < out@.len() implies group_before(
            #[trigger] out@[i],
            #[trigger] out@[j],
        ) && out@[i].0@ != out@[j].0@ by {
            let a = p@[i] as int;
            let b = p@[j] as int;
            assert(sorts_before(ranks@, a, b));
            assert(ranks@[a].requests == buckets@[a].requests);
            assert(ranks@[b].requests == buckets@[b].requests);
            assert(a != b);
            assert(names[a] != names[b]);
            if ranks@[a].requests == ranks@[b].requests {
                assert(a < b);
                assert(text_le(names[a], names[b]));
            }
        }
        assert forall|i: int, j: int|
            0 <= i < listed.len() && 0 <= j < listed.len() && i != j implies listed[i]
            != listed[j] by {
            if i < j {
                assert(out@[i].0@ != out@[j].0@);
            } else {
                assert(out@[j].0@ != out@[i].0@);
            }
        }
        assert(listed.to_set() =~= group_ids(rows@, by)) by {
            assert forall|x: Seq<char>| listed.to_set().contains(x) <==> names.to_set().contains(
                x,
            ) by {
                if listed.contains(x) {
                    let k = listed.index_of(x);
                    assert(listed[k] == x);
                    assert(names[p@[k] as int] == x);
                }
                if names.contains(x) {
                    let j = names.index_of(x);
                    assert(names[j] == x);
                    assert(p@.contains(j as usize));
                    let k = p@.index_of(j as usize);
                    assert(p@[k] == j);
                    assert(listed[k] == x);
                }
            }
        }
        assert forall|i: int| 0 <= i < out@.len() implies sums_up(
            (#[trigger] out@[i]).1,
            rows@,
            by,
            Some(out@[i].0@),
        ) by {
            assert(sums_up(buckets@[p@[i] as int], rows@, by, Some(names[p@[i] as int])));
        }
    }
    out
}

/// Everything that was used, in total and by model and agent.
pub fn summarize(rows: &Vec<UsageRow>) -> (r: UsageStats)
    requires
        sums_fit(rows@),
    ensures
        sums_up(r.totals, rows@, GroupBy::Model, None),
        is_breakdown(rows@, GroupBy::Model, r.by_model@),
        is_breakdown(rows@, GroupBy::Agent, r.by_agent@),
{
    UsageStats {
        totals: sum_group(rows, GroupBy::Model, None),
        by_model: break_down(rows, GroupBy::Model),
        by_agent: break_down(rows, GroupBy::Agent),
    }
}

/// The requests of the first `n` listed groups together.
pub open spec fn requests_of(groups: Seq<(String, UsageBucket)>, n: nat) -> nat
    decreases n,
{
    if n == 0 {
        0
    } else {
        requests_of(groups, (n - 1) as nat) + groups[n - 1].1.requests as nat
    }
}

/// The input tokens of the first `n` listed groups together.
pub open spec fn input_of(groups: Seq<(String, UsageBucket)>, n: nat) -> nat
    decreases n,
{
    if n == 0 {
        0
    } else {
        input_of(groups, (n - 1) as nat) + groups[n - 1].1.input_tokens as nat
    }
}

/// The output tokens of the first `n` listed groups together.
pub open spec fn output_of(groups: Seq<(String, UsageBucket)>, n: nat) -> nat
    decreases n,
{
    if n == 0 {
        0
    } else {
        output_of(groups, (n - 1) as nat) + groups[n - 1].1.output_tokens as nat
    }
}

/// Requests of the groups with the first `n` ids together.
spec fn spread(rows: Seq<UsageRow>, by: GroupBy, ids: Seq<Seq<char>>, n: nat) -> (nat, nat, nat)
    decreases n,
{
    if n == 0 {
        (0, 0, 0)
    } else {
        let s = spread(rows, by, ids, (n - 1) as nat);
        let id = Some(ids[n - 1]);
        (
            s.0 + requests_in(rows, by, id),
            s.1 + input_in(rows, by, id),
            s.2 + output_in(rows, by, id),
        )
    }
}

proof fn lemma_spread_row(rows: Seq<UsageRow>, by: GroupBy, ids: Seq<Seq<char>>, n: nat)
    requires
        rows.len() > 0,
        n <= ids.len(),
        ids.no_duplicates(),
    ensures
        ({
            let before = spread(rows.drop_last(), by, ids, n);
            let after = spread(rows, by, ids, n);
            let hit = ids.take(n as int).contains(group_of(rows.last(), by));
            &&& after.0 == before.0 + if hit {
                1nat
            } else {
                0
            }
            &&& after.1 == before.1 + if hit {
                rows.last().input_tokens as nat
            } else {
                0
            }
            &&& after.2 == before.2 + if hit {
                rows.last().output_tokens as nat
            } else {
                0
            }
        }),
    decreases n,
{
    let x = group_of(rows.last(), by);
    if n > 0 {
        lemma_spread_row(rows, by, ids, (n - 1) as nat);
        let front = ids.take(n - 1);
        assert(ids.take(n as int) =~= front.push(ids[n - 1]));
        lemma_push_contains(front, ids[n - 1], x);
        if front.contains(x) && x == ids[n - 1] {
            let k = front.index_of(x);
            assert(ids[k] == ids[n - 1]);
        }
    }
}

proof fn lemma_spread_total(rows: Seq<UsageRow>, by: GroupBy, ids: Seq<Seq<char>>)
    requires
        ids.no_duplicates(),
        forall|i: int| 0 <= i < rows.len() ==> ids.contains(group_of(#[trigger] rows[i], by)),
    ensures
        spread(rows, by, ids, ids.len()) == (
            rows.len(),
            input_in(rows, GroupBy::Model, None),
            output_in(rows, GroupBy::Model, None),
        ),
    decreases rows.len(),
{
    if rows.len() == 0 {
        lemma_spread_empty(rows, by, ids, ids.len());
    } else {
        let front = rows.drop_last();
        assert forall|i: int| 0 <= i < front.len() implies ids.contains(
            group_of(#[trigger] front[i], by),
        ) by {
            assert(front[i] == rows[i]);
        }
        lemma_spread_total(front, by, ids);
        lemma_spread_row(rows, by, ids, ids.len());
        assert(ids.take(ids.len() as int) =~= ids);
        assert(ids.contains(group_of(rows[rows.len() - 1], by)));
    }
}

proof fn lemma_spread_empty(rows: Seq<UsageRow>, by: GroupBy, ids: Seq<Seq<char>>, n: nat)
    requires
        rows.len() == 0,
    ensures
        spread(rows, by, ids, n) == (0nat, 0nat, 0nat),
    decreases n,
{
    if n > 0 {
        lemma_spread_empty(rows, by, ids, (n - 1) as nat);
    }
}

proof fn lemma_groups_spread(
    rows: Seq<UsageRow>,
    by: GroupBy,
    groups: Seq<(String, UsageBucket)>,
    n: nat,
)
    requires
        is_breakdown(rows, by, groups),
        n <= groups.len(),
    ensures
        spread(rows, by, ids_of(groups), n) == (
            requests_of(groups, n),
            input_of(groups, n),
            output_of(groups, n),
        ),
    decreases n,
{
    if n > 0 {
        lemma_groups_spread(rows, by, groups, (n - 1) as nat);
    }
}

/// The groups of a breakdown share out the totals: nothing is counted twice and
/// nothing is left out.
pub proof fn lemma_breakdown_adds_up(
    rows: Seq<UsageRow>,
    by: GroupBy,
    groups: Seq<(String, UsageBucket)>,
)
    requires
        is_breakdown(rows, by, groups),
    ensures
        requests_of(groups, groups.len()) == rows.len(),
        input_of(groups, groups.len()) == input_in(rows, GroupBy::Model, None),
        output_of(groups, groups.len()) == output_in(rows, GroupBy::Model, None),
{
    let ids = ids_of(groups);
    assert forall|i: int| 0 <= i < rows.len() implies ids.contains(
        group_of(#[trigger] rows[i], by),
    ) by {
        assert(group_ids(rows, by).contains(group_of(rows[i], by)));
        assert(ids.to_set().contains(group_of(rows[i], by)));
    }
    lemma_spread_total(rows, by, ids);
    lemma_groups_spread(rows, by, groups, groups.len());
}

/// Every completion counts once, with the tokens that it took in and put out, in the
/// totals, under its model and under its agent, and nowhere else.
pub proof fn lemma_a_completion_is_counted(rows: Seq<UsageRow>, row: UsageRow, id: Seq<char>)
    ensures
        requests_in(rows.push(row), GroupBy::Model, None) == requests_in(rows, GroupBy::Model, None)
            + 1,
        input_in(rows.push(row), GroupBy::Model, None) == input_in(rows, GroupBy::Model, None)
            + row.input_tokens,
        output_in(rows.push(row), GroupBy::Model, None) == output_in(rows, GroupBy::Model, None)
            + row.output_tokens,
        requests_in(rows.push(row), GroupBy::Model, Some(id)) == requests_in(
            rows,
            GroupBy::Model,
            Some(id),
        ) + if row.model_id@ == id {
            1int
        } else {
            0
        },
        input_in(rows.push(row), GroupBy::Model, Some(id)) == input_in(
            rows,
            GroupBy::Model,
            Some(id),
        ) + if row.model_id@ == id {
            row.input_tokens as int
        } else {
            0
        },
        output_in(rows.push(row), GroupBy::Model, Some(id)) == output_in(
            rows,
            GroupBy::Model,
            Some(id),
        ) + if row.model_id@ == id {
            row.output_tokens as int
        } else {
            0
        },
{
    assert(rows.push(row).drop_last() =~= rows);
}

/// A completion counts under its agent just so.
pub proof fn lemma_an_agent_is_counted(rows: Seq<UsageRow>, row: UsageRow, id: Seq<char>)
    ensures
        requests_in(rows.push(row), GroupBy::Agent, Some(id)) == requests_in(
            rows,
            GroupBy::Agent,
            Some(id),
        ) + if row.agent_id@ == id {
            1int
        } else {
            0
        },
        input_in(rows.push(row), GroupBy::Agent, Some(id)) == input_in(
            rows,
            GroupBy::Agent,
            Some(id),
        ) + if row.agent_id@ == id {
            row.input_tokens as int
        } else {
            0
        },
        output_in(rows.push(row), GroupBy::Agent, Some(id)) == output_in(
            rows,
            GroupBy::Agent,
            Some(id),
        ) + if row.agent_id@ == id {
            row.output_tokens as int
        } else {
            0
        },
        requests_in(Seq::empty(), GroupBy::Agent, Some(id)) == 0,
        input_in(Seq::empty(), GroupBy::Agent, Some(id)) == 0,
        output_in(Seq::empty(), GroupBy::Agent, Some(id)) == 0,
        requests_in(Seq::empty(), GroupBy::Model, Some(id)) == 0,
        input_in(Seq::empty(), GroupBy::Model, Some(id)) == 0,
        output_in(Seq::empty(), GroupBy::Model, Some(id)) == 0,
        requests_in(Seq::empty(), GroupBy::Model, None) == 0,
        input_in(Seq::empty(), GroupBy::Model, None) == 0,
        output_in(Seq::empty(), GroupBy::Model, None) == 0,
{
    assert(rows.push(row).drop_last() =~= rows);
}

/// A breakdown lists the model, or the agent, of every completion, with the requests and
/// tokens of its completions; groups with more requests come first.
pub proof fn lemma_what_a_breakdown_lists(
    rows: Seq<UsageRow>,
    by: GroupBy,
    groups: Seq<(String, UsageBucket)>,
    i: int,
    j: int,
)
    requires
        is_breakdown(rows, by, groups),
        0 <= i < j < groups.len(),
    ensures
        groups[i].1.requests >= groups[j].1.requests,
        groups[i].1.requests == groups[j].1.requests ==> text_le(groups[i].0@, groups[j].0@),
        groups[i].0@ != groups[j].0@,
        groups[i].1.requests == requests_in(rows, by, Some(groups[i].0@)),
        groups[i].1.input_tokens == input_in(rows, by, Some(groups[i].0@)),
        groups[i].1.output_tokens == output_in(rows, by, Some(groups[i].0@)),
{
    assert(group_before(groups[i], groups[j]));
    assert(ids_of(groups)[i] != ids_of(groups)[j]);
    assert(sums_up(groups[i].1, rows, by, Some(groups[i].0@)));
}

/// No completion is left out of the breakdowns.
pub proof fn lemma_every_completion_is_listed(
    rows: Seq<UsageRow>,
    by_model: Seq<(String, UsageBucket)>,
    by_agent: Seq<(String, UsageBucket)>,
    i: int,
)
    requires
        is_breakdown(rows, GroupBy::Model, by_model),
        is_breakdown(rows, GroupBy::Agent, by_agent),
        0 <= i < rows.len(),
    ensures
        exists|k: int| 0 <= k < by_model.len() && (#[trigger] by_model[k]).0@ == rows[i].model_id@,
        exists|k: int| 0 <= k < by_agent.len() && (#[trigger] by_agent[k]).0@ == rows[i].agent_id@,
{
    let m = group_of(rows[i], GroupBy::Model);
    assert(group_ids(rows, GroupBy::Model).contains(m));
    assert(ids_of(by_model).to_set().contains(m));
    let k = ids_of(by_model).index_of(m);
    assert(by_model[k].0@ == rows[i].model_id@);
    let a = group_of(rows[i], GroupBy::Agent);
    assert(group_ids(rows, GroupBy::Agent).contains(a));
    assert(ids_of(by_agent).to_set().contains(a));
    let l = ids_of(by_agent).index_of(a);
    assert(by_agent[l].0@ == rows[i].agent_id@);
}

} // verus!
