//! Rows keyed by id, some of them flagged as the default.

use crate::sorting::{sort_order, sorts_before, text_le, text_not_after, Ranked};
use crate::strmap::StrMap;
use vstd::prelude::*;

verus! {

/// A row with an id and a default flag.
pub trait Row: Sized {
    /// The id of the row.
    spec fn key(&self) -> Seq<char>;

    /// Whether the row is flagged as the default.
    spec fn flagged(&self) -> bool;

    /// The row with the flag set or cleared.
    spec fn with_flag(&self, flag: bool) -> Self;

    /// Setting the flag sets nothing else.
    proof fn flag_is_separate(&self, flag: bool, other: bool)
        ensures
            self.with_flag(flag).key() == self.key(),
            self.with_flag(flag).flagged() == flag,
            self.with_flag(flag).with_flag(other) == self.with_flag(other),
    ;

    /// The id of the row.
    fn id(&self) -> (r: String)
        ensures
            r@ == self.key(),
    ;

    /// Whether the row is flagged as the default.
    fn is_flagged(&self) -> (r: bool)
        ensures
            r == self.flagged(),
    ;

    /// The same row.
    fn copy(&self) -> (r: Self)
        ensures
            r == *self,
    ;

    /// The same row with the flag set or cleared.
    fn flag(&self, flag: bool) -> (r: Self)
        ensures
            r == self.with_flag(flag),
    ;
}

/// Where a row stands in a listing.
#[derive(Debug, PartialEq, Eq)]
pub struct RowRank {
    pub flagged: bool,
    pub id: String,
}

impl Ranked for RowRank {
    open spec fn before_or_level(&self, other: &Self) -> bool {
        (self.flagged && !other.flagged) || (self.flagged == other.flagged && text_le(
            self.id@,
            other.id@,
        ))
    }

    fn not_after(&self, other: &Self) -> (r: bool) {
        (self.flagged && !other.flagged) || (self.flagged == other.flagged && text_not_after(
            self.id.as_str(),
            other.id.as_str(),
        ))
    }

    proof fn rank_total(a: &Self, b: &Self) {
        Ranked::rank_total(&a.id, &b.id);
    }

    proof fn rank_transitive(a: &Self, b: &Self, c: &Self) {
        if a.flagged == b.flagged && b.flagged == c.flagged {
            Ranked::rank_transitive(&a.id, &b.id, &c.id);
        }
    }
}

/// Whether row `a` is listed before row `b`: flagged rows first, then by id.
pub open spec fn listed_before<R: Row>(a: R, b: R) -> bool {
    ||| a.flagged() && !b.flagged()
    ||| a.flagged() == b.flagged() && a.key() != b.key() && text_le(a.key(), b.key())
}

/// Whether every row stands under its own id.
pub open spec fn keyed<R: Row>(rows: Map<Seq<char>, R>) -> bool {
    forall|k: Seq<char>| #[trigger] rows.dom().contains(k) ==> rows[k].key() == k
}

/// Whether `out` lists all rows, each once, flagged ones first and then by id.
pub open spec fn is_listing<R: Row>(rows: Map<Seq<char>, R>, out: Seq<R>) -> bool {
    &&& out.len() == rows.dom().len()
    &&& forall|i: int|
        0 <= i < out.len() ==> rows.dom().contains((#[trigger] out[i]).key())
            && rows[out[i].key()] == out[i]
    &&& forall|k: Seq<char>| #[trigger]
        rows.dom().contains(k) ==> exists|i: int|
            0 <= i < out.len() && (#[trigger] out[i]).key() == k
    &&& forall|i: int, j: int|
        0 <= i < j < out.len() ==> listed_before(#[trigger] out[i], #[trigger] out[j])
}

/// The rows with one of them, and no other, flagged.
pub open spec fn flagged_only<R: Row>(rows: Map<Seq<char>, R>, id: Seq<char>) -> Map<
    Seq<char>,
    R,
> {
    Map::new(|k: Seq<char>| rows.dom().contains(k), |k: Seq<char>| rows[k].with_flag(k == id))
}

/// A table of rows.
#[derive(Debug, PartialEq, Eq)]
pub struct Table<R> {
    pub rows: StrMap<R>,
}

impl<R: Row> Table<R> {
    /// An empty table.
    pub fn new() -> (r: Self)
        ensures
            r.rows@ == Map::<Seq<char>, R>::empty(),
            keyed(r.rows@),
    {
        Table { rows: StrMap::new() }
    }

    /// Puts a row under its id, in place of the one that was there.
    pub fn upsert(&mut self, row: R)
        requires
            keyed(old(self).rows@),
        ensures
            final(self).rows@ == old(self).rows@.insert(row.key(), row),
            keyed(final(self).rows@),
    {
        let id = row.id();
        let _ = self.rows.insert(id, row);
    }

    /// The row under `id`.
    pub fn get(&self, id: &str) -> (r: Option<R>)
        ensures
            r == if self.rows@.dom().contains(id@) {
                Some(self.rows@[id@])
            } else {
                None
            },
    {
        match self.rows.get(id) {
            Some(row) => Some(row.copy()),
            None => None,
        }
    }

    /// Removes the row under `id`, if there is one.
    pub fn delete(&mut self, id: &str)
        requires
            keyed(old(self).rows@),
        ensures
            final(self).rows@ == old(self).rows@.remove(id@),
            keyed(final(self).rows@),
    {
        let _ = self.rows.remove(id);
    }

    /// All rows, flagged ones first and then by id.
    pub fn list(&self) -> (r: Vec<R>)
        requires
            keyed(self.rows@),
        ensures
            is_listing(self.rows@, r@),
    {
        self.rows.keys_are_distinct();
        let n: usize = self.rows.len();
        let ghost order = self.rows.order();
        let ghost rows = self.rows@;
        let mut ranks: Vec<RowRank> = Vec::new();
        let mut i: usize = 0;
        while i < n
            invariant
                i <= n == order.len(),
                order == self.rows.order(),
                rows == self.rows@,
                ranks@.len() == i,
                forall|j: int|
                    0 <= j < i ==> (#[trigger] ranks@[j]).id@ == order[j] && ranks@[j].flagged
                        == rows[order[j]].flagged(),
            decreases n - i,
        {
            let (k, row) = self.rows.entry_at(i);
            ranks.push(RowRank { flagged: row.is_flagged(), id: k.clone() });
            i += 1;
        }
        let p = sort_order(&ranks);
        let mut out: Vec<R> = Vec::new();
        let mut i: usize = 0;
        while i < n
            invariant
                i <= n == order.len() == p@.len(),
                order == self.rows.order(),
                rows == self.rows@,
                forall|j: int| 0 <= j < n ==> (#[trigger] p@[j]) < n,
                out@.len() == i,
                forall|j: int| 0 <= j < i ==> (#[trigger] out@[j]) == rows[order[p@[j] as int]],
            decreases n - i,
        {
            let (k, row) = self.rows.entry_at(p[i]);
            out.push(row.copy());
            i += 1;
        }
        proof {
            assert forall|j: int| 0 <= j < n implies rows.dom().contains(#[trigger] order[j]) by {
                assert(order.to_set().contains(order[j]));
            }
            assert forall|i: int| 0 <= i < out@.len() implies rows.dom().contains(
                (#[trigger] out@[i]).key(),
            ) && rows[out@[i].key()] == out@[i] by {
                assert(rows.dom().contains(order[p@[i] as int]));
            }
            assert forall|k: Seq<char>| #[trigger] rows.dom().contains(k) implies exists|i: int|
                0 <= i < out@.len() && (#[trigger] out@[i]).key() == k by {
                assert(order.to_set().contains(k));
                let j = order.index_of(k);
                assert(order[j] == k);
                assert(p@.contains(j as usize));
                let i = p@.index_of(j as usize);
                assert(p@[i] == j);
                assert(out@[i].key() == k);
            }
            assert forall|i: int, j: int| 0 <= i < j < out@.len() implies listed_before(
                #[trigger] out@[i],
                #[trigger] out@[j],
            ) by {
                let a = p@[i] as int;
                let b = p@[j] as int;
                assert(sorts_before(ranks@, a, b));
                if a == b {
                    Ranked::rank_total(&ranks@[a], &ranks@[a]);
                }
                assert(order[a] != order[b]);
                assert(rows.dom().contains(order[a]) && rows.dom().contains(order[b]));
                assert(ranks@[a].id@ == order[a] && ranks@[b].id@ == order[b]);
            }
        }
        out
    }

    /// A flagged row, if there is one.
    pub fn default_row(&self) -> (r: Option<R>)
        requires
            keyed(self.rows@),
        ensures
            match r {
                Some(row) => row.flagged() && self.rows@.dom().contains(row.key())
                    && self.rows@[row.key()] == row,
                None => forall|k: Seq<char>| #[trigger]
                    self.rows@.dom().contains(k) ==> !self.rows@[k].flagged(),
            },
    {
        let all = self.list();
        if all.len() > 0 && all[0].is_flagged() {
            return Some(all[0].copy());
        }
        proof {
            assert forall|k: Seq<char>| #[trigger] self.rows@.dom().contains(k) implies !self.rows@[k].flagged() by {
                let i = choose|i: int| 0 <= i < all@.len() && (#[trigger] all@[i]).key() == k;
                if i > 0 {
                }
            }
        }
        None
    }

    /// Flags the row under `id` and clears the flag of all others.
    pub fn set_default(&mut self, id: &str)
        requires
            keyed(old(self).rows@),
        ensures
            final(self).rows@ == flagged_only(old(self).rows@, id@),
            keyed(final(self).rows@),
    {
        let all = self.list();
        let ghost before = self.rows@;
        let mut out: StrMap<R> = StrMap::new();
        let mut i: usize = 0;
        while i < all.len()
            invariant
                i <= all@.len(),
                before == self.rows@,
                keyed(before),
                is_listing(before, all@),
                forall|k: Seq<char>| #[trigger]
                    out@.dom().contains(k) <==> exists|j: int|
                        0 <= j < i && (#[trigger] all@[j]).key() == k,
                forall|k: Seq<char>| #[trigger]
                    out@.dom().contains(k) ==> before.dom().contains(k) && out@[k]
                        == before[k].with_flag(k == id@),
            decreases all.len() - i,
        {
            let key = all[i].id();
            let ghost prior = out@;
            let flag = crate::text::same(key.as_str(), id);
            let row = all[i].flag(flag);
            let _ = out.insert(key, row);
            assert forall|k: Seq<char>| #[trigger] out@.dom().contains(k) <==> exists|j: int|
                0 <= j < i + 1 && (#[trigger] all@[j]).key() == k by {
                if prior.dom().contains(k) {
                    let j = choose|j: int| 0 <= j < i && (#[trigger] all@[j]).key() == k;
                }
                if k == all@[i as int].key() {
                }
            }
            i += 1;
        }
        proof {
            assert forall|k: Seq<char>| out@.dom().contains(k) <==> before.dom().contains(k) by {
                if before.dom().contains(k) {
                    let j = choose|j: int| 0 <= j < all@.len() && (#[trigger] all@[j]).key() == k;
                }
            }
            assert forall|k: Seq<char>| #[trigger] out@.dom().contains(k) implies out@[k].key()
                == k by {
                before[k].flag_is_separate(k == id@, false);
            }
        }
        self.rows = out;
    }
}

/// Flagging a row that is there leaves exactly one default, and no row gone.
pub proof fn lemma_single_default<R: Row>(rows: Map<Seq<char>, R>, id: Seq<char>)
    requires
        keyed(rows),
        rows.dom().contains(id),
    ensures
        flagged_only(rows, id).dom() == rows.dom(),
        forall|k: Seq<char>| #[trigger]
            rows.dom().contains(k) ==> flagged_only(rows, id)[k].flagged() == (k == id),
{
    assert forall|k: Seq<char>| #[trigger] rows.dom().contains(k) implies flagged_only(
        rows,
        id,
    )[k].flagged() == (k == id) by {
        rows[k].flag_is_separate(k == id, false);
    }
}

/// A listing holds every row once; flagged rows come first, and rows that are flagged
/// alike go by their ids.
pub proof fn lemma_how_rows_are_listed<R: Row>(
    rows: Map<Seq<char>, R>,
    out: Seq<R>,
    i: int,
    j: int,
)
    requires
        is_listing(rows, out),
        0 <= i < j < out.len(),
    ensures
        out[j].flagged() ==> out[i].flagged(),
        out[i].flagged() == out[j].flagged() ==> text_le(out[i].key(), out[j].key()),
        rows[out[i].key()] == out[i],
        rows.dom().contains(out[i].key()),
        out.len() == rows.dom().len(),
{
    assert(listed_before(out[i], out[j]));
}

} // verus!
