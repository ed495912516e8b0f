//! Listings: the documents that match, in order, one page of them.

use crate::number::{decimal, lemma_decimal_reads_back, number_up_to, parse_up_to};
use crate::sorting::{sort_order, sorts_before, stable_order, Ranked};
use crate::text::lesser;
use vstd::prelude::*;

verus! {

/// The number in an id, `0` where it is none.
pub open spec fn id_value(id: Seq<char>) -> u64 {
    match number_up_to(id, u64::MAX as nat) {
        Some(n) => n as u64,
        None => 0,
    }
}

/// The number in an id, `0` where it is none.
pub fn id_num(id: &str) -> (r: u64)
    ensures
        r == id_value(id@),
{
    match parse_up_to(id, u64::MAX) {
        Some(n) => n,
        None => 0,
    }
}

/// Whether `q` lists exactly the positions below `n` that `keep` keeps, each
/// once, by `key` and then by position.
pub open spec fn lists<K: Ranked>(
    n: nat,
    keep: spec_fn(int) -> bool,
    key: spec_fn(int) -> K,
    q: Seq<usize>,
) -> bool {
    &&& forall|a: int| 0 <= a < q.len() ==> (#[trigger] q[a]) < n && keep(q[a] as int)
    &&& forall|j: usize| j < n && keep(j as int) ==> #[trigger] q.contains(j)
    &&& forall|a: int, b: int|
        0 <= a < b < q.len() ==> comes_before(key, #[trigger] q[a], #[trigger] q[b])
}

/// Whether the document at `a` comes before the one at `b`: by key, then by
/// position.
pub open spec fn comes_before<K: Ranked>(key: spec_fn(int) -> K, a: usize, b: usize) -> bool {
    key(a as int).before_or_level(&key(b as int)) && (key(b as int).before_or_level(&key(a as int))
        ==> a < b)
}

/// The page of `limit` entries of `q` that starts at `offset`.
pub open spec fn page_of(q: Seq<usize>, offset: nat, limit: nat) -> Seq<usize> {
    let from = lesser(offset, q.len());
    q.subrange(from as int, lesser(from + limit, q.len()) as int)
}

/// The whole listing of the documents at `kept`, whose keys are `keys`.
pub fn order_kept<K: Ranked>(kept: &Vec<usize>, keys: &Vec<K>) -> (q: Vec<usize>)
    requires
        kept@.len() == keys@.len(),
    ensures
        exists|p: Seq<usize>|
            stable_order(keys@, p) && q@ == Seq::new(p.len(), |i: int| kept@[p[i] as int]),
        q@.len() == kept@.len() <= usize::MAX,
{
    let p = sort_order(keys);
    let mut q: Vec<usize> = Vec::new();
    let mut i: usize = 0;
    while i < p.len()
        invariant
            i <= p.len() == kept.len(),
            kept@.len() == keys@.len(),
            stable_order(keys@, p@),
            q@ == Seq::new(i as nat, |k: int| kept@[p@[k] as int]),
        decreases p.len() - i,
    {
        q.push(kept[p[i]]);
        i += 1;
    }
    q
}

/// Sorting the kept positions by their keys gives the listing.
pub proof fn lemma_lists<K: Ranked>(
    n: nat,
    keep: spec_fn(int) -> bool,
    key: spec_fn(int) -> K,
    kept: Seq<usize>,
    keys: Seq<K>,
    q: Seq<usize>,
)
    requires
        kept.len() == keys.len() <= usize::MAX,
        forall|a: int| 0 <= a < kept.len() ==> (#[trigger] kept[a]) < n && keep(kept[a] as int),
        forall|a: int, b: int| 0 <= a < b < kept.len() ==> (#[trigger] kept[a]) < (#[trigger] kept[b]),
        forall|j: usize| j < n && keep(j as int) ==> #[trigger] kept.contains(j),
        forall|a: int| 0 <= a < kept.len() ==> (#[trigger] keys[a]) == key(kept[a] as int),
        exists|p: Seq<usize>|
            stable_order(keys, p) && q == Seq::new(p.len(), |i: int| kept[p[i] as int]),
    ensures
        lists(n, keep, key, q),
        q.len() == kept.len(),
{
    let p = choose|p: Seq<usize>|
        stable_order(keys, p) && q == Seq::new(p.len(), |i: int| kept[p[i] as int]);
    assert forall|a: int| 0 <= a < q.len() implies (#[trigger] q[a]) < n && keep(
        q[a] as int,
    ) by {
        assert(q[a] == kept[p[a] as int]);
    }
    assert forall|j: usize| j < n && keep(j as int) implies #[trigger] q.contains(j) by {
        assert(kept.contains(j));
        let a = kept.index_of(j);
        assert(kept[a] == j);
        assert(p.contains(a as usize));
        let b = p.index_of(a as usize);
        assert(p[b] == a);
        assert(q[b] == j);
    }
    assert forall|a: int, b: int| 0 <= a < b < q.len() implies comes_before(
        key,
        #[trigger] q[a],
        #[trigger] q[b],
    ) by {
        assert(sorts_before(keys, p[a] as int, p[b] as int));
        assert(keys[p[a] as int] == key(kept[p[a] as int] as int));
        assert(keys[p[b] as int] == key(kept[p[b] as int] as int));
    }
}

/// A page holds the entries from its offset on: as many as asked for, or those that
/// are left, in the order of the listing.
pub proof fn lemma_page(q: Seq<usize>, offset: nat, limit: nat)
    ensures
        offset >= q.len() ==> page_of(q, offset, limit).len() == 0,
        offset < q.len() && limit <= q.len() - offset ==> page_of(q, offset, limit).len() == limit,
        offset < q.len() && limit > q.len() - offset ==> page_of(q, offset, limit).len() == q.len()
            - offset,
        forall|i: int|
            0 <= i < page_of(q, offset, limit).len() ==> (#[trigger] page_of(q, offset, limit)[i])
                == q[offset + i],
{
}

/// A listing names every position that is kept, once, and no other: it is as long
/// as there are such positions.
pub proof fn lemma_listing_counts<K: Ranked>(
    n: nat,
    keep: spec_fn(int) -> bool,
    key: spec_fn(int) -> K,
    q: Seq<usize>,
)
    requires
        lists(n, keep, key, q),
    ensures
        q.no_duplicates(),
        q.to_set() == Set::new(|j: usize| j < n && keep(j as int)),
        q.len() == Set::new(|j: usize| j < n && keep(j as int)).len(),
{
    assert forall|a: int, b: int| 0 <= a < q.len() && 0 <= b < q.len() && a != b implies q[a]
        != q[b] by {
        if a < b {
            assert(comes_before(key, q[a], q[b]));
        } else {
            assert(comes_before(key, q[b], q[a]));
        }
    }
    let kept = Set::new(|j: usize| j < n && keep(j as int));
    assert(q.to_set() =~= kept) by {
        assert forall|j: usize| q.to_set().contains(j) implies kept.contains(j) by {
            let a = q.index_of(j);
            assert(q[a] == j);
        }
    }
    q.unique_seq_to_set();
}

/// Every entry of a page is kept by the listing, earlier entries come first, and a
/// page from the beginning that is long enough leaves nothing out.
pub proof fn lemma_listed_page<K: Ranked>(
    n: nat,
    keep: spec_fn(int) -> bool,
    key: spec_fn(int) -> K,
    q: Seq<usize>,
    offset: nat,
    limit: nat,
)
    requires
        lists(n, keep, key, q),
    ensures
        forall|a: int|
            0 <= a < page_of(q, offset, limit).len() ==> (#[trigger] page_of(q, offset, limit)[a])
                < n && keep(page_of(q, offset, limit)[a] as int),
        forall|a: int, b: int|
            0 <= a < b < page_of(q, offset, limit).len() ==> key(
                (#[trigger] page_of(q, offset, limit)[a]) as int,
            ).before_or_level(&key((#[trigger] page_of(q, offset, limit)[b]) as int)),
        offset == 0 && limit >= q.len() ==> forall|j: usize|
            j < n && keep(j as int) ==> #[trigger] page_of(q, offset, limit).contains(j),
{
    lemma_page(q, offset, limit);
    let page = page_of(q, offset, limit);
    assert forall|a: int, b: int| 0 <= a < b < page.len() implies key(
        (#[trigger] page[a]) as int,
    ).before_or_level(&key((#[trigger] page[b]) as int)) by {
        assert(comes_before(key, q[offset + a], q[offset + b]));
    }
    if offset == 0 && limit >= q.len() {
        assert(page =~= q);
    }
}

/// The page of `limit` entries of `q` that starts at `offset`.
pub fn take_page(q: &Vec<usize>, offset: usize, limit: usize) -> (r: Vec<usize>)
    ensures
        r@ == page_of(q@, offset as nat, limit as nat),
        offset >= q@.len() ==> r@.len() == 0,
        offset < q@.len() ==> r@.len() == if limit <= q@.len() - offset {
            limit as int
        } else {
            q@.len() - offset
        },
        forall|i: int| 0 <= i < r@.len() ==> (#[trigger] r@[i]) == q@[offset + i],
{
    let n: usize = q.len();
    let from: usize = if offset <= n {
        offset
    } else {
        n
    };
    let to: usize = if limit <= n - from {
        from + limit
    } else {
        n
    };
    let mut out: Vec<usize> = Vec::new();
    let mut i: usize = from;
    while i < to
        invariant
            from <= i <= to <= q.len(),
            out@ == q@.subrange(from as int, i as int),
        decreases to - i,
    {
        out.push(q[i]);
        i += 1;
    }
    out
}

/// Pages that follow each other cover the listing without gap or overlap.
pub proof fn lemma_pages_partition(q: Seq<usize>, offset: nat, limit: nat, more: nat)
    ensures
        page_of(q, offset, limit) + page_of(q, offset + limit, more) == page_of(
            q,
            offset,
            limit + more,
        ),
{
    assert(page_of(q, offset, limit) + page_of(q, offset + limit, more) =~= page_of(
        q,
        offset,
        limit + more,
    ));
}

/// An id that is a number is worth it, and any other is worth zero.
pub proof fn lemma_what_ids_are_worth(n: u64, id: Seq<char>)
    ensures
        id_value(decimal(n as nat)) == n,
        number_up_to(id, u64::MAX as nat) is None ==> id_value(id) == 0,
{
    lemma_decimal_reads_back(n as nat, u64::MAX as nat);
}

} // verus!
