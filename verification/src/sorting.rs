//! Stable sorting, as the order in which to visit the items.

use crate::strmap::StrMap;
use crate::text::{chars_of, texts};
use vstd::prelude::*;

verus! {

/// Items with a total preorder.
pub trait Ranked: Sized {
    /// Whether `self` may stand before `other`.
    spec fn before_or_level(&self, other: &Self) -> bool;

    /// Decides [`Ranked::before_or_level`].
    fn not_after(&self, other: &Self) -> (r: bool)
        ensures
            r == self.before_or_level(other),
    ;

    /// Of two items one may stand before the other.
    proof fn rank_total(a: &Self, b: &Self)
        ensures
            a.before_or_level(b) || b.before_or_level(a),
    ;

    /// The order is transitive.
    proof fn rank_transitive(a: &Self, b: &Self, c: &Self)
        requires
            a.before_or_level(b),
            b.before_or_level(c),
        ensures
            a.before_or_level(c),
    ;
}

/// Whether item `a` comes before item `b` in a stable sort: by rank, then by
/// position.
pub open spec fn sorts_before<T: Ranked>(items: Seq<T>, a: int, b: int) -> bool {
    items[a].before_or_level(&items[b]) && (items[b].before_or_level(&items[a]) ==> a < b)
}

/// Whether `p` lists the positions `0..n` of `items`, each once, in the order
/// of a stable sort.
pub open spec fn sorts_first<T: Ranked>(items: Seq<T>, p: Seq<usize>, n: int) -> bool {
    &&& p.len() == n <= items.len()
    &&& forall|a: int| 0 <= a < n ==> (#[trigger] p[a]) < n
    &&& forall|j: usize| j < n ==> #[trigger] p.contains(j)
    &&& forall|a: int, b: int|
        0 <= a < b < n ==> sorts_before(items, #[trigger] p[a] as int, #[trigger] p[b] as int)
}

/// Whether `p` is the stable sort of `items`.
pub open spec fn stable_order<T: Ranked>(items: Seq<T>, p: Seq<usize>) -> bool {
    sorts_first(items, p, items.len() as int)
}

/// The stable sort of `items`, as the positions to visit in turn.
pub fn sort_order<T: Ranked>(items: &Vec<T>) -> (p: Vec<usize>)
    ensures
        stable_order(items@, p@),
{
    let mut p: Vec<usize> = Vec::new();
    let mut i: usize = 0;
    while i < items.len()
        invariant
            i <= items.len(),
            sorts_first(items@, p@, i as int),
        decreases items.len() - i,
    {
        let mut k: usize = p.len();
        while 0 < k && !items[p[k - 1]].not_after(&items[i])
            invariant
                i < items.len(),
                k <= p.len() == i,
                sorts_first(items@, p@, i as int),
                forall|b: int|
                    k <= b < p.len() ==> !items@[#[trigger] p@[b] as int].before_or_level(
                        &items@[i as int],
                    ),
            decreases k,
        {
            k -= 1;
        }
        let ghost old_p = p@;
        p.insert(k, i);
        proof {
            lemma_inserted(items@, old_p, i, k as int);
        }
        i += 1;
    }
    p
}

proof fn lemma_inserted<T: Ranked>(items: Seq<T>, p: Seq<usize>, i: usize, k: int)
    requires
        i < items.len(),
        sorts_first(items, p, i as int),
        0 <= k <= i,
        k > 0 ==> items[p[k - 1] as int].before_or_level(&items[i as int]),
        forall|b: int|
            k <= b < p.len() ==> !items[#[trigger] p[b] as int].before_or_level(&items[i as int]),
    ensures
        sorts_first(items, p.insert(k, i), i + 1),
{
    let q = p.insert(k, i);
    let n = i + 1;
    assert forall|a: int| 0 <= a < n implies (#[trigger] q[a]) < n by {
        if a < k {
            assert(q[a] == p[a]);
        } else if a > k {
            assert(q[a] == p[a - 1]);
        }
    }
    assert forall|j: usize| j < n implies #[trigger] q.contains(j) by {
        if j == i {
            assert(q[k] == i);
        } else {
            assert(p.contains(j));
            let a = p.index_of(j);
            assert(p[a] == j);
            if a < k {
                assert(q[a] == j);
            } else {
                assert(q[a + 1] == j);
            }
        }
    }
    assert forall|a: int, b: int| 0 <= a < b < n implies sorts_before(
        items,
        #[trigger] q[a] as int,
        #[trigger] q[b] as int,
    ) by {
        if a == k {
            assert(q[b] == p[b - 1]);
            T::rank_total(&items[p[b - 1] as int], &items[i as int]);
        } else if b == k {
            assert(q[a] == p[a]);
            assert(p[a] < i);
            if a < k - 1 {
                assert(sorts_before(items, p[a] as int, p[k - 1] as int));
                T::rank_transitive(
                    &items[p[a] as int],
                    &items[p[k - 1] as int],
                    &items[i as int],
                );
            }
        } else {
            let a2 = if a < k {
                a
            } else {
                a - 1
            };
            let b2 = if b < k {
                b
            } else {
                b - 1
            };
            assert(q[a] == p[a2]);
            assert(q[b] == p[b2]);
            assert(sorts_before(items, p[a2] as int, p[b2] as int));
        }
    }
}

// ---------------------------------------------------------------------------
// Texts
// ---------------------------------------------------------------------------

/// Order of texts by their characters.
pub open spec fn text_le(a: Seq<char>, b: Seq<char>) -> bool
    decreases a.len(),
{
    if a.len() == 0 {
        true
    } else if b.len() == 0 {
        false
    } else if a[0] != b[0] {
        a[0] < b[0]
    } else {
        text_le(a.drop_first(), b.drop_first())
    }
}

proof fn lemma_text_total(a: Seq<char>, b: Seq<char>)
    ensures
        text_le(a, b) || text_le(b, a),
    decreases a.len(),
{
    if a.len() > 0 && b.len() > 0 && a[0] == b[0] {
        lemma_text_total(a.drop_first(), b.drop_first());
    }
}

proof fn lemma_text_transitive(a: Seq<char>, b: Seq<char>, c: Seq<char>)
    requires
        text_le(a, b),
        text_le(b, c),
    ensures
        text_le(a, c),
    decreases a.len(),
{
    if a.len() > 0 && b.len() > 0 && c.len() > 0 && a[0] == b[0] && b[0] == c[0] {
        lemma_text_transitive(a.drop_first(), b.drop_first(), c.drop_first());
    }
}

/// Texts that may stand before each other are equal.
pub proof fn lemma_text_antisymmetric(a: Seq<char>, b: Seq<char>)
    requires
        text_le(a, b),
        text_le(b, a),
    ensures
        a == b,
    decreases a.len(),
{
    if a.len() > 0 && b.len() > 0 {
        lemma_text_antisymmetric(a.drop_first(), b.drop_first());
        assert(a =~= seq![a[0]] + a.drop_first());
        assert(b =~= seq![b[0]] + b.drop_first());
    } else {
        assert(a =~= b);
    }
}

/// Decides [`text_le`].
pub fn text_not_after(a: &str, b: &str) -> (r: bool)
    ensures
        r == text_le(a@, b@),
{
    let x = chars_of(a);
    let y = chars_of(b);
    let mut i: usize = 0;
    assert(x@.skip(0) =~= x@);
    assert(y@.skip(0) =~= y@);
    while i < x.len() && i < y.len() && x[i] == y[i]
        invariant
            i <= x.len(),
            i <= y.len(),
            text_le(a@, b@) == text_le(x@.skip(i as int), y@.skip(i as int)),
        decreases x.len() - i,
    {
        assert(x@.skip(i as int).drop_first() =~= x@.skip(i + 1));
        assert(y@.skip(i as int).drop_first() =~= y@.skip(i + 1));
        i += 1;
    }
    if i == x.len() {
        return true;
    }
    if i == y.len() {
        return false;
    }
    x[i] < y[i]
}

impl Ranked for String {
    open spec fn before_or_level(&self, other: &Self) -> bool {
        text_le(self@, other@)
    }

    fn not_after(&self, other: &Self) -> (r: bool) {
        text_not_after(self.as_str(), other.as_str())
    }

    proof fn rank_total(a: &Self, b: &Self) {
        lemma_text_total(a@, b@);
    }

    proof fn rank_transitive(a: &Self, b: &Self, c: &Self) {
        lemma_text_transitive(a@, b@, c@);
    }
}

/// Whether no text comes after a later one.
pub open spec fn texts_sorted(v: Seq<Seq<char>>) -> bool {
    forall|i: int, j: int| 0 <= i < j < v.len() ==> text_le(#[trigger] v[i], #[trigger] v[j])
}

/// The same texts, sorted.
pub fn sort_texts(v: &Vec<String>) -> (r: Vec<String>)
    ensures
        r@.len() == v@.len(),
        texts_sorted(crate::text::texts(r@)),
        forall|s: Seq<char>|
            crate::text::texts(r@).contains(s) <==> crate::text::texts(v@).contains(s),
        r@.to_multiset() == v@.to_multiset(),
{
    let p = sort_order(v);
    let mut out: Vec<String> = Vec::new();
    let mut i: usize = 0;
    while i < p.len()
        invariant
            i <= p.len() == v.len(),
            stable_order(v@, p@),
            out@ == Seq::new(i as nat, |k: int| v@[p@[k] as int]),
        decreases p.len() - i,
    {
        out.push(v[p[i]].clone());
        assert(out@ =~= Seq::new((i + 1) as nat, |k: int| v@[p@[k] as int]));
        i += 1;
    }
    proof {
        let s = crate::text::texts(out@);
        assert forall|a: int, b: int| 0 <= a < b < s.len() implies text_le(
            #[trigger] s[a],
            #[trigger] s[b],
        ) by {
            assert(sorts_before(v@, p@[a] as int, p@[b] as int));
        }
        let t = crate::text::texts(v@);
        assert forall|x: Seq<char>| s.contains(x) <==> t.contains(x) by {
            if s.contains(x) {
                let k = s.index_of(x);
                assert(s[k] == x);
                assert(t[p@[k] as int] == x);
            }
            if t.contains(x) {
                let j = t.index_of(x);
                assert(t[j] == x);
                assert(p@.contains(j as usize));
                let k = p@.index_of(j as usize);
                assert(p@[k] == j);
                assert(s[k] == x);
            }
        }
        lemma_order_multiset(v@, p@);
    }
    out
}

/// Whether `names` are exactly the members of `all`, each once, in order.
pub open spec fn sorted_names(names: Seq<Seq<char>>, all: Set<Seq<char>>) -> bool {
    &&& names.to_set() == all
    &&& texts_sorted(names)
    &&& names.no_duplicates()
}

proof fn lemma_duplicates_shrink(s: Seq<Seq<char>>)
    requires
        !s.no_duplicates(),
    ensures
        s.to_set().len() < s.len(),
    decreases s.len(),
{
    broadcast use vstd::seq_lib::seq_to_set_is_finite;

    let last = s.last();
    let rest = s.drop_last();
    if rest.no_duplicates() {
        assert(rest.contains(last)) by {
            let (i, j) = choose|i: int, j: int|
                0 <= i < s.len() && 0 <= j < s.len() && i != j && s[i] == s[j];
            if i == s.len() - 1 {
                assert(rest[j] == last);
            } else if j == s.len() - 1 {
                assert(rest[i] == last);
            } else {
                assert(rest[i] == rest[j]);
            }
        }
        assert(s.to_set() =~= rest.to_set()) by {
            assert forall|x: Seq<char>| s.to_set().contains(x) <==> rest.to_set().contains(x) by {
                if s.contains(x) {
                    let k = s.index_of(x);
                    assert(s[k] == x);
                    if k < rest.len() {
                        assert(rest[k] == x);
                    }
                }
                if rest.contains(x) {
                    let k = rest.index_of(x);
                    assert(s[k] == x);
                }
            }
        }
        rest.unique_seq_to_set();
    } else {
        lemma_duplicates_shrink(rest);
        assert(s.to_set() =~= rest.to_set().insert(last)) by {
            assert forall|x: Seq<char>|
                s.to_set().contains(x) <==> rest.to_set().insert(last).contains(x) by {
                if s.contains(x) {
                    let k = s.index_of(x);
                    assert(s[k] == x);
                    if k < rest.len() {
                        assert(rest[k] == x);
                    }
                }
                if rest.contains(x) {
                    let k = rest.index_of(x);
                    assert(s[k] == x);
                }
                if x == last {
                    assert(s[s.len() - 1] == x);
                }
            }
        }
    }
}

/// Distinct texts in order.
pub fn sort_distinct(names: &Vec<String>) -> (r: Vec<String>)
    requires
        texts(names@).no_duplicates(),
    ensures
        sorted_names(texts(r@), texts(names@).to_set()),
        r@.len() == names@.len(),
{
    let r = sort_texts(names);
    proof {
        let listed = texts(r@);
        let given = texts(names@);
        assert(listed.to_set() =~= given.to_set()) by {
            assert forall|x: Seq<char>| listed.to_set().contains(x) <==> given.to_set().contains(
                x,
            ) by {
            }
        }
        given.unique_seq_to_set();
        if !listed.no_duplicates() {
            lemma_duplicates_shrink(listed);
        }
    }
    r
}

/// The keys of a map in order.
pub fn sorted_keys<V>(m: &StrMap<V>) -> (r: Vec<String>)
    ensures
        sorted_names(texts(r@), m@.dom()),
        r@.len() == m@.dom().len(),
{
    let n: usize = m.len();
    let mut names: Vec<String> = Vec::new();
    m.keys_are_distinct();
    let mut i: usize = 0;
    while i < n
        invariant
            i <= n == m.order().len(),
            texts(names@) == m.order().take(i as int),
        decreases n - i,
    {
        let (k, _) = m.entry_at(i);
        let ghost before = texts(names@);
        names.push(k.clone());
        assert(texts(names@) =~= before.push(k@));
        assert(m.order().take(i + 1) =~= m.order().take(i as int).push(m.order()[i as int]));
        i += 1;
    }
    assert(m.order().take(n as int) =~= m.order());
    assert(texts(names@).len() == names@.len());
    sort_distinct(&names)
}

/// There is one way to list a set of names in order.
pub proof fn lemma_sorted_names_unique(
    a: Seq<Seq<char>>,
    b: Seq<Seq<char>>,
    all: Set<Seq<char>>,
)
    requires
        sorted_names(a, all),
        sorted_names(b, all),
    ensures
        a == b,
    decreases a.len(),
{
    a.unique_seq_to_set();
    b.unique_seq_to_set();
    if a.len() > 0 {
        assert(all.contains(a[0]) && all.contains(b[0])) by {
            assert(a.to_set().contains(a[0]));
            assert(b.to_set().contains(b[0]));
        }
        assert(b.contains(a[0]));
        assert(a.contains(b[0]));
        let i = a.index_of(b[0]);
        let j = b.index_of(a[0]);
        if i > 0 && j > 0 {
            assert(text_le(a[0], a[i]));
            assert(text_le(b[0], b[j]));
            lemma_text_antisymmetric(a[0], b[0]);
        }
        assert(a[0] == b[0]);
        let a2 = a.skip(1);
        let b2 = b.skip(1);
        let rest = all.remove(a[0]);
        lemma_tail_names(a, all);
        lemma_tail_names(b, all);
        lemma_sorted_names_unique(a2, b2, rest);
        assert(a =~= seq![a[0]] + a2);
        assert(b =~= seq![b[0]] + b2);
    } else {
        assert(a =~= b);
    }
}

proof fn lemma_tail_names(a: Seq<Seq<char>>, all: Set<Seq<char>>)
    requires
        sorted_names(a, all),
        a.len() > 0,
    ensures
        sorted_names(a.skip(1), all.remove(a[0])),
{
    let t = a.skip(1);
    assert(t.to_set() =~= all.remove(a[0])) by {
        assert forall|x: Seq<char>| t.to_set().contains(x) <==> all.remove(a[0]).contains(x) by {
            if t.contains(x) {
                let k = t.index_of(x);
                assert(t[k] == a[k + 1]);
                assert(a.to_set().contains(a[k + 1]));
            }
            if all.remove(a[0]).contains(x) {
                assert(a.to_set().contains(x));
                let k = a.index_of(x);
                assert(a[k] == x);
                assert(t[k - 1] == x);
            }
        }
    }
    assert forall|i: int, j: int| 0 <= i < j < t.len() implies text_le(
        #[trigger] t[i],
        #[trigger] t[j],
    ) by {
        assert(text_le(a[i + 1], a[j + 1]));
    }
}

/// Visiting every position once gives the same items.
pub proof fn lemma_order_multiset<T: Ranked>(items: Seq<T>, p: Seq<usize>)
    requires
        stable_order(items, p),
    ensures
        Seq::new(p.len(), |k: int| items[p[k] as int]).to_multiset() == items.to_multiset(),
{
    lemma_permuted_multiset(items, p);
}

proof fn lemma_permuted_multiset<T>(items: Seq<T>, p: Seq<usize>)
    requires
        p.len() == items.len(),
        forall|a: int| 0 <= a < p.len() ==> (#[trigger] p[a]) < items.len(),
        forall|a: int, b: int| 0 <= a < p.len() && 0 <= b < p.len() && a != b ==> p[a] != p[b],
    ensures
        Seq::new(p.len(), |k: int| items[p[k] as int]).to_multiset() == items.to_multiset(),
    decreases items.len(),
{
    broadcast use vstd::seq_lib::group_to_multiset_ensures;

    let out = Seq::new(p.len(), |k: int| items[p[k] as int]);
    if p.len() == 0 {
        assert(out =~= items);
    } else {
        let last = p.last() as int;
        let items2 = items.remove(last);
        let p2 = Seq::new(
            (p.len() - 1) as nat,
            |k: int|
                if p[k] < last {
                    p[k]
                } else {
                    (p[k] - 1) as usize
                },
        );
        assert forall|a: int| 0 <= a < p2.len() implies (#[trigger] p2[a]) < items2.len() by {
            assert(p[a] != p[p.len() - 1]);
        }
        assert forall|a: int, b: int|
            0 <= a < p2.len() && 0 <= b < p2.len() && a != b implies p2[a] != p2[b] by {
            assert(p[a] != p[b]);
            assert(p[a] != p[p.len() - 1]);
            assert(p[b] != p[p.len() - 1]);
        }
        lemma_permuted_multiset(items2, p2);
        let out2 = Seq::new(p2.len(), |k: int| items2[p2[k] as int]);
        assert(out.drop_last() =~= out2) by {
            assert forall|k: int| 0 <= k < out2.len() implies out.drop_last()[k] == out2[k] by {
                assert(p[k] != p[p.len() - 1]);
            }
        }
        assert(out =~= out2.push(items[last]));
        vstd::seq_lib::to_multiset_build(out2, items[last]);
        vstd::seq_lib::to_multiset_remove(items, last);
        assert(items2.to_multiset() =~= items.to_multiset().remove(items[last]));
        assert(items.to_multiset().count(items[last]) > 0) by {
            assert(items.contains(items[last]));
            vstd::seq_lib::to_multiset_contains(items, items[last]);
        }
        assert(out.to_multiset() =~= items.to_multiset());
    }
}

/// Texts go by the first character in which they differ, and a text comes before every
/// longer one that begins with it.
pub proof fn lemma_texts_go_by_the_first_difference(
    common: Seq<char>,
    x: char,
    y: char,
    a: Seq<char>,
    b: Seq<char>,
)
    ensures
        x < y ==> text_le(common.push(x) + a, common.push(y) + b),
        x > y ==> !text_le(common.push(x) + a, common.push(y) + b),
        text_le(common, common + a),
        a.len() > 0 ==> !text_le(common + a, common),
    decreases common.len(),
{
    let p = common.push(x) + a;
    let q = common.push(y) + b;
    if common.len() == 0 {
        assert(p[0] == x && q[0] == y);
    } else {
        let rest = common.drop_first();
        lemma_texts_go_by_the_first_difference(rest, x, y, a, b);
        assert(p.drop_first() =~= rest.push(x) + a);
        assert(q.drop_first() =~= rest.push(y) + b);
        assert((common + a).drop_first() =~= rest + a);
        assert(p[0] == common[0] && q[0] == common[0] && (common + a)[0] == common[0]);
    }
}

} // verus!
