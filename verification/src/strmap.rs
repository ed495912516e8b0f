//! A map keyed by text, and a set of texts, both kept in insertion order.

use crate::text::same;
use vstd::prelude::*;

verus! {

/// Whether no two entries have the same key.
pub open spec fn distinct_keys<V>(s: Seq<(String, V)>) -> bool {
    forall|i: int, j: int| 0 <= i < j < s.len() ==> (#[trigger] s[i]).0@ != (#[trigger] s[j]).0@
}

/// The keys of the entries, in order.
pub open spec fn keys_of<V>(s: Seq<(String, V)>) -> Seq<Seq<char>> {
    Seq::new(s.len(), |i: int| s[i].0@)
}

/// The mapping that a list of entries stands for.
pub open spec fn map_of<V>(s: Seq<(String, V)>) -> Map<Seq<char>, V> {
    Map::new(
        |k: Seq<char>| keys_of(s).contains(k),
        |k: Seq<char>| s[keys_of(s).index_of(k)].1,
    )
}

proof fn lemma_map_of_at<V>(s: Seq<(String, V)>, i: int)
    requires
        distinct_keys(s),
        0 <= i < s.len(),
    ensures
        map_of(s).dom().contains(s[i].0@),
        map_of(s)[s[i].0@] == s[i].1,
{
    assert(keys_of(s)[i] == s[i].0@);
    let j = keys_of(s).index_of(s[i].0@);
    assert(keys_of(s)[j] == s[i].0@);
    if i < j {
        assert(s[i].0@ != s[j].0@);
    } else if j < i {
        assert(s[j].0@ != s[i].0@);
    }
}

proof fn lemma_dom<V>(s: Seq<(String, V)>)
    requires
        distinct_keys(s),
    ensures
        keys_of(s).no_duplicates(),
        map_of(s).dom() == keys_of(s).to_set(),
        map_of(s).dom().finite(),
        map_of(s).dom().len() == s.len(),
{
    keys_of(s).unique_seq_to_set();
}

/// A map from texts to values of `V`.
#[derive(Debug, PartialEq, Eq)]
pub struct StrMap<V> {
    entries: Vec<(String, V)>,
}

impl<V> View for StrMap<V> {
    type V = Map<Seq<char>, V>;

    closed spec fn view(&self) -> Map<Seq<char>, V> {
        map_of(self.entries@)
    }
}

impl<V> StrMap<V> {
    #[verifier::type_invariant]
    spec fn well_formed(&self) -> bool {
        distinct_keys(self.entries@)
    }

    /// The keys in the order in which they came in.
    pub closed spec fn order(&self) -> Seq<Seq<char>> {
        keys_of(self.entries@)
    }

    /// The keys in order are all the keys, each once.
    pub fn keys_are_distinct(&self)
        ensures
            self.order().no_duplicates(),
            self.order().to_set() == self@.dom(),
            self@.dom().finite(),
            self.order().len() == self@.dom().len(),
    {
        proof {
            use_type_invariant(self);
            lemma_dom(self.entries@);
        }
    }

    /// The empty map.
    pub fn new() -> (r: Self)
        ensures
            r@ == Map::<Seq<char>, V>::empty(),
            r.order() == Seq::<Seq<char>>::empty(),
    {
        let r = StrMap { entries: Vec::new() };
        r
    }

    /// How many keys there are.
    pub fn len(&self) -> (r: usize)
        ensures
            r == self@.dom().len(),
            r == self.order().len(),
            self@.dom().finite(),
    {
        proof {
            use_type_invariant(self);
            lemma_dom(self.entries@);
        }
        self.entries.len()
    }

    /// Whether there is no key.
    pub fn is_empty(&self) -> (r: bool)
        ensures
            r == (self@ == Map::<Seq<char>, V>::empty()),
            r == (self@.dom().len() == 0),
    {
        proof {
            use_type_invariant(self);
            lemma_dom(self.entries@);
            if self.entries@.len() == 0 {
                assert(self@ =~= Map::empty());
            } else {
                lemma_map_of_at(self.entries@, 0);
            }
        }
        self.entries.len() == 0
    }

    fn position(&self, key: &str) -> (r: Option<usize>)
        ensures
            match r {
                Some(i) => i < self.entries@.len() && self.entries@[i as int].0@ == key@
                    && self@.dom().contains(key@) && self@[key@] == self.entries@[i as int].1,
                None => !self@.dom().contains(key@) && forall|j: int|
                    0 <= j < self.entries@.len() ==> (#[trigger] self.entries@[j]).0@ != key@,
            },
    {
        proof {
            use_type_invariant(self);
        }
        let mut i: usize = 0;
        while i < self.entries.len()
            invariant
                i <= self.entries.len(),
                distinct_keys(self.entries@),
                forall|j: int| 0 <= j < i ==> (#[trigger] self.entries@[j]).0@ != key@,
            decreases self.entries.len() - i,
        {
            if same(self.entries[i].0.as_str(), key) {
                proof {
                    lemma_map_of_at(self.entries@, i as int);
                }
                return Some(i);
            }
            i += 1;
        }
        proof {
            if keys_of(self.entries@).contains(key@) {
                let j = keys_of(self.entries@).index_of(key@);
            }
        }
        None
    }

    /// The value under `key`.
    pub fn get(&self, key: &str) -> (r: Option<&V>)
        ensures
            match r {
                Some(v) => self@.dom().contains(key@) && *v == self@[key@],
                None => !self@.dom().contains(key@),
            },
    {
        match self.position(key) {
            Some(i) => Some(&self.entries[i].1),
            None => None,
        }
    }

    /// Whether there is a value under `key`.
    pub fn contains_key(&self, key: &str) -> (r: bool)
        ensures
            r == self@.dom().contains(key@),
    {
        self.position(key).is_some()
    }

    /// The `i`-th key with its value.
    pub fn entry_at(&self, i: usize) -> (r: (&String, &V))
        requires
            i < self.order().len(),
        ensures
            r.0@ == self.order()[i as int],
            self@.dom().contains(r.0@),
            *r.1 == self@[r.0@],
    {
        proof {
            use_type_invariant(self);
            lemma_map_of_at(self.entries@, i as int);
        }
        (&self.entries[i].0, &self.entries[i].1)
    }

    /// Puts `value` under `key`; gives back what was there.
    pub fn insert(&mut self, key: String, value: V) -> (r: Option<V>)
        ensures
            final(self)@ == old(self)@.insert(key@, value),
            match r {
                Some(v) => old(self)@.dom().contains(key@) && v == old(self)@[key@],
                None => !old(self)@.dom().contains(key@),
            },
            final(self).order() == if old(self)@.dom().contains(key@) {
                old(self).order()
            } else {
                old(self).order().push(key@)
            },
    {
        proof {
            use_type_invariant(&*self);
        }
        let at = self.position(key.as_str());
        let ghost before = self.entries@;
        let mut entries: Vec<(String, V)> = Vec::new();
        std::mem::swap(&mut entries, &mut self.entries);
        match at {
            Some(i) => {
                let prior = entries.remove(i);
                entries.insert(i, (key, value));
                proof {
                    let s = entries@;
                    assert(s =~= before.update(i as int, (key, value)));
                    assert(distinct_keys(s));
                    assert(keys_of(s) =~= keys_of(before));
                    lemma_same_keys_insert(before, i as int, key, value);
                }
                self.entries = entries;
                Some(prior.1)
            },
            None => {
                entries.push((key, value));
                proof {
                    let s = entries@;
                    assert(s =~= before.push((key, value)));
                    assert(distinct_keys(s));
                    assert(keys_of(s) =~= keys_of(before).push(key@));
                    lemma_new_key_insert(before, key, value);
                }
                self.entries = entries;
                None
            },
        }
    }

    /// Takes out `key`; gives back what was there.
    pub fn remove(&mut self, key: &str) -> (r: Option<V>)
        ensures
            final(self)@ == old(self)@.remove(key@),
            match r {
                Some(v) => old(self)@.dom().contains(key@) && v == old(self)@[key@],
                None => !old(self)@.dom().contains(key@) && final(self).order() == old(
                    self,
                ).order(),
            },
    {
        proof {
            use_type_invariant(&*self);
        }
        let at = self.position(key);
        match at {
            Some(i) => {
                let ghost before = self.entries@;
                let mut entries: Vec<(String, V)> = Vec::new();
                std::mem::swap(&mut entries, &mut self.entries);
                let prior = entries.remove(i);
                proof {
                    lemma_key_removed(before, i as int);
                }
                self.entries = entries;
                Some(prior.1)
            },
            None => {
                None
            },
        }
    }
}

proof fn lemma_same_keys_insert<V>(s: Seq<(String, V)>, i: int, key: String, value: V)
    requires
        distinct_keys(s),
        0 <= i < s.len(),
        s[i].0@ == key@,
    ensures
        map_of(s.update(i, (key, value))) == map_of(s).insert(key@, value),
{
    let t = s.update(i, (key, value));
    assert(keys_of(t) =~= keys_of(s));
    assert(distinct_keys(t));
    lemma_map_of_at(s, i);
    lemma_map_of_at(t, i);
    let m = map_of(t);
    let n = map_of(s).insert(key@, value);
    assert(m.dom() =~= n.dom());
    assert forall|k: Seq<char>| m.dom().contains(k) implies m[k] == n[k] by {
        let j = keys_of(s).index_of(k);
        assert(keys_of(s)[j] == k);
        lemma_map_of_at(s, j);
        lemma_map_of_at(t, j);
        if k == key@ {
            assert(m[k] == value);
        } else {
            assert(j != i);
        }
    }
    assert(m =~= n);
}

proof fn lemma_new_key_insert<V>(s: Seq<(String, V)>, key: String, value: V)
    requires
        distinct_keys(s),
        forall|j: int| 0 <= j < s.len() ==> (#[trigger] s[j]).0@ != key@,
    ensures
        map_of(s.push((key, value))) == map_of(s).insert(key@, value),
{
    let t = s.push((key, value));
    assert(distinct_keys(t));
    assert(keys_of(t) =~= keys_of(s).push(key@));
    let m = map_of(t);
    let n = map_of(s).insert(key@, value);
    lemma_map_of_at(t, s.len() as int);
    assert forall|k: Seq<char>| m.dom().contains(k) <==> n.dom().contains(k) by {
        if n.dom().contains(k) && k != key@ {
            let j = keys_of(s).index_of(k);
            assert(keys_of(s)[j] == k);
            assert(keys_of(t)[j] == k);
        }
        if m.dom().contains(k) && k != key@ {
            let j = keys_of(t).index_of(k);
            assert(keys_of(t)[j] == k);
            assert(keys_of(s)[j] == k);
        }
    }
    assert(m.dom() =~= n.dom());
    assert forall|k: Seq<char>| m.dom().contains(k) implies m[k] == n[k] by {
        if k != key@ {
            let j = keys_of(s).index_of(k);
            assert(keys_of(s)[j] == k);
            lemma_map_of_at(s, j);
            lemma_map_of_at(t, j);
        }
    }
    assert(m =~= n);
}

proof fn lemma_key_removed<V>(s: Seq<(String, V)>, i: int)
    requires
        distinct_keys(s),
        0 <= i < s.len(),
    ensures
        map_of(s.remove(i)) == map_of(s).remove(s[i].0@),
{
    let t = s.remove(i);
    let key = s[i].0@;
    assert forall|a: int, b: int| 0 <= a < b < t.len() implies (#[trigger] t[a]).0@ != (
    #[trigger] t[b]).0@ by {
        let a2 = if a < i {
            a
        } else {
            a + 1
        };
        let b2 = if b < i {
            b
        } else {
            b + 1
        };
        assert(s[a2].0@ != s[b2].0@);
    }
    let m = map_of(t);
    let n = map_of(s).remove(key);
    assert forall|k: Seq<char>| m.dom().contains(k) <==> n.dom().contains(k) by {
        if m.dom().contains(k) {
            let j = keys_of(t).index_of(k);
            assert(keys_of(t)[j] == k);
            let j2 = if j < i {
                j
            } else {
                j + 1
            };
            assert(keys_of(s)[j2] == k);
            assert(s[j2].0@ != s[i].0@);
        }
        if n.dom().contains(k) {
            let j = keys_of(s).index_of(k);
            assert(keys_of(s)[j] == k);
            let j2 = if j < i {
                j
            } else {
                j - 1
            };
            assert(keys_of(t)[j2] == k);
        }
    }
    assert(m.dom() =~= n.dom());
    assert forall|k: Seq<char>| m.dom().contains(k) implies m[k] == n[k] by {
        let j = keys_of(t).index_of(k);
        assert(keys_of(t)[j] == k);
        let j2 = if j < i {
            j
        } else {
            j + 1
        };
        lemma_map_of_at(t, j);
        lemma_map_of_at(s, j2);
    }
    assert(m =~= n);
}

/// A set of texts.
#[derive(Debug, PartialEq, Eq)]
pub struct StrSet {
    items: StrMap<()>,
}

impl View for StrSet {
    type V = Set<Seq<char>>;

    closed spec fn view(&self) -> Set<Seq<char>> {
        self.items@.dom()
    }
}

impl StrSet {
    /// The empty set.
    pub fn new() -> (r: Self)
        ensures
            r@ == Set::<Seq<char>>::empty(),
    {
        let r = StrSet { items: StrMap::new() };
        r
    }

    /// How many texts there are.
    pub fn len(&self) -> (r: usize)
        ensures
            r == self@.len(),
            self@.finite(),
    {
        self.items.len()
    }

    /// Whether there is none.
    pub fn is_empty(&self) -> (r: bool)
        ensures
            r == (self@ == Set::<Seq<char>>::empty()),
    {
        let n: usize = self.items.len();
        assert(n == 0 ==> self@ =~= Set::empty());
        n == 0
    }

    /// Whether `s` is one of them.
    pub fn contains(&self, s: &str) -> (r: bool)
        ensures
            r == self@.contains(s@),
    {
        self.items.contains_key(s)
    }

    /// Adds `s`.
    pub fn insert(&mut self, s: String)
        ensures
            final(self)@ == old(self)@.insert(s@),
    {
        self.items.insert(s, ());
    }
}

} // verus!
