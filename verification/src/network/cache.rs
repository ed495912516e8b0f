//! Bounded in-memory response cache.

use crate::fields::{before_first, first_index, lemma_first_index};
use crate::network::request::{HttpRequestParams, MultipartPart};
use crate::number::{
    hex, hexadecimal, lemma_hexadecimal_digits, lemma_hexadecimal_injective,
};
use crate::strmap::StrMap;
use crate::text::{contains, has_infix, lower_ascii, opt_text, same, to_ascii_lower};
use std::collections::hash_map::DefaultHasher;
use std::hash::Hasher;
use vstd::prelude::*;
use vstd::std_specs::hash::DefaultHasherAdditionalSpecFns;
use vstd::utf8::{encode_utf8, encode_utf8_decode_utf8};

verus! {

/// Hard ceiling on the number of cached responses.
pub const CACHE_MAX_ENTRIES: usize = 128;

/// Hard ceiling on the bytes of all cached bodies together. A body larger than
/// this never enters the cache.
pub const CACHE_MAX_TOTAL_BYTES: usize = 8_388_608;

/// One cached response.
#[derive(Debug)]
pub struct CacheEntry {
    pub stored_at_ms: u64,
    pub expires_at_ms: u64,
    pub status: u16,
    pub headers: StrMap<String>,
    pub body: Vec<u8>,
    pub body_encoding: &'static str,
}

/// Bytes of all bodies together.
pub open spec fn body_total(m: Map<Seq<char>, CacheEntry>) -> nat
    decreases m.dom().len(),
    when m.dom().finite()
{
    if m.dom().len() == 0 {
        0
    } else {
        let k = m.dom().choose();
        m[k].body@.len() + body_total(m.remove(k))
    }
}

/// Whether a cache content keeps to both ceilings.
pub open spec fn within_limits(m: Map<Seq<char>, CacheEntry>) -> bool {
    m.dom().len() <= CACHE_MAX_ENTRIES && body_total(m) <= CACHE_MAX_TOTAL_BYTES
}

/// Whether `kept` is what stays of `full` when the oldest entries are evicted
/// until the ceilings hold: everything evicted is at most as young as anything
/// kept, and the entry evicted last had to go.
pub open spec fn evicted_to(
    full: Map<Seq<char>, CacheEntry>,
    kept: Map<Seq<char>, CacheEntry>,
) -> bool {
    &&& part_of(kept, full)
    &&& within_limits(kept)
    &&& older_than_kept(full, kept)
    &&& kept == full || exists|v: Seq<char>| last_evicted(full, kept, v)
}

/// Whether everything in `m` is in `n`, under the same key.
pub open spec fn part_of(m: Map<Seq<char>, CacheEntry>, n: Map<Seq<char>, CacheEntry>) -> bool {
    forall|k: Seq<char>|
        #[trigger] m.dom().contains(k) ==> n.dom().contains(k) && m[k] == n[k]
}

/// Whether every entry that is gone was stored no later than any that stays.
pub open spec fn older_than_kept(
    full: Map<Seq<char>, CacheEntry>,
    kept: Map<Seq<char>, CacheEntry>,
) -> bool {
    forall|g: Seq<char>, k: Seq<char>|
        full.dom().contains(g) && !kept.dom().contains(g) && kept.dom().contains(k)
            ==> (#[trigger] full[g]).stored_at_ms <= (#[trigger] kept[k]).stored_at_ms
}

/// Whether `v` is gone and would not have fitted beside what stays.
pub open spec fn last_evicted(
    full: Map<Seq<char>, CacheEntry>,
    kept: Map<Seq<char>, CacheEntry>,
    v: Seq<char>,
) -> bool {
    full.dom().contains(v) && !kept.dom().contains(v) && !within_limits(kept.insert(v, full[v]))
}

proof fn lemma_total_remove(m: Map<Seq<char>, CacheEntry>, k: Seq<char>)
    requires
        m.dom().finite(),
        m.dom().contains(k),
    ensures
        body_total(m) == m[k].body@.len() + body_total(m.remove(k)),
        m.remove(k).dom().len() == m.dom().len() - 1,
        m.remove(k).dom().finite(),
    decreases m.dom().len(),
{
    let c = m.dom().choose();
    assert(m.remove(k).dom() =~= m.dom().remove(k));
    assert(m.remove(c).dom() =~= m.dom().remove(c));
    if c != k {
        lemma_total_remove(m.remove(c), k);
        lemma_total_remove(m.remove(k), c);
        assert(m.remove(c).remove(k) =~= m.remove(k).remove(c));
    }
}

/// The cache: responses by key, inside both ceilings at all times.
pub struct CacheStore {
    entries: StrMap<CacheEntry>,
    total_bytes: usize,
}

impl View for CacheStore {
    type V = Map<Seq<char>, CacheEntry>;

    closed spec fn view(&self) -> Map<Seq<char>, CacheEntry> {
        self.entries@
    }
}

/// The key of an entry that was stored first.
fn oldest_key(entries: &StrMap<CacheEntry>) -> (r: String)
    requires
        entries.order().len() > 0,
    ensures
        entries@.dom().contains(r@),
        forall|k: Seq<char>|
            entries@.dom().contains(k) ==> entries@[r@].stored_at_ms <= (
            #[trigger] entries@[k]).stored_at_ms,
{
    let n: usize = entries.len();
    let mut best: usize = 0;
    let mut best_at: u64 = entries.entry_at(0).1.stored_at_ms;
    let mut i: usize = 1;
    while i < n
        invariant
            1 <= i <= n == entries.order().len(),
            best < i,
            entries@[entries.order()[best as int]].stored_at_ms == best_at,
            forall|j: int|
                0 <= j < i ==> best_at <= entries@[#[trigger] entries.order()[j]].stored_at_ms,
        decreases n - i,
    {
        let at: u64 = entries.entry_at(i).1.stored_at_ms;
        if at < best_at {
            best = i;
            best_at = at;
        }
        i += 1;
    }
    entries.keys_are_distinct();
    let key = entries.entry_at(best).0.clone();
    assert forall|k: Seq<char>| entries@.dom().contains(k) implies entries@[key@].stored_at_ms <= (
    #[trigger] entries@[k]).stored_at_ms by {
        let j = entries.order().index_of(k);
    }
    key
}

impl CacheStore {
    #[verifier::type_invariant]
    spec fn well_formed(&self) -> bool {
        &&& self.entries@.dom().finite()
        &&& self.total_bytes == body_total(self.entries@)
        &&& within_limits(self.entries@)
    }

    /// The empty cache.
    pub fn new() -> (r: Self)
        ensures
            r@ == Map::<Seq<char>, CacheEntry>::empty(),
            r@.dom().finite(),
    {
        CacheStore { entries: StrMap::new(), total_bytes: 0 }
    }

    /// The response under `key`, unless it has expired.
    pub fn get(&self, key: &str, now_ms: u64) -> (r: Option<&CacheEntry>)
        ensures
            match r {
                Some(e) => self@.dom().contains(key@) && *e == self@[key@] && now_ms
                    <= e.expires_at_ms,
                None => !self@.dom().contains(key@) || now_ms > self@[key@].expires_at_ms,
            },
    {
        match self.entries.get(key) {
            Some(e) => if now_ms <= e.expires_at_ms {
                Some(e)
            } else {
                None
            },
            None => None,
        }
    }

    /// Puts `entry` under `key`, then evicts the oldest entries until the
    /// ceilings hold. A body larger than the whole budget never enters.
    pub fn put(&mut self, key: String, entry: CacheEntry)
        ensures
            if entry.body@.len() > CACHE_MAX_TOTAL_BYTES {
                final(self)@ == old(self)@
            } else {
                evicted_to(old(self)@.insert(key@, entry), final(self)@)
            },
            within_limits(final(self)@),
            old(self)@.dom().finite(),
            final(self)@.dom().finite(),
    {
        proof {
            use_type_invariant(&*self);
        }
        if entry.body.len() > CACHE_MAX_TOTAL_BYTES {
            return;
        }
        let ghost prior = self@;
        let mut taken = CacheStore::new();
        std::mem::swap(self, &mut taken);
        let mut entries = taken.entries;
        let mut total: usize = taken.total_bytes;
        let ghost key_text = key@;
        if let Some(replaced) = entries.remove(key.as_str()) {
            proof {
                lemma_total_remove(prior, key_text);
            }
            total = total - replaced.body.len();
        }
        assert(entries@ =~= prior.remove(key_text));
        assert(!prior.dom().contains(key_text) ==> prior.remove(key_text) =~= prior);
        total = total + entry.body.len();
        let ghost full = prior.insert(key_text, entry);
        entries.insert(key, entry);
        proof {
            assert(entries@ =~= full);
            assert(full.remove(key_text) =~= prior.remove(key_text));
            lemma_total_remove(full, key_text);
        }
        while entries.len() > CACHE_MAX_ENTRIES || total > CACHE_MAX_TOTAL_BYTES
            invariant
                entries@.dom().finite(),
                full.dom().finite(),
                total == body_total(entries@),
                part_of(entries@, full),
                older_than_kept(full, entries@),
                entries@ == full || exists|v: Seq<char>| last_evicted(full, entries@, v),
            decreases entries@.dom().len(),
        {
            let ghost before = entries@;
            assert(part_of(before, full));
            proof {
                if before.dom().len() == 0 {
                    assert(total == 0);
                }
            }
            entries.keys_are_distinct();
            let oldest = oldest_key(&entries);
            assert(full.dom().contains(oldest@) && before[oldest@] == full[oldest@]);
            let evicted = entries.remove(oldest.as_str());
            proof {
                lemma_total_remove(before, oldest@);
                assert forall|k: Seq<char>| #[trigger] entries@.dom().contains(k) implies
                    full.dom().contains(k) && entries@[k] == full[k] by {
                    assert(before.dom().contains(k));
                }
                assert(before.insert(oldest@, full[oldest@]) =~= before);
                assert(entries@.insert(oldest@, full[oldest@]) =~= before);
                assert(last_evicted(full, entries@, oldest@));
            }
            if let Some(e) = evicted {
                total = total - e.body.len();
            }
        }
        *self = CacheStore { entries, total_bytes: total };
    }

    /// How many responses are cached.
    pub fn len(&self) -> (r: usize)
        ensures
            r == self@.dom().len(),
            r <= CACHE_MAX_ENTRIES,
    {
        proof {
            use_type_invariant(self);
        }
        self.entries.len()
    }

    /// Whether nothing is cached.
    pub fn is_empty(&self) -> (r: bool)
        ensures
            r == (self@ == Map::<Seq<char>, CacheEntry>::empty()),
    {
        self.entries.is_empty()
    }
}

proof fn lemma_total_part(m: Map<Seq<char>, CacheEntry>, n: Map<Seq<char>, CacheEntry>)
    requires
        n.dom().finite(),
        part_of(m, n),
    ensures
        m.dom().finite(),
        m.dom().len() <= n.dom().len(),
        body_total(m) <= body_total(n),
    decreases n.dom().len(),
{
    vstd::set_lib::lemma_len_subset(m.dom(), n.dom());
    if m.dom().len() == 0 {
    } else {
        let k = m.dom().choose();
        assert forall|j: Seq<char>| #[trigger] m.remove(k).dom().contains(j) implies n.remove(
            k,
        ).dom().contains(j) && m.remove(k)[j] == n.remove(k)[j] by {
        }
        lemma_total_remove(m, k);
        lemma_total_remove(n, k);
        lemma_total_part(m.remove(k), n.remove(k));
    }
}

/// Where everything fits, storing evicts nothing: what was put can be got.
pub proof fn lemma_put_keeps_all_that_fits(
    full: Map<Seq<char>, CacheEntry>,
    kept: Map<Seq<char>, CacheEntry>,
)
    requires
        full.dom().finite(),
        within_limits(full),
        evicted_to(full, kept),
    ensures
        kept == full,
{
    if kept != full {
        let v = choose|v: Seq<char>| last_evicted(full, kept, v);
        let back = kept.insert(v, full[v]);
        assert forall|k: Seq<char>| #[trigger] back.dom().contains(k) implies full.dom().contains(
            k,
        ) && back[k] == full[k] by {
            if k != v {
            }
        }
        lemma_total_part(back, full);
    }
}

/// The cache holds 128 responses and eight mebibytes of bodies at most, and what it
/// holds is as it was put there.
pub proof fn lemma_cache_stays_small(
    full: Map<Seq<char>, CacheEntry>,
    kept: Map<Seq<char>, CacheEntry>,
    key: Seq<char>,
)
    requires
        evicted_to(full, kept),
    ensures
        kept.dom().len() <= 128,
        body_total(kept) <= 8 * 1024 * 1024,
        kept.dom().contains(key) ==> full.dom().contains(key) && kept[key] == full[key],
        forall|gone: Seq<char>|
            full.dom().contains(gone) && !(#[trigger] kept.dom().contains(gone))
                && kept.dom().contains(key) ==> full[gone].stored_at_ms <= full[key].stored_at_ms,
{
    assert forall|gone: Seq<char>|
        full.dom().contains(gone) && !(#[trigger] kept.dom().contains(gone))
            && kept.dom().contains(key) implies full[gone].stored_at_ms
        <= full[key].stored_at_ms by {
        assert(full[gone].stored_at_ms <= kept[key].stored_at_ms);
    }
}

/// A response stored later than every other one survives the eviction that
/// its own arrival causes.
pub proof fn lemma_newest_survives(
    full: Map<Seq<char>, CacheEntry>,
    kept: Map<Seq<char>, CacheEntry>,
    newest: Seq<char>,
)
    requires
        evicted_to(full, kept),
        full.dom().finite(),
        full.dom().contains(newest),
        forall|k: Seq<char>|
            full.dom().contains(k) && k != newest ==> (#[trigger] full[k]).stored_at_ms
                < full[newest].stored_at_ms,
        forall|k: Seq<char>|
            full.dom().contains(k) ==> (#[trigger] full[k]).body@.len() <= CACHE_MAX_TOTAL_BYTES,
    ensures
        kept.dom().contains(newest),
        kept[newest] == full[newest],
{
    if !kept.dom().contains(newest) {
        assert forall|k: Seq<char>| !kept.dom().contains(k) by {
            if kept.dom().contains(k) {
                assert(full[newest].stored_at_ms <= kept[k].stored_at_ms);
            }
        }
        assert(kept.dom() =~= Set::empty());
        let v = choose|v: Seq<char>| last_evicted(full, kept, v);
        let single = kept.insert(v, full[v]);
        assert(single.dom() =~= set![v]);
        lemma_total_remove(single, v);
        assert(single.remove(v).dom() =~= Set::empty());
        assert(body_total(single.remove(v)) == 0);
        assert(full[v].body@.len() <= CACHE_MAX_TOTAL_BYTES);
    }
}

// ---------------------------------------------------------------------------
// Keys
// ---------------------------------------------------------------------------

/// The cache key of a request.
pub open spec fn key_text(
    caller: Seq<char>,
    method: Seq<char>,
    url: Seq<char>,
    body_hash: u64,
) -> Seq<char> {
    caller + "|"@ + method + "|"@ + url + "|"@ + hexadecimal(body_hash as nat)
}

/// The cache key of a request: it starts with the caller, so that cached data
/// never crosses callers.
pub fn cache_key(caller_plugin_id: &str, method: &str, url: &str, body_hash: u64) -> (r: String)
    ensures
        r@ == key_text(caller_plugin_id@, method@, url@, body_hash),
{
    let mut out = caller_plugin_id.to_owned();
    out.append("|");
    out.append(method);
    out.append("|");
    out.append(url);
    out.append("|");
    out.append(hex(body_hash).as_str());
    out
}

/// Two callers never share a key, whatever they request. Caller ids hold no
/// `|`.
pub proof fn lemma_cache_key_per_caller(
    caller_a: Seq<char>,
    method_a: Seq<char>,
    url_a: Seq<char>,
    hash_a: u64,
    caller_b: Seq<char>,
    method_b: Seq<char>,
    url_b: Seq<char>,
    hash_b: u64,
)
    requires
        !caller_a.contains('|'),
        !caller_b.contains('|'),
        caller_a != caller_b,
    ensures
        key_text(caller_a, method_a, url_a, hash_a) != key_text(
            caller_b,
            method_b,
            url_b,
            hash_b,
        ),
{
    lemma_key_caller(caller_a, method_a, url_a, hash_a);
    lemma_key_caller(caller_b, method_b, url_b, hash_b);
}

proof fn lemma_key_caller(caller: Seq<char>, method: Seq<char>, url: Seq<char>, hash: u64)
    requires
        !caller.contains('|'),
    ensures
        before_first(key_text(caller, method, url, hash), '|') == caller,
{
    reveal_strlit("|");
    let key = key_text(caller, method, url, hash);
    assert(key[caller.len() as int] == '|');
    assert forall|i: int| 0 <= i < caller.len() implies key[i] != '|' by {
        assert(caller.contains(caller[i]));
    }
    lemma_first_index(key, '|');
    let f = first_index(key, '|');
    if f < caller.len() {
        assert(key[f] != '|');
    }
    assert(key.take(caller.len() as int) =~= caller);
}

/// A request of one caller by another method, for another URL, or with another
/// body fingerprint has another key. Methods hold no `|`.
pub proof fn lemma_cache_key_per_request(
    caller: Seq<char>,
    method_a: Seq<char>,
    url_a: Seq<char>,
    hash_a: u64,
    method_b: Seq<char>,
    url_b: Seq<char>,
    hash_b: u64,
)
    requires
        !method_a.contains('|'),
        !method_b.contains('|'),
        key_text(caller, method_a, url_a, hash_a) == key_text(caller, method_b, url_b, hash_b),
    ensures
        method_a == method_b,
        url_a == url_b,
        hash_a == hash_b,
{
    reveal_strlit("|");
    let rest_a = method_a + "|"@ + url_a + "|"@ + hexadecimal(hash_a as nat);
    let rest_b = method_b + "|"@ + url_b + "|"@ + hexadecimal(hash_b as nat);
    let key = key_text(caller, method_a, url_a, hash_a);
    assert(rest_a =~= key.skip((caller.len() + 1) as int));
    assert(rest_b =~= key_text(caller, method_b, url_b, hash_b).skip((caller.len() + 1) as int));
    lemma_head_field(method_a, url_a + "|"@ + hexadecimal(hash_a as nat));
    lemma_head_field(method_b, url_b + "|"@ + hexadecimal(hash_b as nat));
    assert(rest_a =~= method_a + "|"@ + (url_a + "|"@ + hexadecimal(hash_a as nat)));
    assert(rest_b =~= method_b + "|"@ + (url_b + "|"@ + hexadecimal(hash_b as nat)));
    assert(method_a == method_b);
    let tail_a = url_a + "|"@ + hexadecimal(hash_a as nat);
    let tail_b = url_b + "|"@ + hexadecimal(hash_b as nat);
    assert(tail_a =~= rest_a.skip((method_a.len() + 1) as int));
    assert(tail_b =~= rest_b.skip((method_b.len() + 1) as int));
    lemma_last_field(url_a, hash_a, url_b, hash_b);
    lemma_hexadecimal_injective(hash_a as nat, hash_b as nat);
}

/// A fingerprint holds no `|`, so the last `|` tells where it starts.
proof fn lemma_last_field(url_a: Seq<char>, hash_a: u64, url_b: Seq<char>, hash_b: u64)
    requires
        url_a + "|"@ + hexadecimal(hash_a as nat) == url_b + "|"@ + hexadecimal(hash_b as nat),
    ensures
        url_a == url_b,
        hexadecimal(hash_a as nat) == hexadecimal(hash_b as nat),
{
    reveal_strlit("|");
    let (hex_a, hex_b) = (hexadecimal(hash_a as nat), hexadecimal(hash_b as nat));
    lemma_hexadecimal_digits(hash_a as nat);
    lemma_hexadecimal_digits(hash_b as nat);
    let s = url_a + "|"@ + hex_a;
    let t = url_b + "|"@ + hex_b;
    assert("|"@.len() == 1);
    assert(s.len() == url_a.len() + 1 + hex_a.len());
    assert(t.len() == url_b.len() + 1 + hex_b.len());
    assert(s[url_a.len() as int] == '|');
    assert(t[url_b.len() as int] == '|');
    if url_a.len() < url_b.len() {
        assert(s[url_b.len() as int] == hex_a[url_b.len() - url_a.len() - 1]);
    } else if url_b.len() < url_a.len() {
        assert(t[url_a.len() as int] == hex_b[url_a.len() - url_b.len() - 1]);
    }
    assert(s.take(url_a.len() as int) =~= url_a);
    assert(t.take(url_b.len() as int) =~= url_b);
    assert(s.skip((url_a.len() + 1) as int) =~= hex_a);
    assert(t.skip((url_b.len() + 1) as int) =~= hex_b);
}

proof fn lemma_head_field(head: Seq<char>, tail: Seq<char>)
    requires
        !head.contains('|'),
    ensures
        before_first(head + "|"@ + tail, '|') == head,
{
    reveal_strlit("|");
    let s = head + "|"@ + tail;
    assert(s[head.len() as int] == '|');
    assert forall|i: int| 0 <= i < head.len() implies s[i] != '|' by {
        assert(head.contains(head[i]));
    }
    lemma_first_index(s, '|');
    let f = first_index(s, '|');
    if f < head.len() {
        assert(s[f] != '|');
    }
    assert(s.take(head.len() as int) =~= head);
}

// ---------------------------------------------------------------------------
// Fingerprints
// ---------------------------------------------------------------------------

/// What is fed to the hasher for a text: its bytes and a mark for their end.
pub open spec fn text_writes(s: Seq<char>) -> Seq<Seq<u8>> {
    seq![encode_utf8(s), seq![0xffu8]]
}

/// What is fed to the hasher for an optional text: zero or one in eight bytes, the
/// least significant first, and then the text.
pub open spec fn optional_writes(o: Option<String>) -> Seq<Seq<u8>> {
    match o {
        Some(s) => seq![seq![1u8, 0, 0, 0, 0, 0, 0, 0]] + text_writes(s@),
        None => seq![seq![0u8, 0, 0, 0, 0, 0, 0, 0]],
    }
}

/// What is fed to the hasher for one part: all of its content, nothing of its
/// framing.
pub open spec fn part_writes(p: MultipartPart) -> Seq<Seq<u8>> {
    text_writes(p.name@) + optional_writes(p.value) + optional_writes(p.file_base64)
        + optional_writes(p.filename) + optional_writes(p.content_type)
}

/// What is fed to the hasher for the first `k` parts.
pub open spec fn parts_writes(parts: Seq<MultipartPart>, k: nat) -> Seq<Seq<u8>>
    decreases k,
{
    if k == 0 {
        Seq::empty()
    } else {
        parts_writes(parts, (k - 1) as nat) + part_writes(parts[k - 1])
    }
}

/// What is fed to the hasher for a request body.
pub open spec fn body_writes(p: HttpRequestParams) -> Seq<Seq<u8>> {
    match p.multipart {
        Some(parts) => text_writes("multipart"@) + parts_writes(parts@, parts@.len()),
        None => optional_writes(p.body) + optional_writes(p.body_base64),
    }
}

fn hash_text(h: &mut DefaultHasher, s: &str)
    ensures
        final(h)@ == old(h)@ + text_writes(s@),
{
    let ghost before = h@;
    let end: [u8; 1] = [0xffu8];
    h.write(s.as_bytes());
    h.write(end.as_slice());
    assert(end@ =~= seq![0xffu8]);
    assert(h@ =~= before + text_writes(s@));
}

fn hash_optional(h: &mut DefaultHasher, o: &Option<String>)
    ensures
        final(h)@ == old(h)@ + optional_writes(*o),
{
    let ghost before = h@;
    match o {
        Some(s) => {
            let present: [u8; 8] = [1u8, 0, 0, 0, 0, 0, 0, 0];
            h.write(present.as_slice());
            assert(present@ =~= seq![1u8, 0, 0, 0, 0, 0, 0, 0]);
            hash_text(h, s.as_str());
        },
        None => {
            let absent: [u8; 8] = [0u8, 0, 0, 0, 0, 0, 0, 0];
            h.write(absent.as_slice());
            assert(absent@ =~= seq![0u8, 0, 0, 0, 0, 0, 0, 0]);
        },
    }
    assert(h@ =~= before + optional_writes(*o));
}

/// Fingerprint of a request body for the cache key. Multipart requests hash
/// the content of their parts, not the wire bytes, so that identical uploads
/// share a key whatever their boundary.
pub fn request_body_hash(params: &HttpRequestParams) -> (r: u64)
    ensures
        r == DefaultHasher::spec_finish(body_writes(*params)),
{
    let mut h = DefaultHasher::new();
    match &params.multipart {
        Some(parts) => {
            hash_text(&mut h, "multipart");
            let mut i: usize = 0;
            while i < parts.len()
                invariant
                    i <= parts.len(),
                    h@ == text_writes("multipart"@) + parts_writes(parts@, i as nat),
                decreases parts.len() - i,
            {
                hash_text(&mut h, parts[i].name.as_str());
                hash_optional(&mut h, &parts[i].value);
                hash_optional(&mut h, &parts[i].file_base64);
                hash_optional(&mut h, &parts[i].filename);
                hash_optional(&mut h, &parts[i].content_type);
                i += 1;
            }
        },
        None => {
            hash_optional(&mut h, &params.body);
            hash_optional(&mut h, &params.body_base64);
        },
    }
    h.finish()
}

/// Requests of equal bodies have equal fingerprints, whatever else differs.
pub proof fn lemma_body_hash_of_content(a: HttpRequestParams, b: HttpRequestParams)
    requires
        a.multipart == b.multipart,
        a.multipart is None ==> a.body == b.body && a.body_base64 == b.body_base64,
    ensures
        body_writes(a) == body_writes(b),
{
}

proof fn lemma_text_writes(a: Seq<char>, x: Seq<Seq<u8>>, b: Seq<char>, y: Seq<Seq<u8>>)
    requires
        text_writes(a) + x == text_writes(b) + y,
    ensures
        a == b,
        x == y,
{
    let s = text_writes(a) + x;
    let t = text_writes(b) + y;
    assert(s[0] == encode_utf8(a));
    assert(t[0] == encode_utf8(b));
    encode_utf8_decode_utf8(a);
    encode_utf8_decode_utf8(b);
    assert(s.skip(2) =~= x);
    assert(t.skip(2) =~= y);
}

proof fn lemma_optional_writes(
    a: Option<String>,
    x: Seq<Seq<u8>>,
    b: Option<String>,
    y: Seq<Seq<u8>>,
)
    requires
        optional_writes(a) + x == optional_writes(b) + y,
    ensures
        opt_text(a) == opt_text(b),
        x == y,
{
    let s = optional_writes(a) + x;
    let t = optional_writes(b) + y;
    assert(s[0][0] == t[0][0]);
    if a is Some {
        assert(s[0][0] == 1u8);
    } else {
        assert(s[0][0] == 0u8);
    }
    if b is Some {
        assert(t[0][0] == 1u8);
    } else {
        assert(t[0][0] == 0u8);
    }
    assert(s.skip(1) == t.skip(1));
    if a is Some {
        assert(s.skip(1) =~= text_writes(a->0@) + x);
        assert(t.skip(1) =~= text_writes(b->0@) + y);
        lemma_text_writes(a->0@, x, b->0@, y);
    } else {
        assert(s.skip(1) =~= x);
        assert(t.skip(1) =~= y);
    }
}

/// All that a body says goes into its fingerprint: bodies that differ are told
/// apart before they are hashed.
pub proof fn lemma_all_of_a_body_is_hashed(a: HttpRequestParams, b: HttpRequestParams)
    requires
        a.multipart is None && b.multipart is None,
        body_writes(a) == body_writes(b),
    ensures
        opt_text(a.body) == opt_text(b.body),
        opt_text(a.body_base64) == opt_text(b.body_base64),
{
    let none = Seq::<Seq<u8>>::empty();
    lemma_optional_writes(
        a.body,
        optional_writes(a.body_base64),
        b.body,
        optional_writes(b.body_base64),
    );
    assert(optional_writes(a.body_base64) + none =~= optional_writes(a.body_base64));
    assert(optional_writes(b.body_base64) + none =~= optional_writes(b.body_base64));
    lemma_optional_writes(a.body_base64, none, b.body_base64, none);
}

proof fn lemma_in_a_row(
    a: Seq<Seq<u8>>,
    b: Seq<Seq<u8>>,
    c: Seq<Seq<u8>>,
    d: Seq<Seq<u8>>,
    e: Seq<Seq<u8>>,
)
    ensures
        a + b + c + d + e == a + (b + (c + (d + (e + Seq::<Seq<u8>>::empty())))),
{
    assert(a + b + c + d + e =~= a + (b + (c + (d + (e + Seq::<Seq<u8>>::empty())))));
}

/// All that a part says goes into the fingerprint: parts that differ in their name,
/// their text, their file, its name or its type are told apart before they are
/// hashed.
pub proof fn lemma_all_of_a_part_is_hashed(p: MultipartPart, q: MultipartPart)
    requires
        part_writes(p) == part_writes(q),
    ensures
        p.name@ == q.name@,
        opt_text(p.value) == opt_text(q.value),
        opt_text(p.file_base64) == opt_text(q.file_base64),
        opt_text(p.filename) == opt_text(q.filename),
        opt_text(p.content_type) == opt_text(q.content_type),
{
    let none = Seq::<Seq<u8>>::empty();
    lemma_in_a_row(
        text_writes(p.name@),
        optional_writes(p.value),
        optional_writes(p.file_base64),
        optional_writes(p.filename),
        optional_writes(p.content_type),
    );
    lemma_in_a_row(
        text_writes(q.name@),
        optional_writes(q.value),
        optional_writes(q.file_base64),
        optional_writes(q.filename),
        optional_writes(q.content_type),
    );
    let p3 = optional_writes(p.filename) + (optional_writes(p.content_type) + none);
    let q3 = optional_writes(q.filename) + (optional_writes(q.content_type) + none);
    let p2 = optional_writes(p.file_base64) + p3;
    let q2 = optional_writes(q.file_base64) + q3;
    lemma_text_writes(
        p.name@,
        optional_writes(p.value) + p2,
        q.name@,
        optional_writes(q.value) + q2,
    );
    lemma_optional_writes(p.value, p2, q.value, q2);
    lemma_optional_writes(p.file_base64, p3, q.file_base64, q3);
    lemma_optional_writes(
        p.filename,
        optional_writes(p.content_type) + none,
        q.filename,
        optional_writes(q.content_type) + none,
    );
    lemma_optional_writes(p.content_type, none, q.content_type, none);
}

/// A part more gives other content to hash, behind that of the parts before it.
pub proof fn lemma_every_part_is_hashed(parts: Seq<MultipartPart>, k: nat, i: int)
    requires
        0 <= i < k,
    ensures
        exists|rest: Seq<Seq<u8>>|
            parts_writes(parts, k) == parts_writes(parts, i as nat) + part_writes(parts[i])
                + #[trigger] rest.take(rest.len() as int),
    decreases k,
{
    if i == k - 1 {
        let none = Seq::<Seq<u8>>::empty();
        assert(parts_writes(parts, k) =~= parts_writes(parts, i as nat) + part_writes(parts[i])
            + none.take(none.len() as int));
    } else {
        lemma_every_part_is_hashed(parts, (k - 1) as nat, i);
        let rest = choose|rest: Seq<Seq<u8>>|
            parts_writes(parts, (k - 1) as nat) == parts_writes(parts, i as nat) + part_writes(
                parts[i],
            ) + #[trigger] rest.take(rest.len() as int);
        let more = rest + part_writes(parts[k - 1]);
        assert(rest.take(rest.len() as int) =~= rest);
        assert(parts_writes(parts, k) =~= parts_writes(parts, i as nat) + part_writes(parts[i])
            + more.take(more.len() as int));
    }
}

// ---------------------------------------------------------------------------
// Cacheability
// ---------------------------------------------------------------------------

/// Whether a header forbids storing the response.
pub open spec fn forbids_store(name: Seq<char>, value: Seq<char>) -> bool {
    lower_ascii(name) == "cache-control"@ && has_infix(lower_ascii(value), "no-store"@)
}

/// Whether a response may be cached: a 2xx of which no `Cache-Control` header
/// says `no-store`.
pub open spec fn cacheable(status: u16, headers: Map<Seq<char>, String>) -> bool {
    &&& 200 <= status < 300
    &&& forall|k: Seq<char>| headers.dom().contains(k) ==> !forbids_store(k, (
        #[trigger] headers[k])@)
}

/// A response is cached exactly where it is a success, and no header called
/// `Cache-Control`, in whatever case, holds `no-store`, in whatever case.
pub proof fn lemma_what_is_cached(status: u16, headers: Map<Seq<char>, String>)
    ensures
        cacheable(status, headers) ==> 200 <= status <= 299,
        cacheable(status, headers) ==> forall|k: Seq<char>|
            headers.dom().contains(k) && #[trigger] lower_ascii(k) == "cache-control"@
                ==> !has_infix(lower_ascii(headers[k]@), "no-store"@),
        200 <= status <= 299 && (forall|k: Seq<char>|
            headers.dom().contains(k) ==> #[trigger] lower_ascii(k) != "cache-control"@ || !has_infix(
                lower_ascii(headers[k]@),
                "no-store"@,
            )) ==> cacheable(status, headers),
{
    if cacheable(status, headers) {
        assert forall|k: Seq<char>|
            headers.dom().contains(k) && #[trigger] lower_ascii(k)
                == "cache-control"@ implies !has_infix(lower_ascii(headers[k]@), "no-store"@) by {
            assert(!forbids_store(k, headers[k]@));
        }
    }
}

/// Decides [`cacheable`].
pub fn is_cacheable(status: u16, headers: &StrMap<String>) -> (r: bool)
    ensures
        r == cacheable(status, headers@),
{
    if !(200 <= status && status < 300) {
        return false;
    }
    let n: usize = headers.len();
    headers.keys_are_distinct();
    let mut i: usize = 0;
    while i < n
        invariant
            i <= n == headers.order().len(),
            200 <= status < 300,
            forall|j: int|
                0 <= j < i ==> !forbids_store(
                    #[trigger] headers.order()[j],
                    headers@[headers.order()[j]]@,
                ),
        decreases n - i,
    {
        let (k, v) = headers.entry_at(i);
        if same(to_ascii_lower(k.as_str()).as_str(), "cache-control") && contains(
            to_ascii_lower(v.as_str()).as_str(),
            "no-store",
        ) {
            return false;
        }
        i += 1;
    }
    assert forall|k: Seq<char>| headers@.dom().contains(k) implies !forbids_store(k, (
    #[trigger] headers@[k])@) by {
        let j = headers.order().index_of(k);
    }
    true
}

} // verus!
