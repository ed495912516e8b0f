//! The `filesystem` plugin: which paths it may touch. A path is the list of its
//! components below the root directory, each the bytes of a name.

use crate::fields::{comma_items, list_items, trim, trimmed};
use crate::settings::{positive_setting, read_positive};
use crate::sorting::{sort_order, sorts_before, stable_order, Ranked};
use crate::text::{copy_bytes, join3, lesser, push_bytes, texts};
use crate::trusted::{lossy_text, utf8_lossy};
use vstd::prelude::*;
use vstd::utf8::{decode_utf8, encode_utf8, valid_utf8};

verus! {

/// The setting that lists the allowed roots, separated by commas. Without it
/// every path is refused.
pub const ALLOWED_ROOTS_ENV: &'static str = "FILES_PLUGIN_ALLOWED_ROOTS";

pub const MAX_LIST_ENTRIES_ENV: &'static str = "FILES_PLUGIN_MAX_LIST_ENTRIES";

pub const MAX_READ_BYTES_ENV: &'static str = "FILES_PLUGIN_MAX_READ_BYTES";

pub const DEFAULT_MAX_LIST_ENTRIES: usize = 1000;

pub const DEFAULT_MAX_READ_BYTES: u64 = 1_048_576;

/// Largest number of bytes read at once, whoever asks for more.
pub const MAX_READ_BYTES_HARD_CAP: u64 = 8_388_608;

/// The operator's policy.
#[derive(Debug, Clone, Copy, PartialEq, Eq, Structural)]
pub struct Config {
    pub max_list_entries: usize,
    pub max_read_bytes: u64,
}

impl Config {
    /// The policy from the values of the `FILES_PLUGIN_*` settings.
    pub fn from_env(max_list_entries: &Option<String>, max_read_bytes: &Option<String>) -> (r:
        Config)
        ensures
            r.max_list_entries == positive_setting(
                *max_list_entries,
                usize::MAX as nat,
                DEFAULT_MAX_LIST_ENTRIES as nat,
            ),
            r.max_read_bytes == lesser(
                positive_setting(*max_read_bytes, u64::MAX as nat, DEFAULT_MAX_READ_BYTES as nat),
                MAX_READ_BYTES_HARD_CAP as nat,
            ),
            max_list_entries is None ==> r.max_list_entries == 1000,
            max_read_bytes is None ==> r.max_read_bytes == 1_048_576,
            r.max_read_bytes <= 8_388_608,
    {
        let entries: u64 = read_positive(
            max_list_entries,
            usize::MAX as u64,
            DEFAULT_MAX_LIST_ENTRIES as u64,
        );
        Config {
            max_list_entries: entries as usize,
            max_read_bytes: clamp_max_read(
                read_positive(max_read_bytes, u64::MAX, DEFAULT_MAX_READ_BYTES),
            ),
        }
    }
}

/// Cuts a number of bytes down to the hard cap.
pub fn clamp_max_read(n: u64) -> (r: u64)
    ensures
        r == lesser(n as nat, MAX_READ_BYTES_HARD_CAP as nat),
        n <= 8_388_608 ==> r == n,
        n > 8_388_608 ==> r == 8_388_608,
{
    if n <= MAX_READ_BYTES_HARD_CAP {
        n
    } else {
        MAX_READ_BYTES_HARD_CAP
    }
}

// ---------------------------------------------------------------------------
// Paths
// ---------------------------------------------------------------------------

/// `/`, which stands between the components of a path.
pub const SLASH: u8 = 0x2f;

/// `.`, the byte.
pub const DOT: u8 = 0x2e;

/// Names by their bytes.
pub open spec fn names(v: Seq<Vec<u8>>) -> Seq<Seq<u8>> {
    Seq::new(v.len(), |i: int| v[i]@)
}

/// Whether two names are the same.
fn same_name(a: &Vec<u8>, b: &Vec<u8>) -> (r: bool)
    ensures
        r == (a@ == b@),
{
    if a.len() != b.len() {
        return false;
    }
    let mut i: usize = 0;
    while i < a.len()
        invariant
            i <= a.len() == b.len(),
            forall|j: int| 0 <= j < i ==> a@[j] == #[trigger] b@[j],
        decreases a.len() - i,
    {
        if a[i] != b[i] {
            return false;
        }
        i += 1;
    }
    assert(a@ =~= b@);
    true
}

fn copy_names(v: &Vec<Vec<u8>>) -> (r: Vec<Vec<u8>>)
    ensures
        names(r@) == names(v@),
{
    let mut out: Vec<Vec<u8>> = Vec::new();
    let mut i: usize = 0;
    while i < v.len()
        invariant
            i <= v.len(),
            out@.len() == i,
            forall|j: int| 0 <= j < i ==> (#[trigger] out@[j])@ == v@[j]@,
        decreases v.len() - i,
    {
        out.push(copy_bytes(&v[i]));
        i += 1;
    }
    assert(names(out@) =~= names(v@));
    out
}

/// The name of the parent directory, `..`.
pub open spec fn parent_name() -> Seq<u8> {
    seq![DOT, DOT]
}

/// Whether a name is `..`.
fn is_parent(name: &Vec<u8>) -> (r: bool)
    ensures
        r == (name@ == parent_name()),
{
    let r = name.len() == 2 && name[0] == DOT && name[1] == DOT;
    proof {
        if r {
            assert(name@ =~= parent_name());
        }
    }
    r
}

/// Whether a path starts at the root directory.
pub open spec fn is_absolute(path: Seq<u8>) -> bool {
    path.len() > 0 && path[0] == SLASH
}

fn absolute(path: &[u8]) -> (r: bool)
    ensures
        r == is_absolute(path@),
{
    path.len() > 0 && path[0] == SLASH
}

/// The fields between slashes, empty ones too.
pub open spec fn slash_fields(path: Seq<u8>) -> Seq<Seq<u8>>
    decreases path.len(),
{
    if path.len() == 0 {
        seq![Seq::<u8>::empty()]
    } else {
        let before = slash_fields(path.drop_last());
        if path.last() == SLASH {
            before.push(Seq::<u8>::empty())
        } else {
            before.drop_last().push(before.last().push(path.last()))
        }
    }
}

/// Whether a field between slashes is a component: empty ones and `.` are not.
pub open spec fn is_component(field: Seq<u8>) -> bool {
    field.len() > 0 && field != seq![DOT]
}

/// The components among the fields between slashes.
pub open spec fn kept_fields(fields: Seq<Seq<u8>>) -> Seq<Seq<u8>>
    decreases fields.len(),
{
    if fields.len() == 0 {
        Seq::empty()
    } else if is_component(fields.last()) {
        kept_fields(fields.drop_last()).push(fields.last())
    } else {
        kept_fields(fields.drop_last())
    }
}

/// The components of an absolute path.
pub open spec fn components_of(path: Seq<u8>) -> Seq<Seq<u8>> {
    kept_fields(slash_fields(path))
}

/// Adds a field between slashes where it is a component.
fn push_field(out: &mut Vec<Vec<u8>>, field: Vec<u8>)
    ensures
        names(final(out)@) == if is_component(field@) {
            names(old(out)@).push(field@)
        } else {
            names(old(out)@)
        },
{
    let ghost before = names(out@);
    let is_dot = field.len() == 1 && field[0] == DOT;
    proof {
        if is_dot {
            assert(field@ =~= seq![DOT]);
        }
    }
    if field.len() > 0 && !is_dot {
        out.push(field);
        assert(names(out@) =~= before.push(field@));
    }
}

/// The components of an absolute path.
pub fn components(path: &[u8]) -> (r: Vec<Vec<u8>>)
    ensures
        names(r@) == components_of(path@),
{
    let mut out: Vec<Vec<u8>> = Vec::new();
    let mut field: Vec<u8> = Vec::new();
    let mut i: usize = 0;
    assert(path@.take(0) =~= Seq::empty());
    assert(names(out@) =~= kept_fields(slash_fields(path@.take(0)).drop_last()));
    assert(slash_fields(path@.take(0)).last() =~= field@);
    while i < path.len()
        invariant
            i <= path.len(),
            slash_fields(path@.take(i as int)).len() > 0,
            names(out@) == kept_fields(slash_fields(path@.take(i as int)).drop_last()),
            field@ == slash_fields(path@.take(i as int)).last(),
        decreases path.len() - i,
    {
        let ghost before = slash_fields(path@.take(i as int));
        let ghost after = slash_fields(path@.take(i + 1));
        assert(path@.take(i + 1).drop_last() =~= path@.take(i as int));
        let b: u8 = path[i];
        if b == SLASH {
            assert(after.drop_last() =~= before);
            push_field(&mut out, field);
            field = Vec::new();
            assert(field@ =~= Seq::empty());
        } else {
            assert(after.drop_last() =~= before.drop_last());
            field.push(b);
        }
        i += 1;
    }
    assert(path@.take(path@.len() as int) =~= path@);
    push_field(&mut out, field);
    out
}

/// The bytes of a path: a slash before every component, or one where there is
/// none.
pub open spec fn path_of(parts: Seq<Seq<u8>>) -> Seq<u8>
    decreases parts.len(),
{
    if parts.len() == 0 {
        seq![SLASH]
    } else if parts.len() == 1 {
        seq![SLASH] + parts[0]
    } else {
        path_of(parts.drop_last()).push(SLASH) + parts.last()
    }
}

/// The bytes of a path.
pub fn path_bytes(parts: &Vec<Vec<u8>>) -> (r: Vec<u8>)
    ensures
        r@ == path_of(names(parts@)),
{
    let ghost all = names(parts@);
    let mut out: Vec<u8> = Vec::new();
    out.push(SLASH);
    assert(out@ =~= path_of(all.take(0)));
    let mut i: usize = 0;
    while i < parts.len()
        invariant
            i <= parts.len(),
            all == names(parts@),
            out@ == path_of(all.take(i as int)),
        decreases parts.len() - i,
    {
        let ghost before = out@;
        assert(all.take(i + 1).drop_last() =~= all.take(i as int));
        if i > 0 {
            out.push(SLASH);
        }
        push_bytes(&mut out, parts[i].as_slice());
        assert(out@ =~= path_of(all.take(i + 1)));
        i += 1;
    }
    assert(all.take(all.len() as int) =~= all);
    out
}

/// Whether `path` is `root` or lies below it.
pub open spec fn is_inside(path: Seq<Seq<u8>>, root: Seq<Seq<u8>>) -> bool {
    root.len() <= path.len() && path.take(root.len() as int) == root
}

/// Whether `path` is `root` or lies below it.
fn inside(path: &Vec<Vec<u8>>, root: &Vec<Vec<u8>>) -> (r: bool)
    ensures
        r == is_inside(names(path@), names(root@)),
{
    if root.len() > path.len() {
        return false;
    }
    let ghost p = names(path@);
    let ghost t = names(root@);
    let mut i: usize = 0;
    while i < root.len()
        invariant
            i <= root.len() <= path.len(),
            p == names(path@),
            t == names(root@),
            forall|j: int| 0 <= j < i ==> p[j] == #[trigger] t[j],
        decreases root.len() - i,
    {
        if !same_name(&path[i], &root[i]) {
            assert(p.take(t.len() as int)[i as int] != t[i as int]);
            return false;
        }
        i += 1;
    }
    assert(p.take(t.len() as int) =~= t);
    true
}

/// Order of names by their bytes.
pub open spec fn name_le(a: Seq<u8>, b: Seq<u8>) -> bool
    decreases a.len(),
{
    if a.len() == 0 {
        true
    } else if b.len() == 0 {
        false
    } else if a[0] != b[0] {
        a[0] < b[0]
    } else {
        name_le(a.drop_first(), b.drop_first())
    }
}

proof fn lemma_name_total(a: Seq<u8>, b: Seq<u8>)
    ensures
        name_le(a, b) || name_le(b, a),
    decreases a.len(),
{
    if a.len() > 0 && b.len() > 0 && a[0] == b[0] {
        lemma_name_total(a.drop_first(), b.drop_first());
    }
}

proof fn lemma_name_transitive(a: Seq<u8>, b: Seq<u8>, c: Seq<u8>)
    requires
        name_le(a, b),
        name_le(b, c),
    ensures
        name_le(a, c),
    decreases a.len(),
{
    if a.len() > 0 && b.len() > 0 && c.len() > 0 && a[0] == b[0] && b[0] == c[0] {
        lemma_name_transitive(a.drop_first(), b.drop_first(), c.drop_first());
    }
}

proof fn lemma_name_antisymmetric(a: Seq<u8>, b: Seq<u8>)
    requires
        name_le(a, b),
        name_le(b, a),
    ensures
        a == b,
    decreases a.len(),
{
    if a.len() > 0 && b.len() > 0 {
        lemma_name_antisymmetric(a.drop_first(), b.drop_first());
        assert(a =~= seq![a[0]] + a.drop_first());
        assert(b =~= seq![b[0]] + b.drop_first());
    } else {
        assert(a =~= b);
    }
}

fn name_not_after(a: &Vec<u8>, b: &Vec<u8>) -> (r: bool)
    ensures
        r == name_le(a@, b@),
{
    let mut i: usize = 0;
    assert(a@.skip(0) =~= a@);
    assert(b@.skip(0) =~= b@);
    while i < a.len() && i < b.len() && a[i] == b[i]
        invariant
            i <= a.len(),
            i <= b.len(),
            name_le(a@, b@) == name_le(a@.skip(i as int), b@.skip(i as int)),
        decreases a.len() - i,
    {
        assert(a@.skip(i as int).drop_first() =~= a@.skip(i + 1));
        assert(b@.skip(i as int).drop_first() =~= b@.skip(i + 1));
        i += 1;
    }
    if i == a.len() {
        return true;
    }
    if i == b.len() {
        return false;
    }
    a[i] < b[i]
}

/// Whether one path comes before another: component by component.
pub open spec fn path_le(a: Seq<Seq<u8>>, b: Seq<Seq<u8>>) -> bool
    decreases a.len(),
{
    if a.len() == 0 {
        true
    } else if b.len() == 0 {
        false
    } else if a[0] == b[0] {
        path_le(a.skip(1), b.skip(1))
    } else {
        name_le(a[0], b[0])
    }
}

proof fn lemma_path_total(a: Seq<Seq<u8>>, b: Seq<Seq<u8>>)
    ensures
        path_le(a, b) || path_le(b, a),
    decreases a.len(),
{
    if a.len() > 0 && b.len() > 0 {
        if a[0] == b[0] {
            lemma_path_total(a.skip(1), b.skip(1));
        } else {
            lemma_name_total(a[0], b[0]);
        }
    }
}

proof fn lemma_path_transitive(a: Seq<Seq<u8>>, b: Seq<Seq<u8>>, c: Seq<Seq<u8>>)
    requires
        path_le(a, b),
        path_le(b, c),
    ensures
        path_le(a, c),
    decreases a.len(),
{
    if a.len() > 0 {
        assert(b.len() > 0 && c.len() > 0);
        if a[0] == b[0] && b[0] == c[0] {
            lemma_path_transitive(a.skip(1), b.skip(1), c.skip(1));
        } else if a[0] == c[0] {
            lemma_name_antisymmetric(a[0], b[0]);
        } else if a[0] != b[0] && b[0] != c[0] {
            lemma_name_transitive(a[0], b[0], c[0]);
        }
    }
}

/// A root directory, as the components of its path.
#[derive(Debug, PartialEq, Eq)]
pub struct Root {
    pub parts: Vec<Vec<u8>>,
}

fn path_not_after(a: &Vec<Vec<u8>>, b: &Vec<Vec<u8>>) -> (r: bool)
    ensures
        r == path_le(names(a@), names(b@)),
{
    let ghost p = names(a@);
    let ghost q = names(b@);
    let mut i: usize = 0;
    assert(p.skip(0) =~= p);
    assert(q.skip(0) =~= q);
    while i < a.len() && i < b.len()
        invariant
            i <= a.len(),
            i <= b.len(),
            p == names(a@),
            q == names(b@),
            path_le(p, q) == path_le(p.skip(i as int), q.skip(i as int)),
        decreases a.len() - i,
    {
        assert(p.skip(i as int)[0] == a@[i as int]@);
        assert(q.skip(i as int)[0] == b@[i as int]@);
        if !same_name(&a[i], &b[i]) {
            return name_not_after(&a[i], &b[i]);
        }
        assert(p.skip(i as int).skip(1) =~= p.skip(i + 1));
        assert(q.skip(i as int).skip(1) =~= q.skip(i + 1));
        i += 1;
    }
    i == a.len()
}

impl Ranked for Root {
    open spec fn before_or_level(&self, other: &Self) -> bool {
        path_le(names(self.parts@), names(other.parts@))
    }

    fn not_after(&self, other: &Self) -> (r: bool) {
        path_not_after(&self.parts, &other.parts)
    }

    proof fn rank_total(a: &Self, b: &Self) {
        lemma_path_total(names(a.parts@), names(b.parts@));
    }

    proof fn rank_transitive(a: &Self, b: &Self, c: &Self) {
        lemma_path_transitive(names(a.parts@), names(b.parts@), names(c.parts@));
    }
}

// ---------------------------------------------------------------------------
// The sandbox
// ---------------------------------------------------------------------------

/// The allowed roots. Without one, every path is refused.
#[derive(Debug, PartialEq, Eq)]
pub struct Sandbox {
    pub roots: Vec<Root>,
}

/// An allowed path.
#[derive(Debug, PartialEq, Eq)]
pub struct ResolvedPath {
    /// The components, those that exist free of symbolic links.
    pub path: Vec<Vec<u8>>,
    /// Whether the path is one of the allowed roots.
    pub is_root: bool,
}

/// A root as it was configured, and where it leads free of symbolic links;
/// nothing where it does not exist.
#[derive(Debug, PartialEq, Eq)]
pub struct RawRoot {
    pub entry: String,
    pub canonical: Option<Vec<Vec<u8>>>,
}

/// The paths of roots.
pub open spec fn root_paths(roots: Seq<Root>) -> Seq<Seq<Seq<u8>>> {
    Seq::new(roots.len(), |i: int| names(roots[i].parts@))
}

/// Whether a configured root counts: it is absolute and exists.
pub open spec fn counts(raw: RawRoot) -> bool {
    is_absolute(encode_utf8(trimmed(raw.entry@))) && raw.canonical is Some
}

/// Whether `path` is where a configured root that counts leads.
pub open spec fn is_configured(raw: Seq<RawRoot>, path: Seq<Seq<u8>>) -> bool {
    exists|i: int|
        0 <= i < raw.len() && counts(#[trigger] raw[i]) && names(raw[i].canonical->0@) == path
}

/// The entries of the operator's list.
pub fn env_roots(value: &str) -> (r: Vec<String>)
    ensures
        texts(r@) == list_items(value@),
{
    comma_items(value)
}

impl Sandbox {
    /// The roots that are allowed, each once and in order. Entries that are not
    /// absolute or do not exist are passed over.
    pub fn from_raw_roots(raw: &Vec<RawRoot>) -> (r: Sandbox)
        ensures
            root_paths(r.roots@).no_duplicates(),
            forall|path: Seq<Seq<u8>>| #[trigger]
                root_paths(r.roots@).contains(path) <==> is_configured(raw@, path),
            forall|i: int, j: int|
                0 <= i < j < r.roots@.len() ==> path_le(
                    names((#[trigger] r.roots@[i]).parts@),
                    names((#[trigger] r.roots@[j]).parts@),
                ),
    {
        let mut found: Vec<Root> = Vec::new();
        let mut i: usize = 0;
        while i < raw.len()
            invariant
                i <= raw.len(),
                root_paths(found@).no_duplicates(),
                forall|path: Seq<Seq<u8>>| #[trigger]
                    root_paths(found@).contains(path) <==> is_configured(
                        raw@.take(i as int),
                        path,
                    ),
            decreases raw.len() - i,
        {
            let ghost before = root_paths(found@);
            let entry = trim(raw[i].entry.as_str());
            let mut added = false;
            if absolute(entry.as_str().as_bytes()) {
                if let Some(parts) = &raw[i].canonical {
                    assert(counts(raw@[i as int]));
                    if !has_root(&found, parts) {
                        found.push(Root { parts: copy_names(parts) });
                        assert(root_paths(found@) =~= before.push(names(parts@)));
                    }
                    added = true;
                }
            }
            proof {
                assert(added == counts(raw@[i as int]));
                lemma_configured_step(raw@, i as int);
                assert forall|path: Seq<Seq<u8>>| #[trigger]
                    root_paths(found@).contains(path) <==> is_configured(raw@.take(i + 1), path) by {
                    assert(before.contains(path) <==> is_configured(raw@.take(i as int), path));
                    if added {
                        let p = names(raw@[i as int].canonical->0@);
                        if root_paths(found@).len() > before.len() {
                            lemma_push_path(before, p, path);
                        } else {
                            assert(before.contains(p));
                        }
                    }
                }
            }
            i += 1;
        }
        assert(raw@.take(raw@.len() as int) =~= raw@);
        let p = sort_order(&found);
        let mut roots: Vec<Root> = Vec::new();
        let mut i: usize = 0;
        while i < p.len()
            invariant
                i <= p@.len() == found@.len(),
                forall|j: int| 0 <= j < p@.len() ==> (#[trigger] p@[j]) < found@.len(),
                roots@.len() == i,
                forall|j: int|
                    0 <= j < i ==> names((#[trigger] roots@[j]).parts@) == names(
                        found@[p@[j] as int].parts@,
                    ),
            decreases p.len() - i,
        {
            roots.push(Root { parts: copy_names(&found[p[i]].parts) });
            i += 1;
        }
        proof {
            lemma_sorted_roots(found@, p@, roots@);
        }
        Sandbox { roots }
    }

    /// The allowed roots.
    pub fn roots(&self) -> (r: &Vec<Root>)
        ensures
            *r == self.roots,
    {
        &self.roots
    }
}

proof fn lemma_push_path(s: Seq<Seq<Seq<u8>>>, a: Seq<Seq<u8>>, x: Seq<Seq<u8>>)
    ensures
        s.push(a).contains(x) <==> s.contains(x) || x == a,
{
    let t = s.push(a);
    if t.contains(x) {
        let i = t.index_of(x);
        assert(t[i] == x);
        if i < s.len() {
            assert(s[i] == x);
        }
    }
    if s.contains(x) {
        assert(t[s.index_of(x)] == x);
    }
    assert(t[s.len() as int] == a);
}

proof fn lemma_configured_step(raw: Seq<RawRoot>, i: int)
    requires
        0 <= i < raw.len(),
    ensures
        forall|path: Seq<Seq<u8>>| #[trigger]
            is_configured(raw.take(i + 1), path) <==> is_configured(raw.take(i), path) || (counts(
                raw[i],
            ) && names(raw[i].canonical->0@) == path),
{
    let a = raw.take(i);
    let b = raw.take(i + 1);
    assert forall|path: Seq<Seq<u8>>| #[trigger] is_configured(b, path) <==> is_configured(a, path)
        || (counts(raw[i]) && names(raw[i].canonical->0@) == path) by {
        if is_configured(b, path) {
            let k = choose|k: int|
                0 <= k < b.len() && counts(#[trigger] b[k]) && names(b[k].canonical->0@) == path;
            if k < i {
                assert(a[k] == b[k]);
            }
        }
        if is_configured(a, path) {
            let k = choose|k: int|
                0 <= k < a.len() && counts(#[trigger] a[k]) && names(a[k].canonical->0@) == path;
            assert(b[k] == a[k]);
        }
        assert(b[i] == raw[i]);
    }
}

proof fn lemma_sorted_roots(found: Seq<Root>, p: Seq<usize>, roots: Seq<Root>)
    requires
        stable_order(found, p),
        root_paths(found).no_duplicates(),
        roots.len() == p.len(),
        forall|j: int|
            0 <= j < p.len() ==> names((#[trigger] roots[j]).parts@) == names(
                found[p[j] as int].parts@,
            ),
        found.len() <= usize::MAX,
    ensures
        root_paths(roots).no_duplicates(),
        forall|path: Seq<Seq<u8>>| #[trigger]
            root_paths(roots).contains(path) <==> root_paths(found).contains(path),
        forall|i: int, j: int|
            0 <= i < j < roots.len() ==> path_le(
                names((#[trigger] roots[i]).parts@),
                names((#[trigger] roots[j]).parts@),
            ),
{
    let a = root_paths(found);
    let b = root_paths(roots);
    assert forall|i: int, j: int| 0 <= i < j < roots.len() implies path_le(
        names((#[trigger] roots[i]).parts@),
        names((#[trigger] roots[j]).parts@),
    ) && b[i] != b[j] by {
        assert(sorts_before(found, p[i] as int, p[j] as int));
        if p[i] == p[j] {
            Ranked::rank_total(&found[p[i] as int], &found[p[i] as int]);
        }
        assert(a[p[i] as int] != a[p[j] as int]);
    }
    assert forall|i: int, j: int| 0 <= i < b.len() && 0 <= j < b.len() && i != j implies b[i]
        != b[j] by {
        if i < j {
            assert(names(roots[i].parts@) == b[i] && names(roots[j].parts@) == b[j]);
        } else {
            assert(names(roots[j].parts@) == b[j] && names(roots[i].parts@) == b[i]);
        }
    }
    assert forall|path: Seq<Seq<u8>>| #[trigger] b.contains(path) <==> a.contains(path) by {
        if b.contains(path) {
            let k = b.index_of(path);
            assert(b[k] == path);
            assert(names(roots[k].parts@) == path);
            assert(a[p[k] as int] == path);
        }
        if a.contains(path) {
            let j = a.index_of(path);
            assert(a[j] == path);
            assert(p.contains(j as usize));
            let k = p.index_of(j as usize);
            assert(p[k] == j);
            assert(names(roots[k].parts@) == path);
            assert(b[k] == path);
        }
    }
}

/// Whether one of the roots is `path`.
fn has_root(roots: &Vec<Root>, path: &Vec<Vec<u8>>) -> (r: bool)
    ensures
        r == root_paths(roots@).contains(names(path@)),
{
    let ghost all = root_paths(roots@);
    let mut i: usize = 0;
    while i < roots.len()
        invariant
            i <= roots.len(),
            all == root_paths(roots@),
            forall|j: int| 0 <= j < i ==> (#[trigger] all[j]) != names(path@),
        decreases roots.len() - i,
    {
        assert(all[i as int] == names(roots@[i as int].parts@));
        if roots[i].parts.len() == path.len() && inside(path, &roots[i].parts) {
            assert(names(path@).take(all[i as int].len() as int) =~= names(path@));
            assert(all[i as int] == names(path@));
            return true;
        }
        proof {
            if all[i as int] == names(path@) {
                assert(names(path@).take(all[i as int].len() as int) =~= names(path@));
            }
        }
        i += 1;
    }
    false
}

// ---------------------------------------------------------------------------
// Resolving
// ---------------------------------------------------------------------------

/// A path on its way to being resolved: the part that is looked up next, and the
/// components behind it, last one first.
#[derive(Debug, PartialEq, Eq)]
pub struct Resolving {
    /// The requested path as complaints show it.
    pub shown: String,
    pub ancestor: Vec<Vec<u8>>,
    pub suffix: Vec<Vec<u8>>,
}

/// The components behind the ancestor, in order.
pub open spec fn remainder(r: Resolving) -> Seq<Seq<u8>> {
    names(r.suffix@).reverse()
}

/// Whether a resolution is on its way from `requested`: ancestor and remainder
/// make up the requested path, and no `..` is in the remainder.
pub open spec fn is_under_way(r: Resolving, requested: Seq<u8>) -> bool {
    &&& names(r.ancestor@) + remainder(r) == components_of(requested)
    &&& forall|i: int| 0 <= i < r.suffix@.len() ==> (#[trigger] r.suffix@[i])@ != parent_name()
}

/// What looking up a path finds.
#[derive(Debug, PartialEq, Eq)]
pub enum Lookup {
    /// It exists, and leads here free of symbolic links.
    Leads { path: Vec<Vec<u8>> },
    /// There is nothing of that name.
    Missing,
    /// There is a symbolic link of that name, and it leads nowhere.
    Astray,
}

/// How a resolution goes on.
#[derive(Debug, PartialEq, Eq)]
pub enum ResolveStep {
    /// Look up the ancestor.
    Continue,
    /// It is over.
    Done { result: Result<ResolvedPath, String> },
}

/// The complaint that there are no roots.
pub open spec fn deny_all_text() -> Seq<char> {
    "ERR_FILES_NO_ROOTS: FILES_PLUGIN_ALLOWED_ROOTS is not set — configure at least one absolute directory the filesystem plugin may access (see config.example.yaml)"@
}

/// A complaint about a requested path.
pub open spec fn about_path(code: Seq<char>, shown: Seq<char>, rest: Seq<char>) -> Seq<char> {
    code + shown + rest
}

fn path_error(code: &str, shown: &str, rest: &str) -> (r: String)
    ensures
        r@ == about_path(code@, shown@, rest@),
{
    join3(code, shown, rest)
}

/// Why a path is refused before anything is looked up, if it is.
pub open spec fn refused_at_once(
    roots: Seq<Root>,
    requested: Seq<u8>,
    shown: Seq<char>,
) -> Option<Seq<char>> {
    if roots.len() == 0 {
        Some(deny_all_text())
    } else if !is_absolute(requested) {
        Some(
            about_path(
                "ERR_FILES_PATH_MUST_BE_ABSOLUTE: `path` ("@,
                shown,
                ") must be an absolute path inside an allowed root"@,
            ),
        )
    } else {
        None
    }
}

/// Whether `r` is what resolving a path starts with.
pub open spec fn is_begun(
    roots: Seq<Root>,
    requested: Seq<u8>,
    shown: Seq<char>,
    r: Result<Resolving, String>,
) -> bool {
    match r {
        Ok(s) => {
            &&& refused_at_once(roots, requested, shown) is None
            &&& is_under_way(s, requested)
            &&& names(s.ancestor@) == components_of(requested)
            &&& s.suffix@.len() == 0
            &&& s.shown@ == shown
        },
        Err(e) => refused_at_once(roots, requested, shown) == Some(e@),
    }
}

/// Whether `path` is inside one of the roots.
pub open spec fn is_allowed(roots: Seq<Root>, path: Seq<Seq<u8>>) -> bool {
    exists|i: int| 0 <= i < roots.len() && is_inside(path, names((#[trigger] roots[i]).parts@))
}

impl Sandbox {
    /// Starts to resolve a path. Complaints show it as text, with replacement
    /// characters where it is none.
    pub fn begin_resolve(&self, requested: &Vec<u8>) -> (r: Result<Resolving, String>)
        ensures
            is_begun(self.roots@, requested@, lossy_text(requested@), r),
            valid_utf8(requested@) ==> lossy_text(requested@) == decode_utf8(requested@),
    {
        let shown = utf8_lossy(requested);
        self.begin_shown(requested, shown)
    }

    /// Starts to resolve a path that complaints show as `shown`.
    pub fn begin_shown(&self, requested: &Vec<u8>, shown: String) -> (r: Result<Resolving, String>)
        ensures
            is_begun(self.roots@, requested@, shown@, r),
    {
        if self.roots.len() == 0 {
            return Err(
                "ERR_FILES_NO_ROOTS: FILES_PLUGIN_ALLOWED_ROOTS is not set — configure at least one absolute directory the filesystem plugin may access (see config.example.yaml)".to_owned(),
            );
        }
        if !absolute(requested.as_slice()) {
            return Err(
                path_error(
                    "ERR_FILES_PATH_MUST_BE_ABSOLUTE: `path` (",
                    shown.as_str(),
                    ") must be an absolute path inside an allowed root",
                ),
            );
        }
        let ancestor = components(requested.as_slice());
        Ok(Resolving { shown, ancestor, suffix: Vec::new() })
    }

    /// Takes note of what looking up the ancestor found. What is missing is taken
    /// off the ancestor and kept for the remainder, unless it is `..`. What leads
    /// astray is refused: it may lead out of every root once its target is there.
    pub fn resolve_step(&self, state: &mut Resolving, found: Lookup) -> (r: ResolveStep)
        ensures
            forall|requested: Seq<u8>| #[trigger]
                is_under_way(*old(state), requested) ==> is_under_way(*final(state), requested),
            ({
                let req = old(state).shown@;
                let anc = names(old(state).ancestor@);
                match found {
                    Lookup::Leads { path: c } => {
                        let path = names(c@) + remainder(*old(state));
                        &&& *final(state) == *old(state)
                        &&& r matches ResolveStep::Done { result }
                        &&& match result {
                            Ok(p) => is_allowed(self.roots@, path) && names(p.path@) == path
                                && p.is_root == root_paths(self.roots@).contains(path),
                            Err(e) => !is_allowed(self.roots@, path) && e@ == about_path(
                                "ERR_FILES_PATH_ESCAPES_ROOT: `path` ("@,
                                req,
                                ") resolves outside every allowed root"@,
                            ),
                        }
                    },
                    Lookup::Astray => {
                        &&& *final(state) == *old(state)
                        &&& r matches ResolveStep::Done { result }
                        &&& result matches Err(e)
                        &&& e@ == about_path(
                            "ERR_FILES_PATH_UNRESOLVABLE: cannot resolve `path` ("@,
                            req,
                            ")"@,
                        )
                    },
                    Lookup::Missing => if anc.len() == 0 {
                        &&& *final(state) == *old(state)
                        &&& r matches ResolveStep::Done { result }
                        &&& result matches Err(e)
                        &&& e@ == about_path(
                            "ERR_FILES_PATH_UNRESOLVABLE: cannot resolve `path` ("@,
                            req,
                            ")"@,
                        )
                    } else if anc.last() == parent_name() {
                        &&& *final(state) == *old(state)
                        &&& r matches ResolveStep::Done { result }
                        &&& result matches Err(e)
                        &&& e@ == about_path(
                            "ERR_FILES_PATH_TRAVERSAL: `path` ("@,
                            req,
                            ") escapes the allowed roots via '..'"@,
                        )
                    } else {
                        &&& r is Continue
                        &&& final(state).shown == old(state).shown
                        &&& names(final(state).ancestor@) == anc.drop_last()
                        &&& remainder(*final(state)) == seq![anc.last()] + remainder(*old(state))
                    },
                }
            }),
    {
        match found {
            Lookup::Leads { path: c } => {
                let mut path = c;
                let ghost c0 = names(path@);
                let ghost suf = names(state.suffix@);
                let mut k: usize = state.suffix.len();
                assert(suf.take(k as int) =~= suf);
                assert(suf.skip(k as int).reverse() =~= Seq::empty());
                assert(names(path@) =~= c0 + suf.skip(k as int).reverse());
                while 0 < k
                    invariant
                        k <= state.suffix.len(),
                        *state == *old(state),
                        suf == names(state.suffix@),
                        names(path@) == c0 + suf.skip(k as int).reverse(),
                    decreases k,
                {
                    let ghost before = names(path@);
                    k -= 1;
                    path.push(copy_bytes(&state.suffix[k]));
                    assert(names(path@) =~= before.push(suf[k as int]));
                    assert(suf.skip(k as int).reverse() =~= suf.skip(k + 1).reverse().push(
                        suf[k as int],
                    ));
                    assert(names(path@) =~= c0 + suf.skip(k as int).reverse());
                }
                assert(suf.skip(0) =~= suf);
                let ghost full = names(path@);
                let mut i: usize = 0;
                while i < self.roots.len()
                    invariant
                        i <= self.roots.len(),
                        *state == *old(state),
                        full == names(path@),
                        found matches Lookup::Leads { path: c } && full == names(c@) + remainder(
                            *old(state),
                        ),
                        forall|j: int|
                            0 <= j < i ==> !is_inside(
                                full,
                                names((#[trigger] self.roots@[j]).parts@),
                            ),
                    decreases self.roots.len() - i,
                {
                    if inside(&path, &self.roots[i].parts) {
                        let is_root = has_root(&self.roots, &path);
                        assert(is_inside(full, names(self.roots@[i as int].parts@)));
                        return ResolveStep::Done { result: Ok(ResolvedPath { path, is_root }) };
                    }
                    i += 1;
                }
                ResolveStep::Done {
                    result: Err(
                        path_error(
                            "ERR_FILES_PATH_ESCAPES_ROOT: `path` (",
                            state.shown.as_str(),
                            ") resolves outside every allowed root",
                        ),
                    ),
                }
            },
            Lookup::Astray => ResolveStep::Done {
                result: Err(
                    path_error(
                        "ERR_FILES_PATH_UNRESOLVABLE: cannot resolve `path` (",
                        state.shown.as_str(),
                        ")",
                    ),
                ),
            },
            Lookup::Missing => {
                let ghost anc = names(state.ancestor@);
                let n: usize = state.ancestor.len();
                if n == 0 {
                    return ResolveStep::Done {
                        result: Err(
                            path_error(
                                "ERR_FILES_PATH_UNRESOLVABLE: cannot resolve `path` (",
                                state.shown.as_str(),
                                ")",
                            ),
                        ),
                    };
                }
                let name = copy_bytes(&state.ancestor[n - 1]);
                if is_parent(&name) {
                    return ResolveStep::Done {
                        result: Err(
                            path_error(
                                "ERR_FILES_PATH_TRAVERSAL: `path` (",
                                state.shown.as_str(),
                                ") escapes the allowed roots via '..'",
                            ),
                        ),
                    };
                }
                let ghost before = *state;
                let _ = state.ancestor.pop();
                state.suffix.push(name);
                proof {
                    assert(names(state.ancestor@) =~= anc.drop_last());
                    assert(names(state.suffix@) =~= names(before.suffix@).push(anc.last()));
                    assert(remainder(*state) =~= seq![anc.last()] + remainder(before));
                    assert(names(state.ancestor@) + remainder(*state) =~= anc + remainder(before));
                }
                ResolveStep::Continue
            },
        }
    }
}

// ---------------------------------------------------------------------------
// Laws
// ---------------------------------------------------------------------------

/// Without a root nothing is allowed.
pub proof fn lemma_deny_all(
    roots: Seq<Root>,
    requested: Seq<u8>,
    shown: Seq<char>,
    path: Seq<Seq<u8>>,
)
    requires
        roots.len() == 0,
    ensures
        refused_at_once(roots, requested, shown) == Some(deny_all_text()),
        !is_allowed(roots, path),
{
}

/// What is appended to an existing directory holds no `..`, so a path that
/// resolves stays below the directory that was looked up, whatever is created
/// there later.
pub proof fn lemma_remainder_stays_below(
    r: Resolving,
    requested: Seq<u8>,
    canonical: Seq<Seq<u8>>,
)
    requires
        is_under_way(r, requested),
    ensures
        is_inside(canonical + remainder(r), canonical),
        forall|i: int| 0 <= i < remainder(r).len() ==> (#[trigger] remainder(r)[i]) != parent_name(),
{
    let path = canonical + remainder(r);
    assert(path.take(canonical.len() as int) =~= canonical);
    assert forall|i: int| 0 <= i < remainder(r).len() implies (#[trigger] remainder(r)[i])
        != parent_name() by {
        assert(remainder(r)[i] == r.suffix@[r.suffix@.len() - 1 - i]@);
    }
}

/// A root is inside itself, so every root is allowed, and so is all below it.
pub proof fn lemma_roots_are_allowed(roots: Seq<Root>, i: int, below: Seq<Seq<u8>>)
    requires
        0 <= i < roots.len(),
    ensures
        is_allowed(roots, names(roots[i].parts@)),
        is_allowed(roots, names(roots[i].parts@) + below),
{
    let root = names(roots[i].parts@);
    assert(root.take(root.len() as int) =~= root);
    assert((root + below).take(root.len() as int) =~= root);
    assert(is_inside(root, names(roots[i].parts@)));
    assert(is_inside(root + below, names(roots[i].parts@)));
}

/// A path is inside a root exactly where it is the root and something behind it: it has
/// the root's components first, every one of them.
pub proof fn lemma_what_lies_inside(path: Seq<Seq<u8>>, root: Seq<Seq<u8>>, rest: Seq<Seq<u8>>)
    ensures
        is_inside(root + rest, root),
        is_inside(path, root) ==> path == root + path.skip(root.len() as int),
        path.len() < root.len() ==> !is_inside(path, root),
        forall|i: int|
            0 <= i < root.len() && i < path.len() && (#[trigger] root[i]) != path[i] ==> !is_inside(
                path,
                root,
            ),
{
    assert((root + rest).take(root.len() as int) =~= root);
    if is_inside(path, root) {
        assert(path =~= path.take(root.len() as int) + path.skip(root.len() as int));
        assert forall|i: int| 0 <= i < root.len() && i < path.len() implies (#[trigger] root[i])
            == path[i] by {
            assert(path.take(root.len() as int)[i] == path[i]);
        }
    }
}

/// A path is absolute exactly where it begins with a slash, and a configured root counts
/// where its entry, blanks around it aside, is absolute and leads somewhere.
pub proof fn lemma_what_roots_count(raw: RawRoot, rest: Seq<u8>)
    ensures
        is_absolute(seq![0x2fu8] + rest),
        !is_absolute(Seq::empty()),
        rest.len() > 0 && rest[0] != 0x2f ==> !is_absolute(rest),
        raw.canonical is None ==> !counts(raw),
        raw.canonical is Some ==> (counts(raw) <==> encode_utf8(trimmed(raw.entry@)).len() > 0
            && encode_utf8(trimmed(raw.entry@))[0] == 0x2f),
{
    assert((seq![0x2fu8] + rest)[0] == 0x2f);
}

/// A complaint names its code, then the path as it is shown, then the reason.
pub proof fn lemma_what_a_complaint_says(code: Seq<char>, shown: Seq<char>, rest: Seq<char>)
    ensures
        about_path(code, shown, rest) == code + shown + rest,
{
}

proof fn lemma_fields_not_empty(path: Seq<u8>)
    ensures
        slash_fields(path).len() > 0,
    decreases path.len(),
{
    if path.len() > 0 {
        lemma_fields_not_empty(path.drop_last());
    }
}

proof fn lemma_fields_grow(path: Seq<u8>, name: Seq<u8>)
    requires
        !name.contains(0x2f),
    ensures
        slash_fields(path.push(0x2f) + name) == slash_fields(path).push(name),
    decreases name.len(),
{
    let whole = path.push(0x2f) + name;
    if name.len() == 0 {
        assert(whole =~= path.push(0x2f));
        assert(whole.drop_last() =~= path);
        assert(name =~= Seq::empty());
    } else {
        let short = name.drop_last();
        assert(!short.contains(0x2f)) by {
            if short.contains(0x2f) {
                assert(name[short.index_of(0x2f)] == 0x2f);
            }
        }
        lemma_fields_grow(path, short);
        assert(whole.drop_last() =~= path.push(0x2f) + short);
        assert(name[name.len() - 1] != 0x2f);
        assert(short.push(name.last()) =~= name);
        assert(slash_fields(whole) =~= slash_fields(path).push(name));
    }
}

/// A name behind a slash is one more component, unless it is empty or a single dot; the
/// components before it stay as they are.
pub proof fn lemma_components_grow(path: Seq<u8>, name: Seq<u8>)
    requires
        !name.contains(0x2f),
    ensures
        components_of(Seq::empty()) == Seq::<Seq<u8>>::empty(),
        name.len() == 0 || name == seq![0x2eu8] ==> components_of(path.push(0x2f) + name)
            == components_of(path),
        name.len() > 0 && name != seq![0x2eu8] ==> components_of(path.push(0x2f) + name)
            == components_of(path).push(name),
{
    lemma_fields_grow(path, name);
    let fields = slash_fields(path);
    assert(fields.push(name).drop_last() =~= fields);
    let none = slash_fields(Seq::<u8>::empty());
    assert(none.last() == Seq::<u8>::empty());
    assert(none.drop_last() =~= Seq::empty());
    reveal_with_fuel(kept_fields, 2);
}

/// Components that are written out as a path are read back as they were.
pub proof fn lemma_paths_read_back(parts: Seq<Seq<u8>>)
    requires
        forall|i: int|
            0 <= i < parts.len() ==> (#[trigger] parts[i]).len() > 0 && parts[i] != seq![0x2eu8]
                && !parts[i].contains(0x2f),
    ensures
        components_of(path_of(parts)) == parts,
        is_absolute(path_of(parts)),
    decreases parts.len(),
{
    let root = Seq::<u8>::empty();
    assert(!root.contains(0x2f));
    lemma_components_grow(root, root);
    assert(root.push(0x2f) + root =~= seq![0x2fu8]);
    if parts.len() == 0 {
        assert(parts =~= Seq::empty());
    } else {
        let before = parts.drop_last();
        assert forall|i: int| 0 <= i < before.len() implies (#[trigger] before[i]).len() > 0
            && before[i] != seq![0x2eu8] && !before[i].contains(0x2f) by {
            assert(before[i] == parts[i]);
        }
        lemma_paths_read_back(before);
        let last = parts[parts.len() - 1];
        assert(last.len() > 0 && last != seq![0x2eu8] && !last.contains(0x2f));
        if parts.len() == 1 {
            lemma_components_grow(root, last);
            assert(root.push(0x2f) + last =~= seq![0x2fu8] + last);
            assert(parts =~= Seq::<Seq<u8>>::empty().push(last));
        } else {
            lemma_components_grow(path_of(before), last);
            assert(parts =~= before.push(last));
        }
    }
}

/// Names go by the first byte in which they differ, and a name comes before every longer
/// name that begins with it.
pub proof fn lemma_names_go_by_the_first_difference(
    common: Seq<u8>,
    x: u8,
    y: u8,
    a: Seq<u8>,
    b: Seq<u8>,
)
    ensures
        x < y ==> name_le(common.push(x) + a, common.push(y) + b),
        x > y ==> !name_le(common.push(x) + a, common.push(y) + b),
        name_le(common, common + a),
        a.len() > 0 ==> !name_le(common + a, common),
    decreases common.len(),
{
    let p = common.push(x) + a;
    let q = common.push(y) + b;
    if common.len() == 0 {
        assert(p[0] == x && q[0] == y);
    } else {
        let rest = common.drop_first();
        lemma_names_go_by_the_first_difference(rest, x, y, a, b);
        assert(p.drop_first() =~= rest.push(x) + a);
        assert(q.drop_first() =~= rest.push(y) + b);
        assert((common + a).drop_first() =~= rest + a);
        assert(p[0] == common[0] && q[0] == common[0] && (common + a)[0] == common[0]);
    }
}

/// Paths go by the first component in which they differ, and a directory comes before
/// everything below it.
pub proof fn lemma_paths_go_by_the_first_difference(
    common: Seq<Seq<u8>>,
    x: Seq<u8>,
    y: Seq<u8>,
    a: Seq<Seq<u8>>,
    b: Seq<Seq<u8>>,
)
    ensures
        x != y ==> path_le(common.push(x) + a, common.push(y) + b) == name_le(x, y),
        path_le(common, common + a),
        a.len() > 0 ==> !path_le(common + a, common),
    decreases common.len(),
{
    let p = common.push(x) + a;
    let q = common.push(y) + b;
    if common.len() == 0 {
        assert(p[0] == x && q[0] == y);
    } else {
        let rest = common.skip(1);
        lemma_paths_go_by_the_first_difference(rest, x, y, a, b);
        assert(p.skip(1) =~= rest.push(x) + a);
        assert(q.skip(1) =~= rest.push(y) + b);
        assert((common + a).skip(1) =~= rest + a);
        assert(p[0] == common[0] && q[0] == common[0] && (common + a)[0] == common[0]);
    }
}

/// Every configured root that counts is a root, and nothing else is.
pub proof fn lemma_which_roots_are_configured(
    raw: Seq<RawRoot>,
    entry: RawRoot,
    path: Seq<Seq<u8>>,
)
    ensures
        !is_configured(Seq::empty(), path),
        is_configured(raw.push(entry), path) <==> is_configured(raw, path) || counts(entry)
            && names(entry.canonical->0@) == path,
{
    let all = raw.push(entry);
    lemma_configured_step(all, raw.len() as int);
    assert(all.take(raw.len() as int) =~= raw);
    assert(all.take(raw.len() as int + 1) =~= all);
}

/// Resolving starts with the whole path, where there is a root and the path is absolute;
/// without a root it is refused for that, and a path that is not absolute for that.
pub proof fn lemma_how_resolving_begins(
    roots: Seq<Root>,
    requested: Seq<u8>,
    shown: Seq<char>,
    r: Result<Resolving, String>,
)
    requires
        is_begun(roots, requested, shown, r),
    ensures
        r is Ok <==> roots.len() > 0 && requested.len() > 0 && requested[0] == 0x2f,
        r matches Ok(s) ==> names(s.ancestor@) == components_of(requested) && s.suffix@.len() == 0
            && s.shown@ == shown,
        roots.len() > 0 ==> (r matches Err(e) ==> e@
            == "ERR_FILES_PATH_MUST_BE_ABSOLUTE: `path` ("@ + shown
            + ") must be an absolute path inside an allowed root"@),
{
}

} // verus!
