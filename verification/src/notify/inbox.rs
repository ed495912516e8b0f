//! Stored notifications.

use crate::fields::{after_last, tail_after};
use crate::number::{all_digits, dec, decimal, lemma_decimal, number_up_to, parse_up_to};
use crate::text::{join3, same};
use vstd::prelude::*;

verus! {

/// The setting that holds the data directory of the inbox.
pub const DATA_DIR_ENV: &'static str = "NOTIFY_PLUGIN_DATA_DIR";

/// The file of the inbox, inside its data directory.
pub const INBOX_FILE: &'static str = "inbox.json";

/// Entries that are kept; the oldest go first.
pub const MAX_ENTRIES: usize = 500;

/// One stored notification.
#[derive(Debug, PartialEq, Eq)]
pub struct InboxEntry {
    /// When the entry was made, a dash and its sequence number.
    pub id: String,
    pub created_at_ms: u64,
    pub title: String,
    pub message: String,
    /// The provider that the notification goes through.
    pub provider: String,
    /// Whether the notification was delivered, not only stored.
    pub delivered: bool,
    pub silent: bool,
    pub spoken: bool,
    pub read: bool,
}

impl InboxEntry {
    /// The same entry.
    fn copy(&self) -> (r: InboxEntry)
        ensures
            r == *self,
    {
        InboxEntry {
            id: self.id.clone(),
            created_at_ms: self.created_at_ms,
            title: self.title.clone(),
            message: self.message.clone(),
            provider: self.provider.clone(),
            delivered: self.delivered,
            silent: self.silent,
            spoken: self.spoken,
            read: self.read,
        }
    }
}

/// What was found at the path of the inbox.
#[derive(Debug, PartialEq, Eq)]
pub enum InboxFile {
    /// There is no file yet.
    Missing,
    /// The file could not be read.
    Unreadable { error: String },
    /// The file could not be decoded.
    Corrupt { error: String },
    /// The decoded entries, oldest first.
    Entries { entries: Vec<InboxEntry> },
}

/// The inbox.
#[derive(Debug, PartialEq, Eq)]
pub struct Inbox {
    pub path: String,
    /// Oldest first.
    pub entries: Vec<InboxEntry>,
    pub next_seq: u64,
}

/// The sequence number in an id: what follows the last dash, or zero where that
/// is no number.
pub open spec fn seq_of(id: Seq<char>) -> nat {
    match after_last(id, '-') {
        Some(tail) => match number_up_to(tail, u64::MAX as nat) {
            Some(n) => n,
            None => 0,
        },
        None => 0,
    }
}

/// The sequence number in an id.
pub fn parse_seq(id: &str) -> (r: u64)
    ensures
        r == seq_of(id@),
{
    match tail_after(id, '-') {
        Some(tail) => match parse_up_to(tail.as_str(), u64::MAX) {
            Some(n) => n,
            None => 0,
        },
        None => 0,
    }
}

/// The id of an entry made at `now_ms` with the sequence number `seq`.
pub open spec fn id_text(now_ms: u64, seq: u64) -> Seq<char> {
    decimal(now_ms as nat) + "-"@ + decimal(seq as nat)
}

proof fn lemma_tail_of_digits(head: Seq<char>, digits: Seq<char>)
    requires
        all_digits(digits),
    ensures
        after_last(head.push('-') + digits, '-') == Some(digits),
    decreases digits.len(),
{
    let s = head.push('-') + digits;
    if digits.len() == 0 {
        assert(s =~= head.push('-'));
        assert(s.last() == '-');
        assert(digits =~= Seq::<char>::empty());
    } else {
        lemma_tail_of_digits(head, digits.drop_last());
        assert(s.drop_last() =~= head.push('-') + digits.drop_last());
        assert(s.last() == digits.last());
        assert(crate::text::is_ascii_digit(digits[digits.len() - 1]));
        assert(digits =~= digits.drop_last().push(digits.last()));
    }
}

/// An id holds the sequence number that it was made with.
pub proof fn lemma_id_holds_seq(now_ms: u64, seq: u64)
    ensures
        seq_of(id_text(now_ms, seq)) == seq,
{
    let head = decimal(now_ms as nat);
    let digits = decimal(seq as nat);
    lemma_decimal(seq as nat);
    lemma_tail_of_digits(head, digits);
    reveal_strlit("-");
    assert(head + "-"@ + digits =~= head.push('-') + digits);
    crate::number::lemma_decimal_reads_back(seq as nat, u64::MAX as nat);
}

/// The number after the largest sequence number, at most the largest there is.
pub open spec fn next_after(entries: Seq<InboxEntry>) -> nat
    decreases entries.len(),
{
    if entries.len() == 0 {
        1
    } else {
        let rest = next_after(entries.drop_last());
        let seq = seq_of(entries.last().id@);
        let own = if seq < u64::MAX {
            seq + 1
        } else {
            u64::MAX as nat
        };
        if own > rest {
            own
        } else {
            rest
        }
    }
}

/// Entries with at most the newest `MAX_ENTRIES` of them left.
pub open spec fn newest(entries: Seq<InboxEntry>) -> Seq<InboxEntry> {
    if entries.len() <= MAX_ENTRIES {
        entries
    } else {
        entries.skip(entries.len() - MAX_ENTRIES)
    }
}

/// Whether an entry shows up in a listing.
pub open spec fn is_listed(e: InboxEntry, include_read: bool) -> bool {
    include_read || !e.read
}

/// The entries that show up in a listing, newest first.
pub open spec fn listing(entries: Seq<InboxEntry>, include_read: bool) -> Seq<InboxEntry>
    decreases entries.len(),
{
    if entries.len() == 0 {
        Seq::empty()
    } else if is_listed(entries.last(), include_read) {
        seq![entries.last()] + listing(entries.drop_last(), include_read)
    } else {
        listing(entries.drop_last(), include_read)
    }
}

/// The position of the first entry with that id.
pub open spec fn first_with(entries: Seq<InboxEntry>, id: Seq<char>, i: int) -> bool {
    &&& 0 <= i < entries.len()
    &&& entries[i].id@ == id
    &&& forall|j: int| 0 <= j < i ==> (#[trigger] entries[j]).id@ != id
}

/// Whether some entry has that id.
pub open spec fn has_id(entries: Seq<InboxEntry>, id: Seq<char>) -> bool {
    exists|i: int| 0 <= i < entries.len() && (#[trigger] entries[i]).id@ == id
}

/// Entries of another id.
pub open spec fn of_other_id(id: Seq<char>) -> spec_fn(InboxEntry) -> bool {
    |e: InboxEntry| e.id@ != id
}

/// The entries without those of that id.
pub open spec fn without(entries: Seq<InboxEntry>, id: Seq<char>) -> Seq<InboxEntry> {
    entries.filter(of_other_id(id))
}

/// An entry marked as read.
pub open spec fn marked(e: InboxEntry) -> InboxEntry {
    InboxEntry { read: true, ..e }
}

/// Whether `r` is what opening the inbox at `path` gives, with what was found
/// there.
pub open spec fn is_opened(path: String, file: InboxFile, r: Result<Inbox, String>) -> bool {
    match (file, r) {
        (InboxFile::Missing, Ok(inbox)) => inbox.path == path && inbox.entries@.len() == 0
            && inbox.next_seq == 1 && inbox.numbers_ahead(),
        (InboxFile::Entries { entries }, Ok(inbox)) => inbox.path == path && inbox.entries
            == entries && inbox.next_seq == next_after(entries@) && inbox.numbers_ahead(),
        (InboxFile::Corrupt { error }, Err(e)) => e@ == "inbox file "@ + path@ + " is corrupt: "@
            + error@,
        (InboxFile::Unreadable { error }, Err(e)) => e@ == "failed to read inbox "@ + path@ + ": "@
            + error@,
        _ => false,
    }
}

/// Whether an inbox takes in an entry made at `now_ms` under `id`.
pub open spec fn takes_in(
    before: Inbox,
    entry: InboxEntry,
    now_ms: u64,
    after: Inbox,
    id: String,
) -> bool {
    &&& id@ == id_text(now_ms, before.next_seq)
    &&& after.path == before.path
    &&& after.next_seq == if before.next_seq < u64::MAX {
        before.next_seq + 1
    } else {
        u64::MAX as int
    }
    &&& after.entries@ == newest(
        before.entries@.push((InboxEntry { id, created_at_ms: now_ms, ..entry })),
    )
}

/// Whether marking the entry `id` as read takes an inbox to another state, and
/// changes anything.
pub open spec fn marks_read(before: Inbox, id: Seq<char>, after: Inbox, changed: bool) -> bool {
    &&& after.path == before.path
    &&& after.next_seq == before.next_seq
    &&& changed ==> exists|i: int|
        first_with(before.entries@, id, i) && !before.entries@[i].read && after.entries@
            == #[trigger] before.entries@.update(i, marked(before.entries@[i]))
    &&& !changed ==> after.entries@ == before.entries@
    &&& changed == exists|i: int|
        #[trigger] first_with(before.entries@, id, i) && !before.entries@[i].read
}

/// Whether deleting the entry `id` takes an inbox to another state, and changes
/// anything.
pub open spec fn deletes(before: Inbox, id: Seq<char>, after: Inbox, changed: bool) -> bool {
    &&& after.path == before.path
    &&& after.next_seq == before.next_seq
    &&& after.entries@ == without(before.entries@, id)
    &&& changed == has_id(before.entries@, id)
}

impl Inbox {
    /// Whether the next sequence number is larger than all that are in use,
    /// unless numbers have run out.
    pub open spec fn numbers_ahead(&self) -> bool {
        self.next_seq == u64::MAX || forall|i: int|
            0 <= i < self.entries@.len() ==> seq_of((#[trigger] self.entries@[i]).id@)
                < self.next_seq
    }

    /// Opens the inbox at `path` with what was found there. A corrupt file is an
    /// error, never an empty inbox.
    pub fn open(path: String, file: InboxFile) -> (r: Result<Inbox, String>)
        ensures
            is_opened(path, file, r),
    {
        match file {
            InboxFile::Missing => Ok(Inbox { path, entries: Vec::new(), next_seq: 1 }),
            InboxFile::Corrupt { error } => {
                let mut e = join3("inbox file ", path.as_str(), " is corrupt: ");
                e.append(error.as_str());
                Err(e)
            },
            InboxFile::Unreadable { error } => {
                let mut e = join3("failed to read inbox ", path.as_str(), ": ");
                e.append(error.as_str());
                Err(e)
            },
            InboxFile::Entries { entries } => {
                let mut next_seq: u64 = 1;
                let mut i: usize = 0;
                assert(entries@.take(0) =~= Seq::empty());
                while i < entries.len()
                    invariant
                        i <= entries.len(),
                        next_seq >= 1,
                        next_seq == next_after(entries@.take(i as int)),
                        next_seq == u64::MAX || forall|j: int|
                            0 <= j < i ==> seq_of((#[trigger] entries@[j]).id@) < next_seq,
                    decreases entries.len() - i,
                {
                    assert(entries@.take(i + 1).drop_last() =~= entries@.take(i as int));
                    let seq: u64 = parse_seq(entries[i].id.as_str());
                    let own: u64 = if seq < u64::MAX {
                        seq + 1
                    } else {
                        u64::MAX
                    };
                    if own > next_seq {
                        next_seq = own;
                    }
                    i += 1;
                }
                assert(entries@.take(entries@.len() as int) =~= entries@);
                Ok(Inbox { path, entries, next_seq })
            },
        }
    }

    /// Appends an entry made at `now_ms` and gives its id; of more than
    /// `MAX_ENTRIES` entries the oldest go.
    pub fn push(&mut self, entry: InboxEntry, now_ms: u64) -> (r: String)
        ensures
            takes_in(*old(self), entry, now_ms, *final(self), r),
            old(self).numbers_ahead() ==> final(self).numbers_ahead(),
            old(self).numbers_ahead() && old(self).next_seq < u64::MAX ==> !has_id(
                old(self).entries@,
                r@,
            ),
            final(self).entries@.len() > 0,
            final(self).entries@.len() <= 500 || old(self).entries@.len() > 500,
            final(self).entries@.last().title == entry.title,
            final(self).entries@.last().message == entry.message,
            final(self).entries@.last().id == r,
            final(self).entries@.last().created_at_ms == now_ms,
            old(self).entries@.len() < 500 ==> final(self).entries@.drop_last()
                == old(self).entries@,
    {
        let ghost before = self.entries@;
        let ghost seq = self.next_seq;
        let mut id = dec(now_ms);
        id.append("-");
        id.append(dec(self.next_seq).as_str());
        let mut entry = entry;
        entry.id = id.clone();
        entry.created_at_ms = now_ms;
        if self.next_seq < u64::MAX {
            self.next_seq = self.next_seq + 1;
        }
        self.entries.push(entry);
        let ghost all = self.entries@;
        if self.entries.len() > MAX_ENTRIES {
            let at: usize = self.entries.len() - MAX_ENTRIES;
            let rest = self.entries.split_off(at);
            self.entries = rest;
        }
        proof {
            lemma_id_holds_seq(now_ms, seq);
            if old(self).numbers_ahead() {
                if seq < u64::MAX {
                    if has_id(before, id@) {
                        let i = choose|i: int|
                            0 <= i < before.len() && (#[trigger] before[i]).id@ == id@;
                    }
                }
                let gone = all.len() - self.entries@.len();
                assert forall|i: int|
                    self.next_seq != u64::MAX && 0 <= i < self.entries@.len() implies seq_of(
                    (#[trigger] self.entries@[i]).id@,
                ) < self.next_seq by {
                    if i + gone < before.len() {
                    }
                }
            }
        }
        id
    }

    /// The entries, newest first; without `include_read` only the unread ones.
    pub fn list(&self, include_read: bool) -> (r: Vec<InboxEntry>)
        ensures
            r@ == listing(self.entries@, include_read),
            include_read ==> r@.len() == self.entries@.len() && forall|i: int|
                0 <= i < r@.len() ==> (#[trigger] r@[i]) == self.entries@[r@.len() - 1 - i],
            forall|e: InboxEntry| #[trigger]
                r@.contains(e) <==> self.entries@.contains(e) && (include_read || !e.read),
    {
        let mut out: Vec<InboxEntry> = Vec::new();
        let mut i: usize = self.entries.len();
        let ghost all = self.entries@;
        assert(all.take(i as int) =~= all);
        assert(out@ + listing(all, include_read) =~= listing(all, include_read));
        while 0 < i
            invariant
                i <= self.entries.len(),
                all == self.entries@,
                out@ + listing(all.take(i as int), include_read) == listing(all, include_read),
            decreases i,
        {
            let ghost before = out@;
            let ghost head = all.take(i as int);
            i -= 1;
            let e = &self.entries[i];
            assert(head.drop_last() =~= all.take(i as int));
            if include_read || !e.read {
                out.push(e.copy());
                assert(out@ + listing(all.take(i as int), include_read) =~= before + listing(
                    head,
                    include_read,
                ));
            }
        }
        assert(all.take(0) =~= Seq::empty());
        assert(out@ + Seq::<InboxEntry>::empty() =~= out@);
        proof {
            if all.len() > 0 {
                lemma_newest_comes_first(all, all[0], true);
            }
            assert forall|e: InboxEntry| #[trigger]
                out@.contains(e) <==> all.contains(e) && (include_read || !e.read) by {
                lemma_listing_members(all, include_read, e);
            }
        }
        out
    }

    /// Marks an entry as read. Says whether that changed anything.
    pub fn mark_read(&mut self, id: &str) -> (r: bool)
        ensures
            marks_read(*old(self), id@, *final(self), r),
            old(self).numbers_ahead() ==> final(self).numbers_ahead(),
    {
        let mut i: usize = 0;
        while i < self.entries.len()
            invariant
                i <= self.entries.len(),
                *self == *old(self),
                forall|j: int| 0 <= j < i ==> (#[trigger] self.entries@[j]).id@ != id@,
            decreases self.entries.len() - i,
        {
            if same(self.entries[i].id.as_str(), id) {
                assert(first_with(self.entries@, id@, i as int));
                if self.entries[i].read {
                    assert forall|k: int| #[trigger]
                        first_with(self.entries@, id@, k) implies k == i by {}
                    return false;
                }
                let mut e = self.entries[i].copy();
                e.read = true;
                let ghost before = self.entries@;
                self.entries.set(i, e);
                assert(self.entries@ =~= before.update(i as int, marked(before[i as int])));
                return true;
            }
            i += 1;
        }
        assert forall|k: int| !#[trigger] first_with(self.entries@, id@, k) by {}
        false
    }

    /// Deletes the entries of that id. Says whether there was one.
    pub fn delete(&mut self, id: &str) -> (r: bool)
        ensures
            deletes(*old(self), id@, *final(self), r),
            old(self).numbers_ahead() ==> final(self).numbers_ahead(),
            r <==> exists|i: int|
                0 <= i < old(self).entries@.len() && (#[trigger] old(self).entries@[i]).id@ == id@,
            forall|e: InboxEntry| #[trigger]
                final(self).entries@.contains(e) <==> old(self).entries@.contains(e) && e.id@
                    != id@,
    {
        let ghost pred = of_other_id(id@);
        let ghost before = self.entries@;
        let mut left: Vec<InboxEntry> = Vec::new();
        let mut found = false;
        let mut i: usize = 0;
        assert(before.take(0) =~= Seq::empty());
        assert(left@ =~= before.take(0).filter(pred)) by {
            reveal(Seq::filter);
        }
        while i < self.entries.len()
            invariant
                i <= self.entries.len(),
                *self == *old(self),
                before == self.entries@,
                pred == of_other_id(id@),
                left@ == before.take(i as int).filter(pred),
                found == exists|j: int| 0 <= j < i && (#[trigger] before[j]).id@ == id@,
            decreases self.entries.len() - i,
        {
            let e = &self.entries[i];
            proof {
                assert(before.take(i + 1) =~= before.take(i as int).push(before[i as int]));
                before.take(i as int).lemma_filter_push(before[i as int], pred);
            }
            if same(e.id.as_str(), id) {
                found = true;
                assert(before[i as int].id@ == id@);
            } else {
                left.push(e.copy());
            }
            i += 1;
        }
        assert(before.take(before.len() as int) =~= before);
        self.entries = left;
        proof {
            assert forall|e: InboxEntry| #[trigger]
                self.entries@.contains(e) <==> before.contains(e) && e.id@ != id@ by {
                lemma_others_stay(before, id@, e);
            }
            assert forall|i: int| 0 <= i < self.entries@.len() implies before.contains(
                #[trigger] self.entries@[i],
            ) by {
                before.lemma_filter_contains_rev(pred, self.entries@[i]);
            }
            if old(self).numbers_ahead() {
                assert forall|i: int|
                    self.next_seq != u64::MAX && 0 <= i < self.entries@.len() implies seq_of(
                    (#[trigger] self.entries@[i]).id@,
                ) < self.next_seq by {
                    let k = before.index_of(self.entries@[i]);
                    assert(before[k] == self.entries@[i]);
                }
            }
        }
        found
    }
}

// ---------------------------------------------------------------------------
// Laws
// ---------------------------------------------------------------------------

/// A listing shows the newest entry first: one that comes in goes to its head, unless it
/// has been read and read entries are left out. With read entries it shows all, from
/// the last to the first.
pub proof fn lemma_newest_comes_first(entries: Seq<InboxEntry>, e: InboxEntry, include_read: bool)
    ensures
        include_read || !e.read ==> listing(entries.push(e), include_read) == seq![e] + listing(
            entries,
            include_read,
        ),
        !include_read && e.read ==> listing(entries.push(e), include_read) == listing(
            entries,
            include_read,
        ),
        listing(entries, true).len() == entries.len(),
        forall|i: int|
            0 <= i < entries.len() ==> (#[trigger] listing(entries, true)[i])
                == entries[entries.len() - 1 - i],
    decreases entries.len(),
{
    assert(entries.push(e).drop_last() =~= entries);
    if entries.len() > 0 {
        lemma_newest_comes_first(entries.drop_last(), entries.last(), true);
        assert forall|i: int| 0 <= i < entries.len() implies (#[trigger] listing(entries, true)[i])
            == entries[entries.len() - 1 - i] by {
            if i > 0 {
                assert(listing(entries, true)[i] == listing(entries.drop_last(), true)[i - 1]);
            }
        }
    }
}

/// Of more than 500 entries the 500 newest are left, as they are and in order.
pub proof fn lemma_the_oldest_go(entries: Seq<InboxEntry>, i: int)
    requires
        0 <= i < newest(entries).len(),
    ensures
        newest(entries).len() == if entries.len() <= 500 {
            entries.len() as int
        } else {
            500
        },
        newest(entries)[i] == entries[entries.len() - newest(entries).len() + i],
{
}

/// Deleting takes away the entries of that id, and no others.
pub proof fn lemma_others_stay(entries: Seq<InboxEntry>, id: Seq<char>, e: InboxEntry)
    ensures
        without(entries, id).contains(e) <==> entries.contains(e) && e.id@ != id,
{
    let pred = of_other_id(id);
    if entries.contains(e) && e.id@ != id {
        let i = entries.index_of(e);
        entries.lemma_filter_contains(pred, i);
    }
    if without(entries, id).contains(e) {
        entries.lemma_filter_contains_rev(pred, e);
        let i = without(entries, id).index_of(e);
        entries.lemma_filter_pred(pred, i);
    }
}

/// Marking an entry as read changes nothing else about it.
pub proof fn lemma_marking_only_marks(e: InboxEntry)
    ensures
        marked(e).read,
        marked(e).id == e.id && marked(e).created_at_ms == e.created_at_ms,
        marked(e).title == e.title && marked(e).message == e.message,
        marked(e).provider == e.provider && marked(e).delivered == e.delivered,
        marked(e).silent == e.silent && marked(e).spoken == e.spoken,
{
}

/// What each operation does: a new entry comes last, dated and numbered, with all that
/// was given; marking changes the entry of that id alone, and says so; deleting says
/// whether there was one.
pub proof fn lemma_what_each_operation_does(
    before: Inbox,
    entry: InboxEntry,
    now_ms: u64,
    given: String,
    id: Seq<char>,
    after: Inbox,
    changed: bool,
)
    ensures
        takes_in(before, entry, now_ms, after, given) ==> after.entries@.len() > 0 && {
            let e = after.entries@.last();
            &&& e.id == given && e.created_at_ms == now_ms
            &&& e.title == entry.title && e.message == entry.message && e.provider == entry.provider
            &&& e.delivered == entry.delivered && e.silent == entry.silent && e.spoken
                == entry.spoken && e.read == entry.read
            &&& given@ == decimal(now_ms as nat) + "-"@ + decimal(before.next_seq as nat)
        },
        marks_read(before, id, after, changed) ==> after.entries@.len() == before.entries@.len() && (
        changed <==> exists|i: int| #[trigger]
            first_with(before.entries@, id, i) && !before.entries@[i].read) && (changed
            ==> exists|i: int| #[trigger]
            first_with(before.entries@, id, i) && after.entries@[i].read && forall|j: int|
                0 <= j < before.entries@.len() && j != i ==> (#[trigger] after.entries@[j])
                    == before.entries@[j]),
        deletes(before, id, after, changed) ==> (changed <==> exists|i: int|
            0 <= i < before.entries@.len() && (#[trigger] before.entries@[i]).id@ == id),
{
    if marks_read(before, id, after, changed) && changed {
        let i = choose|i: int|
            first_with(before.entries@, id, i) && !before.entries@[i].read && after.entries@
                == #[trigger] before.entries@.update(i, marked(before.entries@[i]));
        assert(first_with(before.entries@, id, i) && after.entries@[i].read);
    }
}

/// The inbox never outgrows its cap, and what was pushed last is always in it.
pub proof fn lemma_newest_is_kept(entries: Seq<InboxEntry>, e: InboxEntry)
    ensures
        newest(entries.push(e)).len() <= MAX_ENTRIES,
        newest(entries.push(e)).last() == e,
        entries.len() < MAX_ENTRIES ==> newest(entries.push(e)) == entries.push(e),
{
}

/// A listing that leaves out read entries shows exactly the unread ones, and one
/// that does not is the whole inbox.
pub proof fn lemma_listing_members(entries: Seq<InboxEntry>, include_read: bool, e: InboxEntry)
    ensures
        listing(entries, include_read).contains(e) <==> entries.contains(e) && is_listed(
            e,
            include_read,
        ),
        listing(entries, true).len() == entries.len(),
    decreases entries.len(),
{
    if entries.len() > 0 {
        let front = entries.drop_last();
        let rest = listing(front, include_read);
        let all = listing(entries, include_read);
        lemma_listing_members(front, include_read, e);
        assert(entries =~= front.push(entries.last()));
        if entries.contains(e) {
            let i = entries.index_of(e);
            assert(entries[i] == e);
            if i < front.len() {
                assert(front[i] == e);
            }
        }
        if front.contains(e) {
            assert(entries[front.index_of(e)] == e);
        }
        assert(entries[entries.len() - 1] == entries.last());
        if is_listed(entries.last(), include_read) {
            if rest.contains(e) {
                assert(all[rest.index_of(e) + 1] == e);
            }
            assert(all[0] == entries.last());
            if all.contains(e) {
                let k = all.index_of(e);
                assert(all[k] == e);
                if k > 0 {
                    assert(rest[k - 1] == e);
                }
            }
        }
    }
}

/// A deleted entry is gone, and deleting it again finds nothing.
pub proof fn lemma_deleted_is_gone(entries: Seq<InboxEntry>, id: Seq<char>)
    ensures
        !has_id(without(entries, id), id),
        without(without(entries, id), id) == without(entries, id),
{
    let pred = of_other_id(id);
    let left = without(entries, id);
    assert forall|i: int| 0 <= i < left.len() implies (#[trigger] left[i]).id@ != id by {
        entries.lemma_filter_pred(pred, i);
    }
    lemma_filter_all(left, pred);
}

proof fn lemma_filter_all(entries: Seq<InboxEntry>, pred: spec_fn(InboxEntry) -> bool)
    requires
        forall|i: int| 0 <= i < entries.len() ==> pred(#[trigger] entries[i]),
    ensures
        entries.filter(pred) == entries,
    decreases entries.len(),
{
    reveal(Seq::filter);
    if entries.len() > 0 {
        lemma_filter_all(entries.drop_last(), pred);
    }
}

/// Marking an entry as read a second time changes nothing.
pub proof fn lemma_mark_read_once(entries: Seq<InboxEntry>, id: Seq<char>, i: int, k: int)
    requires
        first_with(entries, id, i),
        first_with(entries.update(i, marked(entries[i])), id, k),
    ensures
        ({
            let once = entries.update(i, marked(entries[i]));
            once.update(k, marked(once[k])) == once
        }),
{
    let once = entries.update(i, marked(entries[i]));
    assert(once[i].id@ == id);
    if k < i {
        assert(once[k] == entries[k]);
    }
    assert(k == i);
    assert(marked(once[k]) == once[k]);
}

/// Whether an inbox went from one state to another by one operation, after which
/// its file is written or not: a new entry is always written, other operations
/// only where they change something.
pub open spec fn operates(before: Inbox, after: Inbox, written: bool) -> bool {
    ||| written && exists|entry: InboxEntry, now_ms: u64, id: String| #[trigger]
        takes_in(before, entry, now_ms, after, id)
    ||| exists|id: Seq<char>| #[trigger] marks_read(before, id, after, written)
    ||| exists|id: Seq<char>| #[trigger] deletes(before, id, after, written)
}

/// Whether `files` is what the file holds while an inbox goes through `states`,
/// `written[i]` saying whether the step from state `i` wrote it.
pub open spec fn is_kept_up(
    states: Seq<Inbox>,
    written: Seq<bool>,
    files: Seq<Seq<InboxEntry>>,
) -> bool {
    &&& states.len() == files.len() == written.len() + 1
    &&& files[0] == states[0].entries@
    &&& forall|i: int|
        0 <= i < written.len() ==> operates(states[i], states[i + 1], #[trigger] written[i])
            && files[i + 1] == if written[i] {
            states[i + 1].entries@
        } else {
            files[i]
        }
}

/// Whether a file holds these entries; none where it is missing.
pub open spec fn holds(file: InboxFile, entries: Seq<InboxEntry>) -> bool {
    match file {
        InboxFile::Missing => entries.len() == 0,
        InboxFile::Entries { entries: stored } => stored@ == entries,
        _ => false,
    }
}

/// Whether `g` is the greatest sequence number among entries, zero where there is
/// none.
pub open spec fn is_greatest(entries: Seq<InboxEntry>, g: nat) -> bool {
    &&& forall|i: int| 0 <= i < entries.len() ==> seq_of((#[trigger] entries[i]).id@) <= g
    &&& if entries.len() == 0 {
        g == 0
    } else {
        exists|i: int| 0 <= i < entries.len() && seq_of((#[trigger] entries[i]).id@) == g
    }
}

/// The number that follows the greatest sequence number is one above it, unless
/// numbers have run out.
pub proof fn lemma_next_is_one_above(entries: Seq<InboxEntry>) -> (g: nat)
    ensures
        is_greatest(entries, g),
        next_after(entries) == if g < u64::MAX {
            g + 1
        } else {
            u64::MAX as nat
        },
    decreases entries.len(),
{
    if entries.len() == 0 {
        0
    } else {
        let front = entries.drop_last();
        let before = lemma_next_is_one_above(front);
        let own = seq_of(entries.last().id@);
        assert(own <= u64::MAX);
        let g = if own > before || front.len() == 0 {
            own
        } else {
            before
        };
        assert forall|i: int| 0 <= i < entries.len() implies seq_of(
            (#[trigger] entries[i]).id@,
        ) <= g by {
            if i < front.len() {
                assert(front[i] == entries[i]);
            }
        }
        if g == own {
            assert(seq_of(entries[entries.len() - 1].id@) == g);
        } else {
            let i = choose|i: int| 0 <= i < front.len() && seq_of((#[trigger] front[i]).id@) == g;
            assert(seq_of(entries[i].id@) == g);
        }
        g
    }
}

/// An operation that does not write leaves the entries as they were.
proof fn lemma_unwritten(before: Inbox, after: Inbox)
    requires
        operates(before, after, false),
    ensures
        after.entries@ == before.entries@,
{
    if exists|id: Seq<char>| #[trigger] deletes(before, id, after, false) {
        let id = choose|id: Seq<char>| #[trigger] deletes(before, id, after, false);
        assert forall|i: int| 0 <= i < before.entries@.len() implies of_other_id(id)(
            #[trigger] before.entries@[i],
        ) by {}
        lemma_filter_all(before.entries@, of_other_id(id));
    }
}

/// The file of an inbox holds its entries at all times.
pub proof fn lemma_file_keeps_up(
    states: Seq<Inbox>,
    written: Seq<bool>,
    files: Seq<Seq<InboxEntry>>,
)
    requires
        is_kept_up(states, written, files),
    ensures
        files.last() == states.last().entries@,
    decreases written.len(),
{
    if written.len() > 0 {
        let last = written.len() - 1;
        let (s, w, f) = (states.drop_last(), written.drop_last(), files.drop_last());
        assert forall|i: int| 0 <= i < w.len() implies operates(s[i], s[i + 1], #[trigger] w[i])
            && f[i + 1] == if w[i] {
            s[i + 1].entries@
        } else {
            f[i]
        } by {
            assert(w[i] == written[i]);
        }
        lemma_file_keeps_up(s, w, f);
        assert(operates(states[last], states[last + 1], written[last]));
        if !written[last] {
            lemma_unwritten(states[last], states[last + 1]);
        }
    }
}

/// Everything that was done to an inbox survives reopening it: whatever entries
/// were pushed, pruned, marked or deleted, the inbox that is opened with what the
/// file then holds lists the same, and goes on with the number one above the
/// greatest that is stored.
pub proof fn lemma_reopened_lists_the_same(
    states: Seq<Inbox>,
    written: Seq<bool>,
    files: Seq<Seq<InboxEntry>>,
    path: String,
    file: InboxFile,
    r: Result<Inbox, String>,
)
    requires
        is_kept_up(states, written, files),
        holds(file, files.last()),
        is_opened(path, file, r),
    ensures
        r is Ok,
        forall|include_read: bool|
            listing(r->Ok_0.entries@, include_read) == #[trigger] listing(
                states.last().entries@,
                include_read,
            ),
        exists|g: nat| #[trigger]
            is_greatest(states.last().entries@, g) && r->Ok_0.next_seq == if g < u64::MAX {
                g + 1
            } else {
                u64::MAX as nat
            },
{
    lemma_file_keeps_up(states, written, files);
    let g = lemma_next_is_one_above(states.last().entries@);
    assert(r->Ok_0.entries@ =~= states.last().entries@);
    assert(is_greatest(states.last().entries@, g));
}

/// An entry that comes in leaves the inbox in its place and takes the next number, once;
/// marking and deleting leave place and numbers alone, and where they change nothing the
/// entries stay as they are.
pub proof fn lemma_what_stays_of_an_inbox(
    before: Inbox,
    entry: InboxEntry,
    now_ms: u64,
    given: String,
    id: Seq<char>,
    after: Inbox,
    changed: bool,
)
    ensures
        takes_in(before, entry, now_ms, after, given) ==> after.path == before.path && (
        before.next_seq < u64::MAX ==> after.next_seq == before.next_seq + 1) && (before.next_seq
            == u64::MAX ==> after.next_seq == u64::MAX),
        marks_read(before, id, after, changed) ==> after.path == before.path && after.next_seq
            == before.next_seq && (!changed ==> after.entries@ == before.entries@),
        deletes(before, id, after, changed) ==> after.path == before.path && after.next_seq
            == before.next_seq,
{
}

/// Deleting an id takes out its entries and leaves the others in their order.
pub proof fn lemma_deleting_keeps_the_order(entries: Seq<InboxEntry>, e: InboxEntry, id: Seq<char>)
    ensures
        without(Seq::empty(), id) == Seq::<InboxEntry>::empty(),
        e.id@ == id ==> without(entries.push(e), id) == without(entries, id),
        e.id@ != id ==> without(entries.push(e), id) == without(entries, id).push(e),
{
    reveal(Seq::filter);
    assert(entries.push(e).drop_last() =~= entries);
}

/// An inbox opens with what its file holds, empty where there is none, and not at all
/// where the file does not read; numbers go on above the largest that is in use.
pub proof fn lemma_how_an_inbox_opens(path: String, file: InboxFile, r: Result<Inbox, String>)
    requires
        is_opened(path, file, r),
    ensures
        r is Ok <==> file is Missing || file is Entries,
        r matches Ok(inbox) ==> inbox.path == path,
        file is Missing ==> r->Ok_0.entries@.len() == 0 && r->Ok_0.next_seq == 1,
        file matches InboxFile::Entries { entries } ==> r->Ok_0.entries == entries && (
        r->Ok_0.next_seq == u64::MAX || forall|i: int|
            0 <= i < entries@.len() ==> seq_of((#[trigger] entries@[i]).id@) < r->Ok_0.next_seq),
        file matches InboxFile::Corrupt { error } ==> r->Err_0@ == "inbox file "@ + path@
            + " is corrupt: "@ + error@,
        file matches InboxFile::Unreadable { error } ==> r->Err_0@ == "failed to read inbox "@
            + path@ + ": "@ + error@,
{
}

} // verus!
