//! Trimming text and cutting it into fields.

use crate::text::{
    chars_of, has_infix, is_white_space, lemma_infix_at_end, lemma_infix_stays, text_of, texts,
    white_space,
};
use vstd::prelude::*;

verus! {

// ---------------------------------------------------------------------------
// Trimming
// ---------------------------------------------------------------------------

/// Text without its leading white space.
pub open spec fn trimmed_start(s: Seq<char>) -> Seq<char>
    decreases s.len(),
{
    if s.len() > 0 && is_white_space(s[0]) {
        trimmed_start(s.drop_first())
    } else {
        s
    }
}

/// Text without its trailing white space.
pub open spec fn trimmed_end(s: Seq<char>) -> Seq<char>
    decreases s.len(),
{
    if s.len() > 0 && is_white_space(s.last()) {
        trimmed_end(s.drop_last())
    } else {
        s
    }
}

/// Text without leading and trailing white space.
pub open spec fn trimmed(s: Seq<char>) -> Seq<char> {
    trimmed_end(trimmed_start(s))
}

/// Text without the run of `c` at its end.
pub open spec fn without_trailing(s: Seq<char>, c: char) -> Seq<char>
    decreases s.len(),
{
    if s.len() > 0 && s.last() == c {
        without_trailing(s.drop_last(), c)
    } else {
        s
    }
}

/// Neither end of a trimmed text is white space.
pub proof fn lemma_trimmed_ends(s: Seq<char>)
    ensures
        trimmed(s).len() > 0 ==> !is_white_space(trimmed(s)[0]) && !is_white_space(
            trimmed(s).last(),
        ),
{
    lemma_trimmed_start_head(s);
    lemma_trimmed_end_last(trimmed_start(s));
}

/// White space around a text is all that trimming takes away: what is between comes
/// out as it is.
pub proof fn lemma_trimmed_is_what_is_between(
    before: Seq<char>,
    core: Seq<char>,
    after: Seq<char>,
)
    requires
        all_white(before),
        all_white(after),
        core.len() > 0 ==> !is_white_space(core[0]) && !is_white_space(core.last()),
    ensures
        trimmed(before + core + after) == core,
{
    lemma_trimmed_start_skips(before, core + after);
    assert(before + core + after =~= before + (core + after));
    if core.len() == 0 {
        lemma_trimmed_start_skips(after, Seq::empty());
        assert(core + after =~= after + Seq::<char>::empty());
    } else {
        assert(trimmed_start(core + after) == core + after);
        lemma_trimmed_end_skips(core, after);
    }
}

proof fn lemma_trimmed_start_skips(white: Seq<char>, s: Seq<char>)
    requires
        all_white(white),
    ensures
        trimmed_start(white + s) == trimmed_start(s),
    decreases white.len(),
{
    if white.len() == 0 {
        assert(white + s =~= s);
    } else {
        assert(is_white_space(white[0]));
        lemma_trimmed_start_skips(white.drop_first(), s);
        assert((white + s).drop_first() =~= white.drop_first() + s);
    }
}

proof fn lemma_trimmed_end_skips(s: Seq<char>, white: Seq<char>)
    requires
        all_white(white),
    ensures
        trimmed_end(s + white) == trimmed_end(s),
    decreases white.len(),
{
    if white.len() == 0 {
        assert(s + white =~= s);
    } else {
        assert(is_white_space(white.last()));
        lemma_trimmed_end_skips(s, white.drop_last());
        assert((s + white).drop_last() =~= s + white.drop_last());
    }
}

/// Trimming a trimmed text changes nothing.
pub proof fn lemma_trimmed_idempotent(s: Seq<char>)
    ensures
        trimmed(trimmed(s)) == trimmed(s),
{
    lemma_trimmed_ends(s);
}

proof fn lemma_trimmed_start_head(s: Seq<char>)
    ensures
        trimmed_start(s).len() > 0 ==> !is_white_space(trimmed_start(s)[0]),
    decreases s.len(),
{
    if s.len() > 0 && is_white_space(s[0]) {
        lemma_trimmed_start_head(s.drop_first());
    }
}

proof fn lemma_trimmed_end_last(s: Seq<char>)
    ensures
        trimmed_end(s).len() > 0 ==> !is_white_space(trimmed_end(s).last()),
        trimmed_end(s).len() <= s.len(),
        trimmed_end(s) == s.take(trimmed_end(s).len() as int),
    decreases s.len(),
{
    if s.len() > 0 && is_white_space(s.last()) {
        lemma_trimmed_end_last(s.drop_last());
    }
}

/// `s` without leading and trailing white space.
pub fn trim(s: &str) -> (r: String)
    ensures
        r@ == trimmed(s@),
{
    let cs = chars_of(s);
    let mut from: usize = 0;
    assert(cs@.skip(0) =~= cs@);
    while from < cs.len() && white_space(cs[from])
        invariant
            from <= cs.len(),
            cs@ == s@,
            trimmed_start(cs@.skip(from as int)) == trimmed_start(cs@),
        decreases cs.len() - from,
    {
        assert(cs@.skip(from as int).drop_first() =~= cs@.skip(from + 1));
        from += 1;
    }
    let mut to: usize = cs.len();
    assert(cs@.skip(from as int) =~= cs@.subrange(from as int, to as int));
    while from < to && white_space(cs[to - 1])
        invariant
            from <= to <= cs.len(),
            trimmed_end(cs@.subrange(from as int, to as int)) == trimmed(s@),
        decreases to,
    {
        assert(cs@.subrange(from as int, to as int).drop_last() =~= cs@.subrange(
            from as int,
            to - 1,
        ));
        to -= 1;
    }
    text_of(&cs, from, to)
}

/// Whether nothing but white space is in `s`.
pub fn is_blank(s: &str) -> (r: bool)
    ensures
        r == (trimmed(s@).len() == 0),
{
    trim(s).as_str().is_empty()
}

/// `s` without the run of `c` at its end.
pub fn trim_trailing(s: &str, c: char) -> (r: String)
    ensures
        r@ == without_trailing(s@, c),
{
    let cs = chars_of(s);
    let mut to: usize = cs.len();
    assert(cs@.subrange(0, to as int) =~= cs@);
    while 0 < to && cs[to - 1] == c
        invariant
            to <= cs.len(),
            without_trailing(cs@.subrange(0, to as int), c) == without_trailing(s@, c),
        decreases to,
    {
        assert(cs@.subrange(0, to as int).drop_last() =~= cs@.subrange(0, to - 1));
        to -= 1;
    }
    text_of(&cs, 0, to)
}

/// A text that lost its trailing `c` does not end in `c`.
pub proof fn lemma_without_trailing(s: Seq<char>, c: char)
    ensures
        without_trailing(s, c).len() > 0 ==> without_trailing(s, c).last() != c,
    decreases s.len(),
{
    if s.len() > 0 && s.last() == c {
        lemma_without_trailing(s.drop_last(), c);
    }
}

// ---------------------------------------------------------------------------
// Splitting at a separator
// ---------------------------------------------------------------------------

/// The fields between the occurrences of `sep`, empty ones included.
pub open spec fn split_at(s: Seq<char>, sep: char) -> Seq<Seq<char>>
    decreases s.len(),
{
    if s.len() == 0 {
        seq![Seq::<char>::empty()]
    } else {
        let before = split_at(s.drop_last(), sep);
        if s.last() == sep {
            before.push(Seq::<char>::empty())
        } else {
            before.drop_last().push(before.last().push(s.last()))
        }
    }
}

proof fn lemma_split_nonempty(s: Seq<char>, sep: char)
    ensures
        split_at(s, sep).len() > 0,
    decreases s.len(),
{
    if s.len() > 0 {
        lemma_split_nonempty(s.drop_last(), sep);
    }
}

/// No field holds the separator.
pub proof fn lemma_split_fields(s: Seq<char>, sep: char)
    ensures
        forall|i: int| 0 <= i < split_at(s, sep).len() ==> !(#[trigger] split_at(s, sep)[i]).contains(
            sep,
        ),
    decreases s.len(),
{
    if s.len() > 0 {
        lemma_split_nonempty(s.drop_last(), sep);
        lemma_split_fields(s.drop_last(), sep);
        let before = split_at(s.drop_last(), sep);
        let all = split_at(s, sep);
        assert forall|i: int| 0 <= i < all.len() implies !(#[trigger] all[i]).contains(sep) by {
            if s.last() != sep && i == all.len() - 1 {
                let f = before.last();
                assert forall|k: int| 0 <= k < f.push(s.last()).len() implies f.push(
                    s.last(),
                )[k] != sep by {
                    if k < f.len() {
                    }
                }
            } else if i < before.len() {
            }
        }
    }
}

/// The fields of `s` between the occurrences of `sep`.
pub fn split(s: &str, sep: char) -> (r: Vec<String>)
    ensures
        texts(r@) == split_at(s@, sep),
{
    let cs = chars_of(s);
    let mut out: Vec<String> = Vec::new();
    let mut cur = String::new();
    let mut i: usize = 0;
    assert(cs@.take(0) =~= Seq::<char>::empty());
    assert(texts(out@).push(cur@) =~= split_at(cs@.take(0), sep));
    while i < cs.len()
        invariant
            i <= cs.len(),
            texts(out@).push(cur@) == split_at(cs@.take(i as int), sep),
        decreases cs.len() - i,
    {
        let ghost before = split_at(cs@.take(i as int), sep);
        assert(cs@.take(i + 1).drop_last() =~= cs@.take(i as int));
        assert(before.drop_last() =~= texts(out@));
        assert(before.last() == cur@);
        if cs[i] == sep {
            out.push(cur);
            cur = String::new();
            assert(texts(out@) =~= before);
        } else {
            cur.push(cs[i]);
        }
        assert(texts(out@).push(cur@) =~= split_at(cs@.take(i + 1), sep));
        i += 1;
    }
    assert(cs@.take(cs@.len() as int) =~= s@);
    let ghost done = texts(out@);
    out.push(cur);
    assert(texts(out@) =~= done.push(cur@));
    out
}

/// The trimmed, non-empty fields of a comma-separated list.
pub open spec fn list_items(s: Seq<char>) -> Seq<Seq<char>> {
    kept_items(split_at(s, ','))
}

/// The fields, trimmed, without those that are blank.
pub open spec fn kept_items(fields: Seq<Seq<char>>) -> Seq<Seq<char>>
    decreases fields.len(),
{
    if fields.len() == 0 {
        Seq::empty()
    } else {
        let before = kept_items(fields.drop_last());
        let item = trimmed(fields.last());
        if item.len() == 0 {
            before
        } else {
            before.push(item)
        }
    }
}

/// The trimmed, non-empty entries of the comma-separated list `s`.
pub fn comma_items(s: &str) -> (r: Vec<String>)
    ensures
        texts(r@) == list_items(s@),
{
    let fields = split(s, ',');
    let mut out: Vec<String> = Vec::new();
    let mut i: usize = 0;
    assert(texts(fields@).take(0) =~= Seq::empty());
    assert(texts(out@) =~= Seq::empty());
    while i < fields.len()
        invariant
            i <= fields.len(),
            texts(fields@) == split_at(s@, ','),
            texts(out@) == kept_items(texts(fields@).take(i as int)),
        decreases fields.len() - i,
    {
        let item = trim(fields[i].as_str());
        assert(texts(fields@).take(i + 1).drop_last() =~= texts(fields@).take(i as int));
        assert(texts(fields@).take(i + 1).last() == fields@[i as int]@);
        if !item.as_str().is_empty() {
            let ghost before = texts(out@);
            out.push(item);
            assert(texts(out@) =~= before.push(item@));
        }
        i += 1;
    }
    assert(texts(fields@).take(fields@.len() as int) =~= texts(fields@));
    out
}

/// The fields of a text are what stands between its separators: a field without a
/// separator is alone, and writing a separator and one more field behind a text
/// adds exactly that field, at the end.
pub proof fn lemma_split_grows(s: Seq<char>, sep: char, field: Seq<char>)
    requires
        !field.contains(sep),
    ensures
        split_at(field, sep) == seq![field],
        split_at(s.push(sep) + field, sep) == split_at(s, sep).push(field),
    decreases field.len(),
{
    if field.len() == 0 {
        assert(field =~= Seq::<char>::empty());
        assert(split_at(field, sep) =~= seq![field]);
        assert(s.push(sep) + field =~= s.push(sep));
        assert(s.push(sep).drop_last() =~= s);
    } else {
        let front = field.drop_last();
        assert forall|i: int| 0 <= i < front.len() implies front[i] != sep by {
            assert(field.contains(field[i]));
        }
        assert(field.contains(field.last()));
        lemma_split_grows(s, sep, front);
        let all = s.push(sep) + field;
        assert(all.drop_last() =~= s.push(sep) + front);
        assert(front.push(field.last()) =~= field);
        assert(split_at(field, sep) =~= seq![field]);
        assert(split_at(all, sep) =~= split_at(s, sep).push(field));
    }
}

/// A comma-separated list grows by its last entry, blanks around it aside, and a
/// blank entry counts for nothing.
pub proof fn lemma_list_grows(s: Seq<char>, entry: Seq<char>)
    requires
        !entry.contains(','),
    ensures
        trimmed(entry).len() > 0 ==> list_items(s.push(',') + entry) == list_items(s).push(
            trimmed(entry),
        ) && list_items(entry) == seq![trimmed(entry)],
        trimmed(entry).len() == 0 ==> list_items(s.push(',') + entry) == list_items(s)
            && list_items(entry) == Seq::<Seq<char>>::empty(),
{
    lemma_split_grows(s, ',', entry);
    assert(split_at(s, ',').push(entry).drop_last() =~= split_at(s, ','));
    let one = seq![entry];
    assert(one.drop_last() =~= Seq::empty());
    assert(kept_items(one.drop_last()) == Seq::<Seq<char>>::empty());
    assert(trimmed(entry).len() > 0 ==> kept_items(one) =~= seq![trimmed(entry)]);
}

/// No entry of a comma-separated list is blank or has white space at an end.
pub proof fn lemma_list_items(s: Seq<char>)
    ensures
        forall|i: int|
            0 <= i < list_items(s).len() ==> (#[trigger] list_items(s)[i]).len() > 0 && trimmed(
                list_items(s)[i],
            ) == list_items(s)[i],
{
    lemma_kept_items(split_at(s, ','));
}

proof fn lemma_kept_items(fields: Seq<Seq<char>>)
    ensures
        forall|i: int|
            0 <= i < kept_items(fields).len() ==> (#[trigger] kept_items(fields)[i]).len() > 0
                && trimmed(kept_items(fields)[i]) == kept_items(fields)[i],
    decreases fields.len(),
{
    if fields.len() > 0 {
        lemma_kept_items(fields.drop_last());
        lemma_trimmed_idempotent(fields.last());
        let before = kept_items(fields.drop_last());
        let all = kept_items(fields);
        assert forall|i: int| 0 <= i < all.len() implies (#[trigger] all[i]).len() > 0 && trimmed(
            all[i],
        ) == all[i] by {
            if i < before.len() {
            }
        }
    }
}

// ---------------------------------------------------------------------------
// Splitting once
// ---------------------------------------------------------------------------

/// Index of the first `c`, or the length of `s` where there is none.
pub open spec fn first_index(s: Seq<char>, c: char) -> int
    decreases s.len(),
{
    if s.len() == 0 || s[0] == c {
        0
    } else {
        1 + first_index(s.drop_first(), c)
    }
}

/// Facts about the first index.
pub proof fn lemma_first_index(s: Seq<char>, c: char)
    ensures
        0 <= first_index(s, c) <= s.len(),
        first_index(s, c) < s.len() ==> s[first_index(s, c)] == c,
        forall|i: int| 0 <= i < first_index(s, c) ==> s[i] != c,
        first_index(s, c) < s.len() <==> s.contains(c),
    decreases s.len(),
{
    if s.len() == 0 || s[0] == c {
        if s.len() > 0 {
            assert(s.contains(s[0]));
        }
    } else {
        let t = s.drop_first();
        lemma_first_index(t, c);
        assert forall|i: int| 0 <= i < first_index(s, c) implies s[i] != c by {
            if i > 0 {
                assert(t[i - 1] == s[i]);
            }
        }
        if s.contains(c) {
            let k = choose|k: int| 0 <= k < s.len() && s[k] == c;
            assert(t[k - 1] == c);
        }
    }
}

/// A text that holds the separator is cut where it stands first: what is before it
/// and what is after it are the two halves.
pub proof fn lemma_cut_at_first(head: Seq<char>, c: char, tail: Seq<char>)
    requires
        !head.contains(c),
    ensures
        split_once_at(head.push(c) + tail, c) == Some((head, tail)),
        split_once_at(head, c) is None,
        before_first(head.push(c) + tail, c) == head,
        before_first(head, c) == head,
{
    let s = head.push(c) + tail;
    lemma_first_index(s, c);
    lemma_first_index(head, c);
    let i = first_index(s, c);
    assert(s[head.len() as int] == c);
    if i < head.len() {
        assert(head[i] == s[i]);
        assert(head.contains(head[i]));
    }
    assert(s.take(i) =~= head);
    assert(s.skip(i + 1) =~= tail);
    assert(head.take(first_index(head, c)) =~= head);
}

/// The first index of `c` in `cs`.
pub fn find_char(cs: &Vec<char>, c: char) -> (r: usize)
    ensures
        r == first_index(cs@, c),
        r <= cs@.len(),
{
    let mut i: usize = 0;
    assert(cs@.skip(0) =~= cs@);
    while i < cs.len() && cs[i] != c
        invariant
            i <= cs.len(),
            first_index(cs@, c) == i + first_index(cs@.skip(i as int), c),
        decreases cs.len() - i,
    {
        assert(cs@.skip(i as int).drop_first() =~= cs@.skip(i + 1));
        i += 1;
    }
    i
}

/// Text before and after the first `c`.
pub open spec fn split_once_at(s: Seq<char>, c: char) -> Option<(Seq<char>, Seq<char>)> {
    let i = first_index(s, c);
    if i < s.len() {
        Some((s.take(i), s.skip(i + 1)))
    } else {
        None
    }
}

/// `s` cut at the first `c`.
pub fn split_once(s: &str, c: char) -> (r: Option<(String, String)>)
    ensures
        match r {
            Some(p) => split_once_at(s@, c) == Some((p.0@, p.1@)),
            None => split_once_at(s@, c) is None,
        },
{
    let cs = chars_of(s);
    let i: usize = find_char(&cs, c);
    if i < cs.len() {
        let a = text_of(&cs, 0, i);
        let b = text_of(&cs, i + 1, cs.len());
        Some((a, b))
    } else {
        None
    }
}

/// Text before the first `c`, or all of it where there is none.
pub open spec fn before_first(s: Seq<char>, c: char) -> Seq<char> {
    s.take(first_index(s, c))
}

/// The part of `s` before the first `c`.
pub fn head_before(s: &str, c: char) -> (r: String)
    ensures
        r@ == before_first(s@, c),
{
    let cs = chars_of(s);
    let i: usize = find_char(&cs, c);
    let a = text_of(&cs, 0, i);
    a
}

/// Text after the last `c`, where there is one.
pub open spec fn after_last(s: Seq<char>, c: char) -> Option<Seq<char>>
    decreases s.len(),
{
    if s.len() == 0 {
        None
    } else if s.last() == c {
        Some(Seq::empty())
    } else {
        match after_last(s.drop_last(), c) {
            Some(t) => Some(t.push(s.last())),
            None => None,
        }
    }
}

/// The part of `s` after the last `c`.
pub fn tail_after(s: &str, c: char) -> (r: Option<String>)
    ensures
        crate::text::opt_text(r) == after_last(s@, c),
{
    let cs = chars_of(s);
    let n: usize = cs.len();
    let mut i: usize = 0;
    let mut at: Option<usize> = None;
    assert(cs@.take(0) =~= Seq::<char>::empty());
    while i < n
        invariant
            i <= n == cs.len(),
            match at {
                Some(k) => k < i && after_last(cs@.take(i as int), c) == Some(
                    cs@.subrange(k + 1, i as int),
                ),
                None => after_last(cs@.take(i as int), c) is None,
            },
        decreases n - i,
    {
        assert(cs@.take(i + 1).drop_last() =~= cs@.take(i as int));
        if cs[i] == c {
            at = Some(i);
            assert(cs@.subrange(i + 1, i + 1) =~= Seq::<char>::empty());
        } else if let Some(k) = at {
            assert(cs@.subrange(k + 1, i as int).push(cs@[i as int]) =~= cs@.subrange(
                k + 1,
                i + 1,
            ));
        }
        i += 1;
    }
    assert(cs@.take(n as int) =~= s@);
    match at {
        Some(k) => Some(text_of(&cs, k + 1, n)),
        None => None,
    }
}

// ---------------------------------------------------------------------------
// Words
// ---------------------------------------------------------------------------

/// The text after the last white space (all of it where there is none).
pub open spec fn open_word(s: Seq<char>) -> Seq<char>
    decreases s.len(),
{
    if s.len() == 0 || is_white_space(s.last()) {
        Seq::empty()
    } else {
        open_word(s.drop_last()).push(s.last())
    }
}

/// The words of `s` that some white space closes.
pub open spec fn closed_words(s: Seq<char>) -> Seq<Seq<char>>
    decreases s.len(), 0nat,
{
    if s.len() == 0 {
        Seq::empty()
    } else if is_white_space(s.last()) {
        words_of(s.drop_last())
    } else {
        closed_words(s.drop_last())
    }
}

/// The maximal runs of characters that are no white space, in order.
pub open spec fn words_of(s: Seq<char>) -> Seq<Seq<char>>
    decreases s.len(), 1nat,
{
    let w = open_word(s);
    if w.len() > 0 {
        closed_words(s).push(w)
    } else {
        closed_words(s)
    }
}

/// Whether a text is all white space.
pub open spec fn all_white(s: Seq<char>) -> bool {
    forall|i: int| 0 <= i < s.len() ==> is_white_space(#[trigger] s[i])
}

/// Whether a text is one word: it holds something, and no white space.
pub open spec fn is_word(s: Seq<char>) -> bool {
    s.len() > 0 && forall|i: int| 0 <= i < s.len() ==> !is_white_space(#[trigger] s[i])
}

/// Any white space between two texts keeps their words apart, whatever and
/// however much it is.
pub proof fn lemma_words_apart(a: Seq<char>, gap: Seq<char>, b: Seq<char>)
    requires
        all_white(gap),
        gap.len() > 0,
    ensures
        words_of(a + gap + b) == words_of(a) + words_of(b),
{
    lemma_words_after_gap(a, gap, b);
    assert(words_of(a + gap + b) =~= words_of(a) + words_of(b));
}

/// White space before or behind a text adds no word to it.
pub proof fn lemma_words_padded(before: Seq<char>, s: Seq<char>, after: Seq<char>)
    requires
        all_white(before),
        all_white(after),
    ensures
        words_of(before + s + after) == words_of(s),
{
    let none = Seq::<char>::empty();
    assert(words_of(none) =~= Seq::empty());
    let padded = before + s;
    if before.len() > 0 {
        lemma_words_apart(none, before, s);
        assert(none + before + s =~= padded);
        assert(words_of(none) + words_of(s) =~= words_of(s));
    } else {
        assert(padded =~= s);
    }
    if after.len() > 0 {
        lemma_words_apart(padded, after, none);
        assert(padded + after + none =~= before + s + after);
        assert(words_of(padded) + words_of(none) =~= words_of(padded));
    } else {
        assert(before + s + after =~= padded);
    }
}

proof fn lemma_words_after_gap(a: Seq<char>, gap: Seq<char>, b: Seq<char>)
    requires
        all_white(gap),
        gap.len() > 0,
    ensures
        open_word(a + gap + b) == open_word(b),
        closed_words(a + gap + b) == words_of(a) + closed_words(b),
        words_of(a + gap + b) == words_of(a) + words_of(b),
    decreases b.len(),
{
    let s = a + gap + b;
    reveal_with_fuel(closed_words, 2);
    reveal_with_fuel(words_of, 2);
    if b.len() == 0 {
        assert(s =~= a + gap);
        lemma_words_before_gap(a, gap);
        assert(open_word(b) =~= Seq::empty());
        assert(closed_words(b) =~= Seq::empty());
        assert(words_of(a) + closed_words(b) =~= words_of(a));
    } else {
        lemma_words_after_gap(a, gap, b.drop_last());
        assert(s.drop_last() =~= a + gap + b.drop_last());
        assert(s.last() == b.last());
    }
    if open_word(b).len() > 0 {
        assert(words_of(a) + words_of(b) =~= (words_of(a) + closed_words(b)).push(open_word(b)));
    }
}

proof fn lemma_words_before_gap(a: Seq<char>, gap: Seq<char>)
    requires
        all_white(gap),
        gap.len() > 0,
    ensures
        open_word(a + gap) == Seq::<char>::empty(),
        closed_words(a + gap) == words_of(a),
    decreases gap.len(),
{
    let s = a + gap;
    reveal_with_fuel(closed_words, 2);
    reveal_with_fuel(words_of, 2);
    assert(s.last() == gap[gap.len() - 1]);
    assert(s.drop_last() =~= a + gap.drop_last());
    if gap.len() == 1 {
        assert(a + gap.drop_last() =~= a);
    } else {
        assert forall|i: int| 0 <= i < gap.drop_last().len() implies is_white_space(
            #[trigger] gap.drop_last()[i],
        ) by {
            assert(gap.drop_last()[i] == gap[i]);
        }
        lemma_words_before_gap(a, gap.drop_last());
    }
}

/// Every word of a text is one word.
pub proof fn lemma_words_are_words(s: Seq<char>)
    ensures
        forall|i: int| 0 <= i < words_of(s).len() ==> is_word(#[trigger] words_of(s)[i]),
        forall|i: int| 0 <= i < closed_words(s).len() ==> is_word(#[trigger] closed_words(s)[i]),
        open_word(s).len() > 0 ==> is_word(open_word(s)),
    decreases s.len(),
{
    reveal_with_fuel(closed_words, 2);
    reveal_with_fuel(words_of, 2);
    if s.len() > 0 {
        lemma_words_are_words(s.drop_last());
        if is_white_space(s.last()) {
            assert(closed_words(s) == words_of(s.drop_last()));
        } else {
            assert(closed_words(s) == closed_words(s.drop_last()));
            let w = open_word(s.drop_last());
            assert forall|i: int| 0 <= i < open_word(s).len() implies !is_white_space(
                #[trigger] open_word(s)[i],
            ) by {
                if i < w.len() {
                    assert(open_word(s)[i] == w[i]);
                }
            }
        }
    }
    assert forall|i: int| 0 <= i < words_of(s).len() implies is_word(
        #[trigger] words_of(s)[i],
    ) by {
        if i < closed_words(s).len() {
            assert(words_of(s)[i] == closed_words(s)[i]);
        }
    }
}

proof fn lemma_one_word(s: Seq<char>)
    requires
        forall|i: int| 0 <= i < s.len() ==> !is_white_space(#[trigger] s[i]),
    ensures
        open_word(s) == s,
        closed_words(s) == Seq::<Seq<char>>::empty(),
    decreases s.len(),
{
    if s.len() > 0 {
        assert forall|i: int| 0 <= i < s.drop_last().len() implies !is_white_space(
            #[trigger] s.drop_last()[i],
        ) by {
            assert(s.drop_last()[i] == s[i]);
        }
        lemma_one_word(s.drop_last());
        assert(!is_white_space(s[s.len() - 1]));
        assert(open_word(s) =~= s);
    }
}

/// Words joined by white space are the words of the whole.
pub proof fn lemma_words_joined(parts: Seq<Seq<char>>, gap: Seq<char>)
    requires
        all_white(gap),
        gap.len() > 0,
        forall|i: int| 0 <= i < parts.len() ==> is_word(#[trigger] parts[i]),
    ensures
        words_of(joined(parts, gap)) == parts,
    decreases parts.len(),
{
    if parts.len() == 0 {
        assert(words_of(joined(parts, gap)) =~= parts);
    } else {
        assert(is_word(parts[parts.len() - 1]));
        lemma_one_word(parts.last());
        assert(words_of(parts.last()) =~= seq![parts.last()]);
        if parts.len() == 1 {
            assert(parts =~= seq![parts.last()]);
        } else {
            assert forall|i: int| 0 <= i < parts.drop_last().len() implies is_word(
                #[trigger] parts.drop_last()[i],
            ) by {
                assert(parts.drop_last()[i] == parts[i]);
            }
            lemma_words_joined(parts.drop_last(), gap);
            lemma_words_apart(joined(parts.drop_last(), gap), gap, parts.last());
            assert(parts.drop_last() + seq![parts.last()] =~= parts);
        }
    }
}

/// The words of `s`.
pub fn words(s: &str) -> (r: Vec<String>)
    ensures
        texts(r@) == words_of(s@),
{
    let cs = chars_of(s);
    let mut out: Vec<String> = Vec::new();
    let mut cur = String::new();
    let mut i: usize = 0;
    assert(cs@.take(0) =~= Seq::<char>::empty());
    assert(texts(out@) =~= closed_words(cs@.take(0)));
    while i < cs.len()
        invariant
            i <= cs.len(),
            texts(out@) == closed_words(cs@.take(i as int)),
            cur@ == open_word(cs@.take(i as int)),
        decreases cs.len() - i,
    {
        assert(cs@.take(i + 1).drop_last() =~= cs@.take(i as int));
        proof {
            reveal_with_fuel(closed_words, 2);
            reveal_with_fuel(words_of, 2);
        }
        if white_space(cs[i]) {
            if !cur.as_str().is_empty() {
                let ghost before = texts(out@);
                out.push(cur);
                assert(texts(out@) =~= before.push(cur@));
                cur = String::new();
            }
        } else {
            cur.push(cs[i]);
        }
        i += 1;
    }
    assert(cs@.take(cs@.len() as int) =~= s@);
    if !cur.as_str().is_empty() {
        let ghost before = texts(out@);
        out.push(cur);
        assert(texts(out@) =~= before.push(cur@));
    }
    out
}

// ---------------------------------------------------------------------------
// Joining
// ---------------------------------------------------------------------------

/// The parts with `sep` between neighbours.
pub open spec fn joined(parts: Seq<Seq<char>>, sep: Seq<char>) -> Seq<char>
    decreases parts.len(),
{
    if parts.len() == 0 {
        Seq::empty()
    } else if parts.len() == 1 {
        parts[0]
    } else {
        joined(parts.drop_last(), sep) + sep + parts.last()
    }
}

/// One part stands alone, and every further one comes last, behind a separator.
pub proof fn lemma_joined_grows(parts: Seq<Seq<char>>, sep: Seq<char>, next: Seq<char>)
    ensures
        joined(Seq::empty(), sep) == Seq::<char>::empty(),
        joined(seq![next], sep) == next,
        parts.len() > 0 ==> joined(parts.push(next), sep) == joined(parts, sep) + sep + next,
{
    assert(parts.push(next).drop_last() =~= parts);
}

/// Every part can be found in what they are joined to.
pub proof fn lemma_joined_holds_every_part(parts: Seq<Seq<char>>, sep: Seq<char>, i: int)
    requires
        0 <= i < parts.len(),
    ensures
        has_infix(joined(parts, sep), parts[i]),
    decreases parts.len(),
{
    if parts.len() == 1 {
        lemma_infix_at_end(Seq::empty(), parts[0]);
        assert(Seq::<char>::empty() + parts[0] =~= parts[0]);
    } else if i == parts.len() - 1 {
        lemma_infix_at_end(joined(parts.drop_last(), sep) + sep, parts[i]);
    } else {
        let before = parts.drop_last();
        lemma_joined_holds_every_part(before, sep, i);
        lemma_infix_stays(joined(before, sep), parts[i], sep);
        lemma_infix_stays(joined(before, sep) + sep, parts[i], parts.last());
    }
}

/// The parts with `sep` between neighbours.
pub fn join(parts: &Vec<String>, sep: &str) -> (r: String)
    ensures
        r@ == joined(texts(parts@), sep@),
{
    let mut out = String::new();
    let mut i: usize = 0;
    assert(texts(parts@).take(0) =~= Seq::empty());
    while i < parts.len()
        invariant
            i <= parts.len(),
            out@ == joined(texts(parts@).take(i as int), sep@),
        decreases parts.len() - i,
    {
        let ghost now = texts(parts@).take(i + 1);
        assert(now.drop_last() =~= texts(parts@).take(i as int));
        assert(now.last() == parts@[i as int]@);
        if i > 0 {
            out.append(sep);
        }
        out.append(parts[i].as_str());
        if i == 0 {
            assert(out@ =~= now[0]);
        }
        i += 1;
    }
    assert(texts(parts@).take(parts@.len() as int) =~= texts(parts@));
    out
}

/// What follows the last separator is what stands behind a separator and holds none
/// itself; without a separator nothing does.
pub proof fn lemma_what_follows_the_last(before: Seq<char>, c: char, tail: Seq<char>)
    requires
        !tail.contains(c),
    ensures
        after_last(before.push(c) + tail, c) == Some(tail),
        after_last(tail, c) is None,
    decreases tail.len(),
{
    if tail.len() == 0 {
        assert(before.push(c) + tail =~= before.push(c));
        assert(tail =~= Seq::empty());
    } else {
        let short = tail.drop_last();
        assert(!short.contains(c)) by {
            if short.contains(c) {
                assert(tail[short.index_of(c)] == c);
            }
        }
        lemma_what_follows_the_last(before, c, short);
        assert((before.push(c) + tail).drop_last() =~= before.push(c) + short);
        assert(tail[tail.len() - 1] != c);
        assert(short.push(tail.last()) =~= tail);
    }
}

} // verus!
