//! Session cookies: reading `Set-Cookie`, writing `Cookie`.

use crate::fields::{
    before_first, head_before, join, joined, lemma_cut_at_first, lemma_joined_grows,
    lemma_trimmed_is_what_is_between, split_once, split_once_at, trim, trimmed,
};
use crate::text::{chars_of, control, is_control, is_white_space, join3, texts};
use vstd::prelude::*;

verus! {

/// Text without its control characters.
pub open spec fn without_controls(s: Seq<char>) -> Seq<char>
    decreases s.len(),
{
    if s.len() == 0 {
        Seq::empty()
    } else if is_control(s.last()) {
        without_controls(s.drop_last())
    } else {
        without_controls(s.drop_last()).push(s.last())
    }
}

/// Nothing that could frame a header is left.
pub proof fn lemma_without_controls(s: Seq<char>)
    ensures
        forall|i: int|
            0 <= i < without_controls(s).len() ==> !is_control(#[trigger] without_controls(s)[i]),
    decreases s.len(),
{
    if s.len() > 0 {
        lemma_without_controls(s.drop_last());
        let before = without_controls(s.drop_last());
        let all = without_controls(s);
        assert forall|i: int| 0 <= i < all.len() implies !is_control(#[trigger] all[i]) by {
            if i < before.len() {
            }
        }
    }
}

/// Text without control characters stays as it is.
pub proof fn lemma_nothing_to_strip(s: Seq<char>)
    requires
        forall|i: int| 0 <= i < s.len() ==> !is_control(#[trigger] s[i]),
    ensures
        without_controls(s) == s,
    decreases s.len(),
{
    if s.len() > 0 {
        lemma_nothing_to_strip(s.drop_last());
        assert(s.drop_last().push(s.last()) =~= s);
    }
}

/// Computes [`without_controls`].
fn strip_controls(s: &str) -> (r: String)
    ensures
        r@ == without_controls(s@),
{
    let cs = chars_of(s);
    let mut out = String::new();
    let mut i: usize = 0;
    assert(cs@.take(0) =~= Seq::<char>::empty());
    while i < cs.len()
        invariant
            i <= cs.len(),
            out@ == without_controls(cs@.take(i as int)),
        decreases cs.len() - i,
    {
        assert(cs@.take(i + 1).drop_last() =~= cs@.take(i as int));
        if !control(cs[i]) {
            out.push(cs[i]);
        }
        i += 1;
    }
    assert(cs@.take(cs@.len() as int) =~= cs@);
    out
}

/// The cookie that a `Set-Cookie` header sets: the pair before the first `;`,
/// cut at its first `=`, both sides trimmed and without control characters.
/// None where there is no `=` or no name.
pub open spec fn cookie_of(header: Seq<char>) -> Option<(Seq<char>, Seq<char>)> {
    match split_once_at(trimmed(before_first(header, ';')), '=') {
        None => None,
        Some((name, value)) => if trimmed(name).len() == 0 {
            None
        } else {
            Some((without_controls(trimmed(name)), without_controls(trimmed(value))))
        },
    }
}

/// Whether a text can be the name or the value of a cookie as it is: no control
/// characters in it, no white space around it, and no semicolon.
pub open spec fn plain_text(s: Seq<char>) -> bool {
    &&& forall|i: int| 0 <= i < s.len() ==> !is_control(#[trigger] s[i])
    &&& s.len() > 0 ==> !is_white_space(s[0]) && !is_white_space(s.last())
    &&& !s.contains(';')
}

/// A header `name=value`, with or without attributes behind a semicolon, sets the
/// cookie `name` to `value`; only the first `=` separates the two.
pub proof fn lemma_what_a_header_sets(name: Seq<char>, value: Seq<char>, attributes: Seq<char>)
    requires
        plain_text(name),
        name.len() > 0,
        !name.contains('='),
        plain_text(value),
    ensures
        cookie_of(name.push('=') + value) == Some((name, value)),
        cookie_of((name.push('=') + value).push(';') + attributes) == Some((name, value)),
        cookie_of(name) is None,
{
    let pair = name.push('=') + value;
    let none = Seq::<char>::empty();
    assert forall|i: int| 0 <= i < pair.len() implies pair[i] != ';' by {
        if i < name.len() {
            assert(name.contains(name[i]));
        } else if i > name.len() {
            assert(value.contains(value[i - name.len() - 1]));
        }
    }
    assert(!pair.contains(';'));
    assert(!is_white_space('='));
    assert(pair.last() == if value.len() > 0 { value.last() } else { '=' });
    lemma_cut_at_first(pair, ';', attributes);
    lemma_cut_at_first(name, ';', attributes);
    lemma_trimmed_is_what_is_between(none, pair, none);
    assert(none + pair + none =~= pair);
    lemma_cut_at_first(name, '=', value);
    lemma_trimmed_is_what_is_between(none, name, none);
    assert(none + name + none =~= name);
    lemma_trimmed_is_what_is_between(none, value, none);
    assert(none + value + none =~= value);
    lemma_nothing_to_strip(name);
    lemma_nothing_to_strip(value);
}

/// A pair of texts by its contents.
pub open spec fn pair_view(p: (String, String)) -> (Seq<char>, Seq<char>) {
    (p.0@, p.1@)
}

/// Pairs of texts by their contents.
pub open spec fn pairs_view(v: Seq<(String, String)>) -> Seq<(Seq<char>, Seq<char>)> {
    Seq::new(v.len(), |i: int| pair_view(v[i]))
}

/// The cookie that a `Set-Cookie` header sets.
pub fn parse_set_cookie(header: &str) -> (r: Option<(String, String)>)
    ensures
        match r {
            Some(p) => cookie_of(header@) == Some(pair_view(p)),
            None => cookie_of(header@) is None,
        },
{
    let pair = trim(head_before(header, ';').as_str());
    match split_once(pair.as_str(), '=') {
        None => None,
        Some((name, value)) => {
            let name = trim(name.as_str());
            if name.as_str().is_empty() {
                return None;
            }
            Some((strip_controls(name.as_str()), strip_controls(trim(value.as_str()).as_str())))
        },
    }
}

/// The cookies that a list of `Set-Cookie` headers sets, in order.
pub open spec fn cookies_of(headers: Seq<Seq<char>>) -> Seq<(Seq<char>, Seq<char>)>
    decreases headers.len(),
{
    if headers.len() == 0 {
        Seq::empty()
    } else {
        match cookie_of(headers.last()) {
            Some(p) => cookies_of(headers.drop_last()).push(p),
            None => cookies_of(headers.drop_last()),
        }
    }
}

/// The cookies that `headers` set, malformed headers left out.
pub fn collect_cookies(headers: &Vec<String>) -> (r: Vec<(String, String)>)
    ensures
        pairs_view(r@) == cookies_of(texts(headers@)),
{
    let mut out: Vec<(String, String)> = Vec::new();
    let mut i: usize = 0;
    assert(texts(headers@).take(0) =~= Seq::empty());
    assert(pairs_view(out@) =~= Seq::empty());
    while i < headers.len()
        invariant
            i <= headers.len(),
            pairs_view(out@) == cookies_of(texts(headers@).take(i as int)),
        decreases headers.len() - i,
    {
        assert(texts(headers@).take(i + 1).drop_last() =~= texts(headers@).take(i as int));
        let ghost before = pairs_view(out@);
        if let Some(p) = parse_set_cookie(headers[i].as_str()) {
            let ghost pv = pair_view(p);
            out.push(p);
            assert(pairs_view(out@) =~= before.push(pv));
        }
        i += 1;
    }
    assert(texts(headers@).take(headers@.len() as int) =~= texts(headers@));
    out
}

/// Each cookie as `name=value`.
pub open spec fn cookie_items(cookies: Seq<(Seq<char>, Seq<char>)>) -> Seq<Seq<char>> {
    Seq::new(cookies.len(), |i: int| cookies[i].0 + "="@ + cookies[i].1)
}

/// The `Cookie` header for a jar: `name=value; name2=value2`.
pub open spec fn cookie_line(cookies: Seq<(Seq<char>, Seq<char>)>) -> Option<Seq<char>> {
    if cookies.len() == 0 {
        None
    } else {
        Some(joined(cookie_items(cookies), "; "@))
    }
}

/// A jar is sent as `name=value` for each of its cookies, in order: the first stands
/// alone, every further one behind a semicolon and a blank.
pub proof fn lemma_how_a_jar_is_sent(
    cookies: Seq<(Seq<char>, Seq<char>)>,
    name: Seq<char>,
    value: Seq<char>,
)
    ensures
        cookie_line(cookies) is None <==> cookies.len() == 0,
        cookie_line(seq![(name, value)]) == Some(name + "="@ + value),
        cookies.len() > 0 ==> cookie_line(cookies.push((name, value))) == Some(
            cookie_line(cookies)->0 + "; "@ + name + "="@ + value,
        ),
{
    let item = name + "="@ + value;
    let items = cookie_items(cookies);
    lemma_joined_grows(items, "; "@, item);
    assert(cookie_items(seq![(name, value)]) =~= seq![item]);
    assert(cookie_items(cookies.push((name, value))) =~= items.push(item));
    assert(joined(items, "; "@) + "; "@ + item =~= joined(items, "; "@) + "; "@ + name + "="@
        + value);
}

/// Every header that sets a cookie adds it, in order; others add nothing.
pub proof fn lemma_cookies_add_up(headers: Seq<Seq<char>>, header: Seq<char>)
    ensures
        cookies_of(Seq::empty()) == Seq::<(Seq<char>, Seq<char>)>::empty(),
        cookie_of(header) matches Some(p) ==> cookies_of(headers.push(header)) == cookies_of(
            headers,
        ).push(p),
        cookie_of(header) is None ==> cookies_of(headers.push(header)) == cookies_of(headers),
{
    assert(headers.push(header).drop_last() =~= headers);
}

/// The `Cookie` header for a jar; none for an empty jar.
pub fn cookie_header(cookies: &Vec<(String, String)>) -> (r: Option<String>)
    ensures
        crate::text::opt_text(r) == cookie_line(pairs_view(cookies@)),
{
    if cookies.len() == 0 {
        return None;
    }
    let mut items: Vec<String> = Vec::new();
    let mut i: usize = 0;
    while i < cookies.len()
        invariant
            i <= cookies.len(),
            items@.len() == i,
            forall|j: int|
                0 <= j < i ==> (#[trigger] items@[j])@ == cookie_items(pairs_view(cookies@))[j],
        decreases cookies.len() - i,
    {
        let item = join3(cookies[i].0.as_str(), "=", cookies[i].1.as_str());
        items.push(item);
        i += 1;
    }
    assert(texts(items@) =~= cookie_items(pairs_view(cookies@)));
    Some(join(&items, "; "))
}

} // verus!
