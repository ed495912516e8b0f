//! JSON objects as text.

use crate::fields::{join, joined, lemma_joined_holds_every_part};
use crate::sorting::{sorted_keys, sorted_names};
use crate::strmap::StrMap;
use crate::text::{
    has_infix, join2, join3, lemma_infix_inside, lemma_infix_stays, outcome_view, texts,
};
use crate::trusted::{debug_form, debug_text, json_quote, json_quoted, json_reading, json_reread};
use vstd::prelude::*;

verus! {

/// Members, each a name with the JSON text of its value, as the inside of an
/// object.
pub open spec fn members_text(names: Seq<Seq<char>>, m: Map<Seq<char>, Seq<char>>) -> Seq<char> {
    joined(Seq::new(names.len(), |i: int| json_quoted(names[i]) + ":"@ + m[names[i]]), ","@)
}

/// Whether `t` is the object with these members, in the order of their names.
pub open spec fn is_object_text(m: Map<Seq<char>, Seq<char>>, t: Seq<char>) -> bool {
    exists|names: Seq<Seq<char>>| #[trigger]
        sorted_names(names, m.dom()) && t == "{"@ + members_text(names, m) + "}"@
}

/// Values as texts.
pub open spec fn value_texts(m: Map<Seq<char>, String>) -> Map<Seq<char>, Seq<char>> {
    m.map_values(|v: String| v@)
}

/// The object with these members, in the order of their names.
pub fn object_json(m: &StrMap<String>) -> (r: String)
    ensures
        is_object_text(value_texts(m@), r@),
{
    let names = sorted_keys(m);
    let ghost listed = texts(names@);
    let ghost view = value_texts(m@);
    let mut parts: Vec<String> = Vec::new();
    let mut i: usize = 0;
    while i < names.len()
        invariant
            i <= names.len(),
            listed == texts(names@),
            view == value_texts(m@),
            sorted_names(listed, m@.dom()),
            parts@.len() == i,
            forall|j: int|
                0 <= j < i ==> (#[trigger] parts@[j])@ == json_quoted(listed[j]) + ":"@
                    + view[listed[j]],
        decreases names.len() - i,
    {
        let key = names[i].as_str();
        assert(listed.to_set().contains(listed[i as int]));
        assert(m@.dom().contains(key@));
        if let Some(value) = m.get(key) {
            parts.push(join3(json_quote(key).as_str(), ":", value.as_str()));
        }
        i += 1;
    }
    proof {
        assert(texts(parts@) =~= Seq::new(
            listed.len(),
            |i: int| json_quoted(listed[i]) + ":"@ + view[listed[i]],
        ));
        assert(view.dom() =~= m@.dom());
        assert(sorted_names(listed, view.dom()));
    }
    let r = join3("{", join(&parts, ",").as_str(), "}");
    assert(r@ == "{"@ + members_text(listed, view) + "}"@);
    r
}

/// Texts as JSON strings.
pub open spec fn quoted_texts(m: Map<Seq<char>, String>) -> Map<Seq<char>, Seq<char>> {
    m.map_values(|v: String| json_quoted(v@))
}

/// The object with these texts as members, in the order of their names.
pub fn text_object_json(m: &StrMap<String>) -> (r: String)
    ensures
        is_object_text(quoted_texts(m@), r@),
{
    let names = sorted_keys(m);
    let ghost listed = texts(names@);
    let ghost view = quoted_texts(m@);
    let mut parts: Vec<String> = Vec::new();
    let mut i: usize = 0;
    while i < names.len()
        invariant
            i <= names.len(),
            listed == texts(names@),
            view == quoted_texts(m@),
            sorted_names(listed, m@.dom()),
            parts@.len() == i,
            forall|j: int|
                0 <= j < i ==> (#[trigger] parts@[j])@ == json_quoted(listed[j]) + ":"@
                    + view[listed[j]],
        decreases names.len() - i,
    {
        let key = names[i].as_str();
        assert(listed.to_set().contains(listed[i as int]));
        assert(m@.dom().contains(key@));
        if let Some(value) = m.get(key) {
            parts.push(join3(json_quote(key).as_str(), ":", json_quote(value.as_str()).as_str()));
        }
        i += 1;
    }
    proof {
        assert(texts(parts@) =~= Seq::new(
            listed.len(),
            |i: int| json_quoted(listed[i]) + ":"@ + view[listed[i]],
        ));
        assert(view.dom() =~= m@.dom());
        assert(sorted_names(listed, view.dom()));
    }
    let r = join3("{", join(&parts, ",").as_str(), "}");
    assert(r@ == "{"@ + members_text(listed, view) + "}"@);
    r
}

/// One object text stands for one set of members only in one way: the text is
/// fixed by the members.
pub proof fn lemma_object_text_unique(m: Map<Seq<char>, Seq<char>>, a: Seq<char>, b: Seq<char>)
    requires
        is_object_text(m, a),
        is_object_text(m, b),
    ensures
        a == b,
{
    let na = choose|names: Seq<Seq<char>>| #[trigger]
        sorted_names(names, m.dom()) && a == "{"@ + members_text(names, m) + "}"@;
    let nb = choose|names: Seq<Seq<char>>| #[trigger]
        sorted_names(names, m.dom()) && b == "{"@ + members_text(names, m) + "}"@;
    crate::sorting::lemma_sorted_names_unique(na, nb, m.dom());
}

/// JSON texts as an array.
pub open spec fn array_text(items: Seq<Seq<char>>) -> Seq<char> {
    "["@ + joined(items, ","@) + "]"@
}

/// JSON texts as an array.
pub fn array_json(items: &Vec<String>) -> (r: String)
    ensures
        r@ == array_text(texts(items@)),
        r@ == "["@ + joined(texts(items@), ","@) + "]"@,
{
    join3("[", join(items, ",").as_str(), "]")
}

/// The stored value under a key, or the complaint that it is not JSON, given
/// what the parser makes of the stored text.
pub open spec fn stored_given(key: Seq<char>, reading: Result<Seq<char>, Seq<char>>) -> Result<
    Seq<char>,
    Seq<char>,
> {
    match reading {
        Ok(v) => Ok(v),
        Err(e) => Err("corrupt stored value for key "@ + debug_text(key) + ": "@ + e),
    }
}

/// The stored value under a key, or the complaint that it is not JSON.
pub open spec fn stored_value(key: Seq<char>, raw: Seq<char>) -> Result<Seq<char>, Seq<char>> {
    stored_given(key, json_reading(raw))
}

/// Reads the stored value under a key.
pub fn read_stored(key: &str, raw: &str) -> (r: Result<String, String>)
    ensures
        outcome_view(r) == stored_value(key@, raw@),
{
    stored_reading(key, json_reread(raw))
}

/// The reply to a read, given the stored value if there is one.
pub open spec fn found_text(value: Option<Result<Seq<char>, Seq<char>>>) -> Result<
    Seq<char>,
    Seq<char>,
> {
    match value {
        Some(Ok(v)) => Ok("{\"found\":true,\"value\":"@ + v + "}"@),
        Some(Err(e)) => Err(e),
        None => Ok("{\"found\":false,\"value\":null}"@),
    }
}

/// A stored value that was read, by its contents.
pub open spec fn read_value(value: Option<Result<String, String>>) -> Option<
    Result<Seq<char>, Seq<char>>,
> {
    match value {
        Some(v) => Some(outcome_view(v)),
        None => None,
    }
}

/// The reply to a read, given the stored value if there is one.
pub fn found_reply(value: Option<Result<String, String>>) -> (r: Result<String, String>)
    ensures
        outcome_view(r) == found_text(read_value(value)),
        value is None ==> r is Ok && r->Ok_0@ == "{\"found\":false,\"value\":null}"@,
        value matches Some(Err(e)) ==> r is Err && r->Err_0@ == e@,
        value matches Some(Ok(v)) ==> r is Ok && r->Ok_0@ == "{\"found\":true,\"value\":"@ + v@
            + "}"@,
{
    match value {
        Some(Ok(v)) => Ok(join3("{\"found\":true,\"value\":", v.as_str(), "}")),
        Some(Err(e)) => Err(e),
        None => Ok("{\"found\":false,\"value\":null}".to_owned()),
    }
}

/// The stored value under a key, given what the parser makes of the stored
/// text.
pub fn stored_reading(key: &str, reading: Result<String, String>) -> (r: Result<String, String>)
    ensures
        outcome_view(r) == stored_given(key@, outcome_view(reading)),
        reading matches Ok(v) ==> r is Ok && r->Ok_0@ == v@,
        reading matches Err(e) ==> r is Err && r->Err_0@ == "corrupt stored value for key "@
            + debug_text(key@) + ": "@ + e@,
{
    match reading {
        Ok(v) => Ok(v),
        Err(e) => {
            let mut m = join2("corrupt stored value for key ", debug_form(key).as_str());
            m.append(": ");
            m.append(e.as_str());
            Err(m)
        },
    }
}

/// An object stands in braces and holds every member, its name in front of its value.
pub proof fn lemma_an_object_holds_its_members(
    m: Map<Seq<char>, Seq<char>>,
    t: Seq<char>,
    name: Seq<char>,
)
    requires
        is_object_text(m, t),
        m.dom().contains(name),
    ensures
        has_infix(t, json_quoted(name) + ":"@ + m[name]),
        exists|inside: Seq<char>| t == "{"@ + inside + "}"@,
{
    let names = choose|names: Seq<Seq<char>>| #[trigger]
        sorted_names(names, m.dom()) && t == "{"@ + members_text(names, m) + "}"@;
    assert(names.to_set().contains(name));
    let i = names.index_of(name);
    let parts = Seq::new(names.len(), |i: int| json_quoted(names[i]) + ":"@ + m[names[i]]);
    let pat = json_quoted(name) + ":"@ + m[name];
    assert(parts[i] == pat);
    lemma_joined_holds_every_part(parts, ","@, i);
    lemma_infix_inside("{"@, joined(parts, ","@), pat);
    lemma_infix_stays("{"@ + joined(parts, ","@), pat, "}"@);
    assert(t == "{"@ + members_text(names, m) + "}"@);
}

/// An array stands in brackets and holds every item.
pub proof fn lemma_an_array_holds_its_items(items: Seq<Seq<char>>, i: int)
    requires
        0 <= i < items.len(),
    ensures
        has_infix(array_text(items), items[i]),
        array_text(Seq::empty()) == "["@ + Seq::empty() + "]"@,
        array_text(seq![items[i]]) == "["@ + items[i] + "]"@,
{
    lemma_joined_holds_every_part(items, ","@, i);
    lemma_infix_inside("["@, joined(items, ","@), items[i]);
    lemma_infix_stays("["@ + joined(items, ","@), items[i], "]"@);
}

/// A read that finds a value hands it over, one that finds none says so, and a value that
/// is not JSON is reported under its key.
pub proof fn lemma_what_a_read_gives(
    key: Seq<char>,
    reading: Result<Seq<char>, Seq<char>>,
    v: Seq<char>,
)
    ensures
        found_text(None) == Ok::<Seq<char>, Seq<char>>("{\"found\":false,\"value\":null}"@),
        found_text(Some(Ok(v))) == Ok::<Seq<char>, Seq<char>>(
            "{\"found\":true,\"value\":"@ + v + "}"@,
        ),
        found_text(Some(Err(v))) == Err::<Seq<char>, Seq<char>>(v),
        reading matches Ok(read) ==> stored_given(key, reading) == Ok::<Seq<char>, Seq<char>>(read),
        reading matches Err(e) ==> stored_given(key, reading) == Err::<Seq<char>, Seq<char>>(
            "corrupt stored value for key "@ + debug_text(key) + ": "@ + e,
        ),
{
}

/// Members stand in the order of their names, a comma between them.
pub proof fn lemma_how_members_are_joined(
    a: Seq<char>,
    b: Seq<char>,
    m: Map<Seq<char>, Seq<char>>,
)
    ensures
        members_text(seq![a], m) == json_quoted(a) + ":"@ + m[a],
        members_text(seq![a, b], m) == (json_quoted(a) + ":"@ + m[a]) + ","@ + (json_quoted(b)
            + ":"@ + m[b]),
{
    let one = seq![a];
    let two = seq![a, b];
    let first = Seq::new(one.len(), |i: int| json_quoted(one[i]) + ":"@ + m[one[i]]);
    let parts = Seq::new(two.len(), |i: int| json_quoted(two[i]) + ":"@ + m[two[i]]);
    reveal_with_fuel(joined, 2);
    assert(first.len() == 1);
    assert(parts.drop_last() =~= first);
}

} // verus!
