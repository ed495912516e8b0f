//! Caller ids that are safe as file names.

use crate::text::{ascii_alphanumeric, chars_of, is_ascii_alphanumeric, join2};
use crate::trusted::{debug_form, debug_text};
use vstd::prelude::*;

verus! {

/// Letters, digits, `_` and `-`.
pub open spec fn is_token_char(c: char) -> bool {
    is_ascii_alphanumeric(c) || c == '_' || c == '-'
}

/// Whether every character of `s` is a letter, a digit, `_` or `-`.
pub open spec fn is_token(s: Seq<char>) -> bool {
    forall|i: int| 0 <= i < s.len() ==> is_token_char(#[trigger] s[i])
}

/// What is wrong with a caller id, if anything.
pub open spec fn caller_error(id: Seq<char>) -> Option<Seq<char>> {
    if id.len() == 0 {
        Some("missing caller_plugin_id"@)
    } else if !is_token(id) {
        Some("invalid caller_plugin_id: "@ + debug_text(id))
    } else {
        None
    }
}

/// Hands a caller id back where it is a plain file-name token.
pub fn check_caller_id(id: &str) -> (r: Result<&str, String>)
    ensures
        match r {
            Ok(s) => caller_error(id@) is None && s@ == id@,
            Err(e) => caller_error(id@) == Some(e@),
        },
        r is Ok <==> id@.len() > 0 && forall|i: int|
            0 <= i < id@.len() ==> ('a' <= #[trigger] id@[i] <= 'z' || 'A' <= id@[i] <= 'Z' || '0'
                <= id@[i] <= '9' || id@[i] == '_' || id@[i] == '-'),
        r matches Ok(s) ==> s@ == id@,
        id@.len() == 0 ==> r->Err_0@ == "missing caller_plugin_id"@,
{
    if id.is_empty() {
        return Err("missing caller_plugin_id".to_owned());
    }
    let cs = chars_of(id);
    let mut i: usize = 0;
    while i < cs.len()
        invariant
            i <= cs.len(),
            cs@ == id@,
            cs@.len() > 0,
            forall|j: int| 0 <= j < i ==> is_token_char(#[trigger] cs@[j]),
        decreases cs.len() - i,
    {
        let c: char = cs[i];
        if !(ascii_alphanumeric(c) || c == '_' || c == '-') {
            return Err(join2("invalid caller_plugin_id: ", debug_form(id).as_str()));
        }
        i += 1;
    }
    Ok(id)
}

/// An accepted caller id names a file in the data directory and nothing else:
/// it is not empty and holds neither a separator nor a dot, and two ids never
/// share a file.
pub proof fn lemma_caller_file_is_local(a: Seq<char>, b: Seq<char>, suffix: Seq<char>)
    requires
        caller_error(a) is None,
        caller_error(b) is None,
    ensures
        a.len() > 0,
        !a.contains('/'),
        !a.contains('\\'),
        !a.contains('.'),
        a + suffix == b + suffix ==> a == b,
{
    assert forall|c: char| a.contains(c) implies is_token_char(c) by {
        let i = a.index_of(c);
        assert(is_token_char(a[i]));
    }
    if a + suffix == b + suffix {
        assert((a + suffix).len() == (b + suffix).len());
        assert(a =~= (a + suffix).take(a.len() as int));
        assert(b =~= (b + suffix).take(b.len() as int));
    }
}

/// A caller id is accepted exactly where it is not empty and holds letters, digits, `_`
/// and `-` only.
pub proof fn lemma_which_callers_are_accepted(id: Seq<char>)
    ensures
        caller_error(id) is None <==> id.len() > 0 && forall|i: int|
            0 <= i < id.len() ==> ('a' <= #[trigger] id[i] <= 'z' || 'A' <= id[i] <= 'Z' || '0'
                <= id[i] <= '9' || id[i] == '_' || id[i] == '-'),
{
    if caller_error(id) is None {
        assert forall|i: int| 0 <= i < id.len() implies ('a' <= #[trigger] id[i] <= 'z' || 'A'
            <= id[i] <= 'Z' || '0' <= id[i] <= '9' || id[i] == '_' || id[i] == '-') by {
            assert(is_token_char(id[i]));
        }
    }
}

} // verus!
