//! Numbers in operator settings.

use crate::number::{decimal, lemma_what_counts_as_a_number, number_up_to, parse_up_to};
use crate::fields::{trim, trimmed};
use crate::text::opt_text;
use vstd::prelude::*;

verus! {

/// The number in a setting, `default` where it is unset or no number.
pub open spec fn setting(value: Option<String>, max: nat, default: nat) -> nat {
    match value {
        Some(s) => match number_up_to(s@, max) {
            Some(n) => n,
            None => default,
        },
        None => default,
    }
}

/// The number in a setting, `default` where it is unset or no number.
pub fn read_setting(value: &Option<String>, max: u64, default: u64) -> (r: u64)
    ensures
        r == setting(*value, max as nat, default as nat),
        value is None ==> r == default,
{
    match value {
        Some(s) => match parse_up_to(s.as_str(), max) {
            Some(n) => n,
            None => default,
        },
        None => default,
    }
}

/// What a setting that must be above zero stands for: the number that it writes
/// down, blanks around it aside, or `default` where it is unset, no number,
/// above `max` or zero.
pub open spec fn positive_setting(value: Option<String>, max: nat, default: nat) -> nat {
    match value {
        Some(s) => match number_up_to(trimmed(s@), max) {
            Some(n) => if n > 0 {
                n
            } else {
                default
            },
            None => default,
        },
        None => default,
    }
}

/// Reads a setting that must be above zero.
pub fn read_positive(value: &Option<String>, max: u64, default: u64) -> (r: u64)
    ensures
        r == positive_setting(*value, max as nat, default as nat),
        value is None ==> r == default,
        default > 0 ==> r > 0,
{
    match value {
        Some(s) => match parse_up_to(trim(s.as_str()).as_str(), max) {
            Some(n) => if n > 0 {
                n
            } else {
                default
            },
            None => default,
        },
        None => default,
    }
}

/// The text of a setting, blanks around it aside; a blank one counts as unset.
pub open spec fn text_setting(value: Option<String>) -> Option<Seq<char>> {
    match value {
        Some(s) => if trimmed(s@).len() > 0 {
            Some(trimmed(s@))
        } else {
            None
        },
        None => None,
    }
}

/// Reads the text of a setting.
pub fn read_text(value: &Option<String>) -> (r: Option<String>)
    ensures
        opt_text(r) == text_setting(*value),
        value is None ==> r is None,
        value is Some ==> (r is Some <==> trimmed(value->0@).len() > 0),
        r matches Some(t) ==> t@ == trimmed(value->0@),
{
    match value {
        Some(s) => {
            let t = trim(s.as_str());
            if t.as_str().is_empty() {
                None
            } else {
                Some(t)
            }
        },
        None => None,
    }
}

/// A setting that writes down a number in range stands for it, zero aside where it must
/// be above zero; in every other case the default is taken.
pub proof fn lemma_what_a_setting_stands_for(value: String, n: nat, max: nat, default: nat)
    ensures
        setting(None, max, default) == default,
        value@ == decimal(n) && n <= max ==> setting(Some(value), max, default) == n,
        value@ == decimal(n) && n > max ==> setting(Some(value), max, default) == default,
        value@.len() == 0 ==> setting(Some(value), max, default) == default,
        positive_setting(None, max, default) == default,
        trimmed(value@) == decimal(n) && 0 < n <= max ==> positive_setting(
            Some(value),
            max,
            default,
        ) == n,
        trimmed(value@) == decimal(n) && (n == 0 || n > max) ==> positive_setting(
            Some(value),
            max,
            default,
        ) == default,
        trimmed(value@).len() == 0 ==> positive_setting(Some(value), max, default) == default,
        text_setting(None) is None,
        trimmed(value@).len() == 0 ==> text_setting(Some(value)) is None,
        trimmed(value@).len() > 0 ==> text_setting(Some(value)) == Some(trimmed(value@)),
{
    lemma_what_counts_as_a_number(n, max, value@, 0);
    if value@.len() == 0 {
        assert(value@ =~= Seq::empty());
    }
    if trimmed(value@).len() == 0 {
        assert(trimmed(value@) =~= Seq::empty());
    }
}

} // verus!
