//! The `secrets` plugin: named secrets per caller, kept in encrypted vaults.

use crate::caller::{caller_error, check_caller_id};
use crate::fields::{join, joined};
use crate::number::{dec, decimal};
use crate::settings::{read_setting, setting};
use crate::sorting::{sorted_keys, sorted_names};
use crate::strmap::StrMap;
use crate::text::{
    ascii_alphanumeric, byte_count, byte_len, chars_of, is_ascii_alphanumeric, join2, join3, same,
    texts,
};
use crate::trusted::{debug_form, debug_text, json_quote, json_quoted};
use vstd::prelude::*;

verus! {

pub const DEFAULT_MAX_NAME_BYTES: usize = 256;

pub const DEFAULT_MAX_VALUE_BYTES: usize = 262_144;

/// Parameters of `secret_set`.
#[derive(Debug, PartialEq, Eq)]
pub struct SetParams {
    pub name: String,
    pub value: String,
}

/// Parameters of `secret_get`.
#[derive(Debug, PartialEq, Eq)]
pub struct GetParams {
    pub name: String,
}

/// Parameters of `secret_delete`.
#[derive(Debug, PartialEq, Eq)]
pub struct DeleteParams {
    pub name: String,
}

/// The caps on names and values.
#[derive(Debug, Clone, Copy, PartialEq, Eq, Structural)]
pub struct Limits {
    pub max_name_bytes: usize,
    pub max_value_bytes: usize,
}

impl Limits {
    /// The caps from the values of `SECRETS_PLUGIN_MAX_NAME_BYTES` and
    /// `SECRETS_PLUGIN_MAX_VALUE_BYTES`.
    pub fn from_env(max_name_bytes: &Option<String>, max_value_bytes: &Option<String>) -> (r: Limits)
        ensures
            r.max_name_bytes == setting(
                *max_name_bytes,
                usize::MAX as nat,
                DEFAULT_MAX_NAME_BYTES as nat,
            ),
            r.max_value_bytes == setting(
                *max_value_bytes,
                usize::MAX as nat,
                DEFAULT_MAX_VALUE_BYTES as nat,
            ),
    {
        let name: u64 = read_setting(
            max_name_bytes,
            usize::MAX as u64,
            DEFAULT_MAX_NAME_BYTES as u64,
        );
        let value: u64 = read_setting(
            max_value_bytes,
            usize::MAX as u64,
            DEFAULT_MAX_VALUE_BYTES as u64,
        );
        Limits { max_name_bytes: name as usize, max_value_bytes: value as usize }
    }
}

/// Hands a caller id back where it is safe as a file name.
pub fn sanitize_caller_id(caller_plugin_id: &str) -> (r: Result<&str, String>)
    ensures
        match r {
            Ok(s) => caller_error(caller_plugin_id@) is None && s@ == caller_plugin_id@,
            Err(e) => caller_error(caller_plugin_id@) == Some(e@),
        },
{
    check_caller_id(caller_plugin_id)
}

/// The file that holds the vault of a caller.
pub fn vault_file(caller_plugin_id: &str) -> (r: Result<String, String>)
    ensures
        match r {
            Ok(s) => caller_error(caller_plugin_id@) is None && s@ == caller_plugin_id@
                + ".vault"@,
            Err(e) => caller_error(caller_plugin_id@) == Some(e@),
        },
{
    match sanitize_caller_id(caller_plugin_id) {
        Ok(id) => Ok(join2(id, ".vault")),
        Err(e) => Err(e),
    }
}

// ---------------------------------------------------------------------------
// Names and parameters
// ---------------------------------------------------------------------------

/// Letters, digits, `_`, `.` and `-`.
pub open spec fn is_name_char(c: char) -> bool {
    is_ascii_alphanumeric(c) || c == '_' || c == '.' || c == '-'
}

/// What is wrong with the name of a secret, if anything.
pub open spec fn name_error(name: Seq<char>, max_name_bytes: nat) -> Option<Seq<char>> {
    if name.len() == 0 {
        Some("missing secret name"@)
    } else if byte_len(name) > max_name_bytes {
        Some(
            "secret name too long: "@ + decimal(byte_len(name)) + " bytes (max "@ + decimal(
                max_name_bytes,
            ) + ")"@,
        )
    } else if exists|i: int| 0 <= i < name.len() && !is_name_char(#[trigger] name[i]) {
        Some("invalid secret name: "@ + debug_text(name))
    } else {
        None
    }
}

/// A name is good exactly where it is not empty, inside the cap, and made of ASCII
/// letters, digits, `_`, `.` and `-`.
pub proof fn lemma_which_names_are_good(name: Seq<char>, max_name_bytes: nat)
    ensures
        name_error(name, max_name_bytes) is None <==> {
            &&& name.len() > 0
            &&& byte_len(name) <= max_name_bytes
            &&& forall|i: int|
                0 <= i < name.len() ==> {
                    let c = #[trigger] name[i];
                    'a' <= c <= 'z' || 'A' <= c <= 'Z' || '0' <= c <= '9' || c == '_' || c == '.'
                        || c == '-'
                }
        },
{
    if name_error(name, max_name_bytes) is None {
        assert forall|i: int| 0 <= i < name.len() implies is_name_char(#[trigger] name[i]) by {}
    }
}

/// Checks the name of a secret.
pub fn valid_name(name: &str, max_name_bytes: usize) -> (r: Result<(), String>)
    ensures
        match r {
            Ok(_) => name_error(name@, max_name_bytes as nat) is None,
            Err(e) => name_error(name@, max_name_bytes as nat) == Some(e@),
        },
{
    if name.is_empty() {
        return Err("missing secret name".to_owned());
    }
    let n: usize = byte_count(name);
    if n > max_name_bytes {
        let mut e = "secret name too long: ".to_owned();
        e.append(dec(n as u64).as_str());
        e.append(" bytes (max ");
        e.append(dec(max_name_bytes as u64).as_str());
        e.append(")");
        return Err(e);
    }
    let cs = chars_of(name);
    let mut i: usize = 0;
    while i < cs.len()
        invariant
            i <= cs.len(),
            cs@ == name@,
            cs@.len() > 0,
            byte_len(name@) <= max_name_bytes,
            forall|j: int| 0 <= j < i ==> is_name_char(#[trigger] cs@[j]),
        decreases cs.len() - i,
    {
        let c: char = cs[i];
        if !(ascii_alphanumeric(c) || c == '_' || c == '.' || c == '-') {
            return Err(join2("invalid secret name: ", debug_form(name).as_str()));
        }
        i += 1;
    }
    Ok(())
}

/// What is wrong with decoded `secret_set` parameters, if anything.
pub open spec fn value_error(value: Seq<char>, max_value_bytes: nat) -> Option<Seq<char>> {
    if byte_len(value) > max_value_bytes {
        Some(
            "secret value too large: "@ + decimal(byte_len(value)) + " bytes (max "@ + decimal(
                max_value_bytes,
            ) + ")"@,
        )
    } else {
        None
    }
}

/// Checks decoded `secret_set` parameters.
pub fn parse_set_params(parsed: Result<SetParams, String>, max_value_bytes: usize) -> (r: Result<
    SetParams,
    String,
>)
    ensures
        match (parsed, r) {
            (Err(e), Err(m)) => m@ == "invalid params: "@ + e@,
            (Err(_), Ok(_)) => false,
            (Ok(p), Err(m)) => value_error(p.value@, max_value_bytes as nat) == Some(m@),
            (Ok(p), Ok(q)) => value_error(p.value@, max_value_bytes as nat) is None && q == p,
        },
{
    match parsed {
        Err(e) => Err(join2("invalid params: ", e.as_str())),
        Ok(p) => {
            let n: usize = byte_count(p.value.as_str());
            if n > max_value_bytes {
                let mut e = "secret value too large: ".to_owned();
                e.append(dec(n as u64).as_str());
                e.append(" bytes (max ");
                e.append(dec(max_value_bytes as u64).as_str());
                e.append(")");
                return Err(e);
            }
            Ok(p)
        },
    }
}

/// Checks decoded `secret_get` parameters.
pub fn parse_get_params(parsed: Result<GetParams, String>) -> (r: Result<GetParams, String>)
    ensures
        match (parsed, r) {
            (Err(e), Err(m)) => m@ == "invalid params: "@ + e@,
            (Ok(p), Ok(q)) => q == p,
            _ => false,
        },
{
    match parsed {
        Err(e) => Err(join2("invalid params: ", e.as_str())),
        Ok(p) => Ok(p),
    }
}

/// Checks decoded `secret_delete` parameters.
pub fn parse_delete_params(parsed: Result<DeleteParams, String>) -> (r: Result<
    DeleteParams,
    String,
>)
    ensures
        match (parsed, r) {
            (Err(e), Err(m)) => m@ == "invalid params: "@ + e@,
            (Ok(p), Ok(q)) => q == p,
            _ => false,
        },
{
    match parsed {
        Err(e) => Err(join2("invalid params: ", e.as_str())),
        Ok(p) => Ok(p),
    }
}

// ---------------------------------------------------------------------------
// Actions
// ---------------------------------------------------------------------------

/// The action that a request names.
#[derive(Debug, Clone, Copy, PartialEq, Eq, Structural)]
pub enum SecretsAction {
    Store,
    Fetch,
    Delete,
    List,
}

/// The action of that name; none where nobody serves it.
pub open spec fn action_named(action: Seq<char>) -> Option<SecretsAction> {
    if action == "secret_set"@ {
        Some(SecretsAction::Store)
    } else if action == "secret_get"@ {
        Some(SecretsAction::Fetch)
    } else if action == "secret_delete"@ {
        Some(SecretsAction::Delete)
    } else if action == "secret_list"@ {
        Some(SecretsAction::List)
    } else {
        None
    }
}

/// Every action does what its name says.
pub proof fn lemma_what_each_action_does(action: Seq<char>)
    ensures
        action == "secret_set"@ <==> action_named(action) == Some(SecretsAction::Store),
        action == "secret_get"@ <==> action_named(action) == Some(SecretsAction::Fetch),
        action == "secret_delete"@ <==> action_named(action) == Some(SecretsAction::Delete),
        action == "secret_list"@ <==> action_named(action) == Some(SecretsAction::List),
{
    reveal_strlit("secret_set");
    reveal_strlit("secret_get");
    reveal_strlit("secret_delete");
    reveal_strlit("secret_list");
    assert("secret_set"@.len() == 10 && "secret_get"@.len() == 10 && "secret_delete"@.len() == 13
        && "secret_list"@.len() == 11);
    assert("secret_set"@[7] == 's' && "secret_get"@[7] == 'g');
}

/// The action of that name, or the complaint that nobody serves it.
pub fn secrets_action(action: &str) -> (r: Result<SecretsAction, String>)
    ensures
        match r {
            Ok(a) => action_named(action@) == Some(a),
            Err(e) => action_named(action@) is None && e@ == "unknown action: "@ + action@,
        },
        action@ == "secret_set"@ ==> r == Ok::<SecretsAction, String>(SecretsAction::Store),
        action@ == "secret_get"@ ==> r == Ok::<SecretsAction, String>(SecretsAction::Fetch),
        action@ == "secret_delete"@ ==> r == Ok::<SecretsAction, String>(SecretsAction::Delete),
        action@ == "secret_list"@ ==> r == Ok::<SecretsAction, String>(SecretsAction::List),
{
    proof {
        reveal_strlit("secret_set");
        reveal_strlit("secret_get");
        reveal_strlit("secret_delete");
        reveal_strlit("secret_list");
        assert("secret_set"@.len() == 10 && "secret_get"@.len() == 10 && "secret_delete"@.len() == 13
            && "secret_list"@.len() == 11);
        assert("secret_set"@[7] == 's' && "secret_get"@[7] == 'g');
    }
    if same(action, "secret_set") {
        Ok(SecretsAction::Store)
    } else if same(action, "secret_get") {
        Ok(SecretsAction::Fetch)
    } else if same(action, "secret_delete") {
        Ok(SecretsAction::Delete)
    } else if same(action, "secret_list") {
        Ok(SecretsAction::List)
    } else {
        Err(join2("unknown action: ", action))
    }
}

/// A request that passed its checks.
#[derive(Debug, PartialEq, Eq)]
pub enum SecretsOp {
    Store { name: String, value: String },
    Fetch { name: String },
    Delete { name: String },
    List,
}

/// Admits a `secret_set`.
pub fn admit_set(parsed: Result<SetParams, String>, limits: Limits) -> (r: Result<
    SecretsOp,
    String,
>)
    ensures
        match (parsed, r) {
            (Err(e), Err(m)) => m@ == "invalid params: "@ + e@,
            (Err(_), Ok(_)) => false,
            (Ok(p), Err(m)) => if value_error(p.value@, limits.max_value_bytes as nat) is Some {
                value_error(p.value@, limits.max_value_bytes as nat) == Some(m@)
            } else {
                name_error(p.name@, limits.max_name_bytes as nat) == Some(m@)
            },
            (Ok(p), Ok(op)) => value_error(p.value@, limits.max_value_bytes as nat) is None
                && name_error(p.name@, limits.max_name_bytes as nat) is None && op
                == (SecretsOp::Store { name: p.name, value: p.value }),
        },
{
    match parse_set_params(parsed, limits.max_value_bytes) {
        Err(e) => Err(e),
        Ok(p) => match valid_name(p.name.as_str(), limits.max_name_bytes) {
            Err(e) => Err(e),
            Ok(_) => Ok(SecretsOp::Store { name: p.name, value: p.value }),
        },
    }
}

/// Admits a `secret_get`.
pub fn admit_get(parsed: Result<GetParams, String>, limits: Limits) -> (r: Result<
    SecretsOp,
    String,
>)
    ensures
        match (parsed, r) {
            (Err(e), Err(m)) => m@ == "invalid params: "@ + e@,
            (Err(_), Ok(_)) => false,
            (Ok(p), Err(m)) => name_error(p.name@, limits.max_name_bytes as nat) == Some(m@),
            (Ok(p), Ok(op)) => name_error(p.name@, limits.max_name_bytes as nat) is None && op
                == (SecretsOp::Fetch { name: p.name }),
        },
{
    match parse_get_params(parsed) {
        Err(e) => Err(e),
        Ok(p) => match valid_name(p.name.as_str(), limits.max_name_bytes) {
            Err(e) => Err(e),
            Ok(_) => Ok(SecretsOp::Fetch { name: p.name }),
        },
    }
}

/// Admits a `secret_delete`.
pub fn admit_delete(parsed: Result<DeleteParams, String>, limits: Limits) -> (r: Result<
    SecretsOp,
    String,
>)
    ensures
        match (parsed, r) {
            (Err(e), Err(m)) => m@ == "invalid params: "@ + e@,
            (Err(_), Ok(_)) => false,
            (Ok(p), Err(m)) => name_error(p.name@, limits.max_name_bytes as nat) == Some(m@),
            (Ok(p), Ok(op)) => name_error(p.name@, limits.max_name_bytes as nat) is None && op
                == (SecretsOp::Delete { name: p.name }),
        },
{
    match parse_delete_params(parsed) {
        Err(e) => Err(e),
        Ok(p) => match valid_name(p.name.as_str(), limits.max_name_bytes) {
            Err(e) => Err(e),
            Ok(_) => Ok(SecretsOp::Delete { name: p.name }),
        },
    }
}

/// The decoded parameters of a request, or why they did not decode.
#[derive(Debug)]
pub enum SecretsParams {
    Store { parsed: Result<SetParams, String> },
    Fetch { parsed: Result<GetParams, String> },
    Delete { parsed: Result<DeleteParams, String> },
    List,
}

/// What is wrong with the parameters of a request, if anything.
pub open spec fn params_error(params: SecretsParams, limits: Limits) -> Option<Seq<char>> {
    match params {
        SecretsParams::Store { parsed } => match parsed {
            Err(e) => Some("invalid params: "@ + e@),
            Ok(p) => if value_error(p.value@, limits.max_value_bytes as nat) is Some {
                value_error(p.value@, limits.max_value_bytes as nat)
            } else {
                name_error(p.name@, limits.max_name_bytes as nat)
            },
        },
        SecretsParams::Fetch { parsed } => match parsed {
            Err(e) => Some("invalid params: "@ + e@),
            Ok(p) => name_error(p.name@, limits.max_name_bytes as nat),
        },
        SecretsParams::Delete { parsed } => match parsed {
            Err(e) => Some("invalid params: "@ + e@),
            Ok(p) => name_error(p.name@, limits.max_name_bytes as nat),
        },
        SecretsParams::List => None,
    }
}

/// The operation that good parameters ask for.
pub open spec fn asked_op(params: SecretsParams) -> SecretsOp {
    match params {
        SecretsParams::Store { parsed } => SecretsOp::Store {
            name: parsed->Ok_0.name,
            value: parsed->Ok_0.value,
        },
        SecretsParams::Fetch { parsed } => SecretsOp::Fetch { name: parsed->Ok_0.name },
        SecretsParams::Delete { parsed } => SecretsOp::Delete { name: parsed->Ok_0.name },
        SecretsParams::List => SecretsOp::List,
    }
}

/// The operation is the one that was asked for, on the name and with the value that
/// were given, and it is refused exactly where the parameters did not decode, the
/// value is too large or the name is not good.
pub proof fn lemma_what_is_asked_for_is_done(params: SecretsParams, limits: Limits)
    ensures
        params_error(params, limits) is None <==> match params {
            SecretsParams::Store { parsed } => parsed matches Ok(p) && byte_len(p.value@)
                <= limits.max_value_bytes && name_error(p.name@, limits.max_name_bytes as nat)
                is None,
            SecretsParams::Fetch { parsed } => parsed matches Ok(p) && name_error(
                p.name@,
                limits.max_name_bytes as nat,
            ) is None,
            SecretsParams::Delete { parsed } => parsed matches Ok(p) && name_error(
                p.name@,
                limits.max_name_bytes as nat,
            ) is None,
            SecretsParams::List => true,
        },
        params_error(params, limits) is None ==> match params {
            SecretsParams::Store { parsed } => asked_op(params) is Store && asked_op(
                params,
            )->Store_name == parsed->Ok_0.name && asked_op(params)->value == parsed->Ok_0.value,
            SecretsParams::Fetch { parsed } => asked_op(params) is Fetch && asked_op(
                params,
            )->Fetch_name == parsed->Ok_0.name,
            SecretsParams::Delete { parsed } => asked_op(params) is Delete && asked_op(
                params,
            )->Delete_name == parsed->Ok_0.name,
            SecretsParams::List => asked_op(params) is List,
        },
{
}

/// Admits a request: its parameters are checked first, its caller after them.
/// Gives what to do, and the file of the vault to do it with.
pub fn admit_request(caller_plugin_id: &str, params: SecretsParams, limits: Limits) -> (r: Result<
    (SecretsOp, String),
    String,
>)
    ensures
        match r {
            Ok((op, file)) => {
                &&& params_error(params, limits) is None
                &&& caller_error(caller_plugin_id@) is None
                &&& op == asked_op(params)
                &&& file@ == caller_plugin_id@ + ".vault"@
            },
            Err(e) => if params_error(params, limits) is Some {
                params_error(params, limits) == Some(e@)
            } else {
                caller_error(caller_plugin_id@) == Some(e@)
            },
        },
        r matches Ok((op, _)) ==> match params {
            SecretsParams::Store { parsed } => parsed matches Ok(p) && op == (SecretsOp::Store {
                name: p.name,
                value: p.value,
            }) && byte_len(p.value@) <= limits.max_value_bytes && byte_len(p.name@)
                <= limits.max_name_bytes,
            SecretsParams::Fetch { parsed } => parsed matches Ok(p) && op == (SecretsOp::Fetch {
                name: p.name,
            }),
            SecretsParams::Delete { parsed } => parsed matches Ok(p) && op == (SecretsOp::Delete {
                name: p.name,
            }),
            SecretsParams::List => op is List,
        },
{
    let admitted = match params {
        SecretsParams::Store { parsed } => admit_set(parsed, limits),
        SecretsParams::Fetch { parsed } => admit_get(parsed, limits),
        SecretsParams::Delete { parsed } => admit_delete(parsed, limits),
        SecretsParams::List => Ok(SecretsOp::List),
    };
    match admitted {
        Err(e) => Err(e),
        Ok(op) => match vault_file(caller_plugin_id) {
            Err(e) => Err(e),
            Ok(file) => Ok((op, file)),
        },
    }
}

/// What an operation replies, and whether the vault must be written back.
#[derive(Debug, PartialEq, Eq)]
pub struct SecretsReply {
    /// The reply, as JSON text.
    pub data: String,
    pub persist: bool,
}

/// A list of texts as a JSON array.
pub open spec fn json_array(items: Seq<Seq<char>>) -> Seq<char> {
    "["@ + joined(Seq::new(items.len(), |i: int| json_quoted(items[i])), ","@) + "]"@
}

/// The reply that hands out a value.
pub open spec fn found_reply(value: Seq<char>) -> Seq<char> {
    "{\"found\":true,\"value\":"@ + json_quoted(value) + "}"@
}

/// What an operation on the vault `old_m` replies and leaves.
pub open spec fn op_effect(
    op: SecretsOp,
    old_m: Map<Seq<char>, String>,
    new_m: Map<Seq<char>, String>,
    data: Seq<char>,
    persist: bool,
) -> bool {
    match op {
        SecretsOp::Store { name, value } => {
            &&& new_m == old_m.insert(name@, value)
            &&& data == "{\"stored\":true}"@
            &&& persist
        },
        SecretsOp::Fetch { name } => {
            &&& new_m == old_m
            &&& !persist
            &&& data == if old_m.dom().contains(name@) {
                found_reply(old_m[name@]@)
            } else {
                "{\"found\":false}"@
            }
        },
        SecretsOp::Delete { name } => {
            &&& new_m == old_m.remove(name@)
            &&& persist == old_m.dom().contains(name@)
            &&& data == if old_m.dom().contains(name@) {
                "{\"deleted\":true}"@
            } else {
                "{\"deleted\":false}"@
            }
        },
        SecretsOp::List => {
            &&& new_m == old_m
            &&& !persist
            &&& exists|names: Seq<Seq<char>>|
                sorted_names(names, old_m.dom()) && data == "{\"names\":"@ + json_array(names) + "}"@
        },
    }
}

/// The names in a vault, in order, as a JSON object.
fn names_reply(vault: &StrMap<String>) -> (r: String)
    ensures
        exists|names: Seq<Seq<char>>|
            sorted_names(names, vault@.dom()) && r@ == "{\"names\":"@ + json_array(names) + "}"@,
{
    let sorted = sorted_keys(vault);
    let ghost listed = texts(sorted@);
    let mut quoted: Vec<String> = Vec::new();
    let mut i: usize = 0;
    while i < sorted.len()
        invariant
            i <= sorted.len(),
            quoted@.len() == i,
            forall|j: int| 0 <= j < i ==> (#[trigger] quoted@[j])@ == json_quoted(sorted@[j]@),
        decreases sorted.len() - i,
    {
        quoted.push(json_quote(sorted[i].as_str()));
        i += 1;
    }
    let body = join(&quoted, ",");
    proof {
        assert(texts(quoted@) =~= Seq::new(listed.len(), |i: int| json_quoted(listed[i])));
    }
    let arr = join3("[", body.as_str(), "]");
    let r = join3("{\"names\":", arr.as_str(), "}");
    assert(r@ == "{\"names\":"@ + json_array(listed) + "}"@);
    r
}

/// Performs an admitted operation on the decrypted vault of its caller.
pub fn apply(op: SecretsOp, vault: &mut StrMap<String>) -> (r: SecretsReply)
    ensures
        op_effect(op, old(vault)@, final(vault)@, r.data@, r.persist),
        op matches SecretsOp::Store { name, value } ==> final(vault)@.dom().contains(name@)
            && final(vault)@[name@] == value && final(vault)@.remove(name@) == old(vault)@.remove(
            name@,
        ) && r.persist,
        op matches SecretsOp::Fetch { name } ==> final(vault)@ == old(vault)@ && !r.persist
            && r.data@ == if old(vault)@.dom().contains(name@) {
            "{\"found\":true,\"value\":"@ + json_quoted(old(vault)@[name@]@) + "}"@
        } else {
            "{\"found\":false}"@
        },
        op matches SecretsOp::Delete { name } ==> !final(vault)@.dom().contains(name@)
            && final(vault)@.remove(name@) == old(vault)@.remove(name@) && (r.persist <==> old(vault)@.dom().contains(
            name@,
        )),
        op is List ==> final(vault)@ == old(vault)@ && !r.persist,
{
    match op {
        SecretsOp::Store { name, value } => {
            vault.insert(name, value);
            assert(vault@.remove(name@) =~= old(vault)@.remove(name@));
            SecretsReply { data: "{\"stored\":true}".to_owned(), persist: true }
        },
        SecretsOp::Fetch { name } => {
            let data = match vault.get(name.as_str()) {
                Some(value) => join3(
                    "{\"found\":true,\"value\":",
                    json_quote(value.as_str()).as_str(),
                    "}",
                ),
                None => "{\"found\":false}".to_owned(),
            };
            SecretsReply { data, persist: false }
        },
        SecretsOp::Delete { name } => {
            let removed = vault.remove(name.as_str()).is_some();
            assert(vault@.remove(name@) =~= old(vault)@.remove(name@));
            let data = if removed {
                "{\"deleted\":true}".to_owned()
            } else {
                "{\"deleted\":false}".to_owned()
            };
            SecretsReply { data, persist: removed }
        },
        SecretsOp::List => SecretsReply { data: names_reply(vault), persist: false },
    }
}

/// What each operation does to a vault and says of it: storing puts the value under
/// its name, deleting takes it away, and only these write the vault back, deleting
/// only where there was something to delete. Fetching hands the value out, and a
/// list names everything in order, but no value.
pub proof fn lemma_what_each_operation_does(
    op: SecretsOp,
    old_m: Map<Seq<char>, String>,
    new_m: Map<Seq<char>, String>,
    data: Seq<char>,
    persist: bool,
)
    requires
        op_effect(op, old_m, new_m, data, persist),
    ensures
        op matches SecretsOp::Store { name, value } ==> new_m.dom().contains(name@) && new_m[name@]
            == value && persist && data == "{\"stored\":true}"@,
        op matches SecretsOp::Delete { name } ==> !new_m.dom().contains(name@) && (persist
            <==> old_m.dom().contains(name@)) && (data == "{\"deleted\":true}"@
            <==> old_m.dom().contains(name@)),
        op matches SecretsOp::Fetch { name } ==> new_m == old_m && !persist && data
            == if old_m.dom().contains(name@) {
            "{\"found\":true,\"value\":"@ + json_quoted(old_m[name@]@) + "}"@
        } else {
            "{\"found\":false}"@
        },
        op is List ==> new_m == old_m && !persist && exists|names: Seq<Seq<char>>|
            #[trigger] names.no_duplicates() && names.to_set() == old_m.dom() && data
                == "{\"names\":["@ + joined(
                Seq::new(names.len(), |i: int| json_quoted(names[i])),
                ","@,
            ) + "]}"@,
        persist <==> new_m != old_m || op is Store,
{
    reveal_strlit("{\"deleted\":true}");
    reveal_strlit("{\"deleted\":false}");
    assert("{\"deleted\":true}"@.len() == 16 && "{\"deleted\":false}"@.len() == 17);
    if op is Delete {
        let name = op->Delete_name@;
        if old_m.dom().contains(name) {
            assert(!new_m.dom().contains(name));
        } else {
            assert(old_m.remove(name) =~= old_m);
        }
    }
    if op is List {
        let names = choose|names: Seq<Seq<char>>|
            sorted_names(names, old_m.dom()) && data == "{\"names\":"@ + json_array(names) + "}"@;
        let inside = joined(Seq::new(names.len(), |i: int| json_quoted(names[i])), ","@);
        reveal_strlit("{\"names\":");
        reveal_strlit("{\"names\":[");
        reveal_strlit("[");
        reveal_strlit("]");
        reveal_strlit("}");
        reveal_strlit("]}");
        assert("{\"names\":"@ + "["@ =~= "{\"names\":["@);
        assert("]"@ + "}"@ =~= "]}"@);
        assert(data =~= ("{\"names\":"@ + "["@) + inside + ("]"@ + "}"@));
    }
}

/// Whether an operation can change what is kept under `name`.
pub open spec fn changes(op: SecretsOp, name: Seq<char>) -> bool {
    match op {
        SecretsOp::Store { name: n, .. } => n@ == name,
        SecretsOp::Delete { name: n } => n@ == name,
        _ => false,
    }
}

/// Whether an operation takes a vault from one state to another.
pub open spec fn leads_to(
    op: SecretsOp,
    old_m: Map<Seq<char>, String>,
    new_m: Map<Seq<char>, String>,
) -> bool {
    exists|data: Seq<char>, persist: bool| op_effect(op, old_m, new_m, data, persist)
}

/// Whether `states` are those that a vault goes through under operations none of
/// which changes what is kept under `name`.
pub open spec fn spares(
    ops: Seq<SecretsOp>,
    states: Seq<Map<Seq<char>, String>>,
    name: Seq<char>,
) -> bool {
    &&& states.len() == ops.len() + 1
    &&& forall|i: int|
        0 <= i < ops.len() ==> !changes(#[trigger] ops[i], name) && leads_to(
            ops[i],
            states[i],
            states[i + 1],
        )
}

/// An operation touches no name but its own.
pub proof fn lemma_other_names_untouched(
    op: SecretsOp,
    old_m: Map<Seq<char>, String>,
    new_m: Map<Seq<char>, String>,
    other: Seq<char>,
)
    requires
        leads_to(op, old_m, new_m),
        !changes(op, other),
    ensures
        new_m.dom().contains(other) == old_m.dom().contains(other),
        old_m.dom().contains(other) ==> new_m[other] == old_m[other],
{
}

/// What is kept under a name outlasts any number of operations on other names.
pub proof fn lemma_spared(
    ops: Seq<SecretsOp>,
    states: Seq<Map<Seq<char>, String>>,
    name: Seq<char>,
)
    requires
        spares(ops, states, name),
    ensures
        states.last().dom().contains(name) == states[0].dom().contains(name),
        states[0].dom().contains(name) ==> states.last()[name] == states[0][name],
    decreases ops.len(),
{
    if ops.len() > 0 {
        let last = ops.len() - 1;
        assert forall|i: int| 0 <= i < last implies !changes(
            #[trigger] ops.drop_last()[i],
            name,
        ) && leads_to(
            ops.drop_last()[i],
            states.drop_last()[i],
            states.drop_last()[i + 1],
        ) by {
            assert(ops.drop_last()[i] == ops[i]);
        }
        lemma_spared(ops.drop_last(), states.drop_last(), name);
        assert(!changes(ops[last], name));
        lemma_other_names_untouched(ops[last], states[last], states[last + 1], name);
    }
}

/// A secret that was stored is handed out as it was stored, whatever was done
/// under other names in between.
pub proof fn lemma_fetch_after_store(
    before: Map<Seq<char>, String>,
    ops: Seq<SecretsOp>,
    states: Seq<Map<Seq<char>, String>>,
    after: Map<Seq<char>, String>,
    name: String,
    value: String,
    fetched: Seq<char>,
    persist: bool,
)
    requires
        spares(ops, states, name@),
        leads_to(SecretsOp::Store { name, value }, before, states[0]),
        op_effect(SecretsOp::Fetch { name }, states.last(), after, fetched, persist),
    ensures
        fetched == found_reply(value@),
{
    lemma_spared(ops, states, name@);
}

/// A deleted secret is not handed out again, whatever was done under other names
/// in between.
pub proof fn lemma_fetch_after_delete(
    before: Map<Seq<char>, String>,
    ops: Seq<SecretsOp>,
    states: Seq<Map<Seq<char>, String>>,
    after: Map<Seq<char>, String>,
    name: String,
    fetched: Seq<char>,
    persist: bool,
)
    requires
        spares(ops, states, name@),
        leads_to(SecretsOp::Delete { name }, before, states[0]),
        op_effect(SecretsOp::Fetch { name }, states.last(), after, fetched, persist),
    ensures
        fetched == "{\"found\":false}"@,
{
    lemma_spared(ops, states, name@);
}

/// A deleted secret is gone, deleting it again changes nothing and says so.
pub proof fn lemma_delete_is_final(
    m0: Map<Seq<char>, String>,
    m1: Map<Seq<char>, String>,
    m2: Map<Seq<char>, String>,
    name: String,
    first: Seq<char>,
    second: Seq<char>,
    p1: bool,
    p2: bool,
)
    requires
        op_effect(SecretsOp::Delete { name }, m0, m1, first, p1),
        op_effect(SecretsOp::Delete { name }, m1, m2, second, p2),
    ensures
        !m1.dom().contains(name@),
        second == "{\"deleted\":false}"@,
        !p2,
        m2 == m1,
{
}

} // verus!
