//! Delivery through `notify-send`, `wall` and `espeak`, and speech through the
//! `tts` plugin. Binaries are started with an argument list, never a shell.

use crate::fields::{is_blank, join, joined, split, split_at, trim, trimmed};
use crate::number::{dec, decimal};
use crate::text::{
    ascii_alphanumeric, bytes_outcome, chars_of, has_infix, is_ascii_alphanumeric, join2, join3,
    lemma_infix_at_end, lemma_infix_stays, same, texts,
};
use crate::trusted::{
    base64_bytes, base64_decode, json_quote, json_quoted, lossy_text, utf8_lossy,
};
use vstd::prelude::*;

verus! {

/// The setting that lists the enabled providers, separated by commas; all are
/// enabled where it is empty.
pub const ENABLED_PROVIDERS_ENV: &'static str = "NOTIFY_PLUGIN_ENABLED_PROVIDERS";

/// The setting that names the application for `notify-send`.
pub const APP_NAME_ENV: &'static str = "NOTIFY_PLUGIN_APP_NAME";

pub const DEFAULT_APP_NAME: &'static str = "vynkor";

pub const TTS_PROVIDER_ENV: &'static str = "NOTIFY_PLUGIN_TTS_PROVIDER";

pub const TTS_VOICE_ENV: &'static str = "NOTIFY_PLUGIN_TTS_VOICE";

pub const TTS_FORMAT_ENV: &'static str = "NOTIFY_PLUGIN_TTS_FORMAT";

pub const AUDIO_PLAYER_ENV: &'static str = "NOTIFY_PLUGIN_AUDIO_PLAYER";

pub const DEFAULT_TTS_PROVIDER: &'static str = "sherpa";

pub const DEFAULT_TTS_FORMAT: &'static str = "wav";

/// Timeout of the call into the `tts` plugin.
pub const TTS_TIMEOUT_MS: u32 = 60_000;

/// Validated parameters of `notify_send`.
#[derive(Debug, PartialEq, Eq)]
pub struct NotifyParams {
    pub provider: String,
    pub title: String,
    pub message: String,
    pub urgency: Option<String>,
    pub timeout_ms: Option<u64>,
    pub app_name: Option<String>,
    pub silent: bool,
    pub speak: bool,
}

// ---------------------------------------------------------------------------
// Providers
// ---------------------------------------------------------------------------

/// A delivery provider.
#[derive(Debug, Clone, Copy, PartialEq, Eq, Structural)]
pub enum ProviderKind {
    /// Desktop notification through `notify-send`.
    NotifySend,
    /// Broadcast to all terminals through `wall`.
    Wall,
    /// Spoken through `espeak-ng`, or else `espeak`.
    Espeak,
}

/// The id of a provider.
pub open spec fn kind_id(kind: ProviderKind) -> Seq<char> {
    match kind {
        ProviderKind::NotifySend => "notify-send"@,
        ProviderKind::Wall => "wall"@,
        ProviderKind::Espeak => "espeak"@,
    }
}

/// The provider of that id.
pub open spec fn kind_named(id: Seq<char>) -> Option<ProviderKind> {
    if id == "notify-send"@ {
        Some(ProviderKind::NotifySend)
    } else if id == "wall"@ {
        Some(ProviderKind::Wall)
    } else if id == "espeak"@ {
        Some(ProviderKind::Espeak)
    } else {
        None
    }
}

/// The complaint about an id that no provider has.
pub open spec fn unknown_provider(id: Seq<char>) -> Seq<char> {
    "unknown provider '"@ + id + "': valid providers are notify-send, wall, espeak"@
}

/// What a provider does.
pub open spec fn kind_description(kind: ProviderKind) -> Seq<char> {
    match kind {
        ProviderKind::NotifySend => "libnotify desktop notification via notify-send"@,
        ProviderKind::Wall => "broadcast a message to all logged-in terminals (wall)"@,
        ProviderKind::Espeak => "spoken alert via espeak-ng (falls back to espeak)"@,
    }
}

impl ProviderKind {
    /// The provider of that id, blanks around it aside.
    pub fn parse(s: &str) -> (r: Result<ProviderKind, String>)
        ensures
            match r {
                Ok(k) => kind_named(trimmed(s@)) == Some(k),
                Err(e) => kind_named(trimmed(s@)) is None && e@ == unknown_provider(trimmed(s@)),
            },
            trimmed(s@) == "notify-send"@ ==> r == Ok::<ProviderKind, String>(
                ProviderKind::NotifySend,
            ),
            trimmed(s@) == "wall"@ ==> r == Ok::<ProviderKind, String>(ProviderKind::Wall),
            trimmed(s@) == "espeak"@ ==> r == Ok::<ProviderKind, String>(ProviderKind::Espeak),
            r matches Err(e) ==> e@ == "unknown provider '"@ + trimmed(s@)
                + "': valid providers are notify-send, wall, espeak"@,
    {
        proof {
            reveal_strlit("notify-send");
            reveal_strlit("wall");
            reveal_strlit("espeak");
            assert("notify-send"@.len() == 11 && "wall"@.len() == 4 && "espeak"@.len() == 6);
        }
        let id = trim(s);
        if same(id.as_str(), "notify-send") {
            Ok(ProviderKind::NotifySend)
        } else if same(id.as_str(), "wall") {
            Ok(ProviderKind::Wall)
        } else if same(id.as_str(), "espeak") {
            Ok(ProviderKind::Espeak)
        } else {
            Err(
                join3(
                    "unknown provider '",
                    id.as_str(),
                    "': valid providers are notify-send, wall, espeak",
                ),
            )
        }
    }

    /// The id of the provider.
    pub fn as_str(&self) -> (r: &'static str)
        ensures
            r@ == kind_id(*self),
            *self == ProviderKind::NotifySend ==> r@ == "notify-send"@,
            *self == ProviderKind::Wall ==> r@ == "wall"@,
            *self == ProviderKind::Espeak ==> r@ == "espeak"@,
    {
        match self {
            ProviderKind::NotifySend => "notify-send",
            ProviderKind::Wall => "wall",
            ProviderKind::Espeak => "espeak",
        }
    }

    /// What the provider does.
    pub fn description(&self) -> (r: &'static str)
        ensures
            r@ == kind_description(*self),
            *self == ProviderKind::NotifySend ==> r@
                == "libnotify desktop notification via notify-send"@,
            *self == ProviderKind::Wall ==> r@
                == "broadcast a message to all logged-in terminals (wall)"@,
            *self == ProviderKind::Espeak ==> r@
                == "spoken alert via espeak-ng (falls back to espeak)"@,
    {
        match self {
            ProviderKind::NotifySend => "libnotify desktop notification via notify-send",
            ProviderKind::Wall => "broadcast a message to all logged-in terminals (wall)",
            ProviderKind::Espeak => "spoken alert via espeak-ng (falls back to espeak)",
        }
    }
}

proof fn lemma_no_blank_ends(s: Seq<char>)
    requires
        s.len() > 0,
        !crate::text::is_white_space(s[0]),
        !crate::text::is_white_space(s.last()),
    ensures
        trimmed(s) == s,
{
    reveal_with_fuel(crate::fields::trimmed_start, 2);
    reveal_with_fuel(crate::fields::trimmed_end, 2);
}

/// Reading the id of a provider gives the provider back.
pub proof fn lemma_parse_reads_id(kind: ProviderKind)
    ensures
        kind_named(trimmed(kind_id(kind))) == Some(kind),
{
    reveal_strlit("notify-send");
    reveal_strlit("wall");
    reveal_strlit("espeak");
    lemma_no_blank_ends(kind_id(kind));
}

/// Providers are called `notify-send`, `wall` and `espeak`, and nothing else is one.
pub proof fn lemma_what_providers_are_called(id: Seq<char>)
    ensures
        kind_named(id) == Some(ProviderKind::NotifySend) <==> id == "notify-send"@,
        kind_named(id) == Some(ProviderKind::Wall) <==> id == "wall"@,
        kind_named(id) == Some(ProviderKind::Espeak) <==> id == "espeak"@,
        kind_id(ProviderKind::NotifySend) == "notify-send"@,
        kind_id(ProviderKind::Wall) == "wall"@,
        kind_id(ProviderKind::Espeak) == "espeak"@,
{
    reveal_strlit("notify-send");
    reveal_strlit("wall");
    reveal_strlit("espeak");
    assert("notify-send"@.len() == 11 && "wall"@.len() == 4 && "espeak"@.len() == 6);
}

/// All providers, in order.
pub open spec fn every_kind() -> Seq<ProviderKind> {
    seq![ProviderKind::NotifySend, ProviderKind::Wall, ProviderKind::Espeak]
}

/// All providers, in order.
pub fn all_providers() -> (r: Vec<ProviderKind>)
    ensures
        r@ == every_kind(),
{
    let mut v: Vec<ProviderKind> = Vec::new();
    v.push(ProviderKind::NotifySend);
    v.push(ProviderKind::Wall);
    v.push(ProviderKind::Espeak);
    v
}

/// Which binaries are installed.
#[derive(Debug, Clone, Copy, PartialEq, Eq, Structural)]
pub struct Installed {
    pub notify_send: bool,
    pub wall: bool,
    pub espeak_ng: bool,
    pub espeak: bool,
}

/// Whether a binary of the provider is installed.
pub open spec fn is_installed(kind: ProviderKind, installed: Installed) -> bool {
    match kind {
        ProviderKind::NotifySend => installed.notify_send,
        ProviderKind::Wall => installed.wall,
        ProviderKind::Espeak => installed.espeak_ng || installed.espeak,
    }
}

/// Whether a binary of the provider is installed.
pub fn kind_available(kind: ProviderKind, installed: Installed) -> (r: bool)
    ensures
        r == is_installed(kind, installed),
{
    match kind {
        ProviderKind::NotifySend => installed.notify_send,
        ProviderKind::Wall => installed.wall,
        ProviderKind::Espeak => installed.espeak_ng || installed.espeak,
    }
}

/// Whether `kinds` holds `kind`.
fn has_kind(kinds: &Vec<ProviderKind>, kind: ProviderKind) -> (r: bool)
    ensures
        r == kinds@.contains(kind),
{
    let mut i: usize = 0;
    while i < kinds.len()
        invariant
            i <= kinds.len(),
            forall|j: int| 0 <= j < i ==> (#[trigger] kinds@[j]) != kind,
        decreases kinds.len() - i,
    {
        if kinds[i] == kind {
            return true;
        }
        i += 1;
    }
    false
}

/// What is known of a provider.
#[derive(Debug, PartialEq, Eq)]
pub struct ProviderInfo {
    pub id: String,
    pub name: String,
    /// Whether the operator enabled it and its binary is installed.
    pub available: bool,
    pub description: String,
}

/// Whether `info` describes a provider.
pub open spec fn describes(
    info: ProviderInfo,
    kind: ProviderKind,
    enabled: Seq<ProviderKind>,
    installed: Installed,
) -> bool {
    &&& info.id@ == kind_id(kind)
    &&& info.name@ == kind_id(kind)
    &&& info.available == (enabled.contains(kind) && is_installed(kind, installed))
    &&& info.description@ == kind_description(kind)
}

/// All providers with their availability.
pub fn list_providers_for(enabled: &Vec<ProviderKind>, installed: Installed) -> (r: Vec<
    ProviderInfo,
>)
    ensures
        r@.len() == 3,
        forall|i: int|
            0 <= i < 3 ==> describes(#[trigger] r@[i], every_kind()[i], enabled@, installed),
{
    let kinds = all_providers();
    let mut out: Vec<ProviderInfo> = Vec::new();
    let mut i: usize = 0;
    while i < kinds.len()
        invariant
            i <= kinds@.len() == 3,
            kinds@ == every_kind(),
            out@.len() == i,
            forall|j: int|
                0 <= j < i ==> describes(#[trigger] out@[j], every_kind()[j], enabled@, installed),
        decreases kinds.len() - i,
    {
        let kind: ProviderKind = kinds[i];
        out.push(
            ProviderInfo {
                id: kind.as_str().to_owned(),
                name: kind.as_str().to_owned(),
                available: has_kind(enabled, kind) && kind_available(kind, installed),
                description: kind.description().to_owned(),
            },
        );
        i += 1;
    }
    out
}

// ---------------------------------------------------------------------------
// Which providers are enabled
// ---------------------------------------------------------------------------

/// The kinds that the fields of a list name, each where it comes up first; none
/// where some field names no provider.
pub open spec fn named_kinds(fields: Seq<Seq<char>>) -> Option<Seq<ProviderKind>>
    decreases fields.len(),
{
    if fields.len() == 0 {
        Some(Seq::empty())
    } else {
        let id = trimmed(fields.last());
        match named_kinds(fields.drop_last()) {
            None => None,
            Some(kinds) => if id.len() == 0 {
                Some(kinds)
            } else {
                match kind_named(id) {
                    None => None,
                    Some(k) => Some(
                        if kinds.contains(k) {
                            kinds
                        } else {
                            kinds.push(k)
                        },
                    ),
                }
            },
        }
    }
}

/// A list enables what it names, in the order in which it is named first, blank fields
/// aside; it enables nothing else, and a field that names no provider spoils it.
pub proof fn lemma_a_list_enables_what_it_names(fields: Seq<Seq<char>>, next: Seq<char>)
    ensures
        named_kinds(Seq::empty()) == Some(Seq::<ProviderKind>::empty()),
        trimmed(next).len() == 0 ==> named_kinds(fields.push(next)) == named_kinds(fields),
        trimmed(next).len() > 0 && kind_named(trimmed(next)) is None ==> named_kinds(
            fields.push(next),
        ) is None,
        named_kinds(fields) is Some && trimmed(next).len() > 0 && kind_named(trimmed(next)) is Some
            ==> ({
            let k = kind_named(trimmed(next))->0;
            named_kinds(fields.push(next)) == Some(
                if named_kinds(fields)->0.contains(k) {
                    named_kinds(fields)->0
                } else {
                    named_kinds(fields)->0.push(k)
                },
            )
        }),
        forall|raw: Seq<char>|
            trimmed(raw).len() == 0 ==> #[trigger] enabled_by(raw) == Some(
                seq![ProviderKind::NotifySend, ProviderKind::Wall, ProviderKind::Espeak],
            ),
{
    assert(fields.push(next).drop_last() =~= fields);
}

/// Whether `field` is one that names no provider.
pub open spec fn is_bad_field(field: Seq<char>) -> bool {
    trimmed(field).len() > 0 && kind_named(trimmed(field)) is None
}

/// The first field that names no provider.
pub open spec fn first_bad(fields: Seq<Seq<char>>, i: int) -> bool {
    &&& 0 <= i < fields.len()
    &&& is_bad_field(fields[i])
    &&& forall|j: int| 0 <= j < i ==> !is_bad_field(#[trigger] fields[j])
}

proof fn lemma_named_kinds_fail(fields: Seq<Seq<char>>, i: int)
    requires
        0 <= i < fields.len(),
        is_bad_field(fields[i]),
    ensures
        named_kinds(fields) is None,
    decreases fields.len(),
{
    if i < fields.len() - 1 {
        lemma_named_kinds_fail(fields.drop_last(), i);
    }
}

proof fn lemma_trim_twice(s: Seq<char>)
    ensures
        trimmed(trimmed(s)) == trimmed(s),
{
    crate::fields::lemma_trimmed_idempotent(s);
}

/// The providers that a list enables: all where it is blank, otherwise those
/// that it names, each once.
pub open spec fn enabled_by(raw: Seq<char>) -> Option<Seq<ProviderKind>> {
    if trimmed(raw).len() == 0 {
        Some(every_kind())
    } else {
        named_kinds(split_at(trimmed(raw), ','))
    }
}

/// The providers that the operator's list enables; an id that no provider has is
/// an error.
pub fn parse_enabled_list(raw: &str) -> (r: Result<Vec<ProviderKind>, String>)
    ensures
        match r {
            Ok(kinds) => enabled_by(raw@) == Some(kinds@),
            Err(e) => enabled_by(raw@) is None && exists|i: int| #[trigger]
                first_bad(split_at(trimmed(raw@), ','), i) && e@ == unknown_provider(
                    trimmed(split_at(trimmed(raw@), ',')[i]),
                ),
        },
{
    let list = trim(raw);
    if list.as_str().is_empty() {
        return Ok(all_providers());
    }
    let fields = split(list.as_str(), ',');
    let ghost all = split_at(trimmed(raw@), ',');
    let mut kinds: Vec<ProviderKind> = Vec::new();
    let mut i: usize = 0;
    assert(all.take(0) =~= Seq::empty());
    assert(kinds@ =~= Seq::empty());
    while i < fields.len()
        invariant
            i <= fields.len(),
            texts(fields@) == all,
            all == split_at(trimmed(raw@), ','),
            trimmed(raw@).len() > 0,
            named_kinds(all.take(i as int)) == Some(kinds@),
            forall|j: int| 0 <= j < i ==> !is_bad_field(#[trigger] all[j]),
        decreases fields.len() - i,
    {
        let ghost field = all[i as int];
        assert(field == fields@[i as int]@);
        assert(all.take(i + 1).drop_last() =~= all.take(i as int));
        assert(all.take(i + 1).last() == field);
        let id = trim(fields[i].as_str());
        if !id.as_str().is_empty() {
            proof {
                lemma_trim_twice(field);
            }
            match ProviderKind::parse(id.as_str()) {
                Ok(kind) => {
                    if !has_kind(&kinds, kind) {
                        kinds.push(kind);
                    }
                },
                Err(e) => {
                    proof {
                        assert(first_bad(all, i as int));
                        lemma_named_kinds_fail(all, i as int);
                    }
                    return Err(e);
                },
            }
        }
        i += 1;
    }
    assert(all.take(all.len() as int) =~= all);
    Ok(kinds)
}

/// The value of a setting.
#[derive(Debug, PartialEq, Eq)]
pub enum EnvValue {
    Value { raw: String },
    Unset,
    /// The value could not be read as text.
    Unreadable { error: String },
}

/// The enabled providers: all where the setting is unset.
pub fn enabled_providers(env: &EnvValue) -> (r: Result<Vec<ProviderKind>, String>)
    ensures
        match (*env, r) {
            (EnvValue::Unset, Ok(kinds)) => kinds@ == every_kind(),
            (EnvValue::Value { raw }, Ok(kinds)) => enabled_by(raw@) == Some(kinds@),
            (EnvValue::Value { raw }, Err(e)) => enabled_by(raw@) is None && exists|i: int|
             #[trigger]
                first_bad(split_at(trimmed(raw@), ','), i) && e@ == unknown_provider(
                    trimmed(split_at(trimmed(raw@), ',')[i]),
                ),
            (EnvValue::Unreadable { error }, Err(e)) => e@
                == "failed to read NOTIFY_PLUGIN_ENABLED_PROVIDERS: "@ + error@,
            _ => false,
        },
{
    match env {
        EnvValue::Unset => Ok(all_providers()),
        EnvValue::Value { raw } => parse_enabled_list(raw.as_str()),
        EnvValue::Unreadable { error } => Err(
            join2("failed to read NOTIFY_PLUGIN_ENABLED_PROVIDERS: ", error.as_str()),
        ),
    }
}

/// What reports assume to be enabled: all providers where the setting is bad, so
/// that a report stays readable while delivery still fails.
pub open spec fn reported_enabled(env: EnvValue) -> Seq<ProviderKind> {
    match env {
        EnvValue::Value { raw } => match enabled_by(raw@) {
            Some(kinds) => kinds,
            None => every_kind(),
        },
        _ => every_kind(),
    }
}

/// All providers with their availability, for a report.
pub fn list_providers(env: &EnvValue, installed: Installed) -> (r: Vec<ProviderInfo>)
    ensures
        r@.len() == 3,
        forall|i: int|
            0 <= i < 3 ==> describes(
                #[trigger] r@[i],
                every_kind()[i],
                reported_enabled(*env),
                installed,
            ),
{
    let enabled = match enabled_providers(env) {
        Ok(kinds) => kinds,
        Err(_) => all_providers(),
    };
    list_providers_for(&enabled, installed)
}

/// A list of enabled providers never names one twice.
pub proof fn lemma_enabled_once(fields: Seq<Seq<char>>)
    requires
        named_kinds(fields) is Some,
    ensures
        named_kinds(fields)->0.no_duplicates(),
    decreases fields.len(),
{
    if fields.len() > 0 {
        lemma_enabled_once(fields.drop_last());
    }
}

// ---------------------------------------------------------------------------
// Delivery
// ---------------------------------------------------------------------------

/// The ids of the enabled providers, in a row.
pub open spec fn summary_of(enabled: Seq<ProviderKind>) -> Seq<char> {
    joined(Seq::new(enabled.len(), |i: int| kind_id(enabled[i])), ", "@)
}

/// The ids of the enabled providers, in a row.
pub fn enabled_summary(enabled: &Vec<ProviderKind>) -> (r: String)
    ensures
        r@ == summary_of(enabled@),
{
    let mut ids: Vec<String> = Vec::new();
    let mut i: usize = 0;
    while i < enabled.len()
        invariant
            i <= enabled.len(),
            ids@.len() == i,
            forall|j: int| 0 <= j < i ==> (#[trigger] ids@[j])@ == kind_id(enabled@[j]),
        decreases enabled.len() - i,
    {
        ids.push(enabled[i].as_str().to_owned());
        i += 1;
    }
    assert(texts(ids@) =~= Seq::new(enabled@.len(), |i: int| kind_id(enabled@[i])));
    join(&ids, ", ")
}

/// The name of the application: the caller's, or else the operator's, or else
/// the default. Blank names do not count.
pub open spec fn app_name_of(params: NotifyParams, env: Option<Seq<char>>) -> Seq<char> {
    if params.app_name is Some && trimmed(params.app_name->0@).len() > 0 {
        params.app_name->0@
    } else if env is Some && trimmed(env->0).len() > 0 {
        env->0
    } else {
        "vynkor"@
    }
}

/// The arguments for `notify-send`: application, urgency, timeout, title and
/// message, each only where there is one.
pub open spec fn notify_args(params: NotifyParams, env: Option<Seq<char>>) -> Seq<Seq<char>> {
    seq!["-a"@, app_name_of(params, env)] + (match params.urgency {
        Some(u) => seq!["-u"@, u@],
        None => Seq::empty(),
    }) + (if params.timeout_ms is Some && params.timeout_ms->0 > 0 {
        seq!["-t"@, decimal(params.timeout_ms->0 as nat)]
    } else {
        Seq::empty()
    }) + (if params.title@.len() > 0 {
        seq![params.title@]
    } else {
        Seq::empty()
    }) + seq![params.message@]
}

/// `notify-send` is told the application first and the message last, the title before
/// it where there is one, and the urgency and the timeout as they were given.
pub proof fn lemma_what_notify_send_is_told(params: NotifyParams, env: Option<Seq<char>>)
    ensures
        ({
            let args = notify_args(params, env);
            &&& args[0] == "-a"@ && args[1] == app_name_of(params, env)
            &&& args.last() == params.message@
            &&& params.title@.len() > 0 ==> args[args.len() - 2] == params.title@
            &&& params.urgency is Some ==> args[2] == "-u"@ && args[3] == params.urgency->0@
            &&& params.timeout_ms is Some && params.timeout_ms->0 > 0 ==> ({
                let at: int = if params.urgency is Some { 4 } else { 2 };
                args[at] == "-t"@ && args[at + 1] == decimal(params.timeout_ms->0 as nat)
            })
            &&& args.len() == 3 + (if params.urgency is Some { 2int } else { 0 }) + (
            if params.timeout_ms is Some && params.timeout_ms->0 > 0 { 2int } else { 0 }) + (
            if params.title@.len() > 0 { 1int } else { 0 })
        }),
        params.app_name is Some && trimmed(params.app_name->0@).len() > 0 ==> app_name_of(
            params,
            env,
        ) == params.app_name->0@,
        params.app_name is None && env is Some && trimmed(env->0).len() > 0 ==> app_name_of(
            params,
            env,
        ) == env->0,
        params.app_name is None && env is None ==> app_name_of(params, env) == "vynkor"@,
{
}

fn push_arg(args: &mut Vec<String>, arg: String)
    ensures
        texts(final(args)@) == texts(old(args)@).push(arg@),
{
    args.push(arg);
}

/// The arguments for `notify-send`, with the operator's application name.
pub fn notify_send_args_with(params: &NotifyParams, env_app_name: Option<&str>) -> (r: Vec<String>)
    ensures
        texts(r@) == notify_args(
            *params,
            match env_app_name {
                Some(s) => Some(s@),
                None => None,
            },
        ),
{
    let own = match &params.app_name {
        Some(a) => if is_blank(a.as_str()) {
            None
        } else {
            Some(a.clone())
        },
        None => None,
    };
    let app_name = match own {
        Some(a) => a,
        None => match env_app_name {
            Some(e) => if is_blank(e) {
                "vynkor".to_owned()
            } else {
                e.to_owned()
            },
            None => "vynkor".to_owned(),
        },
    };
    let mut args: Vec<String> = Vec::new();
    push_arg(&mut args, "-a".to_owned());
    push_arg(&mut args, app_name);
    let ghost t0 = texts(args@);
    if let Some(u) = &params.urgency {
        push_arg(&mut args, "-u".to_owned());
        push_arg(&mut args, u.clone());
    }
    let ghost t1 = texts(args@);
    assert(t1 =~= t0 + (match params.urgency {
        Some(u) => seq!["-u"@, u@],
        None => Seq::empty(),
    }));
    if let Some(t) = params.timeout_ms {
        if t > 0 {
            push_arg(&mut args, "-t".to_owned());
            push_arg(&mut args, dec(t));
        }
    }
    let ghost t2 = texts(args@);
    assert(t2 =~= t1 + (if params.timeout_ms is Some && params.timeout_ms->0 > 0 {
        seq!["-t"@, decimal(params.timeout_ms->0 as nat)]
    } else {
        Seq::empty()
    }));
    if !params.title.as_str().is_empty() {
        push_arg(&mut args, params.title.clone());
    }
    let ghost t3 = texts(args@);
    assert(t3 =~= t2 + (if params.title@.len() > 0 {
        seq![params.title@]
    } else {
        Seq::empty()
    }));
    push_arg(&mut args, params.message.clone());
    args
}

/// Title and message in one: `title: message`, or the message alone.
pub open spec fn text_of(params: NotifyParams) -> Seq<char> {
    if params.title@.len() == 0 {
        params.message@
    } else {
        params.title@ + ": "@ + params.message@
    }
}

/// A notification without a title reads as its message; one with a title as the title, a
/// colon and the message.
pub proof fn lemma_how_a_notification_reads(params: NotifyParams)
    ensures
        params.title@.len() == 0 ==> text_of(params) == params.message@,
        params.title@.len() > 0 ==> text_of(params) == params.title@ + ": "@ + params.message@,
{
}

/// Title and message in one.
pub fn full_text(params: &NotifyParams) -> (r: String)
    ensures
        r@ == text_of(*params),
        params.title@.len() == 0 ==> r@ == params.message@,
        params.title@.len() > 0 ==> r@ == params.title@ + ": "@ + params.message@,
{
    if params.title.as_str().is_empty() {
        params.message.clone()
    } else {
        join3(params.title.as_str(), ": ", params.message.as_str())
    }
}

/// The complaint about a binary that is not installed.
pub open spec fn missing_text(bin: Seq<char>) -> Seq<char> {
    "provider requires the '"@ + bin
        + "' binary, which was not found on PATH (install it and retry)"@
}

/// The complaint about a binary that is not installed.
pub fn missing_binary(bin: &str) -> (r: String)
    ensures
        r@ == missing_text(bin@),
{
    join3(
        "provider requires the '",
        bin,
        "' binary, which was not found on PATH (install it and retry)",
    )
}

/// A binary with its arguments.
#[derive(Debug, PartialEq, Eq)]
pub struct Command {
    pub bin: &'static str,
    pub args: Vec<String>,
}

/// Why a notification cannot be delivered, if so.
pub open spec fn delivery_error(
    kind: ProviderKind,
    enabled: Seq<ProviderKind>,
    installed: Installed,
) -> Option<Seq<char>> {
    if !enabled.contains(kind) {
        Some(
            "provider '"@ + kind_id(kind)
                + "' is disabled by NOTIFY_PLUGIN_ENABLED_PROVIDERS (enabled: "@ + summary_of(
                enabled,
            ) + ")"@,
        )
    } else if is_installed(kind, installed) {
        None
    } else {
        match kind {
            ProviderKind::NotifySend => Some(missing_text("notify-send"@)),
            ProviderKind::Wall => Some(missing_text("wall"@)),
            ProviderKind::Espeak => Some(
                "espeak provider requires 'espeak-ng' (or 'espeak'): neither was found on PATH (install espeak-ng and retry)"@,
            ),
        }
    }
}

/// The binary that delivers for a provider.
pub open spec fn binary_of(kind: ProviderKind, installed: Installed) -> Seq<char> {
    match kind {
        ProviderKind::NotifySend => "notify-send"@,
        ProviderKind::Wall => "wall"@,
        ProviderKind::Espeak => if installed.espeak_ng {
            "espeak-ng"@
        } else {
            "espeak"@
        },
    }
}

/// A notification can be delivered exactly through a provider that is enabled and whose
/// binary is installed: `notify-send`, `wall`, or `espeak-ng` and else `espeak`.
pub proof fn lemma_what_can_be_delivered(
    kind: ProviderKind,
    enabled: Seq<ProviderKind>,
    installed: Installed,
)
    ensures
        delivery_error(kind, enabled, installed) is None <==> enabled.contains(kind) && match kind {
            ProviderKind::NotifySend => installed.notify_send,
            ProviderKind::Wall => installed.wall,
            ProviderKind::Espeak => installed.espeak_ng || installed.espeak,
        },
        kind == ProviderKind::NotifySend ==> binary_of(kind, installed) == "notify-send"@,
        kind == ProviderKind::Wall ==> binary_of(kind, installed) == "wall"@,
        kind == ProviderKind::Espeak && installed.espeak_ng ==> binary_of(kind, installed)
            == "espeak-ng"@,
        kind == ProviderKind::Espeak && !installed.espeak_ng ==> binary_of(kind, installed)
            == "espeak"@,
{
}

/// The command that delivers a notification: the operator's policy comes first,
/// then the binary.
pub fn plan_delivery(
    kind: ProviderKind,
    params: &NotifyParams,
    enabled: &Vec<ProviderKind>,
    installed: Installed,
    env_app_name: Option<&str>,
) -> (r: Result<Command, String>)
    ensures
        match r {
            Err(e) => delivery_error(kind, enabled@, installed) == Some(e@),
            Ok(c) => {
                &&& delivery_error(kind, enabled@, installed) is None
                &&& c.bin@ == binary_of(kind, installed)
                &&& texts(c.args@) == if kind == ProviderKind::NotifySend {
                    notify_args(
                        *params,
                        match env_app_name {
                            Some(s) => Some(s@),
                            None => None,
                        },
                    )
                } else {
                    seq![text_of(*params)]
                }
            },
        },
        r is Ok <==> enabled@.contains(kind) && match kind {
            ProviderKind::NotifySend => installed.notify_send,
            ProviderKind::Wall => installed.wall,
            ProviderKind::Espeak => installed.espeak_ng || installed.espeak,
        },
        r is Ok && kind == ProviderKind::NotifySend ==> r->Ok_0.bin@ == "notify-send"@
            && r->Ok_0.args@.len() > 0 && r->Ok_0.args@.last()@ == params.message@,
        r is Ok && kind == ProviderKind::Wall ==> r->Ok_0.bin@ == "wall"@,
{
    if !has_kind(enabled, kind) {
        let mut e = join3(
            "provider '",
            kind.as_str(),
            "' is disabled by NOTIFY_PLUGIN_ENABLED_PROVIDERS (enabled: ",
        );
        e.append(enabled_summary(enabled).as_str());
        e.append(")");
        return Err(e);
    }
    match kind {
        ProviderKind::NotifySend => {
            if !installed.notify_send {
                return Err(missing_binary("notify-send"));
            }
            let args = notify_send_args_with(params, env_app_name);
            proof {
                lemma_what_notify_send_is_told(
                    *params,
                    match env_app_name {
                        Some(s) => Some(s@),
                        None => None,
                    },
                );
                assert(texts(args@).len() > 0);
                assert(texts(args@).last() == args@.last()@);
            }
            Ok(Command { bin: "notify-send", args })
        },
        ProviderKind::Wall => {
            if !installed.wall {
                return Err(missing_binary("wall"));
            }
            let mut args: Vec<String> = Vec::new();
            args.push(full_text(params));
            Ok(Command { bin: "wall", args })
        },
        ProviderKind::Espeak => {
            let bin = if installed.espeak_ng {
                "espeak-ng"
            } else if installed.espeak {
                "espeak"
            } else {
                return Err(
                    "espeak provider requires 'espeak-ng' (or 'espeak'): neither was found on PATH (install espeak-ng and retry)".to_owned(),
                );
            };
            let mut args: Vec<String> = Vec::new();
            args.push(full_text(params));
            Ok(Command { bin, args })
        },
    }
}

/// How running a binary went.
#[derive(Debug, PartialEq, Eq)]
pub enum CommandOutcome {
    SpawnFailed { error: String },
    /// `status` is how the system words the exit status.
    Exited { success: bool, status: String, stdout: Vec<u8>, stderr: Vec<u8> },
}

/// What running a binary comes to: its trimmed output, or a complaint.
pub open spec fn command_output(bin: Seq<char>, out: CommandOutcome) -> Result<
    Seq<char>,
    Seq<char>,
> {
    match out {
        CommandOutcome::SpawnFailed { error } => Err("failed to spawn "@ + bin + ": "@ + error@),
        CommandOutcome::Exited { success, status, stdout, stderr } => if success {
            Ok(trimmed(lossy_text(stdout@)))
        } else {
            Err(
                bin + " exited with "@ + status@ + ": "@ + if trimmed(
                    lossy_text(stderr@),
                ).len() == 0 {
                    "see system logs"@
                } else {
                    trimmed(lossy_text(stderr@))
                },
            )
        },
    }
}

/// A binary that succeeds gives what it printed, trimmed; one that fails, or cannot be
/// started, an error.
pub proof fn lemma_only_success_has_a_result(bin: Seq<char>, out: CommandOutcome)
    ensures
        command_output(bin, out) is Ok <==> out is Exited && out->success,
        out is Exited && out->success ==> command_output(bin, out)->Ok_0 == trimmed(
            lossy_text(out->stdout@),
        ),
{
}

/// What running a binary comes to.
pub fn command_result(bin: &str, out: CommandOutcome) -> (r: Result<String, String>)
    ensures
        crate::text::outcome_view(r) == command_output(bin@, out),
{
    match out {
        CommandOutcome::SpawnFailed { error } => {
            let mut e = join3("failed to spawn ", bin, ": ");
            e.append(error.as_str());
            Err(e)
        },
        CommandOutcome::Exited { success, status, stdout, stderr } => {
            if success {
                return Ok(trim(utf8_lossy(&stdout).as_str()));
            }
            let detail = trim(utf8_lossy(&stderr).as_str());
            let mut e = join3(bin, " exited with ", status.as_str());
            e.append(": ");
            if detail.as_str().is_empty() {
                e.append("see system logs");
            } else {
                e.append(detail.as_str());
            }
            Err(e)
        },
    }
}

/// What was delivered, and how.
#[derive(Debug, PartialEq, Eq)]
pub struct Delivered {
    pub provider: String,
    pub command: String,
    /// What the binary printed.
    pub detail: String,
}

/// The delivery that running `bin` for a provider comes to.
pub fn delivered(kind: ProviderKind, bin: &str, out: CommandOutcome) -> (r: Result<
    Delivered,
    String,
>)
    ensures
        match r {
            Ok(d) => d.provider@ == kind_id(kind) && d.command@ == bin@ && command_output(bin@, out)
                == Ok::<Seq<char>, Seq<char>>(d.detail@),
            Err(e) => command_output(bin@, out) == Err::<Seq<char>, Seq<char>>(e@),
        },
{
    match command_result(bin, out) {
        Ok(detail) => Ok(
            Delivered {
                provider: kind.as_str().to_owned(),
                command: bin.to_owned(),
                detail,
            },
        ),
        Err(e) => Err(e),
    }
}

// ---------------------------------------------------------------------------
// Speech
// ---------------------------------------------------------------------------

/// The request to the `tts` plugin. A blank voice is left out.
pub open spec fn tts_request(
    text: Seq<char>,
    provider: Seq<char>,
    voice: Option<Seq<char>>,
    format: Seq<char>,
) -> Seq<char> {
    "{\"format\":"@ + json_quoted(format) + ",\"provider\":"@ + json_quoted(provider)
        + ",\"text\":"@ + json_quoted(text) + ",\"timeout_ms\":60000"@ + (if voice is Some
        && trimmed(voice->0).len() > 0 {
        ",\"voice\":"@ + json_quoted(voice->0)
    } else {
        Seq::empty()
    }) + "}"@
}

/// A request for speech names the text, the provider and the format, gives it a minute,
/// and names the voice where there is one that is not blank.
pub proof fn lemma_what_speech_is_asked_for(
    text: Seq<char>,
    provider: Seq<char>,
    voice: Option<Seq<char>>,
    format: Seq<char>,
)
    ensures
        ({
            let t = tts_request(text, provider, voice, format);
            &&& has_infix(t, "{\"format\":"@ + json_quoted(format))
            &&& has_infix(t, ",\"provider\":"@ + json_quoted(provider))
            &&& has_infix(t, ",\"text\":"@ + json_quoted(text))
            &&& voice is Some && trimmed(voice->0).len() > 0 ==> has_infix(
                t,
                ",\"timeout_ms\":60000"@ + (",\"voice\":"@ + json_quoted(voice->0)),
            )
            &&& voice is None ==> t == tts_request(text, provider, Some(Seq::empty()), format)
        }),
{
    let spoken = if voice is Some && trimmed(voice->0).len() > 0 {
        ",\"voice\":"@ + json_quoted(voice->0)
    } else {
        Seq::empty()
    };
    let p0 = "{\"format\":"@;
    let p1 = json_quoted(format);
    let p2 = ",\"provider\":"@;
    let p3 = json_quoted(provider);
    let p4 = ",\"text\":"@;
    let p5 = json_quoted(text);
    let p6 = ",\"timeout_ms\":60000"@;
    let p7 = spoken;
    let p8 = "}"@;
    let t0 = p0;
    let t1 = t0 + p1;
    let t2 = t1 + p2;
    let t3 = t2 + p3;
    let t4 = t3 + p4;
    let t5 = t4 + p5;
    let t6 = t5 + p6;
    let t7 = t6 + p7;
    let t8 = t7 + p8;
    assert(t1 =~= Seq::<char>::empty() + (p0 + p1));
    lemma_infix_at_end(Seq::<char>::empty(), p0 + p1);
    lemma_infix_stays(t1, p0 + p1, p2);
    lemma_infix_stays(t2, p0 + p1, p3);
    lemma_infix_stays(t3, p0 + p1, p4);
    lemma_infix_stays(t4, p0 + p1, p5);
    lemma_infix_stays(t5, p0 + p1, p6);
    lemma_infix_stays(t6, p0 + p1, p7);
    lemma_infix_stays(t7, p0 + p1, p8);
    assert(t3 =~= t1 + (p2 + p3));
    lemma_infix_at_end(t1, p2 + p3);
    lemma_infix_stays(t3, p2 + p3, p4);
    lemma_infix_stays(t4, p2 + p3, p5);
    lemma_infix_stays(t5, p2 + p3, p6);
    lemma_infix_stays(t6, p2 + p3, p7);
    lemma_infix_stays(t7, p2 + p3, p8);
    assert(t5 =~= t3 + (p4 + p5));
    lemma_infix_at_end(t3, p4 + p5);
    lemma_infix_stays(t5, p4 + p5, p6);
    lemma_infix_stays(t6, p4 + p5, p7);
    lemma_infix_stays(t7, p4 + p5, p8);
    assert(t7 =~= t5 + (p6 + p7));
    lemma_infix_at_end(t5, p6 + p7);
    lemma_infix_stays(t7, p6 + p7, p8);
    assert(tts_request(text, provider, voice, format) == t8);
}

/// The request to the `tts` plugin, as JSON text.
pub fn build_tts_request(text: &str, provider: &str, voice: Option<&str>, format: &str) -> (r: String)
    ensures
        r@ == tts_request(
            text@,
            provider@,
            match voice {
                Some(v) => Some(v@),
                None => None,
            },
            format@,
        ),
{
    let mut s = join2("{\"format\":", json_quote(format).as_str());
    s.append(",\"provider\":");
    s.append(json_quote(provider).as_str());
    s.append(",\"text\":");
    s.append(json_quote(text).as_str());
    s.append(",\"timeout_ms\":60000");
    let mut v = String::new();
    if let Some(voice) = voice {
        if !is_blank(voice) {
            v.append(",\"voice\":");
            v.append(json_quote(voice).as_str());
        }
    }
    s.append(v.as_str());
    s.append("}");
    s
}

/// The request to speak `text`, from the values of the operator's settings.
pub fn speech_request(
    text: &str,
    provider: &Option<String>,
    voice: &Option<String>,
    format: &Option<String>,
) -> (r: String)
    ensures
        r@ == tts_request(
            text@,
            match *provider {
                Some(p) => p@,
                None => "sherpa"@,
            },
            crate::text::opt_text(*voice),
            match *format {
                Some(f) => f@,
                None => "wav"@,
            },
        ),
{
    let p = match provider {
        Some(p) => p.as_str(),
        None => "sherpa",
    };
    let f = match format {
        Some(f) => f.as_str(),
        None => "wav",
    };
    let v = match voice {
        Some(v) => Some(v.as_str()),
        None => None,
    };
    build_tts_request(text, p, v, f)
}

/// Which players are installed.
#[derive(Debug, Clone, Copy, PartialEq, Eq, Structural)]
pub struct Players {
    pub paplay: bool,
    pub pw_play: bool,
    pub aplay: bool,
    pub ffplay: bool,
}

/// The player for a format, or why there is none.
pub open spec fn player_for(
    format: Seq<char>,
    chosen: Option<Seq<char>>,
    players: Players,
) -> Result<Seq<char>, Seq<char>> {
    if chosen is Some {
        if trimmed(chosen->0).len() == 0 {
            Err("NOTIFY_PLUGIN_AUDIO_PLAYER is set but empty"@)
        } else {
            Ok(trimmed(chosen->0))
        }
    } else if format == "wav"@ {
        if players.paplay {
            Ok("paplay"@)
        } else if players.pw_play {
            Ok("pw-play"@)
        } else if players.aplay {
            Ok("aplay"@)
        } else {
            Err(
                "no audio player found for wav: install paplay (libpulse), pw-play (pipewire), or aplay (alsa-utils), or set NOTIFY_PLUGIN_AUDIO_PLAYER"@,
            )
        }
    } else if players.ffplay {
        Ok("ffplay"@)
    } else {
        Err(
            "no audio player found for '"@ + format
                + "': install ffmpeg (provides ffplay) or set NOTIFY_PLUGIN_AUDIO_PLAYER"@,
        )
    }
}

/// The operator's player is used where one is chosen; otherwise WAV is played by the
/// first of `paplay`, `pw-play` and `aplay` that is installed, and anything else by
/// `ffplay`.
pub proof fn lemma_who_plays(format: Seq<char>, chosen: Seq<char>, players: Players)
    ensures
        trimmed(chosen).len() > 0 ==> player_for(format, Some(chosen), players) == Ok::<
            Seq<char>,
            Seq<char>,
        >(trimmed(chosen)),
        trimmed(chosen).len() == 0 ==> player_for(format, Some(chosen), players) is Err,
        format == "wav"@ && players.paplay ==> player_for(format, None, players) == Ok::<
            Seq<char>,
            Seq<char>,
        >("paplay"@),
        format == "wav"@ && !players.paplay && players.pw_play ==> player_for(format, None, players)
            == Ok::<Seq<char>, Seq<char>>("pw-play"@),
        format == "wav"@ && !players.paplay && !players.pw_play && players.aplay ==> player_for(
            format,
            None,
            players,
        ) == Ok::<Seq<char>, Seq<char>>("aplay"@),
        format == "wav"@ && !players.paplay && !players.pw_play && !players.aplay ==> player_for(
            format,
            None,
            players,
        ) is Err,
        format != "wav"@ && players.ffplay ==> player_for(format, None, players) == Ok::<
            Seq<char>,
            Seq<char>,
        >("ffplay"@),
        format != "wav"@ && !players.ffplay ==> player_for(format, None, players) is Err,
{
}

/// The player for a format: the operator's choice, or else the first that fits.
pub fn pick_player(format: &str, chosen: &Option<String>, players: Players) -> (r: Result<
    String,
    String,
>)
    ensures
        crate::text::outcome_view(r) == player_for(
            format@,
            crate::text::opt_text(*chosen),
            players,
        ),
{
    if let Some(player) = chosen {
        let player = trim(player.as_str());
        if player.as_str().is_empty() {
            return Err("NOTIFY_PLUGIN_AUDIO_PLAYER is set but empty".to_owned());
        }
        return Ok(player);
    }
    if same(format, "wav") {
        if players.paplay {
            return Ok("paplay".to_owned());
        }
        if players.pw_play {
            return Ok("pw-play".to_owned());
        }
        if players.aplay {
            return Ok("aplay".to_owned());
        }
        return Err(
            "no audio player found for wav: install paplay (libpulse), pw-play (pipewire), or aplay (alsa-utils), or set NOTIFY_PLUGIN_AUDIO_PLAYER".to_owned(),
        );
    }
    if players.ffplay {
        return Ok("ffplay".to_owned());
    }
    Err(
        join3(
            "no audio player found for '",
            format,
            "': install ffmpeg (provides ffplay) or set NOTIFY_PLUGIN_AUDIO_PLAYER",
        ),
    )
}

/// How the call into the `tts` plugin went.
#[derive(Debug, PartialEq, Eq)]
pub enum TtsReply {
    CallFailed { error: String },
    /// The plugin ended the action with an error.
    Refused { error: String },
    /// What the plugin replied did not decode.
    Undecodable { error: String },
    Answered { format: String, audio_base64: String },
}

/// Audio to play, and the player to play it with.
#[derive(Debug, PartialEq, Eq)]
pub struct Playback {
    pub player: String,
    pub format: String,
    pub audio: Vec<u8>,
}

/// Whether a format is fit to end a file name: letters and digits, at least one.
pub open spec fn is_plain_format(format: Seq<char>) -> bool {
    format.len() > 0 && forall|i: int|
        0 <= i < format.len() ==> is_ascii_alphanumeric(#[trigger] format[i])
}

/// Why audio cannot be played, if so, given what base64 makes of it.
pub open spec fn audio_error(
    format: Seq<char>,
    decoded: Result<Seq<u8>, Seq<char>>,
    chosen: Option<Seq<char>>,
    players: Players,
) -> Option<Seq<char>> {
    if format == "pcm"@ {
        Some("pcm format is not directly playable; use wav"@)
    } else if !is_plain_format(format) {
        Some("invalid tts audio format '"@ + format + "'"@)
    } else {
        match decoded {
            Err(e) => Some("failed to decode tts audio: "@ + e),
            Ok(_) => match player_for(format, chosen, players) {
                Err(e) => Some(e),
                Ok(_) => None,
            },
        }
    }
}

/// Audio can be played exactly where its format is plain and not `pcm`, it decodes, and
/// there is a player for it.
pub proof fn lemma_what_can_be_played(
    format: Seq<char>,
    decoded: Result<Seq<u8>, Seq<char>>,
    chosen: Option<Seq<char>>,
    players: Players,
)
    ensures
        audio_error(format, decoded, chosen, players) is None <==> format != "pcm"@ && format.len()
            > 0 && (forall|i: int|
            0 <= i < format.len() ==> {
                let c = #[trigger] format[i];
                'a' <= c <= 'z' || 'A' <= c <= 'Z' || '0' <= c <= '9'
            }) && decoded is Ok && player_for(format, chosen, players) is Ok,
{
    if is_plain_format(format) {
        assert forall|i: int| 0 <= i < format.len() implies is_ascii_alphanumeric(
            #[trigger] format[i],
        ) by {}
    }
}

/// Why a reply cannot be played, if so.
pub open spec fn playback_error(
    reply: TtsReply,
    chosen: Option<Seq<char>>,
    players: Players,
) -> Option<Seq<char>> {
    match reply {
        TtsReply::CallFailed { error } => Some("tts plugin call failed: "@ + error@),
        TtsReply::Refused { error } => Some(
            if error@.len() == 0 {
                "tts plugin returned an error"@
            } else {
                error@
            },
        ),
        TtsReply::Undecodable { error } => Some("failed to decode tts response: "@ + error@),
        TtsReply::Answered { format, audio_base64 } => audio_error(
            format@,
            base64_bytes(audio_base64@),
            chosen,
            players,
        ),
    }
}

/// Whether every character is a letter or a digit, and there is one.
fn plain_format(format: &str) -> (r: bool)
    ensures
        r == is_plain_format(format@),
{
    let cs = chars_of(format);
    let mut i: usize = 0;
    while i < cs.len()
        invariant
            i <= cs.len(),
            cs@ == format@,
            forall|j: int| 0 <= j < i ==> is_ascii_alphanumeric(#[trigger] cs@[j]),
        decreases cs.len() - i,
    {
        if !ascii_alphanumeric(cs[i]) {
            return false;
        }
        i += 1;
    }
    cs.len() > 0
}

/// What to play, given what base64 makes of the audio.
pub fn play_decoded(
    format: String,
    decoded: Result<Vec<u8>, String>,
    chosen: &Option<String>,
    players: Players,
) -> (r: Result<Playback, String>)
    ensures
        ({
            let error = audio_error(
                format@,
                bytes_outcome(decoded),
                crate::text::opt_text(*chosen),
                players,
            );
            match r {
                Err(e) => error == Some(e@),
                Ok(p) => error is None && p.format == format && decoded == Ok::<Vec<u8>, String>(
                    p.audio,
                ) && player_for(format@, crate::text::opt_text(*chosen), players) == Ok::<
                    Seq<char>,
                    Seq<char>,
                >(p.player@),
            }
        }),
{
    if same(format.as_str(), "pcm") {
        return Err("pcm format is not directly playable; use wav".to_owned());
    }
    if !plain_format(format.as_str()) {
        return Err(join3("invalid tts audio format '", format.as_str(), "'"));
    }
    let audio = match decoded {
        Ok(a) => a,
        Err(e) => return Err(join2("failed to decode tts audio: ", e.as_str())),
    };
    match pick_player(format.as_str(), chosen, players) {
        Ok(player) => Ok(Playback { player, format, audio }),
        Err(e) => Err(e),
    }
}

/// What to play for a reply of the `tts` plugin.
pub fn plan_playback(reply: TtsReply, chosen: &Option<String>, players: Players) -> (r: Result<
    Playback,
    String,
>)
    ensures
        match r {
            Err(e) => playback_error(reply, crate::text::opt_text(*chosen), players) == Some(e@),
            Ok(p) => {
                &&& playback_error(reply, crate::text::opt_text(*chosen), players) is None
                &&& reply matches TtsReply::Answered { format, audio_base64 } && p.format == format
                    && base64_bytes(audio_base64@) == Ok::<Seq<u8>, Seq<char>>(p.audio@)
                    && player_for(format@, crate::text::opt_text(*chosen), players) == Ok::<
                    Seq<char>,
                    Seq<char>,
                >(p.player@)
            },
        },
{
    match reply {
        TtsReply::CallFailed { error } => Err(join2("tts plugin call failed: ", error.as_str())),
        TtsReply::Refused { error } => if error.as_str().is_empty() {
            Err("tts plugin returned an error".to_owned())
        } else {
            Err(error)
        },
        TtsReply::Undecodable { error } => Err(
            join2("failed to decode tts response: ", error.as_str()),
        ),
        TtsReply::Answered { format, audio_base64 } => {
            let decoded = base64_decode(audio_base64.as_str());
            play_decoded(format, decoded, chosen, players)
        },
    }
}

/// The name of the file that audio is played from.
pub open spec fn audio_name(pid: u64, now_ms: u64, format: Seq<char>) -> Seq<char> {
    "notify-tts-"@ + decimal(pid as nat) + "-"@ + decimal(now_ms as nat) + "."@ + format
}

/// The name of the file that audio is played from.
pub fn audio_file_name(pid: u64, now_ms: u64, format: &str) -> (r: String)
    ensures
        r@ == audio_name(pid, now_ms, format@),
{
    let mut s = join2("notify-tts-", dec(pid).as_str());
    s.append("-");
    s.append(dec(now_ms).as_str());
    s.append(".");
    s.append(format);
    s
}

/// A file name for a plain format holds no separator, so the audio stays in the
/// directory for temporary files.
pub proof fn lemma_audio_name_is_local(pid: u64, now_ms: u64, format: Seq<char>)
    requires
        is_plain_format(format),
    ensures
        !audio_name(pid, now_ms, format).contains('/'),
{
    reveal_strlit("notify-tts-");
    reveal_strlit("-");
    reveal_strlit(".");
    crate::number::lemma_decimal(pid as nat);
    crate::number::lemma_decimal(now_ms as nat);
}

/// A provider is described by its id and by what it does, and is available exactly where
/// it is enabled and installed.
pub proof fn lemma_how_a_provider_is_described(
    info: ProviderInfo,
    kind: ProviderKind,
    enabled: Seq<ProviderKind>,
    installed: Installed,
)
    requires
        describes(info, kind, enabled, installed),
    ensures
        info.available <==> enabled.contains(kind) && is_installed(kind, installed),
        kind == ProviderKind::NotifySend ==> info.id@ == "notify-send"@ && info.name@
            == "notify-send"@ && info.description@
            == "libnotify desktop notification via notify-send"@,
        kind == ProviderKind::Wall ==> info.id@ == "wall"@ && info.name@ == "wall"@
            && info.description@ == "broadcast a message to all logged-in terminals (wall)"@,
        kind == ProviderKind::Espeak ==> info.id@ == "espeak"@ && info.name@ == "espeak"@
            && info.description@ == "spoken alert via espeak-ng (falls back to espeak)"@,
{
}

/// Reports take the operator's list where it is good, and all providers otherwise.
pub proof fn lemma_what_reports_assume(env: EnvValue, kind: ProviderKind)
    ensures
        env is Unset || env is Unreadable ==> reported_enabled(env).contains(kind),
        env matches EnvValue::Value { raw } ==> (enabled_by(raw@) is None ==> reported_enabled(
            env,
        ).contains(kind)) && (enabled_by(raw@) is Some ==> reported_enabled(env) == enabled_by(
            raw@,
        )->0),
        reported_enabled(EnvValue::Unset).len() == 3,
{
    let all = every_kind();
    assert(all[0] == ProviderKind::NotifySend && all[1] == ProviderKind::Wall && all[2]
        == ProviderKind::Espeak);
}

/// The field that a bad list is refused for is the first one that names anything but a
/// provider.
pub proof fn lemma_which_field_is_refused(fields: Seq<Seq<char>>, i: int, j: int)
    requires
        first_bad(fields, i),
    ensures
        0 <= i < fields.len(),
        trimmed(fields[i]).len() > 0,
        trimmed(fields[i]) != "notify-send"@ && trimmed(fields[i]) != "wall"@ && trimmed(fields[i])
            != "espeak"@,
        0 <= j < i ==> trimmed(fields[j]).len() == 0 || trimmed(fields[j]) == "notify-send"@
            || trimmed(fields[j]) == "wall"@ || trimmed(fields[j]) == "espeak"@,
{
    if 0 <= j < i {
        assert(!is_bad_field(fields[j]));
    }
}

/// A reply that is no audio is not played, and says why; audio is played where its format
/// and its content allow it.
pub proof fn lemma_what_keeps_speech_back(
    reply: TtsReply,
    chosen: Option<Seq<char>>,
    players: Players,
)
    ensures
        playback_error(reply, chosen, players) is None ==> reply is Answered,
        reply matches TtsReply::CallFailed { error } ==> playback_error(reply, chosen, players)
            == Some("tts plugin call failed: "@ + error@),
        reply matches TtsReply::Refused { error } ==> playback_error(reply, chosen, players) == Some(
            if error@.len() == 0 {
                "tts plugin returned an error"@
            } else {
                error@
            },
        ),
        reply matches TtsReply::Undecodable { error } ==> playback_error(reply, chosen, players)
            == Some("failed to decode tts response: "@ + error@),
        reply matches TtsReply::Answered { format, audio_base64 } ==> playback_error(
            reply,
            chosen,
            players,
        ) == audio_error(format@, base64_bytes(audio_base64@), chosen, players),
{
}

/// The enabled providers are named in order, a comma and a blank between them.
pub proof fn lemma_how_providers_are_named(enabled: Seq<ProviderKind>, kind: ProviderKind)
    ensures
        summary_of(Seq::empty()).len() == 0,
        enabled.len() == 0 ==> summary_of(enabled.push(kind)) == kind_id(kind),
        enabled.len() > 0 ==> summary_of(enabled.push(kind)) == summary_of(enabled) + ", "@
            + kind_id(kind),
{
    let ids = Seq::new(enabled.len(), |i: int| kind_id(enabled[i]));
    let more = enabled.push(kind);
    let all = Seq::new(more.len(), |i: int| kind_id(more[i]));
    assert(all.drop_last() =~= ids);
    assert(all.last() == kind_id(kind));
}

} // verus!
