//! The course of the `notify` actions and their replies.

use crate::fields::{join, joined, lemma_joined_grows, trim, trimmed};
use crate::notify::inbox::{listing, Inbox, InboxEntry};
use crate::notify::providers::{
    describes, every_kind, full_text, kind_id, kind_named, list_providers, reported_enabled,
    text_of, unknown_provider, Delivered, EnvValue, Installed, NotifyParams, ProviderInfo,
    ProviderKind,
};
use crate::number::{dec, decimal};
use crate::text::{has_infix, join2, join3, lemma_infix_at_end, lemma_infix_stays, texts};
use crate::trusted::{json_quote, json_quoted};
use vstd::prelude::*;

verus! {

/// A truth value as JSON.
pub open spec fn json_bool(b: bool) -> Seq<char> {
    if b {
        "true"@
    } else {
        "false"@
    }
}

fn bool_text(b: bool) -> (r: &'static str)
    ensures
        r@ == json_bool(b),
{
    if b {
        "true"
    } else {
        "false"
    }
}

// ---------------------------------------------------------------------------
// notify_send
// ---------------------------------------------------------------------------

/// What a `notify_send` does first.
#[derive(Debug, PartialEq, Eq)]
pub enum SendStep {
    /// Store this entry and nothing else.
    Store { entry: InboxEntry },
    /// Deliver through this provider.
    Deliver { kind: ProviderKind },
}

/// Whether `e` stores a notification under the name of a provider, not yet
/// numbered or dated.
pub open spec fn is_entry_for(
    e: InboxEntry,
    params: NotifyParams,
    provider: Seq<char>,
    delivered: bool,
    spoken: bool,
) -> bool {
    &&& e.id@.len() == 0
    &&& e.created_at_ms == 0
    &&& e.title == params.title
    &&& e.message == params.message
    &&& e.provider@ == provider
    &&& e.delivered == delivered
    &&& e.silent == !delivered
    &&& e.spoken == spoken
    &&& !e.read
}

/// A stored notification says what was sent: its title, its message, its provider,
/// whether it was delivered and spoken; it is new, and silent exactly where it was not
/// delivered.
pub proof fn lemma_what_is_stored(
    e: InboxEntry,
    params: NotifyParams,
    provider: Seq<char>,
    delivered: bool,
    spoken: bool,
)
    requires
        is_entry_for(e, params, provider, delivered, spoken),
    ensures
        e.title == params.title && e.message == params.message && e.provider@ == provider,
        e.delivered <==> delivered,
        e.silent <==> !delivered,
        e.spoken <==> spoken,
        !e.read,
{
}

fn entry_for(params: &NotifyParams, provider: &str, delivered: bool, spoken: bool) -> (r:
    InboxEntry)
    ensures
        is_entry_for(r, *params, provider@, delivered, spoken),
{
    InboxEntry {
        id: String::new(),
        created_at_ms: 0,
        title: params.title.clone(),
        message: params.message.clone(),
        provider: provider.to_owned(),
        delivered,
        silent: !delivered,
        spoken,
        read: false,
    }
}

/// Decides what a `notify_send` does. A silent one is stored only, whatever
/// provider it names and whatever else it asks for; any other one is delivered,
/// and its provider must be known.
pub fn begin_send(params: &NotifyParams) -> (r: Result<SendStep, String>)
    ensures
        if params.silent {
            r matches Ok(SendStep::Store { entry }) && is_entry_for(
                entry,
                *params,
                trimmed(params.provider@),
                false,
                false,
            )
        } else {
            match (kind_named(trimmed(params.provider@)), r) {
                (None, Err(e)) => e@ == unknown_provider(trimmed(params.provider@)),
                (Some(k), Ok(SendStep::Deliver { kind })) => kind == k,
                _ => false,
            }
        },
{
    if params.silent {
        let provider = trim(params.provider.as_str());
        return Ok(SendStep::Store { entry: entry_for(params, provider.as_str(), false, false) });
    }
    match ProviderKind::parse(params.provider.as_str()) {
        Ok(kind) => Ok(SendStep::Deliver { kind }),
        Err(e) => Err(e),
    }
}

/// The reply to a notification that was stored only.
pub open spec fn stored_text(id: Seq<char>) -> Seq<char> {
    "{\"delivered\":false,\"id\":"@ + json_quoted(id) + ",\"silent\":true,\"stored\":true}"@
}

/// The reply to a notification that was stored only names its entry and says that it was
/// not delivered.
pub proof fn lemma_what_a_stored_reply_tells(id: Seq<char>)
    ensures
        stored_text(id) == "{\"delivered\":false,\"id\":"@ + json_quoted(id)
            + ",\"silent\":true,\"stored\":true}"@,
{
}

/// The reply to a notification that was stored only; without an inbox it fails.
pub fn stored_reply(stored: Result<String, String>) -> (r: Result<String, String>)
    ensures
        match (stored, r) {
            (Ok(id), Ok(t)) => t@ == stored_text(id@),
            (Err(a), Err(b)) => a == b,
            _ => false,
        },
        stored matches Ok(id) ==> r is Ok && r->Ok_0@ == "{\"delivered\":false,\"id\":"@ + json_quoted(
            id@,
        ) + ",\"silent\":true,\"stored\":true}"@,
{
    match stored {
        Ok(id) => Ok(
            join3(
                "{\"delivered\":false,\"id\":",
                json_quote(id.as_str()).as_str(),
                ",\"silent\":true,\"stored\":true}",
            ),
        ),
        Err(e) => Err(e),
    }
}

/// What is spoken of a delivered notification, if it asks for that.
pub fn speech_text(params: &NotifyParams) -> (r: Option<String>)
    ensures
        crate::text::opt_text(r) == if params.speak {
            Some(text_of(*params))
        } else {
            None
        },
{
    if params.speak {
        Some(full_text(params))
    } else {
        None
    }
}

/// How speaking went, where it was asked for.
#[derive(Debug, PartialEq, Eq)]
pub enum Speech {
    NotAsked,
    Spoken,
    Failed { error: String },
}

/// The entry that records a delivered notification.
pub fn audit_entry(params: &NotifyParams, kind: ProviderKind, speech: &Speech) -> (r: InboxEntry)
    ensures
        is_entry_for(r, *params, kind_id(kind), true, *speech is Spoken),
{
    let spoken = match speech {
        Speech::Spoken => true,
        _ => false,
    };
    entry_for(params, kind.as_str(), true, spoken)
}

/// The reply to a delivered notification. A failed speech is told in it, and so
/// is, by an empty id, that no entry was recorded.
pub open spec fn sent_text(
    delivered: Delivered,
    speech: Speech,
    recorded: Result<String, String>,
) -> Seq<char> {
    "{\"command\":"@ + json_quoted(delivered.command@) + ",\"delivered\":true,\"detail\":"@
        + json_quoted(delivered.detail@) + ",\"id\":"@ + json_quoted(
        match recorded {
            Ok(id) => id@,
            Err(_) => Seq::empty(),
        },
    ) + ",\"provider\":"@ + json_quoted(delivered.provider@) + ",\"speak_error\":"@ + json_quoted(
        match speech {
            Speech::Failed { error } => error@,
            _ => Seq::empty(),
        },
    ) + ",\"spoken\":"@ + json_bool(speech is Spoken) + "}"@
}

/// The reply to a delivered notification names what delivered it and what that said, the
/// entry that records it, and how speaking went.
pub proof fn lemma_what_a_sent_reply_tells(
    delivered: Delivered,
    speech: Speech,
    recorded: Result<String, String>,
)
    ensures
        ({
            let t = sent_text(delivered, speech, recorded);
            &&& has_infix(t, "{\"command\":"@ + json_quoted(delivered.command@))
            &&& has_infix(
                t,
                ",\"delivered\":true,\"detail\":"@ + json_quoted(delivered.detail@),
            )
            &&& recorded is Ok ==> has_infix(t, ",\"id\":"@ + json_quoted(recorded->Ok_0@))
            &&& recorded is Err ==> has_infix(t, ",\"id\":"@ + json_quoted(Seq::empty()))
            &&& has_infix(t, ",\"provider\":"@ + json_quoted(delivered.provider@))
            &&& speech is Failed ==> has_infix(
                t,
                ",\"speak_error\":"@ + json_quoted(speech->error@),
            )
            &&& speech !is Failed ==> has_infix(
                t,
                ",\"speak_error\":"@ + json_quoted(Seq::empty()),
            )
            &&& speech is Spoken ==> has_infix(t, ",\"spoken\":"@ + "true"@)
            &&& speech !is Spoken ==> has_infix(t, ",\"spoken\":"@ + "false"@)
        }),
{
    let id = match recorded {
        Ok(id) => id@,
        Err(_) => Seq::empty(),
    };
    let error = match speech {
        Speech::Failed { error } => error@,
        _ => Seq::empty(),
    };
    let p0 = "{\"command\":"@;
    let p1 = json_quoted(delivered.command@);
    let p2 = ",\"delivered\":true,\"detail\":"@;
    let p3 = json_quoted(delivered.detail@);
    let p4 = ",\"id\":"@;
    let p5 = json_quoted(id);
    let p6 = ",\"provider\":"@;
    let p7 = json_quoted(delivered.provider@);
    let p8 = ",\"speak_error\":"@;
    let p9 = json_quoted(error);
    let p10 = ",\"spoken\":"@;
    let p11 = json_bool(speech is Spoken);
    let p12 = "}"@;
    let t0 = p0;
    let t1 = t0 + p1;
    let t2 = t1 + p2;
    let t3 = t2 + p3;
    let t4 = t3 + p4;
    let t5 = t4 + p5;
    let t6 = t5 + p6;
    let t7 = t6 + p7;
    let t8 = t7 + p8;
    let t9 = t8 + p9;
    let t10 = t9 + p10;
    let t11 = t10 + p11;
    let t12 = t11 + p12;
    assert(t1 =~= Seq::<char>::empty() + (p0 + p1));
    lemma_infix_at_end(Seq::<char>::empty(), p0 + p1);
    lemma_infix_stays(t1, p0 + p1, p2);
    lemma_infix_stays(t2, p0 + p1, p3);
    lemma_infix_stays(t3, p0 + p1, p4);
    lemma_infix_stays(t4, p0 + p1, p5);
    lemma_infix_stays(t5, p0 + p1, p6);
    lemma_infix_stays(t6, p0 + p1, p7);
    lemma_infix_stays(t7, p0 + p1, p8);
    lemma_infix_stays(t8, p0 + p1, p9);
    lemma_infix_stays(t9, p0 + p1, p10);
    lemma_infix_stays(t10, p0 + p1, p11);
    lemma_infix_stays(t11, p0 + p1, p12);
    assert(t3 =~= t1 + (p2 + p3));
    lemma_infix_at_end(t1, p2 + p3);
    lemma_infix_stays(t3, p2 + p3, p4);
    lemma_infix_stays(t4, p2 + p3, p5);
    lemma_infix_stays(t5, p2 + p3, p6);
    lemma_infix_stays(t6, p2 + p3, p7);
    lemma_infix_stays(t7, p2 + p3, p8);
    lemma_infix_stays(t8, p2 + p3, p9);
    lemma_infix_stays(t9, p2 + p3, p10);
    lemma_infix_stays(t10, p2 + p3, p11);
    lemma_infix_stays(t11, p2 + p3, p12);
    assert(t5 =~= t3 + (p4 + p5));
    lemma_infix_at_end(t3, p4 + p5);
    lemma_infix_stays(t5, p4 + p5, p6);
    lemma_infix_stays(t6, p4 + p5, p7);
    lemma_infix_stays(t7, p4 + p5, p8);
    lemma_infix_stays(t8, p4 + p5, p9);
    lemma_infix_stays(t9, p4 + p5, p10);
    lemma_infix_stays(t10, p4 + p5, p11);
    lemma_infix_stays(t11, p4 + p5, p12);
    assert(t7 =~= t5 + (p6 + p7));
    lemma_infix_at_end(t5, p6 + p7);
    lemma_infix_stays(t7, p6 + p7, p8);
    lemma_infix_stays(t8, p6 + p7, p9);
    lemma_infix_stays(t9, p6 + p7, p10);
    lemma_infix_stays(t10, p6 + p7, p11);
    lemma_infix_stays(t11, p6 + p7, p12);
    assert(t9 =~= t7 + (p8 + p9));
    lemma_infix_at_end(t7, p8 + p9);
    lemma_infix_stays(t9, p8 + p9, p10);
    lemma_infix_stays(t10, p8 + p9, p11);
    lemma_infix_stays(t11, p8 + p9, p12);
    assert(t11 =~= t9 + (p10 + p11));
    lemma_infix_at_end(t9, p10 + p11);
    lemma_infix_stays(t11, p10 + p11, p12);
    assert(sent_text(delivered, speech, recorded) == t12);
}

/// The reply to a delivered notification: neither a failed speech nor a missing
/// inbox fails it.
pub fn sent_reply(delivered: &Delivered, speech: &Speech, recorded: &Result<String, String>) -> (r:
    String)
    ensures
        r@ == sent_text(*delivered, *speech, *recorded),
{
    let id = match recorded {
        Ok(id) => id.clone(),
        Err(_) => String::new(),
    };
    let error = match speech {
        Speech::Failed { error } => error.clone(),
        _ => String::new(),
    };
    let spoken = match speech {
        Speech::Spoken => true,
        _ => false,
    };
    proof {
        assert(id@ == match *recorded {
            Ok(id) => id@,
            Err(_) => Seq::<char>::empty(),
        });
        assert(error@ == match *speech {
            Speech::Failed { error } => error@,
            _ => Seq::<char>::empty(),
        });
    }
    let mut s = join2("{\"command\":", json_quote(delivered.command.as_str()).as_str());
    s.append(",\"delivered\":true,\"detail\":");
    s.append(json_quote(delivered.detail.as_str()).as_str());
    s.append(",\"id\":");
    s.append(json_quote(id.as_str()).as_str());
    s.append(",\"provider\":");
    s.append(json_quote(delivered.provider.as_str()).as_str());
    s.append(",\"speak_error\":");
    s.append(json_quote(error.as_str()).as_str());
    s.append(",\"spoken\":");
    s.append(bool_text(spoken));
    s.append("}");
    s
}

// ---------------------------------------------------------------------------
// notify_providers
// ---------------------------------------------------------------------------

/// A provider as JSON.
pub open spec fn provider_text(p: ProviderInfo) -> Seq<char> {
    "{\"id\":"@ + json_quoted(p.id@) + ",\"name\":"@ + json_quoted(p.name@) + ",\"available\":"@
        + json_bool(p.available) + ",\"description\":"@ + json_quoted(p.description@) + "}"@
}

/// A provider as JSON holds its id, its name, whether it is available, and what it does.
pub proof fn lemma_what_a_provider_tells(p: ProviderInfo)
    ensures
        has_infix(provider_text(p), "{\"id\":"@ + json_quoted(p.id@)),
        has_infix(provider_text(p), ",\"name\":"@ + json_quoted(p.name@)),
        p.available ==> has_infix(provider_text(p), ",\"available\":"@ + "true"@),
        !p.available ==> has_infix(provider_text(p), ",\"available\":"@ + "false"@),
        has_infix(provider_text(p), ",\"description\":"@ + json_quoted(p.description@)),
{
    let p0 = "{\"id\":"@;
    let p1 = json_quoted(p.id@);
    let p2 = ",\"name\":"@;
    let p3 = json_quoted(p.name@);
    let p4 = ",\"available\":"@;
    let p5 = json_bool(p.available);
    let p6 = ",\"description\":"@;
    let p7 = json_quoted(p.description@);
    let p8 = "}"@;
    let t0 = p0;
    let t1 = t0 + p1;
    let t2 = t1 + p2;
    let t3 = t2 + p3;
    let t4 = t3 + p4;
    let t5 = t4 + p5;
    let t6 = t5 + p6;
    let t7 = t6 + p7;
    let t8 = t7 + p8;
    assert(t1 =~= Seq::<char>::empty() + (p0 + p1));
    lemma_infix_at_end(Seq::<char>::empty(), p0 + p1);
    lemma_infix_stays(t1, p0 + p1, p2);
    lemma_infix_stays(t2, p0 + p1, p3);
    lemma_infix_stays(t3, p0 + p1, p4);
    lemma_infix_stays(t4, p0 + p1, p5);
    lemma_infix_stays(t5, p0 + p1, p6);
    lemma_infix_stays(t6, p0 + p1, p7);
    lemma_infix_stays(t7, p0 + p1, p8);
    assert(t3 =~= t1 + (p2 + p3));
    lemma_infix_at_end(t1, p2 + p3);
    lemma_infix_stays(t3, p2 + p3, p4);
    lemma_infix_stays(t4, p2 + p3, p5);
    lemma_infix_stays(t5, p2 + p3, p6);
    lemma_infix_stays(t6, p2 + p3, p7);
    lemma_infix_stays(t7, p2 + p3, p8);
    assert(t5 =~= t3 + (p4 + p5));
    lemma_infix_at_end(t3, p4 + p5);
    lemma_infix_stays(t5, p4 + p5, p6);
    lemma_infix_stays(t6, p4 + p5, p7);
    lemma_infix_stays(t7, p4 + p5, p8);
    assert(t7 =~= t5 + (p6 + p7));
    lemma_infix_at_end(t5, p6 + p7);
    lemma_infix_stays(t7, p6 + p7, p8);
    assert(provider_text(p) == t8);
}

/// Providers as a JSON array.
pub open spec fn providers_text(infos: Seq<ProviderInfo>) -> Seq<char> {
    "["@ + joined(Seq::new(infos.len(), |i: int| provider_text(infos[i])), ","@) + "]"@
}

/// The reply to `notify_providers`: all providers with their availability.
pub fn handle_notify_providers(env: &EnvValue, installed: Installed) -> (r: String)
    ensures
        exists|infos: Seq<ProviderInfo>|
            infos.len() == 3 && r@ == providers_text(infos) && forall|i: int|
                0 <= i < 3 ==> describes(
                    #[trigger] infos[i],
                    every_kind()[i],
                    reported_enabled(*env),
                    installed,
                ),
{
    let infos = list_providers(env, installed);
    let mut parts: Vec<String> = Vec::new();
    let mut i: usize = 0;
    while i < infos.len()
        invariant
            i <= infos.len(),
            parts@.len() == i,
            forall|j: int| 0 <= j < i ==> (#[trigger] parts@[j])@ == provider_text(infos@[j]),
        decreases infos.len() - i,
    {
        let p = &infos[i];
        let mut s = join2("{\"id\":", json_quote(p.id.as_str()).as_str());
        s.append(",\"name\":");
        s.append(json_quote(p.name.as_str()).as_str());
        s.append(",\"available\":");
        s.append(bool_text(p.available));
        s.append(",\"description\":");
        s.append(json_quote(p.description.as_str()).as_str());
        s.append("}");
        parts.push(s);
        i += 1;
    }
    assert(texts(parts@) =~= Seq::new(infos@.len(), |i: int| provider_text(infos@[i])));
    let r = join3("[", join(&parts, ",").as_str(), "]");
    assert(r@ == providers_text(infos@));
    r
}

// ---------------------------------------------------------------------------
// Inbox actions
// ---------------------------------------------------------------------------

/// An entry as JSON.
pub open spec fn entry_text(e: InboxEntry) -> Seq<char> {
    "{\"created_at_ms\":"@ + decimal(e.created_at_ms as nat) + ",\"delivered\":"@ + json_bool(
        e.delivered,
    ) + ",\"id\":"@ + json_quoted(e.id@) + ",\"message\":"@ + json_quoted(e.message@)
        + ",\"provider\":"@ + json_quoted(e.provider@) + ",\"read\":"@ + json_bool(e.read)
        + ",\"silent\":"@ + json_bool(e.silent) + ",\"spoken\":"@ + json_bool(e.spoken)
        + ",\"title\":"@ + json_quoted(e.title@) + "}"@
}

/// An entry as JSON holds its id, what it says and when it came, each under its own
/// name.
pub proof fn lemma_what_an_entry_says(e: InboxEntry)
    ensures
        has_infix(
            entry_text(e),
            "{\"created_at_ms\":"@ + decimal(e.created_at_ms as nat) + ",\"delivered\":"@,
        ),
        has_infix(entry_text(e), ",\"id\":"@ + json_quoted(e.id@)),
        has_infix(entry_text(e), ",\"message\":"@ + json_quoted(e.message@)),
        has_infix(entry_text(e), ",\"provider\":"@ + json_quoted(e.provider@)),
        has_infix(entry_text(e), ",\"title\":"@ + json_quoted(e.title@)),
{
    let p0 = "{\"created_at_ms\":"@;
    let p1 = decimal(e.created_at_ms as nat);
    let p2 = ",\"delivered\":"@;
    let p3 = json_bool(e.delivered);
    let p4 = ",\"id\":"@;
    let p5 = json_quoted(e.id@);
    let p6 = ",\"message\":"@;
    let p7 = json_quoted(e.message@);
    let p8 = ",\"provider\":"@;
    let p9 = json_quoted(e.provider@);
    let p10 = ",\"read\":"@;
    let p11 = json_bool(e.read);
    let p12 = ",\"silent\":"@;
    let p13 = json_bool(e.silent);
    let p14 = ",\"spoken\":"@;
    let p15 = json_bool(e.spoken);
    let p16 = ",\"title\":"@;
    let p17 = json_quoted(e.title@);
    let p18 = "}"@;
    let t0 = p0;
    let t1 = t0 + p1;
    let t2 = t1 + p2;
    let t3 = t2 + p3;
    let t4 = t3 + p4;
    let t5 = t4 + p5;
    let t6 = t5 + p6;
    let t7 = t6 + p7;
    let t8 = t7 + p8;
    let t9 = t8 + p9;
    let t10 = t9 + p10;
    let t11 = t10 + p11;
    let t12 = t11 + p12;
    let t13 = t12 + p13;
    let t14 = t13 + p14;
    let t15 = t14 + p15;
    let t16 = t15 + p16;
    let t17 = t16 + p17;
    let t18 = t17 + p18;
    assert(t2 =~= Seq::<char>::empty() + (p0 + p1 + p2));
    lemma_infix_at_end(Seq::<char>::empty(), p0 + p1 + p2);
    lemma_infix_stays(t2, p0 + p1 + p2, p3);
    lemma_infix_stays(t3, p0 + p1 + p2, p4);
    lemma_infix_stays(t4, p0 + p1 + p2, p5);
    lemma_infix_stays(t5, p0 + p1 + p2, p6);
    lemma_infix_stays(t6, p0 + p1 + p2, p7);
    lemma_infix_stays(t7, p0 + p1 + p2, p8);
    lemma_infix_stays(t8, p0 + p1 + p2, p9);
    lemma_infix_stays(t9, p0 + p1 + p2, p10);
    lemma_infix_stays(t10, p0 + p1 + p2, p11);
    lemma_infix_stays(t11, p0 + p1 + p2, p12);
    lemma_infix_stays(t12, p0 + p1 + p2, p13);
    lemma_infix_stays(t13, p0 + p1 + p2, p14);
    lemma_infix_stays(t14, p0 + p1 + p2, p15);
    lemma_infix_stays(t15, p0 + p1 + p2, p16);
    lemma_infix_stays(t16, p0 + p1 + p2, p17);
    lemma_infix_stays(t17, p0 + p1 + p2, p18);
    assert(t5 =~= t3 + (p4 + p5));
    lemma_infix_at_end(t3, p4 + p5);
    lemma_infix_stays(t5, p4 + p5, p6);
    lemma_infix_stays(t6, p4 + p5, p7);
    lemma_infix_stays(t7, p4 + p5, p8);
    lemma_infix_stays(t8, p4 + p5, p9);
    lemma_infix_stays(t9, p4 + p5, p10);
    lemma_infix_stays(t10, p4 + p5, p11);
    lemma_infix_stays(t11, p4 + p5, p12);
    lemma_infix_stays(t12, p4 + p5, p13);
    lemma_infix_stays(t13, p4 + p5, p14);
    lemma_infix_stays(t14, p4 + p5, p15);
    lemma_infix_stays(t15, p4 + p5, p16);
    lemma_infix_stays(t16, p4 + p5, p17);
    lemma_infix_stays(t17, p4 + p5, p18);
    assert(t7 =~= t5 + (p6 + p7));
    lemma_infix_at_end(t5, p6 + p7);
    lemma_infix_stays(t7, p6 + p7, p8);
    lemma_infix_stays(t8, p6 + p7, p9);
    lemma_infix_stays(t9, p6 + p7, p10);
    lemma_infix_stays(t10, p6 + p7, p11);
    lemma_infix_stays(t11, p6 + p7, p12);
    lemma_infix_stays(t12, p6 + p7, p13);
    lemma_infix_stays(t13, p6 + p7, p14);
    lemma_infix_stays(t14, p6 + p7, p15);
    lemma_infix_stays(t15, p6 + p7, p16);
    lemma_infix_stays(t16, p6 + p7, p17);
    lemma_infix_stays(t17, p6 + p7, p18);
    assert(t9 =~= t7 + (p8 + p9));
    lemma_infix_at_end(t7, p8 + p9);
    lemma_infix_stays(t9, p8 + p9, p10);
    lemma_infix_stays(t10, p8 + p9, p11);
    lemma_infix_stays(t11, p8 + p9, p12);
    lemma_infix_stays(t12, p8 + p9, p13);
    lemma_infix_stays(t13, p8 + p9, p14);
    lemma_infix_stays(t14, p8 + p9, p15);
    lemma_infix_stays(t15, p8 + p9, p16);
    lemma_infix_stays(t16, p8 + p9, p17);
    lemma_infix_stays(t17, p8 + p9, p18);
    assert(t17 =~= t15 + (p16 + p17));
    lemma_infix_at_end(t15, p16 + p17);
    lemma_infix_stays(t17, p16 + p17, p18);
    assert(entry_text(e) == t18);
}

/// An entry as JSON tells whether it was delivered and read, each under its own name.
pub proof fn lemma_what_became_of_an_entry(e: InboxEntry)
    ensures
        has_infix(entry_text(e), ",\"delivered\":"@ + json_bool(e.delivered)),
        has_infix(entry_text(e), ",\"read\":"@ + json_bool(e.read)),
        json_bool(true) == "true"@,
        json_bool(false) == "false"@,
{
    let p0 = "{\"created_at_ms\":"@;
    let p1 = decimal(e.created_at_ms as nat);
    let p2 = ",\"delivered\":"@;
    let p3 = json_bool(e.delivered);
    let p4 = ",\"id\":"@;
    let p5 = json_quoted(e.id@);
    let p6 = ",\"message\":"@;
    let p7 = json_quoted(e.message@);
    let p8 = ",\"provider\":"@;
    let p9 = json_quoted(e.provider@);
    let p10 = ",\"read\":"@;
    let p11 = json_bool(e.read);
    let p12 = ",\"silent\":"@;
    let p13 = json_bool(e.silent);
    let p14 = ",\"spoken\":"@;
    let p15 = json_bool(e.spoken);
    let p16 = ",\"title\":"@;
    let p17 = json_quoted(e.title@);
    let p18 = "}"@;
    let t0 = p0;
    let t1 = t0 + p1;
    let t2 = t1 + p2;
    let t3 = t2 + p3;
    let t4 = t3 + p4;
    let t5 = t4 + p5;
    let t6 = t5 + p6;
    let t7 = t6 + p7;
    let t8 = t7 + p8;
    let t9 = t8 + p9;
    let t10 = t9 + p10;
    let t11 = t10 + p11;
    let t12 = t11 + p12;
    let t13 = t12 + p13;
    let t14 = t13 + p14;
    let t15 = t14 + p15;
    let t16 = t15 + p16;
    let t17 = t16 + p17;
    let t18 = t17 + p18;
    assert(t3 =~= t1 + (p2 + p3));
    lemma_infix_at_end(t1, p2 + p3);
    lemma_infix_stays(t3, p2 + p3, p4);
    lemma_infix_stays(t4, p2 + p3, p5);
    lemma_infix_stays(t5, p2 + p3, p6);
    lemma_infix_stays(t6, p2 + p3, p7);
    lemma_infix_stays(t7, p2 + p3, p8);
    lemma_infix_stays(t8, p2 + p3, p9);
    lemma_infix_stays(t9, p2 + p3, p10);
    lemma_infix_stays(t10, p2 + p3, p11);
    lemma_infix_stays(t11, p2 + p3, p12);
    lemma_infix_stays(t12, p2 + p3, p13);
    lemma_infix_stays(t13, p2 + p3, p14);
    lemma_infix_stays(t14, p2 + p3, p15);
    lemma_infix_stays(t15, p2 + p3, p16);
    lemma_infix_stays(t16, p2 + p3, p17);
    lemma_infix_stays(t17, p2 + p3, p18);
    assert(t11 =~= t9 + (p10 + p11));
    lemma_infix_at_end(t9, p10 + p11);
    lemma_infix_stays(t11, p10 + p11, p12);
    lemma_infix_stays(t12, p10 + p11, p13);
    lemma_infix_stays(t13, p10 + p11, p14);
    lemma_infix_stays(t14, p10 + p11, p15);
    lemma_infix_stays(t15, p10 + p11, p16);
    lemma_infix_stays(t16, p10 + p11, p17);
    lemma_infix_stays(t17, p10 + p11, p18);
    assert(entry_text(e) == t18);
}

/// An entry as JSON tells whether it was silent and spoken, each under its own name.
pub proof fn lemma_how_an_entry_came(e: InboxEntry)
    ensures
        has_infix(entry_text(e), ",\"silent\":"@ + json_bool(e.silent)),
        has_infix(entry_text(e), ",\"spoken\":"@ + json_bool(e.spoken)),
{
    let p0 = "{\"created_at_ms\":"@;
    let p1 = decimal(e.created_at_ms as nat);
    let p2 = ",\"delivered\":"@;
    let p3 = json_bool(e.delivered);
    let p4 = ",\"id\":"@;
    let p5 = json_quoted(e.id@);
    let p6 = ",\"message\":"@;
    let p7 = json_quoted(e.message@);
    let p8 = ",\"provider\":"@;
    let p9 = json_quoted(e.provider@);
    let p10 = ",\"read\":"@;
    let p11 = json_bool(e.read);
    let p12 = ",\"silent\":"@;
    let p13 = json_bool(e.silent);
    let p14 = ",\"spoken\":"@;
    let p15 = json_bool(e.spoken);
    let p16 = ",\"title\":"@;
    let p17 = json_quoted(e.title@);
    let p18 = "}"@;
    let t0 = p0;
    let t1 = t0 + p1;
    let t2 = t1 + p2;
    let t3 = t2 + p3;
    let t4 = t3 + p4;
    let t5 = t4 + p5;
    let t6 = t5 + p6;
    let t7 = t6 + p7;
    let t8 = t7 + p8;
    let t9 = t8 + p9;
    let t10 = t9 + p10;
    let t11 = t10 + p11;
    let t12 = t11 + p12;
    let t13 = t12 + p13;
    let t14 = t13 + p14;
    let t15 = t14 + p15;
    let t16 = t15 + p16;
    let t17 = t16 + p17;
    let t18 = t17 + p18;
    assert(t13 =~= t11 + (p12 + p13));
    lemma_infix_at_end(t11, p12 + p13);
    lemma_infix_stays(t13, p12 + p13, p14);
    lemma_infix_stays(t14, p12 + p13, p15);
    lemma_infix_stays(t15, p12 + p13, p16);
    lemma_infix_stays(t16, p12 + p13, p17);
    lemma_infix_stays(t17, p12 + p13, p18);
    assert(t15 =~= t13 + (p14 + p15));
    lemma_infix_at_end(t13, p14 + p15);
    lemma_infix_stays(t15, p14 + p15, p16);
    lemma_infix_stays(t16, p14 + p15, p17);
    lemma_infix_stays(t17, p14 + p15, p18);
    assert(entry_text(e) == t18);
}

fn entry_json(e: &InboxEntry) -> (r: String)
    ensures
        r@ == entry_text(*e),
{
    let mut s = join2("{\"created_at_ms\":", dec(e.created_at_ms).as_str());
    s.append(",\"delivered\":");
    s.append(bool_text(e.delivered));
    s.append(",\"id\":");
    s.append(json_quote(e.id.as_str()).as_str());
    s.append(",\"message\":");
    s.append(json_quote(e.message.as_str()).as_str());
    s.append(",\"provider\":");
    s.append(json_quote(e.provider.as_str()).as_str());
    s.append(",\"read\":");
    s.append(bool_text(e.read));
    s.append(",\"silent\":");
    s.append(bool_text(e.silent));
    s.append(",\"spoken\":");
    s.append(bool_text(e.spoken));
    s.append(",\"title\":");
    s.append(json_quote(e.title.as_str()).as_str());
    s.append("}");
    s
}

/// Stored notifications as JSON.
pub open spec fn list_text(entries: Seq<InboxEntry>) -> Seq<char> {
    "{\"notifications\":["@ + joined(Seq::new(entries.len(), |i: int| entry_text(entries[i])), ","@)
        + "]}"@
}

/// A list grows at its end by one entry at a time, so entries are written in the order
/// in which they are listed.
pub proof fn lemma_a_list_is_in_order(entries: Seq<InboxEntry>, e: InboxEntry) -> (said: Seq<char>)
    requires
        entries.len() > 0,
    ensures
        list_text(entries) == said + "]}"@,
        list_text(entries.push(e)) == said + ","@ + entry_text(e) + "]}"@,
        list_text(seq![e]) == "{\"notifications\":["@ + entry_text(e) + "]}"@,
{
    let a = Seq::new(entries.len(), |i: int| entry_text(entries[i]));
    let longer = entries.push(e);
    let b = Seq::new(longer.len(), |i: int| entry_text(longer[i]));
    let one = seq![e];
    assert(b =~= a.push(entry_text(e)));
    assert(Seq::new(one.len(), |i: int| entry_text(one[i])) =~= seq![entry_text(e)]);
    lemma_joined_grows(a, ","@, entry_text(e));
    let said = "{\"notifications\":["@ + joined(a, ","@);
    assert(list_text(longer) =~= said + ","@ + entry_text(e) + "]}"@);
    said
}

/// The reply to `notify_list`: stored notifications, newest first.
pub fn handle_notify_list(inbox: &Inbox, include_read: bool) -> (r: String)
    ensures
        r@ == list_text(listing(inbox.entries@, include_read)),
{
    let entries = inbox.list(include_read);
    let mut parts: Vec<String> = Vec::new();
    let mut i: usize = 0;
    while i < entries.len()
        invariant
            i <= entries.len(),
            parts@.len() == i,
            forall|j: int| 0 <= j < i ==> (#[trigger] parts@[j])@ == entry_text(entries@[j]),
        decreases entries.len() - i,
    {
        parts.push(entry_json(&entries[i]));
        i += 1;
    }
    assert(texts(parts@) =~= Seq::new(entries@.len(), |i: int| entry_text(entries@[i])));
    join3("{\"notifications\":[", join(&parts, ",").as_str(), "]}")
}

/// The reply to `notify_mark_read`: whether the entry was there and unread.
pub fn handle_notify_mark_read(inbox: &mut Inbox, id: &str) -> (r: String)
    ensures
        final(inbox).path == old(inbox).path,
        final(inbox).next_seq == old(inbox).next_seq,
        ({
            let hit = exists|i: int| #[trigger]
                crate::notify::inbox::first_with(old(inbox).entries@, id@, i) && !old(
                    inbox,
                ).entries@[i].read;
            &&& r@ == "{\"updated\":"@ + json_bool(hit) + "}"@
            &&& !hit ==> final(inbox).entries@ == old(inbox).entries@
            &&& hit ==> exists|i: int|
                crate::notify::inbox::first_with(old(inbox).entries@, id@, i)
                    && final(inbox).entries@ == #[trigger] old(inbox).entries@.update(
                    i,
                    crate::notify::inbox::marked(old(inbox).entries@[i]),
                )
        }),
{
    let updated = inbox.mark_read(id);
    join3("{\"updated\":", bool_text(updated), "}")
}

/// The reply to `notify_delete`: whether the entry was there.
pub fn handle_notify_delete(inbox: &mut Inbox, id: &str) -> (r: String)
    ensures
        r@ == "{\"deleted\":"@ + json_bool(
            crate::notify::inbox::has_id(old(inbox).entries@, id@),
        ) + "}"@,
        final(inbox).path == old(inbox).path,
        final(inbox).next_seq == old(inbox).next_seq,
        final(inbox).entries@ == crate::notify::inbox::without(old(inbox).entries@, id@),
{
    let deleted = inbox.delete(id);
    join3("{\"deleted\":", bool_text(deleted), "}")
}

} // verus!
