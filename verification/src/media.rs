//! The `media` plugin: control of MPRIS players on the session bus.

use crate::fields::{comma_items, join, joined, list_items};
use crate::number::{dec, decimal, signed_dec, signed_decimal};
use crate::settings::{read_text, text_setting};
use crate::sorting::{sort_texts, texts_sorted};
use crate::strmap::StrMap;
use crate::text::{
    has_infix, has_prefix, join2, join3, lemma_contains_text,
    lemma_infix_at_end, lemma_infix_stays, list_contains, opt_text, outcome_view, same,
    starts_with, texts,
};
use crate::trusted::{
    debug_form, debug_text, json_number_at, json_number_member, json_quote, json_quoted,
    json_text_at, json_text_member,
};
use vstd::prelude::*;

verus! {

/// What the bus names of players start with.
pub const MPRIS_PREFIX: &'static str = "org.mpris.MediaPlayer2.";

pub const MPRIS_PATH: &'static str = "/org/mpris/MediaPlayer2";

pub const PLAYER_IFACE: &'static str = "org.mpris.MediaPlayer2.Player";

// ---------------------------------------------------------------------------
// Players
// ---------------------------------------------------------------------------

/// Which players the operator permits and prefers.
#[derive(Debug, PartialEq, Eq)]
pub struct PlayerPolicy {
    /// The permitted players; all where there is no list.
    pub allowed: Option<Vec<String>>,
    pub default_player: Option<String>,
}

/// The permitted players of a setting; an empty list permits all.
pub open spec fn allowed_list(value: Option<String>) -> Option<Seq<Seq<char>>> {
    match value {
        Some(s) => if list_items(s@).len() > 0 {
            Some(list_items(s@))
        } else {
            None
        },
        None => None,
    }
}

/// A list of texts, where there is one.
pub open spec fn opt_texts(v: Option<Vec<String>>) -> Option<Seq<Seq<char>>> {
    match v {
        Some(v) => Some(texts(v@)),
        None => None,
    }
}

/// The policy from the values of `MEDIA_PLUGIN_PLAYERS` and
/// `MEDIA_PLUGIN_DEFAULT_PLAYER`.
pub fn load_policy(players: &Option<String>, default_player: &Option<String>) -> (r: PlayerPolicy)
    ensures
        opt_texts(r.allowed) == allowed_list(*players),
        opt_text(r.default_player) == text_setting(*default_player),
        players is None ==> r.allowed is None,
        players is Some ==> (r.allowed is Some <==> list_items(players->0@).len() > 0),
        r.allowed matches Some(names) ==> texts(names@) == list_items(players->0@),
{
    let allowed = match players {
        Some(s) => {
            let items = comma_items(s.as_str());
            if items.len() > 0 {
                Some(items)
            } else {
                None
            }
        },
        None => None,
    };
    PlayerPolicy { allowed, default_player: read_text(default_player) }
}

/// Whether the operator permits a player.
pub open spec fn permits(policy: PlayerPolicy, name: Seq<char>) -> bool {
    match policy.allowed {
        None => true,
        Some(list) => texts(list@).contains(name),
    }
}

/// Whether the operator permits a player.
pub fn is_allowed(policy: &PlayerPolicy, name: &str) -> (r: bool)
    ensures
        r == permits(*policy, name@),
        policy.allowed is None ==> r,
        policy.allowed matches Some(list) ==> (r <==> exists|i: int|
            0 <= i < list@.len() && (#[trigger] list@[i])@ == name@),
{
    proof {
        if policy.allowed is Some {
            lemma_contains_text(policy.allowed->0@, name@);
        }
    }
    match &policy.allowed {
        None => true,
        Some(list) => list_contains(list, name),
    }
}

/// A policy without a list permits every player; one with a list exactly those that
/// it names.
pub proof fn lemma_who_is_permitted(policy: PlayerPolicy, name: Seq<char>)
    ensures
        policy.allowed is None ==> permits(policy, name),
        policy.allowed matches Some(list) ==> (permits(policy, name) <==> exists|i: int|
            0 <= i < list@.len() && (#[trigger] list@[i])@ == name),
{
    if policy.allowed is Some {
        lemma_contains_text(policy.allowed->0@, name);
    }
}

/// Texts as `{:?}` prints a list of them.
pub open spec fn debug_list(items: Seq<Seq<char>>) -> Seq<char> {
    "["@ + joined(Seq::new(items.len(), |i: int| debug_text(items[i])), ", "@) + "]"@
}

fn debug_texts(items: &Vec<String>) -> (r: String)
    ensures
        r@ == debug_list(texts(items@)),
{
    let ghost all = texts(items@);
    let mut out: Vec<String> = Vec::new();
    let mut i: usize = 0;
    while i < items.len()
        invariant
            i <= items.len(),
            all == texts(items@),
            out@.len() == i,
            forall|j: int| 0 <= j < i ==> (#[trigger] out@[j])@ == debug_text(all[j]),
        decreases items.len() - i,
    {
        out.push(debug_form(items[i].as_str()));
        i += 1;
    }
    assert(texts(out@) =~= Seq::new(all.len(), |i: int| debug_text(all[i])));
    join3("[", join(&out, ", ").as_str(), "]")
}

/// The position of the first permitted player.
pub open spec fn first_permitted(
    policy: PlayerPolicy,
    available: Seq<Seq<char>>,
    i: int,
) -> bool {
    &&& 0 <= i < available.len()
    &&& permits(policy, available[i])
    &&& forall|j: int| 0 <= j < i ==> !permits(policy, #[trigger] available[j])
}

/// Whether no player is permitted.
pub open spec fn none_permitted(policy: PlayerPolicy, available: Seq<Seq<char>>) -> bool {
    forall|j: int| 0 <= j < available.len() ==> !permits(policy, #[trigger] available[j])
}

/// Whether `r` is the player that a request goes to: the one that it names, or
/// else the operator's default where that is running, or else the first one.
pub open spec fn is_resolved(
    requested: Option<Seq<char>>,
    available: Seq<Seq<char>>,
    policy: PlayerPolicy,
    r: Result<Seq<char>, Seq<char>>,
) -> bool {
    let default = opt_text(policy.default_player);
    if requested is Some {
        let name = requested->0;
        if !permits(policy, name) {
            r == Err::<Seq<char>, Seq<char>>(
                "ERR_MEDIA_PLAYER_NOT_ALLOWED: '"@ + name + "' not in MEDIA_PLUGIN_PLAYERS"@,
            )
        } else if !available.contains(name) {
            r == Err::<Seq<char>, Seq<char>>(
                "ERR_MEDIA_PLAYER_NOT_FOUND: '"@ + name + "' not available (have: "@ + debug_list(
                    available,
                ) + ")"@,
            )
        } else {
            r == Ok::<Seq<char>, Seq<char>>(name)
        }
    } else if default is Some && !permits(policy, default->0) {
        r == Err::<Seq<char>, Seq<char>>(
            "ERR_MEDIA_PLAYER_NOT_ALLOWED: default '"@ + default->0 + "' not in allowlist"@,
        )
    } else if default is Some && available.contains(default->0) {
        r == Ok::<Seq<char>, Seq<char>>(default->0)
    } else if none_permitted(policy, available) {
        r == Err::<Seq<char>, Seq<char>>("ERR_MEDIA_NO_PLAYERS: no MPRIS players available"@)
    } else {
        exists|i: int| #[trigger]
            first_permitted(policy, available, i) && r == Ok::<Seq<char>, Seq<char>>(available[i])
    }
}

/// A request goes to the player that it names where that is permitted and running,
/// and fails otherwise. One that names none goes to the operator's default where
/// that is running, or else to the first permitted player.
pub proof fn lemma_whom_a_request_goes_to(
    requested: Option<Seq<char>>,
    available: Seq<Seq<char>>,
    policy: PlayerPolicy,
    r: Result<Seq<char>, Seq<char>>,
)
    requires
        is_resolved(requested, available, policy, r),
    ensures
        requested matches Some(name) ==> (r is Ok <==> permits(policy, name) && available.contains(
            name,
        )) && (r is Ok ==> r->Ok_0 == name),
        requested is None && (policy.default_player matches Some(d) && permits(policy, d@)
            && available.contains(d@)) ==> r == Ok::<Seq<char>, Seq<char>>(
            policy.default_player->0@,
        ),
        requested is None && (policy.default_player matches Some(d) && !permits(policy, d@))
            ==> r is Err,
        requested is None && (policy.default_player is None || permits(
            policy,
            policy.default_player->0@,
        ) && !available.contains(policy.default_player->0@)) && available.len() > 0 && permits(
            policy,
            available[0],
        ) ==> r == Ok::<Seq<char>, Seq<char>>(available[0]),
        requested is None && available.len() == 0 ==> r is Err,
{
    if requested is None && r is Ok && available.len() > 0 && permits(policy, available[0]) {
        if !none_permitted(policy, available) && !(policy.default_player is Some
            && available.contains(policy.default_player->0@)) {
            let i = choose|i: int| #[trigger]
                first_permitted(policy, available, i) && r == Ok::<Seq<char>, Seq<char>>(
                    available[i],
                );
            assert(i == 0);
        }
    }
}

/// The player that a request goes to.
pub fn resolve_player(requested: Option<&str>, available: &Vec<String>, policy: &PlayerPolicy) -> (r:
    Result<String, String>)
    ensures
        is_resolved(
            match requested {
                Some(s) => Some(s@),
                None => None,
            },
            texts(available@),
            *policy,
            outcome_view(r),
        ),
        requested matches Some(name) ==> (r is Ok <==> permits(*policy, name@) && texts(
            available@,
        ).contains(name@)) && (r is Ok ==> r->Ok_0@ == name@),
        requested is None && (policy.default_player matches Some(d) && permits(*policy, d@) && texts(
            available@,
        ).contains(d@)) ==> r is Ok && r->Ok_0@ == policy.default_player->0@,
        requested is None && (policy.default_player matches Some(d) && !permits(*policy, d@))
            ==> r is Err,
        requested is None && (policy.default_player is None || permits(
            *policy,
            policy.default_player->0@,
        ) && !texts(available@).contains(policy.default_player->0@)) && available@.len() > 0
            && permits(*policy, available@[0]@) ==> r is Ok && r->Ok_0@ == available@[0]@,
{
    if let Some(name) = requested {
        if !is_allowed(policy, name) {
            return Err(
                join3(
                    "ERR_MEDIA_PLAYER_NOT_ALLOWED: '",
                    name,
                    "' not in MEDIA_PLUGIN_PLAYERS",
                ),
            );
        }
        if !list_contains(available, name) {
            let mut e = join3("ERR_MEDIA_PLAYER_NOT_FOUND: '", name, "' not available (have: ");
            e.append(debug_texts(available).as_str());
            e.append(")");
            return Err(e);
        }
        return Ok(name.to_owned());
    }
    if let Some(default) = &policy.default_player {
        if !is_allowed(policy, default.as_str()) {
            return Err(
                join3(
                    "ERR_MEDIA_PLAYER_NOT_ALLOWED: default '",
                    default.as_str(),
                    "' not in allowlist",
                ),
            );
        }
        if list_contains(available, default.as_str()) {
            return Ok(default.clone());
        }
    }
    let ghost all = texts(available@);
    let mut i: usize = 0;
    while i < available.len()
        invariant
            i <= available.len(),
            all == texts(available@),
            requested is None,
            opt_text(policy.default_player) is Some ==> permits(
                *policy,
                opt_text(policy.default_player)->0,
            ) && !all.contains(opt_text(policy.default_player)->0),
            forall|j: int| 0 <= j < i ==> !permits(*policy, #[trigger] all[j]),
        decreases available.len() - i,
    {
        if is_allowed(policy, available[i].as_str()) {
            assert(all[i as int] == available@[i as int]@);
            assert(first_permitted(*policy, all, i as int));
            assert(all[0] == available@[0]@);
            return Ok(available[i].clone());
        }
        i += 1;
    }
    assert(none_permitted(*policy, all));
    assert(all.len() > 0 ==> all[0] == available@[0]@);
    Err("ERR_MEDIA_NO_PLAYERS: no MPRIS players available".to_owned())
}

/// Whether a bus name is that of a permitted player.
pub open spec fn is_player(policy: PlayerPolicy, name: Seq<char>) -> bool {
    has_prefix(name, "org.mpris.MediaPlayer2."@) && permits(policy, name)
}

/// The permitted players among the names on the bus, in order.
pub fn list_players(names: Result<Vec<String>, String>, policy: &PlayerPolicy) -> (r: Result<
    Vec<String>,
    String,
>)
    ensures
        match (names, r) {
            (Err(e), Err(m)) => m@ == "ERR_MEDIA_BUS_UNAVAILABLE: "@ + e@,
            (Ok(all), Ok(players)) => {
                &&& texts_sorted(texts(players@))
                &&& players@.to_multiset() == all@.filter(
                    player_filter(*policy),
                ).to_multiset()
                &&& forall|n: Seq<char>| #[trigger]
                    texts(players@).contains(n) <==> texts(all@).contains(n) && is_player(
                        *policy,
                        n,
                    )
            },
            _ => false,
        },
        names is Ok <==> r is Ok,
        r is Ok ==> forall|n: Seq<char>| #[trigger]
            texts(r->Ok_0@).contains(n) <==> texts(names->Ok_0@).contains(n) && has_prefix(
                n,
                "org.mpris.MediaPlayer2."@,
            ) && (policy.allowed is None || texts(policy.allowed->0@).contains(n)),
{
    let names = match names {
        Ok(n) => n,
        Err(e) => return Err(join2("ERR_MEDIA_BUS_UNAVAILABLE: ", e.as_str())),
    };
    let ghost pred = player_filter(*policy);
    let mut kept: Vec<String> = Vec::new();
    let mut i: usize = 0;
    assert(names@.take(0) =~= Seq::empty());
    assert(kept@ =~= names@.take(0).filter(pred)) by {
        reveal(Seq::filter);
    }
    while i < names.len()
        invariant
            i <= names.len(),
            pred == player_filter(*policy),
            kept@ == names@.take(i as int).filter(pred),
        decreases names.len() - i,
    {
        proof {
            assert(names@.take(i + 1) =~= names@.take(i as int).push(names@[i as int]));
            names@.take(i as int).lemma_filter_push(names@[i as int], pred);
        }
        if starts_with(names[i].as_str(), "org.mpris.MediaPlayer2.") && is_allowed(
            policy,
            names[i].as_str(),
        ) {
            kept.push(names[i].clone());
        }
        i += 1;
    }
    assert(names@.take(names@.len() as int) =~= names@);
    let players = sort_texts(&kept);
    proof {
        assert forall|n: Seq<char>| #[trigger] texts(players@).contains(n) <==> texts(
            names@,
        ).contains(n) && is_player(*policy, n) by {
            assert(texts(players@).contains(n) <==> texts(kept@).contains(n));
            if texts(kept@).contains(n) {
                let k = texts(kept@).index_of(n);
                assert(kept@[k]@ == n);
                names@.lemma_filter_contains_rev(pred, kept@[k]);
                let m = names@.index_of(kept@[k]);
                assert(texts(names@)[m] == n);
                names@.lemma_filter_pred(pred, k);
                assert(pred(kept@[k]));
            }
            if texts(names@).contains(n) && is_player(*policy, n) {
                let k = texts(names@).index_of(n);
                assert(names@[k]@ == n);
                names@.lemma_filter_contains(pred, k);
                let m = kept@.index_of(names@[k]);
                assert(kept@[m]@ == n);
                assert(texts(kept@)[m] == n);
            }
        }
    }
    Ok(players)
}

/// Tells the permitted players apart.
pub open spec fn player_filter(policy: PlayerPolicy) -> spec_fn(String) -> bool {
    |n: String| is_player(policy, n@)
}

/// A request never goes to a player that the operator does not permit, nor to
/// one that is not running.
pub proof fn lemma_resolved_is_permitted(
    requested: Option<Seq<char>>,
    available: Seq<Seq<char>>,
    policy: PlayerPolicy,
    name: Seq<char>,
)
    requires
        is_resolved(requested, available, policy, Ok(name)),
    ensures
        permits(policy, name),
        available.contains(name),
{
    if requested is None && !none_permitted(policy, available) && !(opt_text(
        policy.default_player,
    ) is Some && available.contains(opt_text(policy.default_player)->0)) {
        if !(opt_text(policy.default_player) is Some && !permits(
            policy,
            opt_text(policy.default_player)->0,
        )) {
            let i = choose|i: int| #[trigger]
                first_permitted(policy, available, i) && Ok::<Seq<char>, Seq<char>>(name) == Ok::<
                    Seq<char>,
                    Seq<char>,
                >(available[i]);
        }
    }
}

// ---------------------------------------------------------------------------
// Requests
// ---------------------------------------------------------------------------

/// What an action asks of a player.
#[derive(Debug, PartialEq, Eq)]
pub enum MediaRequest {
    Play { uri: Option<String> },
    Pause,
    PlayPause,
    Next,
    Prev,
    Stop,
    Seek { position_ms: u64 },
    Volume,
    Status,
    ListPlayers,
}

/// What the parameters of an action hold, where they are JSON.
#[derive(Debug, PartialEq, Eq)]
pub struct MediaParams {
    pub player: Option<String>,
    pub uri: Option<String>,
    pub position_ms: Option<u64>,
}

/// Why an action is refused.
#[derive(Debug, PartialEq, Eq)]
pub enum Refused {
    /// Nobody serves it.
    NotFound { error: String },
    Failed { error: String },
}

/// What an action asks for, or why it is refused.
pub open spec fn is_request(
    action: Seq<char>,
    params: MediaParams,
    r: Result<MediaRequest, Refused>,
) -> bool {
    if action == "media_play"@ {
        r == Ok::<MediaRequest, Refused>(MediaRequest::Play { uri: params.uri })
    } else if action == "media_pause"@ {
        r == Ok::<MediaRequest, Refused>(MediaRequest::Pause)
    } else if action == "media_play_pause"@ {
        r == Ok::<MediaRequest, Refused>(MediaRequest::PlayPause)
    } else if action == "media_next"@ {
        r == Ok::<MediaRequest, Refused>(MediaRequest::Next)
    } else if action == "media_prev"@ {
        r == Ok::<MediaRequest, Refused>(MediaRequest::Prev)
    } else if action == "media_stop"@ {
        r == Ok::<MediaRequest, Refused>(MediaRequest::Stop)
    } else if action == "media_seek"@ {
        match params.position_ms {
            Some(p) => r == Ok::<MediaRequest, Refused>(MediaRequest::Seek { position_ms: p }),
            None => r matches Err(Refused::Failed { error }) && error@
                == "missing or invalid `position_ms`"@,
        }
    } else if action == "media_volume"@ {
        r == Ok::<MediaRequest, Refused>(MediaRequest::Volume)
    } else if action == "media_status"@ {
        r == Ok::<MediaRequest, Refused>(MediaRequest::Status)
    } else if action == "media_list_players"@ {
        r == Ok::<MediaRequest, Refused>(MediaRequest::ListPlayers)
    } else {
        r matches Err(Refused::NotFound { error }) && error@ == "unknown action: "@ + action
    }
}

/// Every action asks for what its name says, with what its parameters hold; a seek
/// needs a position, and other names are served by nobody.
pub proof fn lemma_what_each_action_asks_for(
    action: Seq<char>,
    params: MediaParams,
    r: Result<MediaRequest, Refused>,
)
    requires
        is_request(action, params, r),
    ensures
        action == "media_play"@ <==> r is Ok && r->Ok_0 is Play,
        r is Ok && r->Ok_0 is Play ==> r->Ok_0->uri == params.uri,
        action == "media_pause"@ <==> r is Ok && r->Ok_0 is Pause,
        action == "media_play_pause"@ <==> r is Ok && r->Ok_0 is PlayPause,
        action == "media_next"@ <==> r is Ok && r->Ok_0 is Next,
        action == "media_prev"@ <==> r is Ok && r->Ok_0 is Prev,
        action == "media_stop"@ <==> r is Ok && r->Ok_0 is Stop,
        action == "media_seek"@ && params.position_ms is Some <==> r is Ok && r->Ok_0 is Seek,
        r is Ok && r->Ok_0 is Seek ==> Some(r->Ok_0->position_ms) == params.position_ms,
        action == "media_volume"@ <==> r is Ok && r->Ok_0 is Volume,
        action == "media_status"@ <==> r is Ok && r->Ok_0 is Status,
        action == "media_list_players"@ <==> r is Ok && r->Ok_0 is ListPlayers,
        r is Err && r->Err_0 is Failed <==> action == "media_seek"@ && params.position_ms is None,
{
    reveal_strlit("media_play");
    reveal_strlit("media_pause");
    reveal_strlit("media_play_pause");
    reveal_strlit("media_next");
    reveal_strlit("media_prev");
    reveal_strlit("media_stop");
    reveal_strlit("media_seek");
    reveal_strlit("media_volume");
    reveal_strlit("media_status");
    reveal_strlit("media_list_players");
    assert("media_play"@.len() == 10 && "media_pause"@.len() == 11 && "media_play_pause"@.len()
        == 16 && "media_next"@.len() == 10 && "media_prev"@.len() == 10 && "media_stop"@.len() == 10
        && "media_seek"@.len() == 10 && "media_volume"@.len() == 12 && "media_status"@.len() == 12
        && "media_list_players"@.len() == 18);
    assert("media_play"@[7] == 'l' && "media_next"@[7] == 'e' && "media_prev"@[7] == 'r'
        && "media_stop"@[7] == 't' && "media_seek"@[7] == 'e');
    assert("media_next"@[6] == 'n' && "media_seek"@[6] == 's');
    assert("media_volume"@[6] == 'v' && "media_status"@[6] == 's');
}

/// What an action asks for, its parameters having been read.
pub fn parse_action(action: &str, params: MediaParams) -> (r: Result<MediaRequest, Refused>)
    ensures
        is_request(action@, params, r),
        action@ == "media_play"@ ==> r == Ok::<MediaRequest, Refused>(
            MediaRequest::Play { uri: params.uri },
        ),
        action@ == "media_pause"@ ==> r == Ok::<MediaRequest, Refused>(MediaRequest::Pause),
        action@ == "media_play_pause"@ ==> r == Ok::<MediaRequest, Refused>(
            MediaRequest::PlayPause,
        ),
        action@ == "media_next"@ ==> r == Ok::<MediaRequest, Refused>(MediaRequest::Next),
        action@ == "media_prev"@ ==> r == Ok::<MediaRequest, Refused>(MediaRequest::Prev),
        action@ == "media_stop"@ ==> r == Ok::<MediaRequest, Refused>(MediaRequest::Stop),
        action@ == "media_seek"@ && params.position_ms is Some ==> r == Ok::<MediaRequest, Refused>(
            MediaRequest::Seek { position_ms: params.position_ms->0 },
        ),
        action@ == "media_seek"@ && params.position_ms is None ==> r is Err,
        action@ == "media_volume"@ ==> r == Ok::<MediaRequest, Refused>(MediaRequest::Volume),
        action@ == "media_status"@ ==> r == Ok::<MediaRequest, Refused>(MediaRequest::Status),
        action@ == "media_list_players"@ ==> r == Ok::<MediaRequest, Refused>(
            MediaRequest::ListPlayers,
        ),
{
    proof {
        reveal_strlit("media_play");
        reveal_strlit("media_pause");
        reveal_strlit("media_play_pause");
        reveal_strlit("media_next");
        reveal_strlit("media_prev");
        reveal_strlit("media_stop");
        reveal_strlit("media_seek");
        reveal_strlit("media_volume");
        reveal_strlit("media_status");
        reveal_strlit("media_list_players");
        assert("media_play"@.len() == 10 && "media_pause"@.len() == 11 && "media_play_pause"@.len()
            == 16 && "media_next"@.len() == 10 && "media_prev"@.len() == 10 && "media_stop"@.len() == 10
            && "media_seek"@.len() == 10 && "media_volume"@.len() == 12 && "media_status"@.len() == 12
            && "media_list_players"@.len() == 18);
        assert("media_play"@[7] == 'l' && "media_next"@[7] == 'e' && "media_prev"@[7] == 'r'
            && "media_stop"@[7] == 't' && "media_seek"@[7] == 'e');
        assert("media_next"@[6] == 'n' && "media_seek"@[6] == 's');
        assert("media_volume"@[6] == 'v' && "media_status"@[6] == 's');
    }
    if same(action, "media_play") {
        Ok(MediaRequest::Play { uri: params.uri })
    } else if same(action, "media_pause") {
        Ok(MediaRequest::Pause)
    } else if same(action, "media_play_pause") {
        Ok(MediaRequest::PlayPause)
    } else if same(action, "media_next") {
        Ok(MediaRequest::Next)
    } else if same(action, "media_prev") {
        Ok(MediaRequest::Prev)
    } else if same(action, "media_stop") {
        Ok(MediaRequest::Stop)
    } else if same(action, "media_seek") {
        match params.position_ms {
            Some(position_ms) => Ok(MediaRequest::Seek { position_ms }),
            None => Err(
                Refused::Failed { error: "missing or invalid `position_ms`".to_owned() },
            ),
        }
    } else if same(action, "media_volume") {
        Ok(MediaRequest::Volume)
    } else if same(action, "media_status") {
        Ok(MediaRequest::Status)
    } else if same(action, "media_list_players") {
        Ok(MediaRequest::ListPlayers)
    } else {
        Err(Refused::NotFound { error: join2("unknown action: ", action) })
    }
}

/// What the JSON parser complains about in the parameters, if anything.
pub open spec fn params_complaint(bytes: Seq<u8>) -> Option<Seq<char>> {
    match (json_text_at(bytes, "player"@), json_text_at(bytes, "uri"@), json_number_at(
        bytes,
        "position_ms"@,
    )) {
        (Err(e), _, _) => Some(e),
        (_, Err(e), _) => Some(e),
        (_, _, Err(e)) => Some(e),
        _ => None,
    }
}

/// Reads the parameters of an action. What is not there, or of another type, is
/// nothing.
pub fn read_params(params_json: &[u8]) -> (r: Result<MediaParams, String>)
    ensures
        match r {
            Ok(p) => {
                &&& json_text_at(params_json@, "player"@) == Ok::<Option<Seq<char>>, Seq<char>>(
                    opt_text(p.player),
                )
                &&& json_text_at(params_json@, "uri"@) == Ok::<Option<Seq<char>>, Seq<char>>(
                    opt_text(p.uri),
                )
                &&& json_number_at(params_json@, "position_ms"@) == Ok::<Option<u64>, Seq<char>>(
                    p.position_ms,
                )
            },
            Err(m) => params_complaint(params_json@) matches Some(e) && m@
                == "invalid params_json: "@ + e,
        },
{
    let player = match json_text_member(params_json, "player") {
        Ok(p) => p,
        Err(e) => return Err(join2("invalid params_json: ", e.as_str())),
    };
    let uri = match json_text_member(params_json, "uri") {
        Ok(p) => p,
        Err(e) => return Err(join2("invalid params_json: ", e.as_str())),
    };
    let position_ms: Option<u64> = match json_number_member(params_json, "position_ms") {
        Ok(p) => p,
        Err(e) => return Err(join2("invalid params_json: ", e.as_str())),
    };
    Ok(MediaParams { player, uri, position_ms })
}

/// The player that a request goes to. A status request complains about the
/// absence of players before anything else.
pub fn target_player(
    req: &MediaRequest,
    requested: Option<&str>,
    available: &Vec<String>,
    policy: &PlayerPolicy,
) -> (r: Result<String, String>)
    ensures
        if req is Status && available@.len() == 0 {
            r matches Err(e) && e@ == "ERR_MEDIA_NO_PLAYERS: no MPRIS players available"@
        } else {
            is_resolved(
                match requested {
                    Some(s) => Some(s@),
                    None => None,
                },
                texts(available@),
                *policy,
                outcome_view(r),
            )
        },
{
    let status = match req {
        MediaRequest::Status => true,
        _ => false,
    };
    if status && available.len() == 0 {
        return Err("ERR_MEDIA_NO_PLAYERS: no MPRIS players available".to_owned());
    }
    resolve_player(requested, available, policy)
}

/// A method of a player, with the one argument that some take.
#[derive(Debug, PartialEq, Eq)]
pub struct PlayerCall {
    pub method: &'static str,
    pub arg: Option<String>,
}

/// Whether `calls` are the methods to call for a request, in turn.
pub open spec fn are_calls(req: MediaRequest, calls: Seq<PlayerCall>) -> bool {
    match req {
        MediaRequest::Play { uri: Some(u) } => calls.len() == 2 && calls[0].method@ == "OpenUri"@
            && calls[0].arg == Some(u) && calls[1].method@ == "Play"@ && calls[1].arg is None,
        MediaRequest::Play { uri: None } => calls.len() == 1 && calls[0].method@ == "Play"@
            && calls[0].arg is None,
        MediaRequest::Pause => calls.len() == 1 && calls[0].method@ == "Pause"@
            && calls[0].arg is None,
        MediaRequest::PlayPause => calls.len() == 1 && calls[0].method@ == "PlayPause"@
            && calls[0].arg is None,
        MediaRequest::Next => calls.len() == 1 && calls[0].method@ == "Next"@
            && calls[0].arg is None,
        MediaRequest::Prev => calls.len() == 1 && calls[0].method@ == "Previous"@
            && calls[0].arg is None,
        MediaRequest::Stop => calls.len() == 1 && calls[0].method@ == "Stop"@
            && calls[0].arg is None,
        _ => calls.len() == 0,
    }
}

/// Each request calls the method of the player that does what it asks for, once and
/// without an argument: the following track is `Next`, the one before `Previous`.
/// Only a request to play something given opens that first.
pub proof fn lemma_what_each_request_calls(req: MediaRequest, calls: Seq<PlayerCall>)
    requires
        are_calls(req, calls),
    ensures
        req is Next ==> calls.len() == 1 && calls[0].method@ == "Next"@ && calls[0].arg is None,
        req is Prev ==> calls.len() == 1 && calls[0].method@ == "Previous"@ && calls[0].arg is None,
        req is Pause ==> calls.len() == 1 && calls[0].method@ == "Pause"@ && calls[0].arg is None,
        req is PlayPause ==> calls.len() == 1 && calls[0].method@ == "PlayPause"@
            && calls[0].arg is None,
        req is Stop ==> calls.len() == 1 && calls[0].method@ == "Stop"@ && calls[0].arg is None,
        req is Play ==> calls.len() > 0 && calls.last().method@ == "Play"@
            && calls.last().arg is None,
        req is Play && req->uri is None ==> calls.len() == 1,
        req is Play && req->uri is Some ==> calls.len() == 2 && calls[0].method@ == "OpenUri"@
            && calls[0].arg == req->uri,
        req is Seek || req is Volume || req is Status || req is ListPlayers ==> calls.len() == 0,
{
}

/// Different requests call different methods: going on is not going back, and
/// neither is pausing or stopping.
pub proof fn lemma_requests_call_different_methods(
    a: MediaRequest,
    b: MediaRequest,
    calls_a: Seq<PlayerCall>,
    calls_b: Seq<PlayerCall>,
)
    requires
        are_calls(a, calls_a),
        are_calls(b, calls_b),
        calls_a.len() > 0 && calls_b.len() > 0,
        calls_a.last().method@ == calls_b.last().method@,
    ensures
        a is Next <==> b is Next,
        a is Prev <==> b is Prev,
        a is Pause <==> b is Pause,
        a is PlayPause <==> b is PlayPause,
        a is Stop <==> b is Stop,
        a is Play <==> b is Play,
{
    reveal_strlit("Play");
    reveal_strlit("Pause");
    reveal_strlit("PlayPause");
    reveal_strlit("Next");
    reveal_strlit("Previous");
    reveal_strlit("Stop");
    assert("Play"@.len() == 4 && "Next"@.len() == 4 && "Stop"@.len() == 4);
    assert("Play"@[0] == 'P' && "Next"@[0] == 'N' && "Stop"@[0] == 'S');
    assert("Pause"@.len() == 5 && "PlayPause"@.len() == 9 && "Previous"@.len() == 8);
}

/// The methods to call for a request, in turn.
pub fn player_calls(req: &MediaRequest) -> (r: Vec<PlayerCall>)
    ensures
        are_calls(*req, r@),
        req is Next ==> r@.len() == 1 && r@[0].method@ == "Next"@ && r@[0].arg is None,
        req is Prev ==> r@.len() == 1 && r@[0].method@ == "Previous"@ && r@[0].arg is None,
        req is Pause ==> r@.len() == 1 && r@[0].method@ == "Pause"@ && r@[0].arg is None,
        req is PlayPause ==> r@.len() == 1 && r@[0].method@ == "PlayPause"@ && r@[0].arg is None,
        req is Stop ==> r@.len() == 1 && r@[0].method@ == "Stop"@ && r@[0].arg is None,
        req matches MediaRequest::Play { uri } ==> match uri {
            None => r@.len() == 1 && r@[0].method@ == "Play"@ && r@[0].arg is None,
            Some(u) => r@.len() == 2 && r@[0].method@ == "OpenUri"@ && r@[0].arg == Some(*u)
                && r@[1].method@ == "Play"@ && r@[1].arg is None,
        },
        req is Seek || req is Volume || req is Status || req is ListPlayers ==> r@.len() == 0,
{
    let mut calls: Vec<PlayerCall> = Vec::new();
    match req {
        MediaRequest::Play { uri } => {
            if let Some(u) = uri {
                calls.push(PlayerCall { method: "OpenUri", arg: Some(u.clone()) });
            }
            calls.push(PlayerCall { method: "Play", arg: None });
        },
        MediaRequest::Pause => {
            calls.push(PlayerCall { method: "Pause", arg: None });
        },
        MediaRequest::PlayPause => {
            calls.push(PlayerCall { method: "PlayPause", arg: None });
        },
        MediaRequest::Next => {
            calls.push(PlayerCall { method: "Next", arg: None });
        },
        MediaRequest::Prev => {
            calls.push(PlayerCall { method: "Previous", arg: None });
        },
        MediaRequest::Stop => {
            calls.push(PlayerCall { method: "Stop", arg: None });
        },
        _ => {},
    }
    calls
}

/// Whether a position and the distance to it fit the bus's microseconds.
pub open spec fn seek_fits(position_ms: u64, current_us: i64) -> bool {
    &&& position_ms * 1000 <= i64::MAX
    &&& i64::MIN <= position_ms * 1000 - current_us <= i64::MAX
}

/// How far to seek, in microseconds, to get from `current_us` to `position_ms`.
/// An unknown position counts as the start.
pub fn seek_offset(position_ms: u64, current_us: Option<i64>) -> (r: i64)
    requires
        seek_fits(
            position_ms,
            match current_us {
                Some(c) => c,
                None => 0,
            },
        ),
    ensures
        r == position_ms * 1000 - match current_us {
            Some(c) => c as int,
            None => 0,
        },
{
    let current: i64 = match current_us {
        Some(c) => c,
        None => 0,
    };
    let target: i64 = (position_ms as i64) * 1000;
    target - current
}

// ---------------------------------------------------------------------------
// Metadata
// ---------------------------------------------------------------------------

/// A value in a player's metadata, as far as it is looked at.
#[derive(Debug, PartialEq, Eq)]
pub enum MetaValue {
    Text { text: String },
    /// An object path.
    Path { path: String },
    /// The elements that can be read as text; nothing for those that cannot.
    List { items: Vec<Option<String>> },
    Signed { value: i64 },
    Unsigned { value: u64 },
    Other,
}

/// What is known of a track.
#[derive(Debug, PartialEq, Eq)]
pub struct MediaMetadata {
    pub title: Option<String>,
    pub artists: Vec<String>,
    pub album: Option<String>,
    pub length_micros: Option<i64>,
    pub track_id: Option<String>,
    pub art_url: Option<String>,
}

/// The text under a key; a number or a list is none.
pub open spec fn text_under(m: Map<Seq<char>, MetaValue>, key: Seq<char>) -> Option<Seq<char>> {
    if m.dom().contains(key) {
        match m[key] {
            MetaValue::Text { text } => Some(text@),
            MetaValue::Path { path } => Some(path@),
            _ => None,
        }
    } else {
        None
    }
}

/// The elements that can be read as text.
pub open spec fn readable(items: Seq<Option<String>>) -> Seq<Seq<char>>
    decreases items.len(),
{
    if items.len() == 0 {
        Seq::empty()
    } else {
        match items.last() {
            Some(s) => readable(items.drop_last()).push(s@),
            None => readable(items.drop_last()),
        }
    }
}

/// The texts under a key; a single text is a list of one.
pub open spec fn texts_under(m: Map<Seq<char>, MetaValue>, key: Seq<char>) -> Seq<Seq<char>> {
    if m.dom().contains(key) {
        match m[key] {
            MetaValue::List { items } => readable(items@),
            MetaValue::Text { text } => seq![text@],
            _ => Seq::empty(),
        }
    } else {
        Seq::empty()
    }
}

/// An unsigned number read as a signed one of the same 64 bits.
pub open spec fn as_signed(n: u64) -> int {
    if n <= i64::MAX {
        n as int
    } else {
        n - 0x1_0000_0000_0000_0000
    }
}

/// The number under a key.
pub open spec fn number_under(m: Map<Seq<char>, MetaValue>, key: Seq<char>) -> Option<int> {
    if m.dom().contains(key) {
        match m[key] {
            MetaValue::Signed { value } => Some(value as int),
            MetaValue::Unsigned { value } => Some(as_signed(value)),
            _ => None,
        }
    } else {
        None
    }
}

fn meta_string(m: &StrMap<MetaValue>, key: &str) -> (r: Option<String>)
    ensures
        opt_text(r) == text_under(m@, key@),
{
    match m.get(key) {
        Some(MetaValue::Text { text }) => Some(text.clone()),
        Some(MetaValue::Path { path }) => Some(path.clone()),
        _ => None,
    }
}

fn meta_string_array(m: &StrMap<MetaValue>, key: &str) -> (r: Vec<String>)
    ensures
        texts(r@) == texts_under(m@, key@),
{
    let mut out: Vec<String> = Vec::new();
    assert(texts(out@) =~= Seq::empty());
    match m.get(key) {
        Some(MetaValue::List { items }) => {
            let mut i: usize = 0;
            assert(items@.take(0) =~= Seq::empty());
            while i < items.len()
                invariant
                    i <= items.len(),
                    texts(out@) == readable(items@.take(i as int)),
                decreases items.len() - i,
            {
                assert(items@.take(i + 1).drop_last() =~= items@.take(i as int));
                if let Some(s) = &items[i] {
                    let ghost before = texts(out@);
                    out.push(s.clone());
                    assert(texts(out@) =~= before.push(s@));
                }
                i += 1;
            }
            assert(items@.take(items@.len() as int) =~= items@);
            out
        },
        Some(MetaValue::Text { text }) => {
            out.push(text.clone());
            assert(texts(out@) =~= seq![text@]);
            out
        },
        _ => out,
    }
}

fn meta_number(m: &StrMap<MetaValue>, key: &str) -> (r: Option<i64>)
    ensures
        match r {
            Some(n) => number_under(m@, key@) == Some(n as int),
            None => number_under(m@, key@) is None,
        },
{
    match m.get(key) {
        Some(MetaValue::Signed { value }) => Some(*value),
        Some(MetaValue::Unsigned { value }) => {
            let v: u64 = *value;
            if v <= i64::MAX as u64 {
                Some(v as i64)
            } else {
                let over: u64 = v - 0x8000_0000_0000_0000;
                Some(i64::MIN + over as i64)
            }
        },
        _ => None,
    }
}

/// Whether `r` is what the metadata of a track tells.
pub open spec fn is_metadata(m: Map<Seq<char>, MetaValue>, r: MediaMetadata) -> bool {
    &&& opt_text(r.title) == text_under(m, "xesam:title"@)
    &&& texts(r.artists@) == texts_under(m, "xesam:artist"@)
    &&& opt_text(r.album) == text_under(m, "xesam:album"@)
    &&& match r.length_micros {
        Some(n) => number_under(m, "mpris:length"@) == Some(n as int),
        None => number_under(m, "mpris:length"@) is None,
    }
    &&& opt_text(r.track_id) == text_under(m, "mpris:trackid"@)
    &&& opt_text(r.art_url) == text_under(m, "mpris:artUrl"@)
}

/// A track's title, album, artists, length and the rest are read from where players
/// put them: a single artist is a list of one, elements that are no text are left
/// out, and what is missing is missing.
pub proof fn lemma_what_is_known_of_a_track(m: Map<Seq<char>, MetaValue>, r: MediaMetadata)
    requires
        is_metadata(m, r),
    ensures
        r.title is Some ==> m.dom().contains("xesam:title"@),
        m.dom().contains("xesam:title"@) && m["xesam:title"@] is Text ==> r.title is Some
            && r.title->0@ == m["xesam:title"@]->text@,
        m.dom().contains("xesam:album"@) && m["xesam:album"@] is Text ==> r.album is Some
            && r.album->0@ == m["xesam:album"@]->text@,
        m.dom().contains("mpris:trackid"@) && m["mpris:trackid"@] is Path ==> r.track_id is Some
            && r.track_id->0@ == m["mpris:trackid"@]->path@,
        m.dom().contains("mpris:artUrl"@) && m["mpris:artUrl"@] is Text ==> r.art_url is Some
            && r.art_url->0@ == m["mpris:artUrl"@]->text@,
        m.dom().contains("mpris:length"@) && m["mpris:length"@] is Signed ==> r.length_micros
            == Some(m["mpris:length"@]->Signed_value),
        m.dom().contains("mpris:length"@) && m["mpris:length"@] is Unsigned
            && m["mpris:length"@]->Unsigned_value <= i64::MAX ==> r.length_micros is Some
            && r.length_micros->0 == m["mpris:length"@]->Unsigned_value,
        m.dom().contains("xesam:artist"@) && m["xesam:artist"@] is Text ==> r.artists@.len() == 1
            && r.artists@[0]@ == m["xesam:artist"@]->text@,
        m.dom().contains("xesam:artist"@) && m["xesam:artist"@] is List ==> ({
            let items = m["xesam:artist"@]->items@;
            (forall|i: int| 0 <= i < items.len() ==> (#[trigger] items[i]) is Some) ==> texts(
                r.artists@,
            ) == Seq::new(items.len(), |i: int| items[i]->0@)
        }),
{
    if m.dom().contains("xesam:artist"@) {
        if m["xesam:artist"@] is Text {
            assert(texts(r.artists@).len() == 1);
            assert(texts(r.artists@)[0] == r.artists@[0]@);
        } else if m["xesam:artist"@] is List {
            let items = m["xesam:artist"@]->items@;
            if forall|i: int| 0 <= i < items.len() ==> (#[trigger] items[i]) is Some {
                lemma_all_readable(items);
            }
        }
    }
}

proof fn lemma_all_readable(items: Seq<Option<String>>)
    requires
        forall|i: int| 0 <= i < items.len() ==> (#[trigger] items[i]) is Some,
    ensures
        readable(items) == Seq::new(items.len(), |i: int| items[i]->0@),
    decreases items.len(),
{
    if items.len() > 0 {
        lemma_all_readable(items.drop_last());
    }
    assert(readable(items) =~= Seq::new(items.len(), |i: int| items[i]->0@));
}

/// What the metadata of a track tells.
pub fn parse_metadata(metadata: &StrMap<MetaValue>) -> (r: MediaMetadata)
    ensures
        is_metadata(metadata@, r),
        metadata@.dom().contains("xesam:title"@) && metadata@["xesam:title"@] is Text ==> r.title
            is Some && r.title->0@ == metadata@["xesam:title"@]->text@,
        !metadata@.dom().contains("xesam:title"@) ==> r.title is None,
        metadata@.dom().contains("xesam:album"@) && metadata@["xesam:album"@] is Text ==> r.album
            is Some && r.album->0@ == metadata@["xesam:album"@]->text@,
        metadata@.dom().contains("mpris:trackid"@) && metadata@["mpris:trackid"@] is Path
            ==> r.track_id is Some && r.track_id->0@ == metadata@["mpris:trackid"@]->path@,
        metadata@.dom().contains("mpris:artUrl"@) && metadata@["mpris:artUrl"@] is Text
            ==> r.art_url is Some && r.art_url->0@ == metadata@["mpris:artUrl"@]->text@,
        metadata@.dom().contains("mpris:length"@) && metadata@["mpris:length"@] is Signed
            ==> r.length_micros == Some(metadata@["mpris:length"@]->Signed_value),
{
    MediaMetadata {
        title: meta_string(metadata, "xesam:title"),
        artists: meta_string_array(metadata, "xesam:artist"),
        album: meta_string(metadata, "xesam:album"),
        length_micros: meta_number(metadata, "mpris:length"),
        track_id: meta_string(metadata, "mpris:trackid"),
        art_url: meta_string(metadata, "mpris:artUrl"),
    }
}

// ---------------------------------------------------------------------------
// Replies
// ---------------------------------------------------------------------------

/// An optional text as JSON.
pub open spec fn json_opt(o: Option<String>) -> Seq<char> {
    match o {
        Some(s) => json_quoted(s@),
        None => "null"@,
    }
}

fn opt_json(o: &Option<String>) -> (r: String)
    ensures
        r@ == json_opt(*o),
{
    match o {
        Some(s) => json_quote(s.as_str()),
        None => "null".to_owned(),
    }
}

/// Texts as a JSON array.
pub open spec fn json_texts(items: Seq<Seq<char>>) -> Seq<char> {
    "["@ + joined(Seq::new(items.len(), |i: int| json_quoted(items[i])), ","@) + "]"@
}

fn texts_json(items: &Vec<String>) -> (r: String)
    ensures
        r@ == json_texts(texts(items@)),
{
    let ghost all = texts(items@);
    let mut out: Vec<String> = Vec::new();
    let mut i: usize = 0;
    while i < items.len()
        invariant
            i <= items.len(),
            all == texts(items@),
            out@.len() == i,
            forall|j: int| 0 <= j < i ==> (#[trigger] out@[j])@ == json_quoted(all[j]),
        decreases items.len() - i,
    {
        out.push(json_quote(items[i].as_str()));
        i += 1;
    }
    assert(texts(out@) =~= Seq::new(all.len(), |i: int| json_quoted(all[i])));
    join3("[", join(&out, ",").as_str(), "]")
}

/// The reply to a request that called methods only. `playback` is the status
/// that the player then reported, where it did; it is told for a toggle only.
pub open spec fn done_text(req: MediaRequest, playback: Option<Seq<char>>) -> Seq<char> {
    if req is PlayPause {
        if playback == Some("Playing"@) {
            "{\"ok\":true,\"playing\":true}"@
        } else {
            "{\"ok\":true,\"playing\":false}"@
        }
    } else if req is Seek {
        "{\"position_ms\":"@ + decimal(req->position_ms as nat) + "}"@
    } else {
        "{\"ok\":true}"@
    }
}

/// A toggle tells whether the player is playing now, a seek where it went, and any
/// other request that it was carried out.
pub proof fn lemma_what_a_reply_says(req: MediaRequest, playback: Option<Seq<char>>)
    ensures
        req is PlayPause ==> done_text(req, Some("Playing"@)) == "{\"ok\":true,\"playing\":true}"@,
        req is PlayPause && playback != Some("Playing"@) ==> done_text(req, playback)
            == "{\"ok\":true,\"playing\":false}"@,
        req matches MediaRequest::Seek { position_ms } ==> done_text(req, playback)
            == "{\"position_ms\":"@ + decimal(position_ms as nat) + "}"@,
        req !is PlayPause && req !is Seek ==> done_text(req, playback) == "{\"ok\":true}"@,
{
}

/// The reply to a request that called methods only.
pub fn done_reply(req: &MediaRequest, playback: Option<&str>) -> (r: String)
    ensures
        r@ == done_text(
            *req,
            match playback {
                Some(s) => Some(s@),
                None => None,
            },
        ),
        req is PlayPause ==> r@ == if playback is Some && playback->0@ == "Playing"@ {
            "{\"ok\":true,\"playing\":true}"@
        } else {
            "{\"ok\":true,\"playing\":false}"@
        },
        req matches MediaRequest::Seek { position_ms } ==> r@ == "{\"position_ms\":"@ + decimal(
            position_ms as nat,
        ) + "}"@,
        req !is PlayPause && req !is Seek ==> r@ == "{\"ok\":true}"@,
{
    match req {
        MediaRequest::PlayPause => {
            let playing = match playback {
                Some(s) => same(s, "Playing"),
                None => false,
            };
            if playing {
                "{\"ok\":true,\"playing\":true}".to_owned()
            } else {
                "{\"ok\":true,\"playing\":false}".to_owned()
            }
        },
        MediaRequest::Seek { position_ms } => join3(
            "{\"position_ms\":",
            dec(*position_ms).as_str(),
            "}",
        ),
        _ => "{\"ok\":true}".to_owned(),
    }
}

/// The reply to a request for the players.
pub fn players_reply(players: &Vec<String>) -> (r: String)
    ensures
        r@ == "{\"players\":"@ + json_texts(texts(players@)) + "}"@,
{
    join3("{\"players\":", texts_json(players).as_str(), "}")
}

/// Microseconds as whole milliseconds, cut off towards zero.
pub open spec fn to_millis(us: int) -> int {
    if us >= 0 {
        us / 1000
    } else {
        -((-us) / 1000)
    }
}

fn millis(us: i64) -> (r: i64)
    ensures
        r == to_millis(us as int),
{
    if us >= 0 {
        us / 1000
    } else {
        let up: u64 = (-(us + 1)) as u64 + 1;
        let q: u64 = up / 1000;
        -(q as i64)
    }
}

/// A number, where there is one, as JSON.
pub open spec fn json_number(n: Option<i64>) -> Seq<char> {
    match n {
        Some(n) => signed_decimal(n as int),
        None => "null"@,
    }
}

/// A track as JSON.
pub open spec fn metadata_text(m: MediaMetadata) -> Seq<char> {
    "{\"album\":"@ + json_opt(m.album) + ",\"art_url\":"@ + json_opt(m.art_url) + ",\"artists\":"@
        + json_texts(texts(m.artists@)) + ",\"length_micros\":"@ + json_number(m.length_micros)
        + ",\"title\":"@ + json_opt(m.title) + ",\"track_id\":"@ + json_opt(m.track_id) + "}"@
}

fn metadata_json(m: &MediaMetadata) -> (r: String)
    ensures
        r@ == metadata_text(*m),
{
    let mut s = join2("{\"album\":", opt_json(&m.album).as_str());
    s.append(",\"art_url\":");
    s.append(opt_json(&m.art_url).as_str());
    s.append(",\"artists\":");
    s.append(texts_json(&m.artists).as_str());
    s.append(",\"length_micros\":");
    match m.length_micros {
        Some(n) => s.append(signed_dec(n).as_str()),
        None => s.append("null"),
    }
    s.append(",\"title\":");
    s.append(opt_json(&m.title).as_str());
    s.append(",\"track_id\":");
    s.append(opt_json(&m.track_id).as_str());
    s.append("}");
    s
}

/// The reply to a request for the status. What the player did not report is
/// filled in: stopped, and at the start. `volume_json` is the volume as JSON.
pub open spec fn status_text(
    player: Seq<char>,
    playback: Option<Seq<char>>,
    volume_json: Seq<char>,
    position_us: Option<i64>,
    meta: MediaMetadata,
) -> Seq<char> {
    "{\"metadata\":"@ + metadata_text(meta) + ",\"player\":"@ + json_quoted(player)
        + ",\"position_ms\":"@ + signed_decimal(
        to_millis(
            match position_us {
                Some(p) => p as int,
                None => 0,
            },
        ),
    ) + ",\"status\":"@ + json_quoted(
        match playback {
            Some(s) => s,
            None => "Stopped"@,
        },
    ) + ",\"volume\":"@ + volume_json + "}"@
}

/// A track as JSON holds each thing that is known of it under its own name.
pub proof fn lemma_what_a_track_tells(m: MediaMetadata)
    ensures
        has_infix(metadata_text(m), "{\"album\":"@ + json_opt(m.album)),
        has_infix(metadata_text(m), ",\"art_url\":"@ + json_opt(m.art_url)),
        has_infix(metadata_text(m), ",\"artists\":"@ + json_texts(texts(m.artists@))),
        has_infix(metadata_text(m), ",\"length_micros\":"@ + json_number(m.length_micros)),
        has_infix(metadata_text(m), ",\"title\":"@ + json_opt(m.title)),
        has_infix(metadata_text(m), ",\"track_id\":"@ + json_opt(m.track_id)),
{
    let p0 = "{\"album\":"@;
    let p1 = json_opt(m.album);
    let p2 = ",\"art_url\":"@;
    let p3 = json_opt(m.art_url);
    let p4 = ",\"artists\":"@;
    let p5 = json_texts(texts(m.artists@));
    let p6 = ",\"length_micros\":"@;
    let p7 = json_number(m.length_micros);
    let p8 = ",\"title\":"@;
    let p9 = json_opt(m.title);
    let p10 = ",\"track_id\":"@;
    let p11 = json_opt(m.track_id);
    let p12 = "}"@;
    let t0 = p0;
    let t1 = t0 + p1;
    let t2 = t1 + p2;
    let t3 = t2 + p3;
    let t4 = t3 + p4;
    let t5 = t4 + p5;
    let t6 = t5 + p6;
    let t7 = t6 + p7;
    let t8 = t7 + p8;
    let t9 = t8 + p9;
    let t10 = t9 + p10;
    let t11 = t10 + p11;
    let t12 = t11 + p12;
    assert(t1 =~= Seq::<char>::empty() + (p0 + p1));
    lemma_infix_at_end(Seq::<char>::empty(), p0 + p1);
    lemma_infix_stays(t1, p0 + p1, p2);
    lemma_infix_stays(t2, p0 + p1, p3);
    lemma_infix_stays(t3, p0 + p1, p4);
    lemma_infix_stays(t4, p0 + p1, p5);
    lemma_infix_stays(t5, p0 + p1, p6);
    lemma_infix_stays(t6, p0 + p1, p7);
    lemma_infix_stays(t7, p0 + p1, p8);
    lemma_infix_stays(t8, p0 + p1, p9);
    lemma_infix_stays(t9, p0 + p1, p10);
    lemma_infix_stays(t10, p0 + p1, p11);
    lemma_infix_stays(t11, p0 + p1, p12);
    assert(t3 =~= t1 + (p2 + p3));
    lemma_infix_at_end(t1, p2 + p3);
    lemma_infix_stays(t3, p2 + p3, p4);
    lemma_infix_stays(t4, p2 + p3, p5);
    lemma_infix_stays(t5, p2 + p3, p6);
    lemma_infix_stays(t6, p2 + p3, p7);
    lemma_infix_stays(t7, p2 + p3, p8);
    lemma_infix_stays(t8, p2 + p3, p9);
    lemma_infix_stays(t9, p2 + p3, p10);
    lemma_infix_stays(t10, p2 + p3, p11);
    lemma_infix_stays(t11, p2 + p3, p12);
    assert(t5 =~= t3 + (p4 + p5));
    lemma_infix_at_end(t3, p4 + p5);
    lemma_infix_stays(t5, p4 + p5, p6);
    lemma_infix_stays(t6, p4 + p5, p7);
    lemma_infix_stays(t7, p4 + p5, p8);
    lemma_infix_stays(t8, p4 + p5, p9);
    lemma_infix_stays(t9, p4 + p5, p10);
    lemma_infix_stays(t10, p4 + p5, p11);
    lemma_infix_stays(t11, p4 + p5, p12);
    assert(t7 =~= t5 + (p6 + p7));
    lemma_infix_at_end(t5, p6 + p7);
    lemma_infix_stays(t7, p6 + p7, p8);
    lemma_infix_stays(t8, p6 + p7, p9);
    lemma_infix_stays(t9, p6 + p7, p10);
    lemma_infix_stays(t10, p6 + p7, p11);
    lemma_infix_stays(t11, p6 + p7, p12);
    assert(t9 =~= t7 + (p8 + p9));
    lemma_infix_at_end(t7, p8 + p9);
    lemma_infix_stays(t9, p8 + p9, p10);
    lemma_infix_stays(t10, p8 + p9, p11);
    lemma_infix_stays(t11, p8 + p9, p12);
    assert(t11 =~= t9 + (p10 + p11));
    lemma_infix_at_end(t9, p10 + p11);
    lemma_infix_stays(t11, p10 + p11, p12);
}

/// A status names its player and tells its state, its position in whole milliseconds
/// and its volume; a player that reports no state counts as stopped, and one that
/// reports no position as being at the start.
pub proof fn lemma_what_a_status_tells(
    player: Seq<char>,
    playback: Option<Seq<char>>,
    volume_json: Seq<char>,
    position_us: Option<i64>,
    meta: MediaMetadata,
)
    ensures
        ({
            let t = status_text(player, playback, volume_json, position_us, meta);
            &&& has_infix(t, "{\"metadata\":"@ + metadata_text(meta))
            &&& has_infix(t, ",\"player\":"@ + json_quoted(player))
            &&& playback matches Some(s) ==> has_infix(t, ",\"status\":"@ + json_quoted(s))
            &&& playback is None ==> has_infix(t, ",\"status\":"@ + json_quoted("Stopped"@))
            &&& position_us matches Some(p) ==> (p >= 0 ==> has_infix(
                t,
                ",\"position_ms\":"@ + decimal((p / 1000) as nat) + ",\"status\":"@,
            ))
            &&& position_us is None ==> has_infix(
                t,
                ",\"position_ms\":"@ + decimal(0) + ",\"status\":"@,
            )
            &&& has_infix(t, ",\"volume\":"@ + volume_json)
        }),
{
    let us = match position_us {
        Some(p) => p as int,
        None => 0,
    };
    let state = match playback {
        Some(s) => s,
        None => "Stopped"@,
    };
    let p0 = "{\"metadata\":"@;
    let p1 = metadata_text(meta);
    let p2 = ",\"player\":"@;
    let p3 = json_quoted(player);
    let p4 = ",\"position_ms\":"@;
    let p5 = signed_decimal(to_millis(us));
    let p6 = ",\"status\":"@;
    let p7 = json_quoted(state);
    let p8 = ",\"volume\":"@;
    let p9 = volume_json;
    let p10 = "}"@;
    let t0 = p0;
    let t1 = t0 + p1;
    let t2 = t1 + p2;
    let t3 = t2 + p3;
    let t4 = t3 + p4;
    let t5 = t4 + p5;
    let t6 = t5 + p6;
    let t7 = t6 + p7;
    let t8 = t7 + p8;
    let t9 = t8 + p9;
    let t10 = t9 + p10;
    assert(t1 =~= Seq::<char>::empty() + (p0 + p1));
    lemma_infix_at_end(Seq::<char>::empty(), p0 + p1);
    lemma_infix_stays(t1, p0 + p1, p2);
    lemma_infix_stays(t2, p0 + p1, p3);
    lemma_infix_stays(t3, p0 + p1, p4);
    lemma_infix_stays(t4, p0 + p1, p5);
    lemma_infix_stays(t5, p0 + p1, p6);
    lemma_infix_stays(t6, p0 + p1, p7);
    lemma_infix_stays(t7, p0 + p1, p8);
    lemma_infix_stays(t8, p0 + p1, p9);
    lemma_infix_stays(t9, p0 + p1, p10);
    assert(t3 =~= t1 + (p2 + p3));
    lemma_infix_at_end(t1, p2 + p3);
    lemma_infix_stays(t3, p2 + p3, p4);
    lemma_infix_stays(t4, p2 + p3, p5);
    lemma_infix_stays(t5, p2 + p3, p6);
    lemma_infix_stays(t6, p2 + p3, p7);
    lemma_infix_stays(t7, p2 + p3, p8);
    lemma_infix_stays(t8, p2 + p3, p9);
    lemma_infix_stays(t9, p2 + p3, p10);
    assert(t6 =~= t3 + (p4 + p5 + p6));
    lemma_infix_at_end(t3, p4 + p5 + p6);
    lemma_infix_stays(t6, p4 + p5 + p6, p7);
    lemma_infix_stays(t7, p4 + p5 + p6, p8);
    lemma_infix_stays(t8, p4 + p5 + p6, p9);
    lemma_infix_stays(t9, p4 + p5 + p6, p10);
    assert(t7 =~= t5 + (p6 + p7));
    lemma_infix_at_end(t5, p6 + p7);
    lemma_infix_stays(t7, p6 + p7, p8);
    lemma_infix_stays(t8, p6 + p7, p9);
    lemma_infix_stays(t9, p6 + p7, p10);
    assert(t9 =~= t7 + (p8 + p9));
    lemma_infix_at_end(t7, p8 + p9);
    lemma_infix_stays(t9, p8 + p9, p10);
    assert(status_text(player, playback, volume_json, position_us, meta) == t10);
}

/// The reply to a request for the status.
pub fn status_reply(
    player: &str,
    playback: Option<&str>,
    volume_json: &str,
    position_us: Option<i64>,
    meta: &MediaMetadata,
) -> (r: String)
    ensures
        r@ == status_text(
            player@,
            match playback {
                Some(s) => Some(s@),
                None => None,
            },
            volume_json@,
            position_us,
            *meta,
        ),
{
    let mut s = join2("{\"metadata\":", metadata_json(meta).as_str());
    s.append(",\"player\":");
    s.append(json_quote(player).as_str());
    s.append(",\"position_ms\":");
    let us: i64 = match position_us {
        Some(p) => p,
        None => 0,
    };
    s.append(signed_dec(millis(us)).as_str());
    s.append(",\"status\":");
    let status = match playback {
        Some(t) => t,
        None => "Stopped",
    };
    s.append(json_quote(status).as_str());
    s.append(",\"volume\":");
    s.append(volume_json);
    s.append("}");
    s
}

/// A bus name is that of a player where it begins as such names do and the operator
/// permits it; where the operator names nobody, everybody is permitted.
pub proof fn lemma_who_counts_as_a_player(policy: PlayerPolicy, name: Seq<char>, value: String)
    ensures
        is_player(policy, name) <==> has_prefix(name, "org.mpris.MediaPlayer2."@) && (
        policy.allowed is None || texts(policy.allowed->0@).contains(name)),
        allowed_list(None) is None,
        list_items(value@).len() == 0 ==> allowed_list(Some(value)) is None,
        list_items(value@).len() > 0 ==> allowed_list(Some(value)) == Some(list_items(value@)),
{
}

/// Parameters are complained about exactly where one of the three members does not read,
/// the player before the address and the address before the position.
pub proof fn lemma_what_is_complained_about(bytes: Seq<u8>)
    ensures
        params_complaint(bytes) is None <==> json_text_at(bytes, "player"@) is Ok && json_text_at(
            bytes,
            "uri"@,
        ) is Ok && json_number_at(bytes, "position_ms"@) is Ok,
        json_text_at(bytes, "player"@) matches Err(e) ==> params_complaint(bytes) == Some(e),
        json_text_at(bytes, "player"@) is Ok ==> (json_text_at(bytes, "uri"@) matches Err(e)
            ==> params_complaint(bytes) == Some(e)),
{
}

/// A length that is written without a sign is read as the signed number of the same bits;
/// what a player does not tell is not known, and artists are listed in order.
pub proof fn lemma_what_is_not_known_of_a_track(m: Map<Seq<char>, MetaValue>, r: MediaMetadata)
    requires
        is_metadata(m, r),
    ensures
        m.dom().contains("mpris:length"@) && m["mpris:length"@] is Unsigned ==> r.length_micros
            is Some && r.length_micros->0 == (if m["mpris:length"@]->Unsigned_value
            <= 9_223_372_036_854_775_807 {
            m["mpris:length"@]->Unsigned_value as int
        } else {
            m["mpris:length"@]->Unsigned_value - 18_446_744_073_709_551_616
        }),
        !m.dom().contains("xesam:title"@) ==> r.title is None,
        !m.dom().contains("xesam:album"@) ==> r.album is None,
        !m.dom().contains("mpris:trackid"@) ==> r.track_id is None,
        !m.dom().contains("mpris:artUrl"@) ==> r.art_url is None,
        !m.dom().contains("mpris:length"@) ==> r.length_micros is None,
        !m.dom().contains("xesam:artist"@) ==> r.artists@.len() == 0,
{
    assert(texts(r.artists@).len() == r.artists@.len());
}

/// Elements that are text are read in order, and the others are left out.
pub proof fn lemma_what_can_be_read(items: Seq<Option<String>>, item: Option<String>)
    ensures
        readable(Seq::empty()) == Seq::<Seq<char>>::empty(),
        item is None ==> readable(items.push(item)) == readable(items),
        item matches Some(s) ==> readable(items.push(item)) == readable(items).push(s@),
{
    assert(items.push(item).drop_last() =~= items);
}

/// What is not known is `null`, a number is written in digits behind its sign, and texts
/// stand in brackets.
pub proof fn lemma_how_values_are_written(n: i64, s: String, items: Seq<Seq<char>>)
    ensures
        json_number(None) == "null"@,
        json_number(Some(n)) == signed_decimal(n as int),
        json_opt(None) == "null"@,
        json_opt(Some(s)) == json_quoted(s@),
        items.len() == 1 ==> json_texts(items) == "["@ + json_quoted(items[0]) + "]"@,
        items.len() == 2 ==> json_texts(items) == "["@ + (json_quoted(items[0]) + ","@
            + json_quoted(items[1])) + "]"@,
{
    let quoted = Seq::new(items.len(), |i: int| json_quoted(items[i]));
    if items.len() == 2 {
        assert(quoted.drop_last() =~= seq![json_quoted(items[0])]);
        reveal_with_fuel(joined, 2);
        assert(joined(quoted, ","@) =~= json_quoted(items[0]) + ","@ + json_quoted(items[1]));
    }
}

/// Microseconds become whole milliseconds, cut off towards zero on either side.
pub proof fn lemma_what_milliseconds_are_left(ms: int, rest: int)
    requires
        ms >= 0,
        0 <= rest < 1000,
    ensures
        to_millis(1000 * ms + rest) == ms,
        to_millis(-(1000 * ms + rest)) == -ms,
{
}

} // verus!
