//! The `sync-client` plugin: requests for the mirrored state, and the pace of
//! reconnecting.

use crate::settings::{read_setting, setting};
use crate::text::{join2, same};
use crate::trusted::{json_member_count, json_members};
use vstd::prelude::*;

verus! {

/// A validated request.
#[derive(Debug, Clone, Copy, PartialEq, Eq, Structural)]
pub enum SyncClientRequest {
    GetState,
}

/// Whether nothing came with the request: an empty body or an empty object.
pub open spec fn takes_nothing(empty_body: bool, members: Result<Option<nat>, Seq<char>>) -> bool {
    empty_body || members == Ok::<Option<nat>, Seq<char>>(Some(0nat))
}

/// What is wrong with a request, if anything. `members` is how the body reads
/// as JSON.
pub open spec fn request_error(
    action: Seq<char>,
    empty_body: bool,
    members: Result<Option<nat>, Seq<char>>,
) -> Option<Seq<char>> {
    if action != "sync_client_get_state"@ {
        Some("unknown action: "@ + action)
    } else if takes_nothing(empty_body, members) {
        None
    } else {
        match members {
            Err(e) => Some("invalid params for sync_client_get_state: "@ + e),
            Ok(_) => Some("sync_client_get_state takes no params (expected {})"@),
        }
    }
}

/// One action is served, and only without parameters: nothing at all, or an empty
/// object.
pub proof fn lemma_what_is_served(
    action: Seq<char>,
    empty_body: bool,
    members: Result<Option<nat>, Seq<char>>,
)
    ensures
        request_error(action, empty_body, members) is None <==> action == "sync_client_get_state"@
            && (empty_body || (members matches Ok(Some(n)) && n == 0)),
{
}

/// How a decoded body reads as a mathematical value.
pub open spec fn members_view(m: Result<Option<usize>, String>) -> Result<Option<nat>, Seq<char>> {
    match m {
        Ok(Some(n)) => Ok(Some(n as nat)),
        Ok(None) => Ok(None),
        Err(e) => Err(e@),
    }
}

/// Checks a request whose body was read already.
pub fn check_request(
    action: &str,
    empty_body: bool,
    members: Result<Option<usize>, String>,
) -> (r: Result<SyncClientRequest, String>)
    ensures
        match r {
            Ok(q) => q == SyncClientRequest::GetState && request_error(
                action@,
                empty_body,
                members_view(members),
            ) is None,
            Err(e) => request_error(action@, empty_body, members_view(members)) == Some(e@),
        },
{
    if !same(action, "sync_client_get_state") {
        return Err(join2("unknown action: ", action));
    }
    if empty_body {
        return Ok(SyncClientRequest::GetState);
    }
    match members {
        Err(e) => Err(join2("invalid params for sync_client_get_state: ", e.as_str())),
        Ok(Some(0)) => Ok(SyncClientRequest::GetState),
        Ok(_) => Err("sync_client_get_state takes no params (expected {})".to_owned()),
    }
}

/// Reads and checks a request: one action, no parameters, so only an empty body
/// or `{}` is accepted.
pub fn parse_request(action: &str, params_json: &[u8]) -> (r: Result<SyncClientRequest, String>)
    ensures
        match r {
            Ok(q) => q == SyncClientRequest::GetState && request_error(
                action@,
                params_json@.len() == 0,
                json_members(params_json@),
            ) is None,
            Err(e) => request_error(action@, params_json@.len() == 0, json_members(params_json@))
                == Some(e@),
        },
{
    if params_json.len() == 0 {
        return check_request(action, true, Ok(None));
    }
    check_request(action, false, json_member_count(params_json))
}

// ---------------------------------------------------------------------------
// Configuration
// ---------------------------------------------------------------------------

/// Configuration of the client.
#[derive(Debug, PartialEq, Eq)]
pub struct Config {
    pub heartbeat_secs: u64,
    pub device_id: String,
    pub snapshot_timeout_ms: u32,
}

/// The name of this device: the setting, or else the host name, or else `local`.
pub open spec fn device_name(device_id: Option<String>, hostname: Option<String>) -> Seq<char> {
    match (device_id, hostname) {
        (Some(d), _) => d@,
        (None, Some(h)) => h@,
        (None, None) => "local"@,
    }
}

/// The configuration from the values of the `SYNC_CLIENT_*` settings and of
/// `HOSTNAME`.
pub fn load_config(
    heartbeat_secs: &Option<String>,
    device_id: Option<String>,
    hostname: Option<String>,
    snapshot_timeout_ms: &Option<String>,
) -> (r: Config)
    ensures
        r.heartbeat_secs == setting(*heartbeat_secs, u64::MAX as nat, 30),
        r.device_id@ == device_name(device_id, hostname),
        r.snapshot_timeout_ms == setting(*snapshot_timeout_ms, u32::MAX as nat, 5000),
        device_id matches Some(d) ==> r.device_id@ == d@,
        device_id is None && hostname is Some ==> r.device_id@ == hostname->0@,
        device_id is None && hostname is None ==> r.device_id@ == "local"@,
        heartbeat_secs is None ==> r.heartbeat_secs == 30,
        snapshot_timeout_ms is None ==> r.snapshot_timeout_ms == 5000,
{
    let timeout: u64 = read_setting(snapshot_timeout_ms, u32::MAX as u64, 5000);
    let device_id = match device_id {
        Some(d) => d,
        None => match hostname {
            Some(h) => h,
            None => "local".to_owned(),
        },
    };
    Config {
        heartbeat_secs: read_setting(heartbeat_secs, u64::MAX, 30),
        device_id,
        snapshot_timeout_ms: timeout as u32,
    }
}

// ---------------------------------------------------------------------------
// Reconnecting
// ---------------------------------------------------------------------------

pub const MIN_BACKOFF_SECS: u64 = 1;

pub const MAX_BACKOFF_SECS: u64 = 30;

/// The pause to take after an attempt to serve, and the pause that is due next.
#[derive(Debug, Clone, Copy, PartialEq, Eq, Structural)]
pub struct Backoff {
    pub wait_secs: u64,
    pub next_secs: u64,
}

/// The longer pause that follows a pause.
pub open spec fn doubled(secs: nat) -> nat {
    if secs * 2 < MAX_BACKOFF_SECS {
        secs * 2
    } else {
        MAX_BACKOFF_SECS as nat
    }
}

/// The pause after an attempt: the shortest one where the kernel was reached,
/// otherwise the one that is due; the next one is twice as long, up to the
/// longest.
pub fn after_attempt(connected: bool, due_secs: u64) -> (r: Backoff)
    requires
        due_secs <= MAX_BACKOFF_SECS,
    ensures
        r.wait_secs == if connected {
            MIN_BACKOFF_SECS
        } else {
            due_secs
        },
        r.next_secs == doubled(r.wait_secs as nat),
        r.next_secs <= MAX_BACKOFF_SECS,
        connected ==> r.wait_secs == 1 && r.next_secs == 2,
        !connected ==> r.wait_secs == due_secs,
        r.next_secs == if r.wait_secs < 15 {
            (r.wait_secs * 2) as int
        } else {
            30
        },
{
    let wait_secs: u64 = if connected {
        MIN_BACKOFF_SECS
    } else {
        due_secs
    };
    let twice: u64 = wait_secs * 2;
    let next_secs: u64 = if twice < MAX_BACKOFF_SECS {
        twice
    } else {
        MAX_BACKOFF_SECS
    };
    Backoff { wait_secs, next_secs }
}

/// The pause after `n` failed attempts in a row.
pub open spec fn pause_after(n: nat) -> nat
    decreases n,
{
    if n == 0 {
        MIN_BACKOFF_SECS as nat
    } else {
        doubled(pause_after((n - 1) as nat))
    }
}

/// Pauses start at one second and double from one failed attempt to the next, up to
/// half a minute.
pub proof fn lemma_pauses_double(n: nat)
    ensures
        pause_after(0) == 1,
        pause_after(n) < 15 ==> pause_after(n + 1) == 2 * pause_after(n),
        pause_after(n) >= 15 ==> pause_after(n + 1) == 30,
{
}

/// Pauses never shrink while attempts fail, stay within their bounds, and reach
/// the longest after five failures.
pub proof fn lemma_backoff_grows(n: nat)
    ensures
        MIN_BACKOFF_SECS <= pause_after(n) <= MAX_BACKOFF_SECS,
        pause_after(n) <= pause_after(n + 1),
        n >= 5 ==> pause_after(n) == MAX_BACKOFF_SECS,
    decreases n,
{
    reveal_with_fuel(pause_after, 6);
    if n > 0 {
        lemma_backoff_grows((n - 1) as nat);
    }
}

/// A device goes by the name that it is given, else by the name of its host, else as
/// `local`.
pub proof fn lemma_what_a_device_is_called(device_id: Option<String>, hostname: Option<String>)
    ensures
        device_id matches Some(d) ==> device_name(device_id, hostname) == d@,
        device_id is None && hostname is Some ==> device_name(device_id, hostname) == hostname->0@,
        device_id is None && hostname is None ==> device_name(device_id, hostname) == "local"@,
{
}

} // verus!
