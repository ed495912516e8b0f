//! The sequential message loop of plugins that serve one request at a time.

use crate::action::{not_found, replies_not_found, ActionReply};
use crate::text::{join2, list_contains, texts};
use vstd::prelude::*;

verus! {

/// Checks the kernel's answer to a registration.
pub fn check_registration(accepted: bool, reject_reason: &str) -> (r: Result<(), String>)
    ensures
        match r {
            Ok(_) => accepted,
            Err(e) => !accepted && e@ == "registration rejected: "@ + reject_reason@,
        },
{
    if accepted {
        Ok(())
    } else {
        Err(join2("registration rejected: ", reject_reason))
    }
}

/// What comes in from the kernel.
#[derive(Debug, PartialEq, Eq)]
pub enum Inbound {
    Ping { timestamp: u64 },
    Shutdown,
    Event { event_id: String },
    Action { action_id: String, action: String, params_json: Vec<u8> },
    /// The connection is gone.
    Disconnected,
    Other,
}

/// What the loop does about it.
#[derive(Debug, PartialEq, Eq)]
pub enum ServeStep {
    /// Answer a ping.
    Pong { original_timestamp: u64, server_timestamp: u64 },
    /// Leave the loop.
    Stop,
    /// Acknowledge an event that nobody subscribed to, so that it is not sent
    /// again.
    AckEvent { event_id: String },
    /// Perform an action that the plugin serves, and send its reply.
    Perform { action_id: String, action: String, params_json: Vec<u8> },
    /// Send this reply.
    Reply { reply: ActionReply },
    /// Nothing to do.
    Ignore,
}

/// Decides what to do about a message; `served` are the actions of the plugin.
pub fn serve_step(msg: Inbound, served: &Vec<String>, now_ms: u64) -> (r: ServeStep)
    ensures
        match msg {
            Inbound::Ping { timestamp } => r == (ServeStep::Pong {
                original_timestamp: timestamp,
                server_timestamp: now_ms,
            }),
            Inbound::Shutdown => r is Stop,
            Inbound::Disconnected => r is Stop,
            Inbound::Event { event_id } => r == (ServeStep::AckEvent { event_id }),
            Inbound::Other => r is Ignore,
            Inbound::Action { action_id, action, params_json } => if texts(served@).contains(
                action@,
            ) {
                r == (ServeStep::Perform { action_id, action, params_json })
            } else {
                r matches ServeStep::Reply { reply } && replies_not_found(
                    reply,
                    action_id,
                    action@,
                )
            },
        },
{
    match msg {
        Inbound::Ping { timestamp } => ServeStep::Pong {
            original_timestamp: timestamp,
            server_timestamp: now_ms,
        },
        Inbound::Shutdown => ServeStep::Stop,
        Inbound::Disconnected => ServeStep::Stop,
        Inbound::Event { event_id } => ServeStep::AckEvent { event_id },
        Inbound::Other => ServeStep::Ignore,
        Inbound::Action { action_id, action, params_json } => if list_contains(
            served,
            action.as_str(),
        ) {
            ServeStep::Perform { action_id, action, params_json }
        } else {
            ServeStep::Reply { reply: not_found(action_id, action.as_str()) }
        },
    }
}

/// The actions that the `ai` plugin serves.
pub fn ai_actions() -> (r: Vec<String>)
    ensures
        texts(r@) == seq!["chat_completion"@],
{
    let mut v: Vec<String> = Vec::new();
    v.push("chat_completion".to_owned());
    v
}

/// The actions that the `stt` plugin serves.
pub fn stt_actions() -> (r: Vec<String>)
    ensures
        texts(r@) == seq!["stt_transcribe"@, "stt_models"@],
{
    let mut v: Vec<String> = Vec::new();
    v.push("stt_transcribe".to_owned());
    v.push("stt_models".to_owned());
    v
}

} // verus!
