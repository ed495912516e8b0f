//! Replies to kernel-routed actions.

use crate::text::join2;
use vstd::prelude::*;

verus! {

/// How an action ended.
#[derive(Debug, Clone, Copy, PartialEq, Eq, Structural)]
pub enum ActionStatus {
    ActionOk,
    ActionError,
    ActionNotFound,
}

/// The reply to one action.
#[derive(Debug, PartialEq, Eq)]
pub struct ActionReply {
    pub action_id: String,
    pub status: ActionStatus,
    pub data_json: Vec<u8>,
    pub error: String,
}

/// Whether `reply` carries `result` for the action `action_id`: the data of a
/// success with an empty error, or the error of a failure with no data.
pub open spec fn replies(
    reply: ActionReply,
    action_id: String,
    result: Result<Vec<u8>, String>,
) -> bool {
    &&& reply.action_id == action_id
    &&& match result {
        Ok(data) => reply.status == ActionStatus::ActionOk && reply.data_json == data
            && reply.error@.len() == 0,
        Err(e) => reply.status == ActionStatus::ActionError && reply.data_json@.len() == 0
            && reply.error == e,
    }
}

/// Whether `reply` fails the action `action_id` with this error and no data.
pub open spec fn replies_error(
    reply: ActionReply,
    action_id: String,
    error: Seq<char>,
) -> bool {
    &&& reply.action_id == action_id
    &&& reply.status == ActionStatus::ActionError
    &&& reply.data_json@.len() == 0
    &&& reply.error@ == error
}

/// The reply to a completed or failed action.
pub fn response_envelope(action_id: String, result: Result<Vec<u8>, String>) -> (r: ActionReply)
    ensures
        replies(r, action_id, result),
        r.action_id == action_id,
        result matches Ok(data) ==> r.status == ActionStatus::ActionOk && r.data_json == data
            && r.error@.len() == 0,
        result matches Err(e) ==> r.status == ActionStatus::ActionError && r.data_json@.len() == 0
            && r.error == e,
{
    match result {
        Ok(data_json) => ActionReply {
            action_id,
            status: ActionStatus::ActionOk,
            data_json,
            error: String::new(),
        },
        Err(error) => ActionReply {
            action_id,
            status: ActionStatus::ActionError,
            data_json: Vec::new(),
            error,
        },
    }
}

/// Whether `reply` says that nobody serves `action`.
pub open spec fn replies_not_found(
    reply: ActionReply,
    action_id: String,
    action: Seq<char>,
) -> bool {
    &&& reply.action_id == action_id
    &&& reply.status == ActionStatus::ActionNotFound
    &&& reply.data_json@.len() == 0
    &&& reply.error@ == "unknown action: "@ + action
}

/// The reply to an action that nobody serves.
pub fn not_found(action_id: String, action: &str) -> (r: ActionReply)
    ensures
        replies_not_found(r, action_id, action@),
        r.action_id == action_id,
        r.status == ActionStatus::ActionNotFound,
        r.data_json@.len() == 0,
        r.error@ == "unknown action: "@ + action@,
{
    ActionReply {
        action_id,
        status: ActionStatus::ActionNotFound,
        data_json: Vec::new(),
        error: join2("unknown action: ", action),
    }
}

/// A reply tells how its action ended: success comes with the data and no error, failure
/// with the error and no data, and an action that nobody serves with its name.
pub proof fn lemma_what_a_reply_tells(
    reply: ActionReply,
    action_id: String,
    result: Result<Vec<u8>, String>,
    error: Seq<char>,
)
    ensures
        replies(reply, action_id, result) ==> reply.action_id == action_id && (reply.status
            == ActionStatus::ActionOk <==> result is Ok) && (reply.status
            == ActionStatus::ActionError <==> result is Err),
        replies(reply, action_id, result) && result is Ok ==> reply.data_json == result->Ok_0
            && reply.error@.len() == 0,
        replies(reply, action_id, result) && result is Err ==> reply.error == result->Err_0
            && reply.data_json@.len() == 0,
        replies_error(reply, action_id, error) ==> reply.action_id == action_id && reply.status
            == ActionStatus::ActionError && reply.error@ == error && reply.data_json@.len() == 0,
        replies_not_found(reply, action_id, error) ==> reply.action_id == action_id
            && reply.status == ActionStatus::ActionNotFound && reply.error@
            == "unknown action: "@ + error && reply.data_json@.len() == 0,
{
}

} // verus!
