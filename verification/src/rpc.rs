//! Calls from one plugin into another, routed by the kernel.

use crate::number::{dec, decimal};
use crate::text::{join2, join3, outcome_view};
use vstd::prelude::*;

verus! {

/// Timeout of a call that names none, in milliseconds.
pub const DEFAULT_CALL_TIMEOUT_MS: u32 = 30_000;

/// How long a call waits for its reply: `0` asks for the default.
pub open spec fn call_timeout(timeout_ms: u32) -> u32 {
    if timeout_ms == 0 {
        DEFAULT_CALL_TIMEOUT_MS
    } else {
        timeout_ms
    }
}

/// How long a call waits for its reply.
pub fn effective_timeout(timeout_ms: u32) -> (r: u32)
    ensures
        r == call_timeout(timeout_ms),
        timeout_ms == 0 ==> r == 30_000,
        timeout_ms != 0 ==> r == timeout_ms,
{
    if timeout_ms == 0 {
        DEFAULT_CALL_TIMEOUT_MS
    } else {
        timeout_ms
    }
}

/// How a call ended.
#[derive(Debug, PartialEq, Eq)]
pub enum CallEnd {
    /// Its parameters did not encode.
    NotEncoded { error: String },
    /// Nobody takes calls any more.
    LoopGone,
    /// The target replied.
    Replied { result: Result<String, String> },
    /// No reply came in time.
    TimedOut,
}

/// What a call of `action` gives. `target` stands before the action's name in
/// errors about the call itself: `notes` names the plugin that it calls, the
/// other callers name none.
pub open spec fn call_outcome(
    target: Seq<char>,
    action: Seq<char>,
    timeout_ms: u32,
    end: CallEnd,
) -> Result<Seq<char>, Seq<char>> {
    match end {
        CallEnd::NotEncoded { error } => Err(
            "failed to encode "@ + action + " params: "@ + error@,
        ),
        CallEnd::LoopGone => Err(
            target + action + " aborted: serve loop is shutting down"@,
        ),
        CallEnd::Replied { result } => outcome_view(result),
        CallEnd::TimedOut => Err(
            target + action + " timed out after "@ + decimal(call_timeout(timeout_ms) as nat)
                + " ms"@,
        ),
    }
}

/// What a call of `action` gives: the payload of the reply, or an error that
/// names the action.
pub fn call_result(target: &str, action: &str, timeout_ms: u32, end: CallEnd) -> (r: Result<
    String,
    String,
>)
    ensures
        outcome_view(r) == call_outcome(target@, action@, timeout_ms, end),
        end matches CallEnd::Replied { result } ==> outcome_view(r) == outcome_view(result),
        !(end is Replied) ==> r is Err,
        end matches CallEnd::NotEncoded { error } ==> r->Err_0@ == "failed to encode "@ + action@
            + " params: "@ + error@,
        end is LoopGone ==> r->Err_0@ == target@ + action@
            + " aborted: serve loop is shutting down"@,
        end is TimedOut && timeout_ms == 0 ==> r->Err_0@ == target@ + action@
            + " timed out after "@ + decimal(30_000) + " ms"@,
        end is TimedOut && timeout_ms != 0 ==> r->Err_0@ == target@ + action@
            + " timed out after "@ + decimal(timeout_ms as nat) + " ms"@,
{
    match end {
        CallEnd::NotEncoded { error } => {
            let mut e = join2("failed to encode ", action);
            e.append(" params: ");
            e.append(error.as_str());
            Err(e)
        },
        CallEnd::LoopGone => {
            Err(join3(target, action, " aborted: serve loop is shutting down"))
        },
        CallEnd::Replied { result } => result,
        CallEnd::TimedOut => {
            let mut e = join3(target, action, " timed out after ");
            e.append(dec(effective_timeout(timeout_ms) as u64).as_str());
            e.append(" ms");
            Err(e)
        },
    }
}

/// A call gives what its target replied, and an error in every other case; a call that
/// names no timeout waits for half a minute.
pub proof fn lemma_what_a_call_gives(
    target: Seq<char>,
    action: Seq<char>,
    timeout_ms: u32,
    end: CallEnd,
)
    ensures
        call_outcome(target, action, timeout_ms, end) is Ok ==> end is Replied,
        end matches CallEnd::Replied { result } ==> call_outcome(target, action, timeout_ms, end)
            == outcome_view(result),
        call_timeout(0) == 30_000,
        timeout_ms > 0 ==> call_timeout(timeout_ms) == timeout_ms,
{
}

} // verus!
