use vstd::prelude::*;

verus! {

/// An approval request as the bridge process submits it. `tool_use_id` is an
/// opaque correlation value chosen by the caller and carried through as
/// metadata only; the broker mints its own prompt identifier. The tool's
/// input travels as uninterpreted JSON text.
#[derive(Debug, Clone)]
pub struct PermissionRequest {
    pub tool_use_id: String,
    pub tool_name: String,
    pub input: String,
}

/// The decision returned to a suspended approval request. Exactly two shapes
/// exist: an allowance, optionally rewriting the tool's input, or a denial,
/// optionally carrying a human-readable reason.
#[derive(Debug, Clone, PartialEq, Eq)]
pub enum PermissionResponse {
    Allow { updated_input: Option<String> },
    Deny { message: Option<String> },
}

/// The notification handed to the UI layer when a prompt opens. Its
/// `session_id` is read from the endpoint at emission time, so a re-key that
/// happened before emission is visible here.
#[derive(Debug, Clone)]
pub struct PermissionPromptEvent {
    pub prompt_id: String,
    pub session_id: String,
    pub tool_name: String,
    pub input: String,
}

/// Holds when `r` is the denial a prompt yields when its wait elapses, or its
/// endpoint shuts down, before any decision arrives.
pub open spec fn is_timeout_deny(r: PermissionResponse) -> bool {
    match r {
        PermissionResponse::Deny { message } => match message {
            Some(m) => m@ == "Permission prompt timed out"@,
            None => false,
        },
        _ => false,
    }
}

/// The synthesized decision for a prompt nobody answered in time: a denial
/// whose message names the timeout. Timeout is a designed-in normal outcome,
/// not an error: the suspended caller always receives a well-formed decision.
pub fn timeout_response() -> (r: PermissionResponse)
    ensures
        is_timeout_deny(r),
{
    let msg = "Permission prompt timed out";
    PermissionResponse::Deny { message: Some(msg.to_owned()) }
}

} // verus!
