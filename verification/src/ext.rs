use vstd::prelude::*;
use crate::messages::PermissionResponse;

verus! {

// Declarations of the channel types this library stores in its structures.
// Their values are opaque here; every operation on them goes through one of
// the trusted functions below.

#[verifier::external_type_specification]
#[verifier::external_body]
#[verifier::reject_recursive_types(T)]
pub struct ExOneshotSender<T>(tokio::sync::oneshot::Sender<T>);

#[verifier::external_type_specification]
#[verifier::external_body]
#[verifier::reject_recursive_types(T)]
pub struct ExOneshotReceiver<T>(tokio::sync::oneshot::Receiver<T>);

#[verifier::external_type_specification]
#[verifier::external_body]
pub struct ExOneshotRecvError(tokio::sync::oneshot::error::RecvError);

#[verifier::external_type_specification]
#[verifier::external_body]
#[verifier::reject_recursive_types(T)]
pub struct ExWatchSender<T>(tokio::sync::watch::Sender<T>);

#[verifier::external_type_specification]
#[verifier::external_body]
#[verifier::reject_recursive_types(T)]
pub struct ExWatchReceiver<T>(tokio::sync::watch::Receiver<T>);

/// The sending half of a prompt's single-use decision slot.
pub type DecisionSender = tokio::sync::oneshot::Sender<PermissionResponse>;

/// The receiving half of a prompt's single-use decision slot: what the
/// suspended request waits on.
pub type DecisionReceiver = tokio::sync::oneshot::Receiver<PermissionResponse>;

/// Relies on tokio::sync::oneshot::channel: returns a connected pair; the
/// sender can deliver at most one value to the receiver.
#[verifier::external_body]
pub(crate) fn decision_channel() -> (r: (DecisionSender, DecisionReceiver)) {
    tokio::sync::oneshot::channel()
}

/// Relies on tokio::sync::oneshot::Sender::send: consumes the sender and
/// either delivers the value to the receiver (`Ok`) or, when the receiver is
/// already gone, hands the very value back (`Err`).
#[verifier::external_body]
pub(crate) fn send_decision(
    tx: DecisionSender,
    response: PermissionResponse,
) -> (r: Result<(), PermissionResponse>)
    ensures
        r matches Err(v) ==> v == response,
{
    tx.send(response)
}

/// Relies on tokio::sync::watch::channel: returns a connected pair whose
/// receiver initially observes `initial`.
#[verifier::external_body]
pub(crate) fn shutdown_channel(initial: bool) -> (r: (
    tokio::sync::watch::Sender<bool>,
    tokio::sync::watch::Receiver<bool>,
)) {
    tokio::sync::watch::channel(initial)
}

/// Relies on tokio::sync::watch::Sender::send: publishes the value to every
/// receiver; an error only means all receivers are already gone, which the
/// caller treats as the switch having served its purpose.
#[verifier::external_body]
pub(crate) fn switch_send(tx: &tokio::sync::watch::Sender<bool>, value: bool) {
    let _ = tx.send(value);
}

/// Relies on uuid::Uuid::new_v4 and its hyphenated rendering: a freshly drawn
/// random identifier, 36 ASCII characters long. Nothing is promised about the
/// characters themselves: the value depends on the generator's entropy.
#[verifier::external_body]
pub(crate) fn new_prompt_id() -> (r: String)
    ensures
        r@.len() == 36,
{
    uuid::Uuid::new_v4().to_string()
}

} // verus!
