use vstd::prelude::*;
use crate::registry::{
    rekeyed_entry, spec_rekey, spec_resolve, spec_stop, spec_timeout, RegistryModel,
};

verus! {

/// At-most-once delivery: once a resolution delivers a decision for a
/// pending prompt, that prompt is no longer pending, so a second resolution
/// of the same prompt — whatever decision it carries, since the registry
/// transition does not depend on the decision — leaves the registry
/// unchanged and, by `resolve_prompt`'s contract, reports `PromptNotFound`.
pub proof fn lemma_at_most_once_delivery(m: RegistryModel, sid: Seq<char>, pid: Seq<char>)
    requires
        m.contains_key(sid),
        m[sid].pending.contains(pid),
    ensures
        ({
            let after = spec_resolve(m, sid, pid);
            &&& after.contains_key(sid)
            &&& !after[sid].pending.contains(pid)
            &&& spec_resolve(after, sid, pid) == after
        }),
{
}

/// Timeout correctness, the registry half: a timeout removes the prompt
/// from its live session's table, so a later resolution of that prompt
/// leaves the registry unchanged and, by `resolve_prompt`'s contract,
/// reports `PromptNotFound`. The response half — the caller receives the
/// denial whose message names the timeout — is `timeout_prompt`'s own
/// `is_timeout_deny` postcondition.
pub proof fn lemma_timeout_clears_prompt(m: RegistryModel, sid: Seq<char>, pid: Seq<char>)
    requires
        m.contains_key(sid),
    ensures
        ({
            let after = spec_timeout(m, sid, pid);
            &&& after.contains_key(sid)
            &&& !after[sid].pending.contains(pid)
            &&& spec_resolve(after, sid, pid) == after
        }),
{
}

/// Isolation: a prompt pending in one session cannot be resolved through an
/// identifier under which no endpoint is registered, even when the prompt
/// identifier coincides — the registry is untouched and, by
/// `resolve_prompt`'s contract, the caller gets `SessionNotFound`.
pub proof fn lemma_resolve_isolated(
    m: RegistryModel,
    sid_a: Seq<char>,
    sid_b: Seq<char>,
    pid: Seq<char>,
)
    requires
        m.contains_key(sid_a),
        m[sid_a].pending.contains(pid),
        !m.contains_key(sid_b),
    ensures
        spec_resolve(m, sid_b, pid) == m,
        spec_resolve(m, sid_b, pid)[sid_a].pending.contains(pid),
{
}

/// Stop drains pendings, the registry half: after a stop the session is
/// gone, so resolving any of its prompts — however many were suspended —
/// leaves the registry unchanged and, by `resolve_prompt`'s contract,
/// reports `SessionNotFound`. That each suspended request is unblocked with
/// a denial at once, not after the timeout window, is carried by the
/// dropped decision slots of `stop_server`.
pub proof fn lemma_stop_drains(m: RegistryModel, sid: Seq<char>, pid: Seq<char>)
    ensures
        !spec_stop(m, sid).contains_key(sid),
        spec_resolve(spec_stop(m, sid), sid, pid) == spec_stop(m, sid),
{
}

/// Re-keying preserves flight: a prompt pending under the old identifier is
/// still pending — on the same port, with artifacts kept — under the new
/// identifier, so resolving it there succeeds by `resolve_prompt`'s
/// contract; and the endpoint's own identifier now reads as the new one, so
/// a notification emitted after the re-key carries the new identifier.
pub proof fn lemma_rekey_preserves_flight(
    m: RegistryModel,
    old_id: Seq<char>,
    new_id: Seq<char>,
    pid: Seq<char>,
)
    requires
        m.contains_key(old_id),
        m[old_id].pending.contains(pid),
    ensures
        ({
            let after = spec_rekey(m, old_id, new_id);
            &&& after.contains_key(new_id)
            &&& after[new_id] == rekeyed_entry(m[old_id], new_id)
            &&& after[new_id].pending == m[old_id].pending
            &&& after[new_id].pending.contains(pid)
            &&& after[new_id].port == m[old_id].port
            &&& after[new_id].session_id == new_id
        }),
{
}

/// Idempotent stop and re-key on unknown identifiers: with no endpoint
/// registered under the identifier, stopping it or re-keying it away
/// changes nothing and, by the contracts of `stop_server` and
/// `rekey_server`, neither reports an error.
pub proof fn lemma_stop_rekey_unknown_noop(m: RegistryModel, absent_id: Seq<char>, new_id: Seq<char>)
    requires
        !m.contains_key(absent_id),
    ensures
        spec_stop(m, absent_id) == m,
        spec_rekey(m, absent_id, new_id) == m,
{
    assert(spec_stop(m, absent_id) =~= m);
}

} // verus!
