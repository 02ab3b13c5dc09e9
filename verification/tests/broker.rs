use permission_broker::messages::{timeout_response, PermissionRequest, PermissionResponse};
use permission_broker::registry::{PermissionServerRegistry, ResolveError};
use tokio::sync::oneshot::error::TryRecvError;

fn req(tool: &str, input: &str) -> PermissionRequest {
    PermissionRequest {
        tool_use_id: "use-1".to_string(),
        tool_name: tool.to_string(),
        input: input.to_string(),
    }
}

fn deny_timeout() -> PermissionResponse {
    PermissionResponse::Deny {
        message: Some("Permission prompt timed out".to_string()),
    }
}

#[test]
fn start_and_open_prompt_emits_event() {
    let mut reg = PermissionServerRegistry::new();
    let sid = "sess-a".to_string();
    let shutdown_rx = reg.start_server(&sid, 4000);
    assert!(shutdown_rx.is_some());
    assert!(reg.contains_session(&sid));
    let opened = reg.open_prompt(4000, req("Bash", "{\"command\":\"ls\"}"));
    let (pid, _slot_rx, ev) = opened.expect("port is live");
    assert_eq!(ev.prompt_id, pid);
    assert_eq!(ev.session_id, "sess-a");
    assert_eq!(ev.tool_name, "Bash");
    assert_eq!(ev.input, "{\"command\":\"ls\"}");
    assert_eq!(pid.len(), 36);
}

#[test]
fn open_prompt_on_dead_port_refused() {
    let mut reg = PermissionServerRegistry::new();
    let sid = "sess-a".to_string();
    reg.start_server(&sid, 4100).unwrap();
    assert!(reg.open_prompt(4199, req("Bash", "{}")).is_none());
}

#[test]
fn resolve_delivers_decision() {
    let mut reg = PermissionServerRegistry::new();
    let sid = "sess-a".to_string();
    reg.start_server(&sid, 4001).unwrap();
    let (pid, mut slot_rx, _ev) = reg.open_prompt(4001, req("Edit", "{}")).unwrap();
    let decision = PermissionResponse::Allow {
        updated_input: Some("{\"path\":\"/tmp/x\"}".to_string()),
    };
    let r = reg.resolve_prompt(&sid, &pid, decision.clone());
    assert_eq!(r, Ok(()));
    assert_eq!(slot_rx.try_recv(), Ok(decision));
}

#[test]
fn resolve_twice_errors_second_time() {
    let mut reg = PermissionServerRegistry::new();
    let sid = "sess-a".to_string();
    reg.start_server(&sid, 4002).unwrap();
    let (pid, mut slot_rx, _ev) = reg.open_prompt(4002, req("Bash", "{}")).unwrap();
    let first = PermissionResponse::Allow { updated_input: None };
    let second = PermissionResponse::Deny {
        message: Some("changed my mind".to_string()),
    };
    assert_eq!(reg.resolve_prompt(&sid, &pid, first.clone()), Ok(()));
    assert_eq!(
        reg.resolve_prompt(&sid, &pid, second),
        Err(ResolveError::PromptNotFound)
    );
    // exactly one decision was observed by the waiting side: the first
    assert_eq!(slot_rx.try_recv(), Ok(first));
    assert_eq!(slot_rx.try_recv(), Err(TryRecvError::Closed));
}

#[test]
fn timeout_denies_and_clears_prompt() {
    let mut reg = PermissionServerRegistry::new();
    let sid = "sess-a".to_string();
    reg.start_server(&sid, 4003).unwrap();
    let (pid, mut slot_rx, _ev) = reg.open_prompt(4003, req("Bash", "{}")).unwrap();
    let resp = reg.timeout_prompt(4003, &pid);
    assert_eq!(resp, deny_timeout());
    // the slot is gone: the prompt cannot be resolved any more
    assert_eq!(
        reg.resolve_prompt(&sid, &pid, PermissionResponse::Allow { updated_input: None }),
        Err(ResolveError::PromptNotFound)
    );
    // and its sender was dropped without a value
    assert_eq!(slot_rx.try_recv(), Err(TryRecvError::Closed));
}

#[test]
fn timeout_on_dead_port_still_denies() {
    let mut reg = PermissionServerRegistry::new();
    let pid = "some-prompt".to_string();
    let resp = reg.timeout_prompt(4999, &pid);
    assert_eq!(resp, deny_timeout());
}

#[test]
fn timeout_message_text() {
    assert_eq!(timeout_response(), deny_timeout());
}

#[test]
fn resolve_with_foreign_session_id_fails() {
    let mut reg = PermissionServerRegistry::new();
    let sid_a = "sess-a".to_string();
    let sid_b = "sess-b".to_string();
    reg.start_server(&sid_a, 4004).unwrap();
    let (pid, mut slot_rx, _ev) = reg.open_prompt(4004, req("Bash", "{}")).unwrap();
    // session B was never started: resolving through it must not touch A's prompt
    assert_eq!(
        reg.resolve_prompt(&sid_b, &pid, PermissionResponse::Allow { updated_input: None }),
        Err(ResolveError::SessionNotFound)
    );
    assert_eq!(slot_rx.try_recv(), Err(TryRecvError::Empty));
    // the prompt is still deliverable through its own session
    assert_eq!(
        reg.resolve_prompt(&sid_a, &pid, PermissionResponse::Allow { updated_input: None }),
        Ok(())
    );
}

#[test]
fn stop_drains_three_pending_requests() {
    let mut reg = PermissionServerRegistry::new();
    let sid = "sess-a".to_string();
    reg.start_server(&sid, 4005).unwrap();
    let (pid1, mut rx1, _e1) = reg.open_prompt(4005, req("Bash", "{}")).unwrap();
    let (_pid2, mut rx2, _e2) = reg.open_prompt(4005, req("Edit", "{}")).unwrap();
    let (_pid3, mut rx3, _e3) = reg.open_prompt(4005, req("Write", "{}")).unwrap();
    reg.stop_server(&sid).expect("session was live");
    // every suspended waiter is unblocked at once: the senders are gone
    assert_eq!(rx1.try_recv(), Err(TryRecvError::Closed));
    assert_eq!(rx2.try_recv(), Err(TryRecvError::Closed));
    assert_eq!(rx3.try_recv(), Err(TryRecvError::Closed));
    // and the session cannot be resolved against any more
    assert!(!reg.contains_session(&sid));
    assert_eq!(
        reg.resolve_prompt(&sid, &pid1, PermissionResponse::Allow { updated_input: None }),
        Err(ResolveError::SessionNotFound)
    );
}

#[test]
fn rekey_preserves_in_flight_prompt() {
    let mut reg = PermissionServerRegistry::new();
    let placeholder = "pending-1".to_string();
    let real = "real-42".to_string();
    reg.start_server(&placeholder, 4006).unwrap();
    let (pid, mut slot_rx, ev_before) = reg.open_prompt(4006, req("Bash", "{}")).unwrap();
    assert_eq!(ev_before.session_id, "pending-1");
    reg.rekey_server(&placeholder, &real);
    assert!(!reg.contains_session(&placeholder));
    assert!(reg.contains_session(&real));
    // a notification emitted after the re-key carries the new identifier
    let (_pid2, _rx2, ev_after) = reg.open_prompt(4006, req("Edit", "{}")).unwrap();
    assert_eq!(ev_after.session_id, "real-42");
    // the prompt opened before the re-key resolves under the new identifier
    let decision = PermissionResponse::Deny { message: None };
    assert_eq!(reg.resolve_prompt(&real, &pid, decision.clone()), Ok(()));
    assert_eq!(slot_rx.try_recv(), Ok(decision));
    // and no longer under the old one
    assert_eq!(
        reg.resolve_prompt(&placeholder, &pid, PermissionResponse::Allow { updated_input: None }),
        Err(ResolveError::SessionNotFound)
    );
}

#[test]
fn stop_and_rekey_unknown_ids_are_noops() {
    let mut reg = PermissionServerRegistry::new();
    let sid = "sess-a".to_string();
    reg.start_server(&sid, 4007).unwrap();
    let ghost_id = "ghost".to_string();
    let other = "x".to_string();
    assert!(reg.stop_server(&ghost_id).is_none());
    reg.rekey_server(&ghost_id, &other);
    assert!(reg.contains_session(&sid));
    assert!(!reg.contains_session(&ghost_id));
    assert!(!reg.contains_session(&other));
}

#[test]
fn stop_returns_recorded_artifact_paths() {
    let mut reg = PermissionServerRegistry::new();
    let sid = "sess-a".to_string();
    reg.start_server(&sid, 4008).unwrap();
    reg.set_mcp_paths(
        &sid,
        "/tmp/opcode-mcp-sess-a.json".to_string(),
        "/tmp/opcode-mcp-server-sess-a.js".to_string(),
    );
    let paths = reg.stop_server(&sid).expect("session was live");
    assert_eq!(paths.0, "/tmp/opcode-mcp-sess-a.json");
    assert_eq!(paths.1, "/tmp/opcode-mcp-server-sess-a.js");
}

#[test]
fn set_paths_on_unknown_session_is_noop() {
    let mut reg = PermissionServerRegistry::new();
    let sid = "sess-a".to_string();
    reg.set_mcp_paths(&sid, "/tmp/a.json".to_string(), "/tmp/a.js".to_string());
    assert!(!reg.contains_session(&sid));
}

#[test]
fn start_refuses_port_held_by_other_session() {
    let mut reg = PermissionServerRegistry::new();
    let sid_a = "sess-a".to_string();
    let sid_b = "sess-b".to_string();
    assert!(reg.start_server(&sid_a, 4009).is_some());
    assert!(reg.start_server(&sid_b, 4009).is_none());
    assert!(!reg.contains_session(&sid_b));
    assert!(reg.start_server(&sid_b, 4010).is_some());
}

#[test]
fn restart_replaces_previous_endpoint() {
    let mut reg = PermissionServerRegistry::new();
    let sid = "sess-a".to_string();
    reg.start_server(&sid, 4011).unwrap();
    let (pid, mut old_rx, _ev) = reg.open_prompt(4011, req("Bash", "{}")).unwrap();
    reg.start_server(&sid, 4012).unwrap();
    // the replaced endpoint is gone together with its pending prompt
    assert!(reg.open_prompt(4011, req("Bash", "{}")).is_none());
    assert_eq!(old_rx.try_recv(), Err(TryRecvError::Closed));
    assert_eq!(
        reg.resolve_prompt(&sid, &pid, PermissionResponse::Allow { updated_input: None }),
        Err(ResolveError::PromptNotFound)
    );
    // the new endpoint serves
    assert!(reg.open_prompt(4012, req("Bash", "{}")).is_some());
}

#[test]
fn resolve_after_waiter_gone_reports_delivery_failure() {
    let mut reg = PermissionServerRegistry::new();
    let sid = "sess-a".to_string();
    reg.start_server(&sid, 4013).unwrap();
    let (pid, slot_rx, _ev) = reg.open_prompt(4013, req("Bash", "{}")).unwrap();
    drop(slot_rx);
    assert_eq!(
        reg.resolve_prompt(&sid, &pid, PermissionResponse::Allow { updated_input: None }),
        Err(ResolveError::DeliveryFailure)
    );
    // the prompt was consumed regardless: a retry finds nothing
    assert_eq!(
        reg.resolve_prompt(&sid, &pid, PermissionResponse::Allow { updated_input: None }),
        Err(ResolveError::PromptNotFound)
    );
}

#[test]
fn prompt_ids_are_distinct_per_request() {
    let mut reg = PermissionServerRegistry::new();
    let sid = "sess-a".to_string();
    reg.start_server(&sid, 4014).unwrap();
    let (pid1, _rx1, _e1) = reg.open_prompt(4014, req("Bash", "{}")).unwrap();
    let (pid2, _rx2, _e2) = reg.open_prompt(4014, req("Bash", "{}")).unwrap();
    assert_ne!(pid1, pid2);
    assert_eq!(
        reg.resolve_prompt(&sid, &pid1, PermissionResponse::Allow { updated_input: None }),
        Ok(())
    );
    assert_eq!(
        reg.resolve_prompt(&sid, &pid2, PermissionResponse::Deny { message: None }),
        Ok(())
    );
}
