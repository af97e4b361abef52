use pawbae_core::events::{
    derive_event_status, is_codex_internal_utility_event, is_local_slash, normalize_hook_event,
};
use pawbae_core::hook_session::{
    completion_notice, new_session, process_event, watcher_action, EventOutcome, SessionTable,
    WatcherAction,
};
use pawbae_core::json::{Json, JsonNumber};
use serde_json::Value;

fn to_json(v: &Value) -> Json {
    match v {
        Value::Null => Json::Null,
        Value::Bool(b) => Json::Bool(*b),
        Value::Number(n) => Json::Num(JsonNumber { as_u64: n.as_u64(), text: n.to_string() }),
        Value::String(s) => Json::Str(s.clone()),
        Value::Array(a) => Json::Array(a.iter().map(to_json).collect()),
        Value::Object(o) => Json::Object(o.iter().map(|(k, v)| (k.clone(), to_json(v))).collect()),
    }
}

fn parse(s: &str) -> Json {
    to_json(&serde_json::from_str::<Value>(s).unwrap())
}

fn event(table: &mut SessionTable, s: &str, now: u64) -> EventOutcome {
    process_event(table, &parse(s), None, now, &None, &None)
}

#[test]
fn event_names_are_normalized() {
    assert_eq!(normalize_hook_event("beforeSubmitPrompt"), "UserPromptSubmit");
    assert_eq!(normalize_hook_event("stopFailure"), "Stop");
    assert_eq!(normalize_hook_event("afterFileEdit"), "PostToolUse");
    assert_eq!(normalize_hook_event("subagentStart"), "PreToolUse");
    assert_eq!(normalize_hook_event("Notification"), "Notification");
}

#[test]
fn status_follows_the_event() {
    assert_eq!(derive_event_status("UserPromptSubmit", "unknown", false, "", false), "processing");
    assert_eq!(derive_event_status("UserPromptSubmit", "unknown", true, "", false), "stopped");
    assert_eq!(derive_event_status("PreToolUse", "unknown", false, "Bash", false), "tool_running");
    assert_eq!(derive_event_status("PreToolUse", "unknown", false, "AskUserQuestion", false), "waiting");
    assert_eq!(derive_event_status("PreToolUse", "unknown", false, "Bash", true), "waiting");
    assert_eq!(derive_event_status("PreCompact", "unknown", false, "", false), "compacting");
    assert_eq!(derive_event_status("Stop", "unknown", false, "", false), "stopped");
    assert_eq!(derive_event_status("SessionEnd", "unknown", false, "", false), "ended");
    assert_eq!(derive_event_status("Notification", "busy", false, "", false), "busy");
}

#[test]
fn waiting_for_input_never_reports_work() {
    assert_eq!(
        derive_event_status("PostToolUse", "waiting_for_input", false, "", false),
        "stopped"
    );
    assert_eq!(
        derive_event_status("PreToolUse", "waiting_for_input", false, "Bash", false),
        "stopped"
    );
    assert_eq!(
        derive_event_status("UserPromptSubmit", "waiting_for_input", false, "", false),
        "processing"
    );
}

#[test]
fn local_slash_commands_start_no_turn() {
    assert!(is_local_slash("/clear"));
    assert!(is_local_slash("/model opus"));
    assert!(!is_local_slash("/review this"));
    assert!(!is_local_slash("clear"));
}

#[test]
fn process_event_tracks_updates_and_ends_sessions() {
    let mut t = SessionTable::new();
    let r = event(&mut t, r#"{"event":"Notification"}"#, 1);
    assert!(matches!(r, EventOutcome::NoSession));
    assert!(t.sessions.is_empty());

    let r = event(
        &mut t,
        r#"{"session_id":"s1","event":"UserPromptSubmit","prompt":"fix it","cwd":"/w"}"#,
        10,
    );
    match r {
        EventOutcome::Applied(step) => {
            assert_eq!(step.session_id, "s1");
            assert_eq!(step.hook, "UserPromptSubmit");
            assert_eq!(step.status, "processing");
            assert_eq!(step.prev_status, "");
        }
        _ => panic!("event not applied"),
    }
    assert_eq!(t.sessions.len(), 1);
    assert_eq!(t.sessions[0].status, "processing");
    assert_eq!(t.sessions[0].cwd, "/w");
    assert_eq!(t.sessions[0].updated_at, 10);
    assert_eq!(t.sessions[0].user_prompt.as_deref(), Some("fix it"));
    assert_eq!(t.sessions[0].source, "cc");

    event(&mut t, r#"{"sessionId":"s2","event":"sessionStart","source":"cursor"}"#, 11);
    assert_eq!(t.sessions.len(), 2);
    assert_eq!(t.sessions[1].source, "cursor");

    let r = event(&mut t, r#"{"session_id":"s1","event":"Stop"}"#, 12);
    match r {
        EventOutcome::Applied(step) => assert_eq!(step.prev_status, "processing"),
        _ => panic!("event not applied"),
    }
    assert_eq!(t.sessions[0].status, "stopped");
    assert_eq!(t.sessions[0].cwd, "/w");

    event(&mut t, r#"{"session_id":"s1","event":"SessionEnd"}"#, 13);
    assert_eq!(t.sessions.len(), 1);
    assert_eq!(t.sessions[0].session_id, "s2");
    assert!(t.find("s1").is_none());
}

#[test]
fn session_source_is_never_downgraded() {
    let mut t = SessionTable::new();
    event(&mut t, r#"{"session_id":"c1","event":"SessionStart","source":"codex"}"#, 1);
    event(&mut t, r#"{"session_id":"c1","event":"Stop"}"#, 2);
    assert_eq!(t.sessions[0].source, "codex");
}

#[test]
fn new_sessions_start_idle() {
    let s = new_session("x", "cc");
    assert_eq!(s.status, "idle");
    assert!(s.interactive);
    assert!(!s.is_processing);
    assert_eq!(s.pending_agents, 0);
}

#[test]
fn completion_notices() {
    assert_eq!(completion_notice("processing", "Stop", "stopped", 0, false), Some(false));
    assert_eq!(completion_notice("tool_running", "PermissionRequest", "waiting", 0, false), Some(true));
    assert_eq!(completion_notice("processing", "PreToolUse", "waiting", 0, false), Some(true));
    assert_eq!(completion_notice("processing", "Stop", "stopped", 1, false), None);
    assert_eq!(completion_notice("processing", "Stop", "stopped", 0, true), None);
    assert_eq!(completion_notice("compacting", "Stop", "stopped", 0, false), None);
    assert_eq!(completion_notice("idle", "Stop", "stopped", 0, false), None);
}

#[test]
fn watcher_follows_turns() {
    assert_eq!(watcher_action("UserPromptSubmit"), WatcherAction::Start);
    assert_eq!(watcher_action("Stop"), WatcherAction::Stop);
    assert_eq!(watcher_action("SessionEnd"), WatcherAction::Stop);
    assert_eq!(watcher_action("PreToolUse"), WatcherAction::Keep);
}

#[test]
fn codex_utility_sessions_are_recognized() {
    let title = parse(
        r#"{"session_id":"u","permission_mode":"bypassPermissions","prompt":"You are a helpful assistant. You will be presented with a user prompt, title it"}"#,
    );
    let startup = parse(
        r#"{"session_id":"u","permission_mode":"bypassPermissions","transcript_path":null,"source":"startup"}"#,
    );
    let answer = parse(
        r#"{"session_id":"u","permission_mode":"bypassPermissions","last_assistant_message":"  {\"title\":\"x\"}"}"#,
    );
    let plain = parse(r#"{"session_id":"u","permission_mode":"default","prompt":"hello"}"#);
    assert!(is_codex_internal_utility_event(&title));
    assert!(is_codex_internal_utility_event(&startup));
    assert!(is_codex_internal_utility_event(&answer));
    assert!(!is_codex_internal_utility_event(&plain));

    let mut t = SessionTable::new();
    event(&mut t, r#"{"session_id":"u","event":"SessionStart"}"#, 1);
    assert_eq!(t.sessions.len(), 1);
    let r = process_event(&mut t, &title, None, 2, &None, &None);
    assert!(matches!(r, EventOutcome::InternalUtility(ref id) if id == "u"));
    assert!(t.sessions.is_empty());
}
