use pawbae_core::json::{Json, JsonNumber};
use pawbae_core::sessions::{
    active_key, block_text, chat_messages, claude_conversation, extract_last_messages,
    frame_blocks, newest_sessions, open_jsonl_paths, path_is_open, session_preview,
};
use pawbae_core::types::{ChatMessage, MiniSessionInfo};

fn to_json(v: &serde_json::Value) -> Json {
    match v {
        serde_json::Value::Null => Json::Null,
        serde_json::Value::Bool(b) => Json::Bool(*b),
        serde_json::Value::Number(n) => {
            Json::Num(JsonNumber { as_u64: n.as_u64(), text: n.to_string() })
        }
        serde_json::Value::String(s) => Json::Str(s.clone()),
        serde_json::Value::Array(a) => Json::Array(a.iter().map(to_json).collect()),
        serde_json::Value::Object(o) => {
            Json::Object(o.iter().map(|(k, v)| (k.clone(), to_json(v))).collect())
        }
    }
}

fn lines_of(content: &str) -> Vec<Option<Json>> {
    content
        .lines()
        .map(|l| serde_json::from_str::<serde_json::Value>(l).ok().map(|v| to_json(&v)))
        .collect()
}

fn msg(role: &str, text: &str, ts: Option<&str>) -> (String, String, Option<String>) {
    (role.to_string(), text.to_string(), ts.map(|s| s.to_string()))
}

fn triples(v: &[ChatMessage]) -> Vec<(String, String, Option<String>)> {
    v.iter().map(|m| (m.role.clone(), m.text.clone(), m.timestamp.clone())).collect()
}

#[test]
fn extract_last_messages_finds_both() {
    let content = r#"{"type":"message","message":{"role":"user","content":[{"type":"text","text":"fix the bug"}]}}
{"type":"message","message":{"role":"assistant","content":[{"type":"text","text":"I fixed it."}]}}"#;
    let (user, assistant) = extract_last_messages(&lines_of(content));
    assert_eq!(user.as_deref(), Some("fix the bug"));
    assert_eq!(assistant.as_deref(), Some("I fixed it."));
}

#[test]
fn extract_last_messages_skips_non_message() {
    let content = r#"{"type":"session","timestamp":"2026-01-01"}
{"type":"message","message":{"role":"user","content":[{"type":"text","text":"hello"}]}}"#;
    let (user, assistant) = extract_last_messages(&lines_of(content));
    assert_eq!(user.as_deref(), Some("hello"));
    assert!(assistant.is_none());
}

#[test]
fn extract_last_messages_keeps_latest_and_clips() {
    let long = "y".repeat(130);
    let content = format!(
        "{}\nnot json\n{}\n{}",
        r#"{"type":"message","message":{"role":"user","content":"first"}}"#,
        r#"{"type":"message","message":{"role":"user","content":"second"}}"#,
        format!(r#"{{"type":"message","message":{{"role":"assistant","content":"{}"}}}}"#, long)
    );
    let (user, assistant) = extract_last_messages(&lines_of(&content));
    assert_eq!(user.as_deref(), Some("second"));
    assert_eq!(assistant, Some(format!("{}...", "y".repeat(120))));
}

#[test]
fn claude_conversation_reads_both_transcript_kinds() {
    let content = r#"{"type":"user","message":{"content":"hello"},"timestamp":"t1"}
{"type":"assistant","message":{"content":[{"type":"text","text":"hi"},{"type":"tool_use","name":"Bash"}]}}
{"type":"user","isMeta":true,"message":{"content":"meta note"}}
{"type":"user","message":{"content":"<command-name>/clear</command-name>"}}
{"type":"human","message":{"content":"   "}}
{"type":"user","message":{"content":"This session is being continued from a previous conversation that ran out"}}
{"type":"event_msg","payload":{"type":"agent_message","message":"done"},"timestamp":"t9"}
{"type":"event_msg","payload":{"type":"token_count","message":"x"}}
garbage"#;
    let got = claude_conversation(&lines_of(content));
    assert_eq!(
        triples(&got),
        vec![
            msg("user", "hello", Some("t1")),
            msg("assistant", "hi", None),
            msg("user", "/compact", None),
            msg("assistant", "done", Some("t9")),
        ]
    );
}

#[test]
fn claude_conversation_keeps_last_thousand() {
    let mut lines = Vec::new();
    for i in 0..1005 {
        lines.push(format!(r#"{{"type":"user","message":{{"content":"m{}"}}}}"#, i));
    }
    let got = claude_conversation(&lines_of(&lines.join("\n")));
    assert_eq!(got.len(), 1000);
    assert_eq!(got[0].text, "m5");
    assert_eq!(got[999].text, "m1004");
}

#[test]
fn chat_messages_keep_last_fifty_cleaned() {
    let mut lines = Vec::new();
    for i in 0..60 {
        lines.push(format!(
            r#"{{"type":"message","message":{{"role":"user","content":"[cron:job] task {}"}}}}"#,
            i
        ));
    }
    lines.push(r#"{"type":"message","message":{"role":"assistant","content":"ok [[reply_to_current]]"},"timestamp":"ts"}"#.to_string());
    let got = chat_messages(&lines_of(&lines.join("\n")));
    assert_eq!(got.len(), 50);
    assert_eq!(got[0].text, "task 11");
    assert_eq!(triples(&got[49..]), vec![msg("assistant", "ok", Some("ts"))]);
}

#[test]
fn open_jsonl_paths_takes_last_word() {
    let out = "COMMAND PID USER FD TYPE NAME\nnode 12 me 20r REG /home/me/.openclaw/agents/main/sessions/a.jsonl\nnode 12 me 21r REG /tmp/other.log\n";
    assert_eq!(
        open_jsonl_paths(out),
        vec!["/home/me/.openclaw/agents/main/sessions/a.jsonl".to_string()]
    );
    let open = open_jsonl_paths(out);
    assert!(path_is_open(&open, "/home/me/.openclaw/agents/main/sessions/a.jsonl"));
    assert!(!path_is_open(&open, "/home/me/b.jsonl"));
}

#[test]
fn frame_blocks_collect_closed_blocks() {
    let text = "noise\nSTART:a\nx\ny\nEND\nSTART:b\nz\nSTART:c\nw";
    let got = frame_blocks(text, "START:", "END");
    assert_eq!(
        got,
        vec![
            ("a".to_string(), vec!["x".to_string(), "y".to_string()]),
            ("b".to_string(), vec!["z".to_string()]),
        ]
    );
    assert_eq!(block_text(&vec!["x".to_string(), "y".to_string()]), "x\ny\n");
}

fn mini(key: &str, updated: u64) -> MiniSessionInfo {
    MiniSessionInfo {
        key: key.to_string(),
        agent_id: "main".to_string(),
        session_id: key.to_string(),
        label: key.to_string(),
        channel: None,
        updated_at: updated,
        active: false,
        last_user_msg: None,
        last_assistant_msg: None,
        session_file: None,
    }
}

#[test]
fn newest_sessions_orders_and_limits() {
    let v = vec![mini("a", 5), mini("b", 9), mini("c", 5), mini("d", 1)];
    let got: Vec<String> = newest_sessions(v, 3).into_iter().map(|s| s.key).collect();
    assert_eq!(got, vec!["b", "a", "c"]);
}

#[test]
fn active_key_prefixes_agent() {
    assert_eq!(active_key("main", "agent:main:x"), "main:agent:main:x");
}

#[test]
fn session_preview_reads_tail() {
    let content = r#"{"type":"message","message":{"role":"user","content":"do it"}}
{"type":"message","message":{"role":"assistant","content":"done"}}"#;
    let p = session_preview(&lines_of(content), 5);
    assert_eq!(p.last_user_msg.as_deref(), Some("do it"));
    assert_eq!(p.last_assistant_msg.as_deref(), Some("done"));
}
