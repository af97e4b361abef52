use pawbae_core::control::{
    agent_ids_of_listing, agents_from_reply, bracketed_array, chat_reply_text, chat_session_id,
    gateway_access, interrupt_result, interrupt_session_key, windows_sound_alias,
};
use pawbae_core::gateway::{
    agent_info_from_config, build_agent_health_from_meta, check_agent_active_from_lines,
    extract_sessions, is_queue_active, remote_sessions_json_path, session_active_at_exec,
    session_info_from_entry, sessions_json_path_in,
};
use pawbae_core::health::{
    all_inactive, gateway_health, is_gateway_lock_name, read_health_report, AgentFrame,
};
use pawbae_core::json::{Json, JsonNumber};
use pawbae_core::types::{AgentHealth, SessionHealth};
use serde_json::Value;

fn to_json(v: &Value) -> Json {
    match v {
        Value::Null => Json::Null,
        Value::Bool(b) => Json::Bool(*b),
        Value::Number(n) => Json::Num(JsonNumber { as_u64: n.as_u64(), text: n.to_string() }),
        Value::String(s) => Json::Str(s.clone()),
        Value::Array(a) => Json::Array(a.iter().map(to_json).collect()),
        Value::Object(o) => Json::Object(o.iter().map(|(k, v)| (k.clone(), to_json(v))).collect()),
    }
}

fn parse(s: &str) -> Json {
    to_json(&serde_json::from_str::<Value>(s).unwrap())
}

fn lines_of(content: &str) -> Vec<Option<Json>> {
    content.lines().map(|l| serde_json::from_str::<Value>(l).ok().map(|v| to_json(&v))).collect()
}

fn strs(v: &[&str]) -> Vec<String> {
    v.iter().map(|s| s.to_string()).collect()
}

#[test]
fn gateway_access_reads_port_and_token() {
    let c = parse(r#"{"gateway":{"port":70000,"auth":{"token":"tk"}}}"#);
    assert_eq!(gateway_access(&c), Ok((4464, "tk".to_string())));
    let d = parse(r#"{"gateway":{"auth":{"token":"t2"}}}"#);
    assert_eq!(gateway_access(&d), Ok((18789, "t2".to_string())));
    let e = parse(r#"{"gateway":{"port":1,"auth":{"token":""}}}"#);
    assert_eq!(gateway_access(&e), Err("openclaw.json 中未找到 gateway token".to_string()));
    assert!(gateway_access(&parse("{}")).is_err());
}

#[test]
fn interrupt_targets_open_then_latest_session() {
    let index = parse(
        r#"{"a":{"sessionFile":"/s/a.jsonl","updatedAt":1},"b":{"sessionFile":"C:\\s\\b.jsonl","updatedAt":3},"c":{"updatedAt":3}}"#,
    );
    assert_eq!(interrupt_session_key(&index, &strs(&["C:/s/b.jsonl"])).as_deref(), Some("b"));
    assert_eq!(interrupt_session_key(&index, &strs(&["/s/a.jsonl.lock"])).as_deref(), Some("a"));
    assert_eq!(interrupt_session_key(&index, &Vec::new()).as_deref(), Some("c"));
    assert_eq!(interrupt_session_key(&parse("{}"), &Vec::new()), None);
    assert_eq!(interrupt_result("{\"aborted\":true}", "k"), "已打断 (k)");
    assert_eq!(interrupt_result("{\"aborted\":false}", "k"), "指令已发送，当前无活跃 run (k)");
}

#[test]
fn chat_turns_pick_session_and_reply() {
    assert_eq!(
        chat_session_id(&parse(r#"{"a":{"x":1},"b":{"sessionId":"s-b"}}"#)),
        Ok("s-b".to_string())
    );
    assert_eq!(chat_session_id(&parse("{}")), Err("no session found".to_string()));
    assert_eq!(
        chat_reply_text(&parse(r#"{"result":{"payloads":[{"text":"hello"},{"text":"x"}]}}"#)),
        "hello"
    );
    assert_eq!(chat_reply_text(&parse(r#"{"result":{"payloads":[]}}"#)), "");
    assert_eq!(chat_reply_text(&parse("{}")), "");
}

#[test]
fn agents_are_listed() {
    assert_eq!(agent_ids_of_listing("main\n  \n work \n"), strs(&["main", "work"]));
    let listed = agents_from_reply(&parse(
        r#"{"result":{"details":{"agents":[{"id":"a","identityName":"A"},{"name":"no id"},{"id":"b","identity_emoji":"cat"}]}}}"#,
    ))
    .unwrap();
    let got: Vec<(String, Option<String>, Option<String>)> = listed
        .iter()
        .map(|a| (a.id.clone(), a.identity_name.clone(), a.identity_emoji.clone()))
        .collect();
    assert_eq!(
        got,
        vec![
            ("a".to_string(), Some("A".to_string()), None),
            ("b".to_string(), None, Some("cat".to_string()))
        ]
    );
    let keyed = agents_from_reply(&parse(r#"{"x":{"identityName":"X"},"y":3}"#)).unwrap();
    assert_eq!(keyed.len(), 1);
    assert_eq!(keyed[0].id, "x");
    assert!(agents_from_reply(&parse(r#"{"result":5}"#)).is_none());
    let info = agent_info_from_config("z", &parse(r#"{"identity_name":"Zed","identityEmoji":"z"}"#));
    assert_eq!(info.identity_name.as_deref(), Some("Zed"));
    assert_eq!(info.identity_emoji.as_deref(), Some("z"));
}

#[test]
fn cli_output_array_is_found() {
    assert_eq!(bracketed_array("noise [1,2] tail"), Ok("[1,2]".to_string()));
    assert_eq!(bracketed_array("none"), Err("no JSON array in agents output".to_string()));
    assert_eq!(bracketed_array("[ no close"), Err("no closing bracket".to_string()));
}

#[test]
fn sounds_map_to_windows_aliases() {
    assert_eq!(windows_sound_alias("Blow"), "SystemExclamation");
    assert_eq!(windows_sound_alias("Pop"), "SystemAsterisk");
    assert_eq!(windows_sound_alias("Glass"), "SystemDefault");
    assert_eq!(windows_sound_alias("Hero"), "SystemNotification");
    assert_eq!(windows_sound_alias("Frog"), "SystemQuestion");
    assert_eq!(windows_sound_alias("Nope"), "SystemDefault");
}

#[test]
fn health_report_is_split_by_agent() {
    let text = "AGENT:main\nMETA_START\n{\"a\":1}\nMETA_END\nTAIL:s1.jsonl\nl1\nl2\nEND_TAIL\nTAIL:s2.jsonl\nx\nEND_AGENT\nstray\nAGENT:work\nTAIL:w.jsonl\ny";
    let frames = read_health_report(text);
    assert_eq!(
        frames,
        vec![
            AgentFrame {
                id: "main".to_string(),
                meta: "{\"a\":1}\n".to_string(),
                tails: vec![
                    ("s1.jsonl".to_string(), strs(&["l1", "l2"])),
                    ("s2.jsonl".to_string(), strs(&["x"])),
                ],
            },
            AgentFrame {
                id: "work".to_string(),
                meta: String::new(),
                tails: vec![("w.jsonl".to_string(), strs(&["y"]))],
            },
        ]
    );
    assert!(read_health_report("").is_empty());
}

#[test]
fn gateway_health_groups_sessions_by_agent() {
    let sessions = vec![
        parse(r#"{"agentId":"a","active":true}"#),
        parse(r#"{"key":"agent:b:x","updatedAt":0}"#),
        parse(r#"{"key":"agent:a:y"}"#),
        parse("{}"),
    ];
    let running = parse(r#"{"result":{"details":{"statusText":"Queue: running"}}}"#);
    let replies = vec![None, Some(running), None, None];
    let got: Vec<(String, bool)> = gateway_health(&sessions, &replies, 100_000)
        .into_iter()
        .map(|h| (h.agent_id, h.active))
        .collect();
    assert_eq!(
        got,
        vec![("a".to_string(), true), ("b".to_string(), true), ("main".to_string(), false)]
    );
}

#[test]
fn stale_agents_are_inactive() {
    let a = AgentHealth {
        agent_id: "m".to_string(),
        active: true,
        sessions: vec![SessionHealth { key: "k".to_string(), active: true }],
    };
    let b = all_inactive(a);
    assert!(!b.active);
    assert_eq!(b.sessions, vec![SessionHealth { key: "k".to_string(), active: false }]);
    assert!(is_gateway_lock_name("gateway.abc.lock"));
    assert!(!is_gateway_lock_name("gateway.abc.pid"));
    assert!(!is_gateway_lock_name("other.lock"));
}

#[test]
fn queue_status_and_session_activity() {
    assert!(is_queue_active("Model: x\nQueue: running (2)"));
    assert!(!is_queue_active("Queue: idle"));
    assert!(!is_queue_active("Queue: collecting"));
    assert!(!is_queue_active("no queue here"));
    assert!(session_active_at_exec(&parse(r#"{"active":true}"#), 0));
    assert!(session_active_at_exec(&parse(r#"{"updatedAt":1000}"#), 3999));
    assert!(!session_active_at_exec(&parse(r#"{"updatedAt":1000}"#), 4000));
    assert!(!session_active_at_exec(&parse(r#"{"active":false,"updatedAt":1000}"#), 1000));
}

#[test]
fn gateway_sessions_in_both_formats() {
    let a = extract_sessions(&parse(r#"{"result":{"details":{"sessions":[{"k":1},{"k":2}]}}}"#));
    assert_eq!(a.len(), 2);
    let b = extract_sessions(&parse(r#"[{"k":1}]"#));
    assert_eq!(b.len(), 1);
    assert!(extract_sessions(&parse(r#"{"x":1}"#)).is_empty());
}

#[test]
fn paths_and_session_records() {
    assert_eq!(remote_sessions_json_path(""), "$HOME/.openclaw/agents/main/sessions/sessions.json");
    assert_eq!(
        sessions_json_path_in("/home/me", "work"),
        "/home/me/.openclaw/agents/work/sessions/sessions.json"
    );
    let s = session_info_from_entry("key1", &parse(r#"{"lastChannel":"tg"}"#));
    assert_eq!(s.id, "key1");
    assert_eq!(s.label.as_deref(), Some("key1"));
    assert_eq!(s.status, "stored");
    assert_eq!(s.channel.as_deref(), Some("tg"));
}

#[test]
fn agent_activity_from_last_lines() {
    let working = r#"{"type":"message","message":{"role":"assistant","content":[{"type":"toolCall"}],"usage":{}}}"#;
    let done = r#"{"type":"message","message":{"role":"assistant","content":[{"type":"text"}],"usage":{}}}"#;
    assert!(check_agent_active_from_lines(&lines_of(working)));
    assert!(!check_agent_active_from_lines(&lines_of(done)));
    assert!(check_agent_active_from_lines(&lines_of(r#"{"type":"message","message":{"role":"user"}}"#)));
    assert!(!check_agent_active_from_lines(&Vec::new()));
    let meta = match parse(r#"{"k1":{"sessionFile":"/x/s1.jsonl"},"k2":{"sessionFile":"/x/s2.jsonl"},"k3":{}}"#) {
        Json::Object(es) => Some(es),
        _ => None,
    };
    let tails = vec![("s1.jsonl".to_string(), lines_of(working)), ("s2.jsonl".to_string(), lines_of(done))];
    let h = build_agent_health_from_meta("main", &meta, &tails);
    assert!(h.active);
    assert_eq!(
        h.sessions,
        vec![
            SessionHealth { key: "k1".to_string(), active: true },
            SessionHealth { key: "k2".to_string(), active: false }
        ]
    );
}
