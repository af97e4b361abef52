use pawbae_core::gateway_metrics::{gateway_metrics, gateway_status_key, read_status_text};
use pawbae_core::json::{Json, JsonNumber};
use pawbae_core::metrics::{
    fold_start, fold_transcript, read_session_index, recent_actions, sort_tool_stats,
    summarize_metrics, tool_call_detail,
};
use pawbae_core::types::ToolCallStat;
use serde_json::Value;

fn to_json(v: &Value) -> Json {
    match v {
        Value::Null => Json::Null,
        Value::Bool(b) => Json::Bool(*b),
        Value::Number(n) => Json::Num(JsonNumber { as_u64: n.as_u64(), text: n.to_string() }),
        Value::String(s) => Json::Str(s.clone()),
        Value::Array(a) => Json::Array(a.iter().map(to_json).collect()),
        Value::Object(o) => Json::Object(o.iter().map(|(k, v)| (k.clone(), to_json(v))).collect()),
    }
}

fn from_json(j: &Json) -> Value {
    match j {
        Json::Null => Value::Null,
        Json::Bool(b) => Value::Bool(*b),
        Json::Num(n) => serde_json::from_str(&n.text).unwrap(),
        Json::Str(s) => Value::String(s.clone()),
        Json::Array(a) => Value::Array(a.iter().map(from_json).collect()),
        Json::Object(o) => {
            let mut m = serde_json::Map::new();
            for (k, v) in o {
                m.insert(k.clone(), from_json(v));
            }
            Value::Object(m)
        }
    }
}

fn parse(s: &str) -> Json {
    to_json(&serde_json::from_str::<Value>(s).unwrap())
}

fn lines_of(content: &str) -> Vec<Option<Json>> {
    content.lines().map(|l| serde_json::from_str::<Value>(l).ok().map(|v| to_json(&v))).collect()
}

fn render(v: &Json) -> String {
    from_json(v).to_string()
}

const TRANSCRIPT: &str = r#"{"type":"session","timestamp":"2026-01-01T00:00:00Z"}
{"type":"model_change","modelId":"opus","timestamp":"t2"}
{"type":"message","timestamp":"t3","message":{"role":"user","content":[{"type":"text","text":"[2026-01-01T00:00:00Z] fix the bug"}]}}
{"type":"message","timestamp":"t4","message":{"role":"assistant","usage":{"input":10,"output":5,"cacheRead":2,"cacheWrite":1,"totalTokens":18},"content":[{"type":"text","text":" working on it "},{"type":"toolCall","name":"Bash","input":{"command":"ls","n":3}}]}}
{"type":"message","timestamp":"t5","message":{"role":"assistant","usage":{"input":1,"output":1,"totalTokens":2},"content":[{"type":"toolCall","name":"Read","input":{}},{"type":"toolCall","name":"Bash","input":"x"}]}}
{"type":"custom","customType":"model-error"}
garbage"#;

#[test]
fn transcript_fold_counts_everything() {
    let mut f = fold_start(Some("default".to_string()));
    fold_transcript(&mut f, &lines_of(TRANSCRIPT));
    assert_eq!(f.current_model.as_deref(), Some("opus"));
    assert_eq!(f.session_start.as_deref(), Some("2026-01-01T00:00:00Z"));
    assert_eq!(f.last_activity.as_deref(), Some("t5"));
    assert_eq!(f.current_task.as_deref(), Some("fix the bug"));
    assert_eq!(f.current_tool.as_deref(), Some("Bash"));
    assert_eq!(
        (f.input_tokens, f.output_tokens, f.cache_read_tokens, f.cache_write_tokens, f.total_tokens),
        (11, 6, 2, 1, 20)
    );
    assert_eq!(f.message_count, 3);
    assert_eq!(f.error_count, 1);
    let tools: Vec<(String, usize)> = f.tools.iter().map(|t| (t.name.clone(), t.count)).collect();
    assert_eq!(tools, vec![("Bash".to_string(), 2), ("Read".to_string(), 1)]);
    assert_eq!(f.actions.len(), 4);
    assert_eq!(f.actions[0].action_type, "text");
    assert_eq!(f.actions[0].summary, "working on it");
}

#[test]
fn summary_holds_fold_and_recent_actions() {
    let mut f = fold_start(None);
    fold_transcript(&mut f, &lines_of(TRANSCRIPT));
    let index = read_session_index(&parse(
        r#"{"a":{"updatedAt":5,"sessionFile":"/f/a.jsonl","model":"m1","origin":{"surface":"tg"}},"b":{"updatedAt":9,"model":"m2"}}"#,
    ));
    assert_eq!(index.session_count, 2);
    assert_eq!(index.model.as_deref(), Some("m2"));
    assert_eq!(index.channel, None);
    assert_eq!(index.session_file.as_deref(), Some("/f/a.jsonl"));
    let m = summarize_metrics("main", true, &index, Some(f), &render);
    assert_eq!(m.agent_id, "main");
    assert!(m.active);
    assert_eq!(m.active_session_count, 2);
    assert_eq!(m.current_model.as_deref(), Some("opus"));
    assert_eq!(m.total_tokens, 20);
    assert_eq!(
        m.tool_calls,
        vec![
            ToolCallStat { name: "Bash".to_string(), count: 2 },
            ToolCallStat { name: "Read".to_string(), count: 1 }
        ]
    );
    let acts: Vec<(String, String, Option<String>, Option<String>)> = m
        .recent_actions
        .iter()
        .map(|a| (a.action_type.clone(), a.summary.clone(), a.detail.clone(), a.timestamp.clone()))
        .collect();
    assert_eq!(
        acts,
        vec![
            ("tool".to_string(), "Bash".to_string(), None, Some("t5".to_string())),
            ("tool".to_string(), "Read".to_string(), None, Some("t5".to_string())),
            (
                "tool".to_string(),
                "Bash".to_string(),
                Some("command: ls\nn: 3".to_string()),
                Some("t4".to_string())
            ),
        ]
    );
}

#[test]
fn summary_without_transcript_uses_index() {
    let index = read_session_index(&parse(r#"{"a":{"updatedAt":1,"model":"m1","origin":{"surface":"web"}}}"#));
    let m = summarize_metrics("x", false, &index, None, &render);
    assert_eq!(m.current_model.as_deref(), Some("m1"));
    assert_eq!(m.channel.as_deref(), Some("web"));
    assert_eq!(m.total_tokens, 0);
    assert!(m.recent_actions.is_empty());
}

#[test]
fn tool_stats_sort_by_count() {
    let v = vec![
        ToolCallStat { name: "a".to_string(), count: 1 },
        ToolCallStat { name: "b".to_string(), count: 5 },
        ToolCallStat { name: "c".to_string(), count: 3 },
    ];
    let counts: Vec<usize> = sort_tool_stats(v).iter().map(|t| t.count).collect();
    assert_eq!(counts, vec![5, 3, 1]);
}

#[test]
fn tool_detail_writes_members() {
    let long = "z".repeat(310);
    let input = parse(&format!(r#"{{"path":"{}","opts":{{"a":[1,2]}}}}"#, long));
    let d = tool_call_detail(&input, &render).unwrap();
    assert_eq!(d, format!("opts: {{\"a\":[1,2]}}\npath: {}...", "z".repeat(300)));
    assert_eq!(tool_call_detail(&parse("{}"), &render), None);
    assert_eq!(tool_call_detail(&parse("[1]"), &render), None);
    assert!(recent_actions(&Vec::new(), &render).is_empty());
}

#[test]
fn status_text_gives_tokens_and_task() {
    let (i, o, t) = read_status_text("Model: x\nTokens: 1,200 in / 3k out\nQueue: running (1)");
    assert_eq!((i, o), (1200, 3000));
    assert_eq!(t.as_deref(), Some("running (1)"));
    let (i2, o2, t2) = read_status_text("Tokens: in 5 out\nQueue: idle");
    assert_eq!((i2, o2), (0, 5));
    assert_eq!(t2, None);
}

#[test]
fn gateway_metrics_sum_sessions() {
    let sessions = vec![
        parse(r#"{"key":"agent:main:a","totalTokens":100,"updatedAt":2000,"active":true,"model":"gpt"}"#),
        parse(r#"{"key":"k2","totalTokens":50,"updatedAt":5000,"channel":"tg"}"#),
    ];
    assert_eq!(gateway_status_key("main", &sessions), "agent:main:a");
    assert_eq!(gateway_status_key("main", &Vec::new()), "agent:main:main");
    let reply = parse(r#"{"result":{"details":{"statusText":"Tokens: 7 in 8 out"}}}"#);
    let m = gateway_metrics("main", &sessions, 10_000, Some(&reply));
    assert_eq!(m.active_session_count, 1);
    assert!(m.active);
    assert_eq!(m.total_tokens, 150);
    assert_eq!(m.current_model.as_deref(), Some("gpt"));
    assert_eq!(m.channel.as_deref(), Some("tg"));
    assert_eq!(m.last_activity.as_deref(), Some("1970-01-01T00:00:05Z"));
    assert_eq!((m.input_tokens, m.output_tokens), (7, 8));
    assert_eq!(m.message_count, 2);
    let quiet = gateway_metrics("main", &Vec::new(), 10_000, None);
    assert!(!quiet.active);
    assert_eq!(quiet.last_activity, None);
}
