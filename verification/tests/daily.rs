use pawbae_core::claude_stats::{file_recent, stats_add_file, stats_finish, stats_start};
use pawbae_core::clock::{day_of_ms, format_ms, fourteen_days_to, last_fourteen_days};
use pawbae_core::daily::{
    agent_cron_jobs, agent_skills, count_file_days, daily_counts, from_first_brace,
    read_daily_summary, DailyCount,
};
use pawbae_core::json::{Json, JsonNumber};
use pawbae_core::num::{decimal_text, parse_unsigned};
use serde_json::Value;

fn to_json(v: &Value) -> Json {
    match v {
        Value::Null => Json::Null,
        Value::Bool(b) => Json::Bool(*b),
        Value::Number(n) => Json::Num(JsonNumber { as_u64: n.as_u64(), text: n.to_string() }),
        Value::String(s) => Json::Str(s.clone()),
        Value::Array(a) => Json::Array(a.iter().map(to_json).collect()),
        Value::Object(o) => Json::Object(o.iter().map(|(k, v)| (k.clone(), to_json(v))).collect()),
    }
}

fn parse(s: &str) -> Json {
    to_json(&serde_json::from_str::<Value>(s).unwrap())
}

fn lines_of(content: &str) -> Vec<Option<Json>> {
    content.lines().map(|l| serde_json::from_str::<Value>(l).ok().map(|v| to_json(&v))).collect()
}

fn day(d: &str, c: u32, t: u64) -> DailyCount {
    DailyCount { date: d.to_string(), count: c, tokens: t }
}

#[test]
fn file_days_count_calls_and_tokens() {
    let mut t: Vec<DailyCount> = Vec::new();
    let first = r#"{"timestamp":"2026-03-01T10:00:00Z","type":"message","message":{"usage":{"totalTokens":100}}}
{"timestamp":"2026-03-01T11:00:00Z"}
{"type":"message","message":{"usage":{"totalTokens":5}}}
{"timestamp":"2026-03-02T00:00:00Z","type":"message","message":{"usage":{"totalTokens":7}}}
{"timestamp":"short"}"#;
    count_file_days(&mut t, &lines_of(first));
    assert_eq!(t, vec![day("2026-03-01", 2, 105), day("2026-03-02", 1, 7)]);
    let second = r#"{"type":"message","message":{"usage":{"totalTokens":9}}}
{"timestamp":"2026-03-02T05:00:00Z"}"#;
    count_file_days(&mut t, &lines_of(second));
    assert_eq!(t, vec![day("2026-03-01", 2, 105), day("2026-03-02", 2, 7)]);
    let dates = vec!["2026-02-28".to_string(), "2026-03-01".to_string(), "2026-03-02".to_string()];
    assert_eq!(
        daily_counts(&t, &dates),
        vec![day("2026-02-28", 0, 0), day("2026-03-01", 2, 105), day("2026-03-02", 2, 7)]
    );
}

#[test]
fn remote_summary_is_read() {
    let text = "2026-03-01 4 100\n2026-03-02 x 7\nbad line\nSERVER_TODAY: 2026-03-02 \n2026-03-01 5 +9";
    let (today, days) = read_daily_summary(text);
    assert_eq!(today.as_deref(), Some("2026-03-02"));
    assert_eq!(days, vec![day("2026-03-01", 5, 9), day("2026-03-02", 0, 7)]);
    let (none, empty) = read_daily_summary("");
    assert_eq!(none, None);
    assert!(empty.is_empty());
}

#[test]
fn fourteen_days_end_today() {
    let days = fourteen_days_to("2026-03-02").unwrap();
    assert_eq!(days.len(), 14);
    assert_eq!(days[0], "2026-02-17");
    assert_eq!(days[13], "2026-03-02");
    assert!(fourteen_days_to("not a date").is_none());
    let local = last_fourteen_days(1_700_000_000_000);
    assert_eq!(local[13], "2023-11-14");
    assert_eq!(local[0], "2023-11-01");
}

#[test]
fn clock_formats_utc() {
    assert_eq!(format_ms(0), "1970-01-01T00:00:00Z");
    assert_eq!(format_ms(1_700_000_000_999), "2023-11-14T22:13:20Z");
    assert_eq!(day_of_ms(86_400_000), "1970-01-02");
}

#[test]
fn skills_come_from_latest_session() {
    let index = parse(
        r#"{"a":{"updatedAt":1,"skillsSnapshot":{"skills":[{"name":"x"}]}},"b":{"updatedAt":2,"skillsSnapshot":{"skills":[{"name":"web"},{"id":1},{"name":"git"}]}}}"#,
    );
    assert_eq!(agent_skills(&index), vec!["web".to_string(), "git".to_string()]);
    assert!(agent_skills(&parse(r#"{"a":{"updatedAt":1}}"#)).is_empty());
}

#[test]
fn cron_jobs_are_filtered_by_agent() {
    let jobs = vec![
        parse(r#"{"agentId":"main","id":1}"#),
        parse(r#"{"id":2}"#),
        parse(r#"{"agentId":"","id":3}"#),
        parse(r#"{"agentId":"other","id":4}"#),
    ];
    assert_eq!(agent_cron_jobs(&jobs, "main").len(), 3);
    assert_eq!(agent_cron_jobs(&jobs, "").len(), 3);
    let other = agent_cron_jobs(&jobs, "other");
    assert_eq!(other.len(), 1);
    assert_eq!(other[0], parse(r#"{"agentId":"other","id":4}"#));
    assert_eq!(from_first_brace("warn: x\n{\"jobs\":[]}").as_deref(), Some("{\"jobs\":[]}"));
    assert_eq!(from_first_brace("nothing"), None);
}

#[test]
fn numbers_parse_like_str_parse() {
    assert_eq!(parse_unsigned("42", 100), Some(42));
    assert_eq!(parse_unsigned("+7", 100), Some(7));
    assert_eq!(parse_unsigned("101", 100), None);
    assert_eq!(parse_unsigned("", 100), None);
    assert_eq!(parse_unsigned("-1", 100), None);
    assert_eq!(parse_unsigned("4x", 100), None);
    assert_eq!(parse_unsigned("18446744073709551615", u64::MAX), Some(u64::MAX));
    assert_eq!(decimal_text(0), "0");
    assert_eq!(decimal_text(1234567), "1234567");
    assert_eq!(decimal_text(u64::MAX), u64::MAX.to_string());
}

#[test]
fn claude_stats_count_sessions_and_days() {
    let mut s = stats_start();
    let claude = r#"{"type":"assistant","timestamp":"2026-03-01T10:00:00Z","message":{"model":"sonnet-x","usage":{"input_tokens":10,"output_tokens":4,"cache_read_input_tokens":2,"cache_creation_input_tokens":1}}}
{"type":"assistant","timestamp":"2026-02-01T10:00:00Z","message":{"usage":{"input_tokens":99}}}
{"type":"user","timestamp":"2026-03-01T10:01:00Z"}"#;
    stats_add_file(&mut s, &lines_of(claude), "2026-02-20", Some(0));
    let codex = r#"{"type":"session_meta","payload":{"model_provider":"openai"}}
{"type":"event_msg","timestamp":"2026-03-02T09:00:00Z","payload":{"type":"token_count","info":{"total_token_usage":{"input_tokens":50,"output_tokens":5,"cached_input_tokens":10}}}}
{"type":"event_msg","timestamp":"2026-03-02T09:05:00Z","payload":{"type":"token_count","info":{"total_token_usage":{"input_tokens":70,"output_tokens":5,"cached_input_tokens":10}}}}"#;
    stats_add_file(&mut s, &lines_of(codex), "2026-02-20", None);
    assert_eq!(s.model, "sonnet-x");
    assert_eq!(s.total_input_tokens, 80);
    assert_eq!(s.total_output_tokens, 9);
    assert_eq!(s.total_cache_read_tokens, 12);
    assert_eq!(s.total_cache_write_tokens, 1);
    assert_eq!(s.total_messages, 3);
    assert_eq!(s.total_sessions, 2);
    let dates = vec!["2026-03-01".to_string(), "2026-03-02".to_string(), "2026-03-03".to_string()];
    let f = stats_finish(s, &dates);
    let days: Vec<(String, u64, u64, u64)> =
        f.daily_stats.iter().map(|d| (d.date.clone(), d.input_tokens, d.messages, d.sessions)).collect();
    assert_eq!(
        days,
        vec![
            ("2026-03-01".to_string(), 10, 1, 1),
            ("2026-03-02".to_string(), 70, 2, 1),
            ("2026-03-03".to_string(), 0, 0, 0),
        ]
    );
    assert!(file_recent(None, 5));
    assert!(file_recent(Some(10), 14 * 86_400_000 + 10));
    assert!(!file_recent(Some(9), 14 * 86_400_000 + 10));
}
