use pawbae_core::hook_config::{
    clear_obsolete_flag, register_claude_hooks, register_codex_hooks, register_cursor_hooks,
    register_extension, strip_hooks,
};
use pawbae_core::json::{Json, JsonNumber};
use serde_json::Value;

fn to_json(v: &Value) -> Json {
    match v {
        Value::Null => Json::Null,
        Value::Bool(b) => Json::Bool(*b),
        Value::Number(n) => Json::Num(JsonNumber { as_u64: n.as_u64(), text: n.to_string() }),
        Value::String(s) => Json::Str(s.clone()),
        Value::Array(a) => Json::Array(a.iter().map(to_json).collect()),
        Value::Object(o) => Json::Object(o.iter().map(|(k, v)| (k.clone(), to_json(v))).collect()),
    }
}

fn from_json(j: &Json) -> Value {
    match j {
        Json::Null => Value::Null,
        Json::Bool(b) => Value::Bool(*b),
        Json::Num(n) => serde_json::from_str(&n.text).unwrap(),
        Json::Str(s) => Value::String(s.clone()),
        Json::Array(a) => Value::Array(a.iter().map(from_json).collect()),
        Json::Object(o) => {
            let mut m = serde_json::Map::new();
            for (k, v) in o {
                m.insert(k.clone(), from_json(v));
            }
            Value::Object(m)
        }
    }
}

fn parse(s: &str) -> Json {
    to_json(&serde_json::from_str::<Value>(s).unwrap())
}

fn value(s: &str) -> Value {
    serde_json::from_str(s).unwrap()
}

const CC_CMD: &str = "/p/ooclaw-hook.sh";

#[test]
fn claude_registration_keeps_foreign_hooks_and_replaces_ours() {
    let settings = parse(
        r#"{"theme":"dark","hooks":{"Stop":[{"hooks":[{"type":"command","command":"/x/other.sh"}]},{"hooks":[{"type":"command","command":"/old/ooclaw-hook.sh"}]}]}}"#,
    );
    let out = register_claude_hooks(settings, CC_CMD).unwrap();
    let v = from_json(&out);
    assert_eq!(v["theme"], value(r#""dark""#));
    let ours = value(r#"{"hooks":[{"type":"command","command":"/p/ooclaw-hook.sh"}]}"#);
    assert_eq!(
        v["hooks"]["Stop"],
        Value::Array(vec![
            value(r#"{"hooks":[{"type":"command","command":"/x/other.sh"}]}"#),
            ours.clone()
        ])
    );
    assert_eq!(
        v["hooks"]["PreToolUse"],
        value(r#"[{"matcher":"*","hooks":[{"type":"command","command":"/p/ooclaw-hook.sh"}]}]"#)
    );
    assert_eq!(
        v["hooks"]["PreCompact"],
        value(
            r#"[{"matcher":"auto","hooks":[{"type":"command","command":"/p/ooclaw-hook.sh"}]},{"matcher":"manual","hooks":[{"type":"command","command":"/p/ooclaw-hook.sh"}]}]"#
        )
    );
    assert_eq!(v["hooks"]["SessionEnd"], Value::Array(vec![ours]));
    assert_eq!(v["hooks"].as_object().unwrap().len(), 9);
}

#[test]
fn claude_registration_twice_changes_nothing() {
    let settings = parse(r#"{"hooks":{"Stop":[{"hooks":[{"type":"command","command":"keep"}]}]}}"#);
    let once = register_claude_hooks(settings, CC_CMD).unwrap();
    let again = register_claude_hooks(parse(&from_json(&once).to_string()), CC_CMD).unwrap();
    assert_eq!(from_json(&again), from_json(&once));
}

#[test]
fn claude_registration_errors() {
    assert_eq!(register_claude_hooks(parse("[1]"), CC_CMD).unwrap_err(), "settings not object");
    assert_eq!(
        register_claude_hooks(parse(r#"{"hooks":"x"}"#), CC_CMD).unwrap_err(),
        "hooks not object"
    );
    assert_eq!(
        register_claude_hooks(parse(r#"{"hooks":{"Stop":{}}}"#), CC_CMD).unwrap_err(),
        "not array"
    );
}

#[test]
fn codex_registration_from_empty_file() {
    let out = register_codex_hooks(Json::Null, "/c/ooclaw-codex-hook.sh").unwrap();
    let v = from_json(&out);
    let group = value(r#"[{"hooks":[{"type":"command","command":"/c/ooclaw-codex-hook.sh"}]}]"#);
    for ev in [
        "SessionStart",
        "UserPromptSubmit",
        "PreToolUse",
        "PostToolUse",
        "PermissionRequest",
        "Stop",
        "StopFailure",
        "SubagentStop",
    ] {
        assert_eq!(v["hooks"][ev], group);
    }
    assert_eq!(v["hooks"].as_object().unwrap().len(), 8);
    let again = register_codex_hooks(parse(&v.to_string()), "/c/ooclaw-codex-hook.sh").unwrap();
    assert_eq!(from_json(&again), v);
}

#[test]
fn codex_registration_errors() {
    assert_eq!(
        register_codex_hooks(parse(r#"{"hooks":[]}"#), "c").unwrap_err(),
        "hooks is not an object"
    );
    assert_eq!(
        register_codex_hooks(parse(r#"{"hooks":{"Stop":1}}"#), "c").unwrap_err(),
        "hook event is not an array"
    );
}

#[test]
fn cursor_registration_cleans_stale_events() {
    let cmd = "/new/occlaw-cursor-hook.sh";
    let config = parse(
        r#"{"version":3,"hooks":{"sessionStart":[{"command":"/a/occlaw-cursor-hook.sh"},{"command":"other"}],"stop":[{"command":"/old/occlaw-cursor-hook.sh"},{"command":"x"}]}}"#,
    );
    let out = register_cursor_hooks(config, cmd).unwrap();
    let v = from_json(&out);
    assert_eq!(v["version"], value("1"));
    assert_eq!(v["hooks"]["sessionStart"], value(r#"[{"command":"other"}]"#));
    assert_eq!(
        v["hooks"]["stop"],
        value(r#"[{"command":"/new/occlaw-cursor-hook.sh"},{"command":"x"}]"#)
    );
    assert_eq!(v["hooks"]["afterFileEdit"], value(r#"[{"command":"/new/occlaw-cursor-hook.sh"}]"#));
    let again = register_cursor_hooks(parse(&v.to_string()), cmd).unwrap();
    assert_eq!(from_json(&again), v);
}

#[test]
fn cursor_registration_errors() {
    assert_eq!(
        register_cursor_hooks(parse(r#"{"hooks":2}"#), "c").unwrap_err(),
        "hooks is not an object"
    );
    assert_eq!(
        register_cursor_hooks(parse(r#"{"hooks":{"stop":"x"}}"#), "c").unwrap_err(),
        "hook event is not an array"
    );
}

#[test]
fn strip_hooks_removes_marked_entries_and_empty_lists() {
    let config = parse(
        r#"{"hooks":{"Stop":[{"hooks":[{"command":"/a/ooclaw-hook.ps1"}]}],"Pre":[{"command":"/a/ooclaw-hook.ps1"},{"command":"keep"}],"Other":3}}"#,
    );
    let v = from_json(&strip_hooks(config, "ooclaw-hook", true));
    assert_eq!(v, value(r#"{"hooks":{"Pre":[{"command":"keep"}],"Other":3}}"#));
    let flat = parse(r#"{"hooks":{"Stop":[{"hooks":[{"command":"/a/ooclaw-hook.ps1"}]}]}}"#);
    let v2 = from_json(&strip_hooks(flat, "ooclaw-hook", false));
    assert_eq!(v2, value(r#"{"hooks":{"Stop":[{"hooks":[{"command":"/a/ooclaw-hook.ps1"}]}]}}"#));
}

#[test]
fn obsolete_flag_is_cleared_only_when_present() {
    let v = parse(r#"{"pet.ext-1.0.0":true,"other":true}"#);
    let out = clear_obsolete_flag(v, "pet.ext-1.0.0").unwrap();
    assert_eq!(from_json(&out), value(r#"{"other":true}"#));
    assert!(clear_obsolete_flag(parse(r#"{"other":true}"#), "pet.ext-1.0.0").is_none());
    assert!(clear_obsolete_flag(parse("[]"), "pet.ext-1.0.0").is_none());
}

#[test]
fn extension_registry_replaces_or_appends() {
    let reg = parse(r#"[{"identifier":{"id":"a.b"},"v":1},{"identifier":{"id":"c.d"}}]"#);
    let entry = parse(r#"{"identifier":{"id":"a.b"},"v":2}"#);
    let out = from_json(&register_extension(reg, entry, "a.b"));
    assert_eq!(out, value(r#"[{"identifier":{"id":"a.b"},"v":2},{"identifier":{"id":"c.d"}}]"#));
    let out2 = from_json(&register_extension(parse("{}"), parse(r#"{"identifier":{"id":"x"}}"#), "x"));
    assert_eq!(out2, value(r#"[{"identifier":{"id":"x"}}]"#));
}
