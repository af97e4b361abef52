use pawbae_core::messages::{clean_user_message, extract_user_message, strip_brackets, truncate_str};

#[test]
fn truncate_str_short() {
    assert_eq!(truncate_str("hello", 10), "hello");
}

#[test]
fn truncate_str_exact() {
    assert_eq!(truncate_str("hello", 5), "hello");
}

#[test]
fn truncate_str_long() {
    let result = truncate_str("hello world", 5);
    assert_eq!(result, "hello...");
}

#[test]
fn truncate_str_multibyte() {
    let result = truncate_str("你好世界test", 6);
    assert_eq!(result, "你好...");
}

#[test]
fn truncate_str_cuts_inside_multibyte_char() {
    // byte 4 falls inside the second character: cut back to byte 3
    assert_eq!(truncate_str("你好", 4), "你...");
    assert_eq!(truncate_str("你好", 2), "...");
    assert_eq!(truncate_str("", 0), "");
}

#[test]
fn extract_user_message_with_message_id() {
    let input = "Conversation info\n[message_id: abc]\nAlice: hello";
    let result = extract_user_message(input);
    assert_eq!(result, Some("hello".to_string()));
}

#[test]
fn extract_user_message_simple_timestamp() {
    let input = "[2026-01-01T00:00:00Z] fix the bug";
    let result = extract_user_message(input);
    assert_eq!(result, Some("fix the bug".to_string()));
}

#[test]
fn extract_user_message_queued() {
    let input = "[Queued messages]\n---\nQueued #1\n[message_id: a]\nBob: first\n---\nQueued #2\n[message_id: b]\nAlice: second";
    let result = extract_user_message(input);
    assert_eq!(result, Some("second".to_string()));
}

#[test]
fn extract_user_message_fallback() {
    let input = "just a plain message";
    let result = extract_user_message(input);
    assert_eq!(result, Some("just a plain message".to_string()));
}

#[test]
fn extract_user_message_blank_gives_none() {
    assert_eq!(extract_user_message("  \n \n"), None);
    assert_eq!(extract_user_message(""), None);
}

#[test]
fn extract_user_message_is_shortened() {
    let long = "x".repeat(150);
    let result = extract_user_message(&long).unwrap();
    assert_eq!(result, format!("{}...", "x".repeat(100)));
}

#[test]
fn clean_user_message_strips_system_startup() {
    let input = "A new session was started for agent X";
    assert_eq!(clean_user_message(input), "");
}

#[test]
fn clean_user_message_strips_message_id_wrapper() {
    let input =
        "Conversation info (untrusted metadata)\n[message_id: abc123]\nAlice: hello world";
    assert_eq!(clean_user_message(input), "hello world");
}

#[test]
fn clean_user_message_strips_brackets() {
    let input = "do something [[reply_to_current]] please";
    assert_eq!(clean_user_message(input), "do something  please");
}

#[test]
fn clean_user_message_strips_timestamp_prefix() {
    let input = "[Mon 2026-03-16 01:58 GMT+8] fix the bug";
    assert_eq!(clean_user_message(input), "fix the bug");
}

#[test]
fn clean_user_message_strips_cron_prefix() {
    let input = "[cron:daily-check] run the report";
    assert_eq!(clean_user_message(input), "run the report");
}

#[test]
fn clean_user_message_plain_text_passthrough() {
    let input = "refactor the auth module";
    assert_eq!(clean_user_message(input), "refactor the auth module");
}

#[test]
fn clean_user_message_queue_media_and_summary() {
    assert_eq!(
        clean_user_message("[Queued messages]\nQueued #1\nfirst\nQueued #2\nsecond one"),
        "second one"
    );
    assert_eq!(clean_user_message("[media attached: a.png]\nlook at this"), "look at this");
    assert_eq!(clean_user_message("Current time: 10:00"), "");
    assert_eq!(clean_user_message("do it\nCurrent time: 10:00"), "do it");
    assert_eq!(clean_user_message("Return your summary as plain text"), "");
    assert_eq!(clean_user_message("system\n\nHuman: hi there"), "hi there");
}

#[test]
fn strip_brackets_removes_all_markers() {
    assert_eq!(strip_brackets("a [[b]] c [[d]] e"), "a  c  e");
}

#[test]
fn strip_brackets_no_markers() {
    assert_eq!(strip_brackets("plain text"), "plain text");
}

#[test]
fn strip_brackets_unclosed() {
    assert_eq!(strip_brackets("a [[unclosed"), "a [[unclosed");
}
