//! Hook events from the cc client, Codex and Cursor: names, statuses and the
//! Codex-specific classifications.
use vstd::prelude::*;
use crate::json::{
    Json, JsonV, get, get2, as_str, as_bool, is_object, get_exec, get2_exec, as_str_exec,
    as_bool_exec, is_object_exec, same_text, same_chars,
};
use crate::text::{
    chars_of, contains, contains_exec, starts_with, starts_with_exec, trim, trim_exec, trim_start,
    trim_start_exec, is_ws, is_ws_exec,
};

verus! {

broadcast use vstd::string::group_string_axioms;

// ---------------------------------------------------------------------
// Event fields
// ---------------------------------------------------------------------

/// `v.get(a).or_else(|| v.get(b)).or_else(|| v.get(c))`.
pub open spec fn get3(v: JsonV, a: Seq<char>, b: Seq<char>, c: Seq<char>) -> Option<JsonV> {
    match get2(v, a, b) {
        Some(x) => Some(x),
        None => get(v, c),
    }
}

pub fn get3_exec<'a>(v: &'a Json, a: &str, b: &str, c: &str) -> (r: Option<&'a Json>)
    ensures
        r matches Some(x) ==> get3(v@, a@, b@, c@) == Some(x@),
        r is None ==> get3(v@, a@, b@, c@) is None,
{
    match get2_exec(v, a, b) {
        Some(x) => Some(x),
        None => get_exec(v, c),
    }
}

/// The string in an optional value, or the empty text.
pub open spec fn text_or_empty(o: Option<JsonV>) -> Seq<char> {
    match o {
        Some(x) => match as_str(x) {
            Some(s) => s,
            None => Seq::empty(),
        },
        None => Seq::empty(),
    }
}

pub fn text_or_empty_exec(o: Option<&Json>) -> (r: &str)
    ensures
        r@ == text_or_empty(match o {
            Some(x) => Some(x@),
            None => None,
        }),
{
    proof {
        reveal_strlit("");
    }
    match o {
        Some(x) => match as_str_exec(x) {
            Some(s) => s,
            None => "",
        },
        None => "",
    }
}

/// The session an event belongs to (`sessionId`, `session_id` or `conversation_id`).
pub open spec fn event_session_id(e: JsonV) -> Seq<char> {
    text_or_empty(get3(e, "sessionId"@, "session_id"@, "conversation_id"@))
}

/// The hook event name as sent (`event`, `hook_event_name` or `codex_event_type`).
pub open spec fn event_raw_name(e: JsonV) -> Seq<char> {
    text_or_empty(get3(e, "event"@, "hook_event_name"@, "codex_event_type"@))
}

/// The client's own status (`claudeStatus` or `status`), `unknown` when absent.
pub open spec fn event_claude_status(e: JsonV) -> Seq<char> {
    match get2(e, "claudeStatus"@, "status"@) {
        Some(x) => match as_str(x) {
            Some(s) => s,
            None => "unknown"@,
        },
        None => "unknown"@,
    }
}

/// The prompt of the event (`userPrompt` or `prompt`).
pub open spec fn event_prompt(e: JsonV) -> Seq<char> {
    text_or_empty(get2(e, "userPrompt"@, "prompt"@))
}

/// The tool of the event (`tool` or `tool_name`).
pub open spec fn event_tool(e: JsonV) -> Seq<char> {
    text_or_empty(get2(e, "tool"@, "tool_name"@))
}

// ---------------------------------------------------------------------
// Event names
// ---------------------------------------------------------------------

/// Cursor's and Codex's camelCase event names mapped onto the cc client's.
pub open spec fn normalized_event(raw: Seq<char>) -> Seq<char> {
    if raw == "beforeSubmitPrompt"@ || raw == "hook-user-prompt-submit"@ {
        "UserPromptSubmit"@
    } else if raw == "sessionStart"@ {
        "SessionStart"@
    } else if raw == "sessionEnd"@ {
        "SessionEnd"@
    } else if raw == "agentStop"@ || raw == "StopFailure"@ || raw == "stopFailure"@ || raw
        == "stop"@ {
        "Stop"@
    } else if raw == "preToolUse"@ || raw == "subagentStart"@ || raw == "beforeShellExecution"@
        || raw == "beforeMCPExecution"@ || raw == "beforeReadFile"@ {
        "PreToolUse"@
    } else if raw == "postToolUse"@ || raw == "postToolUseFailure"@ || raw
        == "afterShellExecution"@ || raw == "afterMCPExecution"@ || raw == "afterFileEdit"@ || raw
        == "afterAgentThought"@ || raw == "afterAgentResponse"@ {
        "PostToolUse"@
    } else if raw == "subagentStop"@ {
        "SubagentStop"@
    } else if raw == "preCompact"@ {
        "PreCompact"@
    } else {
        raw
    }
}

/// Maps a hook event name onto the cc client's event names.
pub fn normalize_hook_event(raw: &str) -> (r: String)
    ensures
        r@ == normalized_event(raw@),
{
    if same_text(raw, "beforeSubmitPrompt") || same_text(raw, "hook-user-prompt-submit") {
        "UserPromptSubmit".to_string()
    } else if same_text(raw, "sessionStart") {
        "SessionStart".to_string()
    } else if same_text(raw, "sessionEnd") {
        "SessionEnd".to_string()
    } else if same_text(raw, "agentStop") || same_text(raw, "StopFailure") || same_text(
        raw,
        "stopFailure",
    ) || same_text(raw, "stop") {
        "Stop".to_string()
    } else if same_text(raw, "preToolUse") || same_text(raw, "subagentStart") || same_text(
        raw,
        "beforeShellExecution",
    ) || same_text(raw, "beforeMCPExecution") || same_text(raw, "beforeReadFile") {
        "PreToolUse".to_string()
    } else if same_text(raw, "postToolUse") || same_text(raw, "postToolUseFailure") || same_text(
        raw,
        "afterShellExecution",
    ) || same_text(raw, "afterMCPExecution") || same_text(raw, "afterFileEdit") || same_text(
        raw,
        "afterAgentThought",
    ) || same_text(raw, "afterAgentResponse") {
        "PostToolUse".to_string()
    } else if same_text(raw, "subagentStop") {
        "SubagentStop".to_string()
    } else if same_text(raw, "preCompact") {
        "PreCompact".to_string()
    } else {
        raw.to_string()
    }
}

// ---------------------------------------------------------------------
// Slash commands
// ---------------------------------------------------------------------

/// Index just past the run of non-whitespace characters from `i`.
pub open spec fn word_end(s: Seq<char>, i: int) -> int
    decreases s.len() - i,
{
    if 0 <= i < s.len() && !is_ws(s[i]) {
        word_end(s, i + 1)
    } else {
        i
    }
}

/// The first whitespace-separated word (what `split_whitespace().next()`
/// gives, or the empty text).
pub open spec fn first_word(s: Seq<char>) -> Seq<char> {
    let t = trim_start(s);
    t.take(word_end(t, 0))
}

pub(crate) fn first_word_exec(s: &Vec<char>) -> (r: Vec<char>)
    ensures
        r@ == first_word(s@),
{
    let t = trim_start_exec(s);
    let mut k: usize = 0;
    while k < t.len() && !is_ws_exec(t[k])
        invariant
            k <= t.len(),
            word_end(t@, 0) == word_end(t@, k as int),
        decreases t.len() - k,
    {
        k = k + 1;
    }
    crate::text::take_exec(&t, k)
}

/// A prompt that is one of the cc client's local slash commands, which start
/// no model turn.
pub open spec fn local_slash(prompt: Seq<char>) -> bool {
    starts_with(prompt, "/"@) && {
        let cmd = first_word(prompt);
        cmd == "/clear"@ || cmd == "/compact"@ || cmd == "/help"@ || cmd == "/cost"@ || cmd
            == "/status"@ || cmd == "/vim"@ || cmd == "/fast"@ || cmd == "/model"@ || cmd
            == "/login"@ || cmd == "/logout"@
    }
}

pub fn is_local_slash(prompt: &str) -> (r: bool)
    ensures
        r == local_slash(prompt@),
{
    let p = chars_of(prompt);
    if !starts_with_exec(&p, &chars_of("/")) {
        return false;
    }
    let cmd = first_word_exec(&p);
    same_chars(&cmd, &chars_of("/clear")) || same_chars(&cmd, &chars_of("/compact"))
        || same_chars(&cmd, &chars_of("/help")) || same_chars(&cmd, &chars_of("/cost"))
        || same_chars(&cmd, &chars_of("/status")) || same_chars(&cmd, &chars_of("/vim"))
        || same_chars(&cmd, &chars_of("/fast")) || same_chars(&cmd, &chars_of("/model"))
        || same_chars(&cmd, &chars_of("/login")) || same_chars(&cmd, &chars_of("/logout"))
}

// ---------------------------------------------------------------------
// Session status
// ---------------------------------------------------------------------

/// Status a session takes on a hook event, before the consistency guard.
pub open spec fn raw_event_status(
    hook: Seq<char>,
    claude_status: Seq<char>,
    slash: bool,
    tool: Seq<char>,
    needs_waiting: bool,
) -> Seq<char> {
    let is_processing = claude_status != "waiting_for_input"@;
    if hook == "UserPromptSubmit"@ {
        if slash {
            "stopped"@
        } else {
            "processing"@
        }
    } else if hook == "PreCompact"@ {
        "compacting"@
    } else if hook == "PreToolUse"@ {
        if tool == "AskUserQuestion"@ || tool == "AskQuestion"@ || needs_waiting {
            "waiting"@
        } else {
            "tool_running"@
        }
    } else if hook == "PostToolUse"@ || hook == "SubagentStop"@ {
        "processing"@
    } else if hook == "Stop"@ {
        "stopped"@
    } else if hook == "SessionEnd"@ {
        "ended"@
    } else if hook == "PermissionRequest"@ {
        "waiting"@
    } else if hook == "SessionStart"@ {
        if is_processing {
            "processing"@
        } else {
            "stopped"@
        }
    } else if !is_processing {
        "stopped"@
    } else {
        claude_status
    }
}

/// Status a session takes on a hook event: when the client says it waits
/// for input, a working status is overridden to `stopped`, except on a new
/// prompt.
pub open spec fn event_status(
    hook: Seq<char>,
    claude_status: Seq<char>,
    slash: bool,
    tool: Seq<char>,
    needs_waiting: bool,
) -> Seq<char> {
    let s = raw_event_status(hook, claude_status, slash, tool, needs_waiting);
    if claude_status == "waiting_for_input"@ && (s == "processing"@ || s == "tool_running"@)
        && hook != "UserPromptSubmit"@ {
        "stopped"@
    } else {
        s
    }
}

/// A permission request always leaves the session waiting for the user's
/// approval, whatever the tool, the client's status or the prompt.
pub proof fn law_permission_request_waits(
    claude_status: Seq<char>,
    slash: bool,
    tool: Seq<char>,
    needs_waiting: bool,
)
    ensures
        event_status("PermissionRequest"@, claude_status, slash, tool, needs_waiting) == "waiting"@,
{
    reveal_strlit("PermissionRequest");
    reveal_strlit("UserPromptSubmit");
    reveal_strlit("PreCompact");
    reveal_strlit("PreToolUse");
    reveal_strlit("PostToolUse");
    reveal_strlit("SubagentStop");
    reveal_strlit("Stop");
    reveal_strlit("SessionEnd");
    reveal_strlit("waiting");
    reveal_strlit("processing");
    reveal_strlit("tool_running");
    let h = "PermissionRequest"@;
    assert(h.len() == 17);
    assert(h != "UserPromptSubmit"@) by { assert("UserPromptSubmit"@.len() == 16); }
    assert(h != "PreCompact"@) by { assert("PreCompact"@.len() == 10); }
    assert(h != "PreToolUse"@) by { assert("PreToolUse"@.len() == 10); }
    assert(h != "PostToolUse"@) by { assert("PostToolUse"@.len() == 11); }
    assert(h != "SubagentStop"@) by { assert("SubagentStop"@.len() == 12); }
    assert(h != "Stop"@) by { assert("Stop"@.len() == 4); }
    assert(h != "SessionEnd"@) by { assert("SessionEnd"@.len() == 10); }
    assert("waiting"@ != "processing"@) by { assert("processing"@.len() == 10); }
    assert("waiting"@ != "tool_running"@) by { assert("tool_running"@.len() == 12); }
}

/// The status each hook event gives, whatever else is reported: a new
/// prompt starts work (a local slash command does not), compaction
/// compacts, a tool call runs the tool unless it asks the user, a tool's
/// end or a sub-agent's stop goes back to processing, `Stop` stops and
/// `SessionEnd` ends; while the client waits for input, nothing but a
/// new prompt shows work.
pub proof fn law_event_status_table(
    claude_status: Seq<char>,
    slash: bool,
    tool: Seq<char>,
    needs_waiting: bool,
)
    ensures
        event_status("UserPromptSubmit"@, claude_status, false, tool, needs_waiting) == "processing"@,
        event_status("UserPromptSubmit"@, claude_status, true, tool, needs_waiting) == "stopped"@,
        event_status("PreCompact"@, claude_status, slash, tool, needs_waiting) == "compacting"@,
        event_status("Stop"@, claude_status, slash, tool, needs_waiting) == "stopped"@,
        event_status("SessionEnd"@, claude_status, slash, tool, needs_waiting) == "ended"@,
        event_status("PreToolUse"@, claude_status, slash, "AskUserQuestion"@, needs_waiting)
            == "waiting"@,
        claude_status != "waiting_for_input"@ ==> event_status(
            "PreToolUse"@,
            claude_status,
            slash,
            tool,
            false,
        ) == (if tool == "AskUserQuestion"@ || tool == "AskQuestion"@ {
            "waiting"@
        } else {
            "tool_running"@
        }),
        claude_status != "waiting_for_input"@ ==> event_status(
            "PostToolUse"@,
            claude_status,
            slash,
            tool,
            needs_waiting,
        ) == "processing"@,
        event_status("PostToolUse"@, "waiting_for_input"@, slash, tool, needs_waiting)
            == "stopped"@,
{
    reveal_strlit("UserPromptSubmit");
    reveal_strlit("PreCompact");
    reveal_strlit("PreToolUse");
    reveal_strlit("PostToolUse");
    reveal_strlit("SubagentStop");
    reveal_strlit("Stop");
    reveal_strlit("SessionEnd");
    reveal_strlit("PermissionRequest");
    reveal_strlit("SessionStart");
    reveal_strlit("waiting");
    reveal_strlit("processing");
    reveal_strlit("tool_running");
    reveal_strlit("stopped");
    reveal_strlit("compacting");
    reveal_strlit("ended");
    reveal_strlit("waiting_for_input");
    reveal_strlit("AskUserQuestion");
    reveal_strlit("AskQuestion");
    assert("PreCompact"@ != "UserPromptSubmit"@) by { assert("PreCompact"@.len() != "UserPromptSubmit"@.len()); }
    assert("Stop"@ != "UserPromptSubmit"@ && "Stop"@ != "PreCompact"@ && "Stop"@ != "PreToolUse"@
        && "Stop"@ != "PostToolUse"@ && "Stop"@ != "SubagentStop"@) by {
        assert("Stop"@.len() == 4);
    }
    assert("SessionEnd"@ != "UserPromptSubmit"@ && "SessionEnd"@ != "PostToolUse"@
        && "SessionEnd"@ != "SubagentStop"@ && "SessionEnd"@ != "Stop"@) by {
        assert("SessionEnd"@.len() == 10);
    }
    assert("SessionEnd"@ != "PreCompact"@) by { assert("SessionEnd"@[0] != "PreCompact"@[0]); }
    assert("SessionEnd"@ != "PreToolUse"@) by { assert("SessionEnd"@[0] != "PreToolUse"@[0]); }
    assert("PreToolUse"@ != "UserPromptSubmit"@) by { assert("PreToolUse"@.len() != "UserPromptSubmit"@.len()); }
    assert("PreToolUse"@ != "PreCompact"@) by { assert("PreToolUse"@[3] != "PreCompact"@[3]); }
    assert("PostToolUse"@ != "UserPromptSubmit"@ && "PostToolUse"@ != "PreCompact"@
        && "PostToolUse"@ != "PreToolUse"@) by {
        assert("PostToolUse"@.len() == 11);
    }
    assert("waiting"@ != "processing"@ && "waiting"@ != "tool_running"@) by {
        assert("waiting"@.len() == 7);
    }
    assert("compacting"@ != "processing"@) by { assert("compacting"@[0] != "processing"@[0]); }
    assert("compacting"@ != "tool_running"@) by { assert("compacting"@.len() != "tool_running"@.len()); }
    assert("stopped"@ != "processing"@ && "stopped"@ != "tool_running"@) by {
        assert("stopped"@.len() == 7);
    }
    assert("ended"@ != "processing"@ && "ended"@ != "tool_running"@) by {
        assert("ended"@.len() == 5);
    }
}

/// The status a session takes on a hook event.
pub fn derive_event_status(
    hook: &str,
    claude_status: &str,
    slash: bool,
    tool: &str,
    needs_waiting: bool,
) -> (r: String)
    ensures
        r@ == event_status(hook@, claude_status@, slash, tool@, needs_waiting),
        claude_status@ == "waiting_for_input"@ && hook@ != "UserPromptSubmit"@ ==> r@
            != "processing"@ && r@ != "tool_running"@,
{
    proof {
        reveal_strlit("processing");
        reveal_strlit("tool_running");
        reveal_strlit("stopped");
        reveal_strlit("compacting");
        reveal_strlit("waiting");
        reveal_strlit("ended");
        reveal_strlit("waiting_for_input");
    }
    let is_processing = !same_text(claude_status, "waiting_for_input");
    let s: &str = if same_text(hook, "UserPromptSubmit") {
        if slash {
            "stopped"
        } else {
            "processing"
        }
    } else if same_text(hook, "PreCompact") {
        "compacting"
    } else if same_text(hook, "PreToolUse") {
        if same_text(tool, "AskUserQuestion") || same_text(tool, "AskQuestion") || needs_waiting {
            "waiting"
        } else {
            "tool_running"
        }
    } else if same_text(hook, "PostToolUse") || same_text(hook, "SubagentStop") {
        "processing"
    } else if same_text(hook, "Stop") {
        "stopped"
    } else if same_text(hook, "SessionEnd") {
        "ended"
    } else if same_text(hook, "PermissionRequest") {
        "waiting"
    } else if same_text(hook, "SessionStart") {
        if is_processing {
            "processing"
        } else {
            "stopped"
        }
    } else if !is_processing {
        "stopped"
    } else {
        claude_status
    };
    assert(s@ == raw_event_status(hook@, claude_status@, slash, tool@, needs_waiting));
    if !is_processing && (same_text(s, "processing") || same_text(s, "tool_running"))
        && !same_text(hook, "UserPromptSubmit") {
        let r = "stopped".to_string();
        assert(r@ == "stopped"@);
        r
    } else {
        let r = s.to_string();
        assert(r@ == s@);
        r
    }
}

// ---------------------------------------------------------------------
// Codex classifications
// ---------------------------------------------------------------------

/// A character code with ASCII upper case mapped to lower case.
pub open spec fn ascii_lower_code(c: char) -> int {
    if 65 <= (c as u32) && (c as u32) <= 90 {
        (c as u32) + 32
    } else {
        c as u32 as int
    }
}

/// `str::eq_ignore_ascii_case`.
pub open spec fn eq_ignore_ascii_case(a: Seq<char>, b: Seq<char>) -> bool {
    a.len() == b.len() && forall|i: int|
        0 <= i < a.len() ==> ascii_lower_code(#[trigger] a[i]) == ascii_lower_code(b[i])
}

fn ascii_lower_code_exec(c: char) -> (r: u32)
    ensures
        r == ascii_lower_code(c),
{
    let u = c as u32;
    if 65 <= u && u <= 90 {
        u + 32
    } else {
        u
    }
}

pub fn eq_ignore_ascii_case_exec(a: &str, b: &str) -> (r: bool)
    ensures
        r == eq_ignore_ascii_case(a@, b@),
{
    let ca = chars_of(a);
    let cb = chars_of(b);
    if ca.len() != cb.len() {
        return false;
    }
    let mut i: usize = 0;
    while i < ca.len()
        invariant
            i <= ca.len() == cb.len(),
            ca@ == a@,
            cb@ == b@,
            forall|k: int|
                0 <= k < i ==> ascii_lower_code(#[trigger] ca@[k]) == ascii_lower_code(cb@[k]),
        decreases ca.len() - i,
    {
        if ascii_lower_code_exec(ca[i]) != ascii_lower_code_exec(cb[i]) {
            assert(ascii_lower_code(ca@[i as int]) != ascii_lower_code(cb@[i as int]));
            return false;
        }
        i = i + 1;
    }
    true
}

pub open spec fn key_views(keys: Seq<&str>) -> Seq<Seq<char>> {
    keys.map_values(|k: &str| k@)
}

/// The first of `keys` whose member is a string, as that string.
pub open spec fn read_string(v: JsonV, keys: Seq<Seq<char>>) -> Option<Seq<char>>
    decreases keys.len(),
{
    if keys.len() == 0 {
        None
    } else {
        match get(v, keys[0]) {
            Some(x) => match as_str(x) {
                Some(s) => Some(s),
                None => read_string(v, keys.drop_first()),
            },
            None => read_string(v, keys.drop_first()),
        }
    }
}

/// Some of `keys` names the member `true`.
pub open spec fn read_bool(v: JsonV, keys: Seq<Seq<char>>) -> bool {
    exists|i: int| 0 <= i < keys.len() && get(v, #[trigger] keys[i]) == Some(JsonV::Bool(true))
}

fn read_string_exec<'a>(v: &'a Json, keys: &Vec<&str>) -> (r: Option<&'a str>)
    ensures
        r matches Some(s) ==> read_string(v@, key_views(keys@)) == Some(s@),
        r is None ==> read_string(v@, key_views(keys@)) is None,
{
    let ghost kv = key_views(keys@);
    assert(kv.skip(0) =~= kv);
    let mut i: usize = 0;
    while i < keys.len()
        invariant
            i <= keys.len(),
            kv == key_views(keys@),
            kv.len() == keys.len(),
            read_string(v@, kv) == read_string(v@, kv.skip(i as int)),
        decreases keys.len() - i,
    {
        assert(kv.skip(i as int)[0] == kv[i as int]);
        assert(kv.skip(i as int).drop_first() =~= kv.skip(i + 1));
        match get_exec(v, keys[i]) {
            Some(x) => match as_str_exec(x) {
                Some(s) => {
                    return Some(s);
                },
                None => {},
            },
            None => {},
        }
        i = i + 1;
    }
    None
}

fn read_bool_exec(v: &Json, keys: &Vec<&str>) -> (r: bool)
    ensures
        r == read_bool(v@, key_views(keys@)),
{
    let ghost kv = key_views(keys@);
    let mut i: usize = 0;
    while i < keys.len()
        invariant
            i <= keys.len(),
            kv == key_views(keys@),
            kv.len() == keys.len(),
            forall|k: int| 0 <= k < i ==> get(v@, #[trigger] kv[k]) != Some(JsonV::Bool(true)),
        decreases keys.len() - i,
    {
        assert(kv[i as int] == keys@[i as int]@);
        match get_exec(v, keys[i]) {
            Some(x) => match as_bool_exec(x) {
                Some(true) => {
                    return true;
                },
                _ => {},
            },
            None => {},
        }
        i = i + 1;
    }
    false
}

pub open spec fn sandbox_keys() -> Seq<Seq<char>> {
    seq!["sandbox_permissions"@, "sandboxPermissions"@]
}

pub open spec fn approval_keys() -> Seq<Seq<char>> {
    seq![
        "with_escalated_permissions"@,
        "withEscalatedPermissions"@,
        "requires_approval"@,
        "requiresApproval"@,
        "approval_required"@,
        "approvalRequired"@,
    ]
}

/// Explicit markers that a Codex tool call waits for approval.
pub open spec fn explicit_escalation(v: JsonV) -> bool {
    let mode = match read_string(v, sandbox_keys()) {
        Some(s) => s,
        None => Seq::empty(),
    };
    let justification = match read_string(v, seq!["justification"@]) {
        Some(s) => s,
        None => Seq::empty(),
    };
    eq_ignore_ascii_case(mode, "require_escalated"@) || eq_ignore_ascii_case(mode, "escalated"@)
        || read_bool(v, approval_keys()) || trim(justification).len() > 0
}

fn explicit_escalation_exec(v: &Json) -> (r: bool)
    ensures
        r == explicit_escalation(v@),
{
    proof {
        reveal_strlit("");
    }
    let sk: Vec<&str> = vec!["sandbox_permissions", "sandboxPermissions"];
    assert(key_views(sk@) =~= sandbox_keys());
    let mode: &str = match read_string_exec(v, &sk) {
        Some(s) => s,
        None => "",
    };
    if eq_ignore_ascii_case_exec(mode, "require_escalated") || eq_ignore_ascii_case_exec(
        mode,
        "escalated",
    ) {
        return true;
    }
    let ak: Vec<&str> = vec![
        "with_escalated_permissions",
        "withEscalatedPermissions",
        "requires_approval",
        "requiresApproval",
        "approval_required",
        "approvalRequired",
    ];
    assert(key_views(ak@) =~= approval_keys());
    if read_bool_exec(v, &ak) {
        return true;
    }
    let jk: Vec<&str> = vec!["justification"];
    assert(key_views(jk@) =~= seq!["justification"@]);
    let j: &str = match read_string_exec(v, &jk) {
        Some(s) => s,
        None => "",
    };
    let jt = trim_exec(&chars_of(j));
    jt.len() > 0
}

/// The tool input of an event: the `tool_input`/`toolInput` object, or what
/// its text parses to (`parsed_text`, given by the caller).
pub open spec fn tool_input_value(e: JsonV, parsed_text: Option<JsonV>) -> Option<JsonV> {
    match get2(e, "tool_input"@, "toolInput"@) {
        None => None,
        Some(ti) => if is_object(ti) {
            Some(ti)
        } else if as_str(ti) is Some {
            parsed_text
        } else {
            None
        },
    }
}

/// A shell command that obviously writes outside the workspace.
pub open spec fn writes_outside_workspace(cmd: Seq<char>) -> bool {
    contains(cmd, "$HOME/"@) || contains(cmd, "/Users/"@) || contains(cmd, "Desktop/"@)
        || contains(cmd, " cat > "@) || contains(cmd, " > "@) || contains(cmd, "<<'EOF'"@)
        || contains(cmd, "<<EOF"@)
}

/// A Codex `PreToolUse` event that needs the user's approval.
pub open spec fn codex_escalation(e: JsonV, parsed_text: Option<JsonV>) -> bool {
    let is_codex = get(e, "turn_id"@) is Some || eq_ignore_ascii_case(
        match read_string(e, seq!["source"@]) {
            Some(s) => s,
            None => Seq::empty(),
        },
        "codex"@,
    );
    let ti = tool_input_value(e, parsed_text);
    let tool = match read_string(e, seq!["tool"@, "tool_name"@]) {
        Some(s) => s,
        None => Seq::empty(),
    };
    let mode = match read_string(e, seq!["permission_mode"@, "permissionMode"@]) {
        Some(s) => s,
        None => Seq::empty(),
    };
    let cmd = match ti {
        Some(t) => match read_string(t, seq!["command"@]) {
            Some(s) => s,
            None => Seq::empty(),
        },
        None => Seq::empty(),
    };
    is_codex && (explicit_escalation(e) || (ti matches Some(t) && explicit_escalation(t)) || (
    tool == "Bash"@ && mode == "default"@ && cmd.len() > 0 && writes_outside_workspace(cmd)))
}

/// Whether a Codex `PreToolUse` event requires user approval.  The tool
/// input, when it is text, is taken as parsed by the caller:
/// `parsed_text_input` is what that text parses to, if it parses.
pub fn codex_requires_escalation(event: &Json, parsed_text_input: &Option<Json>) -> (r: bool)
    ensures
        r == codex_escalation(
            event@,
            match parsed_text_input {
                Some(p) => Some(p@),
                None => None,
            },
        ),
{
    proof {
        reveal_strlit("");
    }
    let srck: Vec<&str> = vec!["source"];
    assert(key_views(srck@) =~= seq!["source"@]);
    let src: &str = match read_string_exec(event, &srck) {
        Some(s) => s,
        None => "",
    };
    let is_codex = get_exec(event, "turn_id").is_some() || eq_ignore_ascii_case_exec(
        src,
        "codex",
    );
    if !is_codex {
        return false;
    }
    if explicit_escalation_exec(event) {
        return true;
    }
    let ti: Option<&Json> = match get2_exec(event, "tool_input", "toolInput") {
        None => None,
        Some(t) => if is_object_exec(t) {
            Some(t)
        } else if as_str_exec(t).is_some() {
            match parsed_text_input {
                Some(p) => Some(p),
                None => None,
            }
        } else {
            None
        },
    };
    let ghost pv = match parsed_text_input {
        Some(p) => Some(p@),
        None => None,
    };
    assert(match ti {
        Some(t) => tool_input_value(event@, pv) == Some(t@),
        None => tool_input_value(event@, pv) is None,
    });
    match ti {
        Some(t) => {
            if explicit_escalation_exec(t) {
                return true;
            }
        },
        None => {},
    }
    let tk: Vec<&str> = vec!["tool", "tool_name"];
    assert(key_views(tk@) =~= seq!["tool"@, "tool_name"@]);
    let tool: &str = match read_string_exec(event, &tk) {
        Some(s) => s,
        None => "",
    };
    let mk: Vec<&str> = vec!["permission_mode", "permissionMode"];
    assert(key_views(mk@) =~= seq!["permission_mode"@, "permissionMode"@]);
    let mode: &str = match read_string_exec(event, &mk) {
        Some(s) => s,
        None => "",
    };
    assert(tool@ == (match read_string(event@, seq!["tool"@, "tool_name"@]) {
        Some(s) => s,
        None => Seq::<char>::empty(),
    }));
    assert(mode@ == (match read_string(event@, seq!["permission_mode"@, "permissionMode"@]) {
        Some(s) => s,
        None => Seq::<char>::empty(),
    }));
    if !(same_text(tool, "Bash") && same_text(mode, "default")) {
        return false;
    }
    let ck: Vec<&str> = vec!["command"];
    assert(key_views(ck@) =~= seq!["command"@]);
    let cmd: &str = match ti {
        Some(t) => match read_string_exec(t, &ck) {
            Some(s) => s,
            None => "",
        },
        None => "",
    };
    let c = chars_of(cmd);
    if c.len() == 0 {
        return false;
    }
    contains_exec(&c, &chars_of("$HOME/")) || contains_exec(&c, &chars_of("/Users/"))
        || contains_exec(&c, &chars_of("Desktop/")) || contains_exec(&c, &chars_of(" cat > "))
        || contains_exec(&c, &chars_of(" > ")) || contains_exec(&c, &chars_of("<<'EOF'"))
        || contains_exec(&c, &chars_of("<<EOF"))
}

/// An internal Codex utility session (such as title generation), hidden
/// from the session list.
pub open spec fn codex_internal_utility(e: JsonV) -> bool {
    let mode = text_or_empty(get2(e, "permission_mode"@, "permissionMode"@));
    let prompt = text_or_empty(get2(e, "prompt"@, "userPrompt"@));
    let transcript_null = get(e, "transcript_path"@) == Some(JsonV::Null);
    let source = text_or_empty(get(e, "source"@));
    let model = text_or_empty(get(e, "model"@));
    let last = trim_start(
        text_or_empty(get2(e, "last_assistant_message"@, "codex_last_assistant_message"@)),
    );
    mode == "bypassPermissions"@ && (starts_with(
        prompt,
        "You are a helpful assistant. You will be presented with a user prompt"@,
    ) || (transcript_null && (source == "startup"@ || model == "gpt-5.4-mini"@)) || starts_with(
        last,
        "{\"title\":"@,
    ))
}

/// Returns `true` for internal Codex utility sessions.
pub fn is_codex_internal_utility_event(event: &Json) -> (r: bool)
    ensures
        r == codex_internal_utility(event@),
{
    let mode = text_or_empty_exec(get2_exec(event, "permission_mode", "permissionMode"));
    if !same_text(mode, "bypassPermissions") {
        return false;
    }
    let prompt = text_or_empty_exec(get2_exec(event, "prompt", "userPrompt"));
    if starts_with_exec(
        &chars_of(prompt),
        &chars_of("You are a helpful assistant. You will be presented with a user prompt"),
    ) {
        return true;
    }
    let transcript_null = match get_exec(event, "transcript_path") {
        Some(Json::Null) => true,
        _ => false,
    };
    let source = text_or_empty_exec(get_exec(event, "source"));
    let model = text_or_empty_exec(get_exec(event, "model"));
    if transcript_null && (same_text(source, "startup") || same_text(model, "gpt-5.4-mini")) {
        return true;
    }
    let last = text_or_empty_exec(
        get2_exec(event, "last_assistant_message", "codex_last_assistant_message"),
    );
    let lt = trim_start_exec(&chars_of(last));
    starts_with_exec(&lt, &chars_of("{\"title\":"))
}

} // verus!
