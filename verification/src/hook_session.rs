//! The session record kept per agent session, and how hook events,
//! stops, window bindings and staleness change it.
use vstd::prelude::*;
use crate::json::{
    Json, JsonV, get, get2, as_str, as_u64, as_bool, get_exec, get2_exec, as_str_exec, as_u64_exec,
    as_bool_exec, json_clone, same_text,
};
use crate::events::{
    get3, get3_exec, text_or_empty, text_or_empty_exec, event_session_id, event_raw_name,
    event_claude_status, event_prompt, event_tool, normalized_event, normalize_hook_event,
    local_slash, is_local_slash, event_status, derive_event_status, codex_escalation,
    codex_requires_escalation, codex_internal_utility, is_codex_internal_utility_event,
};
use crate::types::opt_view;

verus! {

broadcast use vstd::string::group_string_axioms;

/// One agent session as the pet tracks it.
#[derive(Debug, PartialEq, Eq)]
pub struct ClaudeSession {
    pub session_id: String,
    pub cwd: String,
    pub status: String,
    pub tool: Option<String>,
    pub tool_input: Option<String>,
    pub user_prompt: Option<String>,
    pub interactive: bool,
    pub updated_at: u64,
    pub is_processing: bool,
    pub pid: Option<u32>,
    pub pending_agents: u32,
    pub last_response: Option<String>,
    pub last_failure: bool,
    pub is_active_tab: bool,
    pub source: String,
    pub permission_suggestions: Option<Json>,
    pub terminal_id: Option<String>,
    pub host_terminal: Option<String>,
    pub cursor_port: Option<u16>,
    pub cursor_workspace_root: Option<String>,
    pub cursor_workspace_name: Option<String>,
    pub cursor_native_handle: Option<String>,
}

pub open spec fn opt_json_view(o: Option<Json>) -> Option<JsonV> {
    match o {
        Some(j) => Some(j@),
        None => None,
    }
}

/// A session first seen on an event: idle, interactive, with nothing known.
pub fn new_session(session_id: &str, source: &str) -> (s: ClaudeSession)
    ensures
        s.session_id@ == session_id@,
        s.cwd@ == Seq::<char>::empty(),
        s.status@ == "idle"@,
        s.tool is None,
        s.tool_input is None,
        s.user_prompt is None,
        s.interactive,
        s.updated_at == 0,
        !s.is_processing,
        s.pid is None,
        s.pending_agents == 0,
        s.last_response is None,
        !s.last_failure,
        !s.is_active_tab,
        s.source@ == source@,
        s.permission_suggestions is None,
        s.terminal_id is None,
        s.host_terminal is None,
        s.cursor_port is None,
        s.cursor_workspace_root is None,
        s.cursor_workspace_name is None,
        s.cursor_native_handle is None,
{
    ClaudeSession {
        session_id: session_id.to_string(),
        cwd: String::new(),
        status: "idle".to_string(),
        tool: None,
        tool_input: None,
        user_prompt: None,
        interactive: true,
        updated_at: 0,
        is_processing: false,
        pid: None,
        pending_agents: 0,
        last_response: None,
        last_failure: false,
        is_active_tab: false,
        source: source.to_string(),
        permission_suggestions: None,
        terminal_id: None,
        host_terminal: None,
        cursor_port: None,
        cursor_workspace_root: None,
        cursor_workspace_name: None,
        cursor_native_handle: None,
    }
}

/// Rank of a session source: a session is only ever moved up from `cc`
/// to `codex` to `cursor`.
pub open spec fn source_rank(s: Seq<char>) -> int {
    if s == "cc"@ {
        1
    } else if s == "codex"@ {
        2
    } else if s == "cursor"@ {
        3
    } else {
        0
    }
}

fn source_rank_exec(s: &str) -> (r: u8)
    ensures
        r == source_rank(s@),
{
    if same_text(s, "cc") {
        1
    } else if same_text(s, "codex") {
        2
    } else if same_text(s, "cursor") {
        3
    } else {
        0
    }
}

/// Pending sub-agents after an event: a new prompt resets the count, an
/// `Agent` tool launch (or `subagentStart`) adds one, `SubagentStop` takes
/// one away (never below zero).
pub open spec fn pending_after(
    pending: u32,
    hook: Seq<char>,
    raw_hook: Seq<char>,
    tool: Seq<char>,
) -> u32 {
    if hook == "UserPromptSubmit"@ {
        0
    } else if (hook == "PreToolUse"@ && tool == "Agent"@) || raw_hook == "subagentStart"@ {
        if pending == u32::MAX {
            pending
        } else {
            (pending + 1) as u32
        }
    } else if hook == "SubagentStop"@ {
        if pending == 0 {
            0
        } else {
            (pending - 1) as u32
        }
    } else {
        pending
    }
}

/// The tool input text of an event: the `toolInput`/`tool_input` text, or
/// for a non-text value its JSON text `rendered` (given by the caller).
pub open spec fn event_tool_input(e: JsonV, rendered: Option<Seq<char>>) -> Option<Seq<char>> {
    match get2(e, "toolInput"@, "tool_input"@) {
        Some(v) => match as_str(v) {
            Some(s) => Some(s),
            None => rendered,
        },
        None => None,
    }
}

/// Keeps `old` unless `new` is a non-empty text.
pub open spec fn keep_unless_text(old: Option<Seq<char>>, new: Option<Seq<char>>) -> Option<
    Seq<char>,
> {
    match new {
        Some(t) => if t.len() > 0 {
            Some(t)
        } else {
            old
        },
        None => old,
    }
}

fn opt_text(o: Option<&str>) -> (r: Option<String>)
    ensures
        opt_view(r) == (match o {
            Some(s) => Some(s@),
            None => None::<Seq<char>>,
        }),
{
    match o {
        Some(s) => Some(s.to_string()),
        None => None,
    }
}

fn str_of(o: Option<&Json>) -> (r: Option<&str>)
    ensures
        r matches Some(s) ==> (o matches Some(x) && as_str(x@) == Some(s@)),
        r is None ==> (match o {
            Some(x) => as_str(x@) is None,
            None => true,
        }),
{
    match o {
        Some(x) => as_str_exec(x),
        None => None,
    }
}

/// Working directory after an event: the event's `cwd`/`workdir` when it
/// names one, or when none was known.
pub open spec fn cwd_after(old: Seq<char>, e: JsonV) -> Seq<char> {
    let incoming = text_or_empty(get2(e, "cwd"@, "workdir"@));
    if incoming.len() > 0 || old.len() == 0 {
        incoming
    } else {
        old
    }
}

/// The event's `interactive` flag, `true` when absent.
pub open spec fn interactive_of(e: JsonV) -> bool {
    match get(e, "interactive"@) {
        Some(x) => match as_bool(x) {
            Some(b) => b,
            None => true,
        },
        None => true,
    }
}

/// A string member read through `get2`.
pub open spec fn str2(e: JsonV, a: Seq<char>, b: Seq<char>) -> Option<Seq<char>> {
    match get2(e, a, b) {
        Some(x) => as_str(x),
        None => None,
    }
}

/// A string member read through `get`.
pub open spec fn str1(e: JsonV, a: Seq<char>) -> Option<Seq<char>> {
    match get(e, a) {
        Some(x) => as_str(x),
        None => None,
    }
}

pub open spec fn is_stop_like(hook: Seq<char>) -> bool {
    hook == "Stop"@ || hook == "SubagentStop"@
}

pub open spec fn tool_after(old: Option<Seq<char>>, e: JsonV, hook: Seq<char>) -> Option<
    Seq<char>,
> {
    if is_stop_like(hook) {
        None
    } else {
        keep_unless_text(old, str2(e, "tool"@, "tool_name"@))
    }
}

pub open spec fn tool_input_after(
    old: Option<Seq<char>>,
    e: JsonV,
    hook: Seq<char>,
    rendered: Option<Seq<char>>,
) -> Option<Seq<char>> {
    if is_stop_like(hook) {
        None
    } else {
        keep_unless_text(old, event_tool_input(e, rendered))
    }
}

pub open spec fn pid_after(old: Option<u32>, e: JsonV) -> Option<u32> {
    match get(e, "pid"@) {
        Some(x) => match as_u64(x) {
            Some(p) => Some(p as u32),
            None => old,
        },
        None => old,
    }
}

pub open spec fn terminal_after(old: Option<Seq<char>>, e: JsonV) -> Option<Seq<char>> {
    match old {
        Some(t) => Some(t),
        None => keep_unless_text(None, str1(e, "terminalId"@)),
    }
}

pub open spec fn response_after(
    old: Option<Seq<char>>,
    e: JsonV,
    hook: Seq<char>,
    raw_hook: Seq<char>,
) -> Option<Seq<char>> {
    if hook == "UserPromptSubmit"@ {
        None
    } else if raw_hook == "afterAgentResponse"@ {
        keep_unless_text(old, str1(e, "lastResponse"@))
    } else {
        old
    }
}

pub open spec fn permission_after(e: JsonV, hook: Seq<char>) -> Option<JsonV> {
    if hook == "PermissionRequest"@ {
        get2(e, "permission_suggestions"@, "permissionSuggestions"@)
    } else {
        None
    }
}

fn keep_unless_text_exec(old: &Option<String>, new: Option<&str>) -> (r: Option<String>)
    ensures
        opt_view(r) == keep_unless_text(
            opt_view(*old),
            match new {
                Some(s) => Some(s@),
                None => None,
            },
        ),
{
    match new {
        Some(t) => if crate::text::chars_of(t).len() > 0 {
            Some(t.to_string())
        } else {
            old.clone()
        },
        None => old.clone(),
    }
}

fn clone_opt_string(o: &Option<String>) -> (r: Option<String>)
    ensures
        opt_view(r) == opt_view(*o),
{
    match o {
        Some(s) => Some(s.clone()),
        None => None,
    }
}

fn cwd_after_exec(old: &String, event: &Json) -> (r: String)
    ensures
        r@ == cwd_after(old@, event@),
{
    let incoming = text_or_empty_exec(get2_exec(event, "cwd", "workdir"));
    if crate::text::chars_of(incoming).len() > 0 || crate::text::chars_of(old.as_str()).len()
        == 0 {
        incoming.to_string()
    } else {
        old.clone()
    }
}

fn tool_input_text<'a>(event: &'a Json, rendered: &'a Option<String>) -> (r: Option<&'a str>)
    ensures
        (match r {
            Some(s) => Some(s@),
            None => None::<Seq<char>>,
        }) == event_tool_input(event@, opt_view(*rendered)),
{
    match get2_exec(event, "toolInput", "tool_input") {
        Some(v) => match as_str_exec(v) {
            Some(s) => Some(s),
            None => match rendered {
                Some(r) => Some(r.as_str()),
                None => None,
            },
        },
        None => None,
    }
}

fn pending_after_exec(pending: u32, event: &Json, hook: &str, raw_hook: &str) -> (r: u32)
    ensures
        r == pending_after(pending, hook@, raw_hook@, crate::events::event_tool(event@)),
{
    let tool_name = text_or_empty_exec(get2_exec(event, "tool", "tool_name"));
    if same_text(hook, "UserPromptSubmit") {
        0
    } else if (same_text(hook, "PreToolUse") && same_text(tool_name, "Agent")) || same_text(
        raw_hook,
        "subagentStart",
    ) {
        pending.saturating_add(1)
    } else if same_text(hook, "SubagentStop") {
        pending.saturating_sub(1)
    } else {
        pending
    }
}

fn pid_after_exec(old: Option<u32>, event: &Json) -> (r: Option<u32>)
    ensures
        r == pid_after(old, event@),
{
    match get_exec(event, "pid") {
        Some(x) => match as_u64_exec(x) {
            Some(p) => Some(p as u32),
            None => old,
        },
        None => old,
    }
}

fn response_after_exec(old: &Option<String>, event: &Json, hook: &str, raw_hook: &str) -> (r:
    Option<String>)
    ensures
        opt_view(r) == response_after(opt_view(*old), event@, hook@, raw_hook@),
{
    if same_text(hook, "UserPromptSubmit") {
        None
    } else if same_text(raw_hook, "afterAgentResponse") {
        keep_unless_text_exec(old, str_of(get_exec(event, "lastResponse")))
    } else {
        clone_opt_string(old)
    }
}

fn permission_after_exec(event: &Json, hook: &str) -> (r: Option<Json>)
    ensures
        opt_json_view(r) == permission_after(event@, hook@),
{
    if same_text(hook, "PermissionRequest") {
        match get2_exec(event, "permission_suggestions", "permissionSuggestions") {
            Some(x) => Some(json_clone(x)),
            None => None,
        }
    } else {
        None
    }
}

/// What applying a hook event makes of a session: the source is only
/// upgraded; pending sub-agents, status, working directory, interactivity,
/// update time, tool, tool input, prompt, process id, terminal id, the last
/// response of Cursor's `afterAgentResponse`, the reset a new prompt makes,
/// and the permission suggestions of a permission request follow the
/// event; the rest stays.
pub open spec fn event_applied(
    old: ClaudeSession,
    new: ClaudeSession,
    e: JsonV,
    hook: Seq<char>,
    raw_hook: Seq<char>,
    status: Seq<char>,
    is_processing: bool,
    source: Seq<char>,
    now_ms: u64,
    rendered: Option<Seq<char>>,
) -> bool {
    &&& new.session_id == old.session_id
    &&& new.source@ == (if source_rank(source) >= source_rank(old.source@) {
        source
    } else {
        old.source@
    })
    &&& new.pending_agents == pending_after(
        old.pending_agents,
        hook,
        raw_hook,
        crate::events::event_tool(e),
    )
    &&& new.status@ == status
    &&& new.is_processing == is_processing
    &&& new.cwd@ == cwd_after(old.cwd@, e)
    &&& new.interactive == interactive_of(e)
    &&& new.updated_at == now_ms
    &&& opt_view(new.tool) == tool_after(opt_view(old.tool), e, hook)
    &&& opt_view(new.tool_input) == tool_input_after(opt_view(old.tool_input), e, hook, rendered)
    &&& opt_view(new.user_prompt) == keep_unless_text(
        opt_view(old.user_prompt),
        str2(e, "userPrompt"@, "prompt"@),
    )
    &&& new.pid == pid_after(old.pid, e)
    &&& opt_view(new.terminal_id) == terminal_after(opt_view(old.terminal_id), e)
    &&& opt_view(new.last_response) == response_after(
        opt_view(old.last_response),
        e,
        hook,
        raw_hook,
    )
    &&& new.last_failure == (if hook == "UserPromptSubmit"@ {
        false
    } else {
        old.last_failure
    })
    &&& opt_json_view(new.permission_suggestions) == permission_after(e, hook)
    &&& new.is_active_tab == old.is_active_tab
    &&& new.host_terminal == old.host_terminal
    &&& new.cursor_port == old.cursor_port
    &&& new.cursor_workspace_root == old.cursor_workspace_root
    &&& new.cursor_workspace_name == old.cursor_workspace_name
    &&& new.cursor_native_handle == old.cursor_native_handle
}

/// Applies a hook event to a session (see `event_applied`).  Stops are
/// finished by `apply_stop`, host terminals by `apply_host_terminal`,
/// window bindings by `apply_cursor_binding`.
pub fn apply_event_core(
    session: &mut ClaudeSession,
    event: &Json,
    hook: &str,
    raw_hook: &str,
    status: &str,
    is_processing: bool,
    source: &str,
    now_ms: u64,
    rendered_tool_input: &Option<String>,
)
    ensures
        event_applied(
            *old(session),
            *final(session),
            event@,
            hook@,
            raw_hook@,
            status@,
            is_processing,
            source@,
            now_ms,
            opt_view(*rendered_tool_input),
        ),
{
    let new_source = if source_rank_exec(source) >= source_rank_exec(session.source.as_str()) {
        source.to_string()
    } else {
        session.source.clone()
    };
    let pending = pending_after_exec(session.pending_agents, event, hook, raw_hook);
    let cwd = cwd_after_exec(&session.cwd, event);
    let interactive = match get_exec(event, "interactive") {
        Some(x) => match as_bool_exec(x) {
            Some(b) => b,
            None => true,
        },
        None => true,
    };
    let stop_like = same_text(hook, "Stop") || same_text(hook, "SubagentStop");
    let tool = if stop_like {
        None
    } else {
        keep_unless_text_exec(&session.tool, str_of(get2_exec(event, "tool", "tool_name")))
    };
    let tool_input = if stop_like {
        None
    } else {
        keep_unless_text_exec(&session.tool_input, tool_input_text(event, rendered_tool_input))
    };
    let prompt = keep_unless_text_exec(
        &session.user_prompt,
        str_of(get2_exec(event, "userPrompt", "prompt")),
    );
    let pid = pid_after_exec(session.pid, event);
    let terminal = match &session.terminal_id {
        Some(t) => Some(t.clone()),
        None => keep_unless_text_exec(&None, str_of(get_exec(event, "terminalId"))),
    };
    let response = response_after_exec(&session.last_response, event, hook, raw_hook);
    let failure = if same_text(hook, "UserPromptSubmit") {
        false
    } else {
        session.last_failure
    };
    let permission = permission_after_exec(event, hook);
    session.source = new_source;
    session.pending_agents = pending;
    session.status = status.to_string();
    session.is_processing = is_processing;
    session.cwd = cwd;
    session.interactive = interactive;
    session.updated_at = now_ms;
    session.tool = tool;
    session.tool_input = tool_input;
    session.user_prompt = prompt;
    session.pid = pid;
    session.terminal_id = terminal;
    session.last_response = response;
    session.last_failure = failure;
    session.permission_suggestions = permission;
}


// ---------------------------------------------------------------------
// Stops
// ---------------------------------------------------------------------

/// The host terminal is Ghostty.
pub open spec fn is_ghostty(host: Option<Seq<char>>) -> bool {
    host == Some("Ghostty"@) || host == Some("ghostty"@)
}

/// The session's terminal tab is the one Ghostty shows.
pub open spec fn tab_matches(tid: Option<Seq<char>>, active: Option<Seq<char>>) -> bool {
    match (tid, active) {
        (Some(t), Some(a)) => t == a,
        _ => false,
    }
}

/// Whether the user already looks at the session when it stops: for
/// Cursor, whether Cursor is in front; for Codex, its Ghostty tab or the
/// Codex app; otherwise its Ghostty tab, or its host terminal in front.
pub open spec fn tab_active(
    source: Seq<char>,
    host: Option<Seq<char>>,
    tid: Option<Seq<char>>,
    active: Option<Seq<char>>,
    cursor_front: bool,
    codex_front: bool,
    host_front: bool,
) -> bool {
    if source == "cursor"@ {
        cursor_front
    } else if source == "codex"@ {
        (is_ghostty(host) && tab_matches(tid, active)) || codex_front
    } else if is_ghostty(host) {
        tab_matches(tid, active)
    } else if host is Some {
        host_front
    } else {
        false
    }
}

fn is_ghostty_exec(host: &Option<String>) -> (r: bool)
    ensures
        r == is_ghostty(opt_view(*host)),
{
    match host {
        Some(h) => same_text(h.as_str(), "Ghostty") || same_text(h.as_str(), "ghostty"),
        None => false,
    }
}

fn tab_matches_exec(tid: &Option<String>, active: Option<&str>) -> (r: bool)
    ensures
        r == tab_matches(
            opt_view(*tid),
            match active {
                Some(a) => Some(a@),
                None => None,
            },
        ),
{
    match (tid, active) {
        (Some(t), Some(a)) => same_text(t.as_str(), a),
        _ => false,
    }
}

/// Whether the user already looks at `session` when it stops, given the
/// Ghostty tab in front, whether Cursor or the Codex app is in front, and
/// whether the session's host terminal is in front.
pub fn tab_active_on_stop(
    session: &ClaudeSession,
    active_ghostty_id: Option<&str>,
    cursor_front: bool,
    codex_front: bool,
    host_front: bool,
) -> (r: bool)
    ensures
        r == tab_active(
            session.source@,
            opt_view(session.host_terminal),
            opt_view(session.terminal_id),
            match active_ghostty_id {
                Some(a) => Some(a@),
                None => None,
            },
            cursor_front,
            codex_front,
            host_front,
        ),
{
    let ghostty = is_ghostty_exec(&session.host_terminal);
    if same_text(session.source.as_str(), "cursor") {
        cursor_front
    } else if same_text(session.source.as_str(), "codex") {
        (ghostty && tab_matches_exec(&session.terminal_id, active_ghostty_id)) || codex_front
    } else if ghostty {
        tab_matches_exec(&session.terminal_id, active_ghostty_id)
    } else if session.host_terminal.is_some() {
        host_front
    } else {
        false
    }
}

/// A member that is the boolean `true`.
pub open spec fn flag_set(e: JsonV, key: Seq<char>) -> bool {
    match get(e, key) {
        Some(x) => as_bool(x) == Some(true),
        None => false,
    }
}

/// A stop counts as failed when it was interrupted, is a `StopFailure`,
/// or carries `failure: true`, `failed: true` or an `error`.
pub open spec fn stop_failed(e: JsonV, raw_hook: Seq<char>, interrupted: bool) -> bool {
    interrupted || raw_hook == "StopFailure"@ || raw_hook == "stopFailure"@ || flag_set(
        e,
        "failure"@,
    ) || flag_set(e, "failed"@) || get(e, "error"@) is Some
}

/// The assistant's reply carried by a stop event.
pub open spec fn stop_reply(e: JsonV) -> Option<Seq<char>> {
    match get3(e, "lastResponse"@, "last_assistant_message"@, "codex_last_assistant_message"@) {
        Some(x) => as_str(x),
        None => None,
    }
}

/// The placeholder reply shown when Cursor or Codex stop without text.
pub open spec fn check_mark() -> Seq<char> {
    seq!['\u{2713}']
}

/// The reply kept for the completion reminder after a stop: none when
/// the user already looks at the session or it was interrupted; else the
/// stop's own reply, else the one kept so far, else for Cursor and Codex
/// a check mark.
pub open spec fn reply_on_stop(
    old: Option<Seq<char>>,
    e: JsonV,
    source: Seq<char>,
    tab_active: bool,
    interrupted: bool,
) -> Option<Seq<char>> {
    if tab_active || interrupted {
        None
    } else {
        match stop_reply(e) {
            Some(r) => Some(r),
            None => if old is None && (source == "cursor"@ || source == "codex"@) {
                Some(check_mark())
            } else {
                old
            },
        }
    }
}

fn flag_set_exec(event: &Json, key: &str) -> (r: bool)
    ensures
        r == flag_set(event@, key@),
{
    match get_exec(event, key) {
        Some(x) => match as_bool_exec(x) {
            Some(b) => b,
            None => false,
        },
        None => false,
    }
}

/// Finishes a `Stop`: records whether it failed and which reply the
/// completion reminder shows.  Every other field stays as it was.
pub fn apply_stop(
    session: &mut ClaudeSession,
    event: &Json,
    raw_hook: &str,
    interrupted: bool,
    tab_active: bool,
)
    ensures
        final(session).last_failure == stop_failed(event@, raw_hook@, interrupted),
        opt_view(final(session).last_response) == reply_on_stop(
            opt_view(old(session).last_response),
            event@,
            old(session).source@,
            tab_active,
            interrupted,
        ),
        *final(session) == (ClaudeSession {
            last_failure: final(session).last_failure,
            last_response: final(session).last_response,
            ..*old(session)
        }),
{
    let failed = interrupted || same_text(raw_hook, "StopFailure") || same_text(
        raw_hook,
        "stopFailure",
    ) || flag_set_exec(event, "failure") || flag_set_exec(event, "failed") || get_exec(
        event,
        "error",
    ).is_some();
    session.last_failure = failed;
    if tab_active || interrupted {
        session.last_response = None;
    } else {
        let reply = match get3_exec(
            event,
            "lastResponse",
            "last_assistant_message",
            "codex_last_assistant_message",
        ) {
            Some(x) => as_str_exec(x),
            None => None,
        };
        match reply {
            Some(r) => {
                session.last_response = Some(r.to_string());
            },
            None => {
                if session.last_response.is_none() && (same_text(session.source.as_str(), "cursor")
                    || same_text(session.source.as_str(), "codex")) {
                    let mark = "\u{2713}".to_string();
                    proof {
                        reveal_strlit("\u{2713}");
                    }
                    assert(mark@ == check_mark());
                    session.last_response = Some(mark);
                }
            },
        }
    }
}


// ---------------------------------------------------------------------
// Host terminals and Cursor windows
// ---------------------------------------------------------------------

/// The host terminal of a session is looked up once the event names a
/// process, none is known yet, and the session is not Cursor's.
pub open spec fn host_lookup(s: ClaudeSession, e: JsonV) -> bool {
    &&& match get(e, "pid"@) {
        Some(x) => as_u64(x) is Some,
        None => false,
    }
    &&& s.host_terminal is None
    &&& s.source@ != "cursor"@
}

/// Whether the host terminal of `session` is to be looked up on `event`.
pub fn host_lookup_needed(session: &ClaudeSession, event: &Json) -> (r: bool)
    ensures
        r == host_lookup(*session, event@),
{
    let has_pid = match get_exec(event, "pid") {
        Some(x) => as_u64_exec(x).is_some(),
        None => false,
    };
    has_pid && session.host_terminal.is_none() && !same_text(session.source.as_str(), "cursor")
}

/// Records the host terminal found for a session; a cc session
/// whose host is the Codex app becomes a Codex session.
pub fn apply_host_terminal(session: &mut ClaudeSession, host: Option<String>, host_is_codex: bool)
    ensures
        final(session).host_terminal == host,
        final(session).source@ == (if old(session).source@ == "cc"@ && host is Some
            && host_is_codex {
            "codex"@
        } else {
            old(session).source@
        }),
        *final(session) == (ClaudeSession {
            host_terminal: final(session).host_terminal,
            source: final(session).source,
            ..*old(session)
        }),
{
    let upgrade = same_text(session.source.as_str(), "cc") && host.is_some() && host_is_codex;
    session.host_terminal = host;
    if upgrade {
        session.source = "codex".to_string();
    }
}

/// The Cursor window a session is bound to.
#[derive(Debug, PartialEq, Eq)]
pub struct CursorBinding {
    pub port: u16,
    pub workspace_root: String,
    pub workspace_name: String,
    pub native_handle: Option<String>,
}

/// A Cursor session with a working directory is bound to a window on a
/// new prompt, when it has none, or when its workspace root no longer
/// holds its working directory (`root_holds_cwd`).
pub open spec fn cursor_rebind(s: ClaudeSession, hook: Seq<char>, root_holds_cwd: bool) -> bool {
    &&& s.source@ == "cursor"@
    &&& s.cwd@.len() > 0
    &&& (hook == "UserPromptSubmit"@ || s.cursor_port is None || (s.cursor_workspace_root is Some
        && !root_holds_cwd))
}

/// Whether `session` is to be bound to a Cursor window anew.
pub fn cursor_rebind_needed(session: &ClaudeSession, hook: &str, root_holds_cwd: bool) -> (r: bool)
    ensures
        r == cursor_rebind(*session, hook@, root_holds_cwd),
{
    same_text(session.source.as_str(), "cursor") && crate::text::chars_of(session.cwd.as_str()).len()
        > 0 && (same_text(hook, "UserPromptSubmit") || session.cursor_port.is_none() || (
    session.cursor_workspace_root.is_some() && !root_holds_cwd))
}

/// Binds a session to the Cursor window found for it.
pub fn apply_cursor_binding(session: &mut ClaudeSession, binding: CursorBinding)
    ensures
        final(session).cursor_port == Some(binding.port),
        final(session).cursor_workspace_root == Some(binding.workspace_root),
        final(session).cursor_workspace_name == Some(binding.workspace_name),
        final(session).cursor_native_handle == binding.native_handle,
        *final(session) == (ClaudeSession {
            cursor_port: final(session).cursor_port,
            cursor_workspace_root: final(session).cursor_workspace_root,
            cursor_workspace_name: final(session).cursor_workspace_name,
            cursor_native_handle: final(session).cursor_native_handle,
            ..*old(session)
        }),
{
    session.cursor_port = Some(binding.port);
    session.cursor_workspace_root = Some(binding.workspace_root);
    session.cursor_workspace_name = Some(binding.workspace_name);
    session.cursor_native_handle = binding.native_handle;
}

// ---------------------------------------------------------------------
// Notifications and watchers
// ---------------------------------------------------------------------

/// A session that was processing, running a tool or compacting.
pub open spec fn was_working(prev: Seq<char>) -> bool {
    prev == "processing"@ || prev == "tool_running"@ || prev == "compacting"@
}

/// The completion notice an event raises: `Some(waiting)` when a session
/// that was working (not compacting) stops with no sub-agent left and
/// without interruption (`waiting == false`), or starts to wait for the
/// user (`waiting == true`); `None` otherwise.
pub open spec fn completion(
    prev: Seq<char>,
    hook: Seq<char>,
    status: Seq<char>,
    pending: u32,
    interrupted: bool,
) -> Option<bool> {
    let is_wait = hook == "PermissionRequest"@ || (hook == "PreToolUse"@ && status
        == "waiting"@);
    let is_stop = hook == "Stop"@ && pending == 0 && !interrupted;
    if was_working(prev) && prev != "compacting"@ && (is_stop || is_wait) {
        Some(is_wait)
    } else {
        None
    }
}

/// The completion notice of an event, given the session's status before
/// it, the event, the status after it, the pending sub-agents and whether
/// a stop was interrupted.
pub fn completion_notice(
    prev_status: &str,
    hook: &str,
    status: &str,
    pending: u32,
    interrupted: bool,
) -> (r: Option<bool>)
    ensures
        r == completion(prev_status@, hook@, status@, pending, interrupted),
{
    let working = same_text(prev_status, "processing") || same_text(prev_status, "tool_running")
        || same_text(prev_status, "compacting");
    let compacting = same_text(prev_status, "compacting");
    let is_wait = same_text(hook, "PermissionRequest") || (same_text(hook, "PreToolUse")
        && same_text(status, "waiting"));
    let is_stop = same_text(hook, "Stop") && pending == 0 && !interrupted;
    if working && !compacting && (is_stop || is_wait) {
        Some(is_wait)
    } else {
        None
    }
}

/// What happens to the watcher of a session's transcript file.
#[derive(Debug, PartialEq, Eq)]
pub enum WatcherAction {
    Start,
    Stop,
    Keep,
}

/// A new prompt starts watching the transcript; a stop, a sub-agent stop
/// or the end of the session stops it.
pub fn watcher_action(hook: &str) -> (r: WatcherAction)
    ensures
        hook@ == "UserPromptSubmit"@ ==> r is Start,
        (hook@ == "Stop"@ || hook@ == "SubagentStop"@ || hook@ == "SessionEnd"@) ==> r is Stop,
        (hook@ != "UserPromptSubmit"@ && hook@ != "Stop"@ && hook@ != "SubagentStop"@ && hook@
            != "SessionEnd"@) ==> r is Keep,
{
    proof {
        reveal_strlit("UserPromptSubmit");
        reveal_strlit("Stop");
        reveal_strlit("SubagentStop");
        reveal_strlit("SessionEnd");
        assert("Stop"@.len() != "UserPromptSubmit"@.len());
        assert("SubagentStop"@ != "UserPromptSubmit"@) by {
            assert("SubagentStop"@[0] != "UserPromptSubmit"@[0]);
        }
        assert("SessionEnd"@.len() != "UserPromptSubmit"@.len());
    }
    if same_text(hook, "UserPromptSubmit") {
        WatcherAction::Start
    } else if same_text(hook, "Stop") || same_text(hook, "SubagentStop") || same_text(
        hook,
        "SessionEnd",
    ) {
        WatcherAction::Stop
    } else {
        WatcherAction::Keep
    }
}


// ---------------------------------------------------------------------
// The session table
// ---------------------------------------------------------------------

/// No two sessions share an id.
pub open spec fn ids_distinct(s: Seq<ClaudeSession>) -> bool {
    forall|i: int, j: int|
        0 <= i < s.len() && 0 <= j < s.len() && i != j ==> s[i].session_id@ != s[j].session_id@
}

/// A session with id `id` is tracked.
pub open spec fn has_session(s: Seq<ClaudeSession>, id: Seq<char>) -> bool {
    exists|i: int| 0 <= i < s.len() && s[i].session_id@ == id
}

/// The position of the session with id `id` (meaningful when it is tracked).
pub open spec fn index_of(s: Seq<ClaudeSession>, id: Seq<char>) -> int {
    choose|i: int| 0 <= i < s.len() && s[i].session_id@ == id
}

/// `b` is `a` without the session `id` (and `a` itself when `id` is not tracked).
pub open spec fn removed(a: Seq<ClaudeSession>, b: Seq<ClaudeSession>, id: Seq<char>) -> bool {
    if has_session(a, id) {
        b == a.remove(index_of(a, id))
    } else {
        b == a
    }
}

/// Status of the session `id` before an event, empty when it is untracked.
pub open spec fn status_before(s: Seq<ClaudeSession>, id: Seq<char>) -> Seq<char> {
    if has_session(s, id) {
        s[index_of(s, id)].status@
    } else {
        Seq::empty()
    }
}

/// The sessions the pet tracks, one per session id.
#[derive(Debug, PartialEq, Eq)]
pub struct SessionTable {
    pub sessions: Vec<ClaudeSession>,
}

impl SessionTable {
    /// Well-formed: no two sessions share an id.
    pub open spec fn wf(&self) -> bool {
        ids_distinct(self.sessions@)
    }

    /// An empty table.
    pub fn new() -> (t: SessionTable)
        ensures
            t.wf(),
            t.sessions@.len() == 0,
    {
        SessionTable { sessions: Vec::new() }
    }

    /// Position of the session `id`.
    pub fn find(&self, id: &str) -> (r: Option<usize>)
        requires
            self.wf(),
        ensures
            r matches Some(i) ==> i < self.sessions@.len() && self.sessions@[i as int].session_id@
                == id@ && i == index_of(self.sessions@, id@),
            r is None <==> !has_session(self.sessions@, id@),
    {
        let mut i: usize = 0;
        while i < self.sessions.len()
            invariant
                i <= self.sessions@.len(),
                ids_distinct(self.sessions@),
                forall|k: int| 0 <= k < i ==> self.sessions@[k].session_id@ != id@,
            decreases self.sessions@.len() - i,
        {
            if same_text(self.sessions[i].session_id.as_str(), id) {
                proof {
                    let j = index_of(self.sessions@, id@);
                    assert(has_session(self.sessions@, id@));
                    assert(self.sessions@[j].session_id@ == id@);
                    assert(self.sessions@[i as int].session_id@ == id@);
                    assert(j == i);
                }
                return Some(i);
            }
            i = i + 1;
        }
        None
    }

    /// Stops tracking the session `id`, handing it back if it was tracked.
    pub fn remove(&mut self, id: &str) -> (r: Option<ClaudeSession>)
        requires
            old(self).wf(),
        ensures
            final(self).wf(),
            removed(old(self).sessions@, final(self).sessions@, id@),
            r is Some <==> has_session(old(self).sessions@, id@),
            r matches Some(s) ==> s == old(self).sessions@[index_of(old(self).sessions@, id@)],
            !has_session(final(self).sessions@, id@),
    {
        match self.find(id) {
            Some(i) => {
                let s = self.sessions.remove(i);
                proof {
                    let a = old(self).sessions@;
                    let b = self.sessions@;
                    assert(b == a.remove(i as int));
                    assert forall|x: int, y: int|
                        0 <= x < b.len() && 0 <= y < b.len() && x != y implies b[x].session_id@
                        != b[y].session_id@ by {
                        let xa = if x < i { x } else { x + 1 };
                        let ya = if y < i { y } else { y + 1 };
                        assert(b[x] == a[xa]);
                        assert(b[y] == a[ya]);
                    }
                    if has_session(b, id@) {
                        let k = choose|k: int| 0 <= k < b.len() && b[k].session_id@ == id@;
                        let ka = if k < i { k } else { k + 1 };
                        assert(b[k] == a[ka]);
                        assert(a[i as int].session_id@ == id@);
                    }
                }
                Some(s)
            },
            None => None,
        }
    }

    /// Position of the session `id`, added as a fresh session from
    /// `source` when it was not tracked.
    pub fn get_or_insert(&mut self, id: &str, source: &str) -> (r: usize)
        requires
            old(self).wf(),
        ensures
            final(self).wf(),
            r < final(self).sessions@.len(),
            final(self).sessions@[r as int].session_id@ == id@,
            has_session(old(self).sessions@, id@) ==> final(self).sessions@ == old(
                self,
            ).sessions@ && r == index_of(old(self).sessions@, id@),
            !has_session(old(self).sessions@, id@) ==> final(self).sessions@.len() == old(
                self,
            ).sessions@.len() + 1 && final(self).sessions@.drop_last() == old(self).sessions@
                && r == old(self).sessions@.len() && fresh_session(
                final(self).sessions@[r as int],
                id@,
                source@,
            ),
    {
        match self.find(id) {
            Some(i) => i,
            None => {
                let s = new_session(id, source);
                self.sessions.push(s);
                proof {
                    let a = old(self).sessions@;
                    let b = self.sessions@;
                    assert(b.drop_last() =~= a);
                    assert forall|x: int, y: int|
                        0 <= x < b.len() && 0 <= y < b.len() && x != y implies b[x].session_id@
                        != b[y].session_id@ by {
                        if x < a.len() && y < a.len() {
                            assert(b[x] == a[x]);
                            assert(b[y] == a[y]);
                        } else if x < a.len() {
                            assert(b[x] == a[x]);
                        } else {
                            assert(b[y] == a[y]);
                        }
                    }
                }
                self.sessions.len() - 1
            },
        }
    }
}

/// A session as `new_session` makes it.
pub open spec fn fresh_session(s: ClaudeSession, id: Seq<char>, source: Seq<char>) -> bool {
    &&& s.session_id@ == id
    &&& s.cwd@ == Seq::<char>::empty()
    &&& s.status@ == "idle"@
    &&& s.tool is None
    &&& s.tool_input is None
    &&& s.user_prompt is None
    &&& s.interactive
    &&& s.updated_at == 0
    &&& !s.is_processing
    &&& s.pid is None
    &&& s.pending_agents == 0
    &&& s.last_response is None
    &&& !s.last_failure
    &&& !s.is_active_tab
    &&& s.source@ == source
    &&& s.permission_suggestions is None
    &&& s.terminal_id is None
    &&& s.host_terminal is None
    &&& s.cursor_port is None
    &&& s.cursor_workspace_root is None
    &&& s.cursor_workspace_name is None
    &&& s.cursor_native_handle is None
}


// ---------------------------------------------------------------------
// Processing a hook event
// ---------------------------------------------------------------------

/// Source of the session an event speaks for: the socket's own, else the
/// event's `source`, else the cc client (`cc`).
pub open spec fn event_source(e: JsonV, over: Option<Seq<char>>) -> Seq<char> {
    match over {
        Some(o) => o,
        None => match str1(e, "source"@) {
            Some(s) => s,
            None => "cc"@,
        },
    }
}

/// The event name in the cc client's terms.
pub open spec fn event_hook(e: JsonV) -> Seq<char> {
    normalized_event(event_raw_name(e))
}

/// The status a session takes on an event; `parsed` is what a text tool
/// input parses to.
pub open spec fn status_on_event(e: JsonV, parsed: Option<JsonV>) -> Seq<char> {
    let hook = event_hook(e);
    event_status(
        hook,
        event_claude_status(e),
        local_slash(event_prompt(e)),
        event_tool(e),
        hook == "PreToolUse"@ && codex_escalation(e, parsed),
    )
}

/// The table after an event for session `id`: an ended session leaves it;
/// a tracked one is updated in place; an untracked one is added fresh and
/// then updated.  Every other session stays.
pub open spec fn table_after(
    a: Seq<ClaudeSession>,
    b: Seq<ClaudeSession>,
    e: JsonV,
    id: Seq<char>,
    hook: Seq<char>,
    status: Seq<char>,
    source: Seq<char>,
    now_ms: u64,
    rendered: Option<Seq<char>>,
) -> bool {
    let raw = event_raw_name(e);
    let processing = event_claude_status(e) != "waiting_for_input"@;
    if hook == "SessionEnd"@ {
        removed(a, b, id)
    } else if has_session(a, id) {
        let i = index_of(a, id);
        &&& b == a.update(i, b[i])
        &&& event_applied(a[i], b[i], e, hook, raw, status, processing, source, now_ms, rendered)
    } else {
        &&& b.len() == a.len() + 1
        &&& b.drop_last() == a
        &&& exists|base: ClaudeSession|
            fresh_session(base, id, source) && event_applied(
                base,
                b.last(),
                e,
                hook,
                raw,
                status,
                processing,
                source,
                now_ms,
                rendered,
            )
    }
}

/// What processing an event found out, for the steps that follow it.
#[derive(Debug, PartialEq, Eq)]
pub struct EventStep {
    pub session_id: String,
    pub raw_hook: String,
    pub hook: String,
    pub claude_status: String,
    pub status: String,
    pub prev_status: String,
}

/// The outcome of processing an event.
#[derive(Debug, PartialEq, Eq)]
pub enum EventOutcome {
    /// The event names no session; nothing changed.
    NoSession,
    /// A Codex-internal utility session; it is no longer tracked.
    InternalUtility(String),
    /// The event was applied to the session.
    Applied(EventStep),
}

/// Processes a hook event against the session table: ignores it when it
/// names no session, drops Codex utility sessions, and otherwise derives
/// the event's status and applies it (see `table_after`).  `now_ms` is the
/// time, `rendered_tool_input` the JSON text of a non-text tool input and
/// `parsed_text_input` what a text tool input parses to.
pub fn process_event(
    table: &mut SessionTable,
    event: &Json,
    source_override: Option<&str>,
    now_ms: u64,
    rendered_tool_input: &Option<String>,
    parsed_text_input: &Option<Json>,
) -> (r: EventOutcome)
    requires
        old(table).wf(),
    ensures
        final(table).wf(),
        event_session_id(event@).len() == 0 ==> r is NoSession && final(table).sessions@ == old(
            table,
        ).sessions@,
        event_session_id(event@).len() > 0 && codex_internal_utility(event@) ==> (
        r matches EventOutcome::InternalUtility(id) && id@ == event_session_id(event@)) && removed(
            old(table).sessions@,
            final(table).sessions@,
            event_session_id(event@),
        ),
        event_session_id(event@).len() > 0 && !codex_internal_utility(event@) ==> (
        r matches EventOutcome::Applied(step) && step.session_id@ == event_session_id(event@)
            && step.raw_hook@ == event_raw_name(event@) && step.hook@ == event_hook(event@)
            && step.claude_status@ == event_claude_status(event@) && step.status@
            == status_on_event(event@, opt_json_view(*parsed_text_input)) && step.prev_status@
            == status_before(old(table).sessions@, event_session_id(event@))) && table_after(
            old(table).sessions@,
            final(table).sessions@,
            event@,
            event_session_id(event@),
            event_hook(event@),
            status_on_event(event@, opt_json_view(*parsed_text_input)),
            event_source(
                event@,
                match source_override {
                    Some(o) => Some(o@),
                    None => None,
                },
            ),
            now_ms,
            opt_view(*rendered_tool_input),
        ),
{
    let id = text_or_empty_exec(get3_exec(event, "sessionId", "session_id", "conversation_id"));
    if crate::text::chars_of(id).len() == 0 {
        return EventOutcome::NoSession;
    }
    let raw = text_or_empty_exec(get3_exec(event, "event", "hook_event_name", "codex_event_type"));
    let hook = normalize_hook_event(raw);
    if is_codex_internal_utility_event(event) {
        let _ = table.remove(id);
        return EventOutcome::InternalUtility(id.to_string());
    }
    let claude_status: &str = match get2_exec(event, "claudeStatus", "status") {
        Some(x) => match as_str_exec(x) {
            Some(s) => s,
            None => "unknown",
        },
        None => "unknown",
    };
    let is_processing = !same_text(claude_status, "waiting_for_input");
    let prompt = text_or_empty_exec(get2_exec(event, "userPrompt", "prompt"));
    let slash = is_local_slash(prompt);
    let needs_waiting = same_text(hook.as_str(), "PreToolUse") && codex_requires_escalation(
        event,
        parsed_text_input,
    );
    let tool = text_or_empty_exec(get2_exec(event, "tool", "tool_name"));
    let status = derive_event_status(hook.as_str(), claude_status, slash, tool, needs_waiting);
    let prev_status = match table.find(id) {
        Some(i) => table.sessions[i].status.clone(),
        None => String::new(),
    };
    if same_text(hook.as_str(), "SessionEnd") {
        let _ = table.remove(id);
    } else {
        let source: &str = match source_override {
            Some(o) => o,
            None => match str_of(get_exec(event, "source")) {
                Some(s) => s,
                None => "cc",
            },
        };
        let ghost before = table.sessions@;
        let i = table.get_or_insert(id, source);
        let ghost base = table.sessions@[i as int];
        apply_event_core(
            &mut table.sessions[i],
            event,
            hook.as_str(),
            raw,
            status.as_str(),
            is_processing,
            source,
            now_ms,
            rendered_tool_input,
        );
        proof {
            let b = table.sessions@;
            assert forall|x: int, y: int|
                0 <= x < b.len() && 0 <= y < b.len() && x != y implies b[x].session_id@
                != b[y].session_id@ by {}
            if !has_session(before, id@) {
                assert(b.drop_last() =~= before);
                assert(b.last() == b[i as int]);
            }
        }
    }
    EventOutcome::Applied(
        EventStep {
            session_id: id.to_string(),
            raw_hook: raw.to_string(),
            hook,
            claude_status: claude_status.to_string(),
            status,
            prev_status,
        },
    )
}


// ---------------------------------------------------------------------
// Listing sessions
// ---------------------------------------------------------------------

/// A status that stays until an event ends it.
pub open spec fn busy(status: Seq<char>) -> bool {
    status == "waiting"@ || status == "processing"@ || status == "tool_running"@ || status
        == "compacting"@
}

/// A busy session whose client went away stops: a Cursor or Codex
/// session after 120 seconds without events, a cc session whose process
/// (`pid_alive`) is gone.  Its pending sub-agents are cleared with it.
pub open spec fn stale(s: ClaudeSession, now_ms: u64, pid_alive: bool) -> bool {
    busy(s.status@) && if s.source@ == "cursor"@ || s.source@ == "codex"@ {
        (if now_ms >= s.updated_at {
            now_ms - s.updated_at
        } else {
            0
        }) > 120_000
    } else {
        s.pid is Some && !pid_alive
    }
}

/// Stops a stale session (see `stale`); `pid_alive` says whether its
/// process, if it has one, still runs.
pub fn expire_if_stale(session: &mut ClaudeSession, now_ms: u64, pid_alive: bool)
    ensures
        stale(*old(session), now_ms, pid_alive) ==> final(session).status@ == "stopped"@
            && final(session).pending_agents == 0 && *final(session) == (ClaudeSession {
            status: final(session).status,
            pending_agents: 0,
            ..*old(session)
        }),
        !stale(*old(session), now_ms, pid_alive) ==> *final(session) == *old(session),
{
    let b = same_text(session.status.as_str(), "waiting") || same_text(
        session.status.as_str(),
        "processing",
    ) || same_text(session.status.as_str(), "tool_running") || same_text(
        session.status.as_str(),
        "compacting",
    );
    if !b {
        return ;
    }
    let expired = if same_text(session.source.as_str(), "cursor") || same_text(
        session.source.as_str(),
        "codex",
    ) {
        now_ms.saturating_sub(session.updated_at) > 120_000
    } else {
        session.pid.is_some() && !pid_alive
    };
    if expired {
        session.status = "stopped".to_string();
        session.pending_agents = 0;
    }
}

/// Whether the user looks at a listed session: a non-Cursor Ghostty
/// session whose tab Ghostty shows; else a Codex session when Codex is in
/// front; a session hosted by Cursor when Cursor is in front; one hosted
/// by the Codex app when that is in front; one in another non-Ghostty
/// terminal when that is in front (`host_front`).  Cursor sessions keep
/// what their last stop decided.
pub open spec fn listed_active(
    s: ClaudeSession,
    active: Option<Seq<char>>,
    cursor_front: bool,
    codex_front: bool,
    host_is_codex: bool,
    host_front: bool,
) -> bool {
    let ghost_tab = s.source@ != "cursor"@ && is_ghostty(opt_view(s.host_terminal))
        && active is Some;
    let tab1 = if ghost_tab {
        tab_matches(opt_view(s.terminal_id), active)
    } else {
        s.is_active_tab
    };
    if s.source@ == "cursor"@ || tab1 {
        tab1
    } else if s.source@ == "codex"@ {
        codex_front
    } else {
        match opt_view(s.host_terminal) {
            Some(ht) => if ht == "Cursor"@ {
                cursor_front
            } else if host_is_codex {
                codex_front
            } else if !is_ghostty(Some(ht)) {
                host_front
            } else {
                tab1
            },
            None => tab1,
        }
    }
}

/// Marks whether the user looks at a listed session (see
/// `listed_active`): `active` is the Ghostty tab in front, `host_is_codex`
/// and `host_front` say whether the session's host terminal is the Codex
/// app and whether it is in front.
pub fn mark_active_tab(
    session: &mut ClaudeSession,
    active: Option<&str>,
    cursor_front: bool,
    codex_front: bool,
    host_is_codex: bool,
    host_front: bool,
)
    ensures
        final(session).is_active_tab == listed_active(
            *old(session),
            match active {
                Some(a) => Some(a@),
                None => None,
            },
            cursor_front,
            codex_front,
            host_is_codex,
            host_front,
        ),
        *final(session) == (ClaudeSession { is_active_tab: final(session).is_active_tab, ..*old(session) }),
{
    let cursor = same_text(session.source.as_str(), "cursor");
    let ghostty = is_ghostty_exec(&session.host_terminal);
    let mut tab = session.is_active_tab;
    if !cursor && ghostty && active.is_some() {
        tab = tab_matches_exec(&session.terminal_id, active);
    }
    if !cursor && !tab {
        if same_text(session.source.as_str(), "codex") {
            tab = codex_front;
        } else {
            match &session.host_terminal {
                Some(ht) => {
                    if same_text(ht.as_str(), "Cursor") {
                        tab = cursor_front;
                    } else if host_is_codex {
                        tab = codex_front;
                    } else if !(same_text(ht.as_str(), "Ghostty") || same_text(
                        ht.as_str(),
                        "ghostty",
                    )) {
                        tab = host_front;
                    }
                },
                None => {},
            }
        }
    }
    session.is_active_tab = tab;
}

/// Sessions ordered most recently updated first.
pub open spec fn updated_desc(s: Seq<ClaudeSession>) -> bool {
    forall|i: int, j: int| 0 <= i < j < s.len() ==> s[i].updated_at >= s[j].updated_at
}

/// A session the list shows: one whose working directory is known.
pub open spec fn listed(s: ClaudeSession) -> bool {
    s.cwd@.len() > 0
}

/// The positions, in order, of the shown sessions among the first `n`.
pub open spec fn listed_positions_upto(s: Seq<ClaudeSession>, n: int) -> Seq<int>
    decreases n,
{
    if n <= 0 {
        Seq::empty()
    } else {
        let p = listed_positions_upto(s, n - 1);
        if listed(s[n - 1]) {
            p.push(n - 1)
        } else {
            p
        }
    }
}

/// Whether the list shows session `s` (see `listed`).
pub fn is_listed(s: &ClaudeSession) -> (r: bool)
    ensures
        r == listed(*s),
{
    crate::text::chars_of(s.cwd.as_str()).len() > 0
}

/// The positions of the sessions the list shows, in their order: every
/// one names a session with a working directory, and none is left out.
pub fn listed_positions(v: &Vec<ClaudeSession>) -> (r: Vec<usize>)
    ensures
        r@.map_values(|i: usize| i as int) == listed_positions_upto(v@, v@.len() as int),
        forall|k: int| 0 <= k < r@.len() ==> #[trigger] r@[k] < v@.len() && listed(v@[r@[k] as int]),
        forall|k: int, l: int| 0 <= k < l < r@.len() ==> r@[k] < r@[l],
{
    let mut r: Vec<usize> = Vec::new();
    let mut i: usize = 0;
    while i < v.len()
        invariant
            i <= v.len(),
            r@.map_values(|j: usize| j as int) == listed_positions_upto(v@, i as int),
            forall|k: int| 0 <= k < r@.len() ==> #[trigger] r@[k] < i && listed(v@[r@[k] as int]),
            forall|k: int, l: int| 0 <= k < l < r@.len() ==> r@[k] < r@[l],
        decreases v.len() - i,
    {
        if is_listed(&v[i]) {
            r.push(i);
        }
        assert(r@.map_values(|j: usize| j as int) =~= listed_positions_upto(v@, i + 1));
        i = i + 1;
    }
    r
}

/// The sessions, most recently updated first.
pub fn sort_sessions_newest(v: Vec<ClaudeSession>) -> (r: Vec<ClaudeSession>)
    ensures
        updated_desc(r@),
        r@.to_multiset() == v@.to_multiset(),
{
    broadcast use vstd::seq_lib::group_to_multiset_ensures;

    let ghost src = v@;
    let mut out: Vec<ClaudeSession> = Vec::new();
    let mut rest = v;
    while rest.len() > 0
        invariant
            updated_desc(out@),
            out@.to_multiset().add(rest@.to_multiset()) == src.to_multiset(),
        decreases rest.len(),
    {
        let ghost r0 = rest@;
        let x = rest.pop().unwrap();
        proof {
            assert(r0 == rest@.push(x));
            vstd::seq_lib::to_multiset_build(rest@, x);
        }
        let mut pos: usize = 0;
        while pos < out.len() && out[pos].updated_at >= x.updated_at
            invariant
                pos <= out.len(),
                forall|m: int| 0 <= m < pos ==> out@[m].updated_at >= x.updated_at,
            decreases out.len() - pos,
        {
            pos = pos + 1;
        }
        let ghost o0 = out@;
        out.insert(pos, x);
        proof {
            o0.insert_ensures(pos as int, x);
            let n = out@;
            assert forall|i: int, j: int|
                0 <= i < j < n.len() implies n[i].updated_at >= n[j].updated_at by {
                if j < pos {
                } else if j == pos {
                    assert(n[i] == o0[i]);
                } else if i < pos {
                    assert(n[j] == o0[j - 1]);
                    assert(n[i] == o0[i]);
                    if pos < o0.len() {
                        assert(o0[pos as int].updated_at < x.updated_at);
                    }
                } else if i == pos {
                    assert(n[j] == o0[j - 1]);
                    assert(o0[pos as int].updated_at < x.updated_at);
                } else {
                    assert(n[i] == o0[i - 1]);
                    assert(n[j] == o0[j - 1]);
                }
            }
            vstd::seq_lib::to_multiset_insert(o0, pos as int, x);
            assert(out@.to_multiset().add(rest@.to_multiset()) =~= o0.to_multiset().add(
                r0.to_multiset(),
            ));
        }
    }
    assert(rest@.to_multiset() =~= vstd::multiset::Multiset::empty());
    assert(out@.to_multiset() =~= src.to_multiset());
    out
}

// ---------------------------------------------------------------------
// What every event keeps
// ---------------------------------------------------------------------

/// An ended session, or a dropped utility session, is no longer tracked,
/// and every other session stays tracked exactly when it was.
pub proof fn law_removed_session_untracked(a: Seq<ClaudeSession>, b: Seq<ClaudeSession>, id: Seq<char>)
    requires
        ids_distinct(a),
        removed(a, b, id),
    ensures
        !has_session(b, id),
        forall|other: Seq<char>|
            other != id ==> (#[trigger] has_session(b, other) <==> has_session(a, other)),
{
    if has_session(a, id) {
        let i = index_of(a, id);
        assert(b == a.remove(i));
        if has_session(b, id) {
            let j = choose|j: int| 0 <= j < b.len() && b[j].session_id@ == id;
            if j < i {
                assert(b[j] == a[j]);
            } else {
                assert(b[j] == a[j + 1]);
            }
        }
        assert forall|other: Seq<char>| other != id implies (#[trigger] has_session(b, other)
            <==> has_session(a, other)) by {
            if has_session(b, other) {
                let j = choose|j: int| 0 <= j < b.len() && b[j].session_id@ == other;
                if j < i {
                    assert(b[j] == a[j]);
                } else {
                    assert(b[j] == a[j + 1]);
                }
            }
            if has_session(a, other) {
                let k = choose|k: int| 0 <= k < a.len() && a[k].session_id@ == other;
                assert(k != i);
                if k < i {
                    assert(b[k] == a[k]);
                } else {
                    assert(b[k - 1] == a[k]);
                }
            }
        }
    }
}

/// An event for a session that does not end it leaves that session
/// tracked, changes no other session, and never lowers the session's
/// source (a cc event does not turn a Codex or Cursor session into a cc
/// one).
pub proof fn law_event_keeps_sessions(
    a: Seq<ClaudeSession>,
    b: Seq<ClaudeSession>,
    e: JsonV,
    id: Seq<char>,
    hook: Seq<char>,
    status: Seq<char>,
    source: Seq<char>,
    now_ms: u64,
    rendered: Option<Seq<char>>,
)
    requires
        ids_distinct(a),
        hook != "SessionEnd"@,
        table_after(a, b, e, id, hook, status, source, now_ms, rendered),
    ensures
        has_session(b, id),
        forall|k: int|
            0 <= k < a.len() && (#[trigger] a[k]).session_id@ != id ==> b[k] == a[k],
        has_session(a, id) ==> source_rank(b[index_of(a, id)].source@) >= source_rank(
            a[index_of(a, id)].source@,
        ),
{
    if has_session(a, id) {
        let i = index_of(a, id);
        assert(b[i].session_id == a[i].session_id);
        assert(b[i].session_id@ == id);
        assert forall|k: int| 0 <= k < a.len() && (#[trigger] a[k]).session_id@ != id implies b[k]
            == a[k] by {
            assert(k != i);
        }
    } else {
        let base = choose|base: ClaudeSession|
            fresh_session(base, id, source) && event_applied(
                base,
                b.last(),
                e,
                hook,
                event_raw_name(e),
                status,
                event_claude_status(e) != "waiting_for_input"@,
                source,
                now_ms,
                rendered,
            );
        assert(b.last().session_id@ == id);
        assert(b[b.len() - 1].session_id@ == id);
        assert forall|k: int| 0 <= k < a.len() && (#[trigger] a[k]).session_id@ != id implies b[k]
            == a[k] by {
            assert(b.drop_last()[k] == b[k]);
        }
    }
}

} // verus!
