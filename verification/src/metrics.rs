//! Agent metrics read from a session transcript (one JSON value per line)
//! and from the session index (`sessions.json`).
//!
//! Costs are floating-point and summed outside the library.
use vstd::prelude::*;
use crate::json::{
    Json, JsonV, jv, jv_list, jv_entries, get, at, as_str, as_u64, as_array, str_at, get_exec,
    as_str_exec, as_u64_exec, as_array_exec, str_at_exec, json_clone, same_text,
    lemma_jv_list_len, lemma_jv_entries_len,
};
use crate::text::{chars_of, contains, contains_exec, trim, trim_exec, utf8_len, utf8_len_below, string_of};
use crate::messages::{truncated, truncate_str, truncate_chars, extracted_user_message, extract_user_message};
use crate::types::{ToolCallStat, RecentAction, opt_view};

verus! {

broadcast use vstd::string::group_string_axioms;

// ---------------------------------------------------------------------
// Reading members
// ---------------------------------------------------------------------

/// `v[key].as_str().unwrap_or(d)`.
pub open spec fn str_or(v: JsonV, key: Seq<char>, d: Seq<char>) -> Seq<char> {
    match str_at(v, key) {
        Some(s) => s,
        None => d,
    }
}

/// `v.get(key).and_then(as_u64).unwrap_or(0)`.
pub open spec fn u64_at(v: JsonV, key: Seq<char>) -> u64 {
    match get(v, key) {
        Some(x) => match as_u64(x) {
            Some(n) => n,
            None => 0,
        },
        None => 0,
    }
}

/// Addition that stops at the largest `u64`.
pub open spec fn sat_add(a: u64, b: u64) -> u64 {
    if a + b > u64::MAX {
        u64::MAX
    } else {
        (a + b) as u64
    }
}

/// One more, stopping at the largest `usize`.
pub open spec fn sat_inc(a: usize) -> usize {
    if a == usize::MAX {
        a
    } else {
        (a + 1) as usize
    }
}

fn str_or_exec<'a>(v: &'a Json, key: &str, d: &'a str) -> (r: &'a str)
    ensures
        r@ == str_or(v@, key@, d@),
{
    match str_at_exec(v, key) {
        Some(s) => s,
        None => d,
    }
}

fn u64_at_exec(v: &Json, key: &str) -> (r: u64)
    ensures
        r == u64_at(v@, key@),
{
    match get_exec(v, key) {
        Some(x) => match as_u64_exec(x) {
            Some(n) => n,
            None => 0,
        },
        None => 0,
    }
}

fn opt_str(o: Option<&str>) -> (r: Option<String>)
    ensures
        opt_view(r) == (match o {
            Some(s) => Some(s@),
            None => None::<Seq<char>>,
        }),
{
    match o {
        Some(s) => Some(s.to_string()),
        None => None,
    }
}

/// `v[key]`, `null` when absent.
fn at_exec<'a>(v: &'a Json, key: &str, null: &'a Json) -> (r: &'a Json)
    requires
        null@ == JsonV::Null,
    ensures
        r@ == at(v@, key@),
{
    match get_exec(v, key) {
        Some(x) => x,
        None => null,
    }
}

// ---------------------------------------------------------------------
// The model of the fold
// ---------------------------------------------------------------------

/// A recent action before its detail is written: a tool call keeps its
/// input, a text keeps its detail.
pub struct ActionDraft {
    pub action_type: String,
    pub summary: String,
    pub detail: Option<String>,
    pub input: Option<Json>,
    pub timestamp: Option<String>,
}

/// The view of an action draft.
pub struct DraftV {
    pub action_type: Seq<char>,
    pub summary: Seq<char>,
    pub detail: Option<Seq<char>>,
    pub input: Option<JsonV>,
    pub timestamp: Option<Seq<char>>,
}

pub open spec fn draft_view(d: ActionDraft) -> DraftV {
    DraftV {
        action_type: d.action_type@,
        summary: d.summary@,
        detail: opt_view(d.detail),
        input: match d.input {
            Some(j) => Some(j@),
            None => None,
        },
        timestamp: opt_view(d.timestamp),
    }
}

pub open spec fn drafts_view(s: Seq<ActionDraft>) -> Seq<DraftV> {
    s.map_values(|d: ActionDraft| draft_view(d))
}

pub open spec fn tools_view(s: Seq<ToolCallStat>) -> Seq<(Seq<char>, usize)> {
    s.map_values(|t: ToolCallStat| (t.name@, t.count))
}

/// What the transcript says so far.
pub struct MetricsFold {
    pub current_model: Option<String>,
    pub thinking_level: Option<String>,
    pub total_tokens: u64,
    pub input_tokens: u64,
    pub output_tokens: u64,
    pub cache_read_tokens: u64,
    pub cache_write_tokens: u64,
    /// Tool names in the order first called, with their call counts.
    pub tools: Vec<ToolCallStat>,
    /// Every action, in order.
    pub actions: Vec<ActionDraft>,
    pub error_count: usize,
    pub message_count: usize,
    pub session_start: Option<String>,
    pub last_activity: Option<String>,
    pub current_task: Option<String>,
    pub current_tool: Option<String>,
    pub message_timestamp: Option<String>,
}

/// The view of the fold.
pub struct FoldV {
    pub model: Option<Seq<char>>,
    pub thinking: Option<Seq<char>>,
    pub total: u64,
    pub input: u64,
    pub output: u64,
    pub cache_read: u64,
    pub cache_write: u64,
    pub tools: Seq<(Seq<char>, usize)>,
    pub actions: Seq<DraftV>,
    pub errors: usize,
    pub messages: usize,
    pub session_start: Option<Seq<char>>,
    pub last_activity: Option<Seq<char>>,
    pub task: Option<Seq<char>>,
    pub tool: Option<Seq<char>>,
    pub msg_ts: Option<Seq<char>>,
}

pub open spec fn fold_view(f: MetricsFold) -> FoldV {
    FoldV {
        model: opt_view(f.current_model),
        thinking: opt_view(f.thinking_level),
        total: f.total_tokens,
        input: f.input_tokens,
        output: f.output_tokens,
        cache_read: f.cache_read_tokens,
        cache_write: f.cache_write_tokens,
        tools: tools_view(f.tools@),
        actions: drafts_view(f.actions@),
        errors: f.error_count,
        messages: f.message_count,
        session_start: opt_view(f.session_start),
        last_activity: opt_view(f.last_activity),
        task: opt_view(f.current_task),
        tool: opt_view(f.current_tool),
        msg_ts: opt_view(f.message_timestamp),
    }
}


// ---------------------------------------------------------------------
// Steps of the fold
// ---------------------------------------------------------------------

/// The user's task after the items of a user message: each text item
/// replaces it by the message extracted from its text.
pub open spec fn user_task_after(last: Option<Seq<char>>, items: Seq<JsonV>) -> Option<Seq<char>>
    decreases items.len(),
{
    if items.len() == 0 {
        last
    } else {
        let prev = user_task_after(last, items.drop_last());
        let it = items.last();
        if str_at(it, "type"@) == Some("text"@) {
            match str_at(it, "text"@) {
                Some(t) => extracted_user_message(t),
                None => prev,
            }
        } else {
            prev
        }
    }
}

/// First position at or after `i` of tool `n`.
pub open spec fn tool_pos(tools: Seq<(Seq<char>, usize)>, n: Seq<char>, i: int) -> Option<int>
    decreases tools.len() - i,
{
    if i < 0 || i >= tools.len() {
        None
    } else if tools[i].0 == n {
        Some(i)
    } else {
        tool_pos(tools, n, i + 1)
    }
}

/// The tool counts after one more call of `n`.
pub open spec fn count_tool(tools: Seq<(Seq<char>, usize)>, n: Seq<char>) -> Seq<
    (Seq<char>, usize),
> {
    match tool_pos(tools, n, 0) {
        Some(i) => tools.update(i, (n, sat_inc(tools[i].1))),
        None => tools.push((n, 1)),
    }
}

/// The draft of a text reply: up to 60 bytes as summary; up to 500 bytes
/// as detail when it is longer than 60 bytes.
pub open spec fn text_draft(t: Seq<char>, ts: Option<Seq<char>>) -> DraftV {
    DraftV {
        action_type: "text"@,
        summary: truncated(t, 60),
        detail: if utf8_len(t) > 60 {
            Some(truncated(t, 500))
        } else {
            None
        },
        input: None,
        timestamp: ts,
    }
}

/// The draft of a tool call.
pub open spec fn tool_draft(n: Seq<char>, input: JsonV, ts: Option<Seq<char>>) -> DraftV {
    DraftV { action_type: "tool"@, summary: n, detail: None, input: Some(input), timestamp: ts }
}

/// The parts of the fold an assistant message's items change.
pub struct ItemsV {
    pub tools: Seq<(Seq<char>, usize)>,
    pub tool: Option<Seq<char>>,
    pub actions: Seq<DraftV>,
}

/// One item of an assistant message: a named tool call is counted and
/// recorded; a non-blank text is recorded, trimmed.
pub open spec fn item_step(st: ItemsV, it: JsonV, ts: Option<Seq<char>>) -> ItemsV {
    let ty = str_at(it, "type"@);
    if ty == Some("toolCall"@) {
        match str_at(it, "name"@) {
            Some(n) => ItemsV {
                tools: count_tool(st.tools, n),
                tool: Some(n),
                actions: st.actions.push(tool_draft(n, at(it, "input"@), ts)),
            },
            None => st,
        }
    } else if ty == Some("text"@) {
        match str_at(it, "text"@) {
            Some(t) => if trim(t).len() > 0 {
                ItemsV { actions: st.actions.push(text_draft(trim(t), ts)), ..st }
            } else {
                st
            },
            None => st,
        }
    } else {
        st
    }
}

pub open spec fn items_after(st: ItemsV, items: Seq<JsonV>, ts: Option<Seq<char>>) -> ItemsV
    decreases items.len(),
{
    if items.len() == 0 {
        st
    } else {
        item_step(items_after(st, items.drop_last(), ts), items.last(), ts)
    }
}

/// Token counts after an assistant message's `usage`, when it is an object.
pub open spec fn usage_step(s: FoldV, usage: JsonV) -> FoldV {
    if usage is Object {
        FoldV {
            input: sat_add(s.input, u64_at(usage, "input"@)),
            output: sat_add(s.output, u64_at(usage, "output"@)),
            cache_read: sat_add(s.cache_read, u64_at(usage, "cacheRead"@)),
            cache_write: sat_add(s.cache_write, u64_at(usage, "cacheWrite"@)),
            total: sat_add(s.total, u64_at(usage, "totalTokens"@)),
            ..s
        }
    } else {
        s
    }
}

/// A `message` line: its timestamp becomes the current message's; a user
/// message updates the task, an assistant message the tokens, tools and
/// actions; both count as messages.
pub open spec fn message_step(s: FoldV, v: JsonV) -> FoldV {
    let msg = at(v, "message"@);
    let role = str_or(msg, "role"@, Seq::empty());
    let ts = str_at(v, "timestamp"@);
    let s1 = FoldV { msg_ts: ts, ..s };
    let items = as_array(at(msg, "content"@));
    if role == "user"@ {
        FoldV {
            task: match items {
                Some(a) => user_task_after(s1.task, a),
                None => s1.task,
            },
            messages: sat_inc(s1.messages),
            ..s1
        }
    } else if role == "assistant"@ {
        let s2 = usage_step(s1, at(msg, "usage"@));
        let st = ItemsV { tools: s2.tools, tool: s2.tool, actions: s2.actions };
        let st2 = match items {
            Some(a) => items_after(st, a, ts),
            None => st,
        };
        FoldV {
            tools: st2.tools,
            tool: st2.tool,
            actions: st2.actions,
            messages: sat_inc(s2.messages),
            ..s2
        }
    } else {
        s1
    }
}

/// One transcript line.
pub open spec fn line_step(s: FoldV, v: JsonV) -> FoldV {
    let ty = str_or(v, "type"@, Seq::empty());
    let s1 = match str_at(v, "timestamp"@) {
        Some(ts) => FoldV { last_activity: Some(ts), ..s },
        None => s,
    };
    if ty == "session"@ {
        FoldV { session_start: str_at(v, "timestamp"@), ..s1 }
    } else if ty == "model_change"@ {
        FoldV { model: str_at(v, "modelId"@), ..s1 }
    } else if ty == "thinking_level_change"@ {
        FoldV { thinking: str_at(v, "thinkingLevel"@), ..s1 }
    } else if ty == "message"@ {
        message_step(s1, v)
    } else if ty == "custom"@ && (match str_at(v, "customType"@) {
        Some(t) => contains(t, "error"@),
        None => false,
    }) {
        FoldV { errors: sat_inc(s1.errors), ..s1 }
    } else {
        s1
    }
}

/// The fold over the lines that parsed (`None` marks a line that did not).
pub open spec fn fold_lines(s: FoldV, lines: Seq<Option<JsonV>>) -> FoldV
    decreases lines.len(),
{
    if lines.len() == 0 {
        s
    } else {
        let prev = fold_lines(s, lines.drop_last());
        match lines.last() {
            Some(v) => line_step(prev, v),
            None => prev,
        }
    }
}


// ---------------------------------------------------------------------
// The fold, executable
// ---------------------------------------------------------------------

fn user_task_exec(last: &Option<String>, items: &Vec<Json>) -> (r: Option<String>)
    ensures
        opt_view(r) == user_task_after(opt_view(*last), jv_list(items@)),
{
    proof {
        lemma_jv_list_len(items@);
    }
    let ghost a = jv_list(items@);
    let mut cur: Option<String> = match last {
        Some(t) => Some(t.clone()),
        None => None,
    };
    assert(a.take(0) =~= Seq::<JsonV>::empty());
    let mut i: usize = 0;
    while i < items.len()
        invariant
            i <= items.len(),
            a == jv_list(items@),
            a.len() == items.len(),
            forall|k: int| 0 <= k < items.len() ==> #[trigger] a[k] == jv(items@[k]),
            opt_view(cur) == user_task_after(opt_view(*last), a.take(i as int)),
        decreases items.len() - i,
    {
        assert(a.take(i + 1).drop_last() =~= a.take(i as int));
        assert(a.take(i + 1).last() == a[i as int]);
        let it = &items[i];
        if same_opt(str_at_exec(it, "type"), "text") {
            match str_at_exec(it, "text") {
                Some(t) => {
                    cur = extract_user_message(t);
                },
                None => {},
            }
        }
        i = i + 1;
    }
    assert(a.take(items.len() as int) =~= a);
    cur
}

/// `o == Some(lit)`.
fn same_opt(o: Option<&str>, lit: &str) -> (r: bool)
    ensures
        r == (match o {
            Some(s) => Some(s@),
            None => None::<Seq<char>>,
        } == Some(lit@)),
{
    match o {
        Some(s) => same_text(s, lit),
        None => false,
    }
}

fn count_tool_exec(tools: &mut Vec<ToolCallStat>, n: &str)
    ensures
        tools_view(final(tools)@) == count_tool(tools_view(old(tools)@), n@),
{
    let ghost tv = tools_view(tools@);
    let mut i: usize = 0;
    while i < tools.len()
        invariant
            i <= tools.len(),
            tv == tools_view(tools@),
            tools@ == old(tools)@,
            tool_pos(tv, n@, 0) == tool_pos(tv, n@, i as int),
        decreases tools.len() - i,
    {
        if same_text(tools[i].name.as_str(), n) {
            let c = tools[i].count;
            let c2 = if c == usize::MAX {
                c
            } else {
                c + 1
            };
            let ghost before = tools@;
            let old_t = tools.remove(i);
            tools.insert(i, ToolCallStat { name: old_t.name, count: c2 });
            proof {
                assert(tools_view(tools@) =~= tv.update(i as int, (n@, sat_inc(tv[i as int].1))));
            }
            return ;
        }
        i = i + 1;
    }
    tools.push(ToolCallStat { name: n.to_string(), count: 1 });
    assert(tools_view(tools@) =~= tv.push((n@, 1usize)));
}

pub open spec fn items_of(f: FoldV) -> ItemsV {
    ItemsV { tools: f.tools, tool: f.tool, actions: f.actions }
}

/// Applies the items of an assistant message.
fn items_exec(f: &mut MetricsFold, items: &Vec<Json>, ts: &Option<String>)
    ensures
        items_of(fold_view(*final(f))) == items_after(
            items_of(fold_view(*old(f))),
            jv_list(items@),
            opt_view(*ts),
        ),
        fold_view(*final(f)) == (FoldV {
            tools: fold_view(*final(f)).tools,
            tool: fold_view(*final(f)).tool,
            actions: fold_view(*final(f)).actions,
            ..fold_view(*old(f))
        }),
{
    proof {
        lemma_jv_list_len(items@);
    }
    let ghost a = jv_list(items@);
    let ghost st0 = items_of(fold_view(*f));
    assert(a.take(0) =~= Seq::<JsonV>::empty());
    let mut i: usize = 0;
    while i < items.len()
        invariant
            i <= items.len(),
            a == jv_list(items@),
            a.len() == items.len(),
            forall|k: int| 0 <= k < items.len() ==> #[trigger] a[k] == jv(items@[k]),
            st0 == items_of(fold_view(*old(f))),
            items_of(fold_view(*f)) == items_after(st0, a.take(i as int), opt_view(*ts)),
            fold_view(*f) == (FoldV {
                tools: fold_view(*f).tools,
                tool: fold_view(*f).tool,
                actions: fold_view(*f).actions,
                ..fold_view(*old(f))
            }),
        decreases items.len() - i,
    {
        assert(a.take(i + 1).drop_last() =~= a.take(i as int));
        assert(a.take(i + 1).last() == a[i as int]);
        let it = &items[i];
        let ty = str_at_exec(it, "type");
        if same_opt(ty, "toolCall") {
            match str_at_exec(it, "name") {
                Some(n) => {
                    count_tool_exec(&mut f.tools, n);
                    f.current_tool = Some(n.to_string());
                    let input = match get_exec(it, "input") {
                        Some(x) => json_clone(x),
                        None => Json::Null,
                    };
                    let d = ActionDraft {
                        action_type: "tool".to_string(),
                        summary: n.to_string(),
                        detail: None,
                        input: Some(input),
                        timestamp: ts.clone(),
                    };
                    let ghost before = f.actions@;
                    f.actions.push(d);
                    proof {
                        assert(drafts_view(f.actions@) =~= drafts_view(before).push(
                            tool_draft(n@, at(a[i as int], "input"@), opt_view(*ts)),
                        ));
                    }
                },
                None => {},
            }
        } else if same_opt(ty, "text") {
            match str_at_exec(it, "text") {
                Some(t) => {
                    let tr = trim_exec(&chars_of(t));
                    if tr.len() > 0 {
                        let long = !utf8_len_below(&tr, 61);
                        let summary = string_of(truncate_chars(&tr, 60).as_slice());
                        let detail = if long {
                            Some(string_of(truncate_chars(&tr, 500).as_slice()))
                        } else {
                            None
                        };
                        let d = ActionDraft {
                            action_type: "text".to_string(),
                            summary,
                            detail,
                            input: None,
                            timestamp: ts.clone(),
                        };
                        let ghost before = f.actions@;
                        f.actions.push(d);
                        proof {
                            assert(drafts_view(f.actions@) =~= drafts_view(before).push(
                                text_draft(trim(t@), opt_view(*ts)),
                            ));
                        }
                    }
                },
                None => {},
            }
        }
        i = i + 1;
    }
    assert(a.take(items.len() as int) =~= a);
}


fn usage_exec(f: &mut MetricsFold, usage: &Json)
    ensures
        fold_view(*final(f)) == usage_step(fold_view(*old(f)), usage@),
{
    match usage {
        Json::Object(_) => {
            f.input_tokens = f.input_tokens.saturating_add(u64_at_exec(usage, "input"));
            f.output_tokens = f.output_tokens.saturating_add(u64_at_exec(usage, "output"));
            f.cache_read_tokens = f.cache_read_tokens.saturating_add(
                u64_at_exec(usage, "cacheRead"),
            );
            f.cache_write_tokens = f.cache_write_tokens.saturating_add(
                u64_at_exec(usage, "cacheWrite"),
            );
            f.total_tokens = f.total_tokens.saturating_add(u64_at_exec(usage, "totalTokens"));
        },
        _ => {},
    }
}

fn message_exec(f: &mut MetricsFold, v: &Json)
    ensures
        fold_view(*final(f)) == message_step(fold_view(*old(f)), v@),
{
    let null = Json::Null;
    let msg = at_exec(v, "message", &null);
    let role = str_or_exec(msg, "role", "");
    proof {
        reveal_strlit("");
        reveal_strlit("user");
        reveal_strlit("assistant");
        assert(""@ =~= Seq::<char>::empty());
    }
    let ghost s1 = FoldV { msg_ts: str_at(v@, "timestamp"@), ..fold_view(*old(f)) };
    let ts = opt_str(str_at_exec(v, "timestamp"));
    f.message_timestamp = match &ts {
        Some(t) => Some(t.clone()),
        None => None,
    };
    let content = at_exec(msg, "content", &null);
    assert(fold_view(*f) == s1);
    if same_text(role, "user") {
        match as_array_exec(content) {
            Some(a) => {
                let t = user_task_exec(&f.current_task, a);
                f.current_task = t;
            },
            None => {},
        }
        f.message_count = if f.message_count == usize::MAX {
            f.message_count
        } else {
            f.message_count + 1
        };
        assert(fold_view(*f).messages == sat_inc(s1.messages));
        assert(fold_view(*f).task == (match as_array(at(at(v@, "message"@), "content"@)) {
            Some(a) => user_task_after(s1.task, a),
            None => s1.task,
        }));
        assert(fold_view(*f).tools == s1.tools);
        assert(fold_view(*f).msg_ts == s1.msg_ts);
        assert(str_or(at(v@, "message"@), "role"@, Seq::empty()) == "user"@);
        assert(fold_view(*f) == message_step(fold_view(*old(f)), v@));
    } else if same_text(role, "assistant") {
        usage_exec(f, at_exec(msg, "usage", &null));
        let ghost s2 = fold_view(*f);
        assert(s2 == usage_step(s1, at(at(v@, "message"@), "usage"@)));
        match as_array_exec(content) {
            Some(a) => {
                items_exec(f, a, &ts);
            },
            None => {},
        }
        f.message_count = if f.message_count == usize::MAX {
            f.message_count
        } else {
            f.message_count + 1
        };
        let ghost st = ItemsV { tools: s2.tools, tool: s2.tool, actions: s2.actions };
        assert(items_of(fold_view(*f)) == (match as_array(at(at(v@, "message"@), "content"@)) {
            Some(a) => items_after(st, a, str_at(v@, "timestamp"@)),
            None => st,
        }));
        assert(fold_view(*f).messages == sat_inc(s2.messages));
        assert(fold_view(*f).input == s2.input);
        assert(fold_view(*f).msg_ts == s2.msg_ts);
        assert(str_or(at(v@, "message"@), "role"@, Seq::empty()) == "assistant"@);
        assert(str_or(at(v@, "message"@), "role"@, Seq::empty()) != "user"@);
        assert(fold_view(*f) == message_step(fold_view(*old(f)), v@));
    } else {
        assert(str_or(at(v@, "message"@), "role"@, Seq::empty()) != "assistant"@);
        assert(str_or(at(v@, "message"@), "role"@, Seq::empty()) != "user"@);
        assert(fold_view(*f) == s1);
        assert(fold_view(*f) == message_step(fold_view(*old(f)), v@));
    }
}

fn line_exec(f: &mut MetricsFold, v: &Json)
    ensures
        fold_view(*final(f)) == line_step(fold_view(*old(f)), v@),
{
    proof {
        reveal_strlit("");
    }
    let ty = str_or_exec(v, "type", "");
    proof {
        assert(""@ =~= Seq::<char>::empty());
        reveal_strlit("session");
        reveal_strlit("model_change");
        reveal_strlit("thinking_level_change");
        reveal_strlit("message");
        reveal_strlit("custom");
    }
    match str_at_exec(v, "timestamp") {
        Some(ts) => {
            f.last_activity = Some(ts.to_string());
        },
        None => {},
    }
    if same_text(ty, "session") {
        f.session_start = opt_str(str_at_exec(v, "timestamp"));
    } else if same_text(ty, "model_change") {
        f.current_model = opt_str(str_at_exec(v, "modelId"));
    } else if same_text(ty, "thinking_level_change") {
        f.thinking_level = opt_str(str_at_exec(v, "thinkingLevel"));
    } else if same_text(ty, "message") {
        message_exec(f, v);
    } else if same_text(ty, "custom") && match str_at_exec(v, "customType") {
        Some(t) => contains_exec(&chars_of(t), &chars_of("error")),
        None => false,
    } {
        f.error_count = if f.error_count == usize::MAX {
            f.error_count
        } else {
            f.error_count + 1
        };
    }
}

/// A fold that has read nothing yet; `model` is the model the session
/// index names.
pub fn fold_start(model: Option<String>) -> (f: MetricsFold)
    ensures
        fold_view(f) == (FoldV {
            model: opt_view(model),
            thinking: None,
            total: 0,
            input: 0,
            output: 0,
            cache_read: 0,
            cache_write: 0,
            tools: Seq::empty(),
            actions: Seq::empty(),
            errors: 0,
            messages: 0,
            session_start: None,
            last_activity: None,
            task: None,
            tool: None,
            msg_ts: None,
        }),
{
    let f = MetricsFold {
        current_model: model,
        thinking_level: None,
        total_tokens: 0,
        input_tokens: 0,
        output_tokens: 0,
        cache_read_tokens: 0,
        cache_write_tokens: 0,
        tools: Vec::new(),
        actions: Vec::new(),
        error_count: 0,
        message_count: 0,
        session_start: None,
        last_activity: None,
        current_task: None,
        current_tool: None,
        message_timestamp: None,
    };
    assert(tools_view(f.tools@) =~= Seq::<(Seq<char>, usize)>::empty());
    assert(drafts_view(f.actions@) =~= Seq::<DraftV>::empty());
    f
}

pub open spec fn lines_view(lines: Seq<Option<Json>>) -> Seq<Option<JsonV>> {
    lines.map_values(|l: Option<Json>| match l {
        Some(j) => Some(j@),
        None => None,
    })
}

/// Reads the transcript lines into the fold (see `line_step`); lines that
/// did not parse are `None` and skipped.
pub fn fold_transcript(f: &mut MetricsFold, lines: &Vec<Option<Json>>)
    ensures
        fold_view(*final(f)) == fold_lines(fold_view(*old(f)), lines_view(lines@)),
{
    let ghost lv = lines_view(lines@);
    let ghost s0 = fold_view(*f);
    assert(lv.take(0) =~= Seq::<Option<JsonV>>::empty());
    let mut i: usize = 0;
    while i < lines.len()
        invariant
            i <= lines.len(),
            lv == lines_view(lines@),
            s0 == fold_view(*old(f)),
            fold_view(*f) == fold_lines(s0, lv.take(i as int)),
        decreases lines.len() - i,
    {
        assert(lv.take(i + 1).drop_last() =~= lv.take(i as int));
        assert(lv.take(i + 1).last() == lv[i as int]);
        match &lines[i] {
            Some(v) => {
                line_exec(f, v);
            },
            None => {},
        }
        i = i + 1;
    }
    assert(lv.take(lines.len() as int) =~= lv);
}


// ---------------------------------------------------------------------
// Finishing: tool statistics and recent actions
// ---------------------------------------------------------------------

/// Sorted by call count, most called first.
pub open spec fn counts_descending(t: Seq<(Seq<char>, usize)>) -> bool {
    forall|i: int, j: int| 0 <= i < j < t.len() ==> t[i].1 >= t[j].1
}

/// The tool statistics sorted by call count, most called first (tools
/// called equally often keep their order).
pub fn sort_tool_stats(v: Vec<ToolCallStat>) -> (r: Vec<ToolCallStat>)
    ensures
        counts_descending(tools_view(r@)),
        tools_view(r@).to_multiset() == tools_view(v@).to_multiset(),
{
    broadcast use vstd::seq_lib::group_to_multiset_ensures;

    let mut out: Vec<ToolCallStat> = Vec::new();
    let mut rest = v;
    let ghost src = tools_view(rest@);
    assert(tools_view(out@) =~= Seq::<(Seq<char>, usize)>::empty());
    // Take the elements out front to back by reversing once.
    let mut back: Vec<ToolCallStat> = Vec::new();
    while rest.len() > 0
        invariant
            tools_view(back@) + tools_view(rest@).reverse() == src.reverse(),
        decreases rest.len(),
    {
        let ghost r0 = rest@;
        let x = rest.pop().unwrap();
        let ghost b0 = back@;
        back.push(x);
        proof {
            assert(r0 == rest@.push(x));
            assert(tools_view(r0) =~= tools_view(rest@).push((x.name@, x.count)));
            assert(tools_view(r0).reverse() =~= seq![(x.name@, x.count)] + tools_view(rest@).reverse());
            assert(tools_view(back@) =~= tools_view(b0).push((x.name@, x.count)));
            assert(tools_view(back@) + tools_view(rest@).reverse() =~= tools_view(b0) + tools_view(r0).reverse());
        }
    }
    assert(tools_view(back@) =~= src.reverse());
    proof {
        src.lemma_reverse_to_multiset();
    }
    // `back` now holds the elements last to first; popping gives them in order.
    while back.len() > 0
        invariant
            counts_descending(tools_view(out@)),
            tools_view(out@).to_multiset().add(tools_view(back@).to_multiset())
                == src.to_multiset(),
        decreases back.len(),
    {
        let ghost b0 = back@;
        let x = back.pop().unwrap();
        proof {
            assert(b0 == back@.push(x));
            assert(tools_view(b0) =~= tools_view(back@).push((x.name@, x.count)));
        }
        let mut pos: usize = 0;
        while pos < out.len() && out[pos].count >= x.count
            invariant
                pos <= out.len(),
                forall|m: int| 0 <= m < pos ==> out@[m].count >= x.count,
            decreases out.len() - pos,
        {
            pos = pos + 1;
        }
        let ghost o0 = tools_view(out@);
        let ghost xv = (x.name@, x.count);
        out.insert(pos, x);
        proof {
            assert(tools_view(out@) =~= o0.insert(pos as int, xv));
            o0.insert_ensures(pos as int, xv);
            assert forall|i: int, j: int|
                0 <= i < j < tools_view(out@).len() implies tools_view(out@)[i].1 >= tools_view(
                out@,
            )[j].1 by {
                let t = tools_view(out@);
                if j < pos {
                } else if j == pos {
                    assert(t[i] == o0[i]);
                } else if i < pos {
                    assert(t[j] == o0[j - 1]);
                    if pos < o0.len() {
                        assert(o0[pos as int].1 < x.count);
                    }
                } else if i == pos {
                    assert(t[j] == o0[j - 1]);
                    assert(o0[pos as int].1 < x.count);
                    if j - 1 > pos {
                        assert(o0[pos as int].1 >= o0[j - 1].1);
                    }
                } else {
                    assert(t[i] == o0[i - 1]);
                    assert(t[j] == o0[j - 1]);
                }
            }
            vstd::seq_lib::to_multiset_insert(o0, pos as int, xv);
            vstd::seq_lib::to_multiset_build(tools_view(back@), xv);
            assert(tools_view(b0).to_multiset() =~= tools_view(back@).to_multiset().insert(xv));
            assert(tools_view(out@).to_multiset().add(tools_view(back@).to_multiset())
                =~= o0.to_multiset().add(tools_view(b0).to_multiset()));
        }
    }
    assert(tools_view(back@).to_multiset() =~= vstd::multiset::Multiset::empty());
    assert(tools_view(out@).to_multiset() =~= src.to_multiset());
    out
}

/// The text of a tool input's value: strings up to 300 bytes, other
/// values as JSON text (`txt`) up to 100 bytes.
pub open spec fn value_text(v: JsonV, txt: spec_fn(JsonV) -> Seq<char>) -> Seq<char> {
    match as_str(v) {
        Some(s) => truncated(s, 300),
        None => truncated(txt(v), 100),
    }
}

/// The `key: value` lines of a tool input, joined by newlines.
pub open spec fn detail_lines(es: Seq<(Seq<char>, JsonV)>, txt: spec_fn(JsonV) -> Seq<char>) -> Seq<
    char,
>
    decreases es.len(),
{
    if es.len() == 0 {
        Seq::empty()
    } else {
        let line = es.last().0 + ": "@ + value_text(es.last().1, txt);
        if es.len() == 1 {
            line
        } else {
            detail_lines(es.drop_last(), txt) + "\n"@ + line
        }
    }
}

/// The detail of a tool call: its input's lines, when the input is an
/// object with members.
pub open spec fn tool_detail(input: JsonV, txt: spec_fn(JsonV) -> Seq<char>) -> Option<Seq<char>> {
    match input {
        JsonV::Object(es) => if es.len() > 0 {
            Some(detail_lines(es, txt))
        } else {
            None
        },
        _ => None,
    }
}

/// `render` writes each value as the JSON text `txt` gives.
pub open spec fn renders_as<F: Fn(&Json) -> String>(render: F, txt: spec_fn(JsonV) -> Seq<char>) -> bool {
    forall|v: &Json, s: String| #[trigger] render.ensures((v,), s) ==> s@ == txt(v@)
}

/// The detail of a tool call with input `input`; `render` writes a JSON
/// value as text.
pub fn tool_call_detail<F: Fn(&Json) -> String>(input: &Json, render: &F) -> (r: Option<String>)
    requires
        forall|v: &Json| render.requires((v,)),
    ensures
        forall|txt: spec_fn(JsonV) -> Seq<char>|
            renders_as(*render, txt) ==> opt_view(r) == tool_detail(input@, txt),
{
    match input {
        Json::Object(es) => {
            if es.len() == 0 {
                proof {
                    lemma_jv_entries_len(es@);
                }
                return None;
            }
            proof {
                lemma_jv_entries_len(es@);
            }
            let ghost ev = jv_entries(es@);
            let mut out: Vec<char> = Vec::new();
            let mut i: usize = 0;
            while i < es.len()
                invariant
                    i <= es.len(),
                    ev == jv_entries(es@),
                    ev.len() == es.len(),
                    forall|k: int| 0 <= k < es.len() ==> #[trigger] ev[k] == (es@[k].0@, jv(es@[k].1)),
                    forall|v: &Json| render.requires((v,)),
                    forall|txt: spec_fn(JsonV) -> Seq<char>|
                        renders_as(*render, txt) ==> out@ == detail_lines(ev.take(i as int), txt),
                decreases es.len() - i,
            {
                let v = &es[i].1;
                let vt: Vec<char> = match as_str_exec(v) {
                    Some(sv) => truncate_chars(&chars_of(sv), 300),
                    None => {
                        let rendered = render(v);
                        proof {
                            assert forall|txt: spec_fn(JsonV) -> Seq<char>|
                                renders_as(*render, txt) implies rendered@ == txt(v@) by {
                                assert(render.ensures((v,), rendered));
                            }
                        }
                        truncate_chars(&chars_of(rendered.as_str()), 100)
                    },
                };
                let ghost prev = out@;
                if i > 0 {
                    out.push('\n');
                }
                let key = chars_of(es[i].0.as_str());
                proof {
                    reveal_strlit("\n");
                    assert(out@ =~= (if i > 0 {
                        prev + "\n"@
                    } else {
                        prev
                    }) + key@.take(0));
                }
                let mut k: usize = 0;
                while k < key.len()
                    invariant
                        k <= key.len(),
                        out@ == (if i > 0 { prev + "\n"@ } else { prev }) + key@.take(k as int),
                    decreases key.len() - k,
                {
                    out.push(key[k]);
                    assert(key@.take(k + 1) =~= key@.take(k as int).push(key@[k as int]));
                    k = k + 1;
                }
                out.push(':');
                out.push(' ');
                let mut m: usize = 0;
                let ghost mid = out@;
                while m < vt.len()
                    invariant
                        m <= vt.len(),
                        out@ == mid + vt@.take(m as int),
                    decreases vt.len() - m,
                {
                    out.push(vt[m]);
                    assert(vt@.take(m + 1) =~= vt@.take(m as int).push(vt@[m as int]));
                    m = m + 1;
                }
                proof {
                    reveal_strlit("\n");
                    reveal_strlit(": ");
                    assert(key@.take(key.len() as int) =~= key@);
                    assert(vt@.take(vt.len() as int) =~= vt@);
                    assert(ev.take(i + 1).drop_last() =~= ev.take(i as int));
                    assert(ev.take(i + 1).last() == ev[i as int]);
                    assert forall|txt: spec_fn(JsonV) -> Seq<char>|
                        renders_as(*render, txt) implies out@ == detail_lines(ev.take(i + 1), txt) by {
                        assert(vt@ == value_text(ev[i as int].1, txt));
                        if i == 0 {
                            assert(prev =~= Seq::<char>::empty());
                            assert(out@ =~= ev[i as int].0 + ": "@ + value_text(ev[i as int].1, txt));
                        } else {
                            assert(out@ =~= prev + "\n"@ + (ev[i as int].0 + ": "@ + value_text(
                                ev[i as int].1,
                                txt,
                            )));
                        }
                    }
                }
                i = i + 1;
            }
            assert(ev.take(es.len() as int) =~= ev);
            Some(string_of(out.as_slice()))
        },
        _ => None,
    }
}


/// The last three actions (all of them when fewer), most recent first.
pub open spec fn recent_drafts(a: Seq<DraftV>) -> Seq<DraftV> {
    (if a.len() > 3 {
        a.skip(a.len() - 3)
    } else {
        a
    }).reverse()
}

/// The view of a finished action: type, summary, detail, timestamp.
pub open spec fn finished(d: DraftV, txt: spec_fn(JsonV) -> Seq<char>) -> (
    Seq<char>,
    Seq<char>,
    Option<Seq<char>>,
    Option<Seq<char>>,
) {
    (
        d.action_type,
        d.summary,
        match d.input {
            Some(i) => tool_detail(i, txt),
            None => d.detail,
        },
        d.timestamp,
    )
}

pub open spec fn action_view(a: RecentAction) -> (
    Seq<char>,
    Seq<char>,
    Option<Seq<char>>,
    Option<Seq<char>>,
) {
    (a.action_type@, a.summary@, opt_view(a.detail), opt_view(a.timestamp))
}

pub open spec fn actions_view(s: Seq<RecentAction>) -> Seq<
    (Seq<char>, Seq<char>, Option<Seq<char>>, Option<Seq<char>>),
> {
    s.map_values(|a: RecentAction| action_view(a))
}

/// The last three actions, most recent first, with the details of tool
/// calls written (`render` writes a JSON value as text).
pub fn recent_actions<F: Fn(&Json) -> String>(actions: &Vec<ActionDraft>, render: &F) -> (r: Vec<
    RecentAction,
>)
    requires
        forall|v: &Json| render.requires((v,)),
    ensures
        forall|txt: spec_fn(JsonV) -> Seq<char>|
            renders_as(*render, txt) ==> actions_view(r@) == recent_drafts(
                drafts_view(actions@),
            ).map_values(|d: DraftV| finished(d, txt)),
{
    let ghost a = drafts_view(actions@);
    let n = actions.len();
    let lo: usize = if n > 3 {
        n - 3
    } else {
        0
    };
    let ghost kept = if a.len() > 3 {
        a.skip(a.len() - 3)
    } else {
        a
    };
    assert(kept =~= a.skip(lo as int));
    let mut out: Vec<RecentAction> = Vec::new();
    let mut i: usize = n;
    while i > lo
        invariant
            lo <= i <= n == actions.len(),
            a == drafts_view(actions@),
            kept == a.skip(lo as int),
            forall|v: &Json| render.requires((v,)),
            forall|txt: spec_fn(JsonV) -> Seq<char>|
                renders_as(*render, txt) ==> actions_view(out@) == a.skip(i as int).reverse().map_values(
                    |d: DraftV| finished(d, txt),
                ),
        decreases i - lo,
    {
        i = i - 1;
        let d = &actions[i];
        let detail = match &d.input {
            Some(inp) => tool_call_detail(inp, render),
            None => match &d.detail {
                Some(t) => Some(t.clone()),
                None => None,
            },
        };
        let ra = RecentAction {
            action_type: d.action_type.clone(),
            summary: d.summary.clone(),
            detail,
            timestamp: match &d.timestamp {
                Some(t) => Some(t.clone()),
                None => None,
            },
        };
        let ghost before = out@;
        out.push(ra);
        proof {
            assert(a[i as int] == draft_view(actions@[i as int]));
            assert(a.skip(i as int).reverse() =~= a.skip(i + 1).reverse().push(a[i as int]));
            assert forall|txt: spec_fn(JsonV) -> Seq<char>|
                renders_as(*render, txt) implies actions_view(out@) == a.skip(i as int).reverse().map_values(
                |d: DraftV| finished(d, txt),
            ) by {
                assert(action_view(ra) == finished(a[i as int], txt));
                assert(actions_view(out@) =~= actions_view(before).push(action_view(ra)));
                assert(a.skip(i as int).reverse().map_values(|d: DraftV| finished(d, txt))
                    =~= a.skip(i + 1).reverse().map_values(|d: DraftV| finished(d, txt)).push(
                    finished(a[i as int], txt),
                ));
            }
        }
    }
    out
}

// ---------------------------------------------------------------------
// The session index
// ---------------------------------------------------------------------

/// `updatedAt`, 0 when absent.
pub open spec fn updated_or_zero(v: JsonV) -> u64 {
    match as_u64(at(v, "updatedAt"@)) {
        Some(n) => n,
        None => 0,
    }
}

/// The most recently updated entry (the last of equally recent ones).
pub open spec fn best_entry(es: Seq<(Seq<char>, JsonV)>) -> Option<JsonV>
    decreases es.len(),
{
    if es.len() == 0 {
        None
    } else {
        match best_entry(es.drop_last()) {
            None => Some(es.last().1),
            Some(b) => if updated_or_zero(es.last().1) >= updated_or_zero(b) {
                Some(es.last().1)
            } else {
                Some(b)
            },
        }
    }
}

/// The session file updated last (the first of equally recent ones),
/// among entries naming a file and an update time.
pub open spec fn best_session(es: Seq<(Seq<char>, JsonV)>) -> Option<(Seq<char>, u64)>
    decreases es.len(),
{
    if es.len() == 0 {
        None
    } else {
        let prev = best_session(es.drop_last());
        let v = es.last().1;
        match (str_at(v, "sessionFile"@), as_u64(at(v, "updatedAt"@))) {
            (Some(f), Some(u)) => match prev {
                None => Some((f, u)),
                Some(p) => if u > p.1 {
                    Some((f, u))
                } else {
                    prev
                },
            },
            _ => prev,
        }
    }
}

/// What the session index tells the metrics.
#[derive(Debug, PartialEq, Eq)]
pub struct SessionIndexInfo {
    pub session_count: usize,
    pub channel: Option<String>,
    pub model: Option<String>,
    pub session_file: Option<String>,
}

/// The entries of an index; an index that is no object has none.
pub open spec fn index_entries(index: JsonV) -> Seq<(Seq<char>, JsonV)> {
    match index {
        JsonV::Object(es) => es,
        _ => Seq::empty(),
    }
}

/// Reads the session index: how many sessions it lists, the channel
/// (`origin.surface`) and model of the most recently updated one, and the
/// most recent session file.
pub fn read_session_index(index: &Json) -> (r: SessionIndexInfo)
    ensures
        r.session_count == index_entries(index@).len(),
        opt_view(r.channel) == (match best_entry(index_entries(index@)) {
            Some(b) => str_at(at(b, "origin"@), "surface"@),
            None => None,
        }),
        opt_view(r.model) == (match best_entry(index_entries(index@)) {
            Some(b) => str_at(b, "model"@),
            None => None,
        }),
        opt_view(r.session_file) == (match best_session(index_entries(index@)) {
            Some(p) => Some(p.0),
            None => None,
        }),
{
    let empty: Vec<(String, Json)> = Vec::new();
    let es: &Vec<(String, Json)> = match index {
        Json::Object(es) => es,
        _ => &empty,
    };
    proof {
        lemma_jv_entries_len(es@);
        assert(jv_entries(empty@) =~= Seq::<(Seq<char>, JsonV)>::empty());
    }
    let ghost ev = jv_entries(es@);
    assert(ev == index_entries(index@));
    let null = Json::Null;
    let mut best: Option<usize> = None;
    let mut bs: Option<(usize, u64)> = None;
    let mut i: usize = 0;
    assert(ev.take(0) =~= Seq::<(Seq<char>, JsonV)>::empty());
    while i < es.len()
        invariant
            i <= es.len(),
            ev == jv_entries(es@),
            ev.len() == es.len(),
            null@ == JsonV::Null,
            forall|k: int| 0 <= k < es.len() ==> #[trigger] ev[k] == (es@[k].0@, jv(es@[k].1)),
            match best {
                Some(b) => b < i && best_entry(ev.take(i as int)) == Some(ev[b as int].1),
                None => best_entry(ev.take(i as int)) is None,
            },
            match bs {
                Some(p) => p.0 < i && str_at(ev[p.0 as int].1, "sessionFile"@) is Some && best_session(
                    ev.take(i as int),
                ) == Some((str_at(ev[p.0 as int].1, "sessionFile"@)->0, p.1)),
                None => best_session(ev.take(i as int)) is None,
            },
        decreases es.len() - i,
    {
        assert(ev.take(i + 1).drop_last() =~= ev.take(i as int));
        assert(ev.take(i + 1).last() == ev[i as int]);
        let v = &es[i].1;
        let upd = as_u64_exec(at_exec(v, "updatedAt", &null));
        let u0: u64 = match upd {
            Some(n) => n,
            None => 0,
        };
        best = match best {
            None => Some(i),
            Some(b) => {
                let bu: u64 = match as_u64_exec(at_exec(&es[b].1, "updatedAt", &null)) {
                    Some(n) => n,
                    None => 0,
                };
                if u0 >= bu {
                    Some(i)
                } else {
                    Some(b)
                }
            },
        };
        match (str_at_exec(v, "sessionFile"), upd) {
            (Some(_), Some(u)) => {
                bs = match bs {
                    None => Some((i, u)),
                    Some(p) => if u > p.1 {
                        Some((i, u))
                    } else {
                        Some(p)
                    },
                };
            },
            _ => {},
        }
        i = i + 1;
    }
    assert(ev.take(es.len() as int) =~= ev);
    let (channel, model) = match best {
        Some(b) => {
            let e = &es[b].1;
            (opt_str(str_at_exec(at_exec(e, "origin", &null), "surface")), opt_str(str_at_exec(e, "model")))
        },
        None => (None, None),
    };
    let session_file = match bs {
        Some(p) => opt_str(str_at_exec(&es[p.0].1, "sessionFile")),
        None => None,
    };
    SessionIndexInfo { session_count: es.len(), channel, model, session_file }
}


// ---------------------------------------------------------------------
// The metrics of an agent
// ---------------------------------------------------------------------

/// An agent's metrics (its cost, a floating-point sum, is added outside).
#[derive(Debug, PartialEq, Eq)]
pub struct MetricsSummary {
    pub agent_id: String,
    pub active: bool,
    pub current_model: Option<String>,
    pub thinking_level: Option<String>,
    pub active_session_count: usize,
    pub current_task: Option<String>,
    pub current_tool: Option<String>,
    pub total_tokens: u64,
    pub input_tokens: u64,
    pub output_tokens: u64,
    pub cache_read_tokens: u64,
    pub cache_write_tokens: u64,
    pub tool_calls: Vec<ToolCallStat>,
    pub recent_actions: Vec<RecentAction>,
    pub error_count: usize,
    pub message_count: usize,
    pub session_start: Option<String>,
    pub last_activity: Option<String>,
    pub channel: Option<String>,
}

fn clone_opt(o: &Option<String>) -> (r: Option<String>)
    ensures
        opt_view(r) == opt_view(*o),
{
    match o {
        Some(s) => Some(s.clone()),
        None => None,
    }
}

/// The metrics of agent `agent_id` from its session index and, when the
/// most recent transcript could be read, the fold over it (started with
/// the index's model): the index gives the session count and channel; the
/// transcript everything else, with the tools sorted by calls and the last
/// three actions, most recent first.  Without a transcript only the
/// index's model, channel and count are known.
pub fn summarize_metrics<F: Fn(&Json) -> String>(
    agent_id: &str,
    active: bool,
    index: &SessionIndexInfo,
    fold: Option<MetricsFold>,
    render: &F,
) -> (r: MetricsSummary)
    requires
        forall|v: &Json| render.requires((v,)),
    ensures
        r.agent_id@ == agent_id@,
        r.active == active,
        r.active_session_count == index.session_count,
        opt_view(r.channel) == opt_view(index.channel),
        fold is None ==> {
            &&& opt_view(r.current_model) == opt_view(index.model)
            &&& r.thinking_level is None && r.current_task is None && r.current_tool is None
            &&& r.total_tokens == 0 && r.input_tokens == 0 && r.output_tokens == 0
            &&& r.cache_read_tokens == 0 && r.cache_write_tokens == 0
            &&& r.tool_calls@.len() == 0 && r.recent_actions@.len() == 0
            &&& r.error_count == 0 && r.message_count == 0
            &&& r.session_start is None && r.last_activity is None
        },
        fold matches Some(f) ==> {
            let v = fold_view(f);
            &&& opt_view(r.current_model) == v.model
            &&& opt_view(r.thinking_level) == v.thinking
            &&& opt_view(r.current_task) == v.task
            &&& opt_view(r.current_tool) == v.tool
            &&& r.total_tokens == v.total && r.input_tokens == v.input
            &&& r.output_tokens == v.output && r.cache_read_tokens == v.cache_read
            &&& r.cache_write_tokens == v.cache_write
            &&& counts_descending(tools_view(r.tool_calls@))
            &&& tools_view(r.tool_calls@).to_multiset() == v.tools.to_multiset()
            &&& forall|txt: spec_fn(JsonV) -> Seq<char>|
                renders_as(*render, txt) ==> actions_view(r.recent_actions@) == recent_drafts(
                    v.actions,
                ).map_values(|d: DraftV| finished(d, txt))
            &&& r.error_count == v.errors && r.message_count == v.messages
            &&& opt_view(r.session_start) == v.session_start
            &&& opt_view(r.last_activity) == v.last_activity
        },
{
    match fold {
        None => MetricsSummary {
            agent_id: agent_id.to_string(),
            active,
            current_model: clone_opt(&index.model),
            thinking_level: None,
            active_session_count: index.session_count,
            current_task: None,
            current_tool: None,
            total_tokens: 0,
            input_tokens: 0,
            output_tokens: 0,
            cache_read_tokens: 0,
            cache_write_tokens: 0,
            tool_calls: Vec::new(),
            recent_actions: Vec::new(),
            error_count: 0,
            message_count: 0,
            session_start: None,
            last_activity: None,
            channel: clone_opt(&index.channel),
        },
        Some(f) => {
            let recent = recent_actions(&f.actions, render);
            let MetricsFold {
                current_model,
                thinking_level,
                total_tokens,
                input_tokens,
                output_tokens,
                cache_read_tokens,
                cache_write_tokens,
                tools,
                actions: _,
                error_count,
                message_count,
                session_start,
                last_activity,
                current_task,
                current_tool,
                message_timestamp: _,
            } = f;
            MetricsSummary {
                agent_id: agent_id.to_string(),
                active,
                current_model,
                thinking_level,
                active_session_count: index.session_count,
                current_task,
                current_tool,
                total_tokens,
                input_tokens,
                output_tokens,
                cache_read_tokens,
                cache_write_tokens,
                tool_calls: sort_tool_stats(tools),
                recent_actions: recent,
                error_count,
                message_count,
                session_start,
                last_activity,
                channel: clone_opt(&index.channel),
            }
        },
    }
}

} // verus!
