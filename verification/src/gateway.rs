//! Agent gateway helpers: session lists, activity detection, health and
//! the paths of `sessions.json`.
use vstd::prelude::*;
use crate::json::{
    Json, JsonV, jv, jv_list, get, at, as_str, as_u64, as_bool, as_array, is_object, str_at,
    get_exec, as_str_exec, as_u64_exec, as_bool_exec, as_array_exec, is_object_exec, str_at_exec,
    json_clone, lemma_jv_list_len, lemma_jv_list_push, jv_entries, lemma_jv_entries_len,
};
use crate::text::{
    chars_of, string_of, cat, find, find_exec, rfind, rfind_exec, starts_with, starts_with_exec,
    ends_with, ends_with_exec, lines, lines_exec, views, trim, trim_exec, skip_past, take_exec,
    lemma_find_from_bounds, lemma_rfind_bounds, occurs_at,
};
use crate::types::{AgentHealth, SessionHealth, SessionInfo, AgentInfo, opt_view};

verus! {

broadcast use vstd::string::group_string_axioms;

/// An owned copy of an optional string slice.
pub fn opt_string(o: Option<&str>) -> (r: Option<String>)
    ensures
        opt_view(r) == (match o {
            Some(s) => Some(s@),
            None => None::<Seq<char>>,
        }),
{
    match o {
        Some(s) => Some(s.to_string()),
        None => None,
    }
}

// ---------------------------------------------------------------------
// Queue status
// ---------------------------------------------------------------------

/// `line.split("Queue:").nth(1)`: the text between the first `Queue:` and
/// the next one (or the end of the line).
pub open spec fn queue_part(line: Seq<char>) -> Option<Seq<char>> {
    match find(line, "Queue:"@) {
        None => None,
        Some(a) => {
            let rest = line.skip(a + 6);
            match find(rest, "Queue:"@) {
                Some(b) => Some(rest.take(b)),
                None => Some(rest),
            }
        },
    }
}

/// A status line whose queue is neither collecting, idle nor waiting.
pub open spec fn queue_line_active(line: Seq<char>) -> bool {
    match queue_part(line) {
        Some(q) => {
            let t = trim(q);
            !starts_with(t, "collect"@) && !starts_with(t, "idle"@) && !starts_with(t, "waiting"@)
        },
        None => false,
    }
}

/// Some line of a session status text shows an active queue.
pub open spec fn queue_active(text: Seq<char>) -> bool {
    exists|i: int| 0 <= i < lines(text).len() && queue_line_active(#[trigger] lines(text)[i])
}

pub(crate) fn queue_part_exec(line: &Vec<char>) -> (r: Option<Vec<char>>)
    ensures
        r matches Some(v) ==> queue_part(line@) == Some(v@),
        r is None ==> queue_part(line@) is None,
{
    let tag = chars_of("Queue:");
    match find_exec(line, &tag) {
        None => None,
        Some(a) => {
            proof {
                reveal_strlit("Queue:");
                lemma_find_from_bounds(line@, tag@, 0);
            }
            let rest = skip_past(line, a, 6);
            match find_exec(&rest, &tag) {
                Some(b) => {
                    proof {
                        lemma_find_from_bounds(rest@, tag@, 0);
                    }
                    Some(take_exec(&rest, b))
                },
                None => Some(rest),
            }
        },
    }
}

fn queue_line_active_exec(line: &Vec<char>) -> (r: bool)
    ensures
        r == queue_line_active(line@),
{
    match queue_part_exec(line) {
        Some(q) => {
            let t = trim_exec(&q);
            !starts_with_exec(&t, &chars_of("collect")) && !starts_with_exec(
                &t,
                &chars_of("idle"),
            ) && !starts_with_exec(&t, &chars_of("waiting"))
        },
        None => false,
    }
}

/// A queue state that is not at work: collecting, idle or waiting.
pub open spec fn resting_state(k: Seq<char>) -> bool {
    k == "collect"@ || k == "idle"@ || k == "waiting"@
}

/// Text made of whitespace only.
pub open spec fn all_ws(sp: Seq<char>) -> bool {
    forall|i: int| 0 <= i < sp.len() ==> crate::text::is_ws(#[trigger] sp[i])
}

proof fn lemma_resting_chars(k: Seq<char>)
    requires
        resting_state(k),
    ensures
        k.len() > 0,
        forall|i: int| 0 <= i < k.len() ==> #[trigger] k[i] != 'Q' && !crate::text::is_ws(k[i]),
{
    reveal_strlit("collect");
    reveal_strlit("idle");
    reveal_strlit("waiting");
}

/// `Queue:` first occurs right after a prefix that holds none.
proof fn lemma_queue_tag_at(pre: Seq<char>, rest: Seq<char>)
    requires
        !crate::text::contains(pre, "Queue:"@),
    ensures
        find(pre + "Queue:"@ + rest, "Queue:"@) == Some(pre.len() as int),
{
    reveal_strlit("Queue:");
    let q = "Queue:"@;
    let line = pre + q + rest;
    let n = pre.len() as int;
    assert(line.subrange(n, n + 6) =~= q);
    assert(occurs_at(line, q, n));
    lemma_find_from_bounds(pre, q, 0);
    lemma_find_from_bounds(line, q, 0);
    assert forall|m: int| 0 <= m < n implies !occurs_at(line, q, m) by {
        if occurs_at(line, q, m) {
            if m + 6 <= n {
                assert(pre.subrange(m, m + 6) =~= line.subrange(m, m + 6));
                assert(occurs_at(pre, q, m));
            } else {
                let d = n - m;
                assert(line.subrange(m, m + 6)[d] == line[n]);
                assert(line[n] == 'Q');
                assert(q[d] != 'Q');
            }
        }
    }
}

proof fn lemma_skip_ws_over(q: Seq<char>, n: int, i: int)
    requires
        0 <= i <= n < q.len(),
        forall|j: int| 0 <= j < n ==> crate::text::is_ws(#[trigger] q[j]),
        !crate::text::is_ws(q[n]),
    ensures
        crate::text::skip_ws(q, i) == n,
    decreases n - i,
{
    if i < n {
        lemma_skip_ws_over(q, n, i + 1);
    }
}

proof fn lemma_back_ws_floor(t: Seq<char>, m: int, j: int)
    requires
        0 < m <= j <= t.len(),
        !crate::text::is_ws(t[m - 1]),
    ensures
        m <= crate::text::back_ws(t, 0, j) <= j,
    decreases j - m,
{
    if j > m {
        if crate::text::is_ws(t[j - 1]) {
            lemma_back_ws_floor(t, m, j - 1);
        }
    }
}

/// After a prefix without `Queue:`, `Queue:`, blanks and a state `k`
/// (no `Q`, starting and ending with non-blanks), the line's queue part
/// trims to text that starts with `k`.
proof fn lemma_queue_state_prefix(pre: Seq<char>, sp: Seq<char>, k: Seq<char>, post: Seq<char>)
    requires
        !crate::text::contains(pre, "Queue:"@),
        all_ws(sp),
        k.len() > 0,
        forall|i: int| 0 <= i < k.len() ==> #[trigger] k[i] != 'Q',
        !crate::text::is_ws(k[0]),
        !crate::text::is_ws(k[k.len() - 1]),
    ensures
        queue_part(pre + "Queue:"@ + sp + k + post) matches Some(part) && starts_with(trim(part), k),
{
    reveal_strlit("Queue:");
    let q = "Queue:"@;
    let rest = sp + k + post;
    let line = pre + q + sp + k + post;
    assert(line =~= pre + q + rest);
    lemma_queue_tag_at(pre, rest);
    assert(line.skip(pre.len() + 6int) =~= rest);
    let n = sp.len() + k.len();
    let part: Seq<char> = match find(rest, q) {
        Some(b) => rest.take(b),
        None => rest,
    };
    assert(queue_part(line) == Some(part));
    lemma_find_from_bounds(rest, q, 0);
    if let Some(b) = find(rest, q) {
        if b < n {
            assert(rest.subrange(b, b + 6)[0] == rest[b]);
            if b < sp.len() {
                assert(rest[b] == sp[b]);
                assert(crate::text::is_ws(sp[b]));
            } else {
                assert(rest[b] == k[b - sp.len()]);
            }
        }
    }
    assert(part.len() >= n);
    assert forall|j: int| 0 <= j < n implies #[trigger] part[j] == (sp + k)[j] by {}
    assert forall|j: int| 0 <= j < sp.len() implies crate::text::is_ws(#[trigger] part[j]) by {
        assert(part[j] == sp[j]);
    }
    assert(part[sp.len() as int] == k[0]);
    lemma_skip_ws_over(part, sp.len() as int, 0);
    let t = crate::text::trim_start(part);
    assert(t =~= part.subrange(sp.len() as int, part.len() as int));
    assert(t.len() >= k.len());
    assert(t[k.len() - 1] == k[k.len() - 1]);
    lemma_back_ws_floor(t, k.len() as int, t.len() as int);
    let tr = trim(part);
    assert(tr == t.subrange(0, crate::text::back_ws(t, 0, t.len() as int)));
    assert(tr.subrange(0, k.len() as int) =~= k);
}

/// A status line whose first `Queue:` is followed by blanks and a resting
/// state (`collect`, `idle` or `waiting`) never shows an active queue,
/// whatever precedes or follows it.
pub proof fn law_resting_queue_line(pre: Seq<char>, sp: Seq<char>, k: Seq<char>, post: Seq<char>)
    requires
        !crate::text::contains(pre, "Queue:"@),
        all_ws(sp),
        resting_state(k),
    ensures
        !queue_line_active(pre + "Queue:"@ + sp + k + post),
{
    lemma_resting_chars(k);
    lemma_queue_state_prefix(pre, sp, k, post);
}

/// A status line whose first `Queue:` is followed by blanks and a state of
/// at least seven characters that does not start with `collect`, `idle`
/// or `waiting` (such as `running`) shows an active queue.
pub proof fn law_working_queue_line(pre: Seq<char>, sp: Seq<char>, k: Seq<char>, post: Seq<char>)
    requires
        !crate::text::contains(pre, "Queue:"@),
        all_ws(sp),
        k.len() >= 7,
        forall|i: int| 0 <= i < k.len() ==> #[trigger] k[i] != 'Q',
        !crate::text::is_ws(k[0]),
        !crate::text::is_ws(k[k.len() - 1]),
        !starts_with(k, "collect"@),
        !starts_with(k, "idle"@),
        !starts_with(k, "waiting"@),
    ensures
        queue_line_active(pre + "Queue:"@ + sp + k + post),
{
    reveal_strlit("collect");
    reveal_strlit("idle");
    reveal_strlit("waiting");
    lemma_queue_state_prefix(pre, sp, k, post);
    let part = queue_part(pre + "Queue:"@ + sp + k + post)->0;
    let tr = trim(part);
    assert(tr.subrange(0, 7) =~= k.subrange(0, 7));
    assert(tr.subrange(0, 4) =~= k.subrange(0, 4));
}

/// A status text with a line that shows a working queue (see
/// `law_working_queue_line`) is active.
pub proof fn law_working_queue_text(text: Seq<char>, i: int, pre: Seq<char>, sp: Seq<char>, k: Seq<char>, post: Seq<char>)
    requires
        0 <= i < lines(text).len(),
        lines(text)[i] == pre + "Queue:"@ + sp + k + post,
        !crate::text::contains(pre, "Queue:"@),
        all_ws(sp),
        k.len() >= 7,
        forall|j: int| 0 <= j < k.len() ==> #[trigger] k[j] != 'Q',
        !crate::text::is_ws(k[0]),
        !crate::text::is_ws(k[k.len() - 1]),
        !starts_with(k, "collect"@),
        !starts_with(k, "idle"@),
        !starts_with(k, "waiting"@),
    ensures
        queue_active(text),
{
    law_working_queue_line(pre, sp, k, post);
}

/// A status text none of whose lines shows a working queue is not active:
/// each line holds no `Queue:` or shows a resting state after its first
/// `Queue:` (see `law_resting_queue_line`).
pub proof fn law_resting_queue_text(text: Seq<char>)
    requires
        forall|i: int|
            0 <= i < lines(text).len() ==> !crate::text::contains(#[trigger] lines(text)[i], "Queue:"@)
                || exists|pre: Seq<char>, sp: Seq<char>, k: Seq<char>, post: Seq<char>|
                lines(text)[i] == pre + "Queue:"@ + sp + k + post && !crate::text::contains(
                    pre,
                    "Queue:"@,
                ) && all_ws(sp) && resting_state(k),
    ensures
        !queue_active(text),
{
    assert forall|i: int| 0 <= i < lines(text).len() implies !queue_line_active(
        #[trigger] lines(text)[i],
    ) by {
        let l = lines(text)[i];
        if crate::text::contains(l, "Queue:"@) {
            let (pre, sp, k, post) = choose|pre: Seq<char>, sp: Seq<char>, k: Seq<char>, post: Seq<char>|
                l == pre + "Queue:"@ + sp + k + post && !crate::text::contains(pre, "Queue:"@)
                    && all_ws(sp) && resting_state(k);
            law_resting_queue_line(pre, sp, k, post);
        }
    }
}

/// Checks the `Queue:` status in a session status text.
pub fn is_queue_active(status_text: &str) -> (r: bool)
    ensures
        r == queue_active(status_text@),
{
    let cs = chars_of(status_text);
    let ls = lines_exec(&cs);
    let ghost gl = views(ls@);
    let mut i: usize = 0;
    while i < ls.len()
        invariant
            i <= ls.len(),
            gl == views(ls@),
            gl == lines(status_text@),
            forall|k: int| 0 <= k < i ==> !queue_line_active(#[trigger] gl[k]),
        decreases ls.len() - i,
    {
        if queue_line_active_exec(&ls[i]) {
            assert(gl[i as int] == ls@[i as int]@);
            return true;
        }
        assert(gl[i as int] == ls@[i as int]@);
        i = i + 1;
    }
    false
}

// ---------------------------------------------------------------------
// Session lists and activity
// ---------------------------------------------------------------------

/// The sessions in a gateway reply: `result.details.sessions` (new format)
/// or the `result` array (old format), `result` defaulting to the reply.
pub open spec fn sessions_of(result: JsonV) -> Seq<JsonV> {
    let r = match get(result, "result"@) {
        Some(x) => x,
        None => result,
    };
    let det = get(r, "details"@);
    match det {
        Some(d) => match get(d, "sessions"@) {
            Some(JsonV::Array(a)) => a,
            _ => match r {
                JsonV::Array(a) => a,
                _ => Seq::empty(),
            },
        },
        None => match r {
            JsonV::Array(a) => a,
            _ => Seq::empty(),
        },
    }
}

fn clone_list(v: &Vec<Json>) -> (r: Vec<Json>)
    ensures
        jv_list(r@) == jv_list(v@),
{
    let mut out: Vec<Json> = Vec::new();
    let mut i: usize = 0;
    while i < v.len()
        invariant
            i <= v.len(),
            jv_list(out@) == jv_list(v@.take(i as int)),
        decreases v.len() - i,
    {
        let c = json_clone(&v[i]);
        proof {
            lemma_jv_list_push(out@, c);
            lemma_jv_list_push(v@.take(i as int), v@[i as int]);
            assert(v@.take(i as int).push(v@[i as int]) =~= v@.take(i + 1));
        }
        out.push(c);
        i = i + 1;
    }
    assert(v@.take(v.len() as int) =~= v@);
    out
}

/// Extracts the sessions array from a gateway reply, in both reply formats.
pub fn extract_sessions(result: &Json) -> (r: Vec<Json>)
    ensures
        jv_list(r@) == sessions_of(result@),
{
    let r = match get_exec(result, "result") {
        Some(x) => x,
        None => result,
    };
    match get_exec(r, "details") {
        Some(d) => match get_exec(d, "sessions") {
            Some(Json::Array(a)) => {
                return clone_list(a);
            },
            _ => {},
        },
        None => {},
    }
    match r {
        Json::Array(a) => clone_list(a),
        _ => {
            let v: Vec<Json> = Vec::new();
            v
        },
    }
}

/// A session is active when its `active` flag says so; without the flag,
/// when it was updated less than 3 s before `now_ms`.
pub open spec fn session_active_at(s: JsonV, now_ms: u64) -> bool {
    match get(s, "active"@) {
        Some(JsonV::Bool(b)) => b,
        _ => match get(s, "updatedAt"@) {
            Some(x) => match as_u64(x) {
                Some(u) => (if now_ms >= u { now_ms - u } else { 0 }) < 3000,
                None => false,
            },
            None => false,
        },
    }
}

/// Activity of a session at time `now_ms` (milliseconds since the epoch).
pub fn session_active_at_exec(s: &Json, now_ms: u64) -> (r: bool)
    ensures
        r == session_active_at(s@, now_ms),
{
    match get_exec(s, "active") {
        Some(Json::Bool(b)) => {
            return *b;
        },
        _ => {},
    }
    match get_exec(s, "updatedAt") {
        Some(x) => match as_u64_exec(x) {
            Some(u) => now_ms.saturating_sub(u) < 3000,
            None => false,
        },
        None => false,
    }
}

/// Milliseconds since the Unix epoch: calls `SystemTime::now` (std).
/// Nothing is claimed of the value: it is the machine's clock.
#[verifier::external_body]
fn now_millis() -> (r: u64) {
    std::time::SystemTime::now().duration_since(std::time::UNIX_EPOCH).map(
        |d| d.as_millis() as u64,
    ).unwrap_or(0)
}

/// Checks if a session is active, against the current time.
pub fn is_session_active(s: &Json) -> (r: bool)
    ensures
        get(s@, "active"@) matches Some(JsonV::Bool(b)) ==> r == b,
        !(get(s@, "active"@) matches Some(JsonV::Bool(_))) && (match get(s@, "updatedAt"@) {
            Some(x) => as_u64(x) is None,
            None => true,
        }) ==> !r,
        exists|now: u64| r == session_active_at(s@, now),
{
    let now = now_millis();
    session_active_at_exec(s, now)
}

/// The last line (before index `n`) that parsed to a `message` event.
pub open spec fn last_message(ls: Seq<Option<JsonV>>, n: int) -> Option<JsonV>
    decreases n,
{
    if n <= 0 || n > ls.len() {
        None
    } else {
        match ls[n - 1] {
            Some(v) => if at(v, "type"@) == JsonV::Str("message"@) {
                Some(v)
            } else {
                last_message(ls, n - 1)
            },
            None => last_message(ls, n - 1),
        }
    }
}

/// Some content block of a message is a tool call.
pub open spec fn has_tool_call(content: Seq<JsonV>) -> bool {
    exists|i: int|
        0 <= i < content.len() && at(#[trigger] content[i], "type"@) == JsonV::Str("toolCall"@)
}

/// An agent is active when the last message is from the user or a tool
/// result, or is an assistant message still streaming (no usage) or
/// calling a tool.
pub open spec fn agent_active(ls: Seq<Option<JsonV>>) -> bool {
    match last_message(ls, ls.len() as int) {
        None => false,
        Some(v) => {
            let msg = at(v, "message"@);
            let role = match as_str(at(msg, "role"@)) {
                Some(r) => r,
                None => Seq::empty(),
            };
            let usage = is_object(at(msg, "usage"@));
            let tool = match as_array(at(msg, "content"@)) {
                Some(c) => has_tool_call(c),
                None => false,
            };
            role == "user"@ || role == "toolResult"@ || (role == "assistant"@ && (!usage || tool))
        },
    }
}

/// Views of parsed lines.
pub open spec fn line_views(ls: Seq<Option<Json>>) -> Seq<Option<JsonV>> {
    ls.map_values(
        |o: Option<Json>|
            match o {
                Some(j) => Some(j@),
                None => None,
            },
    )
}

/// `value[key]`, by reference (`Null` when missing).
fn at_exec<'a>(v: &'a Json, key: &str, null: &'a Json) -> (r: &'a Json)
    requires
        null@ == JsonV::Null,
    ensures
        r@ == at(v@, key@),
{
    match get_exec(v, key) {
        Some(x) => x,
        None => null,
    }
}

fn text_is(v: &Json, lit: &str) -> (r: bool)
    ensures
        r == (v@ == JsonV::Str(lit@)),
{
    match v {
        Json::Str(s) => crate::json::same_text(s.as_str(), lit),
        _ => false,
    }
}

/// Decides from the last lines of a session log (each parsed, or `None`
/// where it did not parse) whether the agent is still working.
pub fn check_agent_active_from_lines(lines: &Vec<Option<Json>>) -> (r: bool)
    ensures
        r == agent_active(line_views(lines@)),
{
    let ghost ls = line_views(lines@);
    let null = Json::Null;
    let mut n = lines.len();
    while n > 0
        invariant
            null@ == JsonV::Null,
            n <= lines.len(),
            ls == line_views(lines@),
            ls.len() == lines.len(),
            last_message(ls, lines.len() as int) == last_message(ls, n as int),
        decreases n,
    {
        match &lines[n - 1] {
            Some(v) => {
                assert(ls[n - 1] == Some(v@));
                if text_is(at_exec(v, "type", &null), "message") {
                    let msg = at_exec(v, "message", &null);
                    proof {
                        reveal_strlit("user");
                        reveal_strlit("toolResult");
                        reveal_strlit("assistant");
                        reveal_strlit("");
                    }
                    let role: &str = match as_str_exec(at_exec(msg, "role", &null)) {
                        Some(r) => r,
                        None => "",
                    };
                    assert(role@ == (match as_str(at(msg@, "role"@)) {
                        Some(r) => r,
                        None => Seq::<char>::empty(),
                    }));
                    let u = crate::json::same_text(role, "user");
                    let t = crate::json::same_text(role, "toolResult");
                    let a = crate::json::same_text(role, "assistant");
                    let usage = is_object_exec(at_exec(msg, "usage", &null));
                    let tool = match as_array_exec(at_exec(msg, "content", &null)) {
                        Some(c) => {
                            let ghost cv = jv_list(c@);
                            proof {
                                lemma_jv_list_len(c@);
                            }
                            let mut found = false;
                            let mut i: usize = 0;
                            while i < c.len()
                                invariant
                                    i <= c.len(),
                                    cv == jv_list(c@),
                                    cv.len() == c.len(),
                                    forall|k: int| 0 <= k < c.len() ==> #[trigger] cv[k] == jv(c@[k]),
                                    null@ == JsonV::Null,
                                    found == exists|k: int|
                                        0 <= k < i && at(#[trigger] cv[k], "type"@) == JsonV::Str(
                                            "toolCall"@,
                                        ),
                                decreases c.len() - i,
                            {
                                let t = text_is(at_exec(&c[i], "type", &null), "toolCall");
                                assert(cv[i as int] == jv(c@[i as int]));
                                found = found || t;
                                i = i + 1;
                            }
                            found
                        },
                        None => false,
                    };
                    assert(last_message(ls, n as int) == Some(v@));
                    proof {
                        if as_array(at(msg@, "content"@)) is Some {
                            assert(tool == has_tool_call(as_array(at(msg@, "content"@))->0));
                        }
                    }
                    return u || t || (a && (!usage || tool));
                }
            },
            None => {},
        }
        n = n - 1;
    }
    false
}

// ---------------------------------------------------------------------
// Agent health
// ---------------------------------------------------------------------

/// The last component of a `/`-separated path.
pub open spec fn basename(p: Seq<char>) -> Seq<char> {
    match rfind(p, "/"@) {
        Some(i) => p.skip(i + 1),
        None => p,
    }
}

/// A file name without its `.jsonl` suffix.
pub open spec fn strip_jsonl(f: Seq<char>) -> Seq<char> {
    if ends_with(f, ".jsonl"@) {
        f.take(f.len() - 6)
    } else {
        f
    }
}

/// `value[key].as_str().unwrap_or("")`.
pub open spec fn str_or_empty(v: JsonV, key: Seq<char>) -> Seq<char> {
    match as_str(at(v, key)) {
        Some(s) => s,
        None => Seq::empty(),
    }
}

/// The tail lines recorded for file `name`.
pub open spec fn tail_lookup(
    tails: Seq<(Seq<char>, Seq<Option<JsonV>>)>,
    name: Seq<char>,
) -> Option<Seq<Option<JsonV>>>
    decreases tails.len(),
{
    if tails.len() == 0 {
        None
    } else if tails[0].0 == name {
        Some(tails[0].1)
    } else {
        tail_lookup(tails.drop_first(), name)
    }
}

/// Sessions of `sessions.json` that name a session file, each active when
/// the tail of its file says so.
pub open spec fn meta_sessions(
    meta: Seq<(Seq<char>, JsonV)>,
    tails: Seq<(Seq<char>, Seq<Option<JsonV>>)>,
) -> Seq<(Seq<char>, bool)>
    decreases meta.len(),
{
    if meta.len() == 0 {
        Seq::empty()
    } else {
        let prev = meta_sessions(meta.drop_last(), tails);
        let sf = str_or_empty(meta.last().1, "sessionFile"@);
        if sf.len() == 0 {
            prev
        } else {
            prev.push(
                (
                    meta.last().0,
                    match tail_lookup(tails, basename(sf)) {
                        Some(ls) => agent_active(ls),
                        None => false,
                    },
                ),
            )
        }
    }
}

/// One session per tail file, keyed by the file name without `.jsonl`.
pub open spec fn tail_sessions(tails: Seq<(Seq<char>, Seq<Option<JsonV>>)>) -> Seq<
    (Seq<char>, bool),
> {
    tails.map_values(|t: (Seq<char>, Seq<Option<JsonV>>)| (strip_jsonl(t.0), agent_active(t.1)))
}

/// Sessions from `sessions.json`; when there are none, one per tail file.
pub open spec fn health_sessions(
    meta: Option<Seq<(Seq<char>, JsonV)>>,
    tails: Seq<(Seq<char>, Seq<Option<JsonV>>)>,
) -> Seq<(Seq<char>, bool)> {
    let s = match meta {
        Some(m) => meta_sessions(m, tails),
        None => Seq::empty(),
    };
    if s.len() == 0 && tails.len() > 0 {
        tail_sessions(tails)
    } else {
        s
    }
}

pub open spec fn tails_view(tails: Seq<(String, Vec<Option<Json>>)>) -> Seq<
    (Seq<char>, Seq<Option<JsonV>>),
> {
    tails.map_values(|t: (String, Vec<Option<Json>>)| (t.0@, line_views(t.1@)))
}

pub open spec fn health_view(s: Seq<SessionHealth>) -> Seq<(Seq<char>, bool)> {
    s.map_values(|h: SessionHealth| (h.key@, h.active))
}

pub open spec fn any_active(s: Seq<(Seq<char>, bool)>) -> bool {
    exists|i: int| 0 <= i < s.len() && (#[trigger] s[i]).1
}

fn basename_exec(p: &Vec<char>) -> (r: Vec<char>)
    ensures
        r@ == basename(p@),
{
    let slash = chars_of("/");
    match rfind_exec(p, &slash) {
        Some(i) => {
            proof {
                reveal_strlit("/");
                lemma_rfind_bounds(p@, slash@);
            }
            skip_past(p, i, 1)
        },
        None => p.clone(),
    }
}

fn strip_jsonl_exec(f: &Vec<char>) -> (r: Vec<char>)
    ensures
        r@ == strip_jsonl(f@),
{
    let suffix = chars_of(".jsonl");
    proof {
        reveal_strlit(".jsonl");
    }
    if ends_with_exec(f, &suffix) {
        take_exec(f, f.len() - 6)
    } else {
        f.clone()
    }
}

fn tail_lookup_exec<'a>(tails: &'a Vec<(String, Vec<Option<Json>>)>, name: &Vec<char>) -> (r: Option<
    &'a Vec<Option<Json>>,
>)
    ensures
        r matches Some(ls) ==> tail_lookup(tails_view(tails@), name@) == Some(line_views(ls@)),
        r is None ==> tail_lookup(tails_view(tails@), name@) is None,
{
    let ghost tv = tails_view(tails@);
    assert(tv.skip(0) =~= tv);
    let mut i: usize = 0;
    while i < tails.len()
        invariant
            i <= tails.len(),
            tv == tails_view(tails@),
            tv.len() == tails.len(),
            tail_lookup(tv, name@) == tail_lookup(tv.skip(i as int), name@),
        decreases tails.len() - i,
    {
        assert(tv.skip(i as int)[0] == tv[i as int]);
        assert(tv.skip(i as int).drop_first() =~= tv.skip(i + 1));
        let k = chars_of(tails[i].0.as_str());
        if crate::json::same_chars(&k, name) {
            return Some(&tails[i].1);
        }
        i = i + 1;
    }
    None
}

/// Builds an agent's health from its `sessions.json` entries (`None` when
/// that file could not be read as an object) and the tails of its session
/// files (each tail line parsed, or `None`).
pub fn build_agent_health_from_meta(
    agent_id: &str,
    meta: &Option<Vec<(String, Json)>>,
    tails: &Vec<(String, Vec<Option<Json>>)>,
) -> (r: AgentHealth)
    ensures
        r.agent_id@ == agent_id@,
        health_view(r.sessions@) == health_sessions(
            match meta {
                Some(m) => Some(jv_entries(m@)),
                None => None,
            },
            tails_view(tails@),
        ),
        r.active == any_active(health_view(r.sessions@)),
{
    let mut sessions: Vec<SessionHealth> = Vec::new();
    let mut any = false;
    let null = Json::Null;
    match meta {
        Some(m) => {
            let ghost mv = jv_entries(m@);
            proof {
                lemma_jv_entries_len(m@);
            }
            let mut i: usize = 0;
            while i < m.len()
                invariant
                    i <= m.len(),
                    null@ == JsonV::Null,
                    mv == jv_entries(m@),
                    mv.len() == m.len(),
                    forall|k: int| 0 <= k < m.len() ==> #[trigger] mv[k] == (m@[k].0@, jv(m@[k].1)),
                    health_view(sessions@) == meta_sessions(mv.take(i as int), tails_view(tails@)),
                    any == any_active(health_view(sessions@)),
                decreases m.len() - i,
            {
                let ghost prev = sessions@;
                assert(mv.take(i + 1).drop_last() =~= mv.take(i as int));
                assert(mv.take(i + 1).last() == mv[i as int]);
                let sf: &str = match as_str_exec(at_exec(&m[i].1, "sessionFile", &null)) {
                    Some(x) => x,
                    None => "",
                };
                proof {
                    reveal_strlit("");
                }
                let sfc = chars_of(sf);
                if sfc.len() > 0 {
                    let base = basename_exec(&sfc);
                    let active = match tail_lookup_exec(tails, &base) {
                        Some(ls) => check_agent_active_from_lines(ls),
                        None => false,
                    };
                    let key = m[i].0.clone();
                    sessions.push(SessionHealth { key, active });
                    assert(health_view(sessions@) =~= health_view(prev).push(
                        (m@[i as int].0@, active),
                    ));
                    if active {
                        assert(health_view(sessions@)[sessions.len() - 1].1);
                    }
                    any = any || active;
                    assert(any == any_active(health_view(sessions@))) by {
                        if any_active(health_view(sessions@)) && !active {
                            let k = choose|k: int|
                                0 <= k < health_view(sessions@).len() && (#[trigger] health_view(
                                    sessions@,
                                )[k]).1;
                            assert(health_view(prev)[k] == health_view(sessions@)[k]);
                        }
                        if any_active(health_view(prev)) {
                            let k = choose|k: int|
                                0 <= k < health_view(prev).len() && (#[trigger] health_view(
                                    prev,
                                )[k]).1;
                            assert(health_view(prev)[k] == health_view(sessions@)[k]);
                        }
                    }
                }
                i = i + 1;
            }
            assert(mv.take(m.len() as int) =~= mv);
        },
        None => {},
    }
    if sessions.len() == 0 && tails.len() > 0 {
        let ghost tv = tails_view(tails@);
        let mut j: usize = 0;
        while j < tails.len()
            invariant
                j <= tails.len(),
                tv == tails_view(tails@),
                tv.len() == tails.len(),
                health_view(sessions@) == tail_sessions(tv.take(j as int)),
                any == any_active(health_view(sessions@)),
            decreases tails.len() - j,
        {
            let ghost prev = sessions@;
            let active = check_agent_active_from_lines(&tails[j].1);
            let name = chars_of(tails[j].0.as_str());
            let key_chars = strip_jsonl_exec(&name);
            let key = string_of(key_chars.as_slice());
            sessions.push(SessionHealth { key, active });
            assert(health_view(sessions@) =~= health_view(prev).push((key_chars@, active)));
            assert(tail_sessions(tv.take(j + 1)) =~= tail_sessions(tv.take(j as int)).push(
                (key_chars@, active),
            ));
            if active {
                assert(health_view(sessions@)[sessions.len() - 1].1);
            }
            any = any || active;
            assert(any == any_active(health_view(sessions@))) by {
                if any_active(health_view(sessions@)) && !active {
                    let k = choose|k: int|
                        0 <= k < health_view(sessions@).len() && (#[trigger] health_view(
                            sessions@,
                        )[k]).1;
                    assert(health_view(prev)[k] == health_view(sessions@)[k]);
                }
                if any_active(health_view(prev)) {
                    let k = choose|k: int|
                        0 <= k < health_view(prev).len() && (#[trigger] health_view(prev)[k]).1;
                    assert(health_view(prev)[k] == health_view(sessions@)[k]);
                }
            }
            j = j + 1;
        }
        assert(tv.take(tails.len() as int) =~= tv);
    }
    AgentHealth { agent_id: agent_id.to_string(), active: any, sessions }
}

// ---------------------------------------------------------------------
// Paths of sessions.json
// ---------------------------------------------------------------------

/// The directory name of an agent: `main` for the empty id.
pub open spec fn agent_dir(agent_id: Seq<char>) -> Seq<char> {
    if agent_id.len() == 0 {
        "main"@
    } else {
        agent_id
    }
}

pub(crate) fn agent_dir_exec(agent_id: &str) -> (r: Vec<char>)
    ensures
        r@ == agent_dir(agent_id@),
{
    let c = chars_of(agent_id);
    if c.len() == 0 {
        chars_of("main")
    } else {
        c
    }
}

/// `$HOME/.openclaw/agents/<dir>/sessions/sessions.json` on the remote host.
pub open spec fn remote_sessions_path(agent_id: Seq<char>) -> Seq<char> {
    "$HOME/.openclaw/agents/"@ + agent_dir(agent_id) + "/sessions/sessions.json"@
}

/// Path of an agent's `sessions.json` on the remote host.
pub fn remote_sessions_json_path(agent_id: &str) -> (r: String)
    ensures
        r@ == remote_sessions_path(agent_id@),
{
    let a = chars_of("$HOME/.openclaw/agents/");
    let d = agent_dir_exec(agent_id);
    let b = chars_of("/sessions/sessions.json");
    let r = cat(&cat(&a, &d), &b);
    string_of(r.as_slice())
}

/// Joins a path component onto a path as `PathBuf::join` does on Unix: an
/// absolute component replaces the path, otherwise a `/` separates them
/// unless the path is empty or already ends with one.
pub open spec fn join(base: Seq<char>, comp: Seq<char>) -> Seq<char> {
    if starts_with(comp, "/"@) {
        comp
    } else if base.len() == 0 || ends_with(base, "/"@) {
        base + comp
    } else {
        base + "/"@ + comp
    }
}

pub(crate) fn join_exec(base: &Vec<char>, comp: &Vec<char>) -> (r: Vec<char>)
    ensures
        r@ == join(base@, comp@),
{
    let slash = chars_of("/");
    if starts_with_exec(comp, &slash) {
        comp.clone()
    } else if base.len() == 0 || ends_with_exec(base, &slash) {
        cat(base, comp)
    } else {
        cat(&cat(base, &slash), comp)
    }
}

/// `<home>/.openclaw/agents/<dir>/sessions/sessions.json`.
pub open spec fn local_sessions_path(home: Seq<char>, agent_id: Seq<char>) -> Seq<char> {
    join(
        join(join(join(join(home, ".openclaw"@), "agents"@), agent_dir(agent_id)), "sessions"@),
        "sessions.json"@,
    )
}

/// Path of an agent's `sessions.json` under the given home directory.
pub fn sessions_json_path_in(home: &str, agent_id: &str) -> (r: String)
    ensures
        r@ == local_sessions_path(home@, agent_id@),
{
    let p = chars_of(home);
    let p = join_exec(&p, &chars_of(".openclaw"));
    let p = join_exec(&p, &chars_of("agents"));
    let p = join_exec(&p, &agent_dir_exec(agent_id));
    let p = join_exec(&p, &chars_of("sessions"));
    let p = join_exec(&p, &chars_of("sessions.json"));
    string_of(p.as_slice())
}

/// The user's home directory: calls `dirs::home_dir`, read lossily as
/// text.  Nothing is claimed of the value: it comes from the environment.
#[verifier::external_body]
pub(crate) fn home_dir() -> (r: Option<String>) {
    match dirs::home_dir() {
        Some(p) => Some(p.to_string_lossy().to_string()),
        None => None,
    }
}

/// Path of an agent's `sessions.json` under the user's home directory
/// (the empty home when there is none).
pub fn sessions_json_path(agent_id: &str) -> (r: String)
    ensures
        exists|home: Seq<char>| r@ == local_sessions_path(home, agent_id@),
{
    let home = match home_dir() {
        Some(h) => h,
        None => String::new(),
    };
    sessions_json_path_in(home.as_str(), agent_id)
}

// ---------------------------------------------------------------------
// Records from sessions.json and agent.json
// ---------------------------------------------------------------------

/// A stored session: id from `sessionId` (else the key), label the key,
/// status `stored`, channel from `lastChannel`.
pub fn session_info_from_entry(key: &str, val: &Json) -> (r: SessionInfo)
    ensures
        r.id@ == (match str_at(val@, "sessionId"@) {
            Some(s) => s,
            None => key@,
        }),
        opt_view(r.label) == Some(key@),
        r.status@ == "stored"@,
        r.model is None,
        opt_view(r.channel) == str_at(val@, "lastChannel"@),
{
    let id = match str_at_exec(val, "sessionId") {
        Some(s) => s.to_string(),
        None => key.to_string(),
    };
    SessionInfo {
        id,
        label: Some(key.to_string()),
        status: "stored".to_string(),
        model: None,
        channel: opt_string(str_at_exec(val, "lastChannel")),
    }
}

/// The identity name or emoji of `agent.json`, under either spelling.
pub open spec fn identity_field(cfg: JsonV, camel: Seq<char>, snake: Seq<char>) -> Option<
    Seq<char>,
> {
    match crate::json::get2(cfg, camel, snake) {
        Some(x) => as_str(x),
        None => None,
    }
}

/// An agent record from its id and its `agent.json` contents.
pub fn agent_info_from_config(id: &str, cfg: &Json) -> (r: AgentInfo)
    ensures
        r.id@ == id@,
        opt_view(r.identity_name) == identity_field(cfg@, "identityName"@, "identity_name"@),
        opt_view(r.identity_emoji) == identity_field(cfg@, "identityEmoji"@, "identity_emoji"@),
{
    let name = match crate::json::get2_exec(cfg, "identityName", "identity_name") {
        Some(x) => opt_string(as_str_exec(x)),
        None => None,
    };
    let emoji = match crate::json::get2_exec(cfg, "identityEmoji", "identity_emoji") {
        Some(x) => opt_string(as_str_exec(x)),
        None => None,
    };
    AgentInfo { id: id.to_string(), identity_name: name, identity_emoji: emoji }
}

} // verus!
