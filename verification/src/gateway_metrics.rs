//! An agent's metrics as the gateway reports them: its session list and
//! the status text of one session.
use vstd::prelude::*;
use crate::json::{
    Json, JsonV, jv, jv_list, get, at, as_u64, str_at, get_exec, as_u64_exec, str_at_exec,
    lemma_jv_list_len,
};
use crate::text::{
    chars_of, string_of, cat, contains, contains_exec, trim, trim_exec, starts_with,
    starts_with_exec, lines, lines_exec, views, words, words_exec,
};
use crate::num::{number_or_zero, number_or_zero_exec};
use crate::gateway::{queue_part, queue_part_exec, session_active_at, session_active_at_exec};
use crate::sessions::{status_text, get_or_self, get_or_self_exec};
use crate::metrics::{MetricsSummary, u64_at, sat_add};
use crate::clock::{ms_text, format_ms};
use crate::types::opt_view;

verus! {

broadcast use vstd::string::group_string_axioms;

// ---------------------------------------------------------------------
// The status text of a session
// ---------------------------------------------------------------------

/// A token count as a status text writes it, ready to read: `,` dropped
/// and each `k` written out as `000`.
pub open spec fn token_digits(s: Seq<char>) -> Seq<char>
    decreases s.len(),
{
    if s.len() == 0 {
        Seq::empty()
    } else {
        let p = token_digits(s.drop_last());
        let c = s.last();
        if c == ',' {
            p
        } else if c == 'k' {
            p + "000"@
        } else {
            p.push(c)
        }
    }
}

/// The number a token count word gives (zero where it does not read).
pub open spec fn token_count(w: Seq<char>) -> u64 {
    number_or_zero(token_digits(w), u64::MAX as int) as u64
}

/// The count written before the last word `label` that is not the first
/// word, or `cur` when there is none.
pub open spec fn labelled_count(ws: Seq<Seq<char>>, label: Seq<char>, cur: u64) -> u64
    decreases ws.len(),
{
    if ws.len() < 2 {
        cur
    } else if ws.last() == label {
        token_count(ws[ws.len() - 2])
    } else {
        labelled_count(ws.drop_last(), label, cur)
    }
}

/// A queue state that shows work under way.
pub open spec fn busy_queue(t: Seq<char>) -> bool {
    starts_with(t, "running"@) || starts_with(t, "thinking"@) || starts_with(t, "streaming"@)
}

/// Tokens in, tokens out and the task under way, after one more status
/// line: a `Tokens:` line gives the counts before the words `in` and `out`;
/// a `Queue:` line whose state shows work gives the task.
pub open spec fn status_step(st: (u64, u64, Option<Seq<char>>), l: Seq<char>) -> (
    u64,
    u64,
    Option<Seq<char>>,
) {
    let st1 = if contains(l, "Tokens:"@) {
        (labelled_count(words(l), "in"@, st.0), labelled_count(words(l), "out"@, st.1), st.2)
    } else {
        st
    };
    match queue_part(l) {
        Some(q) => if busy_queue(trim(q)) {
            (st1.0, st1.1, Some(trim(q)))
        } else {
            st1
        },
        None => st1,
    }
}

/// What the status lines report, from nothing.
pub open spec fn status_fold(ls: Seq<Seq<char>>) -> (u64, u64, Option<Seq<char>>)
    decreases ls.len(),
{
    if ls.len() == 0 {
        (0, 0, None)
    } else {
        status_step(status_fold(ls.drop_last()), ls.last())
    }
}

fn token_digits_exec(s: &Vec<char>) -> (r: Vec<char>)
    ensures
        r@ == token_digits(s@),
{
    let mut out: Vec<char> = Vec::new();
    let mut i: usize = 0;
    assert(s@.take(0) =~= Seq::<char>::empty());
    while i < s.len()
        invariant
            i <= s.len(),
            out@ == token_digits(s@.take(i as int)),
        decreases s.len() - i,
    {
        assert(s@.take(i + 1).drop_last() =~= s@.take(i as int));
        assert(s@.take(i + 1).last() == s@[i as int]);
        let c = s[i];
        if c == ',' {
        } else if c == 'k' {
            let ghost before = out@;
            out.push('0');
            out.push('0');
            out.push('0');
            proof {
                reveal_strlit("000");
            }
            assert(out@ =~= before + "000"@);
        } else {
            out.push(c);
        }
        i = i + 1;
    }
    assert(s@.take(s.len() as int) =~= s@);
    out
}

fn labelled_count_exec(ws: &Vec<Vec<char>>, label: &Vec<char>, cur: u64) -> (r: u64)
    ensures
        r == labelled_count(views(ws@), label@, cur),
{
    let ghost wv = views(ws@);
    let mut k: usize = ws.len();
    assert(wv.take(k as int) =~= wv);
    while k >= 2
        invariant
            k <= ws.len(),
            wv == views(ws@),
            wv.len() == ws.len(),
            labelled_count(wv, label@, cur) == labelled_count(wv.take(k as int), label@, cur),
        decreases k,
    {
        let ghost t = wv.take(k as int);
        assert(t.drop_last() =~= wv.take(k - 1));
        assert(t.last() == ws@[k - 1]@);
        assert(t[t.len() - 2] == ws@[k - 2]@);
        if crate::json::same_chars(&ws[k - 1], label) {
            let d = token_digits_exec(&ws[k - 2]);
            return number_or_zero_exec(&d, 0xffff_ffff_ffff_ffff);
        }
        k = k - 1;
    }
    cur
}

fn status_step_exec(st: (u64, u64, Option<String>), l: &Vec<char>) -> (r: (u64, u64, Option<String>))
    ensures
        (r.0, r.1, opt_view(r.2)) == status_step((st.0, st.1, opt_view(st.2)), l@),
{
    proof {
        reveal_strlit("Tokens:");
        reveal_strlit("in");
        reveal_strlit("out");
    }
    let (mut input, mut output, mut task) = st;
    if contains_exec(l, &chars_of("Tokens:")) {
        let ws = words_exec(l);
        input = labelled_count_exec(&ws, &chars_of("in"), input);
        output = labelled_count_exec(&ws, &chars_of("out"), output);
    }
    match queue_part_exec(l) {
        Some(q) => {
            let t = trim_exec(&q);
            if starts_with_exec(&t, &chars_of("running")) || starts_with_exec(
                &t,
                &chars_of("thinking"),
            ) || starts_with_exec(&t, &chars_of("streaming")) {
                task = Some(string_of(t.as_slice()));
            }
        },
        None => {},
    }
    (input, output, task)
}

/// Reads a session status text: the tokens in and out and the task under
/// way (see `status_step`).
pub fn read_status_text(text: &str) -> (r: (u64, u64, Option<String>))
    ensures
        (r.0, r.1, opt_view(r.2)) == status_fold(lines(text@)),
{
    let ls = lines_exec(&chars_of(text));
    let ghost lv = views(ls@);
    let mut st: (u64, u64, Option<String>) = (0, 0, None);
    let mut i: usize = 0;
    assert(lv.take(0) =~= Seq::<Seq<char>>::empty());
    while i < ls.len()
        invariant
            i <= ls.len(),
            lv == views(ls@),
            lv.len() == ls.len(),
            (st.0, st.1, opt_view(st.2)) == status_fold(lv.take(i as int)),
        decreases ls.len() - i,
    {
        assert(lv.take(i + 1).drop_last() =~= lv.take(i as int));
        assert(lv.take(i + 1).last() == ls@[i as int]@);
        st = status_step_exec(st, &ls[i]);
        i = i + 1;
    }
    assert(lv.take(ls.len() as int) =~= lv);
    st
}

// ---------------------------------------------------------------------
// The session list
// ---------------------------------------------------------------------

/// The key of the session whose status is asked: the first session's
/// key, else the agent's main session `agent:<id>:main`.
pub open spec fn status_key(agent_id: Seq<char>, sessions: Seq<JsonV>) -> Seq<char> {
    match (if sessions.len() > 0 {
        str_at(sessions[0], "key"@)
    } else {
        None
    }) {
        Some(k) => k,
        None => "agent:"@ + agent_id + ":main"@,
    }
}

/// The key of the session whose status is asked (see `status_key`).
pub fn gateway_status_key(agent_id: &str, sessions: &Vec<Json>) -> (r: String)
    ensures
        r@ == status_key(agent_id@, jv_list(sessions@)),
{
    proof {
        lemma_jv_list_len(sessions@);
    }
    if sessions.len() > 0 {
        match str_at_exec(&sessions[0], "key") {
            Some(k) => {
                return k.to_string();
            },
            None => {},
        }
    }
    let a = cat(&chars_of("agent:"), &chars_of(agent_id));
    string_of(cat(&a, &chars_of(":main")).as_slice())
}

/// The number of sessions active at `now_ms` (see `session_active_at`).
pub open spec fn count_active(ss: Seq<JsonV>, now_ms: u64) -> nat
    decreases ss.len(),
{
    if ss.len() == 0 {
        0
    } else {
        count_active(ss.drop_last(), now_ms) + if session_active_at(ss.last(), now_ms) {
            1nat
        } else {
            0nat
        }
    }
}

/// The sum of the sessions' `totalTokens` (missing counts zero; the sum
/// stops at the largest `u64`).
pub open spec fn tokens_sum(ss: Seq<JsonV>) -> u64
    decreases ss.len(),
{
    if ss.len() == 0 {
        0
    } else {
        sat_add(tokens_sum(ss.drop_last()), u64_at(ss.last(), "totalTokens"@))
    }
}

/// The first text among the sessions' `key` members.
pub open spec fn first_text(ss: Seq<JsonV>, key: Seq<char>) -> Option<Seq<char>>
    decreases ss.len(),
{
    if ss.len() == 0 {
        None
    } else {
        match first_text(ss.drop_last(), key) {
            Some(t) => Some(t),
            None => str_at(ss.last(), key),
        }
    }
}

/// The latest `updatedAt` among the sessions that have one.
pub open spec fn latest_update(ss: Seq<JsonV>) -> Option<u64>
    decreases ss.len(),
{
    if ss.len() == 0 {
        None
    } else {
        let p = latest_update(ss.drop_last());
        match as_u64(at(ss.last(), "updatedAt"@)) {
            None => p,
            Some(u) => match p {
                Some(m) => Some(if u > m { u } else { m }),
                None => Some(u),
            },
        }
    }
}

/// What the status reply reports: nothing when there is no reply or no
/// status text in it.
pub open spec fn reported_status(reply: Option<JsonV>) -> (u64, u64, Option<Seq<char>>) {
    match reply {
        Some(x) => match status_text(x) {
            Some(t) => status_fold(lines(t)),
            None => (0, 0, None),
        },
        None => (0, 0, None),
    }
}

/// An agent's metrics from the gateway's list of its sessions, at time
/// `now_ms`, and the status reply of the session named by `status_key`
/// (`None` when that request failed).  Nothing is known there of tools,
/// actions, errors or cache tokens.
pub fn gateway_metrics(
    agent_id: &str,
    sessions: &Vec<Json>,
    now_ms: u64,
    status_reply: Option<&Json>,
) -> (r: MetricsSummary)
    ensures
        r.agent_id@ == agent_id@,
        r.active_session_count == count_active(jv_list(sessions@), now_ms),
        r.active == (r.active_session_count > 0),
        opt_view(r.current_model) == first_text(jv_list(sessions@), "model"@),
        opt_view(r.channel) == first_text(jv_list(sessions@), "channel"@),
        r.total_tokens == tokens_sum(jv_list(sessions@)),
        opt_view(r.last_activity) == match latest_update(jv_list(sessions@)) {
            Some(ms) => Some(ms_text(ms)),
            None => None,
        },
        ({
            let st = reported_status(
                match status_reply {
                    Some(x) => Some(x@),
                    None => None,
                },
            );
            &&& r.input_tokens == st.0
            &&& r.output_tokens == st.1
            &&& opt_view(r.current_task) == st.2
        }),
        r.message_count == sessions.len(),
        r.thinking_level is None && r.current_tool is None && r.session_start is None,
        r.cache_read_tokens == 0 && r.cache_write_tokens == 0 && r.error_count == 0,
        r.tool_calls@.len() == 0 && r.recent_actions@.len() == 0,
{
    proof {
        lemma_jv_list_len(sessions@);
    }
    let ghost sv = jv_list(sessions@);
    let mut active: usize = 0;
    let mut total: u64 = 0;
    let mut model: Option<String> = None;
    let mut channel: Option<String> = None;
    let mut latest: Option<u64> = None;
    let mut i: usize = 0;
    assert(sv.take(0) =~= Seq::<JsonV>::empty());
    while i < sessions.len()
        invariant
            i <= sessions.len(),
            sv == jv_list(sessions@),
            sv.len() == sessions.len(),
            forall|k: int| 0 <= k < sessions.len() ==> #[trigger] sv[k] == jv(sessions@[k]),
            active == count_active(sv.take(i as int), now_ms),
            active <= i,
            total == tokens_sum(sv.take(i as int)),
            opt_view(model) == first_text(sv.take(i as int), "model"@),
            opt_view(channel) == first_text(sv.take(i as int), "channel"@),
            latest == latest_update(sv.take(i as int)),
        decreases sessions.len() - i,
    {
        let ghost t = sv.take(i + 1);
        assert(t.drop_last() =~= sv.take(i as int));
        assert(t.last() == sv[i as int]);
        let s = &sessions[i];
        if session_active_at_exec(s, now_ms) {
            active = active + 1;
        }
        let n = match get_exec(s, "totalTokens") {
            Some(x) => match as_u64_exec(x) {
                Some(v) => v,
                None => 0,
            },
            None => 0,
        };
        total = total.saturating_add(n);
        if model.is_none() {
            match str_at_exec(s, "model") {
                Some(m) => {
                    model = Some(m.to_string());
                },
                None => {},
            }
        }
        if channel.is_none() {
            match str_at_exec(s, "channel") {
                Some(c) => {
                    channel = Some(c.to_string());
                },
                None => {},
            }
        }
        let u = match get_exec(s, "updatedAt") {
            Some(x) => as_u64_exec(x),
            None => None,
        };
        match u {
            Some(v) => {
                latest = match latest {
                    Some(m) => Some(if v > m { v } else { m }),
                    None => Some(v),
                };
            },
            None => {},
        }
        i = i + 1;
    }
    assert(sv.take(sessions.len() as int) =~= sv);
    let (input, output, task) = match status_reply {
        Some(x) => {
            let det = get_or_self_exec(get_or_self_exec(x, "result"), "details");
            match str_at_exec(det, "statusText") {
                Some(t) => read_status_text(t),
                None => (0, 0, None),
            }
        },
        None => (0, 0, None),
    };
    let last_activity = match latest {
        Some(ms) => Some(format_ms(ms)),
        None => None,
    };
    MetricsSummary {
        agent_id: agent_id.to_string(),
        active: active > 0,
        current_model: model,
        thinking_level: None,
        active_session_count: active,
        current_task: task,
        current_tool: None,
        total_tokens: total,
        input_tokens: input,
        output_tokens: output,
        cache_read_tokens: 0,
        cache_write_tokens: 0,
        tool_calls: Vec::new(),
        recent_actions: Vec::new(),
        error_count: 0,
        message_count: sessions.len(),
        session_start: None,
        last_activity,
        channel,
    }
}

} // verus!
