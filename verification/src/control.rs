//! Driving agents: the gateway's access settings, which session to
//! interrupt, what a chat turn answered, and the agents a host lists.
use vstd::prelude::*;
use crate::json::{
    Json, JsonV, jv, jv_list, jv_entries, get, at, as_u64, as_array, as_str, str_at, is_object,
    get_exec, as_u64_exec, as_array_exec, as_str_exec, str_at_exec, is_object_exec, same_chars,
    lemma_jv_list_len, lemma_jv_entries_len,
};
use crate::text::{
    chars_of, string_of, cat, trim, trim_exec, contains, contains_exec, starts_with,
    starts_with_exec, find, find_exec, rfind, rfind_exec, slice_of, lines, lines_exec, views,
    lemma_find_from_bounds, lemma_rfind_bounds, occurs_at,
};
use crate::metrics::{index_entries, updated_or_zero, lines_view};
use crate::sessions::{strings_view, get_or_self, get_or_self_exec};
use crate::gateway::{identity_field, agent_info_from_config};
use crate::types::{AgentInfo, opt_view};

verus! {

broadcast use vstd::string::group_string_axioms;

// ---------------------------------------------------------------------
// The gateway's access settings
// ---------------------------------------------------------------------

/// The port of the gateway (`gateway.port`, default 18789, kept to its
/// low 16 bits as a `u16`).
pub open spec fn gateway_port(config: JsonV) -> u16 {
    match as_u64(at(at(config, "gateway"@), "port"@)) {
        Some(n) => (n % 65536) as u16,
        None => 18789,
    }
}

/// The gateway's token (`gateway.auth.token`), empty when missing.
pub open spec fn gateway_token(config: JsonV) -> Seq<char> {
    match as_str(at(at(at(config, "gateway"@), "auth"@), "token"@)) {
        Some(t) => t,
        None => Seq::empty(),
    }
}

/// The message when the configuration holds no gateway token.
pub open spec fn no_token_error() -> Seq<char> {
    "openclaw.json 中未找到 gateway token"@
}

/// The port and token of the local gateway from `openclaw.json`; an error
/// when the token is missing or empty.
pub fn gateway_access(config: &Json) -> (r: Result<(u16, String), String>)
    ensures
        gateway_token(config@).len() == 0 ==> (r matches Err(e) && e@ == no_token_error()),
        gateway_token(config@).len() > 0 ==> (r matches Ok(v) && v.0 == gateway_port(config@)
            && v.1@ == gateway_token(config@)),
{
    let null = Json::Null;
    let g: &Json = match get_exec(config, "gateway") {
        Some(x) => x,
        None => &null,
    };
    let port: u16 = match get_exec(g, "port") {
        Some(p) => match as_u64_exec(p) {
            Some(n) => (n % 65536) as u16,
            None => 18789,
        },
        None => 18789,
    };
    let auth: &Json = match get_exec(g, "auth") {
        Some(x) => x,
        None => &null,
    };
    let token: &str = match get_exec(auth, "token") {
        Some(t) => match as_str_exec(t) {
            Some(s) => s,
            None => "",
        },
        None => "",
    };
    proof {
        reveal_strlit("");
    }
    if chars_of(token).len() == 0 {
        Err("openclaw.json 中未找到 gateway token".to_string())
    } else {
        Ok((port, token.to_string()))
    }
}

// ---------------------------------------------------------------------
// The session to interrupt
// ---------------------------------------------------------------------

/// A path with each `\` written as `/`.
pub open spec fn slashed(s: Seq<char>) -> Seq<char> {
    s.map_values(|c: char| if c == '\\' { '/' } else { c })
}

/// An open transcript path and a session's file name the same file: one
/// starts with the other, as written or with `\` written as `/`.
pub open spec fn same_file(p: Seq<char>, sf: Seq<char>) -> bool {
    ||| starts_with(p, sf)
    ||| starts_with(sf, p)
    ||| starts_with(slashed(p), slashed(sf))
    ||| starts_with(slashed(sf), slashed(p))
}

/// The session file is one of the open transcripts.
pub open spec fn file_is_open(sf: Seq<char>, open: Seq<Seq<char>>) -> bool {
    exists|i: int| 0 <= i < open.len() && same_file(#[trigger] open[i], sf)
}

/// The key of the first entry whose session file is open.
pub open spec fn first_open_key(es: Seq<(Seq<char>, JsonV)>, open: Seq<Seq<char>>) -> Option<
    Seq<char>,
>
    decreases es.len(),
{
    if es.len() == 0 {
        None
    } else {
        match first_open_key(es.drop_last(), open) {
            Some(k) => Some(k),
            None => match str_at(es.last().1, "sessionFile"@) {
                Some(sf) => if file_is_open(sf, open) {
                    Some(es.last().0)
                } else {
                    None
                },
                None => None,
            },
        }
    }
}

/// The key of the entry updated last (the last of equally recent ones).
pub open spec fn latest_key(es: Seq<(Seq<char>, JsonV)>) -> Option<(Seq<char>, u64)>
    decreases es.len(),
{
    if es.len() == 0 {
        None
    } else {
        let u = updated_or_zero(es.last().1);
        match latest_key(es.drop_last()) {
            Some(b) => if u >= b.1 {
                Some((es.last().0, u))
            } else {
                Some(b)
            },
            None => Some((es.last().0, u)),
        }
    }
}

/// The session to interrupt: the first whose file is open, else the one
/// updated last; none when the index lists none.
pub open spec fn interrupt_key(index: JsonV, open: Seq<Seq<char>>) -> Option<Seq<char>> {
    match first_open_key(index_entries(index), open) {
        Some(k) => Some(k),
        None => match latest_key(index_entries(index)) {
            Some(b) => Some(b.0),
            None => None,
        },
    }
}

fn slashed_exec(s: &Vec<char>) -> (r: Vec<char>)
    ensures
        r@ == slashed(s@),
{
    let mut out: Vec<char> = Vec::new();
    let mut i: usize = 0;
    while i < s.len()
        invariant
            i <= s.len(),
            out@ =~= slashed(s@.take(i as int)),
        decreases s.len() - i,
    {
        let c = s[i];
        out.push(if c == '\\' { '/' } else { c });
        i = i + 1;
    }
    assert(s@.take(s.len() as int) =~= s@);
    out
}

fn same_file_exec(p: &Vec<char>, sf: &Vec<char>) -> (r: bool)
    ensures
        r == same_file(p@, sf@),
{
    let ps = slashed_exec(p);
    let ss = slashed_exec(sf);
    starts_with_exec(p, sf) || starts_with_exec(sf, p) || starts_with_exec(&ps, &ss)
        || starts_with_exec(&ss, &ps)
}

fn file_is_open_exec(sf: &Vec<char>, open: &Vec<String>) -> (r: bool)
    ensures
        r == file_is_open(sf@, strings_view(open@)),
{
    let ghost ov = strings_view(open@);
    let mut i: usize = 0;
    while i < open.len()
        invariant
            i <= open.len(),
            ov == strings_view(open@),
            forall|k: int| 0 <= k < i ==> !same_file(#[trigger] ov[k], sf@),
        decreases open.len() - i,
    {
        assert(ov[i as int] == open@[i as int]@);
        if same_file_exec(&chars_of(open[i].as_str()), sf) {
            return true;
        }
        i = i + 1;
    }
    false
}

/// The key of the session to interrupt (see `interrupt_key`); `open` are
/// the transcript files held open.
pub fn interrupt_session_key(index: &Json, open: &Vec<String>) -> (r: Option<String>)
    ensures
        opt_view(r) == interrupt_key(index@, strings_view(open@)),
{
    let empty: Vec<(String, Json)> = Vec::new();
    let es: &Vec<(String, Json)> = match index {
        Json::Object(es) => es,
        _ => &empty,
    };
    proof {
        lemma_jv_entries_len(es@);
        assert(jv_entries(empty@) =~= Seq::<(Seq<char>, JsonV)>::empty());
    }
    let ghost ev = jv_entries(es@);
    assert(ev == index_entries(index@));
    let ghost ov = strings_view(open@);
    let mut found: Option<String> = None;
    let mut best: Option<(String, u64)> = None;
    let mut i: usize = 0;
    assert(ev.take(0) =~= Seq::<(Seq<char>, JsonV)>::empty());
    while i < es.len()
        invariant
            i <= es.len(),
            ev == jv_entries(es@),
            ev.len() == es.len(),
            ov == strings_view(open@),
            forall|k: int| 0 <= k < es.len() ==> #[trigger] ev[k] == (es@[k].0@, jv(es@[k].1)),
            opt_view(found) == first_open_key(ev.take(i as int), ov),
            match best {
                Some(b) => latest_key(ev.take(i as int)) == Some((b.0@, b.1)),
                None => latest_key(ev.take(i as int)) is None,
            },
        decreases es.len() - i,
    {
        let ghost t = ev.take(i + 1);
        assert(t.drop_last() =~= ev.take(i as int));
        assert(t.last() == ev[i as int]);
        let v = &es[i].1;
        if found.is_none() {
            match str_at_exec(v, "sessionFile") {
                Some(sf) => {
                    if file_is_open_exec(&chars_of(sf), open) {
                        found = Some(es[i].0.clone());
                    }
                },
                None => {},
            }
        }
        let u: u64 = match get_exec(v, "updatedAt") {
            Some(x) => match as_u64_exec(x) {
                Some(n) => n,
                None => 0,
            },
            None => 0,
        };
        assert(u == updated_or_zero(ev[i as int].1));
        best = match best {
            Some(b) => if u >= b.1 {
                Some((es[i].0.clone(), u))
            } else {
                Some(b)
            },
            None => Some((es[i].0.clone(), u)),
        };
        i = i + 1;
    }
    assert(ev.take(es.len() as int) =~= ev);
    match found {
        Some(k) => Some(k),
        None => match best {
            Some(b) => Some(b.0),
            None => None,
        },
    }
}

/// What the interrupt reports from the abort reply written by the helper
/// script: whether a run was aborted, and the session's key.
pub open spec fn interrupt_message(stdout: Seq<char>, key: Seq<char>) -> Seq<char> {
    if contains(stdout, "\"aborted\":true"@) {
        "已打断 ("@ + key + ")"@
    } else {
        "指令已发送，当前无活跃 run ("@ + key + ")"@
    }
}

/// The report of an interrupt (see `interrupt_message`).
pub fn interrupt_result(stdout: &str, key: &str) -> (r: String)
    ensures
        r@ == interrupt_message(stdout@, key@),
{
    let head = if contains_exec(&chars_of(stdout), &chars_of("\"aborted\":true")) {
        chars_of("已打断 (")
    } else {
        chars_of("指令已发送，当前无活跃 run (")
    };
    let a = cat(&head, &chars_of(key));
    string_of(cat(&a, &chars_of(")")).as_slice())
}

// ---------------------------------------------------------------------
// Chat turns
// ---------------------------------------------------------------------

/// The first `sessionId` among the index entries.
pub open spec fn first_session_id(es: Seq<(Seq<char>, JsonV)>) -> Option<Seq<char>>
    decreases es.len(),
{
    if es.len() == 0 {
        None
    } else {
        match first_session_id(es.drop_last()) {
            Some(s) => Some(s),
            None => str_at(es.last().1, "sessionId"@),
        }
    }
}

/// The session a chat turn goes to: the first `sessionId` in the index;
/// `no session found` when there is none.
pub fn chat_session_id(index: &Json) -> (r: Result<String, String>)
    ensures
        match first_session_id(index_entries(index@)) {
            Some(s) => r matches Ok(v) && v@ == s,
            None => r matches Err(e) && e@ == "no session found"@,
        },
{
    let empty: Vec<(String, Json)> = Vec::new();
    let es: &Vec<(String, Json)> = match index {
        Json::Object(es) => es,
        _ => &empty,
    };
    proof {
        lemma_jv_entries_len(es@);
        assert(jv_entries(empty@) =~= Seq::<(Seq<char>, JsonV)>::empty());
    }
    let ghost ev = jv_entries(es@);
    assert(ev == index_entries(index@));
    let mut i: usize = 0;
    assert(ev.take(0) =~= Seq::<(Seq<char>, JsonV)>::empty());
    while i < es.len()
        invariant
            i <= es.len(),
            ev == jv_entries(es@),
            ev.len() == es.len(),
            forall|k: int| 0 <= k < es.len() ==> #[trigger] ev[k] == (es@[k].0@, jv(es@[k].1)),
            ev == index_entries(index@),
            first_session_id(ev.take(i as int)) is None,
        decreases es.len() - i,
    {
        let ghost t = ev.take(i + 1);
        assert(t.drop_last() =~= ev.take(i as int));
        assert(t.last() == ev[i as int]);
        match str_at_exec(&es[i].1, "sessionId") {
            Some(s) => {
                assert(first_session_id(ev.take(i + 1)) == Some(s@));
                proof {
                    lemma_first_session_id_prefix(ev, i + 1);
                }
                return Ok(s.to_string());
            },
            None => {},
        }
        i = i + 1;
    }
    assert(ev.take(es.len() as int) =~= ev);
    Err("no session found".to_string())
}

proof fn lemma_first_session_id_prefix(es: Seq<(Seq<char>, JsonV)>, n: int)
    requires
        0 <= n <= es.len(),
        first_session_id(es.take(n)) is Some,
    ensures
        first_session_id(es) == first_session_id(es.take(n)),
    decreases es.len() - n,
{
    if n < es.len() {
        assert(es.take(n + 1).drop_last() =~= es.take(n));
        lemma_first_session_id_prefix(es, n + 1);
    } else {
        assert(es.take(n) =~= es);
    }
}

/// The text a chat turn answered: `result.payloads[0].text`, empty when
/// missing.
pub open spec fn reply_text(body: JsonV) -> Seq<char> {
    match as_array(at(at(body, "result"@), "payloads"@)) {
        Some(a) => if a.len() > 0 {
            match str_at(a[0], "text"@) {
                Some(t) => t,
                None => Seq::empty(),
            }
        } else {
            Seq::empty()
        },
        None => Seq::empty(),
    }
}

/// The text a chat turn answered (see `reply_text`).
pub fn chat_reply_text(body: &Json) -> (r: String)
    ensures
        r@ == reply_text(body@),
{
    let null = Json::Null;
    let res: &Json = match get_exec(body, "result") {
        Some(x) => x,
        None => &null,
    };
    let pl: &Json = match get_exec(res, "payloads") {
        Some(x) => x,
        None => &null,
    };
    proof {
        reveal_strlit("");
    }
    match as_array_exec(pl) {
        Some(a) => {
            proof {
                lemma_jv_list_len(a@);
            }
            if a.len() > 0 {
                match str_at_exec(&a[0], "text") {
                    Some(t) => t.to_string(),
                    None => String::new(),
                }
            } else {
                String::new()
            }
        },
        None => String::new(),
    }
}

// ---------------------------------------------------------------------
// Agents a host lists
// ---------------------------------------------------------------------

/// The agent ids of a directory listing: its lines that are not blank,
/// trimmed.
pub open spec fn listed_ids(ls: Seq<Seq<char>>) -> Seq<Seq<char>>
    decreases ls.len(),
{
    if ls.len() == 0 {
        Seq::empty()
    } else {
        let p = listed_ids(ls.drop_last());
        if trim(ls.last()).len() == 0 {
            p
        } else {
            p.push(trim(ls.last()))
        }
    }
}

/// The agent ids of a directory listing (see `listed_ids`).
pub fn agent_ids_of_listing(listing: &str) -> (r: Vec<String>)
    ensures
        strings_view(r@) == listed_ids(lines(listing@)),
{
    let ls = lines_exec(&chars_of(listing));
    let ghost lv = views(ls@);
    let mut out: Vec<String> = Vec::new();
    let mut i: usize = 0;
    assert(lv.take(0) =~= Seq::<Seq<char>>::empty());
    assert(strings_view(out@) =~= Seq::<Seq<char>>::empty());
    while i < ls.len()
        invariant
            i <= ls.len(),
            lv == views(ls@),
            lv.len() == ls.len(),
            strings_view(out@) == listed_ids(lv.take(i as int)),
        decreases ls.len() - i,
    {
        assert(lv.take(i + 1).drop_last() =~= lv.take(i as int));
        assert(lv.take(i + 1).last() == ls@[i as int]@);
        let t = trim_exec(&ls[i]);
        if t.len() > 0 {
            let ghost before = strings_view(out@);
            let s = string_of(t.as_slice());
            out.push(s);
            assert(strings_view(out@) =~= before.push(t@));
        }
        i = i + 1;
    }
    assert(lv.take(ls.len() as int) =~= lv);
    out
}

/// An agent record as plain values.
pub open spec fn agent_view(a: AgentInfo) -> (Seq<char>, Option<Seq<char>>, Option<Seq<char>>) {
    (a.id@, opt_view(a.identity_name), opt_view(a.identity_emoji))
}

pub open spec fn agents_view(s: Seq<AgentInfo>) -> Seq<(Seq<char>, Option<Seq<char>>, Option<Seq<char>>)> {
    s.map_values(|a: AgentInfo| agent_view(a))
}

/// The record of an agent with id `id` and settings `cfg`.
pub open spec fn agent_of(id: Seq<char>, cfg: JsonV) -> (Seq<char>, Option<Seq<char>>, Option<Seq<char>>) {
    (
        id,
        identity_field(cfg, "identityName"@, "identity_name"@),
        identity_field(cfg, "identityEmoji"@, "identity_emoji"@),
    )
}

/// The agents of a list: those with a text `id`.
pub open spec fn agents_of_list(a: Seq<JsonV>) -> Seq<(Seq<char>, Option<Seq<char>>, Option<Seq<char>>)>
    decreases a.len(),
{
    if a.len() == 0 {
        Seq::empty()
    } else {
        let p = agents_of_list(a.drop_last());
        match str_at(a.last(), "id"@) {
            Some(id) => p.push(agent_of(id, a.last())),
            None => p,
        }
    }
}

/// The agents of an object: its members whose values are objects, keyed
/// by id.
pub open spec fn agents_of_map(es: Seq<(Seq<char>, JsonV)>) -> Seq<
    (Seq<char>, Option<Seq<char>>, Option<Seq<char>>),
>
    decreases es.len(),
{
    if es.len() == 0 {
        Seq::empty()
    } else {
        let p = agents_of_map(es.drop_last());
        if is_object(es.last().1) {
            p.push(agent_of(es.last().0, es.last().1))
        } else {
            p
        }
    }
}

/// The agent list inside a gateway reply: `details.agents`, else the
/// reply itself when it is a list.
pub open spec fn reply_agent_list(r: JsonV) -> Option<Seq<JsonV>> {
    match as_array(at(at(r, "details"@), "agents"@)) {
        Some(a) => Some(a),
        None => as_array(r),
    }
}

/// The agents of a gateway `agents_list` reply (its `result`, or the
/// reply itself): from its list of agents, else from an object keyed by
/// id; none when the reply has neither shape.
pub open spec fn reply_agents(reply: JsonV) -> Option<Seq<(Seq<char>, Option<Seq<char>>, Option<Seq<char>>)>> {
    let r = get_or_self(reply, "result"@);
    match reply_agent_list(r) {
        Some(a) => Some(agents_of_list(a)),
        None => match r {
            JsonV::Object(es) => Some(agents_of_map(es)),
            _ => None,
        },
    }
}

/// The agents of a gateway `agents_list` reply (see `reply_agents`).
pub fn agents_from_reply(reply: &Json) -> (r: Option<Vec<AgentInfo>>)
    ensures
        match r {
            Some(v) => reply_agents(reply@) == Some(agents_view(v@)),
            None => reply_agents(reply@) is None,
        },
{
    let null = Json::Null;
    let r = get_or_self_exec(reply, "result");
    let det: &Json = match get_exec(r, "details") {
        Some(x) => x,
        None => &null,
    };
    let ag: &Json = match get_exec(det, "agents") {
        Some(x) => x,
        None => &null,
    };
    let list: Option<&Vec<Json>> = match as_array_exec(ag) {
        Some(a) => Some(a),
        None => as_array_exec(r),
    };
    match list {
        Some(a) => {
            proof {
                lemma_jv_list_len(a@);
            }
            let ghost av = jv_list(a@);
            let mut out: Vec<AgentInfo> = Vec::new();
            let mut i: usize = 0;
            assert(av.take(0) =~= Seq::<JsonV>::empty());
            assert(agents_view(out@) =~= Seq::<(Seq<char>, Option<Seq<char>>, Option<Seq<char>>)>::empty());
            while i < a.len()
                invariant
                    i <= a.len(),
                    av == jv_list(a@),
                    av.len() == a.len(),
                    forall|k: int| 0 <= k < a.len() ==> #[trigger] av[k] == jv(a@[k]),
                    agents_view(out@) == agents_of_list(av.take(i as int)),
                decreases a.len() - i,
            {
                assert(av.take(i + 1).drop_last() =~= av.take(i as int));
                assert(av.take(i + 1).last() == av[i as int]);
                match str_at_exec(&a[i], "id") {
                    Some(id) => {
                        let ghost before = agents_view(out@);
                        let info = agent_info_from_config(id, &a[i]);
                        out.push(info);
                        assert(agents_view(out@) =~= before.push(agent_view(info)));
                    },
                    None => {},
                }
                i = i + 1;
            }
            assert(av.take(a.len() as int) =~= av);
            Some(out)
        },
        None => match r {
            Json::Object(es) => {
                proof {
                    lemma_jv_entries_len(es@);
                }
                let ghost ev = jv_entries(es@);
                let mut out: Vec<AgentInfo> = Vec::new();
                let mut i: usize = 0;
                assert(ev.take(0) =~= Seq::<(Seq<char>, JsonV)>::empty());
                assert(agents_view(out@) =~= Seq::<(Seq<char>, Option<Seq<char>>, Option<Seq<char>>)>::empty());
                while i < es.len()
                    invariant
                        i <= es.len(),
                        ev == jv_entries(es@),
                        ev.len() == es.len(),
                        forall|k: int| 0 <= k < es.len() ==> #[trigger] ev[k] == (es@[k].0@, jv(es@[k].1)),
                        agents_view(out@) == agents_of_map(ev.take(i as int)),
                    decreases es.len() - i,
                {
                    assert(ev.take(i + 1).drop_last() =~= ev.take(i as int));
                    assert(ev.take(i + 1).last() == ev[i as int]);
                    if is_object_exec(&es[i].1) {
                        let ghost before = agents_view(out@);
                        let info = agent_info_from_config(es[i].0.as_str(), &es[i].1);
                        out.push(info);
                        assert(agents_view(out@) =~= before.push(agent_view(info)));
                    }
                    i = i + 1;
                }
                assert(ev.take(es.len() as int) =~= ev);
                Some(out)
            },
            _ => None,
        },
    }
}

/// The JSON array in the output of `openclaw agents list --json`: from
/// the first `[` to the last `]`; an error when either is missing.  The
/// output must not hold a `]` before the first `[` without one after it.
pub fn bracketed_array(stdout: &str) -> (r: Result<String, String>)
    requires
        find(stdout@, "["@) matches Some(a) && rfind(stdout@, "]"@) matches Some(b) ==> b + 1 >= a,
    ensures
        match find(stdout@, "["@) {
            None => r matches Err(e) && e@ == "no JSON array in agents output"@,
            Some(a) => match rfind(stdout@, "]"@) {
                None => r matches Err(e) && e@ == "no closing bracket"@,
                Some(b) => r matches Ok(t) && t@ == stdout@.subrange(a, b + 1),
            },
        },
{
    let c = chars_of(stdout);
    match find_exec(&c, &chars_of("[")) {
        None => Err("no JSON array in agents output".to_string()),
        Some(a) => match rfind_exec(&c, &chars_of("]")) {
            None => Err("no closing bracket".to_string()),
            Some(b) => {
                proof {
                    reveal_strlit("[");
                    reveal_strlit("]");
                    lemma_find_from_bounds(c@, "["@, 0);
                    lemma_rfind_bounds(c@, "]"@);
                    assert(occurs_at(c@, "]"@, b as int));
                    assert("]"@.len() == 1);
                }
                let n = c.len();
                assert(b + 1 <= n);
                Ok(string_of(slice_of(&c, a, b + 1).as_slice()))
            },
        },
    }
}

// ---------------------------------------------------------------------
// System sounds
// ---------------------------------------------------------------------

/// The Windows sound alias that stands for a macOS system sound.
pub open spec fn sound_alias(name: Seq<char>) -> Seq<char> {
    if name == "Blow"@ || name == "Basso"@ || name == "Funk"@ || name == "Sosumi"@ {
        "SystemExclamation"@
    } else if name == "Bottle"@ || name == "Pop"@ || name == "Purr"@ || name == "Tink"@ {
        "SystemAsterisk"@
    } else if name == "Hero"@ || name == "Morse"@ || name == "Submarine"@ {
        "SystemNotification"@
    } else if name == "Frog"@ {
        "SystemQuestion"@
    } else {
        "SystemDefault"@
    }
}

/// The Windows sound alias for a macOS system sound name (see
/// `sound_alias`).
pub fn windows_sound_alias(name: &str) -> (r: &'static str)
    ensures
        r@ == sound_alias(name@),
{
    let n = chars_of(name);
    let is = |lit: &str| -> (b: bool)
        ensures
            b == (n@ == lit@),
        { same_chars(&n, &chars_of(lit)) };
    if is("Blow") || is("Basso") || is("Funk") || is("Sosumi") {
        "SystemExclamation"
    } else if is("Bottle") || is("Pop") || is("Purr") || is("Tink") {
        "SystemAsterisk"
    } else if is("Hero") || is("Morse") || is("Submarine") {
        "SystemNotification"
    } else if is("Frog") {
        "SystemQuestion"
    } else {
        "SystemDefault"
    }
}

} // verus!
