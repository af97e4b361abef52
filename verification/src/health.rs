//! Agent health from a remote host's framed report, and from the
//! gateway's session list.
use vstd::prelude::*;
use crate::json::{Json, JsonV, jv, jv_list, str_at, str_at_exec, same_chars, lemma_jv_list_len};
use crate::text::{
    chars_of, string_of, cat, starts_with, starts_with_exec, ends_with, ends_with_exec, skip_exec,
    lines, lines_exec, views,
};
use crate::types::{AgentHealth, SessionHealth};
use crate::sessions::{
    strings_view, remote_active, remote_session_active, second_field, second_field_exec,
};
use crate::metrics::lines_view;

verus! {

broadcast use vstd::string::group_string_axioms;

// ---------------------------------------------------------------------
// The framed report
// ---------------------------------------------------------------------

/// One agent's part of the report: its id, the text of its
/// `sessions.json`, and the last lines of each of its session files.
#[derive(Debug, PartialEq, Eq)]
pub struct AgentFrame {
    pub id: String,
    pub meta: String,
    pub tails: Vec<(String, Vec<String>)>,
}

/// An agent's part of the report as plain values.
pub type FrameV = (Seq<char>, Seq<char>, Seq<(Seq<char>, Seq<Seq<char>>)>);

pub open spec fn tails_v(t: Seq<(String, Vec<String>)>) -> Seq<(Seq<char>, Seq<Seq<char>>)> {
    t.map_values(|e: (String, Vec<String>)| (e.0@, strings_view(e.1@)))
}

pub open spec fn frame_view(f: AgentFrame) -> FrameV {
    (f.id@, f.meta@, tails_v(f.tails@))
}

pub open spec fn frames_view(s: Seq<AgentFrame>) -> Seq<FrameV> {
    s.map_values(|f: AgentFrame| frame_view(f))
}

/// Where the reader of the report stands: the agents read so far, the
/// agent being read with its index text (and whether that text is being
/// read) and its tails, and the session file whose lines are being read.
pub struct ReportState {
    pub agents: Seq<FrameV>,
    pub id: Option<Seq<char>>,
    pub meta: Seq<char>,
    pub in_meta: bool,
    pub tails: Seq<(Seq<char>, Seq<Seq<char>>)>,
    pub file: Option<Seq<char>>,
    pub lines: Seq<Seq<char>>,
}

pub open spec fn report_start() -> ReportState {
    ReportState {
        agents: Seq::empty(),
        id: None,
        meta: Seq::empty(),
        in_meta: false,
        tails: Seq::empty(),
        file: None,
        lines: Seq::empty(),
    }
}

/// Position of the tail of file `f`.
pub open spec fn tail_pos(t: Seq<(Seq<char>, Seq<Seq<char>>)>, f: Seq<char>, i: int) -> Option<int>
    decreases t.len() - i,
{
    if i < 0 || i >= t.len() {
        None
    } else if t[i].0 == f {
        Some(i)
    } else {
        tail_pos(t, f, i + 1)
    }
}

/// The tail of file `f` set to `ls` (added when new).
pub open spec fn put_tail(t: Seq<(Seq<char>, Seq<Seq<char>>)>, f: Seq<char>, ls: Seq<Seq<char>>) -> Seq<
    (Seq<char>, Seq<Seq<char>>),
> {
    match tail_pos(t, f, 0) {
        Some(i) => t.update(i, (f, ls)),
        None => t.push((f, ls)),
    }
}

/// The lines read of the open session file are stored as its tail.
pub open spec fn close_tail(st: ReportState) -> ReportState {
    match st.file {
        Some(f) => ReportState {
            tails: put_tail(st.tails, f, st.lines),
            file: None,
            lines: Seq::empty(),
            ..st
        },
        None => st,
    }
}

/// The agent being read, if any, is added to those read, and its index
/// text and tails are cleared.
pub open spec fn close_agent(st: ReportState) -> ReportState {
    ReportState {
        agents: match st.id {
            Some(p) => st.agents.push((p, st.meta, st.tails)),
            None => st.agents,
        },
        id: None,
        meta: Seq::empty(),
        tails: Seq::empty(),
        ..st
    }
}

/// One more line of the report.  `AGENT:<id>` starts an agent (closing
/// the one before); `META_START` and `META_END` enclose its index text;
/// `TAIL:<file>` starts the lines of a session file and `END_TAIL` ends
/// them; `END_AGENT` closes the agent; other lines belong to the index
/// text or to the open session file, or are ignored.
pub open spec fn report_step(st: ReportState, l: Seq<char>) -> ReportState {
    if starts_with(l, "AGENT:"@) {
        ReportState { id: Some(l.skip(6)), in_meta: false, ..close_agent(st) }
    } else if l == "META_START"@ {
        ReportState { in_meta: true, meta: Seq::empty(), ..st }
    } else if l == "META_END"@ {
        ReportState { in_meta: false, ..st }
    } else if st.in_meta {
        ReportState { meta: st.meta + l + "\n"@, ..st }
    } else if starts_with(l, "TAIL:"@) {
        ReportState { file: Some(l.skip(5)), lines: Seq::empty(), ..close_tail(st) }
    } else if l == "END_TAIL"@ {
        close_tail(st)
    } else if l == "END_AGENT"@ {
        close_agent(close_tail(st))
    } else if st.file is Some {
        ReportState { lines: st.lines.push(l), ..st }
    } else {
        st
    }
}

pub open spec fn report_fold(ls: Seq<Seq<char>>) -> ReportState
    decreases ls.len(),
{
    if ls.len() == 0 {
        report_start()
    } else {
        report_step(report_fold(ls.drop_last()), ls.last())
    }
}

/// The agents of a report: those read, and the one being read at its end.
pub open spec fn report_agents(text: Seq<char>) -> Seq<FrameV> {
    close_agent(close_tail(report_fold(lines(text)))).agents
}

struct Reader {
    agents: Vec<AgentFrame>,
    id: Option<String>,
    meta: Vec<char>,
    in_meta: bool,
    tails: Vec<(String, Vec<String>)>,
    file: Option<String>,
    lines: Vec<String>,
}

spec fn opt_seq(o: Option<String>) -> Option<Seq<char>> {
    match o {
        Some(s) => Some(s@),
        None => None,
    }
}

spec fn reader_view(r: Reader) -> ReportState {
    ReportState {
        agents: frames_view(r.agents@),
        id: opt_seq(r.id),
        meta: r.meta@,
        in_meta: r.in_meta,
        tails: tails_v(r.tails@),
        file: opt_seq(r.file),
        lines: strings_view(r.lines@),
    }
}

fn tail_pos_exec(t: &Vec<(String, Vec<String>)>, f: &str) -> (r: Option<usize>)
    ensures
        match r {
            Some(i) => i < t.len() && tail_pos(tails_v(t@), f@, 0) == Some(i as int),
            None => tail_pos(tails_v(t@), f@, 0) is None,
        },
{
    let ghost tv = tails_v(t@);
    let fc = chars_of(f);
    let mut i: usize = 0;
    while i < t.len()
        invariant
            i <= t.len(),
            tv == tails_v(t@),
            fc@ == f@,
            tail_pos(tv, f@, 0) == tail_pos(tv, f@, i as int),
        decreases t.len() - i,
    {
        assert(tv[i as int] == (t@[i as int].0@, strings_view(t@[i as int].1@)));
        if same_chars(&chars_of(t[i].0.as_str()), &fc) {
            return Some(i);
        }
        i = i + 1;
    }
    None
}

fn take_string(o: &mut Option<String>) -> (r: Option<String>)
    ensures
        opt_seq(r) == opt_seq(*old(o)),
        *final(o) is None,
{
    match o.take() {
        Some(s) => Some(s),
        None => None,
    }
}

impl Reader {
    fn close_tail(&mut self)
        ensures
            reader_view(*final(self)) == close_tail(reader_view(*old(self))),
    {
        let ghost before = reader_view(*self);
        match take_string(&mut self.file) {
            Some(f) => {
                let mut ls: Vec<String> = Vec::new();
                std::mem::swap(&mut ls, &mut self.lines);
                let ghost tv = tails_v(self.tails@);
                match tail_pos_exec(&self.tails, f.as_str()) {
                    Some(i) => {
                        let _old = self.tails.remove(i);
                        self.tails.insert(i, (f, ls));
                        assert(tails_v(self.tails@) =~= tv.update(
                            i as int,
                            (before.file->0, before.lines),
                        ));
                    },
                    None => {
                        self.tails.push((f, ls));
                        assert(tails_v(self.tails@) =~= tv.push((before.file->0, before.lines)));
                    },
                }
                assert(strings_view(self.lines@) =~= Seq::<Seq<char>>::empty());
                assert(reader_view(*self) == close_tail(before));
            },
            None => {
                assert(reader_view(*self) == before);
            },
        }
    }

    fn close_agent(&mut self)
        ensures
            reader_view(*final(self)) == close_agent(reader_view(*old(self))),
    {
        let ghost before = reader_view(*self);
        let mut meta: Vec<char> = Vec::new();
        std::mem::swap(&mut meta, &mut self.meta);
        let mut tails: Vec<(String, Vec<String>)> = Vec::new();
        std::mem::swap(&mut tails, &mut self.tails);
        match take_string(&mut self.id) {
            Some(p) => {
                let ghost fb = frames_view(self.agents@);
                let f = AgentFrame { id: p, meta: string_of(meta.as_slice()), tails };
                self.agents.push(f);
                assert(frames_view(self.agents@) =~= fb.push(frame_view(f)));
            },
            None => {},
        }
        assert(self.meta@ =~= Seq::<char>::empty());
        assert(tails_v(self.tails@) =~= Seq::<(Seq<char>, Seq<Seq<char>>)>::empty());
        assert(reader_view(*self) == close_agent(before));
    }
    fn step(&mut self, l: &Vec<char>)
        ensures
            reader_view(*final(self)) == report_step(reader_view(*old(self)), l@),
    {
        proof {
            reveal_strlit("AGENT:");
            reveal_strlit("TAIL:");
            reveal_strlit("\n");
        }
        let ghost before = reader_view(*self);
        if starts_with_exec(l, &chars_of("AGENT:")) {
            self.close_agent();
            self.id = Some(string_of(skip_exec(l, 6).as_slice()));
            self.in_meta = false;
        } else if same_chars(l, &chars_of("META_START")) {
            self.in_meta = true;
            self.meta = Vec::new();
            assert(reader_view(*self) =~= report_step(before, l@));
        } else if same_chars(l, &chars_of("META_END")) {
            self.in_meta = false;
        } else if self.in_meta {
            let m = cat(&self.meta, l);
            let mut m2 = m;
            m2.push('\n');
            self.meta = m2;
            assert(self.meta@ =~= before.meta + l@ + "\n"@);
        } else if starts_with_exec(l, &chars_of("TAIL:")) {
            self.close_tail();
            self.file = Some(string_of(skip_exec(l, 5).as_slice()));
            self.lines = Vec::new();
            assert(strings_view(self.lines@) =~= Seq::<Seq<char>>::empty());
        } else if same_chars(l, &chars_of("END_TAIL")) {
            self.close_tail();
        } else if same_chars(l, &chars_of("END_AGENT")) {
            self.close_tail();
            self.close_agent();
        } else if self.file.is_some() {
            let ghost lv = strings_view(self.lines@);
            self.lines.push(string_of(l.as_slice()));
            assert(strings_view(self.lines@) =~= lv.push(l@));
        }
    }
}

/// Splits a remote host's health report into its agents' parts (see
/// `report_step`): the lines are read in order, and an agent still open
/// at the end, with its open session file, is closed.
pub fn read_health_report(text: &str) -> (r: Vec<AgentFrame>)
    ensures
        frames_view(r@) == report_agents(text@),
{
    let ls = lines_exec(&chars_of(text));
    let ghost lv = views(ls@);
    let mut rd = Reader {
        agents: Vec::new(),
        id: None,
        meta: Vec::new(),
        in_meta: false,
        tails: Vec::new(),
        file: None,
        lines: Vec::new(),
    };
    assert(frames_view(rd.agents@) =~= Seq::<FrameV>::empty());
    assert(rd.meta@ =~= Seq::<char>::empty());
    assert(tails_v(rd.tails@) =~= Seq::<(Seq<char>, Seq<Seq<char>>)>::empty());
    assert(strings_view(rd.lines@) =~= Seq::<Seq<char>>::empty());
    assert(reader_view(rd) == report_start());
    let mut i: usize = 0;
    assert(lv.take(0) =~= Seq::<Seq<char>>::empty());
    while i < ls.len()
        invariant
            i <= ls.len(),
            lv == views(ls@),
            lv.len() == ls.len(),
            reader_view(rd) == report_fold(lv.take(i as int)),
        decreases ls.len() - i,
    {
        assert(lv.take(i + 1).drop_last() =~= lv.take(i as int));
        assert(lv.take(i + 1).last() == ls@[i as int]@);
        rd.step(&ls[i]);
        i = i + 1;
    }
    assert(lv.take(ls.len() as int) =~= lv);
    rd.close_tail();
    rd.close_agent();
    rd.agents
}

// ---------------------------------------------------------------------
// Health from the gateway's session list
// ---------------------------------------------------------------------

/// The agent a gateway session belongs to: its `agentId`, else the
/// second `:`-separated field of its key, else `main`.
pub open spec fn session_agent(s: JsonV) -> Seq<char> {
    match str_at(s, "agentId"@) {
        Some(a) => a,
        None => match str_at(s, "key"@) {
            Some(k) => match second_field(k) {
                Some(x) => x,
                None => "main"@,
            },
            None => "main"@,
        },
    }
}

/// The status reply given for session `i`, if any.
pub open spec fn reply_at(rs: Seq<Option<JsonV>>, i: int) -> Option<JsonV> {
    if 0 <= i < rs.len() {
        rs[i]
    } else {
        None
    }
}

/// Position of agent `a` among the pairs.
pub open spec fn agent_pos(p: Seq<(Seq<char>, bool)>, a: Seq<char>, i: int) -> Option<int>
    decreases p.len() - i,
{
    if i < 0 || i >= p.len() {
        None
    } else if p[i].0 == a {
        Some(i)
    } else {
        agent_pos(p, a, i + 1)
    }
}

/// Each agent of the sessions once, in the order it first appears, with
/// whether any of its sessions is active (see `remote_active`; `rs[i]` is
/// the status reply for session `i`, none when it was not asked or the
/// request failed).
pub open spec fn gateway_activity(ss: Seq<JsonV>, rs: Seq<Option<JsonV>>, now_ms: u64) -> Seq<
    (Seq<char>, bool),
>
    decreases ss.len(),
{
    if ss.len() == 0 {
        Seq::empty()
    } else {
        let p = gateway_activity(ss.drop_last(), rs, now_ms);
        let s = ss.last();
        let a = session_agent(s);
        let act = remote_active(reply_at(rs, ss.len() - 1), s, now_ms);
        match agent_pos(p, a, 0) {
            Some(i) => p.update(i, (a, p[i].1 || act)),
            None => p.push((a, act)),
        }
    }
}

proof fn lemma_agent_pos(p: Seq<(Seq<char>, bool)>, a: Seq<char>, i: int)
    requires
        0 <= i,
    ensures
        agent_pos(p, a, i) matches Some(k) ==> i <= k < p.len() && p[k].0 == a,
    decreases p.len() - i,
{
    if i < p.len() && p[i].0 != a {
        lemma_agent_pos(p, a, i + 1);
    }
}

proof fn lemma_agent_pos_none(p: Seq<(Seq<char>, bool)>, a: Seq<char>, i: int)
    requires
        0 <= i,
        agent_pos(p, a, i) is None,
    ensures
        forall|k: int| i <= k < p.len() ==> p[k].0 != a,
    decreases p.len() - i,
{
    if i < p.len() {
        lemma_agent_pos_none(p, a, i + 1);
    }
}

/// The health the gateway's sessions give names each agent once.
pub proof fn law_gateway_agents_once(ss: Seq<JsonV>, rs: Seq<Option<JsonV>>, now_ms: u64)
    ensures
        forall|i: int, j: int|
            0 <= i < j < gateway_activity(ss, rs, now_ms).len() ==> gateway_activity(ss, rs, now_ms)[i].0
                != gateway_activity(ss, rs, now_ms)[j].0,
    decreases ss.len(),
{
    if ss.len() > 0 {
        law_gateway_agents_once(ss.drop_last(), rs, now_ms);
        let p = gateway_activity(ss.drop_last(), rs, now_ms);
        let a = session_agent(ss.last());
        lemma_agent_pos(p, a, 0);
        if agent_pos(p, a, 0) is None {
            lemma_agent_pos_none(p, a, 0);
        }
    }
}

pub open spec fn agents_pairs(s: Seq<AgentHealth>) -> Seq<(Seq<char>, bool)> {
    s.map_values(|h: AgentHealth| (h.agent_id@, h.active))
}

fn session_agent_exec(s: &Json) -> (r: String)
    ensures
        r@ == session_agent(s@),
{
    match str_at_exec(s, "agentId") {
        Some(a) => a.to_string(),
        None => match str_at_exec(s, "key") {
            Some(k) => match second_field_exec(&chars_of(k)) {
                Some(x) => string_of(x.as_slice()),
                None => "main".to_string(),
            },
            None => "main".to_string(),
        },
    }
}

fn agent_pos_exec(out: &Vec<AgentHealth>, a: &str) -> (r: Option<usize>)
    ensures
        match r {
            Some(i) => i < out.len() && agent_pos(agents_pairs(out@), a@, 0) == Some(i as int),
            None => agent_pos(agents_pairs(out@), a@, 0) is None,
        },
{
    let ghost pv = agents_pairs(out@);
    let ac = chars_of(a);
    let mut i: usize = 0;
    while i < out.len()
        invariant
            i <= out.len(),
            pv == agents_pairs(out@),
            ac@ == a@,
            agent_pos(pv, a@, 0) == agent_pos(pv, a@, i as int),
        decreases out.len() - i,
    {
        assert(pv[i as int] == (out@[i as int].agent_id@, out@[i as int].active));
        if same_chars(&chars_of(out[i].agent_id.as_str()), &ac) {
            return Some(i);
        }
        i = i + 1;
    }
    None
}

/// The health of the agents of the gateway's sessions at time `now_ms`
/// (see `gateway_activity`), without per-session detail; `replies[i]` is
/// the status reply for session `i`.
pub fn gateway_health(sessions: &Vec<Json>, replies: &Vec<Option<Json>>, now_ms: u64) -> (r: Vec<
    AgentHealth,
>)
    ensures
        agents_pairs(r@) == gateway_activity(jv_list(sessions@), lines_view(replies@), now_ms),
        forall|i: int| 0 <= i < r@.len() ==> (#[trigger] r@[i]).sessions@.len() == 0,
{
    proof {
        lemma_jv_list_len(sessions@);
    }
    let ghost sv = jv_list(sessions@);
    let ghost rv = lines_view(replies@);
    let mut out: Vec<AgentHealth> = Vec::new();
    let mut i: usize = 0;
    assert(sv.take(0) =~= Seq::<JsonV>::empty());
    assert(agents_pairs(out@) =~= Seq::<(Seq<char>, bool)>::empty());
    while i < sessions.len()
        invariant
            i <= sessions.len(),
            sv == jv_list(sessions@),
            rv == lines_view(replies@),
            rv.len() == replies.len(),
            sv.len() == sessions.len(),
            forall|k: int| 0 <= k < sessions.len() ==> #[trigger] sv[k] == jv(sessions@[k]),
            forall|k: int| 0 <= k < replies.len() ==> #[trigger] rv[k] == match replies@[k] {
                Some(x) => Some(x@),
                None => None::<JsonV>,
            },
            agents_pairs(out@) == gateway_activity(sv.take(i as int), rv, now_ms),
            forall|k: int| 0 <= k < out@.len() ==> (#[trigger] out@[k]).sessions@.len() == 0,
        decreases sessions.len() - i,
    {
        let ghost t = sv.take(i + 1);
        assert(t.drop_last() =~= sv.take(i as int));
        assert(t.last() == sv[i as int]);
        let s = &sessions[i];
        let reply: Option<&Json> = if i < replies.len() {
            match &replies[i] {
                Some(x) => Some(x),
                None => None,
            }
        } else {
            None
        };
        let act = remote_session_active(reply, s, now_ms);
        let a = session_agent_exec(s);
        let ghost pv = agents_pairs(out@);
        match agent_pos_exec(&out, a.as_str()) {
            Some(k) => {
                proof {
                    lemma_agent_pos(pv, a@, 0);
                }
                assert(pv[k as int] == (out@[k as int].agent_id@, out@[k as int].active));
                let old_h = out.remove(k);
                let was = old_h.active;
                out.insert(k, AgentHealth { agent_id: old_h.agent_id, active: was || act, sessions: Vec::new() });
                assert(agents_pairs(out@) =~= pv.update(k as int, (a@, pv[k as int].1 || act)));
            },
            None => {
                out.push(AgentHealth { agent_id: a, active: act, sessions: Vec::new() });
                assert(agents_pairs(out@) =~= pv.push((a@, act)));
            },
        }
        i = i + 1;
    }
    assert(sv.take(sessions.len() as int) =~= sv);
    out
}

/// An agent's health with it and all its sessions marked inactive (its
/// session files are stale when the local gateway is not running).
pub fn all_inactive(a: AgentHealth) -> (r: AgentHealth)
    ensures
        r.agent_id@ == a.agent_id@,
        !r.active,
        r.sessions@.len() == a.sessions@.len(),
        forall|i: int| 0 <= i < r.sessions@.len() ==> {
            &&& (#[trigger] r.sessions@[i]).key@ == a.sessions@[i].key@
            &&& !r.sessions@[i].active
        },
{
    let mut out: Vec<SessionHealth> = Vec::new();
    let mut i: usize = 0;
    while i < a.sessions.len()
        invariant
            i <= a.sessions.len(),
            out@.len() == i,
            forall|k: int| 0 <= k < i ==> {
                &&& (#[trigger] out@[k]).key@ == a.sessions@[k].key@
                &&& !out@[k].active
            },
        decreases a.sessions.len() - i,
    {
        out.push(SessionHealth { key: a.sessions[i].key.clone(), active: false });
        i = i + 1;
    }
    AgentHealth { agent_id: a.agent_id, active: false, sessions: out }
}

/// A lock file of the local gateway: `gateway.<hash>.lock`.
pub open spec fn gateway_lock_name(name: Seq<char>) -> bool {
    starts_with(name, "gateway."@) && ends_with(name, ".lock"@)
}

/// Whether a file name is that of a gateway lock file.
pub fn is_gateway_lock_name(name: &str) -> (r: bool)
    ensures
        r == gateway_lock_name(name@),
{
    let c = chars_of(name);
    starts_with_exec(&c, &chars_of("gateway.")) && ends_with_exec(&c, &chars_of(".lock"))
}

} // verus!
