//! Token statistics of the cc client and Codex transcripts over the last
//! fourteen days.
use vstd::prelude::*;
use crate::json::{Json, JsonV, get, at, as_str, as_u64, str_at, get_exec, as_u64_exec, str_at_exec, same_text};
use crate::text::{chars_of, string_of, width_upto};
use crate::metrics::{str_or, u64_at, sat_add, lines_view};
use crate::types::opt_view;

verus! {

broadcast use vstd::string::group_string_axioms;

// ---------------------------------------------------------------------
// Model
// ---------------------------------------------------------------------

/// Tokens, messages and sessions of one day.
#[derive(Debug, PartialEq, Eq)]
pub struct ClaudeDailyStats {
    pub date: String,
    pub input_tokens: u64,
    pub output_tokens: u64,
    pub cache_read_tokens: u64,
    pub cache_write_tokens: u64,
    pub messages: u64,
    pub sessions: u64,
}

/// The view of a day's statistics.
pub struct DayStatV {
    pub date: Seq<char>,
    pub input: u64,
    pub output: u64,
    pub cache_read: u64,
    pub cache_write: u64,
    pub messages: u64,
    pub sessions: u64,
}

pub open spec fn day_stat_view(d: ClaudeDailyStats) -> DayStatV {
    DayStatV {
        date: d.date@,
        input: d.input_tokens,
        output: d.output_tokens,
        cache_read: d.cache_read_tokens,
        cache_write: d.cache_write_tokens,
        messages: d.messages,
        sessions: d.sessions,
    }
}

pub open spec fn day_stats_view(s: Seq<ClaudeDailyStats>) -> Seq<DayStatV> {
    s.map_values(|d: ClaudeDailyStats| day_stat_view(d))
}

/// Totals over all transcripts, and per day.
#[derive(Debug, PartialEq, Eq)]
pub struct ClaudeStats {
    pub total_input_tokens: u64,
    pub total_output_tokens: u64,
    pub total_cache_read_tokens: u64,
    pub total_cache_write_tokens: u64,
    pub total_messages: u64,
    pub total_sessions: u64,
    pub daily_stats: Vec<ClaudeDailyStats>,
    pub model: String,
}

/// The view of the totals (the days are viewed separately).
pub struct StatsV {
    pub input: u64,
    pub output: u64,
    pub cache_read: u64,
    pub cache_write: u64,
    pub messages: u64,
    pub sessions: u64,
    pub days: Seq<DayStatV>,
    pub model: Seq<char>,
}

pub open spec fn stats_view(s: ClaudeStats) -> StatsV {
    StatsV {
        input: s.total_input_tokens,
        output: s.total_output_tokens,
        cache_read: s.total_cache_read_tokens,
        cache_write: s.total_cache_write_tokens,
        messages: s.total_messages,
        sessions: s.total_sessions,
        days: day_stats_view(s.daily_stats@),
        model: s.model@,
    }
}

/// Reading state within one transcript: whether it counted as a session,
/// its first dated day, and Codex's last cumulative totals.
pub struct FileV {
    pub counted: bool,
    pub day: Option<Seq<char>>,
    pub prev_in: Option<u64>,
    pub prev_out: Option<u64>,
    pub prev_cached: Option<u64>,
}

// ---------------------------------------------------------------------
// Steps
// ---------------------------------------------------------------------

/// `ts.get(..10)`: the first ten bytes, when they end on a character
/// boundary; else the empty text.
pub open spec fn date10(ts: Seq<char>) -> Seq<char> {
    if exists|k: int| 0 <= k <= ts.len() && width_upto(ts, k) == 10 {
        ts.take(choose|k: int| 0 <= k <= ts.len() && width_upto(ts, k) == 10)
    } else {
        Seq::empty()
    }
}

/// The date of a line's timestamp, empty when it has none.
pub open spec fn line_date(v: JsonV) -> Seq<char> {
    match str_at(v, "timestamp"@) {
        Some(ts) => date10(ts),
        None => Seq::empty(),
    }
}

/// Text order (by characters, which is the order of their UTF-8 bytes).
pub open spec fn text_less(a: Seq<char>, b: Seq<char>) -> bool
    decreases a.len(),
{
    if b.len() == 0 {
        false
    } else if a.len() == 0 {
        true
    } else if a[0] != b[0] {
        (a[0] as int) < (b[0] as int)
    } else {
        text_less(a.drop_first(), b.drop_first())
    }
}

/// Position at or after `i` of day `d`.
pub open spec fn stat_pos(t: Seq<DayStatV>, d: Seq<char>, i: int) -> Option<int>
    decreases t.len() - i,
{
    if i < 0 || i >= t.len() {
        None
    } else if t[i].date == d {
        Some(i)
    } else {
        stat_pos(t, d, i + 1)
    }
}

pub open spec fn zero_day(d: Seq<char>) -> DayStatV {
    DayStatV { date: d, input: 0, output: 0, cache_read: 0, cache_write: 0, messages: 0, sessions: 0 }
}

/// A day's statistics with the given amounts added.
pub open spec fn add_to_day(
    x: DayStatV,
    inp: u64,
    out: u64,
    cr: u64,
    cw: u64,
    msgs: u64,
    sess: u64,
) -> DayStatV {
    DayStatV {
        input: sat_add(x.input, inp),
        output: sat_add(x.output, out),
        cache_read: sat_add(x.cache_read, cr),
        cache_write: sat_add(x.cache_write, cw),
        messages: sat_add(x.messages, msgs),
        sessions: sat_add(x.sessions, sess),
        ..x
    }
}

/// The days with amounts added to day `d` (a missing day starts at zero).
pub open spec fn bump_day(
    t: Seq<DayStatV>,
    d: Seq<char>,
    inp: u64,
    out: u64,
    cr: u64,
    cw: u64,
    msgs: u64,
    sess: u64,
) -> Seq<DayStatV> {
    match stat_pos(t, d, 0) {
        Some(i) => t.update(i, add_to_day(t[i], inp, out, cr, cw, msgs, sess)),
        None => t.push(add_to_day(zero_day(d), inp, out, cr, cw, msgs, sess)),
    }
}

/// Counts one message of `date` with the given tokens.
pub open spec fn count_message(
    s: StatsV,
    f: FileV,
    date: Seq<char>,
    inp: u64,
    out: u64,
    cr: u64,
    cw: u64,
) -> (StatsV, FileV) {
    let s1 = StatsV {
        input: sat_add(s.input, inp),
        output: sat_add(s.output, out),
        cache_read: sat_add(s.cache_read, cr),
        cache_write: sat_add(s.cache_write, cw),
        messages: sat_add(s.messages, 1),
        sessions: if f.counted {
            s.sessions
        } else {
            sat_add(s.sessions, 1)
        },
        ..s
    };
    let f1 = FileV {
        counted: true,
        day: if f.day is None && date.len() > 0 {
            Some(date)
        } else {
            f.day
        },
        ..f
    };
    let s2 = if date.len() > 0 {
        StatsV {
            days: bump_day(s1.days, date, inp, out, cr, cw, 1, 0),
            ..s1
        }
    } else {
        s1
    };
    (s2, f1)
}

/// `now` less `prev` (never below zero), or `now` without a previous total.
pub open spec fn delta(now: u64, prev: Option<u64>) -> u64 {
    match prev {
        Some(p) => if now >= p {
            (now - p) as u64
        } else {
            0
        },
        None => now,
    }
}

/// One transcript line, for lines dated from `cutoff` on: a cc client
/// assistant message counts its usage; Codex's session metadata names the
/// model; Codex's cumulative token counts count their increase.
pub open spec fn stats_step(st: (StatsV, FileV), v: JsonV, cutoff: Seq<char>) -> (StatsV, FileV) {
    let (s, f) = st;
    let ty = str_or(v, "type"@, Seq::empty());
    let payload = at(v, "payload"@);
    if ty == "assistant"@ {
        match get(v, "message"@) {
            None => st,
            Some(msg) => match get(msg, "usage"@) {
                None => st,
                Some(usage) => {
                    let date = line_date(v);
                    if text_less(date, cutoff) {
                        st
                    } else {
                        let s0 = if s.model.len() == 0 {
                            match str_at(msg, "model"@) {
                                Some(m) => StatsV { model: m, ..s },
                                None => s,
                            }
                        } else {
                            s
                        };
                        count_message(
                            s0,
                            f,
                            date,
                            u64_at(usage, "input_tokens"@),
                            u64_at(usage, "output_tokens"@),
                            u64_at(usage, "cache_read_input_tokens"@),
                            u64_at(usage, "cache_creation_input_tokens"@),
                        )
                    }
                },
            },
        }
    } else if ty == "session_meta"@ && s.model.len() == 0 {
        match str_at(payload, "model"@) {
            Some(m) => (StatsV { model: m, ..s }, f),
            None => match str_at(payload, "model_provider"@) {
                Some(p) => (StatsV { model: p, ..s }, f),
                None => st,
            },
        }
    } else if ty == "event_msg"@ && str_at(payload, "type"@) == Some("token_count"@) {
        match get(at(payload, "info"@), "total_token_usage"@) {
            None => st,
            Some(tu) => {
                let ni = u64_at(tu, "input_tokens"@);
                let no = u64_at(tu, "output_tokens"@);
                let nc = u64_at(tu, "cached_input_tokens"@);
                let di = delta(ni, f.prev_in);
                let d_o = delta(no, f.prev_out);
                let dc = delta(nc, f.prev_cached);
                let f1 = FileV { prev_in: Some(ni), prev_out: Some(no), prev_cached: Some(nc), ..f };
                let date = line_date(v);
                if (di == 0 && d_o == 0 && dc == 0) || text_less(date, cutoff) {
                    (s, f1)
                } else {
                    count_message(s, f1, date, di, d_o, dc, 0)
                }
            },
        }
    } else {
        st
    }
}

pub open spec fn stats_fold(st: (StatsV, FileV), lines: Seq<Option<JsonV>>, cutoff: Seq<char>) -> (
    StatsV,
    FileV,
)
    decreases lines.len(),
{
    if lines.len() == 0 {
        st
    } else {
        let prev = stats_fold(st, lines.drop_last(), cutoff);
        match lines.last() {
            Some(v) => stats_step(prev, v, cutoff),
            None => prev,
        }
    }
}

pub open spec fn file_start() -> FileV {
    FileV { counted: false, day: None, prev_in: None, prev_out: None, prev_cached: None }
}

/// The statistics after one transcript: its lines, then one session on
/// its first dated day, else on the day it was modified (`modified_day`).
pub open spec fn stats_after_file(
    s: StatsV,
    lines: Seq<Option<JsonV>>,
    cutoff: Seq<char>,
    modified_day: Option<Seq<char>>,
) -> StatsV {
    let (s1, f1) = stats_fold((s, file_start()), lines, cutoff);
    if f1.counted {
        match (match f1.day {
            Some(d) => Some(d),
            None => modified_day,
        }) {
            Some(d) => StatsV {
                days: bump_day(s1.days, d, 0, 0, 0, 0, 0, 1),
                ..s1
            },
            None => s1,
        }
    } else {
        s1
    }
}


/// The same totals and the same days (the model aside).
pub open spec fn same_counts(a: StatsV, b: StatsV) -> bool {
    &&& a.input == b.input
    &&& a.output == b.output
    &&& a.cache_read == b.cache_read
    &&& a.cache_write == b.cache_write
    &&& a.messages == b.messages
    &&& a.sessions == b.sessions
    &&& a.days == b.days
}

proof fn lemma_early_lines_count_nothing(s: StatsV, lines: Seq<Option<JsonV>>, cutoff: Seq<char>)
    requires
        forall|i: int|
            0 <= i < lines.len() ==> (#[trigger] lines[i] matches Some(v) ==> text_less(
                line_date(v),
                cutoff,
            )),
    ensures
        ({
            let (s1, f1) = stats_fold((s, file_start()), lines, cutoff);
            same_counts(s1, s) && !f1.counted && f1.day is None
        }),
    decreases lines.len(),
{
    if lines.len() > 0 {
        let rest = lines.drop_last();
        assert forall|i: int| 0 <= i < rest.len() implies (#[trigger] rest[i] matches Some(v)
            ==> text_less(line_date(v), cutoff)) by {
            assert(rest[i] == lines[i]);
        }
        lemma_early_lines_count_nothing(s, rest, cutoff);
        assert(lines[lines.len() - 1] == lines.last());
    }
}

/// Lines dated before the cutoff count nothing: a transcript all of
/// whose lines are dated before `cutoff` (cc client assistant messages and
/// Codex token counts alike) leaves every total and every day as it was.
pub proof fn law_early_lines_count_nothing(
    s: StatsV,
    lines: Seq<Option<JsonV>>,
    cutoff: Seq<char>,
    modified_day: Option<Seq<char>>,
)
    requires
        forall|i: int|
            0 <= i < lines.len() ==> (#[trigger] lines[i] matches Some(v) ==> text_less(
                line_date(v),
                cutoff,
            )),
    ensures
        ({
            let r = stats_after_file(s, lines, cutoff, modified_day);
            &&& r.input == s.input
            &&& r.output == s.output
            &&& r.cache_read == s.cache_read
            &&& r.cache_write == s.cache_write
            &&& r.messages == s.messages
            &&& r.sessions == s.sessions
            &&& r.days == s.days
        }),
{
    lemma_early_lines_count_nothing(s, lines, cutoff);
}


/// A cc client assistant message with usage, dated on or after the
/// cutoff, counts: as the only line of a transcript it adds one message,
/// one session and its input and output tokens to the totals (stopping at
/// the largest `u64`).
pub proof fn law_dated_message_counts(
    s: StatsV,
    v: JsonV,
    msg: JsonV,
    usage: JsonV,
    cutoff: Seq<char>,
    modified_day: Option<Seq<char>>,
)
    requires
        str_at(v, "type"@) == Some("assistant"@),
        get(v, "message"@) == Some(msg),
        get(msg, "usage"@) == Some(usage),
        !text_less(line_date(v), cutoff),
    ensures
        ({
            let r = stats_after_file(s, seq![Some(v)], cutoff, modified_day);
            &&& r.messages == sat_add(s.messages, 1)
            &&& r.sessions == sat_add(s.sessions, 1)
            &&& r.input == sat_add(s.input, crate::metrics::u64_at(usage, "input_tokens"@))
            &&& r.output == sat_add(s.output, crate::metrics::u64_at(usage, "output_tokens"@))
        }),
{
    let lines = seq![Some(v)];
    let st0 = (s, file_start());
    assert(lines.drop_last() =~= Seq::<Option<JsonV>>::empty());
    assert(stats_fold(st0, lines.drop_last(), cutoff) == st0);
    assert(lines.last() == Some(v));
    assert(stats_fold(st0, lines, cutoff) == stats_step(st0, v, cutoff));
    assert(str_or(v, "type"@, Seq::empty()) == "assistant"@);
    let (s1, f1) = stats_step(st0, v, cutoff);
    assert(f1.counted);
    assert(s1.messages == sat_add(s.messages, 1));
    assert(s1.sessions == sat_add(s.sessions, 1));
}

/// A Codex token count dated on or after the cutoff counts: as the only
/// line of a transcript, its input tokens (the first cumulative total)
/// are added, with one message and one session, when they are not zero.
pub proof fn law_dated_token_count_counts(
    s: StatsV,
    v: JsonV,
    tu: JsonV,
    cutoff: Seq<char>,
    modified_day: Option<Seq<char>>,
)
    requires
        str_at(v, "type"@) == Some("event_msg"@),
        str_at(at(v, "payload"@), "type"@) == Some("token_count"@),
        get(at(at(v, "payload"@), "info"@), "total_token_usage"@) == Some(tu),
        crate::metrics::u64_at(tu, "input_tokens"@) > 0,
        !text_less(line_date(v), cutoff),
    ensures
        ({
            let r = stats_after_file(s, seq![Some(v)], cutoff, modified_day);
            &&& r.messages == sat_add(s.messages, 1)
            &&& r.sessions == sat_add(s.sessions, 1)
            &&& r.input == sat_add(s.input, crate::metrics::u64_at(tu, "input_tokens"@))
        }),
{
    reveal_strlit("assistant");
    reveal_strlit("event_msg");
    reveal_strlit("session_meta");
    let lines = seq![Some(v)];
    let st0 = (s, file_start());
    assert(lines.drop_last() =~= Seq::<Option<JsonV>>::empty());
    assert(stats_fold(st0, lines.drop_last(), cutoff) == st0);
    assert(lines.last() == Some(v));
    assert(stats_fold(st0, lines, cutoff) == stats_step(st0, v, cutoff));
    assert(str_or(v, "type"@, Seq::empty()) == "event_msg"@);
    assert("event_msg"@ != "assistant"@) by {
        assert("event_msg"@[0] != "assistant"@[0]);
    }
    assert("event_msg"@ != "session_meta"@) by {
        assert("event_msg"@[0] != "session_meta"@[0]);
    }
}


// ---------------------------------------------------------------------
// Executable
// ---------------------------------------------------------------------

/// `ts.get(..10)` as text (see `date10`).
fn date10_exec(ts: &str) -> (r: Vec<char>)
    ensures
        r@ == date10(ts@),
{
    let cs = chars_of(ts);
    let mut k: usize = 0;
    let mut used: usize = 0;
    while k < cs.len() && used < 10
        invariant
            k <= cs.len(),
            used == width_upto(cs@, k as int),
            forall|m: int| 0 <= m < k ==> width_upto(cs@, m) < 10,
        decreases cs.len() - k,
    {
        proof {
            crate::daily::lemma_width_step(cs@, k as int);
        }
        used = used + crate::text::char_width_exec(cs[k]);
        k = k + 1;
    }
    if used == 10 {
        proof {
            let j = choose|j: int| 0 <= j <= ts@.len() && width_upto(ts@, j) == 10;
            crate::daily::lemma_width_unique(cs@, j, k as int);
        }
        crate::text::take_exec(&cs, k)
    } else {
        proof {
            assert forall|j: int| 0 <= j <= ts@.len() implies width_upto(ts@, j) != 10 by {
                if j > k {
                    crate::text::lemma_width_upto_mono(cs@, k as int, j);
                }
            }
        }
        Vec::new()
    }
}

fn text_less_exec(a: &Vec<char>, b: &Vec<char>) -> (r: bool)
    ensures
        r == text_less(a@, b@),
{
    let mut i: usize = 0;
    assert(a@.skip(0) =~= a@);
    assert(b@.skip(0) =~= b@);
    while i < a.len() && i < b.len() && a[i] == b[i]
        invariant
            i <= a.len(),
            i <= b.len(),
            text_less(a@, b@) == text_less(a@.skip(i as int), b@.skip(i as int)),
        decreases a.len() - i,
    {
        assert(a@.skip(i as int).drop_first() =~= a@.skip(i + 1));
        assert(b@.skip(i as int).drop_first() =~= b@.skip(i + 1));
        i = i + 1;
    }
    if i == b.len() {
        false
    } else if i == a.len() {
        true
    } else {
        assert(a@.skip(i as int)[0] == a@[i as int]);
        assert(b@.skip(i as int)[0] == b@[i as int]);
        a[i] < b[i]
    }
}

fn line_date_exec(v: &Json) -> (r: Vec<char>)
    ensures
        r@ == line_date(v@),
{
    match str_at_exec(v, "timestamp") {
        Some(ts) => date10_exec(ts),
        None => Vec::new(),
    }
}

fn find_stat(t: &Vec<ClaudeDailyStats>, d: &Vec<char>) -> (r: Option<usize>)
    ensures
        match r {
            Some(i) => i < t.len() && stat_pos(day_stats_view(t@), d@, 0) == Some(i as int),
            None => stat_pos(day_stats_view(t@), d@, 0) is None,
        },
{
    let mut i: usize = 0;
    while i < t.len()
        invariant
            i <= t.len(),
            stat_pos(day_stats_view(t@), d@, 0) == stat_pos(day_stats_view(t@), d@, i as int),
        decreases t.len() - i,
    {
        assert(day_stats_view(t@)[i as int] == day_stat_view(t@[i as int]));
        if crate::json::same_chars(&chars_of(t[i].date.as_str()), d) {
            return Some(i);
        }
        i = i + 1;
    }
    None
}

proof fn lemma_stat_pos(t: Seq<DayStatV>, d: Seq<char>, i: int)
    requires
        0 <= i,
    ensures
        stat_pos(t, d, i) matches Some(k) ==> i <= k < t.len() && t[k].date == d,
    decreases t.len() - i,
{
    if i < t.len() && t[i].date != d {
        lemma_stat_pos(t, d, i + 1);
    }
}

/// Adds to the statistics of day `d` (a missing day starts at zero).
fn bump_exec(
    t: &mut Vec<ClaudeDailyStats>,
    d: &Vec<char>,
    inp: u64,
    out: u64,
    cr: u64,
    cw: u64,
    msgs: u64,
    sess: u64,
)
    ensures
        day_stats_view(final(t)@) == bump_day(
            day_stats_view(old(t)@),
            d@,
            inp,
            out,
            cr,
            cw,
            msgs,
            sess,
        ),
{
    let ghost tv = day_stats_view(t@);
    let base = match find_stat(t, d) {
        Some(i) => {
            proof {
                lemma_stat_pos(tv, d@, 0);
            }
            assert(tv[i as int] == day_stat_view(t@[i as int]));
            let x = t.remove(i);
            (Some(i), x)
        },
        None => (
            None,
            ClaudeDailyStats {
                date: string_of(d.as_slice()),
                input_tokens: 0,
                output_tokens: 0,
                cache_read_tokens: 0,
                cache_write_tokens: 0,
                messages: 0,
                sessions: 0,
            },
        ),
    };
    let (pos, x) = base;
    let y = ClaudeDailyStats {
        date: x.date,
        input_tokens: x.input_tokens.saturating_add(inp),
        output_tokens: x.output_tokens.saturating_add(out),
        cache_read_tokens: x.cache_read_tokens.saturating_add(cr),
        cache_write_tokens: x.cache_write_tokens.saturating_add(cw),
        messages: x.messages.saturating_add(msgs),
        sessions: x.sessions.saturating_add(sess),
    };
    match pos {
        Some(i) => {
            t.insert(i, y);
            assert(day_stats_view(t@) =~= tv.update(i as int, day_stat_view(y)));
        },
        None => {
            t.push(y);
            assert(day_stats_view(t@) =~= tv.push(day_stat_view(y)));
        },
    }
}


/// Reading state within one transcript.
pub struct FileState {
    pub counted: bool,
    pub day: Option<String>,
    pub prev_in: Option<u64>,
    pub prev_out: Option<u64>,
    pub prev_cached: Option<u64>,
}

pub open spec fn file_view(f: FileState) -> FileV {
    FileV {
        counted: f.counted,
        day: opt_view(f.day),
        prev_in: f.prev_in,
        prev_out: f.prev_out,
        prev_cached: f.prev_cached,
    }
}

fn count_message_exec(
    s: &mut ClaudeStats,
    f: &mut FileState,
    date: &Vec<char>,
    inp: u64,
    out: u64,
    cr: u64,
    cw: u64,
)
    ensures
        (stats_view(*final(s)), file_view(*final(f))) == count_message(
            stats_view(*old(s)),
            file_view(*old(f)),
            date@,
            inp,
            out,
            cr,
            cw,
        ),
{
    s.total_input_tokens = s.total_input_tokens.saturating_add(inp);
    s.total_output_tokens = s.total_output_tokens.saturating_add(out);
    s.total_cache_read_tokens = s.total_cache_read_tokens.saturating_add(cr);
    s.total_cache_write_tokens = s.total_cache_write_tokens.saturating_add(cw);
    s.total_messages = s.total_messages.saturating_add(1);
    if !f.counted {
        f.counted = true;
        s.total_sessions = s.total_sessions.saturating_add(1);
    }
    if f.day.is_none() && date.len() > 0 {
        f.day = Some(string_of(date.as_slice()));
    }
    if date.len() > 0 {
        bump_exec(&mut s.daily_stats, date, inp, out, cr, cw, 1, 0);
    }
}

fn u64_of(v: &Json, key: &str) -> (r: u64)
    ensures
        r == u64_at(v@, key@),
{
    match get_exec(v, key) {
        Some(x) => match as_u64_exec(x) {
            Some(n) => n,
            None => 0,
        },
        None => 0,
    }
}

fn delta_exec(now: u64, prev: Option<u64>) -> (r: u64)
    ensures
        r == delta(now, prev),
{
    match prev {
        Some(p) => now.saturating_sub(p),
        None => now,
    }
}

fn stats_line_exec(s: &mut ClaudeStats, f: &mut FileState, v: &Json, cutoff: &Vec<char>)
    ensures
        (stats_view(*final(s)), file_view(*final(f))) == stats_step(
            (stats_view(*old(s)), file_view(*old(f))),
            v@,
            cutoff@,
        ),
{
    proof {
        reveal_strlit("");
        assert(""@ =~= Seq::<char>::empty());
        reveal_strlit("assistant");
        reveal_strlit("session_meta");
        reveal_strlit("event_msg");
    }
    let ty: &str = match str_at_exec(v, "type") {
        Some(t) => t,
        None => "",
    };
    let null = Json::Null;
    let payload: &Json = match get_exec(v, "payload") {
        Some(x) => x,
        None => &null,
    };
    if same_text(ty, "assistant") {
        match get_exec(v, "message") {
            None => {},
            Some(msg) => match get_exec(msg, "usage") {
                None => {},
                Some(usage) => {
                    let date = line_date_exec(v);
                    if !text_less_exec(&date, cutoff) {
                        if chars_of(s.model.as_str()).len() == 0 {
                            match str_at_exec(msg, "model") {
                                Some(m) => {
                                    s.model = m.to_string();
                                },
                                None => {},
                            }
                        }
                        count_message_exec(
                            s,
                            f,
                            &date,
                            u64_of(usage, "input_tokens"),
                            u64_of(usage, "output_tokens"),
                            u64_of(usage, "cache_read_input_tokens"),
                            u64_of(usage, "cache_creation_input_tokens"),
                        );
                    }
                },
            },
        }
    } else if same_text(ty, "session_meta") && chars_of(s.model.as_str()).len() == 0 {
        match str_at_exec(payload, "model") {
            Some(m) => {
                s.model = m.to_string();
            },
            None => match str_at_exec(payload, "model_provider") {
                Some(p) => {
                    s.model = p.to_string();
                },
                None => {},
            },
        }
    } else if same_text(ty, "event_msg") && match str_at_exec(payload, "type") {
        Some(t) => same_text(t, "token_count"),
        None => false,
    } {
        let info: &Json = match get_exec(payload, "info") {
            Some(x) => x,
            None => &null,
        };
        match get_exec(info, "total_token_usage") {
            None => {},
            Some(tu) => {
                let ni = u64_of(tu, "input_tokens");
                let no = u64_of(tu, "output_tokens");
                let nc = u64_of(tu, "cached_input_tokens");
                let di = delta_exec(ni, f.prev_in);
                let d_o = delta_exec(no, f.prev_out);
                let dc = delta_exec(nc, f.prev_cached);
                f.prev_in = Some(ni);
                f.prev_out = Some(no);
                f.prev_cached = Some(nc);
                let date = line_date_exec(v);
                if !((di == 0 && d_o == 0 && dc == 0) || text_less_exec(&date, cutoff)) {
                    count_message_exec(s, f, &date, di, d_o, dc, 0);
                }
            },
        }
    }
}

/// Statistics before any transcript.
pub fn stats_start() -> (r: ClaudeStats)
    ensures
        stats_view(r) == (StatsV {
            input: 0,
            output: 0,
            cache_read: 0,
            cache_write: 0,
            messages: 0,
            sessions: 0,
            days: Seq::empty(),
            model: Seq::empty(),
        }),
{
    let r = ClaudeStats {
        total_input_tokens: 0,
        total_output_tokens: 0,
        total_cache_read_tokens: 0,
        total_cache_write_tokens: 0,
        total_messages: 0,
        total_sessions: 0,
        daily_stats: Vec::new(),
        model: String::new(),
    };
    assert(day_stats_view(r.daily_stats@) =~= Seq::<DayStatV>::empty());
    r
}

/// Adds one transcript to the statistics (see `stats_after_file`): its
/// lines (`None` where a line did not parse or was blank), the first day
/// counted (`cutoff`), and when the file was modified (milliseconds).
pub fn stats_add_file(
    s: &mut ClaudeStats,
    lines: &Vec<Option<Json>>,
    cutoff: &str,
    modified_ms: Option<u64>,
)
    ensures
        stats_view(*final(s)) == stats_after_file(
            stats_view(*old(s)),
            lines_view(lines@),
            cutoff@,
            match modified_ms {
                Some(m) => Some(crate::clock::day_before(m, 0)),
                None => None,
            },
        ),
{
    let ghost lv = lines_view(lines@);
    let ghost s0 = stats_view(*s);
    let cut = chars_of(cutoff);
    let mut f = FileState { counted: false, day: None, prev_in: None, prev_out: None, prev_cached: None };
    let mut i: usize = 0;
    assert(lv.take(0) =~= Seq::<Option<JsonV>>::empty());
    while i < lines.len()
        invariant
            i <= lines.len(),
            lv == lines_view(lines@),
            s0 == stats_view(*old(s)),
            cut@ == cutoff@,
            (stats_view(*s), file_view(f)) == stats_fold((s0, file_start()), lv.take(i as int), cut@),
        decreases lines.len() - i,
    {
        assert(lv.take(i + 1).drop_last() =~= lv.take(i as int));
        assert(lv.take(i + 1).last() == lv[i as int]);
        match &lines[i] {
            Some(v) => {
                stats_line_exec(s, &mut f, v, &cut);
            },
            None => {},
        }
        i = i + 1;
    }
    assert(lv.take(lines.len() as int) =~= lv);
    if f.counted {
        let day: Option<String> = match f.day {
            Some(d) => Some(d),
            None => match modified_ms {
                Some(m) => Some(crate::clock::day_of_ms(m)),
                None => None,
            },
        };
        match day {
            Some(d) => {
                bump_exec(&mut s.daily_stats, &chars_of(d.as_str()), 0, 0, 0, 0, 0, 1);
            },
            None => {},
        }
    }
}

/// The statistics for the given days, in order: each day's own, or zero.
pub open spec fn days_for(t: Seq<DayStatV>, dates: Seq<Seq<char>>) -> Seq<DayStatV> {
    dates.map_values(
        |d: Seq<char>|
            match stat_pos(t, d, 0) {
                Some(i) => t[i],
                None => zero_day(d),
            },
    )
}

/// The final statistics: the totals, and the statistics of the given
/// days (the last fourteen) in order.
pub fn stats_finish(s: ClaudeStats, dates: &Vec<String>) -> (r: ClaudeStats)
    ensures
        stats_view(r) == (StatsV {
            days: days_for(stats_view(s).days, crate::sessions::strings_view(dates@)),
            ..stats_view(s)
        }),
{
    let ghost dv = crate::sessions::strings_view(dates@);
    let mut out: Vec<ClaudeDailyStats> = Vec::new();
    let mut i: usize = 0;
    while i < dates.len()
        invariant
            i <= dates.len(),
            dv == crate::sessions::strings_view(dates@),
            dv.len() == dates.len(),
            day_stats_view(out@) == days_for(day_stats_view(s.daily_stats@), dv.take(i as int)),
        decreases dates.len() - i,
    {
        let d = chars_of(dates[i].as_str());
        let e = match find_stat(&s.daily_stats, &d) {
            Some(k) => {
                proof {
                    lemma_stat_pos(day_stats_view(s.daily_stats@), d@, 0);
                }
                let x = &s.daily_stats[k];
                assert(day_stats_view(s.daily_stats@)[k as int] == day_stat_view(*x));
                ClaudeDailyStats {
                    date: x.date.clone(),
                    input_tokens: x.input_tokens,
                    output_tokens: x.output_tokens,
                    cache_read_tokens: x.cache_read_tokens,
                    cache_write_tokens: x.cache_write_tokens,
                    messages: x.messages,
                    sessions: x.sessions,
                }
            },
            None => ClaudeDailyStats {
                date: dates[i].clone(),
                input_tokens: 0,
                output_tokens: 0,
                cache_read_tokens: 0,
                cache_write_tokens: 0,
                messages: 0,
                sessions: 0,
            },
        };
        let ghost before = out@;
        out.push(e);
        proof {
            assert(dv[i as int] == d@);
            assert(dv.take(i + 1) =~= dv.take(i as int).push(d@));
            assert(day_stats_view(out@) =~= day_stats_view(before).push(day_stat_view(e)));
            assert(day_stats_view(out@) =~= days_for(day_stats_view(s.daily_stats@), dv.take(i + 1)));
        }
        i = i + 1;
    }
    assert(dv.take(dates.len() as int) =~= dv);
    ClaudeStats { daily_stats: out, ..s }
}

/// A transcript modified before the cutoff (fourteen days before
/// `now_ms`) is skipped; one whose modification time is unknown is read.
pub fn file_recent(modified_ms: Option<u64>, now_ms: u64) -> (r: bool)
    ensures
        r == (match modified_ms {
            Some(m) => m + 14 * 86_400_000 >= now_ms,
            None => true,
        }),
{
    match modified_ms {
        Some(m) => {
            if now_ms < 14 * 86_400_000 {
                true
            } else {
                m >= now_ms - 14 * 86_400_000
            }
        },
        None => true,
    }
}

} // verus!
