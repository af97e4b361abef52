//! Per-day activity of an agent (calls and tokens over the last days), its
//! skills, and its cron jobs.
use vstd::prelude::*;
use crate::json::{
    Json, JsonV, jv, jv_list, get, at, as_str, as_u64, as_array, str_at, get_exec, as_u64_exec,
    as_array_exec, str_at_exec, same_text, json_clone, lemma_jv_list_len,
};
use crate::text::{
    chars_of, string_of, width_upto, utf8_len, char_width_exec, trim, trim_exec, trim_start,
    trim_start_exec, is_ws_exec, skip_exec, starts_with, starts_with_exec, lines, lines_exec, views,
};
use crate::events::{first_word, first_word_exec, word_end};
use crate::num::{number_or_zero, number_or_zero_exec};
use crate::metrics::{str_or, best_entry, index_entries, lines_view};
use crate::types::opt_view;

verus! {

broadcast use vstd::string::group_string_axioms;

// ---------------------------------------------------------------------
// Dates of timestamps
// ---------------------------------------------------------------------

/// A timestamp whose first ten bytes end inside a character: cutting it
/// there is refused.
pub open spec fn cut_inside_char(ts: Seq<char>) -> bool {
    utf8_len(ts) >= 10 && !(exists|k: int| 0 <= k <= ts.len() && width_upto(ts, k) == 10)
}

/// The first ten bytes of a timestamp (its date), when it has ten bytes.
pub open spec fn date_prefix(ts: Seq<char>) -> Option<Seq<char>> {
    if utf8_len(ts) >= 10 {
        Some(ts.take(choose|k: int| 0 <= k <= ts.len() && width_upto(ts, k) == 10))
    } else {
        None
    }
}

pub(crate) proof fn lemma_width_step(s: Seq<char>, k: int)
    requires
        0 <= k < s.len(),
    ensures
        width_upto(s, k + 1) == width_upto(s, k) + crate::text::char_width(s[k]),
        crate::text::char_width(s[k]) >= 1,
{
    assert(s.take(k + 1).drop_last() =~= s.take(k));
    crate::text::lemma_width_upto_mono(s, k, k + 1);
}

/// The date of a timestamp (see `date_prefix`), for one not cut inside a
/// character.
fn date_prefix_exec(ts: &str) -> (r: Option<String>)
    requires
        !cut_inside_char(ts@),
    ensures
        opt_view(r) == date_prefix(ts@),
{
    let cs = chars_of(ts);
    let mut k: usize = 0;
    let mut used: usize = 0;
    while k < cs.len() && used < 10
        invariant
            k <= cs.len(),
            used == width_upto(cs@, k as int),
            forall|m: int| 0 <= m < k ==> width_upto(cs@, m) < 10,
        decreases cs.len() - k,
    {
        proof {
            lemma_width_step(cs@, k as int);
        }
        used = used + char_width_exec(cs[k]);
        k = k + 1;
    }
    proof {
        crate::text::lemma_width_upto_mono(cs@, k as int, cs.len() as int);
    }
    if used == 10 {
        proof {
            assert(utf8_len(ts@) >= 10) by {
                assert(width_upto(cs@, cs.len() as int) >= 10);
                assert(cs@.take(cs.len() as int) =~= cs@);
            }
            let j = choose|j: int| 0 <= j <= ts@.len() && width_upto(ts@, j) == 10;
            lemma_width_unique(cs@, j, k as int);
        }
        Some(string_of(crate::text::take_exec(&cs, k).as_slice()))
    } else {
        proof {
            if utf8_len(ts@) >= 10 {
                // The width went past ten without meeting it: a cut inside a character.
                assert(used > 10 || k == cs.len());
                assert(cs@.take(cs.len() as int) =~= cs@);
                assert forall|j: int| 0 <= j <= ts@.len() implies width_upto(ts@, j) != 10 by {
                    if j <= k {
                        lemma_width_before(cs@, j, k as int);
                    } else {
                        crate::text::lemma_width_upto_mono(cs@, k as int, j);
                    }
                }
            }
        }
        None
    }
}

proof fn lemma_width_before(s: Seq<char>, j: int, k: int)
    requires
        0 <= j <= k <= s.len(),
        forall|m: int| 0 <= m < k ==> width_upto(s, m) < 10,
    ensures
        j < k ==> width_upto(s, j) < 10,
{
}

pub(crate) proof fn lemma_width_unique(s: Seq<char>, j: int, k: int)
    requires
        0 <= j <= s.len(),
        0 <= k <= s.len(),
        width_upto(s, j) == width_upto(s, k),
    ensures
        j == k,
    decreases if j < k {
        k - j
    } else {
        j - k
    },
{
    if j < k {
        lemma_width_step(s, j);
        crate::text::lemma_width_upto_mono(s, j + 1, k);
    } else if k < j {
        lemma_width_step(s, k);
        crate::text::lemma_width_upto_mono(s, k + 1, j);
    }
}


// ---------------------------------------------------------------------
// Calls and tokens per day
// ---------------------------------------------------------------------

/// Calls and tokens of one day.
#[derive(Debug, PartialEq, Eq)]
pub struct DailyCount {
    pub date: String,
    pub count: u32,
    pub tokens: u64,
}

pub open spec fn day_view(d: DailyCount) -> (Seq<char>, u32, u64) {
    (d.date@, d.count, d.tokens)
}

pub open spec fn days_view(s: Seq<DailyCount>) -> Seq<(Seq<char>, u32, u64)> {
    s.map_values(|d: DailyCount| day_view(d))
}

/// Position at or after `i` of day `d`.
pub open spec fn day_pos(t: Seq<(Seq<char>, u32, u64)>, d: Seq<char>, i: int) -> Option<int>
    decreases t.len() - i,
{
    if i < 0 || i >= t.len() {
        None
    } else if t[i].0 == d {
        Some(i)
    } else {
        day_pos(t, d, i + 1)
    }
}

proof fn lemma_day_pos(t: Seq<(Seq<char>, u32, u64)>, d: Seq<char>, i: int)
    requires
        0 <= i,
    ensures
        day_pos(t, d, i) matches Some(k) ==> i <= k < t.len() && t[k].0 == d,
    decreases t.len() - i,
{
    if i < t.len() && t[i].0 != d {
        lemma_day_pos(t, d, i + 1);
    }
}

/// One more call on day `d` (counts stop at the largest `u32`).
pub open spec fn add_call(t: Seq<(Seq<char>, u32, u64)>, d: Seq<char>) -> Seq<(Seq<char>, u32, u64)> {
    match day_pos(t, d, 0) {
        Some(i) => t.update(
            i,
            (
                d,
                if t[i].1 == u32::MAX {
                    t[i].1
                } else {
                    (t[i].1 + 1) as u32
                },
                t[i].2,
            ),
        ),
        None => t.push((d, 1, 0)),
    }
}

/// `n` more tokens on day `d` (sums stop at the largest `u64`).
pub open spec fn add_tokens(t: Seq<(Seq<char>, u32, u64)>, d: Seq<char>, n: u64) -> Seq<
    (Seq<char>, u32, u64),
> {
    match day_pos(t, d, 0) {
        Some(i) => t.update(i, (d, t[i].1, crate::metrics::sat_add(t[i].2, n))),
        None => t.push((d, 0, n)),
    }
}

/// The total tokens a transcript line reports for a message.
pub open spec fn line_tokens(v: JsonV) -> Option<u64> {
    if str_at(v, "type"@) == Some("message"@) {
        as_u64(at(at(at(v, "message"@), "usage"@), "totalTokens"@))
    } else {
        None
    }
}

/// One transcript line: a timestamp with a date counts a call on that
/// date, which becomes the current date; a message's tokens go to the
/// current date.
pub open spec fn day_step(st: (Option<Seq<char>>, Seq<(Seq<char>, u32, u64)>), v: JsonV) -> (
    Option<Seq<char>>,
    Seq<(Seq<char>, u32, u64)>,
) {
    let st1 = match str_at(v, "timestamp"@) {
        Some(ts) => match date_prefix(ts) {
            Some(d) => (Some(d), add_call(st.1, d)),
            None => st,
        },
        None => st,
    };
    match (line_tokens(v), st1.0) {
        (Some(n), Some(d)) => (st1.0, add_tokens(st1.1, d, n)),
        _ => st1,
    }
}

pub open spec fn day_fold(
    st: (Option<Seq<char>>, Seq<(Seq<char>, u32, u64)>),
    lines: Seq<Option<JsonV>>,
) -> (Option<Seq<char>>, Seq<(Seq<char>, u32, u64)>)
    decreases lines.len(),
{
    if lines.len() == 0 {
        st
    } else {
        let prev = day_fold(st, lines.drop_last());
        match lines.last() {
            Some(v) => day_step(prev, v),
            None => prev,
        }
    }
}

/// No line's timestamp is cut inside a character at ten bytes.
pub open spec fn dates_cuttable(lines: Seq<Option<JsonV>>) -> bool {
    forall|i: int|
        0 <= i < lines.len() ==> match #[trigger] lines[i] {
            Some(v) => match str_at(v, "timestamp"@) {
                Some(ts) => !cut_inside_char(ts),
                None => true,
            },
            None => true,
        }
}

fn find_day(t: &Vec<DailyCount>, d: &str) -> (r: Option<usize>)
    ensures
        match r {
            Some(i) => i < t.len() && day_pos(days_view(t@), d@, 0) == Some(i as int),
            None => day_pos(days_view(t@), d@, 0) is None,
        },
{
    let mut i: usize = 0;
    while i < t.len()
        invariant
            i <= t.len(),
            day_pos(days_view(t@), d@, 0) == day_pos(days_view(t@), d@, i as int),
        decreases t.len() - i,
    {
        assert(days_view(t@)[i as int] == day_view(t@[i as int]));
        if same_text(t[i].date.as_str(), d) {
            return Some(i);
        }
        i = i + 1;
    }
    None
}

fn add_call_exec(t: &mut Vec<DailyCount>, d: &str)
    ensures
        days_view(final(t)@) == add_call(days_view(old(t)@), d@),
{
    let ghost tv = days_view(t@);
    match find_day(t, d) {
        Some(i) => {
            proof {
                lemma_day_pos(tv, d@, 0);
            }
            assert(tv[i as int] == day_view(t@[i as int]));
            let old_d = t.remove(i);
            let c = if old_d.count == u32::MAX {
                old_d.count
            } else {
                old_d.count + 1
            };
            t.insert(i, DailyCount { date: old_d.date, count: c, tokens: old_d.tokens });
            assert(days_view(t@) =~= tv.update(i as int, (d@, c, old_d.tokens)));
        },
        None => {
            t.push(DailyCount { date: d.to_string(), count: 1, tokens: 0 });
            assert(days_view(t@) =~= tv.push((d@, 1u32, 0u64)));
        },
    }
}

fn add_tokens_exec(t: &mut Vec<DailyCount>, d: &str, n: u64)
    ensures
        days_view(final(t)@) == add_tokens(days_view(old(t)@), d@, n),
{
    let ghost tv = days_view(t@);
    match find_day(t, d) {
        Some(i) => {
            proof {
                lemma_day_pos(tv, d@, 0);
            }
            assert(tv[i as int] == day_view(t@[i as int]));
            let old_d = t.remove(i);
            let k = old_d.tokens.saturating_add(n);
            t.insert(i, DailyCount { date: old_d.date, count: old_d.count, tokens: k });
            assert(days_view(t@) =~= tv.update(i as int, (d@, old_d.count, k)));
        },
        None => {
            t.push(DailyCount { date: d.to_string(), count: 0, tokens: n });
            assert(days_view(t@) =~= tv.push((d@, 0u32, n)));
        },
    }
}

/// Counts the calls and tokens of one transcript file into the day table
/// (see `day_step`; the current date starts unknown for each file).
pub fn count_file_days(t: &mut Vec<DailyCount>, lines: &Vec<Option<Json>>)
    requires
        dates_cuttable(lines_view(lines@)),
    ensures
        days_view(final(t)@) == day_fold((None, days_view(old(t)@)), lines_view(lines@)).1,
{
    let ghost lv = lines_view(lines@);
    let ghost t0 = days_view(t@);
    let mut cur: Option<String> = None;
    let mut i: usize = 0;
    assert(lv.take(0) =~= Seq::<Option<JsonV>>::empty());
    while i < lines.len()
        invariant
            i <= lines.len(),
            lv == lines_view(lines@),
            dates_cuttable(lv),
            t0 == days_view(old(t)@),
            (opt_view(cur), days_view(t@)) == day_fold((None, t0), lv.take(i as int)),
        decreases lines.len() - i,
    {
        assert(lv.take(i + 1).drop_last() =~= lv.take(i as int));
        assert(lv.take(i + 1).last() == lv[i as int]);
        match &lines[i] {
            Some(v) => {
                assert(lv[i as int] == Some(v@));
                match str_at_exec(v, "timestamp") {
                    Some(ts) => {
                        match date_prefix_exec(ts) {
                            Some(d) => {
                                add_call_exec(t, d.as_str());
                                cur = Some(d);
                            },
                            None => {},
                        }
                    },
                    None => {},
                }
                let is_msg = match str_at_exec(v, "type") {
                    Some(ty) => same_text(ty, "message"),
                    None => false,
                };
                if is_msg {
                    let null = Json::Null;
                    let m: &Json = match get_exec(v, "message") {
                        Some(x) => x,
                        None => &null,
                    };
                    let u: &Json = match get_exec(m, "usage") {
                        Some(x) => x,
                        None => &null,
                    };
                    let tt: &Json = match get_exec(u, "totalTokens") {
                        Some(x) => x,
                        None => &null,
                    };
                    match (as_u64_exec(tt), &cur) {
                        (Some(n), Some(d)) => {
                            add_tokens_exec(t, d.as_str(), n);
                        },
                        _ => {},
                    }
                }
            },
            None => {},
        }
        i = i + 1;
    }
    assert(lv.take(lines.len() as int) =~= lv);
}

/// The counts of the given days, in order; a day without calls or tokens
/// counts zero.
pub open spec fn counts_for(t: Seq<(Seq<char>, u32, u64)>, dates: Seq<Seq<char>>) -> Seq<
    (Seq<char>, u32, u64),
> {
    dates.map_values(
        |d: Seq<char>|
            match day_pos(t, d, 0) {
                Some(i) => (d, t[i].1, t[i].2),
                None => (d, 0u32, 0u64),
            },
    )
}

pub open spec fn find_day_spec(t: Seq<(Seq<char>, u32, u64)>, d: Seq<char>) -> Option<int> {
    day_pos(t, d, 0)
}

/// The counts of the given days (see `counts_for`).
pub fn daily_counts(t: &Vec<DailyCount>, dates: &Vec<String>) -> (r: Vec<DailyCount>)
    ensures
        days_view(r@) == counts_for(days_view(t@), crate::sessions::strings_view(dates@)),
{
    let ghost dv = crate::sessions::strings_view(dates@);
    let mut out: Vec<DailyCount> = Vec::new();
    let mut i: usize = 0;
    while i < dates.len()
        invariant
            i <= dates.len(),
            dv == crate::sessions::strings_view(dates@),
            dv.len() == dates.len(),
            days_view(out@) == counts_for(days_view(t@), dv.take(i as int)),
        decreases dates.len() - i,
    {
        let d = dates[i].as_str();
        let c = match find_day(t, d) {
            Some(k) => DailyCount { date: d.to_string(), count: t[k].count, tokens: t[k].tokens },
            None => DailyCount { date: d.to_string(), count: 0, tokens: 0 },
        };
        let ghost before = out@;
        out.push(c);
        proof {
            assert(dv[i as int] == d@);
            assert(dv.take(i + 1) =~= dv.take(i as int).push(d@));
            assert(days_view(out@) =~= days_view(before).push(day_view(c)));
            match find_day_spec(days_view(t@), d@) {
                Some(k) => {
                    assert(days_view(t@)[k] == day_view(t@[k]));
                },
                None => {},
            }
            assert(days_view(out@) =~= counts_for(days_view(t@), dv.take(i + 1)));
        }
        i = i + 1;
    }
    assert(dv.take(dates.len() as int) =~= dv);
    out
}


// ---------------------------------------------------------------------
// The daily summary a remote host writes
// ---------------------------------------------------------------------

/// What follows the first whitespace-separated word.
pub open spec fn after_first_word(s: Seq<char>) -> Seq<char> {
    let t = trim_start(s);
    t.skip(word_end(t, 0))
}

fn after_first_word_exec(s: &Vec<char>) -> (r: Vec<char>)
    ensures
        r@ == after_first_word(s@),
{
    let t = trim_start_exec(s);
    let mut k: usize = 0;
    while k < t.len() && !is_ws_exec(t[k])
        invariant
            k <= t.len(),
            word_end(t@, 0) == word_end(t@, k as int),
        decreases t.len() - k,
    {
        k = k + 1;
    }
    skip_exec(&t, k)
}

/// The day, calls and tokens that a summary line `date calls tokens`
/// gives: the first three words (a line with fewer gives none), the
/// numbers read as `u32` and `u64` (zero where one does not read).
pub open spec fn summary_entry(l: Seq<char>) -> Option<(Seq<char>, u32, u64)> {
    let r1 = after_first_word(l);
    let r2 = after_first_word(r1);
    if first_word(r2).len() > 0 {
        Some(
            (
                first_word(l),
                number_or_zero(first_word(r1), u32::MAX as int) as u32,
                number_or_zero(first_word(r2), u64::MAX as int) as u64,
            ),
        )
    } else {
        None
    }
}

/// Day `d` set to `c` calls and `n` tokens (added when new).
pub open spec fn set_day(t: Seq<(Seq<char>, u32, u64)>, d: Seq<char>, c: u32, n: u64) -> Seq<
    (Seq<char>, u32, u64),
> {
    match day_pos(t, d, 0) {
        Some(i) => t.update(i, (d, c, n)),
        None => t.push((d, c, n)),
    }
}

/// The marker line that gives the remote host's own date.
pub open spec fn today_marker() -> Seq<char> {
    "SERVER_TODAY:"@
}

/// One more summary line: the marker line sets the host's date (trimmed),
/// an entry line sets its day; other lines change nothing.
pub open spec fn summary_step(
    st: (Option<Seq<char>>, Seq<(Seq<char>, u32, u64)>),
    l: Seq<char>,
) -> (Option<Seq<char>>, Seq<(Seq<char>, u32, u64)>) {
    if starts_with(l, today_marker()) {
        (Some(trim(l.skip(today_marker().len() as int))), st.1)
    } else {
        match summary_entry(l) {
            Some(e) => (st.0, set_day(st.1, e.0, e.1, e.2)),
            None => st,
        }
    }
}

/// The host's date and the day table that the summary lines give.
pub open spec fn summary_fold(ls: Seq<Seq<char>>) -> (Option<Seq<char>>, Seq<(Seq<char>, u32, u64)>)
    decreases ls.len(),
{
    if ls.len() == 0 {
        (None, Seq::empty())
    } else {
        summary_step(summary_fold(ls.drop_last()), ls.last())
    }
}

fn set_day_exec(t: &mut Vec<DailyCount>, d: &str, c: u32, n: u64)
    ensures
        days_view(final(t)@) == set_day(days_view(old(t)@), d@, c, n),
{
    let ghost tv = days_view(t@);
    match find_day(t, d) {
        Some(i) => {
            proof {
                lemma_day_pos(tv, d@, 0);
            }
            let old_d = t.remove(i);
            t.insert(i, DailyCount { date: old_d.date, count: c, tokens: n });
            assert(days_view(t@) =~= tv.update(i as int, (d@, c, n)));
        },
        None => {
            t.push(DailyCount { date: d.to_string(), count: c, tokens: n });
            assert(days_view(t@) =~= tv.push((d@, c, n)));
        },
    }
}

/// Reads the daily summary that the remote host writes: lines
/// `date calls tokens` and one line `SERVER_TODAY:date` (see
/// `summary_step`).  Gives the host's date and the day table.
pub fn read_daily_summary(summary: &str) -> (r: (Option<String>, Vec<DailyCount>))
    ensures
        (opt_view(r.0), days_view(r.1@)) == summary_fold(lines(summary@)),
{
    proof {
        reveal_strlit("SERVER_TODAY:");
    }
    let ls = lines_exec(&chars_of(summary));
    let ghost lv = views(ls@);
    let marker = chars_of("SERVER_TODAY:");
    let mut today: Option<String> = None;
    let mut t: Vec<DailyCount> = Vec::new();
    let mut i: usize = 0;
    assert(lv.take(0) =~= Seq::<Seq<char>>::empty());
    assert(days_view(t@) =~= Seq::<(Seq<char>, u32, u64)>::empty());
    while i < ls.len()
        invariant
            i <= ls.len(),
            lv == views(ls@),
            lv.len() == ls.len(),
            marker@ == today_marker(),
            (opt_view(today), days_view(t@)) == summary_fold(lv.take(i as int)),
        decreases ls.len() - i,
    {
        assert(lv.take(i + 1).drop_last() =~= lv.take(i as int));
        assert(lv.take(i + 1).last() == lv[i as int]);
        let l = &ls[i];
        assert(l@ == lv[i as int]);
        if starts_with_exec(l, &marker) {
            let rest = skip_exec(l, marker.len());
            today = Some(string_of(trim_exec(&rest).as_slice()));
        } else {
            let r1 = after_first_word_exec(l);
            let r2 = after_first_word_exec(&r1);
            let w2 = first_word_exec(&r2);
            if w2.len() > 0 {
                let w0 = first_word_exec(l);
                let w1 = first_word_exec(&r1);
                let c = number_or_zero_exec(&w1, 0xffff_ffff);
                let n = number_or_zero_exec(&w2, 0xffff_ffff_ffff_ffff);
                let d = string_of(w0.as_slice());
                set_day_exec(&mut t, d.as_str(), c as u32, n);
            }
        }
        i = i + 1;
    }
    assert(lv.take(ls.len() as int) =~= lv);
    (today, t)
}


// ---------------------------------------------------------------------
// Skills and cron jobs
// ---------------------------------------------------------------------

/// The names of the skills in a session's skill snapshot.
pub open spec fn skill_names(items: Seq<JsonV>) -> Seq<Seq<char>>
    decreases items.len(),
{
    if items.len() == 0 {
        Seq::empty()
    } else {
        let prev = skill_names(items.drop_last());
        match str_at(items.last(), "name"@) {
            Some(n) => prev.push(n),
            None => prev,
        }
    }
}

/// The skills of an agent: those of the snapshot of its most recently
/// updated session, when that snapshot lists them.
pub open spec fn skills_of(index: JsonV) -> Seq<Seq<char>> {
    match best_entry(index_entries(index)) {
        Some(b) => match as_array(at(at(b, "skillsSnapshot"@), "skills"@)) {
            Some(items) => skill_names(items),
            None => Seq::empty(),
        },
        None => Seq::empty(),
    }
}

/// The skills of an agent from its session index (see `skills_of`).
pub fn agent_skills(index: &Json) -> (r: Vec<String>)
    ensures
        crate::sessions::strings_view(r@) == skills_of(index@),
{
    let info_best = best_index_entry(index);
    let null = Json::Null;
    match &info_best {
        Some(b) => {
            let snap: &Json = match get_exec(b, "skillsSnapshot") {
                Some(x) => x,
                None => &null,
            };
            let sk: &Json = match get_exec(snap, "skills") {
                Some(x) => x,
                None => &null,
            };
            match as_array_exec(sk) {
                Some(items) => {
                    proof {
                        lemma_jv_list_len(items@);
                    }
                    let ghost a = jv_list(items@);
                    let mut out: Vec<String> = Vec::new();
                    let mut i: usize = 0;
                    assert(a.take(0) =~= Seq::<JsonV>::empty());
                    assert(crate::sessions::strings_view(out@) =~= Seq::<Seq<char>>::empty());
                    while i < items.len()
                        invariant
                            i <= items.len(),
                            a == jv_list(items@),
                            a.len() == items.len(),
                            forall|k: int| 0 <= k < items.len() ==> #[trigger] a[k] == jv(
                                items@[k],
                            ),
                            crate::sessions::strings_view(out@) == skill_names(a.take(i as int)),
                        decreases items.len() - i,
                    {
                        assert(a.take(i + 1).drop_last() =~= a.take(i as int));
                        assert(a.take(i + 1).last() == a[i as int]);
                        match str_at_exec(&items[i], "name") {
                            Some(n) => {
                                let ghost before = out@;
                                out.push(n.to_string());
                                assert(crate::sessions::strings_view(out@)
                                    =~= crate::sessions::strings_view(before).push(n@));
                            },
                            None => {},
                        }
                        i = i + 1;
                    }
                    assert(a.take(items.len() as int) =~= a);
                    out
                },
                None => Vec::new(),
            }
        },
        None => Vec::new(),
    }
}

/// The most recently updated entry of a session index.
fn best_index_entry(index: &Json) -> (r: Option<Json>)
    ensures
        match r {
            Some(b) => best_entry(index_entries(index@)) == Some(b@),
            None => best_entry(index_entries(index@)) is None,
        },
{
    let empty: Vec<(String, Json)> = Vec::new();
    let es: &Vec<(String, Json)> = match index {
        Json::Object(es) => es,
        _ => &empty,
    };
    proof {
        crate::json::lemma_jv_entries_len(es@);
        assert(crate::json::jv_entries(empty@) =~= Seq::<(Seq<char>, JsonV)>::empty());
    }
    let ghost ev = crate::json::jv_entries(es@);
    assert(ev == index_entries(index@));
    let null = Json::Null;
    let mut best: Option<usize> = None;
    let mut i: usize = 0;
    assert(ev.take(0) =~= Seq::<(Seq<char>, JsonV)>::empty());
    while i < es.len()
        invariant
            i <= es.len(),
            ev == crate::json::jv_entries(es@),
            ev.len() == es.len(),
            null@ == JsonV::Null,
            forall|k: int| 0 <= k < es.len() ==> #[trigger] ev[k] == (es@[k].0@, jv(es@[k].1)),
            match best {
                Some(b) => b < i && best_entry(ev.take(i as int)) == Some(ev[b as int].1),
                None => best_entry(ev.take(i as int)) is None,
            },
        decreases es.len() - i,
    {
        assert(ev.take(i + 1).drop_last() =~= ev.take(i as int));
        assert(ev.take(i + 1).last() == ev[i as int]);
        let u0: u64 = match get_exec(&es[i].1, "updatedAt") {
            Some(x) => match as_u64_exec(x) {
                Some(n) => n,
                None => 0,
            },
            None => 0,
        };
        best = match best {
            None => Some(i),
            Some(b) => {
                let bu: u64 = match get_exec(&es[b].1, "updatedAt") {
                    Some(x) => match as_u64_exec(x) {
                        Some(n) => n,
                        None => 0,
                    },
                    None => 0,
                };
                if u0 >= bu {
                    Some(i)
                } else {
                    Some(b)
                }
            },
        };
        i = i + 1;
    }
    assert(ev.take(es.len() as int) =~= ev);
    match best {
        Some(b) => Some(json_clone(&es[b].1)),
        None => None,
    }
}

/// A cron job belongs to an agent when its `agentId` (`main` when absent)
/// is the agent's directory, or is empty for the main agent.
pub open spec fn job_of(job: JsonV, agent_id: Seq<char>) -> bool {
    let ja = str_or(job, "agentId"@, "main"@);
    let target = crate::gateway::agent_dir(agent_id);
    ja == target || (target == "main"@ && ja.len() == 0)
}

pub open spec fn jobs_of(jobs: Seq<JsonV>, agent_id: Seq<char>) -> Seq<JsonV> {
    jobs.filter(|j: JsonV| job_of(j, agent_id))
}

/// The cron jobs of an agent (see `job_of`).
pub fn agent_cron_jobs(jobs: &Vec<Json>, agent_id: &str) -> (r: Vec<Json>)
    ensures
        jv_list(r@) == jobs_of(jv_list(jobs@), agent_id@),
{
    let ghost pred = |j: JsonV| job_of(j, agent_id@);
    proof {
        lemma_jv_list_len(jobs@);
    }
    let ghost a = jv_list(jobs@);
    let target = crate::gateway::agent_dir_exec(agent_id);
    let main = chars_of("main");
    let mut out: Vec<Json> = Vec::new();
    let mut i: usize = 0;
    assert(a.take(0).filter(pred) =~= Seq::<JsonV>::empty()) by {
        reveal(Seq::filter);
    }
    assert(jv_list(out@) =~= Seq::<JsonV>::empty());
    while i < jobs.len()
        invariant
            i <= jobs.len(),
            a == jv_list(jobs@),
            a.len() == jobs.len(),
            forall|k: int| 0 <= k < jobs.len() ==> #[trigger] a[k] == jv(jobs@[k]),
            pred == (|j: JsonV| job_of(j, agent_id@)),
            target@ == crate::gateway::agent_dir(agent_id@),
            main@ == "main"@,
            jv_list(out@) == a.take(i as int).filter(pred),
        decreases jobs.len() - i,
    {
        assert(a.take(i + 1).drop_last() =~= a.take(i as int));
        assert(a.take(i + 1).last() == a[i as int]);
        assert(a.take(i + 1).filter(pred) == (if pred(a[i as int]) {
            a.take(i as int).filter(pred).push(a[i as int])
        } else {
            a.take(i as int).filter(pred)
        })) by {
            reveal(Seq::filter);
        }
        let ja: Vec<char> = match str_at_exec(&jobs[i], "agentId") {
            Some(x) => chars_of(x),
            None => chars_of("main"),
        };
        let keep = crate::json::same_chars(&ja, &target) || (crate::json::same_chars(&target, &main)
            && ja.len() == 0);
        if keep {
            let ghost before = out@;
            let c = json_clone(&jobs[i]);
            proof {
                crate::json::lemma_jv_list_push(before, c);
            }
            out.push(c);
        }
        i = i + 1;
    }
    assert(a.take(jobs.len() as int) =~= a);
    out
}

/// The text from the first `{` on (where a JSON document starts in
/// command output), if there is one.
pub fn from_first_brace(s: &str) -> (r: Option<String>)
    ensures
        match r {
            Some(t) => crate::text::find(s@, "{"@) matches Some(i) && t@ == s@.skip(i),
            None => crate::text::find(s@, "{"@) is None,
        },
{
    let cs = chars_of(s);
    let brace = chars_of("{");
    match crate::text::find_exec(&cs, &brace) {
        Some(i) => {
            proof {
                reveal_strlit("{");
                crate::text::lemma_find_from_bounds(cs@, brace@, 0);
            }
            Some(string_of(crate::text::skip_exec(&cs, i).as_slice()))
        },
        None => None,
    }
}

} // verus!
