//! Cleaning and shortening of chat message text taken from session logs.
use vstd::prelude::*;
use crate::text::{
    contains, contains_exec, ends_with, rfind, rfind_exec, starts_with, starts_with_exec,
    trim_start, trim_start_exec, utf8_len_below, lines, lines_exec, views, occurs_at,
    lemma_scan_char, scan_char, lemma_rfind_bounds, slice_of, skip_past,
    cat, chars_of, char_width_exec, find, find_exec, find_from, find_from_exec, fit_from,
    lemma_find_from_bounds, lemma_width_upto_mono, skip_exec, string_of, take_exec, trim, trim_exec,
    utf8_len, width_upto, skip_ws, back_ws, is_ws, trim_end,
};

verus! {

broadcast use vstd::string::group_string_axioms;

// ---------------------------------------------------------------------
// Truncation
// ---------------------------------------------------------------------

/// `s` when its UTF-8 encoding fits in `max` bytes; otherwise the longest
/// prefix ending on a character boundary at or before byte `max`, followed
/// by `"..."`.
pub open spec fn truncated(s: Seq<char>, max: int) -> Seq<char> {
    if utf8_len(s) <= max {
        s
    } else {
        s.take(fit_from(s, 0, max)) + "..."@
    }
}

pub fn truncate_chars(s: &Vec<char>, max: usize) -> (r: Vec<char>)
    ensures
        r@ == truncated(s@, max as int),
{
    let mut i: usize = 0;
    let mut used: usize = 0;
    while i < s.len()
        invariant
            i <= s.len(),
            used == width_upto(s@, i as int),
            used <= max,
            fit_from(s@, 0, max as int) == fit_from(s@, i as int, max - used),
        decreases s.len() - i,
    {
        let w = char_width_exec(s[i]);
        if w > max - used {
            proof {
                lemma_width_upto_mono(s@, i + 1, s.len() as int);
            }
            let head = take_exec(s, i);
            let dots = chars_of("...");
            return cat(&head, &dots);
        }
        used = used + w;
        i = i + 1;
    }
    s.clone()
}

/// Shortens `s` to at most `max` bytes (plus `"..."`), cutting on a
/// character boundary.
pub fn truncate_str(s: &str, max: usize) -> (r: String)
    ensures
        r@ == truncated(s@, max as int),
{
    let cs = chars_of(s);
    let t = truncate_chars(&cs, max);
    string_of(t.as_slice())
}

// ---------------------------------------------------------------------
// `[[...]]` markers
// ---------------------------------------------------------------------

/// Removes every `[[...]]` marker, leftmost first, stopping at the first
/// `[[` that has no closing `]]` after it.
pub open spec fn strip_markers(s: Seq<char>) -> Seq<char>
    decreases s.len(),
{
    match find(s, "[["@) {
        None => s,
        Some(a) => match find_from(s, "]]"@, a) {
            None => s,
            Some(b) => {
                proof {
                    reveal_strlit("]]");
                    lemma_find_from_bounds(s, "]]"@, a);
                }
                strip_markers(s.take(a) + s.skip(b + "]]"@.len()))
            },
        },
    }
}

pub fn strip_markers_exec(text: &Vec<char>) -> (r: Vec<char>)
    ensures
        r@ == strip_markers(text@),
{
    let open = chars_of("[[");
    let close = chars_of("]]");
    let mut s = text.clone();
    loop
        invariant
            open@ == "[["@,
            close@ == "]]"@,
            strip_markers(s@) == strip_markers(text@),
        decreases s.len(),
    {
        match find_exec(&s, &open) {
            None => {
                return s;
            },
            Some(a) => {
                proof {
                    lemma_find_from_bounds(s@, open@, 0);
                }
                match find_from_exec(&s, &close, a) {
                    None => {
                        return s;
                    },
                    Some(b) => {
                        proof {
                            reveal_strlit("]]");
                            lemma_find_from_bounds(s@, close@, a as int);
                        }
                        let head = take_exec(&s, a);
                        let tail = skip_exec(&s, b + close.len());
                        s = cat(&head, &tail);
                    },
                }
            },
        }
    }
}

/// No complete `[[...]]` marker survives stripping: after the first `[[`
/// of the result, if any, no `]]` follows.
pub proof fn law_no_marker_left(s: Seq<char>)
    ensures
        find(strip_markers(s), "[["@) matches Some(a) ==> find_from(strip_markers(s), "]]"@, a) is None,
    decreases s.len(),
{
    match find(s, "[["@) {
        None => {},
        Some(a) => match find_from(s, "]]"@, a) {
            None => {},
            Some(b) => {
                reveal_strlit("]]");
                lemma_find_from_bounds(s, "]]"@, a);
                law_no_marker_left(s.take(a) + s.skip(b + "]]"@.len()));
            },
        },
    }
}

/// Text in which no `]]` follows a `[[` (at the same place or later).
pub open spec fn no_marker_pair(x: Seq<char>) -> bool {
    forall|i: int, j: int|
        #![trigger occurs_at(x, "[["@, i), occurs_at(x, "]]"@, j)]
        i <= j ==> !(occurs_at(x, "[["@, i) && occurs_at(x, "]]"@, j))
}

proof fn lemma_pair_free_iff(x: Seq<char>)
    ensures
        no_marker_pair(x) <==> (find(x, "[["@) matches Some(a) ==> find_from(x, "]]"@, a) is None),
{
    lemma_find_from_bounds(x, "[["@, 0);
    match find(x, "[["@) {
        Some(a) => {
            lemma_find_from_bounds(x, "]]"@, a);
            if no_marker_pair(x) {
                if let Some(b) = find_from(x, "]]"@, a) {
                    assert(occurs_at(x, "[["@, a) && occurs_at(x, "]]"@, b));
                }
            }
            if find_from(x, "]]"@, a) is None {
                assert forall|i: int, j: int| i <= j implies !(occurs_at(x, "[["@, i) && occurs_at(
                    x,
                    "]]"@,
                    j,
                )) by {
                    if occurs_at(x, "[["@, i) && occurs_at(x, "]]"@, j) {
                        assert(a <= i);
                    }
                }
            }
        },
        None => {},
    }
}

proof fn lemma_pair_free_sub(x: Seq<char>, lo: int, hi: int)
    requires
        0 <= lo <= hi <= x.len(),
        no_marker_pair(x),
    ensures
        no_marker_pair(x.subrange(lo, hi)),
{
    let y = x.subrange(lo, hi);
    assert forall|i: int, j: int| i <= j implies !(occurs_at(y, "[["@, i) && occurs_at(y, "]]"@, j)) by {
        if occurs_at(y, "[["@, i) && occurs_at(y, "]]"@, j) {
            reveal_strlit("[[");
            reveal_strlit("]]");
            assert(y.subrange(i, i + 2) =~= x.subrange(lo + i, lo + i + 2));
            assert(y.subrange(j, j + 2) =~= x.subrange(lo + j, lo + j + 2));
            assert(occurs_at(x, "[["@, lo + i) && occurs_at(x, "]]"@, lo + j));
        }
    }
}

proof fn lemma_skip_ws(s: Seq<char>, i: int)
    requires
        0 <= i <= s.len(),
    ensures
        i <= skip_ws(s, i) <= s.len(),
        skip_ws(s, i) < s.len() ==> !is_ws(s[skip_ws(s, i)]),
    decreases s.len() - i,
{
    if i < s.len() && is_ws(s[i]) {
        lemma_skip_ws(s, i + 1);
    }
}

proof fn lemma_back_ws(s: Seq<char>, lo: int, j: int)
    requires
        0 <= lo <= j <= s.len(),
    ensures
        lo <= back_ws(s, lo, j) <= j,
        back_ws(s, lo, j) > lo ==> !is_ws(s[back_ws(s, lo, j) - 1]),
    decreases j - lo,
{
    if lo < j && is_ws(s[j - 1]) {
        lemma_back_ws(s, lo, j - 1);
    }
}

/// Trimming keeps a middle stretch of the text, which starts and ends
/// with a non-space character (when not empty).
proof fn lemma_trim_range(s: Seq<char>)
    ensures
        exists|lo: int, hi: int| 0 <= lo <= hi <= s.len() && trim(s) == s.subrange(lo, hi),
        trim(s).len() > 0 ==> !is_ws(trim(s)[0]) && !is_ws(trim(s)[trim(s).len() - 1]),
{
    lemma_skip_ws(s, 0);
    let a = skip_ws(s, 0);
    let t = trim_start(s);
    lemma_back_ws(t, 0, t.len() as int);
    let e = back_ws(t, 0, t.len() as int);
    assert(trim(s) =~= s.subrange(a, a + e));
}

proof fn lemma_trim_idem(s: Seq<char>)
    ensures
        trim(trim(s)) == trim(s),
{
    lemma_trim_range(s);
    let t = trim(s);
    assert(skip_ws(t, 0) == 0);
    assert(trim_start(t) =~= t);
    assert(back_ws(t, 0, t.len() as int) == t.len());
    assert(trim_end(t) =~= t);
}

/// Stripping brackets twice is stripping them once, and what it gives is
/// trimmed and holds no `]]` after a `[[`.
pub proof fn law_strip_brackets_idempotent(s: Seq<char>)
    ensures
        stripped_brackets(stripped_brackets(s)) == stripped_brackets(s),
        trim(stripped_brackets(s)) == stripped_brackets(s),
        no_marker_pair(stripped_brackets(s)),
{
    let u = strip_markers(s);
    law_no_marker_left(s);
    lemma_pair_free_iff(u);
    lemma_trim_range(u);
    let (lo, hi) = choose|lo: int, hi: int| 0 <= lo <= hi <= u.len() && trim(u) == u.subrange(lo, hi);
    lemma_pair_free_sub(u, lo, hi);
    let t = trim(u);
    lemma_pair_free_iff(t);
    assert(strip_markers(t) == t);
    lemma_trim_idem(u);
}

/// `strip_brackets`: all `[[...]]` markers removed, then trimmed.
pub open spec fn stripped_brackets(s: Seq<char>) -> Seq<char> {
    trim(strip_markers(s))
}

/// Strips all `[[...]]` markers from text and trims it.
pub fn strip_brackets(text: &str) -> (r: String)
    ensures
        r@ == stripped_brackets(text@),
{
    let cs = chars_of(text);
    let m = strip_markers_exec(&cs);
    let t = trim_exec(&m);
    string_of(t.as_slice())
}

// ---------------------------------------------------------------------
// Cleaning of user messages
// ---------------------------------------------------------------------

/// Queued messages keep only what follows the line of the last `Queued #` block.
pub open spec fn stage_queued(s: Seq<char>) -> Seq<char> {
    if starts_with(s, "[Queued messages"@) || starts_with(s, "Queued #"@) {
        match rfind(s, "Queued #"@) {
            None => s,
            Some(idx) => {
                let t = s.skip(idx);
                match find(t, "\n"@) {
                    None => t,
                    Some(nl) => t.skip(nl + 1),
                }
            },
        }
    } else {
        s
    }
}

/// After a `[message_id:` line the message is the next text, without a
/// short `Name: ` prefix.
pub open spec fn after_message_id(s: Seq<char>, idx: int) -> Seq<char> {
    match find(s.skip(idx), "\n"@) {
        None => s,
        Some(nl) => {
            let after = trim(s.skip(idx + nl + 1));
            match find(after, ": "@) {
                None => after,
                Some(colon) => {
                    let name_part = after.take(colon);
                    if utf8_len(name_part) < 40 && !contains(name_part, "\n"@) {
                        after.skip(colon + 2)
                    } else {
                        after
                    }
                },
            }
        },
    }
}

/// Channel metadata wrappers: keep the message after the last
/// `[message_id:` line, or else the text after the last fenced block.
pub open spec fn stage_metadata(s: Seq<char>) -> Seq<char> {
    if contains(s, "(untrusted metadata)"@) || contains(s, "[message_id:"@) {
        match rfind(s, "[message_id:"@) {
            Some(idx) => after_message_id(s, idx),
            None => match rfind(s, "```\n"@) {
                None => s,
                Some(idx) => trim(s.skip(idx + 4)),
            },
        }
    } else {
        s
    }
}

/// A `[media attached: ...]` prefix is dropped.
pub open spec fn stage_media(s: Seq<char>) -> Seq<char> {
    if starts_with(s, "[media attached:"@) {
        match find(s, "]\n"@) {
            Some(end) => s.skip(end + 2),
            None => match find(s, "]"@) {
                Some(end) => trim(s.skip(end + 1)),
                None => s,
            },
        }
    } else {
        s
    }
}

/// A system prompt before `\n\nHuman: ` is dropped.
pub open spec fn stage_human(s: Seq<char>) -> Seq<char> {
    match find(s, "\n\nHuman: "@) {
        Some(idx) => s.skip(idx + 9),
        None => s,
    }
}

/// Text in brackets counts as a timestamp when it names a time zone or a day.
pub open spec fn looks_like_timestamp(b: Seq<char>) -> bool {
    utf8_len(b) < 50 && (contains(b, "GMT"@) || contains(b, "UTC"@) || contains(b, "Mon"@)
        || contains(b, "Tue"@) || contains(b, "Wed"@) || contains(b, "Thu"@) || contains(
        b,
        "Fri"@,
    ) || contains(b, "Sat"@) || contains(b, "Sun"@))
}

/// A leading `[<timestamp>] ` is dropped.
pub open spec fn stage_timestamp(s: Seq<char>) -> Seq<char> {
    let t = trim_start(s);
    if starts_with(t, "["@) {
        match find(t, "] "@) {
            Some(end) => if looks_like_timestamp(t.subrange(1, end)) {
                t.skip(end + 2)
            } else {
                s
            },
            None => s,
        }
    } else {
        s
    }
}

/// `Current time:` and what follows is dropped; `None` when the text starts with it.
pub open spec fn stage_current_time(s: Seq<char>) -> Option<Seq<char>> {
    let s1 = match find(s, "\nCurrent time:"@) {
        Some(idx) => s.take(idx),
        None => s,
    };
    match find(s1, "Current time:"@) {
        Some(idx) => if idx == 0 {
            None
        } else {
            Some(s1.take(idx))
        },
        None => Some(s1),
    }
}

/// A `[cron:...] ` prefix is dropped.
pub open spec fn stage_cron(s: Seq<char>) -> Seq<char> {
    if starts_with(s, "[cron:"@) {
        match find(s, "] "@) {
            Some(end) => s.skip(end + 2),
            None => s,
        }
    } else {
        s
    }
}

/// A `Return your summary` tail is dropped; `None` when the text starts with it.
pub open spec fn stage_summary(s: Seq<char>) -> Option<Seq<char>> {
    let s1 = match find(s, "\nReturn your summary"@) {
        Some(idx) => s.take(idx),
        None => s,
    };
    match find(s1, "Return your summary"@) {
        Some(idx) => if idx == 0 {
            None
        } else {
            Some(s1)
        },
        None => Some(s1),
    }
}

/// The user's own words in a raw message: system startup notices give the
/// empty text; queue, channel, media, prompt, marker, timestamp, clock, cron
/// and summary noise is removed, in that order, and the rest is trimmed.
pub open spec fn cleaned_user_message(text: Seq<char>) -> Seq<char> {
    if starts_with(text, "A new session was started"@) {
        Seq::empty()
    } else {
        let s = stage_timestamp(
            strip_markers(stage_human(stage_media(stage_metadata(stage_queued(text))))),
        );
        match stage_current_time(s) {
            None => Seq::empty(),
            Some(s2) => match stage_summary(stage_cron(s2)) {
                None => Seq::empty(),
                Some(s3) => trim(s3),
            },
        }
    }
}

fn stage_queued_exec(s: &Vec<char>) -> (r: Vec<char>)
    ensures
        r@ == stage_queued(s@),
{
    let p1 = chars_of("[Queued messages");
    let p2 = chars_of("Queued #");
    if starts_with_exec(s, &p1) || starts_with_exec(s, &p2) {
        match rfind_exec(s, &p2) {
            None => s.clone(),
            Some(idx) => {
                proof {
                    lemma_rfind_bounds(s@, p2@);
                }
                let t = skip_exec(s, idx);
                let nl = chars_of("\n");
                match find_exec(&t, &nl) {
                    None => t,
                    Some(k) => {
                        proof {
                            reveal_strlit("\n");
                            lemma_find_from_bounds(t@, nl@, 0);
                        }
                        skip_past(&t, k, 1)
                    },
                }
            },
        }
    } else {
        s.clone()
    }
}

fn after_message_id_exec(s: &Vec<char>, idx: usize) -> (r: Vec<char>)
    requires
        idx <= s.len(),
    ensures
        r@ == after_message_id(s@, idx as int),
{
    let nl = chars_of("\n");
    let t = skip_exec(s, idx);
    match find_exec(&t, &nl) {
        None => s.clone(),
        Some(k) => {
            proof {
                reveal_strlit("\n");
                lemma_find_from_bounds(t@, nl@, 0);
            }
            let rest = skip_exec(s, idx + k + 1);
            let after = trim_exec(&rest);
            let sep = chars_of(": ");
            match find_exec(&after, &sep) {
                None => after,
                Some(colon) => {
                    proof {
                        reveal_strlit(": ");
                        lemma_find_from_bounds(after@, sep@, 0);
                    }
                    let name_part = take_exec(&after, colon);
                    if utf8_len_below(&name_part, 40) && !contains_exec(&name_part, &nl) {
                        skip_past(&after, colon, 2)
                    } else {
                        after
                    }
                },
            }
        },
    }
}

fn stage_metadata_exec(s: &Vec<char>) -> (r: Vec<char>)
    ensures
        r@ == stage_metadata(s@),
{
    let p1 = chars_of("(untrusted metadata)");
    let p2 = chars_of("[message_id:");
    if contains_exec(s, &p1) || contains_exec(s, &p2) {
        match rfind_exec(s, &p2) {
            Some(idx) => {
                proof {
                    lemma_rfind_bounds(s@, p2@);
                }
                after_message_id_exec(s, idx)
            },
            None => {
                let fence = chars_of("```\n");
                match rfind_exec(s, &fence) {
                    None => s.clone(),
                    Some(idx) => {
                        proof {
                            reveal_strlit("```\n");
                            lemma_rfind_bounds(s@, fence@);
                        }
                        let t = skip_past(s, idx, 4);
                        trim_exec(&t)
                    },
                }
            },
        }
    } else {
        s.clone()
    }
}

fn stage_media_exec(s: &Vec<char>) -> (r: Vec<char>)
    ensures
        r@ == stage_media(s@),
{
    let p = chars_of("[media attached:");
    if starts_with_exec(s, &p) {
        let q1 = chars_of("]\n");
        match find_exec(s, &q1) {
            Some(end) => {
                proof {
                    reveal_strlit("]\n");
                    lemma_find_from_bounds(s@, q1@, 0);
                }
                skip_past(s, end, 2)
            },
            None => {
                let q2 = chars_of("]");
                match find_exec(s, &q2) {
                    Some(end) => {
                        proof {
                            reveal_strlit("]");
                            lemma_find_from_bounds(s@, q2@, 0);
                        }
                        let t = skip_past(s, end, 1);
                        trim_exec(&t)
                    },
                    None => s.clone(),
                }
            },
        }
    } else {
        s.clone()
    }
}

fn stage_human_exec(s: &Vec<char>) -> (r: Vec<char>)
    ensures
        r@ == stage_human(s@),
{
    let p = chars_of("\n\nHuman: ");
    match find_exec(s, &p) {
        Some(idx) => {
            proof {
                reveal_strlit("\n\nHuman: ");
                lemma_find_from_bounds(s@, p@, 0);
            }
            skip_past(s, idx, 9)
        },
        None => s.clone(),
    }
}

fn looks_like_timestamp_exec(b: &Vec<char>) -> (r: bool)
    ensures
        r == looks_like_timestamp(b@),
{
    if !utf8_len_below(b, 50) {
        return false;
    }
    contains_exec(b, &chars_of("GMT")) || contains_exec(b, &chars_of("UTC")) || contains_exec(
        b,
        &chars_of("Mon"),
    ) || contains_exec(b, &chars_of("Tue")) || contains_exec(b, &chars_of("Wed"))
        || contains_exec(b, &chars_of("Thu")) || contains_exec(b, &chars_of("Fri"))
        || contains_exec(b, &chars_of("Sat")) || contains_exec(b, &chars_of("Sun"))
}

fn stage_timestamp_exec(s: &Vec<char>) -> (r: Vec<char>)
    ensures
        r@ == stage_timestamp(s@),
{
    let t = trim_start_exec(s);
    let open = chars_of("[");
    if starts_with_exec(&t, &open) {
        let close = chars_of("] ");
        match find_exec(&t, &close) {
            Some(end) => {
                proof {
                    reveal_strlit("] ");
                    reveal_strlit("[");
                    lemma_find_from_bounds(t@, close@, 0);
                    if end == 0 {
                        assert(t@.subrange(0, 1)[0] == t@[0]);
                        assert(t@.subrange(0, 2)[0] == t@[0]);
                        assert(t@.subrange(0, 1) == "["@);
                        assert(t@.subrange(0, 2) == "] "@);
                        assert(false);
                    }
                }
                let inner = slice_of(&t, 1, end);
                if looks_like_timestamp_exec(&inner) {
                    skip_past(&t, end, 2)
                } else {
                    s.clone()
                }
            },
            None => s.clone(),
        }
    } else {
        s.clone()
    }
}

fn stage_current_time_exec(s: &Vec<char>) -> (r: Option<Vec<char>>)
    ensures
        r matches Some(v) ==> stage_current_time(s@) == Some(v@),
        r is None ==> stage_current_time(s@) is None,
{
    let p1 = chars_of("\nCurrent time:");
    let s1 = match find_exec(s, &p1) {
        Some(idx) => {
            proof {
                lemma_find_from_bounds(s@, p1@, 0);
            }
            take_exec(s, idx)
        },
        None => s.clone(),
    };
    let p2 = chars_of("Current time:");
    match find_exec(&s1, &p2) {
        Some(idx) => {
            proof {
                lemma_find_from_bounds(s1@, p2@, 0);
            }
            if idx == 0 {
                None
            } else {
                Some(take_exec(&s1, idx))
            }
        },
        None => Some(s1),
    }
}

fn stage_cron_exec(s: &Vec<char>) -> (r: Vec<char>)
    ensures
        r@ == stage_cron(s@),
{
    let p = chars_of("[cron:");
    if starts_with_exec(s, &p) {
        let q = chars_of("] ");
        match find_exec(s, &q) {
            Some(end) => {
                proof {
                    reveal_strlit("] ");
                    lemma_find_from_bounds(s@, q@, 0);
                }
                skip_past(s, end, 2)
            },
            None => s.clone(),
        }
    } else {
        s.clone()
    }
}

fn stage_summary_exec(s: &Vec<char>) -> (r: Option<Vec<char>>)
    ensures
        r matches Some(v) ==> stage_summary(s@) == Some(v@),
        r is None ==> stage_summary(s@) is None,
{
    let p1 = chars_of("\nReturn your summary");
    let s1 = match find_exec(s, &p1) {
        Some(idx) => {
            proof {
                lemma_find_from_bounds(s@, p1@, 0);
            }
            take_exec(s, idx)
        },
        None => s.clone(),
    };
    let p2 = chars_of("Return your summary");
    match find_exec(&s1, &p2) {
        Some(idx) => if idx == 0 {
            None
        } else {
            Some(s1)
        },
        None => Some(s1),
    }
}

pub fn clean_user_message_chars(text: &Vec<char>) -> (r: Vec<char>)
    ensures
        r@ == cleaned_user_message(text@),
{
    let startup = chars_of("A new session was started");
    if starts_with_exec(text, &startup) {
        return Vec::new();
    }
    let s = stage_queued_exec(text);
    let s = stage_metadata_exec(&s);
    let s = stage_media_exec(&s);
    let s = stage_human_exec(&s);
    let s = strip_markers_exec(&s);
    let s = stage_timestamp_exec(&s);
    match stage_current_time_exec(&s) {
        None => Vec::new(),
        Some(s2) => {
            let s3 = stage_cron_exec(&s2);
            match stage_summary_exec(&s3) {
                None => Vec::new(),
                Some(s4) => trim_exec(&s4),
            }
        },
    }
}

/// Extracts the actual user message from raw text, stripping all
/// system/channel noise.
pub fn clean_user_message(text: &str) -> (r: String)
    ensures
        r@ == cleaned_user_message(text@),
{
    let cs = chars_of(text);
    let r = clean_user_message_chars(&cs);
    string_of(r.as_slice())
}

// ---------------------------------------------------------------------
// User message extraction
// ---------------------------------------------------------------------

/// A `Sender: message` line without its sender.
pub open spec fn without_sender(line: Seq<char>) -> Seq<char> {
    match find(line, ": "@) {
        Some(pos) => line.skip(pos + 2),
        None => line,
    }
}

/// When line `i` is a `[message_id:` line, the trimmed message on the next
/// line, if that is not blank.
pub open spec fn tagged_at(ls: Seq<Seq<char>>, i: int) -> Option<Seq<char>> {
    if 0 <= i && i + 1 < ls.len() && starts_with(ls[i], "[message_id:"@) && trim(
        without_sender(ls[i + 1]),
    ).len() > 0 {
        Some(trim(without_sender(ls[i + 1])))
    } else {
        None
    }
}

/// The last tagged message among lines `0..n`.
pub open spec fn last_tagged(ls: Seq<Seq<char>>, n: int) -> Option<Seq<char>>
    decreases n,
{
    if n <= 0 {
        None
    } else {
        match tagged_at(ls, n - 1) {
            Some(c) => Some(c),
            None => last_tagged(ls, n - 1),
        }
    }
}

/// The first tagged message among lines `i..`.
pub open spec fn first_tagged_from(ls: Seq<Seq<char>>, i: int) -> Option<Seq<char>>
    decreases ls.len() - i,
{
    if i < 0 || i >= ls.len() {
        None
    } else {
        match tagged_at(ls, i) {
            Some(c) => Some(c),
            None => first_tagged_from(ls, i + 1),
        }
    }
}

/// The first non-blank line among lines `i..`, trimmed.
pub open spec fn first_nonblank_from(ls: Seq<Seq<char>>, i: int) -> Option<Seq<char>>
    decreases ls.len() - i,
{
    if i < 0 || i >= ls.len() {
        None
    } else if trim(ls[i]).len() > 0 {
        Some(trim(ls[i]))
    } else {
        first_nonblank_from(ls, i + 1)
    }
}

/// For `[timestamp] message`, the trimmed message when it is not blank.
pub open spec fn bracket_tail(text: Seq<char>) -> Option<Seq<char>> {
    if starts_with(text, "["@) {
        match find(text, "]"@) {
            Some(end) => {
                let after = trim(text.skip(end + 1));
                if after.len() > 0 {
                    Some(after)
                } else {
                    None
                }
            },
            None => None,
        }
    } else {
        None
    }
}

/// The user message in a metadata-wrapped text, shortened to 100 bytes:
/// for a queue, the last tagged message; otherwise the first tagged
/// message, else the text after a leading `[...]`, else the first
/// non-blank line.
pub open spec fn extracted_user_message(text: Seq<char>) -> Option<Seq<char>> {
    let ls = lines(text);
    let raw = if starts_with(text, "[Queued messages"@) {
        last_tagged(ls, ls.len() as int)
    } else {
        match first_tagged_from(ls, 0) {
            Some(c) => Some(c),
            None => match bracket_tail(text) {
                Some(a) => Some(a),
                None => first_nonblank_from(ls, 0),
            },
        }
    };
    match raw {
        Some(m) => Some(truncated(m, 100)),
        None => None,
    }
}

fn without_sender_exec(line: &Vec<char>) -> (r: Vec<char>)
    ensures
        r@ == without_sender(line@),
{
    let sep = chars_of(": ");
    match find_exec(line, &sep) {
        Some(pos) => {
            proof {
                reveal_strlit(": ");
                lemma_find_from_bounds(line@, sep@, 0);
            }
            skip_past(line, pos, 2)
        },
        None => line.clone(),
    }
}

fn tagged_at_exec(ls: &Vec<Vec<char>>, i: usize) -> (r: Option<Vec<char>>)
    ensures
        r matches Some(v) ==> tagged_at(views(ls@), i as int) == Some(v@),
        r is None ==> tagged_at(views(ls@), i as int) is None,
{
    if i >= ls.len() || ls.len() - i < 2 {
        return None;
    }
    let tag = chars_of("[message_id:");
    if !starts_with_exec(&ls[i], &tag) {
        return None;
    }
    let content = without_sender_exec(&ls[i + 1]);
    let t = trim_exec(&content);
    if t.len() > 0 {
        Some(t)
    } else {
        None
    }
}

fn bracket_tail_exec(text: &Vec<char>) -> (r: Option<Vec<char>>)
    ensures
        r matches Some(v) ==> bracket_tail(text@) == Some(v@),
        r is None ==> bracket_tail(text@) is None,
{
    let open = chars_of("[");
    if !starts_with_exec(text, &open) {
        return None;
    }
    let close = chars_of("]");
    match find_exec(text, &close) {
        Some(end) => {
            proof {
                reveal_strlit("]");
                lemma_find_from_bounds(text@, close@, 0);
            }
            let rest = skip_past(text, end, 1);
            let after = trim_exec(&rest);
            if after.len() > 0 {
                Some(after)
            } else {
                None
            }
        },
        None => None,
    }
}

/// Extracts the actual user message from a metadata-wrapped text
/// (direct, queued or `[timestamp] message` formats).
pub fn extract_user_message(text: &str) -> (r: Option<String>)
    ensures
        r matches Some(v) ==> extracted_user_message(text@) == Some(v@),
        r is None ==> extracted_user_message(text@) is None,
{
    let cs = chars_of(text);
    let ls = lines_exec(&cs);
    let ghost gl = views(ls@);
    let queued = chars_of("[Queued messages");
    let raw: Option<Vec<char>> = if starts_with_exec(&cs, &queued) {
        let mut best: Option<Vec<char>> = None;
        let mut i: usize = 0;
        while i < ls.len()
            invariant
                i <= ls.len(),
                gl == views(ls@),
                best matches Some(v) ==> last_tagged(gl, i as int) == Some(v@),
                best is None ==> last_tagged(gl, i as int) is None,
            decreases ls.len() - i,
        {
            match tagged_at_exec(&ls, i) {
                Some(c) => {
                    best = Some(c);
                },
                None => {},
            }
            i = i + 1;
        }
        best
    } else {
        let mut found: Option<Vec<char>> = None;
        let mut i: usize = 0;
        while i < ls.len() && found.is_none()
            invariant
                i <= ls.len(),
                gl == views(ls@),
                found matches Some(v) ==> first_tagged_from(gl, 0) == Some(v@),
                found is None ==> first_tagged_from(gl, 0) == first_tagged_from(gl, i as int),
            decreases ls.len() - i + (if found is None { 1int } else { 0int }),
        {
            match tagged_at_exec(&ls, i) {
                Some(c) => {
                    found = Some(c);
                },
                None => {
                    i = i + 1;
                },
            }
        }
        match found {
            Some(c) => Some(c),
            None => {
                assert(first_tagged_from(gl, ls.len() as int) is None);
                match bracket_tail_exec(&cs) {
                    Some(a) => Some(a),
                    None => {
                        let mut nb: Option<Vec<char>> = None;
                        let mut j: usize = 0;
                        while j < ls.len() && nb.is_none()
                            invariant
                                j <= ls.len(),
                                gl == views(ls@),
                                nb matches Some(v) ==> first_nonblank_from(gl, 0) == Some(v@),
                                nb is None ==> first_nonblank_from(gl, 0) == first_nonblank_from(
                                    gl,
                                    j as int,
                                ),
                            decreases ls.len() - j + (if nb is None { 1int } else { 0int }),
                        {
                            let t = trim_exec(&ls[j]);
                            if t.len() > 0 {
                                nb = Some(t);
                            } else {
                                j = j + 1;
                            }
                        }
                        if nb.is_none() {
                            assert(first_nonblank_from(gl, ls.len() as int) is None);
                        }
                        nb
                    },
                }
            },
        }
    };
    match raw {
        Some(m) => {
            let t = truncate_chars(&m, 100);
            Some(string_of(t.as_slice()))
        },
        None => None,
    }
}

} // verus!
