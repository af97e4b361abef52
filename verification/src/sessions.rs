//! Conversations and session lists read from session transcripts, the
//! session index and the gateway.
use vstd::prelude::*;
use crate::json::{
    Json, JsonV, jv, jv_list, jv_entries, get, at, as_str, as_u64, as_array, as_bool, str_at,
    get_exec, as_str_exec, as_u64_exec, as_array_exec, as_bool_exec, str_at_exec, same_text,
    same_chars, lemma_jv_list_len,
    lemma_jv_entries_len,
};
use crate::text::{
    chars_of, string_of, take_exec, cat, trim, trim_exec, starts_with, starts_with_exec,
};
use crate::messages::{
    cleaned_user_message, clean_user_message_chars, stripped_brackets, strip_markers_exec,
};
use crate::metrics::{str_or, lines_view};
use crate::types::{ChatMessage, MiniSessionInfo, opt_view};

verus! {

broadcast use vstd::string::group_string_axioms;

// ---------------------------------------------------------------------
// The text of a message
// ---------------------------------------------------------------------

/// The texts of the `text` items among `items`.
pub open spec fn item_texts(items: Seq<JsonV>) -> Seq<Seq<char>>
    decreases items.len(),
{
    if items.len() == 0 {
        Seq::empty()
    } else {
        let prev = item_texts(items.drop_last());
        let it = items.last();
        if str_at(it, "type"@) == Some("text"@) {
            match str_at(it, "text"@) {
                Some(t) => prev.push(t),
                None => prev,
            }
        } else {
            prev
        }
    }
}

/// Texts joined by newlines.
pub open spec fn join_lines(ls: Seq<Seq<char>>) -> Seq<char>
    decreases ls.len(),
{
    if ls.len() == 0 {
        Seq::empty()
    } else if ls.len() == 1 {
        ls[0]
    } else {
        join_lines(ls.drop_last()) + "\n"@ + ls.last()
    }
}

/// The text of a message: its text items joined by newlines when its
/// content is a list, its content when that is a text, else none.
pub open spec fn message_text(msg: JsonV) -> Option<Seq<char>> {
    let c = at(msg, "content"@);
    match as_array(c) {
        Some(items) => Some(join_lines(item_texts(items))),
        None => as_str(c),
    }
}

fn message_text_exec(msg: &Json) -> (r: Option<Vec<char>>)
    ensures
        match r {
            Some(t) => message_text(msg@) == Some(t@),
            None => message_text(msg@) is None,
        },
{
    let null = Json::Null;
    let c: &Json = match get_exec(msg, "content") {
        Some(x) => x,
        None => &null,
    };
    match as_array_exec(c) {
        Some(items) => {
            proof {
                lemma_jv_list_len(items@);
                reveal_strlit("\n");
            }
            let ghost a = jv_list(items@);
            let mut out: Vec<char> = Vec::new();
            let mut any = false;
            let mut i: usize = 0;
            assert(a.take(0) =~= Seq::<JsonV>::empty());
            while i < items.len()
                invariant
                    i <= items.len(),
                    a == jv_list(items@),
                    a.len() == items.len(),
                    forall|k: int| 0 <= k < items.len() ==> #[trigger] a[k] == jv(items@[k]),
                    any == (item_texts(a.take(i as int)).len() > 0),
                    out@ == join_lines(item_texts(a.take(i as int))),
                decreases items.len() - i,
            {
                assert(a.take(i + 1).drop_last() =~= a.take(i as int));
                assert(a.take(i + 1).last() == a[i as int]);
                let it = &items[i];
                let is_text = match str_at_exec(it, "type") {
                    Some(t) => same_text(t, "text"),
                    None => false,
                };
                if is_text {
                    match str_at_exec(it, "text") {
                        Some(t) => {
                            let ghost prev = item_texts(a.take(i as int));
                            let ghost old_out = out@;
                            let tc = chars_of(t);
                            if any {
                                out.push('\n');
                            }
                            let ghost before = out@;
                            out = cat(&out, &tc);
                            proof {
                                reveal_strlit("\n");
                                let now = prev.push(t@);
                                assert(now.drop_last() =~= prev);
                                assert(now.last() == t@);
                                assert(out@ == before + t@);
                                if any {
                                    assert(before =~= old_out + "\n"@);
                                    assert(out@ =~= join_lines(prev) + "\n"@ + t@);
                                } else {
                                    assert(prev.len() == 0);
                                    assert(old_out =~= Seq::<char>::empty());
                                    assert(out@ =~= t@);
                                }
                            }
                            any = true;
                        },
                        None => {},
                    }
                }
                i = i + 1;
            }
            assert(a.take(items.len() as int) =~= a);
            Some(out)
        },
        None => match as_str_exec(c) {
            Some(s) => Some(chars_of(s)),
            None => None,
        },
    }
}

// ---------------------------------------------------------------------
// Conversations
// ---------------------------------------------------------------------

/// The chat message a transcript line holds: a user or assistant message
/// with non-empty text, cleaned (user) or without markers (assistant),
/// and not empty after that; with the line's timestamp.
pub open spec fn chat_of(v: JsonV) -> Option<(Seq<char>, Seq<char>, Option<Seq<char>>)> {
    let msg = at(v, "message"@);
    let role = str_or(msg, "role"@, Seq::empty());
    if str_at(v, "type"@) != Some("message"@) || (role != "user"@ && role != "assistant"@) {
        None
    } else {
        match message_text(msg) {
            None => None,
            Some(t) => if t.len() == 0 {
                None
            } else {
                let c = if role == "user"@ {
                    cleaned_user_message(t)
                } else {
                    stripped_brackets(t)
                };
                if c.len() == 0 {
                    None
                } else {
                    Some((role, c, str_at(v, "timestamp"@)))
                }
            },
        }
    }
}

/// The chat messages of the transcript lines, in order.
pub open spec fn chats(lines: Seq<Option<JsonV>>) -> Seq<(Seq<char>, Seq<char>, Option<Seq<char>>)>
    decreases lines.len(),
{
    if lines.len() == 0 {
        Seq::empty()
    } else {
        let prev = chats(lines.drop_last());
        match lines.last() {
            Some(v) => match chat_of(v) {
                Some(c) => prev.push(c),
                None => prev,
            },
            None => prev,
        }
    }
}

/// The last `n` items (all when fewer).
pub open spec fn last_n<A>(s: Seq<A>, n: int) -> Seq<A> {
    if s.len() > n {
        s.skip(s.len() - n)
    } else {
        s
    }
}

pub open spec fn chat_view(m: ChatMessage) -> (Seq<char>, Seq<char>, Option<Seq<char>>) {
    (m.role@, m.text@, opt_view(m.timestamp))
}

pub open spec fn chats_view(s: Seq<ChatMessage>) -> Seq<(Seq<char>, Seq<char>, Option<Seq<char>>)> {
    s.map_values(|m: ChatMessage| chat_view(m))
}

fn chat_of_exec(v: &Json) -> (r: Option<ChatMessage>)
    ensures
        match r {
            Some(m) => chat_of(v@) == Some(chat_view(m)),
            None => chat_of(v@) is None,
        },
{
    proof {
        reveal_strlit("");
        reveal_strlit("user");
        reveal_strlit("assistant");
        assert(""@ =~= Seq::<char>::empty());
    }
    let null = Json::Null;
    let msg: &Json = match get_exec(v, "message") {
        Some(x) => x,
        None => &null,
    };
    let role: &str = match str_at_exec(msg, "role") {
        Some(r) => r,
        None => "",
    };
    let is_msg = match str_at_exec(v, "type") {
        Some(t) => same_text(t, "message"),
        None => false,
    };
    let user = same_text(role, "user");
    if !is_msg || (!user && !same_text(role, "assistant")) {
        return None;
    }
    match message_text_exec(msg) {
        None => None,
        Some(t) => {
            if t.len() == 0 {
                return None;
            }
            let c = if user {
                clean_user_message_chars(&t)
            } else {
                crate::text::trim_exec(&strip_markers_exec(&t))
            };
            if c.len() == 0 {
                return None;
            }
            let ts = match str_at_exec(v, "timestamp") {
                Some(s) => Some(s.to_string()),
                None => None,
            };
            Some(ChatMessage { role: role.to_string(), text: string_of(c.as_slice()), timestamp: ts })
        },
    }
}

/// The last 50 chat messages of a transcript (see `chat_of`); lines that
/// did not parse are `None` and skipped.
pub fn chat_messages(lines: &Vec<Option<Json>>) -> (r: Vec<ChatMessage>)
    ensures
        chats_view(r@) == last_n(chats(lines_view(lines@)), 50),
{
    let ghost lv = lines_view(lines@);
    let mut out: Vec<ChatMessage> = Vec::new();
    let mut i: usize = 0;
    assert(lv.take(0) =~= Seq::<Option<JsonV>>::empty());
    assert(chats_view(out@) =~= Seq::<(Seq<char>, Seq<char>, Option<Seq<char>>)>::empty());
    while i < lines.len()
        invariant
            i <= lines.len(),
            lv == lines_view(lines@),
            chats_view(out@) == chats(lv.take(i as int)),
        decreases lines.len() - i,
    {
        assert(lv.take(i + 1).drop_last() =~= lv.take(i as int));
        assert(lv.take(i + 1).last() == lv[i as int]);
        match &lines[i] {
            Some(v) => match chat_of_exec(v) {
                Some(m) => {
                    let ghost before = out@;
                    out.push(m);
                    assert(chats_view(out@) =~= chats_view(before).push(chat_view(m)));
                },
                None => {},
            },
            None => {},
        }
        i = i + 1;
    }
    assert(lv.take(lines.len() as int) =~= lv);
    if out.len() > 50 {
        let ghost all = out@;
        let tail = out.split_off(out.len() - 50);
        assert(chats_view(tail@) =~= chats_view(all).skip(all.len() - 50));
        tail
    } else {
        out
    }
}


/// The transcript file of session `key` in the index: `session not found`
/// when the index has no such entry, `no sessionFile` when the entry names
/// no file.
pub open spec fn session_file_for(index: JsonV, key: Seq<char>) -> Result<Seq<char>, Seq<char>> {
    match get(index, key) {
        None => Err("session not found"@),
        Some(v) => match str_at(v, "sessionFile"@) {
            Some(f) => Ok(f),
            None => Err("no sessionFile"@),
        },
    }
}

/// The transcript file of a session in the index (see `session_file_for`).
pub fn session_file_in_index(index: &Json, key: &str) -> (r: Result<String, String>)
    ensures
        match r {
            Ok(f) => session_file_for(index@, key@) == Ok::<Seq<char>, Seq<char>>(f@),
            Err(e) => session_file_for(index@, key@) == Err::<Seq<char>, Seq<char>>(e@),
        },
{
    match get_exec(index, key) {
        None => Err("session not found".to_string()),
        Some(v) => match str_at_exec(v, "sessionFile") {
            Some(f) => Ok(f.to_string()),
            None => Err("no sessionFile".to_string()),
        },
    }
}

// ---------------------------------------------------------------------
// The conversation of a cc session
// ---------------------------------------------------------------------

/// Texts that are bookkeeping of the client, not conversation.
pub open spec fn is_client_note(t: Seq<char>) -> bool {
    ||| starts_with(t, "<command-name>"@)
    ||| starts_with(t, "[Request interrupted"@)
    ||| starts_with(t, "<task-notification>"@)
    ||| starts_with(t, "<local-command"@)
}

/// A summary that opens a continued session is shown as `/compact`.
pub open spec fn compacted(t: Seq<char>) -> Seq<char> {
    if starts_with(t, "This session is being continued from a previous conversation"@) {
        "/compact"@
    } else {
        t
    }
}

/// The chat message a line of a cc or codex transcript holds: a user,
/// human or assistant record that is not a meta record, whose text is not
/// blank and not a client note; or a codex `event_msg` whose payload is a
/// user or agent message with a text that is not blank.
pub open spec fn conversation_of(v: JsonV) -> Option<(Seq<char>, Seq<char>, Option<Seq<char>>)> {
    let t = str_or(v, "type"@, Seq::empty());
    if t == "assistant"@ || t == "user"@ || t == "human"@ {
        if as_bool(at(v, "isMeta"@)) == Some(true) {
            None
        } else {
            match message_text(at(v, "message"@)) {
                None => None,
                Some(x) => if trim(x).len() == 0 || is_client_note(x) {
                    None
                } else {
                    let role = if t == "assistant"@ { "assistant"@ } else { "user"@ };
                    Some((role, compacted(x), str_at(v, "timestamp"@)))
                },
            }
        }
    } else if t == "event_msg"@ {
        let p = at(v, "payload"@);
        let pt = str_or(p, "type"@, Seq::empty());
        let x = str_or(p, "message"@, Seq::empty());
        if (pt == "user_message"@ || pt == "agent_message"@) && trim(x).len() > 0 {
            let role = if pt == "user_message"@ { "user"@ } else { "assistant"@ };
            Some((role, x, str_at(v, "timestamp"@)))
        } else {
            None
        }
    } else {
        None
    }
}

/// The conversation messages of the transcript lines, in order.
pub open spec fn conversation(lines: Seq<Option<JsonV>>) -> Seq<(Seq<char>, Seq<char>, Option<Seq<char>>)>
    decreases lines.len(),
{
    if lines.len() == 0 {
        Seq::empty()
    } else {
        let prev = conversation(lines.drop_last());
        match lines.last() {
            Some(v) => match conversation_of(v) {
                Some(c) => prev.push(c),
                None => prev,
            },
            None => prev,
        }
    }
}

fn text_or_empty_chars(v: &Json, key: &str) -> (r: Vec<char>)
    ensures
        r@ == str_or(v@, key@, Seq::empty()),
{
    match str_at_exec(v, key) {
        Some(s) => chars_of(s),
        None => Vec::new(),
    }
}

fn conversation_of_exec(v: &Json) -> (r: Option<ChatMessage>)
    ensures
        match r {
            Some(m) => conversation_of(v@) == Some(chat_view(m)),
            None => conversation_of(v@) is None,
        },
{
    proof {
        reveal_strlit("assistant");
        reveal_strlit("user");
        reveal_strlit("/compact");
    }
    let null = Json::Null;
    let t = text_or_empty_chars(v, "type");
    let ts = match str_at_exec(v, "timestamp") {
        Some(s) => Some(s.to_string()),
        None => None,
    };
    let is_asst = same_chars(&t, &chars_of("assistant"));
    if is_asst || same_chars(&t, &chars_of("user")) || same_chars(&t, &chars_of("human")) {
        let meta: &Json = match get_exec(v, "isMeta") {
            Some(x) => x,
            None => &null,
        };
        if as_bool_exec(meta) == Some(true) {
            return None;
        }
        let msg: &Json = match get_exec(v, "message") {
            Some(x) => x,
            None => &null,
        };
        match message_text_exec(msg) {
            None => None,
            Some(x) => {
                if trim_exec(&x).len() == 0 {
                    return None;
                }
                if starts_with_exec(&x, &chars_of("<command-name>"))
                    || starts_with_exec(&x, &chars_of("[Request interrupted"))
                    || starts_with_exec(&x, &chars_of("<task-notification>"))
                    || starts_with_exec(&x, &chars_of("<local-command")) {
                    return None;
                }
                let text = if starts_with_exec(
                    &x,
                    &chars_of("This session is being continued from a previous conversation"),
                ) {
                    "/compact".to_string()
                } else {
                    string_of(x.as_slice())
                };
                let role = if is_asst { "assistant".to_string() } else { "user".to_string() };
                Some(ChatMessage { role, text, timestamp: ts })
            },
        }
    } else if same_chars(&t, &chars_of("event_msg")) {
        let p: &Json = match get_exec(v, "payload") {
            Some(x) => x,
            None => &null,
        };
        let pt = text_or_empty_chars(p, "type");
        let x = text_or_empty_chars(p, "message");
        let is_user = same_chars(&pt, &chars_of("user_message"));
        if (is_user || same_chars(&pt, &chars_of("agent_message"))) && trim_exec(&x).len() > 0 {
            let role = if is_user { "user".to_string() } else { "assistant".to_string() };
            Some(ChatMessage { role, text: string_of(x.as_slice()), timestamp: ts })
        } else {
            None
        }
    } else {
        None
    }
}

/// The last 1000 conversation messages of a cc or codex transcript, in
/// order (see `conversation_of`); lines that did not parse are `None`.
pub fn claude_conversation(lines: &Vec<Option<Json>>) -> (r: Vec<ChatMessage>)
    ensures
        chats_view(r@) == last_n(conversation(lines_view(lines@)), 1000),
{
    let ghost lv = lines_view(lines@);
    let mut out: Vec<ChatMessage> = Vec::new();
    let mut i: usize = 0;
    assert(lv.take(0) =~= Seq::<Option<JsonV>>::empty());
    assert(chats_view(out@) =~= Seq::<(Seq<char>, Seq<char>, Option<Seq<char>>)>::empty());
    while i < lines.len()
        invariant
            i <= lines.len(),
            lv == lines_view(lines@),
            chats_view(out@) == conversation(lv.take(i as int)),
        decreases lines.len() - i,
    {
        assert(lv.take(i + 1).drop_last() =~= lv.take(i as int));
        assert(lv.take(i + 1).last() == lv[i as int]);
        match &lines[i] {
            Some(v) => match conversation_of_exec(v) {
                Some(m) => {
                    let ghost before = out@;
                    out.push(m);
                    assert(chats_view(out@) =~= chats_view(before).push(chat_view(m)));
                },
                None => {},
            },
            None => {},
        }
        i = i + 1;
    }
    assert(lv.take(lines.len() as int) =~= lv);
    if out.len() > 1000 {
        let ghost all = out@;
        let tail = out.split_off(out.len() - 1000);
        assert(chats_view(tail@) =~= chats_view(all).skip(all.len() - 1000));
        tail
    } else {
        out
    }
}

// ---------------------------------------------------------------------
// Last messages of a session
// ---------------------------------------------------------------------

/// At most 120 characters, with `...` after a cut.
pub open spec fn clip120(s: Seq<char>) -> Seq<char> {
    if s.len() > 120 {
        s.take(120) + "..."@
    } else {
        s
    }
}

/// The last user and assistant messages after one more transcript line:
/// a message with non-empty text replaces the one of its role by its
/// cleaned text (clipped to 120 characters), unless that is empty.
pub open spec fn last_pair_step(
    p: (Option<Seq<char>>, Option<Seq<char>>),
    v: JsonV,
) -> (Option<Seq<char>>, Option<Seq<char>>) {
    let msg = at(v, "message"@);
    let role = str_or(msg, "role"@, Seq::empty());
    if str_at(v, "type"@) != Some("message"@) {
        p
    } else {
        match message_text(msg) {
            None => p,
            Some(t) => if t.len() == 0 {
                p
            } else if role == "user"@ {
                let c = cleaned_user_message(t);
                if c.len() == 0 {
                    p
                } else {
                    (Some(clip120(c)), p.1)
                }
            } else if role == "assistant"@ {
                let c = stripped_brackets(t);
                if c.len() == 0 {
                    p
                } else {
                    (p.0, Some(clip120(c)))
                }
            } else {
                p
            },
        }
    }
}

pub open spec fn last_pair(lines: Seq<Option<JsonV>>) -> (Option<Seq<char>>, Option<Seq<char>>)
    decreases lines.len(),
{
    if lines.len() == 0 {
        (None, None)
    } else {
        let prev = last_pair(lines.drop_last());
        match lines.last() {
            Some(v) => last_pair_step(prev, v),
            None => prev,
        }
    }
}

fn clip120_exec(c: &Vec<char>) -> (r: String)
    ensures
        r@ == clip120(c@),
{
    if c.len() > 120 {
        let head = take_exec(c, 120);
        let t = cat(&head, &chars_of("..."));
        string_of(t.as_slice())
    } else {
        string_of(c.as_slice())
    }
}

/// The last user and assistant messages of a transcript (see
/// `last_pair_step`); lines that did not parse are `None` and skipped.
pub fn extract_last_messages(lines: &Vec<Option<Json>>) -> (r: (Option<String>, Option<String>))
    ensures
        (opt_view(r.0), opt_view(r.1)) == last_pair(lines_view(lines@)),
{
    proof {
        reveal_strlit("");
        reveal_strlit("user");
        reveal_strlit("assistant");
        assert(""@ =~= Seq::<char>::empty());
    }
    let ghost lv = lines_view(lines@);
    let mut user: Option<String> = None;
    let mut asst: Option<String> = None;
    let mut i: usize = 0;
    assert(lv.take(0) =~= Seq::<Option<JsonV>>::empty());
    while i < lines.len()
        invariant
            i <= lines.len(),
            lv == lines_view(lines@),
            (opt_view(user), opt_view(asst)) == last_pair(lv.take(i as int)),
        decreases lines.len() - i,
    {
        assert(lv.take(i + 1).drop_last() =~= lv.take(i as int));
        assert(lv.take(i + 1).last() == lv[i as int]);
        let ghost prev = (opt_view(user), opt_view(asst));
        proof {
            reveal_strlit("");
            reveal_strlit("user");
            reveal_strlit("assistant");
            assert(""@ =~= Seq::<char>::empty());
        }
        match &lines[i] {
            Some(v) => {
                assert(lv[i as int] == Some(v@));
                let is_msg = match str_at_exec(v, "type") {
                    Some(t) => same_text(t, "message"),
                    None => false,
                };
                if is_msg {
                    let null = Json::Null;
                    let msg: &Json = match get_exec(v, "message") {
                        Some(x) => x,
                        None => &null,
                    };
                    let role: &str = match str_at_exec(msg, "role") {
                        Some(r) => r,
                        None => "",
                    };
                    match message_text_exec(msg) {
                        Some(t) => {
                            if t.len() > 0 {
                                if same_text(role, "user") {
                                    let c = clean_user_message_chars(&t);
                                    if c.len() > 0 {
                                        user = Some(clip120_exec(&c));
                                    }
                                } else if same_text(role, "assistant") {
                                    let c = crate::text::trim_exec(&strip_markers_exec(&t));
                                    if c.len() > 0 {
                                        asst = Some(clip120_exec(&c));
                                    }
                                }
                            }
                        },
                        None => {},
                    }
                    assert(msg@ == at(v@, "message"@));
                    assert(role@ == str_or(at(v@, "message"@), "role"@, Seq::empty()));
                }
                assert((opt_view(user), opt_view(asst)) == last_pair_step(prev, v@));
            },
            None => {},
        }
        i = i + 1;
    }
    assert(lv.take(lines.len() as int) =~= lv);
    (user, asst)
}


// ---------------------------------------------------------------------
// Conversations from the gateway
// ---------------------------------------------------------------------

/// `v.get(key).unwrap_or(v)`.
pub open spec fn get_or_self(v: JsonV, key: Seq<char>) -> JsonV {
    match get(v, key) {
        Some(x) => x,
        None => v,
    }
}

/// The messages list of a gateway history reply (`result.details.messages`,
/// each level defaulting to the one above it).
pub open spec fn history_messages(reply: JsonV) -> Seq<JsonV> {
    let det = get_or_self(get_or_self(reply, "result"@), "details"@);
    match get(det, "messages"@) {
        Some(m) => match as_array(m) {
            Some(a) => a,
            None => Seq::empty(),
        },
        None => Seq::empty(),
    }
}

/// A gateway history message as chat message: user or assistant, with
/// non-empty text; its millisecond timestamp written as calendar text.
pub open spec fn gateway_chat_of(msg: JsonV) -> Option<(Seq<char>, Seq<char>, Option<Seq<char>>)> {
    let role = str_or(msg, "role"@, Seq::empty());
    if role != "user"@ && role != "assistant"@ {
        None
    } else {
        match message_text(msg) {
            None => None,
            Some(t) => if t.len() == 0 {
                None
            } else {
                Some(
                    (
                        role,
                        t,
                        match as_u64(at(msg, "timestamp"@)) {
                            Some(ms) => Some(crate::clock::ms_text(ms)),
                            None => None,
                        },
                    ),
                )
            },
        }
    }
}

pub open spec fn gateway_chats(msgs: Seq<JsonV>) -> Seq<(Seq<char>, Seq<char>, Option<Seq<char>>)>
    decreases msgs.len(),
{
    if msgs.len() == 0 {
        Seq::empty()
    } else {
        let prev = gateway_chats(msgs.drop_last());
        match gateway_chat_of(msgs.last()) {
            Some(c) => prev.push(c),
            None => prev,
        }
    }
}

pub(crate) fn get_or_self_exec<'a>(v: &'a Json, key: &str) -> (r: &'a Json)
    ensures
        r@ == get_or_self(v@, key@),
{
    match get_exec(v, key) {
        Some(x) => x,
        None => v,
    }
}

/// The chat messages of a gateway history reply (see `gateway_chat_of`).
pub fn gateway_chat_messages(reply: &Json) -> (r: Vec<ChatMessage>)
    ensures
        chats_view(r@) == gateway_chats(history_messages(reply@)),
{
    proof {
        reveal_strlit("");
        assert(""@ =~= Seq::<char>::empty());
    }
    let det = get_or_self_exec(get_or_self_exec(reply, "result"), "details");
    let empty: Vec<Json> = Vec::new();
    let msgs: &Vec<Json> = match get_exec(det, "messages") {
        Some(m) => match as_array_exec(m) {
            Some(a) => a,
            None => &empty,
        },
        None => &empty,
    };
    assert(jv_list(empty@) =~= Seq::<JsonV>::empty());
    proof {
        lemma_jv_list_len(msgs@);
    }
    let ghost a = jv_list(msgs@);
    assert(a == history_messages(reply@));
    let mut out: Vec<ChatMessage> = Vec::new();
    let mut i: usize = 0;
    assert(a.take(0) =~= Seq::<JsonV>::empty());
    assert(chats_view(out@) =~= Seq::<(Seq<char>, Seq<char>, Option<Seq<char>>)>::empty());
    while i < msgs.len()
        invariant
            i <= msgs.len(),
            a == jv_list(msgs@),
            a.len() == msgs.len(),
            forall|k: int| 0 <= k < msgs.len() ==> #[trigger] a[k] == jv(msgs@[k]),
            chats_view(out@) == gateway_chats(a.take(i as int)),
        decreases msgs.len() - i,
    {
        proof {
            reveal_strlit("");
            reveal_strlit("user");
            reveal_strlit("assistant");
            assert(""@ =~= Seq::<char>::empty());
        }
        assert(a.take(i + 1).drop_last() =~= a.take(i as int));
        assert(a.take(i + 1).last() == a[i as int]);
        let m = &msgs[i];
        let role: &str = match str_at_exec(m, "role") {
            Some(r) => r,
            None => "",
        };
        if same_text(role, "user") || same_text(role, "assistant") {
            match message_text_exec(m) {
                Some(t) => {
                    if t.len() > 0 {
                        let null = Json::Null;
                        let ts_v: &Json = match get_exec(m, "timestamp") {
                            Some(x) => x,
                            None => &null,
                        };
                        let ts = match as_u64_exec(ts_v) {
                            Some(ms) => Some(crate::clock::format_ms(ms)),
                            None => None,
                        };
                        let c = ChatMessage {
                            role: role.to_string(),
                            text: string_of(t.as_slice()),
                            timestamp: ts,
                        };
                        let ghost before = out@;
                        out.push(c);
                        assert(chats_view(out@) =~= chats_view(before).push(chat_view(c)));
                    }
                },
                None => {},
            }
        }
        i = i + 1;
    }
    assert(a.take(msgs.len() as int) =~= a);
    out
}


// ---------------------------------------------------------------------
// Session lists
// ---------------------------------------------------------------------

/// The view of a listed session.
pub struct MiniV {
    pub key: Seq<char>,
    pub agent_id: Seq<char>,
    pub session_id: Seq<char>,
    pub label: Seq<char>,
    pub channel: Option<Seq<char>>,
    pub updated_at: u64,
    pub active: bool,
    pub last_user_msg: Option<Seq<char>>,
    pub last_assistant_msg: Option<Seq<char>>,
    pub session_file: Option<Seq<char>>,
}

pub open spec fn mini_view(m: MiniSessionInfo) -> MiniV {
    MiniV {
        key: m.key@,
        agent_id: m.agent_id@,
        session_id: m.session_id@,
        label: m.label@,
        channel: opt_view(m.channel),
        updated_at: m.updated_at,
        active: m.active,
        last_user_msg: opt_view(m.last_user_msg),
        last_assistant_msg: opt_view(m.last_assistant_msg),
        session_file: opt_view(m.session_file),
    }
}

pub open spec fn minis_view(s: Seq<MiniSessionInfo>) -> Seq<MiniV> {
    s.map_values(|m: MiniSessionInfo| mini_view(m))
}

/// First position at or after `i` of a session updated before `u`.
pub open spec fn first_older(s: Seq<MiniV>, u: u64, i: int) -> int
    decreases s.len() - i,
{
    if i < 0 || i >= s.len() {
        i
    } else if s[i].updated_at < u {
        i
    } else {
        first_older(s, u, i + 1)
    }
}

/// Sessions ordered newest first; sessions updated at the same time keep
/// their order.
pub open spec fn newest_first(s: Seq<MiniV>) -> Seq<MiniV>
    decreases s.len(),
{
    if s.len() == 0 {
        s
    } else {
        let sorted = newest_first(s.drop_last());
        let x = s.last();
        sorted.insert(first_older(sorted, x.updated_at, 0), x)
    }
}

proof fn lemma_first_older(s: Seq<MiniV>, u: u64, i: int)
    requires
        0 <= i <= s.len(),
    ensures
        i <= first_older(s, u, i) <= s.len(),
    decreases s.len() - i,
{
    if i < s.len() && s[i].updated_at >= u {
        lemma_first_older(s, u, i + 1);
    }
}

proof fn lemma_newest_first_len(s: Seq<MiniV>)
    ensures
        newest_first(s).len() == s.len(),
    decreases s.len(),
{
    if s.len() > 0 {
        lemma_newest_first_len(s.drop_last());
        lemma_first_older(newest_first(s.drop_last()), s.last().updated_at, 0);
    }
}

/// Sessions ordered by update time, newest first.
pub open spec fn newest_ordered(s: Seq<MiniV>) -> bool {
    forall|i: int, j: int| 0 <= i < j < s.len() ==> s[i].updated_at >= s[j].updated_at
}

proof fn lemma_first_older_bounds(s: Seq<MiniV>, u: u64, i: int)
    requires
        0 <= i <= s.len(),
    ensures
        forall|k: int| i <= k < first_older(s, u, i) ==> s[k].updated_at >= u,
        first_older(s, u, i) < s.len() ==> s[first_older(s, u, i)].updated_at < u,
    decreases s.len() - i,
{
    if i < s.len() && s[i].updated_at >= u {
        lemma_first_older_bounds(s, u, i + 1);
    }
}

/// Listing sessions newest first gives them ordered by update time, and
/// neither loses nor adds a session.
pub proof fn law_newest_first_ordered(s: Seq<MiniV>)
    ensures
        newest_ordered(newest_first(s)),
        newest_first(s).to_multiset() == s.to_multiset(),
    decreases s.len(),
{
    if s.len() > 0 {
        let sorted = newest_first(s.drop_last());
        let x = s.last();
        let p = first_older(sorted, x.updated_at, 0);
        law_newest_first_ordered(s.drop_last());
        lemma_first_older(sorted, x.updated_at, 0);
        lemma_first_older_bounds(sorted, x.updated_at, 0);
        let r = sorted.insert(p, x);
        assert forall|i: int, j: int| 0 <= i < j < r.len() implies r[i].updated_at
            >= r[j].updated_at by {
            if j < p {
                assert(r[i] == sorted[i] && r[j] == sorted[j]);
            } else if j == p {
                assert(r[j] == x);
                assert(r[i] == sorted[i]);
            } else if i < p {
                assert(r[i] == sorted[i] && r[j] == sorted[j - 1]);
            } else if i == p {
                assert(r[i] == x && r[j] == sorted[j - 1]);
                assert(sorted[p].updated_at < x.updated_at);
                assert(sorted[p].updated_at >= sorted[j - 1].updated_at || p == j - 1);
            } else {
                assert(r[i] == sorted[i - 1] && r[j] == sorted[j - 1]);
            }
        }
        vstd::seq_lib::to_multiset_insert(sorted, p, x);
        s.drop_last().to_multiset_ensures();
        assert(s.drop_last().push(x) =~= s);
    }
}

/// The `n` newest sessions (see `newest_first`).
pub fn newest_sessions(v: Vec<MiniSessionInfo>, n: usize) -> (r: Vec<MiniSessionInfo>)
    ensures
        minis_view(r@) == newest_first(minis_view(v@)).take(
            if n < v@.len() {
                n as int
            } else {
                v@.len() as int
            },
        ),
{
    let ghost src = minis_view(v@);
    let mut back: Vec<MiniSessionInfo> = Vec::new();
    let mut rest = v;
    while rest.len() > 0
        invariant
            minis_view(back@) + minis_view(rest@).reverse() == src.reverse(),
        decreases rest.len(),
    {
        let ghost r0 = rest@;
        let x = rest.pop().unwrap();
        let ghost b0 = back@;
        back.push(x);
        proof {
            assert(r0 == rest@.push(x));
            assert(minis_view(r0) =~= minis_view(rest@).push(mini_view(x)));
            assert(minis_view(r0).reverse() =~= seq![mini_view(x)] + minis_view(rest@).reverse());
            assert(minis_view(back@) =~= minis_view(b0).push(mini_view(x)));
            assert(minis_view(back@) + minis_view(rest@).reverse() =~= minis_view(b0) + minis_view(
                r0,
            ).reverse());
        }
    }
    assert(minis_view(back@) =~= src.reverse());
    let mut out: Vec<MiniSessionInfo> = Vec::new();
    let ghost total = src.len();
    assert(src.take(0) =~= Seq::<MiniV>::empty());
    assert(minis_view(out@) =~= Seq::<MiniV>::empty());
    while back.len() > 0
        invariant
            total == src.len(),
            back.len() <= total,
            minis_view(back@) == src.skip(total - back.len()).reverse(),
            minis_view(out@) == newest_first(src.take(total - back.len())),
        decreases back.len(),
    {
        let ghost b0 = back@;
        let ghost done = total - b0.len();
        let x = back.pop().unwrap();
        proof {
            assert(b0 == back@.push(x));
            assert(minis_view(b0)[b0.len() - 1] == mini_view(x));
            assert(src.skip(done).reverse()[b0.len() - 1] == src[done]);
            assert(minis_view(back@) =~= minis_view(b0).drop_last());
            assert(src.skip(done).reverse().drop_last() =~= src.skip(done + 1).reverse());
            assert(minis_view(back@) =~= src.skip(done + 1).reverse());
        }
        let mut pos: usize = 0;
        while pos < out.len() && out[pos].updated_at >= x.updated_at
            invariant
                pos <= out.len(),
                first_older(minis_view(out@), x.updated_at, 0) == first_older(
                    minis_view(out@),
                    x.updated_at,
                    pos as int,
                ),
            decreases out.len() - pos,
        {
            pos = pos + 1;
        }
        let ghost o0 = minis_view(out@);
        let ghost xv = mini_view(x);
        out.insert(pos, x);
        proof {
            assert(minis_view(out@) =~= o0.insert(pos as int, xv));
            assert(src.take(done + 1).drop_last() =~= src.take(done));
            assert(src.take(done + 1).last() == src[done]);
        }
    }
    assert(src.take(total as int) =~= src);
    proof {
        lemma_newest_first_len(src);
    }
    let keep = if n < out.len() {
        n
    } else {
        out.len()
    };
    out.truncate(keep);
    assert(minis_view(out@) =~= newest_first(src).take(keep as int));
    out
}

/// The sessions of an index worth listing: not cron sessions, and with a
/// session file.
pub open spec fn listed(key: Seq<char>, val: JsonV) -> bool {
    !crate::text::contains(key, ":cron:"@) && str_or(val, "sessionFile"@, Seq::empty()).len() > 0
}

/// A session of an index as listed, inactive and without messages.
pub open spec fn index_mini(agent_id: Seq<char>, key: Seq<char>, val: JsonV) -> MiniV {
    MiniV {
        key,
        agent_id,
        session_id: str_or(val, "sessionId"@, key),
        label: key,
        channel: str_at(val, "lastChannel"@),
        updated_at: crate::metrics::updated_or_zero(val),
        active: false,
        last_user_msg: None,
        last_assistant_msg: None,
        session_file: str_at(val, "sessionFile"@),
    }
}

pub open spec fn index_minis(agent_id: Seq<char>, es: Seq<(Seq<char>, JsonV)>) -> Seq<MiniV>
    decreases es.len(),
{
    if es.len() == 0 {
        Seq::empty()
    } else {
        let prev = index_minis(agent_id, es.drop_last());
        if listed(es.last().0, es.last().1) {
            prev.push(index_mini(agent_id, es.last().0, es.last().1))
        } else {
            prev
        }
    }
}

/// The five newest of the sessions (all of them when fewer).
pub open spec fn newest_five(all: Seq<MiniV>) -> Seq<MiniV> {
    newest_first(all).take(if 5 < all.len() { 5 } else { all.len() as int })
}

/// A session as listed from an index: not a cron session (its key holds
/// no `:cron:`), with a non-empty session file.
pub open spec fn plain_session(m: MiniV) -> bool {
    !crate::text::contains(m.key, ":cron:"@) && (m.session_file matches Some(f) && f.len() > 0)
}

proof fn lemma_index_minis_plain(agent_id: Seq<char>, es: Seq<(Seq<char>, JsonV)>)
    ensures
        forall|k: int|
            0 <= k < index_minis(agent_id, es).len() ==> plain_session(
                #[trigger] index_minis(agent_id, es)[k],
            ),
    decreases es.len(),
{
    if es.len() > 0 {
        lemma_index_minis_plain(agent_id, es.drop_last());
        let prev = index_minis(agent_id, es.drop_last());
        let (key, val) = es.last();
        if listed(key, val) {
            let m = index_mini(agent_id, key, val);
            assert(str_or(val, "sessionFile"@, Seq::empty()).len() > 0);
            assert(plain_session(m));
            assert forall|k: int| 0 <= k < prev.push(m).len() implies plain_session(
                #[trigger] prev.push(m)[k],
            ) by {
                if k < prev.len() {
                    assert(prev.push(m)[k] == prev[k]);
                }
            }
        }
    }
}

/// No session listed from an index is a cron session, and each has a
/// session file: for any index, every one of the newest sessions listed
/// has a key without `:cron:` and a non-empty `sessionFile`.
pub proof fn law_index_listing_plain(agent_id: Seq<char>, es: Seq<(Seq<char>, JsonV)>)
    ensures
        forall|k: int| 0 <= k < newest_five(index_minis(agent_id, es)).len() ==> {
            &&& !crate::text::contains(
                #[trigger] newest_five(index_minis(agent_id, es))[k].key,
                ":cron:"@,
            )
            &&& newest_five(index_minis(agent_id, es))[k].session_file matches Some(f) && f.len() > 0
        },
{
    broadcast use vstd::seq_lib::group_to_multiset_ensures;

    let all = index_minis(agent_id, es);
    lemma_index_minis_plain(agent_id, es);
    law_newest_first_ordered(all);
    let nf = newest_first(all);
    let r = nf.take(if 5 < all.len() { 5 } else { all.len() as int });
    assert(nf.len() == all.len()) by {
        assert(nf.to_multiset().len() == all.to_multiset().len());
    }
    assert forall|k: int| 0 <= k < r.len() implies plain_session(#[trigger] r[k]) by {
        assert(r[k] == nf[k]);
        assert(nf.contains(nf[k]));
        assert(nf.to_multiset().count(nf[k]) > 0);
        assert(all.to_multiset().count(nf[k]) > 0);
        assert(all.contains(nf[k]));
        let j = choose|j: int| 0 <= j < all.len() && all[j] == nf[k];
        assert(plain_session(all[j]));
    }
}

proof fn lemma_index_minis_has(agent_id: Seq<char>, es: Seq<(Seq<char>, JsonV)>, j: int)
    requires
        0 <= j < es.len(),
        !crate::text::contains(es[j].0, ":cron:"@),
        str_at(es[j].1, "sessionFile"@) matches Some(f) && f.len() > 0,
    ensures
        index_minis(agent_id, es).contains(index_mini(agent_id, es[j].0, es[j].1)),
        index_minis(agent_id, es).len() <= es.len(),
    decreases es.len(),
{
    let prev = index_minis(agent_id, es.drop_last());
    if j < es.len() - 1 {
        assert(es.drop_last()[j] == es[j]);
        lemma_index_minis_has(agent_id, es.drop_last(), j);
        let x = index_mini(agent_id, es[j].0, es[j].1);
        let k = choose|k: int| 0 <= k < prev.len() && prev[k] == x;
        if listed(es.last().0, es.last().1) {
            assert(prev.push(index_mini(agent_id, es.last().0, es.last().1))[k] == x);
        }
    } else {
        assert(es.last() == es[j]);
        assert(listed(es[j].0, es[j].1));
        lemma_index_minis_len(agent_id, es.drop_last());
        let m = index_mini(agent_id, es[j].0, es[j].1);
        assert(prev.push(m)[prev.len() as int] == m);
    }
}

proof fn lemma_index_minis_len(agent_id: Seq<char>, es: Seq<(Seq<char>, JsonV)>)
    ensures
        index_minis(agent_id, es).len() <= es.len(),
    decreases es.len(),
{
    if es.len() > 0 {
        lemma_index_minis_len(agent_id, es.drop_last());
    }
}

/// An index of at most five sessions lists every session that is no cron
/// session and has a session file: such an entry appears in the listing
/// under its key, with its session file.
pub proof fn law_small_index_lists_all(agent_id: Seq<char>, es: Seq<(Seq<char>, JsonV)>, j: int)
    requires
        es.len() <= 5,
        0 <= j < es.len(),
        !crate::text::contains(es[j].0, ":cron:"@),
        str_at(es[j].1, "sessionFile"@) matches Some(f) && f.len() > 0,
    ensures
        exists|k: int|
            0 <= k < newest_five(index_minis(agent_id, es)).len() && #[trigger] newest_five(
                index_minis(agent_id, es),
            )[k].key == es[j].0 && newest_five(index_minis(agent_id, es))[k].session_file == str_at(
                es[j].1,
                "sessionFile"@,
            ),
{
    broadcast use vstd::seq_lib::group_to_multiset_ensures;

    let all = index_minis(agent_id, es);
    lemma_index_minis_has(agent_id, es, j);
    law_newest_first_ordered(all);
    let nf = newest_first(all);
    assert(nf.len() == all.len()) by {
        assert(nf.to_multiset().len() == all.to_multiset().len());
    }
    assert(newest_five(all) =~= nf);
    let x = index_mini(agent_id, es[j].0, es[j].1);
    assert(all.to_multiset().count(x) > 0);
    assert(nf.to_multiset().count(x) > 0);
    assert(nf.contains(x));
    let k = choose|k: int| 0 <= k < nf.len() && nf[k] == x;
    assert(newest_five(all)[k] == x);
    assert(newest_five(all)[k].key == es[j].0);
    assert(newest_five(all)[k].session_file == str_at(es[j].1, "sessionFile"@));
}

/// The five most recently updated sessions of a session index (see
/// `listed`, `index_mini`, `newest_first`).
pub fn sessions_from_index(agent_id: &str, index: &Json) -> (r: Vec<MiniSessionInfo>)
    ensures
        minis_view(r@) == ({
            let all = index_minis(agent_id@, crate::metrics::index_entries(index@));
            newest_first(all).take(if 5 < all.len() { 5 } else { all.len() as int })
        }),
        forall|k: int| 0 <= k < r@.len() ==> plain_session(#[trigger] minis_view(r@)[k]),
{
    proof {
        reveal_strlit("");
        assert(""@ =~= Seq::<char>::empty());
        law_index_listing_plain(agent_id@, crate::metrics::index_entries(index@));
    }
    let empty: Vec<(String, Json)> = Vec::new();
    let es: &Vec<(String, Json)> = match index {
        Json::Object(es) => es,
        _ => &empty,
    };
    proof {
        lemma_jv_entries_len(es@);
        assert(jv_entries(empty@) =~= Seq::<(Seq<char>, JsonV)>::empty());
    }
    let ghost ev = jv_entries(es@);
    assert(ev == crate::metrics::index_entries(index@));
    let cron = chars_of(":cron:");
    let mut list: Vec<MiniSessionInfo> = Vec::new();
    let mut i: usize = 0;
    assert(ev.take(0) =~= Seq::<(Seq<char>, JsonV)>::empty());
    assert(minis_view(list@) =~= Seq::<MiniV>::empty());
    while i < es.len()
        invariant
            i <= es.len(),
            ev == jv_entries(es@),
            ev.len() == es.len(),
            cron@ == ":cron:"@,
            forall|k: int| 0 <= k < es.len() ==> #[trigger] ev[k] == (es@[k].0@, jv(es@[k].1)),
            minis_view(list@) == index_minis(agent_id@, ev.take(i as int)),
        decreases es.len() - i,
    {
        proof {
            reveal_strlit("");
            assert(""@ =~= Seq::<char>::empty());
        }
        assert(ev.take(i + 1).drop_last() =~= ev.take(i as int));
        assert(ev.take(i + 1).last() == ev[i as int]);
        let key = &es[i].0;
        let val = &es[i].1;
        let file: &str = match str_at_exec(val, "sessionFile") {
            Some(f) => f,
            None => "",
        };
        if !crate::text::contains_exec(&chars_of(key.as_str()), &cron) && chars_of(file).len() > 0 {
            let null = Json::Null;
            let upd: &Json = match get_exec(val, "updatedAt") {
                Some(x) => x,
                None => &null,
            };
            let m = MiniSessionInfo {
                key: key.clone(),
                agent_id: agent_id.to_string(),
                session_id: match str_at_exec(val, "sessionId") {
                    Some(sid) => sid.to_string(),
                    None => key.clone(),
                },
                label: key.clone(),
                channel: match str_at_exec(val, "lastChannel") {
                    Some(c) => Some(c.to_string()),
                    None => None,
                },
                updated_at: match as_u64_exec(upd) {
                    Some(u) => u,
                    None => 0,
                },
                active: false,
                last_user_msg: None,
                last_assistant_msg: None,
                session_file: Some(file.to_string()),
            };
            let ghost before = list@;
            list.push(m);
            assert(mini_view(m) == index_mini(agent_id@, ev[i as int].0, ev[i as int].1));
            assert(minis_view(list@) =~= minis_view(before).push(mini_view(m)));
        }
        i = i + 1;
    }
    assert(ev.take(es.len() as int) =~= ev);
    let out = newest_sessions(list, 5);
    proof {
        let all = index_minis(agent_id@, crate::metrics::index_entries(index@));
        let top = newest_five(all);
        assert(minis_view(out@) == top);
        assert forall|k: int| 0 <= k < out@.len() implies plain_session(#[trigger] minis_view(out@)[k]) by {
            assert(minis_view(out@)[k] == top[k]);
            assert(!crate::text::contains(top[k].key, ":cron:"@));
        }
    }
    out
}


/// `key.split(':').nth(1)`: the text between the first and second colon.
pub open spec fn second_field(key: Seq<char>) -> Option<Seq<char>> {
    match crate::text::find(key, ":"@) {
        None => None,
        Some(a) => {
            let rest = key.skip(a + 1);
            match crate::text::find(rest, ":"@) {
                Some(b) => Some(rest.take(b)),
                None => Some(rest),
            }
        },
    }
}

pub(crate) fn second_field_exec(key: &Vec<char>) -> (r: Option<Vec<char>>)
    ensures
        match r {
            Some(v) => second_field(key@) == Some(v@),
            None => second_field(key@) is None,
        },
{
    let colon = chars_of(":");
    match crate::text::find_exec(key, &colon) {
        None => None,
        Some(a) => {
            proof {
                reveal_strlit(":");
                crate::text::lemma_find_from_bounds(key@, colon@, 0);
            }
            let rest = crate::text::skip_past(key, a, 1);
            match crate::text::find_exec(&rest, &colon) {
                Some(b) => {
                    proof {
                        crate::text::lemma_find_from_bounds(rest@, colon@, 0);
                    }
                    Some(take_exec(&rest, b))
                },
                None => Some(rest),
            }
        },
    }
}

/// The key of a gateway session (`key`, else `sessionId`).
pub open spec fn gateway_key(s: JsonV) -> Option<Seq<char>> {
    match str_at(s, "key"@) {
        Some(k) => Some(k),
        None => str_at(s, "sessionId"@),
    }
}

/// A gateway session as listed: its agent is `agentId`, else the second
/// field of its `key`, else `agent_id`; active as of `now_ms`.
pub open spec fn gateway_mini(agent_id: Seq<char>, s: JsonV, key: Seq<char>, now_ms: u64) -> MiniV {
    MiniV {
        key,
        agent_id: match str_at(s, "agentId"@) {
            Some(a) => a,
            None => match str_at(s, "key"@) {
                Some(k) => match second_field(k) {
                    Some(f) => f,
                    None => agent_id,
                },
                None => agent_id,
            },
        },
        session_id: str_or(s, "sessionId"@, key),
        label: key,
        channel: str_at(s, "channel"@),
        updated_at: crate::metrics::updated_or_zero(s),
        active: crate::gateway::session_active_at(s, now_ms),
        last_user_msg: str_at(s, "lastUserMsg"@),
        last_assistant_msg: str_at(s, "lastAssistantMsg"@),
        session_file: None,
    }
}

pub open spec fn gateway_minis(agent_id: Seq<char>, ss: Seq<JsonV>, now_ms: u64) -> Seq<MiniV>
    decreases ss.len(),
{
    if ss.len() == 0 {
        Seq::empty()
    } else {
        let prev = gateway_minis(agent_id, ss.drop_last(), now_ms);
        let s = ss.last();
        match gateway_key(s) {
            Some(k) => if crate::text::contains(k, ":cron:"@) {
                prev
            } else {
                prev.push(gateway_mini(agent_id, s, k, now_ms))
            },
            None => prev,
        }
    }
}

/// The twenty most recently updated gateway sessions, cron sessions left
/// out, as of `now_ms`.
pub fn sessions_from_gateway(agent_id: &str, sessions: &Vec<Json>, now_ms: u64) -> (r: Vec<
    MiniSessionInfo,
>)
    ensures
        minis_view(r@) == ({
            let all = gateway_minis(agent_id@, jv_list(sessions@), now_ms);
            newest_first(all).take(if 20 < all.len() { 20 } else { all.len() as int })
        }),
{
    proof {
        lemma_jv_list_len(sessions@);
    }
    let ghost a = jv_list(sessions@);
    let cron = chars_of(":cron:");
    let mut list: Vec<MiniSessionInfo> = Vec::new();
    let mut i: usize = 0;
    assert(a.take(0) =~= Seq::<JsonV>::empty());
    assert(minis_view(list@) =~= Seq::<MiniV>::empty());
    while i < sessions.len()
        invariant
            i <= sessions.len(),
            a == jv_list(sessions@),
            a.len() == sessions.len(),
            cron@ == ":cron:"@,
            forall|k: int| 0 <= k < sessions.len() ==> #[trigger] a[k] == jv(sessions@[k]),
            minis_view(list@) == gateway_minis(agent_id@, a.take(i as int), now_ms),
        decreases sessions.len() - i,
    {
        assert(a.take(i + 1).drop_last() =~= a.take(i as int));
        assert(a.take(i + 1).last() == a[i as int]);
        let s = &sessions[i];
        let key_opt: Option<&str> = match str_at_exec(s, "key") {
            Some(k) => Some(k),
            None => str_at_exec(s, "sessionId"),
        };
        match key_opt {
            Some(key) => {
                if !crate::text::contains_exec(&chars_of(key), &cron) {
                    let aid: String = match str_at_exec(s, "agentId") {
                        Some(x) => x.to_string(),
                        None => match str_at_exec(s, "key") {
                            Some(k) => match second_field_exec(&chars_of(k)) {
                                Some(f) => string_of(f.as_slice()),
                                None => agent_id.to_string(),
                            },
                            None => agent_id.to_string(),
                        },
                    };
                    let null = Json::Null;
                    let upd: &Json = match get_exec(s, "updatedAt") {
                        Some(x) => x,
                        None => &null,
                    };
                    let m = MiniSessionInfo {
                        key: key.to_string(),
                        agent_id: aid,
                        session_id: match str_at_exec(s, "sessionId") {
                            Some(sid) => sid.to_string(),
                            None => key.to_string(),
                        },
                        label: key.to_string(),
                        channel: match str_at_exec(s, "channel") {
                            Some(c) => Some(c.to_string()),
                            None => None,
                        },
                        updated_at: match as_u64_exec(upd) {
                            Some(u) => u,
                            None => 0,
                        },
                        active: crate::gateway::session_active_at_exec(s, now_ms),
                        last_user_msg: match str_at_exec(s, "lastUserMsg") {
                            Some(c) => Some(c.to_string()),
                            None => None,
                        },
                        last_assistant_msg: match str_at_exec(s, "lastAssistantMsg") {
                            Some(c) => Some(c.to_string()),
                            None => None,
                        },
                        session_file: None,
                    };
                    let ghost before = list@;
                    list.push(m);
                    assert(mini_view(m) == gateway_mini(agent_id@, a[i as int], key@, now_ms));
                    assert(minis_view(list@) =~= minis_view(before).push(mini_view(m)));
                }
            },
            None => {},
        }
        i = i + 1;
    }
    assert(a.take(sessions.len() as int) =~= a);
    newest_sessions(list, 20)
}

// ---------------------------------------------------------------------
// Local session files
// ---------------------------------------------------------------------

/// The transcript file of a local session: its `sessionFile`, else
/// `<home>/.openclaw/agents/<dir>/sessions/<id>.jsonl` for its session id
/// (`sessionId`, else the key), else none (empty).
pub open spec fn local_session_file(
    home: Seq<char>,
    agent_id: Seq<char>,
    key: Seq<char>,
    val: JsonV,
) -> Seq<char> {
    let raw = str_or(val, "sessionFile"@, Seq::empty());
    let sid = str_or(val, "sessionId"@, key);
    if raw.len() > 0 {
        raw
    } else if sid.len() > 0 {
        let dir = crate::gateway::join(
            crate::gateway::join(
                crate::gateway::join(crate::gateway::join(home, ".openclaw"@), "agents"@),
                crate::gateway::agent_dir(agent_id),
            ),
            "sessions"@,
        );
        crate::gateway::join(dir, sid + ".jsonl"@)
    } else {
        Seq::empty()
    }
}

/// The transcript file of a local session (see `local_session_file`).
pub fn session_file_of(home: &str, agent_id: &str, key: &str, val: &Json) -> (r: String)
    ensures
        r@ == local_session_file(home@, agent_id@, key@, val@),
{
    proof {
        reveal_strlit("");
        assert(""@ =~= Seq::<char>::empty());
    }
    let raw: &str = match str_at_exec(val, "sessionFile") {
        Some(f) => f,
        None => "",
    };
    let sid: &str = match str_at_exec(val, "sessionId") {
        Some(x) => x,
        None => key,
    };
    if chars_of(raw).len() > 0 {
        raw.to_string()
    } else if chars_of(sid).len() > 0 {
        session_path(home, agent_id, sid)
    } else {
        String::new()
    }
}

/// `<home>/.openclaw/agents/<dir>/sessions/<sid>.jsonl`.
fn session_path(home: &str, agent_id: &str, sid: &str) -> (r: String)
    ensures
        r@ == crate::gateway::join(
            crate::gateway::join(
                crate::gateway::join(
                    crate::gateway::join(crate::gateway::join(home@, ".openclaw"@), "agents"@),
                    crate::gateway::agent_dir(agent_id@),
                ),
                "sessions"@,
            ),
            sid@ + ".jsonl"@,
        ),
{
    let a = crate::gateway::join_exec(&chars_of(home), &chars_of(".openclaw"));
    let b = crate::gateway::join_exec(&a, &chars_of("agents"));
    let c = crate::gateway::join_exec(&b, &crate::gateway::agent_dir_exec(agent_id));
    let d = crate::gateway::join_exec(&c, &chars_of("sessions"));
    let f = cat(&chars_of(sid), &chars_of(".jsonl"));
    let e = crate::gateway::join_exec(&d, &f);
    string_of(e.as_slice())
}


/// A file another process holds open: an open path starts with it, or it
/// starts with an open path.
pub open spec fn held_open(open: Seq<Seq<char>>, file: Seq<char>) -> bool {
    exists|i: int|
        0 <= i < open.len() && (crate::text::starts_with(open[i], file) || crate::text::starts_with(
            file,
            open[i],
        ))
}

pub open spec fn strings_view(v: Seq<String>) -> Seq<Seq<char>> {
    v.map_values(|s: String| s@)
}

/// Whether `file` is held open (see `held_open`).
pub fn path_is_open(open: &Vec<String>, file: &str) -> (r: bool)
    ensures
        r == held_open(strings_view(open@), file@),
{
    let f = chars_of(file);
    let mut i: usize = 0;
    while i < open.len()
        invariant
            i <= open.len(),
            f@ == file@,
            forall|k: int|
                0 <= k < i ==> !(crate::text::starts_with(strings_view(open@)[k], file@)
                    || crate::text::starts_with(file@, strings_view(open@)[k])),
        decreases open.len() - i,
    {
        let p = chars_of(open[i].as_str());
        assert(strings_view(open@)[i as int] == open@[i as int]@);
        if crate::text::starts_with_exec(&p, &f) || crate::text::starts_with_exec(&f, &p) {
            return true;
        }
        i = i + 1;
    }
    false
}

/// The part of a transcript path that names agent `agent_id`'s folder:
/// `/agents/<dir>/`.
pub open spec fn agent_folder_marker(agent_id: Seq<char>) -> Seq<char> {
    "/agents/"@ + crate::gateway::agent_dir(agent_id) + "/"@
}

/// An agent is at work when one of the open transcript files lies in its
/// folder.
pub open spec fn agent_transcript_open(open: Seq<Seq<char>>, agent_id: Seq<char>) -> bool {
    exists|k: int| 0 <= k < open.len() && crate::text::contains(#[trigger] open[k], agent_folder_marker(agent_id))
}

/// Whether one of the open transcript files `open` lies in agent
/// `agent_id`'s folder (see `agent_transcript_open`).
pub fn agent_has_open_transcript(open: &Vec<String>, agent_id: &str) -> (r: bool)
    ensures
        r == agent_transcript_open(strings_view(open@), agent_id@),
{
    let m = cat(&cat(&chars_of("/agents/"), &crate::gateway::agent_dir_exec(agent_id)), &chars_of("/"));
    let mut i: usize = 0;
    while i < open.len()
        invariant
            i <= open.len(),
            m@ == agent_folder_marker(agent_id@),
            forall|k: int| 0 <= k < i ==> !crate::text::contains(#[trigger] strings_view(open@)[k], m@),
        decreases open.len() - i,
    {
        let p = chars_of(open[i].as_str());
        assert(strings_view(open@)[i as int] == open@[i as int]@);
        if crate::text::contains_exec(&p, &m) {
            return true;
        }
        i = i + 1;
    }
    false
}

/// A local session as listed, or none for a session without messages or
/// a cron session.
pub open spec fn local_mini(
    agent_id: Seq<char>,
    key: Seq<char>,
    val: JsonV,
    file: Seq<char>,
    active: bool,
    last_user: Option<Seq<char>>,
    last_assistant: Option<Seq<char>>,
) -> Option<MiniV> {
    if (last_user is None && last_assistant is None) || crate::text::contains(key, ":cron:"@) {
        None
    } else {
        Some(
            MiniV {
                key,
                agent_id,
                session_id: str_or(val, "sessionId"@, key),
                label: key,
                channel: str_at(val, "lastChannel"@),
                updated_at: crate::metrics::updated_or_zero(val),
                active,
                last_user_msg: last_user,
                last_assistant_msg: last_assistant,
                session_file: Some(file),
            },
        )
    }
}

/// A local session as listed (see `local_mini`), given its transcript
/// file, whether it is active, and its last messages.
pub fn local_session_entry(
    agent_id: &str,
    key: &str,
    val: &Json,
    file: String,
    active: bool,
    last_user: Option<String>,
    last_assistant: Option<String>,
) -> (r: Option<MiniSessionInfo>)
    ensures
        match r {
            Some(m) => local_mini(
                agent_id@,
                key@,
                val@,
                file@,
                active,
                opt_view(last_user),
                opt_view(last_assistant),
            ) == Some(mini_view(m)),
            None => local_mini(
                agent_id@,
                key@,
                val@,
                file@,
                active,
                opt_view(last_user),
                opt_view(last_assistant),
            ) is None,
        },
{
    if (last_user.is_none() && last_assistant.is_none()) || crate::text::contains_exec(
        &chars_of(key),
        &chars_of(":cron:"),
    ) {
        return None;
    }
    let null = Json::Null;
    let upd: &Json = match get_exec(val, "updatedAt") {
        Some(x) => x,
        None => &null,
    };
    Some(
        MiniSessionInfo {
            key: key.to_string(),
            agent_id: agent_id.to_string(),
            session_id: match str_at_exec(val, "sessionId") {
                Some(sid) => sid.to_string(),
                None => key.to_string(),
            },
            label: key.to_string(),
            channel: match str_at_exec(val, "lastChannel") {
                Some(c) => Some(c.to_string()),
                None => None,
            },
            updated_at: match as_u64_exec(upd) {
                Some(u) => u,
                None => 0,
            },
            active,
            last_user_msg: last_user,
            last_assistant_msg: last_assistant,
            session_file: Some(file),
        },
    )
}

/// Start of the run of non-whitespace characters that ends at `j`.
pub open spec fn word_start(s: Seq<char>, j: int) -> int
    decreases j,
{
    if 0 < j <= s.len() && !crate::text::is_ws(s[j - 1]) {
        word_start(s, j - 1)
    } else {
        j
    }
}

/// The last whitespace-separated word of a line, if any.
pub open spec fn last_word(l: Seq<char>) -> Option<Seq<char>> {
    let e = crate::text::back_ws(l, 0, l.len() as int);
    if e > 0 {
        Some(l.subrange(word_start(l, e), e))
    } else {
        None
    }
}

/// The paths of open `.jsonl` files in `lsof` output: the last word of
/// each line that mentions `.jsonl`.
pub open spec fn open_jsonl(ls: Seq<Seq<char>>) -> Seq<Seq<char>>
    decreases ls.len(),
{
    if ls.len() == 0 {
        Seq::empty()
    } else {
        let prev = open_jsonl(ls.drop_last());
        let l = ls.last();
        if crate::text::contains(l, ".jsonl"@) {
            match last_word(l) {
                Some(w) => prev.push(w),
                None => prev,
            }
        } else {
            prev
        }
    }
}

proof fn lemma_back_ws(s: Seq<char>, lo: int, j: int)
    requires
        0 <= lo <= j <= s.len(),
    ensures
        lo <= crate::text::back_ws(s, lo, j) <= j,
    decreases j - lo,
{
    if lo < j && crate::text::is_ws(s[j - 1]) {
        lemma_back_ws(s, lo, j - 1);
    }
}

/// The open transcript files listed by `lsof` (see `open_jsonl`).
pub fn open_jsonl_paths(lsof_output: &str) -> (r: Vec<String>)
    ensures
        strings_view(r@) == open_jsonl(crate::text::lines(lsof_output@)),
{
    let cs = chars_of(lsof_output);
    let ls = crate::text::lines_exec(&cs);
    let ghost gl = crate::text::views(ls@);
    let marker = chars_of(".jsonl");
    let mut out: Vec<String> = Vec::new();
    let mut i: usize = 0;
    assert(gl.take(0) =~= Seq::<Seq<char>>::empty());
    assert(strings_view(out@) =~= Seq::<Seq<char>>::empty());
    while i < ls.len()
        invariant
            i <= ls.len(),
            gl == crate::text::views(ls@),
            gl == crate::text::lines(lsof_output@),
            gl.len() == ls.len(),
            marker@ == ".jsonl"@,
            strings_view(out@) == open_jsonl(gl.take(i as int)),
        decreases ls.len() - i,
    {
        assert(gl.take(i + 1).drop_last() =~= gl.take(i as int));
        assert(gl.take(i + 1).last() == gl[i as int]);
        let l = &ls[i];
        assert(gl[i as int] == l@);
        if crate::text::contains_exec(l, &marker) {
            let e = crate::text::back_ws_exec(l, 0, l.len());
            if e > 0 {
                let mut b = e;
                while b > 0 && !crate::text::is_ws_exec(l[b - 1])
                    invariant
                        0 <= b <= e <= l.len(),
                        word_start(l@, e as int) == word_start(l@, b as int),
                    decreases b,
                {
                    b = b - 1;
                }
                let w = crate::text::slice_of(l, b, e);
                let ghost before = out@;
                out.push(string_of(w.as_slice()));
                assert(strings_view(out@) =~= strings_view(before).push(w@));
            }
        }
        i = i + 1;
    }
    assert(gl.take(ls.len() as int) =~= gl);
    out
}


// ---------------------------------------------------------------------
// Framed command output
// ---------------------------------------------------------------------

/// Reading state of framed output: the open block's name, its lines, and
/// the blocks closed so far.
pub struct FrameV {
    pub cur: Option<Seq<char>>,
    pub buf: Seq<Seq<char>>,
    pub out: Seq<(Seq<char>, Seq<Seq<char>>)>,
}

/// One line of framed output: a line starting with `start` opens a block
/// named by the rest of the line (closing the open one); the line `end`
/// closes the open block; other lines are collected.
pub open spec fn frame_step(st: FrameV, l: Seq<char>, start: Seq<char>, end: Seq<char>) -> FrameV {
    let closed = match st.cur {
        Some(p) => st.out.push((p, st.buf)),
        None => st.out,
    };
    if crate::text::starts_with(l, start) {
        FrameV { cur: Some(l.skip(start.len() as int)), buf: Seq::empty(), out: closed }
    } else if l == end {
        FrameV { cur: None, buf: Seq::empty(), out: closed }
    } else {
        FrameV { buf: st.buf.push(l), ..st }
    }
}

pub open spec fn frames_from(ls: Seq<Seq<char>>, start: Seq<char>, end: Seq<char>) -> FrameV
    decreases ls.len(),
{
    if ls.len() == 0 {
        FrameV { cur: None, buf: Seq::empty(), out: Seq::empty() }
    } else {
        frame_step(frames_from(ls.drop_last(), start, end), ls.last(), start, end)
    }
}

/// The closed blocks of a framed output (a block left open at the end is
/// dropped).
pub open spec fn frames(text: Seq<char>, start: Seq<char>, end: Seq<char>) -> Seq<
    (Seq<char>, Seq<Seq<char>>),
> {
    frames_from(crate::text::lines(text), start, end).out
}

pub open spec fn blocks_view(v: Seq<(String, Vec<String>)>) -> Seq<(Seq<char>, Seq<Seq<char>>)> {
    v.map_values(|b: (String, Vec<String>)| (b.0@, strings_view(b.1@)))
}

/// The closed blocks of a framed output (see `frame_step`).
pub fn frame_blocks(text: &str, start: &str, end: &str) -> (r: Vec<(String, Vec<String>)>)
    ensures
        blocks_view(r@) == frames(text@, start@, end@),
{
    let cs = chars_of(text);
    let ls = crate::text::lines_exec(&cs);
    let ghost gl = crate::text::views(ls@);
    let sc = chars_of(start);
    let ec = chars_of(end);
    let mut cur: Option<String> = None;
    let mut buf: Vec<String> = Vec::new();
    let mut out: Vec<(String, Vec<String>)> = Vec::new();
    let mut i: usize = 0;
    assert(gl.take(0) =~= Seq::<Seq<char>>::empty());
    assert(strings_view(buf@) =~= Seq::<Seq<char>>::empty());
    assert(blocks_view(out@) =~= Seq::<(Seq<char>, Seq<Seq<char>>)>::empty());
    while i < ls.len()
        invariant
            i <= ls.len(),
            gl == crate::text::views(ls@),
            gl == crate::text::lines(text@),
            gl.len() == ls.len(),
            sc@ == start@,
            ec@ == end@,
            (FrameV { cur: opt_view(cur), buf: strings_view(buf@), out: blocks_view(out@) })
                == frames_from(gl.take(i as int), start@, end@),
        decreases ls.len() - i,
    {
        assert(gl.take(i + 1).drop_last() =~= gl.take(i as int));
        assert(gl.take(i + 1).last() == gl[i as int]);
        let l = &ls[i];
        assert(gl[i as int] == l@);
        let opens = crate::text::starts_with_exec(l, &sc);
        let closes = !opens && crate::json::same_chars(l, &ec);
        if opens || closes {
            let ghost bo = out@;
            let taken = cur.take();
            match taken {
                Some(p) => {
                    let mut b: Vec<String> = Vec::new();
                    std::mem::swap(&mut b, &mut buf);
                    out.push((p, b));
                    assert(blocks_view(out@) =~= blocks_view(bo).push((p@, strings_view(b@))));
                },
                None => {
                    buf = Vec::new();
                },
            }
            assert(strings_view(buf@) =~= Seq::<Seq<char>>::empty());
            if opens {
                let rest = crate::text::skip_exec(l, sc.len());
                cur = Some(string_of(rest.as_slice()));
            }
        } else {
            let ghost b0 = buf@;
            buf.push(string_of(l.as_slice()));
            assert(strings_view(buf@) =~= strings_view(b0).push(l@));
        }
        i = i + 1;
    }
    assert(gl.take(ls.len() as int) =~= gl);
    out
}

/// Lines each followed by a newline.
pub open spec fn with_newlines(ls: Seq<Seq<char>>) -> Seq<char>
    decreases ls.len(),
{
    if ls.len() == 0 {
        Seq::empty()
    } else {
        with_newlines(ls.drop_last()) + ls.last() + "\n"@
    }
}

/// The text of a block: its lines, each followed by a newline.
pub fn block_text(lines: &Vec<String>) -> (r: String)
    ensures
        r@ == with_newlines(strings_view(lines@)),
{
    proof {
        reveal_strlit("\n");
    }
    let ghost sv = strings_view(lines@);
    let mut out: Vec<char> = Vec::new();
    let mut i: usize = 0;
    assert(sv.take(0) =~= Seq::<Seq<char>>::empty());
    while i < lines.len()
        invariant
            i <= lines.len(),
            sv == strings_view(lines@),
            sv.len() == lines.len(),
            out@ == with_newlines(sv.take(i as int)),
        decreases lines.len() - i,
    {
        proof {
            reveal_strlit("\n");
        }
        assert(sv.take(i + 1).drop_last() =~= sv.take(i as int));
        assert(sv.take(i + 1).last() == lines@[i as int]@);
        let ghost before = out@;
        out = cat(&out, &chars_of(lines[i].as_str()));
        out.push('\n');
        assert(out@ =~= before + lines@[i as int]@ + "\n"@);
        i = i + 1;
    }
    assert(sv.take(lines.len() as int) =~= sv);
    string_of(out.as_slice())
}


// ---------------------------------------------------------------------
// Active sessions
// ---------------------------------------------------------------------

/// The sessions of an agent's index to check for activity: those naming a
/// non-empty session file, as (agent, key, file).
pub open spec fn to_check(agent_id: Seq<char>, es: Seq<(Seq<char>, JsonV)>) -> Seq<
    (Seq<char>, Seq<char>, Seq<char>),
>
    decreases es.len(),
{
    if es.len() == 0 {
        Seq::empty()
    } else {
        let prev = to_check(agent_id, es.drop_last());
        match str_at(es.last().1, "sessionFile"@) {
            Some(f) => if f.len() > 0 {
                prev.push((agent_id, es.last().0, f))
            } else {
                prev
            },
            None => prev,
        }
    }
}

pub open spec fn triples_view(v: Seq<(String, String, String)>) -> Seq<
    (Seq<char>, Seq<char>, Seq<char>),
> {
    v.map_values(|t: (String, String, String)| (t.0@, t.1@, t.2@))
}

/// The sessions of an agent's index to check for activity (see `to_check`).
pub fn sessions_to_check(agent_id: &str, index: &Json) -> (r: Vec<(String, String, String)>)
    ensures
        triples_view(r@) == to_check(agent_id@, crate::metrics::index_entries(index@)),
{
    let empty: Vec<(String, Json)> = Vec::new();
    let es: &Vec<(String, Json)> = match index {
        Json::Object(es) => es,
        _ => &empty,
    };
    proof {
        lemma_jv_entries_len(es@);
        assert(jv_entries(empty@) =~= Seq::<(Seq<char>, JsonV)>::empty());
    }
    let ghost ev = jv_entries(es@);
    let mut out: Vec<(String, String, String)> = Vec::new();
    let mut i: usize = 0;
    assert(ev.take(0) =~= Seq::<(Seq<char>, JsonV)>::empty());
    assert(triples_view(out@) =~= Seq::<(Seq<char>, Seq<char>, Seq<char>)>::empty());
    while i < es.len()
        invariant
            i <= es.len(),
            ev == jv_entries(es@),
            ev.len() == es.len(),
            forall|k: int| 0 <= k < es.len() ==> #[trigger] ev[k] == (es@[k].0@, jv(es@[k].1)),
            triples_view(out@) == to_check(agent_id@, ev.take(i as int)),
        decreases es.len() - i,
    {
        assert(ev.take(i + 1).drop_last() =~= ev.take(i as int));
        assert(ev.take(i + 1).last() == ev[i as int]);
        match str_at_exec(&es[i].1, "sessionFile") {
            Some(f) => {
                if chars_of(f).len() > 0 {
                    let t = (agent_id.to_string(), es[i].0.clone(), f.to_string());
                    let ghost before = out@;
                    out.push(t);
                    assert(triples_view(out@) =~= triples_view(before).push((t.0@, t.1@, t.2@)));
                }
            },
            None => {},
        }
        i = i + 1;
    }
    assert(ev.take(es.len() as int) =~= ev);
    out
}

/// The shell command that prints the last five lines of each session
/// file between `SESSION:<agent>:<key>` and `END_SESSION`.
pub open spec fn check_command(ts: Seq<(Seq<char>, Seq<char>, Seq<char>)>) -> Seq<char>
    decreases ts.len(),
{
    if ts.len() == 0 {
        Seq::empty()
    } else {
        let t = ts.last();
        let part = "echo 'SESSION:"@ + t.0 + ":"@ + t.1 + "'; tail -5 '"@ + t.2
            + "' 2>/dev/null; echo 'END_SESSION'"@;
        if ts.len() == 1 {
            part
        } else {
            check_command(ts.drop_last()) + "\n"@ + part
        }
    }
}

/// The shell command that prints the tails of the session files (see
/// `check_command`).
pub fn tail_check_command(ts: &Vec<(String, String, String)>) -> (r: String)
    ensures
        r@ == check_command(triples_view(ts@)),
{
    let ghost tv = triples_view(ts@);
    let mut out: Vec<char> = Vec::new();
    let mut i: usize = 0;
    assert(tv.take(0) =~= Seq::<(Seq<char>, Seq<char>, Seq<char>)>::empty());
    while i < ts.len()
        invariant
            i <= ts.len(),
            tv == triples_view(ts@),
            tv.len() == ts.len(),
            out@ == check_command(tv.take(i as int)),
        decreases ts.len() - i,
    {
        assert(tv.take(i + 1).drop_last() =~= tv.take(i as int));
        assert(tv.take(i + 1).last() == tv[i as int]);
        let t = &ts[i];
        let mut part = chars_of("echo 'SESSION:");
        part = cat(&part, &chars_of(t.0.as_str()));
        part = cat(&part, &chars_of(":"));
        part = cat(&part, &chars_of(t.1.as_str()));
        part = cat(&part, &chars_of("'; tail -5 '"));
        part = cat(&part, &chars_of(t.2.as_str()));
        part = cat(&part, &chars_of("' 2>/dev/null; echo 'END_SESSION'"));
        if i > 0 {
            out = cat(&out, &chars_of("\n"));
        }
        out = cat(&out, &part);
        proof {
            assert(tv[i as int] == (t.0@, t.1@, t.2@));
        }
        i = i + 1;
    }
    assert(tv.take(ts.len() as int) =~= tv);
    string_of(out.as_slice())
}

/// `<agent>:<key>`, as active sessions are reported.
pub fn active_key(agent_id: &str, key: &str) -> (r: String)
    ensures
        r@ == agent_id@ + ":"@ + key@,
{
    let t = cat(&cat(&chars_of(agent_id), &chars_of(":")), &chars_of(key));
    string_of(t.as_slice())
}

/// The transcript file checked for a local session's activity: its
/// `sessionFile`, else `<home>/.openclaw/agents/<agent>/sessions/<id>.jsonl`
/// for its `sessionId`; none without either.
pub open spec fn activity_file(home: Seq<char>, agent_id: Seq<char>, val: JsonV) -> Option<
    Seq<char>,
> {
    let f = str_or(val, "sessionFile"@, Seq::empty());
    let sid = str_or(val, "sessionId"@, Seq::empty());
    if f.len() > 0 {
        Some(f)
    } else if sid.len() > 0 {
        Some(home + "/.openclaw/agents/"@ + agent_id + "/sessions/"@ + sid + ".jsonl"@)
    } else {
        None
    }
}

/// The transcript file checked for a local session's activity (see
/// `activity_file`).
pub fn activity_file_of(home: &str, agent_id: &str, val: &Json) -> (r: Option<String>)
    ensures
        opt_view(r) == activity_file(home@, agent_id@, val@),
{
    proof {
        reveal_strlit("");
        assert(""@ =~= Seq::<char>::empty());
    }
    let f: &str = match str_at_exec(val, "sessionFile") {
        Some(x) => x,
        None => "",
    };
    let sid: &str = match str_at_exec(val, "sessionId") {
        Some(x) => x,
        None => "",
    };
    if chars_of(f).len() > 0 {
        Some(f.to_string())
    } else if chars_of(sid).len() > 0 {
        let mut t = cat(&chars_of(home), &chars_of("/.openclaw/agents/"));
        t = cat(&t, &chars_of(agent_id));
        t = cat(&t, &chars_of("/sessions/"));
        t = cat(&t, &chars_of(sid));
        t = cat(&t, &chars_of(".jsonl"));
        Some(string_of(t.as_slice()))
    } else {
        None
    }
}

/// A gateway session to check for activity, as (agent, key): it needs a
/// `key`; its agent is `agentId`, else the key's second field, else `main`.
pub open spec fn gateway_ref(s: JsonV) -> Option<(Seq<char>, Seq<char>)> {
    match str_at(s, "key"@) {
        None => None,
        Some(k) => Some(
            (
                match str_at(s, "agentId"@) {
                    Some(a) => a,
                    None => match second_field(k) {
                        Some(f) => f,
                        None => "main"@,
                    },
                },
                k,
            ),
        ),
    }
}

/// A gateway session to check for activity (see `gateway_ref`).
pub fn gateway_session_ref(s: &Json) -> (r: Option<(String, String)>)
    ensures
        match r {
            Some(p) => gateway_ref(s@) == Some((p.0@, p.1@)),
            None => gateway_ref(s@) is None,
        },
{
    match str_at_exec(s, "key") {
        None => None,
        Some(k) => {
            let a: String = match str_at_exec(s, "agentId") {
                Some(x) => x.to_string(),
                None => match second_field_exec(&chars_of(k)) {
                    Some(f) => string_of(f.as_slice()),
                    None => "main".to_string(),
                },
            };
            Some((a, k.to_string()))
        },
    }
}

// ---------------------------------------------------------------------
// Session preview
// ---------------------------------------------------------------------

/// The preview of a session: whether its agent is active, judged from the
/// last `tail` lines, and its last user and assistant messages.
pub fn session_preview(lines: &Vec<Option<Json>>, tail: usize) -> (r: crate::types::SessionPreview)
    ensures
        r.active == crate::gateway::agent_active(
            crate::gateway::line_views(lines@).skip(
                if lines@.len() > tail {
                    lines@.len() - tail
                } else {
                    0
                },
            ),
        ),
        (opt_view(r.last_user_msg), opt_view(r.last_assistant_msg)) == last_pair(
            lines_view(lines@),
        ),
{
    let lo: usize = if lines.len() > tail {
        lines.len() - tail
    } else {
        0
    };
    let mut t: Vec<Option<Json>> = Vec::new();
    let mut i: usize = lo;
    while i < lines.len()
        invariant
            lo <= i <= lines.len(),
            t@.len() == i - lo,
            crate::gateway::line_views(t@) == crate::gateway::line_views(lines@).subrange(
                lo as int,
                i as int,
            ),
        decreases lines.len() - i,
    {
        let c = match &lines[i] {
            Some(v) => Some(crate::json::json_clone(v)),
            None => None,
        };
        let ghost before = t@;
        t.push(c);
        assert(crate::gateway::line_views(t@) =~= crate::gateway::line_views(lines@).subrange(
            lo as int,
            i + 1,
        ));
        i = i + 1;
    }
    assert(crate::gateway::line_views(lines@).subrange(lo as int, lines.len() as int)
        =~= crate::gateway::line_views(lines@).skip(lo as int));
    let active = crate::gateway::check_agent_active_from_lines(&t);
    let (u, a) = extract_last_messages(lines);
    crate::types::SessionPreview { active, last_user_msg: u, last_assistant_msg: a }
}


// ---------------------------------------------------------------------
// Activity of a gateway session
// ---------------------------------------------------------------------

/// The `statusText` of a gateway status reply (`result.details.statusText`,
/// each level defaulting to the one above it).
pub open spec fn status_text(reply: JsonV) -> Option<Seq<char>> {
    str_at(get_or_self(get_or_self(reply, "result"@), "details"@), "statusText"@)
}

/// A gateway session is active when its status reply shows an active
/// queue, or else when it is active as of `now_ms` (see
/// `session_active_at`); `reply` is the status reply, when the request
/// succeeded.
pub open spec fn remote_active(reply: Option<JsonV>, s: JsonV, now_ms: u64) -> bool {
    (match reply {
        Some(r) => match status_text(r) {
            Some(t) => crate::gateway::queue_active(t),
            None => false,
        },
        None => false,
    }) || crate::gateway::session_active_at(s, now_ms)
}

/// Whether a gateway session is active (see `remote_active`).
pub fn remote_session_active(reply: Option<&Json>, s: &Json, now_ms: u64) -> (r: bool)
    ensures
        r == remote_active(
            match reply {
                Some(x) => Some(x@),
                None => None,
            },
            s@,
            now_ms,
        ),
{
    let queued = match reply {
        Some(x) => {
            let det = get_or_self_exec(get_or_self_exec(x, "result"), "details");
            match str_at_exec(det, "statusText") {
                Some(t) => crate::gateway::is_queue_active(t),
                None => false,
            }
        },
        None => false,
    };
    queued || crate::gateway::session_active_at_exec(s, now_ms)
}

} // verus!
