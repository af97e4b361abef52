//! Registration of the pet's hook command in the hook configuration files
//! of the cc client, Codex and Cursor, and the clean-up of those entries.
//!
//! Each file is read and written outside the library; here a parsed file is
//! transformed into the file to write.
use vstd::prelude::*;
use crate::json::{
    Json, JsonV, JsonNumber, jv, jv_list, jv_entries, get, as_str, as_array, str_at, get_exec,
    as_array_exec, str_at_exec, json_clone, json_str, same_text, lemma_jv_list_push, entry_value,
    lemma_jv_entries_push, lemma_jv_list_len, lemma_jv_entries_len,
};
use crate::text::{contains, contains_exec, chars_of};

verus! {

broadcast use vstd::string::group_string_axioms;

// ---------------------------------------------------------------------
// Object entries
// ---------------------------------------------------------------------

/// First position at or after `i` of an entry named `key`.
pub open spec fn key_pos_from(es: Seq<(Seq<char>, JsonV)>, key: Seq<char>, i: int) -> Option<int>
    decreases es.len() - i,
{
    if i < 0 || i >= es.len() {
        None
    } else if es[i].0 == key {
        Some(i)
    } else {
        key_pos_from(es, key, i + 1)
    }
}

/// Position of the entry named `key`.
pub open spec fn key_pos(es: Seq<(Seq<char>, JsonV)>, key: Seq<char>) -> Option<int> {
    key_pos_from(es, key, 0)
}

/// The entries with `key` set to `v`: in place when present, else appended.
pub open spec fn put(es: Seq<(Seq<char>, JsonV)>, key: Seq<char>, v: JsonV) -> Seq<
    (Seq<char>, JsonV),
> {
    match key_pos(es, key) {
        Some(i) => es.update(i, (key, v)),
        None => es.push((key, v)),
    }
}

/// The value of the entry named `key`, or `dflt` when there is none.
pub open spec fn value_or(es: Seq<(Seq<char>, JsonV)>, key: Seq<char>, dflt: JsonV) -> JsonV {
    match key_pos(es, key) {
        Some(i) => es[i].1,
        None => dflt,
    }
}

pub proof fn lemma_key_pos_from(es: Seq<(Seq<char>, JsonV)>, key: Seq<char>, i: int)
    requires
        0 <= i,
    ensures
        key_pos_from(es, key, i) matches Some(k) ==> i <= k < es.len() && es[k].0 == key && (
        forall|m: int| i <= m < k ==> es[m].0 != key),
        key_pos_from(es, key, i) is None ==> (forall|m: int| i <= m < es.len() ==> es[m].0 != key),
    decreases es.len() - i,
{
    if i < es.len() && es[i].0 != key {
        lemma_key_pos_from(es, key, i + 1);
    }
}

/// Position of the entry named `key`.
pub fn key_position(entries: &Vec<(String, Json)>, key: &str) -> (r: Option<usize>)
    ensures
        r matches Some(i) ==> key_pos(jv_entries(entries@), key@) == Some(i as int) && i
            < entries.len(),
        r is None ==> key_pos(jv_entries(entries@), key@) is None,
{
    let ghost es = jv_entries(entries@);
    proof {
        lemma_jv_entries_len(entries@);
    }
    let mut i: usize = 0;
    while i < entries.len()
        invariant
            i <= entries.len(),
            es == jv_entries(entries@),
            es.len() == entries.len(),
            forall|k: int| 0 <= k < entries.len() ==> #[trigger] es[k] == (
                entries@[k].0@,
                jv(entries@[k].1),
            ),
            key_pos(es, key@) == key_pos_from(es, key@, i as int),
        decreases entries.len() - i,
    {
        if same_text(entries[i].0.as_str(), key) {
            return Some(i);
        }
        i = i + 1;
    }
    None
}

/// Sets the entry `key` to `v` (see `put`).
pub fn put_entry(entries: &mut Vec<(String, Json)>, key: &str, v: Json)
    ensures
        jv_entries(final(entries)@) == put(jv_entries(old(entries)@), key@, v@),
{
    proof {
        lemma_jv_entries_len(entries@);
    }
    match key_position(entries, key) {
        Some(i) => {
            let ghost before = entries@;
            let _ = entries.remove(i);
            entries.insert(i, (key.to_string(), v));
            proof {
                let after = entries@;
                lemma_jv_entries_len(after);
                assert(after.len() == before.len());
                assert forall|k: int| 0 <= k < after.len() implies #[trigger] jv_entries(after)[k]
                    == jv_entries(before).update(i as int, (key@, v@))[k] by {
                    if k != i {
                        assert(after[k] == before[k]);
                    }
                }
                assert(jv_entries(after) =~= jv_entries(before).update(i as int, (key@, v@)));
            }
        },
        None => {
            push_entry(entries, key, v);
        },
    }
}

/// Takes the value at position `i` out, leaving `null` in its place.
fn take_value(entries: &mut Vec<(String, Json)>, i: usize) -> (r: Json)
    requires
        i < old(entries).len(),
    ensures
        r@ == jv_entries(old(entries)@)[i as int].1,
        final(entries)@.len() == old(entries)@.len(),
        forall|k: int| 0 <= k < old(entries)@.len() && k != i ==> final(entries)@[k] == old(
            entries,
        )@[k],
        final(entries)@[i as int].0 == old(entries)@[i as int].0,
{
    proof {
        lemma_jv_entries_len(entries@);
    }
    let (k, v) = entries.remove(i);
    entries.insert(i, (k, Json::Null));
    v
}

// ---------------------------------------------------------------------
// Building entries
// ---------------------------------------------------------------------

/// An object with the given entries.
fn obj_of(entries: Vec<(String, Json)>) -> (r: Json)
    ensures
        r@ == JsonV::Object(jv_entries(entries@)),
{
    Json::Object(entries)
}

/// Appends an entry to an entry list.
fn push_entry(entries: &mut Vec<(String, Json)>, key: &str, v: Json)
    ensures
        jv_entries(final(entries)@) == jv_entries(old(entries)@).push((key@, v@)),
{
    let ghost before = entries@;
    let k = key.to_string();
    proof {
        lemma_jv_entries_push(before, k, v);
    }
    entries.push((k, v));
}

/// Appends a value to a list.
fn push_value(list: &mut Vec<Json>, v: Json)
    ensures
        jv_list(final(list)@) == jv_list(old(list)@).push(v@),
{
    let ghost before = list@;
    proof {
        lemma_jv_list_push(before, v);
    }
    list.push(v);
}

/// `{"type": "command", "command": cmd}`.
pub open spec fn command_hook(cmd: Seq<char>) -> JsonV {
    JsonV::Object(seq![("type"@, JsonV::Str("command"@)), ("command"@, JsonV::Str(cmd))])
}

/// `{"matcher": m, "hooks": [command_hook(cmd)]}`, without `matcher` when
/// there is none.
pub open spec fn hook_group(matcher: Option<Seq<char>>, cmd: Seq<char>) -> JsonV {
    match matcher {
        Some(m) => JsonV::Object(
            seq![("matcher"@, JsonV::Str(m)), ("hooks"@, JsonV::Array(seq![command_hook(cmd)]))],
        ),
        None => JsonV::Object(seq![("hooks"@, JsonV::Array(seq![command_hook(cmd)]))]),
    }
}

fn command_hook_exec(cmd: &str) -> (r: Json)
    ensures
        r@ == command_hook(cmd@),
{
    let mut es: Vec<(String, Json)> = Vec::new();
    assert(jv_entries(es@) =~= Seq::<(Seq<char>, JsonV)>::empty());
    push_entry(&mut es, "type", json_str("command"));
    push_entry(&mut es, "command", json_str(cmd));
    assert(jv_entries(es@) =~= seq![("type"@, JsonV::Str("command"@)), ("command"@, JsonV::Str(cmd@))]);
    obj_of(es)
}

fn hook_group_exec(matcher: Option<&str>, cmd: &str) -> (r: Json)
    ensures
        r@ == hook_group(
            match matcher {
                Some(m) => Some(m@),
                None => None,
            },
            cmd@,
        ),
{
    let mut hs: Vec<Json> = Vec::new();
    assert(jv_list(hs@) =~= Seq::<JsonV>::empty());
    push_value(&mut hs, command_hook_exec(cmd));
    assert(jv_list(hs@) =~= seq![command_hook(cmd@)]);
    let mut es: Vec<(String, Json)> = Vec::new();
    assert(jv_entries(es@) =~= Seq::<(Seq<char>, JsonV)>::empty());
    match matcher {
        Some(m) => {
            push_entry(&mut es, "matcher", json_str(m));
            push_entry(&mut es, "hooks", Json::Array(hs));
            assert(jv_entries(es@) =~= seq![
                ("matcher"@, JsonV::Str(m@)),
                ("hooks"@, JsonV::Array(seq![command_hook(cmd@)])),
            ]);
        },
        None => {
            push_entry(&mut es, "hooks", Json::Array(hs));
            assert(jv_entries(es@) =~= seq![("hooks"@, JsonV::Array(seq![command_hook(cmd@)]))]);
        },
    }
    obj_of(es)
}


// ---------------------------------------------------------------------
// Recognising the pet's own entries
// ---------------------------------------------------------------------

/// A hook command is the pet's: the command itself, or one naming the
/// pet's hook script (`marker`).
pub open spec fn is_ours(c: Seq<char>, cmd: Seq<char>, marker: Seq<char>) -> bool {
    c == cmd || contains(c, marker)
}

/// The `command` of an entry is the pet's.
pub open spec fn command_ours(v: JsonV, cmd: Seq<char>, marker: Seq<char>) -> bool {
    match str_at(v, "command"@) {
        Some(c) => is_ours(c, cmd, marker),
        None => false,
    }
}

/// Some entry of `hs` has the pet's command.
pub open spec fn any_command_ours(hs: Seq<JsonV>, cmd: Seq<char>, marker: Seq<char>) -> bool {
    exists|i: int| 0 <= i < hs.len() && #[trigger] command_ours(hs[i], cmd, marker)
}

/// An entry runs the pet's hook, itself or in its `hooks` list.
pub open spec fn has_our_hook(entry: JsonV, cmd: Seq<char>, marker: Seq<char>) -> bool {
    command_ours(entry, cmd, marker) || match get(entry, "hooks"@) {
        Some(h) => match as_array(h) {
            Some(hs) => any_command_ours(hs, cmd, marker),
            None => false,
        },
        None => false,
    }
}

/// The entries of a hook list that are not the pet's.
pub open spec fn kept(arr: Seq<JsonV>, cmd: Seq<char>, marker: Seq<char>) -> Seq<JsonV> {
    arr.filter(|e: JsonV| !has_our_hook(e, cmd, marker))
}

fn command_ours_exec(v: &Json, cmd: &Vec<char>, marker: &Vec<char>) -> (r: bool)
    ensures
        r == command_ours(v@, cmd@, marker@),
{
    match str_at_exec(v, "command") {
        Some(c) => {
            let cs = chars_of(c);
            crate::json::same_chars(&cs, cmd) || contains_exec(&cs, marker)
        },
        None => false,
    }
}

fn has_our_hook_exec(entry: &Json, cmd: &Vec<char>, marker: &Vec<char>) -> (r: bool)
    ensures
        r == has_our_hook(entry@, cmd@, marker@),
{
    if command_ours_exec(entry, cmd, marker) {
        return true;
    }
    match get_exec(entry, "hooks") {
        Some(h) => match as_array_exec(h) {
            Some(hs) => {
                proof {
                    lemma_jv_list_len(hs@);
                }
                let mut i: usize = 0;
                while i < hs.len()
                    invariant
                        i <= hs.len(),
                        get(entry@, "hooks"@) == Some(h@),
                        as_array(h@) == Some(jv_list(hs@)),
                        jv_list(hs@).len() == hs.len(),
                        forall|k: int| 0 <= k < hs.len() ==> #[trigger] jv_list(hs@)[k] == jv(
                            hs@[k],
                        ),
                        forall|k: int| 0 <= k < i ==> !command_ours(jv_list(hs@)[k], cmd@, marker@),
                    decreases hs.len() - i,
                {
                    if command_ours_exec(&hs[i], cmd, marker) {
                        assert(command_ours(jv_list(hs@)[i as int], cmd@, marker@));
                        assert(any_command_ours(jv_list(hs@), cmd@, marker@));
                        return true;
                    }
                    i = i + 1;
                }
                false
            },
            None => false,
        },
        None => false,
    }
}

/// The entries of `arr` that are not the pet's.
fn kept_exec(arr: &Vec<Json>, cmd: &Vec<char>, marker: &Vec<char>) -> (r: Vec<Json>)
    ensures
        jv_list(r@) == kept(jv_list(arr@), cmd@, marker@),
{
    let ghost pred = |e: JsonV| !has_our_hook(e, cmd@, marker@);
    proof {
        lemma_jv_list_len(arr@);
    }
    let ghost a = jv_list(arr@);
    let mut out: Vec<Json> = Vec::new();
    let mut i: usize = 0;
    assert(a.take(0).filter(pred) =~= Seq::<JsonV>::empty()) by {
        reveal(Seq::filter);
    }
    assert(jv_list(out@) =~= Seq::<JsonV>::empty());
    while i < arr.len()
        invariant
            i <= arr.len(),
            a == jv_list(arr@),
            a.len() == arr.len(),
            forall|k: int| 0 <= k < arr.len() ==> #[trigger] a[k] == jv(arr@[k]),
            pred == (|e: JsonV| !has_our_hook(e, cmd@, marker@)),
            jv_list(out@) == a.take(i as int).filter(pred),
        decreases arr.len() - i,
    {
        assert(a.take(i + 1).drop_last() =~= a.take(i as int));
        assert(a.take(i + 1).last() == a[i as int]);
        assert(a.take(i + 1).filter(pred) == (if pred(a[i as int]) {
            a.take(i as int).filter(pred).push(a[i as int])
        } else {
            a.take(i as int).filter(pred)
        })) by {
            reveal(Seq::filter);
        }
        if !has_our_hook_exec(&arr[i], cmd, marker) {
            push_value(&mut out, json_clone(&arr[i]));
        }
        i = i + 1;
    }
    assert(a.take(arr.len() as int) =~= a);
    out
}

// ---------------------------------------------------------------------
// Registering a hook command for a list of events
// ---------------------------------------------------------------------

/// One event's hook list after registration: the pet's old entries go,
/// `add` is appended; a missing list is created.  `None` when the event's
/// value is not a list.
pub open spec fn register_event(
    es: Seq<(Seq<char>, JsonV)>,
    ev: Seq<char>,
    add: Seq<JsonV>,
    cmd: Seq<char>,
    marker: Seq<char>,
) -> Option<Seq<(Seq<char>, JsonV)>> {
    match key_pos(es, ev) {
        None => Some(es.push((ev, JsonV::Array(add)))),
        Some(i) => match es[i].1 {
            JsonV::Array(a) => Some(es.update(i, (ev, JsonV::Array(kept(a, cmd, marker) + add)))),
            _ => None,
        },
    }
}

/// The events registered one after the other; `None` as soon as one
/// event's value is not a list.
pub open spec fn register_events(
    es: Seq<(Seq<char>, JsonV)>,
    evs: Seq<Seq<char>>,
    adds: Seq<Seq<JsonV>>,
    cmd: Seq<char>,
    marker: Seq<char>,
) -> Option<Seq<(Seq<char>, JsonV)>>
    decreases evs.len(),
{
    if evs.len() == 0 {
        Some(es)
    } else {
        match register_event(es, evs[0], adds[0], cmd, marker) {
            Some(es2) => register_events(es2, evs.drop_first(), adds.drop_first(), cmd, marker),
            None => None,
        }
    }
}

fn register_event_exec(
    entries: &mut Vec<(String, Json)>,
    ev: &str,
    add: &Vec<Json>,
    cmd: &Vec<char>,
    marker: &Vec<char>,
) -> (ok: bool)
    ensures
        ok == register_event(jv_entries(old(entries)@), ev@, jv_list(add@), cmd@, marker@) is Some,
        ok ==> register_event(jv_entries(old(entries)@), ev@, jv_list(add@), cmd@, marker@)
            == Some(jv_entries(final(entries)@)),
{
    proof {
        lemma_jv_entries_len(entries@);
    }
    match key_position(entries, ev) {
        None => {
            let mut list: Vec<Json> = Vec::new();
            let mut k: usize = 0;
            proof {
                lemma_jv_list_len(add@);
            }
            assert(jv_list(list@) =~= jv_list(add@).take(0));
            while k < add.len()
                invariant
                    k <= add.len(),
                    jv_list(add@).len() == add.len(),
                    forall|m: int| 0 <= m < add.len() ==> #[trigger] jv_list(add@)[m] == jv(
                        add@[m],
                    ),
                    jv_list(list@) == jv_list(add@).take(k as int),
                decreases add.len() - k,
            {
                push_value(&mut list, json_clone(&add[k]));
                assert(jv_list(add@).take(k + 1) =~= jv_list(add@).take(k as int).push(
                    jv_list(add@)[k as int],
                ));
                k = k + 1;
            }
            assert(jv_list(add@).take(add.len() as int) =~= jv_list(add@));
            push_entry(entries, ev, Json::Array(list));
            true
        },
        Some(i) => {
            let ghost before = jv_entries(entries@);
            let v = take_value(entries, i);
            match v {
                Json::Array(a) => {
                    let mut list = kept_exec(&a, cmd, marker);
                    let ghost kl = jv_list(list@);
                    let mut k: usize = 0;
                    proof {
                        lemma_jv_list_len(add@);
                    }
                    assert(kl + jv_list(add@).take(0) =~= kl);
                    while k < add.len()
                        invariant
                            k <= add.len(),
                            jv_list(add@).len() == add.len(),
                            forall|m: int| 0 <= m < add.len() ==> #[trigger] jv_list(add@)[m]
                                == jv(add@[m]),
                            jv_list(list@) == kl + jv_list(add@).take(k as int),
                        decreases add.len() - k,
                    {
                        push_value(&mut list, json_clone(&add[k]));
                        assert(kl + jv_list(add@).take(k + 1) =~= (kl + jv_list(add@).take(
                            k as int,
                        )).push(jv_list(add@)[k as int]));
                        k = k + 1;
                    }
                    assert(jv_list(add@).take(add.len() as int) =~= jv_list(add@));
                    let ghost mid = entries@;
                    let _ = entries.remove(i);
                    entries.insert(i, (ev.to_string(), Json::Array(list)));
                    proof {
                        let after = entries@;
                        lemma_jv_entries_len(after);
                        lemma_jv_entries_len(mid);
                        assert forall|m: int| 0 <= m < after.len() implies #[trigger] jv_entries(
                            after,
                        )[m] == before.update(
                            i as int,
                            (ev@, JsonV::Array(kept(jv_list(a@), cmd@, marker@) + jv_list(add@))),
                        )[m] by {
                            if m != i {
                                assert(after[m] == mid[m]);
                            }
                        }
                        assert(jv_entries(after) =~= before.update(
                            i as int,
                            (ev@, JsonV::Array(kept(jv_list(a@), cmd@, marker@) + jv_list(add@))),
                        ));
                    }
                    true
                },
                _ => false,
            }
        },
    }
}

fn register_events_exec(
    entries: &mut Vec<(String, Json)>,
    evs: &Vec<&str>,
    adds: &Vec<Vec<Json>>,
    cmd: &Vec<char>,
    marker: &Vec<char>,
) -> (ok: bool)
    requires
        evs.len() == adds.len(),
    ensures
        ok == register_events(
            jv_entries(old(entries)@),
            evs_view(evs@),
            adds_view(adds@),
            cmd@,
            marker@,
        ) is Some,
        ok ==> register_events(
            jv_entries(old(entries)@),
            evs_view(evs@),
            adds_view(adds@),
            cmd@,
            marker@,
        ) == Some(jv_entries(final(entries)@)),
{
    let ghost ev0 = evs_view(evs@);
    let ghost ad0 = adds_view(adds@);
    let ghost orig = jv_entries(entries@);
    let mut k: usize = 0;
    assert(ev0.skip(0) =~= ev0);
    assert(ad0.skip(0) =~= ad0);
    while k < evs.len()
        invariant
            k <= evs.len() == adds.len(),
            orig == jv_entries(old(entries)@),
            ev0 == evs_view(evs@),
            ad0 == adds_view(adds@),
            ev0.len() == evs.len(),
            ad0.len() == adds.len(),
            register_events(orig, ev0, ad0, cmd@, marker@) == register_events(
                jv_entries(entries@),
                ev0.skip(k as int),
                ad0.skip(k as int),
                cmd@,
                marker@,
            ),
        decreases evs.len() - k,
    {
        assert(ev0.skip(k as int)[0] == evs@[k as int]@);
        assert(ad0.skip(k as int)[0] == jv_list(adds@[k as int]@));
        assert(ev0.skip(k as int).drop_first() =~= ev0.skip(k + 1));
        assert(ad0.skip(k as int).drop_first() =~= ad0.skip(k + 1));
        let ghost cur = jv_entries(entries@);
        let ok = register_event_exec(entries, evs[k], &adds[k], cmd, marker);
        if !ok {
            assert(register_events(cur, ev0.skip(k as int), ad0.skip(k as int), cmd@, marker@)
                is None);
            return false;
        }
        k = k + 1;
    }
    true
}

pub open spec fn evs_view(evs: Seq<&str>) -> Seq<Seq<char>> {
    evs.map_values(|e: &str| e@)
}

pub open spec fn adds_view(adds: Seq<Vec<Json>>) -> Seq<Seq<JsonV>> {
    adds.map_values(|a: Vec<Json>| jv_list(a@))
}


// ---------------------------------------------------------------------
// The cc client and Codex
// ---------------------------------------------------------------------

/// The cc client events the pet listens to.
pub open spec fn claude_events() -> Seq<Seq<char>> {
    seq![
        "UserPromptSubmit"@,
        "PreToolUse"@,
        "PostToolUse"@,
        "PermissionRequest"@,
        "PreCompact"@,
        "Stop"@,
        "SubagentStop"@,
        "SessionStart"@,
        "SessionEnd"@,
    ]
}

/// The hook groups registered for a cc event: tool and
/// permission events match every tool (`*`), compaction both its `auto`
/// and `manual` kinds, the rest have no matcher.
pub open spec fn claude_groups(ev: Seq<char>, cmd: Seq<char>) -> Seq<JsonV> {
    if ev == "PreToolUse"@ || ev == "PostToolUse"@ || ev == "PermissionRequest"@ {
        seq![hook_group(Some("*"@), cmd)]
    } else if ev == "PreCompact"@ {
        seq![hook_group(Some("auto"@), cmd), hook_group(Some("manual"@), cmd)]
    } else {
        seq![hook_group(None, cmd)]
    }
}

/// Marker of the pet's cc hook script.
pub open spec fn claude_marker() -> Seq<char> {
    "ooclaw-hook"@
}

/// The cc client's `settings.json` with the pet's hook command registered:
/// in `hooks`, each listened event keeps its other entries and gets the
/// pet's groups.  Errors when the file, its `hooks`, or an event's value
/// has the wrong shape.
pub open spec fn claude_registered(settings: JsonV, cmd: Seq<char>) -> Result<JsonV, Seq<char>> {
    match settings {
        JsonV::Object(es) => match value_or(es, "hooks"@, JsonV::Object(Seq::empty())) {
            JsonV::Object(hs) => match register_events(
                hs,
                claude_events(),
                claude_events().map_values(|ev: Seq<char>| claude_groups(ev, cmd)),
                cmd,
                claude_marker(),
            ) {
                Some(h2) => Ok(JsonV::Object(put(es, "hooks"@, JsonV::Object(h2)))),
                None => Err("not array"@),
            },
            _ => Err("hooks not object"@),
        },
        _ => Err("settings not object"@),
    }
}

/// The Codex events the pet listens to.
pub open spec fn codex_events() -> Seq<Seq<char>> {
    seq![
        "SessionStart"@,
        "UserPromptSubmit"@,
        "PreToolUse"@,
        "PostToolUse"@,
        "PermissionRequest"@,
        "Stop"@,
        "StopFailure"@,
        "SubagentStop"@,
    ]
}

/// Marker of the pet's Codex hook script.
pub open spec fn codex_marker() -> Seq<char> {
    "ooclaw-codex-hook"@
}

/// Codex's `hooks.json` with the pet's hook command registered: each
/// listened event keeps its other entries and gets one group without
/// matcher.  A `null` file counts as empty.
pub open spec fn codex_registered(config: JsonV, cmd: Seq<char>) -> Result<JsonV, Seq<char>> {
    let es = match config {
        JsonV::Object(es) => es,
        _ => Seq::empty(),
    };
    match value_or(es, "hooks"@, JsonV::Object(Seq::empty())) {
        JsonV::Object(hs) => match register_events(
            hs,
            codex_events(),
            codex_events().map_values(|ev: Seq<char>| seq![hook_group(None, cmd)]),
            cmd,
            codex_marker(),
        ) {
            Some(h2) => Ok(JsonV::Object(put(es, "hooks"@, JsonV::Object(h2)))),
            None => Err("hook event is not an array"@),
        },
        _ => Err("hooks is not an object"@),
    }
}

fn claude_groups_exec(ev: &str, cmd: &str) -> (r: Vec<Json>)
    ensures
        jv_list(r@) == claude_groups(ev@, cmd@),
{
    let mut out: Vec<Json> = Vec::new();
    assert(jv_list(out@) =~= Seq::<JsonV>::empty());
    if same_text(ev, "PreToolUse") || same_text(ev, "PostToolUse") || same_text(
        ev,
        "PermissionRequest",
    ) {
        push_value(&mut out, hook_group_exec(Some("*"), cmd));
        assert(jv_list(out@) =~= seq![hook_group(Some("*"@), cmd@)]);
    } else if same_text(ev, "PreCompact") {
        push_value(&mut out, hook_group_exec(Some("auto"), cmd));
        push_value(&mut out, hook_group_exec(Some("manual"), cmd));
        assert(jv_list(out@) =~= seq![
            hook_group(Some("auto"@), cmd@),
            hook_group(Some("manual"@), cmd@),
        ]);
    } else {
        push_value(&mut out, hook_group_exec(None, cmd));
        assert(jv_list(out@) =~= seq![hook_group(None, cmd@)]);
    }
    out
}

fn claude_event_names() -> (r: Vec<&'static str>)
    ensures
        evs_view(r@) == claude_events(),
{
    let mut v: Vec<&'static str> = Vec::new();
    v.push("UserPromptSubmit");
    v.push("PreToolUse");
    v.push("PostToolUse");
    v.push("PermissionRequest");
    v.push("PreCompact");
    v.push("Stop");
    v.push("SubagentStop");
    v.push("SessionStart");
    v.push("SessionEnd");
    assert(evs_view(v@) =~= claude_events());
    v
}

fn codex_event_names() -> (r: Vec<&'static str>)
    ensures
        evs_view(r@) == codex_events(),
{
    let mut v: Vec<&'static str> = Vec::new();
    v.push("SessionStart");
    v.push("UserPromptSubmit");
    v.push("PreToolUse");
    v.push("PostToolUse");
    v.push("PermissionRequest");
    v.push("Stop");
    v.push("StopFailure");
    v.push("SubagentStop");
    assert(evs_view(v@) =~= codex_events());
    v
}

/// The hook groups for each event of `evs`, the cc client's or Codex's.
fn groups_for(evs: &Vec<&str>, cmd: &str, claude: bool) -> (r: Vec<Vec<Json>>)
    ensures
        r.len() == evs.len(),
        claude ==> adds_view(r@) == evs_view(evs@).map_values(
            |ev: Seq<char>| claude_groups(ev, cmd@),
        ),
        !claude ==> adds_view(r@) == evs_view(evs@).map_values(
            |ev: Seq<char>| seq![hook_group(None, cmd@)],
        ),
{
    let mut out: Vec<Vec<Json>> = Vec::new();
    let mut k: usize = 0;
    while k < evs.len()
        invariant
            k <= evs.len(),
            out.len() == k,
            claude ==> adds_view(out@) =~= evs_view(evs@).take(k as int).map_values(
                |ev: Seq<char>| claude_groups(ev, cmd@),
            ),
            !claude ==> adds_view(out@) =~= evs_view(evs@).take(k as int).map_values(
                |ev: Seq<char>| seq![hook_group(None, cmd@)],
            ),
        decreases evs.len() - k,
    {
        let g = if claude {
            claude_groups_exec(evs[k], cmd)
        } else {
            let mut one: Vec<Json> = Vec::new();
            assert(jv_list(one@) =~= Seq::<JsonV>::empty());
            push_value(&mut one, hook_group_exec(None, cmd));
            assert(jv_list(one@) =~= seq![hook_group(None, cmd@)]);
            one
        };
        let ghost gv = jv_list(g@);
        let ghost before = out@;
        out.push(g);
        proof {
            assert(adds_view(out@) =~= adds_view(before).push(gv));
            assert(evs_view(evs@)[k as int] == evs@[k as int]@);
            assert(evs_view(evs@).take(k + 1) =~= evs_view(evs@).take(k as int).push(
                evs_view(evs@)[k as int],
            ));
        }
        k = k + 1;
    }
    assert(evs_view(evs@).take(evs.len() as int) =~= evs_view(evs@));
    out
}

/// Registers `cmd` in the cc client's settings (see `claude_registered`).
pub fn register_claude_hooks(settings: Json, cmd: &str) -> (r: Result<Json, String>)
    ensures
        match r {
            Ok(j) => claude_registered(settings@, cmd@) == Ok::<JsonV, Seq<char>>(j@),
            Err(e) => claude_registered(settings@, cmd@) == Err::<JsonV, Seq<char>>(e@),
        },
{
    proof {
        reveal_strlit("settings not object");
        reveal_strlit("hooks not object");
        reveal_strlit("not array");
    }
    match settings {
        Json::Object(mut es) => {
            let hooks = hooks_value(&es);
            match hooks {
                Json::Object(mut hs) => {
                    let evs = claude_event_names();
                    let adds = groups_for(&evs, cmd, true);
                    let cmdv = chars_of(cmd);
                    let markerv = chars_of("ooclaw-hook");
                    if register_events_exec(&mut hs, &evs, &adds, &cmdv, &markerv) {
                        put_entry(&mut es, "hooks", Json::Object(hs));
                        Ok(Json::Object(es))
                    } else {
                        Err("not array".to_string())
                    }
                },
                _ => Err("hooks not object".to_string()),
            }
        },
        _ => Err("settings not object".to_string()),
    }
}

/// A copy of the `hooks` entry, or an empty object.
fn hooks_value(es: &Vec<(String, Json)>) -> (r: Json)
    ensures
        r@ == value_or(jv_entries(es@), "hooks"@, JsonV::Object(Seq::empty())),
{
    proof {
        lemma_jv_entries_len(es@);
    }
    match key_position(es, "hooks") {
        Some(i) => json_clone(&es[i].1),
        None => {
            let r = Json::Object(Vec::new());
            assert(jv_entries(Seq::<(String, Json)>::empty()) =~= Seq::<(Seq<char>, JsonV)>::empty());
            r
        },
    }
}

/// Registers `cmd` in Codex's hooks file (see `codex_registered`).  The
/// file is an object or `null`.
pub fn register_codex_hooks(config: Json, cmd: &str) -> (r: Result<Json, String>)
    requires
        config@ is Object || config@ is Null,
    ensures
        match r {
            Ok(j) => codex_registered(config@, cmd@) == Ok::<JsonV, Seq<char>>(j@),
            Err(e) => codex_registered(config@, cmd@) == Err::<JsonV, Seq<char>>(e@),
        },
{
    proof {
        reveal_strlit("hooks is not an object");
        reveal_strlit("hook event is not an array");
    }
    let mut es: Vec<(String, Json)> = match config {
        Json::Object(es) => es,
        _ => Vec::new(),
    };
    assert(jv_entries(es@) == (match config@ {
        JsonV::Object(x) => x,
        _ => Seq::empty(),
    }));
    let hooks = hooks_value(&es);
    match hooks {
        Json::Object(mut hs) => {
            let evs = codex_event_names();
            let adds = groups_for(&evs, cmd, false);
            let cmdv = chars_of(cmd);
            let markerv = chars_of("ooclaw-codex-hook");
            if register_events_exec(&mut hs, &evs, &adds, &cmdv, &markerv) {
                put_entry(&mut es, "hooks", Json::Object(hs));
                Ok(Json::Object(es))
            } else {
                Err("hook event is not an array".to_string())
            }
        },
        _ => Err("hooks is not an object".to_string()),
    }
}


// ---------------------------------------------------------------------
// Cursor
// ---------------------------------------------------------------------

/// The Cursor events the pet listens to.
pub open spec fn cursor_events() -> Seq<Seq<char>> {
    seq![
        "beforeSubmitPrompt"@,
        "stop"@,
        "beforeShellExecution"@,
        "afterShellExecution"@,
        "beforeMCPExecution"@,
        "afterMCPExecution"@,
        "afterFileEdit"@,
        "beforeReadFile"@,
        "afterAgentThought"@,
        "afterAgentResponse"@,
    ]
}

/// cc client events that older versions registered with Cursor.
pub open spec fn stale_cursor_events() -> Seq<Seq<char>> {
    seq![
        "sessionStart"@,
        "sessionEnd"@,
        "preToolUse"@,
        "postToolUse"@,
        "postToolUseFailure"@,
        "subagentStart"@,
        "subagentStop"@,
        "preCompact"@,
    ]
}

/// Marker of the pet's Cursor hook script.
pub open spec fn cursor_marker() -> Seq<char> {
    "occlaw-cursor-hook"@
}

/// The entry's `command` names the script `marker`.
pub open spec fn marker_command(e: JsonV, marker: Seq<char>) -> bool {
    match str_at(e, "command"@) {
        Some(c) => contains(c, marker),
        None => false,
    }
}

/// A hook list without the entries whose command names `marker`.
pub open spec fn without_marker(a: Seq<JsonV>, marker: Seq<char>) -> Seq<JsonV> {
    a.filter(|e: JsonV| !marker_command(e, marker))
}

/// The stale events' lists without the pet's entries.
pub open spec fn clean_stale(
    hs: Seq<(Seq<char>, JsonV)>,
    evs: Seq<Seq<char>>,
    marker: Seq<char>,
) -> Seq<(Seq<char>, JsonV)>
    decreases evs.len(),
{
    if evs.len() == 0 {
        hs
    } else {
        let hs1 = match key_pos(hs, evs[0]) {
            Some(i) => match hs[i].1 {
                JsonV::Array(a) => hs.update(i, (evs[0], JsonV::Array(without_marker(a, marker)))),
                _ => hs,
            },
            None => hs,
        };
        clean_stale(hs1, evs.drop_first(), marker)
    }
}

/// First position at or after `i` of an entry whose command names `marker`.
pub open spec fn first_marker(a: Seq<JsonV>, marker: Seq<char>, i: int) -> Option<int>
    decreases a.len() - i,
{
    if i < 0 || i >= a.len() {
        None
    } else if marker_command(a[i], marker) {
        Some(i)
    } else {
        first_marker(a, marker, i + 1)
    }
}

/// `{"command": cmd}`.
pub open spec fn cursor_entry(cmd: Seq<char>) -> JsonV {
    JsonV::Object(seq![("command"@, JsonV::Str(cmd))])
}

/// One Cursor event after registration: the pet's first entry is replaced
/// by `{"command": cmd}`, or that entry is appended; a missing list is
/// created.  `None` when the event's value is not a list.
pub open spec fn cursor_event(
    hs: Seq<(Seq<char>, JsonV)>,
    ev: Seq<char>,
    cmd: Seq<char>,
    marker: Seq<char>,
) -> Option<Seq<(Seq<char>, JsonV)>> {
    match key_pos(hs, ev) {
        None => Some(hs.push((ev, JsonV::Array(seq![cursor_entry(cmd)])))),
        Some(i) => match hs[i].1 {
            JsonV::Array(a) => Some(
                hs.update(
                    i,
                    (
                        ev,
                        JsonV::Array(
                            match first_marker(a, marker, 0) {
                                Some(j) => a.update(j, cursor_entry(cmd)),
                                None => a.push(cursor_entry(cmd)),
                            },
                        ),
                    ),
                ),
            ),
            _ => None,
        },
    }
}

/// The Cursor events registered one after the other.
pub open spec fn cursor_events_applied(
    hs: Seq<(Seq<char>, JsonV)>,
    evs: Seq<Seq<char>>,
    cmd: Seq<char>,
    marker: Seq<char>,
) -> Option<Seq<(Seq<char>, JsonV)>>
    decreases evs.len(),
{
    if evs.len() == 0 {
        Some(hs)
    } else {
        match cursor_event(hs, evs[0], cmd, marker) {
            Some(h2) => cursor_events_applied(h2, evs.drop_first(), cmd, marker),
            None => None,
        }
    }
}

/// Cursor's `hooks.json` with the pet's hook command registered: version
/// 1, the pet's entries gone from the stale events, and one entry for
/// each listened event.  A `null` file counts as empty.
pub open spec fn cursor_registered(config: JsonV, cmd: Seq<char>) -> Result<JsonV, Seq<char>> {
    let es0 = match config {
        JsonV::Object(es) => es,
        _ => Seq::empty(),
    };
    let es = put(es0, "version"@, JsonV::Num(Some(1), "1"@));
    match value_or(es, "hooks"@, JsonV::Object(Seq::empty())) {
        JsonV::Object(hs) => match cursor_events_applied(
            clean_stale(hs, stale_cursor_events(), cursor_marker()),
            cursor_events(),
            cmd,
            cursor_marker(),
        ) {
            Some(h2) => Ok(JsonV::Object(put(es, "hooks"@, JsonV::Object(h2)))),
            None => Err("hook event is not an array"@),
        },
        _ => Err("hooks is not an object"@),
    }
}

fn marker_command_exec(e: &Json, marker: &Vec<char>) -> (r: bool)
    ensures
        r == marker_command(e@, marker@),
{
    match str_at_exec(e, "command") {
        Some(c) => contains_exec(&chars_of(c), marker),
        None => false,
    }
}

/// The list without the entries whose command names `marker`.
fn without_marker_exec(arr: &Vec<Json>, marker: &Vec<char>) -> (r: Vec<Json>)
    ensures
        jv_list(r@) == without_marker(jv_list(arr@), marker@),
{
    let ghost pred = |e: JsonV| !marker_command(e, marker@);
    proof {
        lemma_jv_list_len(arr@);
    }
    let ghost a = jv_list(arr@);
    let mut out: Vec<Json> = Vec::new();
    let mut i: usize = 0;
    assert(a.take(0).filter(pred) =~= Seq::<JsonV>::empty()) by {
        reveal(Seq::filter);
    }
    assert(jv_list(out@) =~= Seq::<JsonV>::empty());
    while i < arr.len()
        invariant
            i <= arr.len(),
            a == jv_list(arr@),
            a.len() == arr.len(),
            forall|k: int| 0 <= k < arr.len() ==> #[trigger] a[k] == jv(arr@[k]),
            pred == (|e: JsonV| !marker_command(e, marker@)),
            jv_list(out@) == a.take(i as int).filter(pred),
        decreases arr.len() - i,
    {
        assert(a.take(i + 1).drop_last() =~= a.take(i as int));
        assert(a.take(i + 1).last() == a[i as int]);
        assert(a.take(i + 1).filter(pred) == (if pred(a[i as int]) {
            a.take(i as int).filter(pred).push(a[i as int])
        } else {
            a.take(i as int).filter(pred)
        })) by {
            reveal(Seq::filter);
        }
        if !marker_command_exec(&arr[i], marker) {
            push_value(&mut out, json_clone(&arr[i]));
        }
        i = i + 1;
    }
    assert(a.take(arr.len() as int) =~= a);
    out
}

/// Replaces the value at position `i` of the entries, keeping its key.
fn replace_value(entries: &mut Vec<(String, Json)>, i: usize, v: Json)
    requires
        i < old(entries).len(),
    ensures
        jv_entries(final(entries)@) == jv_entries(old(entries)@).update(
            i as int,
            (old(entries)@[i as int].0@, v@),
        ),
{
    proof {
        lemma_jv_entries_len(entries@);
    }
    let ghost before = entries@;
    let (k, _) = entries.remove(i);
    entries.insert(i, (k, v));
    proof {
        let after = entries@;
        lemma_jv_entries_len(after);
        assert forall|m: int| 0 <= m < after.len() implies #[trigger] jv_entries(after)[m]
            == jv_entries(before).update(i as int, (before[i as int].0@, v@))[m] by {
            if m != i {
                assert(after[m] == before[m]);
            }
        }
        assert(jv_entries(after) =~= jv_entries(before).update(
            i as int,
            (before[i as int].0@, v@),
        ));
    }
}

fn clean_stale_exec(hs: &mut Vec<(String, Json)>, evs: &Vec<&str>, marker: &Vec<char>)
    ensures
        jv_entries(final(hs)@) == clean_stale(jv_entries(old(hs)@), evs_view(evs@), marker@),
{
    let ghost ev0 = evs_view(evs@);
    let ghost orig = jv_entries(hs@);
    let mut k: usize = 0;
    assert(ev0.skip(0) =~= ev0);
    while k < evs.len()
        invariant
            k <= evs.len(),
            ev0 == evs_view(evs@),
            ev0.len() == evs.len(),
            orig == jv_entries(old(hs)@),
            clean_stale(orig, ev0, marker@) == clean_stale(
                jv_entries(hs@),
                ev0.skip(k as int),
                marker@,
            ),
        decreases evs.len() - k,
    {
        assert(ev0.skip(k as int)[0] == evs@[k as int]@);
        assert(ev0.skip(k as int).drop_first() =~= ev0.skip(k + 1));
        proof {
            lemma_jv_entries_len(hs@);
        }
        let ghost cur = jv_entries(hs@);
        match key_position(hs, evs[k]) {
            Some(i) => {
                proof {
                    lemma_key_pos_from(cur, evs@[k as int]@, 0);
                }
                assert(cur[i as int] == (hs@[i as int].0@, jv(hs@[i as int].1)));
                let cleaned = match &hs[i].1 {
                    Json::Array(a) => {
                        assert(cur[i as int].1 == JsonV::Array(jv_list(a@)));
                        Some(without_marker_exec(a, marker))
                    },
                    _ => {
                        assert(!(cur[i as int].1 is Array));
                        None
                    },
                };
                match cleaned {
                    Some(c) => {
                        replace_value(hs, i, Json::Array(c));
                    },
                    None => {},
                }
            },
            None => {},
        }
        k = k + 1;
    }
    assert(ev0.skip(evs.len() as int) =~= Seq::<Seq<char>>::empty());
}

/// First entry of the list whose command names `marker`.
fn first_marker_exec(arr: &Vec<Json>, marker: &Vec<char>) -> (r: Option<usize>)
    ensures
        r matches Some(j) ==> j < arr.len() && first_marker(jv_list(arr@), marker@, 0) == Some(
            j as int,
        ),
        r is None ==> first_marker(jv_list(arr@), marker@, 0) is None,
{
    proof {
        lemma_jv_list_len(arr@);
    }
    let mut i: usize = 0;
    while i < arr.len()
        invariant
            i <= arr.len(),
            jv_list(arr@).len() == arr.len(),
            forall|k: int| 0 <= k < arr.len() ==> #[trigger] jv_list(arr@)[k] == jv(arr@[k]),
            first_marker(jv_list(arr@), marker@, 0) == first_marker(
                jv_list(arr@),
                marker@,
                i as int,
            ),
        decreases arr.len() - i,
    {
        if marker_command_exec(&arr[i], marker) {
            return Some(i);
        }
        i = i + 1;
    }
    None
}

fn cursor_entry_exec(cmd: &str) -> (r: Json)
    ensures
        r@ == cursor_entry(cmd@),
{
    let mut es: Vec<(String, Json)> = Vec::new();
    assert(jv_entries(es@) =~= Seq::<(Seq<char>, JsonV)>::empty());
    push_entry(&mut es, "command", json_str(cmd));
    assert(jv_entries(es@) =~= seq![("command"@, JsonV::Str(cmd@))]);
    obj_of(es)
}

fn cursor_event_exec(hs: &mut Vec<(String, Json)>, ev: &str, cmd: &str, marker: &Vec<char>) -> (ok:
    bool)
    ensures
        ok == cursor_event(jv_entries(old(hs)@), ev@, cmd@, marker@) is Some,
        ok ==> cursor_event(jv_entries(old(hs)@), ev@, cmd@, marker@) == Some(
            jv_entries(final(hs)@),
        ),
{
    proof {
        lemma_jv_entries_len(hs@);
    }
    match key_position(hs, ev) {
        None => {
            let mut list: Vec<Json> = Vec::new();
            assert(jv_list(list@) =~= Seq::<JsonV>::empty());
            push_value(&mut list, cursor_entry_exec(cmd));
            assert(jv_list(list@) =~= seq![cursor_entry(cmd@)]);
            push_entry(hs, ev, Json::Array(list));
            true
        },
        Some(i) => {
            let ghost cur = jv_entries(hs@);
            proof {
                lemma_key_pos_from(cur, ev@, 0);
            }
            assert(cur[i as int] == (hs@[i as int].0@, jv(hs@[i as int].1)));
            let updated: Option<Vec<Json>> = match &hs[i].1 {
                Json::Array(a) => {
                    assert(cur[i as int].1 == JsonV::Array(jv_list(a@)));
                    proof {
                        lemma_jv_list_len(a@);
                    }
                    let mut list = json_list_clone(a);
                    proof {
                        lemma_jv_list_len(list@);
                    }
                    match first_marker_exec(a, marker) {
                        Some(j) => {
                            proof {
                                lemma_jv_list_len(list@);
                            }
                            let ghost before = list@;
                            let _ = list.remove(j);
                            list.insert(j, cursor_entry_exec(cmd));
                            proof {
                                lemma_jv_list_len(list@);
                                assert(jv_list(list@) =~= jv_list(before).update(
                                    j as int,
                                    cursor_entry(cmd@),
                                ));
                            }
                        },
                        None => {
                            push_value(&mut list, cursor_entry_exec(cmd));
                        },
                    }
                    Some(list)
                },
                _ => {
                    assert(!(cur[i as int].1 is Array));
                    None
                },
            };
            match updated {
                Some(list) => {
                    replace_value(hs, i, Json::Array(list));
                    true
                },
                None => false,
            }
        },
    }
}

/// A copy of a list of values.
fn json_list_clone(a: &Vec<Json>) -> (r: Vec<Json>)
    ensures
        jv_list(r@) == jv_list(a@),
{
    proof {
        lemma_jv_list_len(a@);
    }
    let mut out: Vec<Json> = Vec::new();
    let mut k: usize = 0;
    assert(jv_list(out@) =~= jv_list(a@).take(0));
    while k < a.len()
        invariant
            k <= a.len(),
            jv_list(a@).len() == a.len(),
            forall|m: int| 0 <= m < a.len() ==> #[trigger] jv_list(a@)[m] == jv(a@[m]),
            jv_list(out@) == jv_list(a@).take(k as int),
        decreases a.len() - k,
    {
        push_value(&mut out, json_clone(&a[k]));
        assert(jv_list(a@).take(k + 1) =~= jv_list(a@).take(k as int).push(jv_list(a@)[k as int]));
        k = k + 1;
    }
    assert(jv_list(a@).take(a.len() as int) =~= jv_list(a@));
    out
}

fn cursor_event_names() -> (r: Vec<&'static str>)
    ensures
        evs_view(r@) == cursor_events(),
{
    let mut v: Vec<&'static str> = Vec::new();
    v.push("beforeSubmitPrompt");
    v.push("stop");
    v.push("beforeShellExecution");
    v.push("afterShellExecution");
    v.push("beforeMCPExecution");
    v.push("afterMCPExecution");
    v.push("afterFileEdit");
    v.push("beforeReadFile");
    v.push("afterAgentThought");
    v.push("afterAgentResponse");
    assert(evs_view(v@) =~= cursor_events());
    v
}

fn stale_event_names() -> (r: Vec<&'static str>)
    ensures
        evs_view(r@) == stale_cursor_events(),
{
    let mut v: Vec<&'static str> = Vec::new();
    v.push("sessionStart");
    v.push("sessionEnd");
    v.push("preToolUse");
    v.push("postToolUse");
    v.push("postToolUseFailure");
    v.push("subagentStart");
    v.push("subagentStop");
    v.push("preCompact");
    assert(evs_view(v@) =~= stale_cursor_events());
    v
}

/// Registers `cmd` in Cursor's hooks file (see `cursor_registered`).  The
/// file is an object or `null`.
pub fn register_cursor_hooks(config: Json, cmd: &str) -> (r: Result<Json, String>)
    requires
        config@ is Object || config@ is Null,
    ensures
        match r {
            Ok(j) => cursor_registered(config@, cmd@) == Ok::<JsonV, Seq<char>>(j@),
            Err(e) => cursor_registered(config@, cmd@) == Err::<JsonV, Seq<char>>(e@),
        },
{
    proof {
        reveal_strlit("hooks is not an object");
        reveal_strlit("hook event is not an array");
    }
    let mut es: Vec<(String, Json)> = match config {
        Json::Object(es) => es,
        _ => Vec::new(),
    };
    assert(jv_entries(es@) == (match config@ {
        JsonV::Object(x) => x,
        _ => Seq::empty(),
    }));
    put_entry(&mut es, "version", Json::Num(JsonNumber { as_u64: Some(1), text: "1".to_string() }));
    let hooks = hooks_value(&es);
    match hooks {
        Json::Object(mut hs) => {
            let marker = chars_of("occlaw-cursor-hook");
            let stale = stale_event_names();
            let ghost orig_hs = jv_entries(hs@);
            clean_stale_exec(&mut hs, &stale, &marker);
            let evs = cursor_event_names();
            let ghost cleaned = jv_entries(hs@);
            let ghost es_view = jv_entries(es@);
            let ghost ev0 = evs_view(evs@);
            let mut k: usize = 0;
            assert(ev0.skip(0) =~= ev0);
            while k < evs.len()
                invariant
                    k <= evs.len(),
                    ev0 == evs_view(evs@),
                    ev0 == cursor_events(),
                    ev0.len() == evs.len(),
                    marker@ == cursor_marker(),
                    es_view == jv_entries(es@),
                    es_view == put(
                        match config@ {
                            JsonV::Object(x) => x,
                            _ => Seq::empty(),
                        },
                        "version"@,
                        JsonV::Num(Some(1), "1"@),
                    ),
                    value_or(es_view, "hooks"@, JsonV::Object(Seq::empty())) == JsonV::Object(
                        orig_hs,
                    ),
                    cleaned == clean_stale(orig_hs, stale_cursor_events(), cursor_marker()),
                    cursor_events_applied(cleaned, ev0, cmd@, marker@) == cursor_events_applied(
                        jv_entries(hs@),
                        ev0.skip(k as int),
                        cmd@,
                        marker@,
                    ),
                decreases evs.len() - k,
            {
                assert(ev0.skip(k as int)[0] == evs@[k as int]@);
                assert(ev0.skip(k as int).drop_first() =~= ev0.skip(k + 1));
                let ghost cur = jv_entries(hs@);
                if !cursor_event_exec(&mut hs, evs[k], cmd, &marker) {
                    assert(cursor_events_applied(cur, ev0.skip(k as int), cmd@, marker@) is None);
                    return Err("hook event is not an array".to_string());
                }
                k = k + 1;
            }
            assert(ev0.skip(evs.len() as int) =~= Seq::<Seq<char>>::empty());
            put_entry(&mut es, "hooks", Json::Object(hs));
            Ok(Json::Object(es))
        },
        _ => Err("hooks is not an object".to_string()),
    }
}


// ---------------------------------------------------------------------
// Removing the pet's entries
// ---------------------------------------------------------------------

/// Some entry of `hs` has a command naming `marker`.
pub open spec fn any_marker(hs: Seq<JsonV>, marker: Seq<char>) -> bool {
    exists|i: int| 0 <= i < hs.len() && #[trigger] marker_command(hs[i], marker)
}

/// An entry that is the pet's: its command names `marker`, or (`nested`)
/// a command in its `hooks` list does.
pub open spec fn entry_marked(e: JsonV, marker: Seq<char>, nested: bool) -> bool {
    marker_command(e, marker) || (nested && match get(e, "hooks"@) {
        Some(h) => match as_array(h) {
            Some(hs) => any_marker(hs, marker),
            None => false,
        },
        None => false,
    })
}

/// Each event's list without the pet's entries; a list left empty goes.
pub open spec fn stripped_entries(
    hs: Seq<(Seq<char>, JsonV)>,
    marker: Seq<char>,
    nested: bool,
) -> Seq<(Seq<char>, JsonV)>
    decreases hs.len(),
{
    if hs.len() == 0 {
        hs
    } else {
        let rest = stripped_entries(hs.drop_last(), marker, nested);
        let k = hs.last().0;
        match hs.last().1 {
            JsonV::Array(a) => {
                let a2 = a.filter(|e: JsonV| !entry_marked(e, marker, nested));
                if a2.len() == 0 {
                    rest
                } else {
                    rest.push((k, JsonV::Array(a2)))
                }
            },
            v => rest.push((k, v)),
        }
    }
}

/// A hook list holds none of the pet's entries, and is not empty.
pub open spec fn clean_list(v: JsonV, marker: Seq<char>, nested: bool) -> bool {
    match v {
        JsonV::Array(a) => a.len() > 0 && forall|j: int|
            0 <= j < a.len() ==> !entry_marked(#[trigger] a[j], marker, nested),
        _ => true,
    }
}

/// Removing the pet's hooks leaves none of its entries behind, and no
/// event with an empty list.
pub proof fn law_strip_leaves_no_pet_entry(hs: Seq<(Seq<char>, JsonV)>, marker: Seq<char>, nested: bool)
    ensures
        forall|i: int|
            0 <= i < stripped_entries(hs, marker, nested).len() ==> clean_list(
                #[trigger] stripped_entries(hs, marker, nested)[i].1,
                marker,
                nested,
            ),
    decreases hs.len(),
{
    if hs.len() > 0 {
        law_strip_leaves_no_pet_entry(hs.drop_last(), marker, nested);
        let rest = stripped_entries(hs.drop_last(), marker, nested);
        let out = stripped_entries(hs, marker, nested);
        match hs.last().1 {
            JsonV::Array(a) => {
                let p = |e: JsonV| !entry_marked(e, marker, nested);
                let a2 = a.filter(p);
                assert forall|j: int| 0 <= j < a2.len() implies !entry_marked(
                    #[trigger] a2[j],
                    marker,
                    nested,
                ) by {
                    a.lemma_filter_pred(p, j);
                }
                assert forall|i: int| 0 <= i < out.len() implies clean_list(
                    #[trigger] out[i].1,
                    marker,
                    nested,
                ) by {
                    if i < rest.len() {
                        assert(out[i] == rest[i]);
                    }
                }
            },
            _ => {
                assert forall|i: int| 0 <= i < out.len() implies clean_list(
                    #[trigger] out[i].1,
                    marker,
                    nested,
                ) by {
                    if i < rest.len() {
                        assert(out[i] == rest[i]);
                    }
                }
            },
        }
    }
}

/// A hooks file without the pet's entries (a file without a `hooks`
/// object stays as it is).
pub open spec fn hooks_stripped(config: JsonV, marker: Seq<char>, nested: bool) -> JsonV {
    match config {
        JsonV::Object(es) => match key_pos(es, "hooks"@) {
            Some(i) => match es[i].1 {
                JsonV::Object(hs) => JsonV::Object(
                    es.update(i, ("hooks"@, JsonV::Object(stripped_entries(hs, marker, nested)))),
                ),
                _ => config,
            },
            None => config,
        },
        _ => config,
    }
}

fn entry_marked_exec(e: &Json, marker: &Vec<char>, nested: bool) -> (r: bool)
    ensures
        r == entry_marked(e@, marker@, nested),
{
    if marker_command_exec(e, marker) {
        return true;
    }
    if !nested {
        return false;
    }
    match get_exec(e, "hooks") {
        Some(h) => match as_array_exec(h) {
            Some(hs) => {
                proof {
                    lemma_jv_list_len(hs@);
                }
                let mut i: usize = 0;
                while i < hs.len()
                    invariant
                        i <= hs.len(),
                        nested,
                        get(e@, "hooks"@) == Some(h@),
                        as_array(h@) == Some(jv_list(hs@)),
                        jv_list(hs@).len() == hs.len(),
                        forall|k: int| 0 <= k < hs.len() ==> #[trigger] jv_list(hs@)[k] == jv(
                            hs@[k],
                        ),
                        forall|k: int| 0 <= k < i ==> !marker_command(jv_list(hs@)[k], marker@),
                    decreases hs.len() - i,
                {
                    if marker_command_exec(&hs[i], marker) {
                        assert(marker_command(jv_list(hs@)[i as int], marker@));
                        assert(any_marker(jv_list(hs@), marker@));
                        return true;
                    }
                    i = i + 1;
                }
                false
            },
            None => false,
        },
        None => false,
    }
}

fn unmarked_exec(arr: &Vec<Json>, marker: &Vec<char>, nested: bool) -> (r: Vec<Json>)
    ensures
        jv_list(r@) == jv_list(arr@).filter(|e: JsonV| !entry_marked(e, marker@, nested)),
{
    let ghost pred = |e: JsonV| !entry_marked(e, marker@, nested);
    proof {
        lemma_jv_list_len(arr@);
    }
    let ghost a = jv_list(arr@);
    let mut out: Vec<Json> = Vec::new();
    let mut i: usize = 0;
    assert(a.take(0).filter(pred) =~= Seq::<JsonV>::empty()) by {
        reveal(Seq::filter);
    }
    assert(jv_list(out@) =~= Seq::<JsonV>::empty());
    while i < arr.len()
        invariant
            i <= arr.len(),
            a == jv_list(arr@),
            a.len() == arr.len(),
            forall|k: int| 0 <= k < arr.len() ==> #[trigger] a[k] == jv(arr@[k]),
            pred == (|e: JsonV| !entry_marked(e, marker@, nested)),
            jv_list(out@) == a.take(i as int).filter(pred),
        decreases arr.len() - i,
    {
        assert(a.take(i + 1).drop_last() =~= a.take(i as int));
        assert(a.take(i + 1).last() == a[i as int]);
        assert(a.take(i + 1).filter(pred) == (if pred(a[i as int]) {
            a.take(i as int).filter(pred).push(a[i as int])
        } else {
            a.take(i as int).filter(pred)
        })) by {
            reveal(Seq::filter);
        }
        if !entry_marked_exec(&arr[i], marker, nested) {
            push_value(&mut out, json_clone(&arr[i]));
        }
        i = i + 1;
    }
    assert(a.take(arr.len() as int) =~= a);
    out
}

fn stripped_entries_exec(hs: &Vec<(String, Json)>, marker: &Vec<char>, nested: bool) -> (r: Vec<
    (String, Json),
>)
    ensures
        jv_entries(r@) == stripped_entries(jv_entries(hs@), marker@, nested),
{
    proof {
        lemma_jv_entries_len(hs@);
    }
    let ghost es = jv_entries(hs@);
    let mut out: Vec<(String, Json)> = Vec::new();
    let mut i: usize = 0;
    assert(es.take(0) =~= Seq::<(Seq<char>, JsonV)>::empty());
    assert(jv_entries(out@) =~= Seq::<(Seq<char>, JsonV)>::empty());
    while i < hs.len()
        invariant
            i <= hs.len(),
            es == jv_entries(hs@),
            es.len() == hs.len(),
            forall|k: int| 0 <= k < hs.len() ==> #[trigger] es[k] == (hs@[k].0@, jv(hs@[k].1)),
            jv_entries(out@) == stripped_entries(es.take(i as int), marker@, nested),
        decreases hs.len() - i,
    {
        assert(es.take(i + 1).drop_last() =~= es.take(i as int));
        assert(es.take(i + 1).last() == es[i as int]);
        match &hs[i].1 {
            Json::Array(a) => {
                let a2 = unmarked_exec(a, marker, nested);
                proof {
                    lemma_jv_list_len(a2@);
                }
                if a2.len() > 0 {
                    push_entry(&mut out, hs[i].0.as_str(), Json::Array(a2));
                }
            },
            v => {
                push_entry(&mut out, hs[i].0.as_str(), json_clone(v));
            },
        }
        i = i + 1;
    }
    assert(es.take(hs.len() as int) =~= es);
    out
}

/// Removes the pet's entries from a hooks file (see `hooks_stripped`):
/// Codex's marker is looked for in nested `hooks` lists too (`nested`).
pub fn strip_hooks(config: Json, marker: &str, nested: bool) -> (r: Json)
    ensures
        r@ == hooks_stripped(config@, marker@, nested),
{
    let mk = chars_of(marker);
    match config {
        Json::Object(mut es) => {
            proof {
                lemma_jv_entries_len(es@);
            }
            match key_position(&es, "hooks") {
                Some(i) => {
                    let stripped = match &es[i].1 {
                        Json::Object(hs) => Some(stripped_entries_exec(hs, &mk, nested)),
                        _ => None,
                    };
                    match stripped {
                        Some(h2) => {
                            proof {
                                lemma_key_pos_from(jv_entries(es@), "hooks"@, 0);
                            }
                            replace_value(&mut es, i, Json::Object(h2));
                            Json::Object(es)
                        },
                        None => Json::Object(es),
                    }
                },
                None => Json::Object(es),
            }
        },
        other => other,
    }
}

// ---------------------------------------------------------------------
// Cursor's extension files
// ---------------------------------------------------------------------

/// A map without the entry `key`; `None` when it had none.
pub open spec fn without_key(es: Seq<(Seq<char>, JsonV)>, key: Seq<char>) -> Option<
    Seq<(Seq<char>, JsonV)>,
> {
    match key_pos(es, key) {
        Some(i) => Some(es.remove(i)),
        None => None,
    }
}

/// Cursor's `.obsolete` map with the extension's flag cleared: `None` when
/// it is no object or has no such flag (nothing to write).
pub fn clear_obsolete_flag(v: Json, folder: &str) -> (r: Option<Json>)
    ensures
        r matches Some(j) ==> (v@ matches JsonV::Object(es) && without_key(es, folder@) == Some(
            j@->Object_0,
        ) && j@ is Object),
        r is None ==> (match v@ {
            JsonV::Object(es) => without_key(es, folder@) is None,
            _ => true,
        }),
{
    match v {
        Json::Object(mut es) => match key_position(&es, folder) {
            Some(i) => {
                let ghost before = es@;
                proof {
                    lemma_jv_entries_len(before);
                }
                let _ = es.remove(i);
                proof {
                    lemma_jv_entries_len(es@);
                    assert(jv_entries(es@) =~= jv_entries(before).remove(i as int));
                }
                Some(Json::Object(es))
            },
            None => None,
        },
        _ => None,
    }
}

/// The extension id an entry of Cursor's extension registry names.
pub open spec fn ext_id_of(item: JsonV) -> Option<Seq<char>> {
    match get(item, "identifier"@) {
        Some(x) => str_at(x, "id"@),
        None => None,
    }
}

/// First registry entry at or after `i` naming extension `id`.
pub open spec fn first_ext(a: Seq<JsonV>, id: Seq<char>, i: int) -> Option<int>
    decreases a.len() - i,
{
    if i < 0 || i >= a.len() {
        None
    } else if ext_id_of(a[i]) == Some(id) {
        Some(i)
    } else {
        first_ext(a, id, i + 1)
    }
}

/// Cursor's extension registry with `entry` for extension `id`: the first
/// entry naming it is replaced, else `entry` is appended; a registry that
/// is no list starts empty.
pub open spec fn registry_with(reg: JsonV, entry: JsonV, id: Seq<char>) -> JsonV {
    let a = match reg {
        JsonV::Array(a) => a,
        _ => Seq::empty(),
    };
    match first_ext(a, id, 0) {
        Some(i) => JsonV::Array(a.update(i, entry)),
        None => JsonV::Array(a.push(entry)),
    }
}

fn ext_id_is(item: &Json, id: &str) -> (r: bool)
    ensures
        r == (ext_id_of(item@) == Some(id@)),
{
    match get_exec(item, "identifier") {
        Some(x) => match str_at_exec(x, "id") {
            Some(s) => same_text(s, id),
            None => false,
        },
        None => false,
    }
}

/// Registers `entry` for extension `ext_id` (see `registry_with`).
pub fn register_extension(registry: Json, entry: Json, ext_id: &str) -> (r: Json)
    ensures
        r@ == registry_with(registry@, entry@, ext_id@),
{
    let ghost orig = match registry@ {
        JsonV::Array(x) => x,
        _ => Seq::empty(),
    };
    let ghost ent = entry@;
    let mut a: Vec<Json> = match registry {
        Json::Array(a) => a,
        _ => Vec::new(),
    };
    assert(jv_list(a@) == orig);
    proof {
        lemma_jv_list_len(a@);
    }
    let mut i: usize = 0;
    while i < a.len()
        invariant
            i <= a.len(),
            jv_list(a@) == orig,
            ent == entry@,
            registry_with(registry@, entry@, ext_id@) == (match first_ext(orig, ext_id@, 0) {
                Some(j) => JsonV::Array(orig.update(j, ent)),
                None => JsonV::Array(orig.push(ent)),
            }),
            jv_list(a@).len() == a.len(),
            forall|k: int| 0 <= k < a.len() ==> #[trigger] jv_list(a@)[k] == jv(a@[k]),
            first_ext(jv_list(a@), ext_id@, 0) == first_ext(jv_list(a@), ext_id@, i as int),
        decreases a.len() - i,
    {
        if ext_id_is(&a[i], ext_id) {
            let ghost before = a@;
            let _ = a.remove(i);
            a.insert(i, entry);
            proof {
                lemma_jv_list_len(a@);
                assert(jv_list(a@) =~= jv_list(before).update(i as int, entry@));
            }
            return Json::Array(a);
        }
        i = i + 1;
    }
    push_value(&mut a, entry);
    Json::Array(a)
}


// ---------------------------------------------------------------------
// Registering twice changes nothing
// ---------------------------------------------------------------------

proof fn lemma_filter_idem(a: Seq<JsonV>, p: spec_fn(JsonV) -> bool)
    ensures
        a.filter(p).filter(p) == a.filter(p),
    decreases a.len(),
{
    reveal(Seq::filter);
    if a.len() > 0 {
        lemma_filter_idem(a.drop_last(), p);
        let f = a.drop_last().filter(p);
        if p(a.last()) {
            assert(f.push(a.last()).drop_last() =~= f);
        }
    }
}

proof fn lemma_filter_none(a: Seq<JsonV>, p: spec_fn(JsonV) -> bool)
    requires
        forall|i: int| 0 <= i < a.len() ==> !p(#[trigger] a[i]),
    ensures
        a.filter(p) == Seq::<JsonV>::empty(),
    decreases a.len(),
{
    reveal(Seq::filter);
    if a.len() > 0 {
        assert(forall|i: int| 0 <= i < a.drop_last().len() ==> a.drop_last()[i] == a[i]);
        lemma_filter_none(a.drop_last(), p);
        assert(!p(a[a.len() - 1]));
    }
}

/// Keeping the foreign entries of a list that ends with the pet's own
/// entries `add`, and appending `add` again, gives the list back.
proof fn lemma_kept_again(v: Seq<JsonV>, add: Seq<JsonV>, cmd: Seq<char>, marker: Seq<char>)
    requires
        forall|i: int| 0 <= i < add.len() ==> has_our_hook(#[trigger] add[i], cmd, marker),
        exists|a: Seq<JsonV>| v == kept(a, cmd, marker) + add,
    ensures
        kept(v, cmd, marker) + add == v,
{
    let p = |e: JsonV| !has_our_hook(e, cmd, marker);
    let a = choose|a: Seq<JsonV>| v == kept(a, cmd, marker) + add;
    Seq::filter_distributes_over_add(a.filter(p), add, p);
    lemma_filter_idem(a, p);
    lemma_filter_none(add, p);
    assert(kept(v, cmd, marker) =~= kept(a, cmd, marker));
}

proof fn lemma_key_pos_same_keys(
    a: Seq<(Seq<char>, JsonV)>,
    b: Seq<(Seq<char>, JsonV)>,
    key: Seq<char>,
    i: int,
)
    requires
        a.len() == b.len(),
        forall|j: int| 0 <= j < a.len() ==> a[j].0 == b[j].0,
    ensures
        key_pos_from(a, key, i) == key_pos_from(b, key, i),
    decreases a.len() - i,
{
    if 0 <= i < a.len() && a[i].0 != key {
        lemma_key_pos_same_keys(a, b, key, i + 1);
    }
}

proof fn lemma_key_pos_push(a: Seq<(Seq<char>, JsonV)>, p: (Seq<char>, JsonV), key: Seq<char>, i: int)
    requires
        0 <= i <= a.len(),
    ensures
        key_pos_from(a, key, i) matches Some(j) ==> key_pos_from(a.push(p), key, i) == Some(j),
        key_pos_from(a, key, i) is None ==> key_pos_from(a.push(p), key, i) == (if p.0 == key {
            Some(a.len() as int)
        } else {
            None
        }),
    decreases a.len() - i,
{
    assert(a.push(p)[a.len() as int] == p);
    if i < a.len() {
        assert(a.push(p)[i] == a[i]);
        if a[i].0 != key {
            lemma_key_pos_push(a, p, key, i + 1);
        }
    }
}

/// After registering the events `evs`, an event outside them keeps its
/// position and its value.
proof fn lemma_register_events_keeps(
    x: Seq<(Seq<char>, JsonV)>,
    evs: Seq<Seq<char>>,
    adds: Seq<Seq<JsonV>>,
    cmd: Seq<char>,
    marker: Seq<char>,
    e: Seq<char>,
)
    requires
        !evs.contains(e),
        register_events(x, evs, adds, cmd, marker) is Some,
    ensures
        ({
            let y = register_events(x, evs, adds, cmd, marker)->0;
            &&& key_pos(y, e) == key_pos(x, e)
            &&& key_pos(x, e) matches Some(i) ==> y[i] == x[i]
        }),
    decreases evs.len(),
{
    if evs.len() > 0 {
        let e0 = evs[0];
        assert(e0 != e);
        let x1 = register_event(x, e0, adds[0], cmd, marker)->0;
        proof_key_after_event(x, e0, adds[0], cmd, marker, e);
        assert forall|q: Seq<char>| evs.drop_first().contains(q) implies evs.contains(q) by {
            let k = choose|k: int| 0 <= k < evs.drop_first().len() && evs.drop_first()[k] == q;
            assert(evs[k + 1] == q);
        }
        lemma_register_events_keeps(x1, evs.drop_first(), adds.drop_first(), cmd, marker, e);
    }
}

/// Registering event `e0` leaves another event `e` where it was.
proof fn proof_key_after_event(
    x: Seq<(Seq<char>, JsonV)>,
    e0: Seq<char>,
    add: Seq<JsonV>,
    cmd: Seq<char>,
    marker: Seq<char>,
    e: Seq<char>,
)
    requires
        e0 != e,
        register_event(x, e0, add, cmd, marker) is Some,
    ensures
        ({
            let x1 = register_event(x, e0, add, cmd, marker)->0;
            &&& key_pos(x1, e) == key_pos(x, e)
            &&& key_pos(x, e) matches Some(i) ==> x1[i] == x[i]
        }),
{
    let x1 = register_event(x, e0, add, cmd, marker)->0;
    lemma_key_pos_from(x, e, 0);
    lemma_key_pos_from(x, e0, 0);
    match key_pos(x, e0) {
        None => {
            lemma_key_pos_push(x, (e0, JsonV::Array(add)), e, 0);
        },
        Some(j) => {
            lemma_key_pos_same_keys(x, x1, e, 0);
        },
    }
}

/// After registering event `e`, its list is a list `v` of foreign
/// entries followed by `add`, so registering it again gives `v` back.
proof fn lemma_own_slot(
    x: Seq<(Seq<char>, JsonV)>,
    e: Seq<char>,
    add: Seq<JsonV>,
    cmd: Seq<char>,
    marker: Seq<char>,
)
    requires
        forall|q: int| 0 <= q < add.len() ==> has_our_hook(#[trigger] add[q], cmd, marker),
        register_event(x, e, add, cmd, marker) is Some,
    ensures
        ({
            let x1 = register_event(x, e, add, cmd, marker)->0;
            &&& key_pos(x1, e) is Some
            &&& 0 <= key_pos(x1, e)->0 < x1.len()
            &&& x1[key_pos(x1, e)->0].0 == e
            &&& x1[key_pos(x1, e)->0].1 is Array
            &&& kept(x1[key_pos(x1, e)->0].1->Array_0, cmd, marker) + add == x1[key_pos(
                x1,
                e,
            )->0].1->Array_0
        }),
{
    let x1 = register_event(x, e, add, cmd, marker)->0;
    lemma_key_pos_from(x, e, 0);
    match key_pos(x, e) {
        None => {
            lemma_key_pos_push(x, (e, JsonV::Array(add)), e, 0);
            assert(x1[x.len() as int] == (e, JsonV::Array(add)));
            assert(add == kept(Seq::<JsonV>::empty(), cmd, marker) + add) by {
                reveal(Seq::filter);
                assert(kept(Seq::<JsonV>::empty(), cmd, marker) + add =~= add);
            }
            lemma_kept_again(add, add, cmd, marker);
        },
        Some(j) => {
            lemma_key_pos_same_keys(x, x1, e, 0);
            let a = x[j].1->Array_0;
            let v = kept(a, cmd, marker) + add;
            assert(x1[j] == (e, JsonV::Array(v)));
            lemma_kept_again(v, add, cmd, marker);
        },
    }
}

/// Registering the events `evs` once more after they were registered
/// changes nothing, when the events are distinct and the entries added
/// are the pet's own.
#[verifier::rlimit(40)]
proof fn lemma_register_events_idem(
    x: Seq<(Seq<char>, JsonV)>,
    evs: Seq<Seq<char>>,
    adds: Seq<Seq<JsonV>>,
    cmd: Seq<char>,
    marker: Seq<char>,
)
    requires
        evs.no_duplicates(),
        adds.len() == evs.len(),
        forall|k: int, i: int|
            0 <= k < adds.len() && 0 <= i < adds[k].len() ==> has_our_hook(
                #[trigger] adds[k][i],
                cmd,
                marker,
            ),
        register_events(x, evs, adds, cmd, marker) is Some,
    ensures
        ({
            let y = register_events(x, evs, adds, cmd, marker)->0;
            register_events(y, evs, adds, cmd, marker) == Some(y)
        }),
    decreases evs.len(),
{
    if evs.len() > 0 {
        let e = evs[0];
        let add = adds[0];
        let x1 = register_event(x, e, add, cmd, marker)->0;
        let rest = evs.drop_first();
        let y = register_events(x1, rest, adds.drop_first(), cmd, marker)->0;
        assert forall|k: int, i: int|
            0 <= k < adds.drop_first().len() && 0 <= i < adds.drop_first()[k].len() implies
            has_our_hook(#[trigger] adds.drop_first()[k][i], cmd, marker) by {
            assert(adds.drop_first()[k] == adds[k + 1]);
        }
        assert(rest.no_duplicates());
        lemma_register_events_idem(x1, rest, adds.drop_first(), cmd, marker);
        assert(!rest.contains(e)) by {
            if rest.contains(e) {
                let k = choose|k: int| 0 <= k < rest.len() && rest[k] == e;
                assert(evs[k + 1] == evs[0]);
            }
        }
        lemma_register_events_keeps(x1, rest, adds.drop_first(), cmd, marker, e);
        assert forall|q: int| 0 <= q < add.len() implies has_our_hook(#[trigger] add[q], cmd, marker) by {
            assert(adds[0][q] == add[q]);
        }
        lemma_own_slot(x, e, add, cmd, marker);
        let i = key_pos(x1, e)->0;
        let v = x1[i].1->Array_0;
        assert(key_pos(y, e) == Some(i));
        lemma_key_pos_from(y, e, 0);
        assert(y[i] == x1[i]);
        let kv = kept(v, cmd, marker) + add;
        assert(kv == v);
        assert(y[i] == (e, JsonV::Array(kv)));
        assert(y.update(i, (e, JsonV::Array(kv))) =~= y);
        assert(register_event(y, e, add, cmd, marker) == Some(y.update(i, (e, JsonV::Array(kv)))));
    }
}

proof fn lemma_put_get(es: Seq<(Seq<char>, JsonV)>, key: Seq<char>, v: JsonV)
    ensures
        value_or(put(es, key, v), key, JsonV::Null) == v,
        value_or(put(es, key, v), key, JsonV::Object(Seq::empty())) == v,
        put(put(es, key, v), key, v) == put(es, key, v),
{
    lemma_key_pos_from(es, key, 0);
    match key_pos(es, key) {
        Some(i) => {
            lemma_key_pos_same_keys(es, es.update(i, (key, v)), key, 0);
            assert(es.update(i, (key, v)).update(i, (key, v)) =~= es.update(i, (key, v)));
        },
        None => {
            lemma_key_pos_push(es, (key, v), key, 0);
            let p = es.push((key, v));
            assert(p.update(es.len() as int, (key, v)) =~= p);
        },
    }
}

proof fn lemma_hook_group_ours(m: Option<Seq<char>>, cmd: Seq<char>, marker: Seq<char>)
    ensures
        has_our_hook(hook_group(m, cmd), cmd, marker),
{
    reveal_strlit("type");
    reveal_strlit("command");
    reveal_strlit("hooks");
    reveal_strlit("matcher");
    let h = command_hook(cmd);
    let hes = seq![("type"@, JsonV::Str("command"@)), ("command"@, JsonV::Str(cmd))];
    assert(hes.drop_first() =~= seq![("command"@, JsonV::Str(cmd))]);
    assert("type"@ != "command"@) by {
        assert("type"@.len() != "command"@.len());
    }
    assert(crate::json::entry_value(hes.drop_first(), "command"@) == Some(JsonV::Str(cmd)));
    assert(str_at(h, "command"@) == Some(cmd));
    assert(command_ours(h, cmd, marker));
    let hs = seq![h];
    assert(hs[0] == h);
    assert(any_command_ours(hs, cmd, marker));
    match m {
        Some(mm) => {
            let es = seq![("matcher"@, JsonV::Str(mm)), ("hooks"@, JsonV::Array(hs))];
            assert(es.drop_first() =~= seq![("hooks"@, JsonV::Array(hs))]);
            assert("matcher"@ != "hooks"@) by {
                assert("matcher"@.len() != "hooks"@.len());
            }
            assert(crate::json::entry_value(es.drop_first(), "hooks"@) == Some(JsonV::Array(hs)));
            assert(get(hook_group(m, cmd), "hooks"@) == Some(JsonV::Array(hs)));
        },
        None => {
            assert(get(hook_group(m, cmd), "hooks"@) == Some(JsonV::Array(hs)));
        },
    }
}

proof fn lemma_claude_events_distinct()
    ensures
        claude_events().no_duplicates(),
{
    reveal_strlit("UserPromptSubmit");
    reveal_strlit("PreToolUse");
    reveal_strlit("PostToolUse");
    reveal_strlit("PermissionRequest");
    reveal_strlit("PreCompact");
    reveal_strlit("Stop");
    reveal_strlit("SubagentStop");
    reveal_strlit("SessionStart");
    reveal_strlit("SessionEnd");
    let e = claude_events();
    assert forall|i: int, j: int| 0 <= i < e.len() && 0 <= j < e.len() && i != j implies e[i]
        != e[j] by {
        if e[i].len() == e[j].len() {
            assert(e[i][1] != e[j][1] || e[i][2] != e[j][2] || e[i][0] != e[j][0] || e[i][3]
                != e[j][3]);
        }
    }
}

proof fn lemma_codex_events_distinct()
    ensures
        codex_events().no_duplicates(),
{
    reveal_strlit("SessionStart");
    reveal_strlit("UserPromptSubmit");
    reveal_strlit("PreToolUse");
    reveal_strlit("PostToolUse");
    reveal_strlit("PermissionRequest");
    reveal_strlit("Stop");
    reveal_strlit("StopFailure");
    reveal_strlit("SubagentStop");
    let e = codex_events();
    assert forall|i: int, j: int| 0 <= i < e.len() && 0 <= j < e.len() && i != j implies e[i]
        != e[j] by {
        if e[i].len() == e[j].len() {
            assert(e[i][1] != e[j][1] || e[i][2] != e[j][2] || e[i][0] != e[j][0] || e[i][3]
                != e[j][3]);
        }
    }
}

/// Registering the pet's hook in the cc client's settings a second time
/// changes nothing: re-installing never duplicates the pet's entries.
pub proof fn law_claude_registration_idempotent(settings: JsonV, cmd: Seq<char>)
    requires
        claude_registered(settings, cmd) is Ok,
    ensures
        claude_registered(claude_registered(settings, cmd)->Ok_0, cmd) == claude_registered(
            settings,
            cmd,
        ),
{
    let es = settings->Object_0;
    let hs = value_or(es, "hooks"@, JsonV::Object(Seq::empty()))->Object_0;
    let adds = claude_events().map_values(|ev: Seq<char>| claude_groups(ev, cmd));
    let h2 = register_events(hs, claude_events(), adds, cmd, claude_marker())->0;
    assert forall|k: int, i: int|
        0 <= k < adds.len() && 0 <= i < adds[k].len() implies has_our_hook(
        #[trigger] adds[k][i],
        cmd,
        claude_marker(),
    ) by {
        let ev = claude_events()[k];
        assert(adds[k] == claude_groups(ev, cmd));
        if ev == "PreToolUse"@ || ev == "PostToolUse"@ || ev == "PermissionRequest"@ {
            lemma_hook_group_ours(Some("*"@), cmd, claude_marker());
        } else if ev == "PreCompact"@ {
            lemma_hook_group_ours(Some("auto"@), cmd, claude_marker());
            lemma_hook_group_ours(Some("manual"@), cmd, claude_marker());
        } else {
            lemma_hook_group_ours(None, cmd, claude_marker());
        }
    }
    lemma_claude_events_distinct();
    lemma_register_events_idem(hs, claude_events(), adds, cmd, claude_marker());
    lemma_put_get(es, "hooks"@, JsonV::Object(h2));
}

/// The hook list of event `e` in hooks `x`: empty when `x` has none.
pub open spec fn event_list(x: Seq<(Seq<char>, JsonV)>, e: Seq<char>) -> Seq<JsonV> {
    match value_or(x, e, JsonV::Array(Seq::empty())) {
        JsonV::Array(a) => a,
        _ => Seq::empty(),
    }
}

/// After registering distinct events, each event's list is its former
/// foreign entries, in their order, followed by the groups added for it.
proof fn lemma_register_events_layout(
    x: Seq<(Seq<char>, JsonV)>,
    evs: Seq<Seq<char>>,
    adds: Seq<Seq<JsonV>>,
    cmd: Seq<char>,
    marker: Seq<char>,
)
    requires
        evs.no_duplicates(),
        adds.len() == evs.len(),
        register_events(x, evs, adds, cmd, marker) is Some,
    ensures
        forall|k: int|
            0 <= k < evs.len() ==> value_or(
                register_events(x, evs, adds, cmd, marker)->0,
                #[trigger] evs[k],
                JsonV::Null,
            ) == JsonV::Array(kept(event_list(x, evs[k]), cmd, marker) + adds[k]),
    decreases evs.len(),
{
    if evs.len() > 0 {
        let e = evs[0];
        let add = adds[0];
        let x1 = register_event(x, e, add, cmd, marker)->0;
        let rest = evs.drop_first();
        let y = register_events(x1, rest, adds.drop_first(), cmd, marker)->0;
        assert(rest.no_duplicates());
        lemma_register_events_layout(x1, rest, adds.drop_first(), cmd, marker);
        assert(!rest.contains(e)) by {
            if rest.contains(e) {
                let k = choose|k: int| 0 <= k < rest.len() && rest[k] == e;
                assert(evs[k + 1] == evs[0]);
            }
        }
        lemma_register_events_keeps(x1, rest, adds.drop_first(), cmd, marker, e);
        lemma_key_pos_from(x, e, 0);
        match key_pos(x, e) {
            None => {
                lemma_key_pos_push(x, (e, JsonV::Array(add)), e, 0);
                assert(x1[x.len() as int] == (e, JsonV::Array(add)));
                assert(kept(Seq::<JsonV>::empty(), cmd, marker) + add =~= add) by {
                    reveal(Seq::filter);
                }
            },
            Some(j) => {
                lemma_key_pos_same_keys(x, x1, e, 0);
            },
        }
        assert(value_or(y, e, JsonV::Null) == JsonV::Array(kept(event_list(x, e), cmd, marker) + add));
        assert forall|k: int| 0 <= k < evs.len() implies value_or(y, #[trigger] evs[k], JsonV::Null)
            == JsonV::Array(kept(event_list(x, evs[k]), cmd, marker) + adds[k]) by {
            if k > 0 {
                assert(evs[k] == rest[k - 1]);
                assert(adds[k] == adds.drop_first()[k - 1]);
                assert(evs[k] != e);
                proof_key_after_event(x, e, add, cmd, marker, evs[k]);
                assert(event_list(x1, evs[k]) == event_list(x, evs[k]));
            }
        }
    }
}

/// After the pet's hook is registered in the cc client's settings, each
/// listened event's list holds its former entries that are not the
/// pet's, in their order, followed by the pet's groups for that event
/// (see `claude_groups`).
pub proof fn law_claude_registration_layout(settings: JsonV, cmd: Seq<char>)
    requires
        claude_registered(settings, cmd) is Ok,
    ensures
        ({
            let before = value_or(settings->Object_0, "hooks"@, JsonV::Object(Seq::empty()))->Object_0;
            let after = value_or(
                claude_registered(settings, cmd)->Ok_0->Object_0,
                "hooks"@,
                JsonV::Null,
            )->Object_0;
            forall|k: int|
                0 <= k < claude_events().len() ==> value_or(
                    after,
                    #[trigger] claude_events()[k],
                    JsonV::Null,
                ) == JsonV::Array(
                    kept(event_list(before, claude_events()[k]), cmd, claude_marker()) + claude_groups(
                        claude_events()[k],
                        cmd,
                    ),
                )
        }),
{
    let es = settings->Object_0;
    let hs = value_or(es, "hooks"@, JsonV::Object(Seq::empty()))->Object_0;
    let adds = claude_events().map_values(|ev: Seq<char>| claude_groups(ev, cmd));
    let h2 = register_events(hs, claude_events(), adds, cmd, claude_marker())->0;
    lemma_claude_events_distinct();
    lemma_register_events_layout(hs, claude_events(), adds, cmd, claude_marker());
    lemma_put_get(es, "hooks"@, JsonV::Object(h2));
    assert forall|k: int| 0 <= k < claude_events().len() implies adds[k] == claude_groups(
        #[trigger] claude_events()[k],
        cmd,
    ) by {}
}

/// Registering the pet's hook in Codex's hooks file a second time changes
/// nothing.
pub proof fn law_codex_registration_idempotent(config: JsonV, cmd: Seq<char>)
    requires
        codex_registered(config, cmd) is Ok,
    ensures
        codex_registered(codex_registered(config, cmd)->Ok_0, cmd) == codex_registered(
            config,
            cmd,
        ),
{
    let es = match config {
        JsonV::Object(es) => es,
        _ => Seq::empty(),
    };
    let hs = value_or(es, "hooks"@, JsonV::Object(Seq::empty()))->Object_0;
    let adds = codex_events().map_values(|ev: Seq<char>| seq![hook_group(None, cmd)]);
    let h2 = register_events(hs, codex_events(), adds, cmd, codex_marker())->0;
    assert forall|k: int, i: int|
        0 <= k < adds.len() && 0 <= i < adds[k].len() implies has_our_hook(
        #[trigger] adds[k][i],
        cmd,
        codex_marker(),
    ) by {
        lemma_hook_group_ours(None, cmd, codex_marker());
    }
    lemma_codex_events_distinct();
    lemma_register_events_idem(hs, codex_events(), adds, cmd, codex_marker());
    lemma_put_get(es, "hooks"@, JsonV::Object(h2));
}

// ---------------------------------------------------------------------
// Re-registering the Cursor hook
// ---------------------------------------------------------------------

proof fn lemma_first_marker(a: Seq<JsonV>, m: Seq<char>, i: int)
    requires
        0 <= i,
    ensures
        first_marker(a, m, i) matches Some(k) ==> i <= k < a.len() && marker_command(a[k], m) && (
        forall|q: int| i <= q < k ==> !marker_command(#[trigger] a[q], m)),
        first_marker(a, m, i) is None ==> forall|q: int|
            i <= q < a.len() ==> !marker_command(#[trigger] a[q], m),
    decreases a.len() - i,
{
    if i < a.len() && !marker_command(a[i], m) {
        lemma_first_marker(a, m, i + 1);
    }
}

proof fn lemma_first_marker_at(a: Seq<JsonV>, m: Seq<char>, k: int, i: int)
    requires
        0 <= i <= k < a.len(),
        marker_command(a[k], m),
        forall|q: int| i <= q < k ==> !marker_command(#[trigger] a[q], m),
    ensures
        first_marker(a, m, i) == Some(k),
    decreases k - i,
{
    if i < k {
        lemma_first_marker_at(a, m, k, i + 1);
    }
}

proof fn lemma_entry_marked(cmd: Seq<char>, m: Seq<char>)
    requires
        contains(cmd, m),
    ensures
        marker_command(cursor_entry(cmd), m),
{
    let es = seq![("command"@, JsonV::Str(cmd))];
    assert(es[0].0 == "command"@);
    assert(entry_value(es, "command"@) == Some(JsonV::Str(cmd)));
}

/// Registering event `ev` again changes nothing.
spec fn settled(h: Seq<(Seq<char>, JsonV)>, ev: Seq<char>, cmd: Seq<char>, m: Seq<char>) -> bool {
    cursor_event(h, ev, cmd, m) == Some(h)
}

proof fn lemma_settle(h: Seq<(Seq<char>, JsonV)>, ev: Seq<char>, cmd: Seq<char>, m: Seq<char>)
    requires
        contains(cmd, m),
        cursor_event(h, ev, cmd, m) is Some,
    ensures
        settled(cursor_event(h, ev, cmd, m)->Some_0, ev, cmd, m),
{
    let h2 = cursor_event(h, ev, cmd, m)->Some_0;
    let e = cursor_entry(cmd);
    lemma_entry_marked(cmd, m);
    lemma_key_pos_from(h, ev, 0);
    match key_pos(h, ev) {
        None => {
            lemma_key_pos_push(h, (ev, JsonV::Array(seq![e])), ev, 0);
            let n = h.len() as int;
            assert(key_pos(h2, ev) == Some(n));
            assert(h2[n] == (ev, JsonV::Array(seq![e])));
            lemma_first_marker_at(seq![e], m, 0, 0);
            assert(seq![e].update(0, e) =~= seq![e]);
            assert(h2.update(n, (ev, JsonV::Array(seq![e]))) =~= h2);
        },
        Some(i) => {
            let a = h[i].1->Array_0;
            lemma_first_marker(a, m, 0);
            let a2 = match first_marker(a, m, 0) {
                Some(j) => a.update(j, e),
                None => a.push(e),
            };
            assert(h2 == h.update(i, (ev, JsonV::Array(a2))));
            lemma_key_pos_same_keys(h, h2, ev, 0);
            match first_marker(a, m, 0) {
                Some(j) => {
                    assert forall|q: int| 0 <= q < j implies !marker_command(#[trigger] a2[q], m) by {
                        assert(a2[q] == a[q]);
                    }
                    lemma_first_marker_at(a2, m, j, 0);
                    assert(a2.update(j, e) =~= a2);
                },
                None => {
                    let n = a.len() as int;
                    assert forall|q: int| 0 <= q < n implies !marker_command(#[trigger] a2[q], m) by {
                        assert(a2[q] == a[q]);
                    }
                    lemma_first_marker_at(a2, m, n, 0);
                    assert(a2.update(n, e) =~= a2);
                },
            }
            assert(h2.update(i, (ev, JsonV::Array(a2))) =~= h2);
        },
    }
}

/// Registering another event keeps an event that is settled settled.
proof fn lemma_other_settled(
    h: Seq<(Seq<char>, JsonV)>,
    ev: Seq<char>,
    ev2: Seq<char>,
    cmd: Seq<char>,
    m: Seq<char>,
)
    requires
        ev != ev2,
        settled(h, ev, cmd, m),
        cursor_event(h, ev2, cmd, m) is Some,
    ensures
        settled(cursor_event(h, ev2, cmd, m)->Some_0, ev, cmd, m),
{
    let h2 = cursor_event(h, ev2, cmd, m)->Some_0;
    lemma_key_pos_from(h, ev, 0);
    lemma_key_pos_from(h, ev2, 0);
    let i = key_pos(h, ev)->Some_0;
    assert(h.update(i, h[i]) =~= h);
    match key_pos(h, ev2) {
        None => {
            lemma_key_pos_push(h, (ev2, JsonV::Array(seq![cursor_entry(cmd)])), ev, 0);
            assert(h2[i] == h[i]);
            assert(h2.update(i, h2[i]) =~= h2);
        },
        Some(i2) => {
            lemma_key_pos_same_keys(h, h2, ev, 0);
            assert(i2 != i);
            assert(h2[i] == h[i]);
            assert(h2.update(i, h2[i]) =~= h2);
        },
    }
}

proof fn lemma_stays_settled(
    h: Seq<(Seq<char>, JsonV)>,
    ev: Seq<char>,
    evs: Seq<Seq<char>>,
    cmd: Seq<char>,
    m: Seq<char>,
)
    requires
        settled(h, ev, cmd, m),
        !evs.contains(ev),
        cursor_events_applied(h, evs, cmd, m) is Some,
    ensures
        settled(cursor_events_applied(h, evs, cmd, m)->Some_0, ev, cmd, m),
    decreases evs.len(),
{
    if evs.len() > 0 {
        assert(evs[0] != ev);
        lemma_other_settled(h, ev, evs[0], cmd, m);
        let h2 = cursor_event(h, evs[0], cmd, m)->Some_0;
        assert forall|k: int| 0 <= k < evs.drop_first().len() implies evs.drop_first()[k] != ev by {
            assert(evs.drop_first()[k] == evs[k + 1]);
        }
        lemma_stays_settled(h2, ev, evs.drop_first(), cmd, m);
    }
}

proof fn lemma_applied_settles(
    h: Seq<(Seq<char>, JsonV)>,
    evs: Seq<Seq<char>>,
    cmd: Seq<char>,
    m: Seq<char>,
)
    requires
        evs.no_duplicates(),
        contains(cmd, m),
        cursor_events_applied(h, evs, cmd, m) is Some,
    ensures
        forall|k: int|
            0 <= k < evs.len() ==> settled(
                cursor_events_applied(h, evs, cmd, m)->Some_0,
                #[trigger] evs[k],
                cmd,
                m,
            ),
    decreases evs.len(),
{
    if evs.len() > 0 {
        let h2 = cursor_event(h, evs[0], cmd, m)->Some_0;
        let rest = evs.drop_first();
        assert(rest.no_duplicates()) by {
            assert forall|x: int, y: int| 0 <= x < rest.len() && 0 <= y < rest.len() && x != y
                implies rest[x] != rest[y] by {
                assert(rest[x] == evs[x + 1] && rest[y] == evs[y + 1]);
            }
        }
        lemma_applied_settles(h2, rest, cmd, m);
        lemma_settle(h, evs[0], cmd, m);
        assert(!rest.contains(evs[0])) by {
            if rest.contains(evs[0]) {
                let k = choose|k: int| 0 <= k < rest.len() && rest[k] == evs[0];
                assert(evs[k + 1] == evs[0]);
            }
        }
        lemma_stays_settled(h2, evs[0], rest, cmd, m);
        assert forall|k: int| 0 <= k < evs.len() implies settled(
            cursor_events_applied(h, evs, cmd, m)->Some_0,
            #[trigger] evs[k],
            cmd,
            m,
        ) by {
            if k > 0 {
                assert(evs[k] == rest[k - 1]);
            }
        }
    }
}

proof fn lemma_settled_fixed(
    h: Seq<(Seq<char>, JsonV)>,
    evs: Seq<Seq<char>>,
    cmd: Seq<char>,
    m: Seq<char>,
)
    requires
        forall|k: int| 0 <= k < evs.len() ==> settled(h, #[trigger] evs[k], cmd, m),
    ensures
        cursor_events_applied(h, evs, cmd, m) == Some(h),
    decreases evs.len(),
{
    if evs.len() > 0 {
        assert(settled(h, evs[0], cmd, m));
        assert forall|k: int| 0 <= k < evs.drop_first().len() implies settled(
            h,
            #[trigger] evs.drop_first()[k],
            cmd,
            m,
        ) by {
            assert(evs.drop_first()[k] == evs[k + 1]);
        }
        lemma_settled_fixed(h, evs.drop_first(), cmd, m);
    }
}

/// One stale event's list without the pet's entries.
spec fn clean_step(hs: Seq<(Seq<char>, JsonV)>, ev: Seq<char>, m: Seq<char>) -> Seq<
    (Seq<char>, JsonV),
> {
    match key_pos(hs, ev) {
        Some(i) => match hs[i].1 {
            JsonV::Array(a) => hs.update(i, (ev, JsonV::Array(without_marker(a, m)))),
            _ => hs,
        },
        None => hs,
    }
}

/// The stale event's list holds none of the pet's entries.
spec fn clean_at(hs: Seq<(Seq<char>, JsonV)>, ev: Seq<char>, m: Seq<char>) -> bool {
    clean_step(hs, ev, m) == hs
}

proof fn lemma_clean_step_cleans(hs: Seq<(Seq<char>, JsonV)>, ev: Seq<char>, m: Seq<char>)
    ensures
        clean_at(clean_step(hs, ev, m), ev, m),
{
    lemma_key_pos_from(hs, ev, 0);
    match key_pos(hs, ev) {
        Some(i) => match hs[i].1 {
            JsonV::Array(a) => {
                let h2 = clean_step(hs, ev, m);
                lemma_key_pos_same_keys(hs, h2, ev, 0);
                lemma_filter_idem(a, |e: JsonV| !marker_command(e, m));
                assert(h2.update(i, (ev, JsonV::Array(without_marker(without_marker(a, m), m))))
                    =~= h2);
            },
            _ => {},
        },
        None => {},
    }
}

/// A change at the first entry of `ev2` (keeping its key) or a new entry
/// for `ev2` keeps the position and the entry of every other key.
proof fn lemma_other_key_kept(
    h: Seq<(Seq<char>, JsonV)>,
    h2: Seq<(Seq<char>, JsonV)>,
    ev: Seq<char>,
    ev2: Seq<char>,
)
    requires
        ev != ev2,
        (key_pos(h, ev2) matches Some(i2) && h2 == h.update(i2, (ev2, h2[i2].1))) || (key_pos(
            h,
            ev2,
        ) is None && h2.len() == h.len() + 1 && h2.drop_last() == h && h2.last().0 == ev2),
    ensures
        key_pos(h2, ev) == key_pos(h, ev),
        key_pos(h, ev) matches Some(i) ==> h2[i] == h[i],
{
    lemma_key_pos_from(h, ev, 0);
    lemma_key_pos_from(h, ev2, 0);
    match key_pos(h, ev2) {
        Some(i2) => {
            lemma_key_pos_same_keys(h, h2, ev, 0);
        },
        None => {
            assert(h2 == h.push(h2.last()));
            lemma_key_pos_push(h, h2.last(), ev, 0);
        },
    }
}

proof fn lemma_clean_kept(h: Seq<(Seq<char>, JsonV)>, h2: Seq<(Seq<char>, JsonV)>, ev: Seq<char>, m: Seq<char>)
    requires
        clean_at(h, ev, m),
        key_pos(h2, ev) == key_pos(h, ev),
        key_pos(h, ev) matches Some(i) ==> h2[i] == h[i],
    ensures
        clean_at(h2, ev, m),
{
    lemma_key_pos_from(h, ev, 0);
    lemma_key_pos_from(h2, ev, 0);
    match key_pos(h, ev) {
        Some(i) => match h[i].1 {
            JsonV::Array(a) => {
                assert(h.update(i, (ev, JsonV::Array(without_marker(a, m))))[i] == h[i]);
                assert(h2.update(i, (ev, JsonV::Array(without_marker(a, m)))) =~= h2);
            },
            _ => {},
        },
        None => {},
    }
}

proof fn lemma_clean_stays(h: Seq<(Seq<char>, JsonV)>, ev: Seq<char>, evs: Seq<Seq<char>>, m: Seq<char>)
    requires
        clean_at(h, ev, m),
        !evs.contains(ev),
    ensures
        clean_at(clean_stale(h, evs, m), ev, m),
    decreases evs.len(),
{
    if evs.len() > 0 {
        assert(evs[0] != ev);
        let h2 = clean_step(h, evs[0], m);
        lemma_key_pos_from(h, evs[0], 0);
        if h2 != h {
            let i2 = key_pos(h, evs[0])->Some_0;
            lemma_other_key_kept(h, h2, ev, evs[0]);
        }
        lemma_clean_kept(h, h2, ev, m);
        assert forall|k: int| 0 <= k < evs.drop_first().len() implies evs.drop_first()[k] != ev by {
            assert(evs.drop_first()[k] == evs[k + 1]);
        }
        lemma_clean_stays(h2, ev, evs.drop_first(), m);
    }
}

proof fn lemma_clean_stale_cleans(h: Seq<(Seq<char>, JsonV)>, evs: Seq<Seq<char>>, m: Seq<char>)
    requires
        evs.no_duplicates(),
    ensures
        forall|k: int| 0 <= k < evs.len() ==> clean_at(clean_stale(h, evs, m), #[trigger] evs[k], m),
    decreases evs.len(),
{
    if evs.len() > 0 {
        let h2 = clean_step(h, evs[0], m);
        let rest = evs.drop_first();
        assert(rest.no_duplicates()) by {
            assert forall|x: int, y: int| 0 <= x < rest.len() && 0 <= y < rest.len() && x != y
                implies rest[x] != rest[y] by {
                assert(rest[x] == evs[x + 1] && rest[y] == evs[y + 1]);
            }
        }
        lemma_clean_stale_cleans(h2, rest, m);
        lemma_clean_step_cleans(h, evs[0], m);
        assert(!rest.contains(evs[0])) by {
            if rest.contains(evs[0]) {
                let k = choose|k: int| 0 <= k < rest.len() && rest[k] == evs[0];
                assert(evs[k + 1] == evs[0]);
            }
        }
        lemma_clean_stays(h2, evs[0], rest, m);
        assert forall|k: int| 0 <= k < evs.len() implies clean_at(
            clean_stale(h, evs, m),
            #[trigger] evs[k],
            m,
        ) by {
            if k > 0 {
                assert(evs[k] == rest[k - 1]);
            }
        }
    }
}

proof fn lemma_clean_after_applied(
    h: Seq<(Seq<char>, JsonV)>,
    ev: Seq<char>,
    evs: Seq<Seq<char>>,
    cmd: Seq<char>,
    m: Seq<char>,
)
    requires
        clean_at(h, ev, m),
        !evs.contains(ev),
        cursor_events_applied(h, evs, cmd, m) is Some,
    ensures
        clean_at(cursor_events_applied(h, evs, cmd, m)->Some_0, ev, m),
    decreases evs.len(),
{
    if evs.len() > 0 {
        assert(evs[0] != ev);
        let h2 = cursor_event(h, evs[0], cmd, m)->Some_0;
        lemma_key_pos_from(h, evs[0], 0);
        match key_pos(h, evs[0]) {
            Some(i2) => {
                assert(h2 == h.update(i2, (evs[0], h2[i2].1)));
            },
            None => {
                assert(h2.drop_last() =~= h);
            },
        }
        lemma_other_key_kept(h, h2, ev, evs[0]);
        lemma_clean_kept(h, h2, ev, m);
        assert forall|k: int| 0 <= k < evs.drop_first().len() implies evs.drop_first()[k] != ev by {
            assert(evs.drop_first()[k] == evs[k + 1]);
        }
        lemma_clean_after_applied(h2, ev, evs.drop_first(), cmd, m);
    }
}

proof fn lemma_clean_fixed(h: Seq<(Seq<char>, JsonV)>, evs: Seq<Seq<char>>, m: Seq<char>)
    requires
        forall|k: int| 0 <= k < evs.len() ==> clean_at(h, #[trigger] evs[k], m),
    ensures
        clean_stale(h, evs, m) == h,
    decreases evs.len(),
{
    if evs.len() > 0 {
        assert(clean_at(h, evs[0], m));
        assert forall|k: int| 0 <= k < evs.drop_first().len() implies clean_at(
            h,
            #[trigger] evs.drop_first()[k],
            m,
        ) by {
            assert(evs.drop_first()[k] == evs[k + 1]);
        }
        lemma_clean_fixed(h, evs.drop_first(), m);
    }
}

proof fn lemma_cursor_lists_distinct()
    ensures
        cursor_events().no_duplicates(),
        stale_cursor_events().no_duplicates(),
        forall|k: int, l: int|
            0 <= k < stale_cursor_events().len() && 0 <= l < cursor_events().len()
                ==> #[trigger] stale_cursor_events()[k] != #[trigger] cursor_events()[l],
{
    reveal_strlit("beforeSubmitPrompt");
    reveal_strlit("stop");
    reveal_strlit("beforeShellExecution");
    reveal_strlit("afterShellExecution");
    reveal_strlit("beforeMCPExecution");
    reveal_strlit("afterMCPExecution");
    reveal_strlit("afterFileEdit");
    reveal_strlit("beforeReadFile");
    reveal_strlit("afterAgentThought");
    reveal_strlit("afterAgentResponse");
    reveal_strlit("sessionStart");
    reveal_strlit("sessionEnd");
    reveal_strlit("preToolUse");
    reveal_strlit("postToolUse");
    reveal_strlit("postToolUseFailure");
    reveal_strlit("subagentStart");
    reveal_strlit("subagentStop");
    reveal_strlit("preCompact");
    let c = cursor_events();
    let s = stale_cursor_events();
    assert forall|i: int, j: int| 0 <= i < c.len() && 0 <= j < c.len() && i != j implies c[i]
        != c[j] by {
        if c[i].len() == c[j].len() {
            assert(c[i][0] != c[j][0] || c[i][1] != c[j][1] || c[i][6] != c[j][6] || c[i][7]
                != c[j][7] || c[i][5] != c[j][5]);
        }
    }
    assert forall|i: int, j: int| 0 <= i < s.len() && 0 <= j < s.len() && i != j implies s[i]
        != s[j] by {
        if s[i].len() == s[j].len() {
            assert(s[i][0] != s[j][0] || s[i][1] != s[j][1] || s[i][8] != s[j][8] || s[i][3]
                != s[j][3]);
        }
    }
    assert forall|k: int, l: int| 0 <= k < s.len() && 0 <= l < c.len() implies s[k] != c[l] by {
        if s[k].len() == c[l].len() {
            assert(s[k][0] != c[l][0] || s[k][1] != c[l][1]);
        }
    }
}

/// Registering the pet's hook in Cursor's hooks file a second time
/// changes nothing (the hook command names the pet's Cursor script).
pub proof fn law_cursor_registration_idempotent(config: JsonV, cmd: Seq<char>)
    requires
        cursor_registered(config, cmd) is Ok,
        contains(cmd, cursor_marker()),
    ensures
        cursor_registered(cursor_registered(config, cmd)->Ok_0, cmd) == cursor_registered(
            config,
            cmd,
        ),
{
    let m = cursor_marker();
    let es0 = match config {
        JsonV::Object(es) => es,
        _ => Seq::empty(),
    };
    let ver = JsonV::Num(Some(1), "1"@);
    let es = put(es0, "version"@, ver);
    let hs = value_or(es, "hooks"@, JsonV::Object(Seq::empty()))->Object_0;
    let hc = clean_stale(hs, stale_cursor_events(), m);
    let hf = cursor_events_applied(hc, cursor_events(), cmd, m)->Some_0;
    let out = put(es, "hooks"@, JsonV::Object(hf));
    assert(cursor_registered(config, cmd) == Ok::<JsonV, Seq<char>>(JsonV::Object(out)));
    // The version stays as it is.
    reveal_strlit("version");
    reveal_strlit("hooks");
    assert("version"@ != "hooks"@) by {
        assert("version"@[0] != "hooks"@[0]);
    }
    lemma_key_pos_from(es0, "version"@, 0);
    lemma_key_pos_from(es, "version"@, 0);
    lemma_key_pos_from(es, "hooks"@, 0);
    assert(key_pos(es, "version"@) is Some) by {
        match key_pos(es0, "version"@) {
            Some(i) => {
                lemma_key_pos_same_keys(es0, es, "version"@, 0);
            },
            None => {
                lemma_key_pos_push(es0, ("version"@, ver), "version"@, 0);
            },
        }
    }
    let iv = key_pos(es, "version"@)->Some_0;
    assert(es[iv] == ("version"@, ver)) by {
        match key_pos(es0, "version"@) {
            Some(i) => {
                lemma_key_pos_same_keys(es0, es, "version"@, 0);
            },
            None => {
                lemma_key_pos_push(es0, ("version"@, ver), "version"@, 0);
            },
        }
    }
    match key_pos(es, "hooks"@) {
        Some(ih) => {
            assert(out == es.update(ih, ("hooks"@, out[ih].1)));
        },
        None => {
            assert(out.drop_last() =~= es);
        },
    }
    lemma_other_key_kept(es, out, "version"@, "hooks"@);
    assert(out.update(iv, ("version"@, ver)) =~= out);
    assert(put(out, "version"@, ver) == out);
    lemma_put_get(es, "hooks"@, JsonV::Object(hf));
    // The stale lists stay clean and every listened event stays settled.
    lemma_cursor_lists_distinct();
    lemma_clean_stale_cleans(hs, stale_cursor_events(), m);
    assert forall|k: int| 0 <= k < stale_cursor_events().len() implies clean_at(
        hf,
        #[trigger] stale_cursor_events()[k],
        m,
    ) by {
        let ev = stale_cursor_events()[k];
        assert(!cursor_events().contains(ev)) by {
            if cursor_events().contains(ev) {
                let l = choose|l: int| 0 <= l < cursor_events().len() && cursor_events()[l] == ev;
                assert(stale_cursor_events()[k] != cursor_events()[l]);
            }
        }
        lemma_clean_after_applied(hc, ev, cursor_events(), cmd, m);
    }
    lemma_clean_fixed(hf, stale_cursor_events(), m);
    lemma_applied_settles(hc, cursor_events(), cmd, m);
    lemma_settled_fixed(hf, cursor_events(), cmd, m);
}


// ---------------------------------------------------------------------
// Every Cursor event carries the pet's command
// ---------------------------------------------------------------------

/// The list of event `ev` in `hooks` holds the entry `{"command": cmd}`.
pub open spec fn lists_command(hooks: Seq<(Seq<char>, JsonV)>, ev: Seq<char>, cmd: Seq<char>) -> bool {
    match value_or(hooks, ev, JsonV::Null) {
        JsonV::Array(a) => a.contains(JsonV::Object(seq![("command"@, JsonV::Str(cmd))])),
        _ => false,
    }
}

proof fn lemma_cursor_event_keeps(
    h: Seq<(Seq<char>, JsonV)>,
    ev: Seq<char>,
    cmd: Seq<char>,
    m: Seq<char>,
    e: Seq<char>,
)
    requires
        e != ev,
        cursor_event(h, ev, cmd, m) is Some,
    ensures
        ({
            let h2 = cursor_event(h, ev, cmd, m)->Some_0;
            &&& key_pos(h2, e) == key_pos(h, e)
            &&& key_pos(h, e) matches Some(i) ==> h2[i] == h[i]
        }),
{
    let h2 = cursor_event(h, ev, cmd, m)->Some_0;
    lemma_key_pos_from(h, e, 0);
    lemma_key_pos_from(h, ev, 0);
    match key_pos(h, ev) {
        None => {
            lemma_key_pos_push(h, (ev, JsonV::Array(seq![cursor_entry(cmd)])), e, 0);
        },
        Some(j) => {
            lemma_key_pos_same_keys(h, h2, e, 0);
        },
    }
}

proof fn lemma_cursor_applied_keeps(
    h: Seq<(Seq<char>, JsonV)>,
    evs: Seq<Seq<char>>,
    cmd: Seq<char>,
    m: Seq<char>,
    e: Seq<char>,
)
    requires
        !evs.contains(e),
        cursor_events_applied(h, evs, cmd, m) is Some,
    ensures
        lists_command(h, e, cmd) ==> lists_command(cursor_events_applied(h, evs, cmd, m)->Some_0, e, cmd),
    decreases evs.len(),
{
    if evs.len() > 0 {
        assert(evs[0] != e);
        lemma_cursor_event_keeps(h, evs[0], cmd, m, e);
        let h2 = cursor_event(h, evs[0], cmd, m)->Some_0;
        assert(value_or(h2, e, JsonV::Null) == value_or(h, e, JsonV::Null));
        assert forall|q: Seq<char>| evs.drop_first().contains(q) implies evs.contains(q) by {
            let k = choose|k: int| 0 <= k < evs.drop_first().len() && evs.drop_first()[k] == q;
            assert(evs[k + 1] == q);
        }
        lemma_cursor_applied_keeps(h2, evs.drop_first(), cmd, m, e);
    }
}

proof fn lemma_cursor_event_lists(h: Seq<(Seq<char>, JsonV)>, ev: Seq<char>, cmd: Seq<char>, m: Seq<char>)
    requires
        cursor_event(h, ev, cmd, m) is Some,
    ensures
        lists_command(cursor_event(h, ev, cmd, m)->Some_0, ev, cmd),
{
    let h2 = cursor_event(h, ev, cmd, m)->Some_0;
    let e = cursor_entry(cmd);
    lemma_key_pos_from(h, ev, 0);
    match key_pos(h, ev) {
        None => {
            lemma_key_pos_push(h, (ev, JsonV::Array(seq![e])), ev, 0);
            assert(h2[h.len() as int] == (ev, JsonV::Array(seq![e])));
            assert(seq![e][0] == e);
        },
        Some(i) => {
            lemma_key_pos_same_keys(h, h2, ev, 0);
            let a = h[i].1->Array_0;
            match first_marker(a, m, 0) {
                Some(j) => {
                    lemma_first_marker(a, m, 0);
                    assert(a.update(j, e)[j] == e);
                },
                None => {
                    assert(a.push(e)[a.len() as int] == e);
                },
            }
        },
    }
}

proof fn lemma_cursor_applied_lists(
    h: Seq<(Seq<char>, JsonV)>,
    evs: Seq<Seq<char>>,
    cmd: Seq<char>,
    m: Seq<char>,
)
    requires
        evs.no_duplicates(),
        cursor_events_applied(h, evs, cmd, m) is Some,
    ensures
        forall|k: int|
            0 <= k < evs.len() ==> lists_command(
                cursor_events_applied(h, evs, cmd, m)->Some_0,
                #[trigger] evs[k],
                cmd,
            ),
    decreases evs.len(),
{
    if evs.len() > 0 {
        let h2 = cursor_event(h, evs[0], cmd, m)->Some_0;
        let rest = evs.drop_first();
        assert(rest.no_duplicates()) by {
            assert forall|x: int, y: int| 0 <= x < rest.len() && 0 <= y < rest.len() && x != y
                implies rest[x] != rest[y] by {
                assert(rest[x] == evs[x + 1] && rest[y] == evs[y + 1]);
            }
        }
        lemma_cursor_applied_lists(h2, rest, cmd, m);
        lemma_cursor_event_lists(h, evs[0], cmd, m);
        assert(!rest.contains(evs[0])) by {
            if rest.contains(evs[0]) {
                let k = choose|k: int| 0 <= k < rest.len() && rest[k] == evs[0];
                assert(evs[k + 1] == evs[0]);
            }
        }
        lemma_cursor_applied_keeps(h2, rest, cmd, m, evs[0]);
        assert forall|k: int| 0 <= k < evs.len() implies lists_command(
            cursor_events_applied(h, evs, cmd, m)->Some_0,
            #[trigger] evs[k],
            cmd,
        ) by {
            if k > 0 {
                assert(evs[k] == rest[k - 1]);
            }
        }
    }
}

/// After the pet's hook is registered in Cursor's hooks file, each of the
/// ten events Cursor reports (`beforeSubmitPrompt`, `stop`,
/// `beforeShellExecution`, `afterShellExecution`, `beforeMCPExecution`,
/// `afterMCPExecution`, `afterFileEdit`, `beforeReadFile`,
/// `afterAgentThought`, `afterAgentResponse`) has a list holding the
/// entry `{"command": cmd}`.
pub proof fn law_cursor_registration_covers_events(config: JsonV, cmd: Seq<char>)
    requires
        cursor_registered(config, cmd) is Ok,
    ensures
        ({
            let after = value_or(
                cursor_registered(config, cmd)->Ok_0->Object_0,
                "hooks"@,
                JsonV::Null,
            )->Object_0;
            &&& lists_command(after, "beforeSubmitPrompt"@, cmd)
            &&& lists_command(after, "stop"@, cmd)
            &&& lists_command(after, "beforeShellExecution"@, cmd)
            &&& lists_command(after, "afterShellExecution"@, cmd)
            &&& lists_command(after, "beforeMCPExecution"@, cmd)
            &&& lists_command(after, "afterMCPExecution"@, cmd)
            &&& lists_command(after, "afterFileEdit"@, cmd)
            &&& lists_command(after, "beforeReadFile"@, cmd)
            &&& lists_command(after, "afterAgentThought"@, cmd)
            &&& lists_command(after, "afterAgentResponse"@, cmd)
        }),
{
    let m = cursor_marker();
    let es0 = match config {
        JsonV::Object(es) => es,
        _ => Seq::empty(),
    };
    let es = put(es0, "version"@, JsonV::Num(Some(1), "1"@));
    let hs = value_or(es, "hooks"@, JsonV::Object(Seq::empty()))->Object_0;
    let hc = clean_stale(hs, stale_cursor_events(), m);
    let hf = cursor_events_applied(hc, cursor_events(), cmd, m)->Some_0;
    lemma_cursor_lists_distinct();
    lemma_cursor_applied_lists(hc, cursor_events(), cmd, m);
    lemma_put_get(es, "hooks"@, JsonV::Object(hf));
    let ev = cursor_events();
    assert(lists_command(hf, ev[0], cmd));
    assert(lists_command(hf, ev[1], cmd));
    assert(lists_command(hf, ev[2], cmd));
    assert(lists_command(hf, ev[3], cmd));
    assert(lists_command(hf, ev[4], cmd));
    assert(lists_command(hf, ev[5], cmd));
    assert(lists_command(hf, ev[6], cmd));
    assert(lists_command(hf, ev[7], cmd));
    assert(lists_command(hf, ev[8], cmd));
    assert(lists_command(hf, ev[9], cmd));
}

} // verus!
