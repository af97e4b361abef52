//! JSON values as the library reads them, with their mathematical view.
//!
//! Text is parsed and printed outside the library; the library receives
//! values of this type and hands them back.
use vstd::prelude::*;
use crate::text::{chars_of, string_of};

verus! {

broadcast use vstd::string::group_string_axioms;

/// A JSON number: its value when it is a non-negative integer that fits in
/// `u64` (what `as_u64` reads), and its text as JSON writes it.
#[derive(Debug, PartialEq, Eq)]
pub struct JsonNumber {
    pub as_u64: Option<u64>,
    pub text: String,
}

/// A JSON value.  Objects keep their entries in order; keys are distinct.
#[derive(Debug, PartialEq, Eq)]
pub enum Json {
    Null,
    Bool(bool),
    Num(JsonNumber),
    Str(String),
    Array(Vec<Json>),
    Object(Vec<(String, Json)>),
}

/// The mathematical view of a JSON value.
pub enum JsonV {
    Null,
    Bool(bool),
    Num(Option<u64>, Seq<char>),
    Str(Seq<char>),
    Array(Seq<JsonV>),
    Object(Seq<(Seq<char>, JsonV)>),
}

pub open spec fn jv(j: Json) -> JsonV
    decreases j,
{
    match j {
        Json::Null => JsonV::Null,
        Json::Bool(b) => JsonV::Bool(b),
        Json::Num(n) => JsonV::Num(n.as_u64, n.text@),
        Json::Str(s) => JsonV::Str(s@),
        Json::Array(v) => JsonV::Array(jv_list(v@)),
        Json::Object(o) => JsonV::Object(jv_entries(o@)),
    }
}

pub open spec fn jv_list(s: Seq<Json>) -> Seq<JsonV>
    decreases s,
{
    if s.len() == 0 {
        Seq::empty()
    } else {
        jv_list(s.drop_last()).push(jv(s.last()))
    }
}

pub open spec fn jv_entries(s: Seq<(String, Json)>) -> Seq<(Seq<char>, JsonV)>
    decreases s,
{
    if s.len() == 0 {
        Seq::empty()
    } else {
        jv_entries(s.drop_last()).push((s.last().0@, jv(s.last().1)))
    }
}

impl View for Json {
    type V = JsonV;

    open spec fn view(&self) -> JsonV {
        jv(*self)
    }
}

// ---------------------------------------------------------------------
// Spec accessors (the meaning of serde_json's `get`, `[..]`, `as_*`)
// ---------------------------------------------------------------------

/// Value of the first entry named `key` among `entries`.
pub open spec fn entry_value(entries: Seq<(Seq<char>, JsonV)>, key: Seq<char>) -> Option<JsonV>
    decreases entries.len(),
{
    if entries.len() == 0 {
        None
    } else if entries[0].0 == key {
        Some(entries[0].1)
    } else {
        entry_value(entries.drop_first(), key)
    }
}

/// `value.get(key)`: the member `key` of an object.
pub open spec fn get(v: JsonV, key: Seq<char>) -> Option<JsonV> {
    match v {
        JsonV::Object(entries) => entry_value(entries, key),
        _ => None,
    }
}

/// `value[key]`: the member `key`, or `null`.
pub open spec fn at(v: JsonV, key: Seq<char>) -> JsonV {
    match get(v, key) {
        Some(x) => x,
        None => JsonV::Null,
    }
}

pub open spec fn as_str(v: JsonV) -> Option<Seq<char>> {
    match v {
        JsonV::Str(s) => Some(s),
        _ => None,
    }
}

pub open spec fn as_u64(v: JsonV) -> Option<u64> {
    match v {
        JsonV::Num(n, _) => n,
        _ => None,
    }
}

pub open spec fn as_bool(v: JsonV) -> Option<bool> {
    match v {
        JsonV::Bool(b) => Some(b),
        _ => None,
    }
}

pub open spec fn as_array(v: JsonV) -> Option<Seq<JsonV>> {
    match v {
        JsonV::Array(a) => Some(a),
        _ => None,
    }
}

pub open spec fn is_object(v: JsonV) -> bool {
    v is Object
}

/// String member `key` of `v`, when it is a string.
pub open spec fn str_at(v: JsonV, key: Seq<char>) -> Option<Seq<char>> {
    match get(v, key) {
        Some(x) => as_str(x),
        None => None,
    }
}

/// `v.get(k1).or_else(|| v.get(k2))`.
pub open spec fn get2(v: JsonV, k1: Seq<char>, k2: Seq<char>) -> Option<JsonV> {
    match get(v, k1) {
        Some(x) => Some(x),
        None => get(v, k2),
    }
}

// ---------------------------------------------------------------------
// Lemmas
// ---------------------------------------------------------------------

pub proof fn lemma_jv_list_push(s: Seq<Json>, x: Json)
    ensures
        jv_list(s.push(x)) == jv_list(s).push(jv(x)),
{
    assert(s.push(x).drop_last() =~= s);
}

pub proof fn lemma_jv_entries_push(s: Seq<(String, Json)>, k: String, x: Json)
    ensures
        jv_entries(s.push((k, x))) == jv_entries(s).push((k@, jv(x))),
{
    assert(s.push((k, x)).drop_last() =~= s);
}

pub proof fn lemma_jv_list_len(s: Seq<Json>)
    ensures
        jv_list(s).len() == s.len(),
        forall|i: int| 0 <= i < s.len() ==> #[trigger] jv_list(s)[i] == jv(s[i]),
    decreases s.len(),
{
    if s.len() > 0 {
        lemma_jv_list_len(s.drop_last());
        assert forall|i: int| 0 <= i < s.len() implies #[trigger] jv_list(s)[i] == jv(s[i]) by {
            if i < s.len() - 1 {
                assert(s.drop_last()[i] == s[i]);
            }
        }
    }
}

pub proof fn lemma_jv_entries_len(s: Seq<(String, Json)>)
    ensures
        jv_entries(s).len() == s.len(),
        forall|i: int|
            0 <= i < s.len() ==> #[trigger] jv_entries(s)[i] == (s[i].0@, jv(s[i].1)),
    decreases s.len(),
{
    if s.len() > 0 {
        lemma_jv_entries_len(s.drop_last());
        assert forall|i: int| 0 <= i < s.len() implies #[trigger] jv_entries(s)[i] == (
            s[i].0@,
            jv(s[i].1),
        ) by {
            if i < s.len() - 1 {
                assert(s.drop_last()[i] == s[i]);
            }
        }
    }
}

// ---------------------------------------------------------------------
// Executable accessors
// ---------------------------------------------------------------------

/// Character-wise equality of two texts.
pub fn same_chars(a: &Vec<char>, b: &Vec<char>) -> (r: bool)
    ensures
        r == (a@ == b@),
{
    if a.len() != b.len() {
        return false;
    }
    let mut i: usize = 0;
    while i < a.len()
        invariant
            i <= a.len() == b.len(),
            forall|k: int| 0 <= k < i ==> a@[k] == b@[k],
        decreases a.len() - i,
    {
        if a[i] != b[i] {
            return false;
        }
        i = i + 1;
    }
    assert(a@ =~= b@);
    true
}

/// Equality of two string slices.
pub fn same_text(a: &str, b: &str) -> (r: bool)
    ensures
        r == (a@ == b@),
{
    let ca = chars_of(a);
    let cb = chars_of(b);
    same_chars(&ca, &cb)
}

fn entry_index(entries: &Vec<(String, Json)>, key: &str) -> (r: Option<usize>)
    ensures
        r matches Some(i) ==> i < entries.len() && entry_value(jv_entries(entries@), key@) == Some(
            jv(entries@[i as int].1),
        ),
        r is None ==> entry_value(jv_entries(entries@), key@) is None,
{
    let ghost es = jv_entries(entries@);
    proof {
        lemma_jv_entries_len(entries@);
    }
    assert(es.skip(0) =~= es);
    let mut i: usize = 0;
    while i < entries.len()
        invariant
            i <= entries.len(),
            es == jv_entries(entries@),
            es.len() == entries.len(),
            forall|k: int| 0 <= k < entries.len() ==> #[trigger] es[k] == (
                entries@[k].0@,
                jv(entries@[k].1),
            ),
            entry_value(es, key@) == entry_value(es.skip(i as int), key@),
        decreases entries.len() - i,
    {
        assert(es.skip(i as int)[0] == es[i as int]);
        assert(es.skip(i as int).drop_first() =~= es.skip(i + 1));
        if same_text(entries[i].0.as_str(), key) {
            return Some(i);
        }
        i = i + 1;
    }
    None
}

/// `value.get(key)`.
pub fn get_exec<'a>(v: &'a Json, key: &str) -> (r: Option<&'a Json>)
    ensures
        r matches Some(x) ==> get(v@, key@) == Some(x@),
        r is None ==> get(v@, key@) is None,
{
    match v {
        Json::Object(entries) => match entry_index(entries, key) {
            Some(i) => Some(&entries[i].1),
            None => None,
        },
        _ => None,
    }
}

/// `value.get(k1).or_else(|| value.get(k2))`.
pub fn get2_exec<'a>(v: &'a Json, k1: &str, k2: &str) -> (r: Option<&'a Json>)
    ensures
        r matches Some(x) ==> get2(v@, k1@, k2@) == Some(x@),
        r is None ==> get2(v@, k1@, k2@) is None,
{
    match get_exec(v, k1) {
        Some(x) => Some(x),
        None => get_exec(v, k2),
    }
}

pub fn as_str_exec(v: &Json) -> (r: Option<&str>)
    ensures
        r matches Some(s) ==> as_str(v@) == Some(s@),
        r is None ==> as_str(v@) is None,
{
    match v {
        Json::Str(s) => Some(s.as_str()),
        _ => None,
    }
}

pub fn as_u64_exec(v: &Json) -> (r: Option<u64>)
    ensures
        r == as_u64(v@),
{
    match v {
        Json::Num(n) => n.as_u64,
        _ => None,
    }
}

pub fn as_bool_exec(v: &Json) -> (r: Option<bool>)
    ensures
        r == as_bool(v@),
{
    match v {
        Json::Bool(b) => Some(*b),
        _ => None,
    }
}

pub fn as_array_exec(v: &Json) -> (r: Option<&Vec<Json>>)
    ensures
        r matches Some(a) ==> as_array(v@) == Some(jv_list(a@)),
        r is None ==> as_array(v@) is None,
{
    match v {
        Json::Array(a) => Some(a),
        _ => None,
    }
}

pub fn is_object_exec(v: &Json) -> (r: bool)
    ensures
        r == is_object(v@),
{
    match v {
        Json::Object(_) => true,
        _ => false,
    }
}

/// `value.get(key).and_then(|x| x.as_str())`.
pub fn str_at_exec<'a>(v: &'a Json, key: &str) -> (r: Option<&'a str>)
    ensures
        r matches Some(s) ==> str_at(v@, key@) == Some(s@),
        r is None ==> str_at(v@, key@) is None,
{
    match get_exec(v, key) {
        Some(x) => as_str_exec(x),
        None => None,
    }
}

/// A copy of a JSON value.
pub fn json_clone(j: &Json) -> (r: Json)
    ensures
        r@ == j@,
    decreases j,
{
    match j {
        Json::Null => Json::Null,
        Json::Bool(b) => Json::Bool(*b),
        Json::Num(n) => Json::Num(JsonNumber { as_u64: n.as_u64, text: n.text.clone() }),
        Json::Str(s) => Json::Str(s.clone()),
        Json::Array(v) => {
            let mut out: Vec<Json> = Vec::new();
            let mut i: usize = 0;
            while i < v.len()
                invariant
                    *j == Json::Array(*v),
                    i <= v.len(),
                    jv_list(out@) == jv_list(v@.take(i as int)),
                decreases v.len() - i,
            {
                proof {
                    assert(*j == Json::Array(*v));
                    assert(decreases_to!(*j => (*j)->Array_0));
                    assert(decreases_to!(*v => v@));
                    assert(decreases_to!(v@ => v@[i as int]));
                }
                let c = json_clone(&v[i]);
                proof {
                    lemma_jv_list_push(out@, c);
                    lemma_jv_list_push(v@.take(i as int), v@[i as int]);
                    assert(v@.take(i as int).push(v@[i as int]) =~= v@.take(i + 1));
                }
                out.push(c);
                i = i + 1;
            }
            assert(v@.take(v.len() as int) =~= v@);
            Json::Array(out)
        },
        Json::Object(o) => {
            let mut out: Vec<(String, Json)> = Vec::new();
            let mut i: usize = 0;
            while i < o.len()
                invariant
                    *j == Json::Object(*o),
                    i <= o.len(),
                    jv_entries(out@) == jv_entries(o@.take(i as int)),
                decreases o.len() - i,
            {
                proof {
                    assert(*j == Json::Object(*o));
                    assert(decreases_to!(*j => (*j)->Object_0));
                    assert(decreases_to!(*o => o@));
                    assert(decreases_to!(o@ => o@[i as int]));
                    assert(decreases_to!(o@[i as int] => o@[i as int].1));
                }
                let c = json_clone(&o[i].1);
                let k = o[i].0.clone();
                proof {
                    lemma_jv_entries_push(out@, k, c);
                    lemma_jv_entries_push(o@.take(i as int), o@[i as int].0, o@[i as int].1);
                    assert(o@.take(i as int).push(o@[i as int]) =~= o@.take(i + 1));
                }
                out.push((k, c));
                i = i + 1;
            }
            assert(o@.take(o.len() as int) =~= o@);
            Json::Object(out)
        },
    }
}

/// A JSON string value.
pub fn json_str(s: &str) -> (r: Json)
    ensures
        r@ == JsonV::Str(s@),
{
    Json::Str(string_of(chars_of(s).as_slice()))
}

} // verus!
