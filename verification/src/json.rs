//! A JSON document model: what the logic reads from settings, catalogs, CDP
//! replies and rollout lines. Parsing and printing JSON text is done by the caller
//! (with serde_json); the library navigates and rewrites values.
use vstd::prelude::*;
use crate::text::str_eq;

verus! {

/// A JSON number: an unsigned or signed integer, or any other number kept as its text.
#[derive(Debug)]
pub enum JsonNumber {
    Unsigned(u64),
    Signed(i64),
    Other(String),
}

/// A JSON value. An object is a list of entries with distinct keys.
#[derive(Debug)]
pub enum Json {
    Null,
    Bool(bool),
    Number(JsonNumber),
    Text(String),
    Array(Vec<Json>),
    Object(Vec<(String, Json)>),
}

/// The mathematical value of a JSON document.
pub enum JsonValue {
    Null,
    Bool(bool),
    Unsigned(u64),
    Signed(i64),
    OtherNumber(Seq<char>),
    Text(Seq<char>),
    Array(Seq<JsonValue>),
    Object(Seq<(Seq<char>, JsonValue)>),
}

pub open spec fn jview(j: Json) -> JsonValue
    decreases j,
{
    match j {
        Json::Null => JsonValue::Null,
        Json::Bool(b) => JsonValue::Bool(b),
        Json::Number(JsonNumber::Unsigned(n)) => JsonValue::Unsigned(n),
        Json::Number(JsonNumber::Signed(n)) => JsonValue::Signed(n),
        Json::Number(JsonNumber::Other(t)) => JsonValue::OtherNumber(t@),
        Json::Text(s) => JsonValue::Text(s@),
        Json::Array(a) => JsonValue::Array(jviews(a@)),
        Json::Object(es) => JsonValue::Object(eviews(es@)),
    }
}

pub open spec fn jviews(s: Seq<Json>) -> Seq<JsonValue>
    decreases s,
{
    if s.len() == 0 {
        Seq::empty()
    } else {
        jviews(s.drop_last()).push(jview(s.last()))
    }
}

pub open spec fn eviews(es: Seq<(String, Json)>) -> Seq<(Seq<char>, JsonValue)>
    decreases es,
{
    if es.len() == 0 {
        Seq::empty()
    } else {
        eviews(es.drop_last()).push((es.last().0@, jview(es.last().1)))
    }
}

impl View for Json {
    type V = JsonValue;

    open spec fn view(&self) -> JsonValue {
        jview(*self)
    }
}

pub proof fn lemma_jviews_index(s: Seq<Json>)
    ensures
        jviews(s).len() == s.len(),
        forall|i: int| 0 <= i < s.len() ==> #[trigger] jviews(s)[i] == jview(s[i]),
    decreases s.len(),
{
    if s.len() > 0 {
        lemma_jviews_index(s.drop_last());
    }
}

pub proof fn lemma_eviews_index(es: Seq<(String, Json)>)
    ensures
        eviews(es).len() == es.len(),
        forall|i: int| 0 <= i < es.len() ==> #[trigger] eviews(es)[i] == (es[i].0@, jview(es[i].1)),
    decreases es.len(),
{
    if es.len() > 0 {
        lemma_eviews_index(es.drop_last());
    }
}

// ---------------------------------------------------------------------------
// Specifications
// ---------------------------------------------------------------------------

/// The value of the first entry named `key`.
pub open spec fn entries_get(es: Seq<(Seq<char>, JsonValue)>, key: Seq<char>) -> Option<JsonValue>
    decreases es.len(),
{
    if es.len() == 0 {
        None
    } else if es[0].0 == key {
        Some(es[0].1)
    } else {
        entries_get(es.drop_first(), key)
    }
}

/// The value behind an optional reference.
pub open spec fn opt_ref_view(o: Option<&Json>) -> Option<JsonValue> {
    match o {
        Some(x) => Some(jview(*x)),
        None => None,
    }
}

/// `Value::get` with a string key: the member of an object, `None` otherwise.
pub open spec fn get(v: JsonValue, key: Seq<char>) -> Option<JsonValue> {
    match v {
        JsonValue::Object(es) => entries_get(es, key),
        _ => None,
    }
}

/// Successive `get`s through nested objects.
pub open spec fn get_path(v: JsonValue, keys: Seq<Seq<char>>) -> Option<JsonValue>
    decreases keys.len(),
{
    if keys.len() == 0 {
        Some(v)
    } else {
        match get(v, keys[0]) {
            Some(w) => get_path(w, keys.drop_first()),
            None => None,
        }
    }
}

pub open spec fn as_str(v: JsonValue) -> Option<Seq<char>> {
    match v {
        JsonValue::Text(s) => Some(s),
        _ => None,
    }
}

pub open spec fn as_bool(v: JsonValue) -> Option<bool> {
    match v {
        JsonValue::Bool(b) => Some(b),
        _ => None,
    }
}

pub open spec fn as_u64(v: JsonValue) -> Option<u64> {
    match v {
        JsonValue::Unsigned(n) => Some(n),
        JsonValue::Signed(n) => if n >= 0 {
            Some(n as u64)
        } else {
            None
        },
        _ => None,
    }
}

pub open spec fn as_array(v: JsonValue) -> Option<Seq<JsonValue>> {
    match v {
        JsonValue::Array(a) => Some(a),
        _ => None,
    }
}

pub open spec fn as_object(v: JsonValue) -> Option<Seq<(Seq<char>, JsonValue)>> {
    match v {
        JsonValue::Object(es) => Some(es),
        _ => None,
    }
}

pub open spec fn opt_get(v: Option<JsonValue>, key: Seq<char>) -> Option<JsonValue> {
    match v {
        Some(w) => get(w, key),
        None => None,
    }
}

pub open spec fn opt_str(v: Option<JsonValue>) -> Option<Seq<char>> {
    match v {
        Some(w) => as_str(w),
        None => None,
    }
}

pub open spec fn opt_bool(v: Option<JsonValue>) -> Option<bool> {
    match v {
        Some(w) => as_bool(w),
        None => None,
    }
}

pub open spec fn opt_u64(v: Option<JsonValue>) -> Option<u64> {
    match v {
        Some(w) => as_u64(w),
        None => None,
    }
}

pub open spec fn opt_array(v: Option<JsonValue>) -> Option<Seq<JsonValue>> {
    match v {
        Some(w) => as_array(w),
        None => None,
    }
}

/// Whether an object has a member `key`.
pub open spec fn has_key(es: Seq<(Seq<char>, JsonValue)>, key: Seq<char>) -> bool {
    entries_get(es, key) is Some
}

/// The entries with `key` set to `value`: the first entry of that name gets the new
/// value in place, or a new entry is appended.
pub open spec fn entries_insert(
    es: Seq<(Seq<char>, JsonValue)>,
    key: Seq<char>,
    value: JsonValue,
) -> Seq<(Seq<char>, JsonValue)>
    decreases es.len(),
{
    if es.len() == 0 {
        seq![(key, value)]
    } else if es[0].0 == key {
        es.update(0, (key, value))
    } else {
        seq![es[0]] + entries_insert(es.drop_first(), key, value)
    }
}

// ---------------------------------------------------------------------------
// Navigation
// ---------------------------------------------------------------------------

pub fn entries_lookup<'a>(es: &'a Vec<(String, Json)>, key: &str) -> (r: Option<&'a Json>)
    ensures
        match r {
            Some(x) => entries_get(eviews(es@), key@) == Some(x@),
            None => entries_get(eviews(es@), key@) is None,
        },
{
    let ghost ev = eviews(es@);
    proof {
        lemma_eviews_index(es@);
    }
    let mut i: usize = 0;
    assert(ev.skip(0) =~= ev);
    while i < es.len()
        invariant
            i <= es.len(),
            ev == eviews(es@),
            ev.len() == es@.len(),
            forall|k: int| 0 <= k < es@.len() ==> #[trigger] ev[k] == (es@[k].0@, jview(es@[k].1)),
            entries_get(ev, key@) == entries_get(ev.skip(i as int), key@),
        decreases es.len() - i,
    {
        assert(ev.skip(i as int).drop_first() =~= ev.skip(i + 1));
        assert(ev.skip(i as int)[0] == ev[i as int]);
        if str_eq(es[i].0.as_str(), key) {
            return Some(&es[i].1);
        }
        i = i + 1;
    }
    None
}

/// `Value::get`.
pub fn json_get<'a>(v: &'a Json, key: &str) -> (r: Option<&'a Json>)
    ensures
        match r {
            Some(x) => get(v@, key@) == Some(x@),
            None => get(v@, key@) is None,
        },
        opt_ref_view(r) == get(v@, key@),
{
    match v {
        Json::Object(es) => entries_lookup(es, key),
        _ => None,
    }
}

pub fn json_as_str(v: &Json) -> (r: Option<&String>)
    ensures
        match r {
            Some(s) => as_str(v@) == Some(s@),
            None => as_str(v@) is None,
        },
{
    match v {
        Json::Text(s) => Some(s),
        _ => None,
    }
}

pub fn json_as_bool(v: &Json) -> (r: Option<bool>)
    ensures
        r == as_bool(v@),
{
    match v {
        Json::Bool(b) => Some(*b),
        _ => None,
    }
}

pub fn json_as_u64(v: &Json) -> (r: Option<u64>)
    ensures
        r == as_u64(v@),
{
    match v {
        Json::Number(JsonNumber::Unsigned(n)) => Some(*n),
        Json::Number(JsonNumber::Signed(n)) => if *n >= 0 {
            Some(*n as u64)
        } else {
            None
        },
        _ => None,
    }
}

pub fn json_as_array(v: &Json) -> (r: Option<&Vec<Json>>)
    ensures
        match r {
            Some(a) => as_array(v@) == Some(jviews(a@)),
            None => as_array(v@) is None,
        },
{
    match v {
        Json::Array(a) => Some(a),
        _ => None,
    }
}

pub fn json_as_object(v: &Json) -> (r: Option<&Vec<(String, Json)>>)
    ensures
        match r {
            Some(es) => as_object(v@) == Some(eviews(es@)),
            None => as_object(v@) is None,
        },
{
    match v {
        Json::Object(es) => Some(es),
        _ => None,
    }
}

/// A string member: `v.get(key).and_then(Value::as_str)`.
pub fn json_get_str<'a>(v: &'a Json, key: &str) -> (r: Option<&'a String>)
    ensures
        match r {
            Some(s) => opt_str(get(v@, key@)) == Some(s@),
            None => opt_str(get(v@, key@)) is None,
        },
{
    match json_get(v, key) {
        Some(x) => json_as_str(x),
        None => None,
    }
}

/// A boolean member.
pub fn json_get_bool(v: &Json, key: &str) -> (r: Option<bool>)
    ensures
        r == opt_bool(get(v@, key@)),
{
    match json_get(v, key) {
        Some(x) => json_as_bool(x),
        None => None,
    }
}

// ---------------------------------------------------------------------------
// Copying and updating
// ---------------------------------------------------------------------------

/// A deep copy.
pub fn json_clone(v: &Json) -> (r: Json)
    ensures
        r@ == v@,
    decreases v,
{
    match v {
        Json::Null => Json::Null,
        Json::Bool(b) => Json::Bool(*b),
        Json::Number(JsonNumber::Unsigned(n)) => Json::Number(JsonNumber::Unsigned(*n)),
        Json::Number(JsonNumber::Signed(n)) => Json::Number(JsonNumber::Signed(*n)),
        Json::Number(JsonNumber::Other(t)) => Json::Number(JsonNumber::Other(t.clone())),
        Json::Text(s) => Json::Text(s.clone()),
        Json::Array(a) => {
            let mut out: Vec<Json> = Vec::new();
            let mut i: usize = 0;
            while i < a.len()
                invariant
                    i <= a.len(),
                    *v == Json::Array(*a),
                    jviews(out@) == jviews(a@.take(i as int)),
                decreases a.len() - i,
            {
                proof {
                    assert(decreases_to!(*v => (*v)->Array_0));
                    assert(decreases_to!(*a => a@[i as int]));
                    assert(decreases_to!(*v => a@[i as int]));
                }
                let c = json_clone(&a[i]);
                let ghost old = out@;
                out.push(c);
                assert(out@.drop_last() =~= old);
                assert(a@.take(i + 1).drop_last() =~= a@.take(i as int));
                i = i + 1;
            }
            assert(a@.take(a.len() as int) =~= a@);
            Json::Array(out)
        },
        Json::Object(es) => {
            let mut out: Vec<(String, Json)> = Vec::new();
            let mut i: usize = 0;
            while i < es.len()
                invariant
                    i <= es.len(),
                    *v == Json::Object(*es),
                    eviews(out@) == eviews(es@.take(i as int)),
                decreases es.len() - i,
            {
                proof {
                    assert(decreases_to!(*v => (*v)->Object_0));
                    assert(decreases_to!(*es => es@[i as int]));
                    assert(decreases_to!(es@[i as int] => es@[i as int].1));
                    assert(decreases_to!(*v => es@[i as int].1));
                }
                let entry = (es[i].0.clone(), json_clone(&es[i].1));
                let ghost old = out@;
                out.push(entry);
                assert(out@.drop_last() =~= old);
                assert(es@.take(i + 1).drop_last() =~= es@.take(i as int));
                i = i + 1;
            }
            assert(es@.take(es.len() as int) =~= es@);
            Json::Object(out)
        },
    }
}

/// Sets `key` to `value` in the entries of an object (`Map::insert`).
pub fn entries_set(es: &mut Vec<(String, Json)>, key: String, value: Json)
    ensures
        eviews(final(es)@) == entries_insert(eviews(old(es)@), key@, value@),
{
    let ghost start = es@;
    proof {
        lemma_eviews_index(start);
    }
    let mut i: usize = 0;
    while i < es.len()
        invariant
            i <= es.len(),
            es@ == start,
            start == old(es)@,
            eviews(start).len() == start.len(),
            forall|k: int| 0 <= k < start.len() ==> #[trigger] eviews(start)[k] == (start[k].0@, jview(start[k].1)),
            forall|k: int| 0 <= k < i ==> start[k].0@ != key@,
        decreases es.len() - i,
    {
        if str_eq(es[i].0.as_str(), key.as_str()) {
            let ghost vv = value@;
            es.set(i, (key, value));
            proof {
                lemma_entries_insert_at(eviews(start), key@, vv, i as int);
                lemma_eviews_index(es@);
                assert(eviews(es@) =~= eviews(start).update(i as int, (key@, vv)));
            }
            return;
        }
        i = i + 1;
    }
    let ghost vv = value@;
    let ghost kk = key@;
    es.push((key, value));
    proof {
        lemma_entries_insert_absent(eviews(start), kk, vv);
        assert(es@.drop_last() =~= start);
    }
}

fn number_eq(a: &JsonNumber, b: &JsonNumber) -> (r: bool)
    ensures
        r == (jview(Json::Number(*a)) == jview(Json::Number(*b))),
{
    match (a, b) {
        (JsonNumber::Unsigned(x), JsonNumber::Unsigned(y)) => *x == *y,
        (JsonNumber::Signed(x), JsonNumber::Signed(y)) => *x == *y,
        (JsonNumber::Other(x), JsonNumber::Other(y)) => str_eq(x.as_str(), y.as_str()),
        _ => false,
    }
}

/// Whether two JSON values are equal (`Value == Value`; objects compare their entries
/// in order, as maps with sorted keys do).
pub fn json_eq(a: &Json, b: &Json) -> (r: bool)
    ensures
        r == (a@ == b@),
    decreases a,
{
    match (a, b) {
        (Json::Null, Json::Null) => true,
        (Json::Bool(x), Json::Bool(y)) => *x == *y,
        (Json::Number(x), Json::Number(y)) => number_eq(x, y),
        (Json::Text(x), Json::Text(y)) => str_eq(x.as_str(), y.as_str()),
        (Json::Array(xs), Json::Array(ys)) => {
            proof {
                lemma_jviews_index(xs@);
                lemma_jviews_index(ys@);
            }
            if xs.len() != ys.len() {
                return false;
            }
            let mut i: usize = 0;
            while i < xs.len()
                invariant
                    i <= xs@.len(),
                    xs@.len() == ys@.len(),
                    *a == Json::Array(*xs),
                    *b == Json::Array(*ys),
                    jviews(xs@).len() == xs@.len(),
                    jviews(ys@).len() == ys@.len(),
                    forall|k: int| 0 <= k < xs@.len() ==> #[trigger] jviews(xs@)[k] == jview(xs@[k]),
                    forall|k: int| 0 <= k < ys@.len() ==> #[trigger] jviews(ys@)[k] == jview(ys@[k]),
                    forall|k: int| 0 <= k < i ==> jview(#[trigger] xs@[k]) == jview(ys@[k]),
                decreases xs.len() - i,
            {
                proof {
                    assert(decreases_to!(*a => (*a)->Array_0));
                    assert(decreases_to!(*xs => xs@[i as int]));
                    assert(decreases_to!(*a => xs@[i as int]));
                }
                if !json_eq(&xs[i], &ys[i]) {
                    assert(jviews(xs@)[i as int] != jviews(ys@)[i as int]);
                    return false;
                }
                i = i + 1;
            }
            assert(jviews(xs@) =~= jviews(ys@));
            true
        },
        (Json::Object(xs), Json::Object(ys)) => {
            proof {
                lemma_eviews_index(xs@);
                lemma_eviews_index(ys@);
            }
            if xs.len() != ys.len() {
                return false;
            }
            let mut i: usize = 0;
            while i < xs.len()
                invariant
                    i <= xs@.len(),
                    xs@.len() == ys@.len(),
                    *a == Json::Object(*xs),
                    *b == Json::Object(*ys),
                    eviews(xs@).len() == xs@.len(),
                    eviews(ys@).len() == ys@.len(),
                    forall|k: int| 0 <= k < xs@.len() ==> #[trigger] eviews(xs@)[k] == (xs@[k].0@, jview(xs@[k].1)),
                    forall|k: int| 0 <= k < ys@.len() ==> #[trigger] eviews(ys@)[k] == (ys@[k].0@, jview(ys@[k].1)),
                    forall|k: int| 0 <= k < i ==> #[trigger] eviews(xs@)[k] == eviews(ys@)[k],
                decreases xs.len() - i,
            {
                proof {
                    assert(decreases_to!(*a => (*a)->Object_0));
                    assert(decreases_to!(*xs => xs@[i as int]));
                    assert(decreases_to!(xs@[i as int] => xs@[i as int].1));
                    assert(decreases_to!(*a => xs@[i as int].1));
                }
                if !str_eq(xs[i].0.as_str(), ys[i].0.as_str()) || !json_eq(&xs[i].1, &ys[i].1) {
                    assert(eviews(xs@)[i as int] != eviews(ys@)[i as int]);
                    return false;
                }
                i = i + 1;
            }
            assert(eviews(xs@) =~= eviews(ys@));
            true
        },
        _ => false,
    }
}

/// `value[key] = member`: a null value becomes an object holding the member.
pub open spec fn set_member(v: JsonValue, key: Seq<char>, member: JsonValue) -> JsonValue {
    match v {
        JsonValue::Object(es) => JsonValue::Object(entries_insert(es, key, member)),
        _ => JsonValue::Object(seq![(key, member)]),
    }
}

/// Whether `value[key] = ..` can assign to `v` (serde_json panics on other values).
pub open spec fn is_object_or_null(v: JsonValue) -> bool {
    v is Object || v is Null
}

/// `value[key] = member` (`IndexMut` on a JSON value).
pub fn json_set(v: &mut Json, key: String, member: Json)
    requires
        is_object_or_null(old(v)@),
    ensures
        final(v)@ == set_member(old(v)@, key@, member@),
{
    match v {
        Json::Object(es) => entries_set(es, key, member),
        _ => {
            let e = (key, member);
            let ghost kv = (e.0@, jview(e.1));
            let mut es: Vec<(String, Json)> = Vec::new();
            es.push(e);
            assert(es@.drop_last() =~= Seq::<(String, Json)>::empty());
            assert(eviews(Seq::<(String, Json)>::empty()) =~= Seq::empty());
            assert(es@.last() == e);
            assert(eviews(es@) =~= seq![kv]);
            *v = Json::Object(es);
        },
    }
}

/// The entries without those named `key` (`Map::remove`).
pub open spec fn entries_remove(es: Seq<(Seq<char>, JsonValue)>, key: Seq<char>) -> Seq<(Seq<char>, JsonValue)>
    decreases es.len(),
{
    if es.len() == 0 {
        Seq::empty()
    } else {
        let before = entries_remove(es.drop_last(), key);
        if es.last().0 == key {
            before
        } else {
            before.push(es.last())
        }
    }
}

/// An object without its member `key`; other values are unchanged.
pub open spec fn remove_member(v: JsonValue, key: Seq<char>) -> JsonValue {
    match v {
        JsonValue::Object(es) => JsonValue::Object(entries_remove(es, key)),
        _ => v,
    }
}

/// Removes the member `key` from an object (`as_object_mut().remove(key)`).
pub fn json_remove_member(v: &Json, key: &str) -> (r: Json)
    ensures
        r@ == remove_member(v@, key@),
{
    match v {
        Json::Object(es) => {
            proof {
                lemma_eviews_index(es@);
            }
            let ghost ev = eviews(es@);
            let mut out: Vec<(String, Json)> = Vec::new();
            let mut i: usize = 0;
            while i < es.len()
                invariant
                    i <= es@.len(),
                    ev == eviews(es@),
                    ev.len() == es@.len(),
                    forall|k: int| 0 <= k < es@.len() ==> #[trigger] ev[k] == (es@[k].0@, jview(es@[k].1)),
                    eviews(out@) == entries_remove(ev.take(i as int), key@),
                decreases es.len() - i,
            {
                assert(ev.take(i + 1).drop_last() =~= ev.take(i as int));
                assert(ev.take(i + 1).last() == (es@[i as int].0@, jview(es@[i as int].1)));
                if !str_eq(es[i].0.as_str(), key) {
                    let ghost before = out@;
                    let e = (es[i].0.clone(), json_clone(&es[i].1));
                    assert(e.0@ == es@[i as int].0@);
                    out.push(e);
                    assert(out@.drop_last() =~= before);
                    assert(eviews(out@) == eviews(before).push((e.0@, jview(e.1))));
                }
                i = i + 1;
            }
            assert(ev.take(es@.len() as int) =~= ev);
            Json::Object(out)
        },
        _ => json_clone(v),
    }
}

/// Setting a member and reading it back: the first entry named `key` holds the new
/// value, and every other name reads as before.
pub proof fn lemma_entries_insert_get(es: Seq<(Seq<char>, JsonValue)>, key: Seq<char>, value: JsonValue, other: Seq<char>)
    ensures
        entries_get(entries_insert(es, key, value), key) == Some(value),
        other != key ==> entries_get(entries_insert(es, key, value), other) == entries_get(es, other),
    decreases es.len(),
{
    let r = entries_insert(es, key, value);
    if es.len() == 0 {
        assert(r.drop_first() =~= Seq::<(Seq<char>, JsonValue)>::empty());
        assert(entries_get(r.drop_first(), other) == None::<JsonValue>);
        assert(r[0] == (key, value));
    } else if es[0].0 == key {
        assert(r.drop_first() =~= es.drop_first());
        assert(r[0] == (key, value));
    } else {
        lemma_entries_insert_get(es.drop_first(), key, value, other);
        assert(r.drop_first() =~= entries_insert(es.drop_first(), key, value));
    }
}

/// A member written with `value[key] = member` reads back as written, and every other
/// member of an object reads as before (a null value had none).
pub proof fn set_member_reads_back(v: JsonValue, key: Seq<char>, member: JsonValue, other: Seq<char>)
    ensures
        get(set_member(v, key, member), key) == Some(member),
        other != key ==> get(set_member(v, key, member), other) == get(v, other),
{
    match v {
        JsonValue::Object(es) => {
            lemma_entries_insert_get(es, key, member, other);
        },
        _ => {
            lemma_entries_insert_get(Seq::empty(), key, member, other);
            assert(entries_insert(Seq::empty(), key, member) =~= seq![(key, member)]);
        },
    }
}

proof fn lemma_entries_insert_at(
    es: Seq<(Seq<char>, JsonValue)>,
    key: Seq<char>,
    value: JsonValue,
    i: int,
)
    requires
        0 <= i < es.len(),
        es[i].0 == key,
        forall|k: int| 0 <= k < i ==> es[k].0 != key,
    ensures
        entries_insert(es, key, value) == es.update(i, (key, value)),
    decreases i,
{
    if i > 0 {
        lemma_entries_insert_at(es.drop_first(), key, value, i - 1);
        assert(seq![es[0]] + es.drop_first().update(i - 1, (key, value)) =~= es.update(
            i,
            (key, value),
        ));
    }
}

proof fn lemma_entries_insert_absent(es: Seq<(Seq<char>, JsonValue)>, key: Seq<char>, value: JsonValue)
    requires
        forall|k: int| 0 <= k < es.len() ==> es[k].0 != key,
    ensures
        entries_insert(es, key, value) == es.push((key, value)),
    decreases es.len(),
{
    if es.len() > 0 {
        lemma_entries_insert_absent(es.drop_first(), key, value);
        assert(seq![es[0]] + es.drop_first().push((key, value)) =~= es.push((key, value)));
    }
}

/// Setting a member to the value it already has changes nothing.
pub proof fn lemma_entries_insert_same(es: Seq<(Seq<char>, JsonValue)>, key: Seq<char>, value: JsonValue)
    requires
        entries_get(es, key) == Some(value),
    ensures
        entries_insert(es, key, value) == es,
    decreases es.len(),
{
    if es[0].0 == key {
        assert(es.update(0, (key, value)) =~= es);
    } else {
        lemma_entries_insert_same(es.drop_first(), key, value);
        assert(seq![es[0]] + es.drop_first() =~= es);
    }
}

} // verus!
