//! Moving rollout files between provider buckets: the `session_meta` line of a rollout
//! names the provider bucket its thread is listed under. The caller reads the lines
//! (and parses them), and writes back what the library returns, keeping the file's
//! line breaks and modification time.
use vstd::prelude::*;
use crate::json::{
    entries_get, entries_insert, entries_lookup, get, json_as_str, json_clone, json_get,
    json_get_str, json_set, jview, opt_str, set_member, Json, JsonValue,
};
use crate::text::{contains, contains_str, owned, str_contains, str_eq, trim, trim_str, views};
use crate::visibility::{jsonl_views, read_views, JsonlLine, LineView};

verus! {

/// The payload of a `session_meta` line, when it is an object.
pub open spec fn meta_payload(v: JsonValue) -> Option<Seq<(Seq<char>, JsonValue)>> {
    if opt_str(get(v, "type"@)) == Some("session_meta"@) {
        match get(v, "payload"@) {
            Some(JsonValue::Object(es)) => Some(es),
            _ => None,
        }
    } else {
        None
    }
}

/// The line with its payload's provider set to `p`.
pub open spec fn with_provider(v: JsonValue, es: Seq<(Seq<char>, JsonValue)>, p: Seq<char>) -> JsonValue {
    set_member(v, "payload"@, JsonValue::Object(entries_insert(es, "model_provider"@, JsonValue::Text(p))))
}

/// The text names both `"session_meta"` and `"model_provider"`.
pub open spec fn names_meta_and_provider(raw: Seq<char>) -> bool {
    contains(raw, "\"session_meta\""@) && contains(raw, "\"model_provider\""@)
}

/// A session_meta line whose provider is one of `sources`, moved to `target`.
pub open spec fn meta_to_target(
    raw: Seq<char>,
    line: Option<JsonValue>,
    sources: Seq<Seq<char>>,
    target: Seq<char>,
) -> Option<JsonValue> {
    if !names_meta_and_provider(raw) {
        None
    } else {
        match line {
            Some(v) => match meta_payload(v) {
                Some(es) => match opt_str(entries_get(es, "model_provider"@)) {
                    Some(p) => if sources.contains(p) {
                        Some(with_provider(v, es, target))
                    } else {
                        None
                    },
                    None => None,
                },
                None => None,
            },
            None => None,
        }
    }
}

/// The provider a session_meta payload names, trimmed, empty when it names none.
pub open spec fn current_provider(es: Seq<(Seq<char>, JsonValue)>) -> Seq<char> {
    trim(
        match opt_str(entries_get(es, "model_provider"@)) {
            Some(p) => p,
            None => Seq::empty(),
        },
    )
}

/// A session_meta line in any bucket but `target`, moved to `target`, with the bucket
/// it came from when it named one.
pub open spec fn meta_from_any(raw: Seq<char>, line: Option<JsonValue>, target: Seq<char>) -> Option<
    (JsonValue, Option<Seq<char>>),
> {
    if !contains(raw, "\"session_meta\""@) {
        None
    } else {
        match line {
            Some(v) => match meta_payload(v) {
                Some(es) => if current_provider(es) == target {
                    None
                } else {
                    Some(
                        (
                            with_provider(v, es, target),
                            if current_provider(es).len() > 0 {
                                Some(current_provider(es))
                            } else {
                                None
                            },
                        ),
                    )
                },
                None => None,
            },
            None => None,
        }
    }
}

/// An official session's session_meta line that was moved into the custom bucket,
/// moved back to the official one.
pub open spec fn meta_for_restore(
    raw: Seq<char>,
    line: Option<JsonValue>,
    official_sessions: Seq<Seq<char>>,
    custom: Seq<char>,
    official: Seq<char>,
) -> Option<JsonValue> {
    if !names_meta_and_provider(raw) {
        None
    } else {
        match line {
            Some(v) => match meta_payload(v) {
                Some(es) => if opt_str(entries_get(es, "model_provider"@)) == Some(custom) {
                    match opt_str(entries_get(es, "id"@)) {
                        Some(id) => if official_sessions.contains(id) {
                            Some(with_provider(v, es, official))
                        } else {
                            None
                        },
                        None => None,
                    }
                } else {
                    None
                },
                None => None,
            },
            None => None,
        }
    }
}

fn meta_payload_of(v: &Json) -> (r: Option<&Vec<(String, Json)>>)
    ensures
        match r {
            Some(es) => meta_payload(v@) == Some(crate::json::eviews(es@)),
            None => meta_payload(v@) is None,
        },
{
    let is_meta = match json_get_str(v, "type") {
        Some(t) => str_eq(t.as_str(), "session_meta"),
        None => false,
    };
    if !is_meta {
        return None;
    }
    match json_get(v, "payload") {
        Some(p) => match p {
            Json::Object(es) => Some(es),
            _ => None,
        },
        None => None,
    }
}

fn provider_text(es: &Vec<(String, Json)>, key: &str) -> (r: Option<String>)
    ensures
        match r {
            Some(s) => opt_str(entries_get(crate::json::eviews(es@), key@)) == Some(s@),
            None => opt_str(entries_get(crate::json::eviews(es@), key@)) is None,
        },
{
    match entries_lookup(es, key) {
        Some(x) => match json_as_str(x) {
            Some(s) => Some(owned(s.as_str())),
            None => None,
        },
        None => None,
    }
}

fn set_provider(v: &Json, es: &Vec<(String, Json)>, provider: &str) -> (r: Json)
    requires
        meta_payload(v@) == Some(crate::json::eviews(es@)),
    ensures
        r@ == with_provider(v@, crate::json::eviews(es@), provider@),
{
    let mut payload: Vec<(String, Json)> = Vec::new();
    let mut i: usize = 0;
    while i < es.len()
        invariant
            i <= es@.len(),
            crate::json::eviews(payload@) == crate::json::eviews(es@.take(i as int)),
        decreases es.len() - i,
    {
        let ghost before = payload@;
        let e = (owned(es[i].0.as_str()), json_clone(&es[i].1));
        payload.push(e);
        assert(payload@.drop_last() =~= before);
        assert(es@.take(i + 1).drop_last() =~= es@.take(i as int));
        i = i + 1;
    }
    assert(es@.take(es@.len() as int) =~= es@);
    crate::json::entries_set(&mut payload, owned("model_provider"), Json::Text(owned(provider)));
    let mut out = json_clone(v);
    json_set(&mut out, owned("payload"), Json::Object(payload));
    out
}

/// The session_meta line moved from one of the source buckets to the target; `None`
/// when the line is something else or in another bucket.
pub fn rewrite_codex_session_meta_line_to_target(
    raw: &str,
    line: &Option<Json>,
    source_provider_ids: &Vec<String>,
    target_provider_id: &str,
) -> (r: Option<Json>)
    ensures
        match r {
            Some(j) => meta_to_target(
                raw@,
                match *line {
                    Some(x) => Some(x@),
                    None => None,
                },
                views(source_provider_ids@),
                target_provider_id@,
            ) == Some(j@),
            None => meta_to_target(
                raw@,
                match *line {
                    Some(x) => Some(x@),
                    None => None,
                },
                views(source_provider_ids@),
                target_provider_id@,
            ) is None,
        },
{
    if !str_contains(raw, "\"session_meta\"") || !str_contains(raw, "\"model_provider\"") {
        return None;
    }
    let v = match line {
        Some(v) => v,
        None => return None,
    };
    let es = match meta_payload_of(v) {
        Some(es) => es,
        None => return None,
    };
    match provider_text(es, "model_provider") {
        Some(p) => if contains_str(source_provider_ids, p.as_str()) {
            Some(set_provider(v, es, target_provider_id))
        } else {
            None
        },
        None => None,
    }
}

/// The session_meta line moved from any other bucket to the target, with the bucket
/// it came from (`None` when it named none); `None` when already in the target.
pub fn rewrite_non_target_codex_session_meta_line(raw: &str, line: &Option<Json>, target_provider_id: &str) -> (r:
    Option<(Json, Option<String>)>)
    ensures
        ({
            let want = meta_from_any(
                raw@,
                match *line {
                    Some(x) => Some(x@),
                    None => None,
                },
                target_provider_id@,
            );
            match r {
                Some((j, src)) => want == Some(
                    (
                        j@,
                        match src {
                            Some(s) => Some(s@),
                            None => None,
                        },
                    ),
                ),
                None => want is None,
            }
        }),
{
    if !str_contains(raw, "\"session_meta\"") {
        return None;
    }
    let v = match line {
        Some(v) => v,
        None => return None,
    };
    let es = match meta_payload_of(v) {
        Some(es) => es,
        None => return None,
    };
    let current = match provider_text(es, "model_provider") {
        Some(p) => trim_str(p.as_str()),
        None => {
            let e = String::new();
            assert(e@ =~= Seq::<char>::empty());
            trim_str(e.as_str())
        },
    };
    if str_eq(current.as_str(), target_provider_id) {
        return None;
    }
    let out = set_provider(v, es, target_provider_id);
    if current.as_str().is_empty() {
        Some((out, None))
    } else {
        Some((out, Some(current)))
    }
}

/// An official session's session_meta line moved back from the custom bucket to the
/// official one; `None` for any other line.
pub fn rewrite_codex_session_meta_line_for_restore(
    raw: &str,
    line: &Option<Json>,
    official_session_ids: &Vec<String>,
    custom_provider_id: &str,
    official_provider_id: &str,
) -> (r: Option<Json>)
    ensures
        match r {
            Some(j) => meta_for_restore(
                raw@,
                match *line {
                    Some(x) => Some(x@),
                    None => None,
                },
                views(official_session_ids@),
                custom_provider_id@,
                official_provider_id@,
            ) == Some(j@),
            None => meta_for_restore(
                raw@,
                match *line {
                    Some(x) => Some(x@),
                    None => None,
                },
                views(official_session_ids@),
                custom_provider_id@,
                official_provider_id@,
            ) is None,
        },
{
    if !str_contains(raw, "\"session_meta\"") || !str_contains(raw, "\"model_provider\"") {
        return None;
    }
    let v = match line {
        Some(v) => v,
        None => return None,
    };
    let es = match meta_payload_of(v) {
        Some(es) => es,
        None => return None,
    };
    match provider_text(es, "model_provider") {
        Some(p) => if !str_eq(p.as_str(), custom_provider_id) {
            return None;
        },
        None => return None,
    }
    match provider_text(es, "id") {
        Some(id) => if contains_str(official_session_ids, id.as_str()) {
            Some(set_provider(v, es, official_provider_id))
        } else {
            None
        },
        None => None,
    }
}

// ---------------------------------------------------------------------------
// Whole rollout files
// ---------------------------------------------------------------------------

/// How the session_meta lines of a rollout are moved.
#[derive(Debug, Clone)]
pub enum SessionMetaRewrite {
    /// From one of the source buckets to the target.
    ToTarget { source_provider_ids: Vec<String>, target_provider_id: String },
    /// From any other bucket to the target, recording where from.
    NonTarget { target_provider_id: String },
    /// Official sessions back from the custom bucket to the official one.
    Restore { official_session_ids: Vec<String>, custom_provider_id: String, official_provider_id: String },
}

/// The new value of a line under `mode`, and the bucket it came from where recorded.
pub open spec fn line_rewrite(mode: SessionMetaRewrite, raw: Seq<char>, line: Option<JsonValue>) -> Option<
    (JsonValue, Option<Seq<char>>),
> {
    match mode {
        SessionMetaRewrite::ToTarget { source_provider_ids, target_provider_id } => match meta_to_target(
            raw,
            line,
            views(source_provider_ids@),
            target_provider_id@,
        ) {
            Some(v) => Some((v, None)),
            None => None,
        },
        SessionMetaRewrite::NonTarget { target_provider_id } => meta_from_any(raw, line, target_provider_id@),
        SessionMetaRewrite::Restore { official_session_ids, custom_provider_id, official_provider_id } =>
            match meta_for_restore(
            raw,
            line,
            views(official_session_ids@),
            custom_provider_id@,
            official_provider_id@,
        ) {
            Some(v) => Some((v, None)),
            None => None,
        },
    }
}

/// The file's lines after the rewrite: changed lines as values, the others as read.
pub open spec fn rewritten_file(mode: SessionMetaRewrite, lines: Seq<(Seq<char>, Option<JsonValue>)>) -> Seq<LineView> {
    lines.map_values(
        |l: (Seq<char>, Option<JsonValue>)|
            match line_rewrite(mode, l.0, l.1) {
                Some((v, _)) => LineView::Value(v),
                None => LineView::Raw(l.0),
            },
    )
}

/// The buckets the rewritten lines came from, in order.
pub open spec fn recorded_sources(mode: SessionMetaRewrite, lines: Seq<(Seq<char>, Option<JsonValue>)>) -> Seq<
    Seq<char>,
>
    decreases lines.len(),
{
    if lines.len() == 0 {
        Seq::empty()
    } else {
        let before = recorded_sources(mode, lines.drop_last());
        match line_rewrite(mode, lines.last().0, lines.last().1) {
            Some((_, Some(src))) => before.push(src),
            _ => before,
        }
    }
}

/// Some line of the file changes.
pub open spec fn file_changes(mode: SessionMetaRewrite, lines: Seq<(Seq<char>, Option<JsonValue>)>) -> bool {
    exists|k: int| 0 <= k < lines.len() && (#[trigger] line_rewrite(mode, lines[k].0, lines[k].1)) is Some
}

fn rewrite_line(raw: &str, line: &Option<Json>, mode: &SessionMetaRewrite) -> (r: Option<(Json, Option<String>)>)
    ensures
        ({
            let want = line_rewrite(
                *mode,
                raw@,
                match *line {
                    Some(x) => Some(x@),
                    None => None,
                },
            );
            match r {
                Some((j, src)) => want == Some(
                    (
                        j@,
                        match src {
                            Some(s) => Some(s@),
                            None => None,
                        },
                    ),
                ),
                None => want is None,
            }
        }),
{
    match mode {
        SessionMetaRewrite::ToTarget { source_provider_ids, target_provider_id } => {
            match rewrite_codex_session_meta_line_to_target(
                raw,
                line,
                source_provider_ids,
                target_provider_id.as_str(),
            ) {
                Some(j) => Some((j, None)),
                None => None,
            }
        },
        SessionMetaRewrite::NonTarget { target_provider_id } => rewrite_non_target_codex_session_meta_line(
            raw,
            line,
            target_provider_id.as_str(),
        ),
        SessionMetaRewrite::Restore { official_session_ids, custom_provider_id, official_provider_id } => {
            match rewrite_codex_session_meta_line_for_restore(
                raw,
                line,
                official_session_ids,
                custom_provider_id.as_str(),
                official_provider_id.as_str(),
            ) {
                Some(j) => Some((j, None)),
                None => None,
            }
        },
    }
}

/// A rollout's lines with its session_meta lines moved as `mode` says, and the buckets
/// they came from; `None` when no line changes (the file is left alone).
pub fn rewrite_codex_session_file_lines(lines: &Vec<(String, Option<Json>)>, mode: &SessionMetaRewrite) -> (r:
    Option<(Vec<JsonlLine>, Vec<String>)>)
    ensures
        r is Some <==> file_changes(*mode, read_views(lines@)),
        r matches Some((out, sources)) ==> {
            &&& jsonl_views(out@) == rewritten_file(*mode, read_views(lines@))
            &&& views(sources@) == recorded_sources(*mode, read_views(lines@))
        },
{
    let ghost rv = read_views(lines@);
    let ghost want = rewritten_file(*mode, rv);
    let mut out: Vec<JsonlLine> = Vec::new();
    let mut sources: Vec<String> = Vec::new();
    let mut changed = false;
    let mut i: usize = 0;
    while i < lines.len()
        invariant
            i <= lines@.len(),
            rv == read_views(lines@),
            want == rewritten_file(*mode, rv),
            jsonl_views(out@) == want.take(i as int),
            views(sources@) == recorded_sources(*mode, rv.take(i as int)),
            changed == exists|k: int| 0 <= k < i && (#[trigger] line_rewrite(*mode, rv[k].0, rv[k].1)) is Some,
        decreases lines.len() - i,
    {
        assert(rv[i as int] == (lines@[i as int].0@, match lines@[i as int].1 {
            Some(j) => Some(jview(j)),
            None => None,
        }));
        assert(rv.take(i + 1).drop_last() =~= rv.take(i as int));
        assert(rv.take(i + 1).last() == rv[i as int]);
        let ghost before = out@;
        match rewrite_line(lines[i].0.as_str(), &lines[i].1, mode) {
            Some((j, src)) => {
                let ghost jv = j@;
                out.push(JsonlLine::Value(j));
                assert(jsonl_views(out@) =~= jsonl_views(before).push(LineView::Value(jv)));
                changed = true;
                match src {
                    Some(s) => {
                        let ghost sb = sources@;
                        let ghost sv = s@;
                        sources.push(s);
                        assert(views(sources@) =~= views(sb).push(sv));
                    },
                    None => {},
                }
            },
            None => {
                let raw = owned(lines[i].0.as_str());
                let ghost rwv = raw@;
                out.push(JsonlLine::Raw(raw));
                assert(jsonl_views(out@) =~= jsonl_views(before).push(LineView::Raw(rwv)));
            },
        }
        assert(want.take(i + 1) =~= want.take(i as int).push(want[i as int]));
        i = i + 1;
    }
    assert(want.take(lines@.len() as int) =~= want);
    assert(rv.take(lines@.len() as int) =~= rv);
    if changed {
        Some((out, sources))
    } else {
        None
    }
}

// ---------------------------------------------------------------------------
// Laws
// ---------------------------------------------------------------------------

proof fn lemma_with_provider_reads(v: JsonValue, es: Seq<(Seq<char>, JsonValue)>, p: Seq<char>)
    requires
        meta_payload(v) == Some(es),
    ensures
        meta_payload(with_provider(v, es, p)) == Some(entries_insert(es, "model_provider"@, JsonValue::Text(p))),
        opt_str(entries_get(entries_insert(es, "model_provider"@, JsonValue::Text(p)), "model_provider"@)) == Some(p),
{
    reveal_strlit("type");
    reveal_strlit("payload");
    let np = JsonValue::Object(entries_insert(es, "model_provider"@, JsonValue::Text(p)));
    crate::json::set_member_reads_back(v, "payload"@, np, "type"@);
    crate::json::lemma_entries_insert_get(es, "model_provider"@, JsonValue::Text(p), "model_provider"@);
    assert("type"@ != "payload"@) by {
        assert("type"@.len() != "payload"@.len());
    }
}

/// Moving a rollout into the target bucket twice changes nothing the second time:
/// once moved, its session_meta line names the target, which is not a source.
pub proof fn moving_to_target_is_idempotent(
    raw: Seq<char>,
    line: Option<JsonValue>,
    sources: Seq<Seq<char>>,
    target: Seq<char>,
    raw_after: Seq<char>,
)
    requires
        !sources.contains(target),
        meta_to_target(raw, line, sources, target) is Some,
    ensures
        meta_to_target(raw_after, meta_to_target(raw, line, sources, target), sources, target) is None,
{
    let v = line->0;
    let es = meta_payload(v)->0;
    lemma_with_provider_reads(v, es, target);
}

/// Moving a session_meta line from any other bucket to a (trimmed) target twice changes
/// nothing the second time.
pub proof fn moving_from_any_bucket_is_idempotent(
    raw: Seq<char>,
    line: Option<JsonValue>,
    target: Seq<char>,
    raw_after: Seq<char>,
)
    requires
        trim(target) == target,
        meta_from_any(raw, line, target) is Some,
    ensures
        meta_from_any(raw_after, Some((meta_from_any(raw, line, target)->0).0), target) is None,
{
    let v = line->0;
    let es = meta_payload(v)->0;
    lemma_with_provider_reads(v, es, target);
}

/// Restoring official sessions twice changes nothing the second time: a restored line
/// names the official bucket, not the custom one.
pub proof fn restore_is_idempotent(
    raw: Seq<char>,
    line: Option<JsonValue>,
    official_sessions: Seq<Seq<char>>,
    custom: Seq<char>,
    official: Seq<char>,
    raw_after: Seq<char>,
)
    requires
        custom != official,
        meta_for_restore(raw, line, official_sessions, custom, official) is Some,
    ensures
        meta_for_restore(
            raw_after,
            meta_for_restore(raw, line, official_sessions, custom, official),
            official_sessions,
            custom,
            official,
        ) is None,
{
    let v = line->0;
    let es = meta_payload(v)->0;
    lemma_with_provider_reads(v, es, official);
}

} // verus!
