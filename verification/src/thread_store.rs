//! Writing rebuilt threads into Codex's `threads` table: which columns a row sets for
//! a rollout, given the columns the table has, and the statements that do it. Running
//! the statements is the caller's.
use vstd::prelude::*;
use crate::history::{millis_to_seconds, seconds_of_millis, RolloutThreadMetadata};
use crate::text::{concat, contains_str, join, join_strings, owned, views};
use crate::thread_merge::{meta_view, MetaView};

verus! {

/// A value bound to a statement parameter.
#[derive(Debug, Clone)]
pub enum SqlValue {
    Null,
    Text(String),
    Integer(i64),
}

/// The mathematical value of a parameter.
pub enum SqlValueView {
    Null,
    Text(Seq<char>),
    Integer(i64),
}

pub open spec fn sql_view(v: SqlValue) -> SqlValueView {
    match v {
        SqlValue::Null => SqlValueView::Null,
        SqlValue::Text(s) => SqlValueView::Text(s@),
        SqlValue::Integer(n) => SqlValueView::Integer(n),
    }
}

pub open spec fn column_views(cs: Seq<(String, SqlValue)>) -> Seq<(Seq<char>, SqlValueView)> {
    cs.map_values(|c: (String, SqlValue)| (c.0@, sql_view(c.1)))
}

pub open spec fn text_or(o: Option<Seq<char>>, default: Seq<char>) -> Seq<char> {
    match o {
        Some(s) => s,
        None => default,
    }
}

pub open spec fn flag_of(b: bool) -> i64 {
    if b {
        1
    } else {
        0
    }
}

/// The columns a new row may set for a rollout, in statement order (after `id`).
pub open spec fn insert_candidates(m: MetaView, target: Seq<char>) -> Seq<(Seq<char>, SqlValueView)> {
    seq![
        ("rollout_path"@, SqlValueView::Text(m.rollout_path)),
        ("created_at"@, SqlValueView::Integer(millis_to_seconds(m.created_at_ms))),
        ("updated_at"@, SqlValueView::Integer(millis_to_seconds(m.updated_at_ms))),
        ("created_at_ms"@, SqlValueView::Integer(m.created_at_ms)),
        ("updated_at_ms"@, SqlValueView::Integer(m.updated_at_ms)),
        ("recency_at"@, SqlValueView::Integer(millis_to_seconds(m.updated_at_ms))),
        ("recency_at_ms"@, SqlValueView::Integer(m.updated_at_ms)),
        ("source"@, SqlValueView::Text(text_or(m.source, "cli"@))),
        ("thread_source"@, SqlValueView::Text(text_or(m.thread_source, "user"@))),
        ("model_provider"@, SqlValueView::Text(target)),
        ("cwd"@, SqlValueView::Text(text_or(m.cwd, Seq::empty()))),
        ("title"@, SqlValueView::Text(text_or(m.title, Seq::empty()))),
        ("preview"@, SqlValueView::Text(text_or(m.preview, Seq::empty()))),
        ("first_user_message"@, SqlValueView::Text(text_or(m.first_user_message, Seq::empty()))),
        ("has_user_event"@, SqlValueView::Integer(flag_of(m.has_user_event))),
        ("archived"@, SqlValueView::Integer(flag_of(m.archived))),
        ("sandbox_policy"@, SqlValueView::Text(Seq::empty())),
        ("approval_mode"@, SqlValueView::Text(Seq::empty())),
        ("cli_version"@, SqlValueView::Text(Seq::empty())),
        ("history_mode"@, SqlValueView::Text("legacy"@)),
    ]
}

/// The columns a rebuilt row sets from its rollout, in statement order.
pub open spec fn update_candidates(m: MetaView, target: Seq<char>) -> Seq<(Seq<char>, SqlValueView)> {
    seq![
        ("rollout_path"@, SqlValueView::Text(m.rollout_path)),
        ("model_provider"@, SqlValueView::Text(target)),
        ("cwd"@, SqlValueView::Text(text_or(m.cwd, Seq::empty()))),
        ("source"@, SqlValueView::Text(text_or(m.source, "cli"@))),
        ("thread_source"@, SqlValueView::Text(text_or(m.thread_source, "user"@))),
        ("title"@, SqlValueView::Text(text_or(m.title, Seq::empty()))),
        ("preview"@, SqlValueView::Text(text_or(m.preview, Seq::empty()))),
        ("first_user_message"@, SqlValueView::Text(text_or(m.first_user_message, Seq::empty()))),
        ("has_user_event"@, SqlValueView::Integer(flag_of(m.has_user_event))),
        ("archived"@, SqlValueView::Integer(flag_of(m.archived))),
        ("updated_at_ms"@, SqlValueView::Integer(m.updated_at_ms)),
        ("updated_at"@, SqlValueView::Integer(millis_to_seconds(m.updated_at_ms))),
        ("recency_at_ms"@, SqlValueView::Integer(m.updated_at_ms)),
        ("recency_at"@, SqlValueView::Integer(millis_to_seconds(m.updated_at_ms))),
    ]
}

/// The candidates whose column the table has, in order.
pub open spec fn present_columns(cands: Seq<(Seq<char>, SqlValueView)>, columns: Seq<Seq<char>>) -> Seq<
    (Seq<char>, SqlValueView),
>
    decreases cands.len(),
{
    if cands.len() == 0 {
        Seq::empty()
    } else {
        let before = present_columns(cands.drop_last(), columns);
        if columns.contains(cands.last().0) {
            before.push(cands.last())
        } else {
            before
        }
    }
}

fn text_value(s: &str) -> (r: SqlValue)
    ensures
        sql_view(r) == SqlValueView::Text(s@),
{
    SqlValue::Text(owned(s))
}

fn opt_text_value(o: &Option<String>, default: &str) -> (r: SqlValue)
    ensures
        sql_view(r) == SqlValueView::Text(
            text_or(
                match *o {
                    Some(s) => Some(s@),
                    None => None,
                },
                default@,
            ),
        ),
{
    match o {
        Some(s) => SqlValue::Text(owned(s.as_str())),
        None => SqlValue::Text(owned(default)),
    }
}

fn keep_present(cands: Vec<(String, SqlValue)>, columns: &Vec<String>) -> (r: Vec<(String, SqlValue)>)
    ensures
        column_views(r@) == present_columns(column_views(cands@), views(columns@)),
{
    let ghost cv = column_views(cands@);
    let mut out: Vec<(String, SqlValue)> = Vec::new();
    let mut i: usize = 0;
    while i < cands.len()
        invariant
            i <= cands@.len(),
            cv == column_views(cands@),
            column_views(out@) == present_columns(cv.take(i as int), views(columns@)),
        decreases cands.len() - i,
    {
        assert(cv.take(i + 1).drop_last() =~= cv.take(i as int));
        assert(cv.take(i + 1).last() == (cands@[i as int].0@, sql_view(cands@[i as int].1)));
        if contains_str(columns, cands[i].0.as_str()) {
            let ghost before = out@;
            let c = (owned(cands[i].0.as_str()), match &cands[i].1 {
                SqlValue::Null => SqlValue::Null,
                SqlValue::Text(s) => SqlValue::Text(owned(s.as_str())),
                SqlValue::Integer(n) => SqlValue::Integer(*n),
            });
            out.push(c);
            assert(column_views(out@) =~= column_views(before).push(cv[i as int]));
        }
        i = i + 1;
    }
    assert(cv.take(cands@.len() as int) =~= cv);
    out
}

/// The columns and values of the row to insert for a rollout's thread: `id`, then each
/// column the table has.
pub fn thread_insert_columns(m: &RolloutThreadMetadata, target_provider: &str, columns: &Vec<String>) -> (r: Vec<
    (String, SqlValue),
>)
    ensures
        column_views(r@) == seq![("id"@, SqlValueView::Text(m.id@))] + present_columns(
            insert_candidates(meta_view(*m), target_provider@),
            views(columns@),
        ),
{
    let updated = seconds_of_millis(m.updated_at_ms);
    let mut c: Vec<(String, SqlValue)> = Vec::new();
    c.push((owned("rollout_path"), text_value(m.rollout_path.as_str())));
    c.push((owned("created_at"), SqlValue::Integer(seconds_of_millis(m.created_at_ms))));
    c.push((owned("updated_at"), SqlValue::Integer(updated)));
    c.push((owned("created_at_ms"), SqlValue::Integer(m.created_at_ms)));
    c.push((owned("updated_at_ms"), SqlValue::Integer(m.updated_at_ms)));
    c.push((owned("recency_at"), SqlValue::Integer(updated)));
    c.push((owned("recency_at_ms"), SqlValue::Integer(m.updated_at_ms)));
    c.push((owned("source"), opt_text_value(&m.source, "cli")));
    c.push((owned("thread_source"), opt_text_value(&m.thread_source, "user")));
    c.push((owned("model_provider"), text_value(target_provider)));
    c.push((owned("cwd"), opt_text_value(&m.cwd, "")));
    c.push((owned("title"), opt_text_value(&m.title, "")));
    c.push((owned("preview"), opt_text_value(&m.preview, "")));
    c.push((owned("first_user_message"), opt_text_value(&m.first_user_message, "")));
    c.push((owned("has_user_event"), SqlValue::Integer(if m.has_user_event { 1 } else { 0 })));
    c.push((owned("archived"), SqlValue::Integer(if m.archived { 1 } else { 0 })));
    c.push((owned("sandbox_policy"), text_value("")));
    c.push((owned("approval_mode"), text_value("")));
    c.push((owned("cli_version"), text_value("")));
    c.push((owned("history_mode"), text_value("legacy")));
    proof {
        reveal_strlit("");
        assert(""@ =~= Seq::<char>::empty());
        assert(column_views(c@) =~= insert_candidates(meta_view(*m), target_provider@));
    }
    let kept = keep_present(c, columns);
    let ghost kv = column_views(kept@);
    let mut out: Vec<(String, SqlValue)> = Vec::new();
    out.push((owned("id"), text_value(m.id.as_str())));
    let ghost first = column_views(out@);
    assert(first =~= seq![("id"@, SqlValueView::Text(m.id@))]);
    let mut rest = kept;
    out.append(&mut rest);
    assert(column_views(out@) =~= first + kv);
    out
}

/// The columns and values a rebuilt row sets from its rollout, each column the table
/// has; empty when it has none of them (the row is then left alone).
pub fn thread_update_columns(m: &RolloutThreadMetadata, target_provider: &str, columns: &Vec<String>) -> (r: Vec<
    (String, SqlValue),
>)
    ensures
        column_views(r@) == present_columns(update_candidates(meta_view(*m), target_provider@), views(columns@)),
{
    let updated = seconds_of_millis(m.updated_at_ms);
    let mut c: Vec<(String, SqlValue)> = Vec::new();
    c.push((owned("rollout_path"), text_value(m.rollout_path.as_str())));
    c.push((owned("model_provider"), text_value(target_provider)));
    c.push((owned("cwd"), opt_text_value(&m.cwd, "")));
    c.push((owned("source"), opt_text_value(&m.source, "cli")));
    c.push((owned("thread_source"), opt_text_value(&m.thread_source, "user")));
    c.push((owned("title"), opt_text_value(&m.title, "")));
    c.push((owned("preview"), opt_text_value(&m.preview, "")));
    c.push((owned("first_user_message"), opt_text_value(&m.first_user_message, "")));
    c.push((owned("has_user_event"), SqlValue::Integer(if m.has_user_event { 1 } else { 0 })));
    c.push((owned("archived"), SqlValue::Integer(if m.archived { 1 } else { 0 })));
    c.push((owned("updated_at_ms"), SqlValue::Integer(m.updated_at_ms)));
    c.push((owned("updated_at"), SqlValue::Integer(updated)));
    c.push((owned("recency_at_ms"), SqlValue::Integer(m.updated_at_ms)));
    c.push((owned("recency_at"), SqlValue::Integer(updated)));
    proof {
        reveal_strlit("");
        assert(""@ =~= Seq::<char>::empty());
        assert(column_views(c@) =~= update_candidates(meta_view(*m), target_provider@));
    }
    keep_present(c, columns)
}

/// The column names of the pairs.
pub open spec fn names_of(cs: Seq<(Seq<char>, SqlValueView)>) -> Seq<Seq<char>> {
    cs.map_values(|c: (Seq<char>, SqlValueView)| c.0)
}

/// `n` placeholders.
pub open spec fn placeholders(n: nat) -> Seq<Seq<char>> {
    Seq::new(n, |i: int| "?"@)
}

/// The statement that inserts a row with these columns, leaving an existing row of the
/// same id alone.
pub open spec fn insert_statement(cs: Seq<(Seq<char>, SqlValueView)>) -> Seq<char> {
    "INSERT INTO threads ("@ + join(names_of(cs), ", "@) + ") VALUES ("@ + join(
        placeholders(cs.len()),
        ", "@,
    ) + ") ON CONFLICT(id) DO NOTHING"@
}

/// The statement that sets these columns of the row with a given id (bound last).
pub open spec fn update_statement(cs: Seq<(Seq<char>, SqlValueView)>) -> Seq<char> {
    "UPDATE threads SET "@ + join(names_of(cs).map_values(|n: Seq<char>| n + " = ?"@), ", "@)
        + " WHERE id = ?"@
}

fn column_names(cs: &Vec<(String, SqlValue)>) -> (r: Vec<String>)
    ensures
        views(r@) == names_of(column_views(cs@)),
{
    let mut out: Vec<String> = Vec::new();
    let mut i: usize = 0;
    while i < cs.len()
        invariant
            i <= cs@.len(),
            views(out@) == names_of(column_views(cs@)).take(i as int),
        decreases cs.len() - i,
    {
        let ghost before = out@;
        out.push(owned(cs[i].0.as_str()));
        assert(views(out@) =~= views(before).push(cs@[i as int].0@));
        assert(names_of(column_views(cs@)).take(i + 1) =~= names_of(column_views(cs@)).take(i as int).push(
            cs@[i as int].0@,
        ));
        i = i + 1;
    }
    assert(names_of(column_views(cs@)).take(cs@.len() as int) =~= names_of(column_views(cs@)));
    out
}

/// The insert statement for the columns.
pub fn insert_thread_statement(cs: &Vec<(String, SqlValue)>) -> (r: String)
    ensures
        r@ == insert_statement(column_views(cs@)),
{
    let names = column_names(cs);
    let mut marks: Vec<String> = Vec::new();
    let mut i: usize = 0;
    while i < cs.len()
        invariant
            i <= cs@.len(),
            views(marks@) == placeholders(i as nat),
        decreases cs.len() - i,
    {
        let ghost before = marks@;
        let q = owned("?");
        assert(q@ == "?"@);
        marks.push(q);
        assert(views(marks@) =~= views(before).push("?"@));
        assert(views(marks@) =~= placeholders((i + 1) as nat));
        i = i + 1;
    }
    let head = concat("INSERT INTO threads (", join_strings(&names, ", ").as_str());
    let mid = concat(head.as_str(), ") VALUES (");
    let tail = concat(mid.as_str(), join_strings(&marks, ", ").as_str());
    concat(tail.as_str(), ") ON CONFLICT(id) DO NOTHING")
}

/// The update statement for the columns: `None` when there is nothing to set.
pub fn update_thread_statement(cs: &Vec<(String, SqlValue)>) -> (r: Option<String>)
    ensures
        cs@.len() == 0 <==> r is None,
        r matches Some(s) ==> s@ == update_statement(column_views(cs@)),
{
    if cs.len() == 0 {
        return None;
    }
    let names = column_names(cs);
    let mut parts: Vec<String> = Vec::new();
    let mut i: usize = 0;
    while i < names.len()
        invariant
            i <= names@.len(),
            views(parts@) == views(names@).map_values(|n: Seq<char>| n + " = ?"@).take(i as int),
        decreases names.len() - i,
    {
        let ghost before = parts@;
        let p = concat(names[i].as_str(), " = ?");
        parts.push(p);
        assert(views(parts@) =~= views(before).push(names@[i as int]@ + " = ?"@));
        assert(views(names@).map_values(|n: Seq<char>| n + " = ?"@).take(i + 1) =~= views(names@).map_values(
            |n: Seq<char>| n + " = ?"@,
        ).take(i as int).push(names@[i as int]@ + " = ?"@));
        i = i + 1;
    }
    assert(views(names@).map_values(|n: Seq<char>| n + " = ?"@).take(names@.len() as int)
        =~= views(names@).map_values(|n: Seq<char>| n + " = ?"@));
    let head = concat("UPDATE threads SET ", join_strings(&parts, ", ").as_str());
    Some(concat(head.as_str(), " WHERE id = ?"))
}

} // verus!
