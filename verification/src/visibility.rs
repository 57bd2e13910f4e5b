//! Making Codex history visible again: what `session_index.jsonl` and
//! `.codex-global-state.json` hold for the threads a repair brings back, and how they
//! are rewritten. Reading and writing the files is the caller's; the library reads the
//! parsed lines and values and says what to write.
use vstd::prelude::*;
use crate::json::{
    as_str, entries_get, entries_insert, has_key, entries_lookup, entries_set, eviews, get,
    json_as_array, json_as_str, json_clone, json_get, json_get_str, jview, jviews,
    lemma_entries_insert_get, lemma_entries_insert_same, lemma_jviews_index, json_set, opt_str,
    set_member, Json, JsonValue,
};
use crate::history::{
    json_string, json_string_of, row_project, row_project_key, sview, FocusThreadRow,
    ThreadHistoryRow,
};
use crate::text::{contains_str, owned, str_eq, trim, trim_str, views};

verus! {

// ---------------------------------------------------------------------------
// session_index.jsonl
// ---------------------------------------------------------------------------

/// The values of the lines of a JSONL file: `None` where a line is not JSON.
pub open spec fn line_views(lines: Seq<Option<Json>>) -> Seq<Option<JsonValue>> {
    lines.map_values(|l: Option<Json>| match l {
        Some(j) => Some(jview(j)),
        None => None,
    })
}

/// The text member `key` of a parsed line.
pub open spec fn line_text(line: Option<JsonValue>, key: Seq<char>) -> Option<Seq<char>> {
    match line {
        Some(v) => opt_str(get(v, key)),
        None => None,
    }
}

/// The thread ids the index lines name, in file order.
pub open spec fn index_ids(lines: Seq<Option<JsonValue>>) -> Seq<Seq<char>>
    decreases lines.len(),
{
    if lines.len() == 0 {
        Seq::empty()
    } else {
        let before = index_ids(lines.drop_last());
        match line_text(lines.last(), "id"@) {
            Some(id) => before.push(id),
            None => before,
        }
    }
}

/// The thread ids named by `session_index.jsonl` (its lines as parsed).
pub fn session_index_thread_ids(lines: &Vec<Option<Json>>) -> (r: Vec<String>)
    ensures
        r@.map_values(|s: String| s@) == index_ids(line_views(lines@)),
{
    let ghost lv = line_views(lines@);
    let mut out: Vec<String> = Vec::new();
    let mut i: usize = 0;
    while i < lines.len()
        invariant
            i <= lines@.len(),
            lv == line_views(lines@),
            out@.map_values(|s: String| s@) == index_ids(lv.take(i as int)),
        decreases lines.len() - i,
    {
        assert(lv.take(i + 1).drop_last() =~= lv.take(i as int));
        assert(lv.take(i + 1).last() == lv[i as int]);
        match &lines[i] {
            Some(v) => {
                match json_get_str(v, "id") {
                    Some(id) => {
                        let ghost before = out@;
                        let s = owned(id.as_str());
                        out.push(s);
                        assert(out@.map_values(|s: String| s@) =~= before.map_values(
                            |s: String| s@,
                        ).push(id@));
                    },
                    None => {},
                }
            },
            None => {},
        }
        i = i + 1;
    }
    assert(lv.take(lines@.len() as int) =~= lv);
    out
}

/// The `(id, title)` pairs the index lines give, both trimmed and non-empty, in file
/// order.
pub open spec fn index_titles(lines: Seq<Option<JsonValue>>) -> Seq<(Seq<char>, Seq<char>)>
    decreases lines.len(),
{
    if lines.len() == 0 {
        Seq::empty()
    } else {
        let before = index_titles(lines.drop_last());
        match (line_text(lines.last(), "id"@), line_text(lines.last(), "thread_name"@)) {
            (Some(id), Some(title)) => if trim(id).len() > 0 && trim(title).len() > 0 {
                before.push((trim(id), trim(title)))
            } else {
                before
            },
            _ => before,
        }
    }
}

/// The value of the last pair named `key` (a map collected from the pairs).
pub open spec fn last_value(pairs: Seq<(Seq<char>, Seq<char>)>, key: Seq<char>) -> Option<Seq<char>>
    decreases pairs.len(),
{
    if pairs.len() == 0 {
        None
    } else if pairs.last().0 == key {
        Some(pairs.last().1)
    } else {
        last_value(pairs.drop_last(), key)
    }
}

pub open spec fn pair_views(pairs: Seq<(String, String)>) -> Seq<(Seq<char>, Seq<char>)> {
    pairs.map_values(|p: (String, String)| (p.0@, p.1@))
}

/// The persisted thread titles of `session_index.jsonl`, as `(id, title)` pairs; a
/// later line for the same id wins.
pub fn session_index_thread_titles(lines: &Vec<Option<Json>>) -> (r: Vec<(String, String)>)
    ensures
        pair_views(r@) == index_titles(line_views(lines@)),
{
    let ghost lv = line_views(lines@);
    let mut out: Vec<(String, String)> = Vec::new();
    let mut i: usize = 0;
    while i < lines.len()
        invariant
            i <= lines@.len(),
            lv == line_views(lines@),
            pair_views(out@) == index_titles(lv.take(i as int)),
        decreases lines.len() - i,
    {
        assert(lv.take(i + 1).drop_last() =~= lv.take(i as int));
        assert(lv.take(i + 1).last() == lv[i as int]);
        match &lines[i] {
            Some(v) => {
                match (json_get_str(v, "id"), json_get_str(v, "thread_name")) {
                    (Some(id), Some(title)) => {
                        let id_t = trim_str(id.as_str());
                        let title_t = trim_str(title.as_str());
                        if !id_t.as_str().is_empty() && !title_t.as_str().is_empty() {
                            let ghost before = out@;
                            let ghost pv = (id_t@, title_t@);
                            out.push((id_t, title_t));
                            assert(pair_views(out@) =~= pair_views(before).push(pv));
                        }
                    },
                    _ => {},
                }
            },
            None => {},
        }
        i = i + 1;
    }
    assert(lv.take(lines@.len() as int) =~= lv);
    out
}

/// The title the pairs give for `key` (`HashMap::get` on the collected pairs).
pub fn title_for(pairs: &Vec<(String, String)>, key: &str) -> (r: Option<String>)
    ensures
        match r {
            Some(t) => last_value(pair_views(pairs@), key@) == Some(t@),
            None => last_value(pair_views(pairs@), key@) is None,
        },
{
    let ghost pv = pair_views(pairs@);
    let mut i: usize = pairs.len();
    assert(pv.take(i as int) =~= pv);
    while i > 0
        invariant
            i <= pairs@.len(),
            pv == pair_views(pairs@),
            last_value(pv, key@) == last_value(pv.take(i as int), key@),
        decreases i,
    {
        assert(pv.take(i as int).drop_last() =~= pv.take(i - 1));
        assert(pv.take(i as int).last() == pv[i - 1]);
        if str_eq(pairs[i - 1].0.as_str(), key) {
            return Some(owned(pairs[i - 1].1.as_str()));
        }
        i = i - 1;
    }
    None
}

/// The title of the last selected row for `id`.
pub open spec fn selected_title(selected: Seq<FocusThreadRow>, id: Seq<char>) -> Option<Seq<char>>
    decreases selected.len(),
{
    if selected.len() == 0 {
        None
    } else if selected.last().id@ == id {
        Some(selected.last().title@)
    } else {
        selected_title(selected.drop_last(), id)
    }
}

/// The selected row for `id`, the last one where several share it.
pub open spec fn selected_index(selected: Seq<FocusThreadRow>, id: Seq<char>) -> int
    decreases selected.len(),
{
    if selected.len() == 0 {
        -1
    } else if selected.last().id@ == id {
        selected.len() - 1
    } else {
        selected_index(selected.drop_last(), id)
    }
}

/// The stored title of a line, the empty text where it has none.
pub open spec fn stored_title(line: Option<JsonValue>) -> Seq<char> {
    match line_text(line, "thread_name"@) {
        Some(t) => t,
        None => Seq::empty(),
    }
}

/// Whether an index line names a selected thread whose non-empty title differs from
/// the stored one (both trimmed).
pub open spec fn stale_title(line: Option<JsonValue>, selected: Seq<FocusThreadRow>) -> bool {
    match line_text(line, "id"@) {
        Some(id) => match selected_title(selected, id) {
            Some(t) => trim(t).len() > 0 && trim(stored_title(line)) != trim(t),
            None => false,
        },
        None => false,
    }
}

/// How many index lines hold a stale title for a selected thread.
pub open spec fn stale_title_count(lines: Seq<Option<JsonValue>>, selected: Seq<FocusThreadRow>) -> nat
    decreases lines.len(),
{
    if lines.len() == 0 {
        0
    } else {
        stale_title_count(lines.drop_last(), selected) + if stale_title(lines.last(), selected) {
            1nat
        } else {
            0nat
        }
    }
}

proof fn lemma_selected_index(selected: Seq<FocusThreadRow>, id: Seq<char>)
    ensures
        -1 <= selected_index(selected, id) < selected.len(),
        selected_index(selected, id) == -1 <==> selected_title(selected, id) is None,
        selected_index(selected, id) >= 0 ==> selected_title(selected, id) == Some(
            selected[selected_index(selected, id)].title@,
        ) && selected[selected_index(selected, id)].id@ == id,
    decreases selected.len(),
{
    if selected.len() > 0 {
        lemma_selected_index(selected.drop_last(), id);
    }
}

/// The selected row for `id`: the last one that has it.
pub fn find_selected(selected: &Vec<FocusThreadRow>, id: &str) -> (r: Option<usize>)
    ensures
        match r {
            Some(k) => k < selected@.len() && k == selected_index(selected@, id@),
            None => selected_index(selected@, id@) == -1,
        },
{
    let mut i: usize = selected.len();
    assert(selected@.take(i as int) =~= selected@);
    while i > 0
        invariant
            i <= selected@.len(),
            selected_index(selected@, id@) == selected_index(selected@.take(i as int), id@),
        decreases i,
    {
        assert(selected@.take(i as int).drop_last() =~= selected@.take(i - 1));
        if str_eq(selected[i - 1].id.as_str(), id) {
            return Some(i - 1);
        }
        i = i - 1;
    }
    None
}

fn stored_title_of(v: &Json) -> (r: String)
    ensures
        r@ == stored_title(Some(v@)),
{
    match json_get_str(v, "thread_name") {
        Some(t) => owned(t.as_str()),
        None => String::new(),
    }
}

/// How many lines of `session_index.jsonl` hold a stale title for one of the selected
/// threads; missing lines are counted elsewhere.
pub fn count_session_index_title_updates(lines: &Vec<Option<Json>>, selected: &Vec<FocusThreadRow>) -> (r: usize)
    ensures
        r == stale_title_count(line_views(lines@), selected@),
{
    let ghost lv = line_views(lines@);
    let mut count: usize = 0;
    let mut i: usize = 0;
    while i < lines.len()
        invariant
            i <= lines@.len(),
            lv == line_views(lines@),
            count == stale_title_count(lv.take(i as int), selected@),
            count <= i,
        decreases lines.len() - i,
    {
        assert(lv.take(i + 1).drop_last() =~= lv.take(i as int));
        assert(lv.take(i + 1).last() == lv[i as int]);
        let mut stale = false;
        match &lines[i] {
            Some(v) => {
                match json_get_str(v, "id") {
                    Some(id) => {
                        proof {
                            lemma_selected_index(selected@, id@);
                        }
                        match find_selected(selected, id.as_str()) {
                            Some(k) => {
                                let title = trim_str(selected[k].title.as_str());
                                let stored = trim_str(stored_title_of(v).as_str());
                                stale = !title.as_str().is_empty() && !str_eq(
                                    stored.as_str(),
                                    title.as_str(),
                                );
                            },
                            None => {},
                        }
                    },
                    None => {},
                }
            },
            None => {},
        }
        assert(stale == stale_title(lv[i as int], selected@));
        if stale {
            count = count + 1;
        }
        i = i + 1;
    }
    assert(lv.take(lines@.len() as int) =~= lv);
    count
}

// ---------------------------------------------------------------------------
// Workspace hints
// ---------------------------------------------------------------------------

/// The first index of a pair named `key`, or -1.
pub open spec fn key_index(pairs: Seq<(Seq<char>, Seq<char>)>, key: Seq<char>) -> int
    decreases pairs.len(),
{
    if pairs.len() == 0 {
        -1
    } else {
        let j = key_index(pairs.drop_last(), key);
        if j >= 0 {
            j
        } else if pairs.last().0 == key {
            pairs.len() - 1
        } else {
            -1
        }
    }
}

/// The pairs with `key` mapped to `value` (`BTreeMap::insert`): the pair of that name
/// takes the new value, or a new pair is added.
pub open spec fn upsert(pairs: Seq<(Seq<char>, Seq<char>)>, key: Seq<char>, value: Seq<char>) -> Seq<
    (Seq<char>, Seq<char>),
> {
    let j = key_index(pairs, key);
    if j >= 0 {
        pairs.update(j, (key, value))
    } else {
        pairs.push((key, value))
    }
}

/// No two pairs share a name.
pub open spec fn distinct_keys(pairs: Seq<(Seq<char>, Seq<char>)>) -> bool {
    forall|i: int, j: int| 0 <= i < j < pairs.len() ==> pairs[i].0 != pairs[j].0
}

pub proof fn lemma_key_index(pairs: Seq<(Seq<char>, Seq<char>)>, key: Seq<char>)
    ensures
        -1 <= key_index(pairs, key) < pairs.len(),
        key_index(pairs, key) == -1 ==> forall|m: int| 0 <= m < pairs.len() ==> pairs[m].0 != key,
        key_index(pairs, key) >= 0 ==> pairs[key_index(pairs, key)].0 == key && forall|m: int|
            0 <= m < key_index(pairs, key) ==> pairs[m].0 != key,
    decreases pairs.len(),
{
    if pairs.len() > 0 {
        let d = pairs.drop_last();
        lemma_key_index(d, key);
        assert forall|m: int| 0 <= m < d.len() implies d[m] == pairs[m] by {}
    }
}

pub proof fn lemma_upsert_distinct(pairs: Seq<(Seq<char>, Seq<char>)>, key: Seq<char>, value: Seq<char>)
    requires
        distinct_keys(pairs),
    ensures
        distinct_keys(upsert(pairs, key, value)),
{
    lemma_key_index(pairs, key);
}

/// The cwd hints the visible rows give: each row with a normalisable cwd, the later
/// row winning.
pub open spec fn row_hints(rows: Seq<ThreadHistoryRow>) -> Seq<(Seq<char>, Seq<char>)>
    decreases rows.len(),
{
    if rows.len() == 0 {
        Seq::empty()
    } else {
        let before = row_hints(rows.drop_last());
        match row_project(rows.last()) {
            Some(c) => upsert(before, rows.last().id@, c),
            None => before,
        }
    }
}

/// The hints with every selected thread pointed at the project.
pub open spec fn project_hints(
    base: Seq<(Seq<char>, Seq<char>)>,
    selected: Seq<FocusThreadRow>,
    project: Seq<char>,
) -> Seq<(Seq<char>, Seq<char>)>
    decreases selected.len(),
{
    if selected.len() == 0 {
        base
    } else {
        upsert(project_hints(base, selected.drop_last(), project), selected.last().id@, project)
    }
}

/// The workspace root each visible thread should be hinted to: its own normalised cwd,
/// or the project for the selected threads when a project is given.
pub open spec fn expected_hints(
    visible: Seq<ThreadHistoryRow>,
    selected: Seq<FocusThreadRow>,
    project: Option<Seq<char>>,
) -> Seq<(Seq<char>, Seq<char>)> {
    match project {
        Some(p) => project_hints(row_hints(visible), selected, p),
        None => row_hints(visible),
    }
}

proof fn lemma_row_hints_distinct(rows: Seq<ThreadHistoryRow>)
    ensures
        distinct_keys(row_hints(rows)),
    decreases rows.len(),
{
    if rows.len() > 0 {
        lemma_row_hints_distinct(rows.drop_last());
        if let Some(c) = row_project(rows.last()) {
            lemma_upsert_distinct(row_hints(rows.drop_last()), rows.last().id@, c);
        }
    }
}

proof fn lemma_project_hints_distinct(
    base: Seq<(Seq<char>, Seq<char>)>,
    selected: Seq<FocusThreadRow>,
    project: Seq<char>,
)
    requires
        distinct_keys(base),
    ensures
        distinct_keys(project_hints(base, selected, project)),
    decreases selected.len(),
{
    if selected.len() > 0 {
        lemma_project_hints_distinct(base, selected.drop_last(), project);
        lemma_upsert_distinct(
            project_hints(base, selected.drop_last(), project),
            selected.last().id@,
            project,
        );
    }
}

/// Every thread gets one hint.
pub proof fn lemma_expected_hints_distinct(
    visible: Seq<ThreadHistoryRow>,
    selected: Seq<FocusThreadRow>,
    project: Option<Seq<char>>,
)
    ensures
        distinct_keys(expected_hints(visible, selected, project)),
{
    lemma_row_hints_distinct(visible);
    if let Some(p) = project {
        lemma_project_hints_distinct(row_hints(visible), selected, p);
    }
}

fn upsert_pair(pairs: &mut Vec<(String, String)>, key: String, value: String)
    ensures
        pair_views(final(pairs)@) == upsert(pair_views(old(pairs)@), key@, value@),
{
    let ghost pv = pair_views(pairs@);
    let ghost kv = (key@, value@);
    proof {
        lemma_key_index(pv, key@);
    }
    let mut i: usize = 0;
    while i < pairs.len()
        invariant
            i <= pairs@.len(),
            pv == pair_views(pairs@),
            pairs@ == old(pairs)@,
            kv == (key@, value@),
            forall|m: int| 0 <= m < i ==> pv[m].0 != key@,
        decreases pairs.len() - i,
    {
        assert(pv[i as int].0 == pairs@[i as int].0@);
        if str_eq(pairs[i].0.as_str(), key.as_str()) {
            proof {
                lemma_key_index(pv, key@);
            }
            assert(key_index(pv, key@) == i);
            pairs.set(i, (key, value));
            assert(pair_views(pairs@) =~= pv.update(i as int, kv));
            return;
        }
        i = i + 1;
    }
    assert(key_index(pv, key@) == -1);
    pairs.push((key, value));
    assert(pair_views(pairs@) =~= pv.push(kv));
}

/// The workspace root hint each visible thread should have (`thread id -> root`).
pub fn expected_workspace_hints(
    visible_rows: &Vec<ThreadHistoryRow>,
    selected: &Vec<FocusThreadRow>,
    project_path: Option<&str>,
) -> (r: Vec<(String, String)>)
    ensures
        pair_views(r@) == expected_hints(visible_rows@, selected@, sview(project_path)),
{
    let mut hints: Vec<(String, String)> = Vec::new();
    let mut i: usize = 0;
    while i < visible_rows.len()
        invariant
            i <= visible_rows@.len(),
            pair_views(hints@) == row_hints(visible_rows@.take(i as int)),
        decreases visible_rows.len() - i,
    {
        assert(visible_rows@.take(i + 1).drop_last() =~= visible_rows@.take(i as int));
        match row_project_key(&visible_rows[i]) {
            Some(c) => upsert_pair(&mut hints, owned(visible_rows[i].id.as_str()), c),
            None => {},
        }
        i = i + 1;
    }
    assert(visible_rows@.take(visible_rows@.len() as int) =~= visible_rows@);
    match project_path {
        Some(p) => {
            let ghost base = pair_views(hints@);
            let mut j: usize = 0;
            while j < selected.len()
                invariant
                    j <= selected@.len(),
                    base == row_hints(visible_rows@),
                    pair_views(hints@) == project_hints(base, selected@.take(j as int), p@),
                decreases selected.len() - j,
            {
                assert(selected@.take(j + 1).drop_last() =~= selected@.take(j as int));
                upsert_pair(&mut hints, owned(selected[j].id.as_str()), owned(p));
                j = j + 1;
            }
            assert(selected@.take(selected@.len() as int) =~= selected@);
        },
        None => {},
    }
    hints
}

// ---------------------------------------------------------------------------
// .codex-global-state.json
// ---------------------------------------------------------------------------

/// What a global-state repair fixes, or would fix.
#[derive(Debug, Clone, Copy)]
pub struct GlobalStateRepairCounts {
    pub workspace_hints_to_fix: usize,
    pub projectless_ids_to_remove: usize,
    pub saved_workspace_roots_to_add: usize,
}

/// The members of a state document; one that is not an object counts as empty.
pub open spec fn state_entries(state: JsonValue) -> Seq<(Seq<char>, JsonValue)> {
    match state {
        JsonValue::Object(es) => es,
        _ => Seq::empty(),
    }
}

/// The members of an optional object; anything else counts as empty.
pub open spec fn object_entries(v: Option<JsonValue>) -> Seq<(Seq<char>, JsonValue)> {
    match v {
        Some(JsonValue::Object(es)) => es,
        _ => Seq::empty(),
    }
}

/// The workspace root hints a state holds.
pub open spec fn current_hints(state: JsonValue) -> Seq<(Seq<char>, JsonValue)> {
    object_entries(get(state, "thread-workspace-root-hints"@))
}

/// Whether the hints lack the pair's root for its thread.
pub open spec fn hint_stale(hints: Seq<(Seq<char>, JsonValue)>, pair: (Seq<char>, Seq<char>)) -> bool {
    opt_str(entries_get(hints, pair.0)) != Some(pair.1)
}

/// How many of the pairs the hints lack.
pub open spec fn stale_hint_count(hints: Seq<(Seq<char>, JsonValue)>, pairs: Seq<(Seq<char>, Seq<char>)>) -> nat
    decreases pairs.len(),
{
    if pairs.len() == 0 {
        0
    } else {
        stale_hint_count(hints, pairs.drop_last()) + if hint_stale(hints, pairs.last()) {
            1nat
        } else {
            0nat
        }
    }
}

/// The hints with every pair written in.
pub open spec fn with_hints(hints: Seq<(Seq<char>, JsonValue)>, pairs: Seq<(Seq<char>, Seq<char>)>) -> Seq<
    (Seq<char>, JsonValue),
>
    decreases pairs.len(),
{
    if pairs.len() == 0 {
        hints
    } else {
        entries_insert(
            with_hints(hints, pairs.drop_last()),
            pairs.last().0,
            JsonValue::Text(pairs.last().1),
        )
    }
}

/// Whether `id` is the id of a visible or a selected thread.
pub open spec fn listed(visible: Seq<ThreadHistoryRow>, selected: Seq<FocusThreadRow>, id: Seq<char>) -> bool {
    (exists|i: int| 0 <= i < visible.len() && visible[i].id@ == id) || (exists|i: int|
        0 <= i < selected.len() && selected[i].id@ == id)
}

pub open spec fn id_listed(v: JsonValue, visible: Seq<ThreadHistoryRow>, selected: Seq<FocusThreadRow>) -> bool {
    match v {
        JsonValue::Text(id) => listed(visible, selected, id),
        _ => false,
    }
}

/// The entries of a `projectless-thread-ids` array that name no visible thread.
pub open spec fn unlisted(a: Seq<JsonValue>, visible: Seq<ThreadHistoryRow>, selected: Seq<FocusThreadRow>) -> Seq<
    JsonValue,
>
    decreases a.len(),
{
    if a.len() == 0 {
        Seq::empty()
    } else {
        let before = unlisted(a.drop_last(), visible, selected);
        if id_listed(a.last(), visible, selected) {
            before
        } else {
            before.push(a.last())
        }
    }
}

/// How many entries of the array name a visible thread.
pub open spec fn listed_count(a: Seq<JsonValue>, visible: Seq<ThreadHistoryRow>, selected: Seq<FocusThreadRow>) -> nat
    decreases a.len(),
{
    if a.len() == 0 {
        0
    } else {
        listed_count(a.drop_last(), visible, selected) + if id_listed(a.last(), visible, selected) {
            1nat
        } else {
            0nat
        }
    }
}

/// Whether a roots array holds the root.
pub open spec fn has_root(a: Seq<JsonValue>, root: Seq<char>) -> bool {
    exists|i: int| 0 <= i < a.len() && a[i] == JsonValue::Text(root)
}

/// How many workspace hints a repair sets.
pub open spec fn hints_to_fix(
    state: JsonValue,
    visible: Seq<ThreadHistoryRow>,
    selected: Seq<FocusThreadRow>,
    project: Option<Seq<char>>,
) -> nat {
    stale_hint_count(current_hints(state), expected_hints(visible, selected, project))
}

/// How many projectless ids a repair removes.
pub open spec fn projectless_to_remove(
    state: JsonValue,
    visible: Seq<ThreadHistoryRow>,
    selected: Seq<FocusThreadRow>,
) -> nat {
    match get(state, "projectless-thread-ids"@) {
        Some(JsonValue::Array(a)) => listed_count(a, visible, selected),
        _ => 0,
    }
}

/// Whether a repair adds the project to the saved workspace roots.
pub open spec fn root_missing(state: JsonValue, project: Option<Seq<char>>) -> bool {
    match project {
        Some(p) => !(match get(state, "electron-saved-workspace-roots"@) {
            Some(JsonValue::Array(a)) => has_root(a, p),
            _ => false,
        }),
        None => false,
    }
}

/// The state after a repair: every expected hint set, visible ids taken out of the
/// projectless list, and the project added to the saved roots; other members unchanged.
pub open spec fn repaired_state(
    state: JsonValue,
    visible: Seq<ThreadHistoryRow>,
    selected: Seq<FocusThreadRow>,
    project: Option<Seq<char>>,
) -> JsonValue {
    let es0 = state_entries(state);
    let hints = with_hints(
        object_entries(entries_get(es0, "thread-workspace-root-hints"@)),
        expected_hints(visible, selected, project),
    );
    let es1 = entries_insert(es0, "thread-workspace-root-hints"@, JsonValue::Object(hints));
    let es2 = match entries_get(es1, "projectless-thread-ids"@) {
        Some(JsonValue::Array(a)) => entries_insert(
            es1,
            "projectless-thread-ids"@,
            JsonValue::Array(unlisted(a, visible, selected)),
        ),
        _ => es1,
    };
    let es3 = match project {
        Some(p) => {
            let roots = match entries_get(es2, "electron-saved-workspace-roots"@) {
                Some(JsonValue::Array(a)) => a,
                _ => Seq::empty(),
            };
            entries_insert(
                es2,
                "electron-saved-workspace-roots"@,
                JsonValue::Array(
                    if has_root(roots, p) {
                        roots
                    } else {
                        roots.push(JsonValue::Text(p))
                    },
                ),
            )
        },
        None => es2,
    };
    JsonValue::Object(es3)
}

proof fn lemma_state_get(state: JsonValue, key: Seq<char>)
    ensures
        get(state, key) == entries_get(state_entries(state), key),
{
}

proof fn lemma_with_hints_get(
    hints: Seq<(Seq<char>, JsonValue)>,
    pairs: Seq<(Seq<char>, Seq<char>)>,
    key: Seq<char>,
)
    requires
        forall|m: int| 0 <= m < pairs.len() ==> pairs[m].0 != key,
    ensures
        entries_get(with_hints(hints, pairs), key) == entries_get(hints, key),
    decreases pairs.len(),
{
    if pairs.len() > 0 {
        let d = pairs.drop_last();
        assert forall|m: int| 0 <= m < d.len() implies d[m].0 != key by {
            assert(d[m] == pairs[m]);
        }
        lemma_with_hints_get(hints, d, key);
        lemma_entries_insert_get(
            with_hints(hints, d),
            pairs.last().0,
            JsonValue::Text(pairs.last().1),
            key,
        );
    }
}

fn hint_is_stale(hints: &Vec<(String, Json)>, key: &str, root: &str) -> (r: bool)
    ensures
        r == hint_stale(eviews(hints@), (key@, root@)),
{
    match entries_lookup(hints, key) {
        Some(x) => match json_as_str(x) {
            Some(s) => !str_eq(s.as_str(), root),
            None => true,
        },
        None => true,
    }
}

fn is_listed(visible: &Vec<ThreadHistoryRow>, selected: &Vec<FocusThreadRow>, id: &str) -> (r: bool)
    ensures
        r == listed(visible@, selected@, id@),
{
    let mut i: usize = 0;
    while i < visible.len()
        invariant
            i <= visible@.len(),
            forall|m: int| 0 <= m < i ==> visible@[m].id@ != id@,
        decreases visible.len() - i,
    {
        if str_eq(visible[i].id.as_str(), id) {
            return true;
        }
        i = i + 1;
    }
    let mut j: usize = 0;
    while j < selected.len()
        invariant
            j <= selected@.len(),
            forall|m: int| 0 <= m < j ==> selected@[m].id@ != id@,
        decreases selected.len() - j,
    {
        if str_eq(selected[j].id.as_str(), id) {
            return true;
        }
        j = j + 1;
    }
    false
}

fn json_id_listed(v: &Json, visible: &Vec<ThreadHistoryRow>, selected: &Vec<FocusThreadRow>) -> (r: bool)
    ensures
        r == id_listed(v@, visible@, selected@),
{
    match v {
        Json::Text(s) => is_listed(visible, selected, s.as_str()),
        _ => false,
    }
}

/// The array without the ids of visible threads, and how many it dropped.
fn drop_listed(a: &Vec<Json>, visible: &Vec<ThreadHistoryRow>, selected: &Vec<FocusThreadRow>) -> (r: (
    Vec<Json>,
    usize,
))
    ensures
        jviews(r.0@) == unlisted(jviews(a@), visible@, selected@),
        r.1 == listed_count(jviews(a@), visible@, selected@),
{
    proof {
        lemma_jviews_index(a@);
    }
    let ghost av = jviews(a@);
    let mut kept: Vec<Json> = Vec::new();
    let mut dropped: usize = 0;
    let mut i: usize = 0;
    while i < a.len()
        invariant
            i <= a@.len(),
            av == jviews(a@),
            av.len() == a@.len(),
            forall|k: int| 0 <= k < a@.len() ==> #[trigger] av[k] == jview(a@[k]),
            jviews(kept@) == unlisted(av.take(i as int), visible@, selected@),
            dropped == listed_count(av.take(i as int), visible@, selected@),
            dropped <= i,
        decreases a.len() - i,
    {
        assert(av.take(i + 1).drop_last() =~= av.take(i as int));
        assert(av.take(i + 1).last() == av[i as int]);
        if json_id_listed(&a[i], visible, selected) {
            dropped = dropped + 1;
        } else {
            let ghost before = kept@;
            let c = json_clone(&a[i]);
            kept.push(c);
            assert(kept@.drop_last() =~= before);
        }
        i = i + 1;
    }
    assert(av.take(a@.len() as int) =~= av);
    (kept, dropped)
}

fn has_root_in(a: &Vec<Json>, root: &str) -> (r: bool)
    ensures
        r == has_root(jviews(a@), root@),
{
    proof {
        lemma_jviews_index(a@);
    }
    let mut i: usize = 0;
    while i < a.len()
        invariant
            i <= a@.len(),
            jviews(a@).len() == a@.len(),
            forall|k: int| 0 <= k < a@.len() ==> #[trigger] jviews(a@)[k] == jview(a@[k]),
            forall|k: int| 0 <= k < i ==> jviews(a@)[k] != JsonValue::Text(root@),
        decreases a.len() - i,
    {
        match json_as_str(&a[i]) {
            Some(s) => {
                if str_eq(s.as_str(), root) {
                    assert(jviews(a@)[i as int] == JsonValue::Text(root@));
                    return true;
                }
            },
            None => {},
        }
        i = i + 1;
    }
    false
}

/// What repairing the global state would change: stale workspace hints, projectless
/// ids of visible threads, and a missing saved root for the project.
pub fn plan_global_state_repairs(
    state: &Json,
    visible_rows: &Vec<ThreadHistoryRow>,
    selected: &Vec<FocusThreadRow>,
    project_path: Option<&str>,
) -> (r: GlobalStateRepairCounts)
    ensures
        r.workspace_hints_to_fix == hints_to_fix(state@, visible_rows@, selected@, sview(project_path)),
        r.projectless_ids_to_remove == projectless_to_remove(state@, visible_rows@, selected@),
        r.saved_workspace_roots_to_add == if root_missing(state@, sview(project_path)) {
            1usize
        } else {
            0usize
        },
{
    let expected = expected_workspace_hints(visible_rows, selected, project_path);
    let ghost pv = pair_views(expected@);
    let empty: Vec<(String, Json)> = Vec::new();
    let hints: &Vec<(String, Json)> = match json_get(state, "thread-workspace-root-hints") {
        Some(x) => match x {
            Json::Object(h) => h,
            _ => &empty,
        },
        None => &empty,
    };
    assert(eviews(empty@) =~= Seq::<(Seq<char>, JsonValue)>::empty());
    assert(eviews(hints@) == current_hints(state@));
    let mut fix: usize = 0;
    let mut i: usize = 0;
    while i < expected.len()
        invariant
            i <= expected@.len(),
            pv == pair_views(expected@),
            fix == stale_hint_count(eviews(hints@), pv.take(i as int)),
            fix <= i,
        decreases expected.len() - i,
    {
        assert(pv.take(i + 1).drop_last() =~= pv.take(i as int));
        assert(pv.take(i + 1).last() == (expected@[i as int].0@, expected@[i as int].1@));
        if hint_is_stale(hints, expected[i].0.as_str(), expected[i].1.as_str()) {
            fix = fix + 1;
        }
        i = i + 1;
    }
    assert(pv.take(expected@.len() as int) =~= pv);
    let projectless = match json_get(state, "projectless-thread-ids") {
        Some(x) => match json_as_array(x) {
            Some(a) => drop_listed(a, visible_rows, selected).1,
            None => 0,
        },
        None => 0,
    };
    let roots = match project_path {
        Some(p) => match json_get(state, "electron-saved-workspace-roots") {
            Some(x) => match json_as_array(x) {
                Some(a) => if has_root_in(a, p) {
                    0
                } else {
                    1
                },
                None => 1,
            },
            None => 1,
        },
        None => 0,
    };
    GlobalStateRepairCounts {
        workspace_hints_to_fix: fix,
        projectless_ids_to_remove: projectless,
        saved_workspace_roots_to_add: roots,
    }
}

proof fn lemma_state_keys_differ()
    ensures
        "thread-workspace-root-hints"@ != "projectless-thread-ids"@,
        "thread-workspace-root-hints"@ != "electron-saved-workspace-roots"@,
        "projectless-thread-ids"@ != "electron-saved-workspace-roots"@,
{
    reveal_strlit("thread-workspace-root-hints");
    reveal_strlit("projectless-thread-ids");
    reveal_strlit("electron-saved-workspace-roots");
    assert("thread-workspace-root-hints"@[0] != "projectless-thread-ids"@[0]);
    assert("thread-workspace-root-hints"@[0] != "electron-saved-workspace-roots"@[0]);
    assert("projectless-thread-ids"@[0] != "electron-saved-workspace-roots"@[0]);
}

/// Repairs the global state: sets every expected workspace hint, takes visible threads
/// out of the projectless list and saves the project as a workspace root. Returns the
/// new state (to be written when any count is non-zero) and the counts.
pub fn apply_global_state_repairs(
    state: &Json,
    visible_rows: &Vec<ThreadHistoryRow>,
    selected: &Vec<FocusThreadRow>,
    project_path: Option<&str>,
) -> (r: (Json, GlobalStateRepairCounts))
    ensures
        r.0@ == repaired_state(state@, visible_rows@, selected@, sview(project_path)),
        r.1.workspace_hints_to_fix == hints_to_fix(state@, visible_rows@, selected@, sview(project_path)),
        r.1.projectless_ids_to_remove == projectless_to_remove(state@, visible_rows@, selected@),
        r.1.saved_workspace_roots_to_add == if root_missing(state@, sview(project_path)) {
            1usize
        } else {
            0usize
        },
{
    let ghost project = sview(project_path);
    let ghost es0 = state_entries(state@);
    proof {
        lemma_state_keys_differ();
        lemma_state_get(state@, "thread-workspace-root-hints"@);
        lemma_state_get(state@, "projectless-thread-ids"@);
        lemma_state_get(state@, "electron-saved-workspace-roots"@);
    }
    let mut es: Vec<(String, Json)> = match state {
        Json::Object(entries) => match json_clone(state) {
            Json::Object(c) => c,
            _ => Vec::new(),
        },
        _ => Vec::new(),
    };
    assert(eviews(Seq::<(String, Json)>::empty()) =~= Seq::<(Seq<char>, JsonValue)>::empty());
    assert(eviews(es@) == es0);
    let mut hints: Vec<(String, Json)> = match entries_lookup(&es, "thread-workspace-root-hints") {
        Some(x) => match x {
            Json::Object(h) => match json_clone(x) {
                Json::Object(c) => c,
                _ => Vec::new(),
            },
            _ => Vec::new(),
        },
        None => Vec::new(),
    };
    let ghost h0 = eviews(hints@);
    assert(h0 == object_entries(entries_get(es0, "thread-workspace-root-hints"@)));
    let expected = expected_workspace_hints(visible_rows, selected, project_path);
    let ghost pv = pair_views(expected@);
    proof {
        lemma_expected_hints_distinct(visible_rows@, selected@, project);
    }
    let mut fix: usize = 0;
    let mut i: usize = 0;
    while i < expected.len()
        invariant
            i <= expected@.len(),
            pv == pair_views(expected@),
            distinct_keys(pv),
            eviews(hints@) == with_hints(h0, pv.take(i as int)),
            fix == stale_hint_count(h0, pv.take(i as int)),
            fix <= i,
        decreases expected.len() - i,
    {
        let ghost pre = pv.take(i as int);
        let ghost pair = pv[i as int];
        assert(pv.take(i + 1).drop_last() =~= pre);
        assert(pv.take(i + 1).last() == pair);
        assert(pair == (expected@[i as int].0@, expected@[i as int].1@));
        proof {
            assert forall|m: int| 0 <= m < pre.len() implies pre[m].0 != pair.0 by {
                assert(pre[m] == pv[m]);
            }
            lemma_with_hints_get(h0, pre, pair.0);
        }
        if hint_is_stale(&hints, expected[i].0.as_str(), expected[i].1.as_str()) {
            let key = owned(expected[i].0.as_str());
            let root = owned(expected[i].1.as_str());
            entries_set(&mut hints, key, Json::Text(root));
            fix = fix + 1;
        } else {
            proof {
                lemma_entries_insert_same(eviews(hints@), pair.0, JsonValue::Text(pair.1));
            }
        }
        i = i + 1;
    }
    assert(pv.take(expected@.len() as int) =~= pv);
    let ghost new_hints = eviews(hints@);
    assert(new_hints == with_hints(
        object_entries(entries_get(es0, "thread-workspace-root-hints"@)),
        expected_hints(visible_rows@, selected@, project),
    ));
    entries_set(&mut es, owned("thread-workspace-root-hints"), Json::Object(hints));
    let ghost es1 = eviews(es@);
    assert(es1 == entries_insert(es0, "thread-workspace-root-hints"@, JsonValue::Object(new_hints)));
    proof {
        lemma_entries_insert_get(
            es0,
            "thread-workspace-root-hints"@,
            JsonValue::Object(new_hints),
            "projectless-thread-ids"@,
        );
        lemma_entries_insert_get(
            es0,
            "thread-workspace-root-hints"@,
            JsonValue::Object(new_hints),
            "electron-saved-workspace-roots"@,
        );
    }
    let update = match entries_lookup(&es, "projectless-thread-ids") {
        Some(x) => match json_as_array(x) {
            Some(a) => Some(drop_listed(a, visible_rows, selected)),
            None => None,
        },
        None => None,
    };
    let mut removed: usize = 0;
    match update {
        Some((kept, n)) => {
            removed = n;
            entries_set(&mut es, owned("projectless-thread-ids"), Json::Array(kept));
        },
        None => {},
    }
    let ghost es2 = eviews(es@);
    assert(es2 == match entries_get(es1, "projectless-thread-ids"@) {
        Some(JsonValue::Array(a)) => entries_insert(
            es1,
            "projectless-thread-ids"@,
            JsonValue::Array(unlisted(a, visible_rows@, selected@)),
        ),
        _ => es1,
    });
    proof {
        if let Some(JsonValue::Array(a)) = entries_get(es1, "projectless-thread-ids"@) {
            lemma_entries_insert_get(
                es1,
                "projectless-thread-ids"@,
                JsonValue::Array(unlisted(a, visible_rows@, selected@)),
                "electron-saved-workspace-roots"@,
            );
        }
    }
    assert(entries_get(es2, "electron-saved-workspace-roots"@) == entries_get(
        es0,
        "electron-saved-workspace-roots"@,
    ));
    let mut added: usize = 0;
    match project_path {
        Some(p) => {
            let (roots, n) = match entries_lookup(&es, "electron-saved-workspace-roots") {
                Some(x) => match json_as_array(x) {
                    Some(a) => {
                        let present = has_root_in(a, p);
                        let mut copy = match json_clone(x) {
                            Json::Array(c) => c,
                            _ => Vec::new(),
                        };
                        assert(jviews(copy@) == jviews(a@));
                        if present {
                            (copy, 0)
                        } else {
                            let ghost before = copy@;
                            let t = Json::Text(owned(p));
                            assert(t@ == JsonValue::Text(p@));
                            copy.push(t);
                            assert(copy@.drop_last() =~= before);
                            assert(jviews(copy@) == jviews(before).push(JsonValue::Text(p@)));
                            (copy, 1)
                        }
                    },
                    None => {
                        let mut fresh: Vec<Json> = Vec::new();
                        let t = Json::Text(owned(p));
                        assert(t@ == JsonValue::Text(p@));
                        fresh.push(t);
                        assert(fresh@.drop_last() =~= Seq::<Json>::empty());
                        assert(jviews(Seq::<Json>::empty()) =~= Seq::<JsonValue>::empty());
                        assert(jviews(fresh@) == Seq::<JsonValue>::empty().push(JsonValue::Text(p@)));
                        (fresh, 1)
                    },
                },
                None => {
                    let mut fresh: Vec<Json> = Vec::new();
                    let t = Json::Text(owned(p));
                    assert(t@ == JsonValue::Text(p@));
                    fresh.push(t);
                    assert(fresh@.drop_last() =~= Seq::<Json>::empty());
                    assert(jviews(Seq::<Json>::empty()) =~= Seq::<JsonValue>::empty());
                    assert(jviews(fresh@) == Seq::<JsonValue>::empty().push(JsonValue::Text(p@)));
                    (fresh, 1)
                },
            };
            added = n;
            let ghost rv = jviews(roots@);
            entries_set(&mut es, owned("electron-saved-workspace-roots"), Json::Array(roots));
            proof {
                let old_roots = match entries_get(es2, "electron-saved-workspace-roots"@) {
                    Some(JsonValue::Array(a)) => a,
                    _ => Seq::empty(),
                };
                assert(rv == if has_root(old_roots, p@) {
                    old_roots
                } else {
                    old_roots.push(JsonValue::Text(p@))
                });
            }
        },
        None => {},
    }
    let counts = GlobalStateRepairCounts {
        workspace_hints_to_fix: fix,
        projectless_ids_to_remove: removed,
        saved_workspace_roots_to_add: added,
    };
    (Json::Object(es), counts)
}

proof fn lemma_with_hints_has(hints: Seq<(Seq<char>, JsonValue)>, pairs: Seq<(Seq<char>, Seq<char>)>)
    requires
        distinct_keys(pairs),
    ensures
        forall|m: int|
            0 <= m < pairs.len() ==> entries_get(with_hints(hints, pairs), #[trigger] pairs[m].0)
                == Some(JsonValue::Text(pairs[m].1)),
    decreases pairs.len(),
{
    if pairs.len() > 0 {
        let d = pairs.drop_last();
        let last = pairs.last();
        assert forall|i: int, j: int| 0 <= i < j < d.len() implies d[i].0 != d[j].0 by {
            assert(d[i] == pairs[i] && d[j] == pairs[j]);
        }
        lemma_with_hints_has(hints, d);
        assert forall|m: int|
            0 <= m < pairs.len() implies entries_get(with_hints(hints, pairs), #[trigger] pairs[m].0)
                == Some(JsonValue::Text(pairs[m].1)) by {
            lemma_entries_insert_get(with_hints(hints, d), last.0, JsonValue::Text(last.1), pairs[m].0);
            if m < pairs.len() - 1 {
                assert(d[m] == pairs[m]);
            }
        }
    }
}

proof fn lemma_no_stale_hints(hints: Seq<(Seq<char>, JsonValue)>, pairs: Seq<(Seq<char>, Seq<char>)>)
    requires
        forall|m: int| 0 <= m < pairs.len() ==> !hint_stale(hints, #[trigger] pairs[m]),
    ensures
        stale_hint_count(hints, pairs) == 0,
    decreases pairs.len(),
{
    if pairs.len() > 0 {
        let d = pairs.drop_last();
        assert forall|m: int| 0 <= m < d.len() implies !hint_stale(hints, #[trigger] d[m]) by {
            assert(d[m] == pairs[m]);
        }
        lemma_no_stale_hints(hints, d);
        assert(!hint_stale(hints, pairs[pairs.len() - 1]));
    }
}

proof fn lemma_unlisted_clean(a: Seq<JsonValue>, visible: Seq<ThreadHistoryRow>, selected: Seq<FocusThreadRow>)
    ensures
        listed_count(unlisted(a, visible, selected), visible, selected) == 0,
    decreases a.len(),
{
    if a.len() > 0 {
        lemma_unlisted_clean(a.drop_last(), visible, selected);
        let before = unlisted(a.drop_last(), visible, selected);
        if !id_listed(a.last(), visible, selected) {
            assert(before.push(a.last()).drop_last() =~= before);
        }
    }
}

/// A repair of the global state leaves nothing for a second one to do: every expected
/// workspace hint is in place, no visible thread is still listed as projectless, and
/// the project is a saved workspace root.
pub proof fn global_state_repair_is_idempotent(
    state: JsonValue,
    visible: Seq<ThreadHistoryRow>,
    selected: Seq<FocusThreadRow>,
    project: Option<Seq<char>>,
)
    ensures
        hints_to_fix(repaired_state(state, visible, selected, project), visible, selected, project)
            == 0,
        projectless_to_remove(repaired_state(state, visible, selected, project), visible, selected)
            == 0,
        !root_missing(repaired_state(state, visible, selected, project), project),
{
    let hk = "thread-workspace-root-hints"@;
    let pk = "projectless-thread-ids"@;
    let rk = "electron-saved-workspace-roots"@;
    lemma_state_keys_differ();
    let e = expected_hints(visible, selected, project);
    lemma_expected_hints_distinct(visible, selected, project);
    let es0 = state_entries(state);
    let hints = with_hints(object_entries(entries_get(es0, hk)), e);
    let es1 = entries_insert(es0, hk, JsonValue::Object(hints));
    lemma_entries_insert_get(es0, hk, JsonValue::Object(hints), hk);
    lemma_entries_insert_get(es0, hk, JsonValue::Object(hints), pk);
    lemma_entries_insert_get(es0, hk, JsonValue::Object(hints), rk);
    let es2 = match entries_get(es1, pk) {
        Some(JsonValue::Array(a)) => entries_insert(es1, pk, JsonValue::Array(unlisted(a, visible, selected))),
        _ => es1,
    };
    if let Some(JsonValue::Array(a)) = entries_get(es1, pk) {
        let na = JsonValue::Array(unlisted(a, visible, selected));
        lemma_entries_insert_get(es1, pk, na, pk);
        lemma_entries_insert_get(es1, pk, na, hk);
        lemma_entries_insert_get(es1, pk, na, rk);
        lemma_unlisted_clean(a, visible, selected);
    }
    let es3 = match project {
        Some(p) => {
            let roots = match entries_get(es2, rk) {
                Some(JsonValue::Array(a)) => a,
                _ => Seq::empty(),
            };
            let nr = if has_root(roots, p) {
                roots
            } else {
                roots.push(JsonValue::Text(p))
            };
            lemma_entries_insert_get(es2, rk, JsonValue::Array(nr), rk);
            lemma_entries_insert_get(es2, rk, JsonValue::Array(nr), hk);
            lemma_entries_insert_get(es2, rk, JsonValue::Array(nr), pk);
            if !has_root(roots, p) {
                assert(nr[roots.len() as int] == JsonValue::Text(p));
            }
            entries_insert(es2, rk, JsonValue::Array(nr))
        },
        None => es2,
    };
    let r = repaired_state(state, visible, selected, project);
    assert(r == JsonValue::Object(es3));
    assert(current_hints(r) == hints);
    lemma_with_hints_has(object_entries(entries_get(es0, hk)), e);
    assert forall|m: int| 0 <= m < e.len() implies !hint_stale(hints, #[trigger] e[m]) by {}
    lemma_no_stale_hints(hints, e);
}

// ---------------------------------------------------------------------------
// Bringing selected threads to the end of session_index.jsonl
// ---------------------------------------------------------------------------

/// A line to write back to a JSONL file: one kept as it was read, or a value to be
/// written as compact JSON.
#[derive(Debug)]
pub enum JsonlLine {
    Raw(String),
    Value(Json),
}

/// The mathematical value of a line to write.
pub enum LineView {
    Raw(Seq<char>),
    Value(JsonValue),
}

pub open spec fn jsonl_view(l: JsonlLine) -> LineView {
    match l {
        JsonlLine::Raw(s) => LineView::Raw(s@),
        JsonlLine::Value(v) => LineView::Value(jview(v)),
    }
}

pub open spec fn jsonl_views(ls: Seq<JsonlLine>) -> Seq<LineView> {
    ls.map_values(|l: JsonlLine| jsonl_view(l))
}

/// The lines of a JSONL file as read: each line's text and, where it is JSON, its value.
pub open spec fn read_views(lines: Seq<(String, Option<Json>)>) -> Seq<(Seq<char>, Option<JsonValue>)> {
    lines.map_values(|l: (String, Option<Json>)| (l.0@, match l.1 {
        Some(j) => Some(jview(j)),
        None => None,
    }))
}

/// Whether an index line names a selected thread.
pub open spec fn names_selected(line: Option<JsonValue>, selected: Seq<FocusThreadRow>) -> bool {
    match line_text(line, "id"@) {
        Some(id) => selected_index(selected, id) >= 0,
        None => false,
    }
}

/// The selected row an index line names.
pub open spec fn selected_row_of(line: Option<JsonValue>, selected: Seq<FocusThreadRow>) -> FocusThreadRow {
    selected[selected_index(selected, line_text(line, "id"@)->0)]
}

/// Whether moving a line rewrites its title: the selected title is non-empty and the
/// stored one (trimmed) differs.
pub open spec fn retitles(v: JsonValue, f: FocusThreadRow) -> bool {
    trim(f.title@).len() > 0 && trim(stored_title(Some(v))) != trim(f.title@)
}

/// A moved line: its `updated_at` set to the focus time and, where the title is stale,
/// its `thread_name` set to the selected title.
pub open spec fn moved_value(v: JsonValue, f: FocusThreadRow) -> JsonValue {
    let v1 = set_member(v, "updated_at"@, JsonValue::Text(f.updated_iso@));
    if retitles(v1, f) {
        set_member(v1, "thread_name"@, JsonValue::Text(f.title@))
    } else {
        v1
    }
}

/// The lines that stay where they are, as read.
pub open spec fn kept_lines(lines: Seq<(Seq<char>, Option<JsonValue>)>, selected: Seq<FocusThreadRow>) -> Seq<
    LineView,
>
    decreases lines.len(),
{
    if lines.len() == 0 {
        Seq::empty()
    } else {
        let before = kept_lines(lines.drop_last(), selected);
        if names_selected(lines.last().1, selected) {
            before
        } else {
            before.push(LineView::Raw(lines.last().0))
        }
    }
}

/// The lines of the selected threads, rewritten, in file order.
pub open spec fn moved_lines(lines: Seq<(Seq<char>, Option<JsonValue>)>, selected: Seq<FocusThreadRow>) -> Seq<
    LineView,
>
    decreases lines.len(),
{
    if lines.len() == 0 {
        Seq::empty()
    } else {
        let before = moved_lines(lines.drop_last(), selected);
        let line = lines.last().1;
        if names_selected(line, selected) {
            before.push(LineView::Value(moved_value(line->0, selected_row_of(line, selected))))
        } else {
            before
        }
    }
}

/// How many moved lines get a new title.
pub open spec fn retitled_count(lines: Seq<(Seq<char>, Option<JsonValue>)>, selected: Seq<FocusThreadRow>) -> nat
    decreases lines.len(),
{
    if lines.len() == 0 {
        0
    } else {
        let line = lines.last().1;
        retitled_count(lines.drop_last(), selected) + if names_selected(line, selected) && retitles(
            set_member(
                line->0,
                "updated_at"@,
                JsonValue::Text(selected_row_of(line, selected).updated_iso@),
            ),
            selected_row_of(line, selected),
        ) {
            1nat
        } else {
            0nat
        }
    }
}

/// What moving the selected threads' index lines did.
#[derive(Debug, Clone, Copy)]
pub struct SessionIndexMoveCounts {
    pub rows_moved: usize,
    pub titles_updated: usize,
}

fn moved_line(v: &Json, f: &FocusThreadRow) -> (r: (Json, bool))
    requires
        v@ is Object,
    ensures
        r.0@ == moved_value(v@, *f),
        r.1 == retitles(set_member(v@, "updated_at"@, JsonValue::Text(f.updated_iso@)), *f),
{
    let mut out = json_clone(v);
    json_set(&mut out, owned("updated_at"), Json::Text(owned(f.updated_iso.as_str())));
    let title = trim_str(f.title.as_str());
    let stored = trim_str(stored_title_of(&out).as_str());
    let retitle = !title.as_str().is_empty() && !str_eq(stored.as_str(), title.as_str());
    if retitle {
        json_set(&mut out, owned("thread_name"), Json::Text(owned(f.title.as_str())));
    }
    (out, retitle)
}

/// Moves the index lines of the selected threads to the end of `session_index.jsonl`,
/// with their focus time and, where stale, their title. `None` when nothing is
/// selected: the file is left alone.
pub fn move_focus_session_index_rows(
    lines: &Vec<(String, Option<Json>)>,
    selected: &Vec<FocusThreadRow>,
) -> (r: Option<(Vec<JsonlLine>, SessionIndexMoveCounts)>)
    ensures
        selected@.len() == 0 <==> r is None,
        r matches Some((out, counts)) ==> {
            &&& jsonl_views(out@) == kept_lines(read_views(lines@), selected@) + moved_lines(
                read_views(lines@),
                selected@,
            )
            &&& counts.rows_moved == moved_lines(read_views(lines@), selected@).len()
            &&& counts.titles_updated == retitled_count(read_views(lines@), selected@)
        },
{
    if selected.len() == 0 {
        return None;
    }
    let ghost rv = read_views(lines@);
    let mut kept: Vec<JsonlLine> = Vec::new();
    let mut moved: Vec<JsonlLine> = Vec::new();
    let mut titles: usize = 0;
    let mut i: usize = 0;
    while i < lines.len()
        invariant
            i <= lines@.len(),
            rv == read_views(lines@),
            jsonl_views(kept@) == kept_lines(rv.take(i as int), selected@),
            jsonl_views(moved@) == moved_lines(rv.take(i as int), selected@),
            titles == retitled_count(rv.take(i as int), selected@),
            titles <= i,
        decreases lines.len() - i,
    {
        assert(rv.take(i + 1).drop_last() =~= rv.take(i as int));
        assert(rv.take(i + 1).last() == rv[i as int]);
        let ghost lv = rv[i as int].1;
        let mut target: Option<usize> = None;
        match &lines[i].1 {
            Some(v) => match json_get_str(v, "id") {
                Some(id) => {
                    proof {
                        lemma_selected_index(selected@, id@);
                    }
                    target = find_selected(selected, id.as_str());
                },
                None => {},
            },
            None => {},
        }
        assert(target is Some <==> names_selected(lv, selected@));
        match target {
            Some(k) => {
                match &lines[i].1 {
                    Some(v) => {
                        assert(v@ is Object);
                        let (value, retitled) = moved_line(v, &selected[k]);
                        let ghost before = moved@;
                        let ghost mv = LineView::Value(value@);
                        moved.push(JsonlLine::Value(value));
                        assert(jsonl_views(moved@) =~= jsonl_views(before).push(mv));
                        if retitled {
                            titles = titles + 1;
                        }
                    },
                    None => {},
                }
            },
            None => {
                let ghost before = kept@;
                let raw = owned(lines[i].0.as_str());
                let ghost kv = LineView::Raw(raw@);
                kept.push(JsonlLine::Raw(raw));
                assert(jsonl_views(kept@) =~= jsonl_views(before).push(kv));
            },
        }
        i = i + 1;
    }
    assert(rv.take(lines@.len() as int) =~= rv);
    let ghost kv = jsonl_views(kept@);
    let ghost mv = jsonl_views(moved@);
    let moved_count = moved.len();
    let mut out = kept;
    let mut rest = moved;
    out.append(&mut rest);
    assert(jsonl_views(out@) =~= kv + mv);
    Some((out, SessionIndexMoveCounts { rows_moved: moved_count, titles_updated: titles }))
}

// ---------------------------------------------------------------------------
// Dropping the lines of removed threads
// ---------------------------------------------------------------------------

/// The thread id of an index line, trimmed and non-blank.
pub open spec fn line_id(line: Option<JsonValue>) -> Option<Seq<char>> {
    match line {
        Some(v) => json_string_of(v, "id"@),
        None => None,
    }
}

/// The line names one of the removed threads.
pub open spec fn names_removed(line: Option<JsonValue>, removed: Seq<Seq<char>>) -> bool {
    match line_id(line) {
        Some(id) => removed.contains(id),
        None => false,
    }
}

/// How many index lines name a removed thread.
pub open spec fn removed_line_count(lines: Seq<Option<JsonValue>>, removed: Seq<Seq<char>>) -> nat
    decreases lines.len(),
{
    if lines.len() == 0 {
        0
    } else {
        removed_line_count(lines.drop_last(), removed) + if names_removed(lines.last(), removed) {
            1nat
        } else {
            0nat
        }
    }
}

/// The values of lines as read.
pub open spec fn values_of(lines: Seq<(Seq<char>, Option<JsonValue>)>) -> Seq<Option<JsonValue>> {
    lines.map_values(|l: (Seq<char>, Option<JsonValue>)| l.1)
}

/// The text of the lines that name no removed thread, in order.
pub open spec fn lines_kept(lines: Seq<(Seq<char>, Option<JsonValue>)>, removed: Seq<Seq<char>>) -> Seq<Seq<char>>
    decreases lines.len(),
{
    if lines.len() == 0 {
        Seq::empty()
    } else {
        let before = lines_kept(lines.drop_last(), removed);
        if names_removed(lines.last().1, removed) {
            before
        } else {
            before.push(lines.last().0)
        }
    }
}

fn line_names_removed(line: &Option<Json>, removed: &Vec<String>) -> (r: bool)
    ensures
        r == names_removed(
            match *line {
                Some(j) => Some(jview(j)),
                None => None,
            },
            views(removed@),
        ),
{
    match line {
        Some(v) => match json_string(v, "id") {
            Some(id) => contains_str(removed, id.as_str()),
            None => false,
        },
        None => false,
    }
}

/// How many lines of `session_index.jsonl` name one of the removed threads.
pub fn count_removed_index_lines(lines: &Vec<Option<Json>>, removed: &Vec<String>) -> (r: usize)
    ensures
        r == removed_line_count(line_views(lines@), views(removed@)),
{
    let ghost lv = line_views(lines@);
    let mut count: usize = 0;
    let mut i: usize = 0;
    while i < lines.len()
        invariant
            i <= lines@.len(),
            lv == line_views(lines@),
            count == removed_line_count(lv.take(i as int), views(removed@)),
            count <= i,
        decreases lines.len() - i,
    {
        assert(lv.take(i + 1).drop_last() =~= lv.take(i as int));
        assert(lv.take(i + 1).last() == lv[i as int]);
        if line_names_removed(&lines[i], removed) {
            count = count + 1;
        }
        i = i + 1;
    }
    assert(lv.take(lines@.len() as int) =~= lv);
    count
}

/// Dropping lines removes exactly the lines that name a removed thread.
pub proof fn index_cleanup_removes_counted_lines(lines: Seq<(Seq<char>, Option<JsonValue>)>, removed: Seq<Seq<char>>)
    ensures
        lines_kept(lines, removed).len() + removed_line_count(values_of(lines), removed) == lines.len(),
    decreases lines.len(),
{
    if lines.len() > 0 {
        index_cleanup_removes_counted_lines(lines.drop_last(), removed);
        assert(values_of(lines).drop_last() =~= values_of(lines.drop_last()));
        assert(values_of(lines).last() == lines.last().1);
    }
}

/// The lines of `session_index.jsonl` without those of the removed threads, and how
/// many were dropped (the file is rewritten only when some were).
pub fn remove_session_index_rows(lines: &Vec<(String, Option<Json>)>, removed: &Vec<String>) -> (r: (
    Vec<String>,
    usize,
))
    ensures
        views(r.0@) == lines_kept(read_views(lines@), views(removed@)),
        r.1 == removed_line_count(values_of(read_views(lines@)), views(removed@)),
{
    let ghost rv = read_views(lines@);
    let mut kept: Vec<String> = Vec::new();
    let mut i: usize = 0;
    while i < lines.len()
        invariant
            i <= lines@.len(),
            rv == read_views(lines@),
            views(kept@) == lines_kept(rv.take(i as int), views(removed@)),
            kept@.len() <= i,
        decreases lines.len() - i,
    {
        assert(rv.take(i + 1).drop_last() =~= rv.take(i as int));
        assert(rv.take(i + 1).last() == rv[i as int]);
        if !line_names_removed(&lines[i].1, removed) {
            let ghost before = kept@;
            kept.push(owned(lines[i].0.as_str()));
            assert(views(kept@) =~= views(before).push(lines@[i as int].0@));
        }
        i = i + 1;
    }
    assert(rv.take(lines@.len() as int) =~= rv);
    proof {
        index_cleanup_removes_counted_lines(rv, views(removed@));
    }
    let dropped = lines.len() - kept.len();
    (kept, dropped)
}

// ---------------------------------------------------------------------------
// Moving a rollout into the target provider bucket
// ---------------------------------------------------------------------------

/// A rollout line with its provider set to `target`, and whether it changed. A line
/// that is not JSON, has no object payload, or is not session metadata and names no
/// provider is kept as read; any other is written back as JSON, its payload's
/// `model_provider` set to `target` where it differed.
pub open spec fn provider_line(line: (Seq<char>, Option<JsonValue>), target: Seq<char>) -> (LineView, bool) {
    match line.1 {
        None => (LineView::Raw(line.0), false),
        Some(v) => {
            let is_meta = opt_str(get(v, "type"@)) == Some("session_meta"@);
            match get(v, "payload"@) {
                Some(JsonValue::Object(es)) => if !is_meta && !has_key(es, "model_provider"@) {
                    (LineView::Raw(line.0), false)
                } else if opt_str(entries_get(es, "model_provider"@)) != Some(target) {
                    (
                        LineView::Value(
                            set_member(
                                v,
                                "payload"@,
                                JsonValue::Object(
                                    entries_insert(es, "model_provider"@, JsonValue::Text(target)),
                                ),
                            ),
                        ),
                        true,
                    )
                } else {
                    (LineView::Value(v), false)
                },
                _ => (LineView::Raw(line.0), false),
            }
        },
    }
}

/// Whether any line changes.
pub open spec fn provider_changed(lines: Seq<(Seq<char>, Option<JsonValue>)>, target: Seq<char>) -> bool {
    exists|k: int| 0 <= k < lines.len() && (#[trigger] provider_line(lines[k], target)).1
}

fn provider_line_of(line: &(String, Option<Json>), target: &str) -> (r: (JsonlLine, bool))
    ensures
        (jsonl_view(r.0), r.1) == provider_line(
            (line.0@, match line.1 {
                Some(j) => Some(jview(j)),
                None => None,
            }),
            target@,
        ),
{
    match &line.1 {
        None => (JsonlLine::Raw(owned(line.0.as_str())), false),
        Some(v) => {
            let is_meta = match json_get_str(v, "type") {
                Some(t) => str_eq(t.as_str(), "session_meta"),
                None => false,
            };
            match json_get(v, "payload") {
                Some(p) => match p {
                    Json::Object(es) => {
                        let current = entries_lookup(es, "model_provider");
                        if !is_meta && current.is_none() {
                            (JsonlLine::Raw(owned(line.0.as_str())), false)
                        } else {
                            let same = match current {
                                Some(c) => match json_as_str(c) {
                                    Some(s) => str_eq(s.as_str(), target),
                                    None => false,
                                },
                                None => false,
                            };
                            if !same {
                                let mut payload = match json_clone(p) {
                                    Json::Object(c) => c,
                                    _ => Vec::new(),
                                };
                                entries_set(&mut payload, owned("model_provider"), Json::Text(owned(target)));
                                let mut out = json_clone(v);
                                json_set(&mut out, owned("payload"), Json::Object(payload));
                                (JsonlLine::Value(out), true)
                            } else {
                                (JsonlLine::Value(json_clone(v)), false)
                            }
                        }
                    },
                    _ => (JsonlLine::Raw(owned(line.0.as_str())), false),
                },
                None => (JsonlLine::Raw(owned(line.0.as_str())), false),
            }
        },
    }
}

/// The rollout's lines with its provider set to `target`: `None` when no line changes
/// (the file is left alone).
pub fn rewrite_rollout_provider_lines(lines: &Vec<(String, Option<Json>)>, target: &str) -> (r: Option<
    Vec<JsonlLine>,
>)
    ensures
        r is Some <==> provider_changed(read_views(lines@), target@),
        r matches Some(out) ==> jsonl_views(out@) == read_views(lines@).map_values(
            |l: (Seq<char>, Option<JsonValue>)| provider_line(l, target@).0,
        ),
{
    let ghost rv = read_views(lines@);
    let ghost want = rv.map_values(|l: (Seq<char>, Option<JsonValue>)| provider_line(l, target@).0);
    let mut out: Vec<JsonlLine> = Vec::new();
    let mut changed = false;
    let mut i: usize = 0;
    while i < lines.len()
        invariant
            i <= lines@.len(),
            rv == read_views(lines@),
            want == rv.map_values(|l: (Seq<char>, Option<JsonValue>)| provider_line(l, target@).0),
            jsonl_views(out@) == want.take(i as int),
            changed == exists|k: int| 0 <= k < i && (#[trigger] provider_line(rv[k], target@)).1,
        decreases lines.len() - i,
    {
        let (line, c) = provider_line_of(&lines[i], target);
        assert(rv[i as int] == (lines@[i as int].0@, match lines@[i as int].1 {
            Some(j) => Some(jview(j)),
            None => None,
        }));
        let ghost before = out@;
        out.push(line);
        assert(jsonl_views(out@) =~= jsonl_views(before).push(want[i as int]));
        assert(want.take(i + 1) =~= want.take(i as int).push(want[i as int]));
        if c {
            changed = true;
        }
        i = i + 1;
    }
    assert(want.take(lines@.len() as int) =~= want);
    if changed {
        Some(out)
    } else {
        None
    }
}

/// Moving the selected threads' lines to the end loses no line: every line is either
/// kept in place or moved.
pub proof fn index_move_keeps_every_line(lines: Seq<(Seq<char>, Option<JsonValue>)>, selected: Seq<FocusThreadRow>)
    ensures
        kept_lines(lines, selected).len() + moved_lines(lines, selected).len() == lines.len(),
    decreases lines.len(),
{
    if lines.len() > 0 {
        index_move_keeps_every_line(lines.drop_last(), selected);
    }
}

/// A dry run's count of stale index titles is the number of titles moving the lines
/// rewrites.
pub proof fn index_title_preview_matches_move(lines: Seq<(Seq<char>, Option<JsonValue>)>, selected: Seq<FocusThreadRow>)
    ensures
        retitled_count(lines, selected) == stale_title_count(values_of(lines), selected),
    decreases lines.len(),
{
    if lines.len() > 0 {
        let d = lines.drop_last();
        index_title_preview_matches_move(d, selected);
        assert(values_of(lines).drop_last() =~= values_of(d));
        assert(values_of(lines).last() == lines.last().1);
        let line = lines.last().1;
        if names_selected(line, selected) {
            let v = line->0;
            let id = line_text(line, "id"@)->0;
            lemma_selected_index(selected, id);
            let f = selected_row_of(line, selected);
            reveal_strlit("updated_at");
            reveal_strlit("thread_name");
            assert("updated_at"@ != "thread_name"@) by {
                assert("updated_at"@[0] != "thread_name"@[0]);
            }
            crate::json::set_member_reads_back(
                v,
                "updated_at"@,
                JsonValue::Text(f.updated_iso@),
                "thread_name"@,
            );
            assert(stored_title(Some(set_member(v, "updated_at"@, JsonValue::Text(f.updated_iso@))))
                == stored_title(Some(v)));
        } else {
            match line_text(line, "id"@) {
                Some(id) => lemma_selected_index(selected, id),
                None => {},
            }
        }
    }
}

} // verus!
