//! Listing Codex history for the UI: which threads match the filters, in what order,
//! how they are summarised, and the value counts behind the filter menus.
use vstd::prelude::*;
use crate::history::{
    iso_from_epoch_millis, is_user_thread_source, normalize_history_path, normalized_history_path,
    row_project, row_title, row_updated_ms, source_filter_matches, source_matches_history_filter,
    strip_long_path_prefix, sview, title_of, updated_ms,
    utc_rfc3339_millis, without_long_path_prefix, RolloutThreadMetadata, ThreadHistoryRow,
    VisibleConversationMessage,
};
use crate::json::{
    get, json_clone, json_get_str, jview, jviews, lemma_jviews_index, opt_str, Json, JsonValue,
};
use crate::thread_merge::{
    merge_fold, merge_keeps_every_stored_thread, merge_rollouts_in_order, meta_view, meta_views,
    row_view, row_views,
};
use crate::visibility::{index_titles, line_views, session_index_thread_titles};
use crate::recent_window::{iv, recency_order, sort_by_recency};
use crate::text::{
    chars_of, contains, contains_chars, lex_lt, lower, lower_chars, opt_view, owned, owned_opt,
    str_eq, str_lt, trim, trim_chars, trim_str, views,
};

verus! {

broadcast use vstd::seq_lib::group_to_multiset_ensures;

/// One thread as the history list shows it.
#[derive(Debug, Clone)]
pub struct CodexHistorySessionSummary {
    pub id: String,
    pub title: String,
    pub cwd: Option<String>,
    pub model_provider: Option<String>,
    pub source: Option<String>,
    pub thread_source: Option<String>,
    pub archived: bool,
    pub has_user_event: bool,
    pub updated_at_ms: i64,
    pub updated_at: Option<String>,
    pub rollout_path: Option<String>,
}

/// How many threads carry one value of a field (`None` for no value).
#[derive(Debug, Clone)]
pub struct CodexHistoryValueCount {
    pub value: Option<String>,
    pub count: usize,
}

/// The filters of the history list.
#[derive(Debug, Clone)]
pub struct CodexHistorySessionListOptions {
    pub codex_home: Option<String>,
    pub state_db_path: Option<String>,
    pub project_path: Option<String>,
    pub provider: Option<String>,
    pub source_filter: Option<String>,
    pub query: Option<String>,
    pub limit: Option<usize>,
    pub include_archived: Option<bool>,
    pub include_subagents: Option<bool>,
    pub skip_rollout_metadata_scan: Option<bool>,
    pub force_rollout_metadata_scan: Option<bool>,
}

impl CodexHistorySessionListOptions {
    /// The usual listing: interactive sources, no archived or sub-agent threads, 80 items.
    pub fn new() -> (r: CodexHistorySessionListOptions)
        ensures
            r.limit == Some(80usize),
            r.include_archived == Some(false),
            r.include_subagents == Some(false),
            r.project_path is None,
            r.provider is None,
            r.source_filter is None,
            r.query is None,
    {
        CodexHistorySessionListOptions {
            codex_home: None,
            state_db_path: None,
            project_path: None,
            provider: None,
            source_filter: None,
            query: None,
            limit: Some(80),
            include_archived: Some(false),
            include_subagents: Some(false),
            skip_rollout_metadata_scan: None,
            force_rollout_metadata_scan: None,
        }
    }
}

/// The listing the UI receives once the thread rows have been read.
#[derive(Debug, Clone)]
pub struct CodexHistorySessionListOutcome {
    pub codex_home: String,
    pub state_db_path: Option<String>,
    pub active_db_kind: Option<String>,
    pub live_config_model_provider: Option<String>,
    pub target_provider_candidates: Vec<String>,
    pub source_counts: Vec<CodexHistoryValueCount>,
    pub provider_counts: Vec<CodexHistoryValueCount>,
    pub total_matched: usize,
    pub items: Vec<CodexHistorySessionSummary>,
    pub skipped_reason: Option<String>,
}

// ---------------------------------------------------------------------------
// Summaries
// ---------------------------------------------------------------------------

pub open spec fn flag_set(v: Option<i64>) -> bool {
    match v {
        Some(x) => x != 0,
        None => false,
    }
}

/// `s` summarises `row`.
pub open spec fn summary_of(s: CodexHistorySessionSummary, row: ThreadHistoryRow, now_iso: Seq<char>) -> bool {
    &&& s.id@ == row.id@
    &&& s.title@ == title_of(row)
    &&& opt_view(s.cwd) == row_project(row)
    &&& opt_view(s.model_provider) == opt_view(row.model_provider)
    &&& opt_view(s.source) == opt_view(row.source)
    &&& opt_view(s.thread_source) == opt_view(row.thread_source)
    &&& s.archived == flag_set(row.archived)
    &&& s.has_user_event == (row.has_user_event == Some(1i64))
    &&& s.updated_at_ms == updated_ms(row)
    &&& opt_view(s.updated_at) == Some(
        match utc_rfc3339_millis(updated_ms(row)) {
            Some(t) => t,
            None => now_iso,
        },
    )
    &&& opt_view(s.rollout_path) == match row.rollout_path {
        Some(p) => Some(without_long_path_prefix(p@)),
        None => None,
    }
}

/// The summary of a thread row for the history list.
pub fn codex_history_summary_from_row(row: &ThreadHistoryRow, now_iso: &str) -> (r:
    CodexHistorySessionSummary)
    ensures
        summary_of(r, *row, now_iso@),
{
    let updated_at_ms = row_updated_ms(row);
    CodexHistorySessionSummary {
        id: owned(row.id.as_str()),
        title: row_title(row),
        cwd: match &row.cwd {
            Some(c) => normalize_history_path(c.as_str()),
            None => None,
        },
        model_provider: owned_opt(&row.model_provider),
        source: owned_opt(&row.source),
        thread_source: owned_opt(&row.thread_source),
        archived: match row.archived {
            Some(x) => x != 0,
            None => false,
        },
        has_user_event: match row.has_user_event {
            Some(x) => x == 1,
            None => false,
        },
        updated_at_ms,
        updated_at: Some(iso_from_epoch_millis(updated_at_ms, now_iso)),
        rollout_path: match &row.rollout_path {
            Some(p) => Some(strip_long_path_prefix(p.as_str())),
            None => None,
        },
    }
}

// ---------------------------------------------------------------------------
// Value counts
// ---------------------------------------------------------------------------

/// A value as counted: trimmed, and `None` when blank.
pub open spec fn counted_value(v: Option<Seq<char>>) -> Option<Seq<char>> {
    match v {
        Some(s) => if trim(s).len() > 0 {
            Some(trim(s))
        } else {
            None
        },
        None => None,
    }
}

/// How many of `vals` count as `v`.
pub open spec fn occurrences(vals: Seq<Option<String>>, v: Option<Seq<char>>) -> nat
    decreases vals.len(),
{
    if vals.len() == 0 {
        0
    } else {
        occurrences(vals.drop_last(), v) + if counted_value(opt_view(vals.last())) == v {
            1nat
        } else {
            0nat
        }
    }
}

/// `None` before any value, values in text order.
pub open spec fn value_lt(a: Option<Seq<char>>, b: Option<Seq<char>>) -> bool {
    match (a, b) {
        (None, Some(_)) => true,
        (Some(x), Some(y)) => lex_lt(x, y),
        _ => false,
    }
}

/// Counts go from most to least frequent, equal counts by value.
pub open spec fn count_before(a: (Option<Seq<char>>, nat), b: (Option<Seq<char>>, nat)) -> bool {
    a.1 > b.1 || (a.1 == b.1 && value_lt(a.0, b.0))
}

pub open spec fn count_views(cs: Seq<CodexHistoryValueCount>) -> Seq<(Option<Seq<char>>, nat)> {
    cs.map_values(|c: CodexHistoryValueCount| (opt_view(c.value), c.count as nat))
}

pub open spec fn counts_sorted(cs: Seq<(Option<Seq<char>>, nat)>) -> bool {
    forall|a: int, b: int| 0 <= a < b < cs.len() ==> count_before(#[trigger] cs[a], #[trigger] cs[b])
}

/// Some count is for value `v`.
pub open spec fn covered(cs: Seq<(Option<Seq<char>>, nat)>, v: Option<Seq<char>>) -> bool {
    exists|a: int| 0 <= a < cs.len() && #[trigger] cs[a].0 == v
}

/// The value counts of `vals`: every counted value once with its number of
/// occurrences, most frequent first, equal counts in value order.
pub open spec fn value_counts_of(cs: Seq<(Option<Seq<char>>, nat)>, vals: Seq<Option<String>>) -> bool {
    &&& forall|a: int, b: int| 0 <= a < b < cs.len() ==> #[trigger] cs[a].0 != #[trigger] cs[b].0
    &&& forall|a: int| 0 <= a < cs.len() ==> #[trigger] cs[a].1 == occurrences(vals, cs[a].0) && cs[a].1 > 0
    &&& forall|i: int| 0 <= i < vals.len() ==> covered(cs, counted_value(opt_view(#[trigger] vals[i])))
    &&& counts_sorted(cs)
}

fn counted(v: &Option<String>) -> (r: Option<String>)
    ensures
        opt_view(r) == counted_value(opt_view(*v)),
{
    match v {
        Some(s) => {
            let t = trim_chars(chars_of(s.as_str()).as_slice());
            if t.len() > 0 {
                Some(crate::text::string_of(t.as_slice()))
            } else {
                None
            }
        },
        None => None,
    }
}

fn same_value(a: &Option<String>, b: &Option<String>) -> (r: bool)
    ensures
        r == (opt_view(*a) == opt_view(*b)),
{
    match (a, b) {
        (Some(x), Some(y)) => str_eq(x.as_str(), y.as_str()),
        (None, None) => true,
        _ => false,
    }
}

fn value_less(a: &Option<String>, b: &Option<String>) -> (r: bool)
    ensures
        r == value_lt(opt_view(*a), opt_view(*b)),
{
    match (a, b) {
        (None, Some(_)) => true,
        (Some(x), Some(y)) => str_lt(x.as_str(), y.as_str()),
        _ => false,
    }
}

proof fn lemma_count_before_order(
    a: (Option<Seq<char>>, nat),
    b: (Option<Seq<char>>, nat),
    c: (Option<Seq<char>>, nat),
)
    ensures
        !count_before(a, a),
        count_before(a, b) && count_before(b, c) ==> count_before(a, c),
        a.0 != b.0 ==> count_before(a, b) || count_before(b, a),
{
    if let Some(x) = a.0 {
        crate::text::lemma_lex_lt_irreflexive(x);
    }
    if count_before(a, b) && count_before(b, c) {
        if a.1 == b.1 && b.1 == c.1 {
            match (a.0, b.0, c.0) {
                (Some(x), Some(y), Some(z)) => {
                    crate::text::lemma_lex_lt_transitive(x, y, z);
                },
                _ => {},
            }
        }
    }
    if a.0 != b.0 && a.1 == b.1 {
        match (a.0, b.0) {
            (Some(x), Some(y)) => {
                crate::text::lemma_lex_lt_total(x, y);
            },
            _ => {},
        }
    }
}

pub open spec fn counts_tally(cs: Seq<(Option<Seq<char>>, nat)>, vals: Seq<Option<String>>) -> bool {
    &&& forall|a: int, b: int| 0 <= a < b < cs.len() ==> #[trigger] cs[a].0 != #[trigger] cs[b].0
    &&& forall|a: int| 0 <= a < cs.len() ==> #[trigger] cs[a].1 == occurrences(vals, cs[a].0) && cs[a].1 > 0
    &&& forall|i: int| 0 <= i < vals.len() ==> covered(cs, counted_value(opt_view(#[trigger] vals[i])))
}

fn tally_values(values: &Vec<Option<String>>) -> (r: Vec<CodexHistoryValueCount>)
    ensures
        counts_tally(count_views(r@), values@),
{
    let mut tally: Vec<CodexHistoryValueCount> = Vec::new();
    let mut i: usize = 0;
    while i < values.len()
        invariant
            i <= values.len(),
            counts_tally(count_views(tally@), values@.take(i as int)),
            forall|a: int| 0 <= a < tally@.len() ==> (#[trigger] tally@[a]).count <= i,
        decreases values.len() - i,
    {
        let v = counted(&values[i]);
        let ghost before = count_views(tally@);
        let ghost pre = values@.take(i as int);
        let ghost post = values@.take(i + 1);
        assert(post.drop_last() =~= pre);
        assert(post.last() == values@[i as int]);
        assert(forall|k: int| 0 <= k < i ==> #[trigger] post[k] == pre[k]);
        let mut j: usize = 0;
        while j < tally.len() && !same_value(&tally[j].value, &v)
            invariant
                j <= tally@.len(),
                before == count_views(tally@),
                forall|q: int| 0 <= q < j ==> (#[trigger] before[q]).0 != opt_view(v),
            decreases tally.len() - j,
        {
            j = j + 1;
        }
        if j < tally.len() {
            assert(before[j as int].0 == opt_view(v));
            let c = tally[j].count + 1;
            let entry = CodexHistoryValueCount { value: v, count: c };
            tally.set(j, entry);
            let ghost after = count_views(tally@);
            assert(after =~= before.update(j as int, (opt_view(v), before[j as int].1 + 1)));
            assert forall|a: int| 0 <= a < after.len() implies #[trigger] after[a].1 == occurrences(post, after[a].0) && after[a].1 > 0 by {
                assert(occurrences(post, after[a].0) == occurrences(pre, after[a].0) + if counted_value(opt_view(values@[i as int])) == after[a].0 { 1nat } else { 0nat });
            }
            assert forall|k: int| 0 <= k < post.len() implies covered(after, counted_value(opt_view(#[trigger] post[k]))) by {
                if k < i {
                    assert(covered(before, counted_value(opt_view(pre[k]))));
                    let a = choose|a: int| 0 <= a < before.len() && #[trigger] before[a].0 == counted_value(opt_view(pre[k]));
                    assert(after[a].0 == before[a].0);
                } else {
                    assert(after[j as int].0 == counted_value(opt_view(post[k])));
                }
            }
        } else {
            proof {
                lemma_occurrences_absent(pre, opt_view(v), before);
            }
            let entry = CodexHistoryValueCount { value: v, count: 1 };
            tally.push(entry);
            let ghost after = count_views(tally@);
            assert(after =~= before.push((opt_view(v), 1nat)));
            assert forall|a: int| 0 <= a < after.len() implies #[trigger] after[a].1 == occurrences(post, after[a].0) && after[a].1 > 0 by {
                assert(occurrences(post, after[a].0) == occurrences(pre, after[a].0) + if counted_value(opt_view(values@[i as int])) == after[a].0 { 1nat } else { 0nat });
            }
            assert forall|k: int| 0 <= k < post.len() implies covered(after, counted_value(opt_view(#[trigger] post[k]))) by {
                if k < i {
                    assert(covered(before, counted_value(opt_view(pre[k]))));
                    let a = choose|a: int| 0 <= a < before.len() && #[trigger] before[a].0 == counted_value(opt_view(pre[k]));
                    assert(after[a].0 == before[a].0);
                } else {
                    assert(after[before.len() as int].0 == counted_value(opt_view(post[k])));
                }
            }
        }
        i = i + 1;
    }
    assert(values@.take(values.len() as int) =~= values@);
    tally
}

proof fn lemma_insert_count(s: Seq<(Option<Seq<char>>, nat)>, x: (Option<Seq<char>>, nat), p: int)
    requires
        0 <= p <= s.len(),
        counts_sorted(s),
        forall|q: int| 0 <= q < p ==> !count_before(x, #[trigger] s[q]),
        p < s.len() ==> count_before(x, s[p]),
        forall|q: int| 0 <= q < s.len() ==> (#[trigger] s[q]).0 != x.0,
    ensures
        counts_sorted(s.take(p).push(x) + s.skip(p)),
{
    let t = s.take(p).push(x) + s.skip(p);
    assert forall|q: int| 0 <= q < p implies count_before(#[trigger] s[q], x) by {
        lemma_count_before_order(s[q], x, x);
    }
    assert forall|q: int| p <= q < s.len() implies count_before(x, #[trigger] s[q]) by {
        if q > p {
            lemma_count_before_order(x, s[p], s[q]);
        }
    }
    assert forall|a: int, b: int| 0 <= a < b < t.len() implies count_before(#[trigger] t[a], #[trigger] t[b]) by {
        if b < p {
            assert(t[a] == s[a] && t[b] == s[b]);
        } else if b == p {
            assert(t[a] == s[a]);
        } else if a < p {
            assert(t[a] == s[a] && t[b] == s[b - 1]);
            lemma_count_before_order(s[a], x, s[b - 1]);
        } else if a == p {
            assert(t[b] == s[b - 1]);
        } else {
            assert(t[a] == s[a - 1] && t[b] == s[b - 1]);
        }
    }
}

fn sort_counts(tally: &Vec<CodexHistoryValueCount>) -> (r: Vec<CodexHistoryValueCount>)
    requires
        forall|a: int, b: int| 0 <= a < b < tally@.len() ==> #[trigger] count_views(tally@)[a].0 != #[trigger] count_views(tally@)[b].0,
    ensures
        counts_sorted(count_views(r@)),
        count_views(r@).to_multiset() == count_views(tally@).to_multiset(),
{
    let ghost tv = count_views(tally@);
    let mut sorted: Vec<CodexHistoryValueCount> = Vec::new();
    let mut k: usize = 0;
    assert(count_views(sorted@) =~= tv.take(0));
    while k < tally.len()
        invariant
            k <= tally@.len(),
            tv == count_views(tally@),
            forall|a: int, b: int| 0 <= a < b < tv.len() ==> #[trigger] tv[a].0 != #[trigger] tv[b].0,
            counts_sorted(count_views(sorted@)),
            count_views(sorted@).to_multiset() == tv.take(k as int).to_multiset(),
        decreases tally.len() - k,
    {
        let ghost s = count_views(sorted@);
        let ghost x = tv[k as int];
        proof {
            broadcast use vstd::seq_lib::group_to_multiset_ensures;
            assert forall|q: int| 0 <= q < s.len() implies (#[trigger] s[q]).0 != x.0 by {
                assert(s.contains(s[q]));
                assert(s.to_multiset().count(s[q]) > 0);
                assert(tv.take(k as int).to_multiset().count(s[q]) > 0);
                assert(tv.take(k as int).contains(s[q]));
                let b = choose|b: int| 0 <= b < k && tv.take(k as int)[b] == s[q];
                assert(tv[b] == s[q]);
            }
        }
        let mut p: usize = 0;
        while p < sorted.len() && !(tally[k].count > sorted[p].count || (tally[k].count == sorted[p].count && value_less(&tally[k].value, &sorted[p].value)))
            invariant
                k < tally@.len(),
                p <= sorted@.len(),
                s == count_views(sorted@),
                x == count_views(tally@)[k as int],
                forall|q: int| 0 <= q < p ==> !count_before(x, #[trigger] s[q]),
            decreases sorted.len() - p,
        {
            p = p + 1;
        }
        proof {
            lemma_insert_count(s, x, p as int);
        }
        let entry = CodexHistoryValueCount { value: owned_opt(&tally[k].value), count: tally[k].count };
        sorted.insert(p, entry);
        let ghost t = count_views(sorted@);
        assert(t =~= s.take(p as int).push(x) + s.skip(p as int));
        proof {
            broadcast use vstd::seq_lib::group_to_multiset_ensures;
            assert(t =~= s.insert(p as int, x));
            assert(tv.take(k + 1) =~= tv.take(k as int).push(x));
        }
        k = k + 1;
    }
    assert(tv.take(tally.len() as int) =~= tv);
    sorted
}

/// The distribution of a field's values over the threads: each value (trimmed, blank
/// as `None`) once with its count, most frequent first, ties in value order.
pub fn history_value_counts(values: &Vec<Option<String>>) -> (r: Vec<CodexHistoryValueCount>)
    ensures
        value_counts_of(count_views(r@), values@),
{
    let tally = tally_values(values);
    let sorted = sort_counts(&tally);
    proof {
        broadcast use vstd::seq_lib::group_to_multiset_ensures;
        let cs = count_views(sorted@);
        let tv = count_views(tally@);
        assert forall|a: int| 0 <= a < cs.len() implies tv.contains(#[trigger] cs[a]) by {
            assert(cs.contains(cs[a]));
            assert(cs.to_multiset().count(cs[a]) > 0);
            assert(tv.to_multiset().count(cs[a]) > 0);
        }
        assert forall|b: int| 0 <= b < tv.len() implies cs.contains(#[trigger] tv[b]) by {
            assert(tv.contains(tv[b]));
            assert(tv.to_multiset().count(tv[b]) > 0);
            assert(cs.to_multiset().count(tv[b]) > 0);
        }
        assert forall|a: int, b: int| 0 <= a < b < cs.len() implies #[trigger] cs[a].0 != #[trigger] cs[b].0 by {
            lemma_count_before_order(cs[a], cs[b], cs[a]);
        }
        assert forall|a: int| 0 <= a < cs.len() implies #[trigger] cs[a].1 == occurrences(values@, cs[a].0) && cs[a].1 > 0 by {
            assert(tv.contains(cs[a]));
            let b = choose|b: int| 0 <= b < tv.len() && tv[b] == cs[a];
        }
        assert forall|i: int| 0 <= i < values@.len() implies covered(cs, counted_value(opt_view(#[trigger] values@[i]))) by {
            assert(covered(tv, counted_value(opt_view(values@[i]))));
            let b = choose|b: int| 0 <= b < tv.len() && #[trigger] tv[b].0 == counted_value(opt_view(values@[i]));
            assert(cs.contains(tv[b]));
            let a = choose|a: int| 0 <= a < cs.len() && cs[a] == tv[b];
        }
        assert(counts_sorted(cs));
        assert(forall|a: int, b: int| 0 <= a < b < cs.len() ==> #[trigger] cs[a].0 != #[trigger] cs[b].0);
        assert(forall|a: int| 0 <= a < cs.len() ==> #[trigger] cs[a].1 == occurrences(values@, cs[a].0) && cs[a].1 > 0);
        assert(value_counts_of(cs, values@));
    }
    sorted
}

proof fn lemma_occurrences_absent(
    vals: Seq<Option<String>>,
    v: Option<Seq<char>>,
    known: Seq<(Option<Seq<char>>, nat)>,
)
    requires
        forall|k: int| 0 <= k < vals.len() ==> covered(known, counted_value(opt_view(#[trigger] vals[k]))),
        forall|a: int| 0 <= a < known.len() ==> (#[trigger] known[a]).0 != v,
    ensures
        occurrences(vals, v) == 0,
    decreases vals.len(),
{
    if vals.len() > 0 {
        assert forall|k: int| 0 <= k < vals.drop_last().len() implies covered(known, counted_value(opt_view(#[trigger] vals.drop_last()[k]))) by {
            assert(vals.drop_last()[k] == vals[k]);
        }
        lemma_occurrences_absent(vals.drop_last(), v, known);
        let k = vals.len() - 1;
        assert(covered(known, counted_value(opt_view(vals[k]))));
        let a = choose|a: int| 0 <= a < known.len() && #[trigger] known[a].0 == counted_value(opt_view(vals[k]));
    }
}

// ---------------------------------------------------------------------------
// Target provider candidates
// ---------------------------------------------------------------------------

/// `out` with `v` (trimmed) appended, unless blank or already there.
pub open spec fn with_candidate(out: Seq<Seq<char>>, v: Option<Seq<char>>) -> Seq<Seq<char>> {
    match counted_value(v) {
        Some(x) => if out.contains(x) {
            out
        } else {
            out.push(x)
        },
        None => out,
    }
}

pub open spec fn candidates_from_rows(start: Seq<Seq<char>>, rows: Seq<ThreadHistoryRow>) -> Seq<Seq<char>>
    decreases rows.len(),
{
    if rows.len() == 0 {
        start
    } else {
        with_candidate(candidates_from_rows(start, rows.drop_last()), opt_view(rows.last().model_provider))
    }
}

fn push_candidate(out: &mut Vec<String>, v: Option<&str>)
    ensures
        views(final(out)@) == with_candidate(views(old(out)@), sview(v)),
{
    match v {
        Some(s) => {
            let t = crate::text::trim_str(s);
            if t.as_str().unicode_len() > 0 && !crate::text::contains_str(out, t.as_str()) {
                let ghost before = views(out@);
                out.push(t);
                assert(views(out@) =~= before.push(trim(s@)));
            }
        },
        None => {},
    }
}

/// Where history can be moved: the live config's provider first, then the router's
/// own bucket, then every provider the threads already use, each once.
pub fn codex_target_provider_candidates(
    live_config_model_provider: Option<&str>,
    router_provider_id: &str,
    rows: &[ThreadHistoryRow],
) -> (r: Vec<String>)
    ensures
        views(r@) == candidates_from_rows(
            with_candidate(
                with_candidate(Seq::empty(), sview(live_config_model_provider)),
                Some(router_provider_id@),
            ),
            rows@,
        ),
{
    let mut out: Vec<String> = Vec::new();
    assert(views(out@) =~= Seq::<Seq<char>>::empty());
    push_candidate(&mut out, live_config_model_provider);
    push_candidate(&mut out, Some(router_provider_id));
    let ghost start = views(out@);
    let mut i: usize = 0;
    while i < rows.len()
        invariant
            i <= rows.len(),
            views(out@) == candidates_from_rows(start, rows@.take(i as int)),
        decreases rows.len() - i,
    {
        assert(rows@.take(i + 1).drop_last() =~= rows@.take(i as int));
        let v: Option<&str> = match &rows[i].model_provider {
            Some(m) => Some(m.as_str()),
            None => None,
        };
        push_candidate(&mut out, v);
        i = i + 1;
    }
    assert(rows@.take(rows.len() as int) =~= rows@);
    out
}

// ---------------------------------------------------------------------------
// Folding rollout metadata into the thread rows
// ---------------------------------------------------------------------------

/// The title the session index keeps for a thread: the last index line with that id
/// and a non-blank `thread_name` (both trimmed).
pub open spec fn index_title(lines: Seq<JsonValue>, id: Seq<char>) -> Option<Seq<char>>
    decreases lines.len(),
{
    if lines.len() == 0 {
        None
    } else {
        let l = lines.last();
        let lid = opt_str(get(l, "id"@));
        let name = opt_str(get(l, "thread_name"@));
        if lid is Some && name is Some && trim(lid->0).len() > 0 && trim(name->0).len() > 0
            && trim(lid->0) == id {
            Some(trim(name->0))
        } else {
            index_title(lines.drop_last(), id)
        }
    }
}

/// The session index's title for a thread (see `index_title`).
pub fn session_index_thread_title(lines: &[Json], thread_id: &str) -> (r: Option<String>)
    ensures
        opt_view(r) == index_title(jviews(lines@), thread_id@),
{
    let ghost ls = jviews(lines@);
    proof {
        lemma_jviews_index(lines@);
    }
    let mut i: usize = lines.len();
    assert(ls.take(lines.len() as int) =~= ls);
    while i > 0
        invariant
            i <= lines.len(),
            ls == jviews(lines@),
            ls.len() == lines@.len(),
            forall|k: int| 0 <= k < lines@.len() ==> #[trigger] ls[k] == jview(lines@[k]),
            index_title(ls, thread_id@) == index_title(ls.take(i as int), thread_id@),
        decreases i,
    {
        let line = &lines[i - 1];
        assert(ls.take(i as int).drop_last() =~= ls.take(i - 1));
        assert(ls.take(i as int).last() == line@);
        let id = json_get_str(line, "id");
        let name = json_get_str(line, "thread_name");
        match (id, name) {
            (Some(id), Some(name)) => {
                let tid = crate::text::trim_str(id.as_str());
                let tname = crate::text::trim_str(name.as_str());
                if tid.as_str().unicode_len() > 0 && tname.as_str().unicode_len() > 0 && str_eq(
                    tid.as_str(),
                    thread_id,
                ) {
                    return Some(tname);
                }
            },
            _ => {},
        }
        i = i - 1;
    }
    None
}

/// The position of the first row with the given id.
pub open spec fn first_row_with_id(rows: Seq<ThreadHistoryRow>, id: Seq<char>, k: int) -> bool {
    0 <= k < rows.len() && rows[k].id@ == id && forall|j: int| 0 <= j < k ==> (#[trigger] rows[j]).id@ != id
}

/// Some row has the id `id`.
pub open spec fn has_row_with_id(rows: Seq<ThreadHistoryRow>, id: Seq<char>) -> bool {
    exists|k: int| 0 <= k < rows.len() && #[trigger] rows[k].id@ == id
}

/// Every session index line parsed.
pub open spec fn parsed_index(lines: Seq<Json>) -> Seq<Option<JsonValue>> {
    lines.map_values(|j: Json| Some(jview(j)))
}

/// Folds every rollout's metadata into the rows, in order (see
/// `crate::thread_merge::merge_fold`), with titles from the session index; returns the
/// metadata of the rows repaired. Rows already present keep their place and id; every
/// rollout's thread ends up among the rows.
pub fn merge_rollout_metadata(
    rows: &mut Vec<ThreadHistoryRow>,
    metadata: &[RolloutThreadMetadata],
    session_index_lines: &[Json],
) -> (repairs: Vec<RolloutThreadMetadata>)
    ensures
        ({
            let (rs, _, reps) = merge_fold(
                row_views(old(rows)@),
                meta_views(metadata@),
                index_titles(parsed_index(session_index_lines@)),
            );
            &&& row_views(final(rows)@) == rs
            &&& meta_views(repairs@) == reps
        }),
        final(rows)@.len() >= old(rows)@.len(),
        forall|j: int| 0 <= j < old(rows)@.len() ==> (#[trigger] final(rows)@[j]).id@ == old(rows)@[j].id@,
        forall|m: int| 0 <= m < metadata@.len() ==> has_row_with_id(final(rows)@, (#[trigger] metadata@[m]).id@),
{
    let mut ms: Vec<RolloutThreadMetadata> = Vec::new();
    let mut i: usize = 0;
    while i < metadata.len()
        invariant
            i <= metadata@.len(),
            meta_views(ms@) == meta_views(metadata@).take(i as int),
        decreases metadata.len() - i,
    {
        let ghost before = meta_views(ms@);
        let copy = metadata[i].duplicate();
        assert(meta_view(copy) == meta_view(metadata@[i as int]));
        ms.push(copy);
        assert(meta_views(ms@) =~= before.push(meta_view(metadata@[i as int])));
        assert(meta_views(metadata@).take(i + 1) =~= meta_views(metadata@).take(i as int).push(
            meta_view(metadata@[i as int]),
        ));
        i = i + 1;
    }
    assert(meta_views(metadata@).take(metadata@.len() as int) =~= meta_views(metadata@));
    let mut idx: Vec<Option<Json>> = Vec::new();
    let mut j: usize = 0;
    while j < session_index_lines.len()
        invariant
            j <= session_index_lines@.len(),
            line_views(idx@) == parsed_index(session_index_lines@).take(j as int),
        decreases session_index_lines.len() - j,
    {
        let ghost before = line_views(idx@);
        let c = json_clone(&session_index_lines[j]);
        let ghost cv = c@;
        idx.push(Some(c));
        assert(line_views(idx@) =~= before.push(Some(cv)));
        assert(parsed_index(session_index_lines@).take(j + 1) =~= parsed_index(session_index_lines@).take(
            j as int,
        ).push(Some(jview(session_index_lines@[j as int]))));
        j = j + 1;
    }
    assert(parsed_index(session_index_lines@).take(session_index_lines@.len() as int) =~= parsed_index(
        session_index_lines@,
    ));
    let titles = session_index_thread_titles(&idx);
    let ghost old_rows = rows@;
    let mut taken: Vec<ThreadHistoryRow> = Vec::new();
    std::mem::swap(&mut taken, rows);
    assert(taken@ == old_rows);
    let (merged_rows, _merged, repairs) = merge_rollouts_in_order(taken, ms, &titles);
    *rows = merged_rows;
    proof {
        let tv = index_titles(parsed_index(session_index_lines@));
        merge_keeps_every_stored_thread(row_views(old_rows), meta_views(metadata@), tv);
        let rs = merge_fold(row_views(old_rows), meta_views(metadata@), tv).0;
        assert(row_views(rows@) == rs);
        assert forall|k: int| 0 <= k < old_rows.len() implies (#[trigger] rows@[k]).id@ == old_rows[k].id@ by {
            assert(rs[k].id == row_views(old_rows)[k].id);
            assert(row_views(rows@)[k] == row_view(rows@[k]));
            assert(row_views(old_rows)[k] == row_view(old_rows[k]));
        }
        assert forall|m: int| 0 <= m < metadata@.len() implies has_row_with_id(rows@, (#[trigger] metadata@[m]).id@) by {
            assert(meta_views(metadata@)[m] == meta_view(metadata@[m]));
            let q = choose|q: int| 0 <= q < rs.len() && rs[q].id == #[trigger] meta_views(metadata@)[m].id;
            assert(row_views(rows@)[q] == row_view(rows@[q]));
            assert(rows@[q].id@ == metadata@[m].id@);
        }
    }
    repairs
}

// ---------------------------------------------------------------------------
// The list
// ---------------------------------------------------------------------------

pub open spec fn or_empty(o: Option<String>) -> Seq<char> {
    match o {
        Some(s) => s@,
        None => Seq::empty(),
    }
}

/// The text a query searches: id, title, preview, cwd and provider, space separated.
pub open spec fn searchable_text(row: ThreadHistoryRow) -> Seq<char> {
    row.id@ + " "@ + or_empty(row.title) + " "@ + or_empty(row.preview) + " "@ + or_empty(row.cwd)
        + " "@ + or_empty(row.model_provider)
}

/// The filters of a listing, normalised: provider and query trimmed (the query in
/// lower case), the project path normalised, blanks as absent.
pub open spec fn listed(row: ThreadHistoryRow, options: CodexHistorySessionListOptions) -> bool {
    let include_archived = options.include_archived == Some(true);
    let include_subagents = options.include_subagents == Some(true);
    let provider = counted_value(opt_view(options.provider));
    let project = match options.project_path {
        Some(p) => normalized_history_path(p@),
        None => None,
    };
    let query = match counted_value(opt_view(options.query)) {
        Some(q) => Some(lower(q)),
        None => None,
    };
    &&& (include_archived || row.archived is None || row.archived == Some(0i64))
    &&& (include_subagents || opt_view(row.thread_source) is None || opt_view(row.thread_source)
        == Some(Seq::<char>::empty()) || opt_view(row.thread_source) == Some("user"@))
    &&& source_filter_matches(opt_view(row.source), opt_view(options.source_filter))
    &&& (provider is None || opt_view(row.model_provider) == provider)
    &&& (project is None || row_project(row) == project)
    &&& (query is None || contains(lower(searchable_text(row)), query->0))
}

pub open spec fn listed_rows(rows: Seq<ThreadHistoryRow>, options: CodexHistorySessionListOptions) -> Seq<
    ThreadHistoryRow,
>
    decreases rows.len(),
{
    if rows.len() == 0 {
        Seq::empty()
    } else {
        let r = listed_rows(rows.drop_last(), options);
        if listed(rows.last(), options) {
            r.push(rows.last())
        } else {
            r
        }
    }
}

/// The number of items a listing shows: the limit given (80 by default), at least one.
pub open spec fn list_limit(options: CodexHistorySessionListOptions) -> int {
    match options.limit {
        Some(l) => if l >= 1 {
            l as int
        } else {
            1
        },
        None => 80,
    }
}

fn row_is_listed(row: &ThreadHistoryRow, options: &CodexHistorySessionListOptions) -> (r: bool)
    ensures
        r == listed(*row, *options),
{
    let include_archived = options.include_archived == Some(true);
    let include_subagents = options.include_subagents == Some(true);
    let archived_ok = include_archived || match row.archived {
        None => true,
        Some(a) => a == 0,
    };
    if !archived_ok {
        return false;
    }
    let ts: Option<&str> = match &row.thread_source {
        Some(t) => Some(t.as_str()),
        None => None,
    };
    if !(include_subagents || is_user_thread_source(ts)) {
        return false;
    }
    let source: Option<&str> = match &row.source {
        Some(t) => Some(t.as_str()),
        None => None,
    };
    let filter: Option<&str> = match &options.source_filter {
        Some(t) => Some(t.as_str()),
        None => None,
    };
    if !source_matches_history_filter(source, filter) {
        return false;
    }
    let provider = counted(&options.provider);
    match &provider {
        Some(p) => {
            let same = match &row.model_provider {
                Some(m) => str_eq(m.as_str(), p.as_str()),
                None => false,
            };
            if !same {
                return false;
            }
        },
        None => {},
    }
    let project = match &options.project_path {
        Some(p) => normalize_history_path(p.as_str()),
        None => None,
    };
    match &project {
        Some(p) => {
            let rp = match &row.cwd {
                Some(c) => normalize_history_path(c.as_str()),
                None => None,
            };
            let same = match &rp {
                Some(x) => str_eq(x.as_str(), p.as_str()),
                None => false,
            };
            if !same {
                return false;
            }
        },
        None => {},
    }
    let query = counted(&options.query);
    match &query {
        Some(q) => {
            let mut text = crate::text::owned(row.id.as_str());
            text.append(" ");
            match &row.title {
                Some(t) => text.append(t.as_str()),
                None => {},
            }
            text.append(" ");
            match &row.preview {
                Some(t) => text.append(t.as_str()),
                None => {},
            }
            text.append(" ");
            match &row.cwd {
                Some(t) => text.append(t.as_str()),
                None => {},
            }
            text.append(" ");
            match &row.model_provider {
                Some(t) => text.append(t.as_str()),
                None => {},
            }
            proof {
                reveal_strlit(" ");
            }
            assert(text@ =~= searchable_text(*row));
            let hay = lower_chars(chars_of(text.as_str()).as_slice());
            let needle = lower_chars(chars_of(q.as_str()).as_slice());
            contains_chars(hay.as_slice(), needle.as_slice())
        },
        None => true,
    }
}

proof fn lemma_occurrences_agree(a: Seq<Option<String>>, b: Seq<Option<String>>, v: Option<Seq<char>>)
    requires
        a.len() == b.len(),
        forall|k: int| 0 <= k < a.len() ==> opt_view(#[trigger] a[k]) == opt_view(b[k]),
    ensures
        occurrences(a, v) == occurrences(b, v),
    decreases a.len(),
{
    if a.len() > 0 {
        assert forall|k: int| 0 <= k < a.drop_last().len() implies opt_view(#[trigger] a.drop_last()[k]) == opt_view(b.drop_last()[k]) by {
            assert(a.drop_last()[k] == a[k]);
            assert(b.drop_last()[k] == b[k]);
        }
        lemma_occurrences_agree(a.drop_last(), b.drop_last(), v);
        assert(opt_view(a.last()) == opt_view(b.last()));
    }
}

proof fn lemma_counts_views_agree(
    cs: Seq<(Option<Seq<char>>, nat)>,
    a: Seq<Option<String>>,
    b: Seq<Option<String>>,
)
    requires
        value_counts_of(cs, a),
        a.len() == b.len(),
        forall|k: int| 0 <= k < a.len() ==> opt_view(#[trigger] a[k]) == opt_view(b[k]),
    ensures
        value_counts_of(cs, b),
{
    assert forall|x: int| 0 <= x < cs.len() implies #[trigger] cs[x].1 == occurrences(b, cs[x].0) && cs[x].1 > 0 by {
        lemma_occurrences_agree(a, b, cs[x].0);
    }
    assert forall|i: int| 0 <= i < b.len() implies covered(cs, counted_value(opt_view(#[trigger] b[i]))) by {
        assert(covered(cs, counted_value(opt_view(a[i]))));
    }
}

proof fn lemma_insert_same_rows(a: Seq<ThreadHistoryRow>, b: Seq<ThreadHistoryRow>, s: Seq<int>, i: int)
    requires
        a.len() == b.len(),
        forall|k: int| 0 <= k < a.len() ==> (#[trigger] a[k]).same_as(b[k]),
        0 <= i < a.len(),
        forall|k: int| 0 <= k < s.len() ==> 0 <= #[trigger] s[k] < a.len(),
    ensures
        crate::recent_window::insert_by_recency(a, s, i) == crate::recent_window::insert_by_recency(b, s, i),
    decreases s.len(),
{
    if s.len() > 0 {
        assert(a[i].same_as(b[i]));
        assert(a[s[0]].same_as(b[s[0]]));
        assert(updated_ms(a[i]) == updated_ms(b[i]));
        assert(updated_ms(a[s[0]]) == updated_ms(b[s[0]]));
        assert forall|k: int| 0 <= k < s.drop_first().len() implies 0 <= #[trigger] s.drop_first()[k] < a.len() by {
            assert(s.drop_first()[k] == s[k + 1]);
        }
        lemma_insert_same_rows(a, b, s.drop_first(), i);
    }
}

proof fn lemma_same_rows_same_order(a: Seq<ThreadHistoryRow>, b: Seq<ThreadHistoryRow>)
    requires
        a.len() == b.len(),
        forall|k: int| 0 <= k < a.len() ==> (#[trigger] a[k]).same_as(b[k]),
    ensures
        recency_order(a, a.len()) == recency_order(b, b.len()),
{
    lemma_same_rows_same_order_upto(a, b, a.len());
}

proof fn lemma_same_rows_same_order_upto(a: Seq<ThreadHistoryRow>, b: Seq<ThreadHistoryRow>, n: nat)
    requires
        a.len() == b.len(),
        n <= a.len(),
        forall|k: int| 0 <= k < a.len() ==> (#[trigger] a[k]).same_as(b[k]),
    ensures
        recency_order(a, n) == recency_order(b, n),
    decreases n,
{
    if n > 0 {
        lemma_same_rows_same_order_upto(a, b, (n - 1) as nat);
        crate::recent_window::lemma_recency_order_indices(a, (n - 1) as nat);
        let s = recency_order(a, (n - 1) as nat);
        assert forall|k: int| 0 <= k < s.len() implies 0 <= #[trigger] s[k] < a.len() by {
            assert(s.contains(s[k]));
        }
        lemma_insert_same_rows(a, b, s, n - 1);
    }
}

proof fn lemma_summary_of_same_row(
    s: CodexHistorySessionSummary,
    r1: ThreadHistoryRow,
    r2: ThreadHistoryRow,
    now_iso: Seq<char>,
)
    requires
        r1.same_as(r2),
        summary_of(s, r1, now_iso),
    ensures
        summary_of(s, r2, now_iso),
{
}

/// The history list: the rows matching the filters, most recent first; the number
/// matched; summaries of the first `limit`; value counts of sources and providers over
/// all rows; and the target provider candidates.
pub fn list_codex_history_sessions(
    rows: &[ThreadHistoryRow],
    options: &CodexHistorySessionListOptions,
    codex_home: String,
    state_db_path: Option<String>,
    active_db_kind: Option<String>,
    live_config_model_provider: Option<String>,
    router_provider_id: &str,
    now_iso: &str,
) -> (r: CodexHistorySessionListOutcome)
    ensures
        ({
            let matched = listed_rows(rows@, *options);
            let order = recency_order(matched, matched.len());
            let shown = if list_limit(*options) < order.len() {
                list_limit(*options)
            } else {
                order.len() as int
            };
            &&& r.total_matched == matched.len()
            &&& r.items@.len() == shown
            &&& forall|k: int| 0 <= k < shown ==> summary_of(#[trigger] r.items@[k], matched[order[k]], now_iso@)
            &&& value_counts_of(count_views(r.source_counts@), rows@.map_values(|row: ThreadHistoryRow| row.source))
            &&& value_counts_of(count_views(r.provider_counts@), rows@.map_values(|row: ThreadHistoryRow| row.model_provider))
            &&& views(r.target_provider_candidates@) == candidates_from_rows(
                with_candidate(
                    with_candidate(Seq::empty(), opt_view(live_config_model_provider)),
                    Some(router_provider_id@),
                ),
                rows@,
            )
            &&& r.codex_home@ == codex_home@
            &&& r.state_db_path == state_db_path
            &&& r.active_db_kind == active_db_kind
            &&& r.live_config_model_provider == live_config_model_provider
            &&& r.skipped_reason is None
        }),
{
    let live: Option<&str> = match &live_config_model_provider {
        Some(l) => Some(l.as_str()),
        None => None,
    };
    let target_provider_candidates = codex_target_provider_candidates(live, router_provider_id, rows);
    let mut sources: Vec<Option<String>> = Vec::new();
    let mut providers: Vec<Option<String>> = Vec::new();
    let mut matched: Vec<ThreadHistoryRow> = Vec::new();
    let mut i: usize = 0;
    while i < rows.len()
        invariant
            i <= rows.len(),
            sources@.len() == i,
            providers@.len() == i,
            forall|k: int| 0 <= k < i ==> opt_view(#[trigger] sources@[k]) == opt_view(rows@[k].source),
            forall|k: int| 0 <= k < i ==> opt_view(#[trigger] providers@[k]) == opt_view(rows@[k].model_provider),
            matched@.len() == listed_rows(rows@.take(i as int), *options).len(),
            forall|k: int| 0 <= k < matched@.len() ==> (#[trigger] matched@[k]).same_as(listed_rows(rows@.take(i as int), *options)[k]),
        decreases rows.len() - i,
    {
        let row = &rows[i];
        assert(rows@.take(i + 1).drop_last() =~= rows@.take(i as int));
        assert(rows@.take(i + 1).last() == rows@[i as int]);
        sources.push(owned_opt(&row.source));
        providers.push(owned_opt(&row.model_provider));
        if row_is_listed(row, options) {
            matched.push(row.duplicate());
        }
        i = i + 1;
    }
    assert(rows@.take(rows.len() as int) =~= rows@);
    let source_counts = history_value_counts(&sources);
    let provider_counts = history_value_counts(&providers);
    proof {
        let src = rows@.map_values(|row: ThreadHistoryRow| row.source);
        let prv = rows@.map_values(|row: ThreadHistoryRow| row.model_provider);
        assert forall|k: int| 0 <= k < sources@.len() implies opt_view(#[trigger] sources@[k]) == opt_view(src[k]) by {}
        assert forall|k: int| 0 <= k < providers@.len() implies opt_view(#[trigger] providers@[k]) == opt_view(prv[k]) by {}
        lemma_counts_views_agree(count_views(source_counts@), sources@, src);
        lemma_counts_views_agree(count_views(provider_counts@), providers@, prv);
    }
    let order = sort_by_recency(matched.as_slice());
    let limit: usize = match options.limit {
        Some(l) => if l >= 1 {
            l
        } else {
            1
        },
        None => 80,
    };
    let shown: usize = if limit < order.len() {
        limit
    } else {
        order.len()
    };
    proof {
        crate::recent_window::lemma_recency_order_indices(matched@, matched@.len());
    }
    let mut items: Vec<CodexHistorySessionSummary> = Vec::new();
    let mut j: usize = 0;
    while j < shown
        invariant
            j <= shown <= order@.len(),
            iv(order@) == recency_order(matched@, matched@.len()),
            recency_order(matched@, matched@.len()).len() == matched@.len(),
            forall|x: int| recency_order(matched@, matched@.len()).contains(x) ==> 0 <= x < matched@.len(),
            items@.len() == j,
            forall|k: int| 0 <= k < j ==> summary_of(#[trigger] items@[k], matched@[order@[k] as int], now_iso@),
        decreases shown - j,
    {
        assert(iv(order@)[j as int] == order@[j as int] as int);
        assert(recency_order(matched@, matched@.len()).contains(order@[j as int] as int));
        items.push(codex_history_summary_from_row(&matched[order[j]], now_iso));
        j = j + 1;
    }
    proof {
        assert forall|k: int| 0 <= k < shown implies recency_order(listed_rows(rows@, *options), listed_rows(rows@, *options).len())[k] == order@[k] as int by {
            lemma_same_rows_same_order(matched@, listed_rows(rows@, *options));
            assert(iv(order@)[k] == order@[k] as int);
        }
        assert forall|k: int| 0 <= k < shown implies summary_of(#[trigger] items@[k], listed_rows(rows@, *options)[recency_order(listed_rows(rows@, *options), listed_rows(rows@, *options).len())[k]], now_iso@) by {
            let x = order@[k] as int;
            assert(recency_order(matched@, matched@.len()).contains(x)) by {
                assert(iv(order@)[k] == x);
            }
            assert(matched@[x].same_as(listed_rows(rows@, *options)[x]));
            lemma_summary_of_same_row(items@[k], matched@[x], listed_rows(rows@, *options)[x], now_iso@);
        }
    }
    assert(matched@.len() == listed_rows(rows@, *options).len());
    proof {
        crate::recent_window::lemma_recency_order_indices(listed_rows(rows@, *options), listed_rows(rows@, *options).len());
        assert(iv(order@).len() == order@.len());
    }
    assert(shown == if list_limit(*options) < recency_order(listed_rows(rows@, *options), listed_rows(rows@, *options).len()).len() {
        list_limit(*options)
    } else {
        recency_order(listed_rows(rows@, *options), listed_rows(rows@, *options).len()).len() as int
    });
    CodexHistorySessionListOutcome {
        codex_home,
        state_db_path,
        active_db_kind,
        live_config_model_provider,
        target_provider_candidates,
        source_counts,
        provider_counts,
        total_matched: matched.len(),
        items,
        skipped_reason: None,
    }
}

// ---------------------------------------------------------------------------
// One session's detail
// ---------------------------------------------------------------------------

/// Which session to show, and where to look for it.
#[derive(Debug, Clone)]
pub struct CodexHistorySessionDetailOptions {
    pub codex_home: Option<String>,
    pub state_db_path: Option<String>,
    pub session_id: String,
}

/// One session's summary and its visible conversation, or why it was not shown.
#[derive(Debug)]
pub struct CodexHistorySessionDetailOutcome {
    pub codex_home: String,
    pub state_db_path: Option<String>,
    pub active_db_kind: Option<String>,
    pub session: Option<CodexHistorySessionSummary>,
    pub messages: Vec<VisibleConversationMessage>,
    pub rollout_path: Option<String>,
    pub skipped_reason: Option<String>,
}

/// The listing when no active state database was found: no sessions, and as target
/// candidates the live config's provider and the router's.
pub fn session_list_without_state_db(
    codex_home: String,
    live_config_model_provider: Option<String>,
    router_provider_id: &str,
) -> (r: CodexHistorySessionListOutcome)
    ensures
        r.codex_home@ == codex_home@,
        r.state_db_path is None,
        r.active_db_kind is None,
        r.live_config_model_provider == live_config_model_provider,
        views(r.target_provider_candidates@) == candidates_from_rows(
            with_candidate(
                with_candidate(Seq::empty(), opt_view(live_config_model_provider)),
                Some(router_provider_id@),
            ),
            Seq::<ThreadHistoryRow>::empty(),
        ),
        r.source_counts@.len() == 0,
        r.provider_counts@.len() == 0,
        r.total_matched == 0,
        r.items@.len() == 0,
        opt_view(r.skipped_reason) == Some("state_db_not_found"@),
{
    let live: Option<&str> = match &live_config_model_provider {
        Some(l) => Some(l.as_str()),
        None => None,
    };
    let no_rows: Vec<ThreadHistoryRow> = Vec::new();
    let target_provider_candidates = codex_target_provider_candidates(live, router_provider_id, no_rows.as_slice());
    CodexHistorySessionListOutcome {
        codex_home,
        state_db_path: None,
        active_db_kind: None,
        live_config_model_provider,
        target_provider_candidates,
        source_counts: Vec::new(),
        provider_counts: Vec::new(),
        total_matched: 0,
        items: Vec::new(),
        skipped_reason: Some(owned("state_db_not_found")),
    }
}

/// The outcome when no active state database was found.
pub fn session_detail_without_state_db(codex_home: String) -> (r: CodexHistorySessionDetailOutcome)
    ensures
        r.codex_home@ == codex_home@,
        r.state_db_path is None,
        r.active_db_kind is None,
        r.session is None,
        r.messages@.len() == 0,
        r.rollout_path is None,
        opt_view(r.skipped_reason) == Some("state_db_not_found"@),
{
    CodexHistorySessionDetailOutcome {
        codex_home,
        state_db_path: None,
        active_db_kind: None,
        session: None,
        messages: Vec::new(),
        rollout_path: None,
        skipped_reason: Some(owned("state_db_not_found")),
    }
}

fn find_row(rows: &[ThreadHistoryRow], id: &str) -> (r: Option<usize>)
    ensures
        match r {
            Some(k) => first_row_with_id(rows@, id@, k as int),
            None => forall|k: int| 0 <= k < rows@.len() ==> (#[trigger] rows@[k]).id@ != id@,
        },
{
    let mut i: usize = 0;
    while i < rows.len()
        invariant
            i <= rows.len(),
            forall|j: int| 0 <= j < i ==> (#[trigger] rows@[j]).id@ != id@,
        decreases rows.len() - i,
    {
        if str_eq(rows[i].id.as_str(), id) {
            return Some(i);
        }
        i = i + 1;
    }
    None
}

/// Looks one session up among the thread rows (already merged with the rollouts'
/// metadata): a blank id is refused; a missing thread is reported as
/// `session_not_found`; a found one gets its summary, and its stored rollout path is
/// handed back for the caller to read the conversation from.
pub fn codex_history_session_detail(
    rows: &[ThreadHistoryRow],
    session_id: &str,
    codex_home: String,
    state_db_path: String,
    active_db_kind: String,
    now_iso: &str,
) -> (r: Result<(CodexHistorySessionDetailOutcome, Option<String>), String>)
    ensures
        trim(session_id@).len() == 0 ==> r is Err && r->Err_0@ == "session_id is required"@,
        trim(session_id@).len() > 0 ==> r is Ok && ({
            let (o, path) = r->Ok_0;
            &&& o.codex_home@ == codex_home@
            &&& opt_view(o.state_db_path) == Some(state_db_path@)
            &&& opt_view(o.active_db_kind) == Some(active_db_kind@)
            &&& o.messages@.len() == 0
            &&& (forall|k: int| 0 <= k < rows@.len() ==> (#[trigger] rows@[k]).id@ != trim(session_id@)) ==> {
                &&& o.session is None
                &&& o.rollout_path is None
                &&& opt_view(o.skipped_reason) == Some("session_not_found"@)
                &&& path is None
            }
            &&& forall|k: int| first_row_with_id(rows@, trim(session_id@), k) ==> {
                &&& o.session is Some
                &&& summary_of(o.session->0, rows@[k], now_iso@)
                &&& opt_view(o.rollout_path) == opt_view(o.session->0.rollout_path)
                &&& o.skipped_reason is None
                &&& opt_view(path) == opt_view(rows@[k].rollout_path)
            }
        }),
{
    let id = trim_str(session_id);
    if id.as_str().unicode_len() == 0 {
        return Err(owned("session_id is required"));
    }
    match find_row(rows, id.as_str()) {
        None => Ok((
            CodexHistorySessionDetailOutcome {
                codex_home,
                state_db_path: Some(state_db_path),
                active_db_kind: Some(active_db_kind),
                session: None,
                messages: Vec::new(),
                rollout_path: None,
                skipped_reason: Some(owned("session_not_found")),
            },
            None,
        )),
        Some(k) => {
            let summary = codex_history_summary_from_row(&rows[k], now_iso);
            let rollout_path = owned_opt(&summary.rollout_path);
            let path = owned_opt(&rows[k].rollout_path);
            proof {
                assert forall|k2: int| first_row_with_id(rows@, trim(session_id@), k2) implies k2 == k by {
                    if k2 < k {
                    } else if k2 > k {
                        assert(rows@[k as int].id@ == trim(session_id@));
                    }
                }
            }
            Ok((
                CodexHistorySessionDetailOutcome {
                    codex_home,
                    state_db_path: Some(state_db_path),
                    active_db_kind: Some(active_db_kind),
                    session: Some(summary),
                    messages: Vec::new(),
                    rollout_path,
                    skipped_reason: None,
                },
                path,
            ))
        },
    }
}

/// Completes a found session's detail with its conversation, or reports
/// `rollout_path_not_found` when the rollout could not be located (`None`).
pub fn with_session_messages(
    outcome: CodexHistorySessionDetailOutcome,
    messages: Option<Vec<VisibleConversationMessage>>,
) -> (r: CodexHistorySessionDetailOutcome)
    ensures
        r.codex_home == outcome.codex_home,
        r.state_db_path == outcome.state_db_path,
        r.active_db_kind == outcome.active_db_kind,
        r.session == outcome.session,
        r.rollout_path == outcome.rollout_path,
        match messages {
            Some(m) => r.messages == m && r.skipped_reason == outcome.skipped_reason,
            None => r.messages == outcome.messages && opt_view(r.skipped_reason) == Some("rollout_path_not_found"@),
        },
{
    let mut o = outcome;
    match messages {
        Some(m) => {
            o.messages = m;
        },
        None => {
            o.skipped_reason = Some(owned("rollout_path_not_found"));
        },
    }
    o
}

proof fn lemma_lower_char_facts(c: char)
    ensures
        crate::text::lower_char(crate::text::lower_char(c)) == crate::text::lower_char(c),
        crate::text::is_ws(crate::text::lower_char(c)) == crate::text::is_ws(c),
{
}

proof fn lemma_lower_idempotent(s: Seq<char>)
    ensures
        lower(lower(s)) == lower(s),
{
    assert forall|i: int| 0 <= i < s.len() implies lower(lower(s))[i] == lower(s)[i] by {
        lemma_lower_char_facts(s[i]);
    }
    assert(lower(lower(s)) =~= lower(s));
}

proof fn lemma_trim_start_lower(s: Seq<char>)
    ensures
        crate::text::trim_start(lower(s)) == lower(crate::text::trim_start(s)),
    decreases s.len(),
{
    if s.len() > 0 {
        lemma_lower_char_facts(s[0]);
        assert(lower(s)[0] == crate::text::lower_char(s[0]));
        assert(lower(s).drop_first() =~= lower(s.drop_first()));
        lemma_trim_start_lower(s.drop_first());
    } else {
        assert(lower(s) =~= s);
    }
}

proof fn lemma_trim_end_lower(s: Seq<char>)
    ensures
        crate::text::trim_end(lower(s)) == lower(crate::text::trim_end(s)),
    decreases s.len(),
{
    if s.len() > 0 {
        lemma_lower_char_facts(s.last());
        assert(lower(s).last() == crate::text::lower_char(s.last()));
        assert(lower(s).drop_last() =~= lower(s.drop_last()));
        lemma_trim_end_lower(s.drop_last());
    } else {
        assert(lower(s) =~= s);
    }
}

/// A listing ignores the letter case of its query: a row is listed under query `q`
/// exactly when it is listed under `q` in lower case, all other filters equal.
pub proof fn query_letter_case_is_ignored(
    row: ThreadHistoryRow,
    options: CodexHistorySessionListOptions,
    lowered: CodexHistorySessionListOptions,
)
    requires
        lowered.codex_home == options.codex_home,
        lowered.state_db_path == options.state_db_path,
        lowered.project_path == options.project_path,
        lowered.provider == options.provider,
        lowered.source_filter == options.source_filter,
        lowered.limit == options.limit,
        lowered.include_archived == options.include_archived,
        lowered.include_subagents == options.include_subagents,
        lowered.skip_rollout_metadata_scan == options.skip_rollout_metadata_scan,
        lowered.force_rollout_metadata_scan == options.force_rollout_metadata_scan,
        opt_view(options.query) is None ==> lowered.query is None,
        opt_view(options.query) matches Some(q) ==> opt_view(lowered.query) == Some(crate::text::lower(q)),
    ensures
        listed(row, lowered) == listed(row, options),
{
    match opt_view(options.query) {
        Some(q) => {
            lemma_trim_start_lower(q);
            lemma_trim_end_lower(crate::text::trim_start(q));
            assert(trim(lower(q)) == lower(trim(q)));
            lemma_lower_idempotent(trim(q));
            assert(lower(trim(q)).len() == trim(q).len());
        },
        None => {},
    }
}

} // verus!
