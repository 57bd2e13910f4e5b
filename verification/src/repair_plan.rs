//! Planning a history visibility repair: which threads the thread store keeps, which
//! rows move to the target provider bucket, which threads Codex Desktop will list,
//! which of them are brought forward, and what the repair reports. The caller reads
//! the store, the rollouts and the index files, and writes back what the plan says.
use vstd::prelude::*;
use crate::history::{
    assign_focus_times, focus_base, focus_row_from_thread, focus_row_of, focus_time, has_text,
    is_user_thread_source, millis_to_seconds, row_has_visible_text, row_project,
    source_filter_matches, source_matches_history_filter, sview, title_of, updated_ms,
    utc_rfc3339_millis, FocusThreadRow, RolloutThreadMetadata, ThreadHistoryRow,
};
use crate::recent_window::{
    in_project, iv, lemma_recency_order_indices, min_int, project_matches, recency_order,
    lemma_distinct_indices_bounded, lemma_recent_window_distinct, recent_window,
    recent_window_indices, sort_by_recency, valid_indices,
};
use crate::compiler::nonblank_trimmed;
use crate::json::{Json, JsonValue};
use crate::visibility::{
    count_removed_index_lines, count_session_index_title_updates, removed_line_count, hints_to_fix,
    index_ids, line_views, plan_global_state_repairs, projectless_to_remove, root_missing,
    session_index_thread_ids, stale_title_count,
};
use crate::text::{
    clone_strings, contains_str, opt_view, owned, owned_opt, sorted_set, sorted_set_of, str_eq,
    trim, trim_str, views,
};

verus! {

// ---------------------------------------------------------------------------
// Moving values out of vectors in order
// ---------------------------------------------------------------------------

fn reversed<T>(v: Vec<T>) -> (r: Vec<T>)
    ensures
        r@ == v@.reverse(),
{
    let ghost orig = v@;
    let mut rest = v;
    let mut out: Vec<T> = Vec::new();
    while rest.len() > 0
        invariant
            rest@ == orig.take(rest@.len() as int),
            out@.len() + rest@.len() == orig.len(),
            forall|k: int| 0 <= k < out@.len() ==> out@[k] == orig[orig.len() - 1 - k],
        decreases rest@.len(),
    {
        let x = rest.pop().unwrap();
        out.push(x);
        assert(rest@ =~= orig.take(rest@.len() as int));
    }
    assert(out@ =~= orig.reverse());
    out
}

// ---------------------------------------------------------------------------
// Cleaning up the thread store
// ---------------------------------------------------------------------------

/// The rows whose ids are not among `ids`, in order.
pub open spec fn rows_outside(rows: Seq<ThreadHistoryRow>, ids: Seq<Seq<char>>) -> Seq<ThreadHistoryRow>
    decreases rows.len(),
{
    if rows.len() == 0 {
        Seq::empty()
    } else {
        let before = rows_outside(rows.drop_last(), ids);
        if ids.contains(rows.last().id@) {
            before
        } else {
            before.push(rows.last())
        }
    }
}

/// The metadata whose ids are not among `ids`, in order.
pub open spec fn metadata_outside(ms: Seq<RolloutThreadMetadata>, ids: Seq<Seq<char>>) -> Seq<
    RolloutThreadMetadata,
>
    decreases ms.len(),
{
    if ms.len() == 0 {
        Seq::empty()
    } else {
        let before = metadata_outside(ms.drop_last(), ids);
        if ids.contains(ms.last().id@) {
            before
        } else {
            before.push(ms.last())
        }
    }
}

fn in_either(a: &Vec<String>, b: &Vec<String>, id: &str) -> (r: bool)
    ensures
        r == (views(a@) + views(b@)).contains(id@),
{
    let found = contains_str(a, id) || contains_str(b, id);
    proof {
        let s = views(a@) + views(b@);
        if views(a@).contains(id@) {
            let k = choose|k: int| 0 <= k < views(a@).len() && views(a@)[k] == id@;
            assert(s[k] == id@);
        }
        if views(b@).contains(id@) {
            let k = choose|k: int| 0 <= k < views(b@).len() && views(b@)[k] == id@;
            assert(s[views(a@).len() + k] == id@);
        }
        if s.contains(id@) {
            let k = choose|k: int| 0 <= k < s.len() && s[k] == id@;
            if k < views(a@).len() {
                assert(views(a@)[k] == id@);
            } else {
                assert(views(b@)[k - views(a@).len()] == id@);
            }
        }
    }
    found
}

/// The rows outside both id lists (`retain` with a set of the ids).
pub fn retain_rows_outside(rows: Vec<ThreadHistoryRow>, a: &Vec<String>, b: &Vec<String>) -> (r: Vec<
    ThreadHistoryRow,
>)
    ensures
        r@ == rows_outside(rows@, views(a@) + views(b@)),
{
    let ghost orig = rows@;
    let ghost ids = views(a@) + views(b@);
    let n = rows.len();
    let mut rest = reversed(rows);
    let mut out: Vec<ThreadHistoryRow> = Vec::new();
    let mut i: usize = 0;
    while i < n
        invariant
            n == orig.len(),
            i <= n,
            rest@.len() == n - i,
            forall|k: int| 0 <= k < rest@.len() ==> rest@[k] == orig[n - 1 - k],
            out@ == rows_outside(orig.take(i as int), ids),
            ids == views(a@) + views(b@),
        decreases n - i,
    {
        let row = rest.pop().unwrap();
        assert(row == orig[i as int]);
        assert(orig.take(i + 1).drop_last() =~= orig.take(i as int));
        assert(orig.take(i + 1).last() == orig[i as int]);
        if !in_either(a, b, row.id.as_str()) {
            out.push(row);
        }
        i = i + 1;
    }
    assert(orig.take(n as int) =~= orig);
    out
}

/// The metadata outside both id lists.
pub fn retain_metadata_outside(ms: Vec<RolloutThreadMetadata>, a: &Vec<String>, b: &Vec<String>) -> (r: Vec<
    RolloutThreadMetadata,
>)
    ensures
        r@ == metadata_outside(ms@, views(a@) + views(b@)),
{
    let ghost orig = ms@;
    let ghost ids = views(a@) + views(b@);
    let n = ms.len();
    let mut rest = reversed(ms);
    let mut out: Vec<RolloutThreadMetadata> = Vec::new();
    let mut i: usize = 0;
    while i < n
        invariant
            n == orig.len(),
            i <= n,
            rest@.len() == n - i,
            forall|k: int| 0 <= k < rest@.len() ==> rest@[k] == orig[n - 1 - k],
            out@ == metadata_outside(orig.take(i as int), ids),
            ids == views(a@) + views(b@),
        decreases n - i,
    {
        let m = rest.pop().unwrap();
        assert(m == orig[i as int]);
        assert(orig.take(i + 1).drop_last() =~= orig.take(i as int));
        assert(orig.take(i + 1).last() == orig[i as int]);
        if !in_either(a, b, m.id.as_str()) {
            out.push(m);
        }
        i = i + 1;
    }
    assert(orig.take(n as int) =~= orig);
    out
}

/// How many of the metadata are for threads the store does not hold yet.
pub open spec fn new_thread_count(ms: Seq<RolloutThreadMetadata>, existing: Seq<Seq<char>>) -> nat
    decreases ms.len(),
{
    if ms.len() == 0 {
        0
    } else {
        new_thread_count(ms.drop_last(), existing) + if existing.contains(ms.last().id@) {
            0nat
        } else {
            1nat
        }
    }
}

fn count_new_threads(ms: &Vec<RolloutThreadMetadata>, existing: &Vec<String>) -> (r: usize)
    ensures
        r == new_thread_count(ms@, views(existing@)),
{
    let mut count: usize = 0;
    let mut i: usize = 0;
    while i < ms.len()
        invariant
            i <= ms@.len(),
            count == new_thread_count(ms@.take(i as int), views(existing@)),
            count <= i,
        decreases ms.len() - i,
    {
        assert(ms@.take(i + 1).drop_last() =~= ms@.take(i as int));
        if !contains_str(existing, ms[i].id.as_str()) {
            count = count + 1;
        }
        i = i + 1;
    }
    assert(ms@.take(ms@.len() as int) =~= ms@);
    count
}

// ---------------------------------------------------------------------------
// Provider buckets
// ---------------------------------------------------------------------------

/// The provider buckets, trimmed, of the rows outside the target bucket.
pub open spec fn foreign_buckets(rows: Seq<ThreadHistoryRow>, target: Seq<char>) -> Seq<Seq<char>>
    decreases rows.len(),
{
    if rows.len() == 0 {
        Seq::empty()
    } else {
        let before = foreign_buckets(rows.drop_last(), target);
        match rows.last().model_provider {
            Some(p) => if trim(p@).len() > 0 && trim(p@) != target {
                before.push(trim(p@))
            } else {
                before
            },
            None => before,
        }
    }
}

/// The buckets a repair moves into the target: the given source buckets and, when
/// bucket sync is on, every other bucket the store holds; none when it is off.
pub open spec fn effective_sources(
    sources: Seq<Seq<char>>,
    rows: Seq<ThreadHistoryRow>,
    target: Seq<char>,
    sync: bool,
) -> Seq<Seq<char>> {
    if sync {
        sorted_set(sources + foreign_buckets(rows, target))
    } else {
        Seq::empty()
    }
}

/// The ids of the rows in one of the source buckets, in order.
pub open spec fn bucket_moves(rows: Seq<ThreadHistoryRow>, sources: Seq<Seq<char>>) -> Seq<Seq<char>>
    decreases rows.len(),
{
    if rows.len() == 0 {
        Seq::empty()
    } else {
        let before = bucket_moves(rows.drop_last(), sources);
        match rows.last().model_provider {
            Some(p) => if sources.contains(p@) {
                before.push(rows.last().id@)
            } else {
                before
            },
            None => before,
        }
    }
}

/// What cleaning up the thread store leaves and which rows change bucket.
#[derive(Debug)]
pub struct ThreadStoreCleanup {
    pub rows: Vec<ThreadHistoryRow>,
    pub rollout_metadata: Vec<RolloutThreadMetadata>,
    pub metadata_repairs: Vec<RolloutThreadMetadata>,
    pub thread_rows_to_insert: usize,
    pub source_provider_ids: Vec<String>,
    pub provider_update_ids: Vec<String>,
}

/// Drops the duplicate and internal threads from the rows and rollout metadata, counts
/// the threads still to insert, and picks the rows to move into the target bucket.
pub fn plan_thread_store_cleanup(
    rows: Vec<ThreadHistoryRow>,
    rollout_metadata: Vec<RolloutThreadMetadata>,
    metadata_repairs: Vec<RolloutThreadMetadata>,
    existing_ids: &Vec<String>,
    prefix_duplicate_ids: &Vec<String>,
    internal_transcript_ids: &Vec<String>,
    source_provider_ids: &Vec<String>,
    target_provider: &str,
    provider_bucket_sync_enabled: bool,
) -> (r: ThreadStoreCleanup)
    ensures
        ({
            let cleanup = views(prefix_duplicate_ids@) + views(internal_transcript_ids@);
            let kept = rows_outside(rows@, cleanup);
            let sources = effective_sources(
                views(source_provider_ids@),
                kept,
                target_provider@,
                provider_bucket_sync_enabled,
            );
            &&& r.rows@ == kept
            &&& r.rollout_metadata@ == metadata_outside(rollout_metadata@, cleanup)
            &&& r.metadata_repairs@ == metadata_outside(metadata_repairs@, cleanup)
            &&& r.thread_rows_to_insert == new_thread_count(r.rollout_metadata@, views(existing_ids@))
            &&& views(r.source_provider_ids@) == sources
            &&& views(r.provider_update_ids@) == bucket_moves(kept, sources)
        }),
{
    let kept = retain_rows_outside(rows, prefix_duplicate_ids, internal_transcript_ids);
    let metadata = retain_metadata_outside(rollout_metadata, prefix_duplicate_ids, internal_transcript_ids);
    let repairs = retain_metadata_outside(metadata_repairs, prefix_duplicate_ids, internal_transcript_ids);
    let to_insert = count_new_threads(&metadata, existing_ids);
    let sources: Vec<String> = if provider_bucket_sync_enabled {
        let mut all: Vec<String> = Vec::new();
        let mut i: usize = 0;
        while i < source_provider_ids.len()
            invariant
                i <= source_provider_ids@.len(),
                views(all@) == views(source_provider_ids@).take(i as int),
            decreases source_provider_ids.len() - i,
        {
            let ghost before = all@;
            let s = owned(source_provider_ids[i].as_str());
            all.push(s);
            assert(views(all@) =~= views(before).push(source_provider_ids@[i as int]@));
            assert(views(source_provider_ids@).take(i + 1) =~= views(source_provider_ids@).take(
                i as int,
            ).push(source_provider_ids@[i as int]@));
            i = i + 1;
        }
        assert(views(source_provider_ids@).take(source_provider_ids@.len() as int) =~= views(
            source_provider_ids@,
        ));
        let ghost base = views(all@);
        let mut j: usize = 0;
        while j < kept.len()
            invariant
                j <= kept@.len(),
                base == views(source_provider_ids@),
                views(all@) == base + foreign_buckets(kept@.take(j as int), target_provider@),
            decreases kept.len() - j,
        {
            assert(kept@.take(j + 1).drop_last() =~= kept@.take(j as int));
            match &kept[j].model_provider {
                Some(p) => {
                    let t = trim_str(p.as_str());
                    if !t.as_str().is_empty() && !str_eq(t.as_str(), target_provider) {
                        let ghost before = all@;
                        let ghost tv = t@;
                        all.push(t);
                        assert(views(all@) =~= views(before).push(tv));
                    }
                },
                None => {},
            }
            j = j + 1;
        }
        assert(kept@.take(kept@.len() as int) =~= kept@);
        sorted_set_of(&all)
    } else {
        let empty: Vec<String> = Vec::new();
        assert(views(empty@) =~= Seq::<Seq<char>>::empty());
        empty
    };
    let mut moves: Vec<String> = Vec::new();
    let mut k: usize = 0;
    while k < kept.len()
        invariant
            k <= kept@.len(),
            views(moves@) == bucket_moves(kept@.take(k as int), views(sources@)),
        decreases kept.len() - k,
    {
        assert(kept@.take(k + 1).drop_last() =~= kept@.take(k as int));
        match &kept[k].model_provider {
            Some(p) => {
                if contains_str(&sources, p.as_str()) {
                    let ghost before = moves@;
                    let id = owned(kept[k].id.as_str());
                    moves.push(id);
                    assert(views(moves@) =~= views(before).push(kept@[k as int].id@));
                }
            },
            None => {},
        }
        k = k + 1;
    }
    assert(kept@.take(kept@.len() as int) =~= kept@);
    ThreadStoreCleanup {
        rows: kept,
        rollout_metadata: metadata,
        metadata_repairs: repairs,
        thread_rows_to_insert: to_insert,
        source_provider_ids: sources,
        provider_update_ids: moves,
    }
}

// ---------------------------------------------------------------------------
// The threads Codex Desktop will list
// ---------------------------------------------------------------------------

/// How a history visibility repair runs.
#[derive(Debug, Clone)]
pub struct HistoryVisibilityRepairRuntimeOptions {
    pub dry_run: bool,
    pub count: usize,
    pub window_limit: usize,
    pub balance_recent_window: bool,
    pub max_per_project: usize,
    pub max_total: usize,
    pub source_filter: Option<String>,
    pub include_archived: bool,
    pub include_subagents: bool,
    pub selected_session_ids: Vec<String>,
    pub provider_bucket_sync_enabled: bool,
}

/// The row is in the target bucket once the planned moves are made.
pub open spec fn in_target_after(row: ThreadHistoryRow, moved: Seq<Seq<char>>, target: Seq<char>) -> bool {
    moved.contains(row.id@) || opt_view(row.model_provider) == Some(target)
}

/// A user's own thread: no thread source, an empty one, or `user`.
pub open spec fn user_thread(ts: Option<Seq<char>>) -> bool {
    ts is None || ts == Some(Seq::<char>::empty()) || ts == Some("user"@)
}

/// The row passes the repair's bucket, archive, source and sub-agent filters.
pub open spec fn listable(
    row: ThreadHistoryRow,
    moved: Seq<Seq<char>>,
    target: Seq<char>,
    opts: HistoryVisibilityRepairRuntimeOptions,
) -> bool {
    &&& in_target_after(row, moved, target)
    &&& (opts.include_archived || match row.archived {
        Some(a) => a == 0,
        None => true,
    })
    &&& source_filter_matches(opt_view(row.source), opt_view(opts.source_filter))
    &&& (opts.include_subagents || user_thread(opt_view(row.thread_source)))
}

/// The thread has a user turn: the store says so, or its rollout shows one.
pub open spec fn event_after(row: ThreadHistoryRow, rollout_event: bool) -> bool {
    row.has_user_event == Some(1i64) || rollout_event
}

/// The row has some text to show.
pub open spec fn shows_text(row: ThreadHistoryRow) -> bool {
    has_text(row.preview) || has_text(row.first_user_message) || has_text(row.title)
}

/// The rows Codex Desktop will list after the repair: listable, with a user turn and
/// some text (the first `n` rows considered).
pub open spec fn shown_rows(
    rows: Seq<ThreadHistoryRow>,
    events: Seq<bool>,
    moved: Seq<Seq<char>>,
    target: Seq<char>,
    opts: HistoryVisibilityRepairRuntimeOptions,
    n: nat,
) -> Seq<ThreadHistoryRow>
    decreases n,
{
    if n == 0 {
        Seq::empty()
    } else {
        let before = shown_rows(rows, events, moved, target, opts, (n - 1) as nat);
        let row = rows[n - 1];
        if listable(row, moved, target, opts) && event_after(row, events[n - 1]) && shows_text(row) {
            before.push(row)
        } else {
            before
        }
    }
}

/// The rollout flags of the shown rows, in the same order.
pub open spec fn shown_flags(
    rows: Seq<ThreadHistoryRow>,
    events: Seq<bool>,
    flags: Seq<bool>,
    moved: Seq<Seq<char>>,
    target: Seq<char>,
    opts: HistoryVisibilityRepairRuntimeOptions,
    n: nat,
) -> Seq<bool>
    decreases n,
{
    if n == 0 {
        Seq::empty()
    } else {
        let before = shown_flags(rows, events, flags, moved, target, opts, (n - 1) as nat);
        let row = rows[n - 1];
        if listable(row, moved, target, opts) && event_after(row, events[n - 1]) && shows_text(row) {
            before.push(flags[n - 1])
        } else {
            before
        }
    }
}

/// The listable rows whose user turn only their rollout shows: their store flag is set.
pub open spec fn event_backfills(
    rows: Seq<ThreadHistoryRow>,
    events: Seq<bool>,
    moved: Seq<Seq<char>>,
    target: Seq<char>,
    opts: HistoryVisibilityRepairRuntimeOptions,
    n: nat,
) -> Seq<Seq<char>>
    decreases n,
{
    if n == 0 {
        Seq::empty()
    } else {
        let before = event_backfills(rows, events, moved, target, opts, (n - 1) as nat);
        let row = rows[n - 1];
        if listable(row, moved, target, opts) && row.has_user_event != Some(1i64) && events[n - 1] {
            before.push(row.id@)
        } else {
            before
        }
    }
}

fn opt_str_of(o: &Option<String>) -> (r: Option<&str>)
    ensures
        sview(r) == opt_view(*o),
{
    match o {
        Some(s) => Some(s.as_str()),
        None => None,
    }
}

fn row_listable(
    row: &ThreadHistoryRow,
    moved: &Vec<String>,
    target: &str,
    opts: &HistoryVisibilityRepairRuntimeOptions,
) -> (r: bool)
    ensures
        r == listable(*row, views(moved@), target@, *opts),
{
    let in_target = contains_str(moved, row.id.as_str()) || match &row.model_provider {
        Some(p) => str_eq(p.as_str(), target),
        None => false,
    };
    let archive_ok = opts.include_archived || match row.archived {
        Some(a) => a == 0,
        None => true,
    };
    in_target && archive_ok && source_matches_history_filter(
        opt_str_of(&row.source),
        opt_str_of(&opts.source_filter),
    ) && (opts.include_subagents || is_user_thread_source(opt_str_of(&row.thread_source)))
}

/// The rows Codex Desktop will list, with their rollout flags, and the ids whose user
/// turn flag is to be set. `events[i]` says whether row `i`'s rollout shows a user turn
/// and `flags[i]` whether its rollout file is there.
pub fn partition_visible_rows(
    rows: Vec<ThreadHistoryRow>,
    events: &Vec<bool>,
    flags: &Vec<bool>,
    moved: &Vec<String>,
    target: &str,
    opts: &HistoryVisibilityRepairRuntimeOptions,
) -> (r: (Vec<ThreadHistoryRow>, Vec<bool>, Vec<String>))
    requires
        events@.len() == rows@.len(),
        flags@.len() == rows@.len(),
    ensures
        r.0@ == shown_rows(rows@, events@, views(moved@), target@, *opts, rows@.len()),
        r.1@ == shown_flags(rows@, events@, flags@, views(moved@), target@, *opts, rows@.len()),
        views(r.2@) == event_backfills(rows@, events@, views(moved@), target@, *opts, rows@.len()),
        r.0@.len() == r.1@.len(),
{
    let ghost orig = rows@;
    let n = rows.len();
    let mut rest = reversed(rows);
    let mut shown: Vec<ThreadHistoryRow> = Vec::new();
    let mut shown_f: Vec<bool> = Vec::new();
    let mut backfill: Vec<String> = Vec::new();
    let mut i: usize = 0;
    while i < n
        invariant
            n == orig.len() == events@.len() == flags@.len(),
            i <= n,
            rest@.len() == n - i,
            forall|k: int| 0 <= k < rest@.len() ==> rest@[k] == orig[n - 1 - k],
            shown@ == shown_rows(orig, events@, views(moved@), target@, *opts, i as nat),
            shown_f@ == shown_flags(orig, events@, flags@, views(moved@), target@, *opts, i as nat),
            views(backfill@) == event_backfills(orig, events@, views(moved@), target@, *opts, i as nat),
            shown@.len() == shown_f@.len(),
        decreases n - i,
    {
        let row = rest.pop().unwrap();
        assert(row == orig[i as int]);
        if row_listable(&row, moved, target, opts) {
            let stored = row.has_user_event == Some(1i64);
            if !stored && events[i] {
                let ghost before = backfill@;
                backfill.push(owned(row.id.as_str()));
                assert(views(backfill@) =~= views(before).push(row.id@));
            }
            if (stored || events[i]) && row_has_visible_text(&row) {
                shown.push(row);
                shown_f.push(flags[i]);
            }
        }
        i = i + 1;
    }
    (shown, shown_f, backfill)
}

// ---------------------------------------------------------------------------
// The threads brought forward
// ---------------------------------------------------------------------------

/// The indices of the rows whose ids are among `ids`, in order (first `n` rows).
pub open spec fn chosen_by_id(rows: Seq<ThreadHistoryRow>, ids: Seq<Seq<char>>, n: nat) -> Seq<int>
    decreases n,
{
    if n == 0 {
        Seq::empty()
    } else {
        let before = chosen_by_id(rows, ids, (n - 1) as nat);
        if ids.contains(rows[n - 1].id@) {
            before.push(n - 1)
        } else {
            before
        }
    }
}

/// The project's visible rows, most recent first.
pub open spec fn project_recent(visible: Seq<ThreadHistoryRow>, p: Seq<char>) -> Seq<int> {
    in_project(visible, recency_order(visible, visible.len()), p)
}

/// The visible rows a repair brings forward, as indices: the chosen sessions when some
/// are chosen; else the balanced recent window when asked for; else the project's
/// newest `count` rows.
pub open spec fn focus_choice(
    visible: Seq<ThreadHistoryRow>,
    project: Option<Seq<char>>,
    opts: HistoryVisibilityRepairRuntimeOptions,
) -> Seq<int> {
    if opts.selected_session_ids@.len() > 0 {
        chosen_by_id(visible, views(opts.selected_session_ids@), visible.len())
    } else if opts.balance_recent_window {
        recent_window(
            visible,
            project,
            opts.count as int,
            opts.max_per_project as int,
            opts.max_total as int,
        )
    } else {
        match project {
            Some(p) => {
                let pr = project_recent(visible, p);
                pr.take(min_int(opts.count as int, pr.len() as int))
            },
            None => Seq::empty(),
        }
    }
}

proof fn lemma_in_project_within(rows: Seq<ThreadHistoryRow>, s: Seq<int>, p: Seq<char>)
    ensures
        forall|x: int| in_project(rows, s, p).contains(x) ==> s.contains(x),
        in_project(rows, s, p).len() <= s.len(),
    decreases s.len(),
{
    if s.len() > 0 {
        lemma_in_project_within(rows, s.drop_last(), p);
        assert forall|x: int| in_project(rows, s, p).contains(x) implies s.contains(x) by {
            if in_project(rows, s.drop_last(), p).contains(x) {
                assert(s.drop_last().contains(x));
                let k = choose|k: int| 0 <= k < s.drop_last().len() && s.drop_last()[k] == x;
                assert(s[k] == x);
            } else {
                assert(x == s.last());
                assert(s[s.len() - 1] == x);
            }
        }
    }
}

/// The entries of `order` whose rows belong to the project.
fn indices_in_project(rows: &Vec<ThreadHistoryRow>, order: &Vec<usize>, p: &str) -> (r: Vec<usize>)
    requires
        valid_indices(order@, rows@.len() as int),
    ensures
        iv(r@) == in_project(rows@, iv(order@), p@),
{
    let ghost o = iv(order@);
    let mut out: Vec<usize> = Vec::new();
    let mut i: usize = 0;
    while i < order.len()
        invariant
            i <= order@.len(),
            o == iv(order@),
            valid_indices(order@, rows@.len() as int),
            iv(out@) == in_project(rows@, o.take(i as int), p@),
        decreases order.len() - i,
    {
        assert(o.take(i + 1).drop_last() =~= o.take(i as int));
        assert(o.take(i + 1).last() == order@[i as int] as int);
        let k = order[i];
        if project_matches(&rows[k], p) {
            let ghost before = out@;
            out.push(k);
            assert(iv(out@) =~= iv(before).push(k as int));
        }
        i = i + 1;
    }
    assert(o.take(order@.len() as int) =~= o);
    out
}

/// The visible rows to bring forward, as indices into `visible`.
pub fn focus_choice_indices(
    visible: &Vec<ThreadHistoryRow>,
    project: Option<&str>,
    opts: &HistoryVisibilityRepairRuntimeOptions,
) -> (r: Vec<usize>)
    ensures
        iv(r@) == focus_choice(visible@, sview(project), *opts),
        valid_indices(r@, visible@.len() as int),
        r@.len() <= visible@.len(),
{
    if opts.selected_session_ids.len() > 0 {
        let mut out: Vec<usize> = Vec::new();
        let mut i: usize = 0;
        while i < visible.len()
            invariant
                i <= visible@.len(),
                iv(out@) == chosen_by_id(visible@, views(opts.selected_session_ids@), i as nat),
                valid_indices(out@, i as int),
                out@.len() <= i,
            decreases visible.len() - i,
        {
            if contains_str(&opts.selected_session_ids, visible[i].id.as_str()) {
                let ghost before = out@;
                out.push(i);
                assert(iv(out@) =~= iv(before).push(i as int));
            }
            i = i + 1;
        }
        out
    } else if opts.balance_recent_window {
        let w = recent_window_indices(
            visible.as_slice(),
            project,
            opts.count,
            opts.max_per_project,
            opts.max_total,
        );
        proof {
            lemma_recent_window_distinct(
                visible@,
                sview(project),
                opts.count as int,
                opts.max_per_project as int,
                opts.max_total as int,
            );
            assert forall|k: int| 0 <= k < iv(w@).len() implies 0 <= #[trigger] iv(w@)[k] < visible@.len() by {
                assert(iv(w@)[k] == w@[k] as int);
            }
            lemma_distinct_indices_bounded(iv(w@), visible@.len() as int);
        }
        w
    } else {
        match project {
            Some(p) => {
                let order = sort_by_recency(visible.as_slice());
                proof {
                    lemma_recency_order_indices(visible@, visible@.len());
                    assert forall|k: int| 0 <= k < order@.len() implies (#[trigger] order@[k]) < visible@.len() by {
                        assert(iv(order@)[k] == order@[k] as int);
                        assert(recency_order(visible@, visible@.len()).contains(order@[k] as int));
                    }
                }
                assert(iv(order@) == recency_order(visible@, visible@.len()));
                let in_p = indices_in_project(visible, &order, p);
                let ghost pr = project_recent(visible@, p@);
                proof {
                    lemma_in_project_within(visible@, iv(order@), p@);
                    lemma_recency_order_indices(visible@, visible@.len());
                    assert forall|x: int| pr.contains(x) implies 0 <= x < visible@.len() by {
                        assert(iv(order@).contains(x));
                        assert(recency_order(visible@, visible@.len()).contains(x));
                    }
                }
                let take = if opts.count < in_p.len() {
                    opts.count
                } else {
                    in_p.len()
                };
                assert(iv(in_p@).len() == in_p@.len());
                assert(take <= visible@.len());
                let mut out: Vec<usize> = Vec::new();
                let mut i: usize = 0;
                while i < take
                    invariant
                        take <= in_p@.len(),
                        i <= take,
                        iv(in_p@) == pr,
                        forall|x: int| pr.contains(x) ==> 0 <= x < visible@.len(),
                        iv(out@) == pr.take(i as int),
                        valid_indices(out@, visible@.len() as int),
                    decreases take - i,
                {
                    let ghost before = out@;
                    assert(pr[i as int] == in_p@[i as int] as int);
                    assert(pr.contains(pr[i as int]));
                    out.push(in_p[i]);
                    assert(iv(out@) =~= iv(before).push(pr[i as int]));
                    assert(pr.take(i + 1) =~= pr.take(i as int).push(pr[i as int]));
                    i = i + 1;
                }
                out
            },
            None => {
                let out: Vec<usize> = Vec::new();
                assert(iv(out@) =~= Seq::<int>::empty());
                out
            },
        }
    }
}

/// The largest update time among the chosen rows, at least `now_ms`.
pub open spec fn chosen_base(visible: Seq<ThreadHistoryRow>, w: Seq<int>, now_ms: i64) -> i64
    decreases w.len(),
{
    if w.len() == 0 {
        now_ms
    } else {
        let b = chosen_base(visible, w.drop_last(), now_ms);
        if updated_ms(visible[w.last()]) > b {
            updated_ms(visible[w.last()])
        } else {
            b
        }
    }
}

/// `f` brings `row` forward to time `t`.
pub open spec fn planned_focus_row(f: FocusThreadRow, row: ThreadHistoryRow, t: i64, now_iso: Seq<char>) -> bool {
    &&& f.id@ == row.id@
    &&& f.title@ == title_of(row)
    &&& opt_view(f.project_path) == row_project(row)
    &&& opt_view(f.rollout_path) == opt_view(row.rollout_path)
    &&& f.new_updated_at_ms == t
    &&& f.new_updated_at == millis_to_seconds(t)
    &&& f.updated_iso@ == match utc_rfc3339_millis(t) {
        Some(x) => x,
        None => now_iso,
    }
}

proof fn lemma_focus_base(frs: Seq<FocusThreadRow>, visible: Seq<ThreadHistoryRow>, w: Seq<int>, now_ms: i64)
    requires
        frs.len() == w.len(),
        forall|k: int| 0 <= k < w.len() ==> #[trigger] frs[k].new_updated_at_ms == updated_ms(visible[w[k]]),
    ensures
        focus_base(frs, now_ms) == chosen_base(visible, w, now_ms),
    decreases w.len(),
{
    if w.len() > 0 {
        let f1 = frs.drop_last();
        let w1 = w.drop_last();
        assert forall|k: int| 0 <= k < w1.len() implies #[trigger] f1[k].new_updated_at_ms == updated_ms(visible[w1[k]]) by {
            assert(f1[k] == frs[k] && w1[k] == w[k]);
        }
        lemma_focus_base(f1, visible, w1, now_ms);
        assert(frs.last().new_updated_at_ms == updated_ms(visible[w.last()]));
    }
}

/// The chosen rows brought forward: in order, 250 ms apart, the first newest, all after
/// every chosen row's own time and after `now_ms`.
pub fn focus_rows_for(visible: &Vec<ThreadHistoryRow>, idx: &Vec<usize>, now_ms: i64, now_iso: &str) -> (r: Vec<
    FocusThreadRow,
>)
    requires
        valid_indices(idx@, visible@.len() as int),
        idx@.len() <= 36_893_488_147_419_103,
    ensures
        r@.len() == idx@.len(),
        forall|k: int|
            0 <= k < idx@.len() ==> planned_focus_row(
                #[trigger] r@[k],
                visible@[idx@[k] as int],
                focus_time(chosen_base(visible@, iv(idx@), now_ms), idx@.len() as int, k),
                now_iso@,
            ),
{
    let mut rows: Vec<FocusThreadRow> = Vec::new();
    let mut i: usize = 0;
    while i < idx.len()
        invariant
            i <= idx@.len(),
            valid_indices(idx@, visible@.len() as int),
            rows@.len() == i,
            forall|k: int| 0 <= k < i ==> focus_row_of(#[trigger] rows@[k], visible@[idx@[k] as int], now_iso@),
        decreases idx.len() - i,
    {
        let f = focus_row_from_thread(&visible[idx[i]], now_iso);
        rows.push(f);
        i = i + 1;
    }
    let ghost before = rows@;
    proof {
        assert forall|k: int| 0 <= k < iv(idx@).len() implies #[trigger] before[k].new_updated_at_ms == updated_ms(
            visible@[iv(idx@)[k]],
        ) by {
            assert(focus_row_of(before[k], visible@[idx@[k] as int], now_iso@));
        }
        lemma_focus_base(before, visible@, iv(idx@), now_ms);
    }
    assign_focus_times(&mut rows, now_ms, now_iso);
    proof {
        assert forall|k: int|
            0 <= k < idx@.len() implies planned_focus_row(
                #[trigger] rows@[k],
                visible@[idx@[k] as int],
                focus_time(chosen_base(visible@, iv(idx@), now_ms), idx@.len() as int, k),
                now_iso@,
            ) by {
            assert(focus_row_of(before[k], visible@[idx@[k] as int], now_iso@));
        }
    }
    rows
}

// ---------------------------------------------------------------------------
// What the repair reports
// ---------------------------------------------------------------------------

/// What a history visibility repair found and did; a dry run fills the `*_to_*`
/// counts only, so a caller can show what would change before writing.
#[derive(Debug, Clone)]
pub struct CodexHistoryVisibilityRepairOutcome {
    pub dry_run: bool,
    pub codex_home: String,
    pub state_db_path: Option<String>,
    pub active_db_kind: Option<String>,
    pub live_config_model_provider: Option<String>,
    pub target_provider: String,
    pub source_provider_ids: Vec<String>,
    pub sqlite_threads: usize,
    pub rollout_threads_discovered: usize,
    pub thread_rows_to_insert: usize,
    pub thread_rows_inserted: usize,
    pub prefix_duplicate_rows_to_remove: usize,
    pub prefix_duplicate_rows_removed: usize,
    pub internal_transcript_rows_to_remove: usize,
    pub internal_transcript_rows_removed: usize,
    pub thread_metadata_rows_to_rebuild: usize,
    pub thread_metadata_rows_rebuilt: usize,
    pub backfill_state_to_update: bool,
    pub backfill_state_updated: bool,
    pub provider_rows_to_update: usize,
    pub provider_rows_updated: usize,
    pub rollout_first_lines_to_update: usize,
    pub rollout_first_lines_updated: usize,
    pub user_event_rows_to_update: usize,
    pub user_event_rows_updated: usize,
    pub visible_candidate_rows: usize,
    pub session_index_missing_to_append: usize,
    pub session_index_appended: usize,
    pub session_index_duplicate_rows_to_remove: usize,
    pub session_index_duplicate_rows_removed: usize,
    pub project_rows: usize,
    pub focus_selected_count: usize,
    pub balanced_recent_window_enabled: bool,
    pub balanced_recent_window_rows: usize,
    pub balanced_recent_window_projects: usize,
    pub max_per_project: usize,
    pub max_total: usize,
    pub source_filter: Option<String>,
    pub sqlite_focus_rows_to_update: usize,
    pub sqlite_focus_rows_updated: usize,
    pub session_index_titles_to_update: usize,
    pub session_index_titles_updated: usize,
    pub session_index_rows_to_move: usize,
    pub session_index_rows_moved: usize,
    pub workspace_hints_to_fix: usize,
    pub workspace_hints_fixed: usize,
    pub projectless_ids_to_remove: usize,
    pub projectless_ids_removed: usize,
    pub saved_workspace_roots_to_add: usize,
    pub saved_workspace_roots_added: usize,
    pub rollout_mtimes_to_touch: usize,
    pub rollout_mtimes_touched: usize,
    pub visible_project_rows_in_window_before: usize,
    pub backup_dir: Option<String>,
    pub skipped_reason: Option<String>,
}

/// Where a repair runs: the Codex home, its active state database, the buckets and the
/// project.
#[derive(Debug, Clone)]
pub struct HistoryRepairContext {
    pub codex_home: String,
    pub state_db_path: Option<String>,
    pub active_db_kind: Option<String>,
    pub live_config_model_provider: Option<String>,
    pub target_provider: String,
    pub normalized_project_path: Option<String>,
}

/// How many of the chosen rows have their rollout file.
pub open spec fn present_count(flags: Seq<bool>, w: Seq<int>) -> nat
    decreases w.len(),
{
    if w.len() == 0 {
        0
    } else {
        present_count(flags, w.drop_last()) + if flags[w.last()] {
            1nat
        } else {
            0nat
        }
    }
}

/// How many of the selected rows the index names.
pub open spec fn indexed_count(selected: Seq<FocusThreadRow>, ids: Seq<Seq<char>>) -> nat
    decreases selected.len(),
{
    if selected.len() == 0 {
        0
    } else {
        indexed_count(selected.drop_last(), ids) + if ids.contains(selected.last().id@) {
            1nat
        } else {
            0nat
        }
    }
}

/// The project paths of the selected rows that have one.
pub open spec fn project_paths(selected: Seq<FocusThreadRow>) -> Seq<Seq<char>>
    decreases selected.len(),
{
    if selected.len() == 0 {
        Seq::empty()
    } else {
        let before = project_paths(selected.drop_last());
        match selected.last().project_path {
            Some(p) => before.push(p@),
            None => before,
        }
    }
}

/// How many of the project's rows the recent window of `limit` rows held before.
pub open spec fn window_project_count(visible: Seq<ThreadHistoryRow>, project: Option<Seq<char>>, limit: int) -> nat {
    match project {
        Some(p) => {
            let order = recency_order(visible, visible.len());
            in_project(visible, order.take(min_int(limit, order.len() as int)), p).len()
        },
        None => 0,
    }
}

fn count_present(flags: &Vec<bool>, idx: &Vec<usize>) -> (r: usize)
    requires
        valid_indices(idx@, flags@.len() as int),
    ensures
        r == present_count(flags@, iv(idx@)),
{
    let ghost w = iv(idx@);
    let mut count: usize = 0;
    let mut i: usize = 0;
    while i < idx.len()
        invariant
            i <= idx@.len(),
            w == iv(idx@),
            valid_indices(idx@, flags@.len() as int),
            count == present_count(flags@, w.take(i as int)),
            count <= i,
        decreases idx.len() - i,
    {
        assert(w.take(i + 1).drop_last() =~= w.take(i as int));
        assert(w.take(i + 1).last() == idx@[i as int] as int);
        if flags[idx[i]] {
            count = count + 1;
        }
        i = i + 1;
    }
    assert(w.take(idx@.len() as int) =~= w);
    count
}

fn count_indexed(selected: &Vec<FocusThreadRow>, ids: &Vec<String>) -> (r: usize)
    ensures
        r == indexed_count(selected@, views(ids@)),
{
    let mut count: usize = 0;
    let mut i: usize = 0;
    while i < selected.len()
        invariant
            i <= selected@.len(),
            count == indexed_count(selected@.take(i as int), views(ids@)),
            count <= i,
        decreases selected.len() - i,
    {
        assert(selected@.take(i + 1).drop_last() =~= selected@.take(i as int));
        if contains_str(ids, selected[i].id.as_str()) {
            count = count + 1;
        }
        i = i + 1;
    }
    assert(selected@.take(selected@.len() as int) =~= selected@);
    count
}

/// The ids of both lists, the first list first.
pub fn concat_ids(a: &Vec<String>, b: &Vec<String>) -> (r: Vec<String>)
    ensures
        views(r@) == views(a@) + views(b@),
{
    let mut out = clone_strings(a);
    let mut i: usize = 0;
    while i < b.len()
        invariant
            i <= b@.len(),
            views(out@) == views(a@) + views(b@).take(i as int),
        decreases b.len() - i,
    {
        let ghost before = out@;
        out.push(owned(b[i].as_str()));
        assert(views(out@) =~= views(before).push(b@[i as int]@));
        assert(views(b@).take(i + 1) =~= views(b@).take(i as int).push(b@[i as int]@));
        i = i + 1;
    }
    assert(views(b@).take(b@.len() as int) =~= views(b@));
    out
}

fn distinct_project_count(selected: &Vec<FocusThreadRow>) -> (r: usize)
    ensures
        r == sorted_set(project_paths(selected@)).len(),
{
    let mut paths: Vec<String> = Vec::new();
    let mut i: usize = 0;
    while i < selected.len()
        invariant
            i <= selected@.len(),
            views(paths@) == project_paths(selected@.take(i as int)),
        decreases selected.len() - i,
    {
        assert(selected@.take(i + 1).drop_last() =~= selected@.take(i as int));
        match &selected[i].project_path {
            Some(p) => {
                let ghost before = paths@;
                paths.push(owned(p.as_str()));
                assert(views(paths@) =~= views(before).push(p@));
            },
            None => {},
        }
        i = i + 1;
    }
    assert(selected@.take(selected@.len() as int) =~= selected@);
    sorted_set_of(&paths).len()
}

fn count_window_project_rows(visible: &Vec<ThreadHistoryRow>, order: &Vec<usize>, project: Option<&str>, limit: usize) -> (r: usize)
    requires
        iv(order@) == recency_order(visible@, visible@.len()),
        valid_indices(order@, visible@.len() as int),
    ensures
        r == window_project_count(visible@, sview(project), limit as int),
{
    match project {
        Some(p) => {
            let n = if limit < order.len() {
                limit
            } else {
                order.len()
            };
            let mut head: Vec<usize> = Vec::new();
            let mut i: usize = 0;
            while i < n
                invariant
                    n <= order@.len(),
                    i <= n,
                    iv(head@) == iv(order@).take(i as int),
                    valid_indices(order@, visible@.len() as int),
                    valid_indices(head@, visible@.len() as int),
                decreases n - i,
            {
                let ghost before = head@;
                head.push(order[i]);
                assert(iv(head@) =~= iv(before).push(order@[i as int] as int));
                assert(iv(order@).take(i + 1) =~= iv(order@).take(i as int).push(order@[i as int] as int));
                i = i + 1;
            }
            indices_in_project(visible, &head, p).len()
        },
        None => 0,
    }
}

/// Everything a repair changes: the outcome, the listed rows, the rows brought
/// forward, the rows whose user turn flag is set, and what the store cleanup carried.
#[derive(Debug)]
pub struct VisibilityRepairPlan {
    pub outcome: CodexHistoryVisibilityRepairOutcome,
    pub visible_rows: Vec<ThreadHistoryRow>,
    pub selected_focus_rows: Vec<FocusThreadRow>,
    pub user_event_update_ids: Vec<String>,
    pub rollout_metadata: Vec<RolloutThreadMetadata>,
    pub metadata_repairs: Vec<RolloutThreadMetadata>,
    pub provider_update_ids: Vec<String>,
}

/// What the plan reports when the thread rows are in: every store, index and global
/// state count of the repair, before anything is written.
pub open spec fn planned_outcome(
    o: CodexHistoryVisibilityRepairOutcome,
    ctx: HistoryRepairContext,
    runtime: HistoryVisibilityRepairRuntimeOptions,
    store: ThreadStoreCleanup,
    removed: Seq<Seq<char>>,
    prefix_count: nat,
    internal_count: nat,
    events: Seq<bool>,
    flags: Seq<bool>,
    rollout_first_lines_to_update: nat,
    backfill_state_present: bool,
    index: Seq<Option<JsonValue>>,
    global_state: JsonValue,
    selected: Seq<FocusThreadRow>,
) -> bool {
    let moved = views(store.provider_update_ids@);
    let target = ctx.target_provider@;
    let n = store.rows@.len();
    let visible = shown_rows(store.rows@, events, moved, target, runtime, n);
    let vflags = shown_flags(store.rows@, events, flags, moved, target, runtime, n);
    let project = opt_view(ctx.normalized_project_path);
    let w = focus_choice(visible, project, runtime);
    let balanced = runtime.balance_recent_window && runtime.selected_session_ids@.len() == 0;
    &&& o.dry_run == runtime.dry_run
    &&& o.codex_home@ == ctx.codex_home@
    &&& opt_view(o.state_db_path) == opt_view(ctx.state_db_path)
    &&& opt_view(o.active_db_kind) == opt_view(ctx.active_db_kind)
    &&& opt_view(o.live_config_model_provider) == opt_view(ctx.live_config_model_provider)
    &&& o.target_provider@ == target
    &&& views(o.source_provider_ids@) == views(store.source_provider_ids@)
    &&& o.sqlite_threads == n
    &&& o.rollout_threads_discovered == store.rollout_metadata@.len()
    &&& o.thread_rows_to_insert == store.thread_rows_to_insert
    &&& o.prefix_duplicate_rows_to_remove == prefix_count
    &&& o.internal_transcript_rows_to_remove == internal_count
    &&& o.thread_metadata_rows_to_rebuild == store.metadata_repairs@.len()
    &&& o.backfill_state_to_update == backfill_state_present
    &&& o.provider_rows_to_update == store.provider_update_ids@.len()
    &&& o.rollout_first_lines_to_update == rollout_first_lines_to_update
    &&& o.user_event_rows_to_update == event_backfills(store.rows@, events, moved, target, runtime, n).len()
    &&& o.visible_candidate_rows == visible.len()
    &&& o.session_index_missing_to_append == 0
    &&& o.session_index_duplicate_rows_to_remove == removed_line_count(index, removed)
    &&& o.project_rows == match project {
        Some(p) => project_recent(visible, p).len(),
        None => 0,
    }
    &&& o.focus_selected_count == w.len()
    &&& o.balanced_recent_window_enabled == balanced
    &&& o.balanced_recent_window_rows == if balanced {
        w.len()
    } else {
        0
    }
    &&& o.balanced_recent_window_projects == if balanced {
        sorted_set(project_paths(selected)).len()
    } else {
        0
    }
    &&& o.max_per_project == runtime.max_per_project
    &&& o.max_total == runtime.max_total
    &&& opt_view(o.source_filter) == opt_view(runtime.source_filter)
    &&& o.sqlite_focus_rows_to_update == w.len()
    &&& o.session_index_titles_to_update == stale_title_count(index, selected)
    &&& o.session_index_rows_to_move == indexed_count(selected, index_ids(index))
    &&& o.workspace_hints_to_fix == hints_to_fix(global_state, visible, selected, project)
    &&& o.projectless_ids_to_remove == projectless_to_remove(global_state, visible, selected)
    &&& o.saved_workspace_roots_to_add == if root_missing(global_state, project) {
        1nat
    } else {
        0nat
    }
    &&& o.rollout_mtimes_to_touch == present_count(vflags, w)
    &&& o.visible_project_rows_in_window_before == window_project_count(
        visible,
        project,
        runtime.window_limit as int,
    )
    &&& o.thread_rows_inserted == 0
    &&& o.prefix_duplicate_rows_removed == 0
    &&& o.internal_transcript_rows_removed == 0
    &&& o.thread_metadata_rows_rebuilt == 0
    &&& !o.backfill_state_updated
    &&& o.provider_rows_updated == 0
    &&& o.rollout_first_lines_updated == 0
    &&& o.user_event_rows_updated == 0
    &&& o.session_index_appended == 0
    &&& o.session_index_duplicate_rows_removed == 0
    &&& o.sqlite_focus_rows_updated == 0
    &&& o.session_index_titles_updated == 0
    &&& o.session_index_rows_moved == 0
    &&& o.workspace_hints_fixed == 0
    &&& o.projectless_ids_removed == 0
    &&& o.saved_workspace_roots_added == 0
    &&& o.rollout_mtimes_touched == 0
    &&& o.backup_dir is None
    &&& o.skipped_reason is None
}

/// Plans a history visibility repair on the cleaned-up thread store: which threads
/// Codex Desktop will list, which are brought forward and to what times, which rows get
/// their user turn flag, and every count of the outcome. `rollout_events[i]` says
/// whether the rollout of `store.rows[i]` shows a user turn, `rollout_present[i]`
/// whether that rollout file is there; `rollout_first_lines_to_update` is how many
/// rollouts need their provider rewritten and `backfill_state_present` whether the
/// store has a backfill state. The session index and global state are as read.
pub fn plan_history_visibility_repair(
    ctx: &HistoryRepairContext,
    runtime: &HistoryVisibilityRepairRuntimeOptions,
    store: ThreadStoreCleanup,
    prefix_duplicate_ids: &Vec<String>,
    internal_transcript_ids: &Vec<String>,
    rollout_events: &Vec<bool>,
    rollout_present: &Vec<bool>,
    rollout_first_lines_to_update: usize,
    backfill_state_present: bool,
    session_index: &Vec<Option<Json>>,
    global_state: &Json,
    now_ms: i64,
    now_iso: &str,
) -> (r: VisibilityRepairPlan)
    requires
        rollout_events@.len() == store.rows@.len(),
        rollout_present@.len() == store.rows@.len(),
        store.rows@.len() <= 36_893_488_147_419_103,
    ensures
        ({
            let moved = views(store.provider_update_ids@);
            let target = ctx.target_provider@;
            let n = store.rows@.len();
            let visible = shown_rows(store.rows@, rollout_events@, moved, target, *runtime, n);
            let project = opt_view(ctx.normalized_project_path);
            let w = focus_choice(visible, project, *runtime);
            &&& r.visible_rows@ == visible
            &&& views(r.user_event_update_ids@) == event_backfills(
                store.rows@,
                rollout_events@,
                moved,
                target,
                *runtime,
                n,
            )
            &&& r.selected_focus_rows@.len() == w.len()
            &&& forall|k: int|
                0 <= k < w.len() ==> planned_focus_row(
                    #[trigger] r.selected_focus_rows@[k],
                    visible[w[k]],
                    focus_time(chosen_base(visible, w, now_ms), w.len() as int, k),
                    now_iso@,
                )
            &&& r.rollout_metadata@ == store.rollout_metadata@
            &&& r.metadata_repairs@ == store.metadata_repairs@
            &&& views(r.provider_update_ids@) == moved
            &&& planned_outcome(
                r.outcome,
                *ctx,
                *runtime,
                store,
                views(prefix_duplicate_ids@) + views(internal_transcript_ids@),
                prefix_duplicate_ids@.len(),
                internal_transcript_ids@.len(),
                rollout_events@,
                rollout_present@,
                rollout_first_lines_to_update as nat,
                backfill_state_present,
                line_views(session_index@),
                global_state@,
                r.selected_focus_rows@,
            )
        }),
{
    let ghost store0 = store;
    let ThreadStoreCleanup {
        rows,
        rollout_metadata,
        metadata_repairs,
        thread_rows_to_insert,
        source_provider_ids,
        provider_update_ids,
    } = store;
    let sqlite_threads = rows.len();
    let (visible, vflags, backfills) = partition_visible_rows(
        rows,
        rollout_events,
        rollout_present,
        &provider_update_ids,
        ctx.target_provider.as_str(),
        runtime,
    );
    proof {
        lemma_shown_len(store0.rows@, rollout_events@, views(provider_update_ids@), ctx.target_provider@, *runtime, sqlite_threads as nat);
    }
    let project: Option<&str> = match &ctx.normalized_project_path {
        Some(p) => Some(p.as_str()),
        None => None,
    };
    let idx = focus_choice_indices(&visible, project, runtime);
    let selected = focus_rows_for(&visible, &idx, now_ms, now_iso);
    let balanced = runtime.balance_recent_window && runtime.selected_session_ids.len() == 0;
    let order = sort_by_recency(visible.as_slice());
    proof {
        lemma_recency_order_indices(visible@, visible@.len());
        assert forall|k: int| 0 <= k < order@.len() implies (#[trigger] order@[k]) < visible@.len() by {
            assert(iv(order@)[k] == order@[k] as int);
            assert(recency_order(visible@, visible@.len()).contains(order@[k] as int));
        }
    }
    let project_rows = match project {
        Some(p) => indices_in_project(&visible, &order, p).len(),
        None => 0,
    };
    let window_before = count_window_project_rows(&visible, &order, project, runtime.window_limit);
    let balanced_projects = if balanced {
        distinct_project_count(&selected)
    } else {
        0
    };
    let index_ids = session_index_thread_ids(session_index);
    let rows_to_move = count_indexed(&selected, &index_ids);
    let titles_to_update = count_session_index_title_updates(session_index, &selected);
    let removed_ids = concat_ids(prefix_duplicate_ids, internal_transcript_ids);
    let duplicate_lines = count_removed_index_lines(session_index, &removed_ids);
    let global = plan_global_state_repairs(global_state, &visible, &selected, project);
    let mtimes = count_present(&vflags, &idx);
    let focus_count = selected.len();
    let outcome = CodexHistoryVisibilityRepairOutcome {
        dry_run: runtime.dry_run,
        codex_home: owned(ctx.codex_home.as_str()),
        state_db_path: owned_opt(&ctx.state_db_path),
        active_db_kind: owned_opt(&ctx.active_db_kind),
        live_config_model_provider: owned_opt(&ctx.live_config_model_provider),
        target_provider: owned(ctx.target_provider.as_str()),
        source_provider_ids: clone_strings(&source_provider_ids),
        sqlite_threads,
        rollout_threads_discovered: rollout_metadata.len(),
        thread_rows_to_insert,
        thread_rows_inserted: 0,
        prefix_duplicate_rows_to_remove: prefix_duplicate_ids.len(),
        prefix_duplicate_rows_removed: 0,
        internal_transcript_rows_to_remove: internal_transcript_ids.len(),
        internal_transcript_rows_removed: 0,
        thread_metadata_rows_to_rebuild: metadata_repairs.len(),
        thread_metadata_rows_rebuilt: 0,
        backfill_state_to_update: backfill_state_present,
        backfill_state_updated: false,
        provider_rows_to_update: provider_update_ids.len(),
        provider_rows_updated: 0,
        rollout_first_lines_to_update,
        rollout_first_lines_updated: 0,
        user_event_rows_to_update: backfills.len(),
        user_event_rows_updated: 0,
        visible_candidate_rows: visible.len(),
        session_index_missing_to_append: 0,
        session_index_appended: 0,
        session_index_duplicate_rows_to_remove: duplicate_lines,
        session_index_duplicate_rows_removed: 0,
        project_rows,
        focus_selected_count: focus_count,
        balanced_recent_window_enabled: balanced,
        balanced_recent_window_rows: if balanced {
            focus_count
        } else {
            0
        },
        balanced_recent_window_projects: balanced_projects,
        max_per_project: runtime.max_per_project,
        max_total: runtime.max_total,
        source_filter: owned_opt(&runtime.source_filter),
        sqlite_focus_rows_to_update: focus_count,
        sqlite_focus_rows_updated: 0,
        session_index_titles_to_update: titles_to_update,
        session_index_titles_updated: 0,
        session_index_rows_to_move: rows_to_move,
        session_index_rows_moved: 0,
        workspace_hints_to_fix: global.workspace_hints_to_fix,
        workspace_hints_fixed: 0,
        projectless_ids_to_remove: global.projectless_ids_to_remove,
        projectless_ids_removed: 0,
        saved_workspace_roots_to_add: global.saved_workspace_roots_to_add,
        saved_workspace_roots_added: 0,
        rollout_mtimes_to_touch: mtimes,
        rollout_mtimes_touched: 0,
        visible_project_rows_in_window_before: window_before,
        backup_dir: None,
        skipped_reason: None,
    };
    VisibilityRepairPlan {
        outcome,
        visible_rows: visible,
        selected_focus_rows: selected,
        user_event_update_ids: backfills,
        rollout_metadata,
        metadata_repairs,
        provider_update_ids,
    }
}

proof fn lemma_shown_len(
    rows: Seq<ThreadHistoryRow>,
    events: Seq<bool>,
    moved: Seq<Seq<char>>,
    target: Seq<char>,
    opts: HistoryVisibilityRepairRuntimeOptions,
    n: nat,
)
    ensures
        shown_rows(rows, events, moved, target, opts, n).len() <= n,
        event_backfills(rows, events, moved, target, opts, n).len() <= n,
    decreases n,
{
    if n > 0 {
        lemma_shown_len(rows, events, moved, target, opts, (n - 1) as nat);
    }
}

/// The plan changes something: a row, a rollout, an index line, a hint or a time.
pub open spec fn repair_has_changes(o: CodexHistoryVisibilityRepairOutcome) -> bool {
    o.thread_rows_to_insert > 0 || o.prefix_duplicate_rows_to_remove > 0
        || o.internal_transcript_rows_to_remove > 0 || o.thread_metadata_rows_to_rebuild > 0
        || o.provider_rows_to_update > 0 || o.rollout_first_lines_to_update > 0
        || o.user_event_rows_to_update > 0 || o.session_index_missing_to_append > 0
        || o.sqlite_focus_rows_to_update > 0 || o.session_index_titles_to_update > 0
        || o.session_index_rows_to_move > 0 || o.workspace_hints_to_fix > 0
        || o.projectless_ids_to_remove > 0 || o.saved_workspace_roots_to_add > 0
        || o.rollout_mtimes_to_touch > 0
}

/// Decides whether a planned repair is written: a dry run stops with its plan; a plan
/// that changes nothing stops, reported as already repaired; any other is written.
pub fn settle_visibility_repair(outcome: &mut CodexHistoryVisibilityRepairOutcome) -> (write: bool)
    ensures
        write == (!old(outcome).dry_run && repair_has_changes(*old(outcome))),
        !old(outcome).dry_run && !repair_has_changes(*old(outcome)) ==> {
            &&& opt_view(final(outcome).skipped_reason) == Some("already_repaired"@)
            &&& *final(outcome) == (CodexHistoryVisibilityRepairOutcome {
                skipped_reason: final(outcome).skipped_reason,
                ..*old(outcome)
            })
        },
        old(outcome).dry_run || repair_has_changes(*old(outcome)) ==> *final(outcome) == *old(outcome),
{
    if outcome.dry_run {
        return false;
    }
    let o = &*outcome;
    let changes = o.thread_rows_to_insert > 0 || o.prefix_duplicate_rows_to_remove > 0
        || o.internal_transcript_rows_to_remove > 0 || o.thread_metadata_rows_to_rebuild > 0
        || o.provider_rows_to_update > 0 || o.rollout_first_lines_to_update > 0
        || o.user_event_rows_to_update > 0 || o.session_index_missing_to_append > 0
        || o.sqlite_focus_rows_to_update > 0 || o.session_index_titles_to_update > 0
        || o.session_index_rows_to_move > 0 || o.workspace_hints_to_fix > 0
        || o.projectless_ids_to_remove > 0 || o.saved_workspace_roots_to_add > 0
        || o.rollout_mtimes_to_touch > 0;
    if !changes {
        outcome.skipped_reason = Some(owned("already_repaired"));
    }
    changes
}

/// Nothing counted: every count zero and every flag false.
pub open spec fn nothing_counted(o: CodexHistoryVisibilityRepairOutcome) -> bool {
    &&& o.sqlite_threads == 0 && o.rollout_threads_discovered == 0
    &&& o.thread_rows_to_insert == 0 && o.thread_rows_inserted == 0
    &&& o.prefix_duplicate_rows_to_remove == 0 && o.prefix_duplicate_rows_removed == 0
    &&& o.internal_transcript_rows_to_remove == 0 && o.internal_transcript_rows_removed == 0
    &&& o.thread_metadata_rows_to_rebuild == 0 && o.thread_metadata_rows_rebuilt == 0
    &&& !o.backfill_state_to_update && !o.backfill_state_updated
    &&& o.provider_rows_to_update == 0 && o.provider_rows_updated == 0
    &&& o.rollout_first_lines_to_update == 0 && o.rollout_first_lines_updated == 0
    &&& o.user_event_rows_to_update == 0 && o.user_event_rows_updated == 0
    &&& o.visible_candidate_rows == 0
    &&& o.session_index_missing_to_append == 0 && o.session_index_appended == 0
    &&& o.session_index_duplicate_rows_to_remove == 0 && o.session_index_duplicate_rows_removed == 0
    &&& o.project_rows == 0 && o.focus_selected_count == 0
    &&& !o.balanced_recent_window_enabled && o.balanced_recent_window_rows == 0
    &&& o.balanced_recent_window_projects == 0
    &&& o.max_per_project == 0 && o.max_total == 0 && o.source_filter is None
    &&& o.sqlite_focus_rows_to_update == 0 && o.sqlite_focus_rows_updated == 0
    &&& o.session_index_titles_to_update == 0 && o.session_index_titles_updated == 0
    &&& o.session_index_rows_to_move == 0 && o.session_index_rows_moved == 0
    &&& o.workspace_hints_to_fix == 0 && o.workspace_hints_fixed == 0
    &&& o.projectless_ids_to_remove == 0 && o.projectless_ids_removed == 0
    &&& o.saved_workspace_roots_to_add == 0 && o.saved_workspace_roots_added == 0
    &&& o.rollout_mtimes_to_touch == 0 && o.rollout_mtimes_touched == 0
    &&& o.visible_project_rows_in_window_before == 0
    &&& o.backup_dir is None
}

/// What a repair reports when the thread store lacks the columns it needs: nothing
/// counted, skipped for that reason.
pub fn schema_missing_visibility_outcome(
    ctx: &HistoryRepairContext,
    dry_run: bool,
    source_provider_ids: &Vec<String>,
) -> (o: CodexHistoryVisibilityRepairOutcome)
    ensures
        o.dry_run == dry_run,
        o.codex_home@ == ctx.codex_home@,
        opt_view(o.state_db_path) == opt_view(ctx.state_db_path),
        opt_view(o.active_db_kind) == opt_view(ctx.active_db_kind),
        opt_view(o.live_config_model_provider) == opt_view(ctx.live_config_model_provider),
        o.target_provider@ == ctx.target_provider@,
        views(o.source_provider_ids@) == sorted_set(views(source_provider_ids@)),
        opt_view(o.skipped_reason) == Some("threads_schema_missing_required_columns"@),
        nothing_counted(o),
{
    CodexHistoryVisibilityRepairOutcome {
        dry_run,
        codex_home: owned(ctx.codex_home.as_str()),
        state_db_path: owned_opt(&ctx.state_db_path),
        active_db_kind: owned_opt(&ctx.active_db_kind),
        live_config_model_provider: owned_opt(&ctx.live_config_model_provider),
        target_provider: owned(ctx.target_provider.as_str()),
        source_provider_ids: sorted_set_of(source_provider_ids),
        sqlite_threads: 0,
        rollout_threads_discovered: 0,
        thread_rows_to_insert: 0,
        thread_rows_inserted: 0,
        prefix_duplicate_rows_to_remove: 0,
        prefix_duplicate_rows_removed: 0,
        internal_transcript_rows_to_remove: 0,
        internal_transcript_rows_removed: 0,
        thread_metadata_rows_to_rebuild: 0,
        thread_metadata_rows_rebuilt: 0,
        backfill_state_to_update: false,
        backfill_state_updated: false,
        provider_rows_to_update: 0,
        provider_rows_updated: 0,
        rollout_first_lines_to_update: 0,
        rollout_first_lines_updated: 0,
        user_event_rows_to_update: 0,
        user_event_rows_updated: 0,
        visible_candidate_rows: 0,
        session_index_missing_to_append: 0,
        session_index_appended: 0,
        session_index_duplicate_rows_to_remove: 0,
        session_index_duplicate_rows_removed: 0,
        project_rows: 0,
        focus_selected_count: 0,
        balanced_recent_window_enabled: false,
        balanced_recent_window_rows: 0,
        balanced_recent_window_projects: 0,
        max_per_project: 0,
        max_total: 0,
        source_filter: None,
        sqlite_focus_rows_to_update: 0,
        sqlite_focus_rows_updated: 0,
        session_index_titles_to_update: 0,
        session_index_titles_updated: 0,
        session_index_rows_to_move: 0,
        session_index_rows_moved: 0,
        workspace_hints_to_fix: 0,
        workspace_hints_fixed: 0,
        projectless_ids_to_remove: 0,
        projectless_ids_removed: 0,
        saved_workspace_roots_to_add: 0,
        saved_workspace_roots_added: 0,
        rollout_mtimes_to_touch: 0,
        rollout_mtimes_touched: 0,
        visible_project_rows_in_window_before: 0,
        backup_dir: None,
        skipped_reason: Some(owned("threads_schema_missing_required_columns")),
    }
}

// ---------------------------------------------------------------------------
// From the requested options to a repair run
// ---------------------------------------------------------------------------

fn trimmed_opt(o: &Option<String>) -> (r: Option<String>)
    ensures
        opt_view(r) == nonblank_trimmed(opt_view(*o)),
{
    match o {
        Some(t) => {
            let s = trim_str(t.as_str());
            if s.as_str().is_empty() {
                None
            } else {
                Some(s)
            }
        },
        None => None,
    }
}

pub open spec fn at_least_one(n: usize) -> usize {
    if n == 0 {
        1
    } else {
        n
    }
}

/// The trimmed non-blank texts, each once, sorted.
pub open spec fn trimmed_set(xs: Seq<Seq<char>>) -> Seq<Seq<char>> {
    sorted_set(trimmed_nonblank(xs))
}

pub open spec fn trimmed_nonblank(xs: Seq<Seq<char>>) -> Seq<Seq<char>>
    decreases xs.len(),
{
    if xs.len() == 0 {
        Seq::empty()
    } else {
        let before = trimmed_nonblank(xs.drop_last());
        if trim(xs.last()).len() > 0 {
            before.push(trim(xs.last()))
        } else {
            before
        }
    }
}

fn trimmed_unique(xs: &Vec<String>) -> (r: Vec<String>)
    ensures
        views(r@) == trimmed_set(views(xs@)),
{
    let mut out: Vec<String> = Vec::new();
    let mut i: usize = 0;
    while i < xs.len()
        invariant
            i <= xs@.len(),
            views(out@) == trimmed_nonblank(views(xs@).take(i as int)),
        decreases xs.len() - i,
    {
        assert(views(xs@).take(i + 1).drop_last() =~= views(xs@).take(i as int));
        assert(views(xs@).take(i + 1).last() == xs@[i as int]@);
        let t = trim_str(xs[i].as_str());
        if !t.as_str().is_empty() {
            let ghost before = out@;
            let ghost tv = t@;
            out.push(t);
            assert(views(out@) =~= views(before).push(tv));
        }
        i = i + 1;
    }
    assert(views(xs@).take(xs@.len() as int) =~= views(xs@));
    sorted_set_of(&out)
}

/// The run options a repair is given: the defaults fill what was not asked for (30
/// threads, a window of 80, balanced, 10 per project, 300 in all), the limits are at
/// least 1, a blank source filter is none, and the chosen sessions are trimmed, each
/// once.
pub open spec fn runtime_from(
    dry_run: bool,
    count: Option<usize>,
    window_limit: Option<usize>,
    balance: Option<bool>,
    max_per_project: Option<usize>,
    max_total: Option<usize>,
    source_filter: Option<Seq<char>>,
    include_archived: Option<bool>,
    include_subagents: Option<bool>,
    skip_sync: Option<bool>,
    r: HistoryVisibilityRepairRuntimeOptions,
) -> bool {
    &&& r.dry_run == dry_run
    &&& r.count == match count {
        Some(c) => c,
        None => 30,
    }
    &&& r.window_limit == match window_limit {
        Some(w) => w,
        None => 80,
    }
    &&& r.balance_recent_window == match balance {
        Some(b) => b,
        None => true,
    }
    &&& r.max_per_project == at_least_one(
        match max_per_project {
            Some(m) => m,
            None => 10,
        },
    )
    &&& r.max_total == at_least_one(
        match max_total {
            Some(m) => m,
            None => 300,
        },
    )
    &&& opt_view(r.source_filter) == nonblank_trimmed(source_filter)
    &&& r.include_archived == (include_archived == Some(true))
    &&& r.include_subagents == (include_subagents == Some(true))
    &&& r.provider_bucket_sync_enabled == !(skip_sync == Some(true))
}

/// The run of a repair asked for from the MultiRouter panel.
pub fn multirouter_visibility_runtime(options: &crate::history_ops::CodexHistoryVisibilityRepairOptions) -> (r:
    HistoryVisibilityRepairRuntimeOptions)
    ensures
        runtime_from(
            options.dry_run,
            options.count,
            options.window_limit,
            options.balance_recent_window,
            options.max_per_project,
            options.max_total,
            opt_view(options.source_filter),
            options.include_archived,
            options.include_subagents,
            options.skip_provider_bucket_sync,
            r,
        ),
        views(r.selected_session_ids@) == trimmed_set(
            match options.session_ids {
                Some(ids) => views(ids@),
                None => Seq::empty(),
            },
        ),
{
    let selected = match &options.session_ids {
        Some(ids) => trimmed_unique(ids),
        None => {
            let none: Vec<String> = Vec::new();
            let r = trimmed_unique(&none);
            assert(views(none@) =~= Seq::<Seq<char>>::empty());
            r
        },
    };
    runtime_with(
        options.dry_run,
        options.count,
        options.window_limit,
        options.balance_recent_window,
        options.max_per_project,
        options.max_total,
        &options.source_filter,
        options.include_archived,
        options.include_subagents,
        options.skip_provider_bucket_sync,
        selected,
    )
}

/// The run of the standalone repair: it never chooses single sessions.
pub fn standalone_visibility_runtime(options: &crate::history_ops::CodexHistoryStandaloneRepairOptions) -> (r:
    HistoryVisibilityRepairRuntimeOptions)
    ensures
        runtime_from(
            options.dry_run,
            options.count,
            options.window_limit,
            options.balance_recent_window,
            options.max_per_project,
            options.max_total,
            opt_view(options.source_filter),
            options.include_archived,
            options.include_subagents,
            options.skip_provider_bucket_sync,
            r,
        ),
        r.selected_session_ids@.len() == 0,
{
    runtime_with(
        options.dry_run,
        options.count,
        options.window_limit,
        options.balance_recent_window,
        options.max_per_project,
        options.max_total,
        &options.source_filter,
        options.include_archived,
        options.include_subagents,
        options.skip_provider_bucket_sync,
        Vec::new(),
    )
}

fn runtime_with(
    dry_run: bool,
    count: Option<usize>,
    window_limit: Option<usize>,
    balance: Option<bool>,
    max_per_project: Option<usize>,
    max_total: Option<usize>,
    source_filter: &Option<String>,
    include_archived: Option<bool>,
    include_subagents: Option<bool>,
    skip_sync: Option<bool>,
    selected: Vec<String>,
) -> (r: HistoryVisibilityRepairRuntimeOptions)
    ensures
        runtime_from(
            dry_run,
            count,
            window_limit,
            balance,
            max_per_project,
            max_total,
            opt_view(*source_filter),
            include_archived,
            include_subagents,
            skip_sync,
            r,
        ),
        r.selected_session_ids@ == selected@,
{
    let per = match max_per_project {
        Some(m) => m,
        None => 10,
    };
    let total = match max_total {
        Some(m) => m,
        None => 300,
    };
    HistoryVisibilityRepairRuntimeOptions {
        dry_run,
        count: match count {
            Some(c) => c,
            None => 30,
        },
        window_limit: match window_limit {
            Some(w) => w,
            None => 80,
        },
        balance_recent_window: match balance {
            Some(b) => b,
            None => true,
        },
        max_per_project: if per == 0 {
            1
        } else {
            per
        },
        max_total: if total == 0 {
            1
        } else {
            total
        },
        source_filter: trimmed_opt(source_filter),
        include_archived: include_archived == Some(true),
        include_subagents: include_subagents == Some(true),
        selected_session_ids: selected,
        provider_bucket_sync_enabled: !(skip_sync == Some(true)),
    }
}

/// The given ids without `target`.
pub open spec fn without(xs: Seq<Seq<char>>, target: Seq<char>) -> Seq<Seq<char>>
    decreases xs.len(),
{
    if xs.len() == 0 {
        Seq::empty()
    } else {
        let before = without(xs.drop_last(), target);
        if xs.last() == target {
            before
        } else {
            before.push(xs.last())
        }
    }
}

fn remove_id(xs: Vec<String>, target: &str) -> (r: Vec<String>)
    ensures
        views(r@) == without(views(xs@), target@),
{
    let mut out: Vec<String> = Vec::new();
    let mut i: usize = 0;
    while i < xs.len()
        invariant
            i <= xs@.len(),
            views(out@) == without(views(xs@).take(i as int), target@),
        decreases xs.len() - i,
    {
        assert(views(xs@).take(i + 1).drop_last() =~= views(xs@).take(i as int));
        assert(views(xs@).take(i + 1).last() == xs@[i as int]@);
        if !str_eq(xs[i].as_str(), target) {
            let ghost before = out@;
            out.push(owned(xs[i].as_str()));
            assert(views(out@) =~= views(before).push(xs@[i as int]@));
        }
        i = i + 1;
    }
    assert(views(xs@).take(xs@.len() as int) =~= views(xs@));
    out
}

/// The buckets the MultiRouter repair gathers into the target: those the stored
/// providers and the known defaults name, each once, without the target itself; none
/// when bucket sync is skipped.
pub fn multirouter_repair_sources(collected: &Vec<String>, target: &str, skip_sync: bool) -> (r: Vec<String>)
    ensures
        views(r@) == if skip_sync {
            Seq::empty()
        } else {
            without(sorted_set(views(collected@)), target@)
        },
{
    if skip_sync {
        let none: Vec<String> = Vec::new();
        assert(views(none@) =~= Seq::<Seq<char>>::empty());
        return none;
    }
    remove_id(sorted_set_of(collected), target)
}

/// The buckets the standalone repair gathers into the target: the requested ones (or
/// the defaults), trimmed, each once, without the target; none when bucket sync is
/// skipped.
pub fn standalone_repair_sources(
    requested: &Option<Vec<String>>,
    defaults: &Vec<String>,
    target: &str,
    skip_sync: bool,
) -> (r: Vec<String>)
    ensures
        views(r@) == if skip_sync {
            Seq::empty()
        } else {
            without(
                trimmed_set(
                    match *requested {
                        Some(ids) => views(ids@),
                        None => views(defaults@),
                    },
                ),
                target@,
            )
        },
{
    if skip_sync {
        let none: Vec<String> = Vec::new();
        assert(views(none@) =~= Seq::<Seq<char>>::empty());
        return none;
    }
    let ids = match requested {
        Some(ids) => trimmed_unique(ids),
        None => trimmed_unique(defaults),
    };
    remove_id(ids, target)
}

/// What a repair reports when no state database is found.
pub fn state_db_not_found_outcome(
    codex_home: &str,
    target_provider: &str,
    live_config_model_provider: &Option<String>,
    dry_run: bool,
) -> (o: CodexHistoryVisibilityRepairOutcome)
    ensures
        o.dry_run == dry_run,
        o.codex_home@ == codex_home@,
        o.target_provider@ == target_provider@,
        opt_view(o.live_config_model_provider) == opt_view(*live_config_model_provider),
        o.state_db_path is None && o.active_db_kind is None,
        o.source_provider_ids@.len() == 0,
        opt_view(o.skipped_reason) == Some("state_db_not_found"@),
        nothing_counted(o),
{
    let ctx = HistoryRepairContext {
        codex_home: owned(codex_home),
        state_db_path: None,
        active_db_kind: None,
        live_config_model_provider: owned_opt(live_config_model_provider),
        target_provider: owned(target_provider),
        normalized_project_path: None,
    };
    let none: Vec<String> = Vec::new();
    assert(views(none@) =~= Seq::<Seq<char>>::empty());
    let mut o = schema_missing_visibility_outcome(&ctx, dry_run, &none);
    proof {
        lemma_sorted_set_empty();
        assert(views(o.source_provider_ids@).len() == o.source_provider_ids@.len());
    }
    o.skipped_reason = Some(owned("state_db_not_found"));
    o
}

proof fn lemma_sorted_set_empty()
    ensures
        sorted_set(Seq::<Seq<char>>::empty()).len() == 0,
{
    let e = Seq::<Seq<char>>::empty();
    let c = sorted_set(e);
    assert(crate::text::strictly_sorted(e) && forall|x: Seq<char>| #[trigger] e.contains(x) <==> e.contains(x));
    assert(crate::text::strictly_sorted(c) && forall|x: Seq<char>| #[trigger] c.contains(x) <==> e.contains(x));
    if c.len() > 0 {
        assert(c.contains(c[0]));
    }
}

/// Cleaning up the store removes every listed thread and keeps every other row, in
/// order.
pub proof fn cleanup_removes_exactly_the_listed_threads(rows: Seq<ThreadHistoryRow>, ids: Seq<Seq<char>>)
    ensures
        forall|k: int|
            0 <= k < rows_outside(rows, ids).len() ==> !ids.contains(#[trigger] rows_outside(rows, ids)[k].id@),
        forall|k: int| 0 <= k < rows.len() && !ids.contains(rows[k].id@) ==> rows_outside(rows, ids).contains(
            #[trigger] rows[k],
        ),
    decreases rows.len(),
{
    if rows.len() > 0 {
        let d = rows.drop_last();
        cleanup_removes_exactly_the_listed_threads(d, ids);
        let before = rows_outside(d, ids);
        let out = rows_outside(rows, ids);
        assert forall|k: int| 0 <= k < rows.len() && !ids.contains(rows[k].id@) implies out.contains(
            #[trigger] rows[k],
        ) by {
            if k < rows.len() - 1 {
                assert(d[k] == rows[k]);
                assert(before.contains(d[k]));
                let i = choose|i: int| 0 <= i < before.len() && before[i] == d[k];
                assert(out[i] == before[i]);
            } else {
                assert(out[out.len() - 1] == rows[k]);
            }
        }
    }
}

} // verus!
