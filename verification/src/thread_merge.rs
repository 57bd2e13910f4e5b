//! Bringing the thread store in line with the rollouts before a visibility repair:
//! each indexed rollout either repairs the row of its thread or becomes a new row,
//! keeping a title the user gave the thread.
use vstd::prelude::*;
use crate::history::{
    apply_rollout_metadata_to_thread_row, distinct_title, flag, millis_to_seconds, or_else,
    rollout_metadata_preserving_persisted_title, saturate, thread_history_row_from_rollout,
    RolloutThreadMetadata, ThreadHistoryRow,
};
use crate::json::Json;
use crate::text::{contains_str, opt_view, owned, str_eq, views};
use crate::visibility::{
    index_ids, index_titles, last_value, line_views, session_index_thread_ids,
    session_index_thread_titles, title_for,
};

verus! {

// ---------------------------------------------------------------------------
// Values of rows and metadata
// ---------------------------------------------------------------------------

/// The mathematical value of a thread row.
pub struct RowView {
    pub id: Seq<char>,
    pub rollout_path: Option<Seq<char>>,
    pub model_provider: Option<Seq<char>>,
    pub cwd: Option<Seq<char>>,
    pub has_user_event: Option<i64>,
    pub archived: Option<i64>,
    pub source: Option<Seq<char>>,
    pub thread_source: Option<Seq<char>>,
    pub title: Option<Seq<char>>,
    pub preview: Option<Seq<char>>,
    pub first_user_message: Option<Seq<char>>,
    pub updated_at_ms: Option<i64>,
    pub updated_at: Option<i64>,
}

pub open spec fn row_view(r: ThreadHistoryRow) -> RowView {
    RowView {
        id: r.id@,
        rollout_path: opt_view(r.rollout_path),
        model_provider: opt_view(r.model_provider),
        cwd: opt_view(r.cwd),
        has_user_event: r.has_user_event,
        archived: r.archived,
        source: opt_view(r.source),
        thread_source: opt_view(r.thread_source),
        title: opt_view(r.title),
        preview: opt_view(r.preview),
        first_user_message: opt_view(r.first_user_message),
        updated_at_ms: r.updated_at_ms,
        updated_at: r.updated_at,
    }
}

pub open spec fn row_views(rs: Seq<ThreadHistoryRow>) -> Seq<RowView> {
    rs.map_values(|r: ThreadHistoryRow| row_view(r))
}

/// The mathematical value of rollout metadata.
pub struct MetaView {
    pub id: Seq<char>,
    pub rollout_path: Seq<char>,
    pub model_provider: Option<Seq<char>>,
    pub cwd: Option<Seq<char>>,
    pub source: Option<Seq<char>>,
    pub thread_source: Option<Seq<char>>,
    pub title: Option<Seq<char>>,
    pub preview: Option<Seq<char>>,
    pub first_user_message: Option<Seq<char>>,
    pub has_user_event: bool,
    pub archived: bool,
    pub created_at_ms: i64,
    pub updated_at_ms: i64,
}

pub open spec fn meta_view(m: RolloutThreadMetadata) -> MetaView {
    MetaView {
        id: m.id@,
        rollout_path: m.rollout_path@,
        model_provider: opt_view(m.model_provider),
        cwd: opt_view(m.cwd),
        source: opt_view(m.source),
        thread_source: opt_view(m.thread_source),
        title: opt_view(m.title),
        preview: opt_view(m.preview),
        first_user_message: opt_view(m.first_user_message),
        has_user_event: m.has_user_event,
        archived: m.archived,
        created_at_ms: m.created_at_ms,
        updated_at_ms: m.updated_at_ms,
    }
}

pub open spec fn meta_views(ms: Seq<RolloutThreadMetadata>) -> Seq<MetaView> {
    ms.map_values(|m: RolloutThreadMetadata| meta_view(m))
}

/// The row's update time in milliseconds (see `updated_ms`).
pub open spec fn row_ms(r: RowView) -> i64 {
    match r.updated_at_ms {
        Some(ms) => ms,
        None => match r.updated_at {
            Some(sec) => saturate(sec * 1000),
            None => 0,
        },
    }
}

/// The metadata with a title the user kept: the row's, else the index's, where it
/// differs from the first user message.
pub open spec fn preserved_meta(m: MetaView, row: Option<RowView>, index_title: Option<Seq<char>>) -> MetaView {
    let first = match row {
        Some(rw) => or_else(rw.first_user_message, m.first_user_message),
        None => m.first_user_message,
    };
    let from_row = match row {
        Some(rw) => distinct_title(rw.title, first),
        None => None,
    };
    let persisted = or_else(from_row, distinct_title(index_title, first));
    MetaView { title: or_else(persisted, m.title), ..m }
}

/// A row repaired from its rollout: the rollout's values win where it has them, the
/// update time never moves back.
pub open spec fn applied_row(r: RowView, m: MetaView) -> RowView {
    let ms = if m.updated_at_ms > row_ms(r) {
        m.updated_at_ms
    } else {
        row_ms(r)
    };
    RowView {
        id: r.id,
        rollout_path: Some(m.rollout_path),
        model_provider: r.model_provider,
        cwd: or_else(m.cwd, r.cwd),
        has_user_event: Some(flag(m.has_user_event)),
        archived: Some(flag(m.archived)),
        source: or_else(m.source, r.source),
        thread_source: or_else(m.thread_source, r.thread_source),
        title: or_else(m.title, r.title),
        preview: or_else(m.preview, r.preview),
        first_user_message: or_else(m.first_user_message, r.first_user_message),
        updated_at_ms: Some(ms),
        updated_at: Some(millis_to_seconds(ms)),
    }
}

/// The row a rollout stands for.
pub open spec fn row_of_meta(m: MetaView) -> RowView {
    RowView {
        id: m.id,
        rollout_path: Some(m.rollout_path),
        model_provider: m.model_provider,
        cwd: m.cwd,
        has_user_event: Some(flag(m.has_user_event)),
        archived: Some(flag(m.archived)),
        source: m.source,
        thread_source: m.thread_source,
        title: m.title,
        preview: m.preview,
        first_user_message: m.first_user_message,
        updated_at_ms: Some(m.updated_at_ms),
        updated_at: Some(millis_to_seconds(m.updated_at_ms)),
    }
}

/// The fields a rollout repairs.
pub open spec fn repaired_view(r: RowView) -> (Option<Seq<char>>, Option<Seq<char>>, Option<Seq<char>>, Option<
    Seq<char>,
>, Option<Seq<char>>, Option<Seq<char>>, Option<Seq<char>>, Option<i64>, Option<i64>, Option<i64>, Option<i64>) {
    (
        r.rollout_path,
        r.cwd,
        r.source,
        r.thread_source,
        r.title,
        r.preview,
        r.first_user_message,
        r.has_user_event,
        r.updated_at_ms,
        r.updated_at,
        r.archived,
    )
}

// ---------------------------------------------------------------------------
// Merging
// ---------------------------------------------------------------------------

/// The first row with the id, or -1.
pub open spec fn first_row_with(rows: Seq<RowView>, id: Seq<char>) -> int
    decreases rows.len(),
{
    if rows.len() == 0 {
        -1
    } else {
        let j = first_row_with(rows.drop_last(), id);
        if j >= 0 {
            j
        } else if rows.last().id == id {
            rows.len() - 1
        } else {
            -1
        }
    }
}

/// The rollouts whose threads the store or the index already knows; a rollout alone is
/// an event archive, not a thread to list.
pub open spec fn known_rollouts(ms: Seq<MetaView>, known: Seq<Seq<char>>, indexed: Seq<Seq<char>>) -> Seq<MetaView>
    decreases ms.len(),
{
    if ms.len() == 0 {
        Seq::empty()
    } else {
        let before = known_rollouts(ms.drop_last(), known, indexed);
        if known.contains(ms.last().id) || indexed.contains(ms.last().id) {
            before.push(ms.last())
        } else {
            before
        }
    }
}

/// Merging the rollouts in order: a rollout repairs the first row of its thread (and
/// counts as a metadata repair when that changes the row), or else becomes a new row;
/// returns the rows, the rollouts as merged, and the metadata repairs.
pub open spec fn merge_fold(rows: Seq<RowView>, ms: Seq<MetaView>, titles: Seq<(Seq<char>, Seq<char>)>) -> (
    Seq<RowView>,
    Seq<MetaView>,
    Seq<MetaView>,
)
    decreases ms.len(),
{
    if ms.len() == 0 {
        (rows, Seq::empty(), Seq::empty())
    } else {
        let (rs, merged, repairs) = merge_fold(rows, ms.drop_last(), titles);
        let m = ms.last();
        let t = last_value(titles, m.id);
        let j = first_row_with(rs, m.id);
        if j >= 0 {
            let eff = preserved_meta(m, Some(rs[j]), t);
            let nr = applied_row(rs[j], eff);
            (
                rs.update(j, nr),
                merged.push(m),
                if repaired_view(nr) != repaired_view(rs[j]) {
                    repairs.push(eff)
                } else {
                    repairs
                },
            )
        } else {
            let m2 = preserved_meta(m, None, t);
            (rs.push(row_of_meta(m2)), merged.push(m2), repairs)
        }
    }
}

proof fn lemma_first_row_with(rows: Seq<RowView>, id: Seq<char>)
    ensures
        -1 <= first_row_with(rows, id) < rows.len(),
        first_row_with(rows, id) == -1 ==> forall|m: int| 0 <= m < rows.len() ==> rows[m].id != id,
        first_row_with(rows, id) >= 0 ==> rows[first_row_with(rows, id)].id == id && forall|m: int|
            0 <= m < first_row_with(rows, id) ==> rows[m].id != id,
    decreases rows.len(),
{
    if rows.len() > 0 {
        let d = rows.drop_last();
        lemma_first_row_with(d, id);
        assert forall|m: int| 0 <= m < d.len() implies d[m] == rows[m] by {}
    }
}

fn find_row(rows: &Vec<ThreadHistoryRow>, id: &str) -> (r: Option<usize>)
    ensures
        match r {
            Some(j) => j < rows@.len() && j == first_row_with(row_views(rows@), id@),
            None => first_row_with(row_views(rows@), id@) == -1,
        },
{
    let ghost rv = row_views(rows@);
    proof {
        lemma_first_row_with(rv, id@);
    }
    let mut i: usize = 0;
    while i < rows.len()
        invariant
            i <= rows@.len(),
            rv == row_views(rows@),
            rv.len() == rows@.len(),
            forall|m: int| 0 <= m < i ==> rv[m].id != id@,
            -1 <= first_row_with(rv, id@) < rv.len(),
            first_row_with(rv, id@) == -1 ==> forall|m: int| 0 <= m < rv.len() ==> rv[m].id != id@,
            first_row_with(rv, id@) >= 0 ==> rv[first_row_with(rv, id@)].id == id@ && forall|m: int|
                0 <= m < first_row_with(rv, id@) ==> rv[m].id != id@,
        decreases rows.len() - i,
    {
        assert(rv[i as int] == row_view(rows@[i as int]));
        if str_eq(rows[i].id.as_str(), id) {
            return Some(i);
        }
        i = i + 1;
    }
    None
}

/// What merging the rollouts into the thread store gives: the rows, the rollouts as
/// merged, the metadata repairs, and the ids the store held before.
#[derive(Debug)]
pub struct MergedThreads {
    pub rows: Vec<ThreadHistoryRow>,
    pub rollout_metadata: Vec<RolloutThreadMetadata>,
    pub metadata_repairs: Vec<RolloutThreadMetadata>,
    pub existing_ids: Vec<String>,
}

/// The ids of the rows, in order.
pub open spec fn ids_of(rows: Seq<ThreadHistoryRow>) -> Seq<Seq<char>> {
    rows.map_values(|r: ThreadHistoryRow| r.id@)
}

fn row_ids(rows: &Vec<ThreadHistoryRow>) -> (r: Vec<String>)
    ensures
        views(r@) == ids_of(rows@),
{
    let mut out: Vec<String> = Vec::new();
    let mut i: usize = 0;
    while i < rows.len()
        invariant
            i <= rows@.len(),
            views(out@) == ids_of(rows@).take(i as int),
        decreases rows.len() - i,
    {
        let ghost before = out@;
        out.push(owned(rows[i].id.as_str()));
        assert(views(out@) =~= views(before).push(rows@[i as int].id@));
        assert(ids_of(rows@).take(i + 1) =~= ids_of(rows@).take(i as int).push(rows@[i as int].id@));
        i = i + 1;
    }
    assert(ids_of(rows@).take(rows@.len() as int) =~= ids_of(rows@));
    out
}

fn reversed_metadata(v: Vec<RolloutThreadMetadata>) -> (r: Vec<RolloutThreadMetadata>)
    ensures
        r@ == v@.reverse(),
{
    let ghost orig = v@;
    let mut rest = v;
    let mut out: Vec<RolloutThreadMetadata> = Vec::new();
    while rest.len() > 0
        invariant
            rest@ == orig.take(rest@.len() as int),
            out@.len() + rest@.len() == orig.len(),
            forall|k: int| 0 <= k < out@.len() ==> out@[k] == orig[orig.len() - 1 - k],
        decreases rest@.len(),
    {
        let x = rest.pop().unwrap();
        out.push(x);
        assert(rest@ =~= orig.take(rest@.len() as int));
    }
    assert(out@ =~= orig.reverse());
    out
}

/// Merges the rollouts into the thread rows, in order (see `merge_fold`): each repairs
/// the first row of its thread, keeping a title the user gave it (from the row, else
/// from `titles`), or becomes a new row. Returns the rows, the rollouts as merged and
/// the metadata repairs.
pub fn merge_rollouts_in_order(
    rows: Vec<ThreadHistoryRow>,
    ms: Vec<RolloutThreadMetadata>,
    titles: &Vec<(String, String)>,
) -> (r: (Vec<ThreadHistoryRow>, Vec<RolloutThreadMetadata>, Vec<RolloutThreadMetadata>))
    ensures
        ({
            let (rs, merged, repairs) = merge_fold(
                row_views(rows@),
                meta_views(ms@),
                crate::visibility::pair_views(titles@),
            );
            &&& row_views(r.0@) == rs
            &&& meta_views(r.1@) == merged
            &&& meta_views(r.2@) == repairs
        }),
{
    let ghost tv = crate::visibility::pair_views(titles@);
    let ghost rows0 = row_views(rows@);
    let ghost orig = ms@;
    let n = ms.len();
    let mut rest = reversed_metadata(ms);
    let mut rows = rows;
    let mut merged: Vec<RolloutThreadMetadata> = Vec::new();
    let mut repairs: Vec<RolloutThreadMetadata> = Vec::new();
    assert(meta_views(orig.take(0)) =~= Seq::<MetaView>::empty());
    assert(meta_views(merged@) =~= Seq::<MetaView>::empty());
    assert(meta_views(repairs@) =~= Seq::<MetaView>::empty());
    let mut i: usize = 0;
    while i < n
        invariant
            n == orig.len(),
            i <= n,
            rest@.len() == n - i,
            forall|k: int| 0 <= k < rest@.len() ==> rest@[k] == orig[n - 1 - k],
            tv == crate::visibility::pair_views(titles@),
            ({
                let (rs, mg, rp) = merge_fold(rows0, meta_views(orig.take(i as int)), tv);
                &&& row_views(rows@) == rs
                &&& meta_views(merged@) == mg
                &&& meta_views(repairs@) == rp
            }),
        decreases n - i,
    {
        let m = rest.pop().unwrap();
        assert(m == orig[i as int]);
        let ghost mv = meta_view(m);
        let ghost before = meta_views(orig.take(i as int));
        assert(meta_views(orig.take(i + 1)).drop_last() =~= before);
        assert(meta_views(orig.take(i + 1)).last() == mv);
        let ghost rv0 = row_views(rows@);
        let ghost mg0 = meta_views(merged@);
        let ghost rp0 = meta_views(repairs@);
        let title = title_for(titles, m.id.as_str());
        let t_ref: Option<&str> = match &title {
            Some(t) => Some(t.as_str()),
            None => None,
        };
        let ghost t = last_value(tv, mv.id);
        assert(crate::history::sview(t_ref) == t);
        match find_row(&rows, m.id.as_str()) {
            Some(j) => {
                let eff = rollout_metadata_preserving_persisted_title(&m, Some(&rows[j]), t_ref);
                assert(rv0[j as int] == row_view(rows@[j as int]));
                assert(meta_view(eff) == preserved_meta(mv, Some(rv0[j as int]), t));
                let mut row = rows[j].duplicate();
                assert(row_view(row) == rv0[j as int]);
                let changed = apply_rollout_metadata_to_thread_row(&mut row, &eff);
                let ghost nr = applied_row(rv0[j as int], meta_view(eff));
                assert(row_view(row) == nr);
                assert(changed == (repaired_view(nr) != repaired_view(rv0[j as int])));
                rows.set(j, row);
                assert(row_views(rows@) =~= rv0.update(j as int, nr));
                let ghost ev = meta_view(eff);
                merged.push(m);
                assert(meta_views(merged@) =~= mg0.push(mv));
                if changed {
                    repairs.push(eff);
                    assert(meta_views(repairs@) =~= rp0.push(ev));
                }
            },
            None => {
                let m2 = rollout_metadata_preserving_persisted_title(&m, None, t_ref);
                assert(meta_view(m2) == preserved_meta(mv, None, t));
                let row = thread_history_row_from_rollout(&m2);
                assert(row_view(row) == row_of_meta(meta_view(m2)));
                let ghost rw = row_view(row);
                let ghost m2v = meta_view(m2);
                rows.push(row);
                assert(row_views(rows@) =~= rv0.push(rw));
                merged.push(m2);
                assert(meta_views(merged@) =~= mg0.push(m2v));
            },
        }
        i = i + 1;
    }
    assert(orig.take(n as int) =~= orig);
    (rows, merged, repairs)
}

/// The rollouts of threads among `known` or `indexed`, in order.
fn known_only(ms: Vec<RolloutThreadMetadata>, known: &Vec<String>, indexed: &Vec<String>) -> (r: Vec<
    RolloutThreadMetadata,
>)
    ensures
        meta_views(r@) == known_rollouts(meta_views(ms@), views(known@), views(indexed@)),
{
    let ghost orig = ms@;
    let n = ms.len();
    let mut rest = reversed_metadata(ms);
    let mut out: Vec<RolloutThreadMetadata> = Vec::new();
    assert(meta_views(orig.take(0)) =~= Seq::<MetaView>::empty());
    assert(meta_views(out@) =~= Seq::<MetaView>::empty());
    let mut i: usize = 0;
    while i < n
        invariant
            n == orig.len(),
            i <= n,
            rest@.len() == n - i,
            forall|k: int| 0 <= k < rest@.len() ==> rest@[k] == orig[n - 1 - k],
            meta_views(out@) == known_rollouts(meta_views(orig.take(i as int)), views(known@), views(indexed@)),
        decreases n - i,
    {
        let m = rest.pop().unwrap();
        assert(m == orig[i as int]);
        assert(meta_views(orig.take(i + 1)).drop_last() =~= meta_views(orig.take(i as int)));
        assert(meta_views(orig.take(i + 1)).last() == meta_view(m));
        if contains_str(known, m.id.as_str()) || contains_str(indexed, m.id.as_str()) {
            let ghost before = meta_views(out@);
            let ghost mv = meta_view(m);
            out.push(m);
            assert(meta_views(out@) =~= before.push(mv));
        }
        i = i + 1;
    }
    assert(orig.take(n as int) =~= orig);
    out
}

/// Merges the scanned rollouts into the thread rows. Only rollouts of threads the
/// store or `session_index.jsonl` already knows are taken; each repairs the first row
/// of its thread, keeping a title the user gave it, or becomes a new row.
pub fn merge_rollout_thread_metadata(
    rows: Vec<ThreadHistoryRow>,
    scanned: Vec<RolloutThreadMetadata>,
    session_index: &Vec<Option<Json>>,
) -> (r: MergedThreads)
    ensures
        ({
            let known = known_rollouts(
                meta_views(scanned@),
                ids_of(rows@),
                index_ids(line_views(session_index@)),
            );
            let (rs, merged, repairs) = merge_fold(
                row_views(rows@),
                known,
                index_titles(line_views(session_index@)),
            );
            &&& row_views(r.rows@) == rs
            &&& meta_views(r.rollout_metadata@) == merged
            &&& meta_views(r.metadata_repairs@) == repairs
            &&& views(r.existing_ids@) == ids_of(rows@)
        }),
{
    let existing = row_ids(&rows);
    let indexed = session_index_thread_ids(session_index);
    let titles = session_index_thread_titles(session_index);
    let known = known_only(scanned, &existing, &indexed);
    let (rows, merged, repairs) = merge_rollouts_in_order(rows, known, &titles);
    MergedThreads { rows, rollout_metadata: merged, metadata_repairs: repairs, existing_ids: existing }
}

// ---------------------------------------------------------------------------
// One rollout per thread
// ---------------------------------------------------------------------------

/// Rollout `a` is a better copy of its thread than `b`: it has a user turn where `b`
/// has none, or as much and a later update time.
pub open spec fn better_copy(a: MetaView, b: MetaView) -> bool {
    let fa: int = if a.has_user_event {
        1
    } else {
        0
    };
    let fb: int = if b.has_user_event {
        1
    } else {
        0
    };
    fa > fb || (fa == fb && a.updated_at_ms > b.updated_at_ms)
}

/// Among the first `n` rollouts, the index of the copy kept for `id`: the first one,
/// replaced by each later one that is better; -1 when none has the id.
pub open spec fn best_copy(ms: Seq<MetaView>, id: Seq<char>, n: nat) -> int
    decreases n,
{
    if n == 0 {
        -1
    } else {
        let b = best_copy(ms, id, (n - 1) as nat);
        if ms[n - 1].id != id {
            b
        } else if b < 0 {
            n - 1
        } else if better_copy(ms[n - 1], ms[b]) {
            n - 1
        } else {
            b
        }
    }
}

proof fn lemma_best_copy(ms: Seq<MetaView>, id: Seq<char>, n: nat)
    requires
        n <= ms.len(),
    ensures
        -1 <= best_copy(ms, id, n) < n,
        best_copy(ms, id, n) >= 0 ==> ms[best_copy(ms, id, n)].id == id,
        (exists|k: int| 0 <= k < n && ms[k].id == id) ==> best_copy(ms, id, n) >= 0,
    decreases n,
{
    if n > 0 {
        lemma_best_copy(ms, id, (n - 1) as nat);
        if exists|k: int| 0 <= k < n && ms[k].id == id {
            let k = choose|k: int| 0 <= k < n && ms[k].id == id;
            if k < n - 1 {
                assert(exists|k2: int| 0 <= k2 < n - 1 && ms[k2].id == id);
            }
        }
    }
}

/// The ids of the rollouts.
pub open spec fn meta_ids(ms: Seq<MetaView>) -> Seq<Seq<char>> {
    ms.map_values(|m: MetaView| m.id)
}

/// One rollout per thread id, in id order: where several files declare the same id,
/// the one with a user turn and the latest update is kept (the first of equals).
pub fn dedupe_rollout_metadata(rows: &Vec<RolloutThreadMetadata>) -> (r: Vec<RolloutThreadMetadata>)
    ensures
        ({
            let mv = meta_views(rows@);
            let ids = crate::text::sorted_set(meta_ids(mv));
            meta_views(r@) == ids.map_values(|id: Seq<char>| mv[best_copy(mv, id, mv.len())])
        }),
{
    let ghost mv = meta_views(rows@);
    let mut all_ids: Vec<String> = Vec::new();
    let mut i: usize = 0;
    while i < rows.len()
        invariant
            i <= rows@.len(),
            mv == meta_views(rows@),
            views(all_ids@) == meta_ids(mv).take(i as int),
        decreases rows.len() - i,
    {
        let ghost before = all_ids@;
        all_ids.push(owned(rows[i].id.as_str()));
        assert(views(all_ids@) =~= views(before).push(rows@[i as int].id@));
        assert(meta_ids(mv).take(i + 1) =~= meta_ids(mv).take(i as int).push(rows@[i as int].id@));
        i = i + 1;
    }
    assert(meta_ids(mv).take(rows@.len() as int) =~= meta_ids(mv));
    let ids = crate::text::sorted_set_of(&all_ids);
    let ghost sid = crate::text::sorted_set(meta_ids(mv));
    let ghost want = sid.map_values(|id: Seq<char>| mv[best_copy(mv, id, mv.len())]);
    let mut out: Vec<RolloutThreadMetadata> = Vec::new();
    let mut k: usize = 0;
    while k < ids.len()
        invariant
            k <= ids@.len(),
            mv == meta_views(rows@),
            views(ids@) == sid,
            views(all_ids@) == meta_ids(mv),
            forall|x: Seq<char>| #[trigger] views(ids@).contains(x) <==> views(all_ids@).contains(x),
            want == sid.map_values(|id: Seq<char>| mv[best_copy(mv, id, mv.len())]),
            sid == crate::text::sorted_set(meta_ids(mv)),
            meta_views(out@) == want.take(k as int),
        decreases ids.len() - k,
    {
        let id = ids[k].as_str();
        proof {
            assert(sid[k as int] == id@);
            assert(views(ids@)[k as int] == id@);
            assert(views(ids@).contains(id@));
            assert(views(all_ids@).contains(id@));
            assert(meta_ids(mv).contains(id@));
            let w = choose|w: int| 0 <= w < meta_ids(mv).len() && meta_ids(mv)[w] == id@;
            assert(mv[w].id == id@);
            lemma_best_copy(mv, id@, mv.len());
        }
        let mut best: usize = 0;
        let mut found = false;
        let mut j: usize = 0;
        while j < rows.len()
            invariant
                j <= rows@.len(),
                mv == meta_views(rows@),
                found ==> best < j && best as int == best_copy(mv, id@, j as nat),
                !found ==> best_copy(mv, id@, j as nat) == -1,
            decreases rows.len() - j,
        {
            proof {
                lemma_best_copy(mv, id@, j as nat);
            }
            assert(mv[j as int] == meta_view(rows@[j as int]));
            if str_eq(rows[j].id.as_str(), id) {
                if !found {
                    best = j;
                    found = true;
                } else {
                    let a_user = rows[j].has_user_event;
                    let b_user = rows[best].has_user_event;
                    let replace = (a_user && !b_user) || (a_user == b_user && rows[j].updated_at_ms
                        > rows[best].updated_at_ms);
                    assert(replace == better_copy(mv[j as int], mv[best as int]));
                    if replace {
                        best = j;
                    }
                }
            }
            j = j + 1;
        }
        proof {
            lemma_best_copy(mv, id@, mv.len());
        }
        let ghost before = out@;
        let copy = rows[best].duplicate();
        assert(meta_view(copy) == mv[best as int]);
        out.push(copy);
        assert(meta_views(out@) =~= meta_views(before).push(want[k as int]));
        assert(want.take(k + 1) =~= want.take(k as int).push(want[k as int]));
        k = k + 1;
    }
    assert(want.take(ids@.len() as int) =~= want);
    out
}

/// Merging rollouts never drops or renames a stored thread: the stored rows stay first,
/// with their ids, and every merged rollout's thread has a row.
pub proof fn merge_keeps_every_stored_thread(
    rows: Seq<RowView>,
    ms: Seq<MetaView>,
    titles: Seq<(Seq<char>, Seq<char>)>,
)
    ensures
        merge_fold(rows, ms, titles).0.len() >= rows.len(),
        forall|k: int| 0 <= k < rows.len() ==> #[trigger] merge_fold(rows, ms, titles).0[k].id == rows[k].id,
        forall|k: int|
            0 <= k < ms.len() ==> exists|j: int|
                0 <= j < merge_fold(rows, ms, titles).0.len() && merge_fold(rows, ms, titles).0[j].id
                    == #[trigger] ms[k].id,
    decreases ms.len(),
{
    if ms.len() > 0 {
        let d = ms.drop_last();
        merge_keeps_every_stored_thread(rows, d, titles);
        let (rs, merged, repairs) = merge_fold(rows, d, titles);
        let m = ms.last();
        let j = first_row_with(rs, m.id);
        lemma_first_row_with(rs, m.id);
        let out = merge_fold(rows, ms, titles).0;
        assert(ms.drop_last() =~= d);
        if j >= 0 {
            let eff = preserved_meta(m, Some(rs[j]), last_value(titles, m.id));
            assert(out == rs.update(j, applied_row(rs[j], eff)));
            assert forall|k: int| 0 <= k < ms.len() implies exists|i: int|
                0 <= i < out.len() && out[i].id == #[trigger] ms[k].id by {
                if k < ms.len() - 1 {
                    assert(d[k] == ms[k]);
                    let i = choose|i: int| 0 <= i < rs.len() && rs[i].id == d[k].id;
                    assert(out[i].id == rs[i].id);
                } else {
                    assert(out[j].id == m.id);
                }
            }
        } else {
            let m2 = preserved_meta(m, None, last_value(titles, m.id));
            assert(out == rs.push(row_of_meta(m2)));
            assert forall|k: int| 0 <= k < ms.len() implies exists|i: int|
                0 <= i < out.len() && out[i].id == #[trigger] ms[k].id by {
                if k < ms.len() - 1 {
                    assert(d[k] == ms[k]);
                    let i = choose|i: int| 0 <= i < rs.len() && rs[i].id == d[k].id;
                    assert(out[i] == rs[i]);
                } else {
                    assert(out[rs.len() as int].id == m.id);
                }
            }
        }
    }
}

} // verus!
