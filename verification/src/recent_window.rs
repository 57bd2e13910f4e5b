//! Which threads are brought into Codex Desktop's recent window: the current
//! project's newest threads first, then the other projects in turn, newest project
//! first, each capped per project, the whole capped in total.
use vstd::prelude::*;
use crate::history::{
    focus_row_from_thread, later, row_project, row_updated_ms, updated_ms, FocusThreadRow,
    ThreadHistoryRow,
};
use crate::text::{lex_lt, str_eq, str_lt, views};

verus! {

// ---------------------------------------------------------------------------
// Order by recency
// ---------------------------------------------------------------------------

/// Row `a` is more recent than row `b`: later update time, or the same time and a
/// greater id.
pub open spec fn more_recent(rows: Seq<ThreadHistoryRow>, a: int, b: int) -> bool {
    later(updated_ms(rows[a]), rows[a].id@, updated_ms(rows[b]), rows[b].id@)
}

/// `i` inserted before the first entry it is more recent than.
pub open spec fn insert_by_recency(rows: Seq<ThreadHistoryRow>, s: Seq<int>, i: int) -> Seq<int>
    decreases s.len(),
{
    if s.len() == 0 {
        seq![i]
    } else if more_recent(rows, i, s[0]) {
        seq![i] + s
    } else {
        seq![s[0]] + insert_by_recency(rows, s.drop_first(), i)
    }
}

/// The indices of the first `n` rows, most recent first; rows that tie keep their
/// input order (a stable sort).
pub open spec fn recency_order(rows: Seq<ThreadHistoryRow>, n: nat) -> Seq<int>
    decreases n,
{
    if n == 0 {
        Seq::empty()
    } else {
        insert_by_recency(rows, recency_order(rows, (n - 1) as nat), n - 1)
    }
}

proof fn lemma_insert_by_recency(rows: Seq<ThreadHistoryRow>, s: Seq<int>, i: int, p: int)
    requires
        0 <= p <= s.len(),
        forall|q: int| 0 <= q < p ==> !more_recent(rows, i, #[trigger] s[q]),
        p < s.len() ==> more_recent(rows, i, s[p]),
    ensures
        insert_by_recency(rows, s, i) == s.take(p).push(i) + s.skip(p),
    decreases s.len(),
{
    if s.len() == 0 {
        assert(s.take(p).push(i) + s.skip(p) =~= seq![i]);
    } else if p == 0 {
        assert(s.take(p).push(i) + s.skip(p) =~= seq![i] + s);
    } else {
        let t = s.drop_first();
        assert forall|q: int| 0 <= q < p - 1 implies !more_recent(rows, i, #[trigger] t[q]) by {
            assert(t[q] == s[q + 1]);
        }
        lemma_insert_by_recency(rows, t, i, p - 1);
        assert(s.take(p).push(i) + s.skip(p) =~= seq![s[0]] + (t.take(p - 1).push(i) + t.skip(
            p - 1,
        )));
    }
}

proof fn lemma_insert_by_recency_len(rows: Seq<ThreadHistoryRow>, s: Seq<int>, i: int)
    ensures
        insert_by_recency(rows, s, i).len() == s.len() + 1,
        forall|x: int|
            #![trigger insert_by_recency(rows, s, i).contains(x)]
            #![trigger s.contains(x)]
            insert_by_recency(rows, s, i).contains(x) <==> (s.contains(x) || x == i),
    decreases s.len(),
{
    if s.len() > 0 && !more_recent(rows, i, s[0]) {
        lemma_insert_by_recency_len(rows, s.drop_first(), i);
        let r = insert_by_recency(rows, s, i);
        let r2 = insert_by_recency(rows, s.drop_first(), i);
        assert forall|x: int| r.contains(x) <==> (s.contains(x) || x == i) by {
            if r.contains(x) {
                let k = choose|k: int| 0 <= k < r.len() && r[k] == x;
                if k > 0 {
                    assert(r2[k - 1] == x);
                    if r2[k - 1] != i {
                        assert(s.drop_first().contains(x));
                        let m = choose|m: int| 0 <= m < s.drop_first().len() && s.drop_first()[m] == x;
                        assert(s[m + 1] == x);
                    }
                } else {
                    assert(s[0] == x);
                }
            }
            if s.contains(x) {
                let k = choose|k: int| 0 <= k < s.len() && s[k] == x;
                if k == 0 {
                    assert(r[0] == x);
                } else {
                    assert(s.drop_first()[k - 1] == x);
                    assert(s.drop_first().contains(x));
                    assert(r2.contains(x));
                    let m = choose|m: int| 0 <= m < r2.len() && r2[m] == x;
                    assert(r[m + 1] == x);
                }
            }
            if x == i {
                assert(r2.contains(i));
                let m = choose|m: int| 0 <= m < r2.len() && r2[m] == i;
                assert(r[m + 1] == i);
            }
        }
    } else if s.len() > 0 {
        let r = insert_by_recency(rows, s, i);
        assert forall|x: int| r.contains(x) <==> (s.contains(x) || x == i) by {
            if r.contains(x) {
                let k = choose|k: int| 0 <= k < r.len() && r[k] == x;
                if k > 0 {
                    assert(s[k - 1] == x);
                }
            }
            if s.contains(x) {
                let k = choose|k: int| 0 <= k < s.len() && s[k] == x;
                assert(r[k + 1] == x);
            }
            if x == i {
                assert(r[0] == i);
            }
        }
    } else {
        let r = insert_by_recency(rows, s, i);
        assert(r =~= seq![i]);
        assert forall|x: int| r.contains(x) <==> (s.contains(x) || x == i) by {
            if x == i {
                assert(r[0] == i);
            }
        }
    }
}

pub proof fn lemma_recency_order_indices(rows: Seq<ThreadHistoryRow>, n: nat)
    ensures
        recency_order(rows, n).len() == n,
        forall|x: int| recency_order(rows, n).contains(x) ==> 0 <= x < n,
    decreases n,
{
    if n > 0 {
        let prev = recency_order(rows, (n - 1) as nat);
        lemma_recency_order_indices(rows, (n - 1) as nat);
        lemma_insert_by_recency_len(rows, prev, n - 1);
        assert forall|x: int| recency_order(rows, n).contains(x) implies 0 <= x < n by {
            assert(insert_by_recency(rows, prev, n - 1).contains(x));
            if x != n - 1 {
                assert(prev.contains(x));
            }
        }
    }
}

fn row_more_recent(rows: &[ThreadHistoryRow], a: usize, b: usize) -> (r: bool)
    requires
        a < rows.len(),
        b < rows.len(),
    ensures
        r == more_recent(rows@, a as int, b as int),
{
    let ma = row_updated_ms(&rows[a]);
    let mb = row_updated_ms(&rows[b]);
    ma > mb || (ma == mb && str_lt(rows[b].id.as_str(), rows[a].id.as_str()))
}

/// The row indices, most recent first (see `recency_order`).
pub fn sort_by_recency(rows: &[ThreadHistoryRow]) -> (r: Vec<usize>)
    ensures
        r@.map_values(|k: usize| k as int) == recency_order(rows@, rows@.len()),
{
    let mut order: Vec<usize> = Vec::new();
    let mut i: usize = 0;
    while i < rows.len()
        invariant
            i <= rows.len(),
            order@.map_values(|k: usize| k as int) == recency_order(rows@, i as nat),
            forall|k: int| 0 <= k < order@.len() ==> (#[trigger] order@[k]) < i,
        decreases rows.len() - i,
    {
        let ghost s = order@.map_values(|k: usize| k as int);
        let mut p: usize = 0;
        while p < order.len() && !row_more_recent(rows, i, order[p])
            invariant
                i < rows.len(),
                p <= order@.len(),
                s == order@.map_values(|k: usize| k as int),
                forall|k: int| 0 <= k < order@.len() ==> (#[trigger] order@[k]) < i,
                forall|q: int| 0 <= q < p ==> !more_recent(rows@, i as int, #[trigger] s[q]),
            decreases order.len() - p,
        {
            p = p + 1;
        }
        proof {
            lemma_insert_by_recency(rows@, s, i as int, p as int);
        }
        let ghost before = order@;
        order.insert(p, i);
        let ghost v = order@.map_values(|k: usize| k as int);
        assert(v =~= s.take(p as int).push(i as int) + s.skip(p as int));
        assert forall|k: int| 0 <= k < order@.len() implies (#[trigger] order@[k]) < i + 1 by {
            assert(v[k] == order@[k] as int);
            if k < p {
                assert(v[k] == s[k]);
                assert(s[k] == before[k] as int);
            } else if k > p {
                assert(v[k] == s[k - 1]);
                assert(s[k - 1] == before[k - 1] as int);
            }
        }
        i = i + 1;
    }
    order
}

// ---------------------------------------------------------------------------
// The selection
// ---------------------------------------------------------------------------

pub open spec fn min_int(a: int, b: int) -> int {
    if a < b {
        a
    } else {
        b
    }
}

/// The entries of `s` whose row belongs to project `p`, in order.
pub open spec fn in_project(rows: Seq<ThreadHistoryRow>, s: Seq<int>, p: Seq<char>) -> Seq<int>
    decreases s.len(),
{
    if s.len() == 0 {
        Seq::empty()
    } else {
        let r = in_project(rows, s.drop_last(), p);
        if row_project(rows[s.last()]) == Some(p) {
            r.push(s.last())
        } else {
            r
        }
    }
}

/// The current project's newest rows, at most `focus_count` and `max_total` of them.
pub open spec fn focus_phase(
    rows: Seq<ThreadHistoryRow>,
    order: Seq<int>,
    project: Option<Seq<char>>,
    focus_count: int,
    max_total: int,
) -> Seq<int> {
    match project {
        Some(p) => {
            let f = in_project(rows, order, p);
            f.take(min_int(min_int(focus_count, max_total), f.len() as int))
        },
        None => Seq::empty(),
    }
}

pub open spec fn row_ids(rows: Seq<ThreadHistoryRow>, s: Seq<int>) -> Seq<Seq<char>> {
    s.map_values(|k: int| rows[k].id@)
}

/// The entries of `s` whose id is not among `ids`.
pub open spec fn not_selected(rows: Seq<ThreadHistoryRow>, s: Seq<int>, ids: Seq<Seq<char>>) -> Seq<
    int,
>
    decreases s.len(),
{
    if s.len() == 0 {
        Seq::empty()
    } else {
        let r = not_selected(rows, s.drop_last(), ids);
        if ids.contains(rows[s.last()].id@) {
            r
        } else {
            r.push(s.last())
        }
    }
}

/// The project a row is grouped under; rows without a cwd form one group.
pub open spec fn bucket_key(row: ThreadHistoryRow) -> Seq<char> {
    match row_project(row) {
        Some(p) => p,
        None => "(no cwd)"@,
    }
}

/// The entries of `s` grouped under `key`, in order.
pub open spec fn with_key(rows: Seq<ThreadHistoryRow>, s: Seq<int>, key: Seq<char>) -> Seq<int>
    decreases s.len(),
{
    if s.len() == 0 {
        Seq::empty()
    } else {
        let r = with_key(rows, s.drop_last(), key);
        if bucket_key(rows[s.last()]) == key {
            r.push(s.last())
        } else {
            r
        }
    }
}

/// The groups of the entries of `s`, each once, in order of first appearance.
pub open spec fn keys_of(rows: Seq<ThreadHistoryRow>, s: Seq<int>) -> Seq<Seq<char>>
    decreases s.len(),
{
    if s.len() == 0 {
        Seq::empty()
    } else {
        let r = keys_of(rows, s.drop_last());
        if r.contains(bucket_key(rows[s.last()])) {
            r
        } else {
            r.push(bucket_key(rows[s.last()]))
        }
    }
}

/// Group `a` goes before group `b`: its newest row is newer, or as new and its name
/// is greater.
pub open spec fn project_first(
    rows: Seq<ThreadHistoryRow>,
    rest: Seq<int>,
    a: Seq<char>,
    b: Seq<char>,
) -> bool {
    let ma = updated_ms(rows[with_key(rows, rest, a)[0]]);
    let mb = updated_ms(rows[with_key(rows, rest, b)[0]]);
    ma > mb || (ma == mb && lex_lt(b, a))
}

pub open spec fn insert_project(
    rows: Seq<ThreadHistoryRow>,
    rest: Seq<int>,
    s: Seq<Seq<char>>,
    k: Seq<char>,
) -> Seq<Seq<char>>
    decreases s.len(),
{
    if s.len() == 0 {
        seq![k]
    } else if project_first(rows, rest, k, s[0]) {
        seq![k] + s
    } else {
        seq![s[0]] + insert_project(rows, rest, s.drop_first(), k)
    }
}

/// The groups sorted by `project_first`.
pub open spec fn project_order(rows: Seq<ThreadHistoryRow>, rest: Seq<int>, ks: Seq<Seq<char>>) -> Seq<
    Seq<char>,
>
    decreases ks.len(),
{
    if ks.len() == 0 {
        Seq::empty()
    } else {
        insert_project(rows, rest, project_order(rows, rest, ks.drop_last()), ks.last())
    }
}

/// A group's newest rows, at most `max_per_project` of them.
pub open spec fn bucket_of(rows: Seq<ThreadHistoryRow>, rest: Seq<int>, key: Seq<char>, max_per_project: int) -> Seq<
    int,
> {
    let w = with_key(rows, rest, key);
    w.take(min_int(max_per_project, w.len() as int))
}

/// The `r`-th row of each bucket that has one, in bucket order.
pub open spec fn round(bs: Seq<Seq<int>>, r: int) -> Seq<int>
    decreases bs.len(),
{
    if bs.len() == 0 {
        Seq::empty()
    } else {
        let x = round(bs.drop_last(), r);
        if r < bs.last().len() {
            x.push(bs.last()[r])
        } else {
            x
        }
    }
}

/// The first `n` rounds, one after the other.
pub open spec fn rounds(bs: Seq<Seq<int>>, n: nat) -> Seq<int>
    decreases n,
{
    if n == 0 {
        Seq::empty()
    } else {
        rounds(bs, (n - 1) as nat) + round(bs, n - 1)
    }
}

/// The length of the longest bucket.
pub open spec fn longest(bs: Seq<Seq<int>>) -> nat
    decreases bs.len(),
{
    if bs.len() == 0 {
        0
    } else {
        let m = longest(bs.drop_last());
        if bs.last().len() > m {
            bs.last().len()
        } else {
            m
        }
    }
}

/// The entries of `s` whose id has not been seen before (among `seen` or earlier in `s`).
pub open spec fn fresh(rows: Seq<ThreadHistoryRow>, seen: Seq<Seq<char>>, s: Seq<int>) -> Seq<int>
    decreases s.len(),
{
    if s.len() == 0 {
        Seq::empty()
    } else if seen.contains(rows[s[0]].id@) {
        fresh(rows, seen, s.drop_first())
    } else {
        seq![s[0]] + fresh(rows, seen.push(rows[s[0]].id@), s.drop_first())
    }
}

/// The rows brought into the recent window, as indices: the current project's newest
/// rows first, then the other groups' rows taken in turn (round by round, groups
/// ordered by their newest row), skipping ids already taken, capped at `max_total`.
pub open spec fn recent_window(
    rows: Seq<ThreadHistoryRow>,
    project: Option<Seq<char>>,
    focus_count: int,
    max_per_project: int,
    max_total: int,
) -> Seq<int> {
    let order = recency_order(rows, rows.len());
    let first = focus_phase(rows, order, project, focus_count, max_total);
    let rest = not_selected(rows, order, row_ids(rows, first));
    let keys = project_order(rows, rest, keys_of(rows, rest));
    let bs = keys.map_values(|k: Seq<char>| bucket_of(rows, rest, k, max_per_project));
    let all = first + fresh(rows, row_ids(rows, first), rounds(bs, longest(bs)));
    all.take(min_int(max_total, all.len() as int))
}

// ---------------------------------------------------------------------------
// Computing the selection
// ---------------------------------------------------------------------------

pub open spec fn iv(v: Seq<usize>) -> Seq<int> {
    v.map_values(|k: usize| k as int)
}

pub open spec fn valid_indices(v: Seq<usize>, n: int) -> bool {
    forall|k: int| 0 <= k < v.len() ==> (#[trigger] v[k]) < n
}

fn row_bucket_key(row: &ThreadHistoryRow) -> (r: String)
    ensures
        r@ == bucket_key(*row),
{
    let p = match &row.cwd {
        Some(c) => crate::history::normalize_history_path(c.as_str()),
        None => None,
    };
    match p {
        Some(p) => p,
        None => crate::text::owned("(no cwd)"),
    }
}

/// Whether the row belongs to the project.
pub fn project_matches(row: &ThreadHistoryRow, project: &str) -> (r: bool)
    ensures
        r == (row_project(*row) == Some(project@)),
{
    let p = match &row.cwd {
        Some(c) => crate::history::normalize_history_path(c.as_str()),
        None => None,
    };
    match p {
        Some(p) => str_eq(p.as_str(), project),
        None => false,
    }
}

fn focus_indices(
    rows: &[ThreadHistoryRow],
    order: &Vec<usize>,
    project: Option<&str>,
    focus_count: usize,
    max_total: usize,
) -> (r: Vec<usize>)
    requires
        valid_indices(order@, rows@.len() as int),
    ensures
        iv(r@) == focus_phase(
            rows@,
            iv(order@),
            crate::history::sview(project),
            focus_count as int,
            max_total as int,
        ),
        valid_indices(r@, rows@.len() as int),
{
    let mut out: Vec<usize> = Vec::new();
    let p = match project {
        Some(p) => p,
        None => {
            assert(iv(out@) =~= Seq::<int>::empty());
            return out;
        },
    };
    let limit: usize = if focus_count < max_total {
        focus_count
    } else {
        max_total
    };
    let ghost o = iv(order@);
    let mut i: usize = 0;
    while i < order.len()
        invariant
            i <= order.len(),
            o == iv(order@),
            valid_indices(order@, rows@.len() as int),
            valid_indices(out@, rows@.len() as int),
            iv(out@) == in_project(rows@, o.take(i as int), p@).take(
                min_int(limit as int, in_project(rows@, o.take(i as int), p@).len() as int),
            ),
        decreases order.len() - i,
    {
        let ghost before = in_project(rows@, o.take(i as int), p@);
        assert(o.take(i + 1).drop_last() =~= o.take(i as int));
        assert(o.take(i + 1).last() == order@[i as int] as int);
        let k = order[i];
        if project_matches(&rows[k], p) {
            let ghost after = before.push(k as int);
            assert(in_project(rows@, o.take(i + 1), p@) == after);
            if out.len() < limit {
                let ghost prev = iv(out@);
                out.push(k);
                assert(iv(out@) =~= prev.push(k as int));
                assert(prev == before);
                assert(iv(out@) =~= after.take(min_int(limit as int, after.len() as int)));
            } else {
                assert(after.take(min_int(limit as int, after.len() as int)) =~= before.take(
                    min_int(limit as int, before.len() as int),
                ));
            }
        }
        i = i + 1;
    }
    assert(o.take(order.len() as int) =~= o);
    out
}

fn ids_of(rows: &[ThreadHistoryRow], idx: &Vec<usize>) -> (r: Vec<String>)
    requires
        valid_indices(idx@, rows@.len() as int),
    ensures
        views(r@) == row_ids(rows@, iv(idx@)),
{
    let mut out: Vec<String> = Vec::new();
    let mut i: usize = 0;
    while i < idx.len()
        invariant
            i <= idx.len(),
            valid_indices(idx@, rows@.len() as int),
            views(out@) == row_ids(rows@, iv(idx@)).take(i as int),
        decreases idx.len() - i,
    {
        let ghost prev = views(out@);
        out.push(crate::text::owned(rows[idx[i]].id.as_str()));
        assert(views(out@) =~= prev.push(rows@[idx@[i as int] as int].id@));
        i = i + 1;
        assert(views(out@) =~= row_ids(rows@, iv(idx@)).take(i as int));
    }
    assert(row_ids(rows@, iv(idx@)).take(idx.len() as int) =~= row_ids(rows@, iv(idx@)));
    out
}

fn unselected(rows: &[ThreadHistoryRow], order: &Vec<usize>, ids: &Vec<String>) -> (r: Vec<usize>)
    requires
        valid_indices(order@, rows@.len() as int),
    ensures
        iv(r@) == not_selected(rows@, iv(order@), views(ids@)),
        valid_indices(r@, rows@.len() as int),
{
    let ghost o = iv(order@);
    let mut out: Vec<usize> = Vec::new();
    let mut i: usize = 0;
    while i < order.len()
        invariant
            i <= order.len(),
            o == iv(order@),
            valid_indices(order@, rows@.len() as int),
            valid_indices(out@, rows@.len() as int),
            iv(out@) == not_selected(rows@, o.take(i as int), views(ids@)),
        decreases order.len() - i,
    {
        assert(o.take(i + 1).drop_last() =~= o.take(i as int));
        assert(o.take(i + 1).last() == order@[i as int] as int);
        let k = order[i];
        if !crate::text::contains_str(ids, rows[k].id.as_str()) {
            out.push(k);
            assert(iv(out@) =~= not_selected(rows@, o.take(i as int), views(ids@)).push(k as int));
        }
        i = i + 1;
    }
    assert(o.take(order.len() as int) =~= o);
    out
}

fn group_keys(rows: &[ThreadHistoryRow], rest: &Vec<usize>) -> (r: Vec<String>)
    requires
        valid_indices(rest@, rows@.len() as int),
    ensures
        views(r@) == keys_of(rows@, iv(rest@)),
{
    let ghost o = iv(rest@);
    let mut out: Vec<String> = Vec::new();
    let mut i: usize = 0;
    while i < rest.len()
        invariant
            i <= rest.len(),
            o == iv(rest@),
            valid_indices(rest@, rows@.len() as int),
            views(out@) == keys_of(rows@, o.take(i as int)),
        decreases rest.len() - i,
    {
        assert(o.take(i + 1).drop_last() =~= o.take(i as int));
        assert(o.take(i + 1).last() == rest@[i as int] as int);
        let key = row_bucket_key(&rows[rest[i]]);
        if !crate::text::contains_str(&out, key.as_str()) {
            let ghost before = views(out@);
            out.push(key);
            assert(views(out@) =~= before.push(key@));
        }
        i = i + 1;
    }
    assert(o.take(rest.len() as int) =~= o);
    out
}

fn rows_with_key(rows: &[ThreadHistoryRow], rest: &Vec<usize>, key: &str) -> (r: Vec<usize>)
    requires
        valid_indices(rest@, rows@.len() as int),
    ensures
        iv(r@) == with_key(rows@, iv(rest@), key@),
        valid_indices(r@, rows@.len() as int),
{
    let ghost o = iv(rest@);
    let mut out: Vec<usize> = Vec::new();
    let mut i: usize = 0;
    while i < rest.len()
        invariant
            i <= rest.len(),
            o == iv(rest@),
            valid_indices(rest@, rows@.len() as int),
            valid_indices(out@, rows@.len() as int),
            iv(out@) == with_key(rows@, o.take(i as int), key@),
        decreases rest.len() - i,
    {
        assert(o.take(i + 1).drop_last() =~= o.take(i as int));
        assert(o.take(i + 1).last() == rest@[i as int] as int);
        let k = rest[i];
        let bk = row_bucket_key(&rows[k]);
        if str_eq(bk.as_str(), key) {
            out.push(k);
            assert(iv(out@) =~= with_key(rows@, o.take(i as int), key@).push(k as int));
        }
        i = i + 1;
    }
    assert(o.take(rest.len() as int) =~= o);
    out
}

proof fn lemma_keys_have_rows(rows: Seq<ThreadHistoryRow>, s: Seq<int>, k: Seq<char>)
    requires
        keys_of(rows, s).contains(k),
    ensures
        with_key(rows, s, k).len() > 0,
    decreases s.len(),
{
    if s.len() > 0 {
        let r = keys_of(rows, s.drop_last());
        if r.contains(k) {
            lemma_keys_have_rows(rows, s.drop_last(), k);
        } else {
            let j = choose|j: int| 0 <= j < keys_of(rows, s).len() && keys_of(rows, s)[j] == k;
            assert(j == r.len());
        }
    }
}

fn group_goes_first(rows: &[ThreadHistoryRow], rest: &Vec<usize>, a: &str, b: &str) -> (r: bool)
    requires
        valid_indices(rest@, rows@.len() as int),
        with_key(rows@, iv(rest@), a@).len() > 0,
        with_key(rows@, iv(rest@), b@).len() > 0,
    ensures
        r == project_first(rows@, iv(rest@), a@, b@),
{
    let wa = rows_with_key(rows, rest, a);
    let wb = rows_with_key(rows, rest, b);
    assert(iv(wa@)[0] == wa@[0] as int);
    assert(iv(wb@)[0] == wb@[0] as int);
    let ma = row_updated_ms(&rows[wa[0]]);
    let mb = row_updated_ms(&rows[wb[0]]);
    ma > mb || (ma == mb && str_lt(b, a))
}

proof fn lemma_insert_project(
    rows: Seq<ThreadHistoryRow>,
    rest: Seq<int>,
    s: Seq<Seq<char>>,
    k: Seq<char>,
    p: int,
)
    requires
        0 <= p <= s.len(),
        forall|q: int| 0 <= q < p ==> !project_first(rows, rest, k, #[trigger] s[q]),
        p < s.len() ==> project_first(rows, rest, k, s[p]),
    ensures
        insert_project(rows, rest, s, k) == s.take(p).push(k) + s.skip(p),
    decreases s.len(),
{
    if s.len() == 0 {
        assert(s.take(p).push(k) + s.skip(p) =~= seq![k]);
    } else if p == 0 {
        assert(s.take(p).push(k) + s.skip(p) =~= seq![k] + s);
    } else {
        let t = s.drop_first();
        assert forall|q: int| 0 <= q < p - 1 implies !project_first(rows, rest, k, #[trigger] t[q]) by {
            assert(t[q] == s[q + 1]);
        }
        lemma_insert_project(rows, rest, t, k, p - 1);
        assert(s.take(p).push(k) + s.skip(p) =~= seq![s[0]] + (t.take(p - 1).push(k) + t.skip(
            p - 1,
        )));
    }
}

proof fn lemma_insert_project_members(
    rows: Seq<ThreadHistoryRow>,
    rest: Seq<int>,
    s: Seq<Seq<char>>,
    k: Seq<char>,
    p: int,
)
    requires
        0 <= p <= s.len(),
    ensures
        forall|x: Seq<char>| (s.take(p).push(k) + s.skip(p)).contains(x) ==> (s.contains(x) || x == k),
{
    let r = s.take(p).push(k) + s.skip(p);
    assert forall|x: Seq<char>| r.contains(x) implies (s.contains(x) || x == k) by {
        let j = choose|j: int| 0 <= j < r.len() && r[j] == x;
        if j < p {
            assert(s[j] == x);
        } else if j > p {
            assert(s[j - 1] == x);
        }
    }
}

fn order_groups(rows: &[ThreadHistoryRow], rest: &Vec<usize>, keys: &Vec<String>) -> (r: Vec<String>)
    requires
        valid_indices(rest@, rows@.len() as int),
        views(keys@) == keys_of(rows@, iv(rest@)),
    ensures
        views(r@) == project_order(rows@, iv(rest@), views(keys@)),
        forall|x: Seq<char>| views(r@).contains(x) ==> views(keys@).contains(x),
{
    let ghost ks = views(keys@);
    let mut sorted: Vec<String> = Vec::new();
    let mut i: usize = 0;
    while i < keys.len()
        invariant
            i <= keys.len(),
            ks == views(keys@),
            ks == keys_of(rows@, iv(rest@)),
            valid_indices(rest@, rows@.len() as int),
            views(sorted@) == project_order(rows@, iv(rest@), ks.take(i as int)),
            forall|x: Seq<char>| views(sorted@).contains(x) ==> ks.contains(x),
        decreases keys.len() - i,
    {
        assert(ks.take(i + 1).drop_last() =~= ks.take(i as int));
        assert(ks.take(i + 1).last() == keys@[i as int]@);
        assert(ks.contains(keys@[i as int]@)) by {
            assert(ks[i as int] == keys@[i as int]@);
        }
        proof {
            lemma_keys_have_rows(rows@, iv(rest@), keys@[i as int]@);
        }
        let ghost s = views(sorted@);
        proof {
            assert forall|q: int| 0 <= q < sorted@.len() implies with_key(rows@, iv(rest@), (#[trigger] sorted@[q])@).len() > 0 by {
                assert(s[q] == sorted@[q]@);
                assert(s.contains(s[q]));
                lemma_keys_have_rows(rows@, iv(rest@), s[q]);
            }
        }
        let mut p: usize = 0;
        while p < sorted.len() && !group_goes_first(rows, rest, keys[i].as_str(), sorted[p].as_str())
            invariant
                i < keys.len(),
                p <= sorted.len(),
                s == views(sorted@),
                ks == keys_of(rows@, iv(rest@)),
                ks == views(keys@),
                valid_indices(rest@, rows@.len() as int),
                with_key(rows@, iv(rest@), keys@[i as int]@).len() > 0,
                forall|q: int| 0 <= q < sorted@.len() ==> with_key(rows@, iv(rest@), (#[trigger] sorted@[q])@).len() > 0,
                forall|x: Seq<char>| s.contains(x) ==> ks.contains(x),
                forall|q: int| 0 <= q < p ==> !project_first(rows@, iv(rest@), keys@[i as int]@, #[trigger] s[q]),
            decreases sorted.len() - p,
        {
            assert(s.contains(sorted@[p as int]@)) by {
                assert(s[p as int] == sorted@[p as int]@);
            }
            proof {
                lemma_keys_have_rows(rows@, iv(rest@), sorted@[p as int]@);
            }
            p = p + 1;
        }
        proof {
            lemma_insert_project(rows@, iv(rest@), s, keys@[i as int]@, p as int);
            lemma_insert_project_members(rows@, iv(rest@), s, keys@[i as int]@, p as int);
        }
        let key = crate::text::owned(keys[i].as_str());
        sorted.insert(p, key);
        assert(views(sorted@) =~= s.take(p as int).push(keys@[i as int]@) + s.skip(p as int));
        i = i + 1;
    }
    assert(ks.take(keys.len() as int) =~= ks);
    sorted
}

fn longest_len(bs: &Vec<Vec<usize>>) -> (r: usize)
    ensures
        r == longest(bs@.map_values(|b: Vec<usize>| iv(b@))),
{
    let ghost v = bs@.map_values(|b: Vec<usize>| iv(b@));
    let mut m: usize = 0;
    let mut i: usize = 0;
    while i < bs.len()
        invariant
            i <= bs.len(),
            v == bs@.map_values(|b: Vec<usize>| iv(b@)),
            m == longest(v.take(i as int)),
        decreases bs.len() - i,
    {
        assert(v.take(i + 1).drop_last() =~= v.take(i as int));
        assert(v.take(i + 1).last() == iv(bs@[i as int]@));
        if bs[i].len() > m {
            m = bs[i].len();
        }
        i = i + 1;
    }
    assert(v.take(bs.len() as int) =~= v);
    m
}

fn round_robin(bs: &Vec<Vec<usize>>, n: usize, bound: usize) -> (r: Vec<usize>)
    requires
        forall|b: int| 0 <= b < bs@.len() ==> valid_indices(#[trigger] bs@[b]@, bound as int),
    ensures
        iv(r@) == rounds(bs@.map_values(|b: Vec<usize>| iv(b@)), n as nat),
        valid_indices(r@, bound as int),
{
    let ghost v = bs@.map_values(|b: Vec<usize>| iv(b@));
    let mut out: Vec<usize> = Vec::new();
    let mut r: usize = 0;
    while r < n
        invariant
            r <= n,
            v == bs@.map_values(|b: Vec<usize>| iv(b@)),
            forall|b: int| 0 <= b < bs@.len() ==> valid_indices(#[trigger] bs@[b]@, bound as int),
            valid_indices(out@, bound as int),
            iv(out@) == rounds(v, r as nat),
        decreases n - r,
    {
        let ghost start = iv(out@);
        let mut p: usize = 0;
        while p < bs.len()
            invariant
                r < n,
                p <= bs.len(),
                v == bs@.map_values(|b: Vec<usize>| iv(b@)),
                forall|b: int| 0 <= b < bs@.len() ==> valid_indices(#[trigger] bs@[b]@, bound as int),
                valid_indices(out@, bound as int),
                start == rounds(v, r as nat),
                iv(out@) == start + round(v.take(p as int), r as int),
            decreases bs.len() - p,
        {
            assert(v.take(p + 1).drop_last() =~= v.take(p as int));
            assert(v.take(p + 1).last() == iv(bs@[p as int]@));
            if r < bs[p].len() {
                let k = bs[p][r];
                assert(valid_indices(bs@[p as int]@, bound as int));
                let ghost prev = iv(out@);
                out.push(k);
                assert(iv(out@) =~= prev.push(k as int));
                assert(iv(bs@[p as int]@)[r as int] == k as int);
                assert(iv(out@) =~= start + round(v.take(p as int), r as int).push(k as int));
            }
            p = p + 1;
        }
        assert(v.take(bs.len() as int) =~= v);
        r = r + 1;
        assert(iv(out@) =~= rounds(v, r as nat));
    }
    out
}

fn fresh_rows(rows: &[ThreadHistoryRow], seen: &Vec<String>, cands: &Vec<usize>) -> (r: Vec<usize>)
    requires
        valid_indices(cands@, rows@.len() as int),
    ensures
        iv(r@) == fresh(rows@, views(seen@), iv(cands@)),
        valid_indices(r@, rows@.len() as int),
{
    let ghost c = iv(cands@);
    let mut ids: Vec<String> = Vec::new();
    let mut j: usize = 0;
    while j < seen.len()
        invariant
            j <= seen.len(),
            views(ids@) == views(seen@).take(j as int),
        decreases seen.len() - j,
    {
        let ghost prev = views(ids@);
        ids.push(crate::text::owned(seen[j].as_str()));
        assert(views(ids@) =~= prev.push(seen@[j as int]@));
        j = j + 1;
        assert(views(ids@) =~= views(seen@).take(j as int));
    }
    assert(views(seen@).take(seen.len() as int) =~= views(seen@));
    let mut out: Vec<usize> = Vec::new();
    let mut i: usize = 0;
    assert(c.skip(0) =~= c);
    while i < cands.len()
        invariant
            i <= cands.len(),
            c == iv(cands@),
            valid_indices(cands@, rows@.len() as int),
            valid_indices(out@, rows@.len() as int),
            iv(out@) + fresh(rows@, views(ids@), c.skip(i as int)) == fresh(rows@, views(seen@), c),
        decreases cands.len() - i,
    {
        let k = cands[i];
        let ghost tail = c.skip(i as int);
        assert(tail[0] == k as int);
        assert(tail.drop_first() =~= c.skip(i + 1));
        if !crate::text::contains_str(&ids, rows[k].id.as_str()) {
            let ghost before = views(ids@);
            ids.push(crate::text::owned(rows[k].id.as_str()));
            assert(views(ids@) =~= before.push(rows@[k as int].id@));
            let ghost prev = iv(out@);
            out.push(k);
            assert(iv(out@) =~= prev.push(k as int));
            assert(iv(out@) + fresh(rows@, views(ids@), c.skip(i + 1)) =~= prev + (seq![k as int]
                + fresh(rows@, views(ids@), c.skip(i + 1))));
        }
        i = i + 1;
    }
    out
}

/// The rows brought into the recent window, as row indices (see `recent_window`).
pub fn recent_window_indices(
    rows: &[ThreadHistoryRow],
    project_path: Option<&str>,
    focus_count: usize,
    max_per_project: usize,
    max_total: usize,
) -> (r: Vec<usize>)
    ensures
        iv(r@) == recent_window(
            rows@,
            crate::history::sview(project_path),
            focus_count as int,
            max_per_project as int,
            max_total as int,
        ),
        valid_indices(r@, rows@.len() as int),
{
    let order = sort_by_recency(rows);
    proof {
        lemma_recency_order_indices(rows@, rows@.len());
        assert forall|k: int| 0 <= k < order@.len() implies (#[trigger] order@[k]) < rows@.len() by {
            assert(iv(order@)[k] == order@[k] as int);
            assert(recency_order(rows@, rows@.len()).contains(order@[k] as int));
        }
    }
    let first = focus_indices(rows, &order, project_path, focus_count, max_total);
    let first_ids = ids_of(rows, &first);
    let rest = unselected(rows, &order, &first_ids);
    let keys = group_keys(rows, &rest);
    let sorted_keys = order_groups(rows, &rest, &keys);
    let ghost ks = views(sorted_keys@);
    let mut buckets: Vec<Vec<usize>> = Vec::new();
    let mut i: usize = 0;
    while i < sorted_keys.len()
        invariant
            i <= sorted_keys.len(),
            ks == views(sorted_keys@),
            valid_indices(rest@, rows@.len() as int),
            buckets@.len() == i,
            forall|b: int| 0 <= b < buckets@.len() ==> valid_indices(#[trigger] buckets@[b]@, rows@.len() as int),
            forall|b: int| 0 <= b < i ==> iv(#[trigger] buckets@[b]@) == bucket_of(rows@, iv(rest@), ks[b], max_per_project as int),
        decreases sorted_keys.len() - i,
    {
        let w = rows_with_key(rows, &rest, sorted_keys[i].as_str());
        let n: usize = if max_per_project < w.len() {
            max_per_project
        } else {
            w.len()
        };
        let mut bucket: Vec<usize> = Vec::new();
        let mut j: usize = 0;
        while j < n
            invariant
                j <= n <= w@.len(),
                valid_indices(w@, rows@.len() as int),
                valid_indices(bucket@, rows@.len() as int),
                iv(bucket@) == iv(w@).take(j as int),
            decreases n - j,
        {
            let ghost prev = iv(bucket@);
            bucket.push(w[j]);
            assert(iv(bucket@) =~= prev.push(w@[j as int] as int));
            j = j + 1;
            assert(iv(bucket@) =~= iv(w@).take(j as int));
        }
        assert(ks[i as int] == sorted_keys@[i as int]@);
        buckets.push(bucket);
        i = i + 1;
    }
    let ghost bs = ks.map_values(|k: Seq<char>| bucket_of(rows@, iv(rest@), k, max_per_project as int));
    assert(buckets@.map_values(|b: Vec<usize>| iv(b@)) =~= bs);
    let n = longest_len(&buckets);
    let cands = round_robin(&buckets, n, rows.len());
    let later_rows = fresh_rows(rows, &first_ids, &cands);
    let mut all: Vec<usize> = first;
    let ghost f = iv(all@);
    let mut j: usize = 0;
    while j < later_rows.len()
        invariant
            j <= later_rows.len(),
            valid_indices(later_rows@, rows@.len() as int),
            valid_indices(all@, rows@.len() as int),
            iv(all@) == f + iv(later_rows@).take(j as int),
        decreases later_rows.len() - j,
    {
        let ghost prev = iv(all@);
        all.push(later_rows[j]);
        assert(iv(all@) =~= prev.push(later_rows@[j as int] as int));
        j = j + 1;
        assert(iv(all@) =~= f + iv(later_rows@).take(j as int));
    }
    assert(iv(later_rows@).take(later_rows.len() as int) =~= iv(later_rows@));
    let keep: usize = if max_total < all.len() {
        max_total
    } else {
        all.len()
    };
    all.truncate(keep);
    assert(iv(all@) =~= (f + iv(later_rows@)).take(keep as int));
    all
}

/// The focus rows for the recent window: the current project's newest threads (at
/// most `focus_count`), then the other projects' threads in turn (at most
/// `max_per_project` each), at most `max_total` in all.
pub fn select_balanced_recent_window_rows(
    visible_rows: &[ThreadHistoryRow],
    project_path: Option<&str>,
    focus_count: usize,
    max_per_project: usize,
    max_total: usize,
    now_iso: &str,
) -> (r: Vec<FocusThreadRow>)
    ensures
        ({
            let w = recent_window(
                visible_rows@,
                crate::history::sview(project_path),
                focus_count as int,
                max_per_project as int,
                max_total as int,
            );
            &&& r@.len() == w.len()
            &&& forall|k: int|
                0 <= k < w.len() ==> crate::history::focus_row_of(
                    #[trigger] r@[k],
                    visible_rows@[w[k]],
                    now_iso@,
                )
        }),
{
    let idx = recent_window_indices(visible_rows, project_path, focus_count, max_per_project, max_total);
    let mut out: Vec<FocusThreadRow> = Vec::new();
    let mut i: usize = 0;
    while i < idx.len()
        invariant
            i <= idx.len(),
            valid_indices(idx@, visible_rows@.len() as int),
            out@.len() == i,
            forall|k: int|
                0 <= k < i ==> crate::history::focus_row_of(
                    #[trigger] out@[k],
                    visible_rows@[idx@[k] as int],
                    now_iso@,
                ),
        decreases idx.len() - i,
    {
        out.push(focus_row_from_thread(&visible_rows[idx[i]], now_iso));
        i = i + 1;
    }
    proof {
        assert forall|k: int| 0 <= k < idx@.len() implies iv(idx@)[k] == idx@[k] as int by {}
    }
    out
}

// ---------------------------------------------------------------------------
// Laws
// ---------------------------------------------------------------------------

proof fn lemma_fresh_is_new(rows: Seq<ThreadHistoryRow>, seen: Seq<Seq<char>>, s: Seq<int>)
    ensures
        forall|a: int, b: int|
            0 <= a < b < fresh(rows, seen, s).len() ==> rows[fresh(rows, seen, s)[a]].id@
                != rows[fresh(rows, seen, s)[b]].id@,
        forall|a: int|
            0 <= a < fresh(rows, seen, s).len() ==> !seen.contains(
                rows[#[trigger] fresh(rows, seen, s)[a]].id@,
            ),
    decreases s.len(),
{
    if s.len() > 0 {
        let id = rows[s[0]].id@;
        if seen.contains(id) {
            lemma_fresh_is_new(rows, seen, s.drop_first());
        } else {
            let seen2 = seen.push(id);
            lemma_fresh_is_new(rows, seen2, s.drop_first());
            let t = fresh(rows, seen2, s.drop_first());
            let f = fresh(rows, seen, s);
            assert(f == seq![s[0]] + t);
            assert forall|a: int| 0 <= a < f.len() implies !seen.contains(rows[#[trigger] f[a]].id@) by {
                if a > 0 {
                    assert(f[a] == t[a - 1]);
                    assert(!seen2.contains(rows[t[a - 1]].id@));
                    if seen.contains(rows[t[a - 1]].id@) {
                        let j = choose|j: int| 0 <= j < seen.len() && seen[j] == rows[t[a - 1]].id@;
                        assert(seen2[j] == seen[j]);
                    }
                }
            }
            assert forall|a: int, b: int| 0 <= a < b < f.len() implies rows[f[a]].id@ != rows[f[b]].id@ by {
                assert(f[b] == t[b - 1]);
                if a == 0 {
                    assert(!seen2.contains(rows[t[b - 1]].id@));
                    assert(seen2[seen.len() as int] == id);
                } else {
                    assert(f[a] == t[a - 1]);
                }
            }
        }
    }
}

/// The window holds at most `max_total` rows and starts with the current project's
/// newest rows; every later row has an id of its own, different from each other and
/// from those of the project's rows.
pub proof fn recent_window_shape(
    rows: Seq<ThreadHistoryRow>,
    project: Option<Seq<char>>,
    focus_count: int,
    max_per_project: int,
    max_total: int,
)
    requires
        focus_count >= 0,
        max_total >= 0,
    ensures
        ({
            let w = recent_window(rows, project, focus_count, max_per_project, max_total);
            let f = focus_phase(rows, recency_order(rows, rows.len()), project, focus_count, max_total);
            &&& w.len() <= max_total
            &&& f.len() <= w.len()
            &&& w.take(f.len() as int) == f
            &&& forall|a: int, b: int| f.len() <= a < b < w.len() ==> rows[w[a]].id@ != rows[w[b]].id@
            &&& forall|a: int| f.len() <= a < w.len() ==> !row_ids(rows, f).contains(rows[#[trigger] w[a]].id@)
        }),
{
    let order = recency_order(rows, rows.len());
    let f = focus_phase(rows, order, project, focus_count, max_total);
    let rest = not_selected(rows, order, row_ids(rows, f));
    let keys = project_order(rows, rest, keys_of(rows, rest));
    let bs = keys.map_values(|k: Seq<char>| bucket_of(rows, rest, k, max_per_project));
    let later_rows = fresh(rows, row_ids(rows, f), rounds(bs, longest(bs)));
    let all = f + later_rows;
    let w = recent_window(rows, project, focus_count, max_per_project, max_total);
    assert(w == all.take(min_int(max_total, all.len() as int)));
    lemma_fresh_is_new(rows, row_ids(rows, f), rounds(bs, longest(bs)));
    assert(f.len() <= max_total);
    assert(w.take(f.len() as int) =~= f);
    assert forall|a: int| f.len() <= a < w.len() implies w[a] == later_rows[a - f.len()] by {}
}

proof fn lemma_insert_by_recency_distinct(rows: Seq<ThreadHistoryRow>, s: Seq<int>, i: int)
    requires
        s.no_duplicates(),
        !s.contains(i),
    ensures
        insert_by_recency(rows, s, i).no_duplicates(),
    decreases s.len(),
{
    let r = insert_by_recency(rows, s, i);
    if s.len() == 0 {
        assert(r =~= seq![i]);
    } else if more_recent(rows, i, s[0]) {
        assert(r == seq![i] + s);
        assert forall|a: int, b: int| 0 <= a < r.len() && 0 <= b < r.len() && a != b implies r[a] != r[b] by {
            if a == 0 {
                assert(r[b] == s[b - 1]);
                assert(s.contains(s[b - 1]));
            } else if b == 0 {
                assert(r[a] == s[a - 1]);
                assert(s.contains(s[a - 1]));
            } else {
                assert(r[a] == s[a - 1] && r[b] == s[b - 1]);
            }
        }
    } else {
        let t = s.drop_first();
        assert forall|a: int, b: int| 0 <= a < t.len() && 0 <= b < t.len() && a != b implies t[a] != t[b] by {
            assert(t[a] == s[a + 1] && t[b] == s[b + 1]);
        }
        assert(!t.contains(i)) by {
            if t.contains(i) {
                let k = choose|k: int| 0 <= k < t.len() && t[k] == i;
                assert(s[k + 1] == i);
            }
        }
        lemma_insert_by_recency_distinct(rows, t, i);
        lemma_insert_by_recency_len(rows, t, i);
        let r2 = insert_by_recency(rows, t, i);
        assert(r == seq![s[0]] + r2);
        assert(!r2.contains(s[0])) by {
            if t.contains(s[0]) {
                let k = choose|k: int| 0 <= k < t.len() && t[k] == s[0];
                assert(s[k + 1] == s[0]);
            }
            assert(s[0] != i) by {
                assert(s.contains(s[0]));
            }
        }
        assert forall|a: int, b: int| 0 <= a < r.len() && 0 <= b < r.len() && a != b implies r[a] != r[b] by {
            if a == 0 {
                assert(r[b] == r2[b - 1]);
                assert(r2.contains(r2[b - 1]));
            } else if b == 0 {
                assert(r[a] == r2[a - 1]);
                assert(r2.contains(r2[a - 1]));
            } else {
                assert(r[a] == r2[a - 1] && r[b] == r2[b - 1]);
            }
        }
    }
}

/// The recency order lists each row once.
pub proof fn lemma_recency_order_distinct(rows: Seq<ThreadHistoryRow>, n: nat)
    ensures
        recency_order(rows, n).no_duplicates(),
    decreases n,
{
    if n > 0 {
        let prev = recency_order(rows, (n - 1) as nat);
        lemma_recency_order_distinct(rows, (n - 1) as nat);
        lemma_recency_order_indices(rows, (n - 1) as nat);
        lemma_insert_by_recency_distinct(rows, prev, n - 1);
    }
}

/// The project's entries of `s` are entries of `s`, each once when `s` has no repeats.
pub proof fn lemma_in_project_sub(rows: Seq<ThreadHistoryRow>, s: Seq<int>, p: Seq<char>)
    ensures
        forall|x: int| in_project(rows, s, p).contains(x) ==> s.contains(x),
        s.no_duplicates() ==> in_project(rows, s, p).no_duplicates(),
    decreases s.len(),
{
    if s.len() > 0 {
        let d = s.drop_last();
        lemma_in_project_sub(rows, d, p);
        let r = in_project(rows, d, p);
        assert forall|x: int| in_project(rows, s, p).contains(x) implies s.contains(x) by {
            if r.contains(x) {
                assert(d.contains(x));
                let k = choose|k: int| 0 <= k < d.len() && d[k] == x;
                assert(s[k] == x);
            } else {
                let q = in_project(rows, s, p);
                let k = choose|k: int| 0 <= k < q.len() && q[k] == x;
                if row_project(rows[s.last()]) == Some(p) {
                    assert(q == r.push(s.last()));
                    if k < r.len() {
                        assert(r[k] == x);
                        assert(r.contains(x));
                    }
                    assert(s[s.len() - 1] == x);
                } else {
                    assert(q == r);
                    assert(r[k] == x);
                }
            }
        }
        if s.no_duplicates() {
            assert forall|a: int, b: int| 0 <= a < d.len() && 0 <= b < d.len() && a != b implies d[a] != d[b] by {
                assert(d[a] == s[a] && d[b] == s[b]);
            }
            if row_project(rows[s.last()]) == Some(p) {
                let w = r.push(s.last());
                assert(!r.contains(s.last())) by {
                    if r.contains(s.last()) {
                        assert(d.contains(s.last()));
                        let k = choose|k: int| 0 <= k < d.len() && d[k] == s.last();
                        assert(s[k] == s[s.len() - 1]);
                    }
                }
                assert forall|a: int, b: int| 0 <= a < w.len() && 0 <= b < w.len() && a != b implies w[a] != w[b] by {
                    if a == r.len() {
                        assert(r.contains(w[b]));
                    } else if b == r.len() {
                        assert(r.contains(w[a]));
                    }
                }
            }
        }
    }
}

/// The recent window names each row at most once.
pub proof fn lemma_recent_window_distinct(
    rows: Seq<ThreadHistoryRow>,
    project: Option<Seq<char>>,
    focus_count: int,
    max_per_project: int,
    max_total: int,
)
    requires
        focus_count >= 0,
        max_total >= 0,
    ensures
        recent_window(rows, project, focus_count, max_per_project, max_total).no_duplicates(),
{
    let order = recency_order(rows, rows.len());
    lemma_recency_order_distinct(rows, rows.len());
    let f = focus_phase(rows, order, project, focus_count, max_total);
    if let Some(p) = project {
        lemma_in_project_sub(rows, order, p);
        let g = in_project(rows, order, p);
        let t = g.take(min_int(min_int(focus_count, max_total), g.len() as int));
        assert forall|a: int, b: int| 0 <= a < t.len() && 0 <= b < t.len() && a != b implies t[a] != t[b] by {
            assert(t[a] == g[a] && t[b] == g[b]);
        }
    }
    let rest = not_selected(rows, order, row_ids(rows, f));
    let keys = project_order(rows, rest, keys_of(rows, rest));
    let bs = keys.map_values(|k: Seq<char>| bucket_of(rows, rest, k, max_per_project));
    let later_rows = fresh(rows, row_ids(rows, f), rounds(bs, longest(bs)));
    lemma_fresh_is_new(rows, row_ids(rows, f), rounds(bs, longest(bs)));
    let all = f + later_rows;
    assert forall|a: int, b: int| 0 <= a < all.len() && 0 <= b < all.len() && a != b implies all[a] != all[b] by {
        if a < f.len() && b < f.len() {
        } else if a >= f.len() && b >= f.len() {
            assert(all[a] == later_rows[a - f.len()] && all[b] == later_rows[b - f.len()]);
            if a < b {
                assert(rows[later_rows[a - f.len()]].id@ != rows[later_rows[b - f.len()]].id@);
            } else {
                assert(rows[later_rows[b - f.len()]].id@ != rows[later_rows[a - f.len()]].id@);
            }
        } else if a < f.len() {
            assert(all[b] == later_rows[b - f.len()]);
            assert(row_ids(rows, f)[a] == rows[f[a]].id@);
            assert(row_ids(rows, f).contains(rows[f[a]].id@));
            assert(!row_ids(rows, f).contains(rows[later_rows[b - f.len()]].id@));
        } else {
            assert(all[a] == later_rows[a - f.len()]);
            assert(row_ids(rows, f)[b] == rows[f[b]].id@);
            assert(row_ids(rows, f).contains(rows[f[b]].id@));
            assert(!row_ids(rows, f).contains(rows[later_rows[a - f.len()]].id@));
        }
    }
    let w = recent_window(rows, project, focus_count, max_per_project, max_total);
    assert(w == all.take(min_int(max_total, all.len() as int)));
    assert forall|a: int, b: int| 0 <= a < w.len() && 0 <= b < w.len() && a != b implies w[a] != w[b] by {
        assert(w[a] == all[a] && w[b] == all[b]);
    }
}

/// A sequence of distinct indices below `n` has at most `n` entries.
pub proof fn lemma_distinct_indices_bounded(s: Seq<int>, n: int)
    requires
        n >= 0,
        s.no_duplicates(),
        forall|k: int| 0 <= k < s.len() ==> 0 <= #[trigger] s[k] < n,
    ensures
        s.len() <= n,
{
    s.unique_seq_to_set();
    vstd::set_lib::lemma_int_range(0, n);
    assert(s.to_set().subset_of(vstd::set_lib::set_int_range(0, n))) by {
        assert forall|x: int| s.to_set().contains(x) implies vstd::set_lib::set_int_range(0, n).contains(x) by {
            let k = choose|k: int| 0 <= k < s.len() && s[k] == x;
        }
    }
    vstd::set_lib::lemma_len_subset(s.to_set(), vstd::set_lib::set_int_range(0, n));
}

/// The update time of a group's first row among `rest` (its newest, `rest` being in
/// recency order).
pub open spec fn group_newest_ms(rows: Seq<ThreadHistoryRow>, rest: Seq<int>, key: Seq<char>) -> i64 {
    updated_ms(rows[with_key(rows, rest, key)[0]])
}

pub open spec fn newest_first(rows: Seq<ThreadHistoryRow>, rest: Seq<int>, ks: Seq<Seq<char>>) -> bool {
    forall|i: int, j: int|
        0 <= i < j < ks.len() ==> group_newest_ms(rows, rest, #[trigger] ks[i]) >= group_newest_ms(rows, rest, #[trigger] ks[j])
}

proof fn lemma_insert_project_from(rows: Seq<ThreadHistoryRow>, rest: Seq<int>, s: Seq<Seq<char>>, k: Seq<char>)
    ensures
        insert_project(rows, rest, s, k).len() == s.len() + 1,
        forall|x: int| 0 <= x < insert_project(rows, rest, s, k).len() ==> (#[trigger] insert_project(rows, rest, s, k)[x] == k
            || s.contains(insert_project(rows, rest, s, k)[x])),
    decreases s.len(),
{
    if s.len() > 0 && !project_first(rows, rest, k, s[0]) {
        let t = s.drop_first();
        lemma_insert_project_from(rows, rest, t, k);
        let r = insert_project(rows, rest, s, k);
        assert forall|x: int| 0 <= x < r.len() implies (#[trigger] r[x] == k || s.contains(r[x])) by {
            if x == 0 {
                assert(s[0] == r[0]);
            } else {
                let y = insert_project(rows, rest, t, k)[x - 1];
                assert(r[x] == y);
                if y != k {
                    let w = choose|w: int| 0 <= w < t.len() && t[w] == y;
                    assert(s[w + 1] == y);
                }
            }
        }
    } else if s.len() > 0 {
        let r = insert_project(rows, rest, s, k);
        assert forall|x: int| 0 <= x < r.len() implies (#[trigger] r[x] == k || s.contains(r[x])) by {
            if x > 0 {
                assert(r[x] == s[x - 1]);
            }
        }
    }
}

proof fn lemma_insert_project_newest_first(rows: Seq<ThreadHistoryRow>, rest: Seq<int>, s: Seq<Seq<char>>, k: Seq<char>)
    requires
        newest_first(rows, rest, s),
    ensures
        newest_first(rows, rest, insert_project(rows, rest, s, k)),
    decreases s.len(),
{
    let r = insert_project(rows, rest, s, k);
    if s.len() == 0 {
    } else if project_first(rows, rest, k, s[0]) {
        assert(r == seq![k] + s);
        assert forall|i: int, j: int| 0 <= i < j < r.len() implies group_newest_ms(rows, rest, #[trigger] r[i])
            >= group_newest_ms(rows, rest, #[trigger] r[j]) by {
            if i == 0 {
                assert(r[j] == s[j - 1]);
                if j - 1 > 0 {
                    assert(group_newest_ms(rows, rest, s[0]) >= group_newest_ms(rows, rest, s[j - 1]));
                }
            } else {
                assert(r[i] == s[i - 1] && r[j] == s[j - 1]);
            }
        }
    } else {
        let t = s.drop_first();
        assert forall|i: int, j: int| 0 <= i < j < t.len() implies group_newest_ms(rows, rest, #[trigger] t[i])
            >= group_newest_ms(rows, rest, #[trigger] t[j]) by {
            assert(t[i] == s[i + 1] && t[j] == s[j + 1]);
        }
        lemma_insert_project_newest_first(rows, rest, t, k);
        lemma_insert_project_from(rows, rest, t, k);
        let q = insert_project(rows, rest, t, k);
        assert(r == seq![s[0]] + q);
        assert forall|i: int, j: int| 0 <= i < j < r.len() implies group_newest_ms(rows, rest, #[trigger] r[i])
            >= group_newest_ms(rows, rest, #[trigger] r[j]) by {
            if i == 0 {
                let y = q[j - 1];
                assert(r[j] == y);
                if y != k {
                    let w = choose|w: int| 0 <= w < t.len() && t[w] == y;
                    assert(s[w + 1] == y);
                    assert(group_newest_ms(rows, rest, s[0]) >= group_newest_ms(rows, rest, s[w + 1]));
                }
            } else {
                assert(r[i] == q[i - 1] && r[j] == q[j - 1]);
            }
        }
    }
}

proof fn lemma_project_order_newest_first(rows: Seq<ThreadHistoryRow>, rest: Seq<int>, ks: Seq<Seq<char>>)
    ensures
        newest_first(rows, rest, project_order(rows, rest, ks)),
    decreases ks.len(),
{
    if ks.len() > 0 {
        lemma_project_order_newest_first(rows, rest, ks.drop_last());
        lemma_insert_project_newest_first(rows, rest, project_order(rows, rest, ks.drop_last()), ks.last());
    }
}

pub open spec fn newest_rows_first(rows: Seq<ThreadHistoryRow>, s: Seq<int>) -> bool {
    forall|i: int, j: int| 0 <= i < j < s.len() ==> updated_ms(rows[#[trigger] s[i]]) >= updated_ms(rows[#[trigger] s[j]])
}

proof fn lemma_insert_by_recency_sorted(rows: Seq<ThreadHistoryRow>, s: Seq<int>, x: int)
    requires
        newest_rows_first(rows, s),
    ensures
        newest_rows_first(rows, insert_by_recency(rows, s, x)),
    decreases s.len(),
{
    let r = insert_by_recency(rows, s, x);
    if s.len() == 0 {
    } else if more_recent(rows, x, s[0]) {
        assert(r == seq![x] + s);
        assert forall|i: int, j: int| 0 <= i < j < r.len() implies updated_ms(rows[#[trigger] r[i]])
            >= updated_ms(rows[#[trigger] r[j]]) by {
            if i == 0 {
                assert(r[j] == s[j - 1]);
                if j - 1 > 0 {
                    assert(updated_ms(rows[s[0]]) >= updated_ms(rows[s[j - 1]]));
                }
            } else {
                assert(r[i] == s[i - 1] && r[j] == s[j - 1]);
            }
        }
    } else {
        let t = s.drop_first();
        assert forall|i: int, j: int| 0 <= i < j < t.len() implies updated_ms(rows[#[trigger] t[i]])
            >= updated_ms(rows[#[trigger] t[j]]) by {
            assert(t[i] == s[i + 1] && t[j] == s[j + 1]);
        }
        lemma_insert_by_recency_sorted(rows, t, x);
        lemma_insert_by_recency_len(rows, t, x);
        let q = insert_by_recency(rows, t, x);
        assert(r == seq![s[0]] + q);
        assert forall|i: int, j: int| 0 <= i < j < r.len() implies updated_ms(rows[#[trigger] r[i]])
            >= updated_ms(rows[#[trigger] r[j]]) by {
            if i == 0 {
                let y = q[j - 1];
                assert(r[j] == y);
                assert(q.contains(y));
                if y != x {
                    assert(t.contains(y));
                    let w = choose|w: int| 0 <= w < t.len() && t[w] == y;
                    assert(s[w + 1] == y);
                    assert(updated_ms(rows[s[0]]) >= updated_ms(rows[s[w + 1]]));
                }
            } else {
                assert(r[i] == q[i - 1] && r[j] == q[j - 1]);
            }
        }
    }
}

/// Rows in recency order come newest first: an earlier row was updated no earlier
/// than any later one.
pub proof fn recency_order_is_newest_first(rows: Seq<ThreadHistoryRow>, n: nat)
    ensures
        forall|i: int, j: int|
            0 <= i < j < recency_order(rows, n).len() ==> updated_ms(rows[#[trigger] recency_order(rows, n)[i]])
                >= updated_ms(rows[#[trigger] recency_order(rows, n)[j]]),
    decreases n,
{
    if n > 0 {
        recency_order_is_newest_first(rows, (n - 1) as nat);
        lemma_insert_by_recency_sorted(rows, recency_order(rows, (n - 1) as nat), n - 1);
    }
}

proof fn lemma_not_selected_sorted(rows: Seq<ThreadHistoryRow>, s: Seq<int>, ids: Seq<Seq<char>>)
    requires
        newest_rows_first(rows, s),
    ensures
        newest_rows_first(rows, not_selected(rows, s, ids)),
        forall|x: int| #[trigger] not_selected(rows, s, ids).contains(x) ==> s.contains(x),
    decreases s.len(),
{
    if s.len() > 0 {
        let d = s.drop_last();
        assert forall|i: int, j: int| 0 <= i < j < d.len() implies updated_ms(rows[#[trigger] d[i]])
            >= updated_ms(rows[#[trigger] d[j]]) by {
            assert(d[i] == s[i] && d[j] == s[j]);
        }
        lemma_not_selected_sorted(rows, d, ids);
        let p = not_selected(rows, d, ids);
        let r = not_selected(rows, s, ids);
        assert forall|x: int| #[trigger] r.contains(x) implies s.contains(x) by {
            let k = choose|k: int| 0 <= k < r.len() && r[k] == x;
            if k < p.len() {
                assert(p[k] == x);
                assert(p.contains(x));
                let w = choose|w: int| 0 <= w < d.len() && d[w] == x;
                assert(s[w] == x);
            } else {
                assert(s[s.len() - 1] == x);
            }
        }
        if !ids.contains(rows[s.last()].id@) {
            assert forall|i: int, j: int| 0 <= i < j < r.len() implies updated_ms(rows[#[trigger] r[i]])
                >= updated_ms(rows[#[trigger] r[j]]) by {
                if j == r.len() - 1 {
                    assert(r[i] == p[i]);
                    assert(p.contains(p[i]));
                    let w = choose|w: int| 0 <= w < d.len() && d[w] == p[i];
                    assert(s[w] == p[i]);
                    assert(r[j] == s[s.len() - 1]);
                } else {
                    assert(r[i] == p[i] && r[j] == p[j]);
                }
            }
        }
    }
}

proof fn lemma_with_key_sorted(rows: Seq<ThreadHistoryRow>, s: Seq<int>, key: Seq<char>)
    requires
        newest_rows_first(rows, s),
    ensures
        newest_rows_first(rows, with_key(rows, s, key)),
        forall|x: int| #[trigger] with_key(rows, s, key).contains(x) ==> s.contains(x),
    decreases s.len(),
{
    if s.len() > 0 {
        let d = s.drop_last();
        assert forall|i: int, j: int| 0 <= i < j < d.len() implies updated_ms(rows[#[trigger] d[i]])
            >= updated_ms(rows[#[trigger] d[j]]) by {
            assert(d[i] == s[i] && d[j] == s[j]);
        }
        lemma_with_key_sorted(rows, d, key);
        let p = with_key(rows, d, key);
        let r = with_key(rows, s, key);
        assert forall|x: int| #[trigger] r.contains(x) implies s.contains(x) by {
            let k = choose|k: int| 0 <= k < r.len() && r[k] == x;
            if k < p.len() {
                assert(p[k] == x);
                assert(p.contains(x));
                let w = choose|w: int| 0 <= w < d.len() && d[w] == x;
                assert(s[w] == x);
            } else {
                assert(s[s.len() - 1] == x);
            }
        }
        if bucket_key(rows[s.last()]) == key {
            assert forall|i: int, j: int| 0 <= i < j < r.len() implies updated_ms(rows[#[trigger] r[i]])
                >= updated_ms(rows[#[trigger] r[j]]) by {
                if j == r.len() - 1 {
                    assert(r[i] == p[i]);
                    assert(p.contains(p[i]));
                    let w = choose|w: int| 0 <= w < d.len() && d[w] == p[i];
                    assert(s[w] == p[i]);
                    assert(r[j] == s[s.len() - 1]);
                } else {
                    assert(r[i] == p[i] && r[j] == p[j]);
                }
            }
        }
    }
}

/// After the current project's rows, the window visits the other groups newest group
/// first: each round takes one row per group, a group's rows come newest first, and a
/// group whose newest row is newer comes before a group whose newest row is older.
pub proof fn recent_window_visits_newest_groups_first(
    rows: Seq<ThreadHistoryRow>,
    project: Option<Seq<char>>,
    focus_count: int,
    max_per_project: int,
    max_total: int,
)
    ensures
        ({
            let order = recency_order(rows, rows.len());
            let first = focus_phase(rows, order, project, focus_count, max_total);
            let rest = not_selected(rows, order, row_ids(rows, first));
            let keys = project_order(rows, rest, keys_of(rows, rest));
            &&& forall|i: int, j: int|
                0 <= i < j < keys.len() ==> updated_ms(rows[with_key(rows, rest, #[trigger] keys[i])[0]])
                    >= updated_ms(rows[with_key(rows, rest, #[trigger] keys[j])[0]])
            &&& forall|k: Seq<char>, x: int|
                #[trigger] with_key(rows, rest, k).contains(x) ==> updated_ms(rows[x]) <= updated_ms(
                    rows[with_key(rows, rest, k)[0]],
                )
        }),
{
    let order = recency_order(rows, rows.len());
    let first = focus_phase(rows, order, project, focus_count, max_total);
    let rest = not_selected(rows, order, row_ids(rows, first));
    lemma_project_order_newest_first(rows, rest, keys_of(rows, rest));
    recency_order_is_newest_first(rows, rows.len());
    lemma_not_selected_sorted(rows, order, row_ids(rows, first));
    assert forall|k: Seq<char>, x: int| #[trigger] with_key(rows, rest, k).contains(x) implies updated_ms(rows[x])
        <= updated_ms(rows[with_key(rows, rest, k)[0]]) by {
        lemma_with_key_sorted(rows, rest, k);
        let w = with_key(rows, rest, k);
        let m = choose|m: int| 0 <= m < w.len() && w[m] == x;
        if m > 0 {
            assert(updated_ms(rows[w[0]]) >= updated_ms(rows[w[m]]));
        }
    }
}

} // verus!
