//! File system paths as text: joining a relative name under a directory, and the
//! final component of a path.
use vstd::prelude::*;
use crate::text::{chars_of, owned, push_char, slice_chars};

verus! {

/// A path separator: `/` everywhere, `\` on Windows as well.
pub open spec fn is_separator(c: char) -> bool {
    c == '/' || c == '\\'
}

/// `base` joined with the relative name `name` using separator `sep`: no separator
/// is added after an empty base or after one that already ends in a separator.
pub open spec fn path_join(base: Seq<char>, name: Seq<char>, sep: char) -> Seq<char> {
    if base.len() == 0 {
        name
    } else if is_separator(base.last()) {
        base + name
    } else {
        base.push(sep) + name
    }
}

/// Joins the relative name `name` under `base`.
pub fn join_path(base: &str, name: &str, sep: char) -> (r: String)
    requires
        is_separator(sep),
    ensures
        r@ == path_join(base@, name@, sep),
{
    let b = chars_of(base);
    if b.len() == 0 {
        return owned(name);
    }
    let last = b[b.len() - 1];
    let mut r = owned(base);
    if !(last == '/' || last == '\\') {
        push_char(&mut r, sep);
    }
    r.append(name);
    r
}

/// Joins several relative names under `base`, one after another.
pub open spec fn path_join_all(base: Seq<char>, names: Seq<Seq<char>>, sep: char) -> Seq<char>
    decreases names.len(),
{
    if names.len() == 0 {
        base
    } else {
        path_join(path_join_all(base, names.drop_last(), sep), names.last(), sep)
    }
}

/// Index just after the last separator, or 0.
pub open spec fn last_separator_end(p: Seq<char>) -> int
    decreases p.len(),
{
    if p.len() == 0 {
        0
    } else if is_separator(p.last()) {
        p.len() as int
    } else {
        last_separator_end(p.drop_last())
    }
}

/// The text after the last separator (`/` or `\`).
pub open spec fn last_component(p: Seq<char>) -> Seq<char> {
    p.skip(last_separator_end(p))
}

proof fn lemma_last_separator_end_bounds(p: Seq<char>)
    ensures
        0 <= last_separator_end(p) <= p.len(),
    decreases p.len(),
{
    if p.len() > 0 && !is_separator(p.last()) {
        lemma_last_separator_end_bounds(p.drop_last());
    }
}

/// Start index of the last component of `v`.
pub fn last_component_start(v: &[char]) -> (i: usize)
    ensures
        i as int == last_separator_end(v@),
{
    let mut j: usize = v.len();
    assert(v@.take(j as int) =~= v@);
    while j > 0 && !(v[j - 1] == '/' || v[j - 1] == '\\')
        invariant
            j <= v.len(),
            last_separator_end(v@) == last_separator_end(v@.take(j as int)),
        decreases j,
    {
        assert(v@.take(j as int).drop_last() =~= v@.take(j - 1));
        j = j - 1;
    }
    j
}

/// The final component of a path, split at either separator.
pub fn last_component_chars(v: &[char]) -> (r: Vec<char>)
    ensures
        r@ == last_component(v@),
{
    let i = last_component_start(v);
    proof {
        lemma_last_separator_end_bounds(v@);
    }
    slice_chars(v, i, v.len())
}

} // verus!
