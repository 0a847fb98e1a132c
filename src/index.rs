use vstd::prelude::*;

use crate::schema::{ids_below, Index, Table};
use crate::table::same_key_columns;

verus! {

/// Two indexes are the same index across the schemas: same kind, same columns by name.
pub open spec fn indexes_match(pt: Table, a: Index, nt: Table, b: Index) -> bool {
    a.kind == b.kind && same_key_columns(pt, a.columns@, nt, b.columns@)
}

/// The first index of `u` at or after `j` that matches index `a` of `t`, `t` standing on the
/// side that `t_is_previous` says.
pub open spec fn first_index_match_from(t: Table, a: Index, u: Table, t_is_previous: bool, j: int) -> Option<nat>
    decreases u.indexes@.len() - j,
{
    if j < 0 || j >= u.indexes@.len() {
        None
    } else if (if t_is_previous {
        indexes_match(t, a, u, u.indexes@[j])
    } else {
        indexes_match(u, u.indexes@[j], t, a)
    }) {
        Some(j as nat)
    } else {
        first_index_match_from(t, a, u, t_is_previous, j + 1)
    }
}

/// The pairs of the first `n` previous indexes with their next counterparts.
pub open spec fn index_pairs_upto(pt: Table, nt: Table, n: int) -> Seq<(usize, usize)>
    decreases n,
{
    if n <= 0 {
        Seq::empty()
    } else {
        let p = index_pairs_upto(pt, nt, n - 1);
        match first_index_match_from(pt, pt.indexes@[n - 1], nt, true, 0) {
            Some(j) => p.push(((n - 1) as usize, j as usize)),
            None => p,
        }
    }
}

/// The first `n` indexes of `t` that no index of `u` matches.
pub open spec fn unmatched_indexes_upto(t: Table, u: Table, t_is_previous: bool, n: int) -> Seq<usize>
    decreases n,
{
    if n <= 0 {
        Seq::empty()
    } else {
        let p = unmatched_indexes_upto(t, u, t_is_previous, n - 1);
        if first_index_match_from(t, t.indexes@[n - 1], u, t_is_previous, 0) is None {
            p.push((n - 1) as usize)
        } else {
            p
        }
    }
}

/// Some foreign key of the table constrains exactly the columns of the index.
pub open spec fn spec_index_covers_fk(t: Table, index: Index) -> bool {
    exists|f: int|
        0 <= f < t.foreign_keys@.len() && (#[trigger] t.foreign_keys@[f]).constrained_columns@
            == index.columns@
}

pub fn indexes_match_exec(pt: &Table, a: &Index, nt: &Table, b: &Index) -> (r: bool)
    requires
        ids_below(a.columns@, pt.columns@.len() as int),
        ids_below(b.columns@, nt.columns@.len() as int),
    ensures
        r == indexes_match(*pt, *a, *nt, *b),
{
    a.kind == b.kind && crate::table::same_key(pt, &a.columns, nt, &b.columns)
}

/// The position of the first index of `u` that matches index `a` of `t`.
pub fn find_index(t: &Table, a: &Index, u: &Table, t_is_previous: bool) -> (r: Option<usize>)
    requires
        t.wf(),
        u.wf(),
        ids_below(a.columns@, t.columns@.len() as int),
    ensures
        r == (match first_index_match_from(*t, *a, *u, t_is_previous, 0) {
            Some(j) => Some(j as usize),
            None => None,
        }),
        r is Some ==> r->0 < u.indexes@.len(),
{
    let mut j: usize = 0;
    while j < u.indexes.len()
        invariant
            0 <= j <= u.indexes@.len(),
            t.wf(),
            u.wf(),
            ids_below(a.columns@, t.columns@.len() as int),
            first_index_match_from(*t, *a, *u, t_is_previous, 0) == first_index_match_from(
                *t,
                *a,
                *u,
                t_is_previous,
                j as int,
            ),
        decreases u.indexes@.len() - j,
    {
        let m = if t_is_previous {
            indexes_match_exec(t, a, u, &u.indexes[j])
        } else {
            indexes_match_exec(u, &u.indexes[j], t, a)
        };
        if m {
            return Some(j);
        }
        j += 1;
    }
    None
}

/// Each previous index with the first next index that matches it.
pub fn index_pairs(pt: &Table, nt: &Table) -> (r: Vec<(usize, usize)>)
    requires
        pt.wf(),
        nt.wf(),
    ensures
        r@ == index_pairs_upto(*pt, *nt, pt.indexes@.len() as int),
        forall|k: int|
            0 <= k < r@.len() ==> (#[trigger] r@[k]).0 < pt.indexes@.len() && r@[k].1 < nt.indexes@.len(),
{
    let mut r: Vec<(usize, usize)> = Vec::new();
    let mut i: usize = 0;
    while i < pt.indexes.len()
        invariant
            0 <= i <= pt.indexes@.len(),
            pt.wf(),
            nt.wf(),
            r@ == index_pairs_upto(*pt, *nt, i as int),
            forall|k: int|
                0 <= k < r@.len() ==> (#[trigger] r@[k]).0 < i && r@[k].1 < nt.indexes@.len(),
        decreases pt.indexes@.len() - i,
    {
        match find_index(pt, &pt.indexes[i], nt, true) {
            Some(j) => r.push((i, j)),
            None => {},
        }
        i += 1;
    }
    r
}

/// The indexes of `t` that no index of `u` matches.
pub fn unmatched_indexes(t: &Table, u: &Table, t_is_previous: bool) -> (r: Vec<usize>)
    requires
        t.wf(),
        u.wf(),
    ensures
        r@ == unmatched_indexes_upto(*t, *u, t_is_previous, t.indexes@.len() as int),
        forall|k: int| 0 <= k < r@.len() ==> #[trigger] r@[k] < t.indexes@.len(),
{
    let mut r: Vec<usize> = Vec::new();
    let mut i: usize = 0;
    while i < t.indexes.len()
        invariant
            0 <= i <= t.indexes@.len(),
            t.wf(),
            u.wf(),
            r@ == unmatched_indexes_upto(*t, *u, t_is_previous, i as int),
            forall|k: int| 0 <= k < r@.len() ==> #[trigger] r@[k] < i,
        decreases t.indexes@.len() - i,
    {
        if find_index(t, &t.indexes[i], u, t_is_previous).is_none() {
            r.push(i);
        }
        i += 1;
    }
    r
}

/// Whether a foreign key of the table constrains exactly the columns of the index.
pub fn index_covers_fk(t: &Table, index: &Index) -> (r: bool)
    ensures
        r == spec_index_covers_fk(*t, *index),
{
    let mut f: usize = 0;
    while f < t.foreign_keys.len()
        invariant
            0 <= f <= t.foreign_keys@.len(),
            forall|g: int|
                0 <= g < f ==> (#[trigger] t.foreign_keys@[g]).constrained_columns@ != index.columns@,
        decreases t.foreign_keys@.len() - f,
    {
        if same_ids(&t.foreign_keys[f].constrained_columns, &index.columns) {
            return true;
        }
        f += 1;
    }
    false
}

fn same_ids(a: &Vec<usize>, b: &Vec<usize>) -> (r: bool)
    ensures
        r == (a@ == b@),
{
    if a.len() != b.len() {
        return false;
    }
    let mut k: usize = 0;
    while k < a.len()
        invariant
            0 <= k <= a@.len(),
            a@.len() == b@.len(),
            forall|m: int| 0 <= m < k ==> a@[m] == b@[m],
        decreases a@.len() - k,
    {
        if a[k] != b[k] {
            return false;
        }
        k += 1;
    }
    assert(a@ =~= b@);
    true
}

} // verus!
