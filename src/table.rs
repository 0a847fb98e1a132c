use vstd::prelude::*;

use crate::flavour::Flavour;
use crate::schema::{
    families_equal, opt_strings_equal, same_family, same_opt_string, Column, ColumnArity,
    ColumnId, ForeignKey, Table, TypeFamily,
};
use crate::steps::{AlterColumn, ColumnChanges, ColumnTypeChange, Pair, TableChange};

verus! {

/// The first column at or after position `j` named `name`.
pub open spec fn first_column_from(name: Seq<char>, cols: Seq<Column>, j: int) -> Option<nat>
    decreases cols.len() - j,
{
    if j < 0 || j >= cols.len() {
        None
    } else if cols[j].name@ == name {
        Some(j as nat)
    } else {
        first_column_from(name, cols, j + 1)
    }
}

/// The pairs of the first `n` previous columns with the next columns of the same name.
pub open spec fn column_pairs_upto(prev: Seq<Column>, next: Seq<Column>, n: int) -> Seq<Pair<ColumnId>>
    decreases n,
{
    if n <= 0 {
        Seq::empty()
    } else {
        let p = column_pairs_upto(prev, next, n - 1);
        match first_column_from(prev[n - 1].name@, next, 0) {
            Some(j) => p.push(Pair { previous: (n - 1) as usize, next: j as usize }),
            None => p,
        }
    }
}

/// The first `n` columns of `side` whose name no column of `other` has.
pub open spec fn unpaired_columns_upto(side: Seq<Column>, other: Seq<Column>, n: int) -> Seq<ColumnId>
    decreases n,
{
    if n <= 0 {
        Seq::empty()
    } else {
        let p = unpaired_columns_upto(side, other, n - 1);
        if first_column_from(side[n - 1].name@, other, 0) is None {
            p.push((n - 1) as usize)
        } else {
            p
        }
    }
}

/// What differs between two columns of the same name.
pub open spec fn spec_column_changes(a: Column, b: Column) -> ColumnChanges {
    ColumnChanges {
        type_changed: !same_family(a.family, b.family),
        arity_changed: a.arity != b.arity,
        default_changed: !same_opt_string(a.default, b.default),
        auto_increment_changed: a.auto_increment != b.auto_increment,
    }
}

/// The change that a column pair contributes to an `AlterTable`, if any.
pub open spec fn spec_alter_column(fl: Flavour, a: Column, b: Column, ids: Pair<ColumnId>) -> Option<TableChange> {
    let changes = spec_column_changes(a, b);
    if !changes.spec_differs() {
        None
    } else {
        match fl.spec_type_change(a.family, b.family) {
            Some(ColumnTypeChange::NotCastable) => Some(
                TableChange::DropAndRecreateColumn { column_id: ids, changes },
            ),
            tc => Some(TableChange::AlterColumn(AlterColumn { column_id: ids, changes, type_change: tc })),
        }
    }
}

/// The alterations of the first `n` column pairs.
pub open spec fn alter_columns_upto(fl: Flavour, t: Pair<Table>, pairs: Seq<Pair<ColumnId>>, n: int) -> Seq<TableChange>
    decreases n,
{
    if n <= 0 {
        Seq::empty()
    } else {
        let p = alter_columns_upto(fl, t, pairs, n - 1);
        let ids = pairs[n - 1];
        match spec_alter_column(
            fl,
            t.previous.columns@[ids.previous as int],
            t.next.columns@[ids.next as int],
            ids,
        ) {
            Some(c) => p.push(c),
            None => p,
        }
    }
}

/// Type families that a foreign key may connect: equal, or a UUID and a string.
pub open spec fn families_compatible(a: TypeFamily, b: TypeFamily) -> bool {
    match (a, b) {
        (TypeFamily::Uuid, TypeFamily::String) => true,
        (TypeFamily::String, TypeFamily::Uuid) => true,
        _ => same_family(a, b),
    }
}

pub open spec fn arities_compatible(fl: Flavour, a: ColumnArity, b: ColumnArity) -> bool {
    fl.can_cope_with_foreign_key_column_becoming_nonnullable || a == b || (a == ColumnArity::Required
        && b == ColumnArity::Nullable)
}

/// The `k`-th constrained columns of two foreign keys agree.
pub open spec fn constrained_columns_agree(
    fl: Flavour,
    pt: Table,
    pf: ForeignKey,
    nt: Table,
    nf: ForeignKey,
    k: int,
) -> bool {
    let a = pt.columns@[pf.constrained_columns@[k] as int];
    let b = nt.columns@[nf.constrained_columns@[k] as int];
    a.name@ == b.name@ && families_compatible(a.family, b.family) && arities_compatible(
        fl,
        a.arity,
        b.arity,
    )
}

/// Two foreign keys are the same foreign key across the two schemas.
pub open spec fn spec_foreign_keys_match(fl: Flavour, pt: Table, pf: ForeignKey, nt: Table, nf: ForeignKey) -> bool {
    &&& fl.spec_table_names_match(pf.referenced_table@, nf.referenced_table@)
    &&& pf.referenced_columns@.len() == nf.referenced_columns@.len()
    &&& pf.constrained_columns@.len() == nf.constrained_columns@.len()
    &&& forall|k: int|
        0 <= k < pf.constrained_columns@.len() ==> #[trigger] constrained_columns_agree(
            fl,
            pt,
            pf,
            nt,
            nf,
            k,
        )
    &&& forall|k: int|
        0 <= k < pf.referenced_columns@.len() ==> (#[trigger] pf.referenced_columns@[k])@
            == nf.referenced_columns@[k]@
    &&& fl.referential_actions ==> pf.on_delete == nf.on_delete && pf.on_update == nf.on_update
}

/// The foreign keys among the first `n` of table `t` that no foreign key of table `u` matches.
pub open spec fn unmatched_fks_upto(fl: Flavour, t: Table, u: Table, t_is_previous: bool, n: int) -> Seq<usize>
    decreases n,
{
    if n <= 0 {
        Seq::empty()
    } else {
        let p = unmatched_fks_upto(fl, t, u, t_is_previous, n - 1);
        let matched = exists|g: int|
            0 <= g < u.foreign_keys@.len() && if t_is_previous {
                spec_foreign_keys_match(fl, t, t.foreign_keys@[n - 1], u, #[trigger] u.foreign_keys@[g])
            } else {
                spec_foreign_keys_match(fl, u, u.foreign_keys@[g], t, t.foreign_keys@[n - 1])
            };
        if matched {
            p
        } else {
            p.push((n - 1) as usize)
        }
    }
}

/// The two keys list the same columns, by name, in the same order.
pub open spec fn same_key_columns(pt: Table, pk: Seq<ColumnId>, nt: Table, nk: Seq<ColumnId>) -> bool {
    &&& pk.len() == nk.len()
    &&& forall|k: int|
        0 <= k < pk.len() ==> (#[trigger] pt.columns@[pk[k] as int]).name@ == nt.columns@[nk[k] as int].name@
}

/// The previous primary key is gone or changed.
pub open spec fn spec_dropped_primary_key(t: Pair<Table>) -> bool {
    match (t.previous.primary_key, t.next.primary_key) {
        (Some(p), Some(n)) => !same_key_columns(t.previous, p.columns@, t.next, n.columns@),
        (Some(_), None) => true,
        _ => false,
    }
}

/// The next primary key is new or changed.
pub open spec fn spec_created_primary_key(t: Pair<Table>) -> bool {
    match (t.previous.primary_key, t.next.primary_key) {
        (Some(p), Some(n)) => !same_key_columns(t.previous, p.columns@, t.next, n.columns@),
        (None, Some(_)) => true,
        _ => false,
    }
}

/// Some column that is dropped and recreated belongs to the previous primary key.
pub open spec fn recreates_primary_key_column(t: Pair<Table>, alters: Seq<TableChange>) -> bool {
    exists|k: int|
        0 <= k < alters.len() && match #[trigger] alters[k] {
            TableChange::DropAndRecreateColumn { column_id, .. } => t.previous.spec_in_primary_key(
                column_id.previous,
            ),
            _ => false,
        }
}

/// A view of one pair of tables.
pub struct TableDiffer<'a> {
    pub flavour: &'a Flavour,
    pub previous: &'a Table,
    pub next: &'a Table,
}

impl<'a> TableDiffer<'a> {
    pub open spec fn wf(&self) -> bool {
        self.previous.wf() && self.next.wf()
    }

    pub open spec fn tables(&self) -> Pair<Table> {
        Pair { previous: *self.previous, next: *self.next }
    }

    pub open spec fn spec_column_pairs(&self) -> Seq<Pair<ColumnId>> {
        column_pairs_upto(self.previous.columns@, self.next.columns@, self.previous.columns@.len() as int)
    }

    pub open spec fn spec_dropped_columns(&self) -> Seq<ColumnId> {
        unpaired_columns_upto(self.previous.columns@, self.next.columns@, self.previous.columns@.len() as int)
    }

    pub open spec fn spec_added_columns(&self) -> Seq<ColumnId> {
        unpaired_columns_upto(self.next.columns@, self.previous.columns@, self.next.columns@.len() as int)
    }

    pub open spec fn spec_alter_columns(&self) -> Seq<TableChange> {
        let pairs = self.spec_column_pairs();
        alter_columns_upto(*self.flavour, self.tables(), pairs, pairs.len() as int)
    }

    /// The columns present on both sides, paired by name, in the order of the previous table.
    pub fn column_pairs(&self) -> (r: Vec<Pair<ColumnId>>)
        ensures
            r@ == self.spec_column_pairs(),
            forall|k: int|
                0 <= k < r@.len() ==> (#[trigger] r@[k]).previous < self.previous.columns@.len()
                    && r@[k].next < self.next.columns@.len(),
    {
        let prev = &self.previous.columns;
        let mut r: Vec<Pair<ColumnId>> = Vec::new();
        let mut i: usize = 0;
        while i < prev.len()
            invariant
                0 <= i <= prev@.len(),
                prev == &self.previous.columns,
                r@ == column_pairs_upto(prev@, self.next.columns@, i as int),
                forall|k: int|
                    0 <= k < r@.len() ==> (#[trigger] r@[k]).previous < i && r@[k].next
                        < self.next.columns@.len(),
            decreases prev@.len() - i,
        {
            match find_column(&prev[i].name, &self.next.columns) {
                Some(j) => r.push(Pair { previous: i, next: j }),
                None => {},
            }
            i += 1;
        }
        r
    }

    /// The columns of the previous table that the next table lacks.
    pub fn dropped_columns(&self) -> (r: Vec<ColumnId>)
        ensures
            r@ == self.spec_dropped_columns(),
    {
        unpaired_columns(&self.previous.columns, &self.next.columns)
    }

    /// The columns of the next table that the previous table lacks.
    pub fn added_columns(&self) -> (r: Vec<ColumnId>)
        ensures
            r@ == self.spec_added_columns(),
    {
        unpaired_columns(&self.next.columns, &self.previous.columns)
    }

    /// The foreign keys of the next table that match none of the previous table.
    pub fn created_foreign_keys(&self) -> (r: Vec<usize>)
        requires
            self.wf(),
        ensures
            r@ == unmatched_fks_upto(
                *self.flavour,
                *self.next,
                *self.previous,
                false,
                self.next.foreign_keys@.len() as int,
            ),
    {
        unmatched_foreign_keys(self.flavour, self.next, self.previous, false)
    }

    /// The foreign keys of the previous table that match none of the next table.
    pub fn dropped_foreign_keys(&self) -> (r: Vec<usize>)
        requires
            self.wf(),
        ensures
            r@ == unmatched_fks_upto(
                *self.flavour,
                *self.previous,
                *self.next,
                true,
                self.previous.foreign_keys@.len() as int,
            ),
    {
        unmatched_foreign_keys(self.flavour, self.previous, self.next, true)
    }

    /// Whether the previous primary key is gone or changed.
    pub fn dropped_primary_key(&self) -> (r: bool)
        requires
            self.wf(),
        ensures
            r == spec_dropped_primary_key(self.tables()),
    {
        match (&self.previous.primary_key, &self.next.primary_key) {
            (Some(p), Some(n)) => !same_key(self.previous, &p.columns, self.next, &n.columns),
            (Some(_), None) => true,
            _ => false,
        }
    }

    /// Whether the next primary key is new or changed.
    pub fn created_primary_key(&self) -> (r: bool)
        requires
            self.wf(),
        ensures
            r == spec_created_primary_key(self.tables()),
    {
        match (&self.previous.primary_key, &self.next.primary_key) {
            (Some(p), Some(n)) => !same_key(self.previous, &p.columns, self.next, &n.columns),
            (None, Some(_)) => true,
            _ => false,
        }
    }
}

/// What differs between two columns, and the castability of their type change.
pub fn all_changes(fl: &Flavour, a: &Column, b: &Column) -> (r: (ColumnChanges, Option<ColumnTypeChange>))
    ensures
        r.0 == spec_column_changes(*a, *b),
        r.1 == fl.spec_type_change(a.family, b.family),
{
    let changes = ColumnChanges {
        type_changed: !families_equal(&a.family, &b.family),
        arity_changed: a.arity != b.arity,
        default_changed: !opt_strings_equal(&a.default, &b.default),
        auto_increment_changed: a.auto_increment != b.auto_increment,
    };
    (changes, fl.column_type_change(&a.family, &b.family))
}

/// The position of the first column of `cols` named `name`.
pub fn find_column(name: &String, cols: &Vec<Column>) -> (r: Option<usize>)
    ensures
        r == (match first_column_from(name@, cols@, 0) {
            Some(j) => Some(j as usize),
            None => None,
        }),
        r is Some ==> r->0 < cols@.len(),
{
    let mut j: usize = 0;
    while j < cols.len()
        invariant
            0 <= j <= cols@.len(),
            first_column_from(name@, cols@, 0) == first_column_from(name@, cols@, j as int),
        decreases cols@.len() - j,
    {
        if name.eq(&cols[j].name) {
            return Some(j);
        }
        j += 1;
    }
    None
}

fn unpaired_columns(side: &Vec<Column>, other: &Vec<Column>) -> (r: Vec<ColumnId>)
    ensures
        r@ == unpaired_columns_upto(side@, other@, side@.len() as int),
{
    let mut r: Vec<ColumnId> = Vec::new();
    let mut i: usize = 0;
    while i < side.len()
        invariant
            0 <= i <= side@.len(),
            r@ == unpaired_columns_upto(side@, other@, i as int),
        decreases side@.len() - i,
    {
        if find_column(&side[i].name, other).is_none() {
            r.push(i);
        }
        i += 1;
    }
    r
}

pub fn same_key(pt: &Table, pk: &Vec<ColumnId>, nt: &Table, nk: &Vec<ColumnId>) -> (r: bool)
    requires
        crate::schema::ids_below(pk@, pt.columns@.len() as int),
        crate::schema::ids_below(nk@, nt.columns@.len() as int),
    ensures
        r == same_key_columns(*pt, pk@, *nt, nk@),
{
    if pk.len() != nk.len() {
        return false;
    }
    let mut k: usize = 0;
    while k < pk.len()
        invariant
            0 <= k <= pk@.len(),
            pk@.len() == nk@.len(),
            crate::schema::ids_below(pk@, pt.columns@.len() as int),
            crate::schema::ids_below(nk@, nt.columns@.len() as int),
            forall|m: int|
                0 <= m < k ==> (#[trigger] pt.columns@[pk@[m] as int]).name@
                    == nt.columns@[nk@[m] as int].name@,
        decreases pk@.len() - k,
    {
        if !pt.columns[pk[k]].name.eq(&nt.columns[nk[k]].name) {
            return false;
        }
        k += 1;
    }
    true
}

/// Whether two foreign keys are the same foreign key across the two schemas.
pub fn foreign_keys_match(fl: &Flavour, pt: &Table, pf: &ForeignKey, nt: &Table, nf: &ForeignKey) -> (r: bool)
    requires
        crate::schema::ids_below(pf.constrained_columns@, pt.columns@.len() as int),
        crate::schema::ids_below(nf.constrained_columns@, nt.columns@.len() as int),
    ensures
        r == spec_foreign_keys_match(*fl, *pt, *pf, *nt, *nf),
{
    if !fl.table_names_match(&pf.referenced_table, &nf.referenced_table) {
        return false;
    }
    if pf.referenced_columns.len() != nf.referenced_columns.len() {
        return false;
    }
    if pf.constrained_columns.len() != nf.constrained_columns.len() {
        return false;
    }
    let mut k: usize = 0;
    while k < pf.constrained_columns.len()
        invariant
            0 <= k <= pf.constrained_columns@.len(),
            pf.constrained_columns@.len() == nf.constrained_columns@.len(),
            crate::schema::ids_below(pf.constrained_columns@, pt.columns@.len() as int),
            crate::schema::ids_below(nf.constrained_columns@, nt.columns@.len() as int),
            forall|m: int| 0 <= m < k ==> #[trigger] constrained_columns_agree(*fl, *pt, *pf, *nt, *nf, m),
        decreases pf.constrained_columns@.len() - k,
    {
        let a = &pt.columns[pf.constrained_columns[k]];
        let b = &nt.columns[nf.constrained_columns[k]];
        let families_match = match (&a.family, &b.family) {
            (TypeFamily::Uuid, TypeFamily::String) => true,
            (TypeFamily::String, TypeFamily::Uuid) => true,
            _ => families_equal(&a.family, &b.family),
        };
        let arities_ok = fl.can_cope_with_foreign_key_column_becoming_nonnullable || a.arity == b.arity
            || (a.arity == ColumnArity::Required && b.arity == ColumnArity::Nullable);
        if !(a.name.eq(&b.name) && families_match && arities_ok) {
            assert(!constrained_columns_agree(*fl, *pt, *pf, *nt, *nf, k as int));
            return false;
        }
        k += 1;
    }
    let mut k: usize = 0;
    while k < pf.referenced_columns.len()
        invariant
            0 <= k <= pf.referenced_columns@.len(),
            pf.referenced_columns@.len() == nf.referenced_columns@.len(),
            forall|m: int| 0 <= m < k ==> (#[trigger] pf.referenced_columns@[m])@ == nf.referenced_columns@[m]@,
        decreases pf.referenced_columns@.len() - k,
    {
        if !pf.referenced_columns[k].eq(&nf.referenced_columns[k]) {
            return false;
        }
        k += 1;
    }
    if fl.referential_actions {
        pf.on_delete == nf.on_delete && pf.on_update == nf.on_update
    } else {
        true
    }
}

/// The foreign keys of `t` that no foreign key of `u` matches; `t_is_previous` says which side
/// `t` is on.
fn unmatched_foreign_keys(fl: &Flavour, t: &Table, u: &Table, t_is_previous: bool) -> (r: Vec<usize>)
    requires
        t.wf(),
        u.wf(),
    ensures
        r@ == unmatched_fks_upto(*fl, *t, *u, t_is_previous, t.foreign_keys@.len() as int),
{
    let mut r: Vec<usize> = Vec::new();
    let mut i: usize = 0;
    while i < t.foreign_keys.len()
        invariant
            0 <= i <= t.foreign_keys@.len(),
            t.wf(),
            u.wf(),
            r@ == unmatched_fks_upto(*fl, *t, *u, t_is_previous, i as int),
        decreases t.foreign_keys@.len() - i,
    {
        let mut found = false;
        let mut g: usize = 0;
        while g < u.foreign_keys.len()
            invariant
                0 <= i < t.foreign_keys@.len(),
                0 <= g <= u.foreign_keys@.len(),
                t.wf(),
                u.wf(),
                !found ==> forall|h: int|
                    0 <= h < g ==> !(if t_is_previous {
                        spec_foreign_keys_match(*fl, *t, t.foreign_keys@[i as int], *u, #[trigger] u.foreign_keys@[h])
                    } else {
                        spec_foreign_keys_match(*fl, *u, u.foreign_keys@[h], *t, t.foreign_keys@[i as int])
                    }),
                found ==> exists|h: int|
                    0 <= h < u.foreign_keys@.len() && if t_is_previous {
                        spec_foreign_keys_match(*fl, *t, t.foreign_keys@[i as int], *u, #[trigger] u.foreign_keys@[h])
                    } else {
                        spec_foreign_keys_match(*fl, *u, u.foreign_keys@[h], *t, t.foreign_keys@[i as int])
                    },
            decreases u.foreign_keys@.len() - g,
        {
            let m = if t_is_previous {
                foreign_keys_match(fl, t, &t.foreign_keys[i], u, &u.foreign_keys[g])
            } else {
                foreign_keys_match(fl, u, &u.foreign_keys[g], t, &t.foreign_keys[i])
            };
            if m {
                found = true;
            }
            g += 1;
        }
        if !found {
            r.push(i);
        }
        i += 1;
    }
    r
}

} // verus!

verus! {

/// Foreign key matching is symmetric under a flavour that tolerates a foreign key column becoming
/// non-nullable, whose arity policy is then symmetric: if the previous key matches the next one,
/// the next one, taken as previous, matches the previous one.
pub proof fn lemma_foreign_keys_match_symmetric(
    fl: Flavour,
    pt: Table,
    pf: ForeignKey,
    nt: Table,
    nf: ForeignKey,
)
    requires
        fl.can_cope_with_foreign_key_column_becoming_nonnullable,
        spec_foreign_keys_match(fl, pt, pf, nt, nf),
    ensures
        spec_foreign_keys_match(fl, nt, nf, pt, pf),
{
    assert forall|k: int| 0 <= k < nf.constrained_columns@.len() implies #[trigger] constrained_columns_agree(
        fl,
        nt,
        nf,
        pt,
        pf,
        k,
    ) by {
        assert(constrained_columns_agree(fl, pt, pf, nt, nf, k));
    }
    assert forall|k: int| 0 <= k < nf.referenced_columns@.len() implies (#[trigger] nf.referenced_columns@[k])@
        == pf.referenced_columns@[k]@ by {
        assert(pf.referenced_columns@[k]@ == nf.referenced_columns@[k]@);
    }
}

} // verus!

verus! {

/// The column pair that a column change is about.
pub open spec fn change_column_ids(c: TableChange) -> Pair<ColumnId> {
    match c {
        TableChange::AlterColumn(ac) => ac.column_id,
        TableChange::DropAndRecreateColumn { column_id, .. } => column_id,
        _ => Pair { previous: 0, next: 0 },
    }
}

/// The column pairs list previous columns in increasing order, each below `n`.
pub proof fn lemma_column_pairs_increasing(prev: Seq<Column>, next: Seq<Column>, n: int)
    requires
        n <= prev.len() <= usize::MAX,
    ensures
        forall|a: int, b: int|
            0 <= a < b < column_pairs_upto(prev, next, n).len() ==> (#[trigger] column_pairs_upto(
                prev,
                next,
                n,
            )[a]).previous < (#[trigger] column_pairs_upto(prev, next, n)[b]).previous,
        forall|a: int|
            0 <= a < column_pairs_upto(prev, next, n).len() ==> (#[trigger] column_pairs_upto(
                prev,
                next,
                n,
            )[a]).previous < n,
    decreases n,
{
    if n > 0 {
        lemma_column_pairs_increasing(prev, next, n - 1);
        let p = column_pairs_upto(prev, next, n - 1);
        match first_column_from(prev[n - 1].name@, next, 0) {
            Some(j) => {
                let q = p.push(Pair { previous: (n - 1) as usize, next: j as usize });
                assert(column_pairs_upto(prev, next, n) == q);
                assert forall|a: int, b: int| 0 <= a < b < q.len() implies (#[trigger] q[a]).previous < (
                #[trigger] q[b]).previous by {
                    if b < p.len() {
                        assert(q[a] == p[a] && q[b] == p[b]);
                    } else {
                        assert(q[a] == p[a]);
                    }
                }
                assert forall|a: int| 0 <= a < q.len() implies (#[trigger] q[a]).previous < n by {
                    if a < p.len() {
                        assert(q[a] == p[a]);
                    }
                }
            },
            None => {},
        }
    }
}

/// The change that column pair `j` of `pairs` contributes.
pub open spec fn alter_at(fl: Flavour, t: Pair<Table>, pairs: Seq<Pair<ColumnId>>, j: int) -> Option<TableChange> {
    spec_alter_column(fl, t.previous.columns@[pairs[j].previous as int], t.next.columns@[pairs[j].next as int], pairs[j])
}

/// Each alteration among the first `n` pairs comes from one of them, and names its column pair.
pub proof fn lemma_alters_origin(fl: Flavour, t: Pair<Table>, pairs: Seq<Pair<ColumnId>>, n: int)
    requires
        0 <= n <= pairs.len(),
    ensures
        forall|m: int|
            0 <= m < alter_columns_upto(fl, t, pairs, n).len() ==> exists|j: int|
                0 <= j < n && alter_at(fl, t, pairs, j) == Some(
                    #[trigger] alter_columns_upto(fl, t, pairs, n)[m],
                ) && change_column_ids(alter_columns_upto(fl, t, pairs, n)[m]) == pairs[j],
    decreases n,
{
    if n > 0 {
        lemma_alters_origin(fl, t, pairs, n - 1);
        let pre = alter_columns_upto(fl, t, pairs, n - 1);
        let cur = alter_columns_upto(fl, t, pairs, n);
        assert forall|m: int| 0 <= m < cur.len() implies exists|j: int|
            0 <= j < n && alter_at(fl, t, pairs, j) == Some(#[trigger] cur[m]) && change_column_ids(cur[m])
                == pairs[j] by {
            if m < pre.len() {
                assert(cur[m] == pre[m]);
            } else {
                assert(alter_at(fl, t, pairs, n - 1) == Some(cur[m]));
            }
        }
    }
}

/// The alterations follow the order of the previous columns of their pairs.
pub proof fn lemma_alters_ordered(fl: Flavour, t: Pair<Table>, pairs: Seq<Pair<ColumnId>>, n: int)
    requires
        0 <= n <= pairs.len(),
        forall|a: int, b: int|
            0 <= a < b < pairs.len() ==> (#[trigger] pairs[a]).previous < (#[trigger] pairs[b]).previous,
    ensures
        forall|m1: int, m2: int|
            0 <= m1 < m2 < alter_columns_upto(fl, t, pairs, n).len() ==> change_column_ids(
                #[trigger] alter_columns_upto(fl, t, pairs, n)[m1],
            ).previous < change_column_ids(#[trigger] alter_columns_upto(fl, t, pairs, n)[m2]).previous,
    decreases n,
{
    if n > 0 {
        lemma_alters_ordered(fl, t, pairs, n - 1);
        lemma_alters_origin(fl, t, pairs, n - 1);
        let pre = alter_columns_upto(fl, t, pairs, n - 1);
        let cur = alter_columns_upto(fl, t, pairs, n);
        assert forall|m1: int, m2: int| 0 <= m1 < m2 < cur.len() implies change_column_ids(
            #[trigger] cur[m1],
        ).previous < change_column_ids(#[trigger] cur[m2]).previous by {
            assert(cur[m1] == pre[m1]);
            if m2 >= pre.len() {
                let j = choose|j: int|
                    0 <= j < n - 1 && alter_at(fl, t, pairs, j) == Some(#[trigger] pre[m1])
                        && change_column_ids(pre[m1]) == pairs[j];
                assert(alter_at(fl, t, pairs, n - 1) == Some(cur[m2]));
                assert(pairs[j].previous < pairs[n - 1].previous);
            } else {
                assert(cur[m2] == pre[m2]);
            }
        }
    }
}

/// Every pair among the first `n` that contributes a change has it among the alterations.
pub proof fn lemma_alters_complete(fl: Flavour, t: Pair<Table>, pairs: Seq<Pair<ColumnId>>, n: int, j: int)
    requires
        0 <= j < n <= pairs.len(),
        alter_at(fl, t, pairs, j) is Some,
    ensures
        exists|m: int|
            0 <= m < alter_columns_upto(fl, t, pairs, n).len() && #[trigger] alter_columns_upto(
                fl,
                t,
                pairs,
                n,
            )[m] == alter_at(fl, t, pairs, j)->0,
    decreases n,
{
    let pre = alter_columns_upto(fl, t, pairs, n - 1);
    let cur = alter_columns_upto(fl, t, pairs, n);
    if j < n - 1 {
        lemma_alters_complete(fl, t, pairs, n - 1, j);
        let m = choose|m: int| 0 <= m < pre.len() && #[trigger] pre[m] == alter_at(fl, t, pairs, j)->0;
        assert(cur[m] == pre[m]);
    } else {
        assert(cur[pre.len() as int] == alter_at(fl, t, pairs, j)->0);
    }
}

/// A column pair that does not differ gets no `AlterColumn` and no `DropAndRecreateColumn`.
pub proof fn lemma_unchanged_column_not_altered(td: TableDiffer, k: int)
    requires
        0 <= k < td.spec_column_pairs().len(),
        td.previous.columns@.len() <= usize::MAX,
        !spec_column_changes(
            td.previous.columns@[td.spec_column_pairs()[k].previous as int],
            td.next.columns@[td.spec_column_pairs()[k].next as int],
        ).spec_differs(),
    ensures
        forall|m: int|
            0 <= m < td.spec_alter_columns().len() ==> change_column_ids(
                #[trigger] td.spec_alter_columns()[m],
            ) != td.spec_column_pairs()[k],
{
    let pairs = td.spec_column_pairs();
    let t = td.tables();
    let fl = *td.flavour;
    lemma_column_pairs_increasing(td.previous.columns@, td.next.columns@, td.previous.columns@.len() as int);
    lemma_alters_origin(fl, t, pairs, pairs.len() as int);
    assert(alter_at(fl, t, pairs, k) is None);
    assert forall|m: int| 0 <= m < td.spec_alter_columns().len() implies change_column_ids(
        #[trigger] td.spec_alter_columns()[m],
    ) != pairs[k] by {
        let c = td.spec_alter_columns()[m];
        let j = choose|j: int| 0 <= j < pairs.len() && alter_at(fl, t, pairs, j) == Some(c) && change_column_ids(c) == pairs[j];
        if j < k {
            assert(pairs[j].previous < pairs[k].previous);
        } else if k < j {
            assert(pairs[k].previous < pairs[j].previous);
        }
    }
}

/// A column pair whose type change cannot be cast gets exactly one change, a
/// `DropAndRecreateColumn`, and no `AlterColumn`.
pub proof fn lemma_not_castable_recreated_once(td: TableDiffer, k: int)
    requires
        0 <= k < td.spec_column_pairs().len(),
        td.previous.columns@.len() <= usize::MAX,
        td.flavour.spec_type_change(
            td.previous.columns@[td.spec_column_pairs()[k].previous as int].family,
            td.next.columns@[td.spec_column_pairs()[k].next as int].family,
        ) == Some(ColumnTypeChange::NotCastable),
    ensures
        exists|m: int|
            0 <= m < td.spec_alter_columns().len() && (#[trigger] td.spec_alter_columns()[m])
                == (TableChange::DropAndRecreateColumn {
                column_id: td.spec_column_pairs()[k],
                changes: spec_column_changes(
                    td.previous.columns@[td.spec_column_pairs()[k].previous as int],
                    td.next.columns@[td.spec_column_pairs()[k].next as int],
                ),
            }),
        forall|m1: int, m2: int|
            0 <= m1 < td.spec_alter_columns().len() && 0 <= m2 < td.spec_alter_columns().len()
                && change_column_ids(#[trigger] td.spec_alter_columns()[m1]) == td.spec_column_pairs()[k]
                && change_column_ids(#[trigger] td.spec_alter_columns()[m2]) == td.spec_column_pairs()[k]
                ==> m1 == m2,
{
    let pairs = td.spec_column_pairs();
    let alters = td.spec_alter_columns();
    let t = td.tables();
    let fl = *td.flavour;
    lemma_column_pairs_increasing(td.previous.columns@, td.next.columns@, td.previous.columns@.len() as int);
    lemma_alters_ordered(fl, t, pairs, pairs.len() as int);
    let a = td.previous.columns@[pairs[k].previous as int];
    let b = td.next.columns@[pairs[k].next as int];
    assert(!same_family(a.family, b.family));
    assert(alter_at(fl, t, pairs, k) is Some);
    lemma_alters_complete(fl, t, pairs, pairs.len() as int, k);
    assert forall|m1: int, m2: int|
        0 <= m1 < alters.len() && 0 <= m2 < alters.len() && change_column_ids(#[trigger] alters[m1])
            == pairs[k] && change_column_ids(#[trigger] alters[m2]) == pairs[k] implies m1 == m2 by {
        if m1 < m2 {
            assert(change_column_ids(alters[m1]).previous < change_column_ids(alters[m2]).previous);
        } else if m2 < m1 {
            assert(change_column_ids(alters[m2]).previous < change_column_ids(alters[m1]).previous);
        }
    }
}

/// No two columns of `cols` share a name.
pub open spec fn distinct_column_names(cols: Seq<Column>) -> bool {
    forall|i: int, j: int| 0 <= i < j < cols.len() ==> (#[trigger] cols[i]).name@ != (#[trigger] cols[j]).name@
}

proof fn lemma_first_column_is(name: Seq<char>, cols: Seq<Column>, k: int, j: int)
    requires
        distinct_column_names(cols),
        0 <= k <= j < cols.len(),
        cols[j].name@ == name,
    ensures
        first_column_from(name, cols, k) == Some(j as nat),
    decreases j - k,
{
    if k < j {
        lemma_first_column_is(name, cols, k + 1, j);
    }
}

proof fn lemma_column_pairs_self(cols: Seq<Column>, n: int)
    requires
        distinct_column_names(cols),
        0 <= n <= cols.len() <= usize::MAX,
    ensures
        column_pairs_upto(cols, cols, n) == Seq::new(n as nat, |k: int| Pair { previous: k as usize, next: k as usize }),
        unpaired_columns_upto(cols, cols, n) == Seq::<ColumnId>::empty(),
    decreases n,
{
    if n > 0 {
        lemma_column_pairs_self(cols, n - 1);
        lemma_first_column_is(cols[n - 1].name@, cols, 0, n - 1);
        assert(column_pairs_upto(cols, cols, n) =~= Seq::new(
            n as nat,
            |k: int| Pair { previous: k as usize, next: k as usize },
        ));
    }
}

proof fn lemma_alters_self(fl: Flavour, t: Table, pairs: Seq<Pair<ColumnId>>, n: int)
    requires
        0 <= n <= pairs.len(),
        forall|k: int| 0 <= k < pairs.len() ==> (#[trigger] pairs[k]).previous == pairs[k].next && pairs[k].previous < t.columns@.len(),
    ensures
        alter_columns_upto(fl, Pair { previous: t, next: t }, pairs, n) == Seq::<TableChange>::empty(),
    decreases n,
{
    if n > 0 {
        lemma_alters_self(fl, t, pairs, n - 1);
        let c = t.columns@[pairs[n - 1].previous as int];
        assert(!spec_column_changes(c, c).spec_differs());
    }
}

/// A foreign key matches itself.
pub proof fn lemma_foreign_key_matches_itself(fl: Flavour, t: Table, f: ForeignKey)
    ensures
        spec_foreign_keys_match(fl, t, f, t, f),
{
    assert forall|k: int| 0 <= k < f.constrained_columns@.len() implies #[trigger] constrained_columns_agree(fl, t, f, t, f, k) by {
        let c = t.columns@[f.constrained_columns@[k] as int];
        assert(same_family(c.family, c.family));
    }
}

proof fn lemma_no_unmatched_fks_self(fl: Flavour, t: Table, t_is_previous: bool, n: int)
    requires
        0 <= n <= t.foreign_keys@.len(),
    ensures
        unmatched_fks_upto(fl, t, t, t_is_previous, n) == Seq::<usize>::empty(),
    decreases n,
{
    if n > 0 {
        lemma_no_unmatched_fks_self(fl, t, t_is_previous, n - 1);
        lemma_foreign_key_matches_itself(fl, t, t.foreign_keys@[n - 1]);
        assert(if t_is_previous {
            spec_foreign_keys_match(fl, t, t.foreign_keys@[n - 1], t, t.foreign_keys@[n - 1])
        } else {
            spec_foreign_keys_match(fl, t, t.foreign_keys@[n - 1], t, t.foreign_keys@[n - 1])
        });
    }
}

/// A table compared with itself, with distinct column names, has no column pair that changes,
/// no dropped or added column, and no created or dropped foreign key.
pub proof fn lemma_same_table_unchanged(td: TableDiffer)
    requires
        *td.previous == *td.next,
        distinct_column_names(td.previous.columns@),
        td.previous.columns@.len() <= usize::MAX,
    ensures
        td.spec_column_pairs() == Seq::new(
            td.previous.columns@.len(),
            |k: int| Pair { previous: k as usize, next: k as usize },
        ),
        td.spec_dropped_columns().len() == 0,
        td.spec_added_columns().len() == 0,
        td.spec_alter_columns().len() == 0,
        !spec_dropped_primary_key(td.tables()),
        !spec_created_primary_key(td.tables()),
        unmatched_fks_upto(*td.flavour, *td.next, *td.previous, false, td.next.foreign_keys@.len() as int).len() == 0,
        unmatched_fks_upto(*td.flavour, *td.previous, *td.next, true, td.previous.foreign_keys@.len() as int).len() == 0,
{
    let t = *td.previous;
    let n = t.columns@.len() as int;
    lemma_column_pairs_self(t.columns@, n);
    let pairs = td.spec_column_pairs();
    lemma_alters_self(*td.flavour, t, pairs, pairs.len() as int);
    assert(td.tables() == Pair { previous: t, next: t });
    lemma_no_unmatched_fks_self(*td.flavour, t, false, t.foreign_keys@.len() as int);
    lemma_no_unmatched_fks_self(*td.flavour, t, true, t.foreign_keys@.len() as int);
    match t.primary_key {
        Some(pk) => {
            assert(same_key_columns(t, pk.columns@, t, pk.columns@));
        },
        None => {},
    }
}

proof fn lemma_first_column_matches(name: Seq<char>, cols: Seq<Column>, k: int)
    requires
        0 <= k,
        first_column_from(name, cols, k) is Some,
    ensures
        first_column_from(name, cols, k)->0 < cols.len(),
        cols[first_column_from(name, cols, k)->0 as int].name@ == name,
    decreases cols.len() - k,
{
    if k < cols.len() && cols[k].name@ != name {
        lemma_first_column_matches(name, cols, k + 1);
    }
}

/// Each column pair joins columns of one name, and, where the previous names are distinct, no
/// next column is in two pairs.
pub proof fn lemma_column_pairs_distinct_next(prev: Seq<Column>, next: Seq<Column>, n: int)
    requires
        distinct_column_names(prev),
        0 <= n <= prev.len() <= usize::MAX,
        next.len() <= usize::MAX,
    ensures
        forall|k: int|
            0 <= k < column_pairs_upto(prev, next, n).len() ==> (#[trigger] column_pairs_upto(prev, next, n)[k]).next
                < next.len() && (column_pairs_upto(prev, next, n)[k]).previous < n && next[column_pairs_upto(
                prev,
                next,
                n,
            )[k].next as int].name@ == prev[column_pairs_upto(prev, next, n)[k].previous as int].name@,
        forall|k1: int, k2: int|
            0 <= k1 < k2 < column_pairs_upto(prev, next, n).len() ==> (#[trigger] column_pairs_upto(
                prev,
                next,
                n,
            )[k1]).next != (#[trigger] column_pairs_upto(prev, next, n)[k2]).next,
    decreases n,
{
    if n > 0 {
        lemma_column_pairs_distinct_next(prev, next, n - 1);
        let pre = column_pairs_upto(prev, next, n - 1);
        let cur = column_pairs_upto(prev, next, n);
        match first_column_from(prev[n - 1].name@, next, 0) {
            Some(j) => {
                lemma_first_column_matches(prev[n - 1].name@, next, 0);
                assert(cur == pre.push(Pair { previous: (n - 1) as usize, next: j as usize }));
                assert forall|k: int| 0 <= k < cur.len() implies (#[trigger] cur[k]).next < next.len()
                    && cur[k].previous < n && next[cur[k].next as int].name@ == prev[cur[k].previous as int].name@ by {
                    if k < pre.len() {
                        assert(cur[k] == pre[k]);
                    }
                }
                assert forall|k1: int, k2: int| 0 <= k1 < k2 < cur.len() implies (#[trigger] cur[k1]).next
                    != (#[trigger] cur[k2]).next by {
                    assert(cur[k1] == pre[k1]);
                    if k2 < pre.len() {
                        assert(cur[k2] == pre[k2]);
                    } else {
                        let i = pre[k1].previous as int;
                        assert(i < n - 1);
                        assert(prev[i].name@ != prev[n - 1].name@);
                    }
                }
            },
            None => {},
        }
    }
}

} // verus!
