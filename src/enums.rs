use vstd::prelude::*;

use crate::differ::{differ_of, SqlSchemaDiffer};
use crate::flavour::Flavour;
use crate::schema::{Column, ColumnId, EnumType, TableId, TypeFamily};
use crate::steps::{AlterEnum, ColumnRef, EnumDefaultUsage, Pair, SqlMigrationStep};
use crate::table::TableDiffer;

verus! {

/// The first enum at or after `j` named `name`.
pub open spec fn first_enum_from(name: Seq<char>, enums: Seq<EnumType>, j: int) -> Option<nat>
    decreases enums.len() - j,
{
    if j < 0 || j >= enums.len() {
        None
    } else if enums[j].name@ == name {
        Some(j as nat)
    } else {
        first_enum_from(name, enums, j + 1)
    }
}

/// Each of the first `n` previous enums with the first next enum of the same name.
pub open spec fn enum_pairs_upto(prev: Seq<EnumType>, next: Seq<EnumType>, n: int) -> Seq<Pair<usize>>
    decreases n,
{
    if n <= 0 {
        Seq::empty()
    } else {
        let p = enum_pairs_upto(prev, next, n - 1);
        match first_enum_from(prev[n - 1].name@, next, 0) {
            Some(j) => p.push(Pair { previous: (n - 1) as usize, next: j as usize }),
            None => p,
        }
    }
}

/// The first `n` enums of `side` that no enum of `other` shares a name with.
pub open spec fn unmatched_enums_upto(side: Seq<EnumType>, other: Seq<EnumType>, n: int) -> Seq<usize>
    decreases n,
{
    if n <= 0 {
        Seq::empty()
    } else {
        let p = unmatched_enums_upto(side, other, n - 1);
        if first_enum_from(side[n - 1].name@, other, 0) is None {
            p.push((n - 1) as usize)
        } else {
            p
        }
    }
}

pub open spec fn values_of(v: Seq<String>) -> Seq<Seq<char>> {
    v.map_values(|s: String| s@)
}

/// The values of `a` that `b` lacks, in their order.
pub open spec fn values_missing_from(a: Seq<Seq<char>>, b: Seq<Seq<char>>) -> Seq<Seq<char>> {
    a.filter(|x: Seq<char>| !b.contains(x))
}

/// The values that the next enum of pair `p` adds, in order.
pub open spec fn spec_created_variants(d: SqlSchemaDiffer, p: Pair<usize>) -> Seq<Seq<char>> {
    values_missing_from(
        values_of(d.next.enums@[p.next as int].values@),
        values_of(d.previous.enums@[p.previous as int].values@),
    )
}

/// The values that the next enum of pair `p` drops, in order.
pub open spec fn spec_dropped_variants(d: SqlSchemaDiffer, p: Pair<usize>) -> Seq<Seq<char>> {
    values_missing_from(
        values_of(d.previous.enums@[p.previous as int].values@),
        values_of(d.next.enums@[p.next as int].values@),
    )
}

/// The enum pairs among the first `n` whose values differ.
pub open spec fn altered_enum_pairs_upto(prev: Seq<EnumType>, next: Seq<EnumType>, pairs: Seq<Pair<usize>>, n: int) -> Seq<Pair<usize>>
    decreases n,
{
    if n <= 0 {
        Seq::empty()
    } else {
        let pre = altered_enum_pairs_upto(prev, next, pairs, n - 1);
        let p = pairs[n - 1];
        if values_of(prev[p.previous as int].values@) != values_of(next[p.next as int].values@) {
            pre.push(p)
        } else {
            pre
        }
    }
}

/// The column uses the enum named `name` and has a default.
pub open spec fn uses_enum_as_default(c: Column, name: Seq<char>) -> bool {
    &&& c.family is Enum
    &&& c.family->Enum_0@ == name
    &&& c.default is Some
}

/// The uses, among columns `ids` of table `t`, of enum `name` as a default, none kept.
pub open spec fn dropped_usages(cols: Seq<Column>, t: TableId, ids: Seq<ColumnId>, name: Seq<char>) -> Seq<EnumDefaultUsage>
    decreases ids.len(),
{
    if ids.len() == 0 {
        Seq::empty()
    } else {
        let pre = dropped_usages(cols, t, ids.drop_last(), name);
        if uses_enum_as_default(cols[ids.last() as int], name) {
            pre.push(
                EnumDefaultUsage {
                    previous: ColumnRef { table_id: t, column_id: ids.last() },
                    next: None,
                },
            )
        } else {
            pre
        }
    }
}

/// The uses of enum `names.previous` as a default among the column pairs `cps` of a table
/// pair, each with its counterpart where the next column uses enum `names.next` as a default.
pub open spec fn paired_usages(td: TableDiffer, p: Pair<TableId>, cps: Seq<Pair<ColumnId>>, names: Pair<Seq<char>>) -> Seq<EnumDefaultUsage>
    decreases cps.len(),
{
    if cps.len() == 0 {
        Seq::empty()
    } else {
        let pre = paired_usages(td, p, cps.drop_last(), names);
        let ids = cps.last();
        if uses_enum_as_default(td.previous.columns@[ids.previous as int], names.previous) {
            pre.push(
                EnumDefaultUsage {
                    previous: ColumnRef { table_id: p.previous, column_id: ids.previous },
                    next: if uses_enum_as_default(td.next.columns@[ids.next as int], names.next) {
                        Some(ColumnRef { table_id: p.next, column_id: ids.next })
                    } else {
                        None
                    },
                },
            )
        } else {
            pre
        }
    }
}

/// The uses as a default in the dropped tables `ids`.
pub open spec fn dropped_tables_usages(d: SqlSchemaDiffer, ids: Seq<TableId>, name: Seq<char>) -> Seq<EnumDefaultUsage>
    decreases ids.len(),
{
    if ids.len() == 0 {
        Seq::empty()
    } else {
        let t = ids.last();
        let cols = d.previous.tables@[t as int].columns@;
        dropped_tables_usages(d, ids.drop_last(), name) + dropped_usages(
            cols,
            t,
            Seq::new(cols.len(), |c: int| c as usize),
            name,
        )
    }
}

/// The uses as a default in the table pairs `pairs`: in their dropped columns, then in their
/// column pairs.
pub open spec fn pairs_usages(d: SqlSchemaDiffer, pairs: Seq<Pair<TableId>>, names: Pair<Seq<char>>) -> Seq<EnumDefaultUsage>
    decreases pairs.len(),
{
    if pairs.len() == 0 {
        Seq::empty()
    } else {
        let p = pairs.last();
        let td = differ_of(d, p);
        pairs_usages(d, pairs.drop_last(), names) + dropped_usages(
            td.previous.columns@,
            p.previous,
            td.spec_dropped_columns(),
            names.previous,
        ) + paired_usages(td, p, td.spec_column_pairs(), names)
    }
}

/// Every previous use of the enum pair `index` as a column default, with its next counterpart.
pub open spec fn spec_enum_usages(d: SqlSchemaDiffer, index: Pair<usize>) -> Seq<EnumDefaultUsage> {
    let names = Pair {
        previous: d.previous.enums@[index.previous as int].name@,
        next: d.next.enums@[index.next as int].name@,
    };
    dropped_tables_usages(d, d.spec_dropped_tables(), names.previous) + pairs_usages(
        d,
        d.spec_table_pairs(),
        names,
    )
}

/// The enum pair's indexes are positions of the two schemas.
pub open spec fn enum_pair_valid(d: SqlSchemaDiffer, index: Pair<usize>) -> bool {
    index.previous < d.previous.enums@.len() && index.next < d.next.enums@.len()
}

impl<'a> SqlSchemaDiffer<'a> {
    pub open spec fn spec_enum_pairs(&self) -> Seq<Pair<usize>> {
        enum_pairs_upto(self.previous.enums@, self.next.enums@, self.previous.enums@.len() as int)
    }

    /// Each previous enum with the first next enum of the same name.
    pub fn enum_pairs(&self) -> (r: Vec<Pair<usize>>)
        ensures
            r@ == self.spec_enum_pairs(),
            forall|k: int| 0 <= k < r@.len() ==> enum_pair_valid(*self, #[trigger] r@[k]),
    {
        let mut r: Vec<Pair<usize>> = Vec::new();
        let mut i: usize = 0;
        while i < self.previous.enums.len()
            invariant
                0 <= i <= self.previous.enums@.len(),
                r@ == enum_pairs_upto(self.previous.enums@, self.next.enums@, i as int),
                forall|k: int|
                    0 <= k < r@.len() ==> (#[trigger] r@[k]).previous < i && r@[k].next
                        < self.next.enums@.len(),
            decreases self.previous.enums@.len() - i,
        {
            match find_enum(&self.previous.enums[i].name, &self.next.enums) {
                Some(j) => r.push(Pair { previous: i, next: j }),
                None => {},
            }
            i += 1;
        }
        r
    }

    /// The next enums whose name no previous enum has.
    pub fn created_enums(&self) -> (r: Vec<usize>)
        ensures
            r@ == unmatched_enums_upto(self.next.enums@, self.previous.enums@, self.next.enums@.len() as int),
    {
        unmatched_enums(&self.next.enums, &self.previous.enums)
    }

    /// The previous enums whose name no next enum has.
    pub fn dropped_enums(&self) -> (r: Vec<usize>)
        ensures
            r@ == unmatched_enums_upto(self.previous.enums@, self.next.enums@, self.previous.enums@.len() as int),
    {
        unmatched_enums(&self.previous.enums, &self.next.enums)
    }
}

/// The position of the first enum of `enums` named `name`.
pub fn find_enum(name: &String, enums: &Vec<EnumType>) -> (r: Option<usize>)
    ensures
        r == (match first_enum_from(name@, enums@, 0) {
            Some(j) => Some(j as usize),
            None => None,
        }),
        r is Some ==> r->0 < enums@.len(),
{
    let mut j: usize = 0;
    while j < enums.len()
        invariant
            0 <= j <= enums@.len(),
            first_enum_from(name@, enums@, 0) == first_enum_from(name@, enums@, j as int),
        decreases enums@.len() - j,
    {
        if name.eq(&enums[j].name) {
            return Some(j);
        }
        j += 1;
    }
    None
}

fn unmatched_enums(side: &Vec<EnumType>, other: &Vec<EnumType>) -> (r: Vec<usize>)
    ensures
        r@ == unmatched_enums_upto(side@, other@, side@.len() as int),
{
    let mut r: Vec<usize> = Vec::new();
    let mut i: usize = 0;
    while i < side.len()
        invariant
            0 <= i <= side@.len(),
            r@ == unmatched_enums_upto(side@, other@, i as int),
        decreases side@.len() - i,
    {
        if find_enum(&side[i].name, other).is_none() {
            r.push(i);
        }
        i += 1;
    }
    r
}

/// Whether `v` holds a string equal to `s`.
fn contains_string(v: &Vec<String>, s: &String) -> (r: bool)
    ensures
        r == values_of(v@).contains(s@),
{
    let mut k: usize = 0;
    while k < v.len()
        invariant
            0 <= k <= v@.len(),
            forall|m: int| 0 <= m < k ==> (#[trigger] v@[m])@ != s@,
        decreases v@.len() - k,
    {
        if v[k].eq(s) {
            assert(values_of(v@)[k as int] == s@);
            return true;
        }
        k += 1;
    }
    assert forall|m: int| 0 <= m < values_of(v@).len() implies values_of(v@)[m] != s@ by {
        assert(values_of(v@)[m] == v@[m]@);
    }
    false
}

/// The strings of `a` that `b` lacks, in their order.
fn strings_missing_from(a: &Vec<String>, b: &Vec<String>) -> (r: Vec<String>)
    ensures
        values_of(r@) == values_missing_from(values_of(a@), values_of(b@)),
{
    let mut r: Vec<String> = Vec::new();
    let mut k: usize = 0;
    while k < a.len()
        invariant
            0 <= k <= a@.len(),
            values_of(r@) == values_missing_from(values_of(a@).subrange(0, k as int), values_of(b@)),
        decreases a@.len() - k,
    {
        let ghost sub = values_of(a@).subrange(0, k as int);
        assert(values_of(a@).subrange(0, k + 1) =~= sub.push(a@[k as int]@));
        assert(sub.push(a@[k as int]@).drop_last() =~= sub);
        reveal(Seq::filter);
        let ghost old_r = r@;
        if !contains_string(b, &a[k]) {
            r.push(a[k].clone());
            assert(values_of(r@) =~= values_of(old_r).push(a@[k as int]@));
        } else {
            assert(values_of(r@) =~= values_of(old_r));
        }
        k += 1;
    }
    assert(values_of(a@).subrange(0, a@.len() as int) =~= values_of(a@));
    r
}

/// Whether two lists of strings hold the same texts in the same order.
fn same_values(a: &Vec<String>, b: &Vec<String>) -> (r: bool)
    ensures
        r == (values_of(a@) == values_of(b@)),
{
    if a.len() != b.len() {
        assert(values_of(a@).len() != values_of(b@).len());
        return false;
    }
    let mut k: usize = 0;
    while k < a.len()
        invariant
            0 <= k <= a@.len(),
            a@.len() == b@.len(),
            forall|m: int| 0 <= m < k ==> (#[trigger] a@[m])@ == b@[m]@,
        decreases a@.len() - k,
    {
        if !a[k].eq(&b[k]) {
            assert(values_of(a@)[k as int] != values_of(b@)[k as int]);
            return false;
        }
        k += 1;
    }
    assert(values_of(a@) =~= values_of(b@));
    true
}

/// Whether the column uses the enum named `name` and has a default.
fn column_uses_enum_as_default(c: &Column, name: &String) -> (r: bool)
    ensures
        r == uses_enum_as_default(*c, name@),
{
    match &c.family {
        TypeFamily::Enum(n) => n.eq(name) && c.default.is_some(),
        _ => false,
    }
}

/// Appends the uses of enum `name` as a default among the columns `ids` of table `t`.
fn push_dropped_usages(
    cols: &Vec<Column>,
    t: TableId,
    ids: &Vec<ColumnId>,
    name: &String,
    out: &mut Vec<EnumDefaultUsage>,
)
    requires
        forall|k: int| 0 <= k < ids@.len() ==> #[trigger] ids@[k] < cols@.len(),
    ensures
        final(out)@ == old(out)@ + dropped_usages(cols@, t, ids@, name@),
{
    let ghost start = out@;
    let mut k: usize = 0;
    while k < ids.len()
        invariant
            0 <= k <= ids@.len(),
            forall|m: int| 0 <= m < ids@.len() ==> #[trigger] ids@[m] < cols@.len(),
            out@ == start + dropped_usages(cols@, t, ids@.subrange(0, k as int), name@),
        decreases ids@.len() - k,
    {
        assert(ids@.subrange(0, k + 1).drop_last() =~= ids@.subrange(0, k as int));
        let c = ids[k];
        if column_uses_enum_as_default(&cols[c], name) {
            out.push(EnumDefaultUsage { previous: ColumnRef { table_id: t, column_id: c }, next: None });
        }
        k += 1;
    }
    assert(ids@.subrange(0, ids@.len() as int) =~= ids@);
}

/// Every previous use of the enum pair `index` as a column default: in dropped tables, in dropped
/// columns, and in column pairs, these with their next counterpart.
pub fn enum_usages(d: &SqlSchemaDiffer, index: Pair<usize>) -> (r: Vec<EnumDefaultUsage>)
    requires
        d.wf(),
        enum_pair_valid(*d, index),
    ensures
        r@ == spec_enum_usages(*d, index),
{
    let prev_name = &d.previous.enums[index.previous].name;
    let next_name = &d.next.enums[index.next].name;
    let ghost names = Pair { previous: prev_name@, next: next_name@ };
    let mut out: Vec<EnumDefaultUsage> = Vec::new();
    let dropped = d.dropped_tables();
    let _ = d.previous.tables.len();
    proof {
        crate::differ::lemma_unmatched_below(*d.flavour, d.previous.tables@, d.next.tables@, d.previous.tables@.len() as int);
    }
    let mut k: usize = 0;
    while k < dropped.len()
        invariant
            0 <= k <= dropped@.len(),
            dropped@ == d.spec_dropped_tables(),
            forall|m: int| 0 <= m < dropped@.len() ==> #[trigger] dropped@[m] < d.previous.tables@.len(),
            out@ == dropped_tables_usages(*d, dropped@.subrange(0, k as int), prev_name@),
        decreases dropped@.len() - k,
    {
        let t = dropped[k];
        assert(dropped@.subrange(0, k + 1).drop_last() =~= dropped@.subrange(0, k as int));
        let cols = &d.previous.tables[t].columns;
        let mut all: Vec<ColumnId> = Vec::new();
        let mut c: usize = 0;
        while c < cols.len()
            invariant
                0 <= c <= cols@.len(),
                all@ == Seq::new(c as nat, |i: int| i as usize),
            decreases cols@.len() - c,
        {
            all.push(c);
            c += 1;
            assert(all@ =~= Seq::new(c as nat, |i: int| i as usize));
        }
        push_dropped_usages(cols, t, &all, prev_name, &mut out);
        k += 1;
    }
    assert(dropped@.subrange(0, dropped@.len() as int) =~= dropped@);
    let ghost mid = out@;
    let pairs = d.table_pairs();
    let mut k: usize = 0;
    while k < pairs.len()
        invariant
            0 <= k <= pairs@.len(),
            d.wf(),
            pairs@ == d.spec_table_pairs(),
            forall|m: int|
                0 <= m < pairs@.len() ==> (#[trigger] pairs@[m]).previous < d.previous.tables@.len()
                    && pairs@[m].next < d.next.tables@.len(),
            names == (Pair { previous: prev_name@, next: next_name@ }),
            out@ == mid + pairs_usages(*d, pairs@.subrange(0, k as int), names),
        decreases pairs@.len() - k,
    {
        let p = pairs[k];
        assert(pairs@.subrange(0, k + 1).drop_last() =~= pairs@.subrange(0, k as int));
        let td = TableDiffer {
            flavour: d.flavour,
            previous: &d.previous.tables[p.previous],
            next: &d.next.tables[p.next],
        };
        assert(td == differ_of(*d, p));
        let dropped_cols = td.dropped_columns();
        let _ = td.previous.columns.len();
        proof {
            lemma_unpaired_below(td.previous.columns@, td.next.columns@, td.previous.columns@.len() as int);
        }
        let ghost before = out@;
        push_dropped_usages(&td.previous.columns, p.previous, &dropped_cols, prev_name, &mut out);
        let ghost between = out@;
        let cps = td.column_pairs();
        let mut j: usize = 0;
        while j < cps.len()
            invariant
                0 <= j <= cps@.len(),
                cps@ == td.spec_column_pairs(),
                forall|m: int|
                    0 <= m < cps@.len() ==> (#[trigger] cps@[m]).previous < td.previous.columns@.len()
                        && cps@[m].next < td.next.columns@.len(),
                names == (Pair { previous: prev_name@, next: next_name@ }),
                out@ == between + paired_usages(td, p, cps@.subrange(0, j as int), names),
            decreases cps@.len() - j,
        {
            let ids = cps[j];
            assert(cps@.subrange(0, j + 1).drop_last() =~= cps@.subrange(0, j as int));
            if column_uses_enum_as_default(&td.previous.columns[ids.previous], prev_name) {
                let next = if column_uses_enum_as_default(&td.next.columns[ids.next], next_name) {
                    Some(ColumnRef { table_id: p.next, column_id: ids.next })
                } else {
                    None
                };
                out.push(EnumDefaultUsage {
                    previous: ColumnRef { table_id: p.previous, column_id: ids.previous },
                    next,
                });
            }
            j += 1;
        }
        assert(cps@.subrange(0, cps@.len() as int) =~= cps@);
        assert(out@ =~= mid + pairs_usages(*d, pairs@.subrange(0, k + 1), names));
        k += 1;
    }
    assert(pairs@.subrange(0, pairs@.len() as int) =~= pairs@);
    out
}

/// Every column that `unpaired_columns_upto` lists is a position of `side`.
pub proof fn lemma_unpaired_below(side: Seq<Column>, other: Seq<Column>, n: int)
    requires
        n <= side.len(),
        side.len() <= usize::MAX,
    ensures
        forall|m: int|
            0 <= m < crate::table::unpaired_columns_upto(side, other, n).len()
                ==> #[trigger] crate::table::unpaired_columns_upto(side, other, n)[m] < n,
    decreases n,
{
    if n > 0 {
        lemma_unpaired_below(side, other, n - 1);
        let p = crate::table::unpaired_columns_upto(side, other, n - 1);
        if crate::table::first_column_from(side[n - 1].name@, other, 0) is None {
            assert(crate::table::unpaired_columns_upto(side, other, n) == p.push((n - 1) as usize));
            assert(p.push((n - 1) as usize)[p.len() as int] == (n - 1) as usize);
        }
    }
}

/// Fills in each `AlterEnum` the previous uses of its enum as a column default, each with its
/// next counterpart.
pub fn push_previous_usages_as_defaults_in_altered_enums(d: &SqlSchemaDiffer, alter_enums: &mut Vec<AlterEnum>)
    requires
        d.wf(),
        forall|i: int| 0 <= i < old(alter_enums)@.len() ==> enum_pair_valid(*d, #[trigger] old(alter_enums)@[i].index),
    ensures
        final(alter_enums)@.len() == old(alter_enums)@.len(),
        forall|i: int|
            0 <= i < final(alter_enums)@.len() ==> {
                let a = #[trigger] final(alter_enums)@[i];
                let o = old(alter_enums)@[i];
                &&& a.index == o.index
                &&& a.created_variants == o.created_variants
                &&& a.dropped_variants == o.dropped_variants
                &&& a.previous_usages_as_default@ == spec_enum_usages(*d, o.index)
            },
{
    let ghost orig = alter_enums@;
    let mut rest: Vec<AlterEnum> = Vec::new();
    core::mem::swap(alter_enums, &mut rest);
    while rest.len() > 0
        invariant
            alter_enums@.len() + rest@.len() == orig.len(),
            d.wf(),
            forall|i: int| 0 <= i < orig.len() ==> enum_pair_valid(*d, #[trigger] orig[i].index),
            rest@ == orig.subrange(alter_enums@.len() as int, orig.len() as int),
            forall|i: int|
                0 <= i < alter_enums@.len() ==> {
                    let a = #[trigger] alter_enums@[i];
                    let o = orig[i];
                    &&& a.index == o.index
                    &&& a.created_variants == o.created_variants
                    &&& a.dropped_variants == o.dropped_variants
                    &&& a.previous_usages_as_default@ == spec_enum_usages(*d, o.index)
                },
        decreases rest@.len(),
    {
        let ghost n = alter_enums@.len();
        let mut ae = rest.remove(0);
        assert(ae == orig[n as int]);
        ae.previous_usages_as_default = enum_usages(d, ae.index);
        alter_enums.push(ae);
    }
}

proof fn lemma_paired_usages_include(td: TableDiffer, p: Pair<TableId>, cps: Seq<Pair<ColumnId>>, names: Pair<Seq<char>>, k: int)
    requires
        0 <= k < cps.len(),
        uses_enum_as_default(td.previous.columns@[cps[k].previous as int], names.previous),
    ensures
        exists|m: int|
            0 <= m < paired_usages(td, p, cps, names).len() && (#[trigger] paired_usages(td, p, cps, names)[m]).previous
                == (ColumnRef { table_id: p.previous, column_id: cps[k].previous }),
    decreases cps.len(),
{
    let pre = paired_usages(td, p, cps.drop_last(), names);
    let cur = paired_usages(td, p, cps, names);
    if k < cps.len() - 1 {
        lemma_paired_usages_include(td, p, cps.drop_last(), names, k);
        let m = choose|m: int|
            0 <= m < pre.len() && (#[trigger] pre[m]).previous == (ColumnRef {
                table_id: p.previous,
                column_id: cps.drop_last()[k].previous,
            });
        assert(cur[m] == pre[m]);
    } else {
        assert(cur[pre.len() as int].previous == (ColumnRef { table_id: p.previous, column_id: cps[k].previous }));
    }
}

proof fn lemma_pairs_usages_include(d: SqlSchemaDiffer, pairs: Seq<Pair<TableId>>, names: Pair<Seq<char>>, q: int, k: int)
    requires
        0 <= q < pairs.len(),
        0 <= k < differ_of(d, pairs[q]).spec_column_pairs().len(),
        uses_enum_as_default(
            differ_of(d, pairs[q]).previous.columns@[differ_of(d, pairs[q]).spec_column_pairs()[k].previous as int],
            names.previous,
        ),
    ensures
        exists|m: int|
            0 <= m < pairs_usages(d, pairs, names).len() && (#[trigger] pairs_usages(d, pairs, names)[m]).previous
                == (ColumnRef {
                table_id: pairs[q].previous,
                column_id: differ_of(d, pairs[q]).spec_column_pairs()[k].previous,
            }),
    decreases pairs.len(),
{
    let p = pairs.last();
    let td = differ_of(d, p);
    let pre = pairs_usages(d, pairs.drop_last(), names);
    let mid = dropped_usages(td.previous.columns@, p.previous, td.spec_dropped_columns(), names.previous);
    let tail = paired_usages(td, p, td.spec_column_pairs(), names);
    let cur = pairs_usages(d, pairs, names);
    assert(cur == pre + mid + tail);
    if q < pairs.len() - 1 {
        assert(pairs.drop_last()[q] == pairs[q]);
        lemma_pairs_usages_include(d, pairs.drop_last(), names, q, k);
        let m = choose|m: int|
            0 <= m < pre.len() && (#[trigger] pre[m]).previous == (ColumnRef {
                table_id: pairs[q].previous,
                column_id: differ_of(d, pairs[q]).spec_column_pairs()[k].previous,
            });
        assert(cur[m] == pre[m]);
    } else {
        lemma_paired_usages_include(td, p, td.spec_column_pairs(), names, k);
        let m = choose|m: int|
            0 <= m < tail.len() && (#[trigger] tail[m]).previous == (ColumnRef {
                table_id: p.previous,
                column_id: td.spec_column_pairs()[k].previous,
            });
        assert(cur[pre.len() + mid.len() + m] == tail[m]);
    }
}

/// Every previous column of a table present in both schemas that uses the altered enum as a
/// default is among the enum's previous uses as a default.
pub proof fn lemma_enum_default_usages_kept(d: SqlSchemaDiffer, index: Pair<usize>, q: int, k: int)
    requires
        0 <= q < d.spec_table_pairs().len(),
        0 <= k < differ_of(d, d.spec_table_pairs()[q]).spec_column_pairs().len(),
        uses_enum_as_default(
            differ_of(d, d.spec_table_pairs()[q]).previous.columns@[differ_of(
                d,
                d.spec_table_pairs()[q],
            ).spec_column_pairs()[k].previous as int],
            d.previous.enums@[index.previous as int].name@,
        ),
    ensures
        exists|m: int|
            0 <= m < spec_enum_usages(d, index).len() && (#[trigger] spec_enum_usages(d, index)[m]).previous
                == (ColumnRef {
                table_id: d.spec_table_pairs()[q].previous,
                column_id: differ_of(d, d.spec_table_pairs()[q]).spec_column_pairs()[k].previous,
            }),
{
    let names = Pair {
        previous: d.previous.enums@[index.previous as int].name@,
        next: d.next.enums@[index.next as int].name@,
    };
    let first = dropped_tables_usages(d, d.spec_dropped_tables(), names.previous);
    let rest = pairs_usages(d, d.spec_table_pairs(), names);
    lemma_pairs_usages_include(d, d.spec_table_pairs(), names, q, k);
    let m = choose|m: int|
        0 <= m < rest.len() && (#[trigger] rest[m]).previous == (ColumnRef {
            table_id: d.spec_table_pairs()[q].previous,
            column_id: differ_of(d, d.spec_table_pairs()[q]).spec_column_pairs()[k].previous,
        });
    assert(spec_enum_usages(d, index) == first + rest);
    assert(spec_enum_usages(d, index)[first.len() + m] == rest[m]);
}

proof fn lemma_first_enum_found(name: Seq<char>, enums: Seq<EnumType>, j: int, i: int)
    requires
        0 <= j <= i < enums.len(),
        enums[i].name@ == name,
    ensures
        first_enum_from(name, enums, j) is Some,
    decreases i - j,
{
    if j < i && enums[j].name@ != name {
        lemma_first_enum_found(name, enums, j + 1, i);
    }
}

proof fn lemma_no_unmatched_enums(enums: Seq<EnumType>, n: int)
    requires
        n <= enums.len(),
    ensures
        unmatched_enums_upto(enums, enums, n) == Seq::<usize>::empty(),
    decreases n,
{
    if n > 0 {
        lemma_no_unmatched_enums(enums, n - 1);
        lemma_first_enum_found(enums[n - 1].name@, enums, 0, n - 1);
    }
}

/// A schema compared with itself has no created and no dropped enums.
pub proof fn lemma_same_schema_keeps_enums(d: SqlSchemaDiffer)
    requires
        *d.previous == *d.next,
    ensures
        unmatched_enums_upto(d.next.enums@, d.previous.enums@, d.next.enums@.len() as int).len() == 0,
        unmatched_enums_upto(d.previous.enums@, d.next.enums@, d.previous.enums@.len() as int).len() == 0,
{
    lemma_no_unmatched_enums(d.next.enums@, d.next.enums@.len() as int);
}

proof fn lemma_dropped_usages_include(cols: Seq<Column>, t: TableId, ids: Seq<ColumnId>, name: Seq<char>, k: int)
    requires
        0 <= k < ids.len(),
        uses_enum_as_default(cols[ids[k] as int], name),
    ensures
        exists|m: int|
            0 <= m < dropped_usages(cols, t, ids, name).len() && #[trigger] dropped_usages(cols, t, ids, name)[m]
                == (EnumDefaultUsage { previous: ColumnRef { table_id: t, column_id: ids[k] }, next: None }),
    decreases ids.len(),
{
    let pre = dropped_usages(cols, t, ids.drop_last(), name);
    let cur = dropped_usages(cols, t, ids, name);
    if k < ids.len() - 1 {
        lemma_dropped_usages_include(cols, t, ids.drop_last(), name, k);
        let m = choose|m: int|
            0 <= m < pre.len() && #[trigger] pre[m] == (EnumDefaultUsage {
                previous: ColumnRef { table_id: t, column_id: ids.drop_last()[k] },
                next: None,
            });
        assert(cur[m] == pre[m]);
    } else {
        assert(cur[pre.len() as int] == (EnumDefaultUsage { previous: ColumnRef { table_id: t, column_id: ids[k] }, next: None }));
    }
}

proof fn lemma_dropped_tables_usages_include(d: SqlSchemaDiffer, ids: Seq<TableId>, name: Seq<char>, q: int, c: int)
    requires
        0 <= q < ids.len(),
        0 <= c < d.previous.tables@[ids[q] as int].columns@.len(),
        c <= usize::MAX,
        uses_enum_as_default(d.previous.tables@[ids[q] as int].columns@[c], name),
    ensures
        exists|m: int|
            0 <= m < dropped_tables_usages(d, ids, name).len() && #[trigger] dropped_tables_usages(d, ids, name)[m]
                == (EnumDefaultUsage { previous: ColumnRef { table_id: ids[q], column_id: c as usize }, next: None }),
    decreases ids.len(),
{
    let t = ids.last();
    let cols = d.previous.tables@[t as int].columns@;
    let all = Seq::new(cols.len(), |i: int| i as usize);
    let pre = dropped_tables_usages(d, ids.drop_last(), name);
    let tail = dropped_usages(cols, t, all, name);
    let cur = dropped_tables_usages(d, ids, name);
    assert(cur == pre + tail);
    if q < ids.len() - 1 {
        lemma_dropped_tables_usages_include(d, ids.drop_last(), name, q, c);
        let m = choose|m: int|
            0 <= m < pre.len() && #[trigger] pre[m] == (EnumDefaultUsage {
                previous: ColumnRef { table_id: ids.drop_last()[q], column_id: c as usize },
                next: None,
            });
        assert(cur[m] == pre[m]);
    } else {
        assert(all[c] == c as usize);
        lemma_dropped_usages_include(cols, t, all, name, c);
        let m = choose|m: int|
            0 <= m < tail.len() && #[trigger] tail[m] == (EnumDefaultUsage {
                previous: ColumnRef { table_id: t, column_id: all[c] },
                next: None,
            });
        assert(cur[pre.len() + m] == tail[m]);
    }
}

proof fn lemma_pairs_dropped_usages_include(d: SqlSchemaDiffer, pairs: Seq<Pair<TableId>>, names: Pair<Seq<char>>, q: int, k: int)
    requires
        0 <= q < pairs.len(),
        0 <= k < differ_of(d, pairs[q]).spec_dropped_columns().len(),
        uses_enum_as_default(
            differ_of(d, pairs[q]).previous.columns@[differ_of(d, pairs[q]).spec_dropped_columns()[k] as int],
            names.previous,
        ),
    ensures
        exists|m: int|
            0 <= m < pairs_usages(d, pairs, names).len() && #[trigger] pairs_usages(d, pairs, names)[m]
                == (EnumDefaultUsage {
                previous: ColumnRef {
                    table_id: pairs[q].previous,
                    column_id: differ_of(d, pairs[q]).spec_dropped_columns()[k],
                },
                next: None,
            }),
    decreases pairs.len(),
{
    let p = pairs.last();
    let td = differ_of(d, p);
    let pre = pairs_usages(d, pairs.drop_last(), names);
    let mid = dropped_usages(td.previous.columns@, p.previous, td.spec_dropped_columns(), names.previous);
    let tail = paired_usages(td, p, td.spec_column_pairs(), names);
    let cur = pairs_usages(d, pairs, names);
    assert(cur == pre + mid + tail);
    if q < pairs.len() - 1 {
        assert(pairs.drop_last()[q] == pairs[q]);
        lemma_pairs_dropped_usages_include(d, pairs.drop_last(), names, q, k);
        let m = choose|m: int|
            0 <= m < pre.len() && #[trigger] pre[m] == (EnumDefaultUsage {
                previous: ColumnRef {
                    table_id: pairs[q].previous,
                    column_id: differ_of(d, pairs[q]).spec_dropped_columns()[k],
                },
                next: None,
            });
        assert(cur[m] == pre[m]);
    } else {
        lemma_dropped_usages_include(td.previous.columns@, p.previous, td.spec_dropped_columns(), names.previous, k);
        let m = choose|m: int|
            0 <= m < mid.len() && #[trigger] mid[m] == (EnumDefaultUsage {
                previous: ColumnRef { table_id: p.previous, column_id: td.spec_dropped_columns()[k] },
                next: None,
            });
        assert(cur[pre.len() + m] == mid[m]);
    }
}

/// Every column of a dropped table that uses the altered enum as a default is among the enum's
/// previous uses as a default, with no next counterpart.
pub proof fn lemma_enum_default_usages_kept_dropped_table(d: SqlSchemaDiffer, index: Pair<usize>, q: int, c: int)
    requires
        0 <= q < d.spec_dropped_tables().len(),
        0 <= c < d.previous.tables@[d.spec_dropped_tables()[q] as int].columns@.len(),
        c <= usize::MAX,
        uses_enum_as_default(
            d.previous.tables@[d.spec_dropped_tables()[q] as int].columns@[c],
            d.previous.enums@[index.previous as int].name@,
        ),
    ensures
        spec_enum_usages(d, index).contains(
            EnumDefaultUsage {
                previous: ColumnRef { table_id: d.spec_dropped_tables()[q], column_id: c as usize },
                next: None,
            },
        ),
{
    let name = d.previous.enums@[index.previous as int].name@;
    let names = Pair { previous: name, next: d.next.enums@[index.next as int].name@ };
    let first = dropped_tables_usages(d, d.spec_dropped_tables(), name);
    let rest = pairs_usages(d, d.spec_table_pairs(), names);
    lemma_dropped_tables_usages_include(d, d.spec_dropped_tables(), name, q, c);
    let u = EnumDefaultUsage {
        previous: ColumnRef { table_id: d.spec_dropped_tables()[q], column_id: c as usize },
        next: None,
    };
    let m = choose|m: int| 0 <= m < first.len() && #[trigger] first[m] == u;
    assert(spec_enum_usages(d, index) == first + rest);
    assert(spec_enum_usages(d, index)[m] == u);
}

/// Every dropped column of a table present in both schemas that uses the altered enum as a
/// default is among the enum's previous uses as a default, with no next counterpart.
pub proof fn lemma_enum_default_usages_kept_dropped_column(d: SqlSchemaDiffer, index: Pair<usize>, q: int, k: int)
    requires
        0 <= q < d.spec_table_pairs().len(),
        0 <= k < differ_of(d, d.spec_table_pairs()[q]).spec_dropped_columns().len(),
        uses_enum_as_default(
            differ_of(d, d.spec_table_pairs()[q]).previous.columns@[differ_of(
                d,
                d.spec_table_pairs()[q],
            ).spec_dropped_columns()[k] as int],
            d.previous.enums@[index.previous as int].name@,
        ),
    ensures
        spec_enum_usages(d, index).contains(
            EnumDefaultUsage {
                previous: ColumnRef {
                    table_id: d.spec_table_pairs()[q].previous,
                    column_id: differ_of(d, d.spec_table_pairs()[q]).spec_dropped_columns()[k],
                },
                next: None,
            },
        ),
{
    let names = Pair {
        previous: d.previous.enums@[index.previous as int].name@,
        next: d.next.enums@[index.next as int].name@,
    };
    let first = dropped_tables_usages(d, d.spec_dropped_tables(), names.previous);
    let rest = pairs_usages(d, d.spec_table_pairs(), names);
    lemma_pairs_dropped_usages_include(d, d.spec_table_pairs(), names, q, k);
    let u = EnumDefaultUsage {
        previous: ColumnRef {
            table_id: d.spec_table_pairs()[q].previous,
            column_id: differ_of(d, d.spec_table_pairs()[q]).spec_dropped_columns()[k],
        },
        next: None,
    };
    let m = choose|m: int| 0 <= m < rest.len() && #[trigger] rest[m] == u;
    assert(spec_enum_usages(d, index) == first + rest);
    assert(spec_enum_usages(d, index)[first.len() + m] == u);
}

impl Flavour {
    /// Where this flavour supports enums, an `AlterEnum` for each enum pair whose values differ,
    /// with the values added and removed; the previous uses as defaults are left empty.
    #[verifier::rlimit(30)]
    pub fn alter_enums(&self, d: &SqlSchemaDiffer) -> (r: Vec<AlterEnum>)
        ensures
            ({
                let ps = d.spec_enum_pairs();
                let altered = if self.supports_enums {
                    altered_enum_pairs_upto(d.previous.enums@, d.next.enums@, ps, ps.len() as int)
                } else {
                    Seq::empty()
                };
                &&& r@.len() == altered.len()
                &&& forall|i: int|
                    0 <= i < altered.len() ==> {
                        let ae = #[trigger] r@[i];
                        let p = altered[i];
                        &&& ae.index == p
                        &&& enum_pair_valid(*d, p)
                        &&& values_of(ae.created_variants@) == values_missing_from(
                            values_of(d.next.enums@[p.next as int].values@),
                            values_of(d.previous.enums@[p.previous as int].values@),
                        )
                        &&& values_of(ae.dropped_variants@) == values_missing_from(
                            values_of(d.previous.enums@[p.previous as int].values@),
                            values_of(d.next.enums@[p.next as int].values@),
                        )
                        &&& ae.previous_usages_as_default@.len() == 0
                    }
            }),
    {
        let mut r: Vec<AlterEnum> = Vec::new();
        if !self.supports_enums {
            return r;
        }
        let ps = d.enum_pairs();
        let mut k: usize = 0;
        while k < ps.len()
            invariant
                0 <= k <= ps@.len(),
                self.supports_enums,
                ps@ == d.spec_enum_pairs(),
                forall|m: int| 0 <= m < ps@.len() ==> enum_pair_valid(*d, #[trigger] ps@[m]),
                ({
                    let altered = altered_enum_pairs_upto(d.previous.enums@, d.next.enums@, ps@, k as int);
                    &&& r@.len() == altered.len()
                    &&& forall|i: int|
                        0 <= i < altered.len() ==> {
                            let ae = #[trigger] r@[i];
                            let p = altered[i];
                            &&& ae.index == p
                            &&& enum_pair_valid(*d, p)
                            &&& values_of(ae.created_variants@) == values_missing_from(
                                values_of(d.next.enums@[p.next as int].values@),
                                values_of(d.previous.enums@[p.previous as int].values@),
                            )
                            &&& values_of(ae.dropped_variants@) == values_missing_from(
                                values_of(d.previous.enums@[p.previous as int].values@),
                                values_of(d.next.enums@[p.next as int].values@),
                            )
                            &&& ae.previous_usages_as_default@.len() == 0
                        }
                }),
            decreases ps@.len() - k,
        {
            let p = ps[k];
            let prev = &d.previous.enums[p.previous];
            let next = &d.next.enums[p.next];
            proof {
                let pre = altered_enum_pairs_upto(d.previous.enums@, d.next.enums@, ps@, k as int);
                assert(altered_enum_pairs_upto(d.previous.enums@, d.next.enums@, ps@, k + 1) == if values_of(
                    prev.values@,
                ) != values_of(next.values@) {
                    pre.push(p)
                } else {
                    pre
                });
            }
            if !same_values(&prev.values, &next.values) {
                let created_variants = strings_missing_from(&next.values, &prev.values);
                let dropped_variants = strings_missing_from(&prev.values, &next.values);
                let ghost before = r@;
                r.push(AlterEnum {
                    index: p,
                    created_variants,
                    dropped_variants,
                    previous_usages_as_default: Vec::new(),
                });
                proof {
                    let altered = altered_enum_pairs_upto(d.previous.enums@, d.next.enums@, ps@, k + 1);
                    assert forall|i: int| 0 <= i < altered.len() implies ({
                        let ae = #[trigger] r@[i];
                        let p = altered[i];
                        &&& ae.index == p
                        &&& enum_pair_valid(*d, p)
                        &&& values_of(ae.created_variants@) == values_missing_from(
                            values_of(d.next.enums@[p.next as int].values@),
                            values_of(d.previous.enums@[p.previous as int].values@),
                        )
                        &&& values_of(ae.dropped_variants@) == values_missing_from(
                            values_of(d.previous.enums@[p.previous as int].values@),
                            values_of(d.next.enums@[p.next as int].values@),
                        )
                        &&& ae.previous_usages_as_default@.len() == 0
                    }) by {
                        if i < before.len() {
                            assert(r@[i] == before[i]);
                        }
                    }
                }
            }
            k += 1;
        }
        r
    }

    /// Where this flavour supports enums, a `CreateEnum` for each next enum whose name no previous
    /// enum has.
    pub fn create_enums(&self, d: &SqlSchemaDiffer, steps: &mut Vec<SqlMigrationStep>)
        ensures
            final(steps)@ == old(steps)@ + if self.supports_enums {
                unmatched_enums_upto(d.next.enums@, d.previous.enums@, d.next.enums@.len() as int).map_values(
                    |i: usize| SqlMigrationStep::CreateEnum { enum_index: i },
                )
            } else {
                Seq::empty()
            },
    {
        let ghost start = steps@;
        if self.supports_enums {
            let ids = d.created_enums();
            enum_steps(&ids, true, steps);
        } else {
            assert(steps@ =~= start + Seq::empty());
        }
    }

    /// Where this flavour supports enums, a `DropEnum` for each previous enum whose name no next
    /// enum has.
    pub fn drop_enums(&self, d: &SqlSchemaDiffer, steps: &mut Vec<SqlMigrationStep>)
        ensures
            final(steps)@ == old(steps)@ + if self.supports_enums {
                unmatched_enums_upto(d.previous.enums@, d.next.enums@, d.previous.enums@.len() as int).map_values(
                    |i: usize| SqlMigrationStep::DropEnum { enum_index: i },
                )
            } else {
                Seq::empty()
            },
    {
        let ghost start = steps@;
        if self.supports_enums {
            let ids = d.dropped_enums();
            enum_steps(&ids, false, steps);
        } else {
            assert(steps@ =~= start + Seq::empty());
        }
    }
}

fn enum_steps(ids: &Vec<usize>, create: bool, steps: &mut Vec<SqlMigrationStep>)
    ensures
        final(steps)@ == old(steps)@ + ids@.map_values(
            |i: usize|
                if create {
                    SqlMigrationStep::CreateEnum { enum_index: i }
                } else {
                    SqlMigrationStep::DropEnum { enum_index: i }
                },
        ),
{
    let ghost start = steps@;
    let mut k: usize = 0;
    while k < ids.len()
        invariant
            0 <= k <= ids@.len(),
            steps@ == start + ids@.subrange(0, k as int).map_values(
                |i: usize|
                    if create {
                        SqlMigrationStep::CreateEnum { enum_index: i }
                    } else {
                        SqlMigrationStep::DropEnum { enum_index: i }
                    },
            ),
        decreases ids@.len() - k,
    {
        if create {
            steps.push(SqlMigrationStep::CreateEnum { enum_index: ids[k] });
        } else {
            steps.push(SqlMigrationStep::DropEnum { enum_index: ids[k] });
        }
        k += 1;
        assert(steps@ =~= start + ids@.subrange(0, k as int).map_values(
            |i: usize|
                if create {
                    SqlMigrationStep::CreateEnum { enum_index: i }
                } else {
                    SqlMigrationStep::DropEnum { enum_index: i }
                },
        ));
    }
    assert(ids@.subrange(0, ids@.len() as int) =~= ids@);
}

} // verus!
