//! A schema diffed with itself needs no migration.

use vstd::prelude::*;

use crate::calculate::{differ_of_schemas, spec_plan};
use crate::differ::{
    altered_table_plan, altered_tables_plan, differ_of, distinct_table_names, lemma_first_match_is_pub,
    lemma_names_match_reflexive, lemma_same_schema_keeps_tables, pair_create_index_steps,
    pair_drop_index_steps, pair_dropped_indexes, pair_needs_redefinition, pairs_alter_indexes,
    pairs_create_index_steps, pairs_drop_index_steps, recreated_index_steps, recreated_next_column,
    redefine_plan_upto, redefined_upto, renamed_index_pairs, spec_table_changes, spec_tables_to_redefine,
    table_pairs_upto, IndexPair, SqlSchemaDiffer,
};
use crate::enums::{
    altered_enum_pairs_upto, enum_pairs_upto, first_enum_from, lemma_same_schema_keeps_enums,
};
use crate::flavour::Flavour;
use crate::index::{first_index_match_from, index_pairs_upto, indexes_match, unmatched_indexes_upto};
use crate::schema::{EnumType, Index, SqlSchema, Table, TableId};
use crate::steps::{stable_sort_prefix, steps_fit, Pair, SqlMigrationStep, STEP_KINDS};
use crate::table::{distinct_column_names, lemma_same_table_unchanged, same_key_columns, TableDiffer};

verus! {

/// No two indexes of the table are the same index: same kind over the same columns.
pub open spec fn distinct_indexes(t: Table) -> bool {
    forall|i: int, j: int|
        0 <= i < j < t.indexes@.len() ==> !indexes_match(t, #[trigger] t.indexes@[i], t, #[trigger] t.indexes@[j])
}

pub open spec fn distinct_enum_names(enums: Seq<EnumType>) -> bool {
    forall|i: int, j: int| 0 <= i < j < enums.len() ==> (#[trigger] enums[i]).name@ != (#[trigger] enums[j]).name@
}

/// A schema that names every table, column, index and enum once.
pub open spec fn valid_schema(fl: Flavour, s: SqlSchema) -> bool {
    &&& s.wf()
    &&& distinct_table_names(fl, s.tables@)
    &&& distinct_enum_names(s.enums@)
    &&& s.tables@.len() <= usize::MAX
    &&& s.enums@.len() <= usize::MAX
    &&& forall|t: int|
        0 <= t < s.tables@.len() ==> {
            &&& distinct_column_names((#[trigger] s.tables@[t]).columns@)
            &&& distinct_indexes(s.tables@[t])
            &&& s.tables@[t].columns@.len() <= usize::MAX
            &&& s.tables@[t].indexes@.len() <= usize::MAX
        }
}

pub open spec fn self_pairs(n: int) -> Seq<Pair<usize>> {
    Seq::new(n as nat, |k: int| Pair { previous: k as usize, next: k as usize })
}

proof fn lemma_table_pairs_self(fl: Flavour, tables: Seq<Table>, n: int)
    requires
        distinct_table_names(fl, tables),
        0 <= n <= tables.len() <= usize::MAX,
    ensures
        table_pairs_upto(fl, tables, tables, n) == self_pairs(n),
    decreases n,
{
    if n > 0 {
        lemma_table_pairs_self(fl, tables, n - 1);
        lemma_names_match_reflexive(fl, tables[n - 1].name@);
        lemma_first_match_is_pub(fl, tables[n - 1].name@, tables, n - 1);
        assert(table_pairs_upto(fl, tables, tables, n) =~= self_pairs(n));
    }
}

proof fn lemma_index_matches_itself(t: Table, a: Index)
    ensures
        indexes_match(t, a, t, a),
{
    assert(same_key_columns(t, a.columns@, t, a.columns@));
}

proof fn lemma_first_index_is(t: Table, flag: bool, k: int, j: int)
    requires
        distinct_indexes(t),
        0 <= k <= j < t.indexes@.len(),
    ensures
        first_index_match_from(t, t.indexes@[j], t, flag, k) == Some(j as nat),
    decreases j - k,
{
    if k < j {
        let a = t.indexes@[j];
        let b = t.indexes@[k];
        assert(!indexes_match(t, b, t, a));
        if indexes_match(t, a, t, b) {
            assert forall|m: int| 0 <= m < b.columns@.len() implies (#[trigger] t.columns@[b.columns@[m] as int]).name@
                == t.columns@[a.columns@[m] as int].name@ by {
                assert(t.columns@[a.columns@[m] as int].name@ == t.columns@[b.columns@[m] as int].name@);
            }
            assert(indexes_match(t, b, t, a));
        }
        lemma_first_index_is(t, flag, k + 1, j);
    } else {
        lemma_index_matches_itself(t, t.indexes@[j]);
    }
}

proof fn lemma_indexes_self(t: Table, flag: bool, n: int)
    requires
        distinct_indexes(t),
        0 <= n <= t.indexes@.len(),
        t.indexes@.len() <= usize::MAX,
    ensures
        unmatched_indexes_upto(t, t, flag, n) == Seq::<usize>::empty(),
        index_pairs_upto(t, t, n) == Seq::new(n as nat, |k: int| (k as usize, k as usize)),
    decreases n,
{
    if n > 0 {
        lemma_indexes_self(t, flag, n - 1);
        lemma_first_index_is(t, flag, 0, n - 1);
        lemma_first_index_is(t, true, 0, n - 1);
        assert(index_pairs_upto(t, t, n) =~= Seq::new(n as nat, |k: int| (k as usize, k as usize)));
    }
}

proof fn lemma_enum_pairs_self(enums: Seq<EnumType>, n: int)
    requires
        distinct_enum_names(enums),
        0 <= n <= enums.len() <= usize::MAX,
    ensures
        enum_pairs_upto(enums, enums, n) == self_pairs(n),
        altered_enum_pairs_upto(enums, enums, self_pairs(enums.len() as int), n) == Seq::<Pair<usize>>::empty(),
    decreases n,
{
    if n > 0 {
        lemma_enum_pairs_self(enums, n - 1);
        lemma_first_enum_is(enums[n - 1].name@, enums, 0, n - 1);
        assert(enum_pairs_upto(enums, enums, n) =~= self_pairs(n));
    }
}

proof fn lemma_first_enum_is(name: Seq<char>, enums: Seq<EnumType>, k: int, j: int)
    requires
        distinct_enum_names(enums),
        0 <= k <= j < enums.len(),
        enums[j].name@ == name,
    ensures
        first_enum_from(name, enums, k) == Some(j as nat),
    decreases j - k,
{
    if k < j {
        lemma_first_enum_is(name, enums, k + 1, j);
    }
}

/// The table pair `(k, k)` of a valid schema with itself contributes no step of any kind.
proof fn lemma_self_pair_quiet(d: SqlSchemaDiffer, k: int)
    requires
        *d.previous == *d.next,
        valid_schema(*d.flavour, *d.previous),
        0 <= k < d.previous.tables@.len(),
    ensures
        altered_table_plan(d, Pair { previous: k as usize, next: k as usize }).len() == 0,
        !pair_needs_redefinition(d, Pair { previous: k as usize, next: k as usize }),
        pair_dropped_indexes(d, Pair { previous: k as usize, next: k as usize }).len() == 0,
        pair_create_index_steps(d, Pair { previous: k as usize, next: k as usize }).len() == 0,
        renamed_index_pairs(
            differ_of(d, Pair { previous: k as usize, next: k as usize }),
            Pair { previous: k as usize, next: k as usize },
            index_pairs_upto(d.previous.tables@[k], d.next.tables@[k], d.previous.tables@[k].indexes@.len() as int),
        ).len() == 0,
{
    let p = Pair { previous: k as usize, next: k as usize };
    let td = differ_of(d, p);
    let t = d.previous.tables@[k];
    assert(t.wf());
    lemma_same_table_unchanged(td);
    assert(spec_table_changes(td) =~= Seq::<crate::steps::TableChange>::empty());
    lemma_indexes_self(t, true, t.indexes@.len() as int);
    lemma_indexes_self(t, false, t.indexes@.len() as int);
    let ips = index_pairs_upto(t, t, t.indexes@.len() as int);
    lemma_quiet_index_steps(td, p, ips, ips.len() as int);
    assert(ips.subrange(0, ips.len() as int) =~= ips);
    assert(unmatched_indexes_upto(t, t, false, t.indexes@.len() as int).map_values(
        |i: usize|
            SqlMigrationStep::CreateIndex {
                previous_table_id: Some(p.previous),
                table_id: p.next,
                index_index: i,
            },
    ) =~= Seq::<SqlMigrationStep>::empty());
    assert(pair_create_index_steps(d, p) =~= Seq::<SqlMigrationStep>::empty());
}

proof fn lemma_quiet_index_steps(td: TableDiffer, p: Pair<TableId>, ips: Seq<(usize, usize)>, n: int)
    requires
        *td.previous == *td.next,
        distinct_column_names(td.previous.columns@),
        td.previous.columns@.len() <= usize::MAX,
        0 <= n <= ips.len(),
        forall|m: int| 0 <= m < ips.len() ==> (#[trigger] ips[m]).0 == ips[m].1 && ips[m].0 < td.previous.indexes@.len(),
    ensures
        recreated_index_steps(td, p, ips.subrange(0, n)) == Seq::<SqlMigrationStep>::empty(),
        renamed_index_pairs(td, p, ips.subrange(0, n)) == Seq::<IndexPair>::empty(),
    decreases n,
{
    if n > 0 {
        lemma_quiet_index_steps(td, p, ips, n - 1);
        assert(ips.subrange(0, n).drop_last() =~= ips.subrange(0, n - 1));
        lemma_same_table_unchanged(td);
        assert forall|c: usize| !recreated_next_column(td, c) by {
            if recreated_next_column(td, c) {
                let kk = choose|kk: int|
                    0 <= kk < td.spec_column_pairs().len() && (#[trigger] td.spec_column_pairs()[kk]).next == c
                        && td.flavour.spec_type_change(
                        td.previous.columns@[td.spec_column_pairs()[kk].previous as int].family,
                        td.next.columns@[c as int].family,
                    ) == Some(crate::steps::ColumnTypeChange::NotCastable);
                assert(td.spec_column_pairs()[kk].previous == td.spec_column_pairs()[kk].next);
                assert(crate::schema::same_family(td.next.columns@[c as int].family, td.next.columns@[c as int].family));
            }
        }
    }
}

/// A valid schema diffed with itself has an empty plan.
pub proof fn lemma_identity_plan(d: SqlSchemaDiffer)
    requires
        *d.previous == *d.next,
        valid_schema(*d.flavour, *d.previous),
    ensures
        spec_plan(d).len() == 0,
{
    let fl = *d.flavour;
    let tables = d.previous.tables@;
    let n = tables.len() as int;
    lemma_same_schema_keeps_tables(d);
    lemma_same_schema_keeps_enums(d);
    lemma_table_pairs_self(fl, tables, n);
    let pairs = d.spec_table_pairs();
    assert(pairs == self_pairs(n));
    lemma_quiet_pairs(d, n);
    lemma_enum_pairs_self(d.previous.enums@, d.previous.enums@.len() as int);
    assert(spec_tables_to_redefine(d) =~= Seq::<TableId>::empty());
    assert(spec_plan(d) =~= Seq::empty());
}

proof fn lemma_quiet_pairs(d: SqlSchemaDiffer, n: int)
    requires
        *d.previous == *d.next,
        valid_schema(*d.flavour, *d.previous),
        0 <= n <= d.previous.tables@.len(),
    ensures
        redefined_upto(d, self_pairs(n)) == Seq::<TableId>::empty(),
        altered_tables_plan(d, Seq::empty(), self_pairs(n)).len() == 0,
        pairs_drop_index_steps(d, self_pairs(n)).len() == 0,
        pairs_create_index_steps(d, Seq::empty(), self_pairs(n)).len() == 0,
        pairs_alter_indexes(d, Seq::empty(), self_pairs(n)).len() == 0,
        redefine_plan_upto(d, Seq::empty(), self_pairs(n)).len() == 0,
    decreases n,
{
    if n > 0 {
        lemma_quiet_pairs(d, n - 1);
        assert(self_pairs(n).drop_last() =~= self_pairs(n - 1));
        lemma_self_pair_quiet(d, n - 1);
        let p = Pair { previous: (n - 1) as usize, next: (n - 1) as usize };
        assert(self_pairs(n).last() == p);
        assert(pair_drop_index_steps(d, p, pair_dropped_indexes(d, p)) == Seq::<SqlMigrationStep>::empty());
    }
}

/// A valid schema diffed with itself gives no migration step: whatever `calculate_steps`
/// returns for `Pair { previous: s, next: s }` is empty.
pub proof fn lemma_identity(schemas: Pair<&SqlSchema>, flavour: &Flavour, r: Seq<SqlMigrationStep>)
    requires
        *schemas.previous == *schemas.next,
        valid_schema(*flavour, *schemas.previous),
        exists|u: Seq<SqlMigrationStep>|
            steps_fit(u, spec_plan(differ_of_schemas(schemas, flavour))) && r == stable_sort_prefix(
                u,
                STEP_KINDS as nat,
            ),
    ensures
        r.len() == 0,
{
    lemma_identity_plan(differ_of_schemas(schemas, flavour));
    let u = choose|u: Seq<SqlMigrationStep>|
        steps_fit(u, spec_plan(differ_of_schemas(schemas, flavour))) && r == stable_sort_prefix(u, STEP_KINDS as nat);
    assert(u =~= Seq::<SqlMigrationStep>::empty());
    lemma_sort_empty(STEP_KINDS as nat);
}

proof fn lemma_sort_empty(k: nat)
    ensures
        stable_sort_prefix(Seq::<SqlMigrationStep>::empty(), k).len() == 0,
    decreases k,
{
    reveal(Seq::filter);
    if k > 0 {
        lemma_sort_empty((k - 1) as nat);
        assert(Seq::<SqlMigrationStep>::empty().filter(
            |s: SqlMigrationStep| crate::steps::step_rank(s) == (k - 1) as nat,
        ).len() == 0);
    }
}

} // verus!
