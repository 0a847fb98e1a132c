use vstd::prelude::*;

use crate::differ::{
    altered_tables_plan, create_table_steps, drop_table_steps, pairs_alter_indexes,
    redefine_plan_upto, spec_create_indexes, spec_drop_indexes, spec_tables_to_redefine,
    IndexPair, SqlSchemaDiffer,
};
use crate::enums::{
    altered_enum_pairs_upto, push_previous_usages_as_defaults_in_altered_enums, spec_created_variants,
    spec_dropped_variants, spec_enum_usages,
    unmatched_enums_upto,
};
use crate::flavour::Flavour;
use crate::schema::SqlSchema;
use crate::steps::{
    exact_steps, lemma_exact_steps_fit, lemma_steps_fit_append, sort_steps, sorted_by_kind,
    stable_sort_prefix, steps_fit, AlterEnum, Pair, PlannedStep, SqlMigrationStep,
    STEP_KINDS,
};

verus! {

pub open spec fn alter_index_step(ip: IndexPair, in_place: bool) -> SqlMigrationStep {
    if in_place {
        SqlMigrationStep::AlterIndex { table: ip.table, index: ip.index }
    } else {
        SqlMigrationStep::RedefineIndex { table: ip.table, index: ip.index }
    }
}

/// The steps that the differ emits, before they are sorted by kind: created tables, dropped
/// tables, dropped indexes, created indexes, altered tables, created and dropped enums, altered
/// enums, redefined tables, and renamed indexes.
pub open spec fn spec_plan(d: SqlSchemaDiffer) -> Seq<PlannedStep> {
    let fl = *d.flavour;
    let redefine = spec_tables_to_redefine(d);
    let pairs = d.spec_table_pairs();
    let eps = d.spec_enum_pairs();
    let altered_enums = if fl.supports_enums {
        altered_enum_pairs_upto(d.previous.enums@, d.next.enums@, eps, eps.len() as int)
    } else {
        Seq::empty()
    };
    let redefined = redefine_plan_upto(d, redefine, pairs);
    exact_steps(
        create_table_steps(fl, d.next.tables@, d.spec_created_tables()) + drop_table_steps(
            fl,
            d.previous.tables@,
            d.spec_dropped_tables(),
        ) + spec_drop_indexes(d, redefine) + spec_create_indexes(d, redefine),
    ) + altered_tables_plan(d, redefine, pairs) + exact_steps(
        (if fl.supports_enums {
            unmatched_enums_upto(d.next.enums@, d.previous.enums@, d.next.enums@.len() as int).map_values(
                |i: usize| SqlMigrationStep::CreateEnum { enum_index: i },
            )
        } else {
            Seq::empty()
        }) + (if fl.supports_enums {
            unmatched_enums_upto(d.previous.enums@, d.next.enums@, d.previous.enums@.len() as int).map_values(
                |i: usize| SqlMigrationStep::DropEnum { enum_index: i },
            )
        } else {
            Seq::empty()
        }),
    ) + altered_enums.map_values(
        |p: Pair<usize>| PlannedStep::AlterEnum {
            index: p,
            created: spec_created_variants(d, p),
            dropped: spec_dropped_variants(d, p),
            usages: spec_enum_usages(d, p),
        },
    ) + (if redefined.len() > 0 {
        seq![PlannedStep::RedefineTables { tables: redefined }]
    } else {
        Seq::empty()
    }) + exact_steps(
        pairs_alter_indexes(d, redefine, pairs).map_values(
            |ip: IndexPair| alter_index_step(ip, fl.can_alter_index),
        ),
    )
}

pub open spec fn differ_of_schemas<'a>(schemas: Pair<&'a SqlSchema>, flavour: &'a Flavour) -> SqlSchemaDiffer<'a> {
    SqlSchemaDiffer { previous: schemas.previous, next: schemas.next, flavour }
}

/// The ordered migration steps that turn the previous schema into the next: the steps of the
/// plan, stably sorted by kind.
#[verifier::rlimit(60)]
pub fn calculate_steps(schemas: Pair<&SqlSchema>, flavour: &Flavour) -> (r: Vec<SqlMigrationStep>)
    requires
        schemas.previous.wf(),
        schemas.next.wf(),
        differ_of_schemas(schemas, flavour).distinct_names(),
    ensures
        exists|u: Seq<SqlMigrationStep>|
            steps_fit(u, spec_plan(differ_of_schemas(schemas, flavour))) && r@ == stable_sort_prefix(
                u,
                STEP_KINDS as nat,
            ),
        sorted_by_kind(r@),
{
    let differ = SqlSchemaDiffer { previous: schemas.previous, next: schemas.next, flavour };
    assert(differ == differ_of_schemas(schemas, flavour));
    let mut steps: Vec<SqlMigrationStep> = Vec::new();
    differ.push_create_tables(&mut steps);
    let tables_to_redefine = flavour.tables_to_redefine(&differ);
    let alter_indexes = differ.alter_indexes(&tables_to_redefine);
    differ.drop_tables(&mut steps);
    differ.drop_indexes(&tables_to_redefine, &mut steps);
    differ.push_create_indexes(&tables_to_redefine, &mut steps);
    let ghost first = steps@;
    proof {
        lemma_exact_steps_fit(first);
        assert(first =~= create_table_steps(*flavour, differ.next.tables@, differ.spec_created_tables())
            + drop_table_steps(*flavour, differ.previous.tables@, differ.spec_dropped_tables())
            + spec_drop_indexes(differ, tables_to_redefine@) + spec_create_indexes(differ, tables_to_redefine@));
    }
    differ.push_altered_tables(&tables_to_redefine, &mut steps);
    let ghost second = steps@;
    let ghost plan = exact_steps(first) + altered_tables_plan(differ, tables_to_redefine@, differ.spec_table_pairs());
    proof {
        let tail = second.subrange(first.len() as int, second.len() as int);
        lemma_steps_fit_append(first, exact_steps(first), tail, altered_tables_plan(differ, tables_to_redefine@, differ.spec_table_pairs()));
        assert(second =~= first + tail);
    }
    let redefine_tables = differ.redefine_tables(&tables_to_redefine);
    let mut alter_enums = flavour.alter_enums(&differ);
    push_previous_usages_as_defaults_in_altered_enums(&differ, &mut alter_enums);
    flavour.create_enums(&differ, &mut steps);
    flavour.drop_enums(&differ, &mut steps);
    let ghost third = steps@;
    proof {
        let tail = third.subrange(second.len() as int, third.len() as int);
        lemma_exact_steps_fit(tail);
        lemma_steps_fit_append(second, plan, tail, exact_steps(tail));
        assert(third =~= second + tail);
    }
    let ghost plan = plan + exact_steps(third.subrange(second.len() as int, third.len() as int));
    let ghost ae_plan = {
        let eps = differ.spec_enum_pairs();
        let altered = if flavour.supports_enums {
            altered_enum_pairs_upto(differ.previous.enums@, differ.next.enums@, eps, eps.len() as int)
        } else {
            Seq::empty()
        };
        altered.map_values(
            |p: Pair<usize>| PlannedStep::AlterEnum {
                index: p,
                created: spec_created_variants(differ, p),
                dropped: spec_dropped_variants(differ, p),
                usages: spec_enum_usages(differ, p),
            },
        )
    };
    let ghost aes = alter_enums@;
    let _ = alter_enums.len();
    let mut k: usize = 0;
    let mut rest = alter_enums;
    while rest.len() > 0
        invariant
            k + rest@.len() == aes.len(),
            aes.len() <= usize::MAX,
            aes.len() == ae_plan.len(),
            rest@ == aes.subrange(k as int, aes.len() as int),
            forall|i: int|
                0 <= i < aes.len() ==> crate::steps::step_fits(
                    SqlMigrationStep::AlterEnum(#[trigger] aes[i]),
                    ae_plan[i],
                ),
            steps@.len() == third.len() + k,
            steps@.subrange(0, third.len() as int) == third,
            steps_fit(steps@.subrange(third.len() as int, steps@.len() as int), ae_plan.subrange(0, k as int)),
        decreases rest@.len(),
    {
        let ae = rest.remove(0);
        assert(ae == aes[k as int]);
        let ghost before = steps@;
        steps.push(SqlMigrationStep::AlterEnum(ae));
        k += 1;
        proof {
            assert(steps@.subrange(0, third.len() as int) =~= before.subrange(0, third.len() as int));
            let t = steps@.subrange(third.len() as int, steps@.len() as int);
            assert forall|i: int| 0 <= i < k implies crate::steps::step_fits(#[trigger] t[i], ae_plan.subrange(0, k as int)[i]) by {
                if i < k - 1 {
                    assert(t[i] == before.subrange(third.len() as int, before.len() as int)[i]);
                }
            }
        }
    }
    let ghost fourth = steps@;
    proof {
        let tail = fourth.subrange(third.len() as int, fourth.len() as int);
        assert(ae_plan.subrange(0, aes.len() as int) =~= ae_plan);
        lemma_steps_fit_append(third, plan, tail, ae_plan);
        assert(fourth =~= third + tail);
    }
    let ghost plan = plan + ae_plan;
    let ghost redefined = redefine_plan_upto(differ, tables_to_redefine@, differ.spec_table_pairs());
    let ghost rt_plan = if redefined.len() > 0 {
        seq![PlannedStep::RedefineTables { tables: redefined }]
    } else {
        Seq::empty()
    };
    if redefine_tables.len() > 0 {
        steps.push(SqlMigrationStep::RedefineTables(redefine_tables));
    }
    let ghost fifth = steps@;
    proof {
        let tail = fifth.subrange(fourth.len() as int, fifth.len() as int);
        assert(steps_fit(tail, rt_plan));
        lemma_steps_fit_append(fourth, plan, tail, rt_plan);
        assert(fifth =~= fourth + tail);
    }
    let ghost plan = plan + rt_plan;
    let mut j: usize = 0;
    while j < alter_indexes.len()
        invariant
            0 <= j <= alter_indexes@.len(),
            steps@ == fifth + alter_indexes@.subrange(0, j as int).map_values(
                |ip: IndexPair| alter_index_step(ip, flavour.can_alter_index),
            ),
        decreases alter_indexes@.len() - j,
    {
        let ip = alter_indexes[j];
        if flavour.can_alter_index {
            steps.push(SqlMigrationStep::AlterIndex { table: ip.table, index: ip.index });
        } else {
            steps.push(SqlMigrationStep::RedefineIndex { table: ip.table, index: ip.index });
        }
        j += 1;
        assert(steps@ =~= fifth + alter_indexes@.subrange(0, j as int).map_values(
            |ip: IndexPair| alter_index_step(ip, flavour.can_alter_index),
        ));
    }
    proof {
        assert(alter_indexes@.subrange(0, alter_indexes@.len() as int) =~= alter_indexes@);
        let tail = steps@.subrange(fifth.len() as int, steps@.len() as int);
        lemma_exact_steps_fit(tail);
        lemma_steps_fit_append(fifth, plan, tail, exact_steps(tail));
        assert(steps@ =~= fifth + tail);
        assert(plan + exact_steps(tail) =~= spec_plan(differ));
    }
    let ghost unsorted = steps@;
    let r = sort_steps(steps);
    assert(steps_fit(unsorted, spec_plan(differ_of_schemas(schemas, flavour))));
    r
}

} // verus!
