use schema_differ::calculate::calculate_steps;
use schema_differ::flavour::{CastRule, Flavour};
use schema_differ::schema::{
    Column, ColumnArity, EnumType, ForeignKey, ForeignKeyAction, Index, IndexType, PrimaryKey,
    SqlSchema, Table, TypeFamily,
};
use schema_differ::steps::{
    AlterColumn, AlterTable, ColumnChanges, ColumnRef, ColumnTypeChange, EnumDefaultUsage, Pair,
    SqlMigrationStep, TableChange,
};
use schema_differ::table::foreign_keys_match;

fn flavour() -> Flavour {
    Flavour {
        can_alter_index: true,
        push_foreign_keys_from_created_tables: false,
        drop_foreign_keys_from_dropped_tables: false,
        create_indexes_from_created_tables: false,
        skip_unique_indexes_for_new_tables: false,
        drop_indexes_from_dropped_tables: false,
        skip_fk_indexes: false,
        recreate_indexes_after_column_drop: false,
        recreate_primary_key_on_column_recreate: false,
        can_rename_index: false,
        case_insensitive_table_names: false,
        can_cope_with_foreign_key_column_becoming_nonnullable: false,
        referential_actions: false,
        redefines_tables: false,
        supports_enums: false,
        casts: vec![],
        default_cast: ColumnTypeChange::RiskyCast,
    }
}

fn col(name: &str, family: TypeFamily, arity: ColumnArity) -> Column {
    Column { name: name.to_string(), family, arity, default: None, auto_increment: false }
}

fn table(name: &str, columns: Vec<Column>, pk: Option<Vec<usize>>) -> Table {
    Table {
        name: name.to_string(),
        columns,
        indexes: vec![],
        foreign_keys: vec![],
        primary_key: pk.map(|columns| PrimaryKey { columns, constraint_name: None }),
    }
}

fn fk(columns: Vec<usize>, table: &str, referenced: Vec<&str>) -> ForeignKey {
    ForeignKey {
        constrained_columns: columns,
        referenced_table: table.to_string(),
        referenced_columns: referenced.into_iter().map(|s| s.to_string()).collect(),
        on_delete: ForeignKeyAction::NoAction,
        on_update: ForeignKeyAction::NoAction,
    }
}

fn schema(tables: Vec<Table>) -> SqlSchema {
    SqlSchema { tables, enums: vec![] }
}

fn diff(previous: &SqlSchema, next: &SqlSchema, fl: &Flavour) -> Vec<SqlMigrationStep> {
    calculate_steps(Pair { previous, next }, fl)
}

fn rich_schema() -> SqlSchema {
    let mut a = table("A", vec![col("id", TypeFamily::Int, ColumnArity::Required)], Some(vec![0]));
    a.indexes.push(Index { name: "a_idx".to_string(), kind: IndexType::Unique, columns: vec![0] });
    let mut b = table(
        "B",
        vec![
            col("aid", TypeFamily::Int, ColumnArity::Required),
            col("color", TypeFamily::Enum("Color".to_string()), ColumnArity::Nullable),
        ],
        None,
    );
    b.foreign_keys.push(fk(vec![0], "A", vec!["id"]));
    SqlSchema {
        tables: vec![a, b],
        enums: vec![EnumType { name: "Color".to_string(), values: vec!["R".to_string(), "G".to_string()] }],
    }
}

fn all_flags() -> Flavour {
    Flavour {
        push_foreign_keys_from_created_tables: true,
        drop_foreign_keys_from_dropped_tables: true,
        create_indexes_from_created_tables: true,
        drop_indexes_from_dropped_tables: true,
        recreate_indexes_after_column_drop: true,
        recreate_primary_key_on_column_recreate: true,
        can_rename_index: true,
        supports_enums: true,
        redefines_tables: true,
        referential_actions: true,
        ..flavour()
    }
}

#[test]
fn identical_schemas_give_no_steps() {
    let s = rich_schema();
    assert_eq!(diff(&s, &s, &flavour()), vec![]);
    assert_eq!(diff(&s, &s, &all_flags()), vec![]);
}

#[test]
fn equal_inputs_give_equal_plans() {
    let p = rich_schema();
    let n = schema(vec![table("C", vec![col("x", TypeFamily::Int, ColumnArity::Required)], None)]);
    let fl = all_flags();
    assert_eq!(diff(&p, &n, &fl), diff(&p, &n, &fl));
}

#[test]
fn add_one_nullable_string_column() {
    let p = schema(vec![table("T", vec![col("id", TypeFamily::Int, ColumnArity::Required)], Some(vec![0]))]);
    let n = schema(vec![table(
        "T",
        vec![col("id", TypeFamily::Int, ColumnArity::Required), col("name", TypeFamily::String, ColumnArity::Nullable)],
        Some(vec![0]),
    )]);
    let steps = diff(&p, &n, &flavour());
    assert_eq!(
        steps,
        vec![SqlMigrationStep::AlterTable(AlterTable {
            table_ids: Pair { previous: 0, next: 0 },
            changes: vec![TableChange::AddColumn { column_id: 1 }],
        })]
    );
}

#[test]
fn drop_a_table_with_one_fk() {
    let a = table("A", vec![col("id", TypeFamily::Int, ColumnArity::Required)], Some(vec![0]));
    let mut b = table("B", vec![col("aid", TypeFamily::Int, ColumnArity::Required)], None);
    b.foreign_keys.push(fk(vec![0], "A", vec!["id"]));
    let p = schema(vec![a.clone(), b]);
    let n = schema(vec![a]);
    let fl = Flavour { drop_foreign_keys_from_dropped_tables: true, ..flavour() };
    assert_eq!(
        diff(&p, &n, &fl),
        vec![
            SqlMigrationStep::DropForeignKey { table_id: 1, foreign_key_index: 0 },
            SqlMigrationStep::DropTable { table_id: 1 },
        ]
    );
}

fn type_change_schemas(pk: bool) -> (SqlSchema, SqlSchema) {
    let pk = if pk { Some(vec![0]) } else { None };
    let p = schema(vec![table("T", vec![col("x", TypeFamily::String, ColumnArity::Required)], pk.clone())]);
    let n = schema(vec![table("T", vec![col("x", TypeFamily::Int, ColumnArity::Required)], pk)]);
    (p, n)
}

fn cast_flavour(change: ColumnTypeChange) -> Flavour {
    Flavour {
        casts: vec![CastRule { from: TypeFamily::String, to: TypeFamily::Int, change }],
        default_cast: ColumnTypeChange::SafeCast,
        ..flavour()
    }
}

fn type_changed() -> ColumnChanges {
    ColumnChanges { type_changed: true, arity_changed: false, default_changed: false, auto_increment_changed: false }
}

#[test]
fn risky_type_change_alters_the_column() {
    let (p, n) = type_change_schemas(false);
    assert_eq!(
        diff(&p, &n, &cast_flavour(ColumnTypeChange::RiskyCast)),
        vec![SqlMigrationStep::AlterTable(AlterTable {
            table_ids: Pair { previous: 0, next: 0 },
            changes: vec![TableChange::AlterColumn(AlterColumn {
                column_id: Pair { previous: 0, next: 0 },
                changes: type_changed(),
                type_change: Some(ColumnTypeChange::RiskyCast),
            })],
        })]
    );
}

#[test]
fn not_castable_change_recreates_the_column() {
    let (p, n) = type_change_schemas(false);
    assert_eq!(
        diff(&p, &n, &cast_flavour(ColumnTypeChange::NotCastable)),
        vec![SqlMigrationStep::AlterTable(AlterTable {
            table_ids: Pair { previous: 0, next: 0 },
            changes: vec![TableChange::DropAndRecreateColumn {
                column_id: Pair { previous: 0, next: 0 },
                changes: type_changed(),
            }],
        })]
    );
}

#[test]
fn recreated_key_column_recreates_the_primary_key() {
    let (p, n) = type_change_schemas(true);
    let fl = Flavour {
        recreate_primary_key_on_column_recreate: true,
        ..cast_flavour(ColumnTypeChange::NotCastable)
    };
    assert_eq!(
        diff(&p, &n, &fl),
        vec![SqlMigrationStep::AlterTable(AlterTable {
            table_ids: Pair { previous: 0, next: 0 },
            changes: vec![
                TableChange::DropPrimaryKey,
                TableChange::DropAndRecreateColumn { column_id: Pair { previous: 0, next: 0 }, changes: type_changed() },
                TableChange::AddPrimaryKey,
            ],
        })]
    );
}

#[test]
fn unlisted_type_change_takes_the_default_castability() {
    let p = schema(vec![table("T", vec![col("x", TypeFamily::Int, ColumnArity::Required)], None)]);
    let n = schema(vec![table("T", vec![col("x", TypeFamily::BigInt, ColumnArity::Required)], None)]);
    let steps = diff(&p, &n, &cast_flavour(ColumnTypeChange::NotCastable));
    assert_eq!(
        steps,
        vec![SqlMigrationStep::AlterTable(AlterTable {
            table_ids: Pair { previous: 0, next: 0 },
            changes: vec![TableChange::AlterColumn(AlterColumn {
                column_id: Pair { previous: 0, next: 0 },
                changes: type_changed(),
                type_change: Some(ColumnTypeChange::SafeCast),
            })],
        })]
    );
}

#[test]
fn sqlite_redefines_a_table_that_gains_a_foreign_key() {
    let u = table("U", vec![col("id", TypeFamily::Int, ColumnArity::Required)], Some(vec![0]));
    let p = schema(vec![table("T", vec![col("a", TypeFamily::Int, ColumnArity::Required)], None), u.clone()]);
    let mut t = table(
        "T",
        vec![col("a", TypeFamily::Int, ColumnArity::Required), col("b", TypeFamily::Int, ColumnArity::Nullable)],
        None,
    );
    t.foreign_keys.push(fk(vec![1], "U", vec!["id"]));
    let n = schema(vec![t, u]);
    let fl = Flavour { redefines_tables: true, can_alter_index: false, ..flavour() };
    let steps = diff(&p, &n, &fl);
    assert_eq!(steps.len(), 1);
    match &steps[0] {
        SqlMigrationStep::RedefineTables(tables) => {
            assert_eq!(tables.len(), 1);
            assert_eq!(tables[0].table_ids, Pair { previous: 0, next: 0 });
            assert_eq!(tables[0].added_columns, vec![1]);
            assert!(tables[0].dropped_columns.is_empty());
            assert!(!tables[0].dropped_primary_key);
            assert_eq!(tables[0].column_pairs.len(), 1);
        }
        other => panic!("unexpected step {:?}", other),
    }
}

#[test]
fn enum_change_keeps_default_usages() {
    let mut c = col("c", TypeFamily::Enum("Color".to_string()), ColumnArity::Required);
    c.default = Some("R".to_string());
    let p = SqlSchema {
        tables: vec![table("T", vec![c.clone()], None)],
        enums: vec![EnumType { name: "Color".to_string(), values: vec!["R".to_string(), "G".to_string()] }],
    };
    let n = SqlSchema {
        tables: vec![table("T", vec![c], None)],
        enums: vec![EnumType {
            name: "Color".to_string(),
            values: vec!["R".to_string(), "G".to_string(), "B".to_string()],
        }],
    };
    let fl = Flavour { supports_enums: true, ..flavour() };
    let steps = diff(&p, &n, &fl);
    assert_eq!(steps.len(), 1);
    match &steps[0] {
        SqlMigrationStep::AlterEnum(ae) => {
            assert_eq!(ae.index, Pair { previous: 0, next: 0 });
            assert_eq!(ae.created_variants, vec!["B".to_string()]);
            assert!(ae.dropped_variants.is_empty());
            assert_eq!(
                ae.previous_usages_as_default,
                vec![EnumDefaultUsage {
                    previous: ColumnRef { table_id: 0, column_id: 0 },
                    next: Some(ColumnRef { table_id: 0, column_id: 0 }),
                }]
            );
        }
        other => panic!("unexpected step {:?}", other),
    }
}

#[test]
fn steps_are_ordered_by_kind() {
    let a = table("A", vec![col("id", TypeFamily::Int, ColumnArity::Required)], Some(vec![0]));
    let mut b = table("B", vec![col("aid", TypeFamily::Int, ColumnArity::Required)], None);
    b.foreign_keys.push(fk(vec![0], "A", vec!["id"]));
    let mut c = table("C", vec![col("aid", TypeFamily::Int, ColumnArity::Required)], None);
    c.foreign_keys.push(fk(vec![0], "A", vec!["id"]));
    let p = schema(vec![a.clone(), b]);
    let n = schema(vec![a, c]);
    let fl = Flavour {
        drop_foreign_keys_from_dropped_tables: true,
        push_foreign_keys_from_created_tables: true,
        ..flavour()
    };
    assert_eq!(
        diff(&p, &n, &fl),
        vec![
            SqlMigrationStep::CreateTable { table_id: 1 },
            SqlMigrationStep::AddForeignKey { table_id: 1, foreign_key_index: 0 },
            SqlMigrationStep::DropForeignKey { table_id: 1, foreign_key_index: 0 },
            SqlMigrationStep::DropTable { table_id: 1 },
        ]
    );
}

#[test]
fn primary_key_change_brackets_the_column_changes() {
    let p = schema(vec![table(
        "T",
        vec![col("a", TypeFamily::Int, ColumnArity::Required), col("old", TypeFamily::Int, ColumnArity::Required)],
        Some(vec![0]),
    )]);
    let n = schema(vec![table(
        "T",
        vec![col("a", TypeFamily::Int, ColumnArity::Required), col("new", TypeFamily::Int, ColumnArity::Required)],
        Some(vec![0, 1]),
    )]);
    assert_eq!(
        diff(&p, &n, &flavour()),
        vec![SqlMigrationStep::AlterTable(AlterTable {
            table_ids: Pair { previous: 0, next: 0 },
            changes: vec![
                TableChange::DropPrimaryKey,
                TableChange::DropColumn { column_id: 1 },
                TableChange::AddColumn { column_id: 1 },
                TableChange::AddPrimaryKey,
            ],
        })]
    );
}

#[test]
fn unchanged_column_gets_no_step() {
    let p = schema(vec![table(
        "T",
        vec![col("a", TypeFamily::Int, ColumnArity::Required), col("b", TypeFamily::Int, ColumnArity::Required)],
        None,
    )]);
    let n = schema(vec![table(
        "T",
        vec![col("a", TypeFamily::Int, ColumnArity::Required), col("b", TypeFamily::Int, ColumnArity::Nullable)],
        None,
    )]);
    let steps = diff(&p, &n, &flavour());
    assert_eq!(
        steps,
        vec![SqlMigrationStep::AlterTable(AlterTable {
            table_ids: Pair { previous: 0, next: 0 },
            changes: vec![TableChange::AlterColumn(AlterColumn {
                column_id: Pair { previous: 1, next: 1 },
                changes: ColumnChanges {
                    type_changed: false,
                    arity_changed: true,
                    default_changed: false,
                    auto_increment_changed: false,
                },
                type_change: None,
            })],
        })]
    );
}

#[test]
fn foreign_key_matching_is_symmetric_and_tolerates_uuid_strings() {
    let pt = table("B", vec![col("aid", TypeFamily::Uuid, ColumnArity::Required)], None);
    let nt = table("B", vec![col("aid", TypeFamily::String, ColumnArity::Required)], None);
    let f = fk(vec![0], "A", vec!["id"]);
    let fl = flavour();
    assert!(foreign_keys_match(&fl, &pt, &f, &nt, &f));
    assert!(foreign_keys_match(&fl, &nt, &f, &pt, &f));
    let other = fk(vec![0], "A", vec!["other"]);
    assert!(!foreign_keys_match(&fl, &pt, &f, &nt, &other));
}

#[test]
fn foreign_key_arity_tolerates_only_required_to_nullable() {
    let req = table("B", vec![col("aid", TypeFamily::Int, ColumnArity::Required)], None);
    let opt = table("B", vec![col("aid", TypeFamily::Int, ColumnArity::Nullable)], None);
    let f = fk(vec![0], "A", vec!["id"]);
    let fl = flavour();
    assert!(foreign_keys_match(&fl, &req, &f, &opt, &f));
    assert!(!foreign_keys_match(&fl, &opt, &f, &req, &f));
    let coping = Flavour { can_cope_with_foreign_key_column_becoming_nonnullable: true, ..flavour() };
    assert!(foreign_keys_match(&coping, &opt, &f, &req, &f));
}

#[test]
fn referential_actions_count_when_tracked() {
    let t = table("B", vec![col("aid", TypeFamily::Int, ColumnArity::Required)], None);
    let f = fk(vec![0], "A", vec!["id"]);
    let mut g = f.clone();
    g.on_delete = ForeignKeyAction::Cascade;
    assert!(foreign_keys_match(&flavour(), &t, &f, &t, &g));
    let tracking = Flavour { referential_actions: true, ..flavour() };
    assert!(!foreign_keys_match(&tracking, &t, &f, &t, &g));
}

#[test]
fn case_insensitive_flavour_pairs_tables_across_case() {
    let p = schema(vec![table("users", vec![col("id", TypeFamily::Int, ColumnArity::Required)], None)]);
    let n = schema(vec![table("Users", vec![col("id", TypeFamily::Int, ColumnArity::Required)], None)]);
    let ci = Flavour { case_insensitive_table_names: true, ..flavour() };
    assert_eq!(diff(&p, &n, &ci), vec![]);
    assert_eq!(
        diff(&p, &n, &flavour()),
        vec![SqlMigrationStep::CreateTable { table_id: 0 }, SqlMigrationStep::DropTable { table_id: 0 }]
    );
}

#[test]
fn index_changes_are_drops_creates_and_renames() {
    let cols = vec![col("a", TypeFamily::Int, ColumnArity::Required), col("b", TypeFamily::Int, ColumnArity::Required)];
    let mut pt = table("T", cols.clone(), None);
    pt.indexes.push(Index { name: "i_a".to_string(), kind: IndexType::Normal, columns: vec![0] });
    pt.indexes.push(Index { name: "i_b".to_string(), kind: IndexType::Normal, columns: vec![1] });
    let mut nt = table("T", cols, None);
    nt.indexes.push(Index { name: "renamed".to_string(), kind: IndexType::Normal, columns: vec![0] });
    nt.indexes.push(Index { name: "i_b".to_string(), kind: IndexType::Unique, columns: vec![1] });
    let p = schema(vec![pt]);
    let n = schema(vec![nt]);
    let fl = Flavour { can_rename_index: true, ..flavour() };
    assert_eq!(
        diff(&p, &n, &fl),
        vec![
            SqlMigrationStep::CreateIndex { previous_table_id: Some(0), table_id: 0, index_index: 1 },
            SqlMigrationStep::AlterIndex { table: Pair { previous: 0, next: 0 }, index: Pair { previous: 0, next: 0 } },
            SqlMigrationStep::DropIndex { table_id: 0, index_index: 1 },
        ]
    );
    let no_alter = Flavour { can_alter_index: false, ..fl };
    let steps = diff(&p, &n, &no_alter);
    assert!(steps.contains(&SqlMigrationStep::RedefineIndex {
        table: Pair { previous: 0, next: 0 },
        index: Pair { previous: 0, next: 0 },
    }));
}

#[test]
fn created_and_dropped_enums() {
    let p = SqlSchema {
        tables: vec![],
        enums: vec![EnumType { name: "Old".to_string(), values: vec!["A".to_string()] }],
    };
    let n = SqlSchema {
        tables: vec![],
        enums: vec![EnumType { name: "New".to_string(), values: vec!["A".to_string()] }],
    };
    let fl = Flavour { supports_enums: true, ..flavour() };
    assert_eq!(
        diff(&p, &n, &fl),
        vec![SqlMigrationStep::CreateEnum { enum_index: 0 }, SqlMigrationStep::DropEnum { enum_index: 0 }]
    );
    assert_eq!(diff(&p, &n, &flavour()), vec![]);
}

#[test]
fn created_table_indexes_are_created_unless_skipped() {
    let mut t = table("T", vec![col("a", TypeFamily::Int, ColumnArity::Required)], None);
    t.indexes.push(Index { name: "u".to_string(), kind: IndexType::Unique, columns: vec![0] });
    t.indexes.push(Index { name: "n".to_string(), kind: IndexType::Normal, columns: vec![0] });
    let p = schema(vec![]);
    let n = schema(vec![t]);
    let fl = Flavour { create_indexes_from_created_tables: true, skip_unique_indexes_for_new_tables: true, ..flavour() };
    assert_eq!(
        diff(&p, &n, &fl),
        vec![
            SqlMigrationStep::CreateTable { table_id: 0 },
            SqlMigrationStep::CreateIndex { previous_table_id: None, table_id: 0, index_index: 1 },
        ]
    );
}

#[test]
fn dropped_table_foreign_keys_come_before_the_table() {
    let a = table("A", vec![col("id", TypeFamily::Int, ColumnArity::Required)], Some(vec![0]));
    let mut b = table("B", vec![col("aid", TypeFamily::Int, ColumnArity::Required)], None);
    b.foreign_keys.push(fk(vec![0], "A", vec!["id"]));
    let p = schema(vec![a.clone(), b]);
    let n = schema(vec![a]);
    let fl = Flavour { drop_foreign_keys_from_dropped_tables: true, ..flavour() };
    let d = schema_differ::differ::SqlSchemaDiffer { previous: &p, next: &n, flavour: &fl };
    let mut steps = Vec::new();
    d.drop_tables(&mut steps);
    assert_eq!(
        steps,
        vec![
            SqlMigrationStep::DropForeignKey { table_id: 1, foreign_key_index: 0 },
            SqlMigrationStep::DropTable { table_id: 1 },
        ]
    );
}

#[test]
fn tables_pair_by_name_across_positions() {
    let t = table("T", vec![col("a", TypeFamily::Int, ColumnArity::Required)], None);
    let u = table("U", vec![col("a", TypeFamily::Int, ColumnArity::Required)], None);
    let p = schema(vec![t.clone(), u.clone()]);
    let n = schema(vec![u, t]);
    let fl = flavour();
    let d = schema_differ::differ::SqlSchemaDiffer { previous: &p, next: &n, flavour: &fl };
    assert_eq!(d.table_pairs(), vec![Pair { previous: 0, next: 1 }, Pair { previous: 1, next: 0 }]);
}
