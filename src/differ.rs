use vstd::prelude::*;

use crate::flavour::Flavour;
use crate::index::{
    index_covers_fk, index_pairs, index_pairs_upto, spec_index_covers_fk, unmatched_indexes,
    unmatched_indexes_upto,
};
use crate::schema::{ColumnId, SqlSchema, Table, TableId};
use crate::steps::{
    exact_steps, lemma_steps_fit_append, steps_fit, AlterColumn, AlterTable, ColumnTypeChange, Pair,
    PlannedRedefine, PlannedStep, RedefineTable, RedefinedColumn, SqlMigrationStep, TableChange,
};
use crate::table::{
    all_changes, alter_columns_upto, recreates_primary_key_column, spec_column_changes,
    spec_created_primary_key, spec_dropped_primary_key, unmatched_fks_upto, TableDiffer,
};

verus! {

/// The differ of two schemas under one flavour.
pub struct SqlSchemaDiffer<'a> {
    pub previous: &'a SqlSchema,
    pub next: &'a SqlSchema,
    pub flavour: &'a Flavour,
}

/// The first table at or after position `j` whose name matches `name`.
pub open spec fn first_match_from(fl: Flavour, name: Seq<char>, tables: Seq<Table>, j: int) -> Option<nat>
    decreases tables.len() - j,
{
    if j < 0 || j >= tables.len() {
        None
    } else if fl.spec_table_names_match(name, tables[j].name@) {
        Some(j as nat)
    } else {
        first_match_from(fl, name, tables, j + 1)
    }
}

/// The first table whose name matches `name`.
pub open spec fn first_match(fl: Flavour, name: Seq<char>, tables: Seq<Table>) -> Option<nat> {
    first_match_from(fl, name, tables, 0)
}

/// The pairs of the first `n` previous tables with their next counterparts.
pub open spec fn table_pairs_upto(fl: Flavour, prev: Seq<Table>, next: Seq<Table>, n: int) -> Seq<Pair<TableId>>
    decreases n,
{
    if n <= 0 {
        Seq::empty()
    } else {
        let p = table_pairs_upto(fl, prev, next, n - 1);
        match first_match(fl, prev[n - 1].name@, next) {
            Some(j) => p.push(Pair { previous: (n - 1) as usize, next: j as usize }),
            None => p,
        }
    }
}

/// The tables among the first `n` of `side` that no table of `other` matches.
pub open spec fn unmatched_upto(fl: Flavour, side: Seq<Table>, other: Seq<Table>, n: int) -> Seq<TableId>
    decreases n,
{
    if n <= 0 {
        Seq::empty()
    } else {
        let p = unmatched_upto(fl, side, other, n - 1);
        if first_match(fl, side[n - 1].name@, other) is None {
            p.push((n - 1) as usize)
        } else {
            p
        }
    }
}

/// The steps that create the tables `ids` of the next schema, each followed by its foreign keys
/// where the flavour adds them at once.
pub open spec fn create_table_steps(fl: Flavour, next: Seq<Table>, ids: Seq<TableId>) -> Seq<SqlMigrationStep>
    decreases ids.len(),
{
    if ids.len() == 0 {
        Seq::empty()
    } else {
        let t = ids.last();
        create_table_steps(fl, next, ids.drop_last()) + seq![SqlMigrationStep::CreateTable { table_id: t }]
            + if fl.push_foreign_keys_from_created_tables {
            Seq::new(
                next[t as int].foreign_keys@.len(),
                |f: int| SqlMigrationStep::AddForeignKey { table_id: t, foreign_key_index: f as usize },
            )
        } else {
            Seq::empty()
        }
    }
}

/// The steps that drop the tables `ids` of the previous schema, each preceded by the drops of
/// its foreign keys where the flavour asks for them.
pub open spec fn drop_table_steps(fl: Flavour, prev: Seq<Table>, ids: Seq<TableId>) -> Seq<SqlMigrationStep>
    decreases ids.len(),
{
    if ids.len() == 0 {
        Seq::empty()
    } else {
        let t = ids.last();
        drop_table_steps(fl, prev, ids.drop_last()) + (if fl.drop_foreign_keys_from_dropped_tables {
            Seq::new(
                prev[t as int].foreign_keys@.len(),
                |f: int| SqlMigrationStep::DropForeignKey { table_id: t, foreign_key_index: f as usize },
            )
        } else {
            Seq::empty()
        }) + seq![SqlMigrationStep::DropTable { table_id: t }]
    }
}

/// The position of the first table of `tables` whose name matches `name`.
pub fn find_table(fl: &Flavour, name: &String, tables: &Vec<Table>) -> (r: Option<usize>)
    ensures
        r == (match first_match(*fl, name@, tables@) {
            Some(j) => Some(j as usize),
            None => None,
        }),
        r is Some ==> r->0 < tables@.len(),
{
    let mut j: usize = 0;
    while j < tables.len()
        invariant
            0 <= j <= tables@.len(),
            first_match(*fl, name@, tables@) == first_match_from(*fl, name@, tables@, j as int),
        decreases tables@.len() - j,
    {
        if fl.table_names_match(name, &tables[j].name) {
            return Some(j);
        }
        j += 1;
    }
    None
}

impl<'a> SqlSchemaDiffer<'a> {
    /// Neither schema has two tables whose names the flavour takes for the same table.
    pub open spec fn distinct_names(&self) -> bool {
        distinct_table_names(*self.flavour, self.previous.tables@) && distinct_table_names(
            *self.flavour,
            self.next.tables@,
        )
    }

    pub open spec fn spec_table_pairs(&self) -> Seq<Pair<TableId>> {
        table_pairs_upto(*self.flavour, self.previous.tables@, self.next.tables@, self.previous.tables@.len() as int)
    }

    pub open spec fn spec_created_tables(&self) -> Seq<TableId> {
        unmatched_upto(*self.flavour, self.next.tables@, self.previous.tables@, self.next.tables@.len() as int)
    }

    pub open spec fn spec_dropped_tables(&self) -> Seq<TableId> {
        unmatched_upto(*self.flavour, self.previous.tables@, self.next.tables@, self.previous.tables@.len() as int)
    }

    /// The tables present in both schemas: each previous table with the first next table whose
    /// name matches, in the order of the previous schema.
    pub fn table_pairs(&self) -> (r: Vec<Pair<TableId>>)
        ensures
            r@ == self.spec_table_pairs(),
            forall|k: int|
                0 <= k < r@.len() ==> (#[trigger] r@[k]).previous < self.previous.tables@.len()
                    && r@[k].next < self.next.tables@.len(),
            self.distinct_names() ==> forall|k1: int, k2: int|
                0 <= k1 < k2 < r@.len() ==> (#[trigger] r@[k1]).previous != (#[trigger] r@[k2]).previous
                    && r@[k1].next != r@[k2].next,
            self.distinct_names() ==> forall|j: int|
                0 <= j < self.next.tables@.len() ==> (first_match(
                    *self.flavour,
                    self.next.tables@[j].name@,
                    self.previous.tables@,
                ) is Some <==> exists|k: int| 0 <= k < r@.len() && (#[trigger] r@[k]).next == j),
    {
        let _ = self.previous.tables.len();
        let _ = self.next.tables.len();
        let prev = &self.previous.tables;
        let mut r: Vec<Pair<TableId>> = Vec::new();
        let mut i: usize = 0;
        while i < prev.len()
            invariant
                0 <= i <= prev@.len(),
                prev == &self.previous.tables,
                r@ == table_pairs_upto(*self.flavour, prev@, self.next.tables@, i as int),
                forall|k: int|
                    0 <= k < r@.len() ==> (#[trigger] r@[k]).previous < i && r@[k].next
                        < self.next.tables@.len(),
            decreases prev@.len() - i,
        {
            match find_table(self.flavour, &prev[i].name, &self.next.tables) {
                Some(j) => r.push(Pair { previous: i, next: j }),
                None => {},
            }
            i += 1;
        }
        proof {
            if self.distinct_names() {
                lemma_table_pairs_one_to_one(*self);
                assert forall|jj: int| 0 <= jj < self.next.tables@.len() implies (first_match(
                    *self.flavour,
                    self.next.tables@[jj].name@,
                    self.previous.tables@,
                ) is Some <==> exists|k: int| 0 <= k < r@.len() && (#[trigger] r@[k]).next == jj) by {
                    if exists|k: int| 0 <= k < r@.len() && (#[trigger] r@[k]).next == jj {
                        let k = choose|k: int| 0 <= k < r@.len() && (#[trigger] r@[k]).next == jj;
                        assert(self.spec_table_pairs()[k].next == jj);
                    }
                }
            }
        }
        r
    }

    /// The tables of the next schema that no previous table matches.
    pub fn created_tables(&self) -> (r: Vec<TableId>)
        ensures
            r@ == self.spec_created_tables(),
    {
        unmatched_tables(self.flavour, &self.next.tables, &self.previous.tables)
    }

    /// The tables of the previous schema that no next table matches.
    pub fn dropped_tables(&self) -> (r: Vec<TableId>)
        ensures
            r@ == self.spec_dropped_tables(),
    {
        unmatched_tables(self.flavour, &self.previous.tables, &self.next.tables)
    }

    /// Appends a `CreateTable` for each created table, followed, where the flavour asks for it,
    /// by an `AddForeignKey` for each of its foreign keys.
    pub fn push_create_tables(&self, steps: &mut Vec<SqlMigrationStep>)
        ensures
            final(steps)@ == old(steps)@ + create_table_steps(
                *self.flavour,
                self.next.tables@,
                self.spec_created_tables(),
            ),
    {
        let created = self.created_tables();
        let ghost start = steps@;
        let _ = self.next.tables.len();
        proof {
            lemma_unmatched_below(*self.flavour, self.next.tables@, self.previous.tables@, self.next.tables@.len() as int);
        }
        let mut k: usize = 0;
        while k < created.len()
            invariant
                0 <= k <= created@.len(),
                created@ == self.spec_created_tables(),
                forall|m: int| 0 <= m < created@.len() ==> #[trigger] created@[m] < self.next.tables@.len(),
                steps@ == start + create_table_steps(
                    *self.flavour,
                    self.next.tables@,
                    created@.subrange(0, k as int),
                ),
            decreases created@.len() - k,
        {
            let t = created[k];
            assert(created@.subrange(0, k + 1).drop_last() =~= created@.subrange(0, k as int));
            let ghost before = steps@;
            steps.push(SqlMigrationStep::CreateTable { table_id: t });
            if self.flavour.push_foreign_keys_from_created_tables {
                let n = self.next.tables[t].foreign_keys.len();
                let mut f: usize = 0;
                while f < n
                    invariant
                        0 <= f <= n,
                        n == self.next.tables@[t as int].foreign_keys@.len(),
                        steps@ == before + seq![SqlMigrationStep::CreateTable { table_id: t }]
                            + Seq::new(
                            f as nat,
                            |g: int| SqlMigrationStep::AddForeignKey { table_id: t, foreign_key_index: g as usize },
                        ),
                    decreases n - f,
                {
                    steps.push(SqlMigrationStep::AddForeignKey { table_id: t, foreign_key_index: f });
                    f += 1;
                }
            }
            assert(steps@ =~= start + create_table_steps(
                *self.flavour,
                self.next.tables@,
                created@.subrange(0, k + 1),
            ));
            k += 1;
        }
        assert(created@.subrange(0, created@.len() as int) =~= created@);
    }

    /// Appends a `DropTable` for each dropped table, preceded, where the flavour asks for it, by
    /// a `DropForeignKey` for each of its foreign keys.
    pub fn drop_tables(&self, steps: &mut Vec<SqlMigrationStep>)
        ensures
            final(steps)@ == old(steps)@ + drop_table_steps(
                *self.flavour,
                self.previous.tables@,
                self.spec_dropped_tables(),
            ),
    {
        let dropped = self.dropped_tables();
        let ghost start = steps@;
        let _ = self.previous.tables.len();
        proof {
            lemma_unmatched_below(*self.flavour, self.previous.tables@, self.next.tables@, self.previous.tables@.len() as int);
        }
        let mut k: usize = 0;
        while k < dropped.len()
            invariant
                0 <= k <= dropped@.len(),
                dropped@ == self.spec_dropped_tables(),
                forall|m: int| 0 <= m < dropped@.len() ==> #[trigger] dropped@[m] < self.previous.tables@.len(),
                steps@ == start + drop_table_steps(
                    *self.flavour,
                    self.previous.tables@,
                    dropped@.subrange(0, k as int),
                ),
            decreases dropped@.len() - k,
        {
            let t = dropped[k];
            assert(dropped@.subrange(0, k + 1).drop_last() =~= dropped@.subrange(0, k as int));
            let ghost before = steps@;
            if self.flavour.drop_foreign_keys_from_dropped_tables {
                let n = self.previous.tables[t].foreign_keys.len();
                let mut f: usize = 0;
                while f < n
                    invariant
                        0 <= f <= n,
                        n == self.previous.tables@[t as int].foreign_keys@.len(),
                        steps@ == before + Seq::new(
                            f as nat,
                            |g: int| SqlMigrationStep::DropForeignKey { table_id: t, foreign_key_index: g as usize },
                        ),
                    decreases n - f,
                {
                    steps.push(SqlMigrationStep::DropForeignKey { table_id: t, foreign_key_index: f });
                    f += 1;
                    assert(steps@ =~= before + Seq::new(
                        f as nat,
                        |g: int| SqlMigrationStep::DropForeignKey { table_id: t, foreign_key_index: g as usize },
                    ));
                }
            }
            steps.push(SqlMigrationStep::DropTable { table_id: t });
            assert(steps@ =~= start + drop_table_steps(
                *self.flavour,
                self.previous.tables@,
                dropped@.subrange(0, k + 1),
            ));
            k += 1;
        }
        assert(dropped@.subrange(0, dropped@.len() as int) =~= dropped@);
    }
}

/// The `DropPrimaryKey` of a table pair, if the key is dropped, or recreated with a column.
pub open spec fn spec_drop_primary_key(td: TableDiffer) -> Option<TableChange> {
    if spec_dropped_primary_key(td.tables()) || (td.flavour.recreate_primary_key_on_column_recreate
        && recreates_primary_key_column(td.tables(), td.spec_alter_columns())) {
        Some(TableChange::DropPrimaryKey)
    } else {
        None
    }
}

/// The `AddPrimaryKey` of a table pair, if a key with columns is created, or recreated with a
/// column.
pub open spec fn spec_add_primary_key(td: TableDiffer) -> Option<TableChange> {
    if (spec_created_primary_key(td.tables()) && td.next.primary_key->0.columns@.len() > 0) || (
    td.flavour.recreate_primary_key_on_column_recreate && recreates_primary_key_column(
        td.tables(),
        td.spec_alter_columns(),
    )) {
        Some(TableChange::AddPrimaryKey)
    } else {
        None
    }
}

pub open spec fn opt_seq<T>(o: Option<T>) -> Seq<T> {
    match o {
        Some(x) => seq![x],
        None => Seq::empty(),
    }
}

pub open spec fn spec_drop_columns(td: TableDiffer) -> Seq<TableChange> {
    td.spec_dropped_columns().map_values(|c: ColumnId| TableChange::DropColumn { column_id: c })
}

pub open spec fn spec_add_columns(td: TableDiffer) -> Seq<TableChange> {
    td.spec_added_columns().map_values(|c: ColumnId| TableChange::AddColumn { column_id: c })
}

/// The changes of a table pair, in their canonical order.
pub open spec fn spec_table_changes(td: TableDiffer) -> Seq<TableChange> {
    opt_seq(spec_drop_primary_key(td)) + spec_drop_columns(td) + spec_add_columns(td)
        + td.spec_alter_columns() + opt_seq(spec_add_primary_key(td))
}

impl<'a> SqlSchemaDiffer<'a> {
    /// A `DropColumn` for each column that the next table lacks.
    pub fn drop_columns(td: &TableDiffer) -> (r: Vec<TableChange>)
        ensures
            r@ == spec_drop_columns(*td),
    {
        ids_to_changes(td.dropped_columns(), true)
    }

    /// An `AddColumn` for each column that the previous table lacks.
    pub fn add_columns(td: &TableDiffer) -> (r: Vec<TableChange>)
        ensures
            r@ == spec_add_columns(*td),
    {
        ids_to_changes(td.added_columns(), false)
    }

    /// An `AlterColumn` for each column pair that differs, a `DropAndRecreateColumn` where the type
    /// change cannot be cast; ordered by column ids.
    pub fn alter_columns(td: &TableDiffer) -> (r: Vec<TableChange>)
        ensures
            r@ == td.spec_alter_columns(),
    {
        let pairs = td.column_pairs();
        let mut r: Vec<TableChange> = Vec::new();
        let mut k: usize = 0;
        while k < pairs.len()
            invariant
                0 <= k <= pairs@.len(),
                pairs@ == td.spec_column_pairs(),
                forall|m: int|
                    0 <= m < pairs@.len() ==> (#[trigger] pairs@[m]).previous < td.previous.columns@.len()
                        && pairs@[m].next < td.next.columns@.len(),
                r@ == alter_columns_upto(*td.flavour, td.tables(), pairs@, k as int),
            decreases pairs@.len() - k,
        {
            let ids = pairs[k];
            let a = &td.previous.columns[ids.previous];
            let b = &td.next.columns[ids.next];
            let (changes, type_change) = all_changes(td.flavour, a, b);
            if changes.differs_in_something() {
                match type_change {
                    Some(ColumnTypeChange::NotCastable) => {
                        r.push(TableChange::DropAndRecreateColumn { column_id: ids, changes });
                    },
                    _ => {
                        r.push(
                            TableChange::AlterColumn(AlterColumn { column_id: ids, changes, type_change }),
                        );
                    },
                }
            }
            k += 1;
        }
        r
    }

    /// Whether a column that is dropped and recreated belongs to the previous primary key.
    fn recreates_key_column(td: &TableDiffer) -> (r: bool)
        ensures
            r == recreates_primary_key_column(td.tables(), td.spec_alter_columns()),
    {
        let alters = SqlSchemaDiffer::alter_columns(td);
        let mut k: usize = 0;
        while k < alters.len()
            invariant
                0 <= k <= alters@.len(),
                alters@ == td.spec_alter_columns(),
                forall|m: int|
                    0 <= m < k ==> !(match #[trigger] alters@[m] {
                        TableChange::DropAndRecreateColumn { column_id, .. } => td.previous.spec_in_primary_key(
                            column_id.previous,
                        ),
                        _ => false,
                    }),
            decreases alters@.len() - k,
        {
            match &alters[k] {
                TableChange::DropAndRecreateColumn { column_id, .. } => {
                    if td.previous.column_is_part_of_primary_key(column_id.previous) {
                        return true;
                    }
                },
                _ => {},
            }
            k += 1;
        }
        false
    }

    /// `DropPrimaryKey` where the previous key is gone or changed, or, where the flavour asks for
    /// it, where a column of the key is dropped and recreated.
    pub fn drop_primary_key(td: &TableDiffer) -> (r: Option<TableChange>)
        requires
            td.wf(),
        ensures
            r == spec_drop_primary_key(*td),
    {
        if td.dropped_primary_key() {
            return Some(TableChange::DropPrimaryKey);
        }
        if td.flavour.recreate_primary_key_on_column_recreate && SqlSchemaDiffer::recreates_key_column(td) {
            Some(TableChange::DropPrimaryKey)
        } else {
            None
        }
    }

    /// `AddPrimaryKey` where a next key with columns is new or changed, or, where the flavour asks
    /// for it, where a column of the previous key is dropped and recreated.
    pub fn add_primary_key(td: &TableDiffer) -> (r: Option<TableChange>)
        requires
            td.wf(),
        ensures
            r == spec_add_primary_key(*td),
    {
        if td.created_primary_key() {
            match &td.next.primary_key {
                Some(pk) => {
                    if pk.columns.len() > 0 {
                        return Some(TableChange::AddPrimaryKey);
                    }
                },
                None => {},
            }
        }
        if td.flavour.recreate_primary_key_on_column_recreate && SqlSchemaDiffer::recreates_key_column(td) {
            Some(TableChange::AddPrimaryKey)
        } else {
            None
        }
    }

    /// The changes of a table pair: the primary key's drop, the dropped, added and altered
    /// columns, and the primary key's creation.
    pub fn table_changes(td: &TableDiffer) -> (r: Vec<TableChange>)
        requires
            td.wf(),
        ensures
            r@ == spec_table_changes(*td),
    {
        let mut r: Vec<TableChange> = Vec::new();
        match SqlSchemaDiffer::drop_primary_key(td) {
            Some(c) => r.push(c),
            None => {},
        }
        let mut drops = SqlSchemaDiffer::drop_columns(td);
        r.append(&mut drops);
        let mut adds = SqlSchemaDiffer::add_columns(td);
        r.append(&mut adds);
        let mut alters = SqlSchemaDiffer::alter_columns(td);
        r.append(&mut alters);
        match SqlSchemaDiffer::add_primary_key(td) {
            Some(c) => r.push(c),
            None => {},
        }
        assert(r@ =~= spec_table_changes(*td));
        r
    }
}

/// A `DropColumn` (where `drop`) or an `AddColumn` for each id.
fn ids_to_changes(ids: Vec<ColumnId>, drop: bool) -> (r: Vec<TableChange>)
    ensures
        r@ == ids@.map_values(
            |c: ColumnId|
                if drop {
                    TableChange::DropColumn { column_id: c }
                } else {
                    TableChange::AddColumn { column_id: c }
                },
        ),
{
    let mut r: Vec<TableChange> = Vec::new();
    let mut k: usize = 0;
    while k < ids.len()
        invariant
            0 <= k <= ids@.len(),
            r@ == ids@.subrange(0, k as int).map_values(
                |c: ColumnId|
                    if drop {
                        TableChange::DropColumn { column_id: c }
                    } else {
                        TableChange::AddColumn { column_id: c }
                    },
            ),
        decreases ids@.len() - k,
    {
        if drop {
            r.push(TableChange::DropColumn { column_id: ids[k] });
        } else {
            r.push(TableChange::AddColumn { column_id: ids[k] });
        }
        k += 1;
        assert(r@ =~= ids@.subrange(0, k as int).map_values(
            |c: ColumnId|
                if drop {
                    TableChange::DropColumn { column_id: c }
                } else {
                    TableChange::AddColumn { column_id: c }
                },
        ));
    }
    assert(ids@.subrange(0, ids@.len() as int) =~= ids@);
    r
}

/// The differ of the tables that a pair names.
pub open spec fn differ_of<'a>(d: SqlSchemaDiffer<'a>, p: Pair<TableId>) -> TableDiffer<'a> {
    TableDiffer {
        flavour: d.flavour,
        previous: &d.previous.tables@[p.previous as int],
        next: &d.next.tables@[p.next as int],
    }
}

pub open spec fn spec_created_fks(td: TableDiffer) -> Seq<usize> {
    unmatched_fks_upto(*td.flavour, *td.next, *td.previous, false, td.next.foreign_keys@.len() as int)
}

pub open spec fn spec_dropped_fks(td: TableDiffer) -> Seq<usize> {
    unmatched_fks_upto(*td.flavour, *td.previous, *td.next, true, td.previous.foreign_keys@.len() as int)
}

/// The steps of one altered table pair: its new foreign keys, its dropped foreign keys, and an
/// `AlterTable` with its changes, if it has any.
pub open spec fn altered_table_plan(d: SqlSchemaDiffer, p: Pair<TableId>) -> Seq<PlannedStep> {
    let td = differ_of(d, p);
    let changes = spec_table_changes(td);
    exact_steps(
        spec_created_fks(td).map_values(
            |f: usize| SqlMigrationStep::AddForeignKey { table_id: p.next, foreign_key_index: f },
        ),
    ) + exact_steps(
        spec_dropped_fks(td).map_values(
            |f: usize| SqlMigrationStep::DropForeignKey { table_id: p.previous, foreign_key_index: f },
        ),
    ) + if changes.len() == 0 {
        Seq::empty()
    } else {
        seq![PlannedStep::AlterTable { table_ids: p, changes }]
    }
}

/// The steps of the table pairs `pairs` whose next table is not redefined.
pub open spec fn altered_tables_plan(d: SqlSchemaDiffer, redefine: Seq<TableId>, pairs: Seq<Pair<TableId>>) -> Seq<PlannedStep>
    decreases pairs.len(),
{
    if pairs.len() == 0 {
        Seq::empty()
    } else {
        let p = pairs.last();
        let pre = altered_tables_plan(d, redefine, pairs.drop_last());
        if redefine.contains(p.next) {
            pre
        } else {
            pre + altered_table_plan(d, p)
        }
    }
}

/// `steps` grew by steps that fit `plan`.
pub open spec fn appended(before: Seq<SqlMigrationStep>, after: Seq<SqlMigrationStep>, plan: Seq<PlannedStep>) -> bool {
    &&& before.len() <= after.len()
    &&& after.subrange(0, before.len() as int) == before
    &&& steps_fit(after.subrange(before.len() as int, after.len() as int), plan)
}

/// Whether `ids` holds `x`.
pub fn contains_id(ids: &Vec<usize>, x: usize) -> (r: bool)
    ensures
        r == ids@.contains(x),
{
    let mut k: usize = 0;
    while k < ids.len()
        invariant
            0 <= k <= ids@.len(),
            forall|m: int| 0 <= m < k ==> ids@[m] != x,
        decreases ids@.len() - k,
    {
        if ids[k] == x {
            assert(ids@[k as int] == x);
            return true;
        }
        k += 1;
    }
    false
}

/// An `AddForeignKey` (where `add`) or a `DropForeignKey` of table `table_id` for each id.
fn fk_steps(ids: &Vec<usize>, table_id: TableId, add: bool) -> (r: Vec<SqlMigrationStep>)
    ensures
        r@ == ids@.map_values(
            |f: usize|
                if add {
                    SqlMigrationStep::AddForeignKey { table_id, foreign_key_index: f }
                } else {
                    SqlMigrationStep::DropForeignKey { table_id, foreign_key_index: f }
                },
        ),
{
    let mut r: Vec<SqlMigrationStep> = Vec::new();
    let mut k: usize = 0;
    while k < ids.len()
        invariant
            0 <= k <= ids@.len(),
            r@ == ids@.subrange(0, k as int).map_values(
                |f: usize|
                    if add {
                        SqlMigrationStep::AddForeignKey { table_id, foreign_key_index: f }
                    } else {
                        SqlMigrationStep::DropForeignKey { table_id, foreign_key_index: f }
                    },
            ),
        decreases ids@.len() - k,
    {
        if add {
            r.push(SqlMigrationStep::AddForeignKey { table_id, foreign_key_index: ids[k] });
        } else {
            r.push(SqlMigrationStep::DropForeignKey { table_id, foreign_key_index: ids[k] });
        }
        k += 1;
        assert(r@ =~= ids@.subrange(0, k as int).map_values(
            |f: usize|
                if add {
                    SqlMigrationStep::AddForeignKey { table_id, foreign_key_index: f }
                } else {
                    SqlMigrationStep::DropForeignKey { table_id, foreign_key_index: f }
                },
        ));
    }
    assert(ids@.subrange(0, ids@.len() as int) =~= ids@);
    r
}

impl<'a> SqlSchemaDiffer<'a> {
    pub open spec fn wf(&self) -> bool {
        self.previous.wf() && self.next.wf()
    }

    /// For each table pair whose next table is not redefined: an `AddForeignKey` for each new
    /// foreign key, a `DropForeignKey` for each dropped one, then an `AlterTable` with the pair's
    /// changes in canonical order, where there are any.
    pub fn push_altered_tables(&self, tables_to_redefine: &Vec<TableId>, steps: &mut Vec<SqlMigrationStep>)
        requires
            self.wf(),
        ensures
            appended(
                old(steps)@,
                final(steps)@,
                altered_tables_plan(*self, tables_to_redefine@, self.spec_table_pairs()),
            ),
    {
        let pairs = self.table_pairs();
        let mut out: Vec<SqlMigrationStep> = Vec::new();
        let mut k: usize = 0;
        while k < pairs.len()
            invariant
                0 <= k <= pairs@.len(),
                self.wf(),
                pairs@ == self.spec_table_pairs(),
                forall|m: int|
                    0 <= m < pairs@.len() ==> (#[trigger] pairs@[m]).previous < self.previous.tables@.len()
                        && pairs@[m].next < self.next.tables@.len(),
                steps_fit(out@, altered_tables_plan(*self, tables_to_redefine@, pairs@.subrange(0, k as int))),
            decreases pairs@.len() - k,
        {
            let p = pairs[k];
            assert(pairs@.subrange(0, k + 1).drop_last() =~= pairs@.subrange(0, k as int));
            if !contains_id(tables_to_redefine, p.next) {
                let td = TableDiffer {
                    flavour: self.flavour,
                    previous: &self.previous.tables[p.previous],
                    next: &self.next.tables[p.next],
                };
                assert(td == differ_of(*self, p));
                let ghost before = out@;
                let created = td.created_foreign_keys();
                let mut adds = fk_steps(&created, p.next, true);
                let dropped = td.dropped_foreign_keys();
                let mut drops = fk_steps(&dropped, p.previous, false);
                let changes = SqlSchemaDiffer::table_changes(&td);
                let ghost ch = changes@;
                let mut part = Vec::new();
                part.append(&mut adds);
                part.append(&mut drops);
                let ghost fk_part = part@;
                if changes.len() > 0 {
                    part.push(SqlMigrationStep::AlterTable(AlterTable { table_ids: p, changes }));
                }
                proof {
                    crate::steps::lemma_exact_steps_fit(fk_part);
                    let tail = if ch.len() == 0 {
                        Seq::<PlannedStep>::empty()
                    } else {
                        seq![PlannedStep::AlterTable { table_ids: p, changes: ch }]
                    };
                    assert(exact_steps(fk_part) =~= exact_steps(created@.map_values(
                        |f: usize| SqlMigrationStep::AddForeignKey { table_id: p.next, foreign_key_index: f },
                    )) + exact_steps(dropped@.map_values(
                        |f: usize| SqlMigrationStep::DropForeignKey { table_id: p.previous, foreign_key_index: f },
                    )));
                    if ch.len() == 0 {
                        assert(part@ =~= fk_part);
                        assert(exact_steps(fk_part) + tail =~= exact_steps(fk_part));
                    } else {
                        assert(part@ =~= fk_part + seq![part@.last()]);
                        assert(steps_fit(seq![part@.last()], tail));
                        lemma_steps_fit_append(fk_part, exact_steps(fk_part), seq![part@.last()], tail);
                    }
                    assert(steps_fit(part@, altered_table_plan(*self, p)));
                    lemma_steps_fit_append(before, altered_tables_plan(*self, tables_to_redefine@, pairs@.subrange(0, k as int)), part@, altered_table_plan(*self, p));
                }
                out.append(&mut part);
            }
            k += 1;
        }
        assert(pairs@.subrange(0, pairs@.len() as int) =~= pairs@);
        let ghost old_steps = steps@;
        let ghost added = out@;
        steps.append(&mut out);
        assert(steps@.subrange(0, old_steps.len() as int) =~= old_steps);
        assert(steps@.subrange(old_steps.len() as int, steps@.len() as int) =~= added);
    }
}


/// A pair of matching indexes, with the pair of their tables.
#[derive(Debug, Clone, Copy, PartialEq, Eq)]
pub struct IndexPair {
    pub table: Pair<TableId>,
    pub index: Pair<usize>,
}

/// The `DropIndex` steps of the dropped indexes `ids` of table pair `p`, but for indexes that only
/// back a foreign key where the flavour skips those.
pub open spec fn pair_drop_index_steps(d: SqlSchemaDiffer, p: Pair<TableId>, ids: Seq<usize>) -> Seq<SqlMigrationStep>
    decreases ids.len(),
{
    if ids.len() == 0 {
        Seq::empty()
    } else {
        let pre = pair_drop_index_steps(d, p, ids.drop_last());
        let pt = d.previous.tables@[p.previous as int];
        if d.flavour.skip_fk_indexes && spec_index_covers_fk(pt, pt.indexes@[ids.last() as int]) {
            pre
        } else {
            pre.push(SqlMigrationStep::DropIndex { table_id: p.previous, index_index: ids.last() })
        }
    }
}

pub open spec fn pair_dropped_indexes(d: SqlSchemaDiffer, p: Pair<TableId>) -> Seq<usize> {
    let pt = d.previous.tables@[p.previous as int];
    let nt = d.next.tables@[p.next as int];
    unmatched_indexes_upto(pt, nt, true, pt.indexes@.len() as int)
}

pub open spec fn pairs_drop_index_steps(d: SqlSchemaDiffer, pairs: Seq<Pair<TableId>>) -> Seq<SqlMigrationStep>
    decreases pairs.len(),
{
    if pairs.len() == 0 {
        Seq::empty()
    } else {
        pairs_drop_index_steps(d, pairs.drop_last()) + pair_drop_index_steps(
            d,
            pairs.last(),
            pair_dropped_indexes(d, pairs.last()),
        )
    }
}

/// A `DropIndex` for every index of the tables `ids`.
pub open spec fn tables_drop_index_steps(prev: Seq<Table>, ids: Seq<TableId>) -> Seq<SqlMigrationStep>
    decreases ids.len(),
{
    if ids.len() == 0 {
        Seq::empty()
    } else {
        let t = ids.last();
        tables_drop_index_steps(prev, ids.drop_last()) + Seq::new(
            prev[t as int].indexes@.len(),
            |i: int| SqlMigrationStep::DropIndex { table_id: t, index_index: i as usize },
        )
    }
}

pub open spec fn spec_drop_indexes(d: SqlSchemaDiffer, redefine: Seq<TableId>) -> Seq<SqlMigrationStep> {
    pairs_drop_index_steps(d, d.spec_table_pairs()) + if redefine.len() > 0
        && d.flavour.drop_indexes_from_dropped_tables {
        tables_drop_index_steps(d.previous.tables@, d.spec_dropped_tables())
    } else {
        Seq::empty()
    }
}

/// The `CreateIndex` steps of the indexes of the created tables `ids` that the flavour does not skip.
pub open spec fn created_tables_index_steps(d: SqlSchemaDiffer, ids: Seq<TableId>) -> Seq<SqlMigrationStep>
    decreases ids.len(),
{
    if ids.len() == 0 {
        Seq::empty()
    } else {
        let t = ids.last();
        created_tables_index_steps(d, ids.drop_last()) + table_new_index_steps(
            d,
            t,
            d.next.tables@[t as int].indexes@.len() as int,
        )
    }
}

pub open spec fn table_new_index_steps(d: SqlSchemaDiffer, t: TableId, n: int) -> Seq<SqlMigrationStep>
    decreases n,
{
    if n <= 0 {
        Seq::empty()
    } else {
        let pre = table_new_index_steps(d, t, n - 1);
        if d.flavour.spec_skip_index_for_new_table(d.next.tables@[t as int].indexes@[n - 1]) {
            pre
        } else {
            pre.push(
                SqlMigrationStep::CreateIndex {
                    previous_table_id: None,
                    table_id: t,
                    index_index: (n - 1) as usize,
                },
            )
        }
    }
}

/// The next column `c` of the table pair is dropped and recreated.
pub open spec fn recreated_next_column(td: TableDiffer, c: usize) -> bool {
    exists|k: int|
        0 <= k < td.spec_column_pairs().len() && (#[trigger] td.spec_column_pairs()[k]).next == c
            && td.flavour.spec_type_change(
            td.previous.columns@[td.spec_column_pairs()[k].previous as int].family,
            td.next.columns@[c as int].family,
        ) == Some(ColumnTypeChange::NotCastable)
}

/// The index pairs among `ips` whose next index holds a recreated column.
pub open spec fn recreated_index_steps(td: TableDiffer, p: Pair<TableId>, ips: Seq<(usize, usize)>) -> Seq<SqlMigrationStep>
    decreases ips.len(),
{
    if ips.len() == 0 {
        Seq::empty()
    } else {
        let pre = recreated_index_steps(td, p, ips.drop_last());
        let b = td.next.indexes@[ips.last().1 as int];
        if exists|m: int| 0 <= m < b.columns@.len() && recreated_next_column(td, #[trigger] b.columns@[m]) {
            pre.push(
                SqlMigrationStep::CreateIndex {
                    previous_table_id: Some(p.previous),
                    table_id: p.next,
                    index_index: ips.last().1,
                },
            )
        } else {
            pre
        }
    }
}

/// The `CreateIndex` steps of one table pair.
pub open spec fn pair_create_index_steps(d: SqlSchemaDiffer, p: Pair<TableId>) -> Seq<SqlMigrationStep> {
    let td = differ_of(d, p);
    let created = unmatched_indexes_upto(*td.next, *td.previous, false, td.next.indexes@.len() as int);
    created.map_values(
        |i: usize|
            SqlMigrationStep::CreateIndex {
                previous_table_id: Some(p.previous),
                table_id: p.next,
                index_index: i,
            },
    ) + if d.flavour.recreate_indexes_after_column_drop {
        recreated_index_steps(td, p, index_pairs_upto(*td.previous, *td.next, td.previous.indexes@.len() as int))
    } else {
        Seq::empty()
    }
}

pub open spec fn pairs_create_index_steps(d: SqlSchemaDiffer, redefine: Seq<TableId>, pairs: Seq<Pair<TableId>>) -> Seq<SqlMigrationStep>
    decreases pairs.len(),
{
    if pairs.len() == 0 {
        Seq::empty()
    } else {
        let pre = pairs_create_index_steps(d, redefine, pairs.drop_last());
        if redefine.contains(pairs.last().next) {
            pre
        } else {
            pre + pair_create_index_steps(d, pairs.last())
        }
    }
}

pub open spec fn spec_create_indexes(d: SqlSchemaDiffer, redefine: Seq<TableId>) -> Seq<SqlMigrationStep> {
    (if d.flavour.create_indexes_from_created_tables {
        created_tables_index_steps(d, d.spec_created_tables())
    } else {
        Seq::empty()
    }) + pairs_create_index_steps(d, redefine, d.spec_table_pairs())
}

/// The renamed index pairs of the table pairs `pairs` that are not redefined.
pub open spec fn pairs_alter_indexes(d: SqlSchemaDiffer, redefine: Seq<TableId>, pairs: Seq<Pair<TableId>>) -> Seq<IndexPair>
    decreases pairs.len(),
{
    if pairs.len() == 0 {
        Seq::empty()
    } else {
        let pre = pairs_alter_indexes(d, redefine, pairs.drop_last());
        let p = pairs.last();
        if redefine.contains(p.next) {
            pre
        } else {
            let td = differ_of(d, p);
            pre + renamed_index_pairs(td, p, index_pairs_upto(*td.previous, *td.next, td.previous.indexes@.len() as int))
        }
    }
}

pub open spec fn renamed_index_pairs(td: TableDiffer, p: Pair<TableId>, ips: Seq<(usize, usize)>) -> Seq<IndexPair>
    decreases ips.len(),
{
    if ips.len() == 0 {
        Seq::empty()
    } else {
        let pre = renamed_index_pairs(td, p, ips.drop_last());
        let ip = ips.last();
        if td.flavour.spec_index_should_be_renamed(td.previous.indexes@[ip.0 as int], td.next.indexes@[ip.1 as int]) {
            pre.push(IndexPair { table: p, index: Pair { previous: ip.0, next: ip.1 } })
        } else {
            pre
        }
    }
}

impl<'a> SqlSchemaDiffer<'a> {
    /// A `DropIndex` for each index of a table pair that the next table lacks (but indexes that
    /// only back a foreign key, where the flavour skips those); where tables are redefined and
    /// the flavour asks for it, also for every index of the dropped tables.
    pub fn drop_indexes(&self, tables_to_redefine: &Vec<TableId>, steps: &mut Vec<SqlMigrationStep>)
        requires
            self.wf(),
        ensures
            final(steps)@ == old(steps)@ + spec_drop_indexes(*self, tables_to_redefine@),
    {
        let pairs = self.table_pairs();
        let ghost start = steps@;
        let mut k: usize = 0;
        while k < pairs.len()
            invariant
                0 <= k <= pairs@.len(),
                self.wf(),
                pairs@ == self.spec_table_pairs(),
                forall|m: int|
                    0 <= m < pairs@.len() ==> (#[trigger] pairs@[m]).previous < self.previous.tables@.len()
                        && pairs@[m].next < self.next.tables@.len(),
                steps@ == start + pairs_drop_index_steps(*self, pairs@.subrange(0, k as int)),
            decreases pairs@.len() - k,
        {
            let p = pairs[k];
            assert(pairs@.subrange(0, k + 1).drop_last() =~= pairs@.subrange(0, k as int));
            let pt = &self.previous.tables[p.previous];
            let nt = &self.next.tables[p.next];
            let dropped = unmatched_indexes(pt, nt, true);
            let ghost before = steps@;
            let mut j: usize = 0;
            while j < dropped.len()
                invariant
                    0 <= j <= dropped@.len(),
                    self.wf(),
                    p.previous < self.previous.tables@.len(),
                    pt == &self.previous.tables@[p.previous as int],
                    dropped@ == pair_dropped_indexes(*self, p),
                    forall|m: int| 0 <= m < dropped@.len() ==> #[trigger] dropped@[m] < pt.indexes@.len(),
                    steps@ == before + pair_drop_index_steps(*self, p, dropped@.subrange(0, j as int)),
                decreases dropped@.len() - j,
            {
                let i = dropped[j];
                assert(dropped@.subrange(0, j + 1).drop_last() =~= dropped@.subrange(0, j as int));
                if !(self.flavour.skip_fk_indexes && index_covers_fk(pt, &pt.indexes[i])) {
                    steps.push(SqlMigrationStep::DropIndex { table_id: p.previous, index_index: i });
                }
                j += 1;
            }
            assert(dropped@.subrange(0, dropped@.len() as int) =~= dropped@);
            k += 1;
        }
        assert(pairs@.subrange(0, pairs@.len() as int) =~= pairs@);
        let ghost mid = steps@;
        if tables_to_redefine.len() > 0 && self.flavour.drop_indexes_from_dropped_tables {
            let dropped = self.dropped_tables();
            let _ = self.previous.tables.len();
            proof {
                lemma_unmatched_below(*self.flavour, self.previous.tables@, self.next.tables@, self.previous.tables@.len() as int);
            }
            let mut k: usize = 0;
            while k < dropped.len()
                invariant
                    0 <= k <= dropped@.len(),
                    dropped@ == self.spec_dropped_tables(),
                    forall|m: int| 0 <= m < dropped@.len() ==> #[trigger] dropped@[m] < self.previous.tables@.len(),
                    steps@ == mid + tables_drop_index_steps(self.previous.tables@, dropped@.subrange(0, k as int)),
                decreases dropped@.len() - k,
            {
                let t = dropped[k];
                assert(dropped@.subrange(0, k + 1).drop_last() =~= dropped@.subrange(0, k as int));
                let ghost before = steps@;
                let n = self.previous.tables[t].indexes.len();
                let mut i: usize = 0;
                while i < n
                    invariant
                        0 <= i <= n,
                        n == self.previous.tables@[t as int].indexes@.len(),
                        steps@ == before + Seq::new(
                            i as nat,
                            |g: int| SqlMigrationStep::DropIndex { table_id: t, index_index: g as usize },
                        ),
                    decreases n - i,
                {
                    steps.push(SqlMigrationStep::DropIndex { table_id: t, index_index: i });
                    i += 1;
                    assert(steps@ =~= before + Seq::new(
                        i as nat,
                        |g: int| SqlMigrationStep::DropIndex { table_id: t, index_index: g as usize },
                    ));
                }
                k += 1;
            }
            assert(dropped@.subrange(0, dropped@.len() as int) =~= dropped@);
        }
        assert(steps@ =~= start + spec_drop_indexes(*self, tables_to_redefine@));
    }
}

/// The next ids of the column pairs whose type change cannot be cast.
fn recreated_next_columns(td: &TableDiffer) -> (r: Vec<usize>)
    ensures
        forall|c: usize| #[trigger] r@.contains(c) <==> recreated_next_column(*td, c),
{
    let pairs = td.column_pairs();
    let mut r: Vec<usize> = Vec::new();
    let mut k: usize = 0;
    while k < pairs.len()
        invariant
            0 <= k <= pairs@.len(),
            pairs@ == td.spec_column_pairs(),
            forall|m: int|
                0 <= m < pairs@.len() ==> (#[trigger] pairs@[m]).previous < td.previous.columns@.len()
                    && pairs@[m].next < td.next.columns@.len(),
            forall|c: usize|
                #[trigger] r@.contains(c) <==> exists|m: int|
                    0 <= m < k && (#[trigger] pairs@[m]).next == c && td.flavour.spec_type_change(
                        td.previous.columns@[pairs@[m].previous as int].family,
                        td.next.columns@[c as int].family,
                    ) == Some(ColumnTypeChange::NotCastable),
        decreases pairs@.len() - k,
    {
        let ids = pairs[k];
        let tc = td.flavour.column_type_change(
            &td.previous.columns[ids.previous].family,
            &td.next.columns[ids.next].family,
        );
        let ghost old_r = r@;
        match tc {
            Some(ColumnTypeChange::NotCastable) => {
                r.push(ids.next);
            },
            _ => {},
        }
        assert forall|c: usize| #[trigger] r@.contains(c) <==> exists|m: int|
            0 <= m < k + 1 && (#[trigger] pairs@[m]).next == c && td.flavour.spec_type_change(
                td.previous.columns@[pairs@[m].previous as int].family,
                td.next.columns@[c as int].family,
            ) == Some(ColumnTypeChange::NotCastable) by {
            if r@.contains(c) {
                if old_r.contains(c) {
                } else {
                    assert(r@[old_r.len() as int] == c);
                }
            }
            if exists|m: int|
                0 <= m < k + 1 && (#[trigger] pairs@[m]).next == c && td.flavour.spec_type_change(
                    td.previous.columns@[pairs@[m].previous as int].family,
                    td.next.columns@[c as int].family,
                ) == Some(ColumnTypeChange::NotCastable) {
                let m = choose|m: int|
                    0 <= m < k + 1 && (#[trigger] pairs@[m]).next == c && td.flavour.spec_type_change(
                        td.previous.columns@[pairs@[m].previous as int].family,
                        td.next.columns@[c as int].family,
                    ) == Some(ColumnTypeChange::NotCastable);
                if m < k {
                    assert(old_r.contains(c));
                    let w = choose|w: int| 0 <= w < old_r.len() && old_r[w] == c;
                    assert(r@[w] == c);
                } else {
                    assert(r@[old_r.len() as int] == c);
                }
            }
        }
        k += 1;
    }
    r
}

/// Whether some id of `a` is in `b`.
fn any_in(a: &Vec<usize>, b: &Vec<usize>) -> (r: bool)
    ensures
        r == exists|m: int| 0 <= m < a@.len() && b@.contains(#[trigger] a@[m]),
{
    let mut k: usize = 0;
    while k < a.len()
        invariant
            0 <= k <= a@.len(),
            forall|m: int| 0 <= m < k ==> !b@.contains(#[trigger] a@[m]),
        decreases a@.len() - k,
    {
        if contains_id(b, a[k]) {
            return true;
        }
        k += 1;
    }
    false
}

impl<'a> SqlSchemaDiffer<'a> {
    /// `CreateIndex` steps: where the flavour asks for it, for the indexes of created tables that
    /// it does not skip; for each table pair that is not redefined, for the indexes that the
    /// previous table lacks and, where the flavour asks for it, for the indexes over a column that
    /// is dropped and recreated.
    pub fn push_create_indexes(&self, tables_to_redefine: &Vec<TableId>, steps: &mut Vec<SqlMigrationStep>)
        requires
            self.wf(),
        ensures
            final(steps)@ == old(steps)@ + spec_create_indexes(*self, tables_to_redefine@),
    {
        let ghost start = steps@;
        if self.flavour.create_indexes_from_created_tables {
            let created = self.created_tables();
            let _ = self.next.tables.len();
            proof {
                lemma_unmatched_below(*self.flavour, self.next.tables@, self.previous.tables@, self.next.tables@.len() as int);
            }
            let mut k: usize = 0;
            while k < created.len()
                invariant
                    0 <= k <= created@.len(),
                    created@ == self.spec_created_tables(),
                    forall|m: int| 0 <= m < created@.len() ==> #[trigger] created@[m] < self.next.tables@.len(),
                    steps@ == start + created_tables_index_steps(*self, created@.subrange(0, k as int)),
                decreases created@.len() - k,
            {
                let t = created[k];
                assert(created@.subrange(0, k + 1).drop_last() =~= created@.subrange(0, k as int));
                let ghost before = steps@;
                let table = &self.next.tables[t];
                let mut i: usize = 0;
                while i < table.indexes.len()
                    invariant
                        0 <= i <= table.indexes@.len(),
                        t < self.next.tables@.len(),
                        table == &self.next.tables@[t as int],
                        steps@ == before + table_new_index_steps(*self, t, i as int),
                    decreases table.indexes@.len() - i,
                {
                    if !self.flavour.should_skip_index_for_new_table(&table.indexes[i]) {
                        steps.push(SqlMigrationStep::CreateIndex { previous_table_id: None, table_id: t, index_index: i });
                    }
                    i += 1;
                }
                k += 1;
            }
            assert(created@.subrange(0, created@.len() as int) =~= created@);
        }
        let ghost mid = steps@;
        let pairs = self.table_pairs();
        let mut k: usize = 0;
        while k < pairs.len()
            invariant
                0 <= k <= pairs@.len(),
                self.wf(),
                pairs@ == self.spec_table_pairs(),
                forall|m: int|
                    0 <= m < pairs@.len() ==> (#[trigger] pairs@[m]).previous < self.previous.tables@.len()
                        && pairs@[m].next < self.next.tables@.len(),
                steps@ == mid + pairs_create_index_steps(*self, tables_to_redefine@, pairs@.subrange(0, k as int)),
            decreases pairs@.len() - k,
        {
            let p = pairs[k];
            assert(pairs@.subrange(0, k + 1).drop_last() =~= pairs@.subrange(0, k as int));
            if !contains_id(tables_to_redefine, p.next) {
                let td = TableDiffer {
                    flavour: self.flavour,
                    previous: &self.previous.tables[p.previous],
                    next: &self.next.tables[p.next],
                };
                assert(td == differ_of(*self, p));
                let ghost before = steps@;
                let created = unmatched_indexes(td.next, td.previous, false);
                let mut j: usize = 0;
                while j < created.len()
                    invariant
                        0 <= j <= created@.len(),
                        steps@ == before + created@.subrange(0, j as int).map_values(
                            |i: usize|
                                SqlMigrationStep::CreateIndex {
                                    previous_table_id: Some(p.previous),
                                    table_id: p.next,
                                    index_index: i,
                                },
                        ),
                    decreases created@.len() - j,
                {
                    steps.push(SqlMigrationStep::CreateIndex {
                        previous_table_id: Some(p.previous),
                        table_id: p.next,
                        index_index: created[j],
                    });
                    j += 1;
                    assert(steps@ =~= before + created@.subrange(0, j as int).map_values(
                        |i: usize|
                            SqlMigrationStep::CreateIndex {
                                previous_table_id: Some(p.previous),
                                table_id: p.next,
                                index_index: i,
                            },
                    ));
                }
                assert(created@.subrange(0, created@.len() as int) =~= created@);
                let ghost between = steps@;
                if self.flavour.recreate_indexes_after_column_drop {
                    let recreated = recreated_next_columns(&td);
                    let ips = index_pairs(td.previous, td.next);
                    let mut j: usize = 0;
                    while j < ips.len()
                        invariant
                            0 <= j <= ips@.len(),
                            td.wf(),
                            ips@ == index_pairs_upto(*td.previous, *td.next, td.previous.indexes@.len() as int),
                            forall|m: int|
                                0 <= m < ips@.len() ==> (#[trigger] ips@[m]).0 < td.previous.indexes@.len()
                                    && ips@[m].1 < td.next.indexes@.len(),
                            forall|c: usize| #[trigger] recreated@.contains(c) <==> recreated_next_column(td, c),
                            steps@ == between + recreated_index_steps(td, p, ips@.subrange(0, j as int)),
                        decreases ips@.len() - j,
                    {
                        let ip = ips[j];
                        assert(ips@.subrange(0, j + 1).drop_last() =~= ips@.subrange(0, j as int));
                        let b = &td.next.indexes[ip.1];
                        let hit = any_in(&b.columns, &recreated);
                        proof {
                            if hit {
                                let m = choose|m: int| 0 <= m < b.columns@.len() && recreated@.contains(#[trigger] b.columns@[m]);
                                assert(recreated_next_column(td, b.columns@[m]));
                            } else {
                                assert forall|m: int| 0 <= m < b.columns@.len() implies !recreated_next_column(td, #[trigger] b.columns@[m]) by {
                                    assert(!recreated@.contains(b.columns@[m]));
                                }
                            }
                        }
                        if hit {
                            steps.push(SqlMigrationStep::CreateIndex {
                                previous_table_id: Some(p.previous),
                                table_id: p.next,
                                index_index: ip.1,
                            });
                        }
                        j += 1;
                    }
                    assert(ips@.subrange(0, ips@.len() as int) =~= ips@);
                }
                assert(steps@ =~= before + pair_create_index_steps(*self, p));
            }
            k += 1;
        }
        assert(pairs@.subrange(0, pairs@.len() as int) =~= pairs@);
        assert(steps@ =~= start + spec_create_indexes(*self, tables_to_redefine@));
    }

    /// The index pairs of table pairs that are not redefined that the flavour renames in place.
    pub fn alter_indexes(&self, tables_to_redefine: &Vec<TableId>) -> (r: Vec<IndexPair>)
        requires
            self.wf(),
        ensures
            r@ == pairs_alter_indexes(*self, tables_to_redefine@, self.spec_table_pairs()),
    {
        let pairs = self.table_pairs();
        let mut r: Vec<IndexPair> = Vec::new();
        let mut k: usize = 0;
        while k < pairs.len()
            invariant
                0 <= k <= pairs@.len(),
                self.wf(),
                pairs@ == self.spec_table_pairs(),
                forall|m: int|
                    0 <= m < pairs@.len() ==> (#[trigger] pairs@[m]).previous < self.previous.tables@.len()
                        && pairs@[m].next < self.next.tables@.len(),
                r@ == pairs_alter_indexes(*self, tables_to_redefine@, pairs@.subrange(0, k as int)),
            decreases pairs@.len() - k,
        {
            let p = pairs[k];
            assert(pairs@.subrange(0, k + 1).drop_last() =~= pairs@.subrange(0, k as int));
            if !contains_id(tables_to_redefine, p.next) {
                let td = TableDiffer {
                    flavour: self.flavour,
                    previous: &self.previous.tables[p.previous],
                    next: &self.next.tables[p.next],
                };
                assert(td == differ_of(*self, p));
                let ghost before = r@;
                let ips = index_pairs(td.previous, td.next);
                let mut j: usize = 0;
                while j < ips.len()
                    invariant
                        0 <= j <= ips@.len(),
                        forall|m: int|
                            0 <= m < ips@.len() ==> (#[trigger] ips@[m]).0 < td.previous.indexes@.len()
                                && ips@[m].1 < td.next.indexes@.len(),
                        td.flavour == self.flavour,
                        r@ == before + renamed_index_pairs(td, p, ips@.subrange(0, j as int)),
                    decreases ips@.len() - j,
                {
                    let ip = ips[j];
                    assert(ips@.subrange(0, j + 1).drop_last() =~= ips@.subrange(0, j as int));
                    if self.flavour.index_should_be_renamed(&td.previous.indexes[ip.0], &td.next.indexes[ip.1]) {
                        r.push(IndexPair { table: p, index: Pair { previous: ip.0, next: ip.1 } });
                    }
                    j += 1;
                    assert(r@ =~= before + renamed_index_pairs(td, p, ips@.subrange(0, j as int)));
                }
                assert(ips@.subrange(0, ips@.len() as int) =~= ips@);
                assert(r@ =~= before + renamed_index_pairs(td, p, ips@));
            }
            k += 1;
        }
        assert(pairs@.subrange(0, pairs@.len() as int) =~= pairs@);
        r
    }
}

/// The table pair needs changes that a redefining flavour makes by redefining the table.
pub open spec fn pair_needs_redefinition(d: SqlSchemaDiffer, p: Pair<TableId>) -> bool {
    let td = differ_of(d, p);
    spec_created_fks(td).len() > 0 || spec_dropped_fks(td).len() > 0 || spec_dropped_primary_key(
        td.tables(),
    ) || spec_created_primary_key(td.tables()) || td.spec_dropped_columns().len() > 0
        || td.spec_alter_columns().len() > 0
}

/// The next tables among `pairs` that need redefinition.
pub open spec fn redefined_upto(d: SqlSchemaDiffer, pairs: Seq<Pair<TableId>>) -> Seq<TableId>
    decreases pairs.len(),
{
    if pairs.len() == 0 {
        Seq::empty()
    } else {
        let pre = redefined_upto(d, pairs.drop_last());
        if pair_needs_redefinition(d, pairs.last()) {
            pre.push(pairs.last().next)
        } else {
            pre
        }
    }
}

pub open spec fn spec_tables_to_redefine(d: SqlSchemaDiffer) -> Seq<TableId> {
    if d.flavour.redefines_tables {
        redefined_upto(d, d.spec_table_pairs())
    } else {
        Seq::empty()
    }
}

/// A column pair of a table pair, with its changes and castability.
pub open spec fn redefined_column(td: TableDiffer, ids: Pair<ColumnId>) -> RedefinedColumn {
    let a = td.previous.columns@[ids.previous as int];
    let b = td.next.columns@[ids.next as int];
    RedefinedColumn {
        column_ids: ids,
        changes: spec_column_changes(a, b),
        type_change: td.flavour.spec_type_change(a.family, b.family),
    }
}

/// How a redefined table pair is described.
pub open spec fn planned_redefine(d: SqlSchemaDiffer, p: Pair<TableId>) -> PlannedRedefine {
    let td = differ_of(d, p);
    PlannedRedefine {
        table_ids: p,
        dropped_primary_key: spec_drop_primary_key(td) is Some,
        added_columns: td.spec_added_columns(),
        dropped_columns: td.spec_dropped_columns(),
        column_pairs: td.spec_column_pairs().map_values(|ids: Pair<ColumnId>| redefined_column(td, ids)),
    }
}

pub open spec fn redefine_plan_upto(d: SqlSchemaDiffer, redefine: Seq<TableId>, pairs: Seq<Pair<TableId>>) -> Seq<PlannedRedefine>
    decreases pairs.len(),
{
    if pairs.len() == 0 {
        Seq::empty()
    } else {
        let pre = redefine_plan_upto(d, redefine, pairs.drop_last());
        if redefine.contains(pairs.last().next) {
            pre.push(planned_redefine(d, pairs.last()))
        } else {
            pre
        }
    }
}

impl Flavour {
    /// The next tables that this flavour redefines as a whole: where it redefines tables, those of
    /// table pairs with foreign key, primary key, dropped or altered column changes.
    pub fn tables_to_redefine(&self, d: &SqlSchemaDiffer) -> (r: Vec<TableId>)
        requires
            d.wf(),
            d.flavour == self,
        ensures
            r@ == spec_tables_to_redefine(*d),
    {
        let mut r: Vec<TableId> = Vec::new();
        if !self.redefines_tables {
            return r;
        }
        let pairs = d.table_pairs();
        let mut k: usize = 0;
        while k < pairs.len()
            invariant
                0 <= k <= pairs@.len(),
                d.wf(),
                d.flavour == self,
                pairs@ == d.spec_table_pairs(),
                forall|m: int|
                    0 <= m < pairs@.len() ==> (#[trigger] pairs@[m]).previous < d.previous.tables@.len()
                        && pairs@[m].next < d.next.tables@.len(),
                r@ == redefined_upto(*d, pairs@.subrange(0, k as int)),
            decreases pairs@.len() - k,
        {
            let p = pairs[k];
            assert(pairs@.subrange(0, k + 1).drop_last() =~= pairs@.subrange(0, k as int));
            let td = TableDiffer {
                flavour: d.flavour,
                previous: &d.previous.tables[p.previous],
                next: &d.next.tables[p.next],
            };
            assert(td == differ_of(*d, p));
            let needs = td.created_foreign_keys().len() > 0 || td.dropped_foreign_keys().len() > 0
                || td.dropped_primary_key() || td.created_primary_key() || td.dropped_columns().len() > 0
                || SqlSchemaDiffer::alter_columns(&td).len() > 0;
            if needs {
                r.push(p.next);
            }
            k += 1;
        }
        assert(pairs@.subrange(0, pairs@.len() as int) =~= pairs@);
        r
    }
}

impl<'a> SqlSchemaDiffer<'a> {
    /// A `RedefineTable` for each table pair whose next table is redefined: its dropped and added
    /// columns, its column pairs with their changes and castability, and whether its primary key
    /// is dropped.
    pub fn redefine_tables(&self, tables_to_redefine: &Vec<TableId>) -> (r: Vec<RedefineTable>)
        requires
            self.wf(),
        ensures
            ({
                let plan = redefine_plan_upto(*self, tables_to_redefine@, self.spec_table_pairs());
                r@.len() == plan.len() && forall|i: int|
                    0 <= i < plan.len() ==> crate::steps::redefine_fits(#[trigger] r@[i], plan[i])
            }),
    {
        let pairs = self.table_pairs();
        let mut r: Vec<RedefineTable> = Vec::new();
        let mut k: usize = 0;
        while k < pairs.len()
            invariant
                0 <= k <= pairs@.len(),
                self.wf(),
                pairs@ == self.spec_table_pairs(),
                forall|m: int|
                    0 <= m < pairs@.len() ==> (#[trigger] pairs@[m]).previous < self.previous.tables@.len()
                        && pairs@[m].next < self.next.tables@.len(),
                ({
                    let plan = redefine_plan_upto(*self, tables_to_redefine@, pairs@.subrange(0, k as int));
                    r@.len() == plan.len() && forall|i: int|
                        0 <= i < plan.len() ==> crate::steps::redefine_fits(#[trigger] r@[i], plan[i])
                }),
            decreases pairs@.len() - k,
        {
            let p = pairs[k];
            assert(pairs@.subrange(0, k + 1).drop_last() =~= pairs@.subrange(0, k as int));
            if contains_id(tables_to_redefine, p.next) {
                let td = TableDiffer {
                    flavour: self.flavour,
                    previous: &self.previous.tables[p.previous],
                    next: &self.next.tables[p.next],
                };
                assert(td == differ_of(*self, p));
                let cps = td.column_pairs();
                let mut column_pairs: Vec<RedefinedColumn> = Vec::new();
                let mut j: usize = 0;
                while j < cps.len()
                    invariant
                        0 <= j <= cps@.len(),
                        cps@ == td.spec_column_pairs(),
                        forall|m: int|
                            0 <= m < cps@.len() ==> (#[trigger] cps@[m]).previous < td.previous.columns@.len()
                                && cps@[m].next < td.next.columns@.len(),
                        column_pairs@ == cps@.subrange(0, j as int).map_values(
                            |ids: Pair<ColumnId>| redefined_column(td, ids),
                        ),
                    decreases cps@.len() - j,
                {
                    let ids = cps[j];
                    let (changes, type_change) = all_changes(
                        td.flavour,
                        &td.previous.columns[ids.previous],
                        &td.next.columns[ids.next],
                    );
                    column_pairs.push(RedefinedColumn { column_ids: ids, changes, type_change });
                    j += 1;
                    assert(column_pairs@ =~= cps@.subrange(0, j as int).map_values(
                        |ids: Pair<ColumnId>| redefined_column(td, ids),
                    ));
                }
                assert(cps@.subrange(0, cps@.len() as int) =~= cps@);
                let ghost before = r@;
                r.push(RedefineTable {
                    table_ids: p,
                    dropped_primary_key: SqlSchemaDiffer::drop_primary_key(&td).is_some(),
                    added_columns: td.added_columns(),
                    dropped_columns: td.dropped_columns(),
                    column_pairs,
                });
                proof {
                    let plan = redefine_plan_upto(*self, tables_to_redefine@, pairs@.subrange(0, k + 1));
                    assert forall|i: int| 0 <= i < plan.len() implies crate::steps::redefine_fits(#[trigger] r@[i], plan[i]) by {
                        if i < before.len() {
                            assert(r@[i] == before[i]);
                        }
                    }
                }
            }
            k += 1;
        }
        assert(pairs@.subrange(0, pairs@.len() as int) =~= pairs@);
        r
    }
}

/// Within the changes of an altered table, `DropPrimaryKey` precedes every `DropColumn`, and
/// `AddPrimaryKey` follows every `AddColumn`.
pub proof fn lemma_table_change_order(td: TableDiffer)
    ensures
        forall|i: int, j: int|
            0 <= i < spec_table_changes(td).len() && 0 <= j < spec_table_changes(td).len()
                && (#[trigger] spec_table_changes(td)[i]) is DropPrimaryKey && (
            #[trigger] spec_table_changes(td)[j]) is DropColumn ==> i < j,
        forall|i: int, j: int|
            0 <= i < spec_table_changes(td).len() && 0 <= j < spec_table_changes(td).len()
                && (#[trigger] spec_table_changes(td)[i]) is AddColumn && (
            #[trigger] spec_table_changes(td)[j]) is AddPrimaryKey ==> i < j,
{
    let a = opt_seq(spec_drop_primary_key(td));
    let d = spec_drop_columns(td);
    let c = spec_add_columns(td);
    let l = td.spec_alter_columns();
    let b = opt_seq(spec_add_primary_key(td));
    let all = spec_table_changes(td);
    let pairs = td.spec_column_pairs();
    crate::table::lemma_alters_origin(*td.flavour, td.tables(), pairs, pairs.len() as int);
    assert(all == a + d + c + l + b);
    assert forall|k: int| 0 <= k < l.len() implies !((#[trigger] l[k]) is DropPrimaryKey) && !(l[k] is DropColumn)
        && !(l[k] is AddColumn) && !(l[k] is AddPrimaryKey) by {
        let j = choose|j: int|
            0 <= j < pairs.len() && crate::table::alter_at(*td.flavour, td.tables(), pairs, j) == Some(l[k])
                && crate::table::change_column_ids(l[k]) == pairs[j];
    }
    assert forall|k: int| 0 <= k < all.len() implies {
        &&& ((#[trigger] all[k]) is DropPrimaryKey ==> k < a.len())
        &&& (all[k] is DropColumn ==> a.len() <= k < a.len() + d.len())
        &&& (all[k] is AddColumn ==> a.len() + d.len() <= k < a.len() + d.len() + c.len())
        &&& (all[k] is AddPrimaryKey ==> a.len() + d.len() + c.len() + l.len() <= k)
    } by {
        if k < a.len() {
            assert(all[k] == a[k]);
        } else if k < a.len() + d.len() {
            assert(all[k] == d[k - a.len()]);
        } else if k < a.len() + d.len() + c.len() {
            assert(all[k] == c[k - a.len() - d.len()]);
        } else if k < a.len() + d.len() + c.len() + l.len() {
            assert(all[k] == l[k - a.len() - d.len() - c.len()]);
        } else {
            assert(all[k] == b[k - a.len() - d.len() - c.len() - l.len()]);
        }
    }
}


/// A name matches itself.
pub proof fn lemma_names_match_reflexive(fl: Flavour, a: Seq<char>)
    ensures
        fl.spec_table_names_match(a, a),
{
}

/// Where some table at or after `j` matches `name`, a first one exists.
proof fn lemma_first_match_found(fl: Flavour, name: Seq<char>, tables: Seq<Table>, j: int, i: int)
    requires
        0 <= j <= i < tables.len(),
        fl.spec_table_names_match(name, tables[i].name@),
    ensures
        first_match_from(fl, name, tables, j) is Some,
    decreases i - j,
{
    if j < i && !fl.spec_table_names_match(name, tables[j].name@) {
        lemma_first_match_found(fl, name, tables, j + 1, i);
    }
}

/// No table of a schema is unmatched when the schema is compared with itself.
proof fn lemma_no_unmatched_tables(fl: Flavour, tables: Seq<Table>, n: int)
    requires
        n <= tables.len(),
    ensures
        unmatched_upto(fl, tables, tables, n) == Seq::<TableId>::empty(),
    decreases n,
{
    if n > 0 {
        lemma_no_unmatched_tables(fl, tables, n - 1);
        lemma_names_match_reflexive(fl, tables[n - 1].name@);
        lemma_first_match_found(fl, tables[n - 1].name@, tables, 0, n - 1);
    }
}

/// A schema compared with itself has no created and no dropped tables.
pub proof fn lemma_same_schema_keeps_tables(d: SqlSchemaDiffer)
    requires
        *d.previous == *d.next,
    ensures
        d.spec_created_tables().len() == 0,
        d.spec_dropped_tables().len() == 0,
        create_table_steps(*d.flavour, d.next.tables@, d.spec_created_tables()).len() == 0,
        drop_table_steps(*d.flavour, d.previous.tables@, d.spec_dropped_tables()).len() == 0,
{
    lemma_no_unmatched_tables(*d.flavour, d.next.tables@, d.next.tables@.len() as int);
}

/// No two tables of `tables` have names that the flavour takes for the same table.
pub open spec fn distinct_table_names(fl: Flavour, tables: Seq<Table>) -> bool {
    forall|i: int, j: int|
        0 <= i < j < tables.len() ==> !fl.spec_table_names_match(
            #[trigger] tables[i].name@,
            #[trigger] tables[j].name@,
        )
}

/// Table name matching is symmetric and transitive.
pub proof fn lemma_names_match_equivalence(fl: Flavour, a: Seq<char>, b: Seq<char>, c: Seq<char>)
    ensures
        fl.spec_table_names_match(a, b) ==> fl.spec_table_names_match(b, a),
        fl.spec_table_names_match(a, b) && fl.spec_table_names_match(b, c) ==> fl.spec_table_names_match(a, c),
{
}

/// Under distinct names, the first table matching a name that table `j` matches is `j`.
proof fn lemma_first_match_is(fl: Flavour, name: Seq<char>, tables: Seq<Table>, k: int, j: int)
    requires
        distinct_table_names(fl, tables),
        0 <= k <= j < tables.len(),
        fl.spec_table_names_match(name, tables[j].name@),
    ensures
        first_match_from(fl, name, tables, k) == Some(j as nat),
    decreases j - k,
{
    if k < j {
        if fl.spec_table_names_match(name, tables[k].name@) {
            lemma_names_match_equivalence(fl, name, tables[k].name@, tables[j].name@);
            lemma_names_match_equivalence(fl, tables[k].name@, name, tables[j].name@);
            assert(!fl.spec_table_names_match(tables[k].name@, tables[j].name@));
        }
        lemma_first_match_is(fl, name, tables, k + 1, j);
    }
}

/// Under distinct names, the first table whose name matches that of table `j` is `j`.
pub proof fn lemma_first_match_is_pub(fl: Flavour, name: Seq<char>, tables: Seq<Table>, j: int)
    requires
        distinct_table_names(fl, tables),
        0 <= j < tables.len(),
        fl.spec_table_names_match(name, tables[j].name@),
    ensures
        first_match(fl, name, tables) == Some(j as nat),
{
    lemma_first_match_is(fl, name, tables, 0, j);
}

/// A first match is a position of `tables` whose name matches.
proof fn lemma_first_match_matches(fl: Flavour, name: Seq<char>, tables: Seq<Table>, k: int)
    requires
        0 <= k,
        first_match_from(fl, name, tables, k) is Some,
    ensures
        first_match_from(fl, name, tables, k)->0 < tables.len(),
        fl.spec_table_names_match(name, tables[first_match_from(fl, name, tables, k)->0 as int].name@),
    decreases tables.len() - k,
{
    if k < tables.len() && !fl.spec_table_names_match(name, tables[k].name@) {
        lemma_first_match_matches(fl, name, tables, k + 1);
    }
}

/// The pairs of the first `n` previous tables pair matching names, previous tables in increasing
/// order, and, under distinct names, no next table twice.
proof fn lemma_pairs_upto_facts(fl: Flavour, prev: Seq<Table>, next: Seq<Table>, n: int)
    requires
        distinct_table_names(fl, prev),
        0 <= n <= prev.len() <= usize::MAX,
        next.len() <= usize::MAX,
    ensures
        forall|k: int|
            0 <= k < table_pairs_upto(fl, prev, next, n).len() ==> {
                let p = #[trigger] table_pairs_upto(fl, prev, next, n)[k];
                &&& p.previous < n
                &&& p.next < next.len()
                &&& fl.spec_table_names_match(prev[p.previous as int].name@, next[p.next as int].name@)
            },
        forall|k1: int, k2: int|
            0 <= k1 < k2 < table_pairs_upto(fl, prev, next, n).len() ==> (#[trigger] table_pairs_upto(
                fl,
                prev,
                next,
                n,
            )[k1]).previous < (#[trigger] table_pairs_upto(fl, prev, next, n)[k2]).previous
                && table_pairs_upto(fl, prev, next, n)[k1].next != table_pairs_upto(fl, prev, next, n)[k2].next,
        forall|i: int|
            0 <= i < n && first_match(fl, (#[trigger] prev[i]).name@, next) is Some ==> exists|k: int|
                0 <= k < table_pairs_upto(fl, prev, next, n).len() && #[trigger] table_pairs_upto(
                    fl,
                    prev,
                    next,
                    n,
                )[k] == (Pair { previous: i as usize, next: first_match(fl, prev[i].name@, next)->0 as usize }),
    decreases n,
{
    if n > 0 {
        lemma_pairs_upto_facts(fl, prev, next, n - 1);
        let pre = table_pairs_upto(fl, prev, next, n - 1);
        let cur = table_pairs_upto(fl, prev, next, n);
        match first_match(fl, prev[n - 1].name@, next) {
            Some(j) => {
                lemma_first_match_matches(fl, prev[n - 1].name@, next, 0);
                let q = Pair { previous: (n - 1) as usize, next: j as usize };
                assert(cur == pre.push(q));
                assert forall|k: int| 0 <= k < cur.len() implies {
                    let p = #[trigger] cur[k];
                    &&& p.previous < n
                    &&& p.next < next.len()
                    &&& fl.spec_table_names_match(prev[p.previous as int].name@, next[p.next as int].name@)
                } by {
                    if k < pre.len() {
                        assert(cur[k] == pre[k]);
                    }
                }
                assert forall|k1: int, k2: int| 0 <= k1 < k2 < cur.len() implies (#[trigger] cur[k1]).previous
                    < (#[trigger] cur[k2]).previous && cur[k1].next != cur[k2].next by {
                    assert(cur[k1] == pre[k1]);
                    if k2 < pre.len() {
                        assert(cur[k2] == pre[k2]);
                    } else {
                        let i = pre[k1].previous as int;
                        if pre[k1].next == j as usize {
                            lemma_names_match_equivalence(fl, prev[i].name@, next[j as int].name@, prev[n - 1].name@);
                            lemma_names_match_equivalence(fl, prev[n - 1].name@, next[j as int].name@, prev[i].name@);
                            assert(!fl.spec_table_names_match(prev[i].name@, prev[n - 1].name@));
                        }
                    }
                }
                assert forall|i: int|
                    0 <= i < n && first_match(fl, (#[trigger] prev[i]).name@, next) is Some implies exists|k: int|
                    0 <= k < cur.len() && #[trigger] cur[k] == (Pair { previous: i as usize, next: first_match(fl, prev[i].name@, next)->0 as usize }) by {
                    if i < n - 1 {
                        let k = choose|k: int|
                            0 <= k < pre.len() && #[trigger] pre[k] == (Pair { previous: i as usize, next: first_match(fl, prev[i].name@, next)->0 as usize });
                        assert(cur[k] == pre[k]);
                    } else {
                        assert(cur[pre.len() as int] == q);
                    }
                }
            },
            None => {
                assert(cur == pre);
            },
        }
    }
}

/// Under distinct table names on both sides, table pairing is one-to-one: each pair matches by
/// name, no previous or next table is paired twice, and a next table is paired exactly when some
/// previous table matches it, that is, when it is not created.
pub proof fn lemma_table_pairs_one_to_one(d: SqlSchemaDiffer)
    requires
        distinct_table_names(*d.flavour, d.previous.tables@),
        distinct_table_names(*d.flavour, d.next.tables@),
        d.previous.tables@.len() <= usize::MAX,
        d.next.tables@.len() <= usize::MAX,
    ensures
        forall|k1: int, k2: int|
            0 <= k1 < k2 < d.spec_table_pairs().len() ==> (#[trigger] d.spec_table_pairs()[k1]).previous
                != (#[trigger] d.spec_table_pairs()[k2]).previous && d.spec_table_pairs()[k1].next
                != d.spec_table_pairs()[k2].next,
        forall|j: int|
            0 <= j < d.next.tables@.len() ==> (first_match(*d.flavour, d.next.tables@[j].name@, d.previous.tables@)
                is Some <==> exists|k: int|
                0 <= k < d.spec_table_pairs().len() && (#[trigger] d.spec_table_pairs()[k]).next == j),
{
    let fl = *d.flavour;
    let prev = d.previous.tables@;
    let next = d.next.tables@;
    let pairs = d.spec_table_pairs();
    lemma_pairs_upto_facts(fl, prev, next, prev.len() as int);
    assert forall|j: int| 0 <= j < next.len() implies (first_match(fl, next[j].name@, prev) is Some <==> exists|k: int|
        0 <= k < pairs.len() && (#[trigger] pairs[k]).next == j) by {
        if first_match(fl, next[j].name@, prev) is Some {
            lemma_first_match_matches(fl, next[j].name@, prev, 0);
            let i = first_match(fl, next[j].name@, prev)->0 as int;
            lemma_names_match_equivalence(fl, next[j].name@, prev[i].name@, next[j].name@);
            lemma_first_match_is(fl, prev[i].name@, next, 0, j);
            assert(first_match(fl, prev[i].name@, next) is Some);
            let k = choose|k: int| 0 <= k < pairs.len() && #[trigger] pairs[k] == (Pair { previous: i as usize, next: j as usize });
            assert(pairs[k].next == j);
        }
        if exists|k: int| 0 <= k < pairs.len() && (#[trigger] pairs[k]).next == j {
            let k = choose|k: int| 0 <= k < pairs.len() && (#[trigger] pairs[k]).next == j;
            let i = pairs[k].previous as int;
            lemma_names_match_equivalence(fl, prev[i].name@, next[j].name@, prev[i].name@);
            lemma_first_match_found(fl, next[j].name@, prev, 0, i);
        }
    }
}

/// The next column `c` belongs to a column pair that does not differ.
pub open spec fn unchanged_next_column(td: TableDiffer, c: usize) -> bool {
    exists|k: int|
        0 <= k < td.spec_column_pairs().len() && (#[trigger] td.spec_column_pairs()[k]).next == c
            && !spec_column_changes(
            td.previous.columns@[td.spec_column_pairs()[k].previous as int],
            td.next.columns@[c as int],
        ).spec_differs()
}

/// An index whose columns all belong to column pairs that do not differ is not re-created,
/// where the previous table names each column once.
pub proof fn lemma_unchanged_columns_keep_index(td: TableDiffer, p: Pair<TableId>, ips: Seq<(usize, usize)>, b: usize)
    requires
        crate::table::distinct_column_names(td.previous.columns@),
        td.previous.columns@.len() <= usize::MAX,
        td.next.columns@.len() <= usize::MAX,
        b < td.next.indexes@.len(),
        forall|m: int|
            0 <= m < td.next.indexes@[b as int].columns@.len() ==> unchanged_next_column(
                td,
                #[trigger] td.next.indexes@[b as int].columns@[m],
            ),
    ensures
        !recreated_index_steps(td, p, ips).contains(
            SqlMigrationStep::CreateIndex { previous_table_id: Some(p.previous), table_id: p.next, index_index: b },
        ),
    decreases ips.len(),
{
    if ips.len() > 0 {
        lemma_unchanged_columns_keep_index(td, p, ips.drop_last(), b);
        let pre = recreated_index_steps(td, p, ips.drop_last());
        let step = SqlMigrationStep::CreateIndex { previous_table_id: Some(p.previous), table_id: p.next, index_index: b };
        let bi = td.next.indexes@[ips.last().1 as int];
        if ips.last().1 == b {
            crate::table::lemma_column_pairs_distinct_next(
                td.previous.columns@,
                td.next.columns@,
                td.previous.columns@.len() as int,
            );
            assert forall|m: int| 0 <= m < bi.columns@.len() implies !recreated_next_column(td, #[trigger] bi.columns@[m]) by {
                let c = bi.columns@[m];
                assert(unchanged_next_column(td, c));
                let k = choose|k: int|
                    0 <= k < td.spec_column_pairs().len() && (#[trigger] td.spec_column_pairs()[k]).next == c
                        && !spec_column_changes(
                        td.previous.columns@[td.spec_column_pairs()[k].previous as int],
                        td.next.columns@[c as int],
                    ).spec_differs();
                if recreated_next_column(td, c) {
                    let k2 = choose|k2: int|
                        0 <= k2 < td.spec_column_pairs().len() && (#[trigger] td.spec_column_pairs()[k2]).next == c
                            && td.flavour.spec_type_change(
                            td.previous.columns@[td.spec_column_pairs()[k2].previous as int].family,
                            td.next.columns@[c as int].family,
                        ) == Some(ColumnTypeChange::NotCastable);
                    if k < k2 {
                        assert(td.spec_column_pairs()[k].next != td.spec_column_pairs()[k2].next);
                    } else if k2 < k {
                        assert(td.spec_column_pairs()[k2].next != td.spec_column_pairs()[k].next);
                    }
                }
            }
        }
        if recreated_index_steps(td, p, ips).contains(step) {
            let w = choose|w: int| 0 <= w < recreated_index_steps(td, p, ips).len() && recreated_index_steps(td, p, ips)[w] == step;
            if w < pre.len() {
                assert(pre[w] == step);
            }
        }
    }
}

/// Every table that `unmatched_upto` lists is a position of `side`.
pub proof fn lemma_unmatched_below(fl: Flavour, side: Seq<Table>, other: Seq<Table>, n: int)
    requires
        n <= side.len(),
        side.len() <= usize::MAX,
    ensures
        forall|m: int|
            0 <= m < unmatched_upto(fl, side, other, n).len() ==> #[trigger] unmatched_upto(
                fl,
                side,
                other,
                n,
            )[m] < n,
    decreases n,
{
    if n > 0 {
        lemma_unmatched_below(fl, side, other, n - 1);
        let p = unmatched_upto(fl, side, other, n - 1);
        if first_match(fl, side[n - 1].name@, other) is None {
            assert(unmatched_upto(fl, side, other, n) == p.push((n - 1) as usize));
            assert(p.push((n - 1) as usize)[p.len() as int] == (n - 1) as usize);
        }
    }
}

/// The tables of `side` that no table of `other` matches.
fn unmatched_tables(fl: &Flavour, side: &Vec<Table>, other: &Vec<Table>) -> (r: Vec<TableId>)
    ensures
        r@ == unmatched_upto(*fl, side@, other@, side@.len() as int),
{
    let mut r: Vec<TableId> = Vec::new();
    let mut i: usize = 0;
    while i < side.len()
        invariant
            0 <= i <= side@.len(),
            r@ == unmatched_upto(*fl, side@, other@, i as int),
        decreases side@.len() - i,
    {
        if find_table(fl, &side[i].name, other).is_none() {
            r.push(i);
        }
        i += 1;
    }
    r
}

} // verus!
