use vstd::prelude::*;

use crate::schema::{ColumnId, TableId};

verus! {

/// A (previous, next) couple of values of the same type.
#[derive(Debug, Clone, Copy, PartialEq, Eq)]
pub struct Pair<T> {
    pub previous: T,
    pub next: T,
}

impl<T> Pair<T> {
    pub fn new(previous: T, next: T) -> (r: Pair<T>)
        ensures
            r.previous == previous,
            r.next == next,
    {
        Pair { previous, next }
    }

    pub fn previous(&self) -> (r: &T)
        ensures
            *r == self.previous,
    {
        &self.previous
    }

    pub fn next(&self) -> (r: &T)
        ensures
            *r == self.next,
    {
        &self.next
    }
}

/// What changed between the two sides of a column pair.
#[derive(Debug, Clone, Copy, PartialEq, Eq, Structural)]
pub struct ColumnChanges {
    pub type_changed: bool,
    pub arity_changed: bool,
    pub default_changed: bool,
    pub auto_increment_changed: bool,
}

impl ColumnChanges {
    pub open spec fn spec_differs(&self) -> bool {
        self.type_changed || self.arity_changed || self.default_changed
            || self.auto_increment_changed
    }

    pub fn differs_in_something(&self) -> (r: bool)
        ensures
            r == self.spec_differs(),
    {
        self.type_changed || self.arity_changed || self.default_changed
            || self.auto_increment_changed
    }
}

/// How data survives a change of column type.
#[derive(Debug, Clone, Copy, PartialEq, Eq, Structural)]
pub enum ColumnTypeChange {
    SafeCast,
    RiskyCast,
    NotCastable,
}

#[derive(Debug, Clone, PartialEq, Eq)]
pub struct AlterColumn {
    pub column_id: Pair<ColumnId>,
    pub changes: ColumnChanges,
    pub type_change: Option<ColumnTypeChange>,
}

/// One change inside an `AlterTable` step.
#[derive(Debug, Clone, PartialEq, Eq)]
pub enum TableChange {
    DropPrimaryKey,
    DropColumn { column_id: ColumnId },
    AddColumn { column_id: ColumnId },
    AlterColumn(AlterColumn),
    DropAndRecreateColumn { column_id: Pair<ColumnId>, changes: ColumnChanges },
    AddPrimaryKey,
}

#[derive(Debug, Clone, PartialEq, Eq)]
pub struct AlterTable {
    pub table_ids: Pair<TableId>,
    pub changes: Vec<TableChange>,
}

/// A column pair of a redefined table, with its changes and castability.
#[derive(Debug, Clone, PartialEq, Eq)]
pub struct RedefinedColumn {
    pub column_ids: Pair<ColumnId>,
    pub changes: ColumnChanges,
    pub type_change: Option<ColumnTypeChange>,
}

#[derive(Debug, Clone, PartialEq, Eq)]
pub struct RedefineTable {
    pub table_ids: Pair<TableId>,
    pub dropped_primary_key: bool,
    pub added_columns: Vec<ColumnId>,
    pub dropped_columns: Vec<ColumnId>,
    pub column_pairs: Vec<RedefinedColumn>,
}

/// A column, by the position of its table and its own.
#[derive(Debug, Clone, Copy, PartialEq, Eq, Structural)]
pub struct ColumnRef {
    pub table_id: TableId,
    pub column_id: ColumnId,
}

/// A previous use of an enum as a column default, with the matching use in the next schema.
#[derive(Debug, Clone, Copy, PartialEq, Eq, Structural)]
pub struct EnumDefaultUsage {
    pub previous: ColumnRef,
    pub next: Option<ColumnRef>,
}

#[derive(Debug, Clone, PartialEq, Eq)]
pub struct AlterEnum {
    pub index: Pair<usize>,
    pub created_variants: Vec<String>,
    pub dropped_variants: Vec<String>,
    pub previous_usages_as_default: Vec<EnumDefaultUsage>,
}

/// One step of a migration plan.
#[derive(Debug, Clone, PartialEq, Eq)]
pub enum SqlMigrationStep {
    CreateEnum { enum_index: usize },
    CreateTable { table_id: TableId },
    AddForeignKey { table_id: TableId, foreign_key_index: usize },
    CreateIndex { previous_table_id: Option<TableId>, table_id: TableId, index_index: usize },
    AlterEnum(AlterEnum),
    AlterTable(AlterTable),
    RedefineTables(Vec<RedefineTable>),
    AlterIndex { table: Pair<TableId>, index: Pair<usize> },
    RedefineIndex { table: Pair<TableId>, index: Pair<usize> },
    DropForeignKey { table_id: TableId, foreign_key_index: usize },
    DropIndex { table_id: TableId, index_index: usize },
    DropTable { table_id: TableId },
    DropEnum { enum_index: usize },
}

/// The position of a step's kind in the order in which a plan runs: creations, then
/// alterations, then drops.
pub open spec fn step_rank(s: SqlMigrationStep) -> nat {
    match s {
        SqlMigrationStep::CreateEnum { .. } => 0,
        SqlMigrationStep::CreateTable { .. } => 1,
        SqlMigrationStep::AddForeignKey { .. } => 2,
        SqlMigrationStep::CreateIndex { .. } => 3,
        SqlMigrationStep::AlterEnum(..) => 4,
        SqlMigrationStep::AlterTable(..) => 5,
        SqlMigrationStep::RedefineTables(..) => 6,
        SqlMigrationStep::AlterIndex { .. } => 7,
        SqlMigrationStep::RedefineIndex { .. } => 8,
        SqlMigrationStep::DropForeignKey { .. } => 9,
        SqlMigrationStep::DropIndex { .. } => 10,
        SqlMigrationStep::DropTable { .. } => 11,
        SqlMigrationStep::DropEnum { .. } => 12,
    }
}

/// The number of step kinds.
pub const STEP_KINDS: usize = 13;

impl SqlMigrationStep {
    pub fn rank(&self) -> (r: usize)
        ensures
            r == step_rank(*self),
            r < STEP_KINDS,
    {
        match self {
            SqlMigrationStep::CreateEnum { .. } => 0,
            SqlMigrationStep::CreateTable { .. } => 1,
            SqlMigrationStep::AddForeignKey { .. } => 2,
            SqlMigrationStep::CreateIndex { .. } => 3,
            SqlMigrationStep::AlterEnum(..) => 4,
            SqlMigrationStep::AlterTable(..) => 5,
            SqlMigrationStep::RedefineTables(..) => 6,
            SqlMigrationStep::AlterIndex { .. } => 7,
            SqlMigrationStep::RedefineIndex { .. } => 8,
            SqlMigrationStep::DropForeignKey { .. } => 9,
            SqlMigrationStep::DropIndex { .. } => 10,
            SqlMigrationStep::DropTable { .. } => 11,
            SqlMigrationStep::DropEnum { .. } => 12,
        }
    }
}

/// A step as the plan describes it: exactly, or by the contents of its lists.
pub enum PlannedStep {
    Exact(SqlMigrationStep),
    AlterTable { table_ids: Pair<TableId>, changes: Seq<TableChange> },
    RedefineTables { tables: Seq<PlannedRedefine> },
    AlterEnum {
        index: Pair<usize>,
        created: Seq<Seq<char>>,
        dropped: Seq<Seq<char>>,
        usages: Seq<EnumDefaultUsage>,
    },
}

/// A redefined table as the plan describes it.
pub struct PlannedRedefine {
    pub table_ids: Pair<TableId>,
    pub dropped_primary_key: bool,
    pub added_columns: Seq<ColumnId>,
    pub dropped_columns: Seq<ColumnId>,
    pub column_pairs: Seq<RedefinedColumn>,
}

pub open spec fn redefine_fits(r: RedefineTable, p: PlannedRedefine) -> bool {
    &&& r.table_ids == p.table_ids
    &&& r.dropped_primary_key == p.dropped_primary_key
    &&& r.added_columns@ == p.added_columns
    &&& r.dropped_columns@ == p.dropped_columns
    &&& r.column_pairs@ == p.column_pairs
}

/// The step is the one that the plan describes.
pub open spec fn step_fits(s: SqlMigrationStep, p: PlannedStep) -> bool {
    match p {
        PlannedStep::Exact(e) => s == e,
        PlannedStep::AlterTable { table_ids, changes } => match s {
            SqlMigrationStep::AlterTable(at) => at.table_ids == table_ids && at.changes@ == changes,
            _ => false,
        },
        PlannedStep::RedefineTables { tables } => match s {
            SqlMigrationStep::RedefineTables(rs) => rs@.len() == tables.len() && forall|i: int|
                0 <= i < tables.len() ==> redefine_fits(#[trigger] rs@[i], tables[i]),
            _ => false,
        },
        PlannedStep::AlterEnum { index, created, dropped, usages } => match s {
            SqlMigrationStep::AlterEnum(ae) => ae.index == index && crate::enums::values_of(
                ae.created_variants@,
            ) == created && crate::enums::values_of(ae.dropped_variants@) == dropped
                && ae.previous_usages_as_default@
                == usages,
            _ => false,
        },
    }
}

/// The steps are, one for one, those that the plan describes.
pub open spec fn steps_fit(steps: Seq<SqlMigrationStep>, plan: Seq<PlannedStep>) -> bool {
    steps.len() == plan.len() && forall|i: int| 0 <= i < plan.len() ==> step_fits(#[trigger] steps[i], plan[i])
}

pub open spec fn exact_steps(steps: Seq<SqlMigrationStep>) -> Seq<PlannedStep> {
    steps.map_values(|s: SqlMigrationStep| PlannedStep::Exact(s))
}

/// Appending to steps that fit a plan the steps of another plan fits the joined plan.
pub proof fn lemma_steps_fit_append(
    a: Seq<SqlMigrationStep>,
    pa: Seq<PlannedStep>,
    b: Seq<SqlMigrationStep>,
    pb: Seq<PlannedStep>,
)
    requires
        steps_fit(a, pa),
        steps_fit(b, pb),
    ensures
        steps_fit(a + b, pa + pb),
{
    assert forall|i: int| 0 <= i < pa.len() + pb.len() implies step_fits(#[trigger] (a + b)[i], (pa + pb)[i]) by {
        if i < pa.len() {
            assert(step_fits(a[i], pa[i]));
        } else {
            assert(step_fits(b[i - pa.len()], pb[i - pa.len()]));
        }
    }
}

/// Steps fit their own exact plan.
pub proof fn lemma_exact_steps_fit(a: Seq<SqlMigrationStep>)
    ensures
        steps_fit(a, exact_steps(a)),
{
}

/// The steps are in the order of their kinds.
pub open spec fn sorted_by_kind(steps: Seq<SqlMigrationStep>) -> bool {
    forall|i: int, j: int|
        0 <= i < j < steps.len() ==> step_rank(#[trigger] steps[i]) <= step_rank(#[trigger] steps[j])
}

/// The steps of kind `k`, in the order in which they stand.
pub open spec fn steps_of_kind(steps: Seq<SqlMigrationStep>, k: nat) -> Seq<SqlMigrationStep> {
    steps.filter(|s: SqlMigrationStep| step_rank(s) == k)
}

/// The steps of the kinds below `k`, kind by kind, each kind in the order in which it stands.
pub open spec fn stable_sort_prefix(steps: Seq<SqlMigrationStep>, k: nat) -> Seq<SqlMigrationStep>
    decreases k,
{
    if k == 0 {
        Seq::empty()
    } else {
        stable_sort_prefix(steps, (k - 1) as nat) + steps_of_kind(steps, (k - 1) as nat)
    }
}

/// Sorts the steps by kind, keeping the order of the steps of each kind.
pub fn sort_steps(steps: Vec<SqlMigrationStep>) -> (r: Vec<SqlMigrationStep>)
    ensures
        r@ == stable_sort_prefix(steps@, STEP_KINDS as nat),
        sorted_by_kind(r@),
{
    let ghost orig = steps@;
    let mut rest = steps;
    let mut slots: Vec<Option<SqlMigrationStep>> = Vec::new();
    while rest.len() > 0
        invariant
            slots@.len() + rest@.len() == orig.len(),
            forall|j: int| 0 <= j < slots@.len() ==> #[trigger] slots@[j] == Some(orig[j]),
            rest@ == orig.subrange(slots@.len() as int, orig.len() as int),
        decreases rest@.len(),
    {
        let s = rest.remove(0);
        slots.push(Some(s));
    }
    let mut out: Vec<SqlMigrationStep> = Vec::new();
    let mut k: usize = 0;
    while k < STEP_KINDS
        invariant
            0 <= k <= STEP_KINDS,
            slots@.len() == orig.len(),
            forall|j: int|
                0 <= j < slots@.len() ==> #[trigger] slots@[j] == if step_rank(orig[j]) < k {
                    None
                } else {
                    Some(orig[j])
                },
            out@ == stable_sort_prefix(orig, k as nat),
            forall|i: int| 0 <= i < out@.len() ==> step_rank(#[trigger] out@[i]) < k,
            sorted_by_kind(out@),
        decreases STEP_KINDS - k,
    {
        let ghost before = out@;
        let mut i: usize = 0;
        while i < slots.len()
            invariant
                0 <= k < STEP_KINDS,
                0 <= i <= slots@.len(),
                slots@.len() == orig.len(),
                forall|j: int|
                    0 <= j < slots@.len() ==> #[trigger] slots@[j] == if step_rank(orig[j]) < k
                        || (step_rank(orig[j]) == k && j < i) {
                        None
                    } else {
                        Some(orig[j])
                    },
                out@ == before + orig.subrange(0, i as int).filter(
                    |s: SqlMigrationStep| step_rank(s) == k as nat,
                ),
                forall|j: int| 0 <= j < before.len() ==> step_rank(#[trigger] before[j]) < k,
                sorted_by_kind(before),
                forall|j: int|
                    before.len() <= j < out@.len() ==> step_rank(#[trigger] out@[j]) == k,
            decreases slots@.len() - i,
        {
            let ghost sub = orig.subrange(0, i as int);
            assert(orig.subrange(0, i + 1) =~= sub.push(orig[i as int]));
            assert(sub.push(orig[i as int]).drop_last() =~= sub);
            reveal(Seq::filter);
            let mut taken: Option<SqlMigrationStep> = None;
            slots.set_and_swap(i, &mut taken);
            match taken {
                Some(s) => {
                    if s.rank() == k {
                        out.push(s);
                    } else {
                        slots.set(i, Some(s));
                    }
                },
                None => {},
            }
            i += 1;
        }
        assert(orig.subrange(0, orig.len() as int) =~= orig);
        k += 1;
    }
    out
}

/// In steps ordered by kind, every `DropForeignKey` precedes every `DropTable`, and every
/// `CreateTable` precedes every `AddForeignKey`.
pub proof fn lemma_kind_order(steps: Seq<SqlMigrationStep>)
    requires
        sorted_by_kind(steps),
    ensures
        forall|i: int, j: int|
            0 <= i < steps.len() && 0 <= j < steps.len() && (#[trigger] steps[i]) is DropForeignKey
                && (#[trigger] steps[j]) is DropTable ==> i < j,
        forall|i: int, j: int|
            0 <= i < steps.len() && 0 <= j < steps.len() && (#[trigger] steps[i]) is CreateTable
                && (#[trigger] steps[j]) is AddForeignKey ==> i < j,
{
    assert forall|i: int, j: int|
        0 <= i < steps.len() && 0 <= j < steps.len() && (#[trigger] steps[i]) is DropForeignKey
            && (#[trigger] steps[j]) is DropTable implies i < j by {
        if j <= i {
            if j < i {
                assert(step_rank(steps[j]) <= step_rank(steps[i]));
            }
        }
    }
    assert forall|i: int, j: int|
        0 <= i < steps.len() && 0 <= j < steps.len() && (#[trigger] steps[i]) is CreateTable
            && (#[trigger] steps[j]) is AddForeignKey implies i < j by {
        if j <= i {
            if j < i {
                assert(step_rank(steps[j]) <= step_rank(steps[i]));
            }
        }
    }
}

} // verus!
