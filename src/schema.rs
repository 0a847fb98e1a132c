use vstd::prelude::*;

verus! {

/// Position of a table in its schema.
pub type TableId = usize;

/// Position of a column in its table.
pub type ColumnId = usize;

/// The type family of a column.
#[derive(Debug, Clone)]
pub enum TypeFamily {
    Int,
    BigInt,
    Float,
    Decimal,
    Boolean,
    String,
    DateTime,
    Binary,
    Json,
    Uuid,
    Enum(String),
    Unsupported,
}

/// Whether a column is required, nullable or a list.
#[derive(Debug, Clone, Copy, PartialEq, Eq, Structural)]
pub enum ColumnArity {
    Required,
    Nullable,
    List,
}

#[derive(Debug, Clone, Copy, PartialEq, Eq, Structural)]
pub enum IndexType {
    Normal,
    Unique,
    Fulltext,
}

#[derive(Debug, Clone, Copy, PartialEq, Eq, Structural)]
pub enum ForeignKeyAction {
    NoAction,
    Restrict,
    Cascade,
    SetNull,
    SetDefault,
}

#[derive(Debug, Clone)]
pub struct Column {
    pub name: String,
    pub family: TypeFamily,
    pub arity: ColumnArity,
    pub default: Option<String>,
    pub auto_increment: bool,
}

#[derive(Debug, Clone)]
pub struct Index {
    pub name: String,
    pub kind: IndexType,
    pub columns: Vec<ColumnId>,
}

#[derive(Debug, Clone)]
pub struct ForeignKey {
    pub constrained_columns: Vec<ColumnId>,
    pub referenced_table: String,
    pub referenced_columns: Vec<String>,
    pub on_delete: ForeignKeyAction,
    pub on_update: ForeignKeyAction,
}

#[derive(Debug, Clone)]
pub struct PrimaryKey {
    pub columns: Vec<ColumnId>,
    pub constraint_name: Option<String>,
}

#[derive(Debug, Clone)]
pub struct Table {
    pub name: String,
    pub columns: Vec<Column>,
    pub indexes: Vec<Index>,
    pub foreign_keys: Vec<ForeignKey>,
    pub primary_key: Option<PrimaryKey>,
}

#[derive(Debug, Clone)]
pub struct EnumType {
    pub name: String,
    pub values: Vec<String>,
}

/// An immutable snapshot of a database schema.
#[derive(Debug, Clone)]
pub struct SqlSchema {
    pub tables: Vec<Table>,
    pub enums: Vec<EnumType>,
}

/// Two type families are the same family (enums by name).
pub open spec fn same_family(a: TypeFamily, b: TypeFamily) -> bool {
    match (a, b) {
        (TypeFamily::Enum(x), TypeFamily::Enum(y)) => x@ == y@,
        (TypeFamily::Enum(_), _) => false,
        (_, TypeFamily::Enum(_)) => false,
        _ => a == b,
    }
}

/// Two optional strings hold the same text.
pub open spec fn same_opt_string(a: Option<String>, b: Option<String>) -> bool {
    match (a, b) {
        (Some(x), Some(y)) => x@ == y@,
        (None, None) => true,
        _ => false,
    }
}

pub open spec fn ids_below(ids: Seq<ColumnId>, n: int) -> bool {
    forall|k: int| 0 <= k < ids.len() ==> #[trigger] ids[k] < n
}

impl Table {
    /// Every column position that an index, a foreign key or the primary key names is valid.
    pub open spec fn wf(&self) -> bool {
        &&& forall|i: int|
            0 <= i < self.indexes@.len() ==> ids_below(
                #[trigger] self.indexes@[i].columns@,
                self.columns@.len() as int,
            )
        &&& forall|i: int|
            0 <= i < self.foreign_keys@.len() ==> ids_below(
                #[trigger] self.foreign_keys@[i].constrained_columns@,
                self.columns@.len() as int,
            )
        &&& match self.primary_key {
            Some(pk) => ids_below(pk.columns@, self.columns@.len() as int),
            None => true,
        }
    }

    /// The column at position `c` belongs to the primary key.
    pub open spec fn spec_in_primary_key(&self, c: ColumnId) -> bool {
        self.primary_key is Some && self.primary_key->0.columns@.contains(c)
    }

    pub fn column_is_part_of_primary_key(&self, c: ColumnId) -> (r: bool)
        ensures
            r == self.spec_in_primary_key(c),
    {
        match &self.primary_key {
            Some(pk) => {
                let mut i: usize = 0;
                while i < pk.columns.len()
                    invariant
                        0 <= i <= pk.columns@.len(),
                        self.primary_key is Some,
                        self.primary_key->0.columns@ == pk.columns@,
                        forall|k: int| 0 <= k < i ==> pk.columns@[k] != c,
                    decreases pk.columns@.len() - i,
                {
                    if pk.columns[i] == c {
                        assert(pk.columns@[i as int] == c);
                        assert(pk.columns@.contains(c));
                        return true;
                    }
                    i += 1;
                }
                false
            },
            None => false,
        }
    }
}

impl SqlSchema {
    pub open spec fn wf(&self) -> bool {
        forall|t: int| 0 <= t < self.tables@.len() ==> (#[trigger] self.tables@[t]).wf()
    }
}

/// Whether two type families are the same.
pub fn families_equal(a: &TypeFamily, b: &TypeFamily) -> (r: bool)
    ensures
        r == same_family(*a, *b),
{
    match (a, b) {
        (TypeFamily::Enum(x), TypeFamily::Enum(y)) => x.eq(y),
        (TypeFamily::Int, TypeFamily::Int) => true,
        (TypeFamily::BigInt, TypeFamily::BigInt) => true,
        (TypeFamily::Float, TypeFamily::Float) => true,
        (TypeFamily::Decimal, TypeFamily::Decimal) => true,
        (TypeFamily::Boolean, TypeFamily::Boolean) => true,
        (TypeFamily::String, TypeFamily::String) => true,
        (TypeFamily::DateTime, TypeFamily::DateTime) => true,
        (TypeFamily::Binary, TypeFamily::Binary) => true,
        (TypeFamily::Json, TypeFamily::Json) => true,
        (TypeFamily::Uuid, TypeFamily::Uuid) => true,
        (TypeFamily::Unsupported, TypeFamily::Unsupported) => true,
        _ => false,
    }
}

/// Whether two optional strings hold the same text.
pub fn opt_strings_equal(a: &Option<String>, b: &Option<String>) -> (r: bool)
    ensures
        r == same_opt_string(*a, *b),
{
    match (a, b) {
        (Some(x), Some(y)) => x.eq(y),
        (None, None) => true,
        _ => false,
    }
}

} // verus!
