use vstd::prelude::*;
use vstd::utf8::encode_utf8;

use crate::schema::{families_equal, same_family, Index, IndexType, TypeFamily};
use crate::steps::ColumnTypeChange;

verus! {

/// How a change from one type family to another is carried out.
#[derive(Debug, Clone)]
pub struct CastRule {
    pub from: TypeFamily,
    pub to: TypeFamily,
    pub change: ColumnTypeChange,
}

/// The predicates and policies of one SQL dialect.
#[derive(Debug, Clone)]
pub struct Flavour {
    pub can_alter_index: bool,
    pub push_foreign_keys_from_created_tables: bool,
    pub drop_foreign_keys_from_dropped_tables: bool,
    pub create_indexes_from_created_tables: bool,
    /// Unique indexes of a new table are part of its definition and get no step of their own.
    pub skip_unique_indexes_for_new_tables: bool,
    pub drop_indexes_from_dropped_tables: bool,
    pub skip_fk_indexes: bool,
    pub recreate_indexes_after_column_drop: bool,
    pub recreate_primary_key_on_column_recreate: bool,
    pub can_rename_index: bool,
    pub case_insensitive_table_names: bool,
    pub can_cope_with_foreign_key_column_becoming_nonnullable: bool,
    /// The `ReferentialActions` preview feature is on.
    pub referential_actions: bool,
    /// Tables whose foreign keys, primary key or columns change are redefined as a whole.
    pub redefines_tables: bool,
    pub supports_enums: bool,
    /// Castability of type changes, first matching rule first.
    pub casts: Vec<CastRule>,
    /// Castability of a type change that no rule names.
    pub default_cast: ColumnTypeChange,
}

pub open spec fn ascii_lower(b: u8) -> u8 {
    if 65 <= b <= 90 {
        (b + 32) as u8
    } else {
        b
    }
}

/// Two names are the same table name: equal, or equal up to ASCII case where the
/// dialect ignores case.
pub open spec fn names_match(case_insensitive: bool, a: Seq<char>, b: Seq<char>) -> bool {
    if case_insensitive {
        &&& encode_utf8(a).len() == encode_utf8(b).len()
        &&& forall|i: int|
            0 <= i < encode_utf8(a).len() ==> ascii_lower(#[trigger] encode_utf8(a)[i])
                == ascii_lower(encode_utf8(b)[i])
    } else {
        a == b
    }
}

/// The castability that the first rule from `a` to `b` gives, or `d` where none does.
pub open spec fn cast_of(rules: Seq<CastRule>, d: ColumnTypeChange, a: TypeFamily, b: TypeFamily) -> ColumnTypeChange
    decreases rules.len(),
{
    if rules.len() == 0 {
        d
    } else if same_family(rules[0].from, a) && same_family(rules[0].to, b) {
        rules[0].change
    } else {
        cast_of(rules.drop_first(), d, a, b)
    }
}

impl Flavour {
    pub open spec fn spec_type_change(&self, a: TypeFamily, b: TypeFamily) -> Option<ColumnTypeChange> {
        if same_family(a, b) {
            None
        } else {
            Some(cast_of(self.casts@, self.default_cast, a, b))
        }
    }

    pub open spec fn spec_table_names_match(&self, a: Seq<char>, b: Seq<char>) -> bool {
        names_match(self.case_insensitive_table_names, a, b)
    }

    pub open spec fn spec_index_should_be_renamed(&self, previous: Index, next: Index) -> bool {
        self.can_rename_index && previous.name@ != next.name@
    }

    pub open spec fn spec_skip_index_for_new_table(&self, index: Index) -> bool {
        self.skip_unique_indexes_for_new_tables && index.kind == IndexType::Unique
    }

    /// Whether two table names name the same table.
    pub fn table_names_match(&self, a: &String, b: &String) -> (r: bool)
        ensures
            r == self.spec_table_names_match(a@, b@),
    {
        if !self.case_insensitive_table_names {
            return a.eq(b);
        }
        let x = a.as_str().as_bytes();
        let y = b.as_str().as_bytes();
        if x.len() != y.len() {
            return false;
        }
        let mut i: usize = 0;
        while i < x.len()
            invariant
                x@ == encode_utf8(a@),
                y@ == encode_utf8(b@),
                x@.len() == y@.len(),
                0 <= i <= x@.len(),
                forall|k: int| 0 <= k < i ==> ascii_lower(#[trigger] x@[k]) == ascii_lower(y@[k]),
            decreases x@.len() - i,
        {
            if lower_byte(x[i]) != lower_byte(y[i]) {
                return false;
            }
            i += 1;
        }
        true
    }

    /// The castability of a change of type family, `None` where the family stays.
    pub fn column_type_change(&self, a: &TypeFamily, b: &TypeFamily) -> (r: Option<ColumnTypeChange>)
        ensures
            r == self.spec_type_change(*a, *b),
    {
        if families_equal(a, b) {
            return None;
        }
        let mut i: usize = 0;
        assert(self.casts@.subrange(0, self.casts@.len() as int) =~= self.casts@);
        while i < self.casts.len()
            invariant
                0 <= i <= self.casts@.len(),
                !same_family(*a, *b),
                cast_of(self.casts@, self.default_cast, *a, *b) == cast_of(
                    self.casts@.subrange(i as int, self.casts@.len() as int),
                    self.default_cast,
                    *a,
                    *b,
                ),
            decreases self.casts@.len() - i,
        {
            let ghost rest = self.casts@.subrange(i as int, self.casts@.len() as int);
            assert(rest.drop_first() =~= self.casts@.subrange(i + 1, self.casts@.len() as int));
            assert(rest[0] == self.casts@[i as int]);
            let rule = &self.casts[i];
            if families_equal(&rule.from, a) && families_equal(&rule.to, b) {
                return Some(rule.change);
            }
            i += 1;
        }
        Some(self.default_cast)
    }

    /// Whether a pair of matching indexes is renamed in place.
    pub fn index_should_be_renamed(&self, previous: &Index, next: &Index) -> (r: bool)
        ensures
            r == self.spec_index_should_be_renamed(*previous, *next),
    {
        self.can_rename_index && !previous.name.eq(&next.name)
    }

    /// Whether an index of a created table gets no step of its own.
    pub fn should_skip_index_for_new_table(&self, index: &Index) -> (r: bool)
        ensures
            r == self.spec_skip_index_for_new_table(*index),
    {
        self.skip_unique_indexes_for_new_tables && index.kind == IndexType::Unique
    }
}

fn lower_byte(b: u8) -> (r: u8)
    ensures
        r == ascii_lower(b),
{
    if 65 <= b && b <= 90 {
        b + 32
    } else {
        b
    }
}

} // verus!
