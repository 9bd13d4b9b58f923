//! Which tables become models: bookkeeping tables are left out, and join
//! tables of the two legacy conventions stand for many-to-many relations.

use crate::names::{name_le, str_eq, str_le, Name};
use crate::schema::{Table, TableView};
use vstd::prelude::*;
use vstd::string::*;

verus! {

/// What a table is to inference.
#[derive(Debug, Clone, Copy, PartialEq, Eq)]
pub enum TableRole {
    /// The table in which migrations are recorded: left out entirely.
    Migration,
    /// A join table of the later legacy convention: two columns `A` and `B`.
    JoinTableV1,
    /// A join table of the earlier legacy convention: `A`, `B` and its own
    /// `id`.
    JoinTableV0,
    /// Any other table: it becomes a model.
    Model,
}

/// Whether a column goes by the name of the first join column.
pub open spec fn is_a(name: Name) -> bool {
    name == "a"@ || name == "A"@
}

/// Whether a column goes by the name of the second join column.
pub open spec fn is_b(name: Name) -> bool {
    name == "b"@ || name == "B"@
}

/// Whether the table goes by the name of the table that records migrations.
pub open spec fn names_migration_table(t: TableView) -> bool {
    t.name == "_Migration"@
}

/// A unique index on the columns `A`, `B`, in this order.
pub open spec fn has_unique_index_on_a_b(t: TableView) -> bool {
    exists|i: int|
        0 <= i < t.indices.len() && (#[trigger] t.indices[i]).unique && t.indices[i].columns.len()
            == 2 && is_a(t.indices[i].columns[0]) && is_b(t.indices[i].columns[1])
}

/// A plain index on the column `B`.
pub open spec fn has_plain_index_on_b(t: TableView) -> bool {
    exists|i: int|
        0 <= i < t.indices.len() && !(#[trigger] t.indices[i]).unique
            && t.indices[i].columns.len() == 1 && is_b(t.indices[i].columns[0])
}

/// What both legacy conventions ask of a join table: a name that begins with
/// `_`; exactly two foreign keys of one column each, on `A` and on `B`, with
/// `A` referencing the table whose name sorts first; a unique index on
/// `A`, `B` and a plain index on `B`.
pub open spec fn has_join_table_shape(t: TableView) -> bool {
    &&& t.name.len() > 0
    &&& t.name[0] == '_'
    &&& t.foreign_keys.len() == 2
    &&& t.foreign_keys[0].columns.len() == 1
    &&& t.foreign_keys[1].columns.len() == 1
    &&& has_unique_index_on_a_b(t)
    &&& has_plain_index_on_b(t)
    &&& if name_le(t.foreign_keys[0].referenced_table, t.foreign_keys[1].referenced_table) {
        is_a(t.foreign_keys[0].columns[0]) && is_b(t.foreign_keys[1].columns[0])
    } else {
        is_b(t.foreign_keys[0].columns[0]) && is_a(t.foreign_keys[1].columns[0])
    }
}

/// The later convention: nothing but the two join columns, and no primary
/// key.
pub open spec fn is_join_table_v1(t: TableView) -> bool {
    &&& t.columns.len() == 2
    &&& t.primary_key is None
    &&& has_join_table_shape(t)
}

/// The earlier convention: the two join columns and a column `id`, which
/// alone may be the primary key.
pub open spec fn is_join_table_v0(t: TableView) -> bool {
    &&& t.columns.len() == 3
    &&& exists|i: int| 0 <= i < t.columns.len() && (#[trigger] t.columns[i]).name == "id"@
    &&& (t.primary_key is None || t.primary_key == Some(seq!["id"@]))
    &&& has_join_table_shape(t)
}

/// The role of a table: the first of the three exclusions that applies, or
/// `Model`.
pub open spec fn table_role(t: TableView) -> TableRole {
    if names_migration_table(t) {
        TableRole::Migration
    } else if is_join_table_v1(t) {
        TableRole::JoinTableV1
    } else if is_join_table_v0(t) {
        TableRole::JoinTableV0
    } else {
        TableRole::Model
    }
}

/// Whether the table becomes a model.
pub open spec fn is_modelled(t: TableView) -> bool {
    table_role(t) is Model
}

/// Whether the table stands for a many-to-many relation.
pub open spec fn is_join_table(t: TableView) -> bool {
    table_role(t) is JoinTableV1 || table_role(t) is JoinTableV0
}

fn column_is_a(name: &String) -> (r: bool)
    ensures
        r == is_a(name@),
{
    str_eq(name.as_str(), "a") || str_eq(name.as_str(), "A")
}

fn column_is_b(name: &String) -> (r: bool)
    ensures
        r == is_b(name@),
{
    str_eq(name.as_str(), "b") || str_eq(name.as_str(), "B")
}

fn unique_index_on_a_b(table: &Table) -> (r: bool)
    ensures
        r == has_unique_index_on_a_b(table.deep_view()),
{
    let mut i: usize = 0;
    while i < table.indices.len()
        invariant
            i <= table.indices.len(),
            forall|j: int|
                0 <= j < i ==> !((#[trigger] table.deep_view().indices[j]).unique
                    && table.deep_view().indices[j].columns.len() == 2 && is_a(
                    table.deep_view().indices[j].columns[0],
                ) && is_b(table.deep_view().indices[j].columns[1])),
        decreases table.indices.len() - i,
    {
        let index = &table.indices[i];
        assert(table.deep_view().indices[i as int] == index.deep_view());
        if index.unique && index.columns.len() == 2 && column_is_a(&index.columns[0])
            && column_is_b(&index.columns[1]) {
            return true;
        }
        i += 1;
    }
    false
}

fn plain_index_on_b(table: &Table) -> (r: bool)
    ensures
        r == has_plain_index_on_b(table.deep_view()),
{
    let mut i: usize = 0;
    while i < table.indices.len()
        invariant
            i <= table.indices.len(),
            forall|j: int|
                0 <= j < i ==> !(!(#[trigger] table.deep_view().indices[j]).unique
                    && table.deep_view().indices[j].columns.len() == 1 && is_b(
                    table.deep_view().indices[j].columns[0],
                )),
        decreases table.indices.len() - i,
    {
        let index = &table.indices[i];
        assert(table.deep_view().indices[i as int] == index.deep_view());
        if !index.unique && index.columns.len() == 1 && column_is_b(&index.columns[0]) {
            return true;
        }
        i += 1;
    }
    false
}

fn join_table_shape(table: &Table) -> (r: bool)
    ensures
        r == has_join_table_shape(table.deep_view()),
{
    let n = table.name.as_str().unicode_len();
    if n == 0 || table.name.as_str().get_char(0) != '_' {
        return false;
    }
    if table.foreign_keys.len() != 2 {
        return false;
    }
    let first = &table.foreign_keys[0];
    let second = &table.foreign_keys[1];
    assert(table.deep_view().foreign_keys[0] == first.deep_view());
    assert(table.deep_view().foreign_keys[1] == second.deep_view());
    if first.columns.len() != 1 || second.columns.len() != 1 {
        return false;
    }
    if !unique_index_on_a_b(table) || !plain_index_on_b(table) {
        return false;
    }
    if str_le(first.referenced_table.as_str(), second.referenced_table.as_str()) {
        column_is_a(&first.columns[0]) && column_is_b(&second.columns[0])
    } else {
        column_is_b(&first.columns[0]) && column_is_a(&second.columns[0])
    }
}

fn has_id_column(table: &Table) -> (r: bool)
    ensures
        r == exists|i: int|
            0 <= i < table.deep_view().columns.len() && (#[trigger] table.deep_view().columns[i]).name
                == "id"@,
{
    let mut i: usize = 0;
    while i < table.columns.len()
        invariant
            i <= table.columns.len(),
            forall|j: int| 0 <= j < i ==> (#[trigger] table.deep_view().columns[j]).name != "id"@,
        decreases table.columns.len() - i,
    {
        if str_eq(table.columns[i].name.as_str(), "id") {
            assert(table.deep_view().columns[i as int].name == "id"@);
            return true;
        }
        i += 1;
    }
    false
}

/// Whether the table records migrations.
pub fn is_migration_table(table: &Table) -> (r: bool)
    ensures
        r == names_migration_table(table.deep_view()),
{
    str_eq(table.name.as_str(), "_Migration")
}

/// Whether the table has the shape of a join table of the later legacy
/// convention.
pub fn is_prisma_1_point_1_join_table(table: &Table) -> (r: bool)
    ensures
        r == is_join_table_v1(table.deep_view()),
{
    table.columns.len() == 2 && table.primary_key.is_none() && join_table_shape(table)
}

/// Whether the table has the shape of a join table of the earlier legacy
/// convention.
pub fn is_prisma_1_point_0_join_table(table: &Table) -> (r: bool)
    ensures
        r == is_join_table_v0(table.deep_view()),
{
    if table.columns.len() != 3 || !has_id_column(table) {
        return false;
    }
    let key_fits = match &table.primary_key {
        None => true,
        Some(pk) => {
            let fits = pk.len() == 1 && str_eq(pk[0].as_str(), "id");
            proof {
                let cols = pk.deep_view();
                if fits {
                    assert(cols =~= seq!["id"@]);
                } else if cols == seq!["id"@] {
                    assert(cols.len() == 1);
                    assert(cols[0] == "id"@);
                }
            }
            fits
        },
    };
    key_fits && join_table_shape(table)
}

/// The role of a table.
pub fn classify_table(table: &Table) -> (r: TableRole)
    ensures
        r == table_role(table.deep_view()),
{
    if is_migration_table(table) {
        TableRole::Migration
    } else if is_prisma_1_point_1_join_table(table) {
        TableRole::JoinTableV1
    } else if is_prisma_1_point_0_join_table(table) {
        TableRole::JoinTableV0
    } else {
        TableRole::Model
    }
}

/// Whether the table is kept from becoming a model.
pub fn is_excluded(table: &Table) -> (r: bool)
    ensures
        r == !is_modelled(table.deep_view()),
{
    match classify_table(table) {
        TableRole::Model => false,
        _ => true,
    }
}

/// Whether the table stands for a many-to-many relation.
pub fn is_implicit_join_table(table: &Table) -> (r: bool)
    ensures
        r == is_join_table(table.deep_view()),
{
    match classify_table(table) {
        TableRole::JoinTableV1 => true,
        TableRole::JoinTableV0 => true,
        _ => false,
    }
}

} // verus!
