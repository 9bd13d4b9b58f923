//! The physical schema that inference starts from: tables, columns, foreign
//! keys, indices and enums, with their mathematical views and the lookups
//! that the builders share.

use crate::names::Name;
use vstd::prelude::*;
use vstd::string::*;

verus! {

/// The family a physical column type belongs to.
#[derive(Debug, Clone, PartialEq, Eq)]
pub enum ColumnTypeFamily {
    Int,
    Float,
    Boolean,
    Text,
    DateTime,
    /// A database enum, by name.
    Enum(String),
    /// A physical type without a counterpart in the model language.
    Unsupported(String),
}

/// The mathematical view of a `ColumnTypeFamily`.
pub enum ColumnFamilyView {
    Int,
    Float,
    Boolean,
    Text,
    DateTime,
    Enum(Name),
    Unsupported(Name),
}

impl DeepView for ColumnTypeFamily {
    type V = ColumnFamilyView;

    open spec fn deep_view(&self) -> ColumnFamilyView {
        match self {
            ColumnTypeFamily::Int => ColumnFamilyView::Int,
            ColumnTypeFamily::Float => ColumnFamilyView::Float,
            ColumnTypeFamily::Boolean => ColumnFamilyView::Boolean,
            ColumnTypeFamily::Text => ColumnFamilyView::Text,
            ColumnTypeFamily::DateTime => ColumnFamilyView::DateTime,
            ColumnTypeFamily::Enum(n) => ColumnFamilyView::Enum(n@),
            ColumnTypeFamily::Unsupported(n) => ColumnFamilyView::Unsupported(n@),
        }
    }
}

/// How many values a column holds per row.
#[derive(Debug, Clone, Copy, PartialEq, Eq)]
pub enum ColumnArity {
    Required,
    Nullable,
    List,
}

/// What the database does to referencing rows when a referenced row goes.
#[derive(Debug, Clone, Copy, PartialEq, Eq)]
pub enum ForeignKeyAction {
    NoAction,
    Restrict,
    Cascade,
    SetNull,
    SetDefault,
}

/// A column of a table.
#[derive(Debug, Clone, PartialEq, Eq)]
pub struct Column {
    pub name: String,
    pub family: ColumnTypeFamily,
    pub arity: ColumnArity,
    /// The default expression, as the database reports it.
    pub default: Option<String>,
    pub auto_increment: bool,
}

/// The mathematical view of a `Column`.
pub struct ColumnView {
    pub name: Name,
    pub family: ColumnFamilyView,
    pub arity: ColumnArity,
    pub default: Option<Name>,
    pub auto_increment: bool,
}

impl DeepView for Column {
    type V = ColumnView;

    open spec fn deep_view(&self) -> ColumnView {
        ColumnView {
            name: self.name@,
            family: self.family.deep_view(),
            arity: self.arity,
            default: self.default.deep_view(),
            auto_increment: self.auto_increment,
        }
    }
}

/// A foreign key: `columns` of the owning table reference
/// `referenced_columns` of `referenced_table`, position by position.
#[derive(Debug, Clone, PartialEq, Eq)]
pub struct ForeignKey {
    pub columns: Vec<String>,
    pub referenced_table: String,
    pub referenced_columns: Vec<String>,
    pub on_delete_action: ForeignKeyAction,
}

/// The mathematical view of a `ForeignKey`.
pub struct ForeignKeyView {
    pub columns: Seq<Name>,
    pub referenced_table: Name,
    pub referenced_columns: Seq<Name>,
    pub on_delete_action: ForeignKeyAction,
}

impl DeepView for ForeignKey {
    type V = ForeignKeyView;

    open spec fn deep_view(&self) -> ForeignKeyView {
        ForeignKeyView {
            columns: self.columns.deep_view(),
            referenced_table: self.referenced_table@,
            referenced_columns: self.referenced_columns.deep_view(),
            on_delete_action: self.on_delete_action,
        }
    }
}

/// An index of a table.
#[derive(Debug, Clone, PartialEq, Eq)]
pub struct Index {
    pub columns: Vec<String>,
    pub unique: bool,
}

/// The mathematical view of an `Index`.
pub struct IndexView {
    pub columns: Seq<Name>,
    pub unique: bool,
}

impl DeepView for Index {
    type V = IndexView;

    open spec fn deep_view(&self) -> IndexView {
        IndexView { columns: self.columns.deep_view(), unique: self.unique }
    }
}

/// A table of a schema.
#[derive(Debug, Clone, PartialEq, Eq)]
pub struct Table {
    pub name: String,
    pub columns: Vec<Column>,
    pub foreign_keys: Vec<ForeignKey>,
    pub indices: Vec<Index>,
    /// The columns of the primary key, if the table has one.
    pub primary_key: Option<Vec<String>>,
}

/// The mathematical view of a `Table`.
pub struct TableView {
    pub name: Name,
    pub columns: Seq<ColumnView>,
    pub foreign_keys: Seq<ForeignKeyView>,
    pub indices: Seq<IndexView>,
    pub primary_key: Option<Seq<Name>>,
}

impl DeepView for Table {
    type V = TableView;

    open spec fn deep_view(&self) -> TableView {
        TableView {
            name: self.name@,
            columns: self.columns.deep_view(),
            foreign_keys: self.foreign_keys.deep_view(),
            indices: self.indices.deep_view(),
            primary_key: self.primary_key.deep_view(),
        }
    }
}

/// An enum of a schema.
#[derive(Debug, Clone, PartialEq, Eq)]
pub struct Enum {
    pub name: String,
    pub values: Vec<String>,
}

/// The mathematical view of an `Enum`.
pub struct EnumView {
    pub name: Name,
    pub values: Seq<Name>,
}

impl DeepView for Enum {
    type V = EnumView;

    open spec fn deep_view(&self) -> EnumView {
        EnumView { name: self.name@, values: self.values.deep_view() }
    }
}

/// A snapshot of a database's structure.
#[derive(Debug, Clone, PartialEq, Eq)]
pub struct SqlSchema {
    pub tables: Vec<Table>,
    pub enums: Vec<Enum>,
}

/// The mathematical view of a `SqlSchema`.
pub struct SchemaView {
    pub tables: Seq<TableView>,
    pub enums: Seq<EnumView>,
}

impl DeepView for SqlSchema {
    type V = SchemaView;

    open spec fn deep_view(&self) -> SchemaView {
        SchemaView { tables: self.tables.deep_view(), enums: self.enums.deep_view() }
    }
}

/// Two column lists match when they are equally long and name the same set
/// of columns, in whatever order.
pub open spec fn columns_match(a: Seq<Name>, b: Seq<Name>) -> bool {
    &&& a.len() == b.len()
    &&& forall|i: int| 0 <= i < a.len() ==> b.contains(#[trigger] a[i])
    &&& forall|i: int| 0 <= i < b.len() ==> a.contains(#[trigger] b[i])
}

/// The position of the first column of the table with the given name.
#[verifier::opaque]
pub open spec fn column_position(t: TableView, name: Name) -> Option<int> {
    if exists|i: int| 0 <= i < t.columns.len() && (#[trigger] t.columns[i]).name == name {
        Some(
            choose|i: int|
                0 <= i < t.columns.len() && (#[trigger] t.columns[i]).name == name && forall|
                    j: int,
                |
                    0 <= j < i ==> (#[trigger] t.columns[j]).name != name,
        )
    } else {
        None
    }
}

/// Whether some foreign key of the table holds the column.
pub open spec fn is_foreign_key_column(t: TableView, name: Name) -> bool {
    exists|k: int|
        0 <= k < t.foreign_keys.len() && (#[trigger] t.foreign_keys[k]).columns.contains(name)
}

/// Whether a unique index sits on exactly this one column.
pub open spec fn is_column_unique(t: TableView, name: Name) -> bool {
    exists|i: int|
        0 <= i < t.indices.len() && (#[trigger] t.indices[i]).unique && t.indices[i].columns
            == seq![name]
}

/// Whether a unique index sits on exactly this set of columns.
pub open spec fn has_unique_index_on(t: TableView, columns: Seq<Name>) -> bool {
    exists|i: int|
        0 <= i < t.indices.len() && (#[trigger] t.indices[i]).unique && columns_match(
            t.indices[i].columns,
            columns,
        )
}

/// Whether some foreign key of the table sits on exactly this set of columns.
pub open spec fn has_foreign_key_on(t: TableView, columns: Seq<Name>) -> bool {
    exists|k: int|
        0 <= k < t.foreign_keys.len() && columns_match(
            (#[trigger] t.foreign_keys[k]).columns,
            columns,
        )
}

/// Whether a list of names holds a name.
pub fn names_contain(names: &Vec<String>, name: &String) -> (r: bool)
    ensures
        r == names.deep_view().contains(name@),
{
    let mut i: usize = 0;
    while i < names.len()
        invariant
            i <= names.len(),
            forall|j: int| 0 <= j < i ==> names.deep_view()[j] != name@,
        decreases names.len() - i,
    {
        if names[i] == *name {
            assert(names.deep_view()[i as int] == name@);
            return true;
        }
        i += 1;
    }
    false
}

fn names_within(a: &Vec<String>, b: &Vec<String>) -> (r: bool)
    ensures
        r == forall|i: int| 0 <= i < a.len() ==> b.deep_view().contains(#[trigger] a.deep_view()[i]),
{
    let mut i: usize = 0;
    while i < a.len()
        invariant
            i <= a.len(),
            forall|j: int| 0 <= j < i ==> b.deep_view().contains(#[trigger] a.deep_view()[j]),
        decreases a.len() - i,
    {
        if !names_contain(b, &a[i]) {
            assert(!b.deep_view().contains(a.deep_view()[i as int]));
            return false;
        }
        i += 1;
    }
    true
}

/// Whether two column lists match.
pub fn columns_match_exec(a: &Vec<String>, b: &Vec<String>) -> (r: bool)
    ensures
        r == columns_match(a.deep_view(), b.deep_view()),
{
    a.len() == b.len() && names_within(a, b) && names_within(b, a)
}

/// A copy of a list of names.
pub fn clone_names(names: &Vec<String>) -> (r: Vec<String>)
    ensures
        r.deep_view() == names.deep_view(),
{
    let mut out: Vec<String> = Vec::new();
    let mut i: usize = 0;
    while i < names.len()
        invariant
            i <= names.len(),
            out.len() == i,
            forall|j: int| 0 <= j < i ==> out.deep_view()[j] == names.deep_view()[j],
        decreases names.len() - i,
    {
        out.push(names[i].clone());
        i += 1;
    }
    assert(out.deep_view() =~= names.deep_view());
    out
}

impl Table {
    /// The position of the first column with the given name.
    pub fn find_column(&self, name: &String) -> (r: Option<usize>)
        ensures
            match r {
                Some(i) => column_position(self.deep_view(), name@) == Some(i as int),
                None => column_position(self.deep_view(), name@).is_none(),
            },
            r.is_some() ==> r.unwrap() < self.columns.len() && self.deep_view().columns[r.unwrap() as int].name
                == name@,
    {
        let mut i: usize = 0;
        while i < self.columns.len()
            invariant
                i <= self.columns.len(),
                forall|j: int| 0 <= j < i ==> (#[trigger] self.deep_view().columns[j]).name != name@,
            decreases self.columns.len() - i,
        {
            if self.columns[i].name == *name {
                proof {
                    reveal(column_position);
                    assert(self.deep_view().columns[i as int].name == name@);
                }
                return Some(i);
            }
            i += 1;
        }
        proof {
            reveal(column_position);
        }
        None
    }

    /// Whether some foreign key of the table holds the column.
    pub fn is_foreign_key_column(&self, name: &String) -> (r: bool)
        ensures
            r == is_foreign_key_column(self.deep_view(), name@),
    {
        let mut k: usize = 0;
        while k < self.foreign_keys.len()
            invariant
                k <= self.foreign_keys.len(),
                forall|j: int|
                    0 <= j < k ==> !(#[trigger] self.deep_view().foreign_keys[j]).columns.contains(
                        name@,
                    ),
            decreases self.foreign_keys.len() - k,
        {
            if names_contain(&self.foreign_keys[k].columns, name) {
                assert(self.deep_view().foreign_keys[k as int].columns.contains(name@));
                return true;
            }
            k += 1;
        }
        false
    }

    /// Whether a unique index sits on exactly this one column.
    pub fn is_column_unique(&self, name: &String) -> (r: bool)
        ensures
            r == is_column_unique(self.deep_view(), name@),
    {
        let mut i: usize = 0;
        while i < self.indices.len()
            invariant
                i <= self.indices.len(),
                forall|j: int|
                    0 <= j < i ==> !((#[trigger] self.deep_view().indices[j]).unique
                        && self.deep_view().indices[j].columns == seq![name@]),
            decreases self.indices.len() - i,
        {
            let index = &self.indices[i];
            if index.unique && index.columns.len() == 1 && index.columns[0] == *name {
                assert(self.deep_view().indices[i as int].columns =~= seq![name@]);
                return true;
            }
            proof {
                let cols = self.deep_view().indices[i as int].columns;
                if cols == seq![name@] {
                    assert(cols.len() == 1);
                    assert(cols[0] == name@);
                }
            }
            i += 1;
        }
        false
    }

    /// Whether a unique index sits on exactly this set of columns.
    pub fn has_unique_index_on(&self, columns: &Vec<String>) -> (r: bool)
        ensures
            r == has_unique_index_on(self.deep_view(), columns.deep_view()),
    {
        let mut i: usize = 0;
        while i < self.indices.len()
            invariant
                i <= self.indices.len(),
                forall|j: int|
                    0 <= j < i ==> !((#[trigger] self.deep_view().indices[j]).unique
                        && columns_match(
                        self.deep_view().indices[j].columns,
                        columns.deep_view(),
                    )),
            decreases self.indices.len() - i,
        {
            let index = &self.indices[i];
            if index.unique && columns_match_exec(&index.columns, columns) {
                assert(self.deep_view().indices[i as int].unique);
                return true;
            }
            i += 1;
        }
        false
    }

    /// Whether some foreign key of the table sits on exactly this set of
    /// columns.
    pub fn has_foreign_key_on(&self, columns: &Vec<String>) -> (r: bool)
        ensures
            r == has_foreign_key_on(self.deep_view(), columns.deep_view()),
    {
        let mut k: usize = 0;
        while k < self.foreign_keys.len()
            invariant
                k <= self.foreign_keys.len(),
                forall|j: int|
                    0 <= j < k ==> !columns_match(
                        (#[trigger] self.deep_view().foreign_keys[j]).columns,
                        columns.deep_view(),
                    ),
            decreases self.foreign_keys.len() - k,
        {
            if columns_match_exec(&self.foreign_keys[k].columns, columns) {
                assert(columns_match(
                    self.deep_view().foreign_keys[k as int].columns,
                    columns.deep_view(),
                ));
                return true;
            }
            k += 1;
        }
        false
    }
}

} // verus!
