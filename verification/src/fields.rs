//! The fields of a model: scalar fields from plain columns, relation fields
//! from foreign keys, and the fields that exist on the model only, for the
//! far end of a foreign key and for both ends of a join table.

use crate::datamodel::{
    DefaultValue, DefaultView, Field, FieldArity, FieldType, FieldTypeView, FieldView,
    OnDeleteStrategy, RelationInfo, RelationView, ScalarType,
};
use crate::error::{outcome, ErrorKind, ErrorView, IntrospectionError};
use crate::filters::{classify_table, is_modelled, TableRole};
use crate::names::{
    camel_cased, default_relation_name, name_lt, str_lt, DefaultNames, Name, NameNormalizer,
};
use crate::schema::{
    clone_names, column_position, has_unique_index_on, is_column_unique, Column, ColumnArity,
    ColumnFamilyView, ColumnTypeFamily, ColumnView, ForeignKey, ForeignKeyView, Table,
    TableView,
};
use crate::sequences::lemma_first_position;
use vstd::prelude::*;
use vstd::string::*;

verus! {

/// The arity of the scalar field of a column.
pub open spec fn field_arity_of(arity: ColumnArity) -> FieldArity {
    match arity {
        ColumnArity::Required => FieldArity::Required,
        ColumnArity::Nullable => FieldArity::Optional,
        ColumnArity::List => FieldArity::List,
    }
}

/// The type of the model language that a physical type maps to.
pub open spec fn field_type_of(family: ColumnFamilyView) -> FieldTypeView {
    match family {
        ColumnFamilyView::Int => FieldTypeView::Base(ScalarType::Int),
        ColumnFamilyView::Float => FieldTypeView::Base(ScalarType::Float),
        ColumnFamilyView::Boolean => FieldTypeView::Base(ScalarType::Boolean),
        ColumnFamilyView::Text => FieldTypeView::Base(ScalarType::Text),
        ColumnFamilyView::DateTime => FieldTypeView::Base(ScalarType::DateTime),
        ColumnFamilyView::Enum(n) => FieldTypeView::Enum(n),
        ColumnFamilyView::Unsupported(n) => FieldTypeView::Unsupported(n),
    }
}

/// The default of the scalar field of a column: none for a list; the
/// numbering of the database where the column is auto-incremented; else the
/// default expression of the column, if it has one.
pub open spec fn default_of(c: ColumnView) -> Option<DefaultView> {
    if c.arity is List {
        None
    } else if c.auto_increment {
        Some(DefaultView::Autoincrement)
    } else {
        match c.default {
            Some(e) => Some(DefaultView::Expression(e)),
            None => None,
        }
    }
}

/// Whether the column alone is the primary key of the table.
pub open spec fn is_single_id(t: TableView, name: Name) -> bool {
    t.primary_key == Some(seq![name])
}

/// The scalar field that stands for a column outside every foreign key.
pub open spec fn scalar_field(t: TableView, c: ColumnView) -> FieldView {
    FieldView {
        name: c.name,
        arity: field_arity_of(c.arity),
        field_type: field_type_of(c.family),
        default_value: default_of(c),
        is_unique: is_column_unique(t, c.name),
        is_id: is_single_id(t, c.name),
        columns: seq![c.name],
        is_commented_out: false,
    }
}

/// The position of the first table with the given name among those that
/// become models.
#[verifier::opaque]
pub open spec fn modelled_position(tables: Seq<TableView>, name: Name) -> Option<int> {
    if exists|i: int|
        0 <= i < tables.len() && (#[trigger] tables[i]).name == name && is_modelled(tables[i]) {
        Some(
            choose|i: int|
                0 <= i < tables.len() && (#[trigger] tables[i]).name == name && is_modelled(
                    tables[i],
                ) && forall|j: int|
                    0 <= j < i ==> !((#[trigger] tables[j]).name == name && is_modelled(tables[j])),
        )
    } else {
        None
    }
}

/// What `modelled_position` finds, and what it means to find nothing.
pub proof fn lemma_modelled_position(tables: Seq<TableView>, name: Name)
    ensures
        match modelled_position(tables, name) {
            Some(i) => 0 <= i < tables.len() && tables[i].name == name && is_modelled(tables[i])
                && forall|j: int|
                0 <= j < i ==> !((#[trigger] tables[j]).name == name && is_modelled(tables[j])),
            None => forall|j: int|
                0 <= j < tables.len() ==> !((#[trigger] tables[j]).name == name && is_modelled(
                    tables[j],
                )),
        },
{
    reveal(modelled_position);
    let p = |i: int| tables[i].name == name && is_modelled(tables[i]);
    if exists|i: int|
        0 <= i < tables.len() && (#[trigger] tables[i]).name == name && is_modelled(tables[i]) {
        let w = choose|i: int|
            0 <= i < tables.len() && (#[trigger] tables[i]).name == name && is_modelled(tables[i]);
        assert(p(w));
        lemma_first_position(tables.len() as int, p);
        let f = choose|i: int|
            0 <= i < tables.len() && #[trigger] p(i) && forall|j: int| 0 <= j < i ==> !#[trigger] p(j);
        assert(tables[f].name == name && is_modelled(tables[f]));
        assert forall|j: int| 0 <= j < f implies !((#[trigger] tables[j]).name == name
            && is_modelled(tables[j])) by {
            assert(!p(j));
        }
    }
}

/// Whether the table has a column of this name that holds a value in every
/// row.
pub open spec fn column_is_required(t: TableView, name: Name) -> bool {
    match column_position(t, name) {
        Some(i) => t.columns[i].arity is Required,
        None => false,
    }
}

/// What inference takes for granted of a foreign key: it has columns, as many
/// as it references; its table has each of them; and the table it references
/// becomes a model.
pub open spec fn foreign_key_is_sound(
    tables: Seq<TableView>,
    t: TableView,
    fk: ForeignKeyView,
) -> bool {
    &&& fk.columns.len() > 0
    &&& fk.columns.len() == fk.referenced_columns.len()
    &&& forall|j: int|
        0 <= j < fk.columns.len() ==> column_position(t, #[trigger] fk.columns[j]) is Some
    &&& modelled_position(tables, fk.referenced_table) is Some
}

/// Whether another foreign key of the table references the table that the
/// `k`-th one references; with `compound`, whether another one of more than
/// one column does.
pub open spec fn has_sibling_key(t: TableView, k: int, compound: bool) -> bool {
    exists|j: int|
        0 <= j < t.foreign_keys.len() && j != k && (#[trigger] t.foreign_keys[j]).referenced_table
            == t.foreign_keys[k].referenced_table && (compound ==> t.foreign_keys[j].columns.len()
            > 1)
}

/// Whether some foreign key of the table references the named table.
pub open spec fn references_table(t: TableView, name: Name) -> bool {
    exists|j: int|
        0 <= j < t.foreign_keys.len() && (#[trigger] t.foreign_keys[j]).referenced_table == name
}

/// Whether the default name would not tell the relation of the `k`-th
/// foreign key from another one between the same two tables: a second
/// foreign key to the same table, or one coming back from it. A foreign key
/// of a table to itself is always ambiguous.
pub open spec fn relation_is_ambiguous(tables: Seq<TableView>, t: TableView, k: int) -> bool {
    let fk = t.foreign_keys[k];
    has_sibling_key(t, k, false) || match modelled_position(tables, fk.referenced_table) {
        Some(i) => references_table(tables[i], t.name),
        None => false,
    }
}

/// The name of the relation of the `k`-th foreign key of a table: the
/// default name where that is unambiguous; else a name that also holds the
/// first column of the foreign key, next to the name of the table that owns
/// it.
pub open spec fn relation_name(tables: Seq<TableView>, t: TableView, k: int) -> Name {
    let fk = t.foreign_keys[k];
    if !relation_is_ambiguous(tables, t, k) {
        default_relation_name(t.name, fk.referenced_table)
    } else if name_lt(t.name, fk.referenced_table) {
        t.name + "_"@ + fk.columns[0] + "To"@ + fk.referenced_table
    } else {
        fk.referenced_table + "To"@ + t.name + "_"@ + fk.columns[0]
    }
}

/// The name of the relation field of the `k`-th foreign key: its column,
/// where it has one; else the camel-cased name of the referenced table,
/// followed by `_` and the first column where another compound foreign key
/// references the same table.
pub open spec fn relation_field_name(t: TableView, k: int) -> Name {
    let fk = t.foreign_keys[k];
    if fk.columns.len() == 1 {
        fk.columns[0]
    } else if has_sibling_key(t, k, true) {
        camel_cased(fk.referenced_table) + "_"@ + fk.columns[0]
    } else {
        camel_cased(fk.referenced_table)
    }
}

/// A relation field is required where every column of its foreign key is,
/// and optional otherwise.
pub open spec fn relation_arity(t: TableView, fk: ForeignKeyView) -> FieldArity {
    if forall|j: int| 0 <= j < fk.columns.len() ==> column_is_required(t, #[trigger] fk.columns[j]) {
        FieldArity::Required
    } else {
        FieldArity::Optional
    }
}

/// The failure that a broken invariant is.
pub open spec fn invariant_violation(table: Name, columns: Seq<Name>) -> ErrorView {
    ErrorView { kind: ErrorKind::InvariantViolation, table, columns }
}

/// The relation field that stands for the `k`-th foreign key of a table, or
/// the failure that an unsound foreign key is.
pub open spec fn relation_field(tables: Seq<TableView>, t: TableView, k: int) -> Result<
    FieldView,
    ErrorView,
> {
    let fk = t.foreign_keys[k];
    if !foreign_key_is_sound(tables, t, fk) {
        Err(invariant_violation(t.name, fk.columns))
    } else {
        Ok(
            FieldView {
                name: relation_field_name(t, k),
                arity: relation_arity(t, fk),
                field_type: FieldTypeView::Relation(
                    RelationView {
                        to: fk.referenced_table,
                        to_fields: fk.referenced_columns,
                        name: relation_name(tables, t, k),
                        on_delete: OnDeleteStrategy::Unset,
                    },
                ),
                default_value: None,
                is_unique: false,
                is_id: fk.columns.len() == 1 && is_single_id(t, fk.columns[0]),
                columns: fk.columns,
                is_commented_out: false,
            },
        )
    }
}

/// No name sorts before itself.
pub proof fn lemma_name_lt_is_irreflexive(a: Name)
    ensures
        !name_lt(a, a),
    decreases a.len(),
{
    if a.len() > 0 {
        lemma_name_lt_is_irreflexive(a.drop_first());
    }
}

/// The relation field of a foreign key holds one record, never a list.
pub proof fn lemma_relation_fields_are_to_one(tables: Seq<TableView>, t: TableView, k: int)
    requires
        relation_field(tables, t, k) is Ok,
    ensures
        !(relation_field(tables, t, k)->Ok_0.arity is List),
{
}

/// The relation of a table to itself never goes by the default name: its
/// name also holds the first column of the foreign key.
pub proof fn lemma_self_relations_are_named(tables: Seq<TableView>, t: TableView, k: int)
    requires
        0 <= k < t.foreign_keys.len(),
        t.foreign_keys[k].referenced_table == t.name,
        modelled_position(tables, t.name) is Some,
        tables[modelled_position(tables, t.name)->0] == t,
    ensures
        relation_name(tables, t, k) == t.name + "To"@ + t.name + "_"@ + t.foreign_keys[k].columns[0],
        relation_name(tables, t, k) != default_relation_name(t.name, t.name),
{
    reveal_strlit("_");
    lemma_name_lt_is_irreflexive(t.name);
    assert(references_table(t, t.name));
    let named = relation_name(tables, t, k);
    let default = default_relation_name(t.name, t.name);
    assert(default.len() == t.name.len() + "To"@.len() + t.name.len());
    assert(named.len() == default.len() + 1 + t.foreign_keys[k].columns[0].len());
}

/// The far end of a to-one field is a single record where a unique index
/// sits on the columns of the field, and a list otherwise; the far end of a
/// list is a single record.
pub open spec fn back_relation_arity(t: TableView, f: FieldView) -> FieldArity {
    match f.arity {
        FieldArity::List => FieldArity::Optional,
        _ => if has_unique_index_on(t, f.columns) {
            FieldArity::Optional
        } else {
            FieldArity::List
        },
    }
}

/// The far end goes by the name of the model that the relation starts from;
/// where that would be the name of the starting field on the same model, it
/// is prefixed with `other_`.
pub open spec fn back_relation_name(owner: Name, f: FieldView, info: RelationView) -> Name {
    if info.to == owner && f.name == owner {
        "other_"@ + owner
    } else {
        owner
    }
}

/// The field for the far end of the relation field `f` of the model of the
/// table `t`; `info` is what `f` holds of the relation.
pub open spec fn back_relation_field(t: TableView, f: FieldView, info: RelationView) -> FieldView {
    FieldView {
        name: back_relation_name(t.name, f, info),
        arity: back_relation_arity(t, f),
        field_type: FieldTypeView::Relation(
            RelationView {
                to: t.name,
                to_fields: Seq::empty(),
                name: info.name,
                on_delete: OnDeleteStrategy::Unset,
            },
        ),
        default_value: None,
        is_unique: false,
        is_id: false,
        columns: Seq::empty(),
        is_commented_out: false,
    }
}

/// The list field that one foreign key of a join table puts on the model at
/// the other foreign key's end.
pub open spec fn many_to_many_field(
    fk: ForeignKeyView,
    relation: Name,
    is_self_relation: bool,
) -> FieldView {
    FieldView {
        name: if is_self_relation {
            fk.referenced_table + "_"@ + fk.columns[0]
        } else {
            fk.referenced_table
        },
        arity: FieldArity::List,
        field_type: FieldTypeView::Relation(
            RelationView {
                to: fk.referenced_table,
                to_fields: fk.referenced_columns,
                name: relation,
                on_delete: OnDeleteStrategy::Unset,
            },
        ),
        default_value: None,
        is_unique: false,
        is_id: false,
        columns: Seq::empty(),
        is_commented_out: false,
    }
}

fn field_type_for(family: &ColumnTypeFamily) -> (r: FieldType)
    ensures
        r.deep_view() == field_type_of(family.deep_view()),
{
    match family {
        ColumnTypeFamily::Int => FieldType::Base(ScalarType::Int),
        ColumnTypeFamily::Float => FieldType::Base(ScalarType::Float),
        ColumnTypeFamily::Boolean => FieldType::Base(ScalarType::Boolean),
        ColumnTypeFamily::Text => FieldType::Base(ScalarType::Text),
        ColumnTypeFamily::DateTime => FieldType::Base(ScalarType::DateTime),
        ColumnTypeFamily::Enum(n) => FieldType::Enum(n.clone()),
        ColumnTypeFamily::Unsupported(n) => FieldType::Unsupported(n.clone()),
    }
}

fn default_for(column: &Column) -> (r: Option<DefaultValue>)
    ensures
        r.deep_view() == default_of(column.deep_view()),
{
    match column.arity {
        ColumnArity::List => None,
        _ => {
            if column.auto_increment {
                Some(DefaultValue::Autoincrement)
            } else {
                match &column.default {
                    Some(e) => Some(DefaultValue::Expression(e.clone())),
                    None => None,
                }
            }
        },
    }
}

fn single_id(table: &Table, name: &String) -> (r: bool)
    ensures
        r == is_single_id(table.deep_view(), name@),
{
    match &table.primary_key {
        None => false,
        Some(pk) => {
            let fits = pk.len() == 1 && pk[0] == *name;
            proof {
                let cols = pk.deep_view();
                if fits {
                    assert(cols =~= seq![name@]);
                } else if cols == seq![name@] {
                    assert(cols.len() == 1);
                    assert(cols[0] == name@);
                }
            }
            fits
        },
    }
}

fn one_name(name: &String) -> (r: Vec<String>)
    ensures
        r.deep_view() == seq![name@],
{
    let mut v: Vec<String> = Vec::new();
    v.push(name.clone());
    assert(v.deep_view() =~= seq![name@]);
    v
}

fn no_names() -> (r: Vec<String>)
    ensures
        r.deep_view() == Seq::<Name>::empty(),
{
    let v: Vec<String> = Vec::new();
    assert(v.deep_view() =~= Seq::<Name>::empty());
    v
}

/// Builds the scalar field of a column.
pub fn calculate_scalar_field(table: &Table, column: &Column) -> (f: Field)
    ensures
        f.deep_view() == scalar_field(table.deep_view(), column.deep_view()),
{
    let arity = match column.arity {
        ColumnArity::Required => FieldArity::Required,
        ColumnArity::Nullable => FieldArity::Optional,
        ColumnArity::List => FieldArity::List,
    };
    Field {
        name: column.name.clone(),
        arity,
        field_type: field_type_for(&column.family),
        default_value: default_for(column),
        is_unique: table.is_column_unique(&column.name),
        is_id: single_id(table, &column.name),
        columns: one_name(&column.name),
        is_commented_out: false,
    }
}

/// The position of the first table with the given name among those that
/// become models.
pub fn find_modelled_table(tables: &Vec<Table>, name: &String) -> (r: Option<usize>)
    ensures
        match r {
            Some(i) => modelled_position(tables.deep_view(), name@) == Some(i as int) && i
                < tables.len(),
            None => modelled_position(tables.deep_view(), name@).is_none(),
        },
{
    let mut i: usize = 0;
    while i < tables.len()
        invariant
            i <= tables.len(),
            forall|j: int|
                0 <= j < i ==> !((#[trigger] tables.deep_view()[j]).name == name@ && is_modelled(
                    tables.deep_view()[j],
                )),
        decreases tables.len() - i,
    {
        assert(tables.deep_view()[i as int] == tables[i as int].deep_view());
        if tables[i].name == *name {
            match classify_table(&tables[i]) {
                TableRole::Model => {
                    proof {
                        reveal(modelled_position);
                    }
                    return Some(i);
                },
                _ => {},
            }
        }
        i += 1;
    }
    proof {
        reveal(modelled_position);
    }
    None
}

fn columns_exist(table: &Table, fk: &ForeignKey) -> (r: bool)
    ensures
        r == forall|j: int|
            0 <= j < fk.deep_view().columns.len() ==> column_position(
                table.deep_view(),
                #[trigger] fk.deep_view().columns[j],
            ) is Some,
{
    let mut j: usize = 0;
    while j < fk.columns.len()
        invariant
            j <= fk.columns.len(),
            forall|i: int|
                0 <= i < j ==> column_position(
                    table.deep_view(),
                    #[trigger] fk.deep_view().columns[i],
                ) is Some,
        decreases fk.columns.len() - j,
    {
        assert(fk.deep_view().columns[j as int] == fk.columns[j as int]@);
        if table.find_column(&fk.columns[j]).is_none() {
            return false;
        }
        j += 1;
    }
    true
}

fn columns_required(table: &Table, fk: &ForeignKey) -> (r: bool)
    ensures
        r == forall|j: int|
            0 <= j < fk.deep_view().columns.len() ==> column_is_required(
                table.deep_view(),
                #[trigger] fk.deep_view().columns[j],
            ),
{
    let mut j: usize = 0;
    while j < fk.columns.len()
        invariant
            j <= fk.columns.len(),
            forall|i: int|
                0 <= i < j ==> column_is_required(
                    table.deep_view(),
                    #[trigger] fk.deep_view().columns[i],
                ),
        decreases fk.columns.len() - j,
    {
        assert(fk.deep_view().columns[j as int] == fk.columns[j as int]@);
        let required = match table.find_column(&fk.columns[j]) {
            Some(i) => {
                assert(table.deep_view().columns[i as int] == table.columns[i as int].deep_view());
                match table.columns[i].arity {
                    ColumnArity::Required => true,
                    _ => false,
                }
            },
            None => false,
        };
        if !required {
            return false;
        }
        j += 1;
    }
    true
}

fn sibling_key(table: &Table, k: usize, compound: bool) -> (r: bool)
    requires
        k < table.foreign_keys.len(),
    ensures
        r == has_sibling_key(table.deep_view(), k as int, compound),
{
    let mut j: usize = 0;
    while j < table.foreign_keys.len()
        invariant
            j <= table.foreign_keys.len(),
            k < table.foreign_keys.len(),
            forall|i: int|
                0 <= i < j ==> !(i != k && (#[trigger] table.deep_view().foreign_keys[i]).referenced_table
                    == table.deep_view().foreign_keys[k as int].referenced_table && (compound
                    ==> table.deep_view().foreign_keys[i].columns.len() > 1)),
        decreases table.foreign_keys.len() - j,
    {
        assert(table.deep_view().foreign_keys[j as int] == table.foreign_keys[j as int].deep_view());
        assert(table.deep_view().foreign_keys[k as int] == table.foreign_keys[k as int].deep_view());
        if j != k && table.foreign_keys[j].referenced_table == table.foreign_keys[k].referenced_table
            && (!compound || table.foreign_keys[j].columns.len() > 1) {
            return true;
        }
        j += 1;
    }
    false
}

fn table_references(table: &Table, name: &String) -> (r: bool)
    ensures
        r == references_table(table.deep_view(), name@),
{
    let mut j: usize = 0;
    while j < table.foreign_keys.len()
        invariant
            j <= table.foreign_keys.len(),
            forall|i: int|
                0 <= i < j ==> (#[trigger] table.deep_view().foreign_keys[i]).referenced_table
                    != name@,
        decreases table.foreign_keys.len() - j,
    {
        assert(table.deep_view().foreign_keys[j as int] == table.foreign_keys[j as int].deep_view());
        if table.foreign_keys[j].referenced_table == *name {
            return true;
        }
        j += 1;
    }
    false
}

/// Names the relation of the `k`-th foreign key of a table that references
/// the `target`-th table.
fn calculate_relation_name(tables: &Vec<Table>, table: &Table, k: usize, target: usize) -> (r:
    String)
    requires
        k < table.foreign_keys.len(),
        table.foreign_keys[k as int].columns.len() > 0,
        modelled_position(
            tables.deep_view(),
            table.deep_view().foreign_keys[k as int].referenced_table,
        ) == Some(target as int),
        target < tables.len(),
    ensures
        r@ == relation_name(tables.deep_view(), table.deep_view(), k as int),
{
    let fk = &table.foreign_keys[k];
    assert(table.deep_view().foreign_keys[k as int] == fk.deep_view());
    assert(tables.deep_view()[target as int] == tables[target as int].deep_view());
    assert(fk.deep_view().columns[0] == fk.columns[0]@);
    let ambiguous = sibling_key(table, k, false) || table_references(&tables[target], &table.name);
    if !ambiguous {
        DefaultNames::relation_name(table.name.as_str(), fk.referenced_table.as_str())
    } else if str_lt(table.name.as_str(), fk.referenced_table.as_str()) {
        table.name.clone().concat("_").concat(fk.columns[0].as_str()).concat("To").concat(
            fk.referenced_table.as_str(),
        )
    } else {
        fk.referenced_table.clone().concat("To").concat(table.name.as_str()).concat("_").concat(
            fk.columns[0].as_str(),
        )
    }
}

/// Builds the relation field of the `k`-th foreign key of a table of the
/// schema with the tables `tables`.
pub fn calculate_relation_field(tables: &Vec<Table>, table: &Table, k: usize) -> (r: Result<
    Field,
    IntrospectionError,
>)
    requires
        k < table.foreign_keys.len(),
    ensures
        outcome(r) == relation_field(tables.deep_view(), table.deep_view(), k as int),
{
    let fk = &table.foreign_keys[k];
    assert(table.deep_view().foreign_keys[k as int] == fk.deep_view());
    let found = find_modelled_table(tables, &fk.referenced_table);
    if fk.columns.len() == 0 || fk.columns.len() != fk.referenced_columns.len() || !columns_exist(
        table,
        fk,
    ) || found.is_none() {
        return Err(
            IntrospectionError {
                kind: ErrorKind::InvariantViolation,
                table: table.name.clone(),
                columns: clone_names(&fk.columns),
            },
        );
    }
    let target = found.unwrap();
    assert(fk.deep_view().columns[0] == fk.columns[0]@);
    let name = if fk.columns.len() == 1 {
        fk.columns[0].clone()
    } else if sibling_key(table, k, true) {
        fk.referenced_table.camel_case().concat("_").concat(fk.columns[0].as_str())
    } else {
        fk.referenced_table.camel_case()
    };
    let arity = if columns_required(table, fk) {
        FieldArity::Required
    } else {
        FieldArity::Optional
    };
    let info = RelationInfo {
        to: fk.referenced_table.clone(),
        to_fields: clone_names(&fk.referenced_columns),
        name: calculate_relation_name(tables, table, k, target),
        on_delete: OnDeleteStrategy::Unset,
    };
    Ok(
        Field {
            name,
            arity,
            field_type: FieldType::Relation(info),
            default_value: None,
            is_unique: false,
            is_id: fk.columns.len() == 1 && single_id(table, &fk.columns[0]),
            columns: clone_names(&fk.columns),
            is_commented_out: false,
        },
    )
}

/// Builds the field for the far end of a relation field of the model of a
/// table; `relation_info` is what the field holds of the relation.
pub fn calculate_backrelation_field(
    table: &Table,
    relation_field: &Field,
    relation_info: &RelationInfo,
) -> (f: Field)
    ensures
        f.deep_view() == back_relation_field(
            table.deep_view(),
            relation_field.deep_view(),
            relation_info.deep_view(),
        ),
{
    let arity = match relation_field.arity {
        FieldArity::List => FieldArity::Optional,
        _ => if table.has_unique_index_on(&relation_field.columns) {
            FieldArity::Optional
        } else {
            FieldArity::List
        },
    };
    let name = if relation_info.to == table.name && relation_field.name == table.name {
        String::from_str("other_").concat(table.name.as_str())
    } else {
        table.name.clone()
    };
    let info = RelationInfo {
        to: table.name.clone(),
        to_fields: no_names(),
        name: relation_info.name.clone(),
        on_delete: OnDeleteStrategy::Unset,
    };
    Field {
        name,
        arity,
        field_type: FieldType::Relation(info),
        default_value: None,
        is_unique: false,
        is_id: false,
        columns: no_names(),
        is_commented_out: false,
    }
}

/// Builds the list field that one foreign key of a join table puts on the
/// model at the other foreign key's end.
pub fn calculate_many_to_many_field(
    foreign_key: &ForeignKey,
    relation_name: String,
    is_self_relation: bool,
) -> (f: Field)
    requires
        is_self_relation ==> foreign_key.columns.len() > 0,
    ensures
        f.deep_view() == many_to_many_field(
            foreign_key.deep_view(),
            relation_name@,
            is_self_relation,
        ),
{
    let name = if is_self_relation {
        assert(foreign_key.deep_view().columns[0] == foreign_key.columns[0]@);
        foreign_key.referenced_table.clone().concat("_").concat(foreign_key.columns[0].as_str())
    } else {
        foreign_key.referenced_table.clone()
    };
    let info = RelationInfo {
        to: foreign_key.referenced_table.clone(),
        to_fields: clone_names(&foreign_key.referenced_columns),
        name: relation_name,
        on_delete: OnDeleteStrategy::Unset,
    };
    Field {
        name,
        arity: FieldArity::List,
        field_type: FieldType::Relation(info),
        default_value: None,
        is_unique: false,
        is_id: false,
        columns: no_names(),
        is_commented_out: false,
    }
}

} // verus!
