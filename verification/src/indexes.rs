//! Which indices of a table a model declares: those that say more than the
//! fields of the model already do.

use crate::datamodel::{Field, FieldType, FieldView, IndexDefinition, IndexDefinitionView};
use crate::error::{outcome, ErrorKind, ErrorView, IntrospectionError};
use crate::names::Name;
use crate::schema::{
    clone_names, columns_match, columns_match_exec, has_foreign_key_on, Index, IndexView, Table,
    TableView,
};
use crate::sequences::{collect, lemma_collect, lemma_collect_prefix_error, lemma_collect_step};
use vstd::prelude::*;
use vstd::string::*;

verus! {

/// What becomes of an index.
#[derive(Debug, Clone, Copy, PartialEq, Eq)]
pub enum IndexAction {
    /// A field of the model says it all.
    Drop,
    /// The model declares the index as it is.
    Keep,
    /// The model declares the index under the name of the relation field on
    /// its columns.
    KeepNamed,
}

/// The decision on an index, from three facts: whether a foreign key sits
/// on its columns, whether it has exactly one column, whether it is unique.
pub open spec fn index_action(covered: bool, single: bool, unique: bool) -> IndexAction {
    match (covered, single, unique) {
        (true, _, true) => IndexAction::Drop,
        (true, true, false) => IndexAction::Keep,
        (true, false, false) => IndexAction::KeepNamed,
        (false, true, true) => IndexAction::Drop,
        (false, false, true) => IndexAction::Keep,
        (false, _, false) => IndexAction::Keep,
    }
}

/// Whether a field is a relation field on exactly this set of columns.
pub open spec fn covers(f: FieldView, columns: Seq<Name>) -> bool {
    f.is_relation() && f.columns.len() > 0 && columns_match(f.columns, columns)
}

/// The position of the first relation field on exactly this set of columns.
#[verifier::opaque]
pub open spec fn covering_field(fields: Seq<FieldView>, columns: Seq<Name>) -> Option<int> {
    if exists|i: int| 0 <= i < fields.len() && covers(#[trigger] fields[i], columns) {
        Some(
            choose|i: int|
                0 <= i < fields.len() && covers(#[trigger] fields[i], columns) && forall|j: int|
                    0 <= j < i ==> !covers(#[trigger] fields[j], columns),
        )
    } else {
        None
    }
}

/// The failure to name a compound index.
pub open spec fn unattributed_index(table: Name, columns: Seq<Name>) -> ErrorView {
    ErrorView { kind: ErrorKind::UnattributedCompoundIndex, table, columns }
}

/// What the model with the fields `fields` declares for the index `x` of its
/// table: nothing, a declaration, or the failure to name a compound index.
pub open spec fn index_declaration(t: TableView, fields: Seq<FieldView>, x: IndexView) -> Result<
    Option<IndexDefinitionView>,
    ErrorView,
> {
    match index_action(has_foreign_key_on(t, x.columns), x.columns.len() == 1, x.unique) {
        IndexAction::Drop => Ok(None),
        IndexAction::Keep => Ok(
            Some(IndexDefinitionView { name: None, columns: x.columns, unique: x.unique }),
        ),
        IndexAction::KeepNamed => match covering_field(fields, x.columns) {
            Some(i) => Ok(
                Some(
                    IndexDefinitionView {
                        name: Some(fields[i].name),
                        columns: x.columns,
                        unique: false,
                    },
                ),
            ),
            None => Err(unattributed_index(t.name, x.columns)),
        },
    }
}

/// `index_declaration` for a table and its fields, as a function on indices.
pub open spec fn declaration_step(t: TableView, fields: Seq<FieldView>) -> spec_fn(
    IndexView,
) -> Result<Option<IndexDefinitionView>, ErrorView> {
    |x: IndexView| index_declaration(t, fields, x)
}

/// Whether a value is there.
pub open spec fn is_present<T>() -> spec_fn(Option<T>) -> bool {
    |o: Option<T>| o is Some
}

/// The value that is there.
pub open spec fn get_present<T>() -> spec_fn(Option<T>) -> T {
    |o: Option<T>| o->0
}

/// The values that are there, in order.
pub open spec fn present<T>(s: Seq<Option<T>>) -> Seq<T> {
    s.filter(is_present()).map_values(get_present())
}

/// The index declarations of the model of a table, in the order of the
/// table's indices; or the first failure to name a compound index.
pub open spec fn index_declarations(t: TableView, fields: Seq<FieldView>) -> Result<
    Seq<IndexDefinitionView>,
    ErrorView,
> {
    match collect(t.indices.map_values(declaration_step(t, fields))) {
        Err(e) => Err(e),
        Ok(v) => Ok(present(v)),
    }
}

/// Every index that a model declares stems from an index of the table that
/// is not a unique index on a single column, nor a unique index on the
/// columns of a foreign key.
pub proof fn lemma_declared_indices_are_not_redundant(
    t: TableView,
    fields: Seq<FieldView>,
    d: IndexDefinitionView,
)
    requires
        index_declarations(t, fields) is Ok,
        index_declarations(t, fields)->Ok_0.contains(d),
    ensures
        exists|i: int|
            0 <= i < t.indices.len() && (#[trigger] t.indices[i]).columns == d.columns
                && t.indices[i].unique == d.unique && !(t.indices[i].unique
                && t.indices[i].columns.len() == 1) && !(t.indices[i].unique
                && has_foreign_key_on(t, t.indices[i].columns)),
{
    let steps = t.indices.map_values(declaration_step(t, fields));
    lemma_collect(steps);
    let v = collect(steps)->Ok_0;
    let kept = v.filter(is_present());
    let j = choose|j: int| 0 <= j < present(v).len() && present(v)[j] == d;
    assert(kept[j]->0 == d);
    v.lemma_filter_pred(is_present(), j);
    assert(kept.contains(kept[j]));
    v.lemma_filter_contains_rev(is_present(), kept[j]);
    let i = choose|i: int| 0 <= i < v.len() && v[i] == kept[j];
    assert(steps[i] == Ok::<Option<IndexDefinitionView>, ErrorView>(v[i]));
    assert(steps[i] == index_declaration(t, fields, t.indices[i]));
    assert(t.indices[i].columns == d.columns);
}

/// Decides what becomes of an index.
pub fn decide_index(covered: bool, single: bool, unique: bool) -> (r: IndexAction)
    ensures
        r == index_action(covered, single, unique),
{
    match (covered, single, unique) {
        (true, _, true) => IndexAction::Drop,
        (true, true, false) => IndexAction::Keep,
        (true, false, false) => IndexAction::KeepNamed,
        (false, true, true) => IndexAction::Drop,
        (false, false, true) => IndexAction::Keep,
        (false, _, false) => IndexAction::Keep,
    }
}

fn find_covering_field(fields: &Vec<Field>, columns: &Vec<String>) -> (r: Option<usize>)
    ensures
        match r {
            Some(i) => covering_field(fields.deep_view(), columns.deep_view()) == Some(i as int)
                && i < fields.len(),
            None => covering_field(fields.deep_view(), columns.deep_view()).is_none(),
        },
{
    let mut i: usize = 0;
    while i < fields.len()
        invariant
            i <= fields.len(),
            forall|j: int|
                0 <= j < i ==> !covers(#[trigger] fields.deep_view()[j], columns.deep_view()),
        decreases fields.len() - i,
    {
        let f = &fields[i];
        assert(fields.deep_view()[i as int] == f.deep_view());
        let is_relation = match &f.field_type {
            FieldType::Relation(_) => true,
            _ => false,
        };
        if is_relation && f.columns.len() > 0 && columns_match_exec(&f.columns, columns) {
            proof {
                reveal(covering_field);
            }
            return Some(i);
        }
        i += 1;
    }
    proof {
        reveal(covering_field);
    }
    None
}

/// Builds the declaration for an index as it is.
pub fn calculate_index(index: &Index) -> (r: IndexDefinition)
    ensures
        r.deep_view() == (IndexDefinitionView {
            name: None,
            columns: index.deep_view().columns,
            unique: index.unique,
        }),
{
    IndexDefinition { name: None, columns: clone_names(&index.columns), unique: index.unique }
}

/// Builds the declaration for a plain index under a name.
pub fn calculate_compound_index(index: &Index, name: String) -> (r: IndexDefinition)
    ensures
        r.deep_view() == (IndexDefinitionView {
            name: Some(name@),
            columns: index.deep_view().columns,
            unique: false,
        }),
{
    IndexDefinition { name: Some(name), columns: clone_names(&index.columns), unique: false }
}

/// What the model with the given fields declares for one index of its
/// table.
pub fn reconcile_index(table: &Table, fields: &Vec<Field>, index: &Index) -> (r: Result<
    Option<IndexDefinition>,
    IntrospectionError,
>)
    ensures
        outcome(r) == index_declaration(
            table.deep_view(),
            fields.deep_view(),
            index.deep_view(),
        ),
{
    let covered = table.has_foreign_key_on(&index.columns);
    match decide_index(covered, index.columns.len() == 1, index.unique) {
        IndexAction::Drop => Ok(None),
        IndexAction::Keep => Ok(Some(calculate_index(index))),
        IndexAction::KeepNamed => match find_covering_field(fields, &index.columns) {
            Some(i) => {
                assert(fields.deep_view()[i as int] == fields[i as int].deep_view());
                Ok(Some(calculate_compound_index(index, fields[i].name.clone())))
            },
            None => Err(
                IntrospectionError {
                    kind: ErrorKind::UnattributedCompoundIndex,
                    table: table.name.clone(),
                    columns: clone_names(&index.columns),
                },
            ),
        },
    }
}

/// The index declarations of the model of a table, given the fields of the
/// model.
pub fn calculate_indices(table: &Table, fields: &Vec<Field>) -> (r: Result<
    Vec<IndexDefinition>,
    IntrospectionError,
>)
    ensures
        outcome(r) == index_declarations(table.deep_view(), fields.deep_view()),
{
    let ghost steps = table.deep_view().indices.map_values(
        declaration_step(table.deep_view(), fields.deep_view()),
    );
    let ghost mut done: Seq<Option<IndexDefinitionView>> = Seq::empty();
    let mut out: Vec<IndexDefinition> = Vec::new();
    let mut i: usize = 0;
    proof {
        assert(steps.take(0) =~= Seq::empty());
        assert(out.deep_view() =~= present(done));
    }
    while i < table.indices.len()
        invariant
            i <= table.indices.len(),
            steps == table.deep_view().indices.map_values(
                declaration_step(table.deep_view(), fields.deep_view()),
            ),
            collect(steps.take(i as int)) == Ok::<Seq<Option<IndexDefinitionView>>, ErrorView>(
                done,
            ),
            out.deep_view() == present(done),
        decreases table.indices.len() - i,
    {
        let index = &table.indices[i];
        proof {
            assert(table.deep_view().indices[i as int] == index.deep_view());
            assert(steps[i as int] == index_declaration(
                table.deep_view(),
                fields.deep_view(),
                index.deep_view(),
            ));
            lemma_collect_step(steps, i as int);
        }
        match reconcile_index(table, fields, index) {
            Err(e) => {
                proof {
                    lemma_collect_prefix_error(steps, i as int + 1);
                    assert(steps.take(steps.len() as int) =~= steps);
                }
                return Err(e);
            },
            Ok(o) => {
                proof {
                    let ghost before = done;
                    done = done.push(o.deep_view());
                    before.lemma_filter_push(o.deep_view(), is_present());
                    before.filter(is_present()).lemma_push_map_commute(
                        get_present(),
                        o.deep_view(),
                    );
                }
                match o {
                    Some(d) => {
                        let ghost old_out = out.deep_view();
                        out.push(d);
                        assert(out.deep_view() =~= old_out.push(d.deep_view()));
                    },
                    None => {},
                }
            },
        }
        i += 1;
    }
    proof {
        assert(steps.take(steps.len() as int) =~= steps);
    }
    Ok(out)
}

} // verus!
