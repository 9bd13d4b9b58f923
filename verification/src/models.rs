//! One model per table: scalar fields for the plain columns, relation fields
//! for the foreign keys, the index declarations and the composite id.

use crate::datamodel::{Field, FieldView, Model, ModelView};
use crate::error::{outcome, ErrorView, IntrospectionError};
use crate::fields::{calculate_relation_field, calculate_scalar_field, relation_field, scalar_field};
use crate::filters::{classify_table, is_modelled, TableRole};
use crate::indexes::{calculate_indices, index_declarations};
use crate::names::Name;
use crate::schema::{clone_names, is_foreign_key_column, ColumnView, Table, TableView};
use crate::sequences::{
    collect, lemma_collect_filter_prefix_error, lemma_collect_filter_step,
    lemma_collect_prefix_error, lemma_collect_step,
};
use vstd::prelude::*;
use vstd::string::*;

verus! {

/// Whether a column of the table is outside every foreign key.
pub open spec fn is_plain_column(t: TableView) -> spec_fn(ColumnView) -> bool {
    |c: ColumnView| !is_foreign_key_column(t, c.name)
}

/// `scalar_field` for a table, as a function on columns.
pub open spec fn to_scalar_field(t: TableView) -> spec_fn(ColumnView) -> FieldView {
    |c: ColumnView| scalar_field(t, c)
}

/// The scalar fields of the model of a table: one for each column outside
/// every foreign key, in the order of the columns.
pub open spec fn scalar_fields(t: TableView) -> Seq<FieldView> {
    t.columns.filter(is_plain_column(t)).map_values(to_scalar_field(t))
}

/// The relation field of each foreign key of a table, or its failure.
pub open spec fn relation_steps(tables: Seq<TableView>, t: TableView) -> Seq<
    Result<FieldView, ErrorView>,
> {
    Seq::new(t.foreign_keys.len(), |k: int| relation_field(tables, t, k))
}

/// The relation fields of the model of a table: one for each foreign key, in
/// their order; or the failure that the first unsound foreign key is.
pub open spec fn relation_fields(tables: Seq<TableView>, t: TableView) -> Result<
    Seq<FieldView>,
    ErrorView,
> {
    collect(relation_steps(tables, t))
}

/// The fields of a composite id: the columns of a primary key of more than
/// one column.
pub open spec fn composite_id(t: TableView) -> Seq<Name> {
    match t.primary_key {
        Some(pk) => if pk.len() > 1 {
            pk
        } else {
            Seq::empty()
        },
        None => Seq::empty(),
    }
}

/// The model of a table, before anything is known of the other tables'
/// foreign keys to it.
pub open spec fn table_model(tables: Seq<TableView>, t: TableView) -> Result<ModelView, ErrorView> {
    match relation_fields(tables, t) {
        Err(e) => Err(e),
        Ok(relations) => {
            let fields = scalar_fields(t) + relations;
            match index_declarations(t, fields) {
                Err(e) => Err(e),
                Ok(indices) => Ok(
                    ModelView {
                        name: t.name,
                        fields,
                        id_fields: composite_id(t),
                        indices,
                        is_commented_out: false,
                    },
                ),
            }
        },
    }
}

/// `is_modelled`, as a function on tables.
pub open spec fn modelled() -> spec_fn(TableView) -> bool {
    |t: TableView| is_modelled(t)
}

/// The tables that become models, in their order.
pub open spec fn modelled_tables(tables: Seq<TableView>) -> Seq<TableView> {
    tables.filter(modelled())
}

/// `table_model` for a schema, as a function on tables.
pub open spec fn to_model(tables: Seq<TableView>) -> spec_fn(TableView) -> Result<
    ModelView,
    ErrorView,
> {
    |t: TableView| table_model(tables, t)
}

/// The models of the tables that become models, in the order of the tables;
/// or the failure of the first table whose model cannot be built.
pub open spec fn table_models(tables: Seq<TableView>) -> Result<Seq<ModelView>, ErrorView> {
    collect(modelled_tables(tables).map_values(to_model(tables)))
}

/// The scalar fields of the model of a table.
pub fn calculate_scalar_fields(table: &Table) -> (r: Vec<Field>)
    ensures
        r.deep_view() == scalar_fields(table.deep_view()),
{
    let ghost t = table.deep_view();
    let mut out: Vec<Field> = Vec::new();
    let mut i: usize = 0;
    proof {
        assert(t.columns.take(0) =~= Seq::empty());
        assert(t.columns.take(0).filter(is_plain_column(t)) =~= Seq::empty()) by {
            reveal(Seq::filter);
        }
        assert(out.deep_view() =~= t.columns.take(0).filter(is_plain_column(t)).map_values(
            to_scalar_field(t),
        ));
    }
    while i < table.columns.len()
        invariant
            i <= table.columns.len(),
            t == table.deep_view(),
            out.deep_view() == t.columns.take(i as int).filter(is_plain_column(t)).map_values(
                to_scalar_field(t),
            ),
        decreases table.columns.len() - i,
    {
        let column = &table.columns[i];
        proof {
            assert(t.columns[i as int] == column.deep_view());
            let before = t.columns.take(i as int);
            t.columns.lemma_take_succ_push(i as int);
            before.lemma_filter_push(t.columns[i as int], is_plain_column(t));
            before.filter(is_plain_column(t)).lemma_push_map_commute(
                to_scalar_field(t),
                t.columns[i as int],
            );
        }
        if !table.is_foreign_key_column(&column.name) {
            let ghost old_out = out.deep_view();
            out.push(calculate_scalar_field(table, column));
            assert(out.deep_view() =~= old_out.push(scalar_field(t, column.deep_view())));
        }
        i += 1;
    }
    proof {
        assert(t.columns.take(t.columns.len() as int) =~= t.columns);
    }
    out
}

/// The relation fields of the model of a table of the schema with the tables
/// `tables`.
pub fn calculate_relation_fields(tables: &Vec<Table>, table: &Table) -> (r: Result<
    Vec<Field>,
    IntrospectionError,
>)
    ensures
        outcome(r) == relation_fields(tables.deep_view(), table.deep_view()),
{
    let ghost steps = relation_steps(tables.deep_view(), table.deep_view());
    let mut out: Vec<Field> = Vec::new();
    let mut k: usize = 0;
    proof {
        assert(steps.take(0) =~= Seq::empty());
        assert(out.deep_view() =~= Seq::empty());
    }
    while k < table.foreign_keys.len()
        invariant
            k <= table.foreign_keys.len(),
            steps == relation_steps(tables.deep_view(), table.deep_view()),
            steps.len() == table.foreign_keys.len(),
            collect(steps.take(k as int)) == Ok::<Seq<FieldView>, ErrorView>(out.deep_view()),
        decreases table.foreign_keys.len() - k,
    {
        proof {
            lemma_collect_step(steps, k as int);
        }
        match calculate_relation_field(tables, table, k) {
            Err(e) => {
                proof {
                    lemma_collect_prefix_error(steps, k as int + 1);
                }
                return Err(e);
            },
            Ok(f) => {
                let ghost old_out = out.deep_view();
                out.push(f);
                assert(out.deep_view() =~= old_out.push(f.deep_view()));
            },
        }
        k += 1;
    }
    proof {
        assert(steps.take(steps.len() as int) =~= steps);
    }
    Ok(out)
}

fn composite_id_of(table: &Table) -> (r: Vec<String>)
    ensures
        r.deep_view() == composite_id(table.deep_view()),
{
    match &table.primary_key {
        Some(pk) => {
            if pk.len() > 1 {
                clone_names(pk)
            } else {
                let v: Vec<String> = Vec::new();
                assert(v.deep_view() =~= Seq::<Name>::empty());
                v
            }
        },
        None => {
            let v: Vec<String> = Vec::new();
            assert(v.deep_view() =~= Seq::<Name>::empty());
            v
        },
    }
}

/// The model of a table of the schema with the tables `tables`.
pub fn calculate_table_model(tables: &Vec<Table>, table: &Table) -> (r: Result<
    Model,
    IntrospectionError,
>)
    ensures
        outcome(r) == table_model(tables.deep_view(), table.deep_view()),
{
    let mut fields = calculate_scalar_fields(table);
    let mut relations = match calculate_relation_fields(tables, table) {
        Err(e) => {
            return Err(e);
        },
        Ok(v) => v,
    };
    let ghost scalars = fields.deep_view();
    let ghost rels = relations.deep_view();
    fields.append(&mut relations);
    assert(fields.deep_view() =~= scalars + rels);
    let indices = match calculate_indices(table, &fields) {
        Err(e) => {
            return Err(e);
        },
        Ok(v) => v,
    };
    Ok(
        Model {
            name: table.name.clone(),
            fields,
            id_fields: composite_id_of(table),
            indices,
            is_commented_out: false,
        },
    )
}

/// The models of the tables that become models, each with the position of
/// its table.
pub fn calculate_table_models(tables: &Vec<Table>) -> (r: Result<
    (Vec<Model>, Vec<usize>),
    IntrospectionError,
>)
    ensures
        match r {
            Ok((models, origins)) => {
                &&& table_models(tables.deep_view()) == Ok::<Seq<ModelView>, ErrorView>(
                    models.deep_view(),
                )
                &&& origins.len() == models.len()
                &&& modelled_tables(tables.deep_view()).len() == models.len()
                &&& forall|m: int|
                    0 <= m < origins.len() ==> (#[trigger] origins[m]) < tables.len()
                        && tables.deep_view()[origins[m] as int] == modelled_tables(
                        tables.deep_view(),
                    )[m]
            },
            Err(e) => table_models(tables.deep_view()) == Err::<Seq<ModelView>, ErrorView>(
                e.deep_view(),
            ),
        },
{
    let ghost all = tables.deep_view();
    let ghost steps = modelled_tables(all).map_values(to_model(all));
    let mut models: Vec<Model> = Vec::new();
    let mut origins: Vec<usize> = Vec::new();
    let mut i: usize = 0;
    proof {
        assert(all.take(0) =~= Seq::empty());
        assert(all.take(0).filter(modelled()) =~= Seq::empty()) by {
            reveal(Seq::filter);
        }
        assert(all.take(0).filter(modelled()).map_values(to_model(all)) =~= Seq::empty());
        assert(models.deep_view() =~= Seq::empty());
    }
    while i < tables.len()
        invariant
            i <= tables.len(),
            all == tables.deep_view(),
            steps == modelled_tables(all).map_values(to_model(all)),
            collect(all.take(i as int).filter(modelled()).map_values(to_model(all))) == Ok::<
                Seq<ModelView>,
                ErrorView,
            >(models.deep_view()),
            origins.len() == models.len(),
            all.take(i as int).filter(modelled()).len() == models.len(),
            forall|m: int|
                0 <= m < origins.len() ==> (#[trigger] origins[m]) < i && all[origins[m] as int]
                    == all.take(i as int).filter(modelled())[m],
        decreases tables.len() - i,
    {
        let table = &tables[i];
        proof {
            assert(all[i as int] == table.deep_view());
            all.lemma_take_succ_push(i as int);
            all.take(i as int).lemma_filter_push(all[i as int], modelled());
            lemma_collect_filter_step(all, modelled(), to_model(all), i as int);
        }
        match classify_table(table) {
            TableRole::Model => {
                match calculate_table_model(tables, table) {
                    Err(e) => {
                        proof {
                            lemma_collect_filter_prefix_error(
                                all,
                                modelled(),
                                to_model(all),
                                i as int + 1,
                            );
                        }
                        return Err(e);
                    },
                    Ok(model) => {
                        let ghost old_models = models.deep_view();
                        models.push(model);
                        origins.push(i);
                        assert(models.deep_view() =~= old_models.push(model.deep_view()));
                    },
                }
            },
            _ => {},
        }
        i += 1;
    }
    proof {
        assert(all.take(all.len() as int) =~= all);
    }
    Ok((models, origins))
}

} // verus!
