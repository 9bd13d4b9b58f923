//! The fields that no column stands for: the far end of every foreign key,
//! and both ends of every join table. They are gathered with the model they
//! belong to, and told apart by name before they join it.

use crate::datamodel::{
    has_related, has_related_field, Field, FieldType, FieldView, Model, ModelView,
};
use crate::error::{ErrorKind, ErrorView, IntrospectionError};
use crate::fields::{
    back_relation_field, calculate_backrelation_field, calculate_many_to_many_field,
    find_modelled_table, invariant_violation, many_to_many_field, modelled_position,
};
use crate::filters::{classify_table, is_join_table, TableRole};
use crate::models::modelled_tables;
use crate::names::Name;
use crate::schema::{clone_names, Table, TableView};
use crate::sequences::{collect, lemma_collect_filter_prefix_error, lemma_collect_filter_step};
use vstd::prelude::*;
use vstd::string::*;

verus! {

/// A field on its way to a model.
#[derive(Debug, Clone, PartialEq, Eq)]
pub struct PendingField {
    /// The name of the model that the field is for.
    pub model: String,
    pub field: Field,
}

/// The mathematical view of a `PendingField`.
pub struct PendingView {
    pub model: Name,
    pub field: FieldView,
}

impl DeepView for PendingField {
    type V = PendingView;

    open spec fn deep_view(&self) -> PendingView {
        PendingView { model: self.model@, field: self.field.deep_view() }
    }
}

/// Whether a field of the model `owner` is a relation field whose far end no
/// model holds yet.
pub open spec fn lacks_back_relation(models: Seq<ModelView>, owner: Name) -> spec_fn(
    FieldView,
) -> bool {
    |f: FieldView|
        f.is_relation() && !has_related_field(
            models,
            owner,
            f.relation().to,
            f.relation().name,
            f.name,
        )
}

/// The far end of a relation field of the model of a table, for the model it
/// leads to.
pub open spec fn to_back_relation(t: TableView) -> spec_fn(FieldView) -> PendingView {
    |f: FieldView|
        PendingView { model: f.relation().to, field: back_relation_field(t, f, f.relation()) }
}

/// The far ends that the relation fields of the model `m` of the table `t`
/// lack, each for the model that the field leads to.
pub open spec fn model_back_relations(models: Seq<ModelView>, t: TableView, m: ModelView) -> Seq<
    PendingView,
> {
    m.fields.filter(lacks_back_relation(models, m.name)).map_values(to_back_relation(t))
}

/// The far ends that each model lacks.
pub open spec fn back_relations_by_model(models: Seq<ModelView>, origin: Seq<TableView>) -> Seq<
    Seq<PendingView>,
> {
    Seq::new(models.len(), |m: int| model_back_relations(models, origin[m], models[m]))
}

/// The far ends that the models lack, model by model; `origin` holds the
/// table of each model.
pub open spec fn back_relations(models: Seq<ModelView>, origin: Seq<TableView>) -> Seq<
    PendingView,
> {
    back_relations_by_model(models, origin).flatten()
}

/// The two list fields that a join table stands for, each on the model that
/// the other foreign key references; the relation goes by the name of the
/// table without its first character. It is a failure for a join table to
/// reference a table that is not modelled.
pub open spec fn join_fields(tables: Seq<TableView>, j: TableView) -> Result<
    Seq<PendingView>,
    ErrorView,
> {
    let first = j.foreign_keys[0];
    let second = j.foreign_keys[1];
    let relation = j.name.skip(1);
    let is_self_relation = first.referenced_table == second.referenced_table;
    if modelled_position(tables, first.referenced_table) is None {
        Err(invariant_violation(j.name, first.columns))
    } else if modelled_position(tables, second.referenced_table) is None {
        Err(invariant_violation(j.name, second.columns))
    } else {
        Ok(
            seq![
                PendingView {
                    model: second.referenced_table,
                    field: many_to_many_field(first, relation, is_self_relation),
                },
                PendingView {
                    model: first.referenced_table,
                    field: many_to_many_field(second, relation, is_self_relation),
                },
            ],
        )
    }
}

/// `is_join_table`, as a function on tables.
pub open spec fn joining() -> spec_fn(TableView) -> bool {
    |t: TableView| is_join_table(t)
}

/// `join_fields` for a schema, as a function on tables.
pub open spec fn to_join_fields(tables: Seq<TableView>) -> spec_fn(TableView) -> Result<
    Seq<PendingView>,
    ErrorView,
> {
    |j: TableView| join_fields(tables, j)
}

/// The join tables, in their order.
pub open spec fn join_tables(tables: Seq<TableView>) -> Seq<TableView> {
    tables.filter(joining())
}

/// The list fields of all join tables, in the order of the tables; or the
/// failure of the first join table that references a table outside the
/// models.
pub open spec fn many_to_many_fields(tables: Seq<TableView>) -> Result<
    Seq<PendingView>,
    ErrorView,
> {
    match collect(join_tables(tables).map_values(to_join_fields(tables))) {
        Err(e) => Err(e),
        Ok(v) => Ok(v.flatten()),
    }
}

/// Whether another pending field is for the same model under the same name.
pub open spec fn is_duplicated(p: Seq<PendingView>, i: int) -> bool {
    exists|j: int|
        0 <= j < p.len() && j != i && (#[trigger] p[j]).model == p[i].model && p[j].field.name
            == p[i].field.name
}

/// A relation field under its name followed by `_` and the name of its
/// relation.
pub open spec fn with_relation_suffix(f: FieldView) -> FieldView {
    if f.is_relation() {
        f.with_name(f.name + "_"@ + f.relation().name)
    } else {
        f
    }
}

/// The pending fields, with the name of each that shares model and name with
/// another one extended by the name of its relation.
pub open spec fn deduplicated(p: Seq<PendingView>) -> Seq<PendingView> {
    Seq::new(
        p.len(),
        |i: int|
            if is_duplicated(p, i) {
                PendingView { model: p[i].model, field: with_relation_suffix(p[i].field) }
            } else {
                p[i]
            },
    )
}

/// The far ends that the relation fields of the `m`-th model lack; `table`
/// is the table of that model.
pub fn calculate_model_backrelations(table: &Table, models: &Vec<Model>, m: usize) -> (r: Vec<
    PendingField,
>)
    requires
        m < models.len(),
    ensures
        r.deep_view() == model_back_relations(
            models.deep_view(),
            table.deep_view(),
            models.deep_view()[m as int],
        ),
{
    let model = &models[m];
    let ghost all = models.deep_view();
    let ghost t = table.deep_view();
    let ghost fields = model.deep_view().fields;
    let ghost keep = lacks_back_relation(all, model.name@);
    let ghost make = to_back_relation(t);
    let mut out: Vec<PendingField> = Vec::new();
    let mut i: usize = 0;
    proof {
        assert(all[m as int] == model.deep_view());
        assert(fields.take(0) =~= Seq::empty());
        assert(fields.take(0).filter(keep) =~= Seq::empty()) by {
            reveal(Seq::filter);
        }
        assert(out.deep_view() =~= fields.take(0).filter(keep).map_values(make));
    }
    while i < model.fields.len()
        invariant
            i <= model.fields.len(),
            all == models.deep_view(),
            t == table.deep_view(),
            fields == model.deep_view().fields,
            keep == lacks_back_relation(all, model.name@),
            make == to_back_relation(t),
            out.deep_view() == fields.take(i as int).filter(keep).map_values(make),
        decreases model.fields.len() - i,
    {
        let f = &model.fields[i];
        proof {
            assert(fields[i as int] == f.deep_view());
            let before = fields.take(i as int);
            fields.lemma_take_succ_push(i as int);
            before.lemma_filter_push(fields[i as int], keep);
            before.filter(keep).lemma_push_map_commute(make, fields[i as int]);
        }
        match &f.field_type {
            FieldType::Relation(info) => {
                if !has_related(models, &model.name, &info.to, &info.name, &f.name) {
                    let pending = PendingField {
                        model: info.to.clone(),
                        field: calculate_backrelation_field(table, f, info),
                    };
                    let ghost old_out = out.deep_view();
                    out.push(pending);
                    assert(out.deep_view() =~= old_out.push(make(f.deep_view())));
                }
            },
            _ => {},
        }
        i += 1;
    }
    proof {
        assert(fields.take(fields.len() as int) =~= fields);
    }
    out
}

/// The far ends that the models lack; `origins` holds the position of the
/// table of each model.
pub(crate) fn calculate_backrelations(
    tables: &Vec<Table>,
    models: &Vec<Model>,
    origins: &Vec<usize>,
) -> (r: Vec<PendingField>)
    requires
        origins.len() == models.len(),
        modelled_tables(tables.deep_view()).len() == models.len(),
        forall|m: int|
            0 <= m < origins.len() ==> (#[trigger] origins[m]) < tables.len()
                && tables.deep_view()[origins[m] as int] == modelled_tables(tables.deep_view())[m],
    ensures
        r.deep_view() == back_relations(models.deep_view(), modelled_tables(tables.deep_view())),
{
    let ghost parts = back_relations_by_model(
        models.deep_view(),
        modelled_tables(tables.deep_view()),
    );
    let mut out: Vec<PendingField> = Vec::new();
    let mut m: usize = 0;
    proof {
        assert(parts.take(0) =~= Seq::empty());
        assert(out.deep_view() =~= parts.take(0).flatten());
    }
    while m < models.len()
        invariant
            m <= models.len(),
            origins.len() == models.len(),
            parts == back_relations_by_model(
                models.deep_view(),
                modelled_tables(tables.deep_view()),
            ),
            forall|k: int|
                0 <= k < origins.len() ==> (#[trigger] origins[k]) < tables.len()
                    && tables.deep_view()[origins[k] as int] == modelled_tables(
                    tables.deep_view(),
                )[k],
            out.deep_view() == parts.take(m as int).flatten(),
        decreases models.len() - m,
    {
        let origin = origins[m];
        let table = &tables[origin];
        assert(tables.deep_view()[origin as int] == table.deep_view());
        let mut part = calculate_model_backrelations(table, models, m);
        proof {
            assert(part.deep_view() == parts[m as int]);
            parts.lemma_take_succ_push(m as int);
            parts.take(m as int).lemma_flatten_push(parts[m as int]);
        }
        let ghost old_out = out.deep_view();
        let ghost added = part.deep_view();
        out.append(&mut part);
        assert(out.deep_view() =~= old_out + added);
        m += 1;
    }
    proof {
        assert(parts.take(parts.len() as int) =~= parts);
    }
    out
}

/// The two list fields that a join table stands for.
pub(crate) fn calculate_join_fields(tables: &Vec<Table>, table: &Table) -> (r: Result<
    Vec<PendingField>,
    IntrospectionError,
>)
    requires
        is_join_table(table.deep_view()),
    ensures
        match r {
            Ok(v) => join_fields(tables.deep_view(), table.deep_view()) == Ok::<
                Seq<PendingView>,
                ErrorView,
            >(v.deep_view()),
            Err(e) => join_fields(tables.deep_view(), table.deep_view()) == Err::<
                Seq<PendingView>,
                ErrorView,
            >(e.deep_view()),
        },
{
    let first = &table.foreign_keys[0];
    let second = &table.foreign_keys[1];
    assert(table.deep_view().foreign_keys[0] == first.deep_view());
    assert(table.deep_view().foreign_keys[1] == second.deep_view());
    if find_modelled_table(tables, &first.referenced_table).is_none() {
        return Err(
            IntrospectionError {
                kind: ErrorKind::InvariantViolation,
                table: table.name.clone(),
                columns: clone_names(&first.columns),
            },
        );
    }
    if find_modelled_table(tables, &second.referenced_table).is_none() {
        return Err(
            IntrospectionError {
                kind: ErrorKind::InvariantViolation,
                table: table.name.clone(),
                columns: clone_names(&second.columns),
            },
        );
    }
    let n = table.name.as_str().unicode_len();
    let is_self_relation = first.referenced_table == second.referenced_table;
    let mut out: Vec<PendingField> = Vec::new();
    let relation = String::from_str(table.name.as_str().substring_char(1, n));
    assert(relation@ =~= table.deep_view().name.skip(1));
    out.push(
        PendingField {
            model: second.referenced_table.clone(),
            field: calculate_many_to_many_field(first, relation.clone(), is_self_relation),
        },
    );
    out.push(
        PendingField {
            model: first.referenced_table.clone(),
            field: calculate_many_to_many_field(second, relation, is_self_relation),
        },
    );
    assert(out.deep_view() =~= join_fields(tables.deep_view(), table.deep_view())->Ok_0);
    Ok(out)
}

/// The list fields of all join tables.
pub fn calculate_many_to_many_fields(tables: &Vec<Table>) -> (r: Result<
    Vec<PendingField>,
    IntrospectionError,
>)
    ensures
        match r {
            Ok(v) => many_to_many_fields(tables.deep_view()) == Ok::<Seq<PendingView>, ErrorView>(
                v.deep_view(),
            ),
            Err(e) => many_to_many_fields(tables.deep_view()) == Err::<
                Seq<PendingView>,
                ErrorView,
            >(e.deep_view()),
        },
{
    let ghost all = tables.deep_view();
    let ghost mut done: Seq<Seq<PendingView>> = Seq::empty();
    let mut out: Vec<PendingField> = Vec::new();
    let mut i: usize = 0;
    proof {
        assert(all.take(0) =~= Seq::empty());
        assert(all.take(0).filter(joining()) =~= Seq::empty()) by {
            reveal(Seq::filter);
        }
        assert(all.take(0).filter(joining()).map_values(to_join_fields(all)) =~= Seq::empty());
        assert(out.deep_view() =~= done.flatten());
    }
    while i < tables.len()
        invariant
            i <= tables.len(),
            all == tables.deep_view(),
            collect(all.take(i as int).filter(joining()).map_values(to_join_fields(all))) == Ok::<
                Seq<Seq<PendingView>>,
                ErrorView,
            >(done),
            out.deep_view() == done.flatten(),
        decreases tables.len() - i,
    {
        let table = &tables[i];
        proof {
            assert(all[i as int] == table.deep_view());
            lemma_collect_filter_step(all, joining(), to_join_fields(all), i as int);
        }
        let joins = match classify_table(table) {
            TableRole::JoinTableV1 => true,
            TableRole::JoinTableV0 => true,
            _ => false,
        };
        if joins {
            match calculate_join_fields(tables, table) {
                Err(e) => {
                    proof {
                        lemma_collect_filter_prefix_error(
                            all,
                            joining(),
                            to_join_fields(all),
                            i as int + 1,
                        );
                    }
                    return Err(e);
                },
                Ok(mut part) => {
                    let ghost old_out = out.deep_view();
                    let ghost added = part.deep_view();
                    proof {
                        done.lemma_flatten_push(added);
                        done = done.push(added);
                    }
                    out.append(&mut part);
                    assert(out.deep_view() =~= old_out + added);
                },
            }
        }
        i += 1;
    }
    proof {
        assert(all.take(all.len() as int) =~= all);
    }
    Ok(out)
}

fn duplicated(fields: &Vec<PendingField>, i: usize) -> (r: bool)
    requires
        i < fields.len(),
    ensures
        r == is_duplicated(fields.deep_view(), i as int),
{
    let ghost p = fields.deep_view();
    let mut j: usize = 0;
    while j < fields.len()
        invariant
            j <= fields.len(),
            i < fields.len(),
            p == fields.deep_view(),
            forall|k: int|
                0 <= k < j ==> !(k != i && (#[trigger] p[k]).model == p[i as int].model
                    && p[k].field.name == p[i as int].field.name),
        decreases fields.len() - j,
    {
        assert(p[j as int] == fields[j as int].deep_view());
        assert(p[i as int] == fields[i as int].deep_view());
        if j != i && fields[j].model == fields[i].model && fields[j].field.name
            == fields[i].field.name {
            return true;
        }
        j += 1;
    }
    false
}

fn add_relation_suffix(f: &Field) -> (r: Field)
    ensures
        r.deep_view() == with_relation_suffix(f.deep_view()),
{
    let mut out = f.clone();
    match &f.field_type {
        FieldType::Relation(info) => {
            out.name = f.name.clone().concat("_").concat(info.name.as_str());
        },
        _ => {},
    }
    out
}

/// Extends the name of each pending field that shares model and name with
/// another one by the name of its relation.
pub fn deduplicate_names_of_fields_to_be_added(fields_to_be_added: &mut Vec<PendingField>)
    ensures
        final(fields_to_be_added).deep_view() == deduplicated(old(fields_to_be_added).deep_view()),
{
    let ghost p = fields_to_be_added.deep_view();
    let mut out: Vec<PendingField> = Vec::new();
    let mut i: usize = 0;
    while i < fields_to_be_added.len()
        invariant
            i <= fields_to_be_added.len(),
            p == fields_to_be_added.deep_view(),
            out.len() == i,
            forall|k: int| 0 <= k < i ==> out.deep_view()[k] == deduplicated(p)[k],
        decreases fields_to_be_added.len() - i,
    {
        let pending = &fields_to_be_added[i];
        assert(p[i as int] == pending.deep_view());
        let field = if duplicated(fields_to_be_added, i) {
            add_relation_suffix(&pending.field)
        } else {
            pending.field.clone()
        };
        out.push(PendingField { model: pending.model.clone(), field });
        i += 1;
    }
    assert(out.deep_view() =~= deduplicated(p));
    *fields_to_be_added = out;
}

} // verus!
