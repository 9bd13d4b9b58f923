//! From a schema to its data model.

use crate::assembly::{assemble_model, assembled_model, fields_for, select_fields_for};
use crate::datamodel::{Datamodel, DatamodelView, Enum, EnumView, Model, ModelView};
use crate::error::{outcome, ErrorView, IntrospectionError};
use crate::guardrails::{commenting_out_guardrails, guarded};
use crate::models::{calculate_table_models, modelled_tables, table_models};
use crate::names::{sanitize_name, sanitized};
use crate::schema::{clone_names, SchemaView, SqlSchema};
use crate::synthesis::{
    back_relations, calculate_backrelations, calculate_many_to_many_fields,
    deduplicate_names_of_fields_to_be_added, deduplicated, many_to_many_fields, PendingField,
    PendingView,
};
use vstd::prelude::*;
use vstd::string::*;

verus! {

/// The fields that no column stands for, with names told apart: the far
/// ends that the models lack, then the list fields of the join tables.
pub open spec fn pending_fields(models: Seq<ModelView>, s: SchemaView, joins: Seq<PendingView>) -> Seq<
    PendingView,
> {
    deduplicated(back_relations(models, modelled_tables(s.tables)) + joins)
}

/// The models, each joined by the pending fields that are for it.
pub open spec fn assembled_models(models: Seq<ModelView>, pending: Seq<PendingView>) -> Seq<
    ModelView,
> {
    Seq::new(
        models.len(),
        |i: int| assembled_model(models[i], fields_for(pending, models[i].name)),
    )
}

/// The enum of the data model for an enum of the schema: the same values
/// under the sanitized name.
pub open spec fn model_enum(e: crate::schema::EnumView) -> EnumView {
    EnumView { name: sanitized(e.name), values: e.values }
}

/// `model_enum`, as a function on enums.
pub open spec fn to_model_enum() -> spec_fn(crate::schema::EnumView) -> EnumView {
    |e: crate::schema::EnumView| model_enum(e)
}

/// The data model of a schema, or the failure that aborts inference: the
/// first, in the order of the tables, among the tables that become models,
/// or else among the join tables.
pub open spec fn inferred(s: SchemaView) -> Result<DatamodelView, ErrorView> {
    match table_models(s.tables) {
        Err(e) => Err(e),
        Ok(models) => match many_to_many_fields(s.tables) {
            Err(e) => Err(e),
            Ok(joins) => Ok(
                guarded(
                    DatamodelView {
                        models: assembled_models(models, pending_fields(models, s, joins)),
                        enums: s.enums.map_values(to_model_enum()),
                    },
                ),
            ),
        },
    }
}

fn calculate_enums(enums: &Vec<crate::schema::Enum>) -> (r: Vec<Enum>)
    ensures
        r.deep_view() == enums.deep_view().map_values(to_model_enum()),
{
    let mut out: Vec<Enum> = Vec::new();
    let mut i: usize = 0;
    while i < enums.len()
        invariant
            i <= enums.len(),
            out.len() == i,
            forall|k: int|
                0 <= k < i ==> #[trigger] out.deep_view()[k] == model_enum(enums.deep_view()[k]),
        decreases enums.len() - i,
    {
        let e = &enums[i];
        let copy = Enum { name: sanitize_name(e.name.as_str()), values: clone_names(&e.values) };
        let ghost old_out = out.deep_view();
        out.push(copy);
        proof {
            assert(enums.deep_view()[i as int] == e.deep_view());
            assert(out.deep_view() =~= old_out.push(copy.deep_view()));
        }
        i += 1;
    }
    assert(out.deep_view() =~= enums.deep_view().map_values(to_model_enum()));
    out
}

fn assemble_models(models: &Vec<Model>, pending: &Vec<PendingField>) -> (r: Vec<Model>)
    ensures
        r.deep_view() == assembled_models(models.deep_view(), pending.deep_view()),
{
    let mut out: Vec<Model> = Vec::new();
    let mut i: usize = 0;
    while i < models.len()
        invariant
            i <= models.len(),
            out.len() == i,
            forall|k: int|
                0 <= k < i ==> #[trigger] out.deep_view()[k] == assembled_models(
                    models.deep_view(),
                    pending.deep_view(),
                )[k],
        decreases models.len() - i,
    {
        let model = &models[i];
        let extra = select_fields_for(pending, &model.name);
        let assembled = assemble_model(model, &extra);
        let ghost old_out = out.deep_view();
        out.push(assembled);
        proof {
            assert(models.deep_view()[i as int] == model.deep_view());
            assert(out.deep_view() =~= old_out.push(assembled.deep_view()));
        }
        i += 1;
    }
    assert(out.deep_view() =~= assembled_models(models.deep_view(), pending.deep_view()));
    out
}

/// Calculates the data model of a schema. The outcome is a function of the
/// schema alone: the data model or the failure that `inferred` gives for the
/// view of the schema.
pub fn calculate_model(schema: &SqlSchema) -> (r: Result<Datamodel, IntrospectionError>)
    ensures
        outcome(r) == inferred(schema.deep_view()),
{
    let (models, origins) = match calculate_table_models(&schema.tables) {
        Err(e) => {
            return Err(e);
        },
        Ok(found) => found,
    };
    let mut fields_to_be_added = calculate_backrelations(&schema.tables, &models, &origins);
    let mut joins = match calculate_many_to_many_fields(&schema.tables) {
        Err(e) => {
            return Err(e);
        },
        Ok(found) => found,
    };
    let ghost backs = fields_to_be_added.deep_view();
    let ghost lists = joins.deep_view();
    fields_to_be_added.append(&mut joins);
    assert(fields_to_be_added.deep_view() =~= backs + lists);
    deduplicate_names_of_fields_to_be_added(&mut fields_to_be_added);
    let mut data_model = Datamodel {
        models: assemble_models(&models, &fields_to_be_added),
        enums: calculate_enums(&schema.enums),
    };
    commenting_out_guardrails(&mut data_model);
    Ok(data_model)
}

} // verus!
