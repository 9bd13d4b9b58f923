//! The last pass over a data model: what the model language cannot express
//! is marked, and stays in the model.

use crate::datamodel::{
    Datamodel, DatamodelView, Enum, Field, FieldType, FieldView, IndexDefinition, Model,
    ModelView,
};
use crate::schema::clone_names;
use vstd::prelude::*;
use vstd::string::*;

verus! {

/// A field is commented out where its name is empty or its type is not one
/// of the model language.
pub open spec fn guarded_field(f: FieldView) -> FieldView {
    FieldView { is_commented_out: f.name.len() == 0 || f.field_type is Unsupported, ..f }
}

/// `guarded_field`, as a function on fields.
pub open spec fn guarding_field() -> spec_fn(FieldView) -> FieldView {
    |f: FieldView| guarded_field(f)
}

/// A model is commented out where its name is empty; its fields are
/// guarded one by one.
pub open spec fn guarded_model(m: ModelView) -> ModelView {
    ModelView {
        fields: m.fields.map_values(guarding_field()),
        is_commented_out: m.name.len() == 0,
        ..m
    }
}

/// `guarded_model`, as a function on models.
pub open spec fn guarding_model() -> spec_fn(ModelView) -> ModelView {
    |m: ModelView| guarded_model(m)
}

/// The data model with every model guarded.
pub open spec fn guarded(dm: DatamodelView) -> DatamodelView {
    DatamodelView { models: dm.models.map_values(guarding_model()), enums: dm.enums }
}

fn guard_field(f: &Field) -> (r: Field)
    ensures
        r.deep_view() == guarded_field(f.deep_view()),
{
    let unsupported = match &f.field_type {
        FieldType::Unsupported(_) => true,
        _ => false,
    };
    let mut out = f.clone();
    out.is_commented_out = f.name.as_str().unicode_len() == 0 || unsupported;
    out
}

fn guard_fields(fields: &Vec<Field>) -> (r: Vec<Field>)
    ensures
        r.deep_view() == fields.deep_view().map_values(guarding_field()),
{
    let mut out: Vec<Field> = Vec::new();
    let mut i: usize = 0;
    while i < fields.len()
        invariant
            i <= fields.len(),
            out.len() == i,
            forall|k: int|
                0 <= k < i ==> #[trigger] out.deep_view()[k] == guarded_field(
                    fields.deep_view()[k],
                ),
        decreases fields.len() - i,
    {
        let f = guard_field(&fields[i]);
        let ghost old_out = out.deep_view();
        out.push(f);
        proof {
            assert(fields.deep_view()[i as int] == fields[i as int].deep_view());
            assert(out.deep_view() =~= old_out.push(f.deep_view()));
        }
        i += 1;
    }
    assert(out.deep_view() =~= fields.deep_view().map_values(guarding_field()));
    out
}

fn copy_indices(indices: &Vec<IndexDefinition>) -> (r: Vec<IndexDefinition>)
    ensures
        r.deep_view() == indices.deep_view(),
{
    let mut out: Vec<IndexDefinition> = Vec::new();
    let mut i: usize = 0;
    while i < indices.len()
        invariant
            i <= indices.len(),
            out.len() == i,
            forall|k: int| 0 <= k < i ==> #[trigger] out.deep_view()[k] == indices.deep_view()[k],
        decreases indices.len() - i,
    {
        let d = &indices[i];
        let copy = IndexDefinition {
            name: match &d.name {
                Some(n) => Some(n.clone()),
                None => None,
            },
            columns: clone_names(&d.columns),
            unique: d.unique,
        };
        let ghost old_out = out.deep_view();
        out.push(copy);
        proof {
            assert(indices.deep_view()[i as int] == d.deep_view());
            assert(out.deep_view() =~= old_out.push(copy.deep_view()));
        }
        i += 1;
    }
    assert(out.deep_view() =~= indices.deep_view());
    out
}

fn copy_enums(enums: &Vec<Enum>) -> (r: Vec<Enum>)
    ensures
        r.deep_view() == enums.deep_view(),
{
    let mut out: Vec<Enum> = Vec::new();
    let mut i: usize = 0;
    while i < enums.len()
        invariant
            i <= enums.len(),
            out.len() == i,
            forall|k: int| 0 <= k < i ==> #[trigger] out.deep_view()[k] == enums.deep_view()[k],
        decreases enums.len() - i,
    {
        let e = &enums[i];
        let copy = Enum { name: e.name.clone(), values: clone_names(&e.values) };
        let ghost old_out = out.deep_view();
        out.push(copy);
        proof {
            assert(enums.deep_view()[i as int] == e.deep_view());
            assert(out.deep_view() =~= old_out.push(copy.deep_view()));
        }
        i += 1;
    }
    assert(out.deep_view() =~= enums.deep_view());
    out
}

/// Marks one model and its fields.
pub fn guard_model(model: &Model) -> (r: Model)
    ensures
        r.deep_view() == guarded_model(model.deep_view()),
{
    Model {
        name: model.name.clone(),
        fields: guard_fields(&model.fields),
        id_fields: clone_names(&model.id_fields),
        indices: copy_indices(&model.indices),
        is_commented_out: model.name.as_str().unicode_len() == 0,
    }
}

/// Marks the models and fields of a data model that the model language
/// cannot express. Nothing is taken out, and nothing else is changed.
pub fn commenting_out_guardrails(datamodel: &mut Datamodel)
    ensures
        final(datamodel).deep_view() == guarded(old(datamodel).deep_view()),
{
    let mut models: Vec<Model> = Vec::new();
    let mut i: usize = 0;
    while i < datamodel.models.len()
        invariant
            i <= datamodel.models.len(),
            *datamodel == *old(datamodel),
            models.len() == i,
            forall|k: int|
                0 <= k < i ==> #[trigger] models.deep_view()[k] == guarded_model(
                    datamodel.deep_view().models[k],
                ),
        decreases datamodel.models.len() - i,
    {
        let m = guard_model(&datamodel.models[i]);
        let ghost old_models = models.deep_view();
        models.push(m);
        proof {
            assert(datamodel.deep_view().models[i as int] == datamodel.models[i as int].deep_view());
            assert(models.deep_view() =~= old_models.push(m.deep_view()));
        }
        i += 1;
    }
    assert(models.deep_view() =~= datamodel.deep_view().models.map_values(guarding_model()));
    let enums = copy_enums(&datamodel.enums);
    *datamodel = Datamodel { models, enums };
}

} // verus!
