//! How an inferred data model is built up: which field of which model
//! stands for which part of the schema.

use crate::assembly::{
    assembled_fields, disambiguated, fields_for, lemma_disambiguated, sanitized_field,
    sanitizing_field,
};
use crate::calculate_datamodel::{assembled_models, inferred, pending_fields};
use crate::datamodel::{field_names, DatamodelView, FieldView, ModelView};
use crate::error::ErrorView;
use crate::fields::{
    foreign_key_is_sound, lemma_modelled_position, modelled_position, relation_field,
    relation_name, scalar_field,
};
use crate::filters::{is_join_table, is_modelled};
use crate::guardrails::guarding_field;
use crate::models::{
    is_plain_column, modelled, modelled_tables, relation_fields, relation_steps, scalar_fields,
    table_model, table_models, to_model,
};
use crate::names::{sanitized, Name};
use crate::schema::SchemaView;
use crate::sequences::{collect, lemma_collect};
use crate::synthesis::{
    back_relations_by_model, deduplicated, join_fields, join_tables, joining,
    many_to_many_fields, to_join_fields, PendingView,
};
use vstd::prelude::*;

verus! {

/// The models of a data model stand for the tables that become models, one
/// for one and in the same order.
pub proof fn lemma_models_follow_tables(s: SchemaView, dm: DatamodelView)
    requires
        inferred(s) == Ok::<DatamodelView, ErrorView>(dm),
    ensures
        table_models(s.tables) is Ok,
        many_to_many_fields(s.tables) is Ok,
        dm.models.len() == modelled_tables(s.tables).len(),
        dm.models.len() == table_models(s.tables)->Ok_0.len(),
        forall|m: int|
            0 <= m < dm.models.len() ==> table_model(
                s.tables,
                #[trigger] modelled_tables(s.tables)[m],
            ) == Ok::<ModelView, ErrorView>(table_models(s.tables)->Ok_0[m]),
{
    let steps = modelled_tables(s.tables).map_values(to_model(s.tables));
    lemma_collect(steps);
    let models = table_models(s.tables)->Ok_0;
    assert forall|m: int| 0 <= m < dm.models.len() implies table_model(
        s.tables,
        #[trigger] modelled_tables(s.tables)[m],
    ) == Ok::<ModelView, ErrorView>(models[m]) by {
        assert(steps[m] == table_model(s.tables, modelled_tables(s.tables)[m]));
    }
}

/// The models of the tables, before any field is added.
pub open spec fn base_models(s: SchemaView) -> Seq<ModelView> {
    table_models(s.tables)->Ok_0
}

/// The list fields of the join tables, table by table.
pub open spec fn join_parts(s: SchemaView) -> Seq<Seq<PendingView>> {
    collect(join_tables(s.tables).map_values(to_join_fields(s.tables)))->Ok_0
}

/// The far ends that the models lack, model by model.
pub open spec fn back_parts(s: SchemaView) -> Seq<Seq<PendingView>> {
    back_relations_by_model(base_models(s), modelled_tables(s.tables))
}

/// The fields that are added to the models, under their first names.
pub open spec fn unnamed_pending(s: SchemaView) -> Seq<PendingView> {
    back_parts(s).flatten() + join_parts(s).flatten()
}

/// The fields that are added to the models.
pub open spec fn named_pending(s: SchemaView) -> Seq<PendingView> {
    deduplicated(unnamed_pending(s))
}

/// The fields that are added to the `n`-th model.
pub open spec fn added_fields(s: SchemaView, n: int) -> Seq<FieldView> {
    fields_for(named_pending(s), base_models(s)[n].name)
}

/// The field that the `j`-th field of the `n`-th model was before names
/// were sanitized.
pub open spec fn raw_field(s: SchemaView, n: int, j: int) -> FieldView {
    let own = base_models(s)[n].fields;
    if j < own.len() {
        own[j]
    } else {
        added_fields(s, n)[j - own.len()]
    }
}

/// What the model of a table holds before any field is added: the scalar
/// fields, none of them a relation field; then one relation field for each
/// foreign key, all of them sound.
pub proof fn lemma_base_model(s: SchemaView, n: int)
    requires
        table_models(s.tables) is Ok,
        0 <= n < modelled_tables(s.tables).len(),
    ensures
        base_models(s).len() == modelled_tables(s.tables).len(),
        is_modelled(modelled_tables(s.tables)[n]),
        ({
            let t = modelled_tables(s.tables)[n];
            let m = base_models(s)[n];
            let scalars = scalar_fields(t).len();
            &&& m.name == t.name
            &&& m.fields.len() == scalars + t.foreign_keys.len()
            &&& forall|c: int|
                0 <= c < scalars ==> !(#[trigger] m.fields[c]).is_relation() && m.fields[c]
                    == scalar_fields(t)[c]
            &&& forall|c: int|
                scalars <= c < m.fields.len() ==> {
                    let k = c - scalars;
                    let f = #[trigger] m.fields[c];
                    &&& foreign_key_is_sound(s.tables, t, t.foreign_keys[k])
                    &&& f.is_relation()
                    &&& f.relation().to == t.foreign_keys[k].referenced_table
                    &&& f.relation().name == relation_name(s.tables, t, k)
                }
        }),
{
    let tables = s.tables;
    let mt = modelled_tables(tables);
    let steps = mt.map_values(to_model(tables));
    lemma_collect(steps);
    let t = mt[n];
    let m = base_models(s)[n];
    assert(steps[n] == table_model(tables, t));
    assert(table_model(tables, t) == Ok::<ModelView, ErrorView>(m));
    tables.lemma_filter_pred(modelled(), n);
    let rsteps = relation_steps(tables, t);
    lemma_collect(rsteps);
    let rels = relation_fields(tables, t)->Ok_0;
    let scalars = scalar_fields(t);
    assert(m.fields == scalars + rels);
    assert forall|c: int| 0 <= c < scalars.len() implies !(#[trigger] m.fields[c]).is_relation()
        && m.fields[c] == scalars[c] by {
        assert(m.fields[c] == scalars[c]);
        let col = t.columns.filter(is_plain_column(t))[c];
        assert(scalars[c] == scalar_field(t, col));
    }
    assert forall|c: int| scalars.len() <= c < m.fields.len() implies {
        let k = c - scalars.len();
        let f = #[trigger] m.fields[c];
        &&& foreign_key_is_sound(tables, t, t.foreign_keys[k])
        &&& f.is_relation()
        &&& f.relation().to == t.foreign_keys[k].referenced_table
        &&& f.relation().name == relation_name(tables, t, k)
    } by {
        let k = c - scalars.len();
        assert(m.fields[c] == rels[k]);
        assert(rsteps[k] == relation_field(tables, t, k));
        assert(rsteps[k] == Ok::<FieldView, ErrorView>(rels[k]));
    }
}

/// What a join table adds: two list fields, each for a table that becomes a
/// model.
pub proof fn lemma_join_part(s: SchemaView, x: int)
    requires
        many_to_many_fields(s.tables) is Ok,
        0 <= x < join_tables(s.tables).len(),
    ensures
        join_parts(s).len() == join_tables(s.tables).len(),
        is_join_table(join_tables(s.tables)[x]),
        join_fields(s.tables, join_tables(s.tables)[x]) == Ok::<Seq<PendingView>, ErrorView>(
            join_parts(s)[x],
        ),
        join_parts(s)[x].len() == 2,
        modelled_position(
            s.tables,
            join_tables(s.tables)[x].foreign_keys[0].referenced_table,
        ) is Some,
        modelled_position(
            s.tables,
            join_tables(s.tables)[x].foreign_keys[1].referenced_table,
        ) is Some,
{
    let tables = s.tables;
    let jt = join_tables(tables);
    let steps = jt.map_values(to_join_fields(tables));
    lemma_collect(steps);
    assert(steps[x] == join_fields(tables, jt[x]));
    tables.lemma_filter_pred(joining(), x);
}

/// A table that becomes a model is found among the tables that become
/// models.
pub proof fn lemma_find_model(s: SchemaView, name: Name) -> (n: int)
    requires
        modelled_position(s.tables, name) is Some,
    ensures
        0 <= n < modelled_tables(s.tables).len(),
        modelled_tables(s.tables)[n].name == name,
{
    lemma_modelled_position(s.tables, name);
    let i = modelled_position(s.tables, name)->0;
    s.tables.lemma_filter_contains(modelled(), i);
    let mt = modelled_tables(s.tables);
    choose|n: int| 0 <= n < mt.len() && mt[n] == s.tables[i]
}

/// Sanitizing and renaming keep what a field relates to: the `j`-th field of
/// the `n`-th model is a relation field exactly where it was one before, to
/// the sanitized name of the same model under the sanitized name of the
/// same relation.
pub proof fn lemma_output_field(s: SchemaView, dm: DatamodelView, n: int, j: int)
    requires
        inferred(s) == Ok::<DatamodelView, ErrorView>(dm),
        0 <= n < modelled_tables(s.tables).len(),
        0 <= j < base_models(s)[n].fields.len() + added_fields(s, n).len(),
    ensures
        table_models(s.tables) is Ok,
        many_to_many_fields(s.tables) is Ok,
        dm.models.len() == modelled_tables(s.tables).len(),
        dm.models.len() == base_models(s).len(),
        dm.models[n].name == sanitized(base_models(s)[n].name),
        dm.models[n].fields.len() == base_models(s)[n].fields.len() + added_fields(s, n).len(),
        dm.models[n].fields[j].is_relation() == raw_field(s, n, j).is_relation(),
        dm.models[n].fields[j].columns == raw_field(s, n, j).columns,
        raw_field(s, n, j).is_relation() ==> dm.models[n].fields[j].relation().to == sanitized(
            raw_field(s, n, j).relation().to,
        ) && dm.models[n].fields[j].relation().name == sanitized(
            raw_field(s, n, j).relation().name,
        ),
{
    lemma_models_follow_tables(s, dm);
    let models = base_models(s);
    let joins = many_to_many_fields(s.tables)->Ok_0;
    let pending = pending_fields(models, s, joins);
    assert(joins == join_parts(s).flatten());
    assert(pending == named_pending(s));
    let own = models[n].fields;
    let extra = fields_for(pending, models[n].name);
    let assembled = assembled_fields(own, extra);
    assert(assembled_models(models, pending)[n].fields == assembled);
    assert(dm.models[n].fields == assembled.map_values(guarding_field()));
    let declared = own.map_values(sanitizing_field());
    let cleaned = extra.map_values(sanitizing_field());
    lemma_disambiguated(field_names(declared), cleaned);
    let added = disambiguated(field_names(declared), cleaned);
    assert(assembled == declared + added);
    if j < own.len() {
        assert(assembled[j] == sanitized_field(own[j]));
    } else {
        let a = j - own.len();
        assert(assembled[j] == added[a]);
        assert(added[a] == cleaned[a].with_name(added[a].name));
        assert(cleaned[a] == sanitized_field(extra[a]));
    }
}

/// The models of a data model follow the tables, and each holds as many
/// fields as its table gave it and as were added to it.
pub proof fn lemma_output_model(s: SchemaView, dm: DatamodelView, n: int)
    requires
        inferred(s) == Ok::<DatamodelView, ErrorView>(dm),
        0 <= n < dm.models.len(),
    ensures
        table_models(s.tables) is Ok,
        many_to_many_fields(s.tables) is Ok,
        dm.models.len() == modelled_tables(s.tables).len(),
        dm.models.len() == base_models(s).len(),
        dm.models[n].name == sanitized(base_models(s)[n].name),
        dm.models[n].fields.len() == base_models(s)[n].fields.len() + added_fields(s, n).len(),
{
    lemma_models_follow_tables(s, dm);
    let models = base_models(s);
    let joins = many_to_many_fields(s.tables)->Ok_0;
    let pending = pending_fields(models, s, joins);
    assert(joins == join_parts(s).flatten());
    assert(pending == named_pending(s));
    let own = models[n].fields;
    let extra = fields_for(pending, models[n].name);
    let assembled = assembled_fields(own, extra);
    assert(assembled_models(models, pending)[n].fields == assembled);
    assert(dm.models[n].fields == assembled.map_values(guarding_field()));
    let declared = own.map_values(sanitizing_field());
    let cleaned = extra.map_values(sanitizing_field());
    lemma_disambiguated(field_names(declared), cleaned);
}

} // verus!
