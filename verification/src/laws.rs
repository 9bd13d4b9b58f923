//! What holds of every data model that inference gives.

use crate::assembly::{
    addressed_to, assembled_fields, disambiguated, fields_for,
    lemma_assembled_field_names_distinct, pending_field, sanitized_index, sanitizing_field,
    sanitizing_index,
};
use crate::calculate_datamodel::{assembled_models, inferred, pending_fields};
use crate::datamodel::{field_names, Datamodel, DatamodelView, IndexDefinitionView, ModelView};
use crate::error::{outcome, ErrorView, IntrospectionError};
use crate::fields::scalar_field;
use crate::guardrails::guarding_field;
use crate::indexes::lemma_declared_indices_are_not_redundant;
use crate::models::{is_plain_column, modelled_tables, scalar_fields, table_model, table_models};
use crate::names::sanitized_all;
use crate::pairing::lemma_pending_origin;
use crate::schema::{has_foreign_key_on, is_foreign_key_column, SchemaView, SqlSchema, TableView};
use crate::sequences::{kept_positions, lemma_kept_positions};
use crate::structure::{
    added_fields, base_models, lemma_base_model, lemma_models_follow_tables, lemma_output_field,
    lemma_output_model, named_pending, unnamed_pending,
};
use crate::synthesis::many_to_many_fields;
use crate::error::ErrorKind;
use crate::fields::{foreign_key_is_sound, modelled_position, relation_field};
use crate::datamodel::FieldView;
use crate::indexes::{covering_field, covers, declaration_step, index_declaration};
use crate::models::{relation_fields, relation_steps, to_model};
use crate::schema::columns_match;
use crate::sequences::{collect, lemma_collect};
use crate::synthesis::{join_fields, join_tables, to_join_fields, PendingView};
use vstd::prelude::*;

verus! {

/// Whether the fields that each table itself gives its model, one for each
/// plain column and one for each foreign key, have pairwise distinct names
/// once these are sanitized.
pub open spec fn declared_names_are_distinct(s: SchemaView) -> bool {
    forall|m: int|
        0 <= m < table_models(s.tables)->Ok_0.len() ==> field_names(
            (#[trigger] table_models(s.tables)->Ok_0[m]).fields.map_values(sanitizing_field()),
        ).no_duplicates()
}

/// Whether no two fields of a model have the same name.
pub open spec fn field_names_are_distinct(dm: DatamodelView) -> bool {
    forall|m: int|
        0 <= m < dm.models.len() ==> field_names((#[trigger] dm.models[m]).fields).no_duplicates()
}

/// In every data model that inference gives, the fields of each model have
/// pairwise distinct names, if and only if the fields that each table itself
/// gives its model have pairwise distinct sanitized names: the fields that
/// are added to a model never take a name that is in use.
pub proof fn lemma_field_names_are_distinct(s: SchemaView, dm: DatamodelView)
    requires
        inferred(s) == Ok::<DatamodelView, ErrorView>(dm),
    ensures
        field_names_are_distinct(dm) <==> declared_names_are_distinct(s),
{
    lemma_models_follow_tables(s, dm);
    let models = table_models(s.tables)->Ok_0;
    let joins = many_to_many_fields(s.tables)->Ok_0;
    let pending = pending_fields(models, s, joins);
    assert forall|m: int| 0 <= m < dm.models.len() implies (field_names(
        (#[trigger] dm.models[m]).fields,
    ).no_duplicates() <==> field_names(
        models[m].fields.map_values(sanitizing_field()),
    ).no_duplicates()) by {
        let own = models[m].fields;
        let extra = fields_for(pending, models[m].name);
        let assembled = assembled_fields(own, extra);
        assert(assembled_models(models, pending)[m].fields == assembled);
        assert(dm.models[m].fields == assembled.map_values(guarding_field()));
        assert(field_names(dm.models[m].fields) =~= field_names(assembled));
        let declared = own.map_values(sanitizing_field());
        let added = disambiguated(field_names(declared), extra.map_values(sanitizing_field()));
        if field_names(declared).no_duplicates() {
            lemma_assembled_field_names_distinct(own, extra);
        }
        if field_names(assembled).no_duplicates() {
            let all = field_names(assembled);
            let first = field_names(declared);
            assert forall|i: int, j: int|
                0 <= i < first.len() && 0 <= j < first.len() && i != j implies first[i]
                != first[j] by {
                assert(all[i] == first[i]);
                assert(all[j] == first[j]);
            }
        }
    }
    if declared_names_are_distinct(s) {
        assert forall|m: int| 0 <= m < dm.models.len() implies field_names(
            (#[trigger] dm.models[m]).fields,
        ).no_duplicates() by {
            assert(field_names(models[m].fields.map_values(sanitizing_field())).no_duplicates());
        }
    }
    if field_names_are_distinct(dm) {
        assert forall|m: int| 0 <= m < models.len() implies field_names(
            (#[trigger] models[m]).fields.map_values(sanitizing_field()),
        ).no_duplicates() by {
            assert(field_names(dm.models[m].fields).no_duplicates());
        }
    }
}

/// Every index that a model of an inferred data model declares stems from an
/// index of the model's table that says more than the fields do: it is not a
/// unique index on a single column, which the unique flag of a scalar field
/// stands for, nor a unique index on the columns of a foreign key, which the
/// arity of the far end of the relation stands for.
pub proof fn lemma_indices_are_not_redundant(
    s: SchemaView,
    dm: DatamodelView,
    m: int,
    d: IndexDefinitionView,
)
    requires
        inferred(s) == Ok::<DatamodelView, ErrorView>(dm),
        0 <= m < dm.models.len(),
        dm.models[m].indices.contains(d),
    ensures
        m < modelled_tables(s.tables).len(),
        d.unique ==> d.columns.len() != 1,
        ({
            let t = modelled_tables(s.tables)[m];
            exists|i: int|
                0 <= i < t.indices.len() && sanitized_all((#[trigger] t.indices[i]).columns)
                    == d.columns && t.indices[i].unique == d.unique && !(t.indices[i].unique
                    && t.indices[i].columns.len() == 1) && !(t.indices[i].unique
                    && has_foreign_key_on(t, t.indices[i].columns))
        }),
{
    lemma_models_follow_tables(s, dm);
    let models = table_models(s.tables)->Ok_0;
    let t = modelled_tables(s.tables)[m];
    let joins = many_to_many_fields(s.tables)->Ok_0;
    let pending = pending_fields(models, s, joins);
    assert(assembled_models(models, pending)[m].indices == models[m].indices.map_values(
        sanitizing_index(),
    ));
    assert(dm.models[m].indices == models[m].indices.map_values(sanitizing_index()));
    let j = choose|j: int| 0 <= j < dm.models[m].indices.len() && dm.models[m].indices[j] == d;
    let raw = models[m].indices[j];
    assert(d == sanitized_index(raw));
    assert(models[m].indices.contains(raw));
    assert(table_model(s.tables, t) == Ok::<ModelView, ErrorView>(models[m]));
    lemma_declared_indices_are_not_redundant(t, models[m].fields, raw);
    let i = choose|i: int|
        0 <= i < t.indices.len() && (#[trigger] t.indices[i]).columns == raw.columns
            && t.indices[i].unique == raw.unique && !(t.indices[i].unique
            && t.indices[i].columns.len() == 1) && !(t.indices[i].unique && has_foreign_key_on(
            t,
            t.indices[i].columns,
        ));
    assert(sanitized_all(t.indices[i].columns) == d.columns);
}

/// Two runs of inference on the same schema end alike: with the same data
/// model, or with the same failure.
pub proof fn lemma_inference_is_deterministic(
    first: SqlSchema,
    second: SqlSchema,
    first_outcome: Result<Datamodel, IntrospectionError>,
    second_outcome: Result<Datamodel, IntrospectionError>,
)
    requires
        first.deep_view() == second.deep_view(),
        outcome(first_outcome) == inferred(first.deep_view()),
        outcome(second_outcome) == inferred(second.deep_view()),
    ensures
        outcome(first_outcome) == outcome(second_outcome),
{
}

/// Whether the columns of a table have pairwise distinct names.
pub open spec fn column_names_are_distinct(t: TableView) -> bool {
    forall|c: int, d: int|
        0 <= c < d < t.columns.len() ==> (#[trigger] t.columns[c]).name != (
        #[trigger] t.columns[d]).name
}

/// The position of the column that the `i`-th field of the `m`-th model
/// stands for, where that is a scalar field.
pub open spec fn column_of_field(s: SchemaView, m: int, i: int) -> int {
    let t = modelled_tables(s.tables)[m];
    kept_positions(t.columns, is_plain_column(t))[i]
}

/// Every field of an inferred data model that is no relation field stands
/// for one column of the table of its model: a column outside every foreign
/// key. The columns of the foreign keys are behind the relation fields only.
pub proof fn lemma_scalar_fields_stand_for_plain_columns(
    s: SchemaView,
    dm: DatamodelView,
    m: int,
    i: int,
)
    requires
        inferred(s) == Ok::<DatamodelView, ErrorView>(dm),
        0 <= m < dm.models.len(),
        0 <= i < dm.models[m].fields.len(),
        !dm.models[m].fields[i].is_relation(),
    ensures
        m < modelled_tables(s.tables).len(),
        i < scalar_fields(modelled_tables(s.tables)[m]).len(),
        ({
            let t = modelled_tables(s.tables)[m];
            let c = column_of_field(s, m, i);
            &&& 0 <= c < t.columns.len()
            &&& dm.models[m].fields[i].columns == seq![t.columns[c].name]
            &&& !is_foreign_key_column(t, t.columns[c].name)
        }),
{
    lemma_output_model(s, dm, m);
    lemma_output_field(s, dm, m, i);
    lemma_base_model(s, m);
    let t = modelled_tables(s.tables)[m];
    let own = base_models(s)[m].fields;
    if i >= own.len() {
        let keep = addressed_to(base_models(s)[m].name);
        let named = named_pending(s);
        lemma_kept_positions(named, keep);
        let a = i - own.len();
        let p = kept_positions(named, keep)[a];
        assert(added_fields(s, m)[a] == pending_field()(named.filter(keep)[a]));
        assert(named.len() == unnamed_pending(s).len());
        lemma_pending_origin(s, p);
    }
    lemma_kept_positions(t.columns, is_plain_column(t));
    let c = column_of_field(s, m, i);
    assert(scalar_fields(t)[i] == scalar_field(t, t.columns.filter(is_plain_column(t))[i]));
    assert(is_plain_column(t)(t.columns[c]));
}

/// Where the columns of a table have pairwise distinct names, no two scalar
/// fields of its model stand for the same column.
pub proof fn lemma_scalar_fields_share_no_column(
    s: SchemaView,
    dm: DatamodelView,
    m: int,
    i: int,
    j: int,
)
    requires
        inferred(s) == Ok::<DatamodelView, ErrorView>(dm),
        0 <= m < dm.models.len(),
        0 <= i < j < dm.models[m].fields.len(),
        !dm.models[m].fields[i].is_relation(),
        !dm.models[m].fields[j].is_relation(),
        m < modelled_tables(s.tables).len() ==> column_names_are_distinct(
            modelled_tables(s.tables)[m],
        ),
    ensures
        dm.models[m].fields[i].columns != dm.models[m].fields[j].columns,
{
    lemma_scalar_fields_stand_for_plain_columns(s, dm, m, i);
    lemma_scalar_fields_stand_for_plain_columns(s, dm, m, j);
    let t = modelled_tables(s.tables)[m];
    lemma_kept_positions(t.columns, is_plain_column(t));
    let c = column_of_field(s, m, i);
    let d = column_of_field(s, m, j);
    assert(c < d);
    assert(t.columns[c].name != t.columns[d].name);
    assert(seq![t.columns[c].name][0] == t.columns[c].name);
    assert(seq![t.columns[d].name][0] == t.columns[d].name);
}

/// Whether the schema is what inference takes for granted: every foreign
/// key of a table that becomes a model is sound, and every join table
/// references tables that become models.
pub open spec fn schema_is_sound(s: SchemaView) -> bool {
    &&& forall|m: int, k: int|
        0 <= m < modelled_tables(s.tables).len() && 0 <= k < modelled_tables(
            s.tables,
        )[m].foreign_keys.len() ==> foreign_key_is_sound(
            s.tables,
            modelled_tables(s.tables)[m],
            #[trigger] modelled_tables(s.tables)[m].foreign_keys[k],
        )
    &&& forall|j: int|
        0 <= j < join_tables(s.tables).len() ==> modelled_position(
            s.tables,
            (#[trigger] join_tables(s.tables)[j]).foreign_keys[0].referenced_table,
        ) is Some && modelled_position(
            s.tables,
            join_tables(s.tables)[j].foreign_keys[1].referenced_table,
        ) is Some
}

/// The model of a table can be built exactly where its foreign keys are
/// sound: an index on the columns of a compound foreign key always finds the
/// relation field of that foreign key.
pub proof fn lemma_table_model_exists(tables: Seq<TableView>, t: TableView)
    ensures
        table_model(tables, t) is Ok <==> forall|k: int|
            0 <= k < t.foreign_keys.len() ==> foreign_key_is_sound(
                tables,
                t,
                #[trigger] t.foreign_keys[k],
            ),
        table_model(tables, t) is Err ==> table_model(tables, t)->Err_0.kind
            == ErrorKind::InvariantViolation,
{
    let steps = relation_steps(tables, t);
    lemma_collect(steps);
    if relation_fields(tables, t) is Ok {
        let relations = relation_fields(tables, t)->Ok_0;
        assert forall|k: int| 0 <= k < t.foreign_keys.len() implies foreign_key_is_sound(
            tables,
            t,
            #[trigger] t.foreign_keys[k],
        ) by {
            assert(steps[k] == relation_field(tables, t, k));
            assert(steps[k] is Ok);
        }
        let fields = scalar_fields(t) + relations;
        let isteps = t.indices.map_values(declaration_step(t, fields));
        lemma_collect(isteps);
        if collect(isteps) is Err {
            let e = collect(isteps)->Err_0;
            let i = choose|i: int| 0 <= i < isteps.len() && #[trigger] isteps[i] == Err::<
                Option<IndexDefinitionView>,
                ErrorView,
            >(e);
            let x = t.indices[i];
            assert(isteps[i] == index_declaration(t, fields, x));
            let k = choose|k: int|
                0 <= k < t.foreign_keys.len() && columns_match(
                    (#[trigger] t.foreign_keys[k]).columns,
                    x.columns,
                );
            let c = scalar_fields(t).len() + k;
            assert(steps[k] == relation_field(tables, t, k));
            assert(steps[k] == Ok::<FieldView, ErrorView>(relations[k]));
            assert(fields[c] == relations[k]);
            assert(foreign_key_is_sound(tables, t, t.foreign_keys[k]));
            assert(covers(fields[c], x.columns));
            reveal(covering_field);
            assert(false);
        }
    } else {
        let e = relation_fields(tables, t)->Err_0;
        let k = choose|k: int|
            0 <= k < steps.len() && #[trigger] steps[k] == Err::<FieldView, ErrorView>(e);
        assert(steps[k] == relation_field(tables, t, k));
        assert(!foreign_key_is_sound(tables, t, t.foreign_keys[k]));
    }
}

/// Inference gives a data model exactly for the sound schemas; where it
/// fails, it fails on a broken invariant.
pub proof fn lemma_inference_succeeds_on_sound_schemas(s: SchemaView)
    ensures
        inferred(s) is Ok <==> schema_is_sound(s),
        inferred(s) is Err ==> inferred(s)->Err_0.kind == ErrorKind::InvariantViolation,
{
    let tables = s.tables;
    let mt = modelled_tables(tables);
    let jt = join_tables(tables);
    let steps = mt.map_values(to_model(tables));
    let jsteps = jt.map_values(to_join_fields(tables));
    lemma_collect(steps);
    lemma_collect(jsteps);
    assert forall|m: int| 0 <= m < mt.len() implies (#[trigger] steps[m] is Ok <==> forall|k: int|
        0 <= k < mt[m].foreign_keys.len() ==> foreign_key_is_sound(
            tables,
            mt[m],
            #[trigger] mt[m].foreign_keys[k],
        )) && (steps[m] is Err ==> steps[m]->Err_0.kind == ErrorKind::InvariantViolation) by {
        lemma_table_model_exists(tables, mt[m]);
        assert(steps[m] == table_model(tables, mt[m]));
    }
    assert forall|j: int| 0 <= j < jt.len() implies (#[trigger] jsteps[j] is Ok <==> (
    modelled_position(tables, jt[j].foreign_keys[0].referenced_table) is Some
        && modelled_position(tables, jt[j].foreign_keys[1].referenced_table) is Some)) && (
    jsteps[j] is Err ==> jsteps[j]->Err_0.kind == ErrorKind::InvariantViolation) by {
        assert(jsteps[j] == join_fields(tables, jt[j]));
    }
    if schema_is_sound(s) {
        if table_models(tables) is Err {
            let e = table_models(tables)->Err_0;
            let m = choose|m: int|
                0 <= m < steps.len() && #[trigger] steps[m] == Err::<ModelView, ErrorView>(e);
            assert(steps[m] is Ok);
        }
        if many_to_many_fields(tables) is Err {
            let e = collect(jsteps)->Err_0;
            let j = choose|j: int|
                0 <= j < jsteps.len() && #[trigger] jsteps[j] == Err::<
                    Seq<PendingView>,
                    ErrorView,
                >(e);
            assert(jsteps[j] is Ok);
        }
    }
    if inferred(s) is Ok {
        assert forall|m: int, k: int|
            0 <= m < mt.len() && 0 <= k < mt[m].foreign_keys.len() implies foreign_key_is_sound(
            tables,
            mt[m],
            #[trigger] mt[m].foreign_keys[k],
        ) by {
            assert(steps[m] is Ok);
        }
        assert forall|j: int| 0 <= j < jt.len() implies modelled_position(
            tables,
            (#[trigger] jt[j]).foreign_keys[0].referenced_table,
        ) is Some && modelled_position(tables, jt[j].foreign_keys[1].referenced_table) is Some by {
            assert(jsteps[j] is Ok);
        }
    } else {
        if table_models(tables) is Err {
            let e = table_models(tables)->Err_0;
            let m = choose|m: int|
                0 <= m < steps.len() && #[trigger] steps[m] == Err::<ModelView, ErrorView>(e);
            assert(steps[m] is Err);
        } else {
            let e = collect(jsteps)->Err_0;
            let j = choose|j: int|
                0 <= j < jsteps.len() && #[trigger] jsteps[j] == Err::<
                    Seq<PendingView>,
                    ErrorView,
                >(e);
            assert(jsteps[j] is Err);
        }
    }
}

} // verus!
