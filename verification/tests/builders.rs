use sql_introspection::assembly::{
    assemble_model, disambiguate_fields, find_fresh_name, sanitize_field, sanitize_index,
    sanitize_names, select_fields_for,
};
use sql_introspection::datamodel::{
    Datamodel, DefaultValue, Enum, Field, FieldArity, FieldType, IndexDefinition, Model,
    OnDeleteStrategy, RelationInfo, ScalarType,
};
use sql_introspection::error::ErrorKind;
use sql_introspection::fields::{
    calculate_backrelation_field, calculate_many_to_many_field, calculate_relation_field,
    calculate_scalar_field, find_modelled_table,
};
use sql_introspection::guardrails::{commenting_out_guardrails, guard_model};
use sql_introspection::indexes::{
    calculate_compound_index, calculate_index, calculate_indices, decide_index, reconcile_index,
    IndexAction,
};
use sql_introspection::models::{
    calculate_relation_fields, calculate_scalar_fields, calculate_table_model,
    calculate_table_models,
};
use sql_introspection::schema::{
    clone_names, columns_match_exec, names_contain, Column, ColumnArity, ColumnTypeFamily,
    ForeignKey, ForeignKeyAction, Index, Table,
};
use sql_introspection::synthesis::{
    calculate_many_to_many_fields, calculate_model_backrelations,
    deduplicate_names_of_fields_to_be_added, PendingField,
};

fn strings(items: &[&str]) -> Vec<String> {
    items.iter().map(|s| s.to_string()).collect()
}

fn col(name: &str, family: ColumnTypeFamily, arity: ColumnArity) -> Column {
    Column { name: name.to_string(), family, arity, default: None, auto_increment: false }
}

fn number(name: &str) -> Column {
    col(name, ColumnTypeFamily::Int, ColumnArity::Required)
}

fn key(columns: &[&str], table: &str, referenced: &[&str]) -> ForeignKey {
    ForeignKey {
        columns: strings(columns),
        referenced_table: table.to_string(),
        referenced_columns: strings(referenced),
        on_delete_action: ForeignKeyAction::NoAction,
    }
}

fn on(columns: &[&str], unique: bool) -> Index {
    Index { columns: strings(columns), unique }
}

fn plain_table(name: &str, columns: Vec<Column>) -> Table {
    Table {
        name: name.to_string(),
        columns,
        foreign_keys: vec![],
        indices: vec![],
        primary_key: None,
    }
}

fn scalar(name: &str) -> Field {
    Field {
        name: name.to_string(),
        arity: FieldArity::Required,
        field_type: FieldType::Base(ScalarType::Int),
        default_value: None,
        is_unique: false,
        is_id: false,
        columns: strings(&[name]),
        is_commented_out: false,
    }
}

fn relation(name: &str, to: &str, relation: &str, columns: &[&str]) -> Field {
    Field {
        name: name.to_string(),
        arity: FieldArity::Required,
        field_type: FieldType::Relation(RelationInfo {
            to: to.to_string(),
            to_fields: strings(&["id"]),
            name: relation.to_string(),
            on_delete: OnDeleteStrategy::Unset,
        }),
        default_value: None,
        is_unique: false,
        is_id: false,
        columns: strings(columns),
        is_commented_out: false,
    }
}

#[test]
fn scalar_types_follow_the_column_types() {
    let table = plain_table("T", vec![]);
    let cases = [
        (ColumnTypeFamily::Int, FieldType::Base(ScalarType::Int)),
        (ColumnTypeFamily::Float, FieldType::Base(ScalarType::Float)),
        (ColumnTypeFamily::Boolean, FieldType::Base(ScalarType::Boolean)),
        (ColumnTypeFamily::Text, FieldType::Base(ScalarType::Text)),
        (ColumnTypeFamily::DateTime, FieldType::Base(ScalarType::DateTime)),
        (ColumnTypeFamily::Enum("mood".to_string()), FieldType::Enum("mood".to_string())),
        (
            ColumnTypeFamily::Unsupported("point".to_string()),
            FieldType::Unsupported("point".to_string()),
        ),
    ];
    for (family, expected) in cases {
        let field = calculate_scalar_field(&table, &col("c", family, ColumnArity::Required));
        assert_eq!(field.field_type, expected);
        assert_eq!(field.name, "c");
        assert_eq!(field.columns, strings(&["c"]));
        assert!(!field.is_commented_out);
    }
}

#[test]
fn scalar_arity_follows_the_column() {
    let table = plain_table("T", vec![]);
    let cases = [
        (ColumnArity::Required, FieldArity::Required),
        (ColumnArity::Nullable, FieldArity::Optional),
        (ColumnArity::List, FieldArity::List),
    ];
    for (arity, expected) in cases {
        let field = calculate_scalar_field(&table, &col("c", ColumnTypeFamily::Int, arity));
        assert_eq!(field.arity, expected);
    }
}

#[test]
fn scalar_defaults() {
    let table = plain_table("T", vec![]);
    let mut column = number("c");
    assert_eq!(calculate_scalar_field(&table, &column).default_value, None);
    column.default = Some("42".to_string());
    assert_eq!(
        calculate_scalar_field(&table, &column).default_value,
        Some(DefaultValue::Expression("42".to_string()))
    );
    column.auto_increment = true;
    assert_eq!(
        calculate_scalar_field(&table, &column).default_value,
        Some(DefaultValue::Autoincrement)
    );
    column.arity = ColumnArity::List;
    assert_eq!(calculate_scalar_field(&table, &column).default_value, None);
}

#[test]
fn a_scalar_is_unique_where_a_unique_index_is_on_it_alone() {
    let mut table = plain_table("T", vec![number("a"), number("b")]);
    table.indices = vec![on(&["a", "b"], true), on(&["b"], false)];
    assert!(!calculate_scalar_field(&table, &number("a")).is_unique);
    assert!(!calculate_scalar_field(&table, &number("b")).is_unique);
    table.indices.push(on(&["b"], true));
    assert!(calculate_scalar_field(&table, &number("b")).is_unique);
    assert!(!calculate_scalar_field(&table, &number("a")).is_unique);
}

#[test]
fn a_scalar_is_the_id_where_it_alone_is_the_primary_key() {
    let mut table = plain_table("T", vec![number("a"), number("b")]);
    assert!(!calculate_scalar_field(&table, &number("a")).is_id);
    table.primary_key = Some(strings(&["a"]));
    assert!(calculate_scalar_field(&table, &number("a")).is_id);
    assert!(!calculate_scalar_field(&table, &number("b")).is_id);
    table.primary_key = Some(strings(&["a", "b"]));
    assert!(!calculate_scalar_field(&table, &number("a")).is_id);
    table.indices = vec![on(&["a"], true)];
    table.primary_key = Some(strings(&["a"]));
    let field = calculate_scalar_field(&table, &number("a"));
    assert!(field.is_id && field.is_unique);
}

#[test]
fn columns_of_foreign_keys_get_no_scalar_field() {
    let mut table = plain_table("Post", vec![number("id"), number("a"), number("b"), number("c")]);
    table.foreign_keys = vec![key(&["a", "c"], "User", &["x", "y"])];
    let fields = calculate_scalar_fields(&table);
    let names: Vec<&str> = fields.iter().map(|f| f.name.as_str()).collect();
    assert_eq!(names, vec!["id", "b"]);
}

fn two_tables() -> Vec<Table> {
    let mut post = plain_table(
        "Post",
        vec![
            number("id"),
            number("a"),
            col("b", ColumnTypeFamily::Int, ColumnArity::Nullable),
            number("c"),
            col("d", ColumnTypeFamily::Int, ColumnArity::List),
        ],
    );
    post.foreign_keys = vec![
        key(&["a"], "User", &["id"]),
        key(&["a", "b"], "User", &["id", "x"]),
        key(&["c", "a"], "User", &["id", "x"]),
        key(&["b"], "Post", &["id"]),
        key(&["a", "c"], "Post", &["id", "a"]),
        key(&["d"], "Post", &["id"]),
    ];
    vec![post, plain_table("User", vec![number("id"), number("x")])]
}

#[test]
fn relation_fields_are_named_after_columns_or_models() {
    let tables = two_tables();
    let names: Vec<String> = (0..5)
        .map(|k| calculate_relation_field(&tables, &tables[0], k).unwrap().name)
        .collect();
    assert_eq!(names, strings(&["a", "user_a", "user_c", "b", "post"]));
}

#[test]
fn relation_fields_are_required_where_all_their_columns_are() {
    let tables = two_tables();
    let arities: Vec<FieldArity> = (0..6)
        .map(|k| calculate_relation_field(&tables, &tables[0], k).unwrap().arity)
        .collect();
    assert_eq!(
        arities,
        vec![
            FieldArity::Required,
            FieldArity::Optional,
            FieldArity::Required,
            FieldArity::Optional,
            FieldArity::Required,
            FieldArity::Optional,
        ]
    );
}

#[test]
fn relations_are_named_by_column_where_the_default_is_ambiguous() {
    let tables = two_tables();
    let names: Vec<String> = (0..5)
        .map(|k| match calculate_relation_field(&tables, &tables[0], k).unwrap().field_type {
            FieldType::Relation(info) => info.name,
            _ => unreachable!(),
        })
        .collect();
    assert_eq!(
        names,
        strings(&[
            "Post_aToUser",
            "Post_aToUser",
            "Post_cToUser",
            "PostToPost_b",
            "PostToPost_a",
        ])
    );
    let mut single = two_tables();
    single[0].foreign_keys.truncate(1);
    let field = calculate_relation_field(&single, &single[0], 0).unwrap();
    assert_eq!(field, relation("a", "User", "PostToUser", &["a"]));
    single[1].foreign_keys = vec![key(&["x"], "Post", &["id"])];
    let there = calculate_relation_field(&single, &single[0], 0).unwrap();
    let back = calculate_relation_field(&single, &single[1], 0).unwrap();
    assert_eq!(there, relation("a", "User", "Post_aToUser", &["a"]));
    assert_eq!(back, relation("x", "Post", "PostToUser_x", &["x"]));
}

#[test]
fn the_relation_field_of_the_primary_key_is_the_id() {
    let mut tables = two_tables();
    tables[0].primary_key = Some(strings(&["a"]));
    assert!(calculate_relation_field(&tables, &tables[0], 0).unwrap().is_id);
    assert!(!calculate_relation_field(&tables, &tables[0], 1).unwrap().is_id);
    assert!(!calculate_relation_field(&tables, &tables[0], 3).unwrap().is_id);
}

#[test]
fn unsound_foreign_keys_fail() {
    let mut tables = two_tables();
    tables[0].foreign_keys = vec![
        key(&[], "User", &[]),
        key(&["a"], "User", &[]),
        key(&["zz"], "User", &["id"]),
        key(&["a"], "Nowhere", &["id"]),
        key(&["a"], "_Migration", &["id"]),
    ];
    tables.push(plain_table("_Migration", vec![number("id")]));
    for k in 0..5 {
        let error = calculate_relation_field(&tables, &tables[0], k).unwrap_err();
        assert_eq!(error.kind, ErrorKind::InvariantViolation);
        assert_eq!(error.table, "Post");
        assert_eq!(error.columns, tables[0].foreign_keys[k].columns);
    }
    let error = calculate_relation_fields(&tables, &tables[0]).unwrap_err();
    assert_eq!(error.columns, strings(&[]));
    assert!(calculate_table_model(&tables, &tables[0]).is_err());
    assert!(calculate_table_models(&tables).is_err());
}

#[test]
fn only_tables_that_become_models_are_found() {
    let tables = vec![
        plain_table("_Migration", vec![]),
        plain_table("User", vec![number("a")]),
        plain_table("User", vec![number("b")]),
    ];
    assert_eq!(find_modelled_table(&tables, &"User".to_string()), Some(1));
    assert_eq!(find_modelled_table(&tables, &"_Migration".to_string()), None);
    assert_eq!(find_modelled_table(&tables, &"Post".to_string()), None);
}

#[test]
fn far_ends() {
    let mut table = plain_table("Post", vec![number("id"), number("a"), number("b")]);
    table.indices = vec![on(&["b", "a"], true)];
    let cases = [
        (FieldArity::Required, &["a"][..], FieldArity::List),
        (FieldArity::Optional, &["a"][..], FieldArity::List),
        (FieldArity::Required, &["a", "b"][..], FieldArity::Optional),
        (FieldArity::List, &["a"][..], FieldArity::Optional),
    ];
    for (arity, columns, expected) in cases {
        let mut forward = relation("author", "User", "PostToUser", columns);
        forward.arity = arity;
        let info = match &forward.field_type {
            FieldType::Relation(info) => info.clone(),
            _ => unreachable!(),
        };
        let far = calculate_backrelation_field(&table, &forward, &info);
        assert_eq!(far.name, "Post");
        assert_eq!(far.arity, expected);
        assert_eq!(
            far.field_type,
            FieldType::Relation(RelationInfo {
                to: "Post".to_string(),
                to_fields: vec![],
                name: "PostToUser".to_string(),
                on_delete: OnDeleteStrategy::Unset,
            })
        );
        assert_eq!(far.columns, strings(&[]));
        assert!(!far.is_id && !far.is_unique && far.default_value.is_none());
    }
}

#[test]
fn the_far_end_of_a_field_named_like_its_model() {
    let table = plain_table("Post", vec![number("Post")]);
    let forward = relation("Post", "Post", "PostToPost_Post", &["Post"]);
    let info = match &forward.field_type {
        FieldType::Relation(info) => info.clone(),
        _ => unreachable!(),
    };
    assert_eq!(calculate_backrelation_field(&table, &forward, &info).name, "other_Post");
    let elsewhere = relation("Post", "User", "PostToUser", &["Post"]);
    let info = match &elsewhere.field_type {
        FieldType::Relation(info) => info.clone(),
        _ => unreachable!(),
    };
    assert_eq!(calculate_backrelation_field(&table, &elsewhere, &info).name, "Post");
}

#[test]
fn list_fields_of_join_tables() {
    let fk = key(&["A"], "Post", &["id"]);
    let field = calculate_many_to_many_field(&fk, "PostToUser".to_string(), false);
    let mut expected = relation("Post", "Post", "PostToUser", &[]);
    expected.arity = FieldArity::List;
    assert_eq!(field, expected);
    let own = calculate_many_to_many_field(&fk, "Friends".to_string(), true);
    assert_eq!(own.name, "Post_A");
    let keyless = key(&[], "Post", &[]);
    assert_eq!(calculate_many_to_many_field(&keyless, "R".to_string(), false).name, "Post");
}

#[test]
fn the_decision_on_an_index() {
    assert_eq!(decide_index(true, true, true), IndexAction::Drop);
    assert_eq!(decide_index(true, false, true), IndexAction::Drop);
    assert_eq!(decide_index(true, true, false), IndexAction::Keep);
    assert_eq!(decide_index(true, false, false), IndexAction::KeepNamed);
    assert_eq!(decide_index(false, true, true), IndexAction::Drop);
    assert_eq!(decide_index(false, false, true), IndexAction::Keep);
    assert_eq!(decide_index(false, true, false), IndexAction::Keep);
    assert_eq!(decide_index(false, false, false), IndexAction::Keep);
}

fn indexed() -> (Table, Vec<Field>) {
    let mut table =
        plain_table("Post", vec![number("id"), number("a"), number("b"), number("c"), number("d")]);
    table.foreign_keys = vec![key(&["a"], "User", &["id"]), key(&["b", "c"], "User", &["x", "y"])];
    let fields = vec![
        scalar("id"),
        scalar("d"),
        relation("a", "User", "Post_aToUser", &["a"]),
        relation("user", "User", "Post_bToUser", &["b", "c"]),
    ];
    (table, fields)
}

#[test]
fn indices_are_reconciled_with_the_fields() {
    let (mut table, fields) = indexed();
    table.indices = vec![
        on(&["a"], true),
        on(&["c", "b"], true),
        on(&["a"], false),
        on(&["c", "b"], false),
        on(&["d"], true),
        on(&["d", "id"], true),
        on(&["d"], false),
        on(&["d", "id"], false),
        on(&["a", "d"], true),
    ];
    let declared = calculate_indices(&table, &fields).unwrap();
    assert_eq!(
        declared,
        vec![
            IndexDefinition { name: None, columns: strings(&["a"]), unique: false },
            IndexDefinition {
                name: Some("user".to_string()),
                columns: strings(&["c", "b"]),
                unique: false
            },
            IndexDefinition { name: None, columns: strings(&["d", "id"]), unique: true },
            IndexDefinition { name: None, columns: strings(&["d"]), unique: false },
            IndexDefinition { name: None, columns: strings(&["d", "id"]), unique: false },
            IndexDefinition { name: None, columns: strings(&["a", "d"]), unique: true },
        ]
    );
    assert_eq!(reconcile_index(&table, &fields, &on(&["a"], true)).unwrap(), None);
    assert_eq!(
        reconcile_index(&table, &fields, &on(&["id"], false)).unwrap(),
        Some(calculate_index(&on(&["id"], false)))
    );
}

#[test]
fn a_compound_index_without_its_relation_field_fails() {
    let (mut table, mut fields) = indexed();
    fields.pop();
    table.indices = vec![on(&["a"], false), on(&["b", "c"], false), on(&["d"], false)];
    let error = calculate_indices(&table, &fields).unwrap_err();
    assert_eq!(error.kind, ErrorKind::UnattributedCompoundIndex);
    assert_eq!(error.table, "Post");
    assert_eq!(error.columns, strings(&["b", "c"]));
    assert_eq!(error.message(), "no relation field for compound index on table Post");
    let scalar_only = vec![Field { columns: strings(&["b", "c"]), ..scalar("bc") }];
    assert!(calculate_indices(&table, &scalar_only).is_err());
}

#[test]
fn index_declarations() {
    let index = on(&["a", "b"], true);
    assert_eq!(
        calculate_index(&index),
        IndexDefinition { name: None, columns: strings(&["a", "b"]), unique: true }
    );
    assert_eq!(
        calculate_compound_index(&index, "user".to_string()),
        IndexDefinition {
            name: Some("user".to_string()),
            columns: strings(&["a", "b"]),
            unique: false
        }
    );
}

#[test]
fn column_lists_match_as_sets() {
    assert!(columns_match_exec(&strings(&["a", "b"]), &strings(&["b", "a"])));
    assert!(columns_match_exec(&strings(&[]), &strings(&[])));
    assert!(!columns_match_exec(&strings(&["a"]), &strings(&["a", "a"])));
    assert!(!columns_match_exec(&strings(&["a", "a"]), &strings(&["a", "b"])));
    assert!(!columns_match_exec(&strings(&["a", "b"]), &strings(&["a", "c"])));
    assert!(names_contain(&strings(&["a", "b"]), &"b".to_string()));
    assert!(!names_contain(&strings(&["a", "b"]), &"c".to_string()));
    assert_eq!(clone_names(&strings(&["a", "b"])), strings(&["a", "b"]));
}

#[test]
fn table_lookups() {
    let (mut table, _) = indexed();
    table.indices = vec![on(&["a"], true), on(&["b", "c"], true), on(&["d"], false)];
    assert_eq!(table.find_column(&"b".to_string()), Some(2));
    assert_eq!(table.find_column(&"z".to_string()), None);
    assert!(table.is_foreign_key_column(&"c".to_string()));
    assert!(!table.is_foreign_key_column(&"d".to_string()));
    assert!(table.is_column_unique(&"a".to_string()));
    assert!(!table.is_column_unique(&"b".to_string()));
    assert!(!table.is_column_unique(&"d".to_string()));
    assert!(table.has_unique_index_on(&strings(&["c", "b"])));
    assert!(!table.has_unique_index_on(&strings(&["d"])));
    assert!(table.has_foreign_key_on(&strings(&["c", "b"])));
    assert!(!table.has_foreign_key_on(&strings(&["b"])));
}

#[test]
fn the_model_of_a_table() {
    let mut tables = two_tables();
    tables[0].foreign_keys.truncate(1);
    tables[0].primary_key = Some(strings(&["id", "c"]));
    tables[0].indices = vec![on(&["id"], false)];
    let model = calculate_table_model(&tables, &tables[0]).unwrap();
    assert_eq!(model.name, "Post");
    let names: Vec<&str> = model.fields.iter().map(|f| f.name.as_str()).collect();
    assert_eq!(names, vec!["id", "b", "c", "d", "a"]);
    assert_eq!(model.id_fields, strings(&["id", "c"]));
    assert_eq!(
        model.indices,
        vec![IndexDefinition { name: None, columns: strings(&["id"]), unique: false }]
    );
    assert!(!model.is_commented_out);
    let (models, origins) = calculate_table_models(&tables).unwrap();
    assert_eq!(models.len(), 2);
    assert_eq!(origins, vec![0, 1]);
    assert_eq!(models[0], model);
    assert_eq!(Model::new("User".to_string()).fields, vec![]);
}

#[test]
fn the_far_ends_that_a_model_lacks() {
    let mut tables = two_tables();
    tables[0].foreign_keys.truncate(1);
    let (models, _) = calculate_table_models(&tables).unwrap();
    let pending = calculate_model_backrelations(&tables[0], &models, 0);
    assert_eq!(pending.len(), 1);
    assert_eq!(pending[0].model, "User");
    assert_eq!(pending[0].field.name, "Post");
    assert_eq!(calculate_model_backrelations(&tables[1], &models, 1), vec![]);
    let mut both = models;
    both[1].fields.push(Field {
        arity: FieldArity::List,
        ..relation("posts", "Post", "PostToUser", &[])
    });
    assert_eq!(calculate_model_backrelations(&tables[0], &both, 0), vec![]);
    let with_far_end = Datamodel { models: both, enums: vec![] };
    assert_eq!(with_far_end.find_model(&"User".to_string()), Some(1));
    assert_eq!(with_far_end.find_model(&"Nobody".to_string()), None);
    let (post, user, name) = ("Post".to_string(), "User".to_string(), "PostToUser".to_string());
    assert!(with_far_end.related_field(&post, &user, &name, &"a".to_string()));
    assert!(!with_far_end.related_field(&post, &user, &"Other".to_string(), &"a".to_string()));
    assert!(with_far_end.related_field(&user, &post, &name, &"posts".to_string()));
    assert!(!with_far_end.related_field(&post, &post, &name, &"a".to_string()));
}

#[test]
fn a_field_is_not_its_own_far_end() {
    let own = relation("boss", "User", "UserToUser_boss", &["boss"]);
    let model = Model {
        name: "User".to_string(),
        fields: vec![own],
        id_fields: vec![],
        indices: vec![],
        is_commented_out: false,
    };
    let (user, name) = ("User".to_string(), "UserToUser_boss".to_string());
    assert!(!model.has_related_field(&user, &name, &"boss".to_string()));
    assert!(model.has_related_field(&user, &name, &"other".to_string()));
    assert!(model.has_related_field(&"Team".to_string(), &name, &"boss".to_string()) == false);
}

fn pending(model: &str, name: &str, relation_name: &str) -> PendingField {
    PendingField { model: model.to_string(), field: relation(name, "Post", relation_name, &[]) }
}

#[test]
fn fields_that_share_model_and_name_get_the_relation_name() {
    let mut fields = vec![
        pending("User", "Post", "Post_aToUser"),
        pending("Team", "Post", "PostToTeam"),
        pending("User", "Post", "Post_bToUser"),
        pending("User", "Posts", "Other"),
        PendingField { model: "Team".to_string(), field: scalar("Post") },
    ];
    deduplicate_names_of_fields_to_be_added(&mut fields);
    let names: Vec<&str> = fields.iter().map(|p| p.field.name.as_str()).collect();
    assert_eq!(
        names,
        vec!["Post_Post_aToUser", "Post_PostToTeam", "Post_Post_bToUser", "Posts", "Post"]
    );
    let models: Vec<&str> = fields.iter().map(|p| p.model.as_str()).collect();
    assert_eq!(models, vec!["User", "Team", "User", "User", "Team"]);
    let mut none: Vec<PendingField> = vec![];
    deduplicate_names_of_fields_to_be_added(&mut none);
    assert_eq!(none, vec![]);
}

#[test]
fn fresh_names_are_numbered_from_two() {
    let used = strings(&["Post", "Post_2", "Post_3", "User", "Post_5"]);
    assert_eq!(find_fresh_name("Team".to_string(), &used), "Team");
    assert_eq!(find_fresh_name("User".to_string(), &used), "User_2");
    assert_eq!(find_fresh_name("Post".to_string(), &used), "Post_4");
    assert_eq!(find_fresh_name("Post_2".to_string(), &used), "Post_2_2");
    assert_eq!(find_fresh_name("".to_string(), &strings(&[""])), "_2");
    let mut many = vec!["x".to_string()];
    for k in 2..=120 {
        many.push(format!("x_{}", k));
    }
    assert_eq!(find_fresh_name("x".to_string(), &many), "x_121");
}

#[test]
fn added_fields_never_take_a_name_in_use() {
    let used = strings(&["id", "Post", "Post_2"]);
    let extra = vec![scalar("Post"), scalar("id"), scalar("Post"), scalar("name"), scalar("id_2")];
    let renamed = disambiguate_fields(&used, extra);
    let names: Vec<&str> = renamed.iter().map(|f| f.name.as_str()).collect();
    assert_eq!(names, vec!["Post_3", "id_2", "Post_4", "name", "id_2_2"]);
    assert_eq!(renamed[0].columns, strings(&["Post"]));
}

#[test]
fn the_fields_for_a_model() {
    let fields = vec![
        pending("User", "a", "R"),
        pending("Team", "b", "R"),
        pending("User", "c", "R"),
    ];
    let chosen = select_fields_for(&fields, &"User".to_string());
    let names: Vec<&str> = chosen.iter().map(|f| f.name.as_str()).collect();
    assert_eq!(names, vec!["a", "c"]);
    assert_eq!(select_fields_for(&fields, &"Post".to_string()), vec![]);
}

#[test]
fn sanitizing_a_field_and_an_index() {
    let mut field = relation("user-id", "my user", "1-to-n", &["user-id"]);
    if let FieldType::Relation(info) = &mut field.field_type {
        info.to_fields = strings(&["the id"]);
    }
    let mut expected = relation("user_id", "my_user", "to_n", &["user-id"]);
    if let FieldType::Relation(info) = &mut expected.field_type {
        info.to_fields = strings(&["the_id"]);
    }
    assert_eq!(sanitize_field(&field), expected);
    let of_enum = Field { field_type: FieldType::Enum("my-mood".to_string()), ..scalar("m") };
    assert_eq!(sanitize_field(&of_enum).field_type, FieldType::Enum("my_mood".to_string()));
    let unsupported =
        Field { field_type: FieldType::Unsupported("geo point".to_string()), ..scalar("p") };
    assert_eq!(
        sanitize_field(&unsupported).field_type,
        FieldType::Unsupported("geo point".to_string())
    );
    let index = IndexDefinition {
        name: Some("my-user".to_string()),
        columns: strings(&["a-b", "c"]),
        unique: true,
    };
    assert_eq!(
        sanitize_index(&index),
        IndexDefinition {
            name: Some("my_user".to_string()),
            columns: strings(&["a_b", "c"]),
            unique: true
        }
    );
    assert_eq!(sanitize_names(&strings(&["a-b", "1", "model"])), strings(&["a_b", "", "model_"]));
}

#[test]
fn assembling_a_model() {
    let model = Model {
        name: "blog-post".to_string(),
        fields: vec![scalar("id"), scalar("user-id"), scalar("user_id")],
        id_fields: strings(&["id", "user-id"]),
        indices: vec![IndexDefinition { name: None, columns: strings(&["user-id"]), unique: false }],
        is_commented_out: false,
    };
    let extra = vec![relation("user id", "User", "R", &[]), relation("User", "User", "S", &[])];
    let assembled = assemble_model(&model, &extra);
    assert_eq!(assembled.name, "blog_post");
    let names: Vec<&str> = assembled.fields.iter().map(|f| f.name.as_str()).collect();
    assert_eq!(names, vec!["id", "user_id", "user_id", "user_id_2", "User"]);
    assert_eq!(assembled.id_fields, strings(&["id", "user_id"]));
    assert_eq!(assembled.indices[0].columns, strings(&["user_id"]));
}

#[test]
fn guarding_marks_and_keeps() {
    let model = Model {
        name: "".to_string(),
        fields: vec![
            scalar("id"),
            scalar(""),
            Field { field_type: FieldType::Unsupported("point".to_string()), ..scalar("at") },
            Field { is_commented_out: true, ..scalar("fine") },
        ],
        id_fields: strings(&["id"]),
        indices: vec![IndexDefinition {
            name: Some("n".to_string()),
            columns: strings(&["id"]),
            unique: true,
        }],
        is_commented_out: false,
    };
    let guarded = guard_model(&model);
    assert!(guarded.is_commented_out);
    let marks: Vec<bool> = guarded.fields.iter().map(|f| f.is_commented_out).collect();
    assert_eq!(marks, vec![false, true, true, false]);
    assert_eq!(guarded.id_fields, model.id_fields);
    assert_eq!(guarded.indices, model.indices);
    let named = Model { name: "User".to_string(), is_commented_out: true, ..guard_model(&model) };
    let mut datamodel = Datamodel {
        models: vec![named],
        enums: vec![Enum { name: "mood".to_string(), values: strings(&["happy"]) }],
    };
    commenting_out_guardrails(&mut datamodel);
    assert!(!datamodel.models[0].is_commented_out);
    assert_eq!(datamodel.models[0].fields.len(), 4);
    assert_eq!(datamodel.enums[0].values, strings(&["happy"]));
}

#[test]
fn join_tables_that_reference_unknown_tables_fail_in_table_order() {
    let join = |name: &str, a: &str, b: &str| Table {
        name: name.to_string(),
        columns: vec![number("A"), number("B")],
        foreign_keys: vec![key(&["A"], a, &["id"]), key(&["B"], b, &["id"])],
        indices: vec![on(&["A", "B"], true), on(&["B"], false)],
        primary_key: None,
    };
    let tables = vec![
        plain_table("Post", vec![number("id")]),
        join("_One", "Post", "Post"),
        join("_Two", "Nobody", "Post"),
        join("_Three", "Post", "Unknown"),
    ];
    let error = calculate_many_to_many_fields(&tables).unwrap_err();
    assert_eq!(error.table, "_Two");
    assert_eq!(error.columns, strings(&["A"]));
    let fine = calculate_many_to_many_fields(&tables[..2].to_vec()).unwrap();
    let names: Vec<&str> = fine.iter().map(|p| p.field.name.as_str()).collect();
    assert_eq!(names, vec!["Post_A", "Post_B"]);
    assert_eq!(fine[0].model, "Post");
}
