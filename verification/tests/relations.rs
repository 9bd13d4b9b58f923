use sql_introspection::calculate_datamodel::calculate_model;
use sql_introspection::datamodel::{
    Datamodel, DefaultValue, Field, FieldArity, FieldType, IndexDefinition, Model,
    OnDeleteStrategy, RelationInfo, ScalarType,
};
use sql_introspection::error::ErrorKind;
use sql_introspection::schema::{
    Column, ColumnArity, ColumnTypeFamily, ForeignKey, ForeignKeyAction, Index, SqlSchema,
    Table,
};

fn names(items: &[&str]) -> Vec<String> {
    items.iter().map(|s| s.to_string()).collect()
}

fn column(name: &str, family: ColumnTypeFamily, arity: ColumnArity) -> Column {
    Column { name: name.to_string(), family, arity, default: None, auto_increment: false }
}

fn integer(name: &str) -> Column {
    column(name, ColumnTypeFamily::Int, ColumnArity::Required)
}

fn nullable_int(name: &str) -> Column {
    column(name, ColumnTypeFamily::Int, ColumnArity::Nullable)
}

fn serial(name: &str) -> Column {
    Column {
        name: name.to_string(),
        family: ColumnTypeFamily::Int,
        arity: ColumnArity::Required,
        default: None,
        auto_increment: true,
    }
}

fn foreign_key(columns: &[&str], table: &str, referenced: &[&str]) -> ForeignKey {
    ForeignKey {
        columns: names(columns),
        referenced_table: table.to_string(),
        referenced_columns: names(referenced),
        on_delete_action: ForeignKeyAction::NoAction,
    }
}

fn index(columns: &[&str], unique: bool) -> Index {
    Index { columns: names(columns), unique }
}

fn table(
    name: &str,
    columns: Vec<Column>,
    foreign_keys: Vec<ForeignKey>,
    indices: Vec<Index>,
    primary_key: Option<&[&str]>,
) -> Table {
    Table {
        name: name.to_string(),
        columns,
        foreign_keys,
        indices,
        primary_key: primary_key.map(names),
    }
}

fn with_id(name: &str) -> Table {
    table(name, vec![serial("id")], vec![], vec![], Some(&["id"]))
}

fn schema(tables: Vec<Table>) -> SqlSchema {
    SqlSchema { tables, enums: vec![] }
}

fn id_field() -> Field {
    Field {
        name: "id".to_string(),
        arity: FieldArity::Required,
        field_type: FieldType::Base(ScalarType::Int),
        default_value: Some(DefaultValue::Autoincrement),
        is_unique: false,
        is_id: true,
        columns: names(&["id"]),
        is_commented_out: false,
    }
}

fn forward(
    name: &str,
    arity: FieldArity,
    to: &str,
    to_fields: &[&str],
    relation: &str,
    columns: &[&str],
) -> Field {
    Field {
        name: name.to_string(),
        arity,
        field_type: FieldType::Relation(RelationInfo {
            to: to.to_string(),
            to_fields: names(to_fields),
            name: relation.to_string(),
            on_delete: OnDeleteStrategy::Unset,
        }),
        default_value: None,
        is_unique: false,
        is_id: false,
        columns: names(columns),
        is_commented_out: false,
    }
}

fn back(name: &str, arity: FieldArity, to: &str, relation: &str) -> Field {
    forward(name, arity, to, &[], relation, &[])
}

fn model(name: &str, fields: Vec<Field>) -> Model {
    Model {
        name: name.to_string(),
        fields,
        id_fields: vec![],
        indices: vec![],
        is_commented_out: false,
    }
}

fn datamodel(models: Vec<Model>) -> Datamodel {
    Datamodel { models, enums: vec![] }
}

fn post_with_user_id(user_id: Column, indices: Vec<Index>) -> Table {
    table(
        "Post",
        vec![serial("id"), user_id],
        vec![foreign_key(&["user_id"], "User", &["id"])],
        indices,
        Some(&["id"]),
    )
}

#[test]
fn introspecting_a_one_to_one_req_relation_should_work() {
    let input = schema(vec![
        post_with_user_id(integer("user_id"), vec![index(&["user_id"], true)]),
        with_id("User"),
    ]);
    let expected = datamodel(vec![
        model(
            "Post",
            vec![
                id_field(),
                forward("user_id", FieldArity::Required, "User", &["id"], "PostToUser", &["user_id"]),
            ],
        ),
        model("User", vec![id_field(), back("Post", FieldArity::Optional, "Post", "PostToUser")]),
    ]);
    assert_eq!(calculate_model(&input).unwrap(), expected);
}

#[test]
fn introspecting_two_one_to_one_relations_between_the_same_models_should_work() {
    let input = schema(vec![
        post_with_user_id(integer("user_id"), vec![index(&["user_id"], true)]),
        table(
            "User",
            vec![serial("id"), integer("post_id")],
            vec![foreign_key(&["post_id"], "Post", &["id"])],
            vec![index(&["post_id"], true)],
            Some(&["id"]),
        ),
    ]);
    let expected = datamodel(vec![
        model(
            "Post",
            vec![
                id_field(),
                forward(
                    "user_id",
                    FieldArity::Required,
                    "User",
                    &["id"],
                    "Post_user_idToUser",
                    &["user_id"],
                ),
                back("User", FieldArity::Optional, "User", "PostToUser_post_id"),
            ],
        ),
        model(
            "User",
            vec![
                id_field(),
                forward(
                    "post_id",
                    FieldArity::Required,
                    "Post",
                    &["id"],
                    "PostToUser_post_id",
                    &["post_id"],
                ),
                back("Post", FieldArity::Optional, "Post", "Post_user_idToUser"),
            ],
        ),
    ]);
    assert_eq!(calculate_model(&input).unwrap(), expected);
}

#[test]
fn introspecting_a_one_to_one_relation_should_work() {
    let input = schema(vec![
        post_with_user_id(nullable_int("user_id"), vec![index(&["user_id"], true)]),
        with_id("User"),
    ]);
    let expected = datamodel(vec![
        model(
            "Post",
            vec![
                id_field(),
                forward("user_id", FieldArity::Optional, "User", &["id"], "PostToUser", &["user_id"]),
            ],
        ),
        model("User", vec![id_field(), back("Post", FieldArity::Optional, "Post", "PostToUser")]),
    ]);
    assert_eq!(calculate_model(&input).unwrap(), expected);
}

#[test]
fn introspecting_a_one_to_one_relation_referencing_non_id_should_work() {
    let input = schema(vec![
        table(
            "Post",
            vec![
                serial("id"),
                column("user_email", ColumnTypeFamily::Text, ColumnArity::Nullable),
            ],
            vec![foreign_key(&["user_email"], "User", &["email"])],
            vec![index(&["user_email"], true)],
            Some(&["id"]),
        ),
        table(
            "User",
            vec![column("email", ColumnTypeFamily::Text, ColumnArity::Nullable), serial("id")],
            vec![],
            vec![index(&["email"], true)],
            Some(&["id"]),
        ),
    ]);
    let email = Field {
        name: "email".to_string(),
        arity: FieldArity::Optional,
        field_type: FieldType::Base(ScalarType::Text),
        default_value: None,
        is_unique: true,
        is_id: false,
        columns: names(&["email"]),
        is_commented_out: false,
    };
    let expected = datamodel(vec![
        model(
            "Post",
            vec![
                id_field(),
                forward(
                    "user_email",
                    FieldArity::Optional,
                    "User",
                    &["email"],
                    "PostToUser",
                    &["user_email"],
                ),
            ],
        ),
        model(
            "User",
            vec![email, id_field(), back("Post", FieldArity::Optional, "Post", "PostToUser")],
        ),
    ]);
    assert_eq!(calculate_model(&input).unwrap(), expected);
}

#[test]
fn introspecting_a_one_to_many_relation_should_work() {
    let input = schema(vec![post_with_user_id(nullable_int("user_id"), vec![]), with_id("User")]);
    let expected = datamodel(vec![
        model(
            "Post",
            vec![
                id_field(),
                forward("user_id", FieldArity::Optional, "User", &["id"], "PostToUser", &["user_id"]),
            ],
        ),
        model("User", vec![id_field(), back("Post", FieldArity::List, "Post", "PostToUser")]),
    ]);
    assert_eq!(calculate_model(&input).unwrap(), expected);
}

#[test]
fn introspecting_a_one_req_to_many_relation_should_work() {
    let input = schema(vec![post_with_user_id(integer("user_id"), vec![]), with_id("User")]);
    let expected = datamodel(vec![
        model(
            "Post",
            vec![
                id_field(),
                forward("user_id", FieldArity::Required, "User", &["id"], "PostToUser", &["user_id"]),
            ],
        ),
        model("User", vec![id_field(), back("Post", FieldArity::List, "Post", "PostToUser")]),
    ]);
    assert_eq!(calculate_model(&input).unwrap(), expected);
}

fn join_table(name: &str, a: &str, b: &str, extra: Vec<Column>, key: Option<&[&str]>) -> Table {
    let mut columns = extra;
    columns.push(integer("a"));
    columns.push(integer("b"));
    table(
        name,
        columns,
        vec![foreign_key(&["a"], a, &["id"]), foreign_key(&["b"], b, &["id"])],
        vec![index(&["a", "b"], true), index(&["b"], false)],
        key,
    )
}

#[test]
fn introspecting_a_prisma_many_to_many_relation_should_work() {
    let input = schema(vec![
        with_id("Post"),
        with_id("User"),
        join_table("_PostToUser", "Post", "User", vec![], None),
    ]);
    let expected = datamodel(vec![
        model(
            "Post",
            vec![id_field(), forward("User", FieldArity::List, "User", &["id"], "PostToUser", &[])],
        ),
        model(
            "User",
            vec![id_field(), forward("Post", FieldArity::List, "Post", &["id"], "PostToUser", &[])],
        ),
    ]);
    assert_eq!(calculate_model(&input).unwrap(), expected);
}

#[test]
fn introspecting_a_many_to_many_relation_with_an_id_should_work() {
    let input = schema(vec![
        with_id("Post"),
        table(
            "PostsToUsers",
            vec![integer("id"), integer("post_id"), integer("user_id")],
            vec![
                foreign_key(&["post_id"], "Post", &["id"]),
                foreign_key(&["user_id"], "User", &["id"]),
            ],
            vec![],
            Some(&["id"]),
        ),
        with_id("User"),
    ]);
    let plain_id = Field { default_value: None, ..id_field() };
    let expected = datamodel(vec![
        model(
            "Post",
            vec![
                id_field(),
                back("PostsToUsers", FieldArity::List, "PostsToUsers", "PostToPostsToUsers"),
            ],
        ),
        model(
            "PostsToUsers",
            vec![
                plain_id,
                forward(
                    "post_id",
                    FieldArity::Required,
                    "Post",
                    &["id"],
                    "PostToPostsToUsers",
                    &["post_id"],
                ),
                forward(
                    "user_id",
                    FieldArity::Required,
                    "User",
                    &["id"],
                    "PostsToUsersToUser",
                    &["user_id"],
                ),
            ],
        ),
        model(
            "User",
            vec![
                id_field(),
                back("PostsToUsers", FieldArity::List, "PostsToUsers", "PostsToUsersToUser"),
            ],
        ),
    ]);
    assert_eq!(calculate_model(&input).unwrap(), expected);
}

#[test]
fn introspecting_a_self_relation_should_work() {
    let input = schema(vec![table(
        "User",
        vec![serial("id"), nullable_int("direct_report"), nullable_int("recruited_by")],
        vec![
            foreign_key(&["direct_report"], "User", &["id"]),
            foreign_key(&["recruited_by"], "User", &["id"]),
        ],
        vec![],
        Some(&["id"]),
    )]);
    let expected = datamodel(vec![model(
        "User",
        vec![
            id_field(),
            forward(
                "direct_report",
                FieldArity::Optional,
                "User",
                &["id"],
                "UserToUser_direct_report",
                &["direct_report"],
            ),
            forward(
                "recruited_by",
                FieldArity::Optional,
                "User",
                &["id"],
                "UserToUser_recruited_by",
                &["recruited_by"],
            ),
            back(
                "User_UserToUser_direct_report",
                FieldArity::List,
                "User",
                "UserToUser_direct_report",
            ),
            back(
                "User_UserToUser_recruited_by",
                FieldArity::List,
                "User",
                "UserToUser_recruited_by",
            ),
        ],
    )]);
    assert_eq!(calculate_model(&input).unwrap(), expected);
}

#[test]
fn introspecting_cascading_delete_behaviour_should_work() {
    let mut post = post_with_user_id(nullable_int("user_id"), vec![]);
    post.foreign_keys[0].on_delete_action = ForeignKeyAction::Cascade;
    let result = calculate_model(&schema(vec![post, with_id("User")])).unwrap();
    assert_eq!(
        result.models[0].fields[1],
        forward("user_id", FieldArity::Optional, "User", &["id"], "PostToUser", &["user_id"])
    );
    assert_eq!(result.models[1].fields[1], back("Post", FieldArity::List, "Post", "PostToUser"));
}

#[test]
fn introspecting_default_values_on_relations_should_be_ignored() {
    let mut user_id = nullable_int("user_id");
    user_id.default = Some("0".to_string());
    let input = schema(vec![post_with_user_id(user_id, vec![]), with_id("User")]);
    let expected = datamodel(vec![
        model(
            "Post",
            vec![
                id_field(),
                forward("user_id", FieldArity::Optional, "User", &["id"], "PostToUser", &["user_id"]),
            ],
        ),
        model("User", vec![id_field(), back("Post", FieldArity::List, "Post", "PostToUser")]),
    ]);
    assert_eq!(calculate_model(&input).unwrap(), expected);
}

#[test]
fn introspecting_default_values_on_lists_should_be_ignored() {
    let mut ints = column("ints", ColumnTypeFamily::Int, ColumnArity::List);
    ints.default = Some("array[]::Integer[]".to_string());
    let mut ints2 = column("ints2", ColumnTypeFamily::Int, ColumnArity::List);
    ints2.default = Some("'{}'".to_string());
    let input =
        schema(vec![table("User", vec![serial("id"), ints, ints2], vec![], vec![], Some(&["id"]))]);
    let list = |name: &str| Field {
        name: name.to_string(),
        arity: FieldArity::List,
        field_type: FieldType::Base(ScalarType::Int),
        default_value: None,
        is_unique: false,
        is_id: false,
        columns: names(&[name]),
        is_commented_out: false,
    };
    let expected = datamodel(vec![model("User", vec![id_field(), list("ints"), list("ints2")])]);
    assert_eq!(calculate_model(&input).unwrap(), expected);
}

#[test]
fn introspecting_id_fields_with_foreign_key_should_work() {
    let input = schema(vec![
        table(
            "Post",
            vec![column("test", ColumnTypeFamily::Text, ColumnArity::Required), integer("user_id")],
            vec![foreign_key(&["user_id"], "User", &["id"])],
            vec![],
            Some(&["user_id"]),
        ),
        with_id("User"),
    ]);
    let test = Field {
        name: "test".to_string(),
        arity: FieldArity::Required,
        field_type: FieldType::Base(ScalarType::Text),
        default_value: None,
        is_unique: false,
        is_id: false,
        columns: names(&["test"]),
        is_commented_out: false,
    };
    let user_id = Field {
        is_id: true,
        ..forward("user_id", FieldArity::Required, "User", &["id"], "PostToUser", &["user_id"])
    };
    let expected = datamodel(vec![
        model("Post", vec![test, user_id]),
        model("User", vec![id_field(), back("Post", FieldArity::List, "Post", "PostToUser")]),
    ]);
    assert_eq!(calculate_model(&input).unwrap(), expected);
}

fn char_id(name: &str) -> Table {
    table(
        name,
        vec![column("id", ColumnTypeFamily::Text, ColumnArity::Required)],
        vec![],
        vec![],
        Some(&["id"]),
    )
}

#[test]
fn introspecting_prisma_10_relations_should_work() {
    let id = column("id", ColumnTypeFamily::Text, ColumnArity::Required);
    let input = schema(vec![
        char_id("Book"),
        char_id("Royalty"),
        join_table("_BookRoyalty", "Book", "Royalty", vec![id], Some(&["id"])),
    ]);
    let text_id = Field {
        field_type: FieldType::Base(ScalarType::Text),
        default_value: None,
        ..id_field()
    };
    let expected = datamodel(vec![
        model(
            "Book",
            vec![
                text_id.clone(),
                forward("Royalty", FieldArity::List, "Royalty", &["id"], "BookRoyalty", &[]),
            ],
        ),
        model(
            "Royalty",
            vec![text_id, forward("Book", FieldArity::List, "Book", &["id"], "BookRoyalty", &[])],
        ),
    ]);
    assert_eq!(calculate_model(&input).unwrap(), expected);
}

#[test]
fn a_compound_unique_index_on_a_foreign_key_is_left_out() {
    let input = schema(vec![
        table(
            "Post",
            vec![serial("id"), integer("user_id"), integer("user_age")],
            vec![foreign_key(&["user_id", "user_age"], "User", &["id", "age"])],
            vec![index(&["user_age", "user_id"], true)],
            Some(&["id"]),
        ),
        table(
            "User",
            vec![serial("id"), integer("age")],
            vec![],
            vec![index(&["id", "age"], true)],
            Some(&["id"]),
        ),
    ]);
    let result = calculate_model(&input).unwrap();
    assert_eq!(result.models[0].indices, vec![]);
    assert_eq!(
        result.models[0].fields[1],
        forward(
            "user",
            FieldArity::Required,
            "User",
            &["id", "age"],
            "PostToUser",
            &["user_id", "user_age"]
        )
    );
    assert_eq!(result.models[1].fields[2], back("Post", FieldArity::Optional, "Post", "PostToUser"));
    assert_eq!(
        result.models[1].indices,
        vec![IndexDefinition { name: None, columns: names(&["id", "age"]), unique: true }]
    );
}

#[test]
fn a_foreign_key_to_an_unknown_table_aborts() {
    let input = schema(vec![post_with_user_id(integer("user_id"), vec![])]);
    let error = calculate_model(&input).unwrap_err();
    assert_eq!(error.kind, ErrorKind::InvariantViolation);
    assert_eq!(error.table, "Post");
    assert_eq!(error.columns, names(&["user_id"]));
    assert_eq!(error.message(), "inconsistent foreign key on table Post");
}

#[test]
fn a_foreign_key_on_an_unknown_column_aborts() {
    let input = schema(vec![
        table(
            "Post",
            vec![serial("id")],
            vec![foreign_key(&["user_id"], "User", &["id"])],
            vec![],
            Some(&["id"]),
        ),
        with_id("User"),
    ]);
    let error = calculate_model(&input).unwrap_err();
    assert_eq!(error.kind, ErrorKind::InvariantViolation);
    assert_eq!(error.table, "Post");
    assert_eq!(error.columns, names(&["user_id"]));
}

#[test]
fn a_foreign_key_without_columns_aborts() {
    let input = schema(vec![
        table("Post", vec![serial("id")], vec![foreign_key(&[], "User", &[])], vec![], None),
        with_id("User"),
    ]);
    let error = calculate_model(&input).unwrap_err();
    assert_eq!(error.kind, ErrorKind::InvariantViolation);
    assert_eq!(error.columns, names(&[]));
}

#[test]
fn a_foreign_key_with_too_few_referenced_columns_aborts() {
    let input = schema(vec![
        table(
            "Post",
            vec![serial("id"), integer("a"), integer("b")],
            vec![foreign_key(&["a", "b"], "User", &["id"])],
            vec![],
            None,
        ),
        with_id("User"),
    ]);
    let error = calculate_model(&input).unwrap_err();
    assert_eq!(error.kind, ErrorKind::InvariantViolation);
    assert_eq!(error.columns, names(&["a", "b"]));
}

#[test]
fn the_first_failure_in_table_order_is_reported() {
    let input = schema(vec![
        with_id("User"),
        table("B", vec![integer("x")], vec![foreign_key(&["x"], "Nowhere", &["id"])], vec![], None),
        table("A", vec![integer("y")], vec![foreign_key(&["z"], "User", &["id"])], vec![], None),
    ]);
    let error = calculate_model(&input).unwrap_err();
    assert_eq!(error.table, "B");
    assert_eq!(error.columns, names(&["x"]));
}

#[test]
fn a_join_table_to_an_unknown_table_aborts() {
    let input =
        schema(vec![with_id("Post"), join_table("_PostToUser", "Post", "User", vec![], None)]);
    let error = calculate_model(&input).unwrap_err();
    assert_eq!(error.kind, ErrorKind::InvariantViolation);
    assert_eq!(error.table, "_PostToUser");
    assert_eq!(error.columns, names(&["b"]));
}

#[test]
fn a_foreign_key_to_a_join_table_aborts() {
    let input = schema(vec![
        with_id("Post"),
        with_id("User"),
        join_table("_PostToUser", "Post", "User", vec![], None),
        table(
            "Note",
            vec![integer("about")],
            vec![foreign_key(&["about"], "_PostToUser", &["a"])],
            vec![],
            None,
        ),
    ]);
    let error = calculate_model(&input).unwrap_err();
    assert_eq!(error.kind, ErrorKind::InvariantViolation);
    assert_eq!(error.table, "Note");
}

#[test]
fn the_migration_table_is_left_out() {
    let input = schema(vec![
        table(
            "_Migration",
            vec![serial("revision"), column("name", ColumnTypeFamily::Text, ColumnArity::Required)],
            vec![],
            vec![],
            Some(&["revision"]),
        ),
        with_id("User"),
    ]);
    assert_eq!(calculate_model(&input).unwrap(), datamodel(vec![model("User", vec![id_field()])]));
}

#[test]
fn a_self_referencing_join_table_gives_two_named_list_fields() {
    let input = schema(vec![with_id("User"), join_table("_Friends", "User", "User", vec![], None)]);
    let expected = datamodel(vec![model(
        "User",
        vec![
            id_field(),
            forward("User_a", FieldArity::List, "User", &["id"], "Friends", &[]),
            forward("User_b", FieldArity::List, "User", &["id"], "Friends", &[]),
        ],
    )]);
    assert_eq!(calculate_model(&input).unwrap(), expected);
}

#[test]
fn a_far_end_that_takes_the_name_of_a_column_is_renamed() {
    let input = schema(vec![
        post_with_user_id(nullable_int("user_id"), vec![]),
        table(
            "User",
            vec![serial("id"), column("Post", ColumnTypeFamily::Text, ColumnArity::Nullable)],
            vec![],
            vec![],
            Some(&["id"]),
        ),
    ]);
    let result = calculate_model(&input).unwrap();
    let user = &result.models[1];
    assert_eq!(user.fields[1].name, "Post");
    assert_eq!(user.fields[2], back("Post_2", FieldArity::List, "Post", "PostToUser"));
}

#[test]
fn far_ends_that_still_collide_are_told_apart() {
    let input = schema(vec![
        table(
            "Post",
            vec![serial("id"), integer("a"), integer("b"), integer("c")],
            vec![
                foreign_key(&["a", "b"], "User", &["id", "x"]),
                foreign_key(&["a", "c"], "User", &["id", "y"]),
            ],
            vec![],
            Some(&["id"]),
        ),
        table("User", vec![serial("id"), integer("x"), integer("y")], vec![], vec![], Some(&["id"])),
    ]);
    let result = calculate_model(&input).unwrap();
    let post: Vec<&str> = result.models[0].fields.iter().map(|f| f.name.as_str()).collect();
    assert_eq!(post, vec!["id", "user_a", "user_a"]);
    let user: Vec<&str> = result.models[1].fields.iter().map(|f| f.name.as_str()).collect();
    assert_eq!(user, vec!["id", "x", "y", "Post_Post_aToUser", "Post_Post_aToUser_2"]);
}

#[test]
fn names_are_sanitized_throughout() {
    let input = SqlSchema {
        tables: vec![
            table(
                "blog-post",
                vec![serial("id"), integer("user id"), integer("1st")],
                vec![foreign_key(&["user id"], "_user", &["id"])],
                vec![index(&["1st"], false)],
                Some(&["id"]),
            ),
            with_id("_user"),
        ],
        enums: vec![sql_introspection::schema::Enum {
            name: "my-enum".to_string(),
            values: names(&["a-b"]),
        }],
    };
    let result = calculate_model(&input).unwrap();
    assert_eq!(result.models[0].name, "blog_post");
    assert_eq!(result.models[0].fields[1].name, "st");
    assert_eq!(result.models[0].fields[1].columns, names(&["1st"]));
    assert_eq!(
        result.models[0].fields[2],
        forward(
            "user_id",
            FieldArity::Required,
            "user",
            &["id"],
            "userToblog_post",
            &["user id"]
        )
    );
    assert_eq!(
        result.models[0].indices,
        vec![IndexDefinition { name: None, columns: names(&["st"]), unique: false }]
    );
    assert_eq!(result.models[1].name, "user");
    assert_eq!(
        result.models[1].fields[1],
        back("blog_post", FieldArity::List, "blog_post", "userToblog_post")
    );
    assert_eq!(result.enums[0].name, "my_enum");
    assert_eq!(result.enums[0].values, names(&["a-b"]));
}

#[test]
fn what_cannot_be_expressed_is_commented_out() {
    let input = schema(vec![
        table(
            "Place",
            vec![
                serial("id"),
                column("at", ColumnTypeFamily::Unsupported("point".to_string()), ColumnArity::Required),
                integer("123"),
            ],
            vec![],
            vec![],
            Some(&["id"]),
        ),
        with_id("__"),
    ]);
    let result = calculate_model(&input).unwrap();
    let place = &result.models[0];
    assert!(!place.is_commented_out);
    assert!(!place.fields[0].is_commented_out);
    assert!(place.fields[1].is_commented_out);
    assert_eq!(place.fields[1].field_type, FieldType::Unsupported("point".to_string()));
    assert!(place.fields[2].is_commented_out);
    assert_eq!(place.fields[2].name, "");
    assert_eq!(result.models[1].name, "");
    assert!(result.models[1].is_commented_out);
    assert!(!result.models[1].fields[0].is_commented_out);
}

#[test]
fn calculating_twice_gives_the_same_data_model() {
    let input = schema(vec![
        post_with_user_id(integer("user_id"), vec![index(&["user_id"], true)]),
        with_id("User"),
        join_table("_PostToUser", "Post", "User", vec![], None),
    ]);
    assert_eq!(calculate_model(&input), calculate_model(&input));
    assert_eq!(calculate_model(&input.clone()), calculate_model(&input));
}

#[test]
fn a_composite_primary_key_becomes_the_id_of_the_model() {
    let input = schema(vec![table(
        "Membership",
        vec![integer("user"), integer("team")],
        vec![],
        vec![],
        Some(&["user", "team"]),
    )]);
    let result = calculate_model(&input).unwrap();
    assert_eq!(result.models[0].id_fields, names(&["user", "team"]));
    assert!(!result.models[0].fields[0].is_id);
    assert!(!result.models[0].fields[1].is_id);
}

#[test]
fn relation_names_are_explicit_where_they_are_not_the_default() {
    let one = schema(vec![
        post_with_user_id(integer("user_id"), vec![index(&["user_id"], true)]),
        with_id("User"),
    ]);
    let result = calculate_model(&one).unwrap();
    for (model, field) in [(0, 1), (1, 1)] {
        match &result.models[model].fields[field].field_type {
            FieldType::Relation(info) => {
                assert_eq!(info.explicit_name(&result.models[model].name), None)
            }
            _ => unreachable!(),
        }
    }
    let own = schema(vec![table(
        "User",
        vec![serial("id"), nullable_int("boss")],
        vec![foreign_key(&["boss"], "User", &["id"])],
        vec![],
        Some(&["id"]),
    )]);
    let result = calculate_model(&own).unwrap();
    for field in [1, 2] {
        match &result.models[0].fields[field].field_type {
            FieldType::Relation(info) => {
                assert_eq!(info.explicit_name("User"), Some("UserToUser_boss".to_string()))
            }
            _ => unreachable!(),
        }
    }
}
