use sql_introspection::filters::{
    classify_table, is_excluded, is_implicit_join_table, is_migration_table,
    is_prisma_1_point_0_join_table, is_prisma_1_point_1_join_table, TableRole,
};
use sql_introspection::schema::{
    Column, ColumnArity, ColumnTypeFamily, ForeignKey, ForeignKeyAction, Index, Table,
};

fn strings(items: &[&str]) -> Vec<String> {
    items.iter().map(|s| s.to_string()).collect()
}

fn number(name: &str) -> Column {
    Column {
        name: name.to_string(),
        family: ColumnTypeFamily::Int,
        arity: ColumnArity::Required,
        default: None,
        auto_increment: false,
    }
}

fn reference(column: &str, table: &str) -> ForeignKey {
    ForeignKey {
        columns: strings(&[column]),
        referenced_table: table.to_string(),
        referenced_columns: strings(&["id"]),
        on_delete_action: ForeignKeyAction::Cascade,
    }
}

fn join(name: &str, a: &str, b: &str) -> Table {
    Table {
        name: name.to_string(),
        columns: vec![number(a), number(b)],
        foreign_keys: vec![reference(a, "Post"), reference(b, "User")],
        indices: vec![
            Index { columns: strings(&[a, b]), unique: true },
            Index { columns: strings(&[b]), unique: false },
        ],
        primary_key: None,
    }
}

fn with_own_id(mut table: Table) -> Table {
    table.columns.insert(0, number("id"));
    table.primary_key = Some(strings(&["id"]));
    table
}

#[test]
fn the_migration_table_goes_by_its_name() {
    let mut table = join("_Migration", "A", "B");
    assert!(is_migration_table(&table));
    assert_eq!(classify_table(&table), TableRole::Migration);
    assert!(is_excluded(&table));
    assert!(!is_implicit_join_table(&table));
    table.name = "_migration".to_string();
    assert!(!is_migration_table(&table));
    assert_eq!(classify_table(&table), TableRole::JoinTableV1);
}

#[test]
fn a_join_table_of_the_later_convention() {
    for (a, b) in [("A", "B"), ("a", "b"), ("A", "b")] {
        let table = join("_PostToUser", a, b);
        assert!(is_prisma_1_point_1_join_table(&table));
        assert!(!is_prisma_1_point_0_join_table(&table));
        assert_eq!(classify_table(&table), TableRole::JoinTableV1);
        assert!(is_excluded(&table));
        assert!(is_implicit_join_table(&table));
    }
}

#[test]
fn a_join_table_of_the_earlier_convention() {
    let table = with_own_id(join("_BookRoyalty", "A", "B"));
    assert!(is_prisma_1_point_0_join_table(&table));
    assert!(!is_prisma_1_point_1_join_table(&table));
    assert_eq!(classify_table(&table), TableRole::JoinTableV0);
    let mut keyless = with_own_id(join("_BookRoyalty", "A", "B"));
    keyless.primary_key = None;
    assert_eq!(classify_table(&keyless), TableRole::JoinTableV0);
}

#[test]
fn a_name_without_the_leading_underscore_makes_a_model() {
    assert_eq!(classify_table(&join("PostToUser", "A", "B")), TableRole::Model);
    assert_eq!(classify_table(&join("", "A", "B")), TableRole::Model);
    assert!(!is_excluded(&join("PostToUser", "A", "B")));
}

#[test]
fn other_column_names_make_a_model() {
    assert_eq!(classify_table(&join("_PostToUser", "post", "user")), TableRole::Model);
    assert_eq!(classify_table(&join("_PostToUser", "B", "A")), TableRole::Model);
}

#[test]
fn a_primary_key_on_the_join_columns_makes_a_model() {
    let mut table = join("_PostToUser", "A", "B");
    table.primary_key = Some(strings(&["A", "B"]));
    assert_eq!(classify_table(&table), TableRole::Model);
    let mut earlier = with_own_id(join("_PostToUser", "A", "B"));
    earlier.primary_key = Some(strings(&["A"]));
    assert_eq!(classify_table(&earlier), TableRole::Model);
}

#[test]
fn an_additional_column_makes_a_model() {
    let mut table = join("_PostToUser", "A", "B");
    table.columns.push(number("since"));
    assert_eq!(classify_table(&table), TableRole::Model);
    let mut earlier = with_own_id(join("_PostToUser", "A", "B"));
    earlier.columns.push(number("since"));
    assert_eq!(classify_table(&earlier), TableRole::Model);
}

#[test]
fn a_third_foreign_key_makes_a_model() {
    let mut table = join("_PostToUser", "A", "B");
    table.foreign_keys.push(reference("A", "Other"));
    assert_eq!(classify_table(&table), TableRole::Model);
}

#[test]
fn a_missing_index_makes_a_model() {
    let mut no_unique = join("_PostToUser", "A", "B");
    no_unique.indices.remove(0);
    assert_eq!(classify_table(&no_unique), TableRole::Model);
    let mut no_plain = join("_PostToUser", "A", "B");
    no_plain.indices.remove(1);
    assert_eq!(classify_table(&no_plain), TableRole::Model);
    let mut wrong_order = join("_PostToUser", "A", "B");
    wrong_order.indices[0].columns = strings(&["B", "A"]);
    assert_eq!(classify_table(&wrong_order), TableRole::Model);
}

#[test]
fn the_first_column_references_the_table_that_sorts_first() {
    let mut table = join("_PostToUser", "A", "B");
    table.foreign_keys[0].referenced_table = "User".to_string();
    table.foreign_keys[1].referenced_table = "Post".to_string();
    assert_eq!(classify_table(&table), TableRole::Model);
    table.foreign_keys.swap(0, 1);
    assert_eq!(classify_table(&table), TableRole::Model);
    table.foreign_keys[0].columns = strings(&["A"]);
    table.foreign_keys[1].columns = strings(&["B"]);
    assert_eq!(classify_table(&table), TableRole::JoinTableV1);
    let mut swapped = join("_PostToUser", "A", "B");
    swapped.foreign_keys.swap(0, 1);
    assert_eq!(classify_table(&swapped), TableRole::JoinTableV1);
}

#[test]
fn a_join_table_of_a_table_with_itself() {
    let mut table = join("_Friends", "A", "B");
    table.foreign_keys[0].referenced_table = "User".to_string();
    assert_eq!(classify_table(&table), TableRole::JoinTableV1);
}

#[test]
fn compound_join_keys_make_a_model() {
    let mut table = join("_PostToUser", "A", "B");
    table.foreign_keys[0].columns = strings(&["A", "B"]);
    assert_eq!(classify_table(&table), TableRole::Model);
}
