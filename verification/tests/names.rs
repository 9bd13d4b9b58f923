use sql_introspection::names::{
    replace_first, sanitize_name, str_le, str_lt, DefaultNames, NameNormalizer,
};

#[test]
fn relation_name_puts_the_smaller_model_first() {
    assert_eq!(DefaultNames::relation_name("Post", "User"), "PostToUser");
    assert_eq!(DefaultNames::relation_name("User", "Post"), "PostToUser");
}

#[test]
fn relation_name_of_a_model_with_itself() {
    assert_eq!(DefaultNames::relation_name("User", "User"), "UserToUser");
}

#[test]
fn relation_name_orders_a_prefix_first() {
    assert_eq!(DefaultNames::relation_name("Posts", "Post"), "PostToPosts");
    assert_eq!(DefaultNames::relation_name("", "A"), "ToA");
}

#[test]
fn relation_name_orders_by_code_point() {
    assert_eq!(DefaultNames::relation_name("a", "B"), "BToa");
    assert_eq!(DefaultNames::relation_name("é", "z"), "zToé");
}

#[test]
fn camel_case_lowers_the_first_character_only() {
    assert_eq!("User".to_string().camel_case(), "user");
    assert_eq!("PostsToUsers".to_string().camel_case(), "postsToUsers");
    assert_eq!("user".to_string().camel_case(), "user");
    assert_eq!("".to_string().camel_case(), "");
    assert_eq!("_User".to_string().camel_case(), "_User");
}

#[test]
fn camel_case_follows_the_lowercase_mapping() {
    assert_eq!("Émile".to_string().camel_case(), "émile");
    assert_eq!("İx".to_string().camel_case(), "i\u{307}x");
}

#[test]
fn names_compare_lexicographically() {
    assert!(str_lt("Post", "User"));
    assert!(!str_lt("User", "Post"));
    assert!(!str_lt("User", "User"));
    assert!(str_le("User", "User"));
    assert!(str_lt("", "a"));
    assert!(!str_lt("a", ""));
    assert!(str_lt("ab", "abc"));
    assert!(str_lt("Z", "a"));
}

#[test]
fn sanitizing_keeps_valid_names() {
    assert_eq!(sanitize_name("User"), "User");
    assert_eq!(sanitize_name("user_id"), "user_id");
    assert_eq!(sanitize_name("a1_B2"), "a1_B2");
}

#[test]
fn sanitizing_cuts_what_stands_before_the_first_letter() {
    assert_eq!(sanitize_name("_PostToUser"), "PostToUser");
    assert_eq!(sanitize_name("1st"), "st");
    assert_eq!(sanitize_name("__12ab"), "ab");
}

#[test]
fn sanitizing_replaces_invalid_characters() {
    assert_eq!(sanitize_name("a-b"), "a_b");
    assert_eq!(sanitize_name("user id"), "user_id");
    assert_eq!(sanitize_name("naïve"), "na_ve");
}

#[test]
fn sanitizing_avoids_reserved_words() {
    assert_eq!(sanitize_name("model"), "model_");
    assert_eq!(sanitize_name("enum"), "enum_");
    assert_eq!(sanitize_name("type"), "type_");
    assert_eq!(sanitize_name("datasource"), "datasource_");
    assert_eq!(sanitize_name("generator"), "generator_");
    assert_eq!(sanitize_name("1model"), "model_");
    assert_eq!(sanitize_name("Model"), "Model");
}

#[test]
fn sanitizing_a_name_without_letters_leaves_nothing() {
    assert_eq!(sanitize_name(""), "");
    assert_eq!(sanitize_name("123"), "");
    assert_eq!(sanitize_name("_-_"), "");
}

#[test]
fn sanitizing_is_idempotent() {
    for name in ["User", "_PostToUser", "a-b", "model", "1model", "", "123", "naïve", "type_"] {
        let once = sanitize_name(name);
        assert_eq!(sanitize_name(&once), once);
    }
}

#[test]
fn replacing_the_first_character() {
    assert_eq!(replace_first("User", "u"), "user");
    assert_eq!(replace_first("İx", "i\u{307}"), "i\u{307}x");
    assert_eq!(replace_first("a", ""), "");
    assert_eq!(replace_first("", "x"), "");
}
