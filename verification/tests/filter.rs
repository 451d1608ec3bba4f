use rustcdc::filter::{table_is_allowed, warn_on_schema_agnostic_include_entries};

#[test]
fn table_filter_include_takes_precedence() {
    let included = vec!["public.users".to_string()];
    let exclude = vec!["users".to_string()];

    assert!(table_is_allowed(
        Some("public"),
        "users",
        &included,
        &exclude
    ));
    assert!(!table_is_allowed(
        Some("public"),
        "orders",
        &included,
        &exclude
    ));
}

#[test]
fn table_filter_exclude_applies_when_include_empty() {
    let included = Vec::new();
    let exclude = vec!["users".to_string()];

    assert!(!table_is_allowed(
        Some("public"),
        "users",
        &included,
        &exclude
    ));
    assert!(table_is_allowed(
        Some("public"),
        "orders",
        &included,
        &exclude
    ));
}

#[test]
fn table_filter_matches_schema_table_case_insensitively() {
    let included = vec!["Public.Users".to_string()];
    let exclude = Vec::new();

    assert!(table_is_allowed(
        Some("public"),
        "users",
        &included,
        &exclude
    ));
    assert!(table_is_allowed(
        Some("PUBLIC"),
        "USERS",
        &included,
        &exclude
    ));
}

#[test]
fn table_filter_entries_are_glob_patterns() {
    let none = Vec::new();

    let exclude = vec!["public.tmp_*".to_string()];
    assert!(!table_is_allowed(
        Some("public"),
        "tmp_import",
        &none,
        &exclude
    ));
    assert!(table_is_allowed(Some("public"), "orders", &none, &exclude));
    assert!(
        table_is_allowed(Some("staging"), "tmp_import", &none, &exclude),
        "the pattern names a schema, so it must not reach another one"
    );

    let included = vec!["public.*".to_string()];
    assert!(table_is_allowed(Some("public"), "orders", &included, &none));
    assert!(!table_is_allowed(
        Some("staging"),
        "orders",
        &included,
        &none
    ));

    let included = vec!["*.audit_?".to_string()];
    assert!(table_is_allowed(Some("any"), "audit_1", &included, &none));
    assert!(!table_is_allowed(Some("any"), "audit_10", &included, &none));
}

#[test]
fn an_unqualified_filter_entry_matches_every_schema() {
    let none = Vec::new();
    let included = vec!["users".to_string()];

    assert!(table_is_allowed(Some("public"), "users", &included, &none));
    assert!(table_is_allowed(
        Some("tenant_private"),
        "users",
        &included,
        &none
    ));
    assert!(table_is_allowed(None, "users", &included, &none));
    assert!(!table_is_allowed(Some("public"), "orders", &included, &none));
}

#[test]
fn a_qualified_filter_entry_does_not_match_a_schemaless_event() {
    let none = Vec::new();
    let included = vec!["public.users".to_string()];
    assert!(!table_is_allowed(None, "users", &included, &none));
    assert!(!table_is_allowed(Some(""), "users", &included, &none));
}

#[test]
fn a_blank_filter_entry_is_ignored_rather_than_matching_everything() {
    let none = Vec::new();
    let exclude = vec!["   ".to_string(), "public.tmp".to_string()];
    assert!(table_is_allowed(Some("public"), "orders", &none, &exclude));
    assert!(!table_is_allowed(Some("public"), "tmp", &none, &exclude));
}

#[test]
fn empty_lists_allow_every_table() {
    assert!(table_is_allowed(Some("any"), "thing", &Vec::new(), &Vec::new()));
    assert!(table_is_allowed(None, "", &Vec::new(), &Vec::new()));
}

#[test]
fn unqualified_include_entries_are_reported_once_each() {
    let included = vec![
        "users".to_string(),
        "public.orders".to_string(),
        " ".to_string(),
        "tmp_*".to_string(),
    ];
    assert_eq!(
        warn_on_schema_agnostic_include_entries(&included),
        vec!["users".to_string(), "tmp_*".to_string()]
    );
}
