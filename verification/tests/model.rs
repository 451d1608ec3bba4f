use rustcdc::capabilities::ConnectorCapabilities;
use rustcdc::conditions::lookup_condition;
use rustcdc::ddl::{extract_captured_ddl, parse_truncate_target};
use rustcdc::error::Error;
use rustcdc::event::{qualify, BeforeImage};
use rustcdc::glob::{is_schema_agnostic, table_matches};
use rustcdc::identifier::{quote_identifier, read_reference};
use rustcdc::poll::{after_poll, batch_budget, AfterPoll};
use rustcdc::schema::{
    observed_statement, schema_id, shape_value, table_schema_from_catalog, CatalogColumn, TableMap,
};
use rustcdc::snapshot_request::{IncrementalSnapshotConfig, SnapshotRequest};
use rustcdc::text;

fn column(name: &str, data_type: &str, nullable: bool) -> CatalogColumn {
    CatalogColumn { name: name.into(), data_type: data_type.into(), nullable }
}

#[test]
fn a_shape_is_identified_by_everything_in_it() {
    let keys = vec!["id".to_string()];
    let base = vec![column("id", "bigint", false), column("name", "text", true)];
    let id = |columns: &Vec<CatalogColumn>, keys: &Vec<String>| {
        schema_id(&table_schema_from_catalog("public", "users", columns, keys))
    };
    let first = id(&base, &keys);
    assert_eq!(first, id(&base, &keys));
    let retyped = vec![column("id", "bigint", false), column("name", "varchar(9)", true)];
    assert_ne!(first, id(&retyped, &keys));
    let stricter = vec![column("id", "bigint", false), column("name", "text", false)];
    assert_ne!(first, id(&stricter, &keys));
    assert_ne!(first, id(&base, &Vec::new()));
    let other = schema_id(&table_schema_from_catalog("public", "user", &base, &keys));
    assert_ne!(first, other);
    let shifted = vec![column("idn", "bigint", false), column("ame", "text", true)];
    assert_ne!(first, id(&shifted, &keys), "names are told apart by their bounds");
}

#[test]
fn a_shape_is_published_with_its_columns_and_key() {
    let columns = vec![column("id", "bigint", false), column("amount", "numeric(12,4)", true)];
    let shape = table_schema_from_catalog("public", "users", &columns, &vec!["id".to_string()]);
    let value = shape_value(&shape);
    assert_eq!(value["schema"], "public");
    assert_eq!(value["table"], "users");
    assert_eq!(value["columns"][0]["name"], "id");
    assert_eq!(value["columns"][0]["constraints"][0], "primary_key");
    assert_eq!(value["columns"][1]["data_type"], "numeric(12,4)");
    assert_eq!(value["columns"][1]["nullable"], true);
    assert_eq!(value["primary_keys"][0], "id");
    assert_eq!(
        observed_statement("public", "users", "pg_catalog"),
        "/* schema of public.users observed from pg_catalog */"
    );
}

#[test]
fn a_table_map_keeps_the_last_value_of_a_table() {
    let mut map: TableMap<u32> = TableMap::new();
    map.insert("a".to_string(), "t".to_string(), 1);
    map.insert("b".to_string(), "t".to_string(), 2);
    map.insert("a".to_string(), "t".to_string(), 3);
    assert_eq!(map.get("a", "t"), Some(&3));
    assert_eq!(map.get("b", "t"), Some(&2));
    assert_eq!(map.get("b", "u"), None);
}

#[test]
fn patterns_match_names_segment_by_segment() {
    assert!(table_matches("public.*", "public.orders"));
    assert!(table_matches("*.audit_?", "any.audit_1"));
    assert!(!table_matches("*.audit_?", "any.audit_12"));
    assert!(table_matches("tmp_*", "staging.tmp_1"));
    assert!(table_matches("TMP_*", "staging.tmp_1"));
    assert!(!table_matches("public.tmp_*", "staging.tmp_1"));
    assert!(!table_matches("public.users", "users"));
    assert!(is_schema_agnostic("users"));
    assert!(!is_schema_agnostic("public.users"));
    assert!(!is_schema_agnostic(""));
}

#[test]
fn quoted_names_read_back() {
    for name in ["plain", "with.dot", "with\"quote", "with space"] {
        let quoted = quote_identifier(name, '"');
        assert_eq!(read_reference(&quoted, '"'), Some((None, name.to_string())));
        let qualified = format!("{}.{quoted}", quote_identifier("s", '"'));
        assert_eq!(
            read_reference(&qualified, '"'),
            Some((Some("s".to_string()), name.to_string()))
        );
    }
    assert_eq!(read_reference("a.b.c", '"'), None);
    assert_eq!(read_reference("", '"'), None);
}

#[test]
fn statements_name_their_tables() {
    let ddl = extract_captured_ddl("alter table `app`.`users` add column x int").unwrap();
    assert_eq!(ddl.schema, "app");
    assert_eq!(ddl.table, "users");
    assert!(extract_captured_ddl("INSERT INTO t VALUES (1)").is_none());
    assert_eq!(
        parse_truncate_target("TRUNCATE TABLE app.users"),
        Some((Some("app".to_string()), "users".to_string()))
    );
    assert_eq!(parse_truncate_target("truncate users"), Some((None, "users".to_string())));
    assert_eq!(parse_truncate_target("DELETE FROM users"), None);
}

#[test]
fn a_poll_waits_within_its_budget() {
    assert_eq!(after_poll(true, 100, 0, 50), AfterPoll::Return);
    assert_eq!(after_poll(false, 0, 0, 50), AfterPoll::Return);
    assert_eq!(after_poll(false, 100, 100, 50), AfterPoll::Return);
    assert_eq!(after_poll(false, 100, 20, 50), AfterPoll::Sleep(50));
    assert_eq!(after_poll(false, 100, 80, 50), AfterPoll::Sleep(20));
    assert_eq!(batch_budget(0, 50), 50);
    assert_eq!(batch_budget(700, 50), 700);
}

#[test]
fn capabilities_are_declared_one_by_one() {
    let capabilities =
        ConnectorCapabilities::none().with_snapshot(true).with_handoff(true).with_tls(true);
    assert!(capabilities.snapshot);
    assert!(capabilities.handoff);
    assert!(capabilities.tls);
    assert!(!capabilities.ddl_capture);
    assert_eq!(ConnectorCapabilities::default(), ConnectorCapabilities::none());
    let rest = ConnectorCapabilities::none()
        .with_snapshot_checkpoint_resume(true)
        .with_ddl_capture(true)
        .with_heartbeat(true)
        .with_schema_introspection(true)
        .with_truncate(true)
        .with_incremental_snapshot(true);
    assert!(rest.snapshot_checkpoint_resume && rest.ddl_capture && rest.heartbeat);
    assert!(rest.schema_introspection && rest.truncate && rest.incremental_snapshot);
    assert!(!rest.snapshot);
}

#[test]
fn requests_carry_their_own_conditions() {
    let request = SnapshotRequest::new(vec!["public.orders".into(), "public.items".into()])
        .with_condition("public.orders", "tenant_id = 42")
        .with_condition("public.items", "tenant_id = 42");
    assert_eq!(request.tables.len(), 2);
    assert_eq!(
        lookup_condition(&request.conditions, "orders", "public", "orders").as_deref(),
        Some("tenant_id = 42")
    );
    let config = IncrementalSnapshotConfig::new(vec!["public.orders".to_string()])
        .with_table_condition("public.orders", "created_at >= '2026-01-01'");
    assert_eq!(config.chunk_size, 5_000);
    assert_eq!(config.clone().with_chunk_size(7).chunk_size, 7);
    let from: SnapshotRequest = vec!["public.orders".to_string()].into();
    assert_eq!(from.tables, vec!["public.orders".to_string()]);
    assert!(from.conditions.is_empty());
}

#[test]
fn numbers_read_back_from_their_digits() {
    for n in [0u64, 9, 10, 4096, u64::MAX] {
        assert_eq!(text::parse_decimal(&text::decimal(n)), Some(n));
        assert_eq!(text::parse_hex(&text::hex(n)), Some(n));
    }
    assert_eq!(text::decimal(1_234_567), "1234567");
    assert_eq!(text::parse_decimal("18446744073709551616"), None);
    assert_eq!(text::parse_decimal(""), None);
    assert_eq!(text::trim(" \u{2003}x y\u{a0}"), "x y");
}

#[test]
fn names_errors_and_images() {
    assert_eq!(qualify(Some("public"), "users"), "public.users");
    assert_eq!(qualify(Some(""), "users"), "users");
    assert_eq!(qualify(None, "users"), "users");
    assert_eq!(Error::StateError("late".into()).message(), "late");
    assert!(!BeforeImage::Unavailable.is_present());
    assert!(BeforeImage::key_only(serde_json::Value::Null).is_present());
}
