use rustcdc::error::Error;
use rustcdc::mysql::binlog::{advance_binlog_pos, binlog_read_timeout};
use rustcdc::mysql::gtid::{
    format_gtid, merge_gtid_into_set, parse_gtid_set, parse_mariadb_gtid_event,
};
use rustcdc::mysql::parser::{
    decode_stream_resume_position, format_mysql_source_offset, mysql_qualified_table_name,
    mysql_qualified_table_name_from_reference, sanitize_binlog_file_name, split_table_reference,
    MysqlOffset,
};
use rustcdc::mysql::values::{enum_label, mysql_value_to_json, set_labels};
use std::time::Duration;

#[test]
fn a_compressed_transaction_keeps_the_payload_events_end_position() {
    const PAYLOAD_END: u32 = 4_242;

    let mut pos = 1_000;
    pos = advance_binlog_pos(pos, 1_100);
    assert_eq!(pos, 1_100);
    pos = advance_binlog_pos(pos, PAYLOAD_END);
    for _ in 0..4 {
        pos = advance_binlog_pos(pos, 0);
        assert_eq!(
            pos, PAYLOAD_END,
            "an event unpacked from a compressed payload must resume at the \
             payload's end position, never at 0"
        );
    }

    assert_eq!(advance_binlog_pos(pos, 4_400), 4_400);
}

#[test]
fn an_artificial_event_does_not_reset_the_tracked_position() {
    assert_eq!(advance_binlog_pos(9_999, 0), 9_999);
    assert_eq!(advance_binlog_pos(0, 0), 0);
}

#[test]
fn decode_stream_resume_position_uses_mysql_checkpoint_offset() {
    let offset = MysqlOffset {
        gtid: "uuid:3-5".into(),
        binlog_file: "mysql-bin.000010".into(),
        binlog_pos: 777,
        source_flavor: "mysql".into(),
    };
    let restored = decode_stream_resume_position("mysql", offset).unwrap();
    assert_eq!(restored.binlog_file, "mysql-bin.000010");
    assert_eq!(restored.binlog_pos, 777);
    assert_eq!(restored.gtid, "uuid:3-5");
}

#[test]
fn decode_stream_resume_position_rejects_source_type_mismatch() {
    let offset = MysqlOffset::new("postgres".into(), String::new(), 0, String::new());
    let result = decode_stream_resume_position("mysql", offset);
    assert!(matches!(result, Err(Error::CheckpointError(_))));
}

#[test]
fn split_table_reference_accepts_valid_inputs() {
    let (schema, table) = split_table_reference("users").unwrap();
    assert_eq!(schema, None);
    assert_eq!(table, "users");

    let (schema, table) = split_table_reference("app.users").unwrap();
    assert_eq!(schema.as_deref(), Some("app"));
    assert_eq!(table, "users");
}

#[test]
fn split_table_reference_rejects_invalid_inputs() {
    assert!(split_table_reference("app.users.extra").is_err());
    assert!(split_table_reference(" app.users ").is_ok());
    assert!(split_table_reference("app.-users").is_err());
    assert!(split_table_reference("users;DROP TABLE audit").is_err());
    assert!(split_table_reference("app.users --comment").is_err());
    let (schema, table) = split_table_reference("`users.with.dot`").unwrap();
    assert_eq!(schema, None);
    assert_eq!(table, "users.with.dot");

    let (schema, table) = split_table_reference("`analytics-team`.`users`").unwrap();
    assert_eq!(schema.as_deref(), Some("analytics-team"));
    assert_eq!(table, "users");

    assert!(split_table_reference(".users").is_err());
    assert!(split_table_reference("users.").is_err());
    assert!(split_table_reference("").is_err());
    assert!(split_table_reference("`unterminated").is_err());
    assert!(matches!(split_table_reference(""), Err(Error::ConfigError(_))));
}

#[test]
fn mysql_qualified_table_name_quotes_identifiers() {
    let unqualified = mysql_qualified_table_name(None, "users");
    assert_eq!(unqualified, "`users`");

    let qualified = mysql_qualified_table_name(Some("app"), "users");
    assert_eq!(qualified, "`app`.`users`");
}

#[test]
fn a_back_quote_in_a_name_is_doubled_and_reads_back() {
    let quoted = mysql_qualified_table_name(Some("a`b"), "t`");
    assert_eq!(quoted, "`a``b`.`t```");
    let (schema, table) = split_table_reference(&quoted).unwrap();
    assert_eq!(schema.as_deref(), Some("a`b"));
    assert_eq!(table, "t`");
    assert_eq!(
        mysql_qualified_table_name_from_reference("app.users").unwrap(),
        "`app`.`users`"
    );
    assert!(mysql_qualified_table_name_from_reference("a b").is_err());
}

#[test]
fn offsets_carry_the_executed_set_where_there_is_one() {
    assert_eq!(format_mysql_source_offset("mysql-bin.000001", 4, ""), "mysql-bin.000001:4");
    assert_eq!(
        format_mysql_source_offset("mysql-bin.000002", 900, "uuid:1-10"),
        "mysql-bin.000002:900#gtid=uuid:1-10"
    );
}

#[test]
fn a_rotate_name_loses_what_follows_its_number() {
    assert_eq!(sanitize_binlog_file_name("mysql-bin.000042").unwrap(), "mysql-bin.000042");
    assert_eq!(
        sanitize_binlog_file_name("mysql-bin.000042\u{1}\u{fffd}zz").unwrap(),
        "mysql-bin.000042"
    );
    assert!(matches!(sanitize_binlog_file_name("mysql-bin"), Err(Error::SourceError(_))));
    assert!(sanitize_binlog_file_name(".000001").is_err());
    assert!(sanitize_binlog_file_name("").is_err());
}

#[test]
fn gtid_merge_accumulates_a_set_instead_of_overwriting() {
    const UUID: &str = "3e11fa47-71ca-11e1-9e33-c80aa9429562";

    let merged = merge_gtid_into_set(&format!("{UUID}:1-500"), &format!("{UUID}:501"));
    assert_eq!(
        merged,
        format!("{UUID}:1-501"),
        "an adjacent transaction must extend the existing range, never replace it"
    );
    assert_ne!(
        merged,
        format!("{UUID}:501"),
        "collapsing the set to a single GTID replays every earlier transaction"
    );

    let mut set = format!("{UUID}:1");
    for gno in 2..=50 {
        set = merge_gtid_into_set(&set, &format!("{UUID}:{gno}"));
    }
    assert_eq!(set, format!("{UUID}:1-50"), "got {set}");

    let gapped = merge_gtid_into_set(&format!("{UUID}:1-5"), &format!("{UUID}:9"));
    assert_eq!(gapped, format!("{UUID}:1-5:9"), "got {gapped}");

    assert_eq!(
        merge_gtid_into_set("", &format!("{UUID}:9")),
        format!("{UUID}:9")
    );

    const UUID2: &str = "11111111-2222-3333-4444-555555555555";
    let multi = merge_gtid_into_set(&format!("{UUID}:1-5,{UUID2}:1-2"), &format!("{UUID2}:3"));
    assert!(multi.contains(&format!("{UUID}:1-5")), "got {multi}");
    assert!(multi.contains(&format!("{UUID2}:1-3")), "got {multi}");

    let idempotent = merge_gtid_into_set(&format!("{UUID}:1-10"), &format!("{UUID}:5"));
    assert_eq!(idempotent, format!("{UUID}:1-10"));
}

#[test]
fn gtid_set_parses_into_sids_for_the_dump_request() {
    const UUID: &str = "3e11fa47-71ca-11e1-9e33-c80aa9429562";
    const UUID2: &str = "11111111-2222-3333-4444-555555555555";

    assert!(
        parse_gtid_set("").unwrap().is_empty(),
        "an empty set means 'no GTID position known'"
    );
    assert!(parse_gtid_set("   ").unwrap().is_empty());

    assert_eq!(parse_gtid_set(&format!("{UUID}:1-500")).unwrap().len(), 1);
    assert_eq!(
        parse_gtid_set(&format!("{UUID}:1-5:9,{UUID2}:1-2")).unwrap().len(),
        2,
        "each comma-separated uuid_set becomes one Sid"
    );

    let merged = merge_gtid_into_set(&format!("{UUID}:1-5"), &format!("{UUID}:9"));
    assert!(
        parse_gtid_set(&merged).is_ok(),
        "checkpointed set must be parseable for resume: {merged}"
    );

    assert!(
        parse_gtid_set("not-a-uuid:1").is_err(),
        "a malformed set must fail loud rather than silently positioning nowhere"
    );
}

#[test]
fn a_gtid_set_keeps_its_sources_and_intervals() {
    const UUID: &str = "3e11fa47-71ca-11e1-9e33-c80aa9429562";
    let blocks = parse_gtid_set(&format!(" {UUID}:1-5:9 , ")).unwrap();
    assert_eq!(blocks.len(), 1);
    assert_eq!(blocks[0].uuid[0], 0x3e);
    assert_eq!(blocks[0].uuid[15], 0x62);
    assert_eq!(blocks[0].intervals, vec![(1, 6), (9, 10)]);
}

#[test]
fn format_gtid_renders_standard_sid_gno_notation() {
    let sid = [
        0x3e, 0x11, 0xfa, 0x47, 0x71, 0xca, 0x11, 0xe1, 0x9e, 0x33, 0xc8, 0x0a, 0xa9, 0x42, 0x95,
        0x62,
    ];
    let gtid = format_gtid(sid, 23);
    assert_eq!(gtid, "3e11fa47-71ca-11e1-9e33-c80aa9429562:23");
}

#[test]
fn mysql_value_to_json_encodes_binary_bytes_as_hex() {
    let value = mysql_value_to_json(&[0xff, 0x00, 0x1a]);
    assert_eq!(value, serde_json::Value::String("ff001a".into()));
}

#[test]
fn text_bytes_stay_text() {
    let value = mysql_value_to_json("größe".as_bytes());
    assert_eq!(value, serde_json::Value::String("größe".into()));
    assert_eq!(mysql_value_to_json(&[]), serde_json::Value::String(String::new()));
}

#[test]
fn an_enum_value_is_the_number_of_its_label() {
    let labels = vec!["small".to_string(), "large".to_string()];
    assert_eq!(enum_label(&labels, 1).as_deref(), Some("small"));
    assert_eq!(enum_label(&labels, 2).as_deref(), Some("large"));
    assert_eq!(enum_label(&labels, 0).as_deref(), Some(""));
    assert_eq!(enum_label(&labels, 3), None);
    assert_eq!(enum_label(&labels, -1), None);
}

#[test]
fn a_set_value_names_its_members_in_order() {
    let labels: Vec<String> = (0..10).map(|n| format!("m{n}")).collect();
    assert_eq!(set_labels(&labels, &[0b0000_0101, 0b10]).as_deref(), Some("m0,m2,m9"));
    assert_eq!(set_labels(&labels, &[0, 0]).as_deref(), Some(""));
    assert_eq!(set_labels(&labels, &[]).as_deref(), Some(""));
    assert_eq!(set_labels(&labels, &[0, 0b100]), None);
    assert_eq!(set_labels(&labels, &[0; 9]), None);
}

fn mariadb_gtid_body(sequence: u64, domain_id: u32, flags: u8) -> Vec<u8> {
    let mut body = Vec::with_capacity(13);
    body.extend_from_slice(&sequence.to_le_bytes());
    body.extend_from_slice(&domain_id.to_le_bytes());
    body.push(flags);
    body
}

#[test]
fn mariadb_gtid_event_decodes_to_domain_server_sequence() {
    let body = mariadb_gtid_body(100, 0, 0);
    assert_eq!(
        parse_mariadb_gtid_event(1, &body).as_deref(),
        Some("0-1-100"),
        "MariaDB GTIDs are written domain-server-sequence"
    );
}

#[test]
fn mariadb_gtid_event_uses_the_header_server_id_and_a_non_zero_domain() {
    let body = mariadb_gtid_body(4_294_967_296, 7, 0);
    assert_eq!(
        parse_mariadb_gtid_event(42, &body).as_deref(),
        Some("7-42-4294967296"),
        "the sequence number is a u64 and must not be truncated to u32"
    );
}

#[test]
fn mariadb_gtid_event_body_shorter_than_the_fixed_prefix_is_rejected() {
    assert!(parse_mariadb_gtid_event(1, &[0u8; 12]).is_none());
    assert!(parse_mariadb_gtid_event(1, &[]).is_none());
}

#[test]
fn mariadb_gtid_event_ignores_trailing_optional_fields() {
    let mut body = mariadb_gtid_body(5, 1, 0x02);
    body.extend_from_slice(&99u64.to_le_bytes());
    assert_eq!(parse_mariadb_gtid_event(3, &body).as_deref(), Some("1-3-5"));
}

#[test]
fn an_empty_batch_always_waits_a_full_poll_interval() {
    assert_eq!(
        binlog_read_timeout(0, Duration::ZERO, 50),
        Some(Duration::from_millis(50))
    );
    assert_eq!(
        binlog_read_timeout(0, Duration::from_millis(5), 50),
        Some(Duration::from_millis(50))
    );
}

#[test]
fn a_non_empty_batch_stops_once_the_caller_budget_is_spent() {
    assert_eq!(binlog_read_timeout(1, Duration::ZERO, 50), None);
    assert_eq!(binlog_read_timeout(999, Duration::ZERO, 50), None);
}

#[test]
fn a_non_empty_batch_never_waits_past_the_deadline() {
    assert_eq!(
        binlog_read_timeout(1, Duration::from_millis(12), 50),
        Some(Duration::from_millis(12)),
        "the remaining budget is shorter than the poll interval and must win"
    );
    assert_eq!(
        binlog_read_timeout(1, Duration::from_millis(500), 50),
        Some(Duration::from_millis(50)),
        "with budget to spare, one poll interval is the read granularity"
    );
}

#[test]
fn only_an_interval_that_ends_at_the_largest_number_is_refused() {
    const UUID: &str = "3e11fa47-71ca-11e1-9e33-c80aa9429562";
    let last = "18446744073709551615";
    let plain = "00000000000018446744073709551615";
    assert_eq!(parse_gtid_set(&format!("{plain}:1-5")).unwrap()[0].intervals, vec![(1, 6)]);
    let tagged = parse_gtid_set(&format!("{UUID}:t{last}:3")).unwrap();
    assert_eq!(tagged[0].tag.as_deref(), Some("t18446744073709551615"));
    assert_eq!(tagged[0].intervals, vec![(3, 4)]);
    for interval in [
        last.to_string(),
        format!("1-{last}"),
        format!("1-00{last}"),
        format!("1-+{last}"),
        format!("4:{last}"),
    ] {
        assert!(parse_gtid_set(&format!("{UUID}:{interval}")).is_err(), "{interval}");
    }
    let largest = format!("{UUID}:1-18446744073709551614");
    assert_eq!(parse_gtid_set(&largest).unwrap()[0].intervals, vec![(1, u64::MAX)]);
}

#[test]
fn a_place_of_another_kind_of_source_is_named() {
    let offset = MysqlOffset::new("mariadb".into(), "mysql-bin.000001".into(), 4, String::new());
    assert_eq!(
        decode_stream_resume_position("mysql", offset).unwrap_err(),
        Error::CheckpointError(
            "checkpoint was written by source type 'mariadb' and cannot be resumed by 'mysql'".into()
        )
    );
}
