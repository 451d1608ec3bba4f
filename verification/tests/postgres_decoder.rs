use rustcdc::error::Error;
use rustcdc::postgres::decoder::{decode_pgoutput_message, PgOutputMessage, PgValue};
use rustcdc::postgres::lsn::{format_pg_lsn, parse_pg_lsn, pg_timestamp_to_millis};
use rustcdc::postgres::parser::{
    decode_stream_resume_lsn, map_pgoutput_poll_error, parse_table_reference,
    qualified_table_name, quote_pg_identifier, reconcile_stream_resume_lsn,
    split_qualified_table_name, PostgresOffset,
};

fn build_begin(final_lsn: u64, timestamp_us: i64, xid: u32) -> Vec<u8> {
    let mut buf = vec![b'B'];
    buf.extend_from_slice(&final_lsn.to_be_bytes());
    buf.extend_from_slice(&timestamp_us.to_be_bytes());
    buf.extend_from_slice(&xid.to_be_bytes());
    buf
}

fn build_commit(commit_lsn: u64, end_lsn: u64, timestamp_us: i64) -> Vec<u8> {
    let mut buf = vec![b'C', 0u8];
    buf.extend_from_slice(&commit_lsn.to_be_bytes());
    buf.extend_from_slice(&end_lsn.to_be_bytes());
    buf.extend_from_slice(&timestamp_us.to_be_bytes());
    buf
}

fn build_relation(oid: u32, ns: &str, name: &str, cols: &[(&str, bool)]) -> Vec<u8> {
    build_relation_with_identity(oid, ns, name, cols, b'd')
}

fn build_relation_with_identity(
    oid: u32,
    ns: &str,
    name: &str,
    cols: &[(&str, bool)],
    replica_identity: u8,
) -> Vec<u8> {
    let mut buf = vec![b'R'];
    buf.extend_from_slice(&oid.to_be_bytes());
    buf.extend_from_slice(ns.as_bytes());
    buf.push(0);
    buf.extend_from_slice(name.as_bytes());
    buf.push(0);
    buf.push(replica_identity);
    let num: u16 = cols.len() as u16;
    buf.extend_from_slice(&num.to_be_bytes());
    for (col, is_key) in cols {
        buf.push(u8::from(*is_key));
        buf.extend_from_slice(col.as_bytes());
        buf.push(0);
        buf.extend_from_slice(&23u32.to_be_bytes());
        buf.extend_from_slice(&(-1i32).to_be_bytes());
    }
    buf
}

fn append_tuple_data(buf: &mut Vec<u8>, values: &[Option<&str>]) {
    buf.extend_from_slice(&(values.len() as u16).to_be_bytes());
    for val in values {
        match val {
            None => buf.push(b'n'),
            Some(s) => {
                buf.push(b't');
                buf.extend_from_slice(&(s.len() as i32).to_be_bytes());
                buf.extend_from_slice(s.as_bytes());
            }
        }
    }
}

fn build_insert(oid: u32, values: &[Option<&str>]) -> Vec<u8> {
    let mut buf = vec![b'I'];
    buf.extend_from_slice(&oid.to_be_bytes());
    buf.push(b'N');
    append_tuple_data(&mut buf, values);
    buf
}

fn build_update(oid: u32, old: Option<&[Option<&str>]>, new: &[Option<&str>]) -> Vec<u8> {
    let mut buf = vec![b'U'];
    buf.extend_from_slice(&oid.to_be_bytes());
    if let Some(old_vals) = old {
        buf.push(b'O');
        append_tuple_data(&mut buf, old_vals);
    }
    buf.push(b'N');
    append_tuple_data(&mut buf, new);
    buf
}

fn build_delete(oid: u32, key: &[Option<&str>]) -> Vec<u8> {
    let mut buf = vec![b'D'];
    buf.extend_from_slice(&oid.to_be_bytes());
    buf.push(b'K');
    append_tuple_data(&mut buf, key);
    buf
}

#[test]
fn decode_pgoutput_begin_message() {
    let data = build_begin(1000, 946_684_800_000_000, 42);
    match decode_pgoutput_message(&data).unwrap() {
        PgOutputMessage::Begin(b) => {
            assert_eq!(b.final_lsn, 1000);
            assert_eq!(b.xid, 42);
            assert_eq!(b.commit_timestamp_us, 946_684_800_000_000);
        }
        other => panic!("unexpected: {other:?}"),
    }
}

#[test]
fn decode_pgoutput_commit_message() {
    let data = build_commit(900, 1000, 0);
    match decode_pgoutput_message(&data).unwrap() {
        PgOutputMessage::Commit(c) => {
            assert_eq!(c.commit_lsn, 900);
            assert_eq!(c.end_lsn, 1000);
            assert_eq!(c.flags, 0);
        }
        other => panic!("unexpected: {other:?}"),
    }
}

#[test]
fn decode_pgoutput_relation_message() {
    let data = build_relation(1001, "public", "users", &[("id", true), ("name", false)]);
    match decode_pgoutput_message(&data).unwrap() {
        PgOutputMessage::Relation(r) => {
            assert_eq!(r.oid, 1001);
            assert_eq!(r.namespace, "public");
            assert_eq!(r.name, "users");
            assert_eq!(r.columns.len(), 2);
            assert_eq!(r.columns[0].name, "id");
            assert!(r.columns[0].is_key());
            assert_eq!(r.columns[1].name, "name");
            assert!(!r.columns[1].is_key());
        }
        other => panic!("unexpected: {other:?}"),
    }
}

#[test]
fn decode_pgoutput_insert_message() {
    let data = build_insert(1001, &[Some("1"), Some("alice")]);
    match decode_pgoutput_message(&data).unwrap() {
        PgOutputMessage::Insert(i) => {
            assert_eq!(i.relation_oid, 1001);
            assert_eq!(i.new_tuple.len(), 2);
            assert_eq!(i.new_tuple[0], PgValue::Text("1".into()));
            assert_eq!(i.new_tuple[1], PgValue::Text("alice".into()));
        }
        other => panic!("unexpected: {other:?}"),
    }
}

#[test]
fn decode_pgoutput_insert_with_null_column() {
    let data = build_insert(1001, &[Some("1"), None]);
    match decode_pgoutput_message(&data).unwrap() {
        PgOutputMessage::Insert(i) => {
            assert_eq!(i.new_tuple[1], PgValue::Null);
        }
        other => panic!("unexpected: {other:?}"),
    }
}

#[test]
fn decode_pgoutput_update_message_with_old_tuple() {
    let data = build_update(
        1001,
        Some(&[Some("1"), Some("alice")]),
        &[Some("1"), Some("bob")],
    );
    match decode_pgoutput_message(&data).unwrap() {
        PgOutputMessage::Update(u) => {
            assert_eq!(u.relation_oid, 1001);
            assert!(u.old_tuple.is_some());
            let old = u.old_tuple.as_ref().unwrap();
            assert_eq!(old[1], PgValue::Text("alice".into()));
            assert_eq!(u.new_tuple[1], PgValue::Text("bob".into()));
        }
        other => panic!("unexpected: {other:?}"),
    }
}

#[test]
fn decode_pgoutput_update_message_without_old_tuple() {
    let data = build_update(1001, None, &[Some("1"), Some("bob")]);
    match decode_pgoutput_message(&data).unwrap() {
        PgOutputMessage::Update(u) => {
            assert!(u.old_tuple.is_none());
            assert!(u.key_tuple.is_none());
            assert_eq!(u.new_tuple[0], PgValue::Text("1".into()));
        }
        other => panic!("unexpected: {other:?}"),
    }
}

#[test]
fn decode_pgoutput_delete_message_with_key() {
    let data = build_delete(1001, &[Some("1"), None]);
    match decode_pgoutput_message(&data).unwrap() {
        PgOutputMessage::Delete(d) => {
            assert_eq!(d.relation_oid, 1001);
            assert!(d.key_tuple.is_some());
            let key = d.key_tuple.as_ref().unwrap();
            assert_eq!(key[0], PgValue::Text("1".into()));
            assert_eq!(key[1], PgValue::Null);
        }
        other => panic!("unexpected: {other:?}"),
    }
}

#[test]
fn decode_pgoutput_unknown_message_type() {
    let data = vec![b'X'];
    match decode_pgoutput_message(&data).unwrap() {
        PgOutputMessage::Unknown(t) => assert_eq!(t, b'X'),
        other => panic!("unexpected: {other:?}"),
    }
}

#[test]
fn decode_pgoutput_rejects_empty_message() {
    let result = decode_pgoutput_message(&[]);
    assert!(matches!(result, Err(Error::SourceError(_))));
}

#[test]
fn decode_pgoutput_rejects_truncated_begin() {
    let truncated = &build_begin(1000, 0, 1)[..5];
    let result = decode_pgoutput_message(truncated);
    assert!(result.is_err());
}

#[test]
fn pg_timestamp_to_millis_at_pg_epoch() {
    let ms = pg_timestamp_to_millis(0);
    assert_eq!(ms, 946_684_800_000);
}

#[test]
fn pg_timestamp_to_millis_handles_negative() {
    let ms = pg_timestamp_to_millis(i64::MIN);
    assert_eq!(ms, 0);
}

#[test]
fn format_pg_lsn_round_trips_with_parse() {
    let original: u64 = (0x16_u64 << 32) | 0xB374D848;
    let formatted = format_pg_lsn(original);
    let parsed = parse_pg_lsn(&formatted).unwrap();
    assert_eq!(parsed, original);
}

#[test]
fn pgoutput_poll_error_maps_dead_slot_guidance() {
    let err = map_pgoutput_poll_error("slot1", "ERROR: required WAL segment has been removed");
    let msg = err.message().to_string();
    assert!(msg.contains("stale or dead"));
    assert!(msg.contains("slot1"));
}

#[test]
fn parse_pg_lsn_supports_valid_hex_format() {
    let parsed = parse_pg_lsn("16/B374D848").unwrap();
    assert_eq!(parsed, (0x16_u64 << 32) | 0xB374D848);
}

#[test]
fn parse_pg_lsn_rejects_invalid_format() {
    let error = parse_pg_lsn("invalid").unwrap_err();
    assert!(matches!(error, Error::SourceError(_)));
}

#[test]
fn parse_table_reference_supports_quoted_identifiers_and_rejects_injection_like_inputs() {
    assert!(parse_table_reference("public.users").is_ok());
    let quoted = parse_table_reference("public.\"users.with.dot\"").unwrap();
    assert_eq!(quoted.0, "public");
    assert_eq!(quoted.1, "users.with.dot");

    let quoted_schema = parse_table_reference("\"sales-team\".users").unwrap();
    assert_eq!(quoted_schema.0, "sales-team");
    assert_eq!(quoted_schema.1, "users");

    assert!(parse_table_reference("users;DROP TABLE audit").is_err());
    assert!(parse_table_reference("public.users --comment").is_err());
    assert!(parse_table_reference("public.\"unterminated").is_err());
}

#[test]
fn decode_stream_resume_lsn_uses_checkpoint_value() {
    let offset = PostgresOffset {
        lsn: 4242,
        slot_name: "slot".into(),
    };
    let lsn = decode_stream_resume_lsn("postgres", "slot", "postgres", &offset).unwrap();
    assert_eq!(lsn, 4242);
}

#[test]
fn stream_resume_alignment_accepts_exact_match() {
    assert_eq!(reconcile_stream_resume_lsn(42, 42, "slot").unwrap(), 42);
}

#[test]
fn stream_resume_alignment_accepts_checkpoint_behind_slot() {
    assert_eq!(reconcile_stream_resume_lsn(41, 42, "slot").unwrap(), 41);
}

#[test]
fn stream_resume_alignment_rejects_checkpoint_ahead_of_slot() {
    let error = reconcile_stream_resume_lsn(43, 42, "slot").unwrap_err();
    assert!(matches!(error, Error::CheckpointError(_)));
}

#[test]
fn a_content_length_beyond_the_frame_is_rejected() {
    let mut buf = vec![b'M'];
    buf.push(1);
    buf.extend_from_slice(&160u64.to_be_bytes());
    buf.extend_from_slice(b"outbox");
    buf.push(0);
    buf.extend_from_slice(&i32::MAX.to_be_bytes());
    buf.extend_from_slice(b"tiny");

    let error = decode_pgoutput_message(&buf).expect_err("must not allocate on a lie");
    assert!(
        error.message().contains("content bytes but only"),
        "the error must name the mismatch: {error:?}"
    );
}

#[test]
fn a_negative_content_length_is_rejected() {
    let mut buf = vec![b'M'];
    buf.push(1);
    buf.extend_from_slice(&160u64.to_be_bytes());
    buf.extend_from_slice(b"p");
    buf.push(0);
    buf.extend_from_slice(&(-1i32).to_be_bytes());

    let error = decode_pgoutput_message(&buf).expect_err("negative length is not a length");
    assert!(
        error.message().contains("negative content length"),
        "{error:?}"
    );
}

#[test]
fn every_cut_of_a_message_is_refused() {
    let whole = build_update(
        1001,
        Some(&[Some("1"), None]),
        &[Some("1"), Some("bob")],
    );
    assert!(decode_pgoutput_message(&whole).is_ok());
    for cut in 0..whole.len() {
        assert!(decode_pgoutput_message(&whole[..cut]).is_err(), "cut at {cut}");
    }
}

#[test]
fn truncations_list_their_relations() {
    let mut buf = vec![b'T'];
    buf.extend_from_slice(&2u32.to_be_bytes());
    buf.push(1);
    buf.extend_from_slice(&7u32.to_be_bytes());
    buf.extend_from_slice(&9u32.to_be_bytes());
    match decode_pgoutput_message(&buf).unwrap() {
        PgOutputMessage::Truncate(t) => {
            assert_eq!(t.options, 1);
            assert_eq!(t.relation_oids, vec![7, 9]);
        }
        other => panic!("unexpected: {other:?}"),
    }
}

#[test]
fn logical_messages_carry_prefix_and_content() {
    let mut buf = vec![b'M', 1];
    buf.extend_from_slice(&160u64.to_be_bytes());
    buf.extend_from_slice(b"outbox\0");
    buf.extend_from_slice(&4i32.to_be_bytes());
    buf.extend_from_slice(&[1, 2, 3, 255]);
    match decode_pgoutput_message(&buf).unwrap() {
        PgOutputMessage::LogicalMessage(m) => {
            assert!(m.transactional);
            assert_eq!(m.lsn, 160);
            assert_eq!(m.prefix, "outbox");
            assert_eq!(m.content, vec![1, 2, 3, 255]);
        }
        other => panic!("unexpected: {other:?}"),
    }
}

#[test]
fn lsn_texts_are_two_hex_numbers() {
    assert_eq!(format_pg_lsn(0), "0/00000000");
    assert_eq!(format_pg_lsn((0x16_u64 << 32) | 0xB374D848), "16/B374D848");
    assert_eq!(parse_pg_lsn("0/64").unwrap(), 100);
    assert!(parse_pg_lsn("0/").is_err());
    assert!(parse_pg_lsn("123456789/0").is_err());
}

#[test]
fn names_are_quoted_and_split() {
    assert_eq!(quote_pg_identifier("or\"der"), "\"or\"\"der\"");
    assert_eq!(qualified_table_name("public", "users"), "\"public\".\"users\"");
    assert_eq!(
        split_qualified_table_name("sales.users"),
        ("sales".to_string(), "users".to_string())
    );
    assert_eq!(
        split_qualified_table_name("users"),
        ("public".to_string(), "users".to_string())
    );
}

#[test]
fn a_checkpoint_of_another_slot_or_source_is_refused() {
    let offset = PostgresOffset::new(7, "slot".into());
    assert!(matches!(
        decode_stream_resume_lsn("postgres", "other", "postgres", &offset),
        Err(Error::CheckpointError(_))
    ));
    assert!(matches!(
        decode_stream_resume_lsn("postgres", "slot", "mysql", &offset),
        Err(Error::CheckpointError(_))
    ));
}

#[test]
fn places_that_cannot_be_resumed_from_are_named() {
    let offset = PostgresOffset::new(42, "slot".into());
    let told = |place: Result<u64, Error>| place.unwrap_err().message().to_string();
    assert_eq!(
        told(decode_stream_resume_lsn("postgres", "slot", "mysql", &offset)),
        "cannot resume postgres stream from source type 'mysql'"
    );
    assert_eq!(
        told(decode_stream_resume_lsn("postgres", "other", "postgres", &offset)),
        "checkpoint was written for replication slot 'slot' and cannot be resumed on slot 'other'"
    );
    assert_eq!(
        told(reconcile_stream_resume_lsn(43, 42, "slot")),
        "checkpoint LSN 0/0000002B is ahead of the confirmed position 0/0000002A of replication \
         slot slot"
    );
    assert_eq!(told(parse_pg_lsn("0/")), "invalid postgres LSN '0/'");
    assert_eq!(
        parse_table_reference("a b").unwrap_err().message(),
        "invalid postgres table reference 'a b': expected table or schema.table"
    );
}
