use rustcdc::ddl::extract_captured_ddl;
use rustcdc::error::Error;
use rustcdc::event::{Event, Operation};
use rustcdc::mysql::binlog::{BinlogDecoder, BinlogEvent, RowsKind};
use rustcdc::mysql::reader::{
    decode_row_change, resume_blocks, BinlogBatch, EventBody, ReadAction, ReadEvent, RowImage,
};
use rustcdc::mysql::stream::{
    MysqlBinlogMessage, MysqlRowChange, MysqlStream, MysqlStreamHandle, StreamState,
};
use rustcdc::mysql::turn::{PollAction, PollEvent};
use rustcdc::schema::{CatalogColumn, TableMap};
use serde_json::Value;
use std::collections::VecDeque;
use std::time::Duration;

const MAX_EVENTS: usize = 1_000;
const INTERVAL_MS: u64 = 50;

fn number(n: i64) -> Value {
    Value::from(n)
}

fn string(text: &str) -> Value {
    Value::from(text)
}

fn object(members: &[(&str, Value)]) -> Value {
    let mut map = serde_json::Map::new();
    for (name, value) in members {
        map.insert((*name).to_string(), value.clone());
    }
    Value::Object(map)
}

fn row_change(table: &str, before: Option<Value>, after: Option<Value>) -> MysqlRowChange {
    MysqlRowChange {
        schema: Some("app".into()),
        table: table.into(),
        primary_key: Some(vec!["id".into()]),
        before,
        after,
    }
}

/// Polls a stream as a caller with a budget would, reading from batches; a wait passes the time.
fn poll(
    handle: &mut MysqlStreamHandle,
    batches: &mut VecDeque<Vec<MysqlBinlogMessage>>,
    timeout_ms: u64,
) -> Result<Vec<Event>, Error> {
    let mut elapsed = 0;
    let mut told = PollEvent::Done;
    loop {
        match handle.next_events(timeout_ms, told, elapsed, 1_700_000_000_000)? {
            PollAction::Poll { max_events, .. } => {
                assert_eq!(max_events, handle.max_events_per_poll);
                told = PollEvent::Polled(batches.pop_front().unwrap_or_default());
            }
            PollAction::Sleep(wait) => {
                assert!(wait > 0);
                elapsed += wait;
                assert!(elapsed <= timeout_ms);
                told = PollEvent::Done;
            }
            PollAction::Return(events) => return Ok(events),
        }
    }
}

fn handle_with(
    file: &str,
    pos: u32,
    gtid: &str,
    exclude: Vec<String>,
    columns: TableMap<Vec<CatalogColumn>>,
    keys: TableMap<Vec<String>>,
) -> MysqlStreamHandle {
    MysqlStreamHandle::new(
        "mysql".into(),
        MysqlStream {
            binlog_file: file.into(),
            binlog_pos: pos,
            gtid: gtid.into(),
            stream_state: StreamState::Streaming,
        },
        MAX_EVENTS,
        INTERVAL_MS,
        Vec::new(),
        exclude,
        columns,
        keys,
    )
}

fn make_stream_handle(file: &str, pos: u32, gtid: &str) -> MysqlStreamHandle {
    handle_with(file, pos, gtid, Vec::new(), TableMap::new(), TableMap::new())
}

fn xid(tx_id: u64, timestamp_ms: u64, file: &str, pos: u32, gtid: Option<&str>) -> MysqlBinlogMessage {
    MysqlBinlogMessage::Xid {
        tx_id,
        timestamp_ms,
        binlog_file: file.into(),
        binlog_pos: pos,
        gtid: gtid.map(str::to_string),
    }
}

#[test]
fn a_table_is_announced_before_its_first_row() {
    let mut catalog: TableMap<Vec<CatalogColumn>> = TableMap::new();
    catalog.insert(
        "app".to_string(),
        "users".to_string(),
        vec![
            CatalogColumn { name: "id".into(), data_type: "bigint unsigned".into(), nullable: false },
            CatalogColumn { name: "amount".into(), data_type: "decimal(12,4)".into(), nullable: true },
        ],
    );
    let mut keys: TableMap<Vec<String>> = TableMap::new();
    keys.insert("app".to_string(), "users".to_string(), vec!["id".to_string()]);

    let mut handle = handle_with("mysql-bin.000001", 4, "", Vec::new(), catalog, keys);
    let mut batches = VecDeque::from(vec![vec![
        MysqlBinlogMessage::Begin { tx_id: 7, timestamp_ms: 1 },
        MysqlBinlogMessage::WriteRows(row_change(
            "users",
            None,
            Some(object(&[("id", string("1")), ("amount", string("12345.6789"))])),
        )),
        MysqlBinlogMessage::WriteRows(row_change(
            "users",
            None,
            Some(object(&[("id", string("2")), ("amount", string("1.0000"))])),
        )),
        xid(7, 2, "mysql-bin.000001", 100, None),
    ]]);

    let events = poll(&mut handle, &mut batches, 50).unwrap();
    assert_eq!(events.len(), 3, "one announcement and two rows");

    let after = events[0].after.as_ref().expect("schema payload");
    assert_eq!(events[0].op, Operation::SchemaChange);
    assert_eq!(events[0].table, "users__ddl_events");
    assert_eq!(after["ddl_type"], "READ_SCHEMA");
    assert_eq!(
        after["result_schema"]["columns"][1]["data_type"],
        string("decimal(12,4)"),
        "the declared type is MySQL's own spelling, complete with its modifier"
    );
    assert_eq!(
        after["result_schema"]["columns"][0]["nullable"],
        Value::from(false),
        "nullability is read from information_schema, never derived from the key"
    );
    assert_eq!(after["result_schema"]["primary_keys"], Value::from(vec!["id"]));

    assert!(
        events[1..].iter().all(|event| event.op != Operation::SchemaChange),
        "a table is announced once, not before every row"
    );
}

#[test]
fn a_table_outside_the_catalog_read_is_not_announced() {
    let mut handle = make_stream_handle("mysql-bin.000001", 4, "");
    let mut batches = VecDeque::from(vec![vec![
        MysqlBinlogMessage::Begin { tx_id: 7, timestamp_ms: 1 },
        MysqlBinlogMessage::WriteRows(row_change("users", None, Some(object(&[("id", number(1))])))),
        xid(7, 2, "mysql-bin.000001", 100, None),
    ]]);

    let events = poll(&mut handle, &mut batches, 50).unwrap();
    assert_eq!(events.len(), 1);
    assert_eq!(events[0].op, Operation::Insert);
}

#[test]
fn stream_maps_insert_update_delete_with_xid_boundaries() {
    let mut handle = make_stream_handle("mysql-bin.000001", 4, "");
    let alice = object(&[("id", number(1)), ("name", string("alice"))]);
    let bob = object(&[("id", number(1)), ("name", string("bob"))]);
    let mut batches = VecDeque::from(vec![vec![
        MysqlBinlogMessage::Begin { tx_id: 77, timestamp_ms: 1 },
        MysqlBinlogMessage::WriteRows(row_change("users", None, Some(alice.clone()))),
        MysqlBinlogMessage::UpdateRows(row_change("users", Some(alice), Some(bob.clone()))),
        MysqlBinlogMessage::DeleteRows(row_change("users", Some(bob), None)),
        xid(77, 1234, "mysql-bin.000002", 900, Some("uuid:1-10")),
    ]]);

    let events = poll(&mut handle, &mut batches, 50).unwrap();
    assert_eq!(events.len(), 3);
    assert_eq!(events[0].op, Operation::Insert);
    assert_eq!(events[1].op, Operation::Update);
    assert_eq!(events[2].op, Operation::Delete);
    assert_eq!(events[0].source.offset, "mysql-bin.000002:900#gtid=uuid:1-10");
    assert_eq!(events[0].source.timestamp, 1234);

    let tx0 = events[0].transaction.as_ref().expect("tx metadata");
    let tx2 = events[2].transaction.as_ref().expect("tx metadata");
    assert_eq!(tx0.tx_id, 77);
    assert_eq!(tx0.total_events, Some(3));
    assert_eq!(tx0.event_index, 0);
    assert_eq!(tx2.event_index, 2);

    assert_eq!(handle.stream.binlog_file, "mysql-bin.000002");
    assert_eq!(handle.stream.binlog_pos, 900);
    assert_eq!(handle.stream.gtid, "uuid:1-10");
}

#[test]
fn a_commit_extends_the_executed_set() {
    const UUID: &str = "3e11fa47-71ca-11e1-9e33-c80aa9429562";
    let mut handle = make_stream_handle("mysql-bin.000001", 4, &format!("{UUID}:1-500"));
    let one = format!("{UUID}:501");
    let mut batches = VecDeque::from(vec![vec![
        MysqlBinlogMessage::Gtid { gtid: one.clone() },
        MysqlBinlogMessage::Begin { tx_id: 1, timestamp_ms: 1 },
        MysqlBinlogMessage::WriteRows(row_change("users", None, Some(object(&[("id", number(5))])))),
        xid(1, 2, "mysql-bin.000001", 80, Some(&one)),
    ]]);
    let events = poll(&mut handle, &mut batches, 0).unwrap();
    assert_eq!(handle.stream.gtid, format!("{UUID}:1-501"));
    assert_eq!(events[0].source.offset, format!("mysql-bin.000001:80#gtid={UUID}:1-501"));
}

#[test]
fn stream_metadata_messages_update_position_without_events() {
    let mut handle = make_stream_handle("mysql-bin.000001", 4, "");
    let mut batches = VecDeque::from(vec![vec![
        MysqlBinlogMessage::Rotate { binlog_file: "mysql-bin.000010".into(), binlog_pos: 120 },
        MysqlBinlogMessage::Gtid { gtid: "uuid:100-120".into() },
        MysqlBinlogMessage::Heartbeat,
    ]]);

    let events = poll(&mut handle, &mut batches, 20).unwrap();
    assert!(events.is_empty());
    assert_eq!(handle.stream.binlog_file, "mysql-bin.000010");
    assert_eq!(handle.stream.binlog_pos, 120);
    assert_eq!(handle.stream.gtid, "uuid:100-120");
}

#[test]
fn stream_emits_schema_change_for_ddl_query_message() {
    let mut captured = extract_captured_ddl("CREATE TABLE products (id INT)")
        .expect("expected mysql DDL extraction");
    captured.ts = 2500;

    let mut handle = make_stream_handle("mysql-bin.000001", 4, "");
    let mut batches = VecDeque::from(vec![vec![MysqlBinlogMessage::Ddl {
        captured,
        timestamp_ms: 2500,
        binlog_file: "mysql-bin.000010".into(),
        binlog_pos: 321,
    }]]);

    let events = poll(&mut handle, &mut batches, 20).unwrap();
    assert_eq!(events.len(), 1);
    assert_eq!(events[0].op, Operation::SchemaChange);
    assert_eq!(events[0].source.offset, "mysql-bin.000010:321");
    assert_eq!(events[0].source.timestamp, 2500);
    assert_eq!(events[0].schema.as_deref(), Some("default"));
    assert_eq!(events[0].table, "products__ddl_events");
}

#[test]
fn a_ddl_statement_on_an_excluded_table_is_not_emitted_but_still_advances_the_position() {
    let mut captured = extract_captured_ddl("CREATE TABLE app.secrets (id INT, ssn VARCHAR(11))")
        .expect("expected mysql DDL extraction");
    captured.ts = 2500;

    let mut handle = handle_with(
        "mysql-bin.000001",
        4,
        "",
        vec!["app.secrets".into()],
        TableMap::new(),
        TableMap::new(),
    );
    let mut batches = VecDeque::from(vec![vec![MysqlBinlogMessage::Ddl {
        captured,
        timestamp_ms: 2500,
        binlog_file: "mysql-bin.000010".into(),
        binlog_pos: 321,
    }]]);

    let events = poll(&mut handle, &mut batches, 20).unwrap();
    assert!(events.is_empty(), "an excluded table's DDL must not reach a sink");
    assert_eq!(handle.stream.binlog_file, "mysql-bin.000010");
    assert_eq!(handle.stream.binlog_pos, 321);
}

#[test]
fn stream_save_position_persists_mysql_offset() {
    let mut handle = make_stream_handle("mysql-bin.000001", 4, "");
    let mut batches = VecDeque::from(vec![vec![
        MysqlBinlogMessage::Begin { tx_id: 88, timestamp_ms: 10 },
        MysqlBinlogMessage::WriteRows(row_change("users", None, Some(object(&[("id", number(5))])))),
        xid(88, 20, "mysql-bin.000003", 12345, Some("uuid:20-21")),
    ]]);

    let events = poll(&mut handle, &mut batches, 50).unwrap();
    assert_eq!(events.len(), 1);

    let restored = handle.position_offset();
    assert_eq!(restored.source_flavor, "mysql");
    assert_eq!(restored.binlog_file, "mysql-bin.000003");
    assert_eq!(restored.binlog_pos, 12345);
    assert_eq!(restored.gtid, "uuid:20-21");
}

#[test]
fn stream_timeout_returns_empty() {
    let mut handle = make_stream_handle("mysql-bin.000001", 4, "");
    let events = poll(&mut handle, &mut VecDeque::new(), 5).unwrap();
    assert!(events.is_empty());
}

#[test]
fn stream_large_transaction_handles_1k_plus_events() {
    const TX_EVENTS: usize = 1_200;
    const BATCH: usize = 600;

    let mut first_batch = vec![MysqlBinlogMessage::Begin { tx_id: 42, timestamp_ms: 1 }];
    for i in 0..BATCH {
        first_batch.push(MysqlBinlogMessage::WriteRows(row_change(
            "orders",
            None,
            Some(object(&[("id", number(i as i64)), ("v", string("a"))])),
        )));
    }
    let mut second_batch = Vec::new();
    for i in BATCH..TX_EVENTS {
        second_batch.push(MysqlBinlogMessage::WriteRows(row_change(
            "orders",
            None,
            Some(object(&[("id", number(i as i64)), ("v", string("b"))])),
        )));
    }
    second_batch.push(xid(42, 2, "mysql-bin.000001", 9999, None));
    let mut batches = VecDeque::from(vec![first_batch, second_batch, vec![]]);

    let mut handle = make_stream_handle("mysql-bin.000001", 4, "");
    let events1 = poll(&mut handle, &mut batches, 0).unwrap();
    assert!(events1.is_empty(), "no Xid in first batch so nothing committed yet");

    let events2 = poll(&mut handle, &mut batches, 0).unwrap();
    assert_eq!(events2.len(), TX_EVENTS, "all {TX_EVENTS} events committed on Xid");
    for event in &events2 {
        let tx = event.transaction.as_ref().expect("transaction metadata");
        assert_eq!(tx.tx_id, 42);
    }
    assert_eq!(handle.events_polled, TX_EVENTS as u64);
}

#[test]
fn a_stopped_stream_is_not_polled() {
    let mut handle = make_stream_handle("mysql-bin.000001", 4, "");
    handle.stream.stream_state = StreamState::Stopped;
    assert!(matches!(
        poll(&mut handle, &mut VecDeque::new(), 5),
        Err(Error::StateError(_))
    ));
}

#[test]
fn events_handed_back_come_first_and_once() {
    let mut handle = make_stream_handle("mysql-bin.000001", 4, "");
    let mut batches = VecDeque::from(vec![vec![
        MysqlBinlogMessage::Begin { tx_id: 1, timestamp_ms: 1 },
        MysqlBinlogMessage::WriteRows(row_change("users", None, Some(object(&[("id", number(1))])))),
        MysqlBinlogMessage::WriteRows(row_change("users", None, Some(object(&[("id", number(2))])))),
        xid(1, 2, "mysql-bin.000001", 80, None),
    ]]);
    let events = poll(&mut handle, &mut batches, 0).unwrap();
    assert_eq!(events.len(), 2);
    handle.requeue_events(events);
    let again = poll(&mut handle, &mut VecDeque::new(), 0).unwrap();
    assert_eq!(again.len(), 2);
    assert_eq!(again[0].after.as_ref().unwrap()["id"], number(1));
    assert_eq!(again[1].after.as_ref().unwrap()["id"], number(2));
    assert!(poll(&mut handle, &mut VecDeque::new(), 0).unwrap().is_empty());
}

#[test]
fn a_truncation_ends_the_open_transaction() {
    let mut handle = make_stream_handle("mysql-bin.000001", 4, "");
    let mut batches = VecDeque::from(vec![vec![
        MysqlBinlogMessage::Begin { tx_id: 3, timestamp_ms: 1 },
        MysqlBinlogMessage::WriteRows(row_change("users", None, Some(object(&[("id", number(1))])))),
        MysqlBinlogMessage::Truncate {
            schema: Some("app".into()),
            table: "users".into(),
            timestamp_ms: 9,
            binlog_file: "mysql-bin.000001".into(),
            binlog_pos: 70,
        },
    ]]);
    let events = poll(&mut handle, &mut batches, 0).unwrap();
    assert_eq!(events.len(), 2);
    assert_eq!(events[0].op, Operation::Insert);
    assert_eq!(events[1].op, Operation::Truncate);
    assert_eq!(events[1].source.offset, "mysql-bin.000001:70");
    assert!(events[1].transaction.is_none());
}

// From log events to messages

#[test]
fn a_rows_event_without_a_begin_opens_a_transaction() {
    let mut decoder = BinlogDecoder::new("mysql-bin.000001".into(), 4, 50);
    let timestamp = decoder.take_header(120, 3);
    assert_eq!(timestamp, 3_000);
    let messages = decoder
        .decode_event_data(
            BinlogEvent::Rows {
                kind: RowsKind::Write,
                changes: Ok(vec![row_change("users", None, Some(object(&[("id", number(1))])))]),
            },
            timestamp,
        )
        .unwrap();
    assert_eq!(messages.len(), 2);
    assert!(matches!(messages[0], MysqlBinlogMessage::Begin { tx_id: 1, timestamp_ms: 3_000 }));
    assert!(matches!(messages[1], MysqlBinlogMessage::WriteRows(_)));

    let messages = decoder.decode_event_data(BinlogEvent::Xid { xid: 99 }, timestamp).unwrap();
    assert!(matches!(
        &messages[0],
        MysqlBinlogMessage::Xid { tx_id: 1, binlog_pos: 120, gtid: None, .. }
    ));
    let messages = decoder.decode_event_data(BinlogEvent::Xid { xid: 99 }, timestamp).unwrap();
    assert!(matches!(&messages[0], MysqlBinlogMessage::Xid { tx_id: 99, .. }));
}

#[test]
fn a_rows_event_that_cannot_be_decoded_is_refused() {
    let mut decoder = BinlogDecoder::new("mysql-bin.000001".into(), 4, 50);
    let outcome = decoder.decode_event_data(
        BinlogEvent::Rows {
            kind: RowsKind::Write,
            changes: Err(Error::SourceError("no table map".into())),
        },
        1,
    );
    assert!(matches!(outcome, Err(Error::SourceError(message)) if message == "no table map"));
}

#[test]
fn query_events_become_begins_statements_and_truncations() {
    let mut decoder = BinlogDecoder::new("mysql-bin.000001".into(), 4, 50);
    decoder.take_header(50, 1);
    let begin = decoder
        .decode_event_data(BinlogEvent::Query { statement: " begin ".into() }, 10)
        .unwrap();
    assert!(matches!(begin[0], MysqlBinlogMessage::Begin { tx_id: 1, .. }));

    let truncate = decoder
        .decode_event_data(BinlogEvent::Query { statement: "TRUNCATE TABLE app.users".into() }, 11)
        .unwrap();
    assert_eq!(truncate.len(), 2);
    assert!(matches!(truncate[0], MysqlBinlogMessage::Xid { tx_id: 1, .. }));
    assert!(matches!(
        &truncate[1],
        MysqlBinlogMessage::Truncate { schema: Some(schema), table, .. }
            if schema == "app" && table == "users"
    ));

    let ddl = decoder
        .decode_event_data(BinlogEvent::Query { statement: "ALTER TABLE app.users ADD x INT".into() }, 12)
        .unwrap();
    assert!(matches!(
        &ddl[0],
        MysqlBinlogMessage::Ddl { captured, timestamp_ms: 12, binlog_pos: 50, .. }
            if captured.table == "users" && captured.ts == 12
    ));
    let other = decoder
        .decode_event_data(BinlogEvent::Query { statement: "FLUSH LOGS".into() }, 13)
        .unwrap();
    assert!(other.is_empty());
}

#[test]
fn a_rotate_event_moves_to_the_named_file() {
    let mut decoder = BinlogDecoder::new("mysql-bin.000001".into(), 4, 50);
    let messages = decoder
        .decode_event_data(
            BinlogEvent::Rotate { name: "mysql-bin.000002zz".into(), position: 4 },
            1,
        )
        .unwrap();
    assert_eq!(
        messages,
        vec![MysqlBinlogMessage::Rotate { binlog_file: "mysql-bin.000002".into(), binlog_pos: 4 }]
    );
    assert_eq!(decoder.binlog_file, "mysql-bin.000002");
    assert!(matches!(
        decoder.decode_event_data(
            BinlogEvent::Rotate { name: "mysql-bin.000003".into(), position: 1 << 32 },
            1,
        ),
        Err(Error::SourceError(_))
    ));
}

#[test]
fn mariadb_events_are_decoded_refused_or_passed_over() {
    let mut decoder = BinlogDecoder::new("mysql-bin.000001".into(), 4, 50);
    let mut body = 100u64.to_le_bytes().to_vec();
    body.extend_from_slice(&0u32.to_le_bytes());
    body.push(0);
    assert_eq!(
        decoder.decode_mariadb_event(162, 1, &body).unwrap(),
        vec![MysqlBinlogMessage::Gtid { gtid: "0-1-100".into() }]
    );
    assert!(matches!(decoder.decode_mariadb_event(162, 1, &[0; 12]), Err(Error::SourceError(_))));
    assert!(matches!(decoder.decode_mariadb_event(164, 1, &[]), Err(Error::Unrecoverable(_))));
    for passed in [160, 161, 163, 200] {
        assert!(decoder.decode_mariadb_event(passed, 1, &[]).unwrap().is_empty());
    }
    let messages = decoder.decode_event_data(BinlogEvent::Xid { xid: 5 }, 1).unwrap();
    assert!(matches!(
        &messages[0],
        MysqlBinlogMessage::Xid { gtid: Some(gtid), .. } if gtid == "0-1-100"
    ));
    let gtid = decoder
        .decode_event_data(BinlogEvent::Gtid { sid: [0x11; 16], gno: 7 }, 1)
        .unwrap();
    assert_eq!(
        gtid,
        vec![MysqlBinlogMessage::Gtid { gtid: "11111111-1111-1111-1111-111111111111:7".into() }]
    );
    assert_eq!(
        decoder.decode_event_data(BinlogEvent::Heartbeat, 1).unwrap(),
        vec![MysqlBinlogMessage::Heartbeat]
    );
    assert!(decoder.decode_event_data(BinlogEvent::Other, 1).unwrap().is_empty());
}

#[test]
fn a_key_is_taken_from_the_row_that_has_one() {
    let image = |keyed: bool| RowImage {
        columns: vec!["id".into(), "name".into()],
        key_flags: vec![keyed, false],
        values: vec![number(7), string("x")],
    };
    let change = decode_row_change("app".into(), "users".into(), Some(image(false)), Some(image(true)));
    assert_eq!(change.primary_key, Some(vec!["id".to_string()]));
    assert_eq!(change.before, Some(object(&[("id", number(7)), ("name", string("x"))])));
    assert_eq!(change.schema.as_deref(), Some("app"));
    let keyless = decode_row_change("app".into(), "users".into(), None, Some(image(false)));
    assert_eq!(keyless.primary_key, None);
    assert_eq!(keyless.before, None);
    assert_eq!(keyless.after, Some(object(&[("id", number(7)), ("name", string("x"))])));
}

#[test]
fn a_dump_request_names_a_set_only_in_gtid_mode() {
    assert!(resume_blocks(false, "nonsense").unwrap().is_none());
    assert!(resume_blocks(true, "  ").unwrap().unwrap().is_empty());
    let blocks =
        resume_blocks(true, "3E11FA47-71CA-11E1-9E33-C80AA9429562:1-5:8").unwrap().unwrap();
    assert_eq!(blocks.len(), 1);
    assert_eq!(blocks[0].intervals, vec![(1, 6), (8, 9)]);
    let error = resume_blocks(true, "nonsense").unwrap_err();
    assert!(
        matches!(error, Error::CheckpointError(message) if message.contains("is malformed"))
    );
}

fn arrived(log_pos: u32, event: BinlogEvent) -> ReadEvent {
    ReadEvent::Arrived { log_pos, timestamp_secs: 3, body: EventBody::Classified(event) }
}

#[test]
fn a_batch_ends_when_it_is_full_or_the_budget_is_spent() {
    let mut decoder = BinlogDecoder::new("mysql-bin.000001".into(), 4, 50);
    let mut batch = BinlogBatch::new(2);
    let plenty = Duration::from_secs(1);
    let action = decoder.poll_events(&mut batch, ReadEvent::Start, Duration::ZERO).unwrap();
    assert!(
        matches!(action, ReadAction::Read { wait } if wait == Duration::from_millis(50)),
        "an empty batch waits a full interval"
    );
    let action = decoder.poll_events(&mut batch, arrived(90, BinlogEvent::Heartbeat), plenty);
    assert!(matches!(action.unwrap(), ReadAction::Read { .. }));
    let action = decoder.poll_events(&mut batch, arrived(95, BinlogEvent::Heartbeat), plenty);
    assert!(matches!(action.unwrap(), ReadAction::Return(messages) if messages.len() == 2));
    assert_eq!(decoder.next_pos, 95);

    let mut batch = BinlogBatch::new(100);
    let action =
        decoder.poll_events(&mut batch, arrived(99, BinlogEvent::Heartbeat), Duration::ZERO);
    assert!(
        matches!(action.unwrap(), ReadAction::Return(messages) if messages.len() == 1),
        "the first event does not wait for the batch to fill"
    );
    let action = decoder.poll_events(&mut batch, ReadEvent::TimedOut, plenty).unwrap();
    assert!(matches!(action, ReadAction::Return(messages) if messages.is_empty()));
    let mut none = BinlogBatch::new(0);
    let action = decoder.poll_events(&mut none, ReadEvent::Start, plenty).unwrap();
    assert!(matches!(action, ReadAction::Return(messages) if messages.is_empty()));
}

#[test]
fn a_broken_stream_fails_the_batch() {
    let mut decoder = BinlogDecoder::new("mysql-bin.000001".into(), 4, 50);
    let mut batch = BinlogBatch::new(10);
    let plenty = Duration::from_secs(1);
    for told in [
        ReadEvent::Closed,
        ReadEvent::Failed("reset".into()),
        ReadEvent::Arrived {
            log_pos: 9,
            timestamp_secs: 1,
            body: EventBody::Undecodable("short".into()),
        },
    ] {
        assert!(matches!(
            decoder.poll_events(&mut batch, told, plenty),
            Err(Error::SourceError(_))
        ));
    }
    let encrypted = ReadEvent::Arrived {
        log_pos: 9,
        timestamp_secs: 1,
        body: EventBody::Unclassified { raw_event_type: 164, server_id: 1, data: Vec::new() },
    };
    assert!(matches!(
        decoder.poll_events(&mut batch, encrypted, plenty),
        Err(Error::Unrecoverable(_))
    ));
}

#[test]
fn a_set_that_cannot_be_resumed_from_is_explained() {
    assert_first_bad_entry_is_told("nonsense", "nonsense");
    assert_first_bad_entry_is_told("3E11FA47-71CA-11E1-9E33-C80AA9429562:1-5, x:1 ,y", "x:1");
    assert_eq!(
        resume_blocks(true, "3E11FA47-71CA-11E1-9E33-C80AA9429562:18446744073709551615")
            .unwrap_err()
            .message(),
        "cannot resume mysql stream: checkpointed GTID set is malformed: invalid GTID \
         '3E11FA47-71CA-11E1-9E33-C80AA9429562:18446744073709551615': number too large. Expected a \
         set such as '3E11FA47-71CA-11E1-9E33-C80AA9429562:1-5,8-10'."
    );
}

fn assert_first_bad_entry_is_told(set: &str, entry: &str) {
    let reason = <mysql_common::packets::Sid as std::str::FromStr>::from_str(entry).unwrap_err();
    assert_eq!(
        resume_blocks(true, set).unwrap_err(),
        Error::CheckpointError(format!(
            "cannot resume mysql stream: checkpointed GTID set is malformed: invalid GTID \
             '{entry}': {reason}. Expected a set such as \
             '3E11FA47-71CA-11E1-9E33-C80AA9429562:1-5,8-10'."
        ))
    );
}

#[test]
fn a_batch_that_fails_says_why() {
    let mut decoder = BinlogDecoder::new("mysql-bin.000001".into(), 4, 50);
    let mut batch = BinlogBatch::new(10);
    let unclassified = |raw_event_type: u8, data: Vec<u8>| ReadEvent::Arrived {
        log_pos: 9,
        timestamp_secs: 1,
        body: EventBody::Unclassified { raw_event_type, server_id: 1, data },
    };
    let undecodable = ReadEvent::Arrived {
        log_pos: 9,
        timestamp_secs: 1,
        body: EventBody::Undecodable("short".into()),
    };
    for (told, text) in [
        (ReadEvent::Closed, "mysql replication stream closed unexpectedly"),
        (ReadEvent::Failed("reset".into()), "mysql replication stream yielded error: reset"),
        (undecodable, "failed decoding mysql binlog event payload: short"),
        (
            unclassified(162, vec![0; 12]),
            "mariadb GTID event payload is 12 bytes, which is shorter than the 13-byte minimum \
             (8-byte sequence number, 4-byte domain id, 1-byte flags). Refusing to continue: \
             without the GTID the checkpoint falls back to a binlog file and position, which is \
             server-local and resumes at an unrelated point after a failover.",
        ),
        (
            unclassified(164, Vec::new()),
            "mariadb binlog encryption is enabled (START_ENCRYPTION_EVENT). Every subsequent event \
             is ciphertext that this connector cannot decode, so continuing would silently drop \
             all changes from this point on. Disable encrypt_binlog on the source, or capture from \
             an unencrypted replica.",
        ),
        (
            arrived(9, BinlogEvent::Rotate { name: "mysql-bin".into(), position: 4 }),
            "mysql rotate event names an unusable binlog file 'mysql-bin': expected a numbered file",
        ),
        (
            arrived(9, BinlogEvent::Rotate { name: "mysql-bin.000002".into(), position: 1 << 32 }),
            "mysql rotate position exceeds u32: 4294967296",
        ),
    ] {
        let outcome = decoder.poll_events(&mut batch, told, Duration::from_secs(1));
        assert_eq!(outcome.err().unwrap().message(), text);
    }
}

#[test]
fn a_stream_that_is_not_running_says_so() {
    let mut handle = make_stream_handle("mysql-bin.000001", 4, "");
    handle.stream.stream_state = StreamState::Starting;
    let outcome = handle.next_events(5, PollEvent::Done, 0, 1_700_000_000_000);
    assert_eq!(
        outcome.err().unwrap(),
        Error::StateError("mysql stream polling requested while stream is not running".into())
    );
}
