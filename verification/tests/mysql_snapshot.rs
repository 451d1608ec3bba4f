use rustcdc::capabilities::SnapshotEnd;
use rustcdc::config::{SecretString, TransportConfig};
use rustcdc::error::Error;
use rustcdc::event::{
    BeforeImage, Event, Operation, SourceMetadata, TransactionMetadata, EVENT_ENVELOPE_VERSION,
};
use rustcdc::mysql::config::MysqlSourceConfig;
use rustcdc::mysql::connection::MysqlConnection;
use rustcdc::mysql::handoff::{
    check_watermarks, compact_overlap, dedup_overlap_events_by_pk, keep_draining,
    mysql_handoff_result,
};
use rustcdc::mysql::parser::MysqlOffset;
use rustcdc::mysql::resume::SnapshotCheckpointState;
use rustcdc::mysql::snapshot::{
    ChunkAction, ChunkEvent, ChunkTurn, MysqlSnapshot, MysqlSnapshotHandle, TableSnapshot,
    TableSnapshotState,
};
use rustcdc::schema::CatalogColumn;
use serde_json::Value;

const NOW: u64 = 1_700_000_000_000;

fn number(n: i64) -> Value {
    Value::from(n)
}

fn object(members: &[(&str, Value)]) -> Value {
    let mut map = serde_json::Map::new();
    for (name, value) in members {
        map.insert((*name).to_string(), value.clone());
    }
    Value::Object(map)
}

fn person(id: i64, name: &str) -> Value {
    object(&[("id", number(id)), ("name", Value::from(name))])
}

fn progress(table: &str, total_rows: u64) -> TableSnapshot {
    TableSnapshot {
        table: table.into(),
        total_rows,
        rows_processed: 0,
        cursor_position: None,
        is_complete: total_rows == 0,
    }
}

fn table_state(name: &str, rows: Vec<Value>, live: bool, total: u64) -> TableSnapshotState {
    TableSnapshotState {
        snapshot: progress(name, total),
        primary_key_columns: vec!["id".into()],
        rows,
        next_row: 0,
        live_query: live,
        schema_name: "testdb".into(),
        bare_table: name.into(),
        catalog_columns: Vec::new(),
        schema_announced: false,
    }
}

fn handle_of(tables: Vec<TableSnapshotState>) -> MysqlSnapshotHandle {
    let snapshot = MysqlSnapshot {
        tables: tables.iter().map(|table| table.snapshot.clone()).collect(),
        snapshot_id: "mysql-snapshot-test".into(),
        snapshot_start_ts: 1,
        binlog_file: "mysql-bin.000001".into(),
        binlog_pos: 4,
        gtid: "".into(),
    };
    MysqlSnapshotHandle::new("mysql".into(), snapshot, tables, false)
}

fn test_snapshot_handle(rows: Vec<Value>) -> MysqlSnapshotHandle {
    let total = rows.len() as u64;
    handle_of(vec![table_state("users", rows, false, total)])
}

/// Builds a chunk, answering every request for live rows from a list.
fn chunk_with(
    handle: &mut MysqlSnapshotHandle,
    size: usize,
    live: &mut Vec<Value>,
) -> Vec<Event> {
    let mut turn = ChunkTurn::new();
    let mut told = ChunkEvent::Begin { chunk_size: size };
    loop {
        match handle.next_chunk(&mut turn, told, NOW) {
            ChunkAction::Fetch { limit, .. } => {
                assert!(limit > 0);
                let count = limit.min(live.len());
                let rows = live
                    .drain(..count)
                    .map(|row| (vec![row["id"].clone()], row))
                    .collect();
                told = ChunkEvent::Rows(rows);
            }
            ChunkAction::Return(events) => return events,
        }
    }
}

fn chunk(handle: &mut MysqlSnapshotHandle, size: usize) -> Vec<Event> {
    chunk_with(handle, size, &mut Vec::new())
}

#[test]
fn snapshot_chunking_and_last_chunk_marker() {
    let mut handle =
        test_snapshot_handle(vec![person(1, "alice"), person(2, "bob"), person(3, "carol")]);

    let chunk1 = chunk(&mut handle, 2);
    assert_eq!(chunk1.len(), 2);
    assert_eq!(chunk1[0].op, Operation::Read);
    assert_eq!(chunk1[0].snapshot.as_ref().expect("snapshot metadata").chunk_index, 0);
    assert!(!chunk1[1].snapshot.as_ref().expect("snapshot metadata").is_last_chunk);

    let chunk2 = chunk(&mut handle, 2);
    assert_eq!(chunk2.len(), 1);
    assert!(chunk2[0].snapshot.as_ref().expect("snapshot metadata").is_last_chunk);
    assert_eq!(chunk2[0].snapshot.as_ref().expect("snapshot metadata").chunk_index, 1);

    let chunk3 = chunk(&mut handle, 2);
    assert!(chunk3.is_empty());

    let seen_ids = chunk1
        .iter()
        .chain(chunk2.iter())
        .map(|event| event.after.as_ref().expect("after payload")["id"].clone())
        .collect::<Vec<_>>();
    assert_eq!(seen_ids, vec![number(1), number(2), number(3)]);
}

#[test]
fn snapshot_checkpoint_resume_roundtrip() {
    let rows = || vec![person(10, "nora"), person(11, "otto"), person(12, "pia")];
    let mut handle = test_snapshot_handle(rows());

    let first = chunk(&mut handle, 1);
    assert_eq!(first.len(), 1);

    assert_eq!(handle.checkpoint_source(), "mysql_snapshot");
    let saved = handle.checkpoint_state();
    let mut resumed = test_snapshot_handle(rows()).resume_from_checkpoint(saved).ok().unwrap();

    let next = chunk(&mut resumed, 10);
    assert_eq!(next.len(), 2);
    assert_eq!(next[0].after.as_ref().unwrap()["id"], number(11));
    assert_eq!(next[1].after.as_ref().unwrap()["id"], number(12));
    assert!(resumed.check_finished().is_ok());
}

#[test]
fn a_snapshot_read_in_full_passes_its_last_check() {
    let mut handle = test_snapshot_handle(vec![person(1, "alice")]);
    let _ = chunk(&mut handle, 10);
    assert!(handle.check_finished().is_ok());
}

#[test]
fn snapshot_empty_tables_return_no_events() {
    let mut handle = test_snapshot_handle(Vec::new());
    let events = chunk(&mut handle, 10);
    assert!(events.is_empty());
    assert!(handle.check_finished().is_ok());
}

#[test]
fn an_unfinished_snapshot_does_not_finish() {
    let mut handle = test_snapshot_handle(vec![person(1, "a"), person(2, "b")]);
    let _ = chunk(&mut handle, 1);
    assert!(matches!(handle.check_finished(), Err(Error::SourceError(_))));
    handle.emitted_rows = 7;
    assert!(matches!(
        handle.check_finished(),
        Err(Error::SourceError(message))
            if message == "mysql snapshot consistency check failed: emitted_rows=7 rows_processed=1"
    ));
}

#[test]
fn mysql_snapshot_offsets_and_cursors() {
    let mut handle = test_snapshot_handle(vec![person(1, "a"), person(2, "b")]);
    let events = chunk(&mut handle, 0);
    assert_eq!(events.len(), 2);
    assert_eq!(events[0].source.offset, "mysql-bin.000001:4:[0]");
    assert_eq!(events[1].source.offset, "mysql-bin.000001:4:[1]");
    assert_eq!(events[0].schema.as_deref(), Some("testdb"));
    assert_eq!(events[0].primary_key, Some(vec!["id".to_string()]));
    assert_eq!(handle.tables[0].snapshot.cursor_position.as_deref(), Some("[1]"));
    assert_eq!(handle.snapshot.tables[0].rows_processed, 2);
}

#[test]
fn a_live_table_is_read_to_exhaustion_past_its_cursor() {
    let mut handle = handle_of(vec![table_state("users", Vec::new(), true, 3)]);
    let mut live = vec![person(1, "a"), person(2, "b"), person(3, "c")];
    let first = chunk_with(&mut handle, 2, &mut live);
    assert_eq!(first.len(), 2);
    assert_eq!(first[1].source.offset, "mysql-bin.000001:4:[2]");
    assert!(!handle.is_complete());
    let query = handle.live_query(0, handle.tables[0].snapshot.cursor_position.as_deref(), 5).ok().unwrap();
    assert_eq!(
        query.statement,
        "SELECT * FROM `users` WHERE (`id`) > (?) ORDER BY `id` LIMIT ?"
    );
    assert_eq!(query.cursor, Some(vec![number(2)]));
    assert_eq!(query.limit, 5);

    let second = chunk_with(&mut handle, 2, &mut live);
    assert_eq!(second.len(), 1);
    assert!(handle.is_complete());
    assert!(second[0].snapshot.as_ref().unwrap().is_last_chunk);
    assert!(handle.check_finished().is_ok());
}

#[test]
fn live_queries_are_refused_where_they_cannot_be_made() {
    let mut table = table_state("users", Vec::new(), true, 3);
    let first = handle_of(vec![table_state("users", Vec::new(), true, 3)]);
    assert_eq!(
        first.live_query(0, None, 9).ok().unwrap().statement,
        "SELECT * FROM `users`  ORDER BY `id` LIMIT ?"
    );
    assert!(matches!(first.live_query(0, Some("nonsense"), 9), Err(Error::CheckpointError(_))));
    assert!(matches!(
        first.live_query(0, Some("[1,2]"), 9),
        Err(Error::CheckpointError(message))
            if message == "mysql snapshot cursor width mismatch for table 'users'"
    ));
    table.primary_key_columns = Vec::new();
    assert!(matches!(handle_of(vec![table]).live_query(0, None, 9), Err(Error::SourceError(_))));
    let bad = table_state("a b", Vec::new(), true, 3);
    assert!(matches!(handle_of(vec![bad]).live_query(0, None, 9), Err(Error::ConfigError(_))));
}

#[test]
fn key_columns_are_found_in_a_row() {
    let mut table = table_state("orders", Vec::new(), true, 3);
    table.primary_key_columns = vec!["tenant".into(), "id".into()];
    let handle = handle_of(vec![table]);
    let columns = vec!["id".to_string(), "x".to_string(), "tenant".to_string()];
    assert_eq!(handle.key_places(0, &columns).unwrap(), vec![2, 0]);
    assert!(matches!(
        handle.key_places(0, &vec!["id".to_string()]),
        Err(Error::SerializationError(message))
            if message == "mysql snapshot primary key column 'tenant' missing from row for table 'orders'"
    ));
}

#[test]
fn an_announcement_counts_toward_the_chunk_and_costs_no_row() {
    let mut table = table_state("users", Vec::new(), true, 2);
    table.catalog_columns =
        vec![CatalogColumn { name: "id".into(), data_type: "bigint".into(), nullable: false }];
    let mut handle = handle_of(vec![table]);
    let mut live = vec![person(1, "a"), person(2, "b")];
    let first = chunk_with(&mut handle, 1, &mut live);
    assert_eq!(first.len(), 1);
    assert_eq!(first[0].op, Operation::SchemaChange);
    assert_eq!(first[0].table, "users__ddl_events");
    assert_eq!(first[0].source.offset, "mysql-bin.000001:4");
    assert_eq!(first[0].snapshot.as_ref().unwrap().chunk_index, 0);
    assert!(!handle.is_complete(), "a full chunk does not mean an exhausted table");
    let second = chunk_with(&mut handle, 10, &mut live);
    assert_eq!(second.len(), 2);
    assert!(handle.check_finished().is_ok());
}

#[test]
fn several_tables_follow_each_other_in_one_chunk() {
    let mut handle = handle_of(vec![
        table_state("a", vec![person(1, "x")], false, 1),
        table_state("b", Vec::new(), false, 0),
        table_state("c", vec![person(2, "y"), person(3, "z")], false, 2),
    ]);
    let first = chunk(&mut handle, 2);
    let tables: Vec<&str> = first.iter().map(|event| event.table.as_str()).collect();
    assert_eq!(tables, vec!["a", "c"]);
    let second = chunk(&mut handle, 2);
    assert_eq!(second.len(), 1);
    assert_eq!(second[0].source.offset, "mysql-bin.000001:4:[1]");
}

#[test]
fn a_checkpoint_of_other_tables_is_refused() {
    let saved = |rows_processed: u64| SnapshotCheckpointState {
        snapshot_id: "s".into(),
        snapshot_start_ts: 1,
        binlog_file: "mysql-bin.000009".into(),
        binlog_pos: 77,
        gtid: "uuid:1-3".into(),
        current_table: 0,
        next_chunk_index: 4,
        tables: vec![TableSnapshot { rows_processed, ..progress("users", 9) }],
    };
    let two = handle_of(vec![
        table_state("a", Vec::new(), false, 0),
        table_state("b", Vec::new(), false, 0),
    ]);
    assert!(matches!(
        two.resume_from_checkpoint(saved(0)),
        Err(Error::CheckpointError(message))
            if message == "mysql snapshot checkpoint table count does not match snapshot handle"
    ));
    let short = test_snapshot_handle(vec![person(1, "a")]);
    assert!(matches!(
        short.resume_from_checkpoint(saved(2)),
        Err(Error::CheckpointError(message))
            if message == "rows_processed exceeds available rows for table users"
    ));
    let resumed = test_snapshot_handle(vec![person(1, "a")]).resume_from_checkpoint(saved(1)).ok().unwrap();
    assert_eq!(resumed.snapshot.binlog_file, "mysql-bin.000009");
    assert_eq!(resumed.snapshot.gtid, "uuid:1-3");
    assert_eq!(resumed.next_chunk_index, 4);
    assert_eq!(resumed.emitted_rows, 1);
    assert_eq!(resumed.tables[0].next_row, 1);
}

// Handoff

fn offset(file: &str, pos: u32) -> MysqlOffset {
    MysqlOffset {
        binlog_file: file.into(),
        binlog_pos: pos,
        source_flavor: "mysql".into(),
        gtid: String::new(),
    }
}

fn connection() -> MysqlConnection {
    MysqlConnection::new(MysqlSourceConfig {
        host: "localhost".into(),
        port: 3306,
        user: "cdc".into(),
        password: SecretString::new("secret"),
        database: "app".into(),
        server_id: 1,
        transport: TransportConfig::tls(),
        ..Default::default()
    })
}

fn make_connection_with_watermarks(snapshot: MysqlOffset, stream: MysqlOffset) -> MysqlConnection {
    let mut made = connection();
    made.snapshot_watermark = Some(snapshot);
    made.stream_start = Some(stream);
    made
}

fn handoff_event(offset: &str, id: i64) -> Event {
    Event {
        before: BeforeImage::Unavailable,
        after: Some(object(&[("id", number(id)), ("v", Value::from(format!("value-{id}")))])),
        op: Operation::Update,
        source: SourceMetadata { source_name: "mysql".into(), offset: offset.into(), timestamp: 1 },
        ts: 1,
        schema: Some("app".into()),
        table: "users".into(),
        primary_key: Some(vec!["id".into()]),
        snapshot: None,
        transaction: Some(TransactionMetadata { tx_id: 1, total_events: Some(1), event_index: 0 }),
        envelope_version: EVENT_ENVELOPE_VERSION,
        schema_id: None,
        unavailable_columns: Vec::new(),
    }
}

/// Hands over from a finished snapshot to a stream that gives these batches; returns what is
/// reported and what is handed back to the stream.
fn hand_over(
    connection: &MysqlConnection,
    batches: Vec<Vec<Event>>,
) -> Result<(rustcdc::capabilities::HandoffResult, Vec<Event>), Error> {
    let (snapshot, stream) = connection.perform_handoff()?;
    check_watermarks(snapshot, stream)?;
    let end = SnapshotEnd { snapshot_end_ts: 1_700_000_000_000 };
    let mut drained = Vec::new();
    for batch in batches {
        let more = keep_draining(&batch, snapshot, 0, 400);
        drained.extend(batch);
        if !more {
            break;
        }
    }
    let (left, dropped) = compact_overlap(drained, snapshot);
    Ok((mysql_handoff_result(end, NOW, dropped), left))
}

#[test]
fn handoff_succeeds_when_stream_starts_at_snapshot_watermark() {
    let conn =
        make_connection_with_watermarks(offset("mysql-bin.000001", 1024), offset("mysql-bin.000001", 1024));
    let (result, _) = hand_over(&conn, Vec::new()).unwrap();
    assert_eq!(result.snapshot_end_ts, Some(1_700_000_000_000));
    assert!(result.stream_start_ts.is_some());
    assert_eq!(result.overlap_events_dropped, Some(0));
}

#[test]
fn handoff_succeeds_when_stream_starts_before_snapshot_watermark() {
    let conn =
        make_connection_with_watermarks(offset("mysql-bin.000001", 2048), offset("mysql-bin.000001", 512));
    let (result, _) = hand_over(&conn, Vec::new()).unwrap();
    assert_eq!(result.overlap_events_dropped, Some(0));
}

#[test]
fn handoff_fails_when_stream_starts_after_snapshot_watermark() {
    let conn =
        make_connection_with_watermarks(offset("mysql-bin.000001", 512), offset("mysql-bin.000001", 1024));
    let err = hand_over(&conn, Vec::new()).unwrap_err();
    assert!(matches!(err, Error::SourceError(_)));
}

#[test]
fn handoff_fails_when_stream_starts_in_later_binlog_file() {
    let conn =
        make_connection_with_watermarks(offset("mysql-bin.000001", 9999), offset("mysql-bin.000002", 4));
    let err = hand_over(&conn, Vec::new()).unwrap_err();
    assert!(matches!(err, Error::SourceError(_)));
}

#[test]
fn handoff_fails_when_snapshot_watermark_not_set() {
    let mut conn = connection();
    conn.stream_start = Some(offset("mysql-bin.000001", 4));
    let err = hand_over(&conn, Vec::new()).unwrap_err();
    assert!(matches!(err, Error::StateError(_)));

    let mut conn = connection();
    conn.snapshot_watermark = Some(offset("mysql-bin.000001", 4));
    assert!(matches!(hand_over(&conn, Vec::new()), Err(Error::StateError(_))));
}

#[test]
fn handoff_succeeds_when_stream_starts_in_earlier_binlog_file() {
    let conn =
        make_connection_with_watermarks(offset("mysql-bin.000002", 100), offset("mysql-bin.000001", 9999));
    let (result, _) = hand_over(&conn, Vec::new()).unwrap();
    assert_eq!(result.overlap_events_dropped, Some(0));
}

#[test]
fn handoff_overlap_is_deduplicated_by_primary_key_and_requeued() {
    let conn =
        make_connection_with_watermarks(offset("mysql-bin.000001", 100), offset("mysql-bin.000001", 10));
    let (result, requeued) = hand_over(
        &conn,
        vec![vec![
            handoff_event("mysql-bin.000001:90", 1),
            handoff_event("mysql-bin.000001:95", 1),
            handoff_event("mysql-bin.000001:99", 2),
            handoff_event("mysql-bin.000001:120", 3),
        ]],
    )
    .unwrap();

    assert_eq!(result.overlap_events_dropped, Some(1));
    assert_eq!(requeued.len(), 3);
    assert_eq!(requeued[0].after.as_ref().unwrap()["id"], number(1));
    assert_eq!(requeued[1].after.as_ref().unwrap()["id"], number(2));
    assert_eq!(requeued[2].after.as_ref().unwrap()["id"], number(3));
    assert_eq!(requeued[0].source.offset, "mysql-bin.000001:95");
}

#[test]
fn dedup_overlap_events_by_pk_keeps_last_writer_wins() {
    let events = vec![
        handoff_event("mysql-bin.000001:10", 10),
        handoff_event("mysql-bin.000001:11", 10),
        handoff_event("mysql-bin.000001:12", 11),
    ];

    let (deduped, duplicates) = dedup_overlap_events_by_pk(events);
    assert_eq!(duplicates, 1);
    assert_eq!(deduped.len(), 2);
    assert_eq!(deduped[0].after.as_ref().unwrap()["id"], number(10));
    assert_eq!(deduped[1].after.as_ref().unwrap()["id"], number(11));
    assert_eq!(deduped[0].source.offset, "mysql-bin.000001:11");
}

#[test]
fn events_of_other_schemas_and_without_keys_are_not_duplicates() {
    let mut other = handoff_event("mysql-bin.000001:11", 10);
    other.schema = Some("archive".into());
    let mut keyless = handoff_event("mysql-bin.000001:12", 10);
    keyless.primary_key = None;
    let (left, dropped) = dedup_overlap_events_by_pk(vec![
        handoff_event("mysql-bin.000001:10", 10),
        other,
        keyless.clone(),
        keyless,
    ]);
    assert_eq!(dropped, 0);
    assert_eq!(left.len(), 4);
}

#[test]
fn changes_past_the_snapshot_are_never_compacted() {
    let watermark = offset("mysql-bin.000002", 50);
    let (left, dropped) = compact_overlap(
        vec![
            handoff_event("mysql-bin.000001:900#gtid=uuid:1-4", 1),
            handoff_event("mysql-bin.000002:60", 1),
            handoff_event("mysql-bin.000002:70", 1),
        ],
        &watermark,
    );
    assert_eq!(dropped, 0);
    assert_eq!(left.len(), 3);
    let (left, dropped) = compact_overlap(
        vec![
            handoff_event("mysql-bin.000001:900", 1),
            handoff_event("mysql-bin.000002:40", 1),
            handoff_event("somewhere", 1),
        ],
        &watermark,
    );
    assert_eq!(dropped, 1);
    assert_eq!(left.len(), 2);
}

#[test]
fn draining_stops_at_the_watermark_and_with_the_budget() {
    let watermark = offset("mysql-bin.000001", 100);
    let inside = vec![handoff_event("mysql-bin.000001:90", 1)];
    let across =
        vec![handoff_event("mysql-bin.000001:90", 1), handoff_event("mysql-bin.000001:101", 1)];
    assert!(keep_draining(&inside, &watermark, 399, 400));
    assert!(!keep_draining(&inside, &watermark, 400, 400));
    assert!(keep_draining(&inside, &watermark, 1_000_000, 0), "zero is without limit");
    assert!(!keep_draining(&across, &watermark, 0, 400));
    assert!(!keep_draining(&Vec::new(), &watermark, 0, 400));
}

#[test]
fn a_started_snapshot_and_stream_leave_their_places() {
    let mut conn = connection();
    let handle = test_snapshot_handle(Vec::new());
    conn.snapshot_started(&handle);
    conn.stream_started(&offset("mysql-bin.000001", 4));
    let (snapshot, stream) = conn.perform_handoff().unwrap();
    assert_eq!(*snapshot, offset("mysql-bin.000001", 4));
    assert_eq!(*stream, offset("mysql-bin.000001", 4));
}

#[test]
fn what_cannot_be_read_live_is_named() {
    let told = |handle: &MysqlSnapshotHandle, cursor: Option<&str>| {
        handle.live_query(0, cursor, 9).err().unwrap().message().to_string()
    };
    let users = handle_of(vec![table_state("users", Vec::new(), true, 3)]);
    let reason = serde_json::from_str::<Vec<Value>>("nonsense").unwrap_err();
    assert_eq!(
        told(&users, Some("nonsense")),
        format!("mysql snapshot cursor decode failed for table 'users': {reason}")
    );
    let mut keyless = table_state("users", Vec::new(), true, 3);
    keyless.primary_key_columns = Vec::new();
    assert_eq!(
        told(&handle_of(vec![keyless]), None),
        "mysql snapshot requires a PRIMARY KEY for keyset pagination: users"
    );
    assert_eq!(
        told(&handle_of(vec![table_state("a b", Vec::new(), true, 3)]), None),
        "invalid mysql table reference 'a b': expected table or schema.table"
    );
    let mut table = table_state("orders", Vec::new(), true, 3);
    table.primary_key_columns = vec!["id".into(), "tenant".into(), "part".into()];
    let error = handle_of(vec![table]).key_places(0, &vec!["id".to_string()]).unwrap_err();
    assert_eq!(
        error.message(),
        "mysql snapshot primary key column 'tenant' missing from row for table 'orders'"
    );
    let mut short = test_snapshot_handle(vec![person(1, "a"), person(2, "b")]);
    let _ = chunk(&mut short, 1);
    assert_eq!(
        short.check_finished().unwrap_err().message(),
        "mysql snapshot consistency check failed: not all rows were emitted"
    );
    let place = |file: &str, at| MysqlOffset::new("mysql".into(), file.into(), at, "g".into());
    let later = check_watermarks(&place("mysql-bin.000001", 4), &place("mysql-bin.000001", 9));
    assert_eq!(
        later.unwrap_err().message(),
        "mysql handoff would lose changes: the stream starts at mysql-bin.000001:9, after the \
         snapshot watermark mysql-bin.000001:4"
    );
}
