use rustcdc::error::Error;
use rustcdc::event::{Event, Operation};
use rustcdc::postgres::resume::{
    fallback_snapshot_id, new_snapshot, new_table_state, row_expression, SnapshotCheckpointState,
};
use rustcdc::postgres::snapshot::{
    ChunkAction, ChunkEvent, ChunkTurn, PostgresSnapshot, PostgresSnapshotHandle, TableSnapshot,
    TableSnapshotState,
};
use rustcdc::schema::CatalogColumn;
use serde_json::Value;

const NOW: u64 = 1_700_000_000_000;

fn row(id: i64) -> Value {
    let mut map = serde_json::Map::new();
    map.insert("id".to_string(), Value::from(id));
    Value::Object(map)
}

fn progress(table: &str, total_rows: u64) -> TableSnapshot {
    TableSnapshot {
        table: table.into(),
        total_rows,
        rows_processed: 0,
        cursor_position: None,
        is_complete: total_rows == 0,
    }
}

fn table_state(name: &str, total: u64, rows: Vec<Value>, live: bool) -> TableSnapshotState {
    TableSnapshotState {
        snapshot: progress(name, total),
        rows,
        next_row: 0,
        live_query: live,
        primary_key_columns: if live { vec!["id".into()] } else { vec![] },
        primary_key_types: if live { vec!["bigint".into()] } else { vec![] },
        catalog_columns: Vec::new(),
        schema_announced: false,
        schema_id: None,
    }
}

fn handle_of(tables: Vec<TableSnapshotState>, connected: bool) -> PostgresSnapshotHandle {
    let snapshot = PostgresSnapshot {
        tables: tables.iter().map(|table| table.snapshot.clone()).collect(),
        snapshot_id: "snap-1".into(),
        snapshot_start_ts: 1,
        snapshot_end_ts: 0,
    };
    PostgresSnapshotHandle::new("postgres".into(), snapshot, tables, connected, false, 0)
}

fn users(count: i64) -> PostgresSnapshotHandle {
    handle_of(
        vec![table_state("users", count as u64, (1..=count).map(row).collect(), false)],
        false,
    )
}

/// Builds a chunk, answering every request for live rows from a list.
fn chunk_with(
    handle: &mut PostgresSnapshotHandle,
    size: usize,
    live: &mut Vec<i64>,
) -> Vec<Event> {
    let mut turn = ChunkTurn::new();
    let mut told = ChunkEvent::Begin { chunk_size: size };
    loop {
        match handle.next_chunk(&mut turn, told, NOW) {
            ChunkAction::Fetch { limit, .. } => {
                assert!(limit > 0);
                let count = limit.min(live.len());
                let rows = live.drain(..count).map(|id| (vec![id.to_string()], row(id))).collect();
                told = ChunkEvent::Rows(rows);
            }
            ChunkAction::Return(events) => return events,
        }
    }
}

fn next_chunk(handle: &mut PostgresSnapshotHandle, size: usize) -> Vec<Event> {
    chunk_with(handle, size, &mut Vec::new())
}

#[test]
fn snapshot_handle_chunks_rows_and_finishes_consistently() {
    let mut handle = users(3);
    let first = next_chunk(&mut handle, 2);
    assert_eq!(first.len(), 2);
    let second = next_chunk(&mut handle, 2);
    assert_eq!(second.len(), 1);
    let none = next_chunk(&mut handle, 2);
    assert!(none.is_empty());
    assert!(handle.check_finished().is_ok());
}

#[test]
fn snapshot_checkpoint_persists_cursor_state() {
    let mut handle = users(1);
    next_chunk(&mut handle, 1);
    let saved = handle.checkpoint_state();
    assert_eq!(saved.snapshot_id, "snap-1");
    assert_eq!(saved.tables[0].rows_processed, 1);
    assert!(saved.tables[0].is_complete);
    assert_eq!(handle.checkpoint_source(), "postgres_snapshot");
}

#[test]
fn snapshot_live_query_cursor_validation_accepts_json_pk_values() {
    assert!(PostgresSnapshotHandle::decode_pk_cursor("[\"1\"]", 1).is_ok());
    assert!(PostgresSnapshotHandle::decode_pk_cursor("[\"42\",\"9\"]", 2).is_ok());
    assert!(PostgresSnapshotHandle::decode_pk_cursor("12", 1).is_err());
    assert!(PostgresSnapshotHandle::decode_pk_cursor("[\"1\"]", 2).is_err());
    assert!(PostgresSnapshotHandle::decode_pk_cursor("[]", 1).is_err());
    assert_eq!(
        PostgresSnapshotHandle::decode_pk_cursor("[\"42\",\"9\"]", 2).unwrap(),
        vec!["42".to_string(), "9".to_string()]
    );
}

#[test]
fn snapshot_resume_rejects_malformed_pk_keyset_cursor() {
    let handle = handle_of(vec![table_state("users", 10, vec![], true)], false);
    let state = SnapshotCheckpointState {
        snapshot_id: "snap-1".into(),
        snapshot_start_ts: 1,
        snapshot_end_ts: 0,
        snapshot_watermark: 10,
        current_table: 0,
        next_chunk_index: 2,
        tables: vec![TableSnapshot {
            table: "users".into(),
            total_rows: 10,
            rows_processed: 5,
            cursor_position: Some("5".into()),
            is_complete: false,
        }],
    };
    let error = match handle.resume_from_checkpoint(state) {
        Ok(_) => panic!("resume should reject malformed keyset cursor for live query snapshots"),
        Err(error) => error,
    };
    match error {
        Error::CheckpointError(message) => {
            assert!(message.contains("expected JSON array of primary key values"));
        }
        other => panic!("unexpected error: {other:?}"),
    }
}

#[test]
fn snapshot_empty_table_emits_no_rows() {
    let mut handle = users(0);
    assert!(next_chunk(&mut handle, 10).is_empty());
    assert!(handle.check_finished().is_ok());
}

#[test]
fn snapshot_offsets_do_not_repeat_across_chunks() {
    let mut handle = users(4);
    let mut seen = std::collections::HashSet::new();
    for size in [2_usize, 1_usize, 10_usize] {
        for event in next_chunk(&mut handle, size) {
            assert!(seen.insert(event.source.offset));
        }
    }
    assert_eq!(seen.len(), 4);
    assert!(handle.check_finished().is_ok());
}

#[test]
fn snapshot_finish_allows_row_count_drift_for_live_query_tables() {
    let mut handle =
        handle_of(vec![table_state("users", 10, (1..=3).map(row).collect(), true)], false);
    let events = next_chunk(&mut handle, 10);
    assert_eq!(events.len(), 3);
    assert!(handle.check_finished().is_ok());
}

#[test]
fn a_fixed_table_with_rows_missing_does_not_finish() {
    let mut handle = handle_of(vec![table_state("users", 3, vec![row(1), row(2)], false)], false);
    next_chunk(&mut handle, 10);
    assert!(matches!(handle.check_finished(), Err(Error::SourceError(_))));
}

#[test]
fn a_resumed_snapshot_goes_on_where_it_stood() {
    let mut handle = users(3);
    assert_eq!(next_chunk(&mut handle, 2).len(), 2);
    let saved = handle.checkpoint_state();
    let mut resumed = users(3).resume_from_checkpoint(saved).ok().unwrap();
    let rest = next_chunk(&mut resumed, 10);
    assert_eq!(rest.len(), 1);
    assert_eq!(rest[0].after.as_ref().unwrap()["id"], Value::from(3));
    assert_eq!(rest[0].snapshot.as_ref().unwrap().chunk_index, 1);
    assert!(rest[0].snapshot.as_ref().unwrap().is_last_chunk);
    assert!(resumed.check_finished().is_ok());
}

#[test]
fn a_resumed_live_table_goes_on_past_its_cursor() {
    let live = || handle_of(vec![table_state("sales.users", 3, vec![], true)], true);
    let mut handle = live();
    let mut ids = vec![1, 2, 3];
    let first = chunk_with(&mut handle, 2, &mut ids);
    assert_eq!(first.len(), 2);
    assert_eq!(first[0].schema.as_deref(), Some("sales"));
    assert_eq!(first[0].table, "users");
    let saved = handle.checkpoint_state();
    assert_eq!(saved.tables[0].cursor_position.as_deref(), Some("[\"2\"]"));
    let mut resumed = live().resume_from_checkpoint(saved).ok().unwrap();
    let cursor = resumed.tables[0].snapshot.cursor_position.as_deref();
    let query = resumed.live_query(0, "row_to_json(t)", cursor, 2).ok().unwrap();
    assert_eq!(query.cursor, Some(vec!["2".to_string()]));
    assert_eq!(query.limit, 2);
    assert!(query.statement.contains("FROM \"sales\".\"users\" t"), "{}", query.statement);
    assert!(query.statement.contains("ORDER BY t.\"id\""), "{}", query.statement);
    let rest = chunk_with(&mut resumed, 5, &mut ids);
    assert_eq!(rest.len(), 1);
    assert!(resumed.check_finished().is_ok());
}

#[test]
fn a_checkpoint_that_does_not_match_is_refused() {
    let mut handle = users(2);
    next_chunk(&mut handle, 1);
    let saved = handle.checkpoint_state();
    let other = handle_of(vec![table_state("orders", 2, vec![row(1), row(2)], false)], false);
    assert!(matches!(other.resume_from_checkpoint(saved), Err(Error::CheckpointError(_))));
    let saved = handle.checkpoint_state();
    let two = handle_of(
        vec![table_state("users", 1, vec![row(1)], false), table_state("b", 0, vec![], false)],
        false,
    );
    assert!(matches!(two.resume_from_checkpoint(saved), Err(Error::CheckpointError(_))));
}

#[test]
fn a_snapshot_row_names_the_announced_shape() {
    let mut table = table_state("public.users", 2, vec![], true);
    table.catalog_columns =
        vec![CatalogColumn { name: "id".into(), data_type: "bigint".into(), nullable: false }];
    let mut handle = handle_of(vec![table], true);
    let events = chunk_with(&mut handle, 10, &mut vec![1, 2]);
    assert_eq!(events.len(), 3);
    assert_eq!(events[0].op, Operation::SchemaChange);
    assert_eq!(events[0].after.as_ref().unwrap()["ddl_type"], "READ_SCHEMA");
    assert!(events[0].schema_id.is_some());
    assert_eq!(events[1].schema_id, events[0].schema_id);
    assert_eq!(events[2].schema_id, events[0].schema_id);
    assert!(events[2].snapshot.as_ref().unwrap().is_last_chunk);
    assert!(!events[1].snapshot.as_ref().unwrap().is_last_chunk);
}

#[test]
fn row_keys_are_texts_and_never_null() {
    let handle = handle_of(vec![table_state("users", 2, vec![], true)], true);
    assert_eq!(handle.row_key(0, vec![Some("7".to_string())]).unwrap(), vec!["7".to_string()]);
    assert!(handle.row_key(0, vec![None]).is_err());
}

#[test]
fn a_snapshot_starts_from_its_tables() {
    assert_eq!(fallback_snapshot_id(77, 3), fallback_snapshot_id(77, 3));
    assert_ne!(fallback_snapshot_id(77, 3), fallback_snapshot_id(78, 3));
    let states = vec![table_state("users", 2, vec![], true)];
    let made = new_snapshot(&states, "snap".into(), 5);
    assert_eq!(made.tables.len(), 1);
    assert_eq!(made.snapshot_start_ts, 5);
    assert_eq!(made.snapshot_end_ts, 0);
}

#[test]
fn a_live_row_is_read_from_its_text() {
    let handle = handle_of(vec![table_state("users", 1, vec![], true)], true);
    assert_eq!(handle.row_payload(0, " {\"id\": 7}").unwrap(), row(7));
    match handle.row_payload(0, "{\"id\":") {
        Err(Error::SerializationError(told)) => {
            let lead = "failed decoding live snapshot JSON row for table 'public.users': ";
            assert!(told.starts_with(lead), "{told}");
            assert!(told.len() > lead.len());
        }
        other => panic!("unexpected outcome: {other:?}"),
    }
}

#[test]
fn a_whole_snapshot_emits_every_row_once_in_numbered_chunks() {
    let mut handle = handle_of(
        vec![
            table_state("users", 3, (1..=3).map(row).collect(), false),
            table_state("orders", 2, (11..=12).map(row).collect(), false),
        ],
        false,
    );
    let mut ids = Vec::new();
    let mut offsets = Vec::new();
    let mut marks = Vec::new();
    for (number, size, expected) in [(0, 2, 2), (1, 2, 2), (2, 0, 1), (3, 5, 0)] {
        let events = next_chunk(&mut handle, size);
        assert_eq!(events.len(), expected, "chunk {number}");
        for event in events {
            let tag = event.snapshot.as_ref().unwrap();
            assert_eq!(tag.chunk_index, number);
            marks.push(tag.is_last_chunk);
            ids.push(event.after.as_ref().unwrap()["id"].as_i64().unwrap());
            offsets.push(event.source.offset.clone());
        }
    }
    assert_eq!(ids, vec![1, 2, 3, 11, 12]);
    assert_eq!(offsets, vec!["0:0", "0:1", "0:2", "1:0", "1:1"]);
    assert_eq!(marks, vec![false, false, false, false, true]);
}

#[test]
fn a_checkpoint_that_does_not_fit_says_why() {
    let saved = |handle: &PostgresSnapshotHandle| handle.checkpoint_state();
    let told = |tables: Vec<TableSnapshotState>, state| {
        match handle_of(tables, false).resume_from_checkpoint(state) {
            Err(Error::CheckpointError(message)) => message,
            _ => panic!("must be refused"),
        }
    };
    let at_hand = || table_state("users", 2, vec![row(1), row(2)], false);
    assert_eq!(
        told(vec![at_hand(), at_hand()], saved(&users(2))),
        "postgres snapshot checkpoint table count does not match snapshot handle"
    );
    assert_eq!(
        told(vec![table_state("orders", 2, vec![row(1), row(2)], false)], saved(&users(2))),
        "postgres snapshot checkpoint table mismatch at index 0: expected 'orders' got 'users'"
    );
    let mut state = saved(&users(2));
    state.tables[0].rows_processed = 3;
    assert_eq!(
        told(vec![at_hand()], state),
        "rows_processed exceeds available rows for table users"
    );
    let mut state = saved(&users(2));
    state.current_table = 1;
    assert_eq!(
        told(vec![at_hand()], state),
        "postgres snapshot checkpoint current_table mismatch: saved=1 derived=0 from table \
         completion state"
    );
    let mut state = saved(&users(2));
    state.tables[0].cursor_position = Some("[\"1\",\"2\"]".into());
    assert_eq!(
        told(vec![table_state("users", 2, vec![], true)], state),
        "invalid postgres snapshot cursor for table 'users': invalid postgres snapshot cursor: \
         expected 1 key values, got 2"
    );
}

#[test]
fn a_row_is_asked_for_as_an_object_of_texts() {
    let column = |name: &str| CatalogColumn {
        name: name.into(),
        data_type: "text".into(),
        nullable: true,
    };
    assert_eq!(
        row_expression(&vec![column("id"), column("o'clock")]),
        "json_object(ARRAY['id', 'o''clock']::text[], \
         ARRAY[t.\"id\"::text, t.\"o'clock\"::text]::text[])::text"
    );
}

#[test]
fn what_cannot_be_read_live_is_named_on_postgres() {
    let told = |handle: &PostgresSnapshotHandle, cursor: Option<&str>, limit: usize| {
        handle.live_query(0, "row_to_json(t)", cursor, limit).err().unwrap().message().to_string()
    };
    let live = |name: &str, connected| {
        handle_of(vec![table_state(name, 3, vec![], true)], connected)
    };
    assert_eq!(
        told(&live("users", false), None, 2),
        "postgres snapshot live query requires an active client connection"
    );
    assert_eq!(
        told(&live("a b", true), None, 2),
        "invalid postgres table reference 'a b': expected table or schema.table"
    );
    assert_eq!(
        told(&live("users", true), None, usize::MAX),
        format!("snapshot chunk size exceeds i64 limit: {}", usize::MAX)
    );
    let keyless = handle_of(vec![table_state("sales.users", 3, vec![], false)], true);
    assert_eq!(
        told(&keyless, None, 2),
        "missing or invalid primary key metadata for snapshot table 'sales.users'"
    );
    let users = live("users", true);
    assert_eq!(
        told(&users, Some("[\"1\",\"2\"]"), 2),
        "invalid snapshot cursor for table 'users': invalid postgres snapshot cursor: expected 1 \
         key values, got 2"
    );
    let reason = serde_json::from_str::<Vec<String>>("12").unwrap_err();
    assert_eq!(
        told(&users, Some("12"), 2),
        format!(
            "invalid snapshot cursor for table 'users': invalid postgres snapshot cursor: expected \
             JSON array of primary key values: {reason}"
        )
    );
    let reason = serde_json::from_str::<Value>("{\"id\":").unwrap_err();
    assert_eq!(
        users.row_payload(0, "{\"id\":").unwrap_err().message(),
        format!("failed decoding live snapshot JSON row for table 'public.users': {reason}")
    );
    let mut short = handle_of(vec![table_state("users", 3, vec![row(1), row(2)], false)], false);
    next_chunk(&mut short, 10);
    assert_eq!(
        short.check_finished().unwrap_err().message(),
        "postgres snapshot consistency check failed: not all rows were emitted"
    );
    short.emitted_rows = 7;
    assert_eq!(
        short.check_finished().unwrap_err().message(),
        "postgres snapshot consistency check failed: emitted_rows=7"
    );
}

#[test]
fn a_table_that_cannot_be_set_up_is_named() {
    let column = || vec!["id".to_string()];
    let kind = || vec!["bigint".to_string()];
    let keyless = new_table_state("sales", "users", vec![], vec![], vec![], 3);
    assert_eq!(
        keyless.err().unwrap().message(),
        "postgres snapshot requires a primary key for resumable table 'sales.users'"
    );
    let negative = new_table_state("sales", "users", column(), kind(), vec![], -1);
    assert_eq!(
        negative.err().unwrap().message(),
        "negative row count returned for table 'sales.users'"
    );
}
