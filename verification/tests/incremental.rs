use rustcdc::conditions::lookup_condition;
use rustcdc::error::Error;
use rustcdc::event::{
    BeforeImage, Event, Operation, SourceMetadata, TransactionMetadata, EVENT_ENVELOPE_VERSION,
};
use rustcdc::incremental::driver::{
    CollectStep, DriveStep, IncrementalSnapshotDriver, Phase, TableProgress,
};
use rustcdc::incremental::fingerprint::{
    event_fingerprint, fingerprint_from_payload, pk_fingerprint,
};
use rustcdc::incremental::setup::DriverSetup;
use rustcdc::incremental::state::{IncrementalSnapshotState, IncrementalSnapshotTableState};
use rustcdc::incremental::table::{
    bracket_by_order, mark_events, BracketPosition, ChunkRow, IncrementalSnapshotBackend,
    SegmentPosition, SnapshotTable,
};
use rustcdc::snapshot_request::{IncrementalSnapshotConfig, SnapshotRequest};
use serde_json::Value;
use std::collections::{HashSet, VecDeque};
use std::sync::{Arc, Mutex};

type Reads = Arc<Mutex<Vec<Option<Vec<Value>>>>>;

fn object(members: &[(&str, Value)]) -> Value {
    let mut map = serde_json::Map::new();
    for (name, value) in members {
        map.insert((*name).to_string(), value.clone());
    }
    Value::Object(map)
}

fn op_name(op: Operation) -> &'static str {
    match op {
        Operation::Read => "read",
        Operation::Insert => "insert",
        Operation::Update => "update",
        Operation::Delete => "delete",
        Operation::Truncate => "truncate",
        Operation::SchemaChange => "schema_change",
        Operation::Message => "message",
    }
}

fn event_with_key(table: &str, id: i64) -> Event {
    Event {
        before: BeforeImage::Unavailable,
        after: Some(object(&[("id", Value::from(id)), ("name", Value::from("x"))])),
        op: Operation::Update,
        source: SourceMetadata {
            source_name: "test".into(),
            offset: "0".into(),
            timestamp: 0,
        },
        ts: 0,
        schema: Some("public".into()),
        table: table.into(),
        primary_key: Some(vec!["id".into()]),
        snapshot: None,
        transaction: None,
        envelope_version: EVENT_ENVELOPE_VERSION,
        schema_id: None,
        unavailable_columns: Vec::new(),
    }
}

fn stream_event_at(table: &str, id: i64, position: u64) -> Event {
    let mut event = event_with_key(table, id);
    event.source.offset = position.to_string();
    event
}

/// A database with one table in memory and a clock of its own.
struct FakeBackend {
    rows: Vec<Value>,
    clock: u64,
    /// How far the clock goes during a chunk read.
    advance_on_read: u64,
    reads: Reads,
    /// Transactions that a chunk read cannot see.
    in_flight: HashSet<u64>,
}

impl FakeBackend {
    fn describe_table(&self) -> SnapshotTable {
        SnapshotTable {
            condition: None,
            schema: "public".into(),
            name: "users".into(),
            qualified: "\"public\".\"users\"".into(),
            pk_columns: vec!["id".into()],
            pk_types: vec!["bigint".into()],
            columns: vec!["id".into()],
        }
    }

    fn fetch_chunk(&mut self, cursor: Option<&Vec<Value>>, limit: usize) -> Vec<ChunkRow> {
        self.reads.lock().expect("reads").push(cursor.cloned());
        self.clock += self.advance_on_read;
        let after = cursor
            .and_then(|values| values.first().cloned())
            .and_then(|value| value.as_i64())
            .unwrap_or(i64::MIN);
        self.rows
            .iter()
            .filter(|row| row["id"].as_i64().unwrap_or_default() > after)
            .take(limit)
            .map(|row| ChunkRow { cursor: vec![row["id"].clone()], row: row.clone() })
            .collect()
    }
}

impl IncrementalSnapshotBackend for FakeBackend {
    type Position = u64;

    fn position_of_event(&self, event: &Event) -> Option<u64> {
        event.source.offset.parse().ok()
    }

    fn event_in_bracket(
        &self,
        event: &Event,
        position: &u64,
        low: &u64,
        high: &u64,
    ) -> BracketPosition {
        let invisible =
            event.transaction.as_ref().is_some_and(|tx| self.in_flight.contains(&tx.tx_id));
        if invisible && position <= high {
            return BracketPosition::Inside;
        }
        bracket_by_order(position, low, high)
    }
}

/// A driver, its database and its live stream.
struct Driver {
    inner: IncrementalSnapshotDriver<u64>,
    backend: FakeBackend,
    batches: VecDeque<Vec<Event>>,
}

impl std::ops::Deref for Driver {
    type Target = IncrementalSnapshotDriver<u64>;

    fn deref(&self) -> &Self::Target {
        &self.inner
    }
}

impl std::ops::DerefMut for Driver {
    fn deref_mut(&mut self) -> &mut Self::Target {
        &mut self.inner
    }
}

impl Driver {
    fn next_events(&mut self, timeout_ms: u64) -> Result<Vec<Event>, Error> {
        loop {
            match self.inner.drive(timeout_ms) {
                DriveStep::Deliver(events) => {
                    self.inner.count_delivered(events.len());
                    return Ok(events);
                }
                DriveStep::PassThrough { .. } => {
                    let events = self.batches.pop_front().unwrap_or_default();
                    self.inner.count_delivered(events.len());
                    return Ok(events);
                }
                DriveStep::ReadChunk { table_idx } => {
                    let low = self.backend.clock;
                    let limit = self.inner.chunk_size;
                    let cursor = self.inner.tables[table_idx].pk_cursor.as_ref();
                    let rows = self.backend.fetch_chunk(cursor, limit);
                    let high = self.backend.clock;
                    self.inner.chunk_read(table_idx, low, rows, high, 1_700_000_000_000);
                }
                DriveStep::Collect { timeout_ms } => {
                    assert!(timeout_ms <= 100);
                    let events = self.batches.pop_front().unwrap_or_default();
                    let marks = match &self.inner.phase {
                        Phase::ChunkCollect { low_watermark, high_watermark, .. } => {
                            mark_events(&self.backend, &events, low_watermark, high_watermark)
                        }
                        _ => panic!("a chunk is open"),
                    };
                    let step = match self.inner.collect(events, marks) {
                        CollectStep::AskPosition => self.inner.collect_quiet(self.backend.clock),
                        other => other,
                    };
                    if let CollectStep::Deliver(events) = step {
                        self.inner.count_delivered(events.len());
                        return Ok(events);
                    }
                }
            }
        }
    }

    fn incremental_snapshot_state(&self) -> Option<IncrementalSnapshotState> {
        Some(self.inner.snapshot_state())
    }

    fn request(&mut self, request: SnapshotRequest) -> Result<usize, Error> {
        let described = request.tables.iter().map(|_| Ok(self.backend.describe_table())).collect();
        self.inner.enqueue_tables(&request, described)
    }
}

fn build(
    backend: FakeBackend,
    batches: Vec<Vec<Event>>,
    config: IncrementalSnapshotConfig,
    resume: Option<IncrementalSnapshotState>,
) -> Result<Driver, Error> {
    let mut setup = DriverSetup::begin(config, "test".to_string(), resume);
    while setup.next_table().is_some() {
        setup.table_described(Ok(backend.describe_table()))?;
    }
    Ok(Driver {
        inner: IncrementalSnapshotDriver::new(setup, 1_700_000_000_000),
        backend,
        batches: batches.into_iter().collect(),
    })
}

fn fake(rows: Vec<Value>, advance_on_read: u64, in_flight: HashSet<u64>) -> (FakeBackend, Reads) {
    let reads: Reads = Arc::new(Mutex::new(Vec::new()));
    let backend =
        FakeBackend { rows, clock: 100, advance_on_read, reads: Arc::clone(&reads), in_flight };
    (backend, reads)
}

fn driver_with_config_resuming(
    rows: Vec<Value>,
    config: IncrementalSnapshotConfig,
    resume: Option<IncrementalSnapshotState>,
) -> Driver {
    let (backend, _reads) = fake(rows, 0, HashSet::new());
    build(backend, Vec::new(), config, resume).ok().expect("driver builds")
}

fn driver_with_config(rows: Vec<Value>, config: IncrementalSnapshotConfig) -> Driver {
    driver_with_config_resuming(rows, config, None)
}

fn driver_resuming_from(
    rows: Vec<Value>,
    resume: Option<IncrementalSnapshotState>,
    chunk_size: usize,
) -> Driver {
    let config = IncrementalSnapshotConfig::new(vec!["public.users".to_string()])
        .with_chunk_size(chunk_size);
    driver_with_config_resuming(rows, config, resume)
}

fn driver_with(
    rows: Vec<Value>,
    batches: Vec<Vec<Event>>,
    advance_on_read: u64,
    chunk_size: usize,
) -> (Driver, Reads) {
    driver_with_in_flight(rows, batches, advance_on_read, chunk_size, HashSet::new())
}

fn driver_with_in_flight(
    rows: Vec<Value>,
    batches: Vec<Vec<Event>>,
    advance_on_read: u64,
    chunk_size: usize,
    in_flight: HashSet<u64>,
) -> (Driver, Reads) {
    let (backend, reads) = fake(rows, advance_on_read, in_flight);
    let config = IncrementalSnapshotConfig::new(vec!["public.users".to_string()])
        .with_chunk_size(chunk_size);
    (build(backend, batches, config, None).ok().expect("driver builds"), reads)
}

fn drain(driver: &mut Driver) -> Vec<Event> {
    let mut all = Vec::new();
    let mut quiet = 0;
    for _ in 0..200 {
        let batch = driver.next_events(10).expect("drive");
        if batch.is_empty() {
            quiet += 1;
            if quiet == 2 {
                break;
            }
        } else {
            quiet = 0;
            all.extend(batch);
        }
    }
    all
}

fn config_with_condition(tables: Vec<&str>, condition: Option<&str>) -> IncrementalSnapshotConfig {
    let config = IncrementalSnapshotConfig::new(tables.into_iter().map(String::from).collect())
        .with_chunk_size(10);
    match condition {
        Some(condition) => config.with_table_condition("public.users", condition),
        None => config,
    }
}

fn toast_update_at(id: i64, position: u64, title: &str) -> Event {
    let mut event = stream_event_at("users", id, position);
    event.op = Operation::Update;
    event.ts = 1;
    event.source.timestamp = 1;
    event.before = BeforeImage::key_only(object(&[("id", Value::from(id))]));
    event.after = Some(object(&[("id", Value::from(id)), ("title", Value::from(title))]));
    event.unavailable_columns = vec!["body".to_string()];
    event
}

fn delivered_update(events: &[Event], id: i64) -> &Event {
    events
        .iter()
        .find(|event| {
            event.op == Operation::Update
                && event.after.as_ref().and_then(|a| a.get("id")?.as_i64()) == Some(id)
        })
        .expect("the update was delivered")
}

#[test]
fn a_chunk_row_and_a_stream_event_for_the_same_key_fingerprint_identically() {
    let chunk = fingerprint_from_payload(
        "users",
        &["id".to_string()],
        &object(&[("id", Value::from(7)), ("name", Value::from("x"))]),
    );
    let stream = event_fingerprint(&event_with_key("users", 7)).expect("event has a key");
    assert_eq!(chunk, stream);
}

#[test]
fn fingerprints_are_scoped_to_the_table() {
    let users = fingerprint_from_payload("users", &["id".to_string()], &object(&[("id", Value::from(1))]));
    let orders = fingerprint_from_payload("orders", &["id".to_string()], &object(&[("id", Value::from(1))]));
    assert_ne!(
        users, orders,
        "the same key in two tables must not collide in one override set"
    );
}

#[test]
fn a_composite_key_fingerprints_in_column_order() {
    let columns = vec!["tenant".to_string(), "id".to_string()];
    let payload = object(&[("id", Value::from(2)), ("tenant", Value::from("acme")), ("other", Value::from(9))]);
    assert_eq!(
        fingerprint_from_payload("t", &columns, &payload),
        pk_fingerprint("t", &[Value::from("acme"), Value::from(2)]),
        "column order must follow the primary key, not the payload's key order"
    );
}

#[test]
fn a_missing_key_column_fingerprints_as_null_rather_than_being_skipped() {
    assert_eq!(
        fingerprint_from_payload("t", &["a".into(), "b".into()], &object(&[("a", Value::from(1))])),
        pk_fingerprint("t", &[Value::from(1), Value::Null]),
    );
}

#[test]
fn an_event_without_a_primary_key_has_no_fingerprint() {
    let mut event = event_with_key("users", 1);
    event.primary_key = None;
    assert!(event_fingerprint(&event).is_none());

    let mut empty = event_with_key("users", 1);
    empty.primary_key = Some(Vec::new());
    assert!(event_fingerprint(&empty).is_none());
}

#[test]
fn a_delete_event_fingerprints_from_its_before_image() {
    let mut event = event_with_key("users", 5);
    event.before = event
        .after
        .take()
        .map_or(BeforeImage::Unavailable, BeforeImage::full);
    event.op = Operation::Delete;
    assert_eq!(
        event_fingerprint(&event).expect("delete carries a before image"),
        fingerprint_from_payload("users", &["id".to_string()], &object(&[("id", Value::from(5))])),
    );
}

#[test]
fn a_quiet_database_still_completes_the_snapshot() {
    let rows = vec![object(&[("id", Value::from(1))]), object(&[("id", Value::from(2))]), object(&[("id", Value::from(3))])];
    let (mut driver, _) = driver_with(rows, vec![], 0, 10);

    let emitted = drain(&mut driver);
    assert_eq!(emitted.len(), 3, "every row must be emitted");
    assert!(emitted.iter().all(|event| event.op == Operation::Read));
}

#[test]
fn the_incremental_driver_never_claims_a_last_chunk() {
    let rows = vec![object(&[("id", Value::from(1))]), object(&[("id", Value::from(2))])];
    let (mut driver, _) = driver_with(rows, vec![], 0, 10);

    let emitted = drain(&mut driver);
    assert_eq!(emitted.len(), 2, "the snapshot ran to completion");
    assert!(
        emitted
            .iter()
            .filter_map(|event| event.snapshot.as_ref())
            .all(|snapshot| !snapshot.is_last_chunk),
        "changing this is a contract change, not a bug fix — see \
         SnapshotMetadata::is_last_chunk"
    );
}

#[test]
fn a_batch_straddling_the_high_watermark_delivers_the_chunk_before_the_tail() {
    let rows = vec![object(&[("id", Value::from(1))]), object(&[("id", Value::from(2))])];
    let batches = vec![vec![
        stream_event_at("users", 2, 150),
        stream_event_at("users", 1, 250),
    ]];
    let (mut driver, _) = driver_with(rows, batches, 100, 10);

    let emitted = drain(&mut driver);
    let shape: Vec<String> = emitted
        .iter()
        .map(|event| {
            let id = event
                .after
                .as_ref()
                .or(event.before.row())
                .and_then(|row| row["id"].as_i64())
                .unwrap_or_default();
            format!("{}:{id}", op_name(event.op))
        })
        .collect();

    assert_eq!(
        shape,
        vec!["update:2", "read:1", "update:1"],
        "expected head event, then the chunk, then the held-back event past the \
         high watermark; got {shape:?}",
    );
}

#[test]
fn a_chunk_row_is_non_persistent_while_later_log_events_are_held_back() {
    let rows = vec![object(&[("id", Value::from(1))])];
    let batches = vec![vec![stream_event_at("users", 9, 250)]];
    let (mut driver, _) = driver_with(rows, batches, 100, 10);

    let first = driver.next_events(10).expect("drive");
    assert!(
        !first.is_empty() && first.iter().all(|event| event.snapshot.is_some()),
        "the chunk goes out before the held-back event, got {first:?}",
    );
    assert!(
        driver.durable_state().is_none(),
        "no durable position may be reported while log events are held back — the \
         inner stream has already consumed them",
    );

    let second = driver.next_events(10).expect("drive");
    assert_eq!(second.len(), 1, "the held-back event follows the chunk");
    assert!(second[0].snapshot.is_none());
    assert!(
        driver.durable_state().is_some(),
        "the position becomes reportable again once nothing is held back",
    );
}

#[test]
fn a_stream_event_inside_the_watermark_window_suppresses_its_chunk_row() {
    let rows = vec![object(&[("id", Value::from(1))]), object(&[("id", Value::from(2))])];
    let batches = vec![vec![stream_event_at("users", 2, 150)]];
    let (mut driver, _) = driver_with(rows, batches, 100, 10);

    let emitted = drain(&mut driver);
    let snapshot_ids: Vec<i64> = emitted
        .iter()
        .filter(|event| event.op == Operation::Read)
        .map(|event| {
            event.after.as_ref().expect("row")["id"]
                .as_i64()
                .expect("id")
        })
        .collect();
    assert_eq!(
        snapshot_ids,
        vec![1],
        "row 2 was superseded inside the window and must not be emitted as a snapshot read"
    );
    assert!(
        emitted.iter().any(|event| event.op == Operation::Update),
        "the live event itself must still pass through to the consumer"
    );
}

#[test]
fn a_stream_event_outside_the_window_does_not_suppress_anything() {
    let rows = vec![object(&[("id", Value::from(1))]), object(&[("id", Value::from(2))])];
    let batches = vec![vec![stream_event_at("users", 2, 100)]];
    let (mut driver, _) = driver_with(rows, batches, 100, 10);

    let emitted = drain(&mut driver);
    let snapshot_ids: Vec<i64> = emitted
        .iter()
        .filter(|event| event.op == Operation::Read)
        .map(|event| {
            event.after.as_ref().expect("row")["id"]
                .as_i64()
                .expect("id")
        })
        .collect();
    assert_eq!(snapshot_ids, vec![1, 2], "no row may be dropped");
}

#[test]
fn an_event_for_a_different_table_never_suppresses_a_chunk_row() {
    let rows = vec![object(&[("id", Value::from(1))])];
    let batches = vec![vec![stream_event_at("orders", 1, 150)]];
    let (mut driver, _) = driver_with(rows, batches, 100, 10);

    let emitted = drain(&mut driver);
    assert_eq!(
        emitted.iter().filter(|e| e.op == Operation::Read).count(),
        1,
        "an unrelated table's event must not suppress this table's row"
    );
}

#[test]
fn chunks_paginate_forward_and_never_re_read_the_same_cursor() {
    let rows = (1..=5).map(|id| object(&[("id", Value::from(id))])).collect();
    let (mut driver, reads) = driver_with(rows, vec![], 0, 2);

    let emitted = drain(&mut driver);
    assert_eq!(emitted.len(), 5, "every row exactly once");

    let cursors = reads.lock().expect("reads").clone();
    assert_eq!(cursors[0], None, "the first read starts from the beginning");
    let advanced: Vec<i64> = cursors
        .iter()
        .skip(1)
        .filter_map(|cursor| cursor.as_ref()?.first()?.as_i64())
        .collect();
    assert_eq!(
        advanced,
        vec![2, 4, 5],
        "each read must resume strictly after the previous chunk's last key"
    );
}

#[test]
fn a_checkpoint_taken_mid_chunk_does_not_skip_the_undelivered_chunk() {
    let rows: Vec<Value> = (1..=6).map(|id| object(&[("id", Value::from(id))])).collect();

    let (mut driver, _) = driver_with(
        rows.clone(),
        vec![vec![stream_event_at("other", 99, 105)]],
        10,
        3,
    );

    let first = driver.next_events(10).expect("drive");
    assert!(
        first.iter().all(|event| event.snapshot.is_none()),
        "the chunk must still be undelivered at this point, so only the live \
         stream event may have been returned"
    );

    let mid_chunk = driver
        .incremental_snapshot_state()
        .expect("driver reports snapshot state");
    let table = mid_chunk.table("public.users").expect("table state");
    assert_eq!(
        table.pk_cursor, None,
        "a chunk that has not been delivered must not have advanced the durable \
         cursor: {:?}",
        table.pk_cursor
    );

    let reads = Arc::new(Mutex::new(Vec::new()));
    let mut resumed = build(FakeBackend {
            rows,
            clock: 100,
            advance_on_read: 0,
            reads,
            in_flight: HashSet::new(),
        }, Vec::new(), IncrementalSnapshotConfig::new(vec!["public.users".to_string()]).with_chunk_size(3), Some(mid_chunk))
    .expect("driver builds");

    let mut ids: Vec<i64> = drain(&mut resumed)
        .iter()
        .filter(|event| event.snapshot.is_some())
        .map(|event| {
            event.after.as_ref().expect("row")["id"]
                .as_i64()
                .expect("id")
        })
        .collect();
    ids.sort_unstable();
    assert_eq!(
        ids,
        vec![1, 2, 3, 4, 5, 6],
        "a restart from a mid-chunk checkpoint must re-read the undelivered chunk \
         rather than skip it"
    );
}

#[test]
fn a_delivered_chunk_advances_the_durable_cursor_and_its_counters() {
    let rows: Vec<Value> = (1..=4).map(|id| object(&[("id", Value::from(id))])).collect();
    let (mut driver, _) = driver_with(rows, vec![], 0, 2);

    let first = driver.next_events(10).expect("drive");
    assert_eq!(first.len(), 2, "the first chunk is delivered in one batch");

    let _ = driver.next_events(10).expect("drive");
    let state = driver
        .incremental_snapshot_state()
        .expect("driver reports snapshot state");
    let table = state.table("public.users").expect("table state");
    assert_eq!(
        table.pk_cursor,
        Some(vec![Value::from(2)]),
        "a delivered chunk must advance the durable cursor to its last key"
    );
    assert_eq!(table.chunks_emitted, 1);
    assert_eq!(table.rows_emitted, 2);
}

#[test]
fn a_table_requested_at_runtime_is_snapshotted() {
    let rows: Vec<Value> = (1..=4).map(|id| object(&[("id", Value::from(id))])).collect();
    let (mut driver, _) = driver_with(rows, vec![], 0, 10);

    let first_pass = drain(&mut driver);
    assert_eq!(first_pass.len(), 4, "the configured table snapshots first");
    assert!(
        matches!(driver.phase, Phase::Done),
        "the driver must be parked once every table is complete"
    );

    let enqueued = driver
        .request(SnapshotRequest::new(vec!["public.users".to_string()]))
        .expect("request accepted");
    assert_eq!(enqueued, 1);
    assert!(
        !matches!(driver.phase, Phase::Done),
        "an enqueued table must take the driver out of Done"
    );

    let second_pass = drain(&mut driver);
    assert_eq!(
        second_pass.len(),
        4,
        "a completed table requested again must be read from the start"
    );
}

#[test]
fn a_row_filter_matches_either_the_configured_reference_or_the_resolved_name() {
    let spec = SnapshotTable {
        schema: "public".into(),
        name: "orders".into(),
        qualified: "\"public\".\"orders\"".into(),
        pk_columns: vec!["id".into()],
        pk_types: Vec::new(),
        columns: Vec::new(),
        condition: None,
    };

    let mut by_short = ahash::AHashMap::new();
    by_short.insert("orders".to_string(), "tenant = 7".to_string());
    assert_eq!(
        lookup_condition(&by_short, "orders", spec.schema.as_str(), spec.name.as_str()).as_deref(),
        Some("tenant = 7"),
    );

    let mut by_qualified = ahash::AHashMap::new();
    by_qualified.insert("PUBLIC.Orders".to_string(), "tenant = 7".to_string());
    assert_eq!(
        lookup_condition(&by_qualified, "orders", spec.schema.as_str(), spec.name.as_str()).as_deref(),
        Some("tenant = 7"),
        "the match is case-insensitive, like every other table reference here",
    );

    let mut unrelated = ahash::AHashMap::new();
    unrelated.insert("public.customers".to_string(), "tenant = 7".to_string());
    assert!(lookup_condition(&unrelated, "orders", spec.schema.as_str(), spec.name.as_str()).is_none());
}

#[test]
fn pausing_stops_chunk_reads_while_the_live_stream_keeps_flowing() {
    let rows: Vec<Value> = (1..=6).map(|id| object(&[("id", Value::from(id))])).collect();
    let (mut driver, reads) =
        driver_with(rows, vec![vec![stream_event_at("other", 99, 50)]; 6], 0, 2);

    driver.next_events(10).expect("drive");
    assert!(!driver.set_paused(true), "was not paused before");
    let reads_at_pause = reads.lock().expect("reads").len();

    let mut live = 0;
    for _ in 0..10 {
        for event in driver.next_events(10).expect("drive") {
            if event.snapshot.is_none() {
                live += 1;
            }
        }
    }
    assert!(live > 0, "the live stream must keep flowing while paused");
    assert_eq!(
        reads.lock().expect("reads").len(),
        reads_at_pause,
        "no further chunk may be read while paused"
    );

    assert!(driver.set_paused(false), "was paused before");
    let after = drain(&mut driver);
    assert!(
        after.iter().any(|event| event.snapshot.is_some()),
        "resuming must continue the snapshot"
    );
}

#[test]
fn the_paused_flag_is_durable_across_a_restart() {
    let rows: Vec<Value> = (1..=6).map(|id| object(&[("id", Value::from(id))])).collect();
    let (mut driver, _) = driver_with(rows.clone(), vec![], 0, 2);
    driver.next_events(10).expect("drive");
    driver.set_paused(true);

    let state = driver
        .incremental_snapshot_state()
        .expect("driver reports state");
    assert!(state.paused, "the checkpoint must record the pause");

    let reads = Arc::new(Mutex::new(Vec::new()));
    let mut resumed = build(FakeBackend {
            rows,
            clock: 100,
            advance_on_read: 0,
            reads: Arc::clone(&reads),
            in_flight: HashSet::new(),
        }, Vec::new(), IncrementalSnapshotConfig::new(vec!["public.users".to_string()]).with_chunk_size(2), Some(state))
    .expect("driver builds");

    let emitted = drain(&mut resumed);
    assert!(
        emitted.is_empty(),
        "a snapshot paused before the restart must stay paused after it, got {emitted:?}"
    );
    assert!(reads.lock().expect("reads").is_empty(), "no chunk was read");
}

#[test]
fn stopping_abandons_the_snapshot_but_keeps_the_stream() {
    let rows: Vec<Value> = (1..=6).map(|id| object(&[("id", Value::from(id))])).collect();
    let (mut driver, _) =
        driver_with(rows, vec![vec![stream_event_at("other", 99, 50)]; 4], 0, 2);
    driver.next_events(10).expect("drive");

    let abandoned = driver.stop_snapshot();
    assert_eq!(abandoned, 1, "one table still had work outstanding");

    let state = driver
        .incremental_snapshot_state()
        .expect("driver still reports state");
    assert!(
        state.tables.is_empty(),
        "the next checkpoint must clear the persisted snapshot, got {:?}",
        state.tables
    );

    let mut live = 0;
    for _ in 0..6 {
        for event in driver.next_events(10).expect("drive") {
            assert!(event.snapshot.is_none(), "the snapshot was abandoned");
            live += 1;
        }
    }
    assert!(live > 0, "the live stream must survive a stopped snapshot");
}

#[test]
fn a_table_behind_the_current_index_is_still_picked_up() {
    let rows: Vec<Value> = (1..=3).map(|id| object(&[("id", Value::from(id))])).collect();
    let (mut driver, _) = driver_with(rows, vec![], 0, 10);

    let stranded = TableProgress {
        spec: driver.tables[0].spec.clone(),
        pk_cursor: None,
        is_complete: true,
        chunks_emitted: 0,
        rows_emitted: 0,
    };
    driver.tables.push(stranded);
    driver.phase = Phase::ChunkPrepare { table_idx: 1 };

    let emitted = drain(&mut driver);
    assert_eq!(
        emitted.len(),
        3,
        "the incomplete table before the phase index must still be read",
    );
}

#[test]
fn requesting_a_table_already_in_progress_is_a_no_op() {
    let rows: Vec<Value> = (1..=6).map(|id| object(&[("id", Value::from(id))])).collect();
    let (mut driver, _) = driver_with(rows, vec![], 0, 2);

    let first = driver.next_events(10).expect("drive");
    assert_eq!(
        first.len(),
        2,
        "one chunk is delivered, so the table is mid-flight"
    );

    let enqueued = driver
        .request(SnapshotRequest::new(vec!["public.users".to_string()]))
        .expect("request accepted");
    assert_eq!(
        enqueued,
        0,
        "an in-progress table must not be re-enqueued: {:?}",
        driver.tables.len()
    );

    let mut ids: Vec<i64> = first
        .iter()
        .chain(drain(&mut driver).iter())
        .filter_map(|event| event.after.as_ref()?.get("id")?.as_i64())
        .collect();
    ids.sort_unstable();
    assert_eq!(ids, vec![1, 2, 3, 4, 5, 6]);
}

#[test]
fn an_unfinished_table_in_the_checkpoint_is_adopted_even_if_unconfigured() {
    let rows: Vec<Value> = (1..=4).map(|id| object(&[("id", Value::from(id))])).collect();
    let resume = IncrementalSnapshotState {
        paused: false,
        stopped: false,
        generation: 0,
        snapshot_id: "incremental-earlier-run".to_string(),
        tables: vec![IncrementalSnapshotTableState {
            table: "public.users".to_string(),
            pk_cursor: Some(vec![Value::from(2)]),
            is_complete: false,
            chunks_emitted: 1,
            rows_emitted: 2,
            condition: None,
        }],
    };

    let mut driver = build(FakeBackend {
            rows,
            clock: 100,
            advance_on_read: 0,
            reads: Arc::new(Mutex::new(Vec::new())),
            in_flight: HashSet::new(),
        }, Vec::new(), IncrementalSnapshotConfig::new(Vec::new()), Some(resume))
    .expect("driver builds");

    let ids: Vec<i64> = drain(&mut driver)
        .iter()
        .filter_map(|event| event.after.as_ref()?.get("id")?.as_i64())
        .collect();
    assert_eq!(
        ids,
        vec![3, 4],
        "the adopted table must resume from its persisted cursor, not restart"
    );
}

#[test]
fn a_completed_table_in_the_checkpoint_is_not_adopted() {
    let resume = IncrementalSnapshotState {
        paused: false,
        stopped: false,
        generation: 0,
        snapshot_id: "incremental-earlier-run".to_string(),
        tables: vec![IncrementalSnapshotTableState {
            table: "public.users".to_string(),
            pk_cursor: Some(vec![Value::from(4)]),
            is_complete: true,
            chunks_emitted: 2,
            rows_emitted: 4,
            condition: None,
        }],
    };

    let mut driver = build(FakeBackend {
            rows: (1..=4).map(|id| object(&[("id", Value::from(id))])).collect(),
            clock: 100,
            advance_on_read: 0,
            reads: Arc::new(Mutex::new(Vec::new())),
            in_flight: HashSet::new(),
        }, Vec::new(), IncrementalSnapshotConfig::new(Vec::new()), Some(resume))
    .expect("driver builds");

    assert!(
        drain(&mut driver).is_empty(),
        "a completed table must not be re-read on restart"
    );
}

#[test]
fn resuming_from_a_persisted_cursor_skips_the_rows_already_emitted() {
    let rows: Vec<Value> = (1..=5).map(|id| object(&[("id", Value::from(id))])).collect();
    let reads = Arc::new(Mutex::new(Vec::new()));
    let backend = FakeBackend {
        rows,
        clock: 100,
        advance_on_read: 0,
        reads: Arc::clone(&reads),
        in_flight: HashSet::new(),
    };
    let resume = IncrementalSnapshotState {
        paused: false,
        stopped: false,
        generation: 0,
        snapshot_id: "incremental-earlier-run".to_string(),
        tables: vec![IncrementalSnapshotTableState {
            table: "public.users".to_string(),
            pk_cursor: Some(vec![Value::from(3)]),
            is_complete: false,
            chunks_emitted: 2,
            rows_emitted: 3,
            condition: None,
        }],
    };
    let mut driver = build(backend, Vec::new(), IncrementalSnapshotConfig::new(vec!["public.users".to_string()]), Some(resume))
    .expect("driver builds");

    let emitted = drain(&mut driver);
    let ids: Vec<i64> = emitted
        .iter()
        .map(|event| {
            event.after.as_ref().expect("row")["id"]
                .as_i64()
                .expect("id")
        })
        .collect();
    assert_eq!(
        ids,
        vec![4, 5],
        "a resumed snapshot must continue from the cursor, not restart the table"
    );
    assert_eq!(
        driver.snapshot_id, "incremental-earlier-run",
        "the snapshot id must survive the restart so a consumer sees one snapshot"
    );
}

#[test]
fn a_table_marked_complete_in_the_checkpoint_is_not_read_again() {
    let reads = Arc::new(Mutex::new(Vec::new()));
    let backend = FakeBackend {
        rows: vec![object(&[("id", Value::from(1))])],
        clock: 100,
        advance_on_read: 0,
        reads: Arc::clone(&reads),
        in_flight: HashSet::new(),
    };
    let resume = IncrementalSnapshotState {
        paused: false,
        stopped: false,
        generation: 0,
        snapshot_id: "done".to_string(),
        tables: vec![IncrementalSnapshotTableState {
            table: "public.users".to_string(),
            pk_cursor: Some(vec![Value::from(1)]),
            is_complete: true,
            chunks_emitted: 1,
            rows_emitted: 1,
            condition: None,
        }],
    };
    let mut driver = build(backend, Vec::new(), IncrementalSnapshotConfig::new(vec!["public.users".to_string()]), Some(resume))
    .expect("driver builds");

    assert!(drain(&mut driver).is_empty());
    assert!(
        reads.lock().expect("reads").is_empty(),
        "a completed table must not be read at all"
    );
}

#[test]
fn a_persisted_cursor_that_no_longer_matches_the_primary_key_is_rejected() {
    let resume = IncrementalSnapshotState {
        paused: false,
        stopped: false,
        generation: 0,
        snapshot_id: "x".to_string(),
        tables: vec![IncrementalSnapshotTableState {
            table: "public.users".to_string(),
            pk_cursor: Some(vec![Value::from(1), Value::from(2)]),
            is_complete: false,
            chunks_emitted: 1,
            rows_emitted: 1,
            condition: None,
        }],
    };
    let Err(error) = build(FakeBackend {
            rows: vec![object(&[("id", Value::from(1))])],
            clock: 100,
            advance_on_read: 0,
            reads: Arc::new(Mutex::new(Vec::new())),
            in_flight: HashSet::new(),
        }, Vec::new(), IncrementalSnapshotConfig::new(vec!["public.users".to_string()]), Some(resume))
    else {
        panic!("an incompatible cursor must be rejected");
    };
    assert!(
        error.message().contains("primary key changed"),
        "the error must name the cause and the remedy, got: {error:?}"
    );
}

#[test]
fn a_stopped_snapshot_stays_stopped_across_a_restart() {
    let rows = vec![object(&[("id", Value::from(1))]), object(&[("id", Value::from(2))])];
    let (mut driver, _reads) = driver_with(rows.clone(), Vec::new(), 0, 1);

    let abandoned = driver.stop_snapshot();
    assert_eq!(abandoned, 1, "one table still had work outstanding");

    let state = driver
        .incremental_snapshot_state()
        .expect("the driver reports its state");
    assert!(
        state.stopped,
        "the stop must be recorded explicitly; an empty table list is indistinguishable \
         from a snapshot that has not started"
    );
    assert!(state.tables.is_empty());

    let mut resumed = driver_resuming_from(rows, Some(state), 1);

    let emitted = drain(&mut resumed);
    assert!(
        emitted.is_empty(),
        "a stopped snapshot must not re-read the configured tables: {} rows emitted",
        emitted.len()
    );
    assert!(
        resumed
            .incremental_snapshot_state()
            .is_some_and(|state| state.stopped),
        "the flag must persist until tables are re-requested"
    );
}

#[test]
fn requesting_a_table_clears_the_stopped_flag() {
    let (mut driver, _reads) = driver_with(vec![object(&[("id", Value::from(1))])], Vec::new(), 0, 10);
    driver.stop_snapshot();
    assert!(driver.incremental_snapshot_state().unwrap().stopped);

    let enqueued = driver
        .request(SnapshotRequest::new(vec!["public.users".to_string()]))
        .expect("re-request succeeds");
    assert_eq!(enqueued, 1);
    assert!(
        !driver.incremental_snapshot_state().unwrap().stopped,
        "a re-request must clear the stop"
    );

    let emitted = drain(&mut driver);
    assert!(
        emitted.iter().any(|event| event.op == Operation::Read),
        "the re-requested table must actually be snapshotted"
    );
}

#[test]
fn a_transaction_below_the_low_watermark_but_still_invisible_is_suppressed() {
    let mut event = stream_event_at("users", 1, 90);
    event.transaction = Some(TransactionMetadata { tx_id: 4242, total_events: None, event_index: 0 });

    let (mut driver, _reads) = driver_with_in_flight(
        vec![object(&[("id", Value::from(1))]), object(&[("id", Value::from(2))])],
        vec![vec![event]],
        10,
        10,
        HashSet::from([4242]),
    );

    let emitted = drain(&mut driver);
    let snapshot_ids: Vec<i64> = emitted
        .iter()
        .filter(|event| event.op == Operation::Read)
        .filter_map(|event| event.after.as_ref()?.get("id")?.as_i64())
        .collect();

    assert!(
        !snapshot_ids.contains(&1),
        "row 1 was modified by a transaction the chunk read could not see; emitting \
         the chunk's pre-image after the stream event resurrects the stale value. \
         Emitted snapshot ids: {snapshot_ids:?}"
    );
    assert!(
        snapshot_ids.contains(&2),
        "row 2 was untouched and must still be snapshotted: {snapshot_ids:?}"
    );
}

#[test]
fn an_unrelated_transaction_below_the_low_watermark_suppresses_nothing() {
    let mut event = stream_event_at("users", 1, 90);
    event.transaction = Some(TransactionMetadata { tx_id: 11, total_events: None, event_index: 0 });

    let (mut driver, _reads) = driver_with_in_flight(
        vec![object(&[("id", Value::from(1))]), object(&[("id", Value::from(2))])],
        vec![vec![event]],
        10,
        10,
        HashSet::from([9999]),
    );

    let emitted = drain(&mut driver);
    let snapshot_ids: Vec<i64> = emitted
        .iter()
        .filter(|event| event.op == Operation::Read)
        .filter_map(|event| event.after.as_ref()?.get("id")?.as_i64())
        .collect();
    assert_eq!(
        snapshot_ids,
        vec![1, 2],
        "an event committed before the low watermark describes a state the chunk \
         already contains, so nothing may be suppressed"
    );
}

#[test]
fn the_high_watermark_still_bounds_the_in_flight_set() {
    let mut event = stream_event_at("users", 1, 500);
    event.transaction = Some(TransactionMetadata { tx_id: 4242, total_events: None, event_index: 0 });

    let (mut driver, _reads) = driver_with_in_flight(
        vec![object(&[("id", Value::from(1))])],
        vec![vec![event]],
        10,
        10,
        HashSet::from([4242]),
    );

    let emitted = drain(&mut driver);
    let snapshot_ids: Vec<i64> = emitted
        .iter()
        .filter(|event| event.op == Operation::Read)
        .filter_map(|event| event.after.as_ref()?.get("id")?.as_i64())
        .collect();
    assert_eq!(
        snapshot_ids,
        vec![1],
        "an event past the high watermark must not suppress the chunk row, whatever \
         its transaction id"
    );
}

#[test]
fn an_empty_in_flight_set_leaves_the_position_bracket_untouched() {
    let (mut driver, _reads) = driver_with_in_flight(
        vec![object(&[("id", Value::from(1))]), object(&[("id", Value::from(2))])],
        vec![vec![stream_event_at("users", 1, 105)]],
        10,
        10,
        HashSet::new(),
    );

    let emitted = drain(&mut driver);
    let snapshot_ids: Vec<i64> = emitted
        .iter()
        .filter(|event| event.op == Operation::Read)
        .filter_map(|event| event.after.as_ref()?.get("id")?.as_i64())
        .collect();
    assert_eq!(
        snapshot_ids,
        vec![2],
        "position 105 is inside (100, 110], so row 1 must still be suppressed"
    );
}

#[test]
fn an_omitted_toast_column_is_filled_from_the_chunks_own_image() {
    let (mut driver, _reads) = driver_with(
        vec![object(&[("id", Value::from(1)), ("title", Value::from("old")), ("body", Value::from("a very large value"))])],
        vec![vec![toast_update_at(1, 105, "new")]],
        10,
        10,
    );

    let emitted = drain(&mut driver);

    assert!(
        !emitted.iter().any(|event| event.op == Operation::Read),
        "the superseded chunk row must not be emitted after the newer event"
    );

    let update = delivered_update(&emitted, 1);
    assert!(
        update.unavailable_columns.is_empty(),
        "the repaired event must declare no unavailable columns, or a sink still \
         treats it as partial: {:?}",
        update.unavailable_columns
    );
    assert_eq!(
        update.after.as_ref().unwrap()["body"],
        Value::from("a very large value"),
        "the column the UPDATE did not modify must carry its real value"
    );
    assert_eq!(
        update.after.as_ref().unwrap()["title"],
        Value::from("new"),
        "the column the UPDATE did modify must keep the event's value, not the chunk's"
    );
}

#[test]
fn a_later_event_is_filled_from_an_earlier_events_value_not_the_chunks() {
    let mut wrote_body = stream_event_at("users", 1, 104);
    wrote_body.op = Operation::Update;
    wrote_body.before = BeforeImage::key_only(object(&[("id", Value::from(1))]));
    wrote_body.after = Some(object(&[("id", Value::from(1)), ("title", Value::from("mid")), ("body", Value::from("rewritten"))]));

    let (mut driver, _reads) = driver_with(
        vec![object(&[("id", Value::from(1)), ("title", Value::from("old")), ("body", Value::from("stale"))])],
        vec![vec![wrote_body, toast_update_at(1, 105, "new")]],
        10,
        10,
    );

    let emitted = drain(&mut driver);
    let repaired = emitted
        .iter()
        .rfind(|event| event.op == Operation::Update)
        .expect("both updates were delivered");
    assert_eq!(
        repaired.after.as_ref().unwrap()["body"],
        Value::from("rewritten"),
        "filling from the chunk image would resurrect the pre-snapshot value and undo \
         the earlier event"
    );
}

#[test]
fn a_partial_before_image_is_filled_from_the_pre_event_state() {
    let mut event = stream_event_at("users", 1, 105);
    event.op = Operation::Update;
    event.before = BeforeImage::full_with_holes(object(&[("id", Value::from(1)), ("title", Value::from("old"))]), vec!["body".to_string()]);
    event.after = Some(object(&[("id", Value::from(1)), ("title", Value::from("new")), ("body", Value::from("fresh"))]));

    let (mut driver, _reads) = driver_with(
        vec![object(&[("id", Value::from(1)), ("title", Value::from("old")), ("body", Value::from("prior"))])],
        vec![vec![event]],
        10,
        10,
    );

    let emitted = drain(&mut driver);
    let update = delivered_update(&emitted, 1);
    assert!(matches!(
        &update.before,
        BeforeImage::Full { unavailable_columns, .. } if unavailable_columns.is_empty()
    ));
    assert_eq!(
        update.before.row().unwrap()["body"],
        Value::from("prior"),
        "the before-image must be filled from the state before the event, not after it"
    );
}

#[test]
fn a_repaired_column_is_not_also_listed_as_unavailable() {
    let (mut driver, _reads) = driver_with(
        vec![object(&[("id", Value::from(1)), ("title", Value::from("old")), ("body", Value::from("large"))])],
        vec![vec![toast_update_at(1, 105, "new")]],
        10,
        10,
    );

    let emitted = drain(&mut driver);
    for event in &emitted {
        for column in &event.unavailable_columns {
            assert!(
                event.after.as_ref().is_none_or(|row| row.get(column).is_none()),
                "a column is either unavailable or present"
            );
        }
    }
}

#[test]
fn an_event_for_a_key_outside_the_chunk_is_left_alone() {
    let (mut driver, _reads) = driver_with(
        vec![object(&[("id", Value::from(1)), ("title", Value::from("old")), ("body", Value::from("large"))])],
        vec![vec![toast_update_at(99, 105, "new")]],
        10,
        10,
    );

    let emitted = drain(&mut driver);
    let update = delivered_update(&emitted, 99);
    assert_eq!(
        update.unavailable_columns,
        vec!["body".to_string()],
        "an event outside the chunk must keep its own partiality rather than borrow \
         another row's value"
    );
    assert!(
        update.after.as_ref().unwrap().get("body").is_none(),
        "no value may be invented for a row the chunk never read"
    );
    assert!(
        emitted.iter().any(|event| event.op == Operation::Read),
        "the untouched chunk row must still be snapshotted"
    );
}

#[test]
fn an_event_past_the_high_watermark_is_not_repaired() {
    let (mut driver, _reads) = driver_with_in_flight(
        vec![object(&[("id", Value::from(1)), ("title", Value::from("old")), ("body", Value::from("large"))])],
        vec![vec![toast_update_at(1, 500, "new")]],
        10,
        10,
        HashSet::new(),
    );

    let emitted = drain(&mut driver);
    let update = delivered_update(&emitted, 1);
    assert_eq!(
        update.unavailable_columns,
        vec!["body".to_string()],
        "past the high watermark the chunk row is delivered first, so the merge applies \
         to a row the consumer already has"
    );
    assert!(
        emitted.iter().any(|event| event.op == Operation::Read),
        "the chunk row must be emitted, since nothing superseded it inside the bracket"
    );
}

#[test]
fn a_runtime_requested_table_gets_the_configured_condition() {
    let mut driver = driver_with_config(
        vec![object(&[("id", Value::from(1))])],
        config_with_condition(Vec::new(), Some("tenant_id = 42")),
    );

    driver
        .request(SnapshotRequest::new(vec!["public.users".to_string()]))
        .expect("request succeeds");

    let condition = driver.incremental_snapshot_state().and_then(|state| {
        state
            .tables
            .first()
            .and_then(|table| table.condition.clone())
    });
    assert_eq!(
        condition.as_deref(),
        Some("tenant_id = 42"),
        "an on-demand request must inherit the configured filter, or it reads more data \
         than the operator asked for"
    );
}

#[test]
fn a_request_condition_overrides_the_configured_one() {
    let mut driver = driver_with_config(
        vec![object(&[("id", Value::from(1))])],
        config_with_condition(Vec::new(), Some("tenant_id = 42")),
    );

    driver
        .request(
            SnapshotRequest::new(vec!["public.users".to_string()]).with_condition("public.users", "id > 100"),
        )
        .expect("request succeeds");

    let condition = driver.incremental_snapshot_state().and_then(|state| {
        state
            .tables
            .first()
            .and_then(|table| table.condition.clone())
    });
    assert_eq!(condition.as_deref(), Some("id > 100"));
}

#[test]
fn re_requesting_a_finished_table_adopts_the_new_condition() {
    let mut driver = driver_with_config(
        vec![object(&[("id", Value::from(1))])],
        config_with_condition(vec!["public.users"], Some("tenant_id = 42")),
    );

    let _ = drain(&mut driver);

    driver
        .request(
            SnapshotRequest::new(vec!["public.users".to_string()]).with_condition("public.users", "id > 100"),
        )
        .expect("re-request succeeds");

    let condition = driver.incremental_snapshot_state().and_then(|state| {
        state
            .tables
            .first()
            .and_then(|table| table.condition.clone())
    });
    assert_eq!(
        condition.as_deref(),
        Some("id > 100"),
        "a rewound table must take the new request's filter"
    );
}

#[test]
fn the_runtime_and_restart_paths_resolve_the_same_condition() {
    let rows = vec![object(&[("id", Value::from(1))]), object(&[("id", Value::from(2))])];
    let mut driver = driver_with_config(
        rows.clone(),
        config_with_condition(Vec::new(), Some("tenant_id = 42")),
    );
    driver
        .request(SnapshotRequest::new(vec!["public.users".to_string()]))
        .expect("request succeeds");
    let before_restart = driver
        .incremental_snapshot_state()
        .expect("state is reported");

    let resumed = driver_with_config_resuming(
        rows,
        config_with_condition(Vec::new(), Some("tenant_id = 42")),
        Some(driver.inner.snapshot_state()),
    );
    let after_restart = resumed.incremental_snapshot_state().expect("state");

    let condition_of = |state: &IncrementalSnapshotState| {
        state
            .tables
            .iter()
            .find(|table| table.table == "public.users")
            .and_then(|table| table.condition.clone())
    };
    assert_eq!(
        condition_of(&before_restart),
        condition_of(&after_restart),
        "a table must not change which rows it snapshots because the process restarted"
    );
    assert_eq!(
        condition_of(&after_restart).as_deref(),
        Some("tenant_id = 42")
    );
}

#[test]
fn a_table_with_no_filter_reports_none() {
    let mut driver = driver_with_config(
        vec![object(&[("id", Value::from(1))])],
        config_with_condition(Vec::new(), None),
    );
    driver
        .request(SnapshotRequest::new(vec!["public.users".to_string()]))
        .expect("request succeeds");
    assert!(
        driver
            .incremental_snapshot_state()
            .and_then(|state| state
                .tables
                .first()
                .and_then(|table| table.condition.clone()))
            .is_none()
    );
}

#[test]
fn a_request_after_a_stop_starts_a_fresh_generation() {
    let rows = vec![object(&[("id", Value::from(1)), ("name", Value::from("a"))])];
    let (mut driver, _reads) = driver_with(rows, Vec::new(), 0, 10);
    let before = driver
        .incremental_snapshot_state()
        .expect("state")
        .generation;

    driver.stop_snapshot();
    driver
        .request(SnapshotRequest::new(vec!["public.users".to_string()]))
        .expect("re-request succeeds");

    assert!(
        driver
            .incremental_snapshot_state()
            .expect("state")
            .generation
            > before,
        "the generation must advance across a stop, or the re-request's rows collide with \
         the abandoned run's"
    );
}

#[test]
fn the_generation_survives_a_restart() {
    let rows = vec![object(&[("id", Value::from(1)), ("name", Value::from("a"))])];
    let (mut driver, _reads) = driver_with(rows.clone(), Vec::new(), 0, 10);
    let _ = drain(&mut driver);
    driver
        .request(SnapshotRequest::new(vec!["public.users".to_string()]))
        .expect("re-request succeeds");
    let state = driver.incremental_snapshot_state().expect("state");
    assert!(state.generation > 0);

    let resumed = driver_resuming_from(rows, Some(driver.inner.snapshot_state()), 10);
    assert_eq!(
        resumed
            .incremental_snapshot_state()
            .expect("state")
            .generation,
        state.generation,
        "the offsets are documented as stable across a restart, so the generation they \
         embed has to be persisted"
    );
}

#[test]
fn a_bad_table_reference_fails_the_whole_request() {
    let mut driver = driver_with_config(Vec::new(), config_with_condition(Vec::new(), None));
    let request = SnapshotRequest::new(vec!["public.users".into(), "public.missing".into()]);
    let described = vec![
        Ok(driver.backend.describe_table()),
        Err(Error::ConfigError("no such table 'public.missing'".into())),
    ];
    let error = driver.inner.enqueue_tables(&request, described).expect_err("must reject");
    assert!(error.message().contains("no such table"));
    assert!(driver.tables.is_empty(), "a rejected request must leave no partial state");
    assert_eq!(driver.generation, 0);
}

#[test]
fn a_table_without_a_primary_key_is_rejected_at_construction() {
    let config = IncrementalSnapshotConfig::new(vec!["public.logs".to_string()]);
    let mut setup = DriverSetup::begin(config, "test".to_string(), None);
    assert_eq!(setup.next_table().as_deref(), Some("public.logs"));
    let error = setup
        .table_described(Ok(SnapshotTable {
            condition: None,
            schema: "public".into(),
            name: "logs".into(),
            qualified: "public.logs".into(),
            pk_columns: Vec::new(),
            pk_types: Vec::new(),
            columns: Vec::new(),
        }))
        .expect_err("a keyless table cannot be chunked");
    assert!(error.message().contains("must have a primary key"), "got: {error:?}");
}

#[test]
fn a_re_snapshotted_row_has_an_offset_of_its_own() {
    let rows = vec![object(&[("id", Value::from(1)), ("name", Value::from("a"))])];
    let (mut driver, _reads) = driver_with(rows, Vec::new(), 0, 10);
    let first = drain(&mut driver);
    assert_eq!(first.len(), 1);
    assert_eq!(
        driver.request(SnapshotRequest::new(vec!["public.users".to_string()])).unwrap(),
        1
    );
    let second = drain(&mut driver);
    assert_eq!(second.len(), 1, "the driver must re-read the row");
    assert_ne!(first[0].source.offset, second[0].source.offset);
    assert_eq!(first[0].source.offset, "incremental:0:\"public\".\"users\":users|[1]");
    assert_eq!(second[0].source.offset, "incremental:1:\"public\".\"users\":users|[1]");
}

#[test]
fn a_row_read_again_in_one_generation_has_the_same_offset() {
    let rows = || vec![object(&[("id", Value::from(1))])];
    let (mut driver, _reads) = driver_with(rows(), Vec::new(), 0, 10);
    let record = driver.snapshot_state();
    let first = drain(&mut driver);
    let mut again = driver_resuming_from(rows(), Some(record), 10);
    let second = drain(&mut again);
    assert_eq!(first[0].source.offset, second[0].source.offset);
    assert_eq!(
        first[0].snapshot.as_ref().unwrap().snapshot_id,
        second[0].snapshot.as_ref().unwrap().snapshot_id
    );
}

#[test]
fn a_held_back_tail_comes_out_whole_and_in_order() {
    let rows = vec![object(&[("id", Value::from(1))])];
    let batches = vec![
        vec![stream_event_at("other", 1, 110), stream_event_at("other", 2, 250)],
        vec![stream_event_at("other", 3, 260)],
    ];
    let (mut driver, _) = driver_with(rows, batches, 100, 10);
    let emitted = drain(&mut driver);
    let ids: Vec<i64> = emitted
        .iter()
        .filter(|event| event.table == "other")
        .map(|event| event.after.as_ref().unwrap()["id"].as_i64().unwrap())
        .collect();
    assert_eq!(ids, vec![1, 2, 3]);
    assert_eq!(driver.events_emitted, 4);
}

#[test]
fn a_table_that_cannot_be_described_any_more_is_dropped_from_the_record() {
    let record = IncrementalSnapshotState {
        paused: false,
        stopped: false,
        generation: 3,
        snapshot_id: "incremental-earlier-run".to_string(),
        tables: vec![IncrementalSnapshotTableState {
            table: "public.gone".to_string(),
            pk_cursor: None,
            is_complete: false,
            chunks_emitted: 0,
            rows_emitted: 0,
            condition: None,
        }],
    };
    let mut setup = DriverSetup::begin(
        IncrementalSnapshotConfig::new(Vec::new()),
        "test".to_string(),
        Some(record),
    );
    assert_eq!(setup.next_table().as_deref(), Some("public.gone"));
    setup.table_described(Err(Error::ConfigError("no such table".into()))).expect("dropped");
    assert_eq!(setup.next_table(), None);
    let driver: IncrementalSnapshotDriver<u64> = IncrementalSnapshotDriver::new(setup, 1);
    assert!(driver.tables.is_empty());
    assert_eq!(driver.generation, 3);
}

#[test]
fn positions_are_ordered_by_file_and_place() {
    let at = |file: u64, position: u64| SegmentPosition { file, position };
    assert_eq!(bracket_by_order(&at(2, 0), &at(1, 900), &at(2, 5)), BracketPosition::Inside);
    assert_eq!(bracket_by_order(&at(1, 900), &at(1, 900), &at(2, 5)), BracketPosition::Before);
    assert_eq!(bracket_by_order(&at(2, 6), &at(1, 900), &at(2, 5)), BracketPosition::After);
}

#[test]
fn an_event_without_a_position_passes_through() {
    let rows = vec![object(&[("id", Value::from(1))])];
    let mut event = stream_event_at("users", 1, 0);
    event.source.offset = "nowhere".into();
    let (mut driver, _) = driver_with(rows, vec![vec![event]], 100, 10);
    let emitted = drain(&mut driver);
    assert_eq!(emitted.len(), 2);
    assert_eq!(emitted[0].op, Operation::Update);
    assert_eq!(emitted[1].op, Operation::Read);
}

#[test]
fn a_chunk_size_of_zero_reads_one_row_at_a_time() {
    let rows = (1..=3).map(|id| object(&[("id", Value::from(id))])).collect();
    let (mut driver, reads) = driver_with(rows, Vec::new(), 0, 0);
    assert_eq!(drain(&mut driver).len(), 3);
    assert_eq!(reads.lock().expect("reads").len(), 4);
}

fn recorded_users(condition: Option<&str>, is_complete: bool) -> IncrementalSnapshotState {
    IncrementalSnapshotState {
        paused: false,
        stopped: false,
        generation: 1,
        snapshot_id: "incremental-earlier-run".to_string(),
        tables: vec![IncrementalSnapshotTableState {
            table: "public.users".to_string(),
            pk_cursor: Some(vec![Value::from(2)]),
            is_complete,
            chunks_emitted: 1,
            rows_emitted: 2,
            condition: condition.map(String::from),
        }],
    }
}

#[test]
fn a_restart_keeps_the_filter_that_a_table_was_requested_with() {
    let record = || recorded_users(Some("id > 100"), false);
    let driver = driver_with_config_resuming(
        Vec::new(),
        config_with_condition(Vec::new(), None),
        Some(record()),
    );
    assert_eq!(driver.snapshot_state(), record());
    assert_eq!(driver.tables[0].spec.condition.as_deref(), Some("id > 100"));
}

#[test]
fn a_restart_does_not_put_the_configured_filter_on_adopted_unfiltered_work() {
    let record = || recorded_users(None, false);
    let driver = driver_with_config_resuming(
        Vec::new(),
        config_with_condition(Vec::new(), Some("tenant_id = 42")),
        Some(record()),
    );
    assert_eq!(driver.snapshot_state().tables, record().tables);
}

#[test]
fn a_record_without_a_filter_does_not_undo_the_configured_one() {
    let driver = driver_with_config_resuming(
        Vec::new(),
        config_with_condition(vec!["public.users"], Some("tenant_id = 42")),
        Some(recorded_users(None, false)),
    );
    assert_eq!(
        driver.snapshot_state().tables,
        recorded_users(Some("tenant_id = 42"), false).tables
    );
}

#[test]
fn a_configured_table_in_progress_keeps_the_filter_of_its_request() {
    let record = || recorded_users(Some("id > 100"), false);
    let driver = driver_with_config_resuming(
        Vec::new(),
        config_with_condition(vec!["public.users"], Some("tenant_id = 42")),
        Some(record()),
    );
    assert_eq!(driver.snapshot_state().tables, record().tables);
}

#[test]
fn a_finished_table_takes_the_configured_filter() {
    let driver = driver_with_config_resuming(
        Vec::new(),
        config_with_condition(vec!["public.users"], Some("tenant_id = 42")),
        Some(recorded_users(Some("id > 100"), true)),
    );
    assert_eq!(driver.tables[0].spec.condition.as_deref(), Some("tenant_id = 42"));
}

#[test]
fn setup_errors_say_what_is_wrong() {
    let mut record = recorded_users(None, false);
    record.tables[0].pk_cursor = Some(vec![Value::from(1), Value::from(2)]);
    let (backend, _) = fake(Vec::new(), 0, HashSet::new());
    let config = config_with_condition(vec!["public.users"], None);
    let error = build(backend, Vec::new(), config, Some(record)).err().expect("must reject");
    assert_eq!(
        error,
        Error::CheckpointError(
            "incremental snapshot: persisted keyset cursor for 'public.users' has 2 value(s) but \
             the table's primary key has 1 column(s). The primary key changed since the checkpoint \
             was written; restart the snapshot with a fresh checkpoint directory rather than \
             resuming from an incompatible cursor"
                .into()
        )
    );
}

#[test]
fn over_a_run_each_row_comes_once_and_live_events_keep_their_order() {
    let rows: Vec<Value> = (1..=5).map(|id| object(&[("id", Value::from(id))])).collect();
    let batches = vec![
        vec![stream_event_at("users", 2, 105), stream_event_at("other", 10, 130)],
        vec![stream_event_at("other", 11, 135), stream_event_at("other", 12, 136)],
        vec![stream_event_at("users", 3, 137)],
        vec![stream_event_at("other", 13, 300)],
    ];
    let (mut driver, _) = driver_with(rows, batches, 10, 2);
    let emitted = drain(&mut driver);
    let id_of = |event: &Event| event.after.as_ref().unwrap()["id"].as_i64().unwrap();
    let read: Vec<i64> =
        emitted.iter().filter(|event| event.op == Operation::Read).map(id_of).collect();
    assert_eq!(read, vec![1, 3, 4, 5], "row 2 was superseded inside its chunk's bracket");
    let live: Vec<i64> =
        emitted.iter().filter(|event| event.op == Operation::Update).map(id_of).collect();
    assert_eq!(live, vec![2, 10, 11, 12, 3, 13]);
    assert!(driver.tables[0].is_complete);
    assert_eq!(driver.tables[0].pk_cursor, Some(vec![Value::from(5)]));
}

#[test]
fn a_cursor_moves_only_once_its_chunk_is_out() {
    let rows: Vec<Value> = (1..=4).map(|id| object(&[("id", Value::from(id))])).collect();
    let (mut driver, _) = driver_with(rows, Vec::new(), 0, 2);
    assert_eq!(driver.next_events(10).unwrap().len(), 2);
    assert_eq!(driver.tables[0].pk_cursor, None);
    assert_eq!(driver.next_events(10).unwrap().len(), 2);
    assert_eq!(driver.tables[0].pk_cursor, Some(vec![Value::from(2)]));
}

#[test]
fn a_position_is_withheld_while_events_are_held_back() {
    let rows = vec![object(&[("id", Value::from(1))])];
    let batches = vec![vec![stream_event_at("other", 1, 110), stream_event_at("other", 2, 250)]];
    let (mut driver, _) = driver_with(rows, batches, 100, 10);
    assert_eq!(driver.position_offset(Some(7_u64)), Some((7, driver.snapshot_state())));
    assert_eq!(driver.position_offset::<u64>(None), None);
    assert_eq!(driver.next_events(10).unwrap().len(), 1);
    assert_eq!(driver.position_offset(Some(8_u64)), None, "an event is owed");
    assert_eq!(driver.next_events(10).unwrap()[0].op, Operation::Read);
    assert_eq!(driver.position_offset(Some(8_u64)), None, "an event is owed still");
    assert_eq!(driver.next_events(10).unwrap().len(), 1);
    assert_eq!(driver.position_offset(Some(8_u64)).map(|(place, _)| place), Some(8));
}
