use rustcdc::config::{MAX_EVENTS_PER_POLL, STREAM_POLL_INTERVAL_MS};
use rustcdc::error::Error;
use rustcdc::event::{Event, Operation};
use rustcdc::postgres::polling::PollOutcome;
use rustcdc::postgres::stream::{
    PgOutputXLogData, PostgresStream, PostgresStreamHandle, StreamState,
};
use rustcdc::postgres::turn::{PollAction, PollEvent, PollTurn};
use rustcdc::schema::{CatalogColumn, TableMap};
use serde_json::Value;
use std::collections::VecDeque;

const OID: u32 = 77;

fn number(n: i64) -> Value {
    Value::from(n)
}

fn string(text: &str) -> Value {
    Value::from(text)
}

fn object(members: &[(&str, Value)]) -> Value {
    let mut map = serde_json::Map::new();
    for (name, value) in members {
        map.insert((*name).to_string(), value.clone());
    }
    Value::Object(map)
}

/// The server's side of a stream.
struct Server {
    batches: VecDeque<Vec<PgOutputXLogData>>,
    /// Whether a peek waits for data; an empty one then takes its whole budget.
    waits_for_data: bool,
    /// The largest window that can be decoded in time.
    max_decodable: usize,
    windows: Vec<usize>,
    budgets: Vec<u64>,
    confirmed: Vec<u64>,
    lag: Option<u64>,
    advanced: usize,
    measured: usize,
}

impl Server {
    fn new(batches: Vec<Vec<PgOutputXLogData>>) -> Self {
        Server {
            batches: batches.into_iter().collect(),
            waits_for_data: false,
            max_decodable: usize::MAX,
            windows: Vec::new(),
            budgets: Vec::new(),
            confirmed: Vec::new(),
            lag: None,
            advanced: 0,
            measured: 0,
        }
    }
}

/// A stream and the server that it reads from, on one clock.
struct Harness {
    inner: PostgresStreamHandle,
    server: Server,
    reselects: bool,
    clock_ms: u64,
}

impl std::ops::Deref for Harness {
    type Target = PostgresStreamHandle;

    fn deref(&self) -> &PostgresStreamHandle {
        &self.inner
    }
}

impl Harness {
    /// Runs one poll to its end.
    fn next_events(&mut self, timeout_ms: u64) -> Result<Vec<Event>, Error> {
        let started = self.clock_ms;
        let mut turn = PollTurn::new(timeout_ms, self.server.waits_for_data, self.reselects);
        let mut told = PollEvent::Done;
        loop {
            let elapsed = self.clock_ms - started;
            let action =
                self.inner.next_events(&mut turn, told, elapsed, 1_700_000_000_000, self.clock_ms)?;
            told = match action {
                PollAction::Peek { window, budget_ms } => {
                    self.server.windows.push(window);
                    self.server.budgets.push(budget_ms);
                    if window > self.server.max_decodable {
                        self.clock_ms += 10;
                        PollEvent::Peeked(PollOutcome::TimedOut)
                    } else {
                        let frames = self.server.batches.pop_front().unwrap_or_default();
                        if frames.is_empty() && self.server.waits_for_data {
                            self.clock_ms += budget_ms;
                        }
                        PollEvent::Peeked(PollOutcome::Data(frames))
                    }
                }
                PollAction::Confirm(place) => {
                    self.server.confirmed.push(place);
                    PollEvent::Done
                }
                PollAction::Reselect(events) => PollEvent::Reselected(
                    events
                        .into_iter()
                        .map(|mut event| {
                            event.unavailable_columns = Vec::new();
                            event
                        })
                        .collect(),
                ),
                PollAction::MeasureLag => {
                    self.server.measured += 1;
                    PollEvent::Measured(self.server.lag)
                }
                PollAction::AdvanceSlot => {
                    self.server.advanced += 1;
                    PollEvent::Advanced(self.server.lag.unwrap_or(0))
                }
                PollAction::Sleep(wait) => {
                    assert!(wait > 0);
                    self.clock_ms += wait;
                    PollEvent::Done
                }
                PollAction::Return(events) => return Ok(events),
            };
        }
    }

    fn confirm_lsn(&mut self, place: u64) {
        self.server.confirmed.push(place);
        self.inner.lsn_confirmed(place);
    }
}

fn harness(
    initial_lsn: u64,
    server: Server,
    max_events: usize,
    interval_ms: u64,
    idle_interval_ms: u64,
    include_list: Vec<String>,
    keys: TableMap<Vec<String>>,
    columns: TableMap<Vec<CatalogColumn>>,
) -> Harness {
    Harness {
        inner: PostgresStreamHandle::new(
            "postgres".into(),
            PostgresStream {
                slot_name: "slot".into(),
                publication_name: "pub".into(),
                lsn_position: initial_lsn,
                replication_status: StreamState::Streaming,
            },
            max_events,
            interval_ms,
            idle_interval_ms,
            include_list,
            Vec::new(),
            keys,
            columns,
        ),
        server,
        reselects: false,
        clock_ms: 1_000_000,
    }
}

fn make_stream_handle(initial_lsn: u64, server: Server) -> Harness {
    make_stream_handle_with_keys(initial_lsn, server, TableMap::new())
}

fn make_stream_handle_with_keys(
    initial_lsn: u64,
    server: Server,
    keys: TableMap<Vec<String>>,
) -> Harness {
    make_stream_handle_with_catalog(initial_lsn, server, keys, TableMap::new())
}

fn make_stream_handle_with_catalog(
    initial_lsn: u64,
    server: Server,
    keys: TableMap<Vec<String>>,
    columns: TableMap<Vec<CatalogColumn>>,
) -> Harness {
    harness(
        initial_lsn,
        server,
        MAX_EVENTS_PER_POLL,
        STREAM_POLL_INTERVAL_MS,
        0,
        Vec::new(),
        keys,
        columns,
    )
}

fn filtered_handle(server: Server, included: &str) -> Harness {
    harness(
        0,
        server,
        MAX_EVENTS_PER_POLL,
        STREAM_POLL_INTERVAL_MS,
        0,
        vec![included.to_string()],
        TableMap::new(),
        TableMap::new(),
    )
}

fn tuned_handle(server: Server, max_events: usize) -> Harness {
    harness(0, server, max_events, 1, 0, Vec::new(), TableMap::new(), TableMap::new())
}

fn rows_only(events: Vec<Event>) -> Vec<Event> {
    events.into_iter().filter(|event| !event.op.is_schema_change()).collect()
}

fn catalog(keys: &[&str]) -> TableMap<Vec<String>> {
    let mut map: TableMap<Vec<String>> = TableMap::new();
    map.insert(
        "public".to_string(),
        "toasty".to_string(),
        keys.iter().map(|key| (*key).to_string()).collect(),
    );
    map
}

fn full_relation() -> Vec<u8> {
    build_relation_with_identity(
        OID,
        "public",
        "toasty",
        &[("id", true), ("small", true), ("big", true)],
        b'f',
    )
}

fn batch() -> Server {
    Server::new(vec![vec![
        xlog(100, full_relation()),
        xlog(100, build_begin(200, 0, 10)),
        xlog(150, build_insert(OID, &[Some("1"), Some("s"), Some("wide")])),
        xlog(200, build_commit(200, 250, 0)),
    ]])
}

fn build_begin(final_lsn: u64, timestamp_us: i64, xid: u32) -> Vec<u8> {
    let mut buf = vec![b'B'];
    buf.extend_from_slice(&final_lsn.to_be_bytes());
    buf.extend_from_slice(&timestamp_us.to_be_bytes());
    buf.extend_from_slice(&xid.to_be_bytes());
    buf
}

fn build_commit(commit_lsn: u64, end_lsn: u64, timestamp_us: i64) -> Vec<u8> {
    let mut buf = vec![b'C', 0u8];
    buf.extend_from_slice(&commit_lsn.to_be_bytes());
    buf.extend_from_slice(&end_lsn.to_be_bytes());
    buf.extend_from_slice(&timestamp_us.to_be_bytes());
    buf
}

fn build_logical_message(
    transactional: bool,
    lsn: u64,
    prefix: &str,
    content: &[u8],
) -> Vec<u8> {
    let mut buf = vec![b'M'];
    buf.push(u8::from(transactional));
    buf.extend_from_slice(&lsn.to_be_bytes());
    buf.extend_from_slice(prefix.as_bytes());
    buf.push(0);
    buf.extend_from_slice(&(content.len() as i32).to_be_bytes());
    buf.extend_from_slice(content);
    buf
}

fn build_relation(oid: u32, ns: &str, name: &str, cols: &[(&str, bool)]) -> Vec<u8> {
    build_relation_with_identity(oid, ns, name, cols, b'd')
}

fn build_relation_with_identity(
    oid: u32,
    ns: &str,
    name: &str,
    cols: &[(&str, bool)],
    replica_identity: u8,
) -> Vec<u8> {
    let mut buf = vec![b'R'];
    buf.extend_from_slice(&oid.to_be_bytes());
    buf.extend_from_slice(ns.as_bytes());
    buf.push(0);
    buf.extend_from_slice(name.as_bytes());
    buf.push(0);
    buf.push(replica_identity);
    let num: u16 = cols.len() as u16;
    buf.extend_from_slice(&num.to_be_bytes());
    for (col, is_key) in cols {
        buf.push(u8::from(*is_key));
        buf.extend_from_slice(col.as_bytes());
        buf.push(0);
        buf.extend_from_slice(&23u32.to_be_bytes());
        buf.extend_from_slice(&(-1i32).to_be_bytes());
    }
    buf
}

fn append_tuple_data(buf: &mut Vec<u8>, values: &[Option<&str>]) {
    buf.extend_from_slice(&(values.len() as u16).to_be_bytes());
    for val in values {
        match val {
            None => buf.push(b'n'),
            Some(s) => {
                buf.push(b't');
                buf.extend_from_slice(&(s.len() as i32).to_be_bytes());
                buf.extend_from_slice(s.as_bytes());
            }
        }
    }
}

fn append_tuple_data_with_toast(buf: &mut Vec<u8>, values: &[Option<Option<&str>>]) {
    buf.extend_from_slice(&(values.len() as u16).to_be_bytes());
    for val in values {
        match val {
            None => buf.push(b'n'),
            Some(None) => buf.push(b'u'),
            Some(Some(s)) => {
                buf.push(b't');
                buf.extend_from_slice(&(s.len() as i32).to_be_bytes());
                buf.extend_from_slice(s.as_bytes());
            }
        }
    }
}

fn build_update_with_toast(oid: u32, new: &[Option<Option<&str>>]) -> Vec<u8> {
    let mut buf = vec![b'U'];
    buf.extend_from_slice(&oid.to_be_bytes());
    buf.push(b'N');
    append_tuple_data_with_toast(&mut buf, new);
    buf
}

fn build_insert(oid: u32, values: &[Option<&str>]) -> Vec<u8> {
    let mut buf = vec![b'I'];
    buf.extend_from_slice(&oid.to_be_bytes());
    buf.push(b'N');
    append_tuple_data(&mut buf, values);
    buf
}

fn build_update(oid: u32, old: Option<&[Option<&str>]>, new: &[Option<&str>]) -> Vec<u8> {
    let mut buf = vec![b'U'];
    buf.extend_from_slice(&oid.to_be_bytes());
    if let Some(old_vals) = old {
        buf.push(b'O');
        append_tuple_data(&mut buf, old_vals);
    }
    buf.push(b'N');
    append_tuple_data(&mut buf, new);
    buf
}

fn build_delete(oid: u32, key: &[Option<&str>]) -> Vec<u8> {
    let mut buf = vec![b'D'];
    buf.extend_from_slice(&oid.to_be_bytes());
    buf.push(b'K');
    append_tuple_data(&mut buf, key);
    buf
}

fn xlog(lsn: u64, data: Vec<u8>) -> PgOutputXLogData {
    PgOutputXLogData { lsn, data }
}

#[test]
fn the_key_is_the_catalog_primary_key_not_every_flagged_column() {
    let mut handle = make_stream_handle_with_keys(0, batch(), catalog(&["id"]));
    let events = rows_only(handle.next_events(50).unwrap());

    assert_eq!(
        events[0].primary_key,
        Some(vec!["id".to_string()]),
        "under FULL every column carries the replica-identity flag; reporting them all \
         as the key makes the key change with any column, so a compacted topic cannot \
         collapse a row and one row's versions scatter across partitions"
    );
    assert_eq!(events[0].after.as_ref().unwrap()["id"], string("1"));
}

#[test]
fn an_unavailable_column_does_not_destroy_the_key() {
    let provider = Server::new(vec![vec![
        xlog(100, full_relation()),
        xlog(100, build_begin(200, 0, 10)),
        xlog(150, {
            let mut buf = vec![b'U'];
            buf.extend_from_slice(&OID.to_be_bytes());
            buf.push(b'N');
            buf.extend_from_slice(&3u16.to_be_bytes());
            buf.push(b't');
            buf.extend_from_slice(&1i32.to_be_bytes());
            buf.extend_from_slice(b"1");
            buf.push(b't');
            buf.extend_from_slice(&2i32.to_be_bytes());
            buf.extend_from_slice(b"s2");
            buf.push(b'u');
            buf
        }),
        xlog(200, build_commit(200, 250, 0)),
    ]]);
    let mut handle = make_stream_handle_with_keys(0, provider, catalog(&["id"]));
    let events = rows_only(handle.next_events(50).unwrap());

    assert_eq!(events[0].unavailable_columns, vec!["big".to_string()]);
    assert_eq!(events[0].primary_key, Some(vec!["id".to_string()]));
    assert_eq!(
        events[0].after,
        Some(object(&[("id", string("1")), ("small", string("s2"))])),
        "an update with an unchanged value still carries its key and what is known"
    );
}

#[test]
fn a_full_table_without_a_primary_key_reports_no_key_rather_than_the_whole_row() {
    let mut handle =
        make_stream_handle_with_keys(0, batch(), TableMap::new());
    let events = rows_only(handle.next_events(50).unwrap());

    assert_eq!(
        events[0].primary_key, None,
        "FULL without a primary key has no key to report; the whole row is not one"
    );
}

#[test]
fn the_published_schema_marks_only_the_real_key() {
    let provider = Server::new(vec![
        vec![xlog(100, full_relation())],
        vec![
            xlog(105, build_begin(300, 0, 11)),
            xlog(
                110,
                build_relation_with_identity(
                    OID,
                    "public",
                    "toasty",
                    &[
                        ("id", true),
                        ("small", true),
                        ("big", true),
                        ("added", true),
                    ],
                    b'f',
                ),
            ),
            xlog(300, build_commit(300, 350, 0)),
        ],
    ]);
    let mut handle = make_stream_handle_with_keys(0, provider, catalog(&["id"]));
    let mut events = handle.next_events(50).unwrap();
    events.extend(handle.next_events(50).unwrap());

    let schema = events
        .iter()
        .find(|event| event.op == Operation::SchemaChange)
        .and_then(|event| event.after.clone())
        .and_then(|after| after.get("result_schema").cloned())
        .expect("a changed relation publishes its schema");

    assert_eq!(
        schema["primary_keys"],
        Value::from(vec!["id"]),
        "the published key must be the real one: {schema}"
    );
    for column in schema["columns"].as_array().expect("columns array") {
        let name = column["name"].as_str().expect("column name");
        let expected_key = name == "id";
        let constraints = column["constraints"].as_array().expect("constraints array");
        assert_eq!(
            constraints.contains(&string("primary_key")),
            expected_key,
            "column '{name}' primary-key constraint is wrong: {column}"
        );
        assert_eq!(
            column["nullable"].as_bool(),
            Some(true),
            "with no catalog for this table the connector falls back to the wire, \
             which carries no nullability — so it must report the weaker claim \
             rather than derive one from the key: {column}"
        );
    }
}

#[test]
fn the_published_schema_takes_nullability_from_the_catalog() {
    let mut catalog_columns: TableMap<Vec<CatalogColumn>> = TableMap::new();
    catalog_columns.insert(
        "public".to_string(),
        "toasty".to_string(),
        vec![
            CatalogColumn {
                name: "id".into(),
                data_type: "bigint".into(),
                nullable: false,
            },
            CatalogColumn {
                name: "small".into(),
                data_type: "numeric(12,4)".into(),
                nullable: false,
            },
            CatalogColumn {
                name: "big".into(),
                data_type: "text".into(),
                nullable: true,
            },
        ],
    );

    let mut handle =
        make_stream_handle_with_catalog(0, batch(), catalog(&["id"]), catalog_columns);
    let events = handle.next_events(50).unwrap();

    let schema = events
        .iter()
        .find(|event| event.op == Operation::SchemaChange)
        .and_then(|event| event.after.clone())
        .and_then(|after| after.get("result_schema").cloned())
        .expect("the first sighting of a relation publishes its schema");

    let column = |name: &str| -> Value {
        schema["columns"]
            .as_array()
            .expect("columns array")
            .iter()
            .find(|column| column["name"] == name)
            .cloned()
            .unwrap_or_else(|| panic!("column '{name}' missing from {schema}"))
    };

    assert_eq!(column("id")["nullable"], Value::from(false));
    assert_eq!(
        column("small")["nullable"],
        Value::from(false),
        "a NOT NULL non-key column must not be published as nullable"
    );
    assert_eq!(column("big")["nullable"], Value::from(true));
    assert_eq!(
        column("small")["data_type"],
        string("numeric(12,4)"),
        "the declared type keeps its modifier; the wire type OID alone would say \
         'numeric'"
    );
}

#[test]
fn stream_next_events_returns_insert_event() {
    let oid: u32 = 999;
    let provider = Server::new(vec![vec![
        xlog(
            800,
            build_relation(oid, "public", "users", &[("id", true), ("name", false)]),
        ),
        xlog(800, build_begin(1000, 0, 1)),
        xlog(900, build_insert(oid, &[Some("1"), Some("alice")])),
        xlog(1000, build_commit(900, 1100, 0)),
    ]]);
    let mut handle = make_stream_handle(0, provider);

    let events = rows_only(handle.next_events(100).unwrap());
    assert_eq!(events.len(), 1);
    assert_eq!(events[0].op, Operation::Insert);
    assert_eq!(events[0].table, "users");
    assert_eq!(
        events[0].after,
        Some(object(&[("id", string("1")), ("name", string("alice"))]))
    );
    assert_eq!(events[0].primary_key, Some(vec!["id".to_string()]));
    assert_eq!(handle.stream.lsn_position, 1100);
}

#[test]
fn stream_next_events_returns_update_event_with_before_after() {
    let oid: u32 = 999;
    let provider = Server::new(vec![vec![
        xlog(
            800,
            build_relation(oid, "public", "users", &[("id", true), ("name", false)]),
        ),
        xlog(800, build_begin(1000, 0, 2)),
        xlog(
            900,
            build_update(
                oid,
                Some(&[Some("1"), Some("alice")]),
                &[Some("1"), Some("bob")],
            ),
        ),
        xlog(1000, build_commit(900, 1100, 0)),
    ]]);
    let mut handle = make_stream_handle(0, provider);

    let events = rows_only(handle.next_events(100).unwrap());
    assert_eq!(events.len(), 1);
    assert_eq!(events[0].op, Operation::Update);
    assert_eq!(
        events[0].before.row(),
        Some(&object(&[("id", string("1")), ("name", string("alice"))]))
    );
    assert_eq!(
        events[0].after,
        Some(object(&[("id", string("1")), ("name", string("bob"))]))
    );
}

#[test]
fn stream_next_events_returns_delete_event_with_before() {
    let oid: u32 = 999;
    let provider = Server::new(vec![vec![
        xlog(
            800,
            build_relation(oid, "public", "users", &[("id", true), ("name", false)]),
        ),
        xlog(800, build_begin(1000, 0, 3)),
        xlog(900, build_delete(oid, &[Some("1"), None])),
        xlog(1000, build_commit(900, 1100, 0)),
    ]]);
    let mut handle = make_stream_handle(0, provider);

    let events = rows_only(handle.next_events(100).unwrap());
    assert_eq!(events.len(), 1);
    assert_eq!(events[0].op, Operation::Delete);
    assert!(events[0].before.is_present());
    assert!(events[0].after.is_none());
}

#[test]
fn stream_next_events_times_out_when_provider_returns_empty() {
    let provider = Server::new(vec![]);
    let mut handle = make_stream_handle(100, provider);
    let events = handle.next_events(5).unwrap();
    assert!(events.is_empty());
    assert_eq!(handle.stream.lsn_position, 100);
}

#[test]
fn stream_next_events_returns_empty_on_zero_timeout() {
    let provider = Server::new(vec![]);
    let mut handle = make_stream_handle(100, provider);
    let events = handle.next_events(0).unwrap();
    assert!(events.is_empty());
}

#[test]
fn stream_save_position_persists_commit_lsn() {
    let oid: u32 = 1;
    let provider = Server::new(vec![vec![
        xlog(100, build_relation(oid, "public", "t", &[("id", true)])),
        xlog(100, build_begin(200, 0, 5)),
        xlog(150, build_insert(oid, &[Some("1")])),
        xlog(200, build_commit(200, 250, 0)),
    ]]);
    let mut handle = make_stream_handle(0, provider);
    handle.next_events(50).unwrap();

    let restored = handle.position_offset();
    assert_eq!(restored.lsn, 250);
    assert_eq!(restored.slot_name, "slot");
}

#[test]
fn stream_transaction_metadata_populated_correctly() {
    let oid: u32 = 1;
    let provider = Server::new(vec![vec![
        xlog(100, build_relation(oid, "public", "t", &[("id", true)])),
        xlog(100, build_begin(200, 0, 77)),
        xlog(150, build_insert(oid, &[Some("1")])),
        xlog(160, build_insert(oid, &[Some("2")])),
        xlog(200, build_commit(200, 300, 0)),
    ]]);
    let mut handle = make_stream_handle(0, provider);
    let events = rows_only(handle.next_events(100).unwrap());

    assert_eq!(events.len(), 2);
    let tx0 = events[0].transaction.as_ref().unwrap();
    let tx1 = events[1].transaction.as_ref().unwrap();
    assert_eq!(tx0.tx_id, 77);
    assert_eq!(tx0.total_events, Some(2));
    assert_eq!(tx0.event_index, 0);
    assert_eq!(tx1.total_events, Some(2));
    assert_eq!(tx1.event_index, 1);
}

#[test]
fn a_row_names_the_shape_its_announcement_carries() {
    let oid: u32 = 7;
    let provider = Server::new(vec![vec![
        xlog(
            100,
            build_relation(oid, "public", "items", &[("id", true), ("name", false)]),
        ),
        xlog(100, build_begin(200, 0, 10)),
        xlog(150, build_insert(oid, &[Some("1"), Some("a")])),
        xlog(200, build_commit(200, 250, 0)),
    ]]);
    let mut handle = make_stream_handle(0, provider);

    let events = handle.next_events(50).unwrap();
    let announcement = events
        .iter()
        .find(|event| event.op.is_schema_change())
        .expect("the first sight of a relation announces its schema");
    let row = events
        .iter()
        .find(|event| !event.op.is_schema_change())
        .expect("the insert");

    assert!(
        announcement.schema_id.is_some(),
        "announcement carries an id"
    );
    assert_eq!(
        row.schema_id, announcement.schema_id,
        "the row must name the shape it was captured under"
    );
}

#[test]
fn a_relation_that_gains_a_column_gets_a_new_schema_id() {
    let oid: u32 = 8;
    let provider = Server::new(vec![
        vec![
            xlog(100, build_relation(oid, "public", "items", &[("id", true)])),
            xlog(100, build_begin(200, 0, 10)),
            xlog(150, build_insert(oid, &[Some("1")])),
            xlog(200, build_commit(200, 250, 0)),
        ],
        vec![
            xlog(
                250,
                build_relation(oid, "public", "items", &[("id", true), ("name", false)]),
            ),
            xlog(250, build_begin(300, 0, 11)),
            xlog(280, build_insert(oid, &[Some("2"), Some("b")])),
            xlog(300, build_commit(300, 350, 0)),
        ],
    ]);
    let mut handle = make_stream_handle(0, provider);

    let before = rows_only(handle.next_events(50).unwrap());
    let after = rows_only(handle.next_events(50).unwrap());

    assert!(before[0].schema_id.is_some());
    assert_ne!(
        before[0].schema_id, after[0].schema_id,
        "a row captured under the widened table must not claim the old shape"
    );
}

#[test]
fn stream_confirm_lsn_delegates_to_provider() {
    let provider = Server::new(vec![]);
    let mut handle = make_stream_handle(0, provider);
    handle.inner.committed_tx_ends.push_back((800, 900));
    handle.inner.committed_tx_ends.push_back((980, 1_000));
    handle.confirm_lsn(999);
    assert_eq!(handle.server.confirmed, vec![999]);
    assert_eq!(handle.committed_tx_ends.len(), 1, "what ended before it is settled");
}

#[test]
fn stream_relation_map_persists_across_polls() {
    let oid: u32 = 5;
    let provider = Server::new(vec![
        vec![
            xlog(100, build_relation(oid, "public", "items", &[("id", true)])),
            xlog(100, build_begin(200, 0, 10)),
            xlog(150, build_insert(oid, &[Some("42")])),
            xlog(200, build_commit(200, 250, 0)),
        ],
        vec![
            xlog(250, build_begin(300, 0, 11)),
            xlog(280, build_insert(oid, &[Some("43")])),
            xlog(300, build_commit(300, 350, 0)),
        ],
    ]);
    let mut handle = make_stream_handle(0, provider);

    let first = rows_only(handle.next_events(50).unwrap());
    assert_eq!(first.len(), 1);
    assert_eq!(first[0].table, "items");

    let second = rows_only(handle.next_events(50).unwrap());
    assert_eq!(second.len(), 1);
    assert_eq!(second[0].table, "items");
}

#[test]
fn stream_schema_qualified_table_name() {
    let oid: u32 = 7;
    let provider = Server::new(vec![vec![
        xlog(
            100,
            build_relation(oid, "myschema", "orders", &[("id", true)]),
        ),
        xlog(100, build_begin(200, 0, 20)),
        xlog(150, build_insert(oid, &[Some("1")])),
        xlog(200, build_commit(200, 300, 0)),
    ]]);
    let mut handle = make_stream_handle(0, provider);
    let events = rows_only(handle.next_events(100).unwrap());

    assert_eq!(events[0].table, "orders");
    assert_eq!(events[0].schema, Some("myschema".to_string()));
    assert_eq!(events[0].qualified_table_name(), "myschema.orders");
}

#[test]
fn unchanged_toast_columns_are_reported_not_silently_omitted() {
    let oid: u32 = 31;
    let provider = Server::new(vec![vec![
        xlog(
            100,
            build_relation(
                oid,
                "public",
                "docs",
                &[("id", true), ("title", false), ("body", false)],
            ),
        ),
        xlog(100, build_begin(200, 0, 20)),
        xlog(
            150,
            build_update_with_toast(oid, &[Some(Some("1")), Some(Some("new")), Some(None)]),
        ),
        xlog(200, build_commit(200, 300, 0)),
    ]]);
    let mut handle = make_stream_handle(0, provider);
    let events = rows_only(handle.next_events(100).unwrap());
    assert_eq!(events.len(), 1);

    let after = events[0].after.as_ref().unwrap();
    assert_eq!(after.get("title").unwrap(), "new");
    assert!(
        after.get("body").is_none(),
        "an unchanged TOAST value is absent, never null"
    );
    assert_eq!(
        events[0].unavailable_columns,
        vec!["body".to_string()],
        "the omitted column must be reported so a consumer can exclude it from writes"
    );

    assert!(!events[0].unavailable_columns.contains(&"title".to_string()));
}

#[test]
fn stream_row_with_unknown_relation_fails_loud() {
    let known: u32 = 11;
    let unknown: u32 = 99;
    let provider = Server::new(vec![vec![
        xlog(
            100,
            build_relation(known, "public", "items", &[("id", true)]),
        ),
        xlog(100, build_begin(200, 0, 20)),
        xlog(150, build_insert(unknown, &[Some("1")])),
        xlog(200, build_commit(200, 300, 0)),
    ]]);
    let mut handle = make_stream_handle(0, provider);

    let error = handle
        .next_events(100)
        .expect_err("an unknown relation oid must fail loud, not be silently dropped");
    let message = error.message().to_string();
    assert!(message.contains("relation oid 99"), "{message}");
    assert!(message.contains("RELATION"), "{message}");
}

#[test]
fn stream_announces_a_relation_then_reports_its_change() {
    let oid: u32 = 21;
    let provider = Server::new(vec![vec![
        xlog(
            100,
            build_relation(oid, "public", "users", &[("id", true), ("name", false)]),
        ),
        xlog(
            400,
            build_relation(
                oid,
                "public",
                "users",
                &[("id", true), ("name", false), ("email", false)],
            ),
        ),
    ]]);
    let mut handle = make_stream_handle(0, provider);

    let events = handle.next_events(100).unwrap();
    assert_eq!(events.len(), 2);

    let observed = &events[0];
    assert_eq!(observed.op, Operation::SchemaChange);
    assert_eq!(observed.source.offset, "0/00000064");
    assert_eq!(observed.table, "users__ddl_events");
    let after = observed.after.as_ref().expect("schema event payload");
    assert_eq!(
        after["ddl_type"], "READ_SCHEMA",
        "a first sighting is an observation, not a change: reusing ALTER_TABLE would tell every consumer that every table was altered on every restart"
    );
    assert_eq!(
        after["result_schema"]["columns"]
            .as_array()
            .expect("columns")
            .len(),
        2,
        "the observation carries the table's full column list"
    );

    let changed = &events[1];
    assert_eq!(changed.op, Operation::SchemaChange);
    assert_eq!(changed.source.offset, "0/00000190");
    assert_eq!(changed.schema.as_deref(), Some("public"));
    assert_eq!(changed.table, "users__ddl_events");

    let after = changed.after.as_ref().expect("schema event payload");
    assert_eq!(after["ddl_type"], "ALTER_TABLE");
    assert_eq!(after["schema"], "public");
    assert_eq!(after["table"], "users");
}

#[test]
fn stream_large_transaction_handles_10k_events() {
    let oid: u32 = 42;
    let mut batch = vec![
        xlog(
            100,
            build_relation(oid, "public", "big_table", &[("id", true)]),
        ),
        xlog(100, build_begin(1_000, 0, 555)),
    ];
    for i in 0..10_000_u32 {
        batch.push(xlog(
            200 + u64::from(i),
            build_insert(oid, &[Some(&i.to_string())]),
        ));
    }
    batch.push(xlog(20_500, build_commit(20_000, 21_000, 0)));

    let provider = Server::new(vec![batch]);
    let mut handle = make_stream_handle(0, provider);
    let events = rows_only(handle.next_events(100).unwrap());

    assert_eq!(events.len(), 10_000);
    assert_eq!(events[0].table, "big_table");
    assert_eq!(events[0].transaction.as_ref().map(|t| t.tx_id), Some(555));
    assert_eq!(
        events[0].transaction.as_ref().and_then(|t| t.total_events),
        Some(10_000)
    );
    assert_eq!(
        events
            .last()
            .and_then(|e| e.transaction.as_ref())
            .map(|t| t.event_index),
        Some(9_999)
    );
}

#[test]
fn a_transactional_message_is_emitted_with_its_transaction() {
    let oid: u32 = 77;
    let provider = Server::new(vec![vec![
        xlog(
            100,
            build_relation(oid, "public", "orders", &[("id", true)]),
        ),
        xlog(100, build_begin(400, 0, 9)),
        xlog(150, build_insert(oid, &[Some("1")])),
        xlog(
            160,
            build_logical_message(true, 160, "outbox", br#"{"kind":"OrderPlaced"}"#),
        ),
        xlog(400, build_commit(400, 450, 0)),
    ]]);
    let mut handle = make_stream_handle(0, provider);

    let events = handle.next_events(100).unwrap();
    let message = events
        .iter()
        .find(|event| event.op == Operation::Message)
        .expect("the logical decoding message must be captured");

    assert_eq!(
        message.table, "outbox__messages",
        "the prefix is the only routing key a message has, so it is the table name"
    );
    assert_eq!(
        message.schema, None,
        "a message belongs to no schema; inventing 'public' would let a route for \
         public.* collect messages nobody asked for"
    );
    let after = message.after.as_ref().expect("message payload");
    assert_eq!(after["prefix"], "outbox");
    assert_eq!(after["content"], r#"{"kind":"OrderPlaced"}"#);
    assert_eq!(after["content_encoding"], "utf8");
    assert_eq!(after["transactional"], true);
    assert!(
        message.transaction.is_some(),
        "a transactional message is part of the transaction that wrote it"
    );

    let positions: Vec<&str> = events
        .iter()
        .map(|event| match event.op {
            Operation::Insert => "insert",
            Operation::Message => "message",
            Operation::SchemaChange => "schema",
            _ => "other",
        })
        .collect();
    assert_eq!(positions, vec!["schema", "insert", "message"]);
}

#[test]
fn a_non_transactional_message_does_not_wait_for_a_commit() {
    let provider = Server::new(vec![vec![
        xlog(100, build_begin(400, 0, 9)),
        xlog(
            160,
            build_logical_message(false, 160, "audit", b"standalone"),
        ),
    ]]);
    let mut handle = make_stream_handle(0, provider);

    let events = handle.next_events(100).unwrap();
    let message = events
        .iter()
        .find(|event| event.op == Operation::Message)
        .expect("a non-transactional message must be released without a commit");
    assert_eq!(message.after.as_ref().unwrap()["transactional"], false);
}

#[test]
fn binary_content_is_base64_and_labelled() {
    let provider = Server::new(vec![vec![
        xlog(100, build_begin(400, 0, 9)),
        xlog(
            160,
            build_logical_message(false, 160, "blob", &[0xDE, 0xAD, 0xBE, 0xEF]),
        ),
    ]]);
    let mut handle = make_stream_handle(0, provider);

    let events = handle.next_events(100).unwrap();
    let after = events
        .iter()
        .find(|event| event.op == Operation::Message)
        .and_then(|event| event.after.clone())
        .expect("message payload");
    assert_eq!(after["content_encoding"], "base64");
    assert_eq!(after["content"], "3q2+7w==");
}

#[test]
fn a_schema_event_outside_a_transaction_carries_the_stream_position() {
    let oid: u32 = 31;
    let provider = Server::new(vec![vec![xlog(
        0,
        build_relation(oid, "public", "orders", &[("id", true)]),
    )]]);
    let mut handle = make_stream_handle(0x4000, provider);

    let events = handle.next_events(50).unwrap();
    let schema = events
        .iter()
        .find(|event| event.op == Operation::SchemaChange)
        .expect("the first sighting is announced");

    assert!(
        schema.transaction.is_none(),
        "this test is about the no-transaction path; with one, the offset is never used"
    );
    assert_ne!(
        schema.source.offset, "0/00000000",
        "a zero offset is a checkpoint at the start of the slot"
    );
    assert_eq!(
        schema.source.offset, "0/00004000",
        "the stream's current position is the truthful answer"
    );
}

#[test]
fn a_waiting_provider_is_never_handed_more_than_the_callers_budget() {
    let mut server = Server::new(Vec::new());
    server.waits_for_data = true;
    let mut handle = tuned_handle(server, 1_000);

    let started = handle.clock_ms;
    let events = handle.next_events(250).expect("poll completes");
    let elapsed = handle.clock_ms - started;

    assert!(events.is_empty());
    let longest = *handle.server.budgets.iter().max().unwrap();
    assert!(longest <= 250, "got {longest}ms for a 250ms budget");
    assert!(elapsed < 5_000);
}

#[test]
fn a_peek_that_times_out_shrinks_its_window_until_it_makes_progress() {
    let mut server = Server::new(vec![vec![
        xlog(
            800,
            build_relation(999, "public", "users", &[("id", true), ("name", false)]),
        ),
        xlog(800, build_begin(1000, 0, 7)),
        xlog(900, build_insert(999, &[Some("1"), Some("row")])),
        xlog(1000, build_commit(900, 1100, 0)),
    ]]);
    server.max_decodable = 4;
    let mut handle = tuned_handle(server, 1_000);
    let events = handle.next_events(2_000).expect("polling must not error");

    assert!(handle.server.windows.len() > 1, "the peek must have timed out");
    assert!(*handle.server.windows.iter().min().unwrap() <= 4);
    assert_eq!(rows_only(events).len(), 1);
}

#[test]
fn the_peek_window_recovers_after_the_pressure_passes() {
    let mut handle = tuned_handle(Server::new(Vec::new()), 1_000);
    handle.inner.peek_window = 1;
    let _ = handle.next_events(10).expect("poll");

    assert!(handle.peek_window > 1, "got {}", handle.peek_window);
    assert!(handle.peek_window <= 1_000, "got {}", handle.peek_window);
}

#[test]
fn stream_next_events_rejects_non_streaming_state() {
    let mut handle = make_stream_handle(0, Server::new(vec![]));
    handle.inner.stream.replication_status = StreamState::Starting;
    let result = handle.next_events(100);
    assert!(result.is_err());
    handle.inner.stream.replication_status = StreamState::Streaming;
    handle.inner.stop();
    assert!(matches!(handle.next_events(100), Err(Error::StateError(_))));
}

#[test]
fn stream_filtered_tx_advances_confirmed_lsn() {
    let oid: u32 = 99;
    let server = Server::new(vec![vec![
        xlog(
            800,
            build_relation(oid, "public", "excluded_table", &[("id", true)]),
        ),
        xlog(800, build_begin(1000, 0, 42)),
        xlog(900, build_insert(oid, &[Some("1")])),
        xlog(1000, build_commit(900, 1100, 0)),
    ]]);
    let mut handle = filtered_handle(server, "public.allowed_table");

    let events = handle.next_events(5).unwrap();
    assert!(events.is_empty(), "filtered batch should yield no events");
    assert_eq!(handle.stream.lsn_position, 1100);
    assert_eq!(handle.server.confirmed.last(), Some(&1100));
}

#[test]
fn a_schema_change_on_an_excluded_table_is_not_emitted() {
    let allowed: u32 = 10;
    let excluded: u32 = 11;
    let server = Server::new(vec![vec![
        xlog(
            100,
            build_relation(allowed, "public", "allowed_table", &[("id", true)]),
        ),
        xlog(
            100,
            build_relation(excluded, "public", "secret_table", &[("id", true)]),
        ),
        xlog(
            200,
            build_relation(
                excluded,
                "public",
                "secret_table",
                &[("id", true), ("ssn", false)],
            ),
        ),
        xlog(
            300,
            build_relation(
                allowed,
                "public",
                "allowed_table",
                &[("id", true), ("note", false)],
            ),
        ),
    ]]);
    let mut handle = filtered_handle(server, "public.allowed_table");

    let events = handle.next_events(5).unwrap();
    let tables: Vec<String> = events.iter().map(|event| event.table.clone()).collect();
    assert_eq!(
        tables,
        vec![
            "allowed_table__ddl_events".to_string(),
            "allowed_table__ddl_events".to_string()
        ]
    );
    let ddl_types: Vec<String> = events
        .iter()
        .filter_map(|event| event.after.as_ref()?.get("ddl_type")?.as_str().map(str::to_string))
        .collect();
    assert_eq!(ddl_types, vec!["READ_SCHEMA".to_string(), "ALTER_TABLE".to_string()]);
    assert!(
        !format!("{events:?}").contains("ssn"),
        "no column of an excluded table may reach a sink"
    );
    assert!(handle.relation_map.contains_key(&excluded));
}

#[test]
fn a_message_outside_the_allowlist_is_not_emitted() {
    let server = Server::new(vec![vec![
        xlog(100, build_begin(400, 0, 9)),
        xlog(160, build_logical_message(false, 160, "secret", b"nope")),
        xlog(170, build_logical_message(false, 170, "outbox", b"yes")),
    ]]);
    let mut handle = filtered_handle(server, "outbox__messages");

    let events = handle.next_events(100).unwrap();
    let prefixes: Vec<String> = events
        .iter()
        .filter(|event| event.op == Operation::Message)
        .map(|event| event.table.clone())
        .collect();
    assert_eq!(prefixes, vec!["outbox__messages".to_string()]);
}

#[test]
fn a_delivered_row_resumes_at_the_end_of_its_transaction() {
    let server = Server::new(vec![vec![
        xlog(100, build_relation(3, "public", "t", &[("id", true)])),
        xlog(100, build_begin(200, 0, 5)),
        xlog(150, build_insert(3, &[Some("1")])),
        xlog(200, build_commit(200, 250, 0)),
    ]]);
    let mut handle = make_stream_handle(0, server);
    let events = rows_only(handle.next_events(50).unwrap());
    assert_eq!(handle.inner.resume_offset_for(&events[0]).as_deref(), Some("0/000000FA"));
    handle.confirm_lsn(250);
    assert_eq!(handle.inner.resume_offset_for(&events[0]), None);
}

#[test]
fn a_begin_drops_what_was_left_open() {
    let server = Server::new(vec![
        vec![
            xlog(100, build_relation(3, "public", "t", &[("id", true)])),
            xlog(100, build_begin(200, 0, 5)),
            xlog(150, build_insert(3, &[Some("1")])),
        ],
        vec![
            xlog(100, build_begin(200, 0, 5)),
            xlog(150, build_insert(3, &[Some("1")])),
            xlog(200, build_commit(200, 250, 0)),
        ],
    ]);
    let mut handle = make_stream_handle(0, server);
    let mut rows = rows_only(handle.next_events(0).unwrap());
    assert!(rows.is_empty(), "a transaction is delivered when it is committed");
    rows.extend(rows_only(handle.next_events(0).unwrap()));
    assert_eq!(rows.len(), 1, "a replayed transaction is not delivered twice");
}

#[test]
fn splitting_a_batch_delivers_the_same_rows() {
    let frames = || {
        vec![
            xlog(100, build_relation(3, "public", "t", &[("id", true)])),
            xlog(100, build_begin(200, 0, 5)),
            xlog(150, build_insert(3, &[Some("1")])),
            xlog(160, build_insert(3, &[Some("2")])),
            xlog(200, build_commit(200, 250, 0)),
        ]
    };
    let mut whole = make_stream_handle(0, Server::new(Vec::new()));
    let all = whole.inner.process_messages(frames(), 1).unwrap();
    let mut split = make_stream_handle(0, Server::new(Vec::new()));
    let mut parts = Vec::new();
    for frame in frames() {
        parts.extend(split.inner.process_messages(vec![frame], 1).unwrap());
    }
    assert_eq!(all, parts);
    assert_eq!(whole.stream.lsn_position, split.stream.lsn_position);
}

#[test]
fn truncation_names_each_table() {
    let mut truncate = vec![b'T'];
    truncate.extend_from_slice(&2u32.to_be_bytes());
    truncate.push(0);
    truncate.extend_from_slice(&3u32.to_be_bytes());
    truncate.extend_from_slice(&4u32.to_be_bytes());
    let server = Server::new(vec![vec![
        xlog(100, build_relation(3, "public", "a", &[("id", true)])),
        xlog(100, build_relation(4, "public", "b", &[("id", true)])),
        xlog(100, build_begin(200, 0, 5)),
        xlog(150, truncate),
        xlog(200, build_commit(200, 250, 0)),
    ]]);
    let mut handle = make_stream_handle(0, server);
    let events = rows_only(handle.next_events(50).unwrap());
    let tables: Vec<&str> = events.iter().map(|event| event.table.as_str()).collect();
    assert_eq!(tables, vec!["a", "b"]);
    assert!(events.iter().all(|event| event.op == Operation::Truncate));
}

#[test]
fn omitted_values_are_asked_for_where_they_are_wanted() {
    let server = || {
        Server::new(vec![vec![
            xlog(100, build_relation(3, "public", "docs", &[("id", true), ("body", false)])),
            xlog(100, build_begin(200, 0, 5)),
            xlog(150, build_update_with_toast(3, &[Some(Some("1")), Some(None)])),
            xlog(200, build_commit(200, 250, 0)),
        ]])
    };
    let mut handle = make_stream_handle(0, server());
    handle.reselects = true;
    let events = rows_only(handle.next_events(50).unwrap());
    assert!(events[0].unavailable_columns.is_empty());
    let mut handle = make_stream_handle(0, server());
    let events = rows_only(handle.next_events(50).unwrap());
    assert_eq!(events[0].unavailable_columns, vec!["body".to_string()]);
}

#[test]
fn an_idle_slot_is_advanced_and_its_lag_is_known() {
    let mut server = Server::new(Vec::new());
    server.lag = Some(4_096);
    let mut handle =
        harness(0, server, 1_000, 1, 10, Vec::new(), TableMap::new(), TableMap::new());
    handle.clock_ms += 60_000;
    let events = handle.next_events(30).unwrap();
    assert!(events.is_empty());
    assert!(handle.server.advanced > 0);
    assert_eq!(handle.inner.replication_slot_lag_bytes(), Some(4_096));
}

#[test]
fn an_unread_change_keeps_the_slot_where_it_is() {
    let mut server = Server::new(vec![vec![
        xlog(100, build_relation(3, "public", "t", &[("id", true)])),
        xlog(100, build_begin(200, 0, 5)),
        xlog(150, build_insert(3, &[Some("1")])),
    ]]);
    server.max_decodable = 0;
    let mut handle =
        harness(0, server, 1_000, 1, 10, Vec::new(), TableMap::new(), TableMap::new());
    handle.clock_ms += 60_000;
    let events = handle.next_events(30).unwrap();
    assert!(events.is_empty());
    assert_eq!(handle.server.advanced, 0);
    assert!(handle.server.confirmed.is_empty());
}

#[test]
fn a_key_only_before_image_is_told_apart() {
    let server = Server::new(vec![vec![
        xlog(100, build_relation(3, "public", "t", &[("id", true), ("n", false)])),
        xlog(100, build_begin(200, 0, 5)),
        xlog(150, build_delete(3, &[Some("1"), None])),
        xlog(200, build_commit(200, 250, 0)),
    ]]);
    let mut handle = make_stream_handle(0, server);
    let events = rows_only(handle.next_events(50).unwrap());
    assert!(matches!(events[0].before, rustcdc::event::BeforeImage::KeyOnly(_)));
    assert_eq!(events[0].before.row().unwrap()["id"], string("1"));
    assert_ne!(events[0].before.row(), Some(&object(&[("id", number(1))])));
}

#[test]
fn a_resume_place_is_kept_over_later_commits_until_its_end_is_confirmed() {
    let transaction = |xid: u32, end: u64| {
        vec![
            xlog(end - 50, build_begin(end - 10, 0, xid)),
            xlog(end - 20, build_insert(3, &[Some("1")])),
            xlog(end - 10, build_commit(end - 10, end, 0)),
        ]
    };
    let mut first = vec![xlog(100, build_relation(3, "public", "t", &[("id", true)]))];
    first.extend(transaction(5, 250));
    let server = Server::new(vec![first, transaction(6, 400), transaction(7, 600)]);
    let mut handle = make_stream_handle(0, server);
    let events = rows_only(handle.next_events(50).unwrap());
    let later = rows_only(handle.next_events(50).unwrap());
    let last = rows_only(handle.next_events(50).unwrap());
    handle.confirm_lsn(249);
    assert_eq!(handle.inner.resume_offset_for(&events[0]).as_deref(), Some("0/000000FA"));
    assert_eq!(handle.inner.resume_offset_for(&later[0]).as_deref(), Some("0/00000190"));
    handle.confirm_lsn(400);
    assert_eq!(handle.inner.resume_offset_for(&events[0]), None);
    assert_eq!(handle.inner.resume_offset_for(&later[0]), None);
    assert_eq!(handle.inner.resume_offset_for(&last[0]).as_deref(), Some("0/00000258"));
}

#[test]
fn a_message_of_a_later_protocol_is_named() {
    let server = Server::new(vec![vec![xlog(100, vec![0x4b])]]);
    let mut handle = make_stream_handle(0, server);
    match handle.next_events(50) {
        Err(Error::SourceError(told)) => {
            let lead = "postgres sent pgoutput message 'K' (0x4b), which belongs to protocol";
            assert!(told.starts_with(lead), "{told}");
        }
        _ => panic!("must be refused"),
    }
}

#[test]
fn a_postgres_stream_that_is_not_running_says_so() {
    let mut handle = make_stream_handle(0, Server::new(vec![]));
    handle.inner.stop();
    assert_eq!(
        handle.next_events(100).err().unwrap(),
        Error::StateError("postgres stream polling requested while stream is not running".into())
    );
}
