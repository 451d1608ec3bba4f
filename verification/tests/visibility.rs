use rustcdc::event::{
    BeforeImage, Event, Operation, SourceMetadata, TransactionMetadata, EVENT_ENVELOPE_VERSION,
};
use rustcdc::incremental::table::{BracketPosition, IncrementalSnapshotBackend};
use rustcdc::mysql::parser::format_mysql_source_offset;
use rustcdc::mysql::visibility::{watermark, MysqlPosition, MysqlPositions};
use rustcdc::postgres::visibility::{
    parse_snapshot, widen_xid, PgPosition, PostgresPositions, TransactionSnapshot,
};

fn event(offset: &str, tx_id: Option<u64>) -> Event {
    Event {
        before: BeforeImage::Unavailable,
        after: None,
        op: Operation::Update,
        source: SourceMetadata {
            source_name: "test".into(),
            offset: offset.into(),
            timestamp: 0,
        },
        ts: 0,
        schema: Some("public".into()),
        table: "users".into(),
        primary_key: None,
        snapshot: None,
        transaction: tx_id
            .map(|tx_id| TransactionMetadata { tx_id, total_events: Some(1), event_index: 0 }),
        envelope_version: EVENT_ENVELOPE_VERSION,
        schema_id: None,
        unavailable_columns: Vec::new(),
    }
}

fn pg(lsn: u64, snapshot: &str) -> PgPosition {
    PgPosition { lsn, snapshot: parse_snapshot(snapshot) }
}

fn pg_bracket(event: &Event, low: &PgPosition, high: &PgPosition) -> BracketPosition {
    let position = PostgresPositions.position_of_event(event).expect("a position");
    PostgresPositions.event_in_bracket(event, &position, low, high)
}

#[test]
fn a_snapshot_text_names_its_bound_and_what_is_in_flight() {
    let snapshot = parse_snapshot("100:104:100,102").expect("a snapshot");
    assert_eq!(snapshot.xmax, 104);
    assert_eq!(snapshot.in_flight, vec![100, 102]);
    assert_eq!(parse_snapshot("100:100:").expect("a snapshot").in_flight, Vec::<u64>::new());
    assert!(parse_snapshot("100:104").is_none());
    assert!(parse_snapshot("100:x:").is_none());
    assert!(parse_snapshot("100:104:100,").is_none());
}

#[test]
fn a_snapshot_sees_what_ended_before_it() {
    let snapshot = TransactionSnapshot { xmax: 104, in_flight: vec![100, 102] };
    assert!(snapshot.is_visible(99));
    assert!(!snapshot.is_visible(100));
    assert!(snapshot.is_visible(103));
    assert!(!snapshot.is_visible(104));
}

#[test]
fn a_transaction_in_flight_below_the_low_watermark_supersedes_its_row() {
    let low = pg(1_000, "700:701:700");
    let high = pg(2_000, "701:705:");
    assert_eq!(pg_bracket(&event("0/1F4", Some(700)), &low, &high), BracketPosition::Inside);
    assert_eq!(pg_bracket(&event("0/1F4", Some(699)), &low, &high), BracketPosition::Before);
    assert_eq!(pg_bracket(&event("0/1F4", Some(705)), &low, &high), BracketPosition::After);
}

#[test]
fn without_a_snapshot_the_order_of_places_answers() {
    let low = PgPosition { lsn: 1_000, snapshot: None };
    let high = pg(2_000, "701:705:");
    assert_eq!(pg_bracket(&event("0/3E8", Some(700)), &low, &high), BracketPosition::Before);
    assert_eq!(pg_bracket(&event("0/3E9", Some(700)), &low, &high), BracketPosition::Inside);
    assert_eq!(pg_bracket(&event("0/7D1", None), &low, &high), BracketPosition::After);
    assert!(PostgresPositions.position_of_event(&event("no place", None)).is_none());
}

#[test]
fn a_transaction_number_is_widened_to_the_nearest_lap() {
    let lap: u64 = 1 << 32;
    assert_eq!(widen_xid(5, 100), 5);
    assert_eq!(widen_xid(5, 3 * lap + 100), 3 * lap + 5);
    assert_eq!(widen_xid(lap - 1, 3 * lap + 100), 3 * lap - 1);
    assert_eq!(widen_xid(3, 3 * lap - 10), 3 * lap + 3);
    assert_eq!(widen_xid(2 * lap + 7, 100), 2 * lap + 7);
}

const SID: &str = "3e11fa47-71ca-11e1-9e33-c80aa9429562";

fn mysql_bracket(event: &Event, low: &MysqlPosition, high: &MysqlPosition) -> BracketPosition {
    let position = MysqlPositions.position_of_event(event).expect("a position");
    MysqlPositions.event_in_bracket(event, &position, low, high)
}

fn mark(position: u64, executed: &str) -> MysqlPosition {
    watermark("binlog.000042", position, executed).expect("a watermark")
}

#[test]
fn a_transaction_flushed_but_not_executed_supersedes_its_row() {
    let low = mark(1_000, &format!("{SID}:1-9"));
    let high = mark(2_000, &format!("{SID}:1-12"));
    let at = |last: u64| {
        event(&format_mysql_source_offset("binlog.000042", 900, &format!("{SID}:1-{last}")), None)
    };
    assert_eq!(mysql_bracket(&at(9), &low, &high), BracketPosition::Before);
    assert_eq!(mysql_bracket(&at(10), &low, &high), BracketPosition::Inside);
    assert_eq!(mysql_bracket(&at(12), &low, &high), BracketPosition::Inside);
    assert_eq!(mysql_bracket(&at(13), &low, &high), BracketPosition::After);
}

#[test]
fn a_missing_transaction_leaves_the_set_uncovered() {
    let low = mark(1_000, &format!("{SID}:1-4:6-9"));
    let high = mark(2_000, &format!("{SID}:1-9"));
    let five = event(
        &format_mysql_source_offset("binlog.000042", 900, &format!("{SID}:1-5")),
        None,
    );
    assert_eq!(mysql_bracket(&five, &low, &high), BracketPosition::Inside);
    let elsewhere = event(
        &format_mysql_source_offset("binlog.000042", 900, "ffffffff-71ca-11e1-9e33-c80aa9429562:1"),
        None,
    );
    assert_eq!(mysql_bracket(&elsewhere, &low, &high), BracketPosition::After);
}

#[test]
fn without_a_set_the_order_of_binlog_places_answers() {
    let low = mark(1_000, "");
    let high = mark(2_000, "");
    let at = |position: u32| event(&format_mysql_source_offset("binlog.000042", position, ""), None);
    assert_eq!(mysql_bracket(&at(1_000), &low, &high), BracketPosition::Before);
    assert_eq!(mysql_bracket(&at(1_001), &low, &high), BracketPosition::Inside);
    assert_eq!(mysql_bracket(&at(2_001), &low, &high), BracketPosition::After);
    assert!(watermark("binlog", 4, "").is_none());
    assert!(MysqlPositions.position_of_event(&event("binlog:4", None)).is_none());
}
