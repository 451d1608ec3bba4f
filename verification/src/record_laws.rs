//! What events and checkpoints hold: every field of what a consumer is handed and of what outlives
//! a restart is the one that the laws speak of.
use vstd::prelude::*;
use crate::event::{BeforeImage, BeforeView, Event};
use crate::json;
use crate::mysql::resume as mysql_resume;
use crate::mysql::snapshot::MysqlSnapshotHandle;
use crate::postgres::resume as postgres_resume;
use crate::postgres::snapshot::PostgresSnapshotHandle;

verus! {

/// What is said of an event is said of its own fields: its images, its table and key, its place and
/// its tags.
pub proof fn event_is_what_its_fields_say(one: Event, place: int)
    ensures
        one@.op == one.op,
        one@.ts == one.ts,
        one@.table == one.table@,
        one@.envelope_version == one.envelope_version,
        one@.transaction == one.transaction,
        one@.source.source_name == one.source.source_name@,
        one@.source.offset == one.source.offset@,
        one@.source.timestamp == one.source.timestamp,
        one.schema is None <==> one@.schema is None,
        one.schema matches Some(name) ==> one@.schema == Some(name@),
        one.after is None <==> one@.after is None,
        one.after matches Some(row) ==> one@.after == Some(json::json(row)),
        one.before is Unavailable <==> one@.before is Unavailable,
        one.before matches BeforeImage::KeyOnly(row) ==> one@.before == BeforeView::KeyOnly(
            json::json(row),
        ),
        one.before matches BeforeImage::Full { row, unavailable_columns } ==> (
        one@.before matches BeforeView::Full { row: shown, unavailable_columns: holes } && shown
            == json::json(row) && holes.len() == unavailable_columns@.len() && (0 <= place
            < holes.len() ==> holes[place] == unavailable_columns@[place]@)),
        one.primary_key is None <==> one@.primary_key is None,
        one.primary_key matches Some(columns) ==> (one@.primary_key matches Some(names)
            && names.len() == columns@.len() && (0 <= place < names.len() ==> names[place]
            == columns@[place]@)),
        one.snapshot is None <==> one@.snapshot is None,
        one.snapshot matches Some(tag) ==> (one@.snapshot matches Some(shown) && shown.snapshot_id
            == tag.snapshot_id@ && shown.chunk_index == tag.chunk_index && shown.is_last_chunk
            == tag.is_last_chunk),
        one.schema_id is None <==> one@.schema_id is None,
        one.schema_id matches Some(id) ==> one@.schema_id == Some(id@),
        one@.unavailable_columns.len() == one.unavailable_columns@.len(),
        0 <= place < one.unavailable_columns@.len() ==> one@.unavailable_columns[place]
            == one.unavailable_columns@[place]@,
{
}

/// A PostgreSQL snapshot's checkpoint holds the snapshot's identity, times and place in the log, the
/// table and the chunk that it stands at, and each table's progress as it is recorded.
pub proof fn postgres_checkpoint_holds_the_progress(
    handle: &PostgresSnapshotHandle,
    saved: postgres_resume::SnapshotCheckpointState,
    place: int,
)
    requires
        call_ensures(PostgresSnapshotHandle::checkpoint_state, (handle,), saved),
        0 <= place < handle.snapshot.tables@.len(),
    ensures
        saved.snapshot_id@ == handle.snapshot.snapshot_id@,
        saved.snapshot_start_ts == handle.snapshot.snapshot_start_ts,
        saved.snapshot_end_ts == handle.snapshot.snapshot_end_ts,
        saved.snapshot_watermark == handle.snapshot_watermark,
        saved.current_table == handle.current_table,
        saved.next_chunk_index == handle.next_chunk_index,
        saved.tables@.len() == handle.snapshot.tables@.len(),
        ({
            let kept = saved.tables@[place];
            let held = handle.snapshot.tables@[place];
            &&& kept.table@ == held.table@
            &&& kept.total_rows == held.total_rows
            &&& kept.rows_processed == held.rows_processed
            &&& kept.is_complete == held.is_complete
            &&& kept.cursor_position is None <==> held.cursor_position is None
            &&& held.cursor_position matches Some(cursor) ==> (kept.cursor_position matches Some(
                same,
            ) && same@ == cursor@)
        }),
{
    let kept = saved@.tables;
    assert(kept.len() == saved.tables@.len());
    assert(kept[place] == saved.tables@[place]@);
    assert(kept[place] == handle.snapshot.tables@[place]@);
}

/// A MySQL snapshot's checkpoint holds the snapshot's identity, time and place in the log, the table
/// and the chunk that it stands at, and each table's progress as it is recorded.
pub proof fn mysql_checkpoint_holds_the_progress(
    handle: &MysqlSnapshotHandle,
    saved: mysql_resume::SnapshotCheckpointState,
    place: int,
)
    requires
        call_ensures(MysqlSnapshotHandle::checkpoint_state, (handle,), saved),
        0 <= place < handle.snapshot.tables@.len(),
    ensures
        saved.snapshot_id@ == handle.snapshot.snapshot_id@,
        saved.snapshot_start_ts == handle.snapshot.snapshot_start_ts,
        saved.binlog_file@ == handle.snapshot.binlog_file@,
        saved.binlog_pos == handle.snapshot.binlog_pos,
        saved.gtid@ == handle.snapshot.gtid@,
        saved.current_table == handle.current_table,
        saved.next_chunk_index == handle.next_chunk_index,
        saved.tables@.len() == handle.snapshot.tables@.len(),
        ({
            let kept = saved.tables@[place];
            let held = handle.snapshot.tables@[place];
            &&& kept.table@ == held.table@
            &&& kept.total_rows == held.total_rows
            &&& kept.rows_processed == held.rows_processed
            &&& kept.is_complete == held.is_complete
            &&& kept.cursor_position is None <==> held.cursor_position is None
            &&& held.cursor_position matches Some(cursor) ==> (kept.cursor_position matches Some(
                same,
            ) && same@ == cursor@)
        }),
{
    let kept = saved@.tables;
    assert(kept.len() == saved.tables@.len());
    assert(kept[place] == saved.tables@[place]@);
    assert(kept[place] == handle.snapshot.tables@[place]@);
}

} // verus!
