//! What the calls of a capture promise over all their inputs and results: the handoff from a
//! snapshot to the stream, and the checks before it.
use vstd::prelude::*;
use crate::capabilities::HandoffResult;
use crate::error::Error;
use crate::event::Event;
use crate::mysql::handoff as mysql_handoff;
use crate::mysql::parser::MysqlOffset;
use crate::mysql::place_laws;
use crate::postgres::config::PostgresSourceConfig;
use crate::postgres::connection::PostgresConnection;
use crate::postgres::handoff;
use crate::postgres::lsn;
use crate::postgres::polling;
use crate::postgres::stream::PostgresStreamHandle;
use crate::postgres::validation;
use crate::postgres::validation::{Preparation, ServerFacts};

verus! {

// PostgreSQL

/// A stream takes over from a snapshot exactly where it does not start behind the snapshot's place,
/// and the gap is how far past that place it starts.
pub proof fn gap_is_the_distance(snapshot: u64, stream: u64, gap: Result<u64, Error>)
    requires
        call_ensures(handoff::postgres_handoff_stream_watermark_gap, (snapshot, stream), gap),
    ensures
        gap is Ok <==> snapshot <= stream,
        gap matches Ok(distance) ==> snapshot + distance == stream,
        gap matches Err(error) ==> error is SourceError,
{
}

/// A handoff reports when the snapshot ended, when the stream took over, and the gap between their
/// places, and drops no event. It fails exactly where the stream starts behind the snapshot.
pub proof fn handoff_reports_the_gap(
    snapshot_end_ts: Option<u64>,
    snapshot: Option<u64>,
    stream: Option<u64>,
    now: u64,
    result: Result<HandoffResult, Error>,
)
    requires
        call_ensures(
            handoff::postgres_handoff_result,
            (snapshot_end_ts, snapshot, stream, now),
            result,
        ),
    ensures
        result is Err <==> (snapshot matches Some(held) && stream matches Some(started) && started
            < held),
        result matches Ok(told) ==> {
            &&& told.snapshot_end_ts == snapshot_end_ts
            &&& stream is Some ==> told.stream_start_ts == Some(now)
            &&& stream is None ==> told.stream_start_ts is None
            &&& told.overlap_events_dropped is None
            &&& told.stream_watermark_gap is Some <==> snapshot is Some && stream is Some
            &&& told.stream_watermark_gap matches Some(gap) ==> snapshot->0 + gap == stream->0
        },
{
}

/// A server is ready for a capture exactly where the role may replicate, the publication exists and
/// the slot exists; a missing slot is created only where that is allowed, kept in step on standbys
/// where that is asked for.
pub proof fn missing_slot_is_created_only_where_allowed(
    settings: &PostgresSourceConfig,
    facts: &ServerFacts,
    plan: Result<Preparation, Error>,
)
    requires
        call_ensures(validation::validate_server, (settings, facts), plan),
    ensures
        plan is Ok <==> (facts.has_replication_privilege && facts.publication_exists && (
        facts.slot_exists || settings.create_replication_slot_if_missing)),
        plan == Ok::<Preparation, Error>(Preparation::Ready) <==> (facts.has_replication_privilege
            && facts.publication_exists && facts.slot_exists),
        plan matches Ok(Preparation::CreateSlot { failover }) ==> !facts.slot_exists && failover
            == settings.failover_slot,
        facts.has_replication_privilege && facts.publication_exists && !facts.slot_exists
            && !settings.create_replication_slot_if_missing ==> (plan matches Err(error)
            && error is Unrecoverable),
{
}

/// A connection is made only with a usable configuration over a transport that verifies its peer,
/// and only where there is none yet.
pub proof fn connection_is_made_only_where_usable(
    connection: &PostgresConnection,
    due: Result<bool, Error>,
)
    requires
        call_ensures(PostgresConnection::connect, (connection,), due),
    ensures
        due == Ok::<bool, Error>(true) <==> (!connection.connected && connection.config.valid()
            && !connection.config.transport.skips_verification()),
        connection.connected ==> due == Ok::<bool, Error>(false),
        due matches Err(error) ==> error is ConfigError,
{
}

/// An event's offset to resume after is the end of its transaction, and none where the transaction
/// has not ended within what is remembered.
pub proof fn event_is_resumed_after_its_transaction(
    handle: &PostgresStreamHandle,
    one: &Event,
    offset: Option<String>,
)
    requires
        call_ensures(PostgresStreamHandle::resume_offset_for, (handle, one), offset),
    ensures
        one.transaction is None ==> offset is None,
        one.transaction is Some && offset is Some ==> exists|i: int|
            0 <= i < handle.progress().ends.len() && (#[trigger] handle.progress().ends[i]).0
                == one.transaction->0.tx_id && lsn::lsn_in(offset->0@) == Some(
                handle.progress().ends[i].1,
            ),
{
    if one.transaction is Some && offset is Some {
        let ends = handle.progress().ends;
        lemma_last_end(ends, one.transaction->0.tx_id);
        let i = choose|i: int|
            0 <= i < ends.len() && (#[trigger] ends[i]).0 == one.transaction->0.tx_id
                && polling::last_end(ends, one.transaction->0.tx_id) == Some(
                ends[i].1,
            );
        lsn::lsn_reads_back(ends[i].1);
    }
}

proof fn lemma_last_end(ends: Seq<(u64, u64)>, tx_id: u64)
    ensures
        polling::last_end(ends, tx_id) is Some ==> exists|i: int|
            0 <= i < ends.len() && (#[trigger] ends[i]).0 == tx_id
                && polling::last_end(ends, tx_id) == Some(ends[i].1),
    decreases ends.len(),
{
    if ends.len() > 0 {
        let less = ends.drop_last();
        lemma_last_end(less, tx_id);
        if ends.last().0 == tx_id {
            assert(ends[ends.len() - 1].0 == tx_id);
        } else if polling::last_end(less, tx_id) is Some {
            let i = choose|i: int|
                0 <= i < less.len() && (#[trigger] less[i]).0 == tx_id
                    && polling::last_end(less, tx_id) == Some(less[i].1);
            assert(ends[i] == less[i]);
        }
    }
}

// MySQL

/// A stream takes over from a snapshot exactly where it starts no later than the snapshot's place:
/// in an earlier file, or in the same file no further on.
pub proof fn stream_starts_no_later_than_the_snapshot(
    snapshot: &MysqlOffset,
    stream: &MysqlOffset,
    base: Seq<char>,
    snapshot_number: u64,
    stream_number: u64,
    checked: Result<(), Error>,
)
    requires
        snapshot.binlog_file@ == place_laws::numbered(base, snapshot_number),
        stream.binlog_file@ == place_laws::numbered(base, stream_number),
        call_ensures(mysql_handoff::check_watermarks, (snapshot, stream), checked),
    ensures
        checked is Ok <==> (stream_number < snapshot_number || (stream_number == snapshot_number
            && stream.binlog_pos <= snapshot.binlog_pos)),
        checked matches Err(error) ==> error is SourceError,
{
    place_laws::places_order_by_number_and_position(
        base,
        stream_number,
        stream.binlog_pos as u64,
        snapshot_number,
        snapshot.binlog_pos as u64,
    );
}

/// Making the overlap compact drops events and makes none up: as many are dropped as are missing
/// from what stays.
pub proof fn dropped_events_are_counted(
    events: Vec<Event>,
    snapshot: &MysqlOffset,
    outcome: (Vec<Event>, usize),
)
    requires
        call_ensures(mysql_handoff::compact_overlap, (events, snapshot), outcome),
    ensures
        outcome.0@.len() + outcome.1 == events@.len(),
{
}

} // verus!
