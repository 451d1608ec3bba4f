//! What the pgoutput stream promises its consumers.
use vstd::prelude::*;
use crate::event::{EventView, Operation, TransactionMetadata};
use crate::json::Json;
use crate::postgres::decoder;
use crate::postgres::decoder::{MessageView, PgBegin, PgCommit, RelationView};
use crate::postgres::lsn;
use crate::postgres::polling;
use crate::postgres::relation;
use crate::postgres::stream;
use crate::postgres::stream::{
    PgOutputXLogData, StreamSettings, StreamView, MAX_TRACKED_TX_ENDS,
};
use crate::schema;
use crate::schema::DdlView;
use crate::schema_laws;

verus! {

/// A delivered event can be resumed after: its transaction's end is known, and it is the place
/// that the commit named.
pub proof fn delivered_event_resumes_at_its_commit(state: StreamView, commit: PgCommit, xid: u32)
    requires
        state.xid == Some(xid),
    ensures
        polling::last_end(stream::committed(state, commit).ends, xid as u64) == Some(
            commit.end_lsn,
        ),
{
    let ends = state.ends.push((xid as u64, commit.end_lsn));
    assert(stream::latest_ends(ends).last() == (xid as u64, commit.end_lsn));
}

/// Every event that a commit delivers, and that belongs to a transaction, says how many there are.
pub proof fn commit_tells_the_size(state: StreamView, place: int)
    requires
        0 <= place < state.partial.len(),
        state.partial[place].transaction is Some,
    ensures
        stream::commit_events(state).len() == state.partial.len(),
        stream::commit_events(state)[place].transaction == Some(
            TransactionMetadata {
                total_events: Some(state.partial.len() as u32),
                ..state.partial[place].transaction->0
            },
        ),
{
}

/// The stream's durable place moves only where a transaction ends.
pub proof fn only_a_commit_moves_the_position(
    settings: StreamSettings,
    state: StreamView,
    frame: u64,
    message: MessageView,
    now: u64,
)
    requires
        !(message is Commit),
        stream::step(settings, state, frame, message, now) is Some,
    ensures
        (stream::step(settings, state, frame, message, now)->0).0.position == state.position,
{
    if let MessageView::Truncate { options, oids } = message {
        lemma_truncation(settings, state, oids, frame);
    }
}

proof fn lemma_truncation(
    settings: StreamSettings,
    state: StreamView,
    oids: Seq<u32>,
    frame: u64,
)
    ensures
        ({
            let next = stream::truncated(settings, state, state, oids, frame);
            next == (StreamView { partial: next.partial, ..state })
        }),
    decreases oids.len(),
{
    if oids.len() > 0 {
        lemma_truncation(settings, state, oids.drop_last(), frame);
    }
}

/// Within a transaction nothing is delivered before it ends, but for messages that are written
/// outside any transaction's fate.
pub proof fn open_transaction_delivers_nothing(
    settings: StreamSettings,
    state: StreamView,
    frame: u64,
    message: MessageView,
    now: u64,
)
    requires
        state.xid is Some,
        !(message is Commit),
        message matches MessageView::LogicalMessage { transactional, .. } ==> transactional,
        stream::step(settings, state, frame, message, now) is Some,
    ensures
        (stream::step(settings, state, frame, message, now)->0).1.len() == 0,
{
}

/// A new transaction starts empty, whatever an unfinished one left behind.
pub proof fn begin_drops_the_unfinished(state: StreamView, begin: PgBegin)
    ensures
        stream::begun(state, begin).partial.len() == 0,
        stream::begun(state, begin).xid == Some(begin.xid),
{
}

/// A change to a table that is not captured leaves no trace.
pub proof fn uncaptured_change_leaves_no_trace(
    settings: StreamSettings,
    state: StreamView,
    frame: u64,
    message: MessageView,
    now: u64,
)
    requires
        match message {
            MessageView::Insert { oid, .. } => !stream::captured(settings, state, oid),
            MessageView::Update { oid, .. } => !stream::captured(settings, state, oid),
            MessageView::Delete { oid, .. } => !stream::captured(settings, state, oid),
            _ => false,
        },
    ensures
        stream::step(settings, state, frame, message, now) == Some(
            (state, Seq::<EventView>::empty()),
        ),
{
}

/// A table that is not captured is described to the decoder and to nobody else.
pub proof fn uncaptured_shape_is_not_told(
    settings: StreamSettings,
    state: StreamView,
    frame: u64,
    seen: RelationView,
    now: u64,
)
    requires
        !crate::filter::allowed(
            Some(seen.namespace),
            seen.name,
            settings.include_list,
            settings.exclude_list,
        ),
    ensures
        stream::step(settings, state, frame, MessageView::Relation(seen), now) == Some(
            (stream::described(settings, state, seen), Seq::<EventView>::empty()),
        ),
        stream::described(settings, state, seen).partial == state.partial,
        stream::described(settings, state, seen).relations.contains_key(seen.oid),
        stream::described(settings, state, seen).relations[seen.oid] == seen,
{
}

/// A row names the shape that its table's announcement carries.
pub proof fn row_names_the_announced_shape(
    settings: StreamSettings,
    state: StreamView,
    seen: RelationView,
    frame: u64,
    first_sight: bool,
    now: u64,
)
    ensures
        ({
            let next = stream::described(settings, state, seen);
            stream::schema_id_of(next, seen.oid) == stream::shape_event(
                settings,
                next,
                seen,
                frame,
                first_sight,
                now,
            ).schema_id
        }),
{
}

/// A shape is never told at the start of the log, unless the stream stands there itself.
pub proof fn told_shape_does_not_go_back(
    settings: StreamSettings,
    state: StreamView,
    seen: RelationView,
    frame: u64,
    first_sight: bool,
    now: u64,
)
    requires
        state.position > 0,
    ensures
        stream::shape_event(settings, state, seen, frame, first_sight, now).source.offset
            != crate::postgres::lsn::lsn_text(0),
{
    let place = if frame == 0 {
        state.position
    } else {
        frame
    };
    if crate::postgres::lsn::lsn_text(place) == crate::postgres::lsn::lsn_text(0) {
        crate::postgres::lsn::lsn_texts_differ(place, 0);
    }
}

/// Frames may be processed in any batches: two batches do what the whole does.
pub proof fn batches_do_not_matter(
    settings: StreamSettings,
    state: StreamView,
    first: Seq<PgOutputXLogData>,
    second: Seq<PgOutputXLogData>,
    now: u64,
)
    requires
        stream::run(settings, state, first, now).2,
    ensures
        ({
            let before = stream::run(settings, state, first, now);
            let after = stream::run(settings, before.0, second, now);
            stream::run(settings, state, first + second, now) == (
                after.0,
                before.1 + after.1,
                after.2,
            )
        }),
    decreases second.len(),
{
    let before = stream::run(settings, state, first, now);
    if second.len() == 0 {
        assert(first + second =~= first);
        assert(before.1 + Seq::<EventView>::empty() =~= before.1);
    } else {
        batches_do_not_matter(settings, state, first, second.drop_last(), now);
        assert((first + second).drop_last() =~= first + second.drop_last());
        assert((first + second).last() == second.last());
        let part = stream::run(settings, before.0, second.drop_last(), now);
        match stream::frame_step(settings, part.0, second.last(), now) {
            Some((next, events)) => {
                assert((before.1 + part.1) + events =~= before.1 + (part.1 + events));
            },
            None => {},
        }
    }
}

/// A confirmed place settles exactly the transactions that end at or before it.
pub proof fn confirming_settles_what_ended(ends: Seq<(u64, u64)>, place: u64, one: (u64, u64))
    ensures
        polling::unsettled(ends, place).contains(one) <==> ends.contains(one) && one.1 > place,
    decreases ends.len(),
{
    if ends.len() > 0 {
        confirming_settles_what_ended(ends.drop_last(), place, one);
        let before = polling::unsettled(ends.drop_last(), place);
        let now = polling::unsettled(ends, place);
        if ends.contains(one) {
            let k = choose|k: int| 0 <= k < ends.len() && ends[k] == one;
            if k < ends.len() - 1 {
                assert(ends.drop_last()[k] == one);
            }
        }
        if ends.drop_last().contains(one) {
            let k = choose|k: int| 0 <= k < ends.len() - 1 && ends.drop_last()[k] == one;
            assert(ends[k] == one);
        }
        if ends.last().1 > place {
            assert(now == before.push(ends.last()));
            if before.contains(one) {
                let k = choose|k: int| 0 <= k < before.len() && before[k] == one;
                assert(now[k] == one);
            }
            assert(now[now.len() - 1] == ends.last());
            if now.contains(one) {
                let k = choose|k: int| 0 <= k < now.len() && now[k] == one;
                if k < before.len() {
                    assert(before[k] == one);
                }
            }
            assert(ends[ends.len() - 1] == ends.last());
        }
    }
}

// Resume places

/// Whether the events of the open transaction carry its id.
pub open spec fn tagged(state: StreamView) -> bool {
    forall|i: int|
        0 <= i < state.partial.len() ==> ((#[trigger] state.partial[i]).transaction matches Some(tx)
            ==> (state.xid matches Some(xid) && tx.tx_id == xid as u64))
}

/// Every event that awaits its commit carries the id of the open transaction, whatever the
/// message.
pub proof fn waiting_events_carry_their_transaction(
    settings: StreamSettings,
    state: StreamView,
    frame: u64,
    message: MessageView,
    now: u64,
)
    requires
        tagged(state),
        stream::step(settings, state, frame, message, now) is Some,
    ensures
        tagged((stream::step(settings, state, frame, message, now)->0).0),
{
    let next = (stream::step(settings, state, frame, message, now)->0).0;
    if let MessageView::Truncate { options, oids } = message {
        lemma_truncation_is_tagged(settings, state, oids, frame);
    } else {
        assert forall|i: int| 0 <= i < next.partial.len() implies ((
        #[trigger] next.partial[i]).transaction matches Some(tx) ==> (next.xid matches Some(xid)
            && tx.tx_id == xid as u64)) by {
            if i < state.partial.len() {
                assert(next.partial[i] == state.partial[i]);
            }
        }
    }
}

proof fn lemma_truncation_is_tagged(
    settings: StreamSettings,
    state: StreamView,
    oids: Seq<u32>,
    frame: u64,
)
    requires
        tagged(state),
    ensures
        tagged(stream::truncated(settings, state, state, oids, frame)),
    decreases oids.len(),
{
    lemma_truncation(settings, state, oids, frame);
    if oids.len() > 0 {
        lemma_truncation_is_tagged(settings, state, oids.drop_last(), frame);
        lemma_truncation(settings, state, oids.drop_last(), frame);
        let before = stream::truncated(settings, state, state, oids.drop_last(), frame);
        let next = stream::truncated(settings, state, state, oids, frame);
        assert forall|i: int| 0 <= i < next.partial.len() implies ((
        #[trigger] next.partial[i]).transaction matches Some(tx) ==> (next.xid matches Some(xid)
            && tx.tx_id == xid as u64)) by {
            if i < before.partial.len() {
                assert(next.partial[i] == before.partial[i]);
            }
        }
    }
}

/// What happens to a stream after an event was delivered.
pub enum Later {
    /// A frame of the log is processed.
    Frame { frame: PgOutputXLogData, now: u64 },
    /// A place is confirmed.
    Confirmed { place: u64 },
}

/// The state after what happened; a frame that cannot be gone on from leaves no mark.
pub open spec fn after(settings: StreamSettings, state: StreamView, later: Seq<Later>) -> StreamView
    decreases later.len(),
{
    if later.len() == 0 {
        state
    } else {
        let before = after(settings, state, later.drop_last());
        match later.last() {
            Later::Frame { frame, now } => match stream::frame_step(settings, before, frame, now) {
                Some((next, _)) => next,
                None => before,
            },
            Later::Confirmed { place } => StreamView {
                ends: polling::unsettled(before.ends, place),
                ..before
            },
        }
    }
}

/// Whether a frame commits a transaction.
pub open spec fn commits(one: Later) -> bool {
    one matches Later::Frame { frame, .. } && decoder::message_in(frame.data@) matches Some(
        MessageView::Commit(_),
    )
}

/// How many transactions were committed.
pub open spec fn commit_count(later: Seq<Later>) -> nat
    decreases later.len(),
{
    if later.len() == 0 {
        0
    } else {
        commit_count(later.drop_last()) + (if commits(later.last()) {
            1nat
        } else {
            0nat
        })
    }
}

/// Whether nothing at or past a transaction's end was confirmed, and no other transaction of the
/// same id was committed.
pub open spec fn undisturbed(
    settings: StreamSettings,
    state: StreamView,
    later: Seq<Later>,
    tx_id: u64,
    end: u64,
) -> bool
    decreases later.len(),
{
    later.len() > 0 ==> {
        &&& undisturbed(settings, state, later.drop_last(), tx_id, end)
        &&& later.last() matches Later::Confirmed { place } ==> place < end
        &&& commits(later.last()) ==> !(after(settings, state, later.drop_last()).xid matches Some(
            xid,
        ) && xid as u64 == tx_id)
    }
}

/// How many ends were noted after the last one of a transaction.
pub open spec fn noted_since(ends: Seq<(u64, u64)>, tx_id: u64) -> nat
    decreases ends.len(),
{
    if ends.len() == 0 || ends.last().0 == tx_id {
        0
    } else {
        1 + noted_since(ends.drop_last(), tx_id)
    }
}

proof fn lemma_skipping_keeps_the_end(ends: Seq<(u64, u64)>, tx_id: u64, count: int)
    requires
        0 <= count,
        polling::last_end(ends, tx_id) is Some,
        noted_since(ends, tx_id) + count < ends.len(),
    ensures
        polling::last_end(ends.skip(count), tx_id) == polling::last_end(ends, tx_id),
        noted_since(ends.skip(count), tx_id) == noted_since(ends, tx_id),
    decreases ends.len(),
{
    let left = ends.skip(count);
    assert(left.last() == ends.last());
    if ends.last().0 != tx_id {
        assert(left.drop_last() =~= ends.drop_last().skip(count));
        lemma_skipping_keeps_the_end(ends.drop_last(), tx_id, count);
    }
}

proof fn lemma_settling_keeps_the_end(ends: Seq<(u64, u64)>, tx_id: u64, place: u64)
    requires
        polling::last_end(ends, tx_id) matches Some(end) && place < end,
    ensures
        polling::last_end(polling::unsettled(ends, place), tx_id) == polling::last_end(ends, tx_id),
        noted_since(polling::unsettled(ends, place), tx_id) <= noted_since(ends, tx_id),
    decreases ends.len(),
{
    if ends.len() > 0 {
        let before = polling::unsettled(ends.drop_last(), place);
        if ends.last().0 != tx_id {
            lemma_settling_keeps_the_end(ends.drop_last(), tx_id, place);
        }
        if ends.last().1 > place {
            assert(before.push(ends.last()).drop_last() =~= before);
        }
    }
}

proof fn lemma_end_is_among(ends: Seq<(u64, u64)>, tx_id: u64)
    requires
        polling::last_end(ends, tx_id) is Some,
    ensures
        noted_since(ends, tx_id) < ends.len(),
    decreases ends.len(),
{
    if ends.len() > 0 && ends.last().0 != tx_id {
        lemma_end_is_among(ends.drop_last(), tx_id);
    }
}

proof fn lemma_only_commits_note_ends(
    settings: StreamSettings,
    state: StreamView,
    frame: u64,
    message: MessageView,
    now: u64,
)
    requires
        !(message is Commit),
        stream::step(settings, state, frame, message, now) is Some,
    ensures
        (stream::step(settings, state, frame, message, now)->0).0.ends == state.ends,
{
    if let MessageView::Truncate { options, oids } = message {
        lemma_truncation(settings, state, oids, frame);
    }
}

/// The resume place of a transaction stays known through whatever is processed and confirmed
/// afterwards, until its own end is confirmed or as many transactions have committed as are
/// remembered. A transaction id that is used again meanwhile is left out.
pub proof fn resume_place_is_kept(
    settings: StreamSettings,
    state: StreamView,
    later: Seq<Later>,
    tx_id: u64,
    end: u64,
)
    requires
        polling::last_end(state.ends, tx_id) == Some(end),
        noted_since(state.ends, tx_id) + commit_count(later) < MAX_TRACKED_TX_ENDS,
        undisturbed(settings, state, later, tx_id, end),
    ensures
        polling::last_end(after(settings, state, later).ends, tx_id) == Some(end),
        noted_since(after(settings, state, later).ends, tx_id) <= noted_since(state.ends, tx_id)
            + commit_count(later),
    decreases later.len(),
{
    if later.len() > 0 {
        resume_place_is_kept(settings, state, later.drop_last(), tx_id, end);
        let before = after(settings, state, later.drop_last());
        match later.last() {
            Later::Confirmed { place } => {
                lemma_settling_keeps_the_end(before.ends, tx_id, place);
            },
            Later::Frame { frame, now } => {
                if let Some(message) = decoder::message_in(frame.data@) {
                    if let MessageView::Commit(commit) = message {
                        if let Some(xid) = before.xid {
                            let more = before.ends.push((xid as u64, commit.end_lsn));
                            assert(more.drop_last() =~= before.ends);
                            assert(xid as u64 != tx_id);
                            assert(noted_since(more, tx_id) == noted_since(before.ends, tx_id) + 1);
                            lemma_end_is_among(before.ends, tx_id);
                            if more.len() > MAX_TRACKED_TX_ENDS {
                                lemma_skipping_keeps_the_end(
                                    more,
                                    tx_id,
                                    more.len() - MAX_TRACKED_TX_ENDS,
                                );
                            }
                        }
                    } else if stream::step(settings, before, frame.lsn, message, now) is Some {
                        lemma_only_commits_note_ends(settings, before, frame.lsn, message, now);
                    }
                }
            },
        }
    }
}

/// Every event of a transaction resumes at the end that its commit named, which is past the whole
/// transaction, through whatever is processed and confirmed afterwards; see
/// [`resume_place_is_kept`].
pub proof fn delivered_event_keeps_its_resume_place(
    settings: StreamSettings,
    state: StreamView,
    commit: PgCommit,
    xid: u32,
    place: int,
    later: Seq<Later>,
)
    requires
        tagged(state),
        state.xid == Some(xid),
        0 <= place < state.partial.len(),
        state.partial[place].transaction is Some,
        commit_count(later) < MAX_TRACKED_TX_ENDS,
        undisturbed(settings, stream::committed(state, commit), later, xid as u64, commit.end_lsn),
    ensures
        ({
            let one = stream::commit_events(state)[place];
            &&& one.transaction is Some
            &&& polling::last_end(
                after(settings, stream::committed(state, commit), later).ends,
                (one.transaction->0).tx_id,
            ) == Some(commit.end_lsn)
        }),
{
    delivered_event_resumes_at_its_commit(state, commit, xid);
    let next = stream::committed(state, commit);
    let ends = state.ends.push((xid as u64, commit.end_lsn));
    assert(next.ends.last() == (xid as u64, commit.end_lsn));
    resume_place_is_kept(settings, next, later, xid as u64, commit.end_lsn);
}

/// Once a place at or past every end of a transaction is confirmed, its events have no resume
/// place any more: they need none.
pub proof fn confirmed_event_has_no_resume_place(ends: Seq<(u64, u64)>, tx_id: u64, place: u64)
    requires
        forall|i: int| 0 <= i < ends.len() && (#[trigger] ends[i]).0 == tx_id ==> ends[i].1 <= place,
    ensures
        polling::last_end(polling::unsettled(ends, place), tx_id) is None,
    decreases ends.len(),
{
    if ends.len() > 0 {
        let before = polling::unsettled(ends.drop_last(), place);
        assert forall|i: int|
            0 <= i < ends.drop_last().len() && (
            #[trigger] ends.drop_last()[i]).0 == tx_id implies ends.drop_last()[i].1 <= place by {
            assert(ends.drop_last()[i] == ends[i]);
        }
        confirmed_event_has_no_resume_place(ends.drop_last(), tx_id, place);
        assert(ends[ends.len() - 1] == ends.last());
        if ends.last().1 > place {
            assert(before.push(ends.last()).drop_last() =~= before);
        }
    }
}

/// Each delivered event is counted, once.
pub proof fn delivered_events_are_counted(
    settings: StreamSettings,
    state: StreamView,
    frame: PgOutputXLogData,
    now: u64,
)
    requires
        state.partial.len() <= u32::MAX,
        state.polled + state.partial.len() < u64::MAX,
    ensures
        stream::frame_step(settings, state, frame, now) matches Some((next, events)) ==> next.polled
            == state.polled + events.len(),
{
    match decoder::message_in(frame.data@) {
        Some(MessageView::Truncate { options, oids }) => {
            lemma_truncation_keeps_the_count(settings, state, state, oids, frame.lsn);
        },
        _ => {},
    }
}

proof fn lemma_truncation_keeps_the_count(
    settings: StreamSettings,
    start: StreamView,
    state: StreamView,
    oids: Seq<u32>,
    frame: u64,
)
    ensures
        stream::truncated(settings, start, state, oids, frame).polled == state.polled,
    decreases oids.len(),
{
    if oids.len() > 0 {
        lemma_truncation_keeps_the_count(settings, start, state, oids.drop_last(), frame);
    }
}

/// A frame that cannot be gone on from stops its batch, and takes nothing back: the state and the
/// events are those of the frames before it, and what comes after it is not looked at.
pub proof fn stopped_batch_keeps_what_came_before(
    settings: StreamSettings,
    state: StreamView,
    good: Seq<PgOutputXLogData>,
    bad: PgOutputXLogData,
    rest: Seq<PgOutputXLogData>,
    now: u64,
)
    requires
        stream::run(settings, state, good, now).2,
        stream::frame_step(settings, stream::run(settings, state, good, now).0, bad, now) is None,
    ensures
        ({
            let before = stream::run(settings, state, good, now);
            stream::run(settings, state, good.push(bad) + rest, now) == (before.0, before.1, false)
        }),
    decreases rest.len(),
{
    let whole = good.push(bad) + rest;
    if rest.len() == 0 {
        assert(whole =~= good.push(bad));
        assert(whole.drop_last() =~= good);
        assert(whole.last() == bad);
    } else {
        stopped_batch_keeps_what_came_before(settings, state, good, bad, rest.drop_last(), now);
        assert(whole.drop_last() =~= good.push(bad) + rest.drop_last());
    }
}

/// The event of a shape tells the first sight of a table as an observation and every later one as a
/// change of the table, and shows the shape in full.
pub proof fn shape_event_shows_the_shape(
    settings: StreamSettings,
    state: StreamView,
    seen: RelationView,
    frame: u64,
    first_sight: bool,
    now: u64,
)
    ensures
        ({
            let one = stream::shape_event(settings, state, seen, frame, first_sight, now);
            &&& one.op == Operation::SchemaChange
            &&& one.ts == (if state.commit_ts == 0 {
                now
            } else {
                state.commit_ts
            })
            &&& one.after matches Some(payload) && {
                &&& first_sight ==> payload.members()["ddl_type"@] == Json::Text("READ_SCHEMA"@)
                &&& !first_sight ==> payload.members()["ddl_type"@] == Json::Text("ALTER_TABLE"@)
                &&& payload.members()["schema"@] == Json::Text(seen.namespace)
                &&& payload.members()["table"@] == Json::Text(seen.name)
                &&& payload.members()["result_schema"@] == schema::shape_json(
                    relation::shape_of(settings.keys, settings.columns, seen),
                )
            }
            &&& one.schema_id == Some(
                schema::shape_text(relation::shape_of(settings.keys, settings.columns, seen)),
            )
        }),
{
    let ts = stream::time_of(state, now);
    let place = if frame == 0 {
        state.position
    } else {
        frame
    };
    let told = DdlView {
        ddl_type: if first_sight {
            schema::DDL_TYPE_READ_SCHEMA@
        } else {
            "ALTER_TABLE"@
        },
        schema: seen.namespace,
        table: seen.name,
        statement: if first_sight {
            schema::observation(seen.namespace, seen.name, "pgoutput RELATION"@)
        } else {
            "ALTER TABLE "@ + seen.namespace + "."@ + seen.name
                + " /* derived from pgoutput RELATION metadata */"@
        },
        result_schema: Some(relation::shape_of(settings.keys, settings.columns, seen)),
        ts,
    };
    schema_laws::schema_event_tells_the_statement(
        told,
        settings.source_name,
        lsn::lsn_text(place),
        ts,
    );
}

/// A relation whose changes identify no row is noted, once, with the reason; no other is.
pub proof fn faulty_relation_is_noted(
    settings: StreamSettings,
    state: StreamView,
    seen: RelationView,
)
    ensures
        ({
            let next = stream::described(settings, state, seen);
            let fault = relation::identity_fault(settings.keys, seen);
            let known = exists|i: int|
                0 <= i < state.faults.len() && (#[trigger] state.faults[i]).0 == seen.oid;
            &&& fault is None || known ==> next.faults == state.faults
            &&& fault is Some && !known ==> next.faults == state.faults.push(
                (seen.oid, fault->0),
            )
            &&& next.relations == state.relations.insert(seen.oid, seen)
            &&& next.schema_ids[seen.oid] == schema::shape_text(
                relation::shape_of(settings.keys, settings.columns, seen),
            )
        }),
{
}

} // verus!
