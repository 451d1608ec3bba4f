//! What the events of the pgoutput stream say: each kind of message in terms of the bytes that a
//! server writes and of what the consumer is handed.
use vstd::prelude::*;
use crate::base64_text;
use crate::event::{BeforeView, EventView, Operation, TransactionMetadata, EVENT_ENVELOPE_VERSION};
use crate::filter;
use crate::json::Json;
use crate::postgres::decoder;
use crate::postgres::decoder::{
    MessageView, PgBegin, PgColumnView, PgCommit, PgOutputMessage, PgValue, PgValueView,
    RelationView,
};
use crate::postgres::lsn;
use crate::postgres::relation;
use crate::postgres::stream;
use crate::postgres::stream::{PgOutputXLogData, StreamSettings, StreamView};
use crate::postgres::wire_laws;
use crate::text;

verus! {

// Decoded messages

/// Whether a value holds what was written.
pub open spec fn same_value(value: PgValue, written: PgValueView) -> bool {
    match (value, written) {
        (PgValue::Null, PgValueView::Null) => true,
        (PgValue::Unchanged, PgValueView::Unchanged) => true,
        (PgValue::Text(held), PgValueView::Text(told)) => held@ == told,
        _ => false,
    }
}

/// Whether a tuple holds what was written.
pub open spec fn same_tuple(values: Seq<PgValue>, written: Seq<PgValueView>) -> bool {
    &&& values.len() == written.len()
    &&& forall|i: int| 0 <= i < values.len() ==> same_value(#[trigger] values[i], written[i])
}

/// Whether a tuple that need not be there holds what was written.
pub open spec fn same_option(
    tuple: Option<Vec<PgValue>>,
    written: Option<Seq<PgValueView>>,
) -> bool {
    match (tuple, written) {
        (Some(values), Some(told)) => same_tuple(values@, told),
        (None, None) => true,
        _ => false,
    }
}

proof fn lemma_same_tuple(values: Seq<PgValue>, written: Seq<PgValueView>)
    requires
        decoder::value_views(values) == written,
    ensures
        same_tuple(values, written),
{
    assert forall|i: int| 0 <= i < values.len() implies same_value(
        #[trigger] values[i],
        written[i],
    ) by {
        assert(decoder::value_views(values)[i] == values[i]@);
    }
}

/// A decoded message holds, field by field, what the server wrote.
pub proof fn decoded_message_holds_what_was_written(
    written: MessageView,
    rest: Seq<u8>,
    message: PgOutputMessage,
)
    requires
        wire_laws::writable(written),
        decoder::message_in(wire_laws::message_bytes(written) + rest) == Some(message@),
    ensures
        match written {
            MessageView::Begin(begin) => message == PgOutputMessage::Begin(begin),
            MessageView::Commit(commit) => message == PgOutputMessage::Commit(commit),
            MessageView::Relation(told) => message matches PgOutputMessage::Relation(held)
                && held.oid == told.oid && held.namespace@ == told.namespace && held.name@
                == told.name && held.replica_identity == told.replica_identity
                && held.columns@.len() == told.columns.len() && forall|i: int|
                0 <= i < told.columns.len() ==> {
                    &&& (#[trigger] held.columns@[i]).flags == told.columns[i].flags
                    &&& held.columns@[i].name@ == told.columns[i].name
                    &&& held.columns@[i].type_oid == told.columns[i].type_oid
                    &&& held.columns@[i].type_modifier == told.columns[i].type_modifier
                },
            MessageView::Insert { oid, new_tuple } => message matches PgOutputMessage::Insert(held)
                && held.relation_oid == oid && same_tuple(held.new_tuple@, new_tuple),
            MessageView::Update { oid, key_tuple, old_tuple, new_tuple } => {
                &&& message matches PgOutputMessage::Update(held)
                &&& held.relation_oid == oid
                &&& same_option(held.key_tuple, key_tuple)
                &&& same_option(held.old_tuple, old_tuple)
                &&& same_tuple(held.new_tuple@, new_tuple)
            },
            MessageView::Delete { oid, key_tuple, old_tuple } => {
                &&& message matches PgOutputMessage::Delete(held)
                &&& held.relation_oid == oid
                &&& same_option(held.key_tuple, key_tuple)
                &&& same_option(held.old_tuple, old_tuple)
            },
            MessageView::Truncate { options, oids } => {
                &&& message matches PgOutputMessage::Truncate(held)
                &&& held.options == options
                &&& held.relation_oids@ == oids
            },
            MessageView::LogicalMessage { transactional, lsn, prefix, content } => {
                &&& message matches PgOutputMessage::LogicalMessage(held)
                &&& held.transactional == transactional
                &&& held.lsn == lsn
                &&& held.prefix@ == prefix
                &&& held.content@ == content
            },
            MessageView::Unknown(tag) => message == PgOutputMessage::Unknown(tag),
        },
{
    wire_laws::message_reads_back(written, rest);
    match message {
        PgOutputMessage::Relation(held) => {
            let columns = decoder::column_views(held.columns@);
            if let MessageView::Relation(told) = written {
                assert forall|i: int| 0 <= i < told.columns.len() implies {
                    &&& (#[trigger] held.columns@[i]).flags == told.columns[i].flags
                    &&& held.columns@[i].name@ == told.columns[i].name
                    &&& held.columns@[i].type_oid == told.columns[i].type_oid
                    &&& held.columns@[i].type_modifier == told.columns[i].type_modifier
                } by {
                    assert(columns[i] == held.columns@[i]@);
                }
            }
        },
        PgOutputMessage::Insert(held) => {
            lemma_same_tuple(held.new_tuple@, decoder::value_views(held.new_tuple@));
        },
        PgOutputMessage::Update(held) => {
            lemma_same_tuple(held.new_tuple@, decoder::value_views(held.new_tuple@));
            if let Some(values) = held.key_tuple {
                lemma_same_tuple(values@, decoder::value_views(values@));
            }
            if let Some(values) = held.old_tuple {
                lemma_same_tuple(values@, decoder::value_views(values@));
            }
        },
        PgOutputMessage::Delete(held) => {
            if let Some(values) = held.key_tuple {
                lemma_same_tuple(values@, decoder::value_views(values@));
            }
            if let Some(values) = held.old_tuple {
                lemma_same_tuple(values@, decoder::value_views(values@));
            }
        },
        _ => {},
    }
}

// Rows

/// Whether the columns of a relation have different names.
pub open spec fn distinct_columns(told: RelationView) -> bool {
    forall|i: int, j: int|
        0 <= i < j < told.columns.len() ==> (#[trigger] told.columns[i]).name != (
        #[trigger] told.columns[j]).name
}

/// Whether a row shows a tuple: each value under its column's name, a null as a null, what the log
/// does not carry among the holes and nowhere else, and nothing besides.
pub open spec fn shows(
    told: RelationView,
    values: Seq<PgValueView>,
    row: Json,
    holes: Seq<Seq<char>>,
) -> bool {
    &&& row is Object
    &&& forall|i: int|
        0 <= i < values.len() ==> match #[trigger] values[i] {
            PgValueView::Null => row.members().contains_key(told.columns[i].name)
                && row.members()[told.columns[i].name] == Json::Null && !holes.contains(
                told.columns[i].name,
            ),
            PgValueView::Text(value) => row.members().contains_key(told.columns[i].name)
                && row.members()[told.columns[i].name] == Json::Text(value) && !holes.contains(
                told.columns[i].name,
            ),
            PgValueView::Unchanged => !row.members().contains_key(told.columns[i].name)
                && holes.contains(told.columns[i].name),
        }
    &&& forall|name: Seq<char>| #[trigger]
        row.members().contains_key(name) ==> exists|i: int|
            0 <= i < values.len() && (#[trigger] told.columns[i]).name == name
    &&& forall|name: Seq<char>| #[trigger]
        holes.contains(name) ==> exists|i: int|
            0 <= i < values.len() && (#[trigger] told.columns[i]).name == name
}

proof fn lemma_only_columns(columns: Seq<PgColumnView>, values: Seq<PgValueView>, count: int)
    requires
        0 <= count <= values.len() <= columns.len(),
    ensures
        forall|name: Seq<char>| #[trigger]
            relation::row_members(columns, values, count).contains_key(name) ==> exists|i: int|
                0 <= i < count && (#[trigger] columns[i]).name == name,
        forall|name: Seq<char>| #[trigger]
            relation::row_holes(columns, values, count).contains(name) ==> exists|i: int|
                0 <= i < count && (#[trigger] columns[i]).name == name,
    decreases count,
{
    if count > 0 {
        lemma_only_columns(columns, values, count - 1);
        let members = relation::row_members(columns, values, count - 1);
        let holes = relation::row_holes(columns, values, count - 1);
        let last = columns[count - 1].name;
        assert forall|name: Seq<char>| #[trigger]
            relation::row_members(columns, values, count).contains_key(name) implies exists|i: int|
            0 <= i < count && (#[trigger] columns[i]).name == name by {
            if name == last {
                assert(columns[count - 1].name == name);
            } else {
                assert(members.contains_key(name));
                let i = choose|i: int| 0 <= i < count - 1 && (#[trigger] columns[i]).name == name;
                assert(columns[i].name == name);
            }
        }
        assert forall|name: Seq<char>| #[trigger]
            relation::row_holes(columns, values, count).contains(name) implies exists|i: int|
            0 <= i < count && (#[trigger] columns[i]).name == name by {
            let now = relation::row_holes(columns, values, count);
            let k = choose|k: int| 0 <= k < now.len() && now[k] == name;
            if k < holes.len() {
                assert(holes[k] == name);
                assert(holes.contains(name));
                let i = choose|i: int| 0 <= i < count - 1 && (#[trigger] columns[i]).name == name;
                assert(columns[i].name == name);
            } else {
                assert(columns[count - 1].name == name);
            }
        }
    }
}

/// A tuple that fits its relation gives a row that shows it.
pub proof fn row_shows_its_tuple(told: RelationView, values: Seq<PgValueView>)
    requires
        values.len() <= told.columns.len(),
        distinct_columns(told),
    ensures
        relation::row_of(told, values) matches Some((row, holes)) && shows(
            told,
            values,
            row,
            holes,
        ),
{
    let (row, holes) = relation::row_of(told, values)->0;
    assert forall|i: int| 0 <= i < values.len() implies match #[trigger] values[i] {
        PgValueView::Null => row.members().contains_key(told.columns[i].name)
            && row.members()[told.columns[i].name] == Json::Null && !holes.contains(
            told.columns[i].name,
        ),
        PgValueView::Text(value) => row.members().contains_key(told.columns[i].name)
            && row.members()[told.columns[i].name] == Json::Text(value) && !holes.contains(
            told.columns[i].name,
        ),
        PgValueView::Unchanged => !row.members().contains_key(told.columns[i].name)
            && holes.contains(told.columns[i].name),
    } by {
        relation::no_column_is_lost(told, values, i);
    }
    lemma_only_columns(told.columns, values, values.len() as int);
}

/// A tuple with more values than its relation has columns gives no row.
pub proof fn overlong_tuple_gives_no_row(told: RelationView, values: Seq<PgValueView>)
    ensures
        values.len() > told.columns.len() <==> relation::row_of(told, values) is None,
{
}

// Keys

/// The key of a table whose replica identity is not the whole row is the columns that the server
/// flags, in their order.
pub proof fn key_is_the_flagged_columns(
    settings: StreamSettings,
    told: RelationView,
)
    requires
        told.replica_identity != 0x66,
    ensures
        ({
            let flagged = told.columns.filter(|column: PgColumnView| column.flags % 2 == 1);
            let names = flagged.map_values(|column: PgColumnView| column.name);
            relation::key_of(settings.keys, told) == (if names.len() == 0 {
                None
            } else {
                Some(names)
            })
        }),
{
    lemma_flagged(told.columns);
}

proof fn lemma_flagged(columns: Seq<PgColumnView>)
    ensures
        relation::flagged(columns) == columns.filter(
            |column: PgColumnView| column.flags % 2 == 1,
        ).map_values(|column: PgColumnView| column.name),
    decreases columns.len(),
{
    reveal(Seq::filter);
    let keys = columns.filter(|column: PgColumnView| column.flags % 2 == 1);
    if columns.len() > 0 {
        lemma_flagged(columns.drop_last());
    }
    assert(relation::flagged(columns) =~= keys.map_values(|column: PgColumnView| column.name));
}

/// The key of a table whose replica identity is the whole row is the catalog's, where it has one.
pub proof fn key_of_a_full_identity_is_the_catalogs(settings: StreamSettings, told: RelationView)
    requires
        told.replica_identity == 0x66,
    ensures
        relation::key_of(settings.keys, told) == (match settings.keys.found(
            told.namespace,
            told.name,
        ) {
            Some(key) => if key@.len() > 0 {
                Some(text::texts(key@))
            } else {
                None
            },
            None => None,
        }),
{
}

// Changes

/// Whether a table's changes are delivered.
pub open spec fn wanted(settings: StreamSettings, told: RelationView) -> bool {
    filter::allowed(
        Some(told.namespace),
        told.name,
        settings.include_list,
        settings.exclude_list,
    )
}

/// Whether an event says where it comes from: its source, its place in the log, its transaction's
/// time, its table with its key, and its transaction with its own place in it.
pub open spec fn comes_from(
    settings: StreamSettings,
    state: StreamView,
    told: RelationView,
    place: u64,
    one: EventView,
) -> bool {
    &&& one.source.source_name == settings.source_name
    &&& lsn::lsn_in(one.source.offset) == Some(place)
    &&& one.source.timestamp == state.commit_ts
    &&& one.ts == state.commit_ts
    &&& one.schema == Some(told.namespace)
    &&& one.table == told.name
    &&& one.snapshot is None
    &&& one.envelope_version == EVENT_ENVELOPE_VERSION
    &&& one.transaction == (match state.xid {
        Some(xid) => Some(
            TransactionMetadata {
                tx_id: xid as u64,
                total_events: None,
                event_index: state.partial.len() as u32,
            },
        ),
        None => None,
    })
    &&& one.schema_id == (if state.schema_ids.contains_key(told.oid) {
        Some(state.schema_ids[told.oid])
    } else {
        None
    })
}

/// Whether a state is another with one more event awaiting its commit.
pub open spec fn one_more(state: StreamView, next: StreamView) -> bool {
    &&& next == (StreamView { partial: next.partial, ..state })
    &&& next.partial.len() == state.partial.len() + 1
    &&& next.partial.drop_last() == state.partial
}

/// What is asked of a state in which a change of a table arrives: the table has been described, and
/// is captured.
pub open spec fn ready(settings: StreamSettings, state: StreamView, oid: u32) -> bool {
    &&& state.relations.contains_key(oid)
    &&& state.relations[oid].oid == oid
    &&& distinct_columns(state.relations[oid])
    &&& wanted(settings, state.relations[oid])
}

/// An insert that a server writes becomes one insert event, which awaits its commit and shows the
/// new row.
pub proof fn written_insert_is_an_insert(
    settings: StreamSettings,
    state: StreamView,
    frame: PgOutputXLogData,
    oid: u32,
    values: Seq<PgValueView>,
    rest: Seq<u8>,
    now: u64,
)
    requires
        wire_laws::writable_tuple(values),
        frame.data@ == wire_laws::message_bytes(
            MessageView::Insert { oid, new_tuple: values },
        ) + rest,
        ready(settings, state, oid),
        values.len() <= state.relations[oid].columns.len(),
    ensures
        stream::frame_step(settings, state, frame, now) matches Some((next, events))
            && events.len() == 0 && one_more(state, next) && ({
            let told = state.relations[oid];
            let one = next.partial.last();
            &&& one.op == Operation::Insert
            &&& one.before is Unavailable
            &&& one.after matches Some(row) && shows(told, values, row, one.unavailable_columns)
            &&& one.primary_key == relation::key_of(settings.keys, told)
            &&& comes_from(settings, state, told, frame.lsn, one)
        }),
{
    wire_laws::message_reads_back(MessageView::Insert { oid, new_tuple: values }, rest);
    row_shows_its_tuple(state.relations[oid], values);
    lsn::lsn_reads_back(frame.lsn);
    let next = (stream::frame_step(settings, state, frame, now)->0).0;
    assert(next.partial.drop_last() =~= state.partial);
}

/// Whether an image of an old row shows what was written of it: the whole row with its own holes,
/// the key, or nothing.
pub open spec fn shows_old(
    told: RelationView,
    key_tuple: Option<Seq<PgValueView>>,
    old_tuple: Option<Seq<PgValueView>>,
    before: BeforeView,
) -> bool {
    match (key_tuple, old_tuple) {
        (_, Some(values)) => before matches BeforeView::Full { row, unavailable_columns } && shows(
            told,
            values,
            row,
            unavailable_columns,
        ),
        (Some(values), None) => before matches BeforeView::KeyOnly(row) && exists|
            holes: Seq<Seq<char>>,
        | #[trigger] shows(told, values, row, holes),
        (None, None) => before is Unavailable,
    }
}

/// Whether a tuple that need not be there fits a relation.
pub open spec fn fits(told: RelationView, tuple: Option<Seq<PgValueView>>) -> bool {
    tuple matches Some(values) ==> values.len() <= told.columns.len()
}

proof fn lemma_old_image(
    state: StreamView,
    oid: u32,
    key_tuple: Option<Seq<PgValueView>>,
    old_tuple: Option<Seq<PgValueView>>,
)
    requires
        state.relations.contains_key(oid),
        distinct_columns(state.relations[oid]),
        fits(state.relations[oid], key_tuple),
        fits(state.relations[oid], old_tuple),
    ensures
        stream::old_image(state, oid, key_tuple, old_tuple) matches Some(before) && shows_old(
            state.relations[oid],
            key_tuple,
            old_tuple,
            before,
        ),
{
    let told = state.relations[oid];
    match (key_tuple, old_tuple) {
        (_, Some(values)) => {
            row_shows_its_tuple(told, values);
        },
        (Some(values), None) => {
            row_shows_its_tuple(told, values);
            let (row, holes) = relation::row_of(told, values)->0;
            assert(shows(told, values, row, holes));
        },
        (None, None) => {},
    }
}

/// An update that a server writes becomes one update event, which awaits its commit and shows the
/// new row and what was written of the old one.
pub proof fn written_update_is_an_update(
    settings: StreamSettings,
    state: StreamView,
    frame: PgOutputXLogData,
    oid: u32,
    key_tuple: Option<Seq<PgValueView>>,
    old_tuple: Option<Seq<PgValueView>>,
    values: Seq<PgValueView>,
    rest: Seq<u8>,
    now: u64,
)
    requires
        wire_laws::writable(
            MessageView::Update { oid, key_tuple, old_tuple, new_tuple: values },
        ),
        frame.data@ == wire_laws::message_bytes(
            MessageView::Update { oid, key_tuple, old_tuple, new_tuple: values },
        ) + rest,
        ready(settings, state, oid),
        values.len() <= state.relations[oid].columns.len(),
        fits(state.relations[oid], key_tuple),
        fits(state.relations[oid], old_tuple),
    ensures
        stream::frame_step(settings, state, frame, now) matches Some((next, events))
            && events.len() == 0 && one_more(state, next) && ({
            let told = state.relations[oid];
            let one = next.partial.last();
            &&& one.op == Operation::Update
            &&& shows_old(told, key_tuple, old_tuple, one.before)
            &&& one.after matches Some(row) && shows(told, values, row, one.unavailable_columns)
            &&& one.primary_key == relation::key_of(settings.keys, told)
            &&& comes_from(settings, state, told, frame.lsn, one)
        }),
{
    wire_laws::message_reads_back(
        MessageView::Update { oid, key_tuple, old_tuple, new_tuple: values },
        rest,
    );
    row_shows_its_tuple(state.relations[oid], values);
    lemma_old_image(state, oid, key_tuple, old_tuple);
    lsn::lsn_reads_back(frame.lsn);
    let next = (stream::frame_step(settings, state, frame, now)->0).0;
    assert(next.partial.drop_last() =~= state.partial);
}

/// A delete that a server writes becomes one delete event, which awaits its commit and says which
/// row was deleted: the whole row where it was written, and its key where that was.
pub proof fn written_delete_says_which_row(
    settings: StreamSettings,
    state: StreamView,
    frame: PgOutputXLogData,
    oid: u32,
    key_tuple: Option<Seq<PgValueView>>,
    old_tuple: Option<Seq<PgValueView>>,
    rest: Seq<u8>,
    now: u64,
)
    requires
        wire_laws::writable(MessageView::Delete { oid, key_tuple, old_tuple }),
        frame.data@ == wire_laws::message_bytes(
            MessageView::Delete { oid, key_tuple, old_tuple },
        ) + rest,
        ready(settings, state, oid),
        fits(state.relations[oid], key_tuple),
        fits(state.relations[oid], old_tuple),
    ensures
        stream::frame_step(settings, state, frame, now) matches Some((next, events))
            && events.len() == 0 && one_more(state, next) && ({
            let told = state.relations[oid];
            let one = next.partial.last();
            &&& one.op == Operation::Delete
            &&& one.before.row() is Some
            &&& shows_old(told, key_tuple, old_tuple, one.before)
            &&& one.after is None
            &&& one.unavailable_columns.len() == 0
            &&& one.primary_key == relation::key_of(settings.keys, told)
            &&& comes_from(settings, state, told, frame.lsn, one)
        }),
{
    wire_laws::message_reads_back(MessageView::Delete { oid, key_tuple, old_tuple }, rest);
    lemma_old_image(state, oid, key_tuple, old_tuple);
    lsn::lsn_reads_back(frame.lsn);
    let next = (stream::frame_step(settings, state, frame, now)->0).0;
    assert(next.partial.drop_last() =~= state.partial);
}

/// Whether every delete among some events says which row was deleted.
pub open spec fn deletes_tell(events: Seq<EventView>) -> bool {
    forall|i: int|
        0 <= i < events.len() && (#[trigger] events[i]).op == Operation::Delete
            ==> events[i].before.row() is Some && events[i].after is None
}

/// Every delete event that is ever delivered says which row was deleted, whatever the server sends.
pub proof fn delivered_deletes_say_which_row(
    settings: StreamSettings,
    state: StreamView,
    frames: Seq<PgOutputXLogData>,
    now: u64,
)
    requires
        deletes_tell(state.partial),
    ensures
        deletes_tell(stream::run(settings, state, frames, now).1),
        deletes_tell(stream::run(settings, state, frames, now).0.partial),
    decreases frames.len(),
{
    if frames.len() > 0 {
        delivered_deletes_say_which_row(settings, state, frames.drop_last(), now);
        let before = stream::run(settings, state, frames.drop_last(), now);
        let after = stream::run(settings, state, frames, now);
        if before.2 {
            if let Some((next, events)) = stream::frame_step(
                settings,
                before.0,
                frames.last(),
                now,
            ) {
                lemma_step_tells(settings, before.0, frames.last(), now);
                assert forall|i: int|
                    0 <= i < after.1.len() && (#[trigger] after.1[i]).op
                        == Operation::Delete implies after.1[i].before.row() is Some
                    && after.1[i].after is None by {
                    if i < before.1.len() {
                        assert(after.1[i] == before.1[i]);
                    } else {
                        assert(after.1[i] == events[i - before.1.len()]);
                    }
                }
            }
        }
    }
}

proof fn lemma_step_tells(
    settings: StreamSettings,
    state: StreamView,
    frame: PgOutputXLogData,
    now: u64,
)
    requires
        deletes_tell(state.partial),
        stream::frame_step(settings, state, frame, now) is Some,
    ensures
        ({
            let (next, events) = stream::frame_step(settings, state, frame, now)->0;
            deletes_tell(next.partial) && deletes_tell(events)
        }),
{
    let (next, events) = stream::frame_step(settings, state, frame, now)->0;
    wire_laws::read_delete_tells_of_its_row(frame.data@);
    let message = decoder::message_in(frame.data@)->0;
    match message {
        MessageView::Commit(_) => {
            assert forall|i: int|
                0 <= i < events.len() && (#[trigger] events[i]).op
                    == Operation::Delete implies events[i].before.row() is Some
                && events[i].after is None by {
                assert(events[i].op == state.partial[i].op);
            }
        },
        MessageView::Truncate { options, oids } => {
            lemma_truncated(settings, state, oids, frame.lsn);
            assert forall|i: int|
                0 <= i < next.partial.len() && (#[trigger] next.partial[i]).op
                    == Operation::Delete implies next.partial[i].before.row() is Some
                && next.partial[i].after is None by {
                if i < state.partial.len() {
                    assert(next.partial[i] == state.partial[i]);
                }
            }
        },
        _ => {
            assert forall|i: int|
                0 <= i < next.partial.len() && (#[trigger] next.partial[i]).op
                    == Operation::Delete implies next.partial[i].before.row() is Some
                && next.partial[i].after is None by {
                if i < state.partial.len() {
                    assert(next.partial[i] == state.partial[i]);
                }
            }
        },
    }
}

proof fn lemma_truncated(
    settings: StreamSettings,
    state: StreamView,
    oids: Seq<u32>,
    frame: u64,
)
    ensures
        ({
            let next = stream::truncated(settings, state, state, oids, frame);
            &&& next == (StreamView { partial: next.partial, ..state })
            &&& next.partial.len() >= state.partial.len()
            &&& forall|i: int|
                0 <= i < state.partial.len() ==> next.partial[i] == #[trigger] state.partial[i]
            &&& forall|i: int|
                state.partial.len() <= i < next.partial.len() ==> (#[trigger] next.partial[i]).op
                    == Operation::Truncate
        }),
    decreases oids.len(),
{
    if oids.len() > 0 {
        lemma_truncated(settings, state, oids.drop_last(), frame);
    }
}

/// Whether an event says that a table was emptied. Such an event has no row and no key.
pub open spec fn empties(
    settings: StreamSettings,
    state: StreamView,
    oid: u32,
    place: u64,
    one: EventView,
) -> bool {
    &&& one.op == Operation::Truncate
    &&& one.before is Unavailable
    &&& one.after is None
    &&& one.primary_key is None
    &&& one.unavailable_columns.len() == 0
    &&& comes_from(settings, state, state.relations[oid], place, one)
}

/// A truncation of captured tables that a server writes becomes one truncate event for each, in the
/// order in which they are named.
pub proof fn written_truncation_names_its_tables(
    settings: StreamSettings,
    state: StreamView,
    frame: PgOutputXLogData,
    options: u8,
    oids: Seq<u32>,
    rest: Seq<u8>,
    now: u64,
)
    requires
        oids.len() < 0x1_0000_0000,
        frame.data@ == wire_laws::message_bytes(MessageView::Truncate { options, oids }) + rest,
        forall|i: int| 0 <= i < oids.len() ==> ready(settings, state, #[trigger] oids[i]),
    ensures
        stream::frame_step(settings, state, frame, now) matches Some((next, events))
            && events.len() == 0 && next == (StreamView { partial: next.partial, ..state })
            && next.partial.len() == state.partial.len() + oids.len() && next.partial.take(
            state.partial.len() as int,
        ) == state.partial && forall|i: int|
            0 <= i < oids.len() ==> empties(
                settings,
                state,
                #[trigger] oids[i],
                frame.lsn,
                next.partial[state.partial.len() + i],
            ),
{
    wire_laws::message_reads_back(MessageView::Truncate { options, oids }, rest);
    lsn::lsn_reads_back(frame.lsn);
    lemma_truncations(settings, state, oids, frame.lsn);
    let next = (stream::frame_step(settings, state, frame, now)->0).0;
    assert(next.partial.take(state.partial.len() as int) =~= state.partial);
}

proof fn lemma_truncations(
    settings: StreamSettings,
    state: StreamView,
    oids: Seq<u32>,
    frame: u64,
)
    requires
        forall|i: int| 0 <= i < oids.len() ==> ready(settings, state, #[trigger] oids[i]),
        lsn::lsn_in(lsn::lsn_text(frame)) == Some(frame),
    ensures
        ({
            let next = stream::truncated(settings, state, state, oids, frame);
            &&& next == (StreamView { partial: next.partial, ..state })
            &&& next.partial.len() == state.partial.len() + oids.len()
            &&& forall|i: int|
                0 <= i < state.partial.len() ==> next.partial[i] == #[trigger] state.partial[i]
            &&& forall|i: int|
                0 <= i < oids.len() ==> empties(
                    settings,
                    state,
                    #[trigger] oids[i],
                    frame,
                    next.partial[state.partial.len() + i],
                )
        }),
    decreases oids.len(),
{
    if oids.len() > 0 {
        let fewer = oids.drop_last();
        assert forall|i: int| 0 <= i < fewer.len() implies ready(
            settings,
            state,
            #[trigger] fewer[i],
        ) by {
            assert(fewer[i] == oids[i]);
        }
        lemma_truncations(settings, state, fewer, frame);
        let before = stream::truncated(settings, state, state, fewer, frame);
        let next = stream::truncated(settings, state, state, oids, frame);
        assert(ready(settings, state, oids[oids.len() - 1]));
        assert(next.partial.len() == before.partial.len() + 1);
        assert forall|i: int| 0 <= i < state.partial.len() implies next.partial[i]
            == #[trigger] state.partial[i] by {
            assert(next.partial[i] == before.partial[i]);
        }
        assert forall|i: int| 0 <= i < oids.len() implies empties(
            settings,
            state,
            #[trigger] oids[i],
            frame,
            next.partial[state.partial.len() + i],
        ) by {
            if i < fewer.len() {
                assert(fewer[i] == oids[i]);
                assert(next.partial[state.partial.len() + i] == before.partial[state.partial.len()
                    + i]);
            }
        }
    }
}

/// A transaction starts with its number and its time, in milliseconds since 1970, and with nothing
/// in it.
pub proof fn written_begin_starts_a_transaction(
    settings: StreamSettings,
    state: StreamView,
    frame: PgOutputXLogData,
    begin: PgBegin,
    rest: Seq<u8>,
    now: u64,
)
    requires
        frame.data@ == wire_laws::message_bytes(MessageView::Begin(begin)) + rest,
    ensures
        stream::frame_step(settings, state, frame, now) matches Some((next, events))
            && events.len() == 0 && next.xid == Some(begin.xid) && next.partial.len() == 0
            && next == (StreamView {
            xid: next.xid,
            commit_ts: next.commit_ts,
            partial: next.partial,
            ..state
        }) && (begin.commit_timestamp_us >= 0 ==> next.commit_ts == begin.commit_timestamp_us as int
            / 1000 + 946_684_800_000),
{
    wire_laws::message_reads_back(MessageView::Begin(begin), rest);
}

/// A commit delivers the events of its transaction, in order and unchanged but for the
/// transaction's size, and moves the stream to the place that it names.
pub proof fn written_commit_delivers_the_transaction(
    settings: StreamSettings,
    state: StreamView,
    frame: PgOutputXLogData,
    commit: PgCommit,
    rest: Seq<u8>,
    now: u64,
)
    requires
        frame.data@ == wire_laws::message_bytes(MessageView::Commit(commit)) + rest,
    ensures
        stream::frame_step(settings, state, frame, now) matches Some((next, events))
            && events.len() == state.partial.len() && next.partial.len() == 0 && next.xid is None
            && next.commit_ts == 0 && next.position == commit.end_lsn && next.relations
            == state.relations && next.schema_ids == state.schema_ids && forall|i: int|
            0 <= i < events.len() ==> {
                let held = state.partial[i];
                &&& (#[trigger] events[i]) == (EventView {
                    transaction: events[i].transaction,
                    ..held
                })
                &&& events[i].transaction == (match held.transaction {
                    Some(tag) => Some(
                        TransactionMetadata {
                            tx_id: tag.tx_id,
                            event_index: tag.event_index,
                            total_events: Some(state.partial.len() as u32),
                        },
                    ),
                    None => None,
                })
            },
{
    wire_laws::message_reads_back(MessageView::Commit(commit), rest);
}

/// An application's message becomes one message event, under a table named after its prefix: at
/// once where it is outside any transaction's fate, and with its transaction where it is not.
pub proof fn written_message_becomes_an_event(
    settings: StreamSettings,
    state: StreamView,
    frame: PgOutputXLogData,
    transactional: bool,
    place: u64,
    prefix: Seq<char>,
    content: Seq<u8>,
    rest: Seq<u8>,
    now: u64,
)
    requires
        wire_laws::writable(
            MessageView::LogicalMessage { transactional, lsn: place, prefix, content },
        ),
        frame.data@ == wire_laws::message_bytes(
            MessageView::LogicalMessage { transactional, lsn: place, prefix, content },
        ) + rest,
        filter::allowed(
            None,
            prefix + "__messages"@,
            settings.include_list,
            settings.exclude_list,
        ),
    ensures
        stream::frame_step(settings, state, frame, now) matches Some((next, events)) && ({
            let waits = transactional && state.xid is Some;
            let one = if waits {
                next.partial.last()
            } else {
                events[0]
            };
            &&& if waits {
                events.len() == 0 && one_more(state, next)
            } else {
                events.len() == 1 && next.partial == state.partial && next.position
                    == state.position && next.xid == state.xid
            }
            &&& one.op == Operation::Message
            &&& one.before is Unavailable
            &&& one.schema is None
            &&& one.table == prefix + "__messages"@
            &&& one.primary_key is None
            &&& one.source.source_name == settings.source_name
            &&& lsn::lsn_in(one.source.offset) == Some(frame.lsn)
            &&& one.ts == (if state.commit_ts == 0 {
                now
            } else {
                state.commit_ts
            })
            &&& one.after matches Some(told) && {
                &&& told.members()["prefix"@] == Json::Text(prefix)
                &&& told.members()["transactional"@] == Json::Bool(transactional)
                &&& told.members()["lsn"@] matches Json::Text(spelled) && lsn::lsn_in(spelled)
                    == Some(place)
                &&& vstd::utf8::valid_utf8(content) ==> {
                    &&& told.members()["content_encoding"@] == Json::Text("utf8"@)
                    &&& told.members()["content"@] matches Json::Text(spelled)
                        && vstd::utf8::encode_utf8(spelled) == content
                }
                &&& !vstd::utf8::valid_utf8(content) ==> {
                    &&& told.members()["content_encoding"@] == Json::Text("base64"@)
                    &&& told.members()["content"@] == Json::Text(base64_text::base64_text(content))
                }
            }
        }),
{
    wire_laws::message_reads_back(
        MessageView::LogicalMessage { transactional, lsn: place, prefix, content },
        rest,
    );
    lsn::lsn_reads_back(frame.lsn);
    lsn::lsn_reads_back(place);
    reveal_strlit("prefix");
    reveal_strlit("content");
    reveal_strlit("content_encoding");
    reveal_strlit("transactional");
    reveal_strlit("lsn");
    assert("prefix"@ != "content"@) by {
        assert("prefix"@[0] != "content"@[0]);
    }
    assert("prefix"@ != "content_encoding"@) by {
        assert("prefix"@[0] != "content_encoding"@[0]);
    }
    assert("content"@.len() != "content_encoding"@.len());
    assert("transactional"@[0] == 't' && "lsn"@[0] == 'l' && "prefix"@[0] == 'p');
    assert("content"@[0] == 'c' && "content_encoding"@[0] == 'c');
    if vstd::utf8::valid_utf8(content) {
        vstd::utf8::decode_utf8_encode_utf8(content);
    }
    let next = (stream::frame_step(settings, state, frame, now)->0).0;
    if transactional && state.xid is Some {
        assert(next.partial.drop_last() =~= state.partial);
    }
}

/// A table's shape is told when it is first described and when it is described otherwise than
/// before, and at no other time; it is known from then on.
pub proof fn written_relation_tells_a_new_shape(
    settings: StreamSettings,
    state: StreamView,
    frame: PgOutputXLogData,
    told: RelationView,
    rest: Seq<u8>,
    now: u64,
)
    requires
        wire_laws::writable(MessageView::Relation(told)),
        frame.data@ == wire_laws::message_bytes(MessageView::Relation(told)) + rest,
        wanted(settings, told),
    ensures
        stream::frame_step(settings, state, frame, now) matches Some((next, events)) && ({
            let news = !state.relations.contains_key(told.oid) || state.relations[told.oid] != told;
            let waits = state.xid is Some;
            &&& next.relations == state.relations.insert(told.oid, told)
            &&& next.position == state.position
            &&& next.xid == state.xid
            &&& events.len() == (if news && !waits {
                1nat
            } else {
                0nat
            })
            &&& next.partial.len() == state.partial.len() + (if news && waits {
                1nat
            } else {
                0nat
            })
            &&& forall|i: int|
                0 <= i < state.partial.len() ==> next.partial[i] == #[trigger] state.partial[i]
            &&& news ==> {
                let one = if waits {
                    next.partial.last()
                } else {
                    events[0]
                };
                &&& one.op == Operation::SchemaChange
                &&& one.schema == Some(told.namespace)
                &&& one.table == told.name + "__ddl_events"@
                &&& one.source.source_name == settings.source_name
                &&& one.schema_id == Some(next.schema_ids[told.oid])
                &&& lsn::lsn_in(one.source.offset) == Some(
                    if frame.lsn == 0 {
                        state.position
                    } else {
                        frame.lsn
                    },
                )
                &&& one.transaction matches Some(tag) ==> tag.event_index
                    == state.partial.len() as u32
            }
        }),
{
    wire_laws::message_reads_back(MessageView::Relation(told), rest);
    lsn::lsn_reads_back(frame.lsn);
    lsn::lsn_reads_back(state.position);
}

/// A message of a later version of the protocol stops the stream; one of an unknown kind is passed
/// over.
pub proof fn unknown_messages_are_passed_over(
    settings: StreamSettings,
    state: StreamView,
    frame: PgOutputXLogData,
    tag: u8,
    rest: Seq<u8>,
    now: u64,
)
    requires
        wire_laws::writable(MessageView::Unknown(tag)),
        frame.data@ == seq![tag] + rest,
    ensures
        match stream::frame_step(settings, state, frame, now) {
            None => tag == 0x53 || tag == 0x45 || tag == 0x63 || tag == 0x41 || tag == 0x70 || tag
                == 0x62 || tag == 0x50 || tag == 0x4b || tag == 0x72,
            Some((next, events)) => events.len() == 0 && next == (StreamView {
                unknown: next.unknown,
                ..state
            }) && tag != 0x53 && tag != 0x45 && tag != 0x63 && tag != 0x41 && tag != 0x70 && tag
                != 0x62 && tag != 0x50 && tag != 0x4b && tag != 0x72,
        },
{
    wire_laws::message_reads_back(MessageView::Unknown(tag), rest);
}

/// A batch of one frame does what the frame does: its events are delivered, all of them and nothing
/// else, and its state is the next.
pub proof fn one_frame_is_one_step(
    settings: StreamSettings,
    state: StreamView,
    frame: PgOutputXLogData,
    now: u64,
)
    ensures
        match stream::frame_step(settings, state, frame, now) {
            Some((next, events)) => stream::run(settings, state, seq![frame], now) == (
                next,
                events,
                true,
            ),
            None => stream::run(settings, state, seq![frame], now) == (
                state,
                Seq::<EventView>::empty(),
                false,
            ),
        },
{
    let frames = seq![frame];
    assert(frames.drop_last() =~= Seq::<PgOutputXLogData>::empty());
    assert(frames.last() == frame);
    let nothing = stream::run(settings, state, frames.drop_last(), now);
    assert(nothing == (state, Seq::<EventView>::empty(), true));
    if let Some((next, events)) = stream::frame_step(settings, state, frame, now) {
        assert(Seq::<EventView>::empty() + events =~= events);
    }
}

} // verus!
