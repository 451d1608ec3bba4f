//! Reading the binlog: what is asked of the server, how long a batch goes on, and what becomes of
//! each event.
use vstd::prelude::*;
use crate::error::Error;
use crate::event;
use crate::json;
use crate::json::Json;
use crate::mysql::binlog;
use crate::mysql::binlog::{BinlogDecoder, BinlogEvent, DecoderView};
use crate::mysql::gtid;
use crate::mysql::gtid::SidBlock;
use crate::mysql::stream;
use crate::mysql::stream::{ChangeView, MessageView, MysqlBinlogMessage, MysqlRowChange};
use crate::text;

verus! {

// The request

/// The transactions that a dump request says are already here: none are named where the server
/// positions by file, and a set that cannot be read is a broken checkpoint.
pub fn resume_blocks(gtid_mode_enabled: bool, resume_gtid_set: &str) -> (blocks: Result<
    Option<Vec<SidBlock>>,
    Error,
>)
    ensures
        match blocks {
            Ok(None) => !gtid_mode_enabled,
            Ok(Some(blocks)) => gtid_mode_enabled && gtid::set_reads_as(
                resume_gtid_set@,
                Some(gtid::block_views(blocks@)),
            ),
            Err(error) => gtid_mode_enabled && error is CheckpointError && gtid::set_reads_as(
                resume_gtid_set@,
                None,
            ) && error.text()
                == "cannot resume mysql stream: checkpointed GTID set is malformed: "@
                + gtid::bad_set_text(resume_gtid_set@)
                + ". Expected a set such as '3E11FA47-71CA-11E1-9E33-C80AA9429562:1-5,8-10'."@,
        },
{
    if !gtid_mode_enabled {
        return Ok(None);
    }
    match gtid::parse_gtid_set(resume_gtid_set) {
        Ok(blocks) => Ok(Some(blocks)),
        Err(reason) => Err(
            Error::CheckpointError(
                text::join3(
                    "cannot resume mysql stream: checkpointed GTID set is malformed: ",
                    reason.as_str(),
                    ". Expected a set such as '3E11FA47-71CA-11E1-9E33-C80AA9429562:1-5,8-10'.",
                ),
            ),
        ),
    }
}

// Rows

/// A row of a rows event, as the driver hands it over.
#[derive(Debug)]
pub struct RowImage {
    /// The names of the columns, in order.
    pub columns: Vec<String>,
    /// Whether each column is part of the primary key.
    pub key_flags: Vec<bool>,
    pub values: Vec<serde_json::Value>,
}

impl RowImage {
    /// Every column has a flag and a value.
    pub open spec fn wf(self) -> bool {
        &&& self.key_flags@.len() == self.columns@.len()
        &&& self.values@.len() == self.columns@.len()
    }

    /// The row as a payload.
    pub open spec fn payload(self) -> Json {
        Json::Object(
            members(
                text::texts(self.columns@),
                json::jsons(self.values@),
                self.columns@.len() as int,
            ),
        )
    }

    /// The names of the key columns, in order.
    pub open spec fn key(self) -> Seq<Seq<char>> {
        flagged(text::texts(self.columns@), self.key_flags@)
    }
}

/// The first `count` values under their columns' names.
pub open spec fn members(names: Seq<Seq<char>>, values: Seq<Json>, count: int) -> Map<
    Seq<char>,
    Json,
>
    decreases count,
{
    if count <= 0 {
        Map::empty()
    } else {
        members(names, values, count - 1).insert(names[count - 1], values[count - 1])
    }
}

/// The names that are flagged, in order.
pub open spec fn flagged(names: Seq<Seq<char>>, flags: Seq<bool>) -> Seq<Seq<char>>
    decreases names.len(),
{
    if names.len() == 0 {
        Seq::empty()
    } else {
        let before = flagged(names.drop_last(), flags);
        if flags[names.len() - 1] {
            before.push(names.last())
        } else {
            before
        }
    }
}

fn payload_of(row: &RowImage) -> (value: serde_json::Value)
    requires
        row.wf(),
    ensures
        json::json(value) == row.payload(),
{
    let ghost names = text::texts(row.columns@);
    let ghost values = json::jsons(row.values@);
    let size = row.columns.len();
    let mut value = json::object();
    let mut i: usize = 0;
    while i < size
        invariant
            i <= size,
            size == row.columns@.len(),
            row.wf(),
            names == text::texts(row.columns@),
            values == json::jsons(row.values@),
            json::json(value) == Json::Object(members(names, values, i as int)),
        decreases size - i,
    {
        proof {
            assert(names[i as int] == row.columns@[i as int]@);
            assert(values[i as int] == json::json(row.values@[i as int]));
        }
        json::set_member(&mut value, row.columns[i].clone(), row.values[i].clone());
        i = i + 1;
    }
    value
}

/// The names of a row's key columns; see [`RowImage::key`].
fn key_of(row: &RowImage) -> (key: Vec<String>)
    requires
        row.wf(),
    ensures
        text::texts(key@) == row.key(),
{
    let ghost names = text::texts(row.columns@);
    let size = row.columns.len();
    let mut key: Vec<String> = Vec::new();
    let mut i: usize = 0;
    proof {
        assert(names.take(0) =~= Seq::empty());
        assert(text::texts(key@) =~= Seq::empty());
    }
    while i < size
        invariant
            i <= size,
            size == row.columns@.len(),
            row.wf(),
            names == text::texts(row.columns@),
            text::texts(key@) == flagged(names.take(i as int), row.key_flags@),
        decreases size - i,
    {
        proof {
            assert(names.take(i + 1).drop_last() =~= names.take(i as int));
            assert(names.take(i + 1).last() == row.columns@[i as int]@);
        }
        if row.key_flags[i] {
            let ghost before = text::texts(key@);
            let name = row.columns[i].clone();
            let ghost seen = name@;
            key.push(name);
            proof {
                assert(text::texts(key@) =~= before.push(seen));
            }
        }
        i = i + 1;
    }
    proof {
        assert(names.take(i as int) =~= names);
    }
    key
}

/// The names of a row's key columns; none where there is no row, or none of its columns is a key
/// column.
pub open spec fn image_key(row: Option<RowImage>) -> Option<Seq<Seq<char>>> {
    match row {
        Some(image) => if image.key().len() > 0 {
            Some(image.key())
        } else {
            None
        },
        None => None,
    }
}

/// The key of a change: that of the row before it, or else of the row after it.
pub open spec fn change_key(before: Option<RowImage>, after: Option<RowImage>) -> Option<
    Seq<Seq<char>>,
> {
    match image_key(before) {
        Some(key) => Some(key),
        None => image_key(after),
    }
}

/// The payload of a row where there is one.
pub open spec fn payload_option(row: Option<RowImage>) -> Option<Json> {
    match row {
        Some(row) => Some(row.payload()),
        None => None,
    }
}

fn row_key(row: &Option<RowImage>) -> (key: Option<Vec<String>>)
    requires
        row matches Some(image) ==> image.wf(),
    ensures
        event::key_names(key) == image_key(*row),
{
    match row {
        Some(image) => {
            let key = key_of(image);
            if key.len() > 0 {
                Some(key)
            } else {
                None
            }
        },
        None => None,
    }
}

/// The change that a row of a rows event makes.
pub fn decode_row_change(
    schema: String,
    table: String,
    before: Option<RowImage>,
    after: Option<RowImage>,
) -> (change: MysqlRowChange)
    requires
        before matches Some(image) ==> image.wf(),
        after matches Some(image) ==> image.wf(),
    ensures
        change@ == (ChangeView {
            schema: Some(schema@),
            table: table@,
            primary_key: change_key(before, after),
            before: payload_option(before),
            after: payload_option(after),
        }),
{
    let primary_key = match row_key(&before) {
        Some(key) => Some(key),
        None => row_key(&after),
    };
    MysqlRowChange {
        schema: Some(schema),
        table,
        primary_key,
        before: match &before {
            Some(row) => Some(payload_of(row)),
            None => None,
        },
        after: match &after {
            Some(row) => Some(payload_of(row)),
            None => None,
        },
    }
}

// Batches

/// The body of an event that arrived.
pub enum EventBody {
    /// A type that the driver does not know.
    Unclassified { raw_event_type: u8, server_id: u32, data: Vec<u8> },
    Classified(BinlogEvent),
    /// The driver could not decode it, for this reason.
    Undecodable(String),
}

/// What a read is told.
pub enum ReadEvent {
    /// The start.
    Start,
    /// Nothing came in time.
    TimedOut,
    /// The server ended the stream.
    Closed,
    /// The stream failed, for this reason.
    Failed(String),
    /// An event came, with its header's end position and time.
    Arrived { log_pos: u32, timestamp_secs: u32, body: EventBody },
}

/// What a read asks for.
pub enum ReadAction {
    /// Wait this long for the next event.
    Read { wait: std::time::Duration },
    /// Return these messages.
    Return(Vec<MysqlBinlogMessage>),
}

/// A batch being read.
pub struct BinlogBatch {
    pub max_events: usize,
    pub messages: Vec<MysqlBinlogMessage>,
}

impl BinlogBatch {
    /// An empty batch.
    pub fn new(max_events: usize) -> (batch: Self)
        ensures
            batch.max_events == max_events,
            batch.messages@.len() == 0,
    {
        BinlogBatch { max_events, messages: Vec::new() }
    }
}

/// Whether a batch of some size waits for another event: not once it is full, and not once it
/// holds something and the caller's budget is spent.
pub open spec fn reads_on(size: nat, max_events: usize, remaining: nat) -> bool {
    size < max_events && (size == 0 || remaining > 0)
}

/// How long a batch of some size waits, in nanoseconds: a full interval while it is empty, and
/// never past the budget once it is not.
pub open spec fn read_wait(size: nat, remaining: nat, poll_interval_ms: u64) -> nat {
    let interval = (poll_interval_ms * 1_000_000) as nat;
    if size == 0 || interval < remaining {
        interval
    } else {
        remaining
    }
}

/// Whether an event that arrived leads a decoder from a state to another with this outcome.
pub open spec fn arrived(
    before: DecoderView,
    log_pos: u32,
    timestamp_secs: u32,
    body: EventBody,
    after: DecoderView,
    messages: Result<Vec<MysqlBinlogMessage>, Error>,
) -> bool {
    let placed = DecoderView {
        position: binlog::position_after(before.position, log_pos),
        ..before
    };
    match body {
        EventBody::Unclassified { raw_event_type, server_id, data } => binlog::unclassified(
            placed,
            raw_event_type,
            server_id,
            data@,
            after,
            messages,
        ),
        EventBody::Classified(data) => binlog::classified(
            placed,
            data,
            (timestamp_secs * 1_000) as u64,
            after,
            messages,
        ),
        EventBody::Undecodable(reason) => {
            &&& messages matches Err(error) && error is SourceError && error.text()
                == "failed decoding mysql binlog event payload: "@ + reason@
            &&& after == placed
        },
    }
}

/// Whether an action is the next one of a batch that has gathered these messages, and what is
/// left in the batch.
pub open spec fn goes_on(
    gathered: Seq<MessageView>,
    max_events: usize,
    remaining: nat,
    poll_interval_ms: u64,
    action: ReadAction,
    left: BinlogBatch,
) -> bool {
    &&& left.max_events == max_events
    &&& if reads_on(gathered.len(), max_events, remaining) {
        &&& action matches ReadAction::Read { wait } && binlog::nanos(wait) == read_wait(
            gathered.len(),
            remaining,
            poll_interval_ms,
        )
        &&& stream::message_views(left.messages@) == gathered
    } else {
        &&& action matches ReadAction::Return(messages) && stream::message_views(messages@)
            == gathered
        &&& left.messages@.len() == 0
    }
}

impl BinlogDecoder {
    /// Takes in an event that arrived; see [`arrived`].
    pub fn take_event(&mut self, log_pos: u32, timestamp_secs: u32, body: EventBody) -> (messages:
        Result<Vec<MysqlBinlogMessage>, Error>)
        ensures
            arrived(
                old(self).progress(),
                log_pos,
                timestamp_secs,
                body,
                final(self).progress(),
                messages,
            ),
            final(self).poll_interval_ms == old(self).poll_interval_ms,
    {
        let timestamp_ms = self.take_header(log_pos, timestamp_secs);
        match body {
            EventBody::Unclassified { raw_event_type, server_id, data } => {
                self.decode_mariadb_event(raw_event_type, server_id, data.as_slice())
            },
            EventBody::Classified(data) => self.decode_event_data(data, timestamp_ms),
            EventBody::Undecodable(reason) => Err(
                Error::SourceError(
                    text::join2(
                        "failed decoding mysql binlog event payload: ",
                        reason.as_str(),
                    ),
                ),
            ),
        }
    }

    fn go_on(&self, batch: &mut BinlogBatch, remaining: std::time::Duration) -> (action: ReadAction)
        ensures
            goes_on(
                stream::message_views(old(batch).messages@),
                old(batch).max_events,
                binlog::nanos(remaining),
                self.poll_interval_ms,
                action,
                *final(batch),
            ),
    {
        if batch.messages.len() < batch.max_events {
            match binlog::binlog_read_timeout(
                batch.messages.len(),
                remaining,
                self.poll_interval_ms,
            ) {
                Some(wait) => {
                    return ReadAction::Read { wait };
                },
                None => {},
            }
        }
        let mut messages: Vec<MysqlBinlogMessage> = Vec::new();
        std::mem::swap(&mut messages, &mut batch.messages);
        ReadAction::Return(messages)
    }

    /// Goes on with a batch: takes in what it is told, and says what to do next. `remaining` is
    /// what is left of the caller's budget.
    ///
    /// The end of the stream, its failure, and an event that cannot be gone on from fail the
    /// batch. Fewer messages than asked for are always enough: the rest comes with the next batch.
    pub fn poll_events(
        &mut self,
        batch: &mut BinlogBatch,
        told: ReadEvent,
        remaining: std::time::Duration,
    ) -> (action: Result<ReadAction, Error>)
        ensures
            final(self).poll_interval_ms == old(self).poll_interval_ms,
            match told {
                ReadEvent::Start => *final(self) == *old(self) && (action matches Ok(action)
                    && goes_on(
                    stream::message_views(old(batch).messages@),
                    old(batch).max_events,
                    binlog::nanos(remaining),
                    old(self).poll_interval_ms,
                    action,
                    *final(batch),
                )),
                ReadEvent::TimedOut => *final(self) == *old(self) && (action matches Ok(
                    ReadAction::Return(messages),
                ) && messages == old(batch).messages && final(batch).messages@.len() == 0
                    && final(batch).max_events == old(batch).max_events),
                ReadEvent::Closed => *final(self) == *old(self) && *final(batch) == *old(batch) && (
                action matches Err(error) && error is SourceError && error.text()
                    == "mysql replication stream closed unexpectedly"@),
                ReadEvent::Failed(reason) => *final(self) == *old(self) && *final(batch) == *old(
                    batch,
                ) && (action matches Err(error) && error is SourceError && error.text()
                    == "mysql replication stream yielded error: "@ + reason@),
                ReadEvent::Arrived { log_pos, timestamp_secs, body } => exists|
                    messages: Result<Vec<MysqlBinlogMessage>, Error>,
                | #[trigger]
                    arrived(
                        old(self).progress(),
                        log_pos,
                        timestamp_secs,
                        body,
                        final(self).progress(),
                        messages,
                    ) && match messages {
                        Ok(messages) => action matches Ok(action) && goes_on(
                            stream::message_views(old(batch).messages@) + stream::message_views(
                                messages@,
                            ),
                            old(batch).max_events,
                            binlog::nanos(remaining),
                            old(self).poll_interval_ms,
                            action,
                            *final(batch),
                        ),
                        Err(error) => action == Err::<ReadAction, Error>(error) && *final(batch)
                            == *old(batch),
                    },
            },
    {
        match told {
            ReadEvent::Start => Ok(self.go_on(batch, remaining)),
            ReadEvent::TimedOut => {
                let mut messages: Vec<MysqlBinlogMessage> = Vec::new();
                std::mem::swap(&mut messages, &mut batch.messages);
                Ok(ReadAction::Return(messages))
            },
            ReadEvent::Closed => Err(
                Error::SourceError("mysql replication stream closed unexpectedly".to_owned()),
            ),
            ReadEvent::Failed(reason) => Err(
                Error::SourceError(
                    text::join2("mysql replication stream yielded error: ", reason.as_str()),
                ),
            ),
            ReadEvent::Arrived { log_pos, timestamp_secs, body } => {
                let outcome = self.take_event(log_pos, timestamp_secs, body);
                let ghost came = outcome;
                match outcome {
                    Err(error) => Err(error),
                    Ok(mut messages) => {
                        let ghost gathered = stream::message_views(batch.messages@)
                            + stream::message_views(messages@);
                        batch.messages.append(&mut messages);
                        proof {
                            assert(stream::message_views(batch.messages@) =~= gathered);
                        }
                        let action = self.go_on(batch, remaining);
                        proof {
                            assert(arrived(
                                old(self).progress(),
                                log_pos,
                                timestamp_secs,
                                body,
                                self.progress(),
                                came,
                            ));
                        }
                        Ok(action)
                    },
                }
            },
        }
    }
}

/// The first event of a batch does not wait for the batch to fill: once the caller's budget is
/// spent, a batch that holds anything is returned.
pub proof fn spent_budget_returns_the_batch(size: nat, max_events: usize, poll_interval_ms: u64)
    ensures
        size > 0 ==> !reads_on(size, max_events, 0),
        forall|remaining: nat|
            size > 0 && reads_on(size, max_events, remaining) ==> #[trigger] read_wait(
                size,
                remaining,
                poll_interval_ms,
            ) <= remaining,
{
}

} // verus!
