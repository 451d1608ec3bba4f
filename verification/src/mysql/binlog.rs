//! The binlog reader's own decisions: positions, transaction boundaries and statements.
use vstd::prelude::*;
use crate::ddl;
use crate::error::Error;
use crate::mysql::gtid;
use crate::mysql::parser;
use crate::mysql::stream::{MessageView, MysqlBinlogMessage, MysqlRowChange};
use crate::mysql::stream;
use crate::event::Operation;
use crate::schema;
use crate::schema::DdlView;
use crate::text;

verus! {

/// The position to resume from after an event. An event without a position of its own, such as
/// one unpacked from a compressed transaction, leaves the last real position in place.
pub open spec fn position_after(current: u32, event_log_pos: u32) -> u32 {
    if event_log_pos > 0 {
        event_log_pos
    } else {
        current
    }
}

/// The position to resume from after an event; see [`position_after`].
pub fn advance_binlog_pos(current: u32, event_log_pos: u32) -> (position: u32)
    ensures
        position == position_after(current, event_log_pos),
{
    if event_log_pos > 0 {
        event_log_pos
    } else {
        current
    }
}

/// A position that has once been real never becomes zero again.
pub proof fn position_never_returns_to_zero(current: u32, event_log_pos: u32)
    requires
        current > 0,
    ensures
        position_after(current, event_log_pos) > 0,
{
}

// Read timeouts

/// The length of a duration in nanoseconds.
pub uninterp spec fn nanos(duration: std::time::Duration) -> nat;

/// `Duration::from_millis` lasts that many milliseconds.
#[verifier::external_body]
fn millis(count: u64) -> (duration: std::time::Duration)
    ensures
        nanos(duration) == count * 1_000_000,
{
    std::time::Duration::from_millis(count)
}

/// `Duration::is_zero` tells whether the duration lasts no time.
#[verifier::external_body]
fn is_zero(duration: &std::time::Duration) -> (zero: bool)
    ensures
        zero == (nanos(*duration) == 0),
{
    duration.is_zero()
}

/// `Ord::min` on durations gives the shorter.
#[verifier::external_body]
fn shorter(a: std::time::Duration, b: std::time::Duration) -> (least: std::time::Duration)
    ensures
        nanos(least) == (if nanos(a) <= nanos(b) {
            nanos(a)
        } else {
            nanos(b)
        }),
{
    a.min(b)
}

/// How long the reader may wait for its next event, or `None` to stop.
///
/// An empty batch waits a full poll interval, so that an idle stream is no busy loop. A batch
/// with data stops once the caller's budget is spent, and never waits past it.
pub fn binlog_read_timeout(
    collected: usize,
    remaining: std::time::Duration,
    poll_interval_ms: u64,
) -> (wait: Option<std::time::Duration>)
    ensures
        match wait {
            None => collected > 0 && nanos(remaining) == 0,
            Some(wait) => {
                &&& collected == 0 || nanos(remaining) > 0
                &&& nanos(wait) == (if collected == 0 || poll_interval_ms * 1_000_000 < nanos(
                    remaining,
                ) {
                    (poll_interval_ms * 1_000_000) as nat
                } else {
                    nanos(remaining)
                })
            },
        },
{
    let poll_interval = millis(poll_interval_ms);
    if collected == 0 {
        return Some(poll_interval);
    }
    if is_zero(&remaining) {
        return None;
    }
    Some(shorter(remaining, poll_interval))
}

// Decoding

/// What a rows event does.
#[derive(Clone, Copy, Debug, PartialEq, Eq, Structural)]
pub enum RowsKind {
    Write,
    Update,
    Delete,
}

/// A binlog event as the driver hands it over.
#[derive(Debug)]
pub enum BinlogEvent {
    Query { statement: String },
    /// A rows event; an error where its table map is missing or a row cannot be decoded.
    Rows { kind: RowsKind, changes: Result<Vec<MysqlRowChange>, Error> },
    Xid { xid: u64 },
    Rotate { name: String, position: u64 },
    Gtid { sid: [u8; 16], gno: u64 },
    Heartbeat,
    /// Anything that the connector has no use for.
    Other,
}

/// The reader's own state.
pub struct BinlogDecoder {
    pub binlog_file: String,
    pub next_pos: u32,
    /// The GTID of the transaction that is being read.
    pub active_gtid: Option<String>,
    /// The transaction that is open.
    pub active_tx_id: Option<u64>,
    /// The number for the next transaction that brings none.
    pub next_tx_id: u64,
    pub poll_interval_ms: u64,
    /// Event types already warned about, each once.
    pub warned_event_types: Vec<u8>,
}

/// What a [`BinlogDecoder`] holds.
pub struct DecoderView {
    pub file: Seq<char>,
    pub position: u32,
    pub gtid: Option<Seq<char>>,
    pub tx: Option<u64>,
    pub next_tx: u64,
}

impl BinlogDecoder {
    /// What the decoder holds.
    pub open spec fn progress(self) -> DecoderView {
        DecoderView {
            file: self.binlog_file@,
            position: self.next_pos,
            gtid: text::text_option(self.active_gtid),
            tx: self.active_tx_id,
            next_tx: self.next_tx_id,
        }
    }
}

/// A number after another, at most the largest.
pub open spec fn number_after(n: u64) -> u64 {
    if n == u64::MAX {
        n
    } else {
        (n + 1) as u64
    }
}

/// The state with a transaction open.
pub open spec fn opened(state: DecoderView) -> DecoderView {
    match state.tx {
        Some(_) => state,
        None => DecoderView {
            tx: Some(state.next_tx),
            next_tx: number_after(state.next_tx),
            ..state
        },
    }
}

/// The message of a commit at the current place.
pub open spec fn commit_message(state: DecoderView, tx_id: u64, timestamp_ms: u64) -> MessageView {
    MessageView::Xid {
        tx_id,
        timestamp_ms,
        binlog_file: state.file,
        binlog_pos: state.position,
        gtid: state.gtid,
    }
}

/// The operation of a rows event.
pub open spec fn operation_of(kind: RowsKind) -> Operation {
    match kind {
        RowsKind::Write => Operation::Insert,
        RowsKind::Update => Operation::Update,
        RowsKind::Delete => Operation::Delete,
    }
}

/// The messages of rows.
pub open spec fn row_messages(kind: RowsKind, changes: Seq<MysqlRowChange>) -> Seq<MessageView> {
    changes.map_values(
        |change: MysqlRowChange| MessageView::Rows { op: operation_of(kind), change: change@ },
    )
}

/// The state and the messages after a statement.
pub open spec fn after_query(state: DecoderView, statement: Seq<char>, timestamp_ms: u64) -> (
    DecoderView,
    Seq<MessageView>,
) {
    if text::folded(text::trimmed(statement)) == text::folded("BEGIN"@) {
        let next = opened(state);
        (next, seq![MessageView::Begin { tx_id: next.tx->0, timestamp_ms }])
    } else {
        match ddl::ddl_target(statement) {
            Some((ddl_type, schema, table)) => (
                state,
                seq![
                    MessageView::Ddl {
                        captured: DdlView {
                            ddl_type,
                            schema,
                            table,
                            statement,
                            result_schema: None,
                            ts: timestamp_ms,
                        },
                        timestamp_ms,
                        binlog_file: state.file,
                        binlog_pos: state.position,
                    },
                ],
            ),
            None => match ddl::truncate_target(statement) {
                Some((schema, table)) => {
                    let truncate = MessageView::Truncate {
                        schema,
                        table,
                        timestamp_ms,
                        binlog_file: state.file,
                        binlog_pos: state.position,
                    };
                    match state.tx {
                        Some(tx_id) => (
                            DecoderView { tx: None, gtid: None, ..state },
                            seq![commit_message(state, tx_id, timestamp_ms), truncate],
                        ),
                        None => (state, seq![truncate]),
                    }
                },
                None => (state, Seq::empty()),
            },
        }
    }
}

/// The state and the transaction's number after a commit.
pub open spec fn after_xid(state: DecoderView, xid: u64) -> (DecoderView, u64) {
    match state.tx {
        Some(tx_id) => (DecoderView { tx: None, gtid: None, ..state }, tx_id),
        None => if xid == 0 {
            (
                DecoderView { gtid: None, next_tx: number_after(state.next_tx), ..state },
                state.next_tx,
            )
        } else {
            (DecoderView { gtid: None, ..state }, xid)
        },
    }
}

/// What is told of a GTID event that is too short, after its length.
pub const SHORT_GTID_REMEDY: &'static str = " bytes, which is shorter than the 13-byte minimum (8-byte sequence number, 4-byte domain id, 1-byte flags). Refusing to continue: without the GTID the checkpoint falls back to a binlog file and position, which is server-local and resumes at an unrelated point after a failover.";

/// What is told of an encrypted log.
pub const ENCRYPTED_LOG: &'static str = "mariadb binlog encryption is enabled (START_ENCRYPTION_EVENT). Every subsequent event is ciphertext that this connector cannot decode, so continuing would silently drop all changes from this point on. Disable encrypt_binlog on the source, or capture from an unencrypted replica.";

/// Whether an event that the driver cannot classify leads from a state to another with this
/// outcome. A MariaDB GTID event (162) is the replication position; an encryption event (164) ends
/// the reading; the rest says nothing.
pub open spec fn unclassified(
    before: DecoderView,
    raw_event_type: u8,
    server_id: u32,
    data: Seq<u8>,
    after: DecoderView,
    messages: Result<Vec<MysqlBinlogMessage>, Error>,
) -> bool {
    if raw_event_type == 162 {
        match gtid::mariadb_gtid(server_id, data) {
            Some(gtid) => {
                &&& messages matches Ok(out) && stream::message_views(out@) == seq![
                    MessageView::Gtid { gtid },
                ]
                &&& after == (DecoderView { gtid: Some(gtid), ..before })
            },
            None => {
                &&& messages matches Err(error) && error is SourceError && error.text()
                    == "mariadb GTID event payload is "@ + text::decimal_text(data.len())
                    + SHORT_GTID_REMEDY@
                &&& after == before
            },
        }
    } else if raw_event_type == 164 {
        &&& messages matches Err(error) && error is Unrecoverable && error.text()
            == ENCRYPTED_LOG@
        &&& after == before
    } else {
        &&& messages matches Ok(out) && stream::message_views(out@) == Seq::<MessageView>::empty()
        &&& after == before
    }
}

/// Whether a classified event leads from a state to another with this outcome.
pub open spec fn classified(
    before: DecoderView,
    data: BinlogEvent,
    timestamp_ms: u64,
    after: DecoderView,
    messages: Result<Vec<MysqlBinlogMessage>, Error>,
) -> bool {
    match data {
        BinlogEvent::Query { statement } => {
            let next = after_query(before, statement@, timestamp_ms);
            &&& messages matches Ok(out) && stream::message_views(out@) == next.1
            &&& after == next.0
        },
        BinlogEvent::Rows { kind, changes } => {
            &&& after == opened(before)
            &&& match changes {
                Err(error) => messages == Err::<Vec<MysqlBinlogMessage>, Error>(error),
                Ok(changes) => messages matches Ok(out) && stream::message_views(out@) == (
                if before.tx is None {
                    seq![MessageView::Begin { tx_id: after.tx->0, timestamp_ms }]
                } else {
                    Seq::empty()
                }) + row_messages(kind, changes@),
            }
        },
        BinlogEvent::Xid { xid } => {
            let next = after_xid(before, xid);
            &&& messages matches Ok(out) && stream::message_views(out@) == seq![
                commit_message(before, next.1, timestamp_ms),
            ]
            &&& after == next.0
        },
        BinlogEvent::Rotate { name, position } => match parser::file_name(name@) {
            None => {
                &&& messages matches Err(error) && error is SourceError && error.text()
                    == parser::bad_file_text(name@)
                &&& after == before
            },
            Some(file) => if position > u32::MAX {
                &&& messages matches Err(error) && error is SourceError && error.text()
                    == "mysql rotate position exceeds u32: "@ + text::decimal_text(
                    position as nat,
                )
                &&& after == (DecoderView { file, ..before })
            } else {
                &&& messages matches Ok(out) && stream::message_views(out@) == seq![
                    MessageView::Rotate { binlog_file: file, binlog_pos: position as u32 },
                ]
                &&& after == (DecoderView { file, position: position as u32, ..before })
            },
        },
        BinlogEvent::Gtid { sid, gno } => {
            let one = gtid::uuid_text(sid@, 16) + ":"@ + text::decimal_text(gno as nat);
            &&& messages matches Ok(out) && stream::message_views(out@) == seq![
                MessageView::Gtid { gtid: one },
            ]
            &&& after == (DecoderView { gtid: Some(one), ..before })
        },
        BinlogEvent::Heartbeat => {
            &&& messages matches Ok(out) && stream::message_views(out@) == seq![
                MessageView::Heartbeat,
            ]
            &&& after == before
        },
        BinlogEvent::Other => {
            &&& messages matches Ok(out) && stream::message_views(out@)
                == Seq::<MessageView>::empty()
            &&& after == before
        },
    }
}

impl BinlogDecoder {
    /// A decoder at a place in the log.
    pub fn new(binlog_file: String, next_pos: u32, poll_interval_ms: u64) -> (decoder: Self)
        ensures
            decoder.progress() == (DecoderView {
                file: binlog_file@,
                position: next_pos,
                gtid: None,
                tx: None,
                next_tx: 1,
            }),
            decoder.poll_interval_ms == (if poll_interval_ms == 0 {
                1
            } else {
                poll_interval_ms
            }),
            decoder.warned_event_types@.len() == 0,
    {
        BinlogDecoder {
            binlog_file,
            next_pos,
            active_gtid: None,
            active_tx_id: None,
            next_tx_id: 1,
            poll_interval_ms: if poll_interval_ms == 0 {
                1
            } else {
                poll_interval_ms
            },
            warned_event_types: Vec::new(),
        }
    }

    /// Takes in an event's header; gives back the event's time in milliseconds, of which the log
    /// keeps whole seconds.
    pub fn take_header(&mut self, log_pos: u32, timestamp_secs: u32) -> (timestamp_ms: u64)
        ensures
            timestamp_ms == timestamp_secs * 1_000,
            final(self).progress() == (DecoderView {
                position: position_after(old(self).next_pos, log_pos),
                ..old(self).progress()
            }),
            final(self).poll_interval_ms == old(self).poll_interval_ms,
            final(self).warned_event_types == old(self).warned_event_types,
    {
        self.next_pos = advance_binlog_pos(self.next_pos, log_pos);
        timestamp_secs as u64 * 1_000
    }

    /// The open transaction's number, opening one where none is open; and whether it did.
    fn ensure_active_tx(&mut self) -> (opened_tx: (u64, bool))
        ensures
            final(self).progress() == opened(old(self).progress()),
            final(self).active_tx_id == Some(opened_tx.0),
            opened_tx.1 == (old(self).active_tx_id is None),
            final(self).poll_interval_ms == old(self).poll_interval_ms,
            final(self).warned_event_types == old(self).warned_event_types,
    {
        match self.active_tx_id {
            Some(tx_id) => (tx_id, false),
            None => {
                let tx_id = self.next_tx_id;
                self.next_tx_id = self.next_tx_id.saturating_add(1);
                self.active_tx_id = Some(tx_id);
                (tx_id, true)
            },
        }
    }

    /// Decodes a MariaDB event that the driver cannot classify.
    ///
    /// A GTID event is the replication position. An encryption event means that everything after
    /// it is ciphertext, which no restart can get past. The rest carries no change data; a type
    /// that is not known is noted, once, for a warning.
    pub fn decode_mariadb_event(&mut self, raw_event_type: u8, server_id: u32, data: &[u8]) -> (
        messages: Result<Vec<MysqlBinlogMessage>, Error>)
        ensures
            unclassified(
                old(self).progress(),
                raw_event_type,
                server_id,
                data@,
                final(self).progress(),
                messages,
            ),
            final(self).binlog_file == old(self).binlog_file,
            final(self).poll_interval_ms == old(self).poll_interval_ms,
            final(self).warned_event_types@ == (if 160 <= raw_event_type <= 164
                || old(self).warned_event_types@.contains(raw_event_type) {
                old(self).warned_event_types@
            } else {
                old(self).warned_event_types@.push(raw_event_type)
            }),
    {
        if raw_event_type == 162 {
            return match gtid::parse_mariadb_gtid_event(server_id, data) {
                Some(gtid) => {
                    self.active_gtid = Some(gtid.clone());
                    let mut messages: Vec<MysqlBinlogMessage> = Vec::new();
                    messages.push(MysqlBinlogMessage::Gtid { gtid });
                    proof {
                        assert(stream::message_views(messages@) =~= seq![
                            MessageView::Gtid { gtid: gtid@ },
                        ]);
                    }
                    Ok(messages)
                },
                None => Err(
                    Error::SourceError(
                        text::join3(
                            "mariadb GTID event payload is ",
                            text::decimal(data.len() as u64).as_str(),
                            SHORT_GTID_REMEDY,
                        ),
                    ),
                ),
            };
        }
        if raw_event_type == 164 {
            return Err(Error::Unrecoverable(ENCRYPTED_LOG.to_owned()));
        }
        if !(160 <= raw_event_type && raw_event_type <= 163) {
            let mut seen = false;
            let mut i: usize = 0;
            while i < self.warned_event_types.len()
                invariant
                    i <= self.warned_event_types@.len(),
                    seen == (exists|k: int|
                        0 <= k < i && self.warned_event_types@[k] == raw_event_type),
                decreases self.warned_event_types.len() - i,
            {
                if self.warned_event_types[i] == raw_event_type {
                    seen = true;
                }
                i = i + 1;
            }
            if !seen {
                self.warned_event_types.push(raw_event_type);
            }
        }
        let none: Vec<MysqlBinlogMessage> = Vec::new();
        proof {
            assert(stream::message_views(none@) =~= Seq::<MessageView>::empty());
        }
        Ok(none)
    }

    /// Decodes a classified event into stream messages.
    pub fn decode_event_data(&mut self, data: BinlogEvent, timestamp_ms: u64) -> (messages: Result<
        Vec<MysqlBinlogMessage>,
        Error,
    >)
        ensures
            final(self).poll_interval_ms == old(self).poll_interval_ms,
            final(self).warned_event_types == old(self).warned_event_types,
            classified(
                old(self).progress(),
                data,
                timestamp_ms,
                final(self).progress(),
                messages,
            ),
    {
        let mut out: Vec<MysqlBinlogMessage> = Vec::new();
        proof {
            assert(stream::message_views(out@) =~= Seq::<MessageView>::empty());
        }
        match data {
            BinlogEvent::Query { statement } => {
                let trimmed = text::trim(statement.as_str());
                if text::same_folded(trimmed.as_str(), "BEGIN") {
                    let (tx_id, _opened) = self.ensure_active_tx();
                    out.push(MysqlBinlogMessage::Begin { tx_id, timestamp_ms });
                    proof {
                        assert(stream::message_views(out@) =~= seq![
                            MessageView::Begin { tx_id, timestamp_ms },
                        ]);
                    }
                } else if let Some(mut captured) = ddl::extract_captured_ddl(statement.as_str()) {
                    captured.ts = timestamp_ms;
                    let message = MysqlBinlogMessage::Ddl {
                        captured,
                        timestamp_ms,
                        binlog_file: self.binlog_file.clone(),
                        binlog_pos: self.next_pos,
                    };
                    let ghost seen = message@;
                    out.push(message);
                    proof {
                        assert(stream::message_views(out@) =~= seq![seen]);
                    }
                } else if let Some((schema, table)) = ddl::parse_truncate_target(
                    statement.as_str(),
                ) {
                    if let Some(tx_id) = self.active_tx_id {
                        let message = MysqlBinlogMessage::Xid {
                            tx_id,
                            timestamp_ms,
                            binlog_file: self.binlog_file.clone(),
                            binlog_pos: self.next_pos,
                            gtid: text::clone_text_option(&self.active_gtid),
                        };
                        out.push(message);
                        self.active_tx_id = None;
                        self.active_gtid = None;
                    }
                    let ghost before = stream::message_views(out@);
                    let message = MysqlBinlogMessage::Truncate {
                        schema,
                        table,
                        timestamp_ms,
                        binlog_file: self.binlog_file.clone(),
                        binlog_pos: self.next_pos,
                    };
                    let ghost seen = message@;
                    out.push(message);
                    proof {
                        let after = after_query(old(self).progress(), statement@, timestamp_ms);
                        assert(stream::message_views(out@) =~= before.push(seen));
                        assert(stream::message_views(out@) =~= after.1);
                    }
                }
            },
            BinlogEvent::Rows { kind, changes } => {
                let (tx_id, opened_here) = self.ensure_active_tx();
                if opened_here {
                    out.push(MysqlBinlogMessage::Begin { tx_id, timestamp_ms });
                }
                let ghost lead = stream::message_views(out@);
                proof {
                    if opened_here {
                        assert(lead =~= seq![MessageView::Begin { tx_id, timestamp_ms }]);
                    }
                }
                match changes {
                    Err(error) => {
                        return Err(error);
                    },
                    Ok(changes) => {
                        let ghost all = changes@;
                        let ghost whole = row_messages(kind, all);
                        proof {
                            assert(lead + whole.take(0) =~= lead);
                        }
                        for change in iter: changes
                            invariant
                                iter.seq() == all,
                                whole == row_messages(kind, all),
                                stream::message_views(out@) == lead + whole.take(
                                    iter.index() as int,
                                ),
                        {
                            let ghost n = iter.index() as int;
                            let ghost before = stream::message_views(out@);
                            let message = match kind {
                                RowsKind::Write => MysqlBinlogMessage::WriteRows(change),
                                RowsKind::Update => MysqlBinlogMessage::UpdateRows(change),
                                RowsKind::Delete => MysqlBinlogMessage::DeleteRows(change),
                            };
                            let ghost seen = message@;
                            out.push(message);
                            proof {
                                assert(stream::message_views(out@) =~= before.push(seen));
                                assert(whole[n] == seen);
                                assert(lead + whole.take(n + 1) =~= (lead + whole.take(n)).push(
                                    seen,
                                ));
                            }
                        }
                        proof {
                            assert(whole.take(all.len() as int) =~= whole);
                        }
                    },
                }
            },
            BinlogEvent::Xid { xid } => {
                let tx_id = match self.active_tx_id {
                    Some(tx_id) => tx_id,
                    None => {
                        if xid == 0 {
                            let tx_id = self.next_tx_id;
                            self.next_tx_id = self.next_tx_id.saturating_add(1);
                            tx_id
                        } else {
                            xid
                        }
                    },
                };
                self.active_tx_id = None;
                let message = MysqlBinlogMessage::Xid {
                    tx_id,
                    timestamp_ms,
                    binlog_file: self.binlog_file.clone(),
                    binlog_pos: self.next_pos,
                    gtid: text::clone_text_option(&self.active_gtid),
                };
                let ghost seen = message@;
                out.push(message);
                self.active_gtid = None;
                proof {
                    assert(stream::message_views(out@) =~= seq![seen]);
                }
            },
            BinlogEvent::Rotate { name, position } => {
                match parser::sanitize_binlog_file_name(name.as_str()) {
                    Ok(file) => {
                        self.binlog_file = file;
                    },
                    Err(error) => {
                        return Err(error);
                    },
                }
                if position > u32::MAX as u64 {
                    return Err(
                        Error::SourceError(
                            text::join2(
                                "mysql rotate position exceeds u32: ",
                                text::decimal(position).as_str(),
                            ),
                        ),
                    );
                }
                self.next_pos = position as u32;
                let message = MysqlBinlogMessage::Rotate {
                    binlog_file: self.binlog_file.clone(),
                    binlog_pos: self.next_pos,
                };
                let ghost seen = message@;
                out.push(message);
                proof {
                    assert(stream::message_views(out@) =~= seq![seen]);
                }
            },
            BinlogEvent::Gtid { sid, gno } => {
                let value = gtid::format_gtid(sid, gno);
                self.active_gtid = Some(value.clone());
                let message = MysqlBinlogMessage::Gtid { gtid: value };
                let ghost seen = message@;
                out.push(message);
                proof {
                    assert(stream::message_views(out@) =~= seq![seen]);
                }
            },
            BinlogEvent::Heartbeat => {
                out.push(MysqlBinlogMessage::Heartbeat);
                proof {
                    assert(stream::message_views(out@) =~= seq![MessageView::Heartbeat]);
                }
            },
            BinlogEvent::Other => {},
        }
        Ok(out)
    }
}

} // verus!
