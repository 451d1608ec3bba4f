//! The change event: what a consumer is handed for one row change, snapshot row, schema
//! observation or logical message.
use vstd::prelude::*;
use crate::json;
use crate::json::Json;
use crate::text;

verus! {

/// The version of the event envelope.
pub const EVENT_ENVELOPE_VERSION: u32 = 1;

/// What happened to the row.
#[derive(Clone, Copy, Debug, PartialEq, Eq, Structural)]
pub enum Operation {
    /// A row read by a snapshot.
    Read,
    Insert,
    Update,
    Delete,
    Truncate,
    /// A table's schema was observed or changed.
    SchemaChange,
    /// A message written to the log outside any table.
    Message,
}

impl Operation {
    /// Whether the event describes a schema rather than a row.
    pub fn is_schema_change(&self) -> (b: bool)
        ensures
            b == (*self == Operation::SchemaChange),
    {
        *self == Operation::SchemaChange
    }
}

/// The row before the change, as far as the log carries it.
#[derive(Debug, PartialEq)]
pub enum BeforeImage {
    /// The log carries nothing of the row.
    Unavailable,
    /// The log carries the key columns only.
    KeyOnly(serde_json::Value),
    /// The log carries the row, but for the listed columns.
    Full { row: serde_json::Value, unavailable_columns: Vec<String> },
}

/// What a [`BeforeImage`] holds.
pub enum BeforeView {
    Unavailable,
    KeyOnly(Json),
    Full { row: Json, unavailable_columns: Seq<Seq<char>> },
}

impl View for BeforeImage {
    type V = BeforeView;

    open spec fn view(&self) -> BeforeView {
        match self {
            BeforeImage::Unavailable => BeforeView::Unavailable,
            BeforeImage::KeyOnly(row) => BeforeView::KeyOnly(json::json(*row)),
            BeforeImage::Full { row, unavailable_columns } => BeforeView::Full {
                row: json::json(*row),
                unavailable_columns: text::texts(unavailable_columns@),
            },
        }
    }
}

impl BeforeView {
    /// The row, or the part of it, that the image carries.
    pub open spec fn row(self) -> Option<Json> {
        match self {
            BeforeView::Unavailable => None,
            BeforeView::KeyOnly(row) => Some(row),
            BeforeView::Full { row, .. } => Some(row),
        }
    }
}

impl BeforeImage {
    /// A whole row.
    pub fn full(row: serde_json::Value) -> (image: Self)
        ensures
            image@ == (BeforeView::Full {
                row: json::json(row),
                unavailable_columns: Seq::empty(),
            }),
    {
        let image = BeforeImage::Full { row, unavailable_columns: Vec::new() };
        proof {
            assert(image@->Full_unavailable_columns =~= Seq::<Seq<char>>::empty());
        }
        image
    }

    /// A row without the listed columns.
    pub fn full_with_holes(row: serde_json::Value, unavailable_columns: Vec<String>) -> (image: Self)
        ensures
            image@ == (BeforeView::Full {
                row: json::json(row),
                unavailable_columns: text::texts(unavailable_columns@),
            }),
    {
        BeforeImage::Full { row, unavailable_columns }
    }

    /// The key columns of a row.
    pub fn key_only(row: serde_json::Value) -> (image: Self)
        ensures
            image@ == BeforeView::KeyOnly(json::json(row)),
    {
        BeforeImage::KeyOnly(row)
    }

    /// The row, or the part of it, that the image carries.
    pub fn row(&self) -> (row: Option<&serde_json::Value>)
        ensures
            match row {
                Some(value) => self@.row() == Some(json::json(*value)),
                None => self@.row() is None,
            },
    {
        match self {
            BeforeImage::Unavailable => None,
            BeforeImage::KeyOnly(row) => Some(row),
            BeforeImage::Full { row, .. } => Some(row),
        }
    }

    /// Whether the image carries anything.
    pub fn is_present(&self) -> (b: bool)
        ensures
            b == (self@.row() is Some),
    {
        match self {
            BeforeImage::Unavailable => false,
            _ => true,
        }
    }
}

impl Clone for BeforeImage {
    fn clone(&self) -> (copy: Self)
        ensures
            copy@ == self@,
    {
        match self {
            BeforeImage::Unavailable => BeforeImage::Unavailable,
            BeforeImage::KeyOnly(row) => BeforeImage::KeyOnly(row.clone()),
            BeforeImage::Full { row, unavailable_columns } => BeforeImage::Full {
                row: row.clone(),
                unavailable_columns: text::clone_texts(unavailable_columns),
            },
        }
    }
}

/// Where an event comes from.
#[derive(Debug, PartialEq, Eq)]
pub struct SourceMetadata {
    pub source_name: String,
    /// The place in the source's log, or the identity of a snapshot row.
    pub offset: String,
    /// Unix milliseconds at the source.
    pub timestamp: u64,
}

/// What a [`SourceMetadata`] holds.
pub struct SourceView {
    pub source_name: Seq<char>,
    pub offset: Seq<char>,
    pub timestamp: u64,
}

impl View for SourceMetadata {
    type V = SourceView;

    open spec fn view(&self) -> SourceView {
        SourceView {
            source_name: self.source_name@,
            offset: self.offset@,
            timestamp: self.timestamp,
        }
    }
}

impl Clone for SourceMetadata {
    fn clone(&self) -> (copy: Self)
        ensures
            copy@ == self@,
    {
        SourceMetadata {
            source_name: self.source_name.clone(),
            offset: self.offset.clone(),
            timestamp: self.timestamp,
        }
    }
}

/// Which snapshot, and which chunk of it, a row was read in.
#[derive(Debug, PartialEq, Eq)]
pub struct SnapshotMetadata {
    pub snapshot_id: String,
    pub chunk_index: u32,
    pub is_last_chunk: bool,
}

/// What a [`SnapshotMetadata`] holds.
pub struct SnapshotView {
    pub snapshot_id: Seq<char>,
    pub chunk_index: u32,
    pub is_last_chunk: bool,
}

impl View for SnapshotMetadata {
    type V = SnapshotView;

    open spec fn view(&self) -> SnapshotView {
        SnapshotView {
            snapshot_id: self.snapshot_id@,
            chunk_index: self.chunk_index,
            is_last_chunk: self.is_last_chunk,
        }
    }
}

impl Clone for SnapshotMetadata {
    fn clone(&self) -> (copy: Self)
        ensures
            copy@ == self@,
    {
        SnapshotMetadata {
            snapshot_id: self.snapshot_id.clone(),
            chunk_index: self.chunk_index,
            is_last_chunk: self.is_last_chunk,
        }
    }
}

/// Which transaction an event belongs to, and its place in it.
#[derive(Clone, Copy, Debug, PartialEq, Eq)]
pub struct TransactionMetadata {
    pub tx_id: u64,
    /// How many events the transaction has, once it has ended.
    pub total_events: Option<u32>,
    pub event_index: u32,
}

/// One change event.
#[derive(Debug, PartialEq)]
pub struct Event {
    pub before: BeforeImage,
    pub after: Option<serde_json::Value>,
    pub op: Operation,
    pub source: SourceMetadata,
    /// Unix milliseconds.
    pub ts: u64,
    pub schema: Option<String>,
    /// The bare table name.
    pub table: String,
    /// The primary-key column names, in key order.
    pub primary_key: Option<Vec<String>>,
    pub snapshot: Option<SnapshotMetadata>,
    pub transaction: Option<TransactionMetadata>,
    pub envelope_version: u32,
    /// The identity of the table shape that the row was captured under.
    pub schema_id: Option<String>,
    /// The columns of `after` whose value the log does not carry.
    pub unavailable_columns: Vec<String>,
}

/// What an [`Event`] holds.
pub struct EventView {
    pub before: BeforeView,
    pub after: Option<Json>,
    pub op: Operation,
    pub source: SourceView,
    pub ts: u64,
    pub schema: Option<Seq<char>>,
    pub table: Seq<char>,
    pub primary_key: Option<Seq<Seq<char>>>,
    pub snapshot: Option<SnapshotView>,
    pub transaction: Option<TransactionMetadata>,
    pub envelope_version: u32,
    pub schema_id: Option<Seq<char>>,
    pub unavailable_columns: Seq<Seq<char>>,
}

/// The names of an optional key.
pub open spec fn key_names(key: Option<Vec<String>>) -> Option<Seq<Seq<char>>> {
    match key {
        Some(names) => Some(text::texts(names@)),
        None => None,
    }
}

/// What an optional snapshot tag holds.
pub open spec fn snapshot_view(snapshot: Option<SnapshotMetadata>) -> Option<SnapshotView> {
    match snapshot {
        Some(snapshot) => Some(snapshot@),
        None => None,
    }
}

impl View for Event {
    type V = EventView;

    open spec fn view(&self) -> EventView {
        EventView {
            before: self.before@,
            after: json::json_option(self.after),
            op: self.op,
            source: self.source@,
            ts: self.ts,
            schema: text::text_option(self.schema),
            table: self.table@,
            primary_key: key_names(self.primary_key),
            snapshot: snapshot_view(self.snapshot),
            transaction: self.transaction,
            envelope_version: self.envelope_version,
            schema_id: text::text_option(self.schema_id),
            unavailable_columns: text::texts(self.unavailable_columns@),
        }
    }
}

/// What each of some events holds.
pub open spec fn event_views(events: Seq<Event>) -> Seq<EventView> {
    events.map_values(|event: Event| event@)
}

/// The table's name, with its schema where it has one.
pub open spec fn qualified(schema: Option<Seq<char>>, table: Seq<char>) -> Seq<char> {
    match schema {
        Some(schema) => if schema.len() > 0 {
            schema + seq!['.'] + table
        } else {
            table
        },
        None => table,
    }
}

/// The table's name, with its schema where it has one.
pub fn qualify(schema: Option<&str>, table: &str) -> (name: String)
    ensures
        name@ == qualified(
            match schema {
                Some(schema) => Some(schema@),
                None => None,
            },
            table@,
        ),
{
    match schema {
        Some(schema) => {
            if text::same_text(schema, "") {
                proof {
                    reveal_strlit("");
                }
                table.to_owned()
            } else {
                proof {
                    reveal_strlit("");
                    reveal_strlit(".");
                    assert("."@ =~= seq!['.']);
                    if schema@.len() == 0 {
                        assert(schema@ =~= ""@);
                    }
                }
                text::join3(schema, ".", table)
            }
        },
        None => table.to_owned(),
    }
}

/// The same key again.
pub fn clone_key(key: &Option<Vec<String>>) -> (copy: Option<Vec<String>>)
    ensures
        key_names(copy) == key_names(*key),
{
    match key {
        Some(names) => Some(text::clone_texts(names)),
        None => None,
    }
}

impl Event {
    /// `schema.table`, or the bare table name where the event has no schema.
    pub fn qualified_table_name(&self) -> (name: String)
        ensures
            name@ == qualified(self@.schema, self@.table),
    {
        match &self.schema {
            Some(schema) => qualify(Some(schema.as_str()), self.table.as_str()),
            None => qualify(None, self.table.as_str()),
        }
    }
}

impl Clone for Event {
    fn clone(&self) -> (copy: Self)
        ensures
            copy@ == self@,
    {
        Event {
            before: self.before.clone(),
            after: json::clone_option(&self.after),
            op: self.op,
            source: self.source.clone(),
            ts: self.ts,
            schema: text::clone_text_option(&self.schema),
            table: self.table.clone(),
            primary_key: clone_key(&self.primary_key),
            snapshot: match &self.snapshot {
                Some(snapshot) => Some(snapshot.clone()),
                None => None,
            },
            transaction: self.transaction,
            envelope_version: self.envelope_version,
            schema_id: text::clone_text_option(&self.schema_id),
            unavailable_columns: text::clone_texts(&self.unavailable_columns),
        }
    }
}

} // verus!
