//! The tables, rows and positions that an incremental snapshot works on.
use vstd::prelude::*;
use crate::event::Event;
use crate::json;
use crate::text;

verus! {

/// Where a live event sits relative to a chunk's watermark bracket.
#[derive(Clone, Copy, Debug, PartialEq, Eq, Structural)]
pub enum BracketPosition {
    /// The chunk read could have seen this event, so its chunk row is not superseded.
    Before,
    /// The chunk read could not have seen it, and it committed no later than the high watermark.
    /// Its chunk row must be suppressed.
    Inside,
    /// It committed after the chunk read finished. The chunk is emitted before it.
    After,
}

/// A table selected for snapshotting, resolved against the source's catalog.
#[derive(Debug)]
pub struct SnapshotTable {
    /// The schema or database the table lives in.
    pub schema: String,
    /// The bare table name, as it appears in an event.
    pub name: String,
    /// The quoted, fully qualified reference for the backend's SQL.
    pub qualified: String,
    /// Primary-key column names, in key order.
    pub pk_columns: Vec<String>,
    /// Backend-defined type names of the key columns, or empty.
    pub pk_types: Vec<String>,
    /// All column names in ordinal order, or empty.
    pub columns: Vec<String>,
    /// A SQL boolean expression that restricts which rows are read.
    pub condition: Option<String>,
}

impl SnapshotTable {
    /// `schema.table`, under which the table's progress is kept.
    pub open spec fn key_text(self) -> Seq<char> {
        self.schema@ + "."@ + self.name@
    }

    /// Whether both describe the same table in the same way, row filters aside.
    pub open spec fn same_table(self, other: SnapshotTable) -> bool {
        &&& self.schema == other.schema
        &&& self.name == other.name
        &&& self.qualified == other.qualified
        &&& self.pk_columns == other.pk_columns
        &&& self.pk_types == other.pk_types
        &&& self.columns == other.columns
    }

    /// `schema.table`.
    pub fn key(&self) -> (key: String)
        ensures
            key@ == self.key_text(),
    {
        text::join3(self.schema.as_str(), ".", self.name.as_str())
    }
}

impl Clone for SnapshotTable {
    fn clone(&self) -> (copy: Self)
        ensures
            copy.schema@ == self.schema@,
            copy.name@ == self.name@,
            copy.qualified@ == self.qualified@,
            text::texts(copy.pk_columns@) == text::texts(self.pk_columns@),
            text::texts(copy.pk_types@) == text::texts(self.pk_types@),
            text::texts(copy.columns@) == text::texts(self.columns@),
            text::text_option(copy.condition) == text::text_option(self.condition),
    {
        SnapshotTable {
            schema: self.schema.clone(),
            name: self.name.clone(),
            qualified: self.qualified.clone(),
            pk_columns: text::clone_texts(&self.pk_columns),
            pk_types: text::clone_texts(&self.pk_types),
            columns: text::clone_texts(&self.columns),
            condition: text::clone_text_option(&self.condition),
        }
    }
}

/// One row returned by a chunk read.
#[derive(Debug)]
pub struct ChunkRow {
    /// Primary-key values in key order, in the form that the backend wants kept as the cursor.
    pub cursor: Vec<serde_json::Value>,
    /// The full row payload.
    pub row: serde_json::Value,
}

impl Clone for ChunkRow {
    fn clone(&self) -> (copy: Self)
        ensures
            json::jsons(copy.cursor@) == json::jsons(self.cursor@),
            json::json(copy.row) == json::json(self.row),
    {
        ChunkRow { cursor: json::clone_values(&self.cursor), row: self.row.clone() }
    }
}

/// A totally ordered position in a source's log.
pub trait StreamPosition: Sized {
    /// The place of the position in the order.
    spec fn rank(&self) -> int;

    /// Whether the position is at or past another.
    fn at_or_past(&self, other: &Self) -> (b: bool)
        ensures
            b == (self.rank() >= other.rank()),
    ;
}

impl StreamPosition for u64 {
    open spec fn rank(&self) -> int {
        *self as int
    }

    fn at_or_past(&self, other: &Self) -> (b: bool) {
        *self >= *other
    }
}

/// A file of a segmented log, by its number, and a place in it.
#[derive(Clone, Copy, Debug, PartialEq, Eq, Structural)]
pub struct SegmentPosition {
    pub file: u64,
    pub position: u64,
}

impl StreamPosition for SegmentPosition {
    open spec fn rank(&self) -> int {
        self.file * 0x1_0000_0000_0000_0000 + self.position
    }

    fn at_or_past(&self, other: &Self) -> (b: bool) {
        self.file > other.file || (self.file == other.file && self.position >= other.position)
    }
}

/// The bracket of an event by the order of positions alone: after the high watermark, past the
/// low one, or before both.
pub open spec fn ordinal_bracket(position: int, low: int, high: int) -> BracketPosition {
    if position > high {
        BracketPosition::After
    } else if position > low {
        BracketPosition::Inside
    } else {
        BracketPosition::Before
    }
}

/// The bracket of an event by the order of positions alone.
pub fn bracket_by_order<P: StreamPosition>(position: &P, low: &P, high: &P) -> (b: BracketPosition)
    ensures
        b == ordinal_bracket(position.rank(), low.rank(), high.rank()),
{
    if !high.at_or_past(position) {
        BracketPosition::After
    } else if !low.at_or_past(position) {
        BracketPosition::Inside
    } else {
        BracketPosition::Before
    }
}

/// The part of a connector that only its database can answer.
pub trait IncrementalSnapshotBackend {
    /// The position type of the source's log.
    type Position: StreamPosition;

    /// The position of a live event; `None` where it carries none, so that it passes through
    /// without a part in the override window.
    fn position_of_event(&self, event: &Event) -> Option<Self::Position>;

    /// Where a live event sits relative to the bracket of the current chunk. The order of
    /// positions answers it only where the watermark does not run ahead of visibility; a backend
    /// whose watermark does, answers for itself.
    fn event_in_bracket(
        &self,
        event: &Event,
        position: &Self::Position,
        low: &Self::Position,
        high: &Self::Position,
    ) -> (b: BracketPosition)
        default_ensures
            b == ordinal_bracket(position.rank(), low.rank(), high.rank()),
    {
        bracket_by_order(position, low, high)
    }
}

/// What the backend said of an event that has a position.
pub struct EventMark<P> {
    pub position: P,
    pub bracket: BracketPosition,
}

/// Whether a mark is what the backend says of an event: its position, and its place in the bracket
/// where it has one.
pub open spec fn said_by<B: IncrementalSnapshotBackend>(
    backend: &B,
    event: &Event,
    low: &B::Position,
    high: &B::Position,
    mark: Option<EventMark<B::Position>>,
) -> bool {
    match mark {
        Some(mark) => {
            &&& call_ensures(B::position_of_event, (backend, event), Some(mark.position))
            &&& call_ensures(
                B::event_in_bracket,
                (backend, event, &mark.position, low, high),
                mark.bracket,
            )
        },
        None => call_ensures(B::position_of_event, (backend, event), None),
    }
}

/// What the backend says of each of some events, in order.
pub fn mark_events<B: IncrementalSnapshotBackend>(
    backend: &B,
    events: &Vec<Event>,
    low: &B::Position,
    high: &B::Position,
) -> (marks: Vec<Option<EventMark<B::Position>>>)
    ensures
        marks@.len() == events@.len(),
        forall|i: int|
            0 <= i < events@.len() ==> said_by(backend, &events@[i], low, high, #[trigger] marks@[i]),
{
    let mut marks: Vec<Option<EventMark<B::Position>>> = Vec::new();
    let mut i: usize = 0;
    while i < events.len()
        invariant
            i <= events@.len(),
            marks@.len() == i,
            forall|k: int|
                0 <= k < i ==> said_by(backend, &events@[k], low, high, #[trigger] marks@[k]),
        decreases events.len() - i,
    {
        match backend.position_of_event(&events[i]) {
            Some(position) => {
                let bracket = backend.event_in_bracket(&events[i], &position, low, high);
                marks.push(Some(EventMark { position, bracket }));
            },
            None => {
                marks.push(None);
            },
        }
        i = i + 1;
    }
    marks
}

} // verus!
