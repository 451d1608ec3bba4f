//! Durable progress of an incremental snapshot, as a checkpoint keeps it.
use vstd::prelude::*;
use crate::json;
use crate::json::Json;
use crate::text;

verus! {

/// Durable progress of one table.
#[derive(Debug, PartialEq)]
pub struct IncrementalSnapshotTableState {
    /// `schema.table`.
    pub table: String,
    /// Primary-key values of the last row of the last fully delivered chunk.
    pub pk_cursor: Option<Vec<serde_json::Value>>,
    pub is_complete: bool,
    pub chunks_emitted: u32,
    pub rows_emitted: u64,
    /// The row filter that the table is read under.
    pub condition: Option<String>,
}

/// What an [`IncrementalSnapshotTableState`] holds.
pub struct TableStateView {
    pub table: Seq<char>,
    pub pk_cursor: Option<Seq<Json>>,
    pub is_complete: bool,
    pub chunks_emitted: u32,
    pub rows_emitted: u64,
    pub condition: Option<Seq<char>>,
}

/// What an optional cursor holds.
pub open spec fn cursor_view(cursor: Option<Vec<serde_json::Value>>) -> Option<Seq<Json>> {
    match cursor {
        Some(values) => Some(json::jsons(values@)),
        None => None,
    }
}

impl View for IncrementalSnapshotTableState {
    type V = TableStateView;

    open spec fn view(&self) -> TableStateView {
        TableStateView {
            table: self.table@,
            pk_cursor: cursor_view(self.pk_cursor),
            is_complete: self.is_complete,
            chunks_emitted: self.chunks_emitted,
            rows_emitted: self.rows_emitted,
            condition: text::text_option(self.condition),
        }
    }
}

/// The same cursor again.
pub fn clone_cursor(cursor: &Option<Vec<serde_json::Value>>) -> (copy: Option<
    Vec<serde_json::Value>,
>)
    ensures
        cursor_view(copy) == cursor_view(*cursor),
{
    match cursor {
        Some(values) => Some(json::clone_values(values)),
        None => None,
    }
}

impl Clone for IncrementalSnapshotTableState {
    fn clone(&self) -> (copy: Self)
        ensures
            copy@ == self@,
    {
        IncrementalSnapshotTableState {
            table: self.table.clone(),
            pk_cursor: clone_cursor(&self.pk_cursor),
            is_complete: self.is_complete,
            chunks_emitted: self.chunks_emitted,
            rows_emitted: self.rows_emitted,
            condition: text::clone_text_option(&self.condition),
        }
    }
}

/// Durable progress of an incremental snapshot.
#[derive(Debug, PartialEq)]
pub struct IncrementalSnapshotState {
    pub snapshot_id: String,
    /// Chunk reading is suspended.
    pub paused: bool,
    /// The snapshot was abandoned; a restart does not take it up again.
    pub stopped: bool,
    /// How many times work has been requested.
    pub generation: u32,
    pub tables: Vec<IncrementalSnapshotTableState>,
}

/// What an [`IncrementalSnapshotState`] holds.
pub struct StateView {
    pub snapshot_id: Seq<char>,
    pub paused: bool,
    pub stopped: bool,
    pub generation: u32,
    pub tables: Seq<TableStateView>,
}

/// What each of some table states holds.
pub open spec fn table_views(tables: Seq<IncrementalSnapshotTableState>) -> Seq<TableStateView> {
    tables.map_values(|table: IncrementalSnapshotTableState| table@)
}

impl View for IncrementalSnapshotState {
    type V = StateView;

    open spec fn view(&self) -> StateView {
        StateView {
            snapshot_id: self.snapshot_id@,
            paused: self.paused,
            stopped: self.stopped,
            generation: self.generation,
            tables: table_views(self.tables@),
        }
    }
}

/// The place of the first entry for a table, or the number of entries.
pub open spec fn entry_place(tables: Seq<TableStateView>, key: Seq<char>) -> int
    decreases tables.len(),
{
    if tables.len() == 0 || tables[0].table == key {
        0
    } else {
        1 + entry_place(tables.drop_first(), key)
    }
}

/// The first entry for a table.
pub open spec fn entry_of(tables: Seq<TableStateView>, key: Seq<char>) -> Option<TableStateView> {
    let place = entry_place(tables, key);
    if place < tables.len() {
        Some(tables[place])
    } else {
        None
    }
}

impl IncrementalSnapshotState {
    /// The entry for a table, by its `schema.table`.
    pub fn table(&self, key: &str) -> (entry: Option<&IncrementalSnapshotTableState>)
        ensures
            match entry {
                Some(found) => entry_of(self@.tables, key@) == Some(found@),
                None => entry_of(self@.tables, key@) is None,
            },
    {
        let ghost views = self@.tables;
        let mut i: usize = 0;
        proof {
            assert(views.skip(0) =~= views);
        }
        while i < self.tables.len()
            invariant
                i <= self.tables@.len(),
                views == table_views(self.tables@),
                entry_place(views, key@) == i + entry_place(views.skip(i as int), key@),
            decreases self.tables.len() - i,
        {
            proof {
                assert(views.skip(i as int)[0] == self.tables@[i as int]@);
                assert(views.skip(i as int).drop_first() =~= views.skip(i + 1));
            }
            if text::same_text(self.tables[i].table.as_str(), key) {
                return Some(&self.tables[i]);
            }
            i = i + 1;
        }
        None
    }
}

} // verus!
