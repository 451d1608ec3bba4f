//! What to snapshot incrementally, and which rows of it.
use vstd::prelude::*;
use crate::conditions;
use crate::text;

verus! {

/// One on-demand incremental-snapshot request: which tables, and which rows of them.
///
/// A condition set here overrides the configured one for the same table; a table without an
/// override keeps its configured condition. Conditions are raw SQL and trusted input.
#[derive(Debug, PartialEq, Eq)]
#[non_exhaustive]
pub struct SnapshotRequest {
    /// Tables to snapshot, in `schema.table` form, in order.
    pub tables: Vec<String>,
    /// Per-table row filters of this request.
    pub conditions: ahash::AHashMap<String, String>,
}

impl SnapshotRequest {
    /// A request for the tables, with no row filter.
    pub fn new(tables: Vec<String>) -> (request: Self)
        ensures
            request.tables == tables,
            conditions::filters(request.conditions) == conditions::nothing(),
    {
        SnapshotRequest { tables, conditions: conditions::no_filters() }
    }

    /// This request, with the table restricted to the rows that match the condition.
    #[must_use]
    pub fn with_condition(self, table: &str, condition: &str) -> (request: Self)
        ensures
            request.tables == self.tables,
            conditions::filters(request.conditions) == conditions::filters(self.conditions).insert(
                table@,
                condition@,
            ),
    {
        let mut map = self.conditions;
        conditions::set_filter(&mut map, table.to_owned(), condition.to_owned());
        SnapshotRequest { tables: self.tables, conditions: map }
    }
}

impl From<Vec<String>> for SnapshotRequest {
    fn from(tables: Vec<String>) -> (request: Self)
        ensures
            request.tables == tables,
            conditions::filters(request.conditions) == conditions::nothing(),
    {
        SnapshotRequest::new(tables)
    }
}

impl vstd::std_specs::convert::FromSpecImpl<Vec<String>> for SnapshotRequest {
    open spec fn obeys_from_spec() -> bool {
        false
    }

    open spec fn from_spec(tables: Vec<String>) -> Self {
        arbitrary()
    }
}

impl Clone for SnapshotRequest {
    fn clone(&self) -> (copy: Self)
        ensures
            text::texts(copy.tables@) == text::texts(self.tables@),
            conditions::filters(copy.conditions) == conditions::filters(self.conditions),
    {
        SnapshotRequest {
            tables: text::clone_texts(&self.tables),
            conditions: conditions::clone_filters(&self.conditions),
        }
    }
}

/// Configuration of an incremental snapshot.
#[derive(Debug)]
#[non_exhaustive]
pub struct IncrementalSnapshotConfig {
    /// Tables to snapshot, in `schema.table` form, in order.
    pub tables: Vec<String>,
    /// Rows to read per chunk.
    pub chunk_size: usize,
    /// Per-table row filters: raw SQL and trusted input.
    pub table_conditions: ahash::AHashMap<String, String>,
}

impl IncrementalSnapshotConfig {
    /// The tables, with chunks of five thousand rows and no filter.
    pub fn new(tables: Vec<String>) -> (config: Self)
        ensures
            config.tables == tables,
            config.chunk_size == 5_000,
            conditions::filters(config.table_conditions) == conditions::nothing(),
    {
        IncrementalSnapshotConfig {
            tables,
            chunk_size: 5_000,
            table_conditions: conditions::no_filters(),
        }
    }

    /// This configuration with another chunk size.
    #[must_use]
    pub fn with_chunk_size(self, chunk_size: usize) -> (config: Self)
        ensures
            config == (IncrementalSnapshotConfig { chunk_size, ..self }),
    {
        IncrementalSnapshotConfig { chunk_size, ..self }
    }

    /// This configuration with the table restricted to the rows that match the condition.
    #[must_use]
    pub fn with_table_condition(self, table: &str, condition: &str) -> (config: Self)
        ensures
            config.tables == self.tables,
            config.chunk_size == self.chunk_size,
            conditions::filters(config.table_conditions) == conditions::filters(
                self.table_conditions,
            ).insert(table@, condition@),
    {
        let mut map = self.table_conditions;
        conditions::set_filter(&mut map, table.to_owned(), condition.to_owned());
        IncrementalSnapshotConfig {
            tables: self.tables,
            chunk_size: self.chunk_size,
            table_conditions: map,
        }
    }
}

impl Clone for IncrementalSnapshotConfig {
    fn clone(&self) -> (copy: Self)
        ensures
            text::texts(copy.tables@) == text::texts(self.tables@),
            copy.chunk_size == self.chunk_size,
            conditions::filters(copy.table_conditions) == conditions::filters(
                self.table_conditions,
            ),
    {
        IncrementalSnapshotConfig {
            tables: text::clone_texts(&self.tables),
            chunk_size: self.chunk_size,
            table_conditions: conditions::clone_filters(&self.table_conditions),
        }
    }
}

} // verus!
