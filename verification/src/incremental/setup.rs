//! Starting an incremental snapshot, and adding tables to a running one.
//!
//! Tables are resolved against the source's catalog by the caller, one at a time:
//! [`DriverSetup::next_table`] names the next, [`DriverSetup::table_described`] takes in what the
//! catalog said.
use std::collections::VecDeque;
use vstd::prelude::*;
use crate::conditions;
use crate::error::Error;
use crate::incremental::driver;
use crate::incremental::driver::{IncrementalSnapshotDriver, Phase, TableProgress};
use crate::incremental::state;
use crate::incremental::state::{IncrementalSnapshotState, TableStateView};
use crate::incremental::steps;
use crate::incremental::table::SnapshotTable;
use crate::json;
use crate::snapshot_request::{IncrementalSnapshotConfig, SnapshotRequest};
use crate::text;

verus! {

/// A driver being set up.
pub struct DriverSetup {
    pub config: IncrementalSnapshotConfig,
    pub source_name: String,
    /// The record of an earlier run, from its checkpoint.
    pub resume: Option<IncrementalSnapshotState>,
    /// The tables resolved so far.
    pub tables: Vec<TableProgress>,
    /// How many configured tables have been resolved.
    pub configured_seen: usize,
    /// How many entries of the record have been considered for adoption.
    pub recorded_seen: usize,
}

/// What the record says of a table.
pub open spec fn recorded(resume: Option<IncrementalSnapshotState>, key: Seq<char>) -> Option<
    TableStateView,
> {
    match resume {
        Some(record) => state::entry_of(record@.tables, key),
        None => None,
    }
}

/// Whether a table takes up where the record left it, from the start where it has no entry.
pub open spec fn takes_up(table: TableProgress, entry: Option<TableStateView>) -> bool {
    match entry {
        Some(entry) => {
            &&& state::cursor_view(table.pk_cursor) == entry.pk_cursor
            &&& table.is_complete == entry.is_complete
            &&& table.chunks_emitted == entry.chunks_emitted
            &&& table.rows_emitted == entry.rows_emitted
        },
        None => {
            &&& table.pk_cursor is None
            &&& !table.is_complete
            &&& table.chunks_emitted == 0
            &&& table.rows_emitted == 0
        },
    }
}

/// Whether a cursor that the record holds has as many values as the key has columns.
pub open spec fn cursor_fits(entry: Option<TableStateView>, spec: SnapshotTable) -> bool {
    match entry {
        Some(entry) => match entry.pk_cursor {
            Some(cursor) => cursor.len() == spec.pk_columns@.len(),
            None => true,
        },
        None => true,
    }
}

/// Whether the spec is the described table with the filter that the map holds for it.
pub open spec fn resolved_as(
    spec: SnapshotTable,
    described: SnapshotTable,
    table_ref: Seq<char>,
    map: Map<Seq<char>, Seq<char>>,
) -> bool {
    &&& spec.same_table(described)
    &&& conditions::filter_for(
        map,
        table_ref,
        described.schema@,
        described.name@,
        text::text_option(spec.condition),
    )
}

/// Whether the spec is the described table with the filter that the record holds for it.
pub open spec fn adopted_as(
    spec: SnapshotTable,
    described: SnapshotTable,
    entry: TableStateView,
) -> bool {
    &&& spec.same_table(described)
    &&& text::text_option(spec.condition) == entry.condition
}

/// Whether the spec is the configured table as described: unfinished work keeps the filter that the
/// record holds for it, and anything else takes the configured one. A record without a filter does
/// not undo a configured filter.
pub open spec fn configured_as(
    spec: SnapshotTable,
    described: SnapshotTable,
    table_ref: Seq<char>,
    map: Map<Seq<char>, Seq<char>>,
    entry: Option<TableStateView>,
) -> bool {
    if entry matches Some(entry) && !entry.is_complete && entry.condition is Some {
        adopted_as(spec, described, entry->0)
    } else {
        resolved_as(spec, described, table_ref, map)
    }
}

/// What is told of a table without a primary key.
pub open spec fn keyless_text(spec: SnapshotTable) -> Seq<char> {
    "incremental snapshot: table '"@ + spec.schema@ + "."@ + spec.name@
        + "' must have a primary key"@
}

/// What is told of a recorded cursor that does not fit the table's primary key.
pub open spec fn misfit_text(key: Seq<char>, values: nat, columns: nat) -> Seq<char> {
    "incremental snapshot: persisted keyset cursor for '"@ + key + "' has "@ + text::decimal_text(
        values,
    ) + " value(s) but the table's primary key has "@ + text::decimal_text(columns)
        + " column(s). The primary key changed since the checkpoint was written; restart the snapshot with a fresh checkpoint directory rather than resuming from an incompatible cursor"@
}

fn keyless(spec: &SnapshotTable) -> (error: Error)
    ensures
        error is ConfigError,
        error.text() == keyless_text(*spec),
{
    Error::ConfigError(
        text::join5(
            "incremental snapshot: table '",
            spec.schema.as_str(),
            ".",
            spec.name.as_str(),
            "' must have a primary key",
        ),
    )
}

impl DriverSetup {
    /// A setup with nothing resolved yet.
    pub fn begin(
        config: IncrementalSnapshotConfig,
        source_name: String,
        resume: Option<IncrementalSnapshotState>,
    ) -> (setup: Self)
        ensures
            setup == (DriverSetup {
                config,
                source_name,
                resume,
                tables: setup.tables,
                configured_seen: 0,
                recorded_seen: 0,
            }),
            setup.tables@.len() == 0,
            setup.wf(),
    {
        DriverSetup {
            config,
            source_name,
            resume,
            tables: Vec::new(),
            configured_seen: 0,
            recorded_seen: 0,
        }
    }

    /// The counters stay within what they count.
    pub open spec fn wf(self) -> bool {
        &&& self.configured_seen <= self.config.tables@.len()
        &&& self.recorded_seen <= self.entries().len()
    }

    /// The entries of the record.
    pub open spec fn entries(self) -> Seq<TableStateView> {
        match self.resume {
            Some(record) => record@.tables,
            None => Seq::empty(),
        }
    }

    /// Whether the earlier run was abandoned.
    pub open spec fn was_stopped(self) -> bool {
        self.resume matches Some(record) && record.stopped
    }

    /// Whether an entry of the record is unfinished work on a table that is not resolved yet.
    pub open spec fn adoptable(self, entry: int) -> bool {
        &&& !self.entries()[entry].is_complete
        &&& driver::table_place(self.tables@, self.entries()[entry].table) >= self.tables@.len()
    }

    /// The first adoptable entry at or past a place, or the number of entries.
    pub open spec fn next_adoptable(self, from: int) -> int
        decreases self.entries().len() - from,
    {
        if from >= self.entries().len() {
            self.entries().len() as int
        } else if self.adoptable(from) {
            from
        } else {
            self.next_adoptable(from + 1)
        }
    }

    /// The table to resolve next: each configured one in order, then each that the record knows
    /// unfinished and the configuration does not. Of an abandoned run, none: it stays abandoned.
    pub open spec fn upcoming(self) -> Option<Seq<char>> {
        if self.was_stopped() {
            None
        } else if self.configured_seen < self.config.tables@.len() {
            Some(self.config.tables@[self.configured_seen as int]@)
        } else if self.next_adoptable(self.recorded_seen as int) < self.entries().len() {
            Some(self.entries()[self.next_adoptable(self.recorded_seen as int)].table)
        } else {
            None
        }
    }

    fn next_recorded(&self) -> (entry: Option<usize>)
        requires
            self.wf(),
        ensures
            match entry {
                Some(i) => i as int == self.next_adoptable(self.recorded_seen as int) && i
                    < self.entries().len() && self.resume is Some && i < usize::MAX
                    && self.adoptable(i as int),
                None => self.next_adoptable(self.recorded_seen as int) >= self.entries().len(),
            },
    {
        match &self.resume {
            Some(record) => {
                let mut i: usize = self.recorded_seen;
                while i < record.tables.len()
                    invariant
                        self.resume == Some(*record),
                        self.recorded_seen <= i <= record.tables@.len(),
                        self.next_adoptable(self.recorded_seen as int) == self.next_adoptable(
                            i as int,
                        ),
                    decreases record.tables.len() - i,
                {
                    proof {
                        assert(self.entries()[i as int] == record.tables@[i as int]@);
                    }
                    if !record.tables[i].is_complete {
                        if steps::find_table(&self.tables, record.tables[i].table.as_str()).is_none() {
                            return Some(i);
                        }
                    }
                    i = i + 1;
                }
                None
            },
            None => None,
        }
    }

    /// The table to resolve next; see [`DriverSetup::upcoming`].
    pub fn next_table(&self) -> (table: Option<String>)
        requires
            self.wf(),
        ensures
            text::text_option(table) == self.upcoming(),
    {
        let stopped = match &self.resume {
            Some(record) => record.stopped,
            None => false,
        };
        if stopped {
            return None;
        }
        if self.configured_seen < self.config.tables.len() {
            return Some(self.config.tables[self.configured_seen].clone());
        }
        match self.next_recorded() {
            Some(i) => {
                match &self.resume {
                    Some(record) => {
                        proof {
                            assert(self.entries()[i as int] == record.tables@[i as int]@);
                        }
                        Some(record.tables[i].table.clone())
                    },
                    None => None,
                }
            },
            None => None,
        }
    }

    /// Takes in what the catalog said of the upcoming table.
    ///
    /// A configured table must be described, must have a primary key, and must fit the cursor
    /// that the record holds for it; continuing from a cursor of another shape would skip rows.
    /// A table that only the record knows is dropped where it can no longer be described.
    /// Unfinished work goes on under the filter that the record holds, so that a restart does not
    /// change which rows a table is read for.
    pub fn table_described(&mut self, described: Result<SnapshotTable, Error>) -> (outcome: Result<
        (),
        Error,
    >)
        requires
            old(self).wf(),
            old(self).upcoming() is Some,
        ensures
            final(self).wf(),
            final(self).config == old(self).config,
            final(self).source_name == old(self).source_name,
            final(self).resume == old(self).resume,
            old(self).configured_seen < old(self).config.tables@.len() ==> ({
                let table_ref = old(self).config.tables@[old(self).configured_seen as int]@;
                &&& final(self).recorded_seen == old(self).recorded_seen
                &&& match described {
                    Err(error) => outcome == Err::<(), Error>(error) && *final(self) == *old(self),
                    Ok(spec) => {
                        let entry = recorded(old(self).resume, spec.key_text());
                        if spec.pk_columns@.len() == 0 {
                            outcome matches Err(e) && e is ConfigError && e.text() == keyless_text(
                                spec,
                            ) && *final(self) == *old(self)
                        } else if !cursor_fits(entry, spec) {
                            outcome matches Err(e) && e is CheckpointError && e.text()
                                == misfit_text(
                                spec.key_text(),
                                entry->0.pk_cursor->0.len(),
                                spec.pk_columns@.len(),
                            ) && *final(self) == *old(self)
                        } else {
                            &&& outcome is Ok
                            &&& final(self).configured_seen == old(self).configured_seen + 1
                            &&& final(self).tables@.len() == old(self).tables@.len() + 1
                            &&& final(self).tables@.drop_last() == old(self).tables@
                            &&& configured_as(
                                final(self).tables@.last().spec,
                                spec,
                                table_ref,
                                conditions::filters(old(self).config.table_conditions),
                                entry,
                            )
                            &&& takes_up(final(self).tables@.last(), entry)
                        }
                    },
                }
            }),
            old(self).configured_seen >= old(self).config.tables@.len() ==> ({
                let place = old(self).next_adoptable(old(self).recorded_seen as int);
                let entry = old(self).entries()[place];
                &&& outcome is Ok
                &&& final(self).configured_seen == old(self).configured_seen
                &&& final(self).recorded_seen == place + 1
                &&& if described matches Ok(spec) && spec.pk_columns@.len() > 0 {
                    &&& final(self).tables@.len() == old(self).tables@.len() + 1
                    &&& final(self).tables@.drop_last() == old(self).tables@
                    &&& adopted_as(final(self).tables@.last().spec, described->Ok_0, entry)
                    &&& takes_up(final(self).tables@.last(), Some(entry))
                } else {
                    final(self).tables == old(self).tables
                }
            }),
    {
        if self.configured_seen < self.config.tables.len() {
            let table_ref = self.config.tables[self.configured_seen].clone();
            let mut spec = match described {
                Ok(spec) => spec,
                Err(error) => {
                    return Err(error);
                },
            };
            if spec.pk_columns.len() == 0 {
                return Err(keyless(&spec));
            }
            let key = spec.key();
            let entry = match &self.resume {
                Some(record) => record.table(key.as_str()),
                None => None,
            };
            let mut pk_cursor: Option<Vec<serde_json::Value>> = None;
            let mut is_complete = false;
            let mut chunks_emitted: u32 = 0;
            let mut rows_emitted: u64 = 0;
            let mut condition: Option<String> = None;
            if let Some(entry) = entry {
                if let Some(cursor) = &entry.pk_cursor {
                    proof {
                        assert(json::jsons(cursor@).len() == cursor@.len());
                    }
                    if cursor.len() != spec.pk_columns.len() {
                        return Err(
                            Error::CheckpointError(
                                text::join3(
                                    text::join5(
                                        "incremental snapshot: persisted keyset cursor for '",
                                        key.as_str(),
                                        "' has ",
                                        text::decimal(cursor.len() as u64).as_str(),
                                        " value(s) but the table's primary key has ",
                                    ).as_str(),
                                    text::decimal(spec.pk_columns.len() as u64).as_str(),
                                    " column(s). The primary key changed since the checkpoint was written; restart the snapshot with a fresh checkpoint directory rather than resuming from an incompatible cursor",
                                ),
                            ),
                        );
                    }
                }
                pk_cursor = state::clone_cursor(&entry.pk_cursor);
                is_complete = entry.is_complete;
                chunks_emitted = entry.chunks_emitted;
                rows_emitted = entry.rows_emitted;
                if !entry.is_complete {
                    condition = text::clone_text_option(&entry.condition);
                }
            }
            if condition.is_none() {
                condition =
                conditions::lookup_condition(
                    &self.config.table_conditions,
                    table_ref.as_str(),
                    spec.schema.as_str(),
                    spec.name.as_str(),
                );
            }
            spec.condition = condition;
            self.configured_seen = self.configured_seen + 1;
            let ghost before = self.tables@;
            self.tables.push(
                TableProgress { spec, pk_cursor, is_complete, chunks_emitted, rows_emitted },
            );
            proof {
                assert(self.tables@.drop_last() =~= before);
                let last = self.tables@.last();
                assert(configured_as(
                    last.spec,
                    described->Ok_0,
                    table_ref@,
                    conditions::filters(self.config.table_conditions),
                    recorded(self.resume, described->Ok_0.key_text()),
                ));
                assert(takes_up(last, recorded(self.resume, described->Ok_0.key_text())));
            }
            return Ok(());
        }
        match self.next_recorded() {
            Some(i) => {
                match &self.resume {
                    Some(record) => {
                        let entry = &record.tables[i];
                        proof {
                            assert(self.entries()[i as int] == record.tables@[i as int]@);
                        }
                        if let Ok(found) = described {
                            let mut spec = found;
                            if spec.pk_columns.len() > 0 {
                                spec.condition = text::clone_text_option(&entry.condition);
                                let progress = TableProgress {
                                    spec,
                                    pk_cursor: state::clone_cursor(&entry.pk_cursor),
                                    is_complete: false,
                                    chunks_emitted: entry.chunks_emitted,
                                    rows_emitted: entry.rows_emitted,
                                };
                                let ghost before = self.tables@;
                                self.tables.push(progress);
                                proof {
                                    assert(self.tables@.drop_last() =~= before);
                                }
                            }
                        }
                    },
                    None => {},
                }
                self.recorded_seen = i + 1;
            },
            None => {},
        }
        Ok(())
    }
}

/// The snapshot's identity: the recorded one where there is one, else one made from the time.
pub open spec fn snapshot_identity(resume: Option<IncrementalSnapshotState>, now: u64) -> Seq<
    char,
> {
    match resume {
        Some(record) => if record.snapshot_id@.len() > 0 {
            record.snapshot_id@
        } else {
            "incremental-"@ + text::decimal_text(now as nat)
        },
        None => "incremental-"@ + text::decimal_text(now as nat),
    }
}

impl<P> IncrementalSnapshotDriver<P> {
    /// A driver over the resolved tables. Its identity, pause, stop and generation are those of
    /// the record, so that a restart continues the same snapshot.
    pub fn new(setup: DriverSetup, now: u64) -> (driver: Self)
        requires
            setup.wf(),
            setup.upcoming() is None,
        ensures
            driver.wf(),
            driver.tables == setup.tables,
            driver.phase == (if driver::first_incomplete(setup.tables@) < setup.tables@.len() {
                Phase::<P>::ChunkPrepare {
                    table_idx: driver::first_incomplete(setup.tables@) as usize,
                }
            } else {
                Phase::<P>::Done
            }),
            driver.chunk_size == (if setup.config.chunk_size == 0 {
                1
            } else {
                setup.config.chunk_size
            }),
            driver.table_conditions == setup.config.table_conditions,
            driver.source_name == setup.source_name,
            driver.snapshot_id@ == snapshot_identity(setup.resume, now),
            driver.events_emitted == 0,
            driver.paused == (setup.resume matches Some(record) && record.paused),
            driver.generation == (match setup.resume {
                Some(record) => record.generation,
                None => 0,
            }),
            driver.stopped == setup.was_stopped(),
            driver.deferred@.len() == 0,
    {
        let phase = match steps::find_incomplete(&setup.tables) {
            Some(table_idx) => Phase::ChunkPrepare { table_idx },
            None => Phase::Done,
        };
        let mut snapshot_id = text::join2("incremental-", text::decimal(now).as_str());
        let mut paused = false;
        let mut stopped = false;
        let mut generation: u32 = 0;
        if let Some(record) = setup.resume {
            proof {
                reveal_strlit("");
                if record.snapshot_id@.len() == 0 {
                    assert(record.snapshot_id@ =~= ""@);
                }
            }
            if !text::same_text(record.snapshot_id.as_str(), "") {
                snapshot_id = record.snapshot_id;
            }
            paused = record.paused;
            stopped = record.stopped;
            generation = record.generation;
        }
        IncrementalSnapshotDriver {
            tables: setup.tables,
            phase,
            chunk_size: if setup.config.chunk_size == 0 {
                1
            } else {
                setup.config.chunk_size
            },
            table_conditions: setup.config.table_conditions,
            source_name: setup.source_name,
            snapshot_id,
            events_emitted: 0,
            paused,
            generation,
            stopped,
            deferred: VecDeque::new(),
        }
    }
}

/// Whether what the catalog said of a requested table can be used: the table was described and
/// has a primary key.
pub open spec fn usable(described: Result<SnapshotTable, Error>) -> bool {
    described matches Ok(spec) && spec.pk_columns@.len() > 0
}

/// The place of the first description that cannot be used, or the number of descriptions.
pub open spec fn first_unusable(described: Seq<Result<SnapshotTable, Error>>) -> int
    decreases described.len(),
{
    if described.len() == 0 || !usable(described[0]) {
        0
    } else {
        1 + first_unusable(described.drop_first())
    }
}

/// Whether the specs are the requested tables as described, each with its filter: the request's
/// own where it has one for the table, else the configured one.
pub open spec fn request_resolved(
    specs: Seq<SnapshotTable>,
    described: Seq<Result<SnapshotTable, Error>>,
    refs: Seq<Seq<char>>,
    asked: Map<Seq<char>, Seq<char>>,
    configured: Map<Seq<char>, Seq<char>>,
) -> bool {
    &&& specs.len() == described.len()
    &&& forall|i: int|
        0 <= i < specs.len() ==> entry_resolved(
            #[trigger] specs[i],
            described[i],
            refs[i],
            asked,
            configured,
        )
}

/// Whether a spec is the requested table as described, with its filter.
pub open spec fn entry_resolved(
    spec: SnapshotTable,
    described: Result<SnapshotTable, Error>,
    table_ref: Seq<char>,
    asked: Map<Seq<char>, Seq<char>>,
    configured: Map<Seq<char>, Seq<char>>,
) -> bool {
    described matches Ok(found) && spec.same_table(found) && request_filter(
        spec,
        found,
        table_ref,
        asked,
        configured,
    )
}

/// Whether a spec has the request's filter for its table, or where that has none the configured
/// one.
pub open spec fn request_filter(
    spec: SnapshotTable,
    described: SnapshotTable,
    table_ref: Seq<char>,
    asked: Map<Seq<char>, Seq<char>>,
    configured: Map<Seq<char>, Seq<char>>,
) -> bool {
    let none_asked = conditions::filter_for(
        asked,
        table_ref,
        described.schema@,
        described.name@,
        None,
    );
    if none_asked {
        conditions::filter_for(
            configured,
            table_ref,
            described.schema@,
            described.name@,
            text::text_option(spec.condition),
        )
    } else {
        spec.condition is Some && conditions::filter_for(
            asked,
            table_ref,
            described.schema@,
            described.name@,
            text::text_option(spec.condition),
        )
    }
}

fn resolve(
    request: &SnapshotRequest,
    configured: &ahash::AHashMap<String, String>,
    described: Vec<Result<SnapshotTable, Error>>,
) -> (specs: Result<Vec<SnapshotTable>, Error>)
    requires
        described@.len() <= request.tables@.len(),
    ensures
        match specs {
            Ok(specs) => first_unusable(described@) == described@.len() && request_resolved(
                specs@,
                described@,
                text::texts(request.tables@),
                conditions::filters(request.conditions),
                conditions::filters(*configured),
            ),
            Err(error) => ({
                let bad = first_unusable(described@);
                &&& bad < described@.len()
                &&& match described@[bad] {
                    Err(theirs) => error == theirs,
                    Ok(spec) => error is ConfigError && error.text() == keyless_text(spec),
                }
            }),
        },
{
    let ghost all = described@;
    let ghost refs = text::texts(request.tables@);
    let mut specs: Vec<SnapshotTable> = Vec::new();
    proof {
        assert(all.skip(0) =~= all);
    }
    for one in iter: described
        invariant
            iter.seq() == all,
            specs@.len() == iter.index(),
            all.len() <= request.tables@.len(),
            refs == text::texts(request.tables@),
            first_unusable(all) == iter.index() + first_unusable(all.skip(iter.index() as int)),
            request_resolved(
                specs@,
                all.take(iter.index() as int),
                refs,
                conditions::filters(request.conditions),
                conditions::filters(*configured),
            ),
    {
        let ghost n = iter.index() as int;
        let ghost before = specs@;
        proof {
            assert(all.skip(n)[0] == one);
            assert(all.skip(n).drop_first() =~= all.skip(n + 1));
        }
        match one {
            Err(error) => {
                return Err(error);
            },
            Ok(found) => {
                let mut spec = found;
                if spec.pk_columns.len() == 0 {
                    return Err(keyless(&spec));
                }
                let table_ref = request.tables[specs.len()].as_str();
                proof {
                    assert(refs[n] == table_ref@);
                }
                let asked = conditions::lookup_condition(
                    &request.conditions,
                    table_ref,
                    spec.schema.as_str(),
                    spec.name.as_str(),
                );
                if asked.is_some() {
                    spec.condition = asked;
                } else {
                    spec.condition =
                    conditions::lookup_condition(
                        configured,
                        table_ref,
                        spec.schema.as_str(),
                        spec.name.as_str(),
                    );
                }
                proof {
                    assert(request_filter(
                        spec,
                        all[n]->Ok_0,
                        refs[n],
                        conditions::filters(request.conditions),
                        conditions::filters(*configured),
                    ));
                }
                specs.push(spec);
                proof {
                    assert(specs@.len() == n + 1);
                    assert forall|i: int| 0 <= i < specs@.len() implies entry_resolved(
                        #[trigger] specs@[i],
                        all.take(n + 1)[i],
                        refs[i],
                        conditions::filters(request.conditions),
                        conditions::filters(*configured),
                    ) by {
                        if i < n {
                            assert(specs@[i] == before[i]);
                            assert(all.take(n)[i] == all.take(n + 1)[i]);
                        }
                    }
                    assert(request_resolved(
                        specs@,
                        all.take(n + 1),
                        refs,
                        conditions::filters(request.conditions),
                        conditions::filters(*configured),
                    ));
                }
            },
        }
    }
    proof {
        assert(all.take(all.len() as int) =~= all);
        assert(all.skip(all.len() as int) =~= Seq::<Result<SnapshotTable, Error>>::empty());
    }
    Ok(specs)
}

impl<P> IncrementalSnapshotDriver<P> {
    /// Adds resolved tables; gives back how many start work.
    fn add_tables(&mut self, specs: Vec<SnapshotTable>) -> (count: usize)
        requires
            old(self).wf(),
        ensures
            final(self).wf(),
            final(self).tables@ == driver::enqueued_all(old(self).tables@, specs@),
            count as nat == driver::started(old(self).tables@, specs@),
            final(self).same_settings(*old(self)),
            final(self).phase == old(self).phase,
            final(self).deferred == old(self).deferred,
    {
        let ghost start = self.tables@;
        let ghost all = specs@;
        let ghost before = *self;
        let mut count: usize = 0;
        let total = specs.len();
        for spec in iter: specs
            invariant
                iter.seq() == all,
                before.wf(),
                self.tables@.len() >= start.len(),
                start == before.tables@,
                self.tables@ == driver::enqueued_all(start, all.take(iter.index() as int)),
                count as nat == driver::started(start, all.take(iter.index() as int)),
                count <= iter.index(),
                all.len() == total,
                self.same_settings(before),
                self.phase == before.phase,
                self.deferred == before.deferred,
        {
            let ghost n = iter.index() as int;
            proof {
                assert(all.take(n + 1).drop_last() =~= all.take(n));
                assert(all.take(n + 1).last() == spec);
            }
            let key = spec.key();
            match steps::find_table(&self.tables, key.as_str()) {
                Some(place) => {
                    if self.tables[place].is_complete {
                        self.tables.set(
                            place,
                            TableProgress {
                                spec,
                                pk_cursor: None,
                                is_complete: false,
                                chunks_emitted: 0,
                                rows_emitted: 0,
                            },
                        );
                        count = count + 1;
                    }
                },
                None => {
                    self.tables.push(
                        TableProgress {
                            spec,
                            pk_cursor: None,
                            is_complete: false,
                            chunks_emitted: 0,
                            rows_emitted: 0,
                        },
                    );
                    count = count + 1;
                },
            }
        }
        proof {
            assert(all.take(all.len() as int) =~= all);
        }
        count
    }

    /// Adds tables to a running snapshot, as the catalog described them in request order; gives
    /// back how many start work. The caller stops describing at the first failure and hands that
    /// in as the last description.
    ///
    /// A table that is not tracked is read from the start, a complete one is read again, and one
    /// in progress is left alone. A description that cannot be used fails the whole request and
    /// changes nothing. A request that starts work begins a new generation and ends a stop.
    pub fn enqueue_tables(
        &mut self,
        request: &SnapshotRequest,
        described: Vec<Result<SnapshotTable, Error>>,
    ) -> (outcome: Result<usize, Error>)
        requires
            old(self).wf(),
            described@.len() <= request.tables@.len(),
            described@.len() < request.tables@.len() ==> described@.len() > 0
                && described@.last() is Err,
        ensures
            final(self).wf(),
            match outcome {
                Err(error) => {
                    let bad = first_unusable(described@);
                    &&& bad < described@.len()
                    &&& match described@[bad] {
                        Err(theirs) => error == theirs,
                        Ok(spec) => error is ConfigError && error.text() == keyless_text(spec),
                    }
                    &&& *final(self) == *old(self)
                },
                Ok(count) => {
                    &&& first_unusable(described@) == described@.len()
                    &&& exists|specs: Seq<SnapshotTable>| #[trigger]
                        request_resolved(
                            specs,
                            described@,
                            text::texts(request.tables@),
                            conditions::filters(request.conditions),
                            conditions::filters(old(self).table_conditions),
                        ) && final(self).tables@ == driver::enqueued_all(old(self).tables@, specs)
                            && count as nat == driver::started(old(self).tables@, specs)
                    &&& final(self).deferred == old(self).deferred
                    &&& if count > 0 {
                        &&& final(self).generation == (if old(self).generation == u32::MAX {
                            u32::MAX
                        } else {
                            (old(self).generation + 1) as u32
                        })
                        &&& !final(self).stopped
                        &&& (IncrementalSnapshotDriver {
                            generation: old(self).generation,
                            stopped: old(self).stopped,
                            ..*final(self)
                        }).same_settings(*old(self))
                        &&& final(self).phase == (if old(self).phase is Done
                            && driver::first_incomplete(final(self).tables@)
                            < final(self).tables@.len() {
                            Phase::<P>::ChunkPrepare {
                                table_idx: driver::first_incomplete(
                                    final(self).tables@,
                                ) as usize,
                            }
                        } else {
                            old(self).phase
                        })
                    } else {
                        &&& final(self).same_settings(*old(self))
                        &&& final(self).phase == old(self).phase
                    }
                },
            },
    {
        let specs = match resolve(request, &self.table_conditions, described) {
            Ok(specs) => specs,
            Err(error) => {
                return Err(error);
            },
        };
        let ghost resolved = specs@;
        let count = self.add_tables(specs);
        proof {
            assert(request_resolved(
                resolved,
                described@,
                text::texts(request.tables@),
                conditions::filters(request.conditions),
                conditions::filters(old(self).table_conditions),
            ));
        }
        if count > 0 {
            self.generation = self.generation.saturating_add(1);
            self.stopped = false;
            if matches!(self.phase, Phase::Done) {
                if let Some(table_idx) = self.next_incomplete_table() {
                    self.phase = Phase::ChunkPrepare { table_idx };
                }
            }
        }
        Ok(count)
    }
}

} // verus!
