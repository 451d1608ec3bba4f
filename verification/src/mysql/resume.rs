//! The ends of a MySQL bulk snapshot: what it reads from the server, what it leaves in a
//! checkpoint, how it goes on from one, and how it finishes.
use vstd::prelude::*;
use crate::error::Error;
use crate::identifier;
use crate::json;
use crate::json::Json;
use crate::mysql::parser;
use crate::mysql::snapshot;
use crate::mysql::snapshot::{
    MysqlSnapshotHandle, SnapView, TableSnapshot, TableSnapshotView, TableView,
};
use crate::text;

verus! {

// Live rows

/// The statement that reads a table's next rows, and what goes into its places.
pub struct LiveQuery {
    pub statement: String,
    /// The key values to read past; `None` at the start of the table.
    pub cursor: Option<Vec<serde_json::Value>>,
    pub limit: usize,
}

/// Names in back quotes.
pub open spec fn quoted_names(names: Seq<Seq<char>>) -> Seq<Seq<char>> {
    names.map_values(|name: Seq<char>| identifier::quoted(name, '`'))
}

/// As many parameter places as there are key columns.
pub open spec fn places(count: nat) -> Seq<Seq<char>> {
    Seq::new(count, |i: int| "?"@)
}

/// The statement that reads rows in key order, past a cursor where there is one.
pub open spec fn live_statement(
    table_name: Seq<char>,
    keys: Seq<Seq<char>>,
    past_cursor: bool,
) -> Seq<char> {
    let columns = text::joined(quoted_names(keys), ", "@);
    let condition = if past_cursor {
        "WHERE ("@ + columns + ") > ("@ + text::joined(places(keys.len()), ", "@) + ")"@
    } else {
        ""@
    };
    "SELECT * FROM "@ + table_name + " "@ + condition + " ORDER BY "@ + columns + " LIMIT ?"@
}

fn quote_names(names: &Vec<String>) -> (quoted: Vec<String>)
    ensures
        text::texts(quoted@) == quoted_names(text::texts(names@)),
{
    let ghost whole = quoted_names(text::texts(names@));
    let mut quoted: Vec<String> = Vec::new();
    let mut i: usize = 0;
    while i < names.len()
        invariant
            i <= names@.len(),
            whole == quoted_names(text::texts(names@)),
            text::texts(quoted@) == whole.take(i as int),
        decreases names.len() - i,
    {
        let one = parser::quoted_mysql_identifier(names[i].as_str());
        let ghost before = text::texts(quoted@);
        let ghost seen = one@;
        quoted.push(one);
        proof {
            assert(text::texts(names@)[i as int] == names@[i as int]@);
            assert(text::texts(quoted@) =~= before.push(seen));
            assert(whole.take(i + 1) =~= whole.take(i as int).push(seen));
        }
        i = i + 1;
    }
    proof {
        assert(whole.take(i as int) =~= whole);
    }
    quoted
}

fn list_places(count: usize) -> (list: Vec<String>)
    ensures
        text::texts(list@) == places(count as nat),
{
    let mut list: Vec<String> = Vec::new();
    let mut i: usize = 0;
    while i < count
        invariant
            i <= count,
            text::texts(list@) == places(i as nat),
        decreases count - i,
    {
        let ghost before = text::texts(list@);
        let one = "?".to_owned();
        let ghost seen = one@;
        list.push(one);
        proof {
            assert(text::texts(list@) =~= before.push(seen));
            assert(places((i + 1) as nat) =~= places(i as nat).push(seen));
        }
        i = i + 1;
    }
    list
}

impl MysqlSnapshotHandle {
    /// The query for the rows that a chunk asked for. A table without a primary key cannot be
    /// read in chunks, and a cursor must hold one value for each key column.
    pub fn live_query(&self, table_index: usize, cursor: Option<&str>, limit: usize) -> (query:
        Result<LiveQuery, Error>)
        requires
            table_index < self.tables@.len(),
        ensures
            ({
                let table = self.tables@[table_index as int]@;
                match query {
                    Ok(query) => {
                        &&& table.keys.len() > 0
                        &&& identifier::table_reference(table.snapshot.table, '`') matches Some(
                            name,
                        ) && query.statement@ == live_statement(
                            parser::qualified_name(name.0, name.1),
                            table.keys,
                            cursor is Some,
                        )
                        &&& query.limit == limit
                        &&& match (cursor, query.cursor) {
                            (Some(source), Some(values)) => json::array_in(source@) == Ok::<
                                Seq<Json>,
                                Seq<char>,
                            >(json::jsons(values@)) && values@.len() == table.keys.len(),
                            (None, None) => true,
                            _ => false,
                        }
                    },
                    Err(Error::SourceError(message)) => table.keys.len() == 0 && message@
                        == "mysql snapshot requires a PRIMARY KEY for keyset pagination: "@
                        + table.snapshot.table,
                    Err(Error::ConfigError(message)) => table.keys.len() > 0
                        && identifier::table_reference(table.snapshot.table, '`') is None
                        && message@ == parser::bad_reference_text(table.snapshot.table),
                    Err(Error::CheckpointError(message)) => table.keys.len() > 0
                        && identifier::table_reference(table.snapshot.table, '`') is Some
                        && match cursor {
                        Some(source) => match json::array_in(source@) {
                            Ok(values) => values.len() != table.keys.len() && message@
                                == "mysql snapshot cursor width mismatch for table '"@
                                + table.snapshot.table + "'"@,
                            Err(reason) => message@
                                == "mysql snapshot cursor decode failed for table '"@
                                + table.snapshot.table + "': "@ + reason,
                        },
                        None => false,
                    },
                    Err(_) => false,
                }
            }),
    {
        let table = &self.tables[table_index];
        let name = table.snapshot.table.as_str();
        let width = table.primary_key_columns.len();
        proof {
            assert(table@.keys.len() == width);
        }
        if width == 0 {
            return Err(
                Error::SourceError(
                    text::join2(
                        "mysql snapshot requires a PRIMARY KEY for keyset pagination: ",
                        name,
                    ),
                ),
            );
        }
        let table_name = match parser::mysql_qualified_table_name_from_reference(name) {
            Ok(table_name) => table_name,
            Err(error) => {
                return Err(error);
            },
        };
        let columns = text::join(&quote_names(&table.primary_key_columns), ", ");
        let values = match cursor {
            None => None,
            Some(source) => match json::parse_array(source) {
                Ok(values) => {
                    if values.len() != width {
                        return Err(
                            Error::CheckpointError(
                                text::join3(
                                    "mysql snapshot cursor width mismatch for table '",
                                    name,
                                    "'",
                                ),
                            ),
                        );
                    }
                    Some(values)
                },
                Err(reason) => {
                    return Err(
                        Error::CheckpointError(
                            text::join2(
                                text::join3(
                                    "mysql snapshot cursor decode failed for table '",
                                    name,
                                    "': ",
                                ).as_str(),
                                reason.as_str(),
                            ),
                        ),
                    );
                },
            },
        };
        let mut statement = "SELECT * FROM ".to_owned();
        statement.append(table_name.as_str());
        statement.append(" ");
        if values.is_some() {
            let list = text::join(&list_places(width), ", ");
            statement.append(
                text::join5("WHERE (", columns.as_str(), ") > (", list.as_str(), ")").as_str(),
            );
        } else {
            statement.append("");
        }
        statement.append(" ORDER BY ");
        statement.append(columns.as_str());
        statement.append(" LIMIT ?");
        Ok(LiveQuery { statement, cursor: values, limit })
    }
}

/// The first place of a name in a list.
pub open spec fn first_place(list: Seq<Seq<char>>, name: Seq<char>, place: int) -> bool {
    &&& 0 <= place < list.len()
    &&& list[place] == name
    &&& forall|k: int| 0 <= k < place ==> #[trigger] list[k] != name
}

/// What is told of a row without a key column.
pub open spec fn missing_key_text(column: Seq<char>, table: Seq<char>) -> Seq<char> {
    "mysql snapshot primary key column '"@ + column + "' missing from row for table '"@ + table
        + "'"@
}

impl MysqlSnapshotHandle {
    /// Where a row's columns hold its key, in key order. A row without a key column cannot be read
    /// past.
    pub fn key_places(&self, table_index: usize, columns: &Vec<String>) -> (places: Result<
        Vec<usize>,
        Error,
    >)
        requires
            table_index < self.tables@.len(),
        ensures
            ({
                let keys = self.tables@[table_index as int]@.keys;
                let names = text::texts(columns@);
                match places {
                    Ok(places) => places@.len() == keys.len() && forall|i: int|
                        0 <= i < keys.len() ==> first_place(
                            names,
                            keys[i],
                            #[trigger] places@[i] as int,
                        ),
                    Err(error) => error is SerializationError && exists|i: int|
                        0 <= i < keys.len() && !names.contains(#[trigger] keys[i]) && error.text()
                            == missing_key_text(
                            keys[i],
                            self.tables@[table_index as int]@.snapshot.table,
                        ) && forall|k: int| 0 <= k < i ==> names.contains(#[trigger] keys[k]),
                }
            }),
    {
        let table = &self.tables[table_index];
        let ghost keys = table@.keys;
        let ghost names = text::texts(columns@);
        let mut places: Vec<usize> = Vec::new();
        let mut i: usize = 0;
        while i < table.primary_key_columns.len()
            invariant
                i <= table.primary_key_columns@.len(),
                table_index < self.tables@.len(),
                *table == self.tables@[table_index as int],
                keys == self.tables@[table_index as int]@.keys,
                keys == text::texts(table.primary_key_columns@),
                names == text::texts(columns@),
                places@.len() == i,
                forall|k: int|
                    0 <= k < i ==> first_place(names, keys[k], #[trigger] places@[k] as int),
            decreases table.primary_key_columns.len() - i,
        {
            let size = columns.len();
            let mut place: usize = 0;
            proof {
                assert(keys[i as int] == table.primary_key_columns@[i as int]@);
            }
            while place < size && !text::same_text(
                columns[place].as_str(),
                table.primary_key_columns[i].as_str(),
            )
                invariant
                    place <= size,
                    size == columns@.len(),
                    names == text::texts(columns@),
                    i < table.primary_key_columns@.len(),
                    keys == text::texts(table.primary_key_columns@),
                    keys[i as int] == table.primary_key_columns@[i as int]@,
                    forall|k: int| 0 <= k < place ==> #[trigger] names[k] != keys[i as int],
                decreases size - place,
            {
                proof {
                    assert(names[place as int] == columns@[place as int]@);
                }
                place = place + 1;
            }
            if place == size {
                proof {
                    assert(!names.contains(keys[i as int]));
                    assert forall|k: int| 0 <= k < i implies names.contains(#[trigger] keys[k]) by {
                        assert(first_place(names, keys[k], places@[k] as int));
                    }
                }
                return Err(
                    Error::SerializationError(
                        text::join5(
                            "mysql snapshot primary key column '",
                            table.primary_key_columns[i].as_str(),
                            "' missing from row for table '",
                            table.snapshot.table.as_str(),
                            "'",
                        ),
                    ),
                );
            }
            proof {
                assert(names[place as int] == columns@[place as int]@);
            }
            places.push(place);
            i = i + 1;
        }
        Ok(places)
    }
}

// Checkpoints

/// What a checkpoint keeps of a bulk snapshot.
#[derive(Debug, PartialEq, Eq)]
pub struct SnapshotCheckpointState {
    pub snapshot_id: String,
    pub snapshot_start_ts: u64,
    pub binlog_file: String,
    pub binlog_pos: u32,
    pub gtid: String,
    pub current_table: usize,
    pub next_chunk_index: u32,
    pub tables: Vec<TableSnapshot>,
}

/// What a [`SnapshotCheckpointState`] holds.
pub struct CheckpointView {
    pub snapshot_id: Seq<char>,
    pub snapshot_start_ts: u64,
    pub file: Seq<char>,
    pub position: u32,
    pub gtid: Seq<char>,
    pub current: nat,
    pub chunk_index: u32,
    pub tables: Seq<TableSnapshotView>,
}

impl View for SnapshotCheckpointState {
    type V = CheckpointView;

    open spec fn view(&self) -> CheckpointView {
        CheckpointView {
            snapshot_id: self.snapshot_id@,
            snapshot_start_ts: self.snapshot_start_ts,
            file: self.binlog_file@,
            position: self.binlog_pos,
            gtid: self.gtid@,
            current: self.current_table as nat,
            chunk_index: self.next_chunk_index,
            tables: snapshot::snapshot_views(self.tables@),
        }
    }
}

/// How many rows some tables have processed.
pub open spec fn processed(tables: Seq<TableSnapshotView>) -> nat
    decreases tables.len(),
{
    if tables.len() == 0 {
        0
    } else {
        processed(tables.drop_last()) + tables.last().rows_processed as nat
    }
}

/// How many rows some tables held when the snapshot began.
pub open spec fn expected(tables: Seq<TableSnapshotView>) -> nat
    decreases tables.len(),
{
    if tables.len() == 0 {
        0
    } else {
        expected(tables.drop_last()) + tables.last().total_rows as nat
    }
}

/// Whether a table has the rows that its saved progress speaks of.
pub open spec fn fits(table: TableView, saved: TableSnapshotView) -> bool {
    table.live || saved.rows_processed <= table.rows.len()
}

/// Whether a snapshot can go on from a checkpoint.
pub open spec fn resumable(tables: Seq<TableView>, saved: Seq<TableSnapshotView>) -> bool {
    &&& tables.len() == saved.len()
    &&& forall|i: int| 0 <= i < tables.len() ==> fits(#[trigger] tables[i], saved[i])
}

/// A table with its saved progress.
pub open spec fn resumed_table(table: TableView, saved: TableSnapshotView) -> TableView {
    TableView {
        snapshot: saved,
        next_row: if table.live {
            0
        } else {
            saved.rows_processed as int
        },
        ..table
    }
}

/// A snapshot with its saved progress.
pub open spec fn resumed(state: SnapView, saved: CheckpointView) -> SnapView {
    SnapView {
        tables: Seq::new(
            state.tables.len(),
            |i: int| resumed_table(state.tables[i], saved.tables[i]),
        ),
        current: saved.current,
        chunk_index: saved.chunk_index,
        emitted: snapshot::counted(0, processed(saved.tables) as int),
    }
}

fn clone_snapshots(tables: &Vec<TableSnapshot>) -> (copy: Vec<TableSnapshot>)
    ensures
        snapshot::snapshot_views(copy@) == snapshot::snapshot_views(tables@),
{
    let ghost whole = snapshot::snapshot_views(tables@);
    let mut copy: Vec<TableSnapshot> = Vec::new();
    let mut i: usize = 0;
    while i < tables.len()
        invariant
            i <= tables@.len(),
            whole == snapshot::snapshot_views(tables@),
            snapshot::snapshot_views(copy@) == whole.take(i as int),
        decreases tables.len() - i,
    {
        let one = tables[i].clone();
        let ghost before = snapshot::snapshot_views(copy@);
        let ghost seen = one@;
        copy.push(one);
        proof {
            assert(snapshot::snapshot_views(copy@) =~= before.push(seen));
            assert(whole.take(i + 1) =~= whole.take(i as int).push(seen));
        }
        i = i + 1;
    }
    proof {
        assert(whole.take(i as int) =~= whole);
    }
    copy
}

/// The message for a table whose saved progress does not fit its rows.
pub open spec fn misfit_message(saved: TableSnapshotView) -> Seq<char> {
    if saved.rows_processed > usize::MAX {
        "rows_processed does not fit into usize for table "@ + saved.table
    } else {
        "rows_processed exceeds available rows for table "@ + saved.table
    }
}

impl MysqlSnapshotHandle {
    /// What a checkpoint keeps of this snapshot.
    pub fn checkpoint_state(&self) -> (state: SnapshotCheckpointState)
        ensures
            state@ == (CheckpointView {
                snapshot_id: self.snapshot.snapshot_id@,
                snapshot_start_ts: self.snapshot.snapshot_start_ts,
                file: self.snapshot.binlog_file@,
                position: self.snapshot.binlog_pos,
                gtid: self.snapshot.gtid@,
                current: self.current_table as nat,
                chunk_index: self.next_chunk_index,
                tables: snapshot::snapshot_views(self.snapshot.tables@),
            }),
    {
        SnapshotCheckpointState {
            snapshot_id: self.snapshot.snapshot_id.clone(),
            snapshot_start_ts: self.snapshot.snapshot_start_ts,
            binlog_file: self.snapshot.binlog_file.clone(),
            binlog_pos: self.snapshot.binlog_pos,
            gtid: self.snapshot.gtid.clone(),
            current_table: self.current_table,
            next_chunk_index: self.next_chunk_index,
            tables: clone_snapshots(&self.snapshot.tables),
        }
    }

    /// The source type that a checkpoint of this snapshot is kept under.
    pub fn checkpoint_source(&self) -> (source: String)
        ensures
            source@ == self.source_name@ + "_snapshot"@,
    {
        text::join2(self.source_name.as_str(), "_snapshot")
    }

    /// Goes on from a checkpoint. There must be as many tables as the checkpoint has, and each takes
    /// the record at its place, whatever its name; a table that is not read live must have the rows
    /// that its progress speaks of.
    pub fn resume_from_checkpoint(self, saved: SnapshotCheckpointState) -> (handle: Result<
        Self,
        Error,
    >)
        ensures
            match handle {
                Ok(handle) => {
                    &&& resumable(self.progress().tables, saved@.tables)
                    &&& handle.progress() == resumed(self.progress(), saved@)
                    &&& handle.wf()
                    &&& handle.settings() == (snapshot::SnapSettings {
                        source_name: self.source_name@,
                        snapshot_id: saved@.snapshot_id,
                        file: saved@.file,
                        position: saved@.position,
                    })
                    &&& handle.snapshot.gtid@ == saved@.gtid
                    &&& handle.snapshot.snapshot_start_ts == saved@.snapshot_start_ts
                    &&& handle.transaction_open == self.transaction_open
                    &&& snapshot::snapshot_views(handle.snapshot.tables@) == saved@.tables
                },
                Err(Error::CheckpointError(message)) => {
                    let tables = self.progress().tables;
                    ||| tables.len() != saved@.tables.len() && message@
                        == "mysql snapshot checkpoint table count does not match snapshot handle"@
                    ||| tables.len() == saved@.tables.len() && exists|i: int|
                        0 <= i < tables.len() && !fits(#[trigger] tables[i], saved@.tables[i])
                            && message@ == misfit_message(saved@.tables[i]) && forall|k: int|
                            0 <= k < i ==> fits(#[trigger] tables[k], saved@.tables[k])
                },
                Err(_) => false,
            },
    {
        let mut handle = self;
        let ghost start = handle.progress();
        let ghost wanted = saved@;
        if saved.tables.len() != handle.tables.len() {
            return Err(
                Error::CheckpointError(
                    "mysql snapshot checkpoint table count does not match snapshot handle".to_owned(),
                ),
            );
        }
        handle.snapshot.snapshot_id = saved.snapshot_id;
        handle.snapshot.snapshot_start_ts = saved.snapshot_start_ts;
        handle.snapshot.binlog_file = saved.binlog_file;
        handle.snapshot.binlog_pos = saved.binlog_pos;
        handle.snapshot.gtid = saved.gtid;
        handle.current_table = saved.current_table;
        handle.next_chunk_index = saved.next_chunk_index;
        let mut emitted: u64 = 0;
        let ghost goal = resumed(start, wanted);
        let ghost fixed = handle;
        let mut i: usize = 0;
        proof {
            assert(wanted.tables.take(0) =~= Seq::empty());
        }
        while i < handle.tables.len()
            invariant
                i <= handle.tables@.len(),
                handle.tables@.len() == start.tables.len(),
                start.tables.len() == wanted.tables.len(),
                wanted.tables == snapshot::snapshot_views(saved.tables@),
                start == self.progress(),
                wanted == saved@,
                goal == resumed(start, wanted),
                handle.source_name == self.source_name,
                handle.transaction_open == self.transaction_open,
                handle.snapshot == fixed.snapshot,
                handle.current_table == fixed.current_table,
                handle.next_chunk_index == fixed.next_chunk_index,
                emitted == snapshot::counted(0, processed(wanted.tables.take(i as int)) as int),
                forall|k: int|
                    0 <= k < i ==> fits(#[trigger] start.tables[k], wanted.tables[k])
                        && handle.tables@[k]@ == goal.tables[k] && handle.tables@[k].next_row
                        <= handle.tables@[k].rows@.len(),
                forall|k: int|
                    i <= k < start.tables.len() ==> #[trigger] handle.tables@[k]@
                        == start.tables[k],
            decreases handle.tables.len() - i,
        {
            let ghost before = handle.tables@;
            let ghost p = i as int;
            proof {
                assert(before[p]@ == start.tables[p]);
                assert(wanted.tables[p] == saved.tables@[p]@);
                assert(start.tables[p].rows.len() == before[p].rows@.len());
                assert(wanted.tables.take(p + 1).drop_last() =~= wanted.tables.take(p));
            }
            let rows_processed = saved.tables[i].rows_processed;
            let size = handle.tables[i].rows.len();
            let mut next: usize = 0;
            if !handle.tables[i].live_query {
                if rows_processed > usize::MAX as u64 {
                    return Err(
                        Error::CheckpointError(
                            text::join2(
                                "rows_processed does not fit into usize for table ",
                                saved.tables[i].table.as_str(),
                            ),
                        ),
                    );
                }
                if rows_processed as usize > size {
                    return Err(
                        Error::CheckpointError(
                            text::join2(
                                "rows_processed exceeds available rows for table ",
                                saved.tables[i].table.as_str(),
                            ),
                        ),
                    );
                }
                next = rows_processed as usize;
            }
            let kept = saved.tables[i].clone();
            let one = &mut handle.tables[i];
            one.snapshot = kept;
            one.next_row = next;
            emitted = emitted.saturating_add(rows_processed);
            i = i + 1;
        }
        handle.emitted_rows = emitted;
        proof {
            assert(wanted.tables.take(i as int) =~= wanted.tables);
            assert(handle.progress().tables =~= goal.tables);
            assert forall|k: int| 0 <= k < handle.tables@.len() implies (
            #[trigger] handle.tables@[k]).next_row <= handle.tables@[k].rows@.len() by {
                assert(fits(start.tables[k], wanted.tables[k]));
            }
        }
        let ghost synced = handle.progress().tables.map_values(
            |table: TableView| table.snapshot,
        );
        handle.sync_snapshot_tables();
        proof {
            assert(synced =~= wanted.tables);
        }
        Ok(handle)
    }

    /// How many rows the tables held when the snapshot began.
    pub fn total_expected_rows(&self) -> (total: u128)
        ensures
            total as nat == expected(
                self.progress().tables.map_values(|table: TableView| table.snapshot),
            ),
    {
        let ghost views = self.progress().tables.map_values(|table: TableView| table.snapshot);
        let mut total: u128 = 0;
        let mut i: usize = 0;
        proof {
            assert(views.take(0) =~= Seq::empty());
        }
        while i < self.tables.len()
            invariant
                i <= self.tables@.len(),
                views == self.progress().tables.map_values(|table: TableView| table.snapshot),
                total as nat == expected(views.take(i as int)),
                total <= i * 0xffff_ffff_ffff_ffff,
            decreases self.tables.len() - i,
        {
            proof {
                assert(self.progress().tables[i as int] == self.tables@[i as int]@);
                assert(views.take(i + 1).drop_last() =~= views.take(i as int));
                assert(i * 0xffff_ffff_ffff_ffff + 0xffff_ffff_ffff_ffff <= u128::MAX)
                    by (nonlinear_arith)
                    requires
                        i < usize::MAX,
                        usize::MAX <= 0xffff_ffff_ffff_ffff,
                ;
            }
            total = total + self.tables[i].snapshot.total_rows as u128;
            i = i + 1;
        }
        proof {
            assert(views.take(i as int) =~= views);
        }
        total
    }

    /// How many rows the tables have processed.
    pub fn total_processed_rows(&self) -> (total: u128)
        ensures
            total as nat == processed(
                self.progress().tables.map_values(|table: TableView| table.snapshot),
            ),
    {
        let ghost views = self.progress().tables.map_values(|table: TableView| table.snapshot);
        let mut total: u128 = 0;
        let mut i: usize = 0;
        proof {
            assert(views.take(0) =~= Seq::empty());
        }
        while i < self.tables.len()
            invariant
                i <= self.tables@.len(),
                views == self.progress().tables.map_values(|table: TableView| table.snapshot),
                total as nat == processed(views.take(i as int)),
                total <= i * 0xffff_ffff_ffff_ffff,
            decreases self.tables.len() - i,
        {
            proof {
                assert(self.progress().tables[i as int] == self.tables@[i as int]@);
                assert(views.take(i + 1).drop_last() =~= views.take(i as int));
                assert(i * 0xffff_ffff_ffff_ffff + 0xffff_ffff_ffff_ffff <= u128::MAX)
                    by (nonlinear_arith)
                    requires
                        i < usize::MAX,
                        usize::MAX <= 0xffff_ffff_ffff_ffff,
                ;
            }
            total = total + self.tables[i].snapshot.rows_processed as u128;
            i = i + 1;
        }
        proof {
            assert(views.take(i as int) =~= views);
        }
        total
    }

    /// Checks that every row was emitted, once: the tables' counts add up to the rows emitted and
    /// to the rows expected. Brings the durable record up to date.
    pub fn check_finished(&mut self) -> (checked: Result<(), Error>)
        requires
            old(self).wf(),
        ensures
            final(self).wf(),
            final(self).progress() == old(self).progress(),
            final(self).settings() == old(self).settings(),
            final(self).transaction_open == old(self).transaction_open,
            final(self).recorded(*old(self)),
            ({
                let tables = old(self).progress().tables.map_values(
                    |table: TableView| table.snapshot,
                );
                match checked {
                    Ok(_) => processed(tables) == old(self).emitted_rows && expected(tables)
                        == processed(tables),
                    Err(error) => {
                        &&& error is SourceError
                        &&& if processed(tables) != old(self).emitted_rows {
                            error.text()
                                == "mysql snapshot consistency check failed: emitted_rows="@
                                + text::decimal_text(old(self).emitted_rows as nat)
                                + " rows_processed="@ + text::decimal_text(
                                if processed(tables) > u64::MAX {
                                    u64::MAX as nat
                                } else {
                                    processed(tables)
                                },
                            )
                        } else {
                            expected(tables) != processed(tables) && error.text()
                                == "mysql snapshot consistency check failed: not all rows were emitted"@
                        }
                    },
                }
            }),
    {
        self.sync_snapshot_tables();
        let total = self.total_processed_rows();
        if total != self.emitted_rows as u128 {
            return Err(
                Error::SourceError(
                    text::join2(
                        text::join3(
                            "mysql snapshot consistency check failed: emitted_rows=",
                            text::decimal(self.emitted_rows).as_str(),
                            " rows_processed=",
                        ).as_str(),
                        text::decimal(
                            if total > u64::MAX as u128 {
                                u64::MAX
                            } else {
                                total as u64
                            },
                        ).as_str(),
                    ),
                ),
            );
        }
        if self.total_expected_rows() != total {
            return Err(
                Error::SourceError(
                    "mysql snapshot consistency check failed: not all rows were emitted".to_owned(),
                ),
            );
        }
        Ok(())
    }
}

} // verus!
