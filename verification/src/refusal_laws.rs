//! What is told where something is refused: the thing that is at fault, by the name that the caller
//! gave it, and which side of a comparison it stood on.
use vstd::prelude::*;
use crate::error::Error;
use crate::json;
use crate::mysql::handoff as mysql_handoff;
use crate::mysql::parser as mysql_parser;
use crate::mysql::parser::MysqlOffset;
use crate::postgres::config::PostgresSourceConfig;
use crate::postgres::handoff;
use crate::postgres::lsn;
use crate::postgres::parser as postgres_parser;
use crate::postgres::resume;
use crate::postgres::snapshot::PostgresSnapshotHandle;
use crate::postgres::validation;
use crate::postgres::validation::{Preparation, ServerFacts};
use crate::text;

verus! {

/// A place in the log that is written and read again is the same place. What names no place is
/// refused, and the refusal names it.
pub proof fn place_is_written_and_read_again(
    place: u64,
    shown: String,
    source: &str,
    read: Result<u64, Error>,
)
    requires
        call_ensures(lsn::format_pg_lsn, (place,), shown),
        call_ensures(lsn::parse_pg_lsn, (source,), read),
    ensures
        source@ == shown@ ==> read == Ok::<u64, Error>(place),
        read matches Err(error) ==> error is SourceError && error.text()
            == "invalid postgres LSN '"@ + source@ + "'"@,
{
    lsn::lsn_reads_back(place);
}

/// A handoff that is refused tells where the stream starts and, behind it, the place of the snapshot
/// that it starts behind.
pub proof fn refused_handoff_tells_both_places(
    snapshot: u64,
    stream: u64,
    gap: Result<u64, Error>,
)
    requires
        call_ensures(handoff::postgres_handoff_stream_watermark_gap, (snapshot, stream), gap),
        stream < snapshot,
    ensures
        gap matches Err(error) && error.text()
            == "postgres handoff refused: the stream starts at "@ + lsn::lsn_text(stream)
            + ", behind the snapshot watermark "@ + lsn::lsn_text(snapshot),
{
}

/// A MySQL handoff that is refused tells where the stream starts and, behind it, the place of the
/// snapshot that it starts after.
pub proof fn refused_mysql_handoff_tells_both_places(
    snapshot: &MysqlOffset,
    stream: &MysqlOffset,
    checked: Result<(), Error>,
)
    requires
        call_ensures(mysql_handoff::check_watermarks, (snapshot, stream), checked),
    ensures
        checked matches Err(error) ==> error.text()
            == "mysql handoff would lose changes: the stream starts at "@ + (
        stream.binlog_file@ + ":"@ + text::decimal_text(stream.binlog_pos as nat))
            + ", after the snapshot watermark "@ + (snapshot.binlog_file@ + ":"@
            + text::decimal_text(snapshot.binlog_pos as nat)),
{
    reveal_strlit("");
    assert(""@.len() == 0);
}

/// A table reference that names no table is refused by its own text.
pub proof fn refused_reference_is_named(
    reference: &str,
    mysql: Result<(Option<String>, String), Error>,
    postgres: Result<(String, String), Error>,
)
    requires
        call_ensures(mysql_parser::split_table_reference, (reference,), mysql),
        call_ensures(postgres_parser::parse_table_reference, (reference,), postgres),
    ensures
        mysql matches Err(error) ==> error is ConfigError && error.text()
            == "invalid mysql table reference '"@ + reference@
            + "': expected table or schema.table"@,
        postgres matches Err(error) ==> error is ConfigError && error.text()
            == "invalid postgres table reference '"@ + reference@
            + "': expected table or schema.table"@,
{
}

/// A rotation to a file that is none is refused by the file's name.
pub proof fn refused_file_is_named(name: &str, file: Result<String, Error>)
    requires
        call_ensures(mysql_parser::sanitize_binlog_file_name, (name,), file),
    ensures
        file matches Err(error) ==> error is SourceError && error.text()
            == "mysql rotate event names an unusable binlog file '"@ + name@
            + "': expected a numbered file"@,
{
}

/// A checkpoint of another source is refused by both sources' names, and one of the same source is
/// taken as it is.
pub proof fn foreign_checkpoint_is_named(
    source_type: &str,
    offset: MysqlOffset,
    place: Result<MysqlOffset, Error>,
)
    requires
        call_ensures(mysql_parser::decode_stream_resume_position, (source_type, offset), place),
    ensures
        offset.source_flavor@ == source_type@ ==> place == Ok::<MysqlOffset, Error>(offset),
        offset.source_flavor@ != source_type@ ==> (place matches Err(error)
            && error is CheckpointError && error.text()
            == "checkpoint was written by source type '"@ + offset.source_flavor@
            + "' and cannot be resumed by '"@ + source_type@ + "'"@),
{
}

/// A server that cannot be captured from is refused for what it lacks, by the name that the
/// configuration gives it.
pub proof fn lacking_server_is_told_what_it_lacks(
    settings: &PostgresSourceConfig,
    facts: &ServerFacts,
    plan: Result<Preparation, Error>,
)
    requires
        call_ensures(validation::validate_server, (settings, facts), plan),
    ensures
        !facts.has_replication_privilege ==> (plan matches Err(error) && error.text()
            == "postgres role lacks the REPLICATION privilege"@),
        facts.has_replication_privilege && !facts.publication_exists ==> (plan matches Err(error)
            && error.text() == "postgres publication '"@ + settings.publication_name@
            + "' does not exist"@),
        facts.has_replication_privilege && facts.publication_exists && !facts.slot_exists
            && !settings.create_replication_slot_if_missing ==> (plan matches Err(error)
            && error.text() == "postgres replication slot '"@ + settings.replication_slot_name@
            + validation::MISSING_SLOT_REMEDY@),
{
}

/// A cursor gives back its values, one for each key column; one with another number of values is
/// refused by both numbers.
pub proof fn refused_cursor_tells_both_numbers(
    cursor: &str,
    columns: usize,
    values: Result<Vec<String>, Error>,
)
    requires
        call_ensures(PostgresSnapshotHandle::decode_pk_cursor, (cursor, columns), values),
    ensures
        values matches Ok(found) ==> found@.len() == columns && json::strings_in(cursor@)
            == Ok::<Seq<Seq<char>>, Seq<char>>(text::texts(found@)),
        json::strings_in(cursor@) matches Ok(held) && held.len() == columns ==> values is Ok,
        json::strings_in(cursor@) matches Ok(held) && held.len() != columns ==> (
        values matches Err(error) && error is CheckpointError && error.text()
            == "invalid postgres snapshot cursor: expected "@ + text::decimal_text(columns as nat)
            + " key values, got "@ + text::decimal_text(
            (json::strings_in(cursor@)->Ok_0).len(),
        )),
        json::strings_in(cursor@) matches Err(reason) ==> (values matches Err(error)
            && error is CheckpointError && error.text()
            == "invalid postgres snapshot cursor: expected JSON array of primary key values: "@
            + reason),
{
}

/// A row's payload is what its text holds. A text that holds none is refused by the table's name and
/// the reason.
pub proof fn refused_row_names_its_table(
    table: &str,
    source: &str,
    payload: Result<serde_json::Value, Error>,
)
    requires
        call_ensures(resume::live_row, (table, source), payload),
    ensures
        json::value_in(source@) matches Ok(row) ==> (payload matches Ok(found)
            && json::json(found) == row),
        json::value_in(source@) matches Err(reason) ==> (payload matches Err(error)
            && error is SerializationError && error.text()
            == "failed decoding live snapshot JSON row for table '"@ + table@ + "': "@ + reason),
{
}

} // verus!
