//! Texts of the MySQL connector: table references, log offsets, file names and statements.
use vstd::prelude::*;
use crate::error::Error;
use crate::identifier;
use crate::text;

verus! {

/// What is told of a reference that names no table.
pub open spec fn bad_reference_text(reference: Seq<char>) -> Seq<char> {
    "invalid mysql table reference '"@ + reference + "': expected table or schema.table"@
}

/// The table that a reference names, `table` or `schema.table`, with back quotes where a name
/// needs them.
pub fn split_table_reference(reference: &str) -> (found: Result<(Option<String>, String), Error>)
    ensures
        match found {
            Ok((schema, table)) => identifier::table_reference(reference@, '`') == Some(
                (text::text_option(schema), table@),
            ),
            Err(error) => error is ConfigError && error.text() == bad_reference_text(reference@)
                && identifier::table_reference(reference@, '`') is None,
        },
{
    match identifier::read_reference(reference, '`') {
        Some(found) => Ok(found),
        None => Err(
            Error::ConfigError(
                text::join3(
                    "invalid mysql table reference '",
                    reference,
                    "': expected table or schema.table",
                ),
            ),
        ),
    }
}

/// A quoted, qualified name.
pub open spec fn qualified_name(schema: Option<Seq<char>>, table: Seq<char>) -> Seq<char> {
    match schema {
        Some(schema) => identifier::quoted(schema, '`') + "."@ + identifier::quoted(table, '`'),
        None => identifier::quoted(table, '`'),
    }
}

/// A name in back quotes.
pub fn quoted_mysql_identifier(name: &str) -> (out: String)
    ensures
        out@ == identifier::quoted(name@, '`'),
{
    identifier::quote_identifier(name, '`')
}

/// A quoted, qualified name.
pub fn mysql_qualified_table_name(schema: Option<&str>, table: &str) -> (out: String)
    ensures
        out@ == qualified_name(
            match schema {
                Some(schema) => Some(schema@),
                None => None,
            },
            table@,
        ),
{
    let quoted = quoted_mysql_identifier(table);
    match schema {
        Some(schema) => text::join3(
            quoted_mysql_identifier(schema).as_str(),
            ".",
            quoted.as_str(),
        ),
        None => quoted,
    }
}

/// The quoted, qualified name of the table that a reference names.
pub fn mysql_qualified_table_name_from_reference(reference: &str) -> (out: Result<String, Error>)
    ensures
        match out {
            Ok(out) => identifier::table_reference(reference@, '`') matches Some((schema, table))
                && out@ == qualified_name(schema, table),
            Err(error) => error is ConfigError && error.text() == bad_reference_text(reference@)
                && identifier::table_reference(reference@, '`') is None,
        },
{
    match split_table_reference(reference) {
        Ok((schema, table)) => {
            match schema {
                Some(schema) => Ok(mysql_qualified_table_name(Some(schema.as_str()), table.as_str())),
                None => Ok(mysql_qualified_table_name(None, table.as_str())),
            }
        },
        Err(error) => Err(error),
    }
}

/// A place in the log: file and position, and the executed set where there is one.
pub open spec fn source_offset(file: Seq<char>, position: u32, gtid: Seq<char>) -> Seq<char> {
    let place = file + ":"@ + text::decimal_text(position as nat);
    if gtid.len() == 0 {
        place
    } else {
        place + "#gtid="@ + gtid
    }
}

/// A place in the log; see [`source_offset`].
pub fn format_mysql_source_offset(file: &str, position: u32, gtid: &str) -> (out: String)
    ensures
        out@ == source_offset(file@, position, gtid@),
{
    let mut out = text::join3(file, ":", text::decimal(position as u64).as_str());
    proof {
        reveal_strlit("");
        if gtid@.len() == 0 {
            assert(gtid@ =~= ""@);
        }
    }
    if !text::same_text(gtid, "") {
        out.append("#gtid=");
        out.append(gtid);
    }
    out
}

/// A durable place in the log.
#[derive(Debug, PartialEq, Eq)]
pub struct MysqlOffset {
    pub gtid: String,
    pub binlog_file: String,
    pub binlog_pos: u32,
    /// `mysql` or `mariadb`.
    pub source_flavor: String,
}

impl MysqlOffset {
    /// A place in the log of a source.
    pub fn new(
        source_flavor: String,
        binlog_file: String,
        binlog_pos: u32,
        gtid: String,
    ) -> (offset: Self)
        ensures
            offset == (MysqlOffset { gtid, binlog_file, binlog_pos, source_flavor }),
    {
        MysqlOffset { gtid, binlog_file, binlog_pos, source_flavor }
    }
}

/// The place that a checkpoint resumes from, where it was written for this kind of source.
pub fn decode_stream_resume_position(source_type: &str, offset: MysqlOffset) -> (place: Result<
    MysqlOffset,
    Error,
>)
    ensures
        match place {
            Ok(place) => offset.source_flavor@ == source_type@ && place == offset,
            Err(error) => offset.source_flavor@ != source_type@ && error is CheckpointError
                && error.text() == "checkpoint was written by source type '"@
                + offset.source_flavor@ + "' and cannot be resumed by '"@ + source_type@ + "'"@,
        },
{
    if text::same_text(offset.source_flavor.as_str(), source_type) {
        Ok(offset)
    } else {
        Err(
            Error::CheckpointError(
                text::join5(
                    "checkpoint was written by source type '",
                    offset.source_flavor.as_str(),
                    "' and cannot be resumed by '",
                    source_type,
                    "'",
                ),
            ),
        )
    }
}

// File names

/// The place of the last dot that a digit follows, or -1.
pub open spec fn last_numbered_dot(name: Seq<char>, from: int) -> int
    decreases from + 1,
{
    if from < 0 {
        -1
    } else if from + 1 < name.len() && name[from] == '.' && '0' <= name[from + 1] <= '9' {
        from
    } else {
        last_numbered_dot(name, from - 1)
    }
}

/// The end of the run of digits that starts at a place.
pub open spec fn digits_end(name: Seq<char>, from: int) -> int
    decreases name.len() - from,
{
    if 0 <= from < name.len() && '0' <= name[from] <= '9' {
        digits_end(name, from + 1)
    } else {
        from
    }
}

/// The log file that a rotate event names: up to the end of its number. What follows, such as an
/// event checksum, is no part of it.
pub open spec fn file_name(name: Seq<char>) -> Option<Seq<char>> {
    let dot = last_numbered_dot(name, name.len() - 1);
    if dot <= 0 {
        None
    } else {
        Some(name.take(digits_end(name, dot + 1)))
    }
}

/// What is told of a rotate event that names no numbered file.
pub open spec fn bad_file_text(name: Seq<char>) -> Seq<char> {
    "mysql rotate event names an unusable binlog file '"@ + name
        + "': expected a numbered file"@
}

/// The log file that a rotate event names; see [`file_name`].
pub fn sanitize_binlog_file_name(name: &str) -> (file: Result<String, Error>)
    ensures
        match file {
            Ok(file) => file_name(name@) == Some(file@),
            Err(error) => file_name(name@) is None && error is SourceError && error.text()
                == bad_file_text(name@),
        },
{
    let chars = text::to_chars(name);
    let size = chars.len();
    let mut i: usize = size;
    while i > 0 && !(i < size && chars[i - 1] == '.' && '0' <= chars[i] && chars[i] <= '9')
        invariant
            i <= size,
            size == chars@.len(),
            chars@ == name@,
            last_numbered_dot(name@, name@.len() - 1) == last_numbered_dot(name@, i - 1),
        decreases i,
    {
        i = i - 1;
    }
    if i <= 1 {
        return Err(
            Error::SourceError(
                text::join3(
                    "mysql rotate event names an unusable binlog file '",
                    name,
                    "': expected a numbered file",
                ),
            ),
        );
    }
    let mut end: usize = i;
    while end < size && '0' <= chars[end] && chars[end] <= '9'
        invariant
            i <= end <= size,
            size == chars@.len(),
            chars@ == name@,
            digits_end(name@, i as int) == digits_end(name@, end as int),
        decreases size - end,
    {
        end = end + 1;
    }
    proof {
        assert(name@.take(end as int) =~= name@.subrange(0, end as int));
    }
    Ok(text::from_chars(&chars, 0, end))
}

} // verus!
