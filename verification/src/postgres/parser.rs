//! Texts and offsets of the PostgreSQL connector.
use vstd::prelude::*;
use crate::error::Error;
use crate::identifier;
use crate::postgres::lsn;
use crate::text;

verus! {

/// The table that a reference names: `table`, in `public`, or `schema.table`, with double quotes
/// where a name needs them.
pub open spec fn table_named(reference: Seq<char>) -> Option<(Seq<char>, Seq<char>)> {
    match identifier::table_reference(reference, '"') {
        Some((Some(schema), table)) => Some((schema, table)),
        Some((None, table)) => Some(("public"@, table)),
        None => None,
    }
}

/// What is told of a reference that names no table.
pub open spec fn bad_reference_text(reference: Seq<char>) -> Seq<char> {
    "invalid postgres table reference '"@ + reference + "': expected table or schema.table"@
}

/// The table that a reference names; see [`table_named`].
pub fn parse_table_reference(reference: &str) -> (found: Result<(String, String), Error>)
    ensures
        match found {
            Ok((schema, table)) => table_named(reference@) == Some((schema@, table@)),
            Err(error) => table_named(reference@) is None && error is ConfigError && error.text()
                == bad_reference_text(reference@),
        },
{
    match identifier::read_reference(reference, '"') {
        Some((Some(schema), table)) => Ok((schema, table)),
        Some((None, table)) => Ok(("public".to_owned(), table)),
        None => Err(
            Error::ConfigError(
                text::join3(
                    "invalid postgres table reference '",
                    reference,
                    "': expected table or schema.table",
                ),
            ),
        ),
    }
}

/// A name in double quotes.
pub fn quote_pg_identifier(name: &str) -> (out: String)
    ensures
        out@ == identifier::quoted(name@, '"'),
{
    identifier::quote_identifier(name, '"')
}

/// A quoted, qualified name.
pub open spec fn qualified_name(schema: Seq<char>, table: Seq<char>) -> Seq<char> {
    identifier::quoted(schema, '"') + "."@ + identifier::quoted(table, '"')
}

/// A quoted, qualified name; see [`qualified_name`].
pub fn qualified_table_name(schema: &str, table: &str) -> (out: String)
    ensures
        out@ == qualified_name(schema@, table@),
{
    text::join3(quote_pg_identifier(schema).as_str(), ".", quote_pg_identifier(table).as_str())
}

/// The schema and the bare name of a table as it is configured: what stands before and after the
/// first dot, or the whole name in `public`.
pub open spec fn configured_table(name: Seq<char>) -> (Seq<char>, Seq<char>) {
    let dot = text::find_char(name, '.');
    if 0 < dot < name.len() - 1 {
        (name.take(dot), name.skip(dot + 1))
    } else {
        ("public"@, name)
    }
}

/// The schema and the bare name of a table as it is configured; see [`configured_table`].
pub fn split_qualified_table_name(configured: &str) -> (found: (String, String))
    ensures
        (found.0@, found.1@) == configured_table(configured@),
{
    let chars = text::to_chars(configured);
    let size = chars.len();
    let mut dot: usize = 0;
    proof {
        assert(configured@.skip(0) =~= configured@);
    }
    while dot < size && chars[dot] != '.'
        invariant
            dot <= size,
            size == chars@.len(),
            chars@ == configured@,
            text::find_char(configured@, '.') == dot + text::find_char(
                configured@.skip(dot as int),
                '.',
            ),
        decreases size - dot,
    {
        proof {
            assert(configured@.skip(dot as int).drop_first() =~= configured@.skip(dot + 1));
        }
        dot = dot + 1;
    }
    proof {
        let rest = configured@.skip(dot as int);
        assert(text::find_char(rest, '.') == 0) by {
            if dot < size {
                assert(rest[0] == '.');
            }
        }
    }
    if 0 < dot && dot < size && dot + 1 < size {
        proof {
            assert(configured@.subrange(0, dot as int) =~= configured@.take(dot as int));
            assert(configured@.subrange(dot + 1, size as int) =~= configured@.skip(dot + 1));
        }
        (text::from_chars(&chars, 0, dot), text::from_chars(&chars, dot + 1, size))
    } else {
        ("public".to_owned(), configured.to_owned())
    }
}

/// A durable place in the log, and the slot that it was read from.
#[derive(Debug, PartialEq, Eq)]
pub struct PostgresOffset {
    pub lsn: u64,
    pub slot_name: String,
}

impl PostgresOffset {
    /// A place in the log that a slot was read to.
    pub fn new(lsn: u64, slot_name: String) -> (offset: Self)
        ensures
            offset == (PostgresOffset { lsn, slot_name }),
    {
        PostgresOffset { lsn, slot_name }
    }
}

/// The place that a checkpoint resumes from, where it was written for this kind of source and for
/// this slot.
pub fn decode_stream_resume_lsn(
    source_type: &str,
    configured_slot_name: &str,
    checkpoint_source: &str,
    offset: &PostgresOffset,
) -> (place: Result<u64, Error>)
    ensures
        match place {
            Ok(place) => checkpoint_source@ == source_type@ && offset.slot_name@
                == configured_slot_name@ && place == offset.lsn,
            Err(error) => {
                &&& error is CheckpointError
                &&& if checkpoint_source@ != source_type@ {
                    error.text() == "cannot resume "@ + source_type@
                        + " stream from source type '"@ + checkpoint_source@ + "'"@
                } else {
                    offset.slot_name@ != configured_slot_name@ && error.text()
                        == "checkpoint was written for replication slot '"@ + offset.slot_name@
                        + "' and cannot be resumed on slot '"@ + configured_slot_name@ + "'"@
                }
            },
        },
{
    if !text::same_text(checkpoint_source, source_type) {
        return Err(
            Error::CheckpointError(
                text::join5(
                    "cannot resume ",
                    source_type,
                    " stream from source type '",
                    checkpoint_source,
                    "'",
                ),
            ),
        );
    }
    if !text::same_text(offset.slot_name.as_str(), configured_slot_name) {
        return Err(
            Error::CheckpointError(
                text::join5(
                    "checkpoint was written for replication slot '",
                    offset.slot_name.as_str(),
                    "' and cannot be resumed on slot '",
                    configured_slot_name,
                    "'",
                ),
            ),
        );
    }
    Ok(offset.lsn)
}

/// The place to resume from, given a checkpoint and what the slot has confirmed. A checkpoint
/// ahead of the slot speaks of a slot that is gone, and is refused; one behind it is replayed.
pub fn reconcile_stream_resume_lsn(
    checkpoint_lsn: u64,
    slot_confirmed_lsn: u64,
    slot_name: &str,
) -> (place: Result<u64, Error>)
    ensures
        match place {
            Ok(place) => checkpoint_lsn <= slot_confirmed_lsn && place == checkpoint_lsn,
            Err(error) => checkpoint_lsn > slot_confirmed_lsn && error is CheckpointError
                && error.text() == "checkpoint LSN "@ + lsn::lsn_text(checkpoint_lsn)
                + " is ahead of the confirmed position "@ + lsn::lsn_text(slot_confirmed_lsn)
                + " of replication slot "@ + slot_name@,
        },
{
    if checkpoint_lsn <= slot_confirmed_lsn {
        Ok(checkpoint_lsn)
    } else {
        Err(
            Error::CheckpointError(
                text::join2(
                    text::join5(
                        "checkpoint LSN ",
                        lsn::format_pg_lsn(checkpoint_lsn).as_str(),
                        " is ahead of the confirmed position ",
                        lsn::format_pg_lsn(slot_confirmed_lsn).as_str(),
                        " of replication slot ",
                    ).as_str(),
                    slot_name,
                ),
            ),
        )
    }
}

/// The error of a failed poll, with what to do about a slot that the server no longer serves.
pub fn map_pgoutput_poll_error(slot_name: &str, reason: &str) -> (error: Error)
    ensures
        error matches Error::SourceError(message) && message@ == "failed polling replication slot '"@
            + slot_name@ + "': "@ + reason@
            + ". The slot may be stale or dead: check pg_replication_slots, and re-create it with a new snapshot if its log is gone."@,
{
    Error::SourceError(
        text::join5(
            "failed polling replication slot '",
            slot_name,
            "': ",
            reason,
            ". The slot may be stale or dead: check pg_replication_slots, and re-create it with a new snapshot if its log is gone.",
        ),
    )
}

} // verus!
