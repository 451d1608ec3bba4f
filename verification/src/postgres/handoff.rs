//! The handoff from a PostgreSQL bulk snapshot to its stream.
use vstd::prelude::*;
use crate::capabilities::HandoffResult;
use crate::error::Error;
use crate::postgres::lsn;
use crate::text;

verus! {

/// What is told of a stream that starts behind the snapshot.
pub open spec fn behind_text(snapshot_watermark: u64, stream_watermark: u64) -> Seq<char> {
    "postgres handoff refused: the stream starts at "@ + lsn::lsn_text(stream_watermark)
        + ", behind the snapshot watermark "@ + lsn::lsn_text(snapshot_watermark)
}

/// How far the stream's start is past the snapshot's place in the log, in bytes. A stream behind
/// the snapshot is refused.
pub fn postgres_handoff_stream_watermark_gap(snapshot_watermark: u64, stream_watermark: u64) -> (
    gap: Result<u64, Error>)
    ensures
        match gap {
            Ok(gap) => stream_watermark >= snapshot_watermark && gap == stream_watermark
                - snapshot_watermark,
            Err(error) => stream_watermark < snapshot_watermark && error is SourceError
                && error.text() == behind_text(snapshot_watermark, stream_watermark),
        },
{
    if stream_watermark >= snapshot_watermark {
        Ok(stream_watermark - snapshot_watermark)
    } else {
        Err(
            Error::SourceError(
                text::join2(
                    text::join3(
                        "postgres handoff refused: the stream starts at ",
                        lsn::format_pg_lsn(stream_watermark).as_str(),
                        ", behind the snapshot watermark ",
                    ).as_str(),
                    lsn::format_pg_lsn(snapshot_watermark).as_str(),
                ),
            ),
        )
    }
}

/// What a completed handoff reports: the distance of the two watermarks where both are known, and
/// never a count of events, which is not measured here.
pub fn postgres_handoff_result(
    snapshot_end_ts: Option<u64>,
    snapshot_watermark: Option<u64>,
    stream_watermark: Option<u64>,
    now: u64,
) -> (result: Result<HandoffResult, Error>)
    ensures
        match result {
            Ok(result) => result == (HandoffResult {
                snapshot_end_ts,
                stream_start_ts: match stream_watermark {
                    Some(_) => Some(now),
                    None => None,
                },
                overlap_events_dropped: None,
                stream_watermark_gap: match (snapshot_watermark, stream_watermark) {
                    (Some(snapshot), Some(stream)) => Some((stream - snapshot) as u64),
                    _ => None,
                },
            }) && match (snapshot_watermark, stream_watermark) {
                (Some(snapshot), Some(stream)) => stream >= snapshot,
                _ => true,
            },
            Err(error) => error is SourceError && match (snapshot_watermark, stream_watermark) {
                (Some(snapshot), Some(stream)) => stream < snapshot && error.text() == behind_text(
                    snapshot,
                    stream,
                ),
                _ => false,
            },
        },
{
    let gap = match (snapshot_watermark, stream_watermark) {
        (Some(snapshot), Some(stream)) => {
            match postgres_handoff_stream_watermark_gap(snapshot, stream) {
                Ok(gap) => Some(gap),
                Err(error) => {
                    return Err(error);
                },
            }
        },
        _ => None,
    };
    Ok(
        HandoffResult {
            snapshot_end_ts,
            stream_start_ts: match stream_watermark {
                Some(_) => Some(now),
                None => None,
            },
            overlap_events_dropped: None,
            stream_watermark_gap: gap,
        },
    )
}

} // verus!
