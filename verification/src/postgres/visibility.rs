//! Which live events a PostgreSQL chunk read could have seen.
//!
//! A commit reaches the log before other sessions see its rows, so that the order of log positions
//! does not tell whether a read saw a transaction. The server's own snapshots do: a watermark keeps
//! the one that was current when it was captured.
use vstd::prelude::*;
use crate::event::{Event, TransactionMetadata};
use crate::incremental::table;
use crate::incremental::table::{BracketPosition, IncrementalSnapshotBackend, StreamPosition};
use crate::postgres::lsn;
use crate::text;

verus! {

// Snapshots

/// Which transactions a snapshot of the server sees: all below `xmax` but those in flight.
#[derive(Debug)]
pub struct TransactionSnapshot {
    pub xmax: u64,
    pub in_flight: Vec<u64>,
}

impl TransactionSnapshot {
    /// Whether the snapshot sees a transaction.
    pub open spec fn sees(self, xid: u64) -> bool {
        xid < self.xmax && !self.in_flight@.contains(xid)
    }

    /// Whether the snapshot sees a transaction; see [`TransactionSnapshot::sees`].
    pub fn is_visible(&self, xid: u64) -> (yes: bool)
        ensures
            yes == self.sees(xid),
    {
        if xid >= self.xmax {
            return false;
        }
        let mut i: usize = 0;
        while i < self.in_flight.len()
            invariant
                i <= self.in_flight@.len(),
                forall|k: int| 0 <= k < i ==> self.in_flight@[k] != xid,
            decreases self.in_flight.len() - i,
        {
            if self.in_flight[i] == xid {
                return false;
            }
            i = i + 1;
        }
        true
    }
}

/// The numbers that some texts denote; none where one of them is no number.
pub open spec fn numbers_in(parts: Seq<Seq<char>>) -> Option<Seq<u64>>
    decreases parts.len(),
{
    if parts.len() == 0 {
        Some(Seq::empty())
    } else {
        match (numbers_in(parts.drop_last()), text::u64_in(parts.last(), 10)) {
            (Some(before), Some(number)) => Some(before.push(number)),
            _ => None,
        }
    }
}

/// The bound and the transactions in flight that a snapshot's text `xmin:xmax:xip,...` names.
pub open spec fn snapshot_in(source: Seq<char>) -> Option<(u64, Seq<u64>)> {
    let parts = text::split(source, ':');
    if parts.len() == 3 {
        match (text::u64_in(parts[0], 10), text::u64_in(parts[1], 10)) {
            (Some(_), Some(xmax)) => if parts[2].len() == 0 {
                Some((xmax, Seq::empty()))
            } else {
                match numbers_in(text::split(parts[2], ',')) {
                    Some(in_flight) => Some((xmax, in_flight)),
                    None => None,
                }
            },
            _ => None,
        }
    } else {
        None
    }
}

proof fn lemma_numbers_prefix(parts: Seq<Seq<char>>, len: int)
    requires
        0 <= len <= parts.len(),
    ensures
        numbers_in(parts.take(len)) is None ==> numbers_in(parts) is None,
    decreases parts.len(),
{
    if len == parts.len() {
        assert(parts.take(len) =~= parts);
    } else {
        lemma_numbers_prefix(parts.drop_last(), len);
        assert(parts.drop_last().take(len) =~= parts.take(len));
    }
}

fn parse_numbers(parts: &Vec<String>) -> (numbers: Option<Vec<u64>>)
    ensures
        match numbers {
            Some(numbers) => numbers_in(text::texts(parts@)) == Some(numbers@),
            None => numbers_in(text::texts(parts@)) is None,
        },
{
    let ghost whole = text::texts(parts@);
    let mut numbers: Vec<u64> = Vec::new();
    let mut i: usize = 0;
    proof {
        assert(whole.take(0) =~= Seq::empty());
        assert(numbers@ =~= Seq::empty());
    }
    while i < parts.len()
        invariant
            i <= parts@.len(),
            whole == text::texts(parts@),
            numbers_in(whole.take(i as int)) == Some(numbers@),
        decreases parts.len() - i,
    {
        proof {
            assert(whole.take(i + 1).drop_last() =~= whole.take(i as int));
            assert(whole.take(i + 1).last() == parts@[i as int]@);
            lemma_numbers_prefix(whole, i + 1);
        }
        match text::parse_decimal(parts[i].as_str()) {
            Some(number) => {
                numbers.push(number);
            },
            None => {
                return None;
            },
        }
        i = i + 1;
    }
    proof {
        assert(whole.take(i as int) =~= whole);
    }
    Some(numbers)
}

/// The snapshot that a text denotes, as the server writes it; see [`snapshot_in`].
pub fn parse_snapshot(source: &str) -> (snapshot: Option<TransactionSnapshot>)
    ensures
        match snapshot {
            Some(snapshot) => snapshot_in(source@) == Some((snapshot.xmax, snapshot.in_flight@)),
            None => snapshot_in(source@) is None,
        },
{
    let parts = text::split_on(source, ':');
    proof {
        assert(text::texts(parts@).len() == parts@.len());
    }
    if parts.len() != 3 {
        return None;
    }
    proof {
        assert(text::texts(parts@)[0] == parts@[0]@);
        assert(text::texts(parts@)[1] == parts@[1]@);
        assert(text::texts(parts@)[2] == parts@[2]@);
        reveal_strlit("");
        if parts@[2]@.len() == 0 {
            assert(parts@[2]@ =~= ""@);
        }
    }
    match (text::parse_decimal(parts[0].as_str()), text::parse_decimal(parts[1].as_str())) {
        (Some(_), Some(xmax)) => {
            if text::same_text(parts[2].as_str(), "") {
                return Some(TransactionSnapshot { xmax, in_flight: Vec::new() });
            }
            let list = text::split_on(parts[2].as_str(), ',');
            match parse_numbers(&list) {
                Some(in_flight) => Some(TransactionSnapshot { xmax, in_flight }),
                None => None,
            }
        },
        _ => None,
    }
}

// Transaction numbers

/// How many numbers the log has for transactions before it starts over.
pub const XID_LAP: u64 = 0x1_0000_0000;

/// The whole number of a transaction: snapshots name transactions by numbers that never start
/// over, of which the log keeps the lower half. It is the one nearest to a number of about the same
/// time.
pub open spec fn full_xid(xid: u64, near: u64) -> u64 {
    let same_lap = near - near % XID_LAP + xid;
    if xid >= XID_LAP {
        xid
    } else if same_lap >= near + XID_LAP / 2 && same_lap >= XID_LAP + xid {
        (same_lap - XID_LAP) as u64
    } else if same_lap + XID_LAP / 2 < near && same_lap + XID_LAP <= u64::MAX {
        (same_lap + XID_LAP) as u64
    } else {
        same_lap as u64
    }
}

/// The whole number of a transaction; see [`full_xid`].
pub fn widen_xid(xid: u64, near: u64) -> (full: u64)
    ensures
        full == full_xid(xid, near),
{
    if xid >= XID_LAP {
        return xid;
    }
    let lap = near - near % XID_LAP;
    proof {
        assert(lap <= u64::MAX - (XID_LAP - 1)) by {
            assert(lap % XID_LAP == 0);
        }
    }
    let same_lap = lap + xid;
    let half = XID_LAP / 2;
    if same_lap >= near && same_lap - near >= half && lap >= XID_LAP {
        same_lap - XID_LAP
    } else if near > same_lap && near - same_lap > half && same_lap <= u64::MAX - XID_LAP {
        same_lap + XID_LAP
    } else {
        same_lap
    }
}

/// A transaction of about the same time as a snapshot is found again from the lower half of its
/// number.
pub proof fn recent_transaction_is_recognized(full: u64, near: u64)
    requires
        full < near + XID_LAP / 2,
        near < full + XID_LAP / 2,
    ensures
        full_xid(full % XID_LAP, near) == full,
{
}

// Positions

/// A place in the log, and what the server saw when it stood there. An event's own place comes
/// without a snapshot.
#[derive(Debug)]
pub struct PgPosition {
    pub lsn: u64,
    pub snapshot: Option<TransactionSnapshot>,
}

impl StreamPosition for PgPosition {
    open spec fn rank(&self) -> int {
        self.lsn as int
    }

    fn at_or_past(&self, other: &Self) -> (b: bool) {
        self.lsn >= other.lsn
    }
}

/// Whether a snapshot sees the transaction of an event.
pub open spec fn seen_by(tx: TransactionMetadata, snapshot: TransactionSnapshot) -> bool {
    snapshot.sees(full_xid(tx.tx_id, snapshot.xmax))
}

/// Where an event sits relative to two watermarks: before both where the lower one's snapshot sees
/// its transaction, after both where the higher one's does not. Where the event has no transaction,
/// or a watermark no snapshot, the order of places answers.
pub open spec fn bracket(
    tx: Option<TransactionMetadata>,
    position: PgPosition,
    low: PgPosition,
    high: PgPosition,
) -> BracketPosition {
    match (tx, low.snapshot, high.snapshot) {
        (Some(tx), Some(before), Some(after)) => if !seen_by(tx, after) {
            BracketPosition::After
        } else if !seen_by(tx, before) {
            BracketPosition::Inside
        } else {
            BracketPosition::Before
        },
        _ => table::ordinal_bracket(position.rank(), low.rank(), high.rank()),
    }
}

/// What a PostgreSQL event says of its place.
#[derive(Clone, Copy, Debug)]
pub struct PostgresPositions;

impl IncrementalSnapshotBackend for PostgresPositions {
    type Position = PgPosition;

    fn position_of_event(&self, event: &Event) -> (position: Option<PgPosition>)
        ensures
            match position {
                Some(position) => lsn::lsn_in(event.source.offset@) == Some(position.lsn)
                    && position.snapshot is None,
                None => lsn::lsn_in(event.source.offset@) is None,
            },
    {
        match lsn::parse_pg_lsn(event.source.offset.as_str()) {
            Ok(lsn) => Some(PgPosition { lsn, snapshot: None }),
            Err(_) => None,
        }
    }

    fn event_in_bracket(
        &self,
        event: &Event,
        position: &PgPosition,
        low: &PgPosition,
        high: &PgPosition,
    ) -> (b: BracketPosition)
        ensures
            b == bracket(event.transaction, *position, *low, *high),
    {
        match (&event.transaction, &low.snapshot, &high.snapshot) {
            (Some(tx), Some(before), Some(after)) => {
                if !after.is_visible(widen_xid(tx.tx_id, after.xmax)) {
                    BracketPosition::After
                } else if !before.is_visible(widen_xid(tx.tx_id, before.xmax)) {
                    BracketPosition::Inside
                } else {
                    BracketPosition::Before
                }
            },
            _ => table::bracket_by_order(position, low, high),
        }
    }
}

/// A transaction that the chunk read could not see is never taken for one that it saw, however low
/// its place in the log: a chunk row that it changed is superseded by it or comes before it.
pub proof fn unseen_change_is_not_lost(
    tx: TransactionMetadata,
    position: PgPosition,
    low: PgPosition,
    high: PgPosition,
    before: TransactionSnapshot,
    after: TransactionSnapshot,
)
    requires
        low.snapshot == Some(before),
        high.snapshot == Some(after),
        !seen_by(tx, before),
    ensures
        bracket(Some(tx), position, low, high) != BracketPosition::Before,
        seen_by(tx, after) ==> bracket(Some(tx), position, low, high) == BracketPosition::Inside,
{
}

} // verus!
