//! What a PostgreSQL transaction snapshot says, and where an event sits between two watermarks.
use vstd::prelude::*;
use crate::event::TransactionMetadata;
use crate::incremental::table::BracketPosition;
use crate::postgres::visibility;
use crate::postgres::visibility::{PgPosition, TransactionSnapshot};
use crate::text;

verus! {

/// Numbers in decimal, with commas between them.
pub open spec fn listed(numbers: Seq<u64>) -> Seq<char>
    decreases numbers.len(),
{
    if numbers.len() == 0 {
        Seq::empty()
    } else if numbers.len() == 1 {
        text::decimal_text(numbers[0] as nat)
    } else {
        listed(numbers.drop_last()) + ","@ + text::decimal_text(numbers.last() as nat)
    }
}

proof fn lemma_listed(numbers: Seq<u64>)
    requires
        numbers.len() > 0,
    ensures
        visibility::numbers_in(text::split(listed(numbers), ',')) == Some(numbers),
        listed(numbers).len() > 0,
        !listed(numbers).contains(':'),
    decreases numbers.len(),
{
    reveal_strlit(",");
    reveal_with_fuel(visibility::numbers_in, 2);
    let last = text::decimal_text(numbers.last() as nat);
    text::decimal_is_digits(numbers.last() as nat);
    text::number_round_trip(numbers.last() as nat, 10);
    assert forall|i: int| 0 <= i < last.len() implies last[i] != ',' && last[i] != ':' by {}
    let less = numbers.drop_last();
    assert(less.push(numbers.last()) =~= numbers);
    if numbers.len() == 1 {
        text::split_without_separator(last, ',');
        let parts = text::split(listed(numbers), ',');
        assert(parts.drop_last() =~= Seq::<Seq<char>>::empty());
        assert(parts.last() == last);
        assert(less =~= Seq::<u64>::empty());
    } else {
        lemma_listed(less);
        let before = listed(less);
        let whole = before + ","@ + last;
        assert(whole =~= before + seq![','] + last);
        text::split_after_separator(before, ',', last);
        let parts = text::split(whole, ',');
        assert(parts.drop_last() =~= text::split(before, ','));
        assert(parts.last() == last);
        assert forall|i: int| 0 <= i < whole.len() implies whole[i] != ':' by {
            if i < before.len() {
                assert(before.contains(before[i]));
            } else if i > before.len() {
                assert(whole[i] == last[i - before.len() - 1]);
            }
        }
    }
}

/// A snapshot's text reads back as the bound past the last transaction that had ended and the
/// transactions that were still in flight.
pub proof fn snapshot_text_reads_back(xmin: u64, xmax: u64, in_flight: Seq<u64>)
    ensures
        visibility::snapshot_in(
            text::decimal_text(xmin as nat) + ":"@ + text::decimal_text(xmax as nat) + ":"@
                + listed(in_flight),
        ) == Some((xmax, in_flight)),
{
    reveal_strlit(":");
    let low = text::decimal_text(xmin as nat);
    let high = text::decimal_text(xmax as nat);
    let rest = listed(in_flight);
    text::decimal_is_digits(xmin as nat);
    text::decimal_is_digits(xmax as nat);
    text::number_round_trip(xmin as nat, 10);
    text::number_round_trip(xmax as nat, 10);
    if in_flight.len() > 0 {
        lemma_listed(in_flight);
    } else {
        assert(in_flight =~= Seq::<u64>::empty());
    }
    assert(!low.contains(':') && !high.contains(':') && !rest.contains(':'));
    let head = low + ":"@ + high;
    let whole = low + ":"@ + high + ":"@ + rest;
    assert(head =~= low + seq![':'] + high);
    assert(whole =~= head + seq![':'] + rest);
    text::split_without_separator(low, ':');
    text::split_after_separator(low, ':', high);
    text::split_after_separator(head, ':', rest);
    let parts = text::split(whole, ':');
    assert(parts =~= seq![low, high, rest]);
}

/// A snapshot sees a transaction exactly where the transaction came before its bound and was not in
/// flight.
pub proof fn snapshot_sees_what_had_ended(snapshot: TransactionSnapshot, xid: u64)
    ensures
        snapshot.sees(xid) <==> (xid < snapshot.xmax && (forall|i: int|
            0 <= i < snapshot.in_flight@.len() ==> #[trigger] snapshot.in_flight@[i] != xid)),
{
    if !snapshot.in_flight@.contains(xid) {
        assert forall|i: int| 0 <= i < snapshot.in_flight@.len() implies
            #[trigger] snapshot.in_flight@[i] != xid by {
            assert(snapshot.in_flight@.contains(snapshot.in_flight@[i]));
        }
    }
}

/// Where both watermarks come with snapshots, they alone tell where an event of a transaction sits:
/// before both where the lower one's sees the transaction, past both where the higher one's does
/// not, and between them otherwise. Elsewhere the order of places tells.
pub proof fn snapshots_tell_where_an_event_sits(
    tx: TransactionMetadata,
    position: PgPosition,
    low: PgPosition,
    high: PgPosition,
    before: TransactionSnapshot,
    after: TransactionSnapshot,
    full: u64,
)
    requires
        low.snapshot == Some(before),
        high.snapshot == Some(after),
        tx.tx_id == full % 0x1_0000_0000,
        full < before.xmax + 0x8000_0000,
        before.xmax < full + 0x8000_0000,
        full < after.xmax + 0x8000_0000,
        after.xmax < full + 0x8000_0000,
    ensures
        ({
            let place = visibility::bracket(Some(tx), position, low, high);
            &&& !after.sees(full) ==> place == BracketPosition::After
            &&& after.sees(full) && !before.sees(full) ==> place == BracketPosition::Inside
            &&& after.sees(full) && before.sees(full) ==> place == BracketPosition::Before
        }),
{
    visibility::recent_transaction_is_recognized(full, before.xmax);
    visibility::recent_transaction_is_recognized(full, after.xmax);
}

/// Where an event has no transaction, or a watermark no snapshot, the order of places tells where
/// the event sits.
pub proof fn places_tell_where_an_event_sits(
    tx: Option<TransactionMetadata>,
    position: PgPosition,
    low: PgPosition,
    high: PgPosition,
)
    requires
        tx is None || low.snapshot is None || high.snapshot is None,
        low.lsn <= high.lsn,
    ensures
        ({
            let place = visibility::bracket(tx, position, low, high);
            &&& position.lsn <= low.lsn ==> place == BracketPosition::Before
            &&& low.lsn < position.lsn <= high.lsn ==> place == BracketPosition::Inside
            &&& high.lsn < position.lsn ==> place == BracketPosition::After
        }),
{
}

} // verus!
