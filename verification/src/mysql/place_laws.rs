//! Places in the binlog: how numbered files order, which file a rotation names, and what is left
//! of a stream that overlaps a snapshot.
use vstd::prelude::*;
use crate::event::EventView;
use crate::incremental::fingerprint;
use crate::mysql::handoff;
use crate::mysql::parser;
use crate::text;

verus! {

/// The name of a numbered log file.
pub open spec fn numbered(base: Seq<char>, number: u64) -> Seq<char> {
    base + "."@ + text::decimal_text(number as nat)
}

/// A log file's number is what stands behind its last dot.
pub proof fn numbered_file_has_its_number(base: Seq<char>, number: u64)
    ensures
        handoff::file_number(numbered(base, number)) == Some(number),
{
    reveal_strlit(".");
    let digits = text::decimal_text(number as nat);
    text::decimal_is_digits(number as nat);
    text::number_round_trip(number as nat, 10);
    assert(!digits.contains('.'));
    assert("."@ =~= seq!['.']);
    text::split_after_separator(base, '.', digits);
    assert(numbered(base, number) =~= base + seq!['.'] + digits);
}

/// Places in the numbered files of a log order by the files' numbers, not by how the names sort,
/// and within a file by position.
pub proof fn places_order_by_number_and_position(
    base: Seq<char>,
    number: u64,
    position: u64,
    other_number: u64,
    other_position: u64,
)
    ensures
        handoff::not_after(
            numbered(base, number),
            position,
            numbered(base, other_number),
            other_position,
        ) <==> (number < other_number || (number == other_number && position <= other_position)),
{
    numbered_file_has_its_number(base, number);
    numbered_file_has_its_number(base, other_number);
}

/// An event is taken for one that a snapshot's view holds exactly where it was written no later
/// than the view was taken.
pub proof fn event_is_covered_up_to_the_snapshot(
    base: Seq<char>,
    number: u64,
    position: u32,
    gtid: Seq<char>,
    snapshot_number: u64,
    snapshot_position: u64,
)
    requires
        !base.contains(':'),
        !base.contains('#'),
    ensures
        handoff::covered(
            parser::source_offset(numbered(base, number), position, gtid),
            numbered(base, snapshot_number),
            snapshot_position,
        ) <==> (number < snapshot_number || (number == snapshot_number && position
            <= snapshot_position)),
{
    reveal_strlit(".");
    let file = numbered(base, number);
    text::decimal_is_digits(number as nat);
    let digits = text::decimal_text(number as nat);
    assert forall|i: int| 0 <= i < file.len() implies file[i] != ':' && file[i] != '#' by {
        if i < base.len() {
            assert(base.contains(base[i]));
        } else if i > base.len() {
            assert(digits[i - base.len() - 1] == file[i]);
        }
    }
    handoff::offset_names_its_place(file, position, gtid);
    places_order_by_number_and_position(
        base,
        number,
        position as u64,
        snapshot_number,
        snapshot_position,
    );
}

proof fn lemma_overlap(events: Seq<EventView>, file: Seq<char>, position: u64)
    ensures
        0 <= handoff::overlap(events, file, position) <= events.len(),
        forall|i: int|
            0 <= i < handoff::overlap(events, file, position) ==> handoff::covered(
                (#[trigger] events[i]).source.offset,
                file,
                position,
            ),
        handoff::overlap(events, file, position) < events.len() ==> !handoff::covered(
            events[handoff::overlap(events, file, position)].source.offset,
            file,
            position,
        ),
    decreases events.len(),
{
    if events.len() > 0 && handoff::covered(events[0].source.offset, file, position) {
        let less = events.drop_first();
        lemma_overlap(less, file, position);
        assert forall|i: int|
            0 <= i < handoff::overlap(events, file, position) implies handoff::covered(
            (#[trigger] events[i]).source.offset,
            file,
            position,
        ) by {
            if i > 0 {
                assert(less[i - 1] == events[i]);
            }
        }
    }
}

/// Whether an event stays when the part of a stream that a snapshot overlaps is made compact: it is
/// about no row, or the last of its part about the row.
pub open spec fn stays(events: Seq<EventView>, count: int, place: int) -> bool {
    handoff::row_identity(events[place]) is None || forall|later: int|
        place < later < count ==> handoff::row_identity(#[trigger] events[later])
            != handoff::row_identity(events[place])
}

/// Of a stream that starts before a snapshot's view, the part up to the view is made compact and
/// the rest stays untouched. Of the compacted part exactly those events stay, in their order, that
/// are about no row or the last ones about theirs.
pub proof fn compacting_keeps_the_last_change_of_each_row(
    events: Seq<EventView>,
    file: Seq<char>,
    position: u64,
)
    ensures
        ({
            let count = handoff::overlap(events, file, position);
            let out = handoff::compacted(events, file, position);
            let places = handoff::kept_places(events.take(count), count);
            &&& 0 <= count <= events.len()
            &&& forall|i: int|
                0 <= i < count ==> handoff::covered(
                    (#[trigger] events[i]).source.offset,
                    file,
                    position,
                )
            &&& count < events.len() ==> !handoff::covered(
                events[count].source.offset,
                file,
                position,
            )
            &&& out.len() == places.len() + events.len() - count
            &&& out.skip(places.len() as int) == events.skip(count)
            &&& forall|k: int|
                0 <= k < places.len() ==> 0 <= #[trigger] places[k] < count && out[k]
                    == events[places[k]]
            &&& forall|k: int, l: int|
                0 <= k < l < places.len() ==> #[trigger] places[k] < #[trigger] places[l]
            &&& forall|i: int|
                0 <= i < count ==> (#[trigger] places.contains(i) <==> stays(events, count, i))
        }),
{
    let count = handoff::overlap(events, file, position);
    lemma_overlap(events, file, position);
    let part = events.take(count);
    let out = handoff::compacted(events, file, position);
    let places = handoff::kept_places(part, count);
    handoff::lemma_kept_places(part, count);
    assert(out.skip(places.len() as int) =~= events.skip(count));
    assert forall|i: int| 0 <= i < count implies (#[trigger] places.contains(i) <==> stays(
        events,
        count,
        i,
    )) by {
        assert(part[i] == events[i]);
        if places.contains(i) {
            let k = choose|k: int| 0 <= k < places.len() && places[k] == i;
            assert(!handoff::superseded(part, places[k]));
            if handoff::row_identity(events[i]) is Some {
                assert forall|later: int| i < later < count implies handoff::row_identity(
                    #[trigger] events[later],
                ) != handoff::row_identity(events[i]) by {
                    assert(part[later] == events[later]);
                }
            }
        }
        if stays(events, count, i) && handoff::superseded(part, i) {
            let later = choose|later: int|
                i < later < part.len() && handoff::row_identity(#[trigger] part[later])
                    == handoff::row_identity(part[i]);
            assert(part[later] == events[later]);
        }
    }
}

// Rotation

proof fn lemma_digits_run(name: Seq<char>, from: int, end: int)
    requires
        0 <= from <= end <= name.len(),
        forall|i: int| from <= i < end ==> '0' <= #[trigger] name[i] <= '9',
        end == name.len() || !('0' <= name[end] <= '9'),
    ensures
        parser::digits_end(name, from) == end,
    decreases end - from,
{
    if from < end {
        lemma_digits_run(name, from + 1, end);
    }
}

proof fn lemma_last_dot(name: Seq<char>, from: int, dot: int)
    requires
        0 <= dot <= from < name.len(),
        dot + 1 < name.len(),
        name[dot] == '.',
        '0' <= name[dot + 1] <= '9',
        forall|i: int|
            dot < i && i + 1 < name.len() && #[trigger] name[i] == '.' ==> !('0' <= name[i + 1]
                <= '9'),
    ensures
        parser::last_numbered_dot(name, from) == dot,
    decreases from - dot,
{
    if from > dot {
        lemma_last_dot(name, from - 1, dot);
    }
}

/// A rotation goes to the numbered file that it names. What follows the number is no part of the
/// name, as long as no other number behind a dot is in it.
pub proof fn rotation_names_its_file(base: Seq<char>, digits: Seq<char>, rest: Seq<char>)
    requires
        base.len() > 0,
        digits.len() > 0,
        forall|i: int| 0 <= i < digits.len() ==> '0' <= #[trigger] digits[i] <= '9',
        rest.len() > 0 ==> !('0' <= rest[0] <= '9'),
        forall|i: int|
            0 <= i && i + 1 < rest.len() && #[trigger] rest[i] == '.' ==> !('0' <= rest[i + 1]
                <= '9'),
    ensures
        parser::file_name(base + "."@ + digits + rest) == Some(base + "."@ + digits),
{
    reveal_strlit(".");
    let name = base + "."@ + digits + rest;
    let dot = base.len() as int;
    let end = dot + 1 + digits.len();
    assert(name[dot] == '.');
    assert(name[dot + 1] == digits[0]);
    assert forall|i: int|
        dot < i && i + 1 < name.len() && #[trigger] name[i] == '.' implies !('0' <= name[i + 1]
        <= '9') by {
        if i < end {
            assert(name[i] == digits[i - dot - 1]);
        } else {
            assert(name[i] == rest[i - end]);
            assert(name[i + 1] == rest[i - end + 1]);
        }
    }
    lemma_last_dot(name, name.len() - 1, dot);
    assert forall|i: int| dot + 1 <= i < end implies '0' <= #[trigger] name[i] <= '9' by {
        assert(name[i] == digits[i - dot - 1]);
    }
    if end < name.len() {
        assert(name[end] == rest[0]);
    }
    lemma_digits_run(name, dot + 1, end);
    assert(name.take(end) =~= base + "."@ + digits);
}

/// A name without a numbered ending, or with nothing before it, is no log file.
pub proof fn unnumbered_name_is_no_file(name: Seq<char>)
    requires
        forall|i: int|
            0 < i && i + 1 < name.len() && #[trigger] name[i] == '.' ==> !('0' <= name[i + 1]
                <= '9'),
    ensures
        parser::file_name(name) is None,
{
    lemma_no_numbered_dot(name, name.len() - 1);
}

proof fn lemma_no_numbered_dot(name: Seq<char>, from: int)
    requires
        from < name.len(),
        forall|i: int|
            0 < i && i + 1 < name.len() && #[trigger] name[i] == '.' ==> !('0' <= name[i + 1]
                <= '9'),
    ensures
        parser::last_numbered_dot(name, from) <= 0,
    decreases from + 1,
{
    if from > 0 {
        lemma_no_numbered_dot(name, from - 1);
    }
    reveal_with_fuel(parser::last_numbered_dot, 2);
}

// Rows

/// Two events are about the same row only where they are of the same schema and have the same
/// identity; one without an identity is about none.
pub proof fn rows_of_two_schemas_differ(one: EventView, other: EventView)
    ensures
        handoff::row_identity(one) is Some <==> fingerprint::event_identity(one) is Some,
        handoff::row_identity(one) is Some && handoff::row_identity(one) == handoff::row_identity(
            other,
        ) ==> one.schema == other.schema && fingerprint::event_identity(one)
            == fingerprint::event_identity(other),
        one.schema == other.schema && fingerprint::event_identity(one)
            == fingerprint::event_identity(other) ==> handoff::row_identity(one)
            == handoff::row_identity(other),
{
}

} // verus!
