//! The handoff from a MySQL bulk snapshot to its stream: no gap between the two, and no change of
//! the overlap delivered more often than it has to be.
use vstd::prelude::*;
use crate::capabilities::{HandoffResult, SnapshotEnd};
use crate::error::Error;
use crate::event;
use crate::event::{Event, EventView};
use crate::incremental::fingerprint;
use crate::mysql::parser;
use crate::mysql::parser::MysqlOffset;
use crate::text;

verus! {

// Places in the log

/// The number of a log file: what follows its last dot.
pub open spec fn file_number(file: Seq<char>) -> Option<u64> {
    text::u64_in(text::split(file, '.').last(), 10)
}

/// Whether a place in the log is not after another. Files order by their numbers; of files without
/// one nothing is known, unless they are the same file.
pub open spec fn not_after(
    file: Seq<char>,
    position: u64,
    other_file: Seq<char>,
    other_position: u64,
) -> bool {
    if file == other_file {
        position <= other_position
    } else {
        match (file_number(file), file_number(other_file)) {
            (Some(a), Some(b)) => a < b,
            _ => false,
        }
    }
}

/// The file and the position that an event's offset names.
pub open spec fn place(offset: Seq<char>) -> Option<(Seq<char>, u64)> {
    let parts = text::split(text::split(offset, '#')[0], ':');
    if parts.len() == 2 {
        match text::u64_in(parts[1], 10) {
            Some(position) => Some((parts[0], position)),
            None => None,
        }
    } else {
        None
    }
}

/// Whether an event was written no later than a place in the log.
pub open spec fn covered(offset: Seq<char>, file: Seq<char>, position: u64) -> bool {
    match place(offset) {
        Some((event_file, event_position)) => not_after(
            event_file,
            event_position,
            file,
            position,
        ),
        None => false,
    }
}

pub(crate) fn read_file_number(file: &str) -> (number: Option<u64>)
    ensures
        number == file_number(file@),
{
    let parts = text::split_on(file, '.');
    proof {
        text::split_parts(file@, '.');
        assert(text::texts(parts@).len() == parts@.len());
        assert(text::texts(parts@).last() == parts@.last()@);
    }
    text::parse_decimal(parts[parts.len() - 1].as_str())
}

fn is_not_after(file: &str, position: u64, other_file: &str, other_position: u64) -> (yes: bool)
    ensures
        yes == not_after(file@, position, other_file@, other_position),
{
    if text::same_text(file, other_file) {
        position <= other_position
    } else {
        match (read_file_number(file), read_file_number(other_file)) {
            (Some(a), Some(b)) => a < b,
            _ => false,
        }
    }
}

/// The file and the position that an event's offset names; see [`place`].
pub(crate) fn read_place(offset: &str) -> (found: Option<(String, u64)>)
    ensures
        match found {
            Some((file, position)) => place(offset@) == Some((file@, position)),
            None => place(offset@) is None,
        },
{
    let heads = text::split_on(offset, '#');
    proof {
        text::split_parts(offset@, '#');
        assert(text::texts(heads@).len() == heads@.len());
        assert(text::texts(heads@)[0] == heads@[0]@);
    }
    let mut parts = text::split_on(heads[0].as_str(), ':');
    proof {
        assert(text::texts(parts@).len() == parts@.len());
    }
    if parts.len() != 2 {
        return None;
    }
    proof {
        assert(text::texts(parts@)[0] == parts@[0]@);
        assert(text::texts(parts@)[1] == parts@[1]@);
    }
    match text::parse_decimal(parts[1].as_str()) {
        Some(position) => Some((parts.swap_remove(0), position)),
        None => None,
    }
}

fn is_covered(offset: &str, file: &str, position: u64) -> (yes: bool)
    ensures
        yes == covered(offset@, file@, position),
{
    match read_place(offset) {
        Some((found_file, found)) => is_not_after(found_file.as_str(), found, file, position),
        None => false,
    }
}

/// An event's offset names the place that it was written from, whatever executed set follows it.
pub proof fn offset_names_its_place(file: Seq<char>, position: u32, gtid: Seq<char>)
    requires
        !file.contains(':'),
        !file.contains('#'),
    ensures
        place(parser::source_offset(file, position, gtid)) == Some((file, position as u64)),
{
    let digits = text::decimal_text(position as nat);
    text::decimal_is_digits(position as nat);
    text::number_round_trip(position as nat, 10);
    reveal_strlit(":");
    reveal_strlit("#gtid=");
    let head = file + ":"@ + digits;
    assert(":"@ =~= seq![':']);
    assert(!digits.contains(':'));
    assert(!digits.contains('#'));
    assert forall|i: int| 0 <= i < head.len() implies head[i] != '#' by {
        if i < file.len() {
            assert(file.contains(file[i]));
        } else if i > file.len() {
            assert(digits.contains(digits[i - file.len() - 1]));
        }
    }
    assert(!head.contains('#'));
    if gtid.len() == 0 {
        text::split_without_separator(head, '#');
    } else {
        let rest = "#gtid="@.skip(1) + gtid;
        assert(head + "#gtid="@ + gtid =~= head + seq!['#'] + rest);
        text::split_before_separator(head, '#', rest);
    }
    assert(head =~= file + seq![':'] + digits);
    text::split_after_separator(file, ':', digits);
    text::split_without_separator(file, ':');
    assert(seq![file].push(digits) =~= seq![file, digits]);
}

/// Checks that the stream starts no later than the snapshot was taken, so that no change falls
/// between the two.
pub fn check_watermarks(snapshot: &MysqlOffset, stream: &MysqlOffset) -> (checked: Result<
    (),
    Error,
>)
    ensures
        checked is Ok == not_after(
            stream.binlog_file@,
            stream.binlog_pos as u64,
            snapshot.binlog_file@,
            snapshot.binlog_pos as u64,
        ),
        checked matches Err(error) ==> error is SourceError && error.text()
            == "mysql handoff would lose changes: the stream starts at "@ + parser::source_offset(
            stream.binlog_file@,
            stream.binlog_pos,
            ""@,
        ) + ", after the snapshot watermark "@ + parser::source_offset(
            snapshot.binlog_file@,
            snapshot.binlog_pos,
            ""@,
        ),
{
    if is_not_after(
        stream.binlog_file.as_str(),
        stream.binlog_pos as u64,
        snapshot.binlog_file.as_str(),
        snapshot.binlog_pos as u64,
    ) {
        Ok(())
    } else {
        let started = parser::format_mysql_source_offset(
            stream.binlog_file.as_str(),
            stream.binlog_pos,
            "",
        );
        let taken = parser::format_mysql_source_offset(
            snapshot.binlog_file.as_str(),
            snapshot.binlog_pos,
            "",
        );
        Err(
            Error::SourceError(
                text::join2(
                    text::join3(
                        "mysql handoff would lose changes: the stream starts at ",
                        started.as_str(),
                        ", after the snapshot watermark ",
                    ).as_str(),
                    taken.as_str(),
                ),
            ),
        )
    }
}

// The overlap

/// The row that an event is about: its schema, and its identity within the table's.
pub open spec fn row_identity(one: EventView) -> Option<(Option<Seq<char>>, Seq<char>)> {
    match fingerprint::event_identity(one) {
        Some(identity) => Some((one.schema, identity)),
        None => None,
    }
}

/// Whether a later event is about the same row.
pub open spec fn superseded(events: Seq<EventView>, place: int) -> bool {
    row_identity(events[place]) is Some && exists|later: int|
        place < later < events.len() && #[trigger] row_identity(events[later]) == row_identity(
            events[place],
        )
}

/// The places of the events that no later one supersedes, among the first `count`.
pub open spec fn kept_places(events: Seq<EventView>, count: int) -> Seq<int>
    decreases count,
{
    if count <= 0 {
        Seq::empty()
    } else {
        let before = kept_places(events, count - 1);
        if superseded(events, count - 1) {
            before
        } else {
            before.push(count - 1)
        }
    }
}

/// The events that no later one supersedes, in their order.
pub open spec fn kept(events: Seq<EventView>) -> Seq<EventView> {
    kept_places(events, events.len() as int).map_values(|place: int| events[place])
}

struct RowIdentity {
    schema: Option<String>,
    identity: Option<String>,
}

impl RowIdentity {
    spec fn of(self) -> Option<(Option<Seq<char>>, Seq<char>)> {
        match self.identity {
            Some(identity) => Some((text::text_option(self.schema), identity@)),
            None => None,
        }
    }
}

fn same_option(a: &Option<String>, b: &Option<String>) -> (same: bool)
    ensures
        same == (text::text_option(*a) == text::text_option(*b)),
{
    match (a, b) {
        (Some(x), Some(y)) => text::same_text(x.as_str(), y.as_str()),
        (None, None) => true,
        _ => false,
    }
}

fn read_identities(events: &Vec<Event>) -> (list: Vec<RowIdentity>)
    ensures
        list@.len() == events@.len(),
        forall|i: int|
            0 <= i < events@.len() ==> (#[trigger] list@[i]).of() == row_identity(events@[i]@),
{
    let mut list: Vec<RowIdentity> = Vec::new();
    let mut i: usize = 0;
    while i < events.len()
        invariant
            i <= events@.len(),
            list@.len() == i,
            forall|k: int|
                0 <= k < i ==> (#[trigger] list@[k]).of() == row_identity(events@[k]@),
        decreases events.len() - i,
    {
        list.push(
            RowIdentity {
                schema: text::clone_text_option(&events[i].schema),
                identity: fingerprint::event_fingerprint(&events[i]),
            },
        );
        i = i + 1;
    }
    list
}

fn is_superseded(list: &Vec<RowIdentity>, place: usize) -> (yes: bool)
    requires
        place < list@.len(),
    ensures
        yes == (list@[place as int].of() is Some && exists|later: int|
            place < later < list@.len() && (#[trigger] list@[later]).of()
                == list@[place as int].of()),
{
    if list[place].identity.is_none() {
        return false;
    }
    let size = list.len();
    let mut k: usize = place + 1;
    while k < size
        invariant
            place < k <= size,
            size == list@.len(),
            list@[place as int].of() is Some,
            forall|later: int|
                place < later < k ==> (#[trigger] list@[later]).of() != list@[place as int].of(),
        decreases size - k,
    {
        if same_option(&list[place].identity, &list[k].identity) && same_option(
            &list[place].schema,
            &list[k].schema,
        ) {
            proof {
                assert(list@[k as int].of() == list@[place as int].of());
            }
            return true;
        }
        k = k + 1;
    }
    false
}

/// Leaves the last event about each row, in place, and counts those left out. An event that names
/// no row stays.
pub fn dedup_overlap_events_by_pk(events: Vec<Event>) -> (outcome: (Vec<Event>, usize))
    ensures
        event::event_views(outcome.0@) == kept(event::event_views(events@)),
        outcome.0@.len() + outcome.1 == events@.len(),
{
    let ghost views = event::event_views(events@);
    let ghost whole = events@;
    let list = read_identities(&events);
    let size = list.len();
    let mut left: Vec<Event> = Vec::new();
    let mut dropped: usize = 0;
    let mut i: usize = 0;
    proof {
        assert(event::event_views(left@) =~= kept_places(views, 0).map_values(
            |place: int| views[place],
        ));
    }
    for one in iter: events
        invariant
            iter.seq() == whole,
            i == iter.index(),
            views == event::event_views(whole),
            list@.len() == whole.len(),
            size == list@.len(),
            forall|k: int|
                0 <= k < whole.len() ==> (#[trigger] list@[k]).of() == row_identity(whole[k]@),
            event::event_views(left@) == kept_places(views, i as int).map_values(
                |place: int| views[place],
            ),
            left@.len() + dropped == i,
    {
        let ghost before = event::event_views(left@);
        let ghost n = i as int;
        proof {
            assert(i < size);
            assert(views[n] == whole[n]@);
            assert(list@[n].of() == row_identity(views[n]));
            let by_list = list@[n].of() is Some && exists|later: int|
                n < later < list@.len() && (#[trigger] list@[later]).of() == list@[n].of();
            if by_list {
                let later = choose|later: int|
                    n < later < list@.len() && (#[trigger] list@[later]).of() == list@[n].of();
                assert(views[later] == whole[later]@);
                assert(row_identity(views[later]) == row_identity(views[n]));
            }
            if superseded(views, n) {
                let later = choose|later: int|
                    n < later < views.len() && #[trigger] row_identity(views[later])
                        == row_identity(views[n]);
                assert(views[later] == whole[later]@);
                assert(list@[later].of() == list@[n].of());
            }
            assert(by_list == superseded(views, n));
        }
        if is_superseded(&list, i) {
            dropped = dropped + 1;
        } else {
            let ghost seen = one@;
            left.push(one);
            proof {
                assert(event::event_views(left@) =~= before.push(seen));
                let places = kept_places(views, n);
                assert(places.push(n).map_values(|place: int| views[place]) =~= places.map_values(
                    |place: int| views[place],
                ).push(views[n]));
            }
        }
        i = i + 1;
    }
    (left, dropped)
}

pub(crate) proof fn lemma_kept_places(events: Seq<EventView>, count: int)
    requires
        0 <= count <= events.len(),
    ensures
        forall|k: int|
            0 <= k < kept_places(events, count).len() ==> 0 <= #[trigger] kept_places(
                events,
                count,
            )[k] < count && !superseded(events, kept_places(events, count)[k]),
        forall|k: int, l: int|
            0 <= k < l < kept_places(events, count).len() ==> #[trigger] kept_places(
                events,
                count,
            )[k] < #[trigger] kept_places(events, count)[l],
        forall|i: int|
            0 <= i < count && !superseded(events, i) ==> #[trigger] kept_places(
                events,
                count,
            ).contains(i),
    decreases count,
{
    if count > 0 {
        lemma_kept_places(events, count - 1);
        let before = kept_places(events, count - 1);
        let now = kept_places(events, count);
        assert forall|i: int| 0 <= i < count && !superseded(events, i) implies now.contains(
            i,
        ) by {
            if i < count - 1 {
                assert(before.contains(i));
                let k = choose|k: int| 0 <= k < before.len() && before[k] == i;
                assert(now[k] == i);
            } else {
                assert(now[now.len() - 1] == i);
            }
        }
    }
}

/// Of the events about one row exactly the last stays: no two that stay are about the same row,
/// and whatever nothing supersedes stays.
pub proof fn last_writer_wins(events: Seq<EventView>)
    ensures
        forall|k: int, l: int|
            0 <= k < l < kept(events).len() && row_identity(#[trigger] kept(events)[k]) is Some
                ==> row_identity(kept(events)[k]) != row_identity(#[trigger] kept(events)[l]),
        forall|i: int|
            0 <= i < events.len() && !superseded(events, i) ==> kept(events).contains(
                #[trigger] events[i],
            ),
{
    let places = kept_places(events, events.len() as int);
    lemma_kept_places(events, events.len() as int);
    assert forall|k: int, l: int|
        0 <= k < l < kept(events).len() && row_identity(
            #[trigger] kept(events)[k],
        ) is Some implies row_identity(kept(events)[k]) != row_identity(
        #[trigger] kept(events)[l],
    ) by {
        assert(places[k] < places[l]);
        assert(!superseded(events, places[k]));
    }
    assert forall|i: int| 0 <= i < events.len() && !superseded(events, i) implies kept(
        events,
    ).contains(#[trigger] events[i]) by {
        assert(places.contains(i));
        let k = choose|k: int| 0 <= k < places.len() && places[k] == i;
        assert(kept(events)[k] == events[i]);
    }
}

/// How many events, from the first on, were written no later than the snapshot was taken.
pub open spec fn overlap(events: Seq<EventView>, file: Seq<char>, position: u64) -> int
    decreases events.len(),
{
    if events.len() == 0 || !covered(events[0].source.offset, file, position) {
        0
    } else {
        1 + overlap(events.drop_first(), file, position)
    }
}

proof fn lemma_overlap_bound(events: Seq<EventView>, file: Seq<char>, position: u64)
    ensures
        0 <= overlap(events, file, position) <= events.len(),
    decreases events.len(),
{
    if events.len() > 0 {
        lemma_overlap_bound(events.drop_first(), file, position);
    }
}

fn overlap_length(events: &Vec<Event>, file: &str, position: u64) -> (count: usize)
    ensures
        count as int == overlap(event::event_views(events@), file@, position),
        count <= events@.len(),
{
    let ghost views = event::event_views(events@);
    let size = events.len();
    let mut i: usize = 0;
    proof {
        assert(views.skip(0) =~= views);
        lemma_overlap_bound(views, file@, position);
    }
    while i < size && is_covered(events[i].source.offset.as_str(), file, position)
        invariant
            i <= size,
            size == events@.len(),
            views == event::event_views(events@),
            overlap(views, file@, position) == i + overlap(
                views.skip(i as int),
                file@,
                position,
            ),
            overlap(views, file@, position) <= size,
        decreases size - i,
    {
        proof {
            assert(views[i as int] == events@[i as int]@);
            assert(views.skip(i as int).drop_first() =~= views.skip(i + 1));
            assert(views.skip(i as int)[0] == views[i as int]);
            lemma_overlap_bound(views.skip(i + 1), file@, position);
        }
        i = i + 1;
    }
    proof {
        let rest = views.skip(i as int);
        if i < size {
            assert(rest[0] == views[i as int]);
            assert(views[i as int] == events@[i as int]@);
        }
        assert(overlap(rest, file@, position) == 0);
    }
    i
}

/// The events to hand back to the stream: the overlap with the last change of each row only, and
/// then the rest.
pub open spec fn compacted(events: Seq<EventView>, file: Seq<char>, position: u64) -> Seq<
    EventView,
> {
    let count = overlap(events, file, position);
    kept(events.take(count)) + events.skip(count)
}

/// Compacts the overlap of drained events; see [`compacted`]. Says how many events were left out.
pub fn compact_overlap(events: Vec<Event>, snapshot: &MysqlOffset) -> (outcome: (
    Vec<Event>,
    usize,
))
    ensures
        event::event_views(outcome.0@) == compacted(
            event::event_views(events@),
            snapshot.binlog_file@,
            snapshot.binlog_pos as u64,
        ),
        outcome.0@.len() + outcome.1 == events@.len(),
{
    let ghost views = event::event_views(events@);
    let count = overlap_length(
        &events,
        snapshot.binlog_file.as_str(),
        snapshot.binlog_pos as u64,
    );
    let mut head = events;
    let mut rest = head.split_off(count);
    proof {
        assert(event::event_views(head@) =~= views.take(count as int));
        assert(event::event_views(rest@) =~= views.skip(count as int));
    }
    let ghost tail = event::event_views(rest@);
    let (mut left, dropped) = dedup_overlap_events_by_pk(head);
    let ghost lead = event::event_views(left@);
    left.append(&mut rest);
    proof {
        assert(event::event_views(left@) =~= lead + tail);
    }
    (left, dropped)
}

/// Whether to poll the stream for more overlap: the last batch lay wholly within it, and there is
/// budget left. A budget of zero is without limit.
pub fn keep_draining(batch: &Vec<Event>, snapshot: &MysqlOffset, elapsed_ms: u64, budget_ms: u64) -> (
    more: bool)
    ensures
        more == (batch@.len() > 0 && overlap(
            event::event_views(batch@),
            snapshot.binlog_file@,
            snapshot.binlog_pos as u64,
        ) == batch@.len() && (budget_ms == 0 || elapsed_ms < budget_ms)),
{
    batch.len() > 0 && overlap_length(
        batch,
        snapshot.binlog_file.as_str(),
        snapshot.binlog_pos as u64,
    ) == batch.len() && (budget_ms == 0 || elapsed_ms < budget_ms)
}

/// What a completed handoff reports.
pub fn mysql_handoff_result(snapshot_end: SnapshotEnd, stream_start_ts: u64, dropped: usize) -> (
    result: HandoffResult)
    ensures
        result == (HandoffResult {
            snapshot_end_ts: Some(snapshot_end.snapshot_end_ts),
            stream_start_ts: Some(stream_start_ts),
            overlap_events_dropped: Some(dropped as u64),
            stream_watermark_gap: None,
        }),
{
    HandoffResult {
        snapshot_end_ts: Some(snapshot_end.snapshot_end_ts),
        stream_start_ts: Some(stream_start_ts),
        overlap_events_dropped: Some(dropped as u64),
        stream_watermark_gap: None,
    }
}

} // verus!
