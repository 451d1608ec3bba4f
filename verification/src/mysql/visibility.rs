//! Which live events a MySQL chunk read could have seen.
//!
//! A place in the binlog is reached before the engine commits, so that the order of places does not
//! tell whether a read saw a transaction. The executed set does: the server adds a transaction to it
//! once its rows are visible. A watermark keeps the set that was current when it was captured, and
//! an event's offset carries the set that the stream had executed with it.
use vstd::prelude::*;
use crate::event::Event;
use crate::incremental::table;
use crate::incremental::table::{
    BracketPosition, IncrementalSnapshotBackend, SegmentPosition, StreamPosition,
};
use crate::mysql::gtid;
use crate::mysql::gtid::{Run, SourceRuns, SourceView};
use crate::mysql::handoff;
use crate::mysql::parser;
use crate::text;

verus! {

// Containment

/// Whether one run of a set holds all of another run of the same source.
pub open spec fn run_covered(set: Seq<SourceView>, sid: Seq<char>, run: Run) -> bool {
    exists|j: int, l: int|
        0 <= j < set.len() && 0 <= l < set[j].runs.len() && set[j].sid == sid && (
        #[trigger] set[j].runs[l]).from <= run.from && run.to <= set[j].runs[l].to
}

/// Whether each run of a set is held by a run of another.
pub open spec fn covers(set: Seq<SourceView>, other: Seq<SourceView>) -> bool {
    forall|i: int, k: int|
        0 <= i < other.len() && 0 <= k < other[i].runs.len() ==> run_covered(
            set,
            other[i].sid,
            #[trigger] other[i].runs[k],
        )
}

fn is_run_covered(set: &Vec<SourceRuns>, sid: &str, run: Run) -> (yes: bool)
    ensures
        yes == run_covered(gtid::source_views(set@), sid@, run),
{
    let ghost views = gtid::source_views(set@);
    let mut j: usize = 0;
    while j < set.len()
        invariant
            j <= set@.len(),
            views == gtid::source_views(set@),
            forall|m: int, l: int|
                0 <= m < j && 0 <= l < views[m].runs.len() && views[m].sid == sid@ ==> !((
                #[trigger] views[m].runs[l]).from <= run.from && run.to <= views[m].runs[l].to),
        decreases set.len() - j,
    {
        proof {
            assert(views[j as int] == set@[j as int]@);
        }
        if text::same_text(set[j].sid.as_str(), sid) {
            let mut l: usize = 0;
            while l < set[j].runs.len()
                invariant
                    j < set@.len(),
                    l <= set@[j as int].runs@.len(),
                    views == gtid::source_views(set@),
                    views[j as int] == set@[j as int]@,
                    views[j as int].sid == sid@,
                    forall|m: int|
                        0 <= m < l ==> !((#[trigger] views[j as int].runs[m]).from <= run.from
                            && run.to <= views[j as int].runs[m].to),
                decreases set@[j as int].runs@.len() - l,
            {
                let one = set[j].runs[l];
                proof {
                    assert(views[j as int].runs[l as int] == one);
                }
                if one.from <= run.from && run.to <= one.to {
                    return true;
                }
                l = l + 1;
            }
        }
        j = j + 1;
    }
    false
}

/// Whether each run of a set is held by a run of another; see [`covers`].
pub fn is_covering(set: &Vec<SourceRuns>, other: &Vec<SourceRuns>) -> (yes: bool)
    ensures
        yes == covers(gtid::source_views(set@), gtid::source_views(other@)),
{
    let ghost views = gtid::source_views(set@);
    let ghost others = gtid::source_views(other@);
    let mut i: usize = 0;
    while i < other.len()
        invariant
            i <= other@.len(),
            views == gtid::source_views(set@),
            others == gtid::source_views(other@),
            forall|m: int, k: int|
                0 <= m < i && 0 <= k < others[m].runs.len() ==> run_covered(
                    views,
                    others[m].sid,
                    #[trigger] others[m].runs[k],
                ),
        decreases other.len() - i,
    {
        proof {
            assert(others[i as int] == other@[i as int]@);
        }
        let mut k: usize = 0;
        while k < other[i].runs.len()
            invariant
                i < other@.len(),
                k <= other@[i as int].runs@.len(),
                views == gtid::source_views(set@),
                others == gtid::source_views(other@),
                others[i as int] == other@[i as int]@,
                forall|m: int|
                    0 <= m < k ==> run_covered(
                        views,
                        others[i as int].sid,
                        #[trigger] others[i as int].runs[m],
                    ),
            decreases other@[i as int].runs@.len() - k,
        {
            proof {
                assert(others[i as int].runs[k as int] == other@[i as int].runs@[k as int]);
            }
            if !is_run_covered(set, other[i].sid.as_str(), other[i].runs[k]) {
                return false;
            }
            k = k + 1;
        }
        i = i + 1;
    }
    true
}

/// A set covers another exactly where it holds every transaction of it.
pub proof fn covering_is_containment(set: Seq<SourceView>, other: Seq<SourceView>)
    requires
        gtid::canonical(set),
        gtid::canonical(other),
    ensures
        covers(set, other) <==> forall|sid: Seq<char>, gno: int|
            gtid::in_set(other, sid, gno) ==> #[trigger] gtid::in_set(set, sid, gno),
{
    if covers(set, other) {
        assert forall|sid: Seq<char>, gno: int| gtid::in_set(other, sid, gno) implies
            #[trigger] gtid::in_set(set, sid, gno) by {
            let i = choose|i: int|
                0 <= i < other.len() && (#[trigger] other[i]).sid == sid && gtid::in_runs(
                    other[i].runs,
                    gno,
                );
            let k = choose|k: int|
                0 <= k < other[i].runs.len() && (#[trigger] other[i].runs[k]).from <= gno
                    <= other[i].runs[k].to;
            let run = other[i].runs[k];
            assert(run_covered(set, other[i].sid, run));
            let (j, l) = choose|j: int, l: int|
                0 <= j < set.len() && 0 <= l < set[j].runs.len() && set[j].sid == sid && (
                #[trigger] set[j].runs[l]).from <= run.from && run.to <= set[j].runs[l].to;
            assert(set[j].runs[l].from <= gno <= set[j].runs[l].to);
            assert(gtid::in_runs(set[j].runs, gno));
            assert(set[j].sid == sid);
        }
    }
    if forall|sid: Seq<char>, gno: int|
        gtid::in_set(other, sid, gno) ==> #[trigger] gtid::in_set(set, sid, gno) {
        assert forall|i: int, k: int|
            0 <= i < other.len() && 0 <= k < other[i].runs.len() implies run_covered(
            set,
            other[i].sid,
            #[trigger] other[i].runs[k],
        ) by {
            lemma_contained_run(set, other, i, k);
        }
    }
}

proof fn lemma_contained_run(set: Seq<SourceView>, other: Seq<SourceView>, i: int, k: int)
    requires
        gtid::canonical(set),
        gtid::canonical(other),
        0 <= i < other.len(),
        0 <= k < other[i].runs.len(),
        forall|sid: Seq<char>, gno: int|
            gtid::in_set(other, sid, gno) ==> #[trigger] gtid::in_set(set, sid, gno),
    ensures
        run_covered(set, other[i].sid, other[i].runs[k]),
{
    let run = other[i].runs[k];
    let sid = other[i].sid;
    assert(gtid::in_order(other[i].runs));
    assert forall|gno: int| run.from <= gno <= run.to implies #[trigger] gtid::in_set(
        set,
        sid,
        gno,
    ) by {
        assert(other[i].runs[k].from <= gno <= other[i].runs[k].to);
        assert(gtid::in_runs(other[i].runs, gno));
        assert(other[i].sid == sid);
        assert(gtid::in_set(other, sid, gno));
    }
    assert(gtid::in_set(set, sid, run.from as int));
    let j = choose|j: int|
        0 <= j < set.len() && (#[trigger] set[j]).sid == sid && gtid::in_runs(
            set[j].runs,
            run.from as int,
        );
    let l = choose|l: int|
        0 <= l < set[j].runs.len() && (#[trigger] set[j].runs[l]).from <= run.from
            <= set[j].runs[l].to;
    let held = set[j].runs[l];
    if held.to < run.to {
        let gap = held.to + 1;
        assert(gtid::in_set(set, sid, gap));
        let m = choose|m: int|
            0 <= m < set.len() && (#[trigger] set[m]).sid == sid && gtid::in_runs(
                set[m].runs,
                gap,
            );
        assert(m == j) by {
            if m < j {
                assert(set[m].sid != set[j].sid);
            } else if j < m {
                assert(set[j].sid != set[m].sid);
            }
        }
        let n = choose|n: int|
            0 <= n < set[j].runs.len() && (#[trigger] set[j].runs[n]).from <= gap
                <= set[j].runs[n].to;
        assert(gtid::in_order(set[j].runs));
        if n < l {
            assert(set[j].runs[n].to + 1 < set[j].runs[l].from);
        } else if l < n {
            assert(set[j].runs[l].to + 1 < set[j].runs[n].from);
        }
        assert(false);
    }
    assert(set[j].runs[l].from <= run.from && run.to <= set[j].runs[l].to);
}

proof fn lemma_covering_is_transitive(
    set: Seq<SourceView>,
    middle: Seq<SourceView>,
    other: Seq<SourceView>,
)
    requires
        covers(set, middle),
        covers(middle, other),
    ensures
        covers(set, other),
{
    assert forall|i: int, k: int|
        0 <= i < other.len() && 0 <= k < other[i].runs.len() implies run_covered(
        set,
        other[i].sid,
        #[trigger] other[i].runs[k],
    ) by {
        let run = other[i].runs[k];
        let sid = other[i].sid;
        assert(run_covered(middle, sid, run));
        let (j, l) = choose|j: int, l: int|
            0 <= j < middle.len() && 0 <= l < middle[j].runs.len() && middle[j].sid == sid && (
            #[trigger] middle[j].runs[l]).from <= run.from && run.to <= middle[j].runs[l].to;
        assert(run_covered(set, middle[j].sid, middle[j].runs[l]));
        let (m, n) = choose|m: int, n: int|
            0 <= m < set.len() && 0 <= n < set[m].runs.len() && set[m].sid == middle[j].sid && (
            #[trigger] set[m].runs[n]).from <= middle[j].runs[l].from && middle[j].runs[l].to
                <= set[m].runs[n].to;
        assert(set[m].runs[n].from <= run.from && run.to <= set[m].runs[n].to);
    }
}

// Positions

/// A place in the log, and the transactions that had been executed there, where that is known.
pub struct MysqlPosition {
    pub place: SegmentPosition,
    pub executed: Option<Vec<SourceRuns>>,
}

impl StreamPosition for MysqlPosition {
    open spec fn rank(&self) -> int {
        self.place.rank()
    }

    fn at_or_past(&self, other: &Self) -> (b: bool) {
        self.place.at_or_past(&other.place)
    }
}

/// The executed set that a text denotes; none where it denotes no set, or an empty one, of which
/// nothing can be said.
pub open spec fn known_set(source: Seq<char>) -> Option<Seq<SourceView>> {
    match gtid::read_set(source) {
        Some(set) => if set.len() > 0 {
            Some(set)
        } else {
            None
        },
        None => None,
    }
}

/// What an executed set holds, where it is known.
pub open spec fn executed_view(executed: Option<Vec<SourceRuns>>) -> Option<Seq<SourceView>> {
    match executed {
        Some(set) => Some(gtid::source_views(set@)),
        None => None,
    }
}

fn read_known_set(source: &str) -> (executed: Option<Vec<SourceRuns>>)
    ensures
        executed_view(executed) == known_set(source@),
{
    match gtid::parse_set(source) {
        Some(set) => {
            proof {
                assert(gtid::source_views(set@).len() == set@.len());
            }
            if set.len() > 0 {
                Some(set)
            } else {
                None
            }
        },
        None => None,
    }
}

/// The place that a file's name and a position name; none where the file has no number.
pub open spec fn segment(file: Seq<char>, position: u64) -> Option<SegmentPosition> {
    match handoff::file_number(file) {
        Some(number) => Some(SegmentPosition { file: number, position }),
        None => None,
    }
}

/// The executed set that an event's offset carries.
pub open spec fn executed_in(offset: Seq<char>) -> Option<Seq<SourceView>> {
    let parts = text::split(offset, '#');
    if parts.len() == 2 && parts[1].len() >= 5 && parts[1].take(5) == "gtid="@ {
        known_set(parts[1].skip(5))
    } else {
        None
    }
}

fn read_executed(offset: &str) -> (executed: Option<Vec<SourceRuns>>)
    ensures
        executed_view(executed) == executed_in(offset@),
{
    let parts = text::split_on(offset, '#');
    proof {
        assert(text::texts(parts@).len() == parts@.len());
    }
    if parts.len() != 2 {
        return None;
    }
    proof {
        assert(text::texts(parts@)[1] == parts@[1]@);
    }
    let chars = text::to_chars(parts[1].as_str());
    if chars.len() < 5 {
        return None;
    }
    let head = text::from_chars(&chars, 0, 5);
    let rest = text::from_chars(&chars, 5, chars.len());
    proof {
        assert(head@ =~= parts@[1]@.take(5));
        assert(rest@ =~= parts@[1]@.skip(5));
    }
    if text::same_text(head.as_str(), "gtid=") {
        read_known_set(rest.as_str())
    } else {
        None
    }
}

/// A watermark: the place that the server stands at and the set that it has executed. None where
/// the file has no number.
pub fn watermark(file: &str, position: u64, executed: &str) -> (mark: Option<MysqlPosition>)
    ensures
        match mark {
            Some(mark) => segment(file@, position) == Some(mark.place) && executed_view(
                mark.executed,
            ) == known_set(executed@),
            None => segment(file@, position) is None,
        },
{
    match handoff::read_file_number(file) {
        Some(number) => Some(
            MysqlPosition {
                place: SegmentPosition { file: number, position },
                executed: read_known_set(executed),
            },
        ),
        None => None,
    }
}

/// Where an event sits relative to two watermarks: before both where everything that the stream had
/// executed with it had been executed at the lower one, after both where not all of it had been at
/// the higher one. Where a set is not known, the order of places answers.
pub open spec fn bracket(
    position: MysqlPosition,
    low: MysqlPosition,
    high: MysqlPosition,
) -> BracketPosition {
    match (
        executed_view(position.executed),
        executed_view(low.executed),
        executed_view(high.executed),
    ) {
        (Some(with_it), Some(before), Some(after)) => if !covers(after, with_it) {
            BracketPosition::After
        } else if !covers(before, with_it) {
            BracketPosition::Inside
        } else {
            BracketPosition::Before
        },
        _ => table::ordinal_bracket(position.rank(), low.rank(), high.rank()),
    }
}

/// What a MySQL event says of its place.
#[derive(Clone, Copy, Debug)]
pub struct MysqlPositions;

impl IncrementalSnapshotBackend for MysqlPositions {
    type Position = MysqlPosition;

    fn position_of_event(&self, event: &Event) -> (position: Option<MysqlPosition>)
        ensures
            match position {
                Some(position) => handoff::place(event.source.offset@) matches Some((file, at))
                    && segment(file, at) == Some(position.place) && executed_view(
                    position.executed,
                ) == executed_in(event.source.offset@),
                None => handoff::place(event.source.offset@) matches Some((file, at)) ==> segment(
                    file,
                    at,
                ) is None,
            },
    {
        match handoff::read_place(event.source.offset.as_str()) {
            Some((file, position)) => match handoff::read_file_number(file.as_str()) {
                Some(number) => Some(
                    MysqlPosition {
                        place: SegmentPosition { file: number, position },
                        executed: read_executed(event.source.offset.as_str()),
                    },
                ),
                None => None,
            },
            None => None,
        }
    }

    fn event_in_bracket(
        &self,
        event: &Event,
        position: &MysqlPosition,
        low: &MysqlPosition,
        high: &MysqlPosition,
    ) -> (b: BracketPosition)
        ensures
            b == bracket(*position, *low, *high),
    {
        match (&position.executed, &low.executed, &high.executed) {
            (Some(with_it), Some(before), Some(after)) => {
                if !is_covering(after, with_it) {
                    BracketPosition::After
                } else if !is_covering(before, with_it) {
                    BracketPosition::Inside
                } else {
                    BracketPosition::Before
                }
            },
            _ => table::bracket_by_order(position, low, high),
        }
    }
}

// Laws

/// An event whose transaction had not been executed at the lower watermark is never taken for one
/// that the chunk read saw, however low its place in the log.
pub proof fn unexecuted_change_is_not_lost(
    position: MysqlPosition,
    low: MysqlPosition,
    high: MysqlPosition,
    with_it: Seq<SourceView>,
    before: Seq<SourceView>,
    sid: Seq<char>,
    gno: int,
)
    requires
        executed_view(position.executed) == Some(with_it),
        executed_view(low.executed) == Some(before),
        high.executed is Some,
        gtid::canonical(with_it),
        gtid::canonical(before),
        gtid::in_set(with_it, sid, gno),
        !gtid::in_set(before, sid, gno),
    ensures
        bracket(position, low, high) != BracketPosition::Before,
{
    covering_is_containment(before, with_it);
}

/// Once an event is past the higher watermark, so is every event that the stream gives after it:
/// what is held back from there on is all that is past the watermark.
pub proof fn past_the_watermark_stays_past(
    earlier: MysqlPosition,
    later: MysqlPosition,
    low: MysqlPosition,
    high: MysqlPosition,
    with_earlier: Seq<SourceView>,
    with_later: Seq<SourceView>,
)
    requires
        executed_view(earlier.executed) == Some(with_earlier),
        executed_view(later.executed) == Some(with_later),
        low.executed is Some,
        high.executed is Some,
        covers(with_later, with_earlier),
        bracket(earlier, low, high) == BracketPosition::After,
    ensures
        bracket(later, low, high) == BracketPosition::After,
{
    let after = executed_view(high.executed)->0;
    if covers(after, with_later) {
        lemma_covering_is_transitive(after, with_later, with_earlier);
    }
}

/// An event's offset carries the executed set that it was written with.
pub proof fn offset_carries_its_executed_set(file: Seq<char>, position: u32, executed: Seq<char>)
    requires
        !file.contains('#'),
        !executed.contains('#'),
        executed.len() > 0,
    ensures
        executed_in(parser::source_offset(file, position, executed)) == known_set(executed),
{
    let digits = text::decimal_text(position as nat);
    text::decimal_is_digits(position as nat);
    reveal_strlit(":");
    reveal_strlit("#gtid=");
    reveal_strlit("gtid=");
    let head = file + ":"@ + digits;
    assert forall|i: int| 0 <= i < head.len() implies head[i] != '#' by {
        if i < file.len() {
            assert(file.contains(file[i]));
        } else if i > file.len() {
            assert(digits.contains(digits[i - file.len() - 1]));
        }
    }
    let rest = "gtid="@ + executed;
    assert forall|i: int| 0 <= i < rest.len() implies rest[i] != '#' by {
        if i >= 5 {
            assert(executed.contains(executed[i - 5]));
        }
    }
    assert(parser::source_offset(file, position, executed) =~= head + seq!['#'] + rest);
    text::split_after_separator(head, '#', rest);
    text::split_without_separator(head, '#');
    assert(rest.take(5) =~= "gtid="@);
    assert(rest.skip(5) =~= executed);
}

} // verus!
