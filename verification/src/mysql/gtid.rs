//! GTID sets: which transactions a replica has executed.
//!
//! A set is written `uuid:interval[:interval]...`, comma-separated, an interval being `m` or
//! `m-n`. A checkpoint must accumulate the set; collapsing it to one transaction would have the
//! server replay everything before it.
use vstd::prelude::*;
use crate::bytes;
use crate::text;

verus! {

/// The transactions `from..=to` of one source.
#[derive(Clone, Copy, Debug, PartialEq, Eq, Structural)]
pub struct Run {
    pub from: u64,
    pub to: u64,
}

/// The transactions of one source.
pub struct SourceRuns {
    pub sid: String,
    pub runs: Vec<Run>,
}

/// What a [`SourceRuns`] holds.
pub struct SourceView {
    pub sid: Seq<char>,
    pub runs: Seq<Run>,
}

impl View for SourceRuns {
    type V = SourceView;

    open spec fn view(&self) -> SourceView {
        SourceView { sid: self.sid@, runs: self.runs@ }
    }
}

/// What each of some sources' runs holds.
pub open spec fn source_views(set: Seq<SourceRuns>) -> Seq<SourceView> {
    set.map_values(|one: SourceRuns| one@)
}

/// Whether a transaction is in the runs.
pub open spec fn in_runs(runs: Seq<Run>, gno: int) -> bool {
    exists|i: int| 0 <= i < runs.len() && (#[trigger] runs[i]).from <= gno <= runs[i].to
}

/// Runs in ascending order, with at least one transaction missing between each two.
pub open spec fn in_order(runs: Seq<Run>) -> bool {
    &&& forall|i: int| 0 <= i < runs.len() ==> (#[trigger] runs[i]).from <= runs[i].to
    &&& forall|i: int, j: int|
        0 <= i < j < runs.len() ==> (#[trigger] runs[i]).to + 1 < (#[trigger] runs[j]).from
}

/// One run over both.
pub open spec fn hull(a: Run, b: Run) -> Run {
    Run {
        from: if a.from < b.from {
            a.from
        } else {
            b.from
        },
        to: if a.to > b.to {
            a.to
        } else {
            b.to
        },
    }
}

/// The runs with another added: joined with every run that it overlaps or touches.
pub open spec fn with_run(runs: Seq<Run>, run: Run) -> Seq<Run>
    decreases runs.len(),
{
    if runs.len() == 0 {
        seq![run]
    } else if runs.last().to + 1 < run.from {
        runs.push(run)
    } else if run.to + 1 < runs.last().from {
        with_run(runs.drop_last(), run).push(runs.last())
    } else {
        with_run(runs.drop_last(), hull(runs.last(), run))
    }
}

/// The place of a source in a set, or the set's length.
pub open spec fn source_place(set: Seq<SourceView>, sid: Seq<char>) -> int
    decreases set.len(),
{
    if set.len() == 0 || set[0].sid == sid {
        0
    } else {
        1 + source_place(set.drop_first(), sid)
    }
}

/// The set with a run of a source added.
pub open spec fn with_source_run(set: Seq<SourceView>, sid: Seq<char>, run: Run) -> Seq<
    SourceView,
> {
    let place = source_place(set, sid);
    if place < set.len() {
        set.update(place, SourceView { sid, runs: with_run(set[place].runs, run) })
    } else {
        set.push(SourceView { sid, runs: seq![run] })
    }
}

/// The set with several runs of a source added.
pub open spec fn with_source_runs(set: Seq<SourceView>, sid: Seq<char>, runs: Seq<Run>) -> Seq<
    SourceView,
>
    decreases runs.len(),
{
    if runs.len() == 0 {
        set
    } else {
        with_source_run(with_source_runs(set, sid, runs.drop_last()), sid, runs.last())
    }
}

/// The union of two sets.
pub open spec fn union(set: Seq<SourceView>, other: Seq<SourceView>) -> Seq<SourceView>
    decreases other.len(),
{
    if other.len() == 0 {
        set
    } else {
        with_source_runs(union(set, other.drop_last()), other.last().sid, other.last().runs)
    }
}

// Reading

/// The run that an interval denotes, `m` or `m-n` with `m <= n`.
pub open spec fn read_run(part: Seq<char>) -> Option<Run> {
    let ends = text::split(part, '-');
    if ends.len() == 1 {
        match text::u64_in(ends[0], 10) {
            Some(n) => Some(Run { from: n, to: n }),
            None => None,
        }
    } else if ends.len() == 2 {
        match (text::u64_in(ends[0], 10), text::u64_in(ends[1], 10)) {
            (Some(m), Some(n)) => if m <= n {
                Some(Run { from: m, to: n })
            } else {
                None
            },
            _ => None,
        }
    } else {
        None
    }
}

/// The runs that intervals denote; `None` where one denotes none.
pub open spec fn read_runs(parts: Seq<Seq<char>>) -> Option<Seq<Run>>
    decreases parts.len(),
{
    if parts.len() == 0 {
        Some(Seq::empty())
    } else {
        match (read_runs(parts.drop_last()), read_run(parts.last())) {
            (Some(runs), Some(run)) => Some(runs.push(run)),
            _ => None,
        }
    }
}

/// The runs that an entry `sid:interval[:interval]...` denotes.
pub open spec fn read_entry(entry: Seq<char>) -> Option<SourceView> {
    let parts = text::split(entry, ':');
    if parts.len() < 2 || parts[0].len() == 0 {
        None
    } else {
        match read_runs(parts.skip(1)) {
            Some(runs) => Some(SourceView { sid: parts[0], runs }),
            None => None,
        }
    }
}

/// The set that entries denote; a blank entry denotes nothing.
pub open spec fn read_entries(entries: Seq<Seq<char>>) -> Option<Seq<SourceView>>
    decreases entries.len(),
{
    if entries.len() == 0 {
        Some(Seq::empty())
    } else {
        let last = text::trimmed(entries.last());
        match read_entries(entries.drop_last()) {
            Some(set) => if last.len() == 0 {
                Some(set)
            } else {
                match read_entry(last) {
                    Some(one) => Some(with_source_runs(set, one.sid, one.runs)),
                    None => None,
                }
            },
            None => None,
        }
    }
}

/// The set that a text denotes.
pub open spec fn read_set(set: Seq<char>) -> Option<Seq<SourceView>> {
    read_entries(text::split(set, ','))
}

// Writing

/// An interval: `m` for one transaction, never `m-m`.
pub open spec fn run_text(run: Run) -> Seq<char> {
    if run.from == run.to {
        text::decimal_text(run.from as nat)
    } else {
        text::decimal_text(run.from as nat) + "-"@ + text::decimal_text(run.to as nat)
    }
}

/// The intervals, each behind a colon.
pub open spec fn runs_text(runs: Seq<Run>) -> Seq<char>
    decreases runs.len(),
{
    if runs.len() == 0 {
        Seq::empty()
    } else {
        runs_text(runs.drop_last()) + ":"@ + run_text(runs.last())
    }
}

/// A set as a checkpoint keeps it.
pub open spec fn set_text(set: Seq<SourceView>) -> Seq<char>
    decreases set.len(),
{
    if set.len() == 0 {
        Seq::empty()
    } else if set.len() == 1 {
        set[0].sid + runs_text(set[0].runs)
    } else {
        set_text(set.drop_last()) + ","@ + set.last().sid + runs_text(set.last().runs)
    }
}

// Executable code

fn add_run(runs: &mut Vec<Run>, added: Run)
    requires
        added.from <= added.to,
    ensures
        final(runs)@ == with_run(old(runs)@, added),
{
    let ghost start = runs@;
    let mut run = added;
    let mut later: Vec<Run> = Vec::new();
    let mut placed = false;
    proof {
        assert(with_run(runs@, run) + later@.reverse() =~= with_run(start, added));
    }
    while !placed && runs.len() > 0
        invariant
            run.from <= run.to,
            !placed ==> with_run(start, added) == with_run(runs@, run) + later@.reverse(),
            placed ==> with_run(start, added) == runs@ + later@.reverse(),
        decreases
                if placed {
                    0int
                } else {
                    runs@.len() as int + 1
                },
    {
        let last = runs[runs.len() - 1];
        let ghost before = runs@;
        let ghost after = later@;
        if last.to < run.from && run.from - last.to > 1 {
            runs.push(run);
            placed = true;
        } else if run.to < last.from && last.from - run.to > 1 {
            let _taken = runs.pop();
            later.push(last);
            proof {
                assert(runs@ =~= before.drop_last());
                assert(later@.reverse() =~= seq![last] + after.reverse());
                assert(with_run(before, run) + after.reverse() =~= with_run(runs@, run)
                    + later@.reverse());
            }
        } else {
            let _taken = runs.pop();
            proof {
                assert(runs@ =~= before.drop_last());
            }
            run =
            Run {
                from: if last.from < run.from {
                    last.from
                } else {
                    run.from
                },
                to: if last.to > run.to {
                    last.to
                } else {
                    run.to
                },
            };
        }
    }
    if !placed {
        let ghost before = runs@;
        runs.push(run);
        proof {
            assert(before =~= Seq::<Run>::empty());
            assert(runs@ =~= with_run(before, run));
        }
    }
    while later.len() > 0
        invariant
            with_run(start, added) == runs@ + later@.reverse(),
        decreases later@.len(),
    {
        let ghost before = runs@;
        let ghost after = later@;
        match later.pop() {
            Some(run) => {
                runs.push(run);
                proof {
                    assert(after.reverse() =~= seq![run] + later@.reverse());
                    assert(before + after.reverse() =~= runs@ + later@.reverse());
                }
            },
            None => {},
        }
    }
    proof {
        assert(runs@ + later@.reverse() =~= runs@);
    }
}

fn find_source(set: &Vec<SourceRuns>, sid: &str) -> (place: Option<usize>)
    ensures
        match place {
            Some(i) => i as int == source_place(source_views(set@), sid@) && i < set@.len(),
            None => source_place(source_views(set@), sid@) == set@.len(),
        },
{
    let ghost views = source_views(set@);
    let mut i: usize = 0;
    proof {
        assert(views.skip(0) =~= views);
    }
    while i < set.len()
        invariant
            i <= set@.len(),
            views == source_views(set@),
            source_place(views, sid@) == i + source_place(views.skip(i as int), sid@),
        decreases set.len() - i,
    {
        proof {
            assert(views.skip(i as int)[0] == set@[i as int]@);
            assert(views.skip(i as int).drop_first() =~= views.skip(i + 1));
        }
        if text::same_text(set[i].sid.as_str(), sid) {
            return Some(i);
        }
        i = i + 1;
    }
    None
}

fn add_source_run(set: &mut Vec<SourceRuns>, sid: &str, run: Run)
    requires
        run.from <= run.to,
    ensures
        source_views(final(set)@) == with_source_run(source_views(old(set)@), sid@, run),
{
    let ghost views = source_views(set@);
    match find_source(set, sid) {
        Some(place) => {
            let ghost p = place as int;
            proof {
                lemma_source_place(views, sid@);
                assert(views[p] == set@[p]@);
            }
            add_run(&mut set[place].runs, run);
            proof {
                assert(source_views(set@) =~= with_source_run(views, sid@, run));
            }
        },
        None => {
            let mut runs: Vec<Run> = Vec::new();
            runs.push(run);
            let one = SourceRuns { sid: sid.to_owned(), runs };
            proof {
                assert(one@.runs =~= seq![run]);
            }
            set.push(one);
            proof {
                assert(source_views(set@) =~= with_source_run(views, sid@, run));
            }
        },
    }
}

fn add_source_runs(set: &mut Vec<SourceRuns>, sid: &str, runs: &Vec<Run>)
    requires
        forall|i: int| 0 <= i < runs@.len() ==> (#[trigger] runs@[i]).from <= runs@[i].to,
    ensures
        source_views(final(set)@) == with_source_runs(source_views(old(set)@), sid@, runs@),
{
    let ghost views = source_views(set@);
    let mut i: usize = 0;
    while i < runs.len()
        invariant
            i <= runs@.len(),
            forall|k: int| 0 <= k < runs@.len() ==> (#[trigger] runs@[k]).from <= runs@[k].to,
            source_views(set@) == with_source_runs(views, sid@, runs@.take(i as int)),
        decreases runs.len() - i,
    {
        proof {
            assert(runs@.take(i + 1).drop_last() =~= runs@.take(i as int));
        }
        add_source_run(set, sid, runs[i]);
        i = i + 1;
    }
    proof {
        assert(runs@.take(i as int) =~= runs@);
    }
}

fn parse_run(part: &str) -> (run: Option<Run>)
    ensures
        run == read_run(part@),
{
    let ends = text::split_on(part, '-');
    proof {
        assert(text::texts(ends@).len() == ends@.len());
    }
    if ends.len() == 1 {
        proof {
            assert(text::texts(ends@)[0] == ends@[0]@);
        }
        match text::parse_decimal(ends[0].as_str()) {
            Some(n) => Some(Run { from: n, to: n }),
            None => None,
        }
    } else if ends.len() == 2 {
        proof {
            assert(text::texts(ends@)[0] == ends@[0]@);
            assert(text::texts(ends@)[1] == ends@[1]@);
        }
        match (text::parse_decimal(ends[0].as_str()), text::parse_decimal(ends[1].as_str())) {
            (Some(m), Some(n)) => {
                if m <= n {
                    Some(Run { from: m, to: n })
                } else {
                    None
                }
            },
            _ => None,
        }
    } else {
        None
    }
}

/// Reading runs fails as soon as a prefix of the intervals fails.
proof fn lemma_read_runs_prefix(parts: Seq<Seq<char>>, len: int)
    requires
        0 <= len <= parts.len(),
    ensures
        read_runs(parts.take(len)) is None ==> read_runs(parts) is None,
    decreases parts.len(),
{
    if len == parts.len() {
        assert(parts.take(len) =~= parts);
    } else {
        lemma_read_runs_prefix(parts.drop_last(), len);
        assert(parts.drop_last().take(len) =~= parts.take(len));
    }
}

fn parse_entry(entry: &str) -> (one: Option<SourceRuns>)
    ensures
        match one {
            Some(one) => read_entry(entry@) == Some(one@) && forall|i: int|
                0 <= i < one.runs@.len() ==> (#[trigger] one.runs@[i]).from <= one.runs@[i].to,
            None => read_entry(entry@) is None,
        },
{
    let parts = text::split_on(entry, ':');
    let ghost views = text::texts(parts@);
    proof {
        assert(views.len() == parts@.len());
        reveal_strlit("");
    }
    if parts.len() < 2 {
        return None;
    }
    proof {
        assert(views[0] == parts@[0]@);
        if parts@[0]@.len() == 0 {
            assert(parts@[0]@ =~= ""@);
        }
    }
    if text::same_text(parts[0].as_str(), "") {
        return None;
    }
    let ghost intervals = views.skip(1);
    let mut runs: Vec<Run> = Vec::new();
    let mut i: usize = 1;
    proof {
        assert(intervals.take(0) =~= Seq::<Seq<char>>::empty());
        assert(runs@ =~= Seq::<Run>::empty());
    }
    while i < parts.len()
        invariant
            1 <= i <= parts@.len(),
            views == text::texts(parts@),
            intervals == views.skip(1),
            views.len() == parts@.len(),
            read_entry(entry@) == (match read_runs(intervals) {
                Some(all) => Some(SourceView { sid: parts@[0]@, runs: all }),
                None => None,
            }),
            read_runs(intervals.take(i - 1)) == Some(runs@),
            forall|k: int| 0 <= k < runs@.len() ==> (#[trigger] runs@[k]).from <= runs@[k].to,
        decreases parts.len() - i,
    {
        let ghost prefix = intervals.take(i as int);
        proof {
            assert(prefix.drop_last() =~= intervals.take(i - 1));
            assert(prefix.last() == parts@[i as int]@);
            lemma_read_runs_prefix(intervals, i as int);
        }
        match parse_run(parts[i].as_str()) {
            Some(run) => {
                runs.push(run);
            },
            None => {
                return None;
            },
        }
        i = i + 1;
    }
    proof {
        assert(intervals.take(i - 1) =~= intervals);
    }
    let mut parts = parts;
    let sid = parts.swap_remove(0);
    Some(SourceRuns { sid, runs })
}

proof fn lemma_read_entries_prefix(entries: Seq<Seq<char>>, len: int)
    requires
        0 <= len <= entries.len(),
    ensures
        read_entries(entries.take(len)) is None ==> read_entries(entries) is None,
    decreases entries.len(),
{
    if len == entries.len() {
        assert(entries.take(len) =~= entries);
    } else {
        lemma_read_entries_prefix(entries.drop_last(), len);
        assert(entries.drop_last().take(len) =~= entries.take(len));
    }
}

/// Whether every run of a set has an end no smaller than its start.
pub open spec fn runs_are_proper(set: Seq<SourceView>) -> bool {
    forall|i: int, k: int|
        0 <= i < set.len() && 0 <= k < (#[trigger] set[i]).runs.len() ==> (
        #[trigger] set[i].runs[k]).from <= set[i].runs[k].to
}

proof fn lemma_source_place(set: Seq<SourceView>, sid: Seq<char>)
    ensures
        0 <= source_place(set, sid) <= set.len(),
        source_place(set, sid) < set.len() ==> set[source_place(set, sid)].sid == sid,
        forall|i: int|
            0 <= i < source_place(set, sid) ==> (#[trigger] set[i]).sid != sid,
    decreases set.len(),
{
    if set.len() > 0 && set[0].sid != sid {
        lemma_source_place(set.drop_first(), sid);
        assert forall|i: int| 0 <= i < source_place(set, sid) implies (#[trigger] set[i]).sid
            != sid by {
            if i > 0 {
                assert(set.drop_first()[i - 1] == set[i]);
            }
        }
    }
}

/// The set that a text denotes; see [`read_set`].
pub fn parse_set(set: &str) -> (sources: Option<Vec<SourceRuns>>)
    ensures
        match sources {
            Some(sources) => read_set(set@) == Some(source_views(sources@)),
            None => read_set(set@) is None,
        },
{
    let entries = text::split_on(set, ',');
    let ghost views = text::texts(entries@);
    let mut sources: Vec<SourceRuns> = Vec::new();
    let mut i: usize = 0;
    proof {
        assert(views.take(0) =~= Seq::<Seq<char>>::empty());
        assert(source_views(sources@) =~= Seq::<SourceView>::empty());
        reveal_strlit("");
    }
    while i < entries.len()
        invariant
            i <= entries@.len(),
            views == text::texts(entries@),
            ""@.len() == 0,
            read_entries(views.take(i as int)) == Some(source_views(sources@)),
            read_set(set@) == read_entries(views),
        decreases entries.len() - i,
    {
        let ghost prefix = views.take(i + 1);
        proof {
            assert(prefix.drop_last() =~= views.take(i as int));
            assert(prefix.last() == entries@[i as int]@);
            lemma_read_entries_prefix(views, i + 1);
        }
        let entry = text::trim(entries[i].as_str());
        proof {
            if entry@.len() == 0 {
                assert(entry@ =~= ""@);
            }
        }
        if !text::same_text(entry.as_str(), "") {
            match parse_entry(entry.as_str()) {
                Some(one) => {
                    add_source_runs(&mut sources, one.sid.as_str(), &one.runs);
                },
                None => {
                    return None;
                },
            }
        }
        i = i + 1;
    }
    proof {
        assert(views.take(i as int) =~= views);
    }
    Some(sources)
}

fn write_runs(out: &mut String, runs: &Vec<Run>)
    ensures
        final(out)@ == old(out)@ + runs_text(runs@),
{
    let ghost start = out@;
    let mut i: usize = 0;
    proof {
        assert(start + runs_text(runs@.take(0)) =~= start);
    }
    while i < runs.len()
        invariant
            i <= runs@.len(),
            out@ == start + runs_text(runs@.take(i as int)),
        decreases runs.len() - i,
    {
        let ghost before = out@;
        proof {
            assert(runs@.take(i + 1).drop_last() =~= runs@.take(i as int));
        }
        out.append(":");
        out.append(text::decimal(runs[i].from).as_str());
        if runs[i].from != runs[i].to {
            out.append("-");
            out.append(text::decimal(runs[i].to).as_str());
        }
        proof {
            assert(out@ =~= before + ":"@ + run_text(runs@[i as int]));
            assert(out@ =~= start + (runs_text(runs@.take(i as int)) + ":"@ + run_text(
                runs@[i as int],
            )));
        }
        i = i + 1;
    }
    proof {
        assert(runs@.take(i as int) =~= runs@);
    }
}

fn write_set(set: &Vec<SourceRuns>) -> (out: String)
    ensures
        out@ == set_text(source_views(set@)),
{
    let ghost views = source_views(set@);
    let mut out = String::new();
    let mut i: usize = 0;
    while i < set.len()
        invariant
            i <= set@.len(),
            views == source_views(set@),
            out@ == set_text(views.take(i as int)),
        decreases set.len() - i,
    {
        let ghost before = out@;
        proof {
            assert(views.take(i + 1).drop_last() =~= views.take(i as int));
            assert(views.take(i + 1).last() == set@[i as int]@);
            assert(i == 0 ==> before =~= Seq::<char>::empty());
        }
        if i > 0 {
            out.append(",");
        }
        out.append(set[i].sid.as_str());
        write_runs(&mut out, &set[i].runs);
        proof {
            let one = set@[i as int]@;
            if i == 0 {
                assert(views.take(1)[0] == one);
                assert(out@ =~= one.sid + runs_text(one.runs));
            } else {
                assert(out@ =~= before + ","@ + one.sid + runs_text(one.runs));
            }
        }
        i = i + 1;
    }
    proof {
        assert(views.take(i as int) =~= views);
    }
    out
}

// Positions without intervals

/// The domain of a position `domain-server-sequence`.
pub open spec fn domain_of(entry: Seq<char>) -> Seq<char> {
    text::split(text::trimmed(entry), '-')[0]
}

/// The place of the first entry of a domain, or the number of entries.
pub open spec fn domain_place(entries: Seq<Seq<char>>, domain: Seq<char>) -> int
    decreases entries.len(),
{
    if entries.len() == 0 || domain_of(entries[0]) == domain {
        0
    } else {
        1 + domain_place(entries.drop_first(), domain)
    }
}

/// The positions with the one of its domain moved on.
pub open spec fn moved_on(entries: Seq<Seq<char>>, gtid: Seq<char>) -> Seq<Seq<char>> {
    let place = domain_place(entries, domain_of(gtid));
    if place < entries.len() {
        entries.update(place, gtid)
    } else {
        entries.push(gtid)
    }
}

/// A set with a GTID taken in. Where both are sets of intervals it is their union. A GTID of the
/// form `domain-server-sequence` moves the position of its domain on.
pub open spec fn merged(current: Seq<char>, gtid: Seq<char>) -> Seq<char> {
    match (read_set(current), read_set(gtid)) {
        (Some(a), Some(b)) => set_text(union(a, b)),
        _ => if text::trimmed(current).len() == 0 {
            gtid
        } else {
            text::joined(moved_on(text::split(current, ','), gtid), ","@)
        },
    }
}

fn domain(entry: &str) -> (domain: String)
    ensures
        domain@ == domain_of(entry@),
{
    let trimmed = text::trim(entry);
    let mut parts = text::split_on(trimmed.as_str(), '-');
    proof {
        text::lemma_split_nonempty(trimmed@, '-');
        assert(text::texts(parts@).len() == parts@.len());
        assert(text::texts(parts@)[0] == parts@[0]@);
    }
    parts.swap_remove(0)
}

fn move_on(current: &str, gtid: &str) -> (out: String)
    ensures
        out@ == text::joined(moved_on(text::split(current@, ','), gtid@), ","@),
{
    let mut entries = text::split_on(current, ',');
    let ghost views = text::texts(entries@);
    let wanted = domain(gtid);
    let mut i: usize = 0;
    let mut found = false;
    proof {
        assert(views.skip(0) =~= views);
    }
    while i < entries.len() && !found
        invariant
            i <= entries@.len(),
            views == text::texts(entries@),
            wanted@ == domain_of(gtid@),
            found ==> i < entries@.len() && domain_place(views, wanted@) == i,
            !found ==> domain_place(views, wanted@) == i + domain_place(
                views.skip(i as int),
                wanted@,
            ),
        decreases
                if found {
                    0int
                } else {
                    entries@.len() - i + 1
                },
    {
        proof {
            assert(views.skip(i as int)[0] == entries@[i as int]@);
            assert(views.skip(i as int).drop_first() =~= views.skip(i + 1));
        }
        let theirs = domain(entries[i].as_str());
        if text::same_text(theirs.as_str(), wanted.as_str()) {
            found = true;
        } else {
            i = i + 1;
        }
    }
    if found {
        entries.set(i, gtid.to_owned());
    } else {
        entries.push(gtid.to_owned());
    }
    proof {
        assert(text::texts(entries@) =~= moved_on(views, gtid@));
    }
    text::join(&entries, ",")
}

/// Takes a GTID into the executed set; see [`merged`]. It never overwrites the set.
pub fn merge_gtid_into_set(current: &str, gtid: &str) -> (out: String)
    ensures
        out@ == merged(current@, gtid@),
{
    match (parse_set(current), parse_set(gtid)) {
        (Some(mut a), Some(b)) => {
            let ghost start = source_views(a@);
            let ghost other = source_views(b@);
            let mut i: usize = 0;
            proof {
                lemma_read_is_proper(text::split(gtid@, ','));
            }
            while i < b.len()
                invariant
                    i <= b@.len(),
                    other == source_views(b@),
                    runs_are_proper(other),
                    source_views(a@) == union(start, other.take(i as int)),
                decreases b.len() - i,
            {
                proof {
                    assert(other.take(i + 1).drop_last() =~= other.take(i as int));
                    assert(other.take(i + 1).last() == b@[i as int]@);
                    assert(other[i as int] == b@[i as int]@);
                    assert forall|k: int| 0 <= k < b@[i as int].runs@.len() implies (
                    #[trigger] b@[i as int].runs@[k]).from <= b@[i as int].runs@[k].to by {
                        assert(other[i as int].runs[k] == b@[i as int].runs@[k]);
                    }
                }
                add_source_runs(&mut a, b[i].sid.as_str(), &b[i].runs);
                i = i + 1;
            }
            proof {
                assert(other.take(i as int) =~= other);
            }
            write_set(&a)
        },
        _ => {
            let trimmed = text::trim(current);
            proof {
                reveal_strlit("");
                if trimmed@.len() == 0 {
                    assert(trimmed@ =~= ""@);
                }
            }
            if text::same_text(trimmed.as_str(), "") {
                gtid.to_owned()
            } else {
                move_on(current, gtid)
            }
        },
    }
}

// What holds of sets

/// Whether a transaction of a source is in the set.
pub open spec fn in_set(set: Seq<SourceView>, sid: Seq<char>, gno: int) -> bool {
    exists|i: int|
        0 <= i < set.len() && (#[trigger] set[i]).sid == sid && in_runs(set[i].runs, gno)
}

/// Each source once, each with its runs in order.
pub open spec fn canonical(set: Seq<SourceView>) -> bool {
    &&& forall|i: int|
        0 <= i < set.len() ==> (#[trigger] set[i]).runs.len() > 0 && in_order(set[i].runs)
    &&& forall|i: int, j: int|
        0 <= i < j < set.len() ==> (#[trigger] set[i]).sid != (#[trigger] set[j]).sid
}

/// Adding a run keeps the runs in order, and adds exactly the run's transactions.
pub proof fn with_run_adds_the_run(runs: Seq<Run>, run: Run)
    requires
        in_order(runs),
        run.from <= run.to,
    ensures
        in_order(with_run(runs, run)),
        with_run(runs, run).len() > 0,
        forall|gno: int|
            #![trigger in_runs(with_run(runs, run), gno)]
            in_runs(with_run(runs, run), gno) <==> (in_runs(runs, gno) || run.from <= gno
                <= run.to),
        forall|bound: int|
            (forall|i: int| 0 <= i < runs.len() ==> (#[trigger] runs[i]).to + 1 < bound)
                && #[trigger] below(run, bound) ==> forall|i: int|
                0 <= i < with_run(runs, run).len() ==> (#[trigger] with_run(runs, run)[i]).to + 1
                    < bound,
    decreases runs.len(),
{
    let all = with_run(runs, run);
    if runs.len() == 0 {
        assert forall|gno: int| in_runs(all, gno) <==> (in_runs(runs, gno) || run.from <= gno
            <= run.to) by {
            if run.from <= gno <= run.to {
                assert(all[0].from <= gno <= all[0].to);
            }
        }
    } else {
        let rest = runs.drop_last();
        let last = runs.last();
        assert(in_order(rest)) by {
            assert forall|i: int| 0 <= i < rest.len() implies (#[trigger] rest[i]).from
                <= rest[i].to by {
                assert(rest[i] == runs[i]);
            }
            assert forall|i: int, j: int| 0 <= i < j < rest.len() implies (
            #[trigger] rest[i]).to + 1 < (#[trigger] rest[j]).from by {
                assert(rest[i] == runs[i] && rest[j] == runs[j]);
            }
        }
        assert forall|gno: int| in_runs(runs, gno) <==> (in_runs(rest, gno) || last.from <= gno
            <= last.to) by {
            if in_runs(runs, gno) {
                let i = choose|i: int|
                    0 <= i < runs.len() && (#[trigger] runs[i]).from <= gno <= runs[i].to;
                if i < rest.len() {
                    assert(rest[i].from <= gno <= rest[i].to);
                }
            }
            if in_runs(rest, gno) {
                let i = choose|i: int|
                    0 <= i < rest.len() && (#[trigger] rest[i]).from <= gno <= rest[i].to;
                assert(runs[i].from <= gno <= runs[i].to);
            }
            if last.from <= gno <= last.to {
                assert(runs[runs.len() - 1].from <= gno);
            }
        }
        if last.to + 1 < run.from {
            assert forall|gno: int| in_runs(all, gno) <==> (in_runs(runs, gno) || run.from <= gno
                <= run.to) by {
                if in_runs(runs, gno) {
                    let i = choose|i: int|
                        0 <= i < runs.len() && (#[trigger] runs[i]).from <= gno <= runs[i].to;
                    assert(all[i].from <= gno <= all[i].to);
                }
                if run.from <= gno <= run.to {
                    assert(all[runs.len() as int].from <= gno);
                }
                if in_runs(all, gno) {
                    let i = choose|i: int|
                        0 <= i < all.len() && (#[trigger] all[i]).from <= gno <= all[i].to;
                    if i < runs.len() {
                        assert(runs[i].from <= gno <= runs[i].to);
                    }
                }
            }
            assert(in_order(all)) by {
                assert forall|i: int, j: int| 0 <= i < j < all.len() implies (
                #[trigger] all[i]).to + 1 < (#[trigger] all[j]).from by {
                    if j == runs.len() {
                        if i < runs.len() - 1 {
                            assert(runs[i].to + 1 < runs[runs.len() - 1].from);
                            assert(last.from <= last.to);
                        }
                    }
                }
            }
        } else if run.to + 1 < last.from {
            with_run_adds_the_run(rest, run);
            let front = with_run(rest, run);
            assert(below(run, last.from as int));
            assert forall|i: int| 0 <= i < rest.len() implies (#[trigger] rest[i]).to + 1
                < last.from by {
                assert(runs[i].to + 1 < runs[runs.len() - 1].from);
            }
            assert forall|gno: int| in_runs(all, gno) <==> (in_runs(front, gno) || last.from
                <= gno <= last.to) by {
                if in_runs(all, gno) {
                    let i = choose|i: int|
                        0 <= i < all.len() && (#[trigger] all[i]).from <= gno <= all[i].to;
                    if i < front.len() {
                        assert(front[i].from <= gno <= front[i].to);
                    }
                }
                if in_runs(front, gno) {
                    let i = choose|i: int|
                        0 <= i < front.len() && (#[trigger] front[i]).from <= gno <= front[i].to;
                    assert(all[i].from <= gno <= all[i].to);
                }
                if last.from <= gno <= last.to {
                    assert(all[front.len() as int].from <= gno);
                }
            }
            assert(in_order(all)) by {
                assert(last.from <= last.to);
                assert forall|i: int, j: int| 0 <= i < j < all.len() implies (
                #[trigger] all[i]).to + 1 < (#[trigger] all[j]).from by {
                    assert(front[i] == all[i]);
                    if j < front.len() {
                        assert(front[j] == all[j]);
                    }
                }
            }
            assert forall|bound: int|
                (forall|i: int| 0 <= i < runs.len() ==> (#[trigger] runs[i]).to + 1 < bound)
                    && #[trigger] below(run, bound) implies forall|i: int|
                0 <= i < all.len() ==> (#[trigger] all[i]).to + 1 < bound by {
                assert forall|i: int| 0 <= i < rest.len() implies (#[trigger] rest[i]).to + 1
                    < bound by {
                    assert(runs[i].to + 1 < bound);
                }
                assert forall|i: int| 0 <= i < all.len() implies (#[trigger] all[i]).to + 1
                    < bound by {
                    if i < front.len() {
                        assert(front[i] == all[i]);
                    } else {
                        assert(runs[runs.len() - 1].to + 1 < bound);
                    }
                }
            }
        } else {
            let wide = hull(last, run);
            with_run_adds_the_run(rest, wide);
            assert forall|bound: int|
                (forall|i: int| 0 <= i < runs.len() ==> (#[trigger] runs[i]).to + 1 < bound)
                    && #[trigger] below(run, bound) implies forall|i: int|
                0 <= i < all.len() ==> (#[trigger] all[i]).to + 1 < bound by {
                assert(runs[runs.len() - 1].to + 1 < bound);
                assert(below(wide, bound));
                assert forall|i: int| 0 <= i < rest.len() implies (#[trigger] rest[i]).to + 1
                    < bound by {
                    assert(runs[i].to + 1 < bound);
                }
            }
        }
    }
}

/// Whether a run ends before a bound with at least one transaction to spare.
pub open spec fn below(run: Run, bound: int) -> bool {
    run.to + 1 < bound
}

/// Adding a run of a source keeps the set canonical, and adds exactly the run's transactions.
pub proof fn with_source_run_adds_the_run(set: Seq<SourceView>, sid: Seq<char>, run: Run)
    requires
        canonical(set),
        run.from <= run.to,
    ensures
        canonical(with_source_run(set, sid, run)),
        forall|other: Seq<char>, gno: int|
            #![trigger in_set(with_source_run(set, sid, run), other, gno)]
            in_set(with_source_run(set, sid, run), other, gno) <==> (in_set(set, other, gno) || (
            other == sid && run.from <= gno <= run.to)),
{
    let all = with_source_run(set, sid, run);
    let place = source_place(set, sid);
    lemma_source_place(set, sid);
    if place < set.len() {
        with_run_adds_the_run(set[place].runs, run);
        assert forall|i: int| 0 <= i < all.len() implies (#[trigger] all[i]).runs.len() > 0
            && in_order(all[i].runs) by {
            if i != place {
                assert(all[i] == set[i]);
            }
        }
        assert forall|i: int, j: int| 0 <= i < j < all.len() implies (#[trigger] all[i]).sid != (
        #[trigger] all[j]).sid by {
            assert(all[i].sid == set[i].sid && all[j].sid == set[j].sid);
        }
        assert forall|other: Seq<char>, gno: int|
            #![trigger in_set(all, other, gno)]
            in_set(all, other, gno) <==> (in_set(set, other, gno) || (other == sid && run.from
                <= gno <= run.to)) by {
            if in_set(all, other, gno) {
                let i = choose|i: int|
                    0 <= i < all.len() && (#[trigger] all[i]).sid == other && in_runs(
                        all[i].runs,
                        gno,
                    );
                if i != place {
                    assert(set[i].sid == other);
                } else if !(run.from <= gno <= run.to) {
                    assert(in_runs(set[place].runs, gno));
                    assert(set[place].sid == other);
                }
            }
            if in_set(set, other, gno) {
                let i = choose|i: int|
                    0 <= i < set.len() && (#[trigger] set[i]).sid == other && in_runs(
                        set[i].runs,
                        gno,
                    );
                assert(all[i].sid == other);
                assert(in_runs(all[i].runs, gno));
            }
            if other == sid && run.from <= gno <= run.to {
                assert(all[place].sid == other);
                assert(in_runs(all[place].runs, gno));
            }
        }
    } else {
        with_run_adds_the_run(Seq::empty(), run);
        let one = SourceView { sid, runs: seq![run] };
        assert(in_order(one.runs));
        assert forall|i: int| 0 <= i < all.len() implies (#[trigger] all[i]).runs.len() > 0
            && in_order(all[i].runs) by {
            if i < set.len() {
                assert(all[i] == set[i]);
            }
        }
        assert forall|i: int, j: int| 0 <= i < j < all.len() implies (#[trigger] all[i]).sid != (
        #[trigger] all[j]).sid by {
            assert(all[i] == set[i]);
            if j < set.len() {
                assert(all[j] == set[j]);
            }
        }
        assert forall|other: Seq<char>, gno: int|
            #![trigger in_set(all, other, gno)]
            in_set(all, other, gno) <==> (in_set(set, other, gno) || (other == sid && run.from
                <= gno <= run.to)) by {
            if in_set(all, other, gno) {
                let i = choose|i: int|
                    0 <= i < all.len() && (#[trigger] all[i]).sid == other && in_runs(
                        all[i].runs,
                        gno,
                    );
                if i < set.len() {
                    assert(set[i].sid == other);
                } else {
                    assert(all[i] == one);
                    assert(seq![run][0] == run);
                }
            }
            if in_set(set, other, gno) {
                let i = choose|i: int|
                    0 <= i < set.len() && (#[trigger] set[i]).sid == other && in_runs(
                        set[i].runs,
                        gno,
                    );
                assert(all[i].sid == other);
            }
            if other == sid && run.from <= gno <= run.to {
                assert(all[set.len() as int] == one);
                assert(seq![run][0].from <= gno <= seq![run][0].to);
                assert(in_runs(one.runs, gno));
            }
        }
    }
}

/// Adding runs of a source keeps the set canonical, and adds exactly the runs' transactions.
pub proof fn with_source_runs_adds_the_runs(
    set: Seq<SourceView>,
    sid: Seq<char>,
    runs: Seq<Run>,
)
    requires
        canonical(set),
        forall|i: int| 0 <= i < runs.len() ==> (#[trigger] runs[i]).from <= runs[i].to,
    ensures
        canonical(with_source_runs(set, sid, runs)),
        forall|other: Seq<char>, gno: int|
            #![trigger in_set(with_source_runs(set, sid, runs), other, gno)]
            in_set(with_source_runs(set, sid, runs), other, gno) <==> (in_set(set, other, gno) || (
            other == sid && in_runs(runs, gno))),
    decreases runs.len(),
{
    if runs.len() > 0 {
        let rest = runs.drop_last();
        assert forall|i: int| 0 <= i < rest.len() implies (#[trigger] rest[i]).from
            <= rest[i].to by {
            assert(rest[i] == runs[i]);
        }
        with_source_runs_adds_the_runs(set, sid, rest);
        let before = with_source_runs(set, sid, rest);
        assert(runs[runs.len() - 1] == runs.last());
        with_source_run_adds_the_run(before, sid, runs.last());
        assert forall|gno: int| #[trigger]
            in_runs(runs, gno) <==> (in_runs(rest, gno) || runs.last().from <= gno
                <= runs.last().to) by {
            if in_runs(runs, gno) {
                let i = choose|i: int|
                    0 <= i < runs.len() && (#[trigger] runs[i]).from <= gno <= runs[i].to;
                if i < rest.len() {
                    assert(rest[i].from <= gno <= rest[i].to);
                }
            }
            if in_runs(rest, gno) {
                let i = choose|i: int|
                    0 <= i < rest.len() && (#[trigger] rest[i]).from <= gno <= rest[i].to;
                assert(runs[i].from <= gno <= runs[i].to);
            }
        }
    }
}

/// The union of two sets holds exactly the transactions of either. So taking a GTID in never
/// forgets a transaction and never claims one that neither held.
pub proof fn union_holds_either(set: Seq<SourceView>, other: Seq<SourceView>)
    requires
        canonical(set),
        canonical(other),
    ensures
        canonical(union(set, other)),
        forall|sid: Seq<char>, gno: int|
            #![trigger in_set(union(set, other), sid, gno)]
            in_set(union(set, other), sid, gno) <==> (in_set(set, sid, gno) || in_set(
                other,
                sid,
                gno,
            )),
    decreases other.len(),
{
    if other.len() > 0 {
        let rest = other.drop_last();
        assert(canonical(rest)) by {
            assert forall|i: int| 0 <= i < rest.len() implies (#[trigger] rest[i]).runs.len() > 0
                && in_order(rest[i].runs) by {
                assert(rest[i] == other[i]);
            }
            assert forall|i: int, j: int| 0 <= i < j < rest.len() implies (
            #[trigger] rest[i]).sid != (#[trigger] rest[j]).sid by {
                assert(rest[i] == other[i] && rest[j] == other[j]);
            }
        }
        union_holds_either(set, rest);
        assert(in_order(other[other.len() - 1].runs));
        with_source_runs_adds_the_runs(union(set, rest), other.last().sid, other.last().runs);
        assert forall|sid: Seq<char>, gno: int|
            #![trigger in_set(other, sid, gno)]
            in_set(other, sid, gno) <==> (in_set(rest, sid, gno) || (sid == other.last().sid
                && in_runs(other.last().runs, gno))) by {
            if in_set(other, sid, gno) {
                let i = choose|i: int|
                    0 <= i < other.len() && (#[trigger] other[i]).sid == sid && in_runs(
                        other[i].runs,
                        gno,
                    );
                if i < rest.len() {
                    assert(rest[i].sid == sid);
                }
            }
            if in_set(rest, sid, gno) {
                let i = choose|i: int|
                    0 <= i < rest.len() && (#[trigger] rest[i]).sid == sid && in_runs(
                        rest[i].runs,
                        gno,
                    );
                assert(other[i].sid == sid);
            }
            if sid == other.last().sid && in_runs(other.last().runs, gno) {
                assert(other[other.len() - 1].sid == sid);
            }
        }
    }
}

proof fn lemma_read_runs_proper(parts: Seq<Seq<char>>)
    ensures
        read_runs(parts) matches Some(runs) ==> runs.len() == parts.len() && forall|i: int|
            0 <= i < runs.len() ==> (#[trigger] runs[i]).from <= runs[i].to,
    decreases parts.len(),
{
    if parts.len() > 0 {
        lemma_read_runs_proper(parts.drop_last());
    }
}

/// A set that is read is canonical: each source once, each with its runs in order.
pub proof fn read_set_is_canonical(entries: Seq<Seq<char>>)
    ensures
        read_entries(entries) matches Some(set) ==> canonical(set),
    decreases entries.len(),
{
    if entries.len() > 0 {
        read_set_is_canonical(entries.drop_last());
        let last = text::trimmed(entries.last());
        if read_entries(entries) is Some && last.len() > 0 {
            let parts = text::split(last, ':');
            lemma_read_runs_proper(parts.skip(1));
            let one = read_entry(last)->0;
            with_source_runs_adds_the_runs(
                read_entries(entries.drop_last())->0,
                one.sid,
                one.runs,
            );
        }
    }
}

proof fn lemma_read_is_proper(entries: Seq<Seq<char>>)
    ensures
        read_entries(entries) matches Some(set) ==> runs_are_proper(set),
{
    read_set_is_canonical(entries);
}


// Reading back

/// Canonical, with source names that survive being written between commas and colons.
pub open spec fn writable(set: Seq<SourceView>) -> bool {
    &&& canonical(set)
    &&& forall|i: int| 0 <= i < set.len() ==> writable_name(#[trigger] set[i].sid)
}

/// A name without commas and colons that does not start with white space.
pub open spec fn writable_name(sid: Seq<char>) -> bool {
    &&& sid.len() > 0
    &&& !sid.contains(',')
    &&& !sid.contains(':')
    &&& !text::is_space(sid[0])
}

proof fn lemma_run_text(run: Run)
    requires
        run.from <= run.to,
    ensures
        read_run(run_text(run)) == Some(run),
        run_text(run).len() > 0,
        !run_text(run).contains(':'),
        !run_text(run).contains(','),
        '0' <= run_text(run).last() <= '9',
{
    reveal_strlit("-");
    let a = text::decimal_text(run.from as nat);
    let b = text::decimal_text(run.to as nat);
    text::decimal_is_digits(run.from as nat);
    text::decimal_is_digits(run.to as nat);
    text::number_round_trip(run.from as nat, 10);
    text::number_round_trip(run.to as nat, 10);
    assert(!a.contains('-'));
    assert(!b.contains('-'));
    text::split_without_separator(a, '-');
    text::split_after_separator(a, '-', b);
    let whole = run_text(run);
    if run.from != run.to {
        assert("-"@ =~= seq!['-']);
        assert(text::split(whole, '-') =~= seq![a, b]);
        assert forall|i: int| 0 <= i < whole.len() implies whole[i] != ':' && whole[i] != ',' by {
            if i < a.len() {
                assert(whole[i] == a[i]);
            } else if i > a.len() {
                assert(whole[i] == b[i - a.len() - 1]);
            }
        }
        assert(whole.last() == b[b.len() - 1]);
    } else {
        assert(whole.last() == a[a.len() - 1]);
    }
}

/// The texts of runs.
pub open spec fn run_texts(runs: Seq<Run>) -> Seq<Seq<char>> {
    runs.map_values(|run: Run| run_text(run))
}

proof fn lemma_runs_text(lead: Seq<char>, runs: Seq<Run>)
    requires
        !lead.contains(':'),
        forall|i: int| 0 <= i < runs.len() ==> (#[trigger] runs[i]).from <= runs[i].to,
    ensures
        text::split(lead + runs_text(runs), ':') == seq![lead] + run_texts(runs),
        read_runs(run_texts(runs)) == Some(runs),
        !runs_text(runs).contains(','),
        runs.len() > 0 ==> runs_text(runs).len() > 0 && '0' <= runs_text(runs).last() <= '9',
    decreases runs.len(),
{
    reveal_strlit(":");
    if runs.len() == 0 {
        assert(lead + runs_text(runs) =~= lead);
        text::split_without_separator(lead, ':');
        assert(seq![lead] + run_texts(runs) =~= seq![lead]);
        assert(run_texts(runs) =~= Seq::<Seq<char>>::empty());
        assert(runs =~= Seq::<Run>::empty());
    } else {
        let rest = runs.drop_last();
        assert forall|i: int| 0 <= i < rest.len() implies (#[trigger] rest[i]).from
            <= rest[i].to by {
            assert(rest[i] == runs[i]);
        }
        lemma_runs_text(lead, rest);
        assert(runs[runs.len() - 1] == runs.last());
        lemma_run_text(runs.last());
        let part = run_text(runs.last());
        assert(":"@ =~= seq![':']);
        assert(lead + runs_text(runs) =~= (lead + runs_text(rest)) + seq![':'] + part);
        text::split_after_separator(lead + runs_text(rest), ':', part);
        assert(run_texts(runs) =~= run_texts(rest).push(part));
        assert(seq![lead] + run_texts(runs) =~= (seq![lead] + run_texts(rest)).push(part));
        assert(run_texts(runs).drop_last() =~= run_texts(rest));
        assert(rest.push(runs.last()) =~= runs);
        let whole = runs_text(runs);
        assert forall|i: int| 0 <= i < whole.len() implies whole[i] != ',' by {
            let n = runs_text(rest).len() as int;
            if i < n {
                assert(whole[i] == runs_text(rest)[i]);
            } else if i > n {
                assert(whole[i] == part[i - n - 1]);
            }
        }
        assert(whole.last() == part.last());
    }
}

proof fn lemma_fresh_source(set: Seq<SourceView>, sid: Seq<char>, runs: Seq<Run>)
    requires
        forall|i: int| 0 <= i < set.len() ==> (#[trigger] set[i]).sid != sid,
        in_order(runs),
        runs.len() > 0,
    ensures
        with_source_runs(set, sid, runs) == set.push(SourceView { sid, runs }),
    decreases runs.len(),
{
    let rest = runs.drop_last();
    let last = runs.last();
    assert(rest.push(last) =~= runs);
    lemma_source_place(set, sid);
    if rest.len() == 0 {
        assert(rest =~= Seq::<Run>::empty());
        assert(with_source_runs(set, sid, rest) == set);
        assert(seq![last] =~= runs);
    } else {
        assert forall|i: int| 0 <= i < rest.len() implies (#[trigger] rest[i]).from
            <= rest[i].to by {
            assert(rest[i] == runs[i]);
        }
        assert forall|i: int, j: int| 0 <= i < j < rest.len() implies (#[trigger] rest[i]).to + 1
            < (#[trigger] rest[j]).from by {
            assert(rest[i] == runs[i] && rest[j] == runs[j]);
        }
        lemma_fresh_source(set, sid, rest);
        let before = set.push(SourceView { sid, runs: rest });
        lemma_source_place(before, sid);
        let place = source_place(before, sid);
        if place < set.len() {
            assert(before[place] == set[place]);
        }
        if place > set.len() {
            assert(before[set.len() as int].sid == sid);
        }
        assert(rest.last() == runs[rest.len() - 1]);
        assert(rest.last().to + 1 < runs[runs.len() - 1].from);
        assert(with_run(rest, last) == rest.push(last));
        assert(with_source_run(before, sid, last) =~= set.push(SourceView { sid, runs }));
    }
}

/// The texts of a set's entries.
pub open spec fn entry_texts(set: Seq<SourceView>) -> Seq<Seq<char>> {
    set.map_values(|one: SourceView| one.sid + runs_text(one.runs))
}

proof fn lemma_set_entries(set: Seq<SourceView>)
    requires
        writable(set),
        set.len() > 0,
    ensures
        text::split(set_text(set), ',') == entry_texts(set),
        read_entries(entry_texts(set)) == Some(set),
    decreases set.len(),
{
    reveal_strlit(",");
    let rest = set.drop_last();
    let one = set.last();
    let entry = one.sid + runs_text(one.runs);
    assert(set[set.len() - 1] == one);
    assert(writable_name(set[set.len() - 1].sid));
    assert(in_order(one.runs) && one.runs.len() > 0);
    lemma_runs_text(one.sid, one.runs);
    assert(!entry.contains(',')) by {
        assert forall|i: int| 0 <= i < entry.len() implies entry[i] != ',' by {
            if i < one.sid.len() {
                assert(entry[i] == one.sid[i]);
            } else {
                assert(entry[i] == runs_text(one.runs)[i - one.sid.len()]);
            }
        }
    }
    assert(entry[0] == one.sid[0]);
    assert(entry.last() == runs_text(one.runs).last());
    text::trimmed_is_itself(entry);
    let parts = text::split(entry, ':');
    assert(parts.skip(1) =~= run_texts(one.runs));
    assert(parts[0] == one.sid);
    assert(read_entry(entry) == Some(one));
    assert(entry_texts(set) =~= entry_texts(rest).push(entry));
    assert(entry_texts(set).drop_last() =~= entry_texts(rest));
    assert(entry_texts(set).last() == entry);
    assert forall|i: int| 0 <= i < rest.len() implies (#[trigger] rest[i]).sid != one.sid by {
        assert(set[i].sid != set[set.len() - 1].sid);
    }
    lemma_fresh_source(rest, one.sid, one.runs);
    assert(rest.push(one) =~= set);
    if rest.len() == 0 {
        assert(rest =~= Seq::<SourceView>::empty());
        assert(entry_texts(rest) =~= Seq::<Seq<char>>::empty());
        assert(set_text(set) == entry);
        text::split_without_separator(entry, ',');
        assert(entry_texts(set) =~= seq![entry]);
    } else {
        assert(writable(rest)) by {
            assert forall|i: int| 0 <= i < rest.len() implies (#[trigger] rest[i]).runs.len() > 0
                && in_order(rest[i].runs) by {
                assert(rest[i] == set[i]);
            }
            assert forall|i: int, j: int| 0 <= i < j < rest.len() implies (
            #[trigger] rest[i]).sid != (#[trigger] rest[j]).sid by {
                assert(rest[i] == set[i] && rest[j] == set[j]);
            }
            assert forall|i: int| 0 <= i < rest.len() implies writable_name(
                #[trigger] rest[i].sid,
            ) by {
                assert(rest[i] == set[i]);
                assert(writable_name(set[i].sid));
            }
        }
        lemma_set_entries(rest);
        assert(","@ =~= seq![',']);
        assert(set_text(set) =~= set_text(rest) + seq![','] + entry);
        text::split_after_separator(set_text(rest), ',', entry);
    }
}

/// A set that has been written reads back as the same set.
pub proof fn written_set_reads_back(set: Seq<SourceView>)
    requires
        writable(set),
    ensures
        read_set(set_text(set)) == Some(set),
{
    if set.len() == 0 {
        assert(set =~= Seq::<SourceView>::empty());
        let none = Seq::<char>::empty();
        assert(text::split(none, ',') == seq![none]);
        assert(seq![none].drop_last() =~= Seq::<Seq<char>>::empty());
        assert(seq![none].last() == none);
        assert(text::trimmed(none) == none);
        reveal_with_fuel(read_entries, 2);
        assert(set_text(set) == none);
    } else {
        lemma_set_entries(set);
    }
}

proof fn lemma_names_kept(set: Seq<SourceView>, sid: Seq<char>, runs: Seq<Run>)
    requires
        forall|i: int| 0 <= i < set.len() ==> writable_name(#[trigger] set[i].sid),
        writable_name(sid),
    ensures
        forall|i: int|
            0 <= i < with_source_runs(set, sid, runs).len() ==> writable_name(
                #[trigger] with_source_runs(set, sid, runs)[i].sid,
            ),
    decreases runs.len(),
{
    if runs.len() > 0 {
        lemma_names_kept(set, sid, runs.drop_last());
        let before = with_source_runs(set, sid, runs.drop_last());
        let all = with_source_runs(set, sid, runs);
        lemma_source_place(before, sid);
        assert forall|i: int| 0 <= i < all.len() implies writable_name(
            #[trigger] all[i].sid,
        ) by {
            if i < before.len() {
                assert(writable_name(before[i].sid));
            }
        }
    }
}

proof fn lemma_read_names(entries: Seq<Seq<char>>)
    requires
        forall|i: int| 0 <= i < entries.len() ==> !(#[trigger] entries[i]).contains(','),
    ensures
        read_entries(entries) matches Some(set) ==> forall|i: int|
            0 <= i < set.len() ==> writable_name(#[trigger] set[i].sid),
    decreases entries.len(),
{
    if entries.len() > 0 {
        let rest = entries.drop_last();
        assert forall|i: int| 0 <= i < rest.len() implies !(#[trigger] rest[i]).contains(',') by {
            assert(rest[i] == entries[i]);
        }
        lemma_read_names(rest);
        let last = text::trimmed(entries.last());
        if read_entries(entries) is Some && last.len() > 0 {
            let one = read_entry(last)->0;
            let parts = text::split(last, ':');
            text::split_parts(last, ':');
            text::split_first_part(last, ':');
            text::trimmed_starts_solid(entries.last());
            assert(one.sid == parts[0]);
            if one.sid.contains(',') {
                assert(last.contains(','));
                text::trimmed_holds_no_more(entries.last(), ',');
                assert(entries[entries.len() - 1].contains(','));
            }
            lemma_names_kept(read_entries(rest)->0, one.sid, one.runs);
        }
    }
}

proof fn lemma_union_names(set: Seq<SourceView>, other: Seq<SourceView>)
    requires
        forall|i: int| 0 <= i < set.len() ==> writable_name(#[trigger] set[i].sid),
        forall|i: int| 0 <= i < other.len() ==> writable_name(#[trigger] other[i].sid),
    ensures
        forall|i: int|
            0 <= i < union(set, other).len() ==> writable_name(#[trigger] union(set, other)[i].sid),
    decreases other.len(),
{
    if other.len() > 0 {
        let rest = other.drop_last();
        assert forall|i: int| 0 <= i < rest.len() implies writable_name(
            #[trigger] rest[i].sid,
        ) by {
            assert(rest[i] == other[i]);
            assert(writable_name(other[i].sid));
        }
        lemma_union_names(set, rest);
        assert(writable_name(other[other.len() - 1].sid));
        lemma_names_kept(union(set, rest), other.last().sid, other.last().runs);
    }
}

/// A merged set reads back as the union of the two that went in: it holds every transaction of
/// either and none besides.
pub proof fn merged_set_is_the_union(
    current: Seq<char>,
    gtid: Seq<char>,
    sid: Seq<char>,
    gno: int,
)
    requires
        read_set(current) is Some,
        read_set(gtid) is Some,
    ensures
        read_set(merged(current, gtid)) == Some(union(read_set(current)->0, read_set(gtid)->0)),
        in_set(read_set(merged(current, gtid))->0, sid, gno) <==> (in_set(
            read_set(current)->0,
            sid,
            gno,
        ) || in_set(read_set(gtid)->0, sid, gno)),
{
    let a = read_set(current)->0;
    let b = read_set(gtid)->0;
    let first = text::split(current, ',');
    let second = text::split(gtid, ',');
    text::split_parts(current, ',');
    text::split_parts(gtid, ',');
    lemma_read_names(first);
    lemma_read_names(second);
    read_set_is_canonical(first);
    read_set_is_canonical(second);
    union_holds_either(a, b);
    lemma_union_names(a, b);
    written_set_reads_back(union(a, b));
}

/// Taking in a GTID that the set already holds leaves what the set holds as it is.
pub proof fn merging_again_changes_nothing(
    current: Seq<char>,
    gtid: Seq<char>,
    sid: Seq<char>,
    gno: int,
)
    requires
        read_set(current) is Some,
        read_set(gtid) is Some,
    ensures
        in_set(read_set(merged(merged(current, gtid), gtid))->0, sid, gno) <==> in_set(
            read_set(merged(current, gtid))->0,
            sid,
            gno,
        ),
{
    merged_set_is_the_union(current, gtid, sid, gno);
    merged_set_is_the_union(merged(current, gtid), gtid, sid, gno);
}

// Rendering and decoding single GTIDs

/// The first `count` bytes of a source identifier in the form of a UUID.
pub open spec fn uuid_text(sid: Seq<u8>, count: nat) -> Seq<char>
    decreases count,
{
    if count == 0 {
        Seq::empty()
    } else {
        let before = uuid_text(sid, (count - 1) as nat);
        let place = count - 1;
        if place == 4 || place == 6 || place == 8 || place == 10 {
            before + "-"@ + text::hex_pair(sid[place])
        } else {
            before + text::hex_pair(sid[place])
        }
    }
}

/// A transaction in the form `uuid:number`.
pub fn format_gtid(sid: [u8; 16], gno: u64) -> (out: String)
    ensures
        out@ == uuid_text(sid@, 16) + ":"@ + text::decimal_text(gno as nat),
{
    let mut out = String::new();
    let mut i: usize = 0;
    while i < 16
        invariant
            i <= 16,
            out@ == uuid_text(sid@, i as nat),
        decreases 16 - i,
    {
        if i == 4 || i == 6 || i == 8 || i == 10 {
            out.append("-");
        }
        out.append(text::render_hex_pair(sid[i]).as_str());
        i = i + 1;
    }
    out.append(":");
    out.append(text::decimal(gno).as_str());
    out
}

/// The least length of a MariaDB GTID event's body: a sequence number of eight bytes, a domain
/// of four, and one byte of flags.
pub const MARIADB_GTID_BODY_LEN: usize = 13;

/// A MariaDB GTID event's position in the form `domain-server-sequence`.
pub open spec fn mariadb_gtid(server_id: u32, data: Seq<u8>) -> Option<Seq<char>> {
    if data.len() < MARIADB_GTID_BODY_LEN {
        None
    } else {
        Some(
            text::decimal_text(bytes::little_endian(data.subrange(8, 12))) + "-"@
                + text::decimal_text(server_id as nat) + "-"@ + text::decimal_text(
                bytes::little_endian(data.subrange(0, 8)),
            ),
        )
    }
}

/// Decodes the body of a MariaDB GTID event; `None` where it is too short for the fixed prefix.
/// Optional fields behind the prefix do not matter.
pub fn parse_mariadb_gtid_event(server_id: u32, data: &[u8]) -> (gtid: Option<String>)
    ensures
        text::text_option(gtid) == mariadb_gtid(server_id, data@),
{
    if data.len() < MARIADB_GTID_BODY_LEN {
        return None;
    }
    let sequence = bytes::read_little_endian(data, 0, 8);
    let domain_id = bytes::read_little_endian(data, 8, 4);
    Some(
        text::join5(
            text::decimal(domain_id).as_str(),
            "-",
            text::decimal(server_id as u64).as_str(),
            "-",
            text::decimal(sequence).as_str(),
        ),
    )
}

// The dump request

/// One source's transactions as the dump request encodes them: intervals are half open.
#[derive(Debug, PartialEq, Eq)]
pub struct SidBlock {
    pub uuid: Vec<u8>,
    pub tag: Option<String>,
    pub intervals: Vec<(u64, u64)>,
}

/// What a [`SidBlock`] holds.
pub struct SidBlockView {
    pub uuid: Seq<u8>,
    pub tag: Option<Seq<char>>,
    pub intervals: Seq<(u64, u64)>,
}

impl View for SidBlock {
    type V = SidBlockView;

    open spec fn view(&self) -> SidBlockView {
        SidBlockView {
            uuid: self.uuid@,
            tag: text::text_option(self.tag),
            intervals: self.intervals@,
        }
    }
}

/// What each of some blocks holds.
pub open spec fn block_views(blocks: Seq<SidBlock>) -> Seq<SidBlockView> {
    blocks.map_values(|block: SidBlock| block@)
}

/// What `mysql_common` reads from the text of one source's transactions, or what it says of a text
/// that it refuses.
pub uninterp spec fn sid_block(entry: Seq<char>) -> Result<SidBlockView, Seq<char>>;

/// A text without the zeros that it begins with.
pub open spec fn without_zeros(text: Seq<char>) -> Seq<char>
    decreases text.len(),
{
    if text.len() > 0 && text[0] == '0' {
        without_zeros(text.drop_first())
    } else {
        text
    }
}

/// Whether a text is the largest 64-bit number: it may have a plus sign and leading zeros.
pub open spec fn is_last_number(text: Seq<char>) -> bool {
    without_zeros(
        if text.len() > 0 && text[0] == '+' {
            text.drop_first()
        } else {
            text
        },
    ) == "18446744073709551615"@
}

/// Whether an interval, `m` or `m-n`, ends at the largest 64-bit number.
pub open spec fn ends_at_last_number(interval: Seq<char>) -> bool {
    is_last_number(text::split(interval, '-').last())
}

/// Whether some interval of an entry ends at the largest 64-bit number. The intervals stand behind
/// the source's identity.
pub open spec fn names_last_number(entry: Seq<char>) -> bool {
    let parts = text::split(entry, ':');
    exists|i: int| 1 <= i < parts.len() && ends_at_last_number(#[trigger] parts[i])
}

/// `mysql_common::packets::Sid::from_str`: what it reads, and what it says of a text that it
/// refuses, depends on the text alone. It adds one to the end of an interval, which has no room at
/// the largest 64-bit number.
#[verifier::external_body]
fn read_sid(entry: &str) -> (block: Result<SidBlock, String>)
    requires
        !names_last_number(entry@),
    ensures
        match block {
            Ok(block) => sid_block(entry@) == Ok::<SidBlockView, Seq<char>>(block@),
            Err(reason) => sid_block(entry@) == Err::<SidBlockView, Seq<char>>(reason@),
        },
{
    match <mysql_common::packets::Sid as std::str::FromStr>::from_str(entry) {
        Ok(sid) => Ok(SidBlock {
            uuid: sid.uuid().to_vec(),
            tag: sid.tag().map(|tag| tag.as_str().to_owned()),
            intervals: sid.intervals().iter().map(|run| (run.start(), run.end())).collect(),
        }),
        Err(error) => Err(error.to_string()),
    }
}

fn is_last(text: &str) -> (b: bool)
    ensures
        b == is_last_number(text@),
{
    let chars = text::to_chars(text);
    let size = chars.len();
    let mut i: usize = 0;
    if size > 0 && chars[0] == '+' {
        i = 1;
    }
    let ghost whole = text@.skip(i as int);
    proof {
        if i == 0 {
            assert(whole =~= text@);
        } else {
            assert(whole =~= text@.drop_first());
        }
    }
    while i < size && chars[i] == '0'
        invariant
            i <= size,
            size == chars@.len(),
            chars@ == text@,
            without_zeros(whole) == without_zeros(text@.skip(i as int)),
        decreases size - i,
    {
        proof {
            assert(text@.skip(i as int)[0] == '0');
            assert(text@.skip(i as int).drop_first() =~= text@.skip(i + 1));
        }
        i = i + 1;
    }
    let rest = text::from_chars(&chars, i, size);
    proof {
        assert(rest@ =~= text@.skip(i as int));
        assert(i < size ==> text@.skip(i as int)[0] == chars@[i as int]);
        assert(without_zeros(rest@) == rest@);
    }
    text::same_text(rest.as_str(), "18446744073709551615")
}

fn has_last_number(entry: &str) -> (b: bool)
    ensures
        b == names_last_number(entry@),
{
    let parts = text::split_on(entry, ':');
    let ghost views = text::split(entry@, ':');
    let mut i: usize = 1;
    while i < parts.len()
        invariant
            1 <= i,
            views == text::texts(parts@),
            views == text::split(entry@, ':'),
            forall|k: int| 1 <= k < i && k < views.len() ==> !ends_at_last_number(#[trigger] views[k]),
        decreases parts.len() - i,
    {
        let numbers = text::split_on(parts[i].as_str(), '-');
        proof {
            assert(views[i as int] == parts@[i as int]@);
            text::lemma_split_nonempty(parts@[i as int]@, '-');
            assert(text::texts(numbers@).len() == numbers@.len());
            assert(text::texts(numbers@).last() == numbers@.last()@);
        }
        if is_last(numbers[numbers.len() - 1].as_str()) {
            return true;
        }
        i = i + 1;
    }
    false
}

/// The entries of a set, trimmed, without the blank ones.
pub open spec fn set_entries(entries: Seq<Seq<char>>) -> Seq<Seq<char>>
    decreases entries.len(),
{
    if entries.len() == 0 {
        Seq::empty()
    } else {
        let last = text::trimmed(entries.last());
        if last.len() == 0 {
            set_entries(entries.drop_last())
        } else {
            set_entries(entries.drop_last()).push(last)
        }
    }
}

/// Whether an entry can go into a dump request.
pub open spec fn entry_is_usable(entry: Seq<char>) -> bool {
    !names_last_number(entry) && sid_block(entry) is Ok
}

/// The place of the first entry, from a place on, that cannot go into a dump request.
pub open spec fn first_unusable(entries: Seq<Seq<char>>, from: int) -> int
    decreases entries.len() - from,
{
    if from < 0 || from >= entries.len() || !entry_is_usable(entries[from]) {
        from
    } else {
        first_unusable(entries, from + 1)
    }
}

/// What is told of an entry that cannot go into a dump request.
pub open spec fn bad_entry_text(entry: Seq<char>) -> Seq<char> {
    "invalid GTID '"@ + entry + "': "@ + if names_last_number(entry) {
        "number too large"@
    } else {
        sid_block(entry)->Err_0
    }
}

/// What is told of a GTID set of which some entry cannot be read: of the first such entry.
pub open spec fn bad_set_text(gtid_set: Seq<char>) -> Seq<char> {
    let entries = set_entries(text::split(text::trimmed(gtid_set), ','));
    bad_entry_text(entries[first_unusable(entries, 0)])
}

/// Whether these are the blocks of a GTID set, one for each entry; `None` where some entry cannot
/// be read.
pub open spec fn set_reads_as(gtid_set: Seq<char>, blocks: Option<Seq<SidBlockView>>) -> bool {
    let entries = set_entries(text::split(text::trimmed(gtid_set), ','));
    match blocks {
        Some(blocks) => {
            &&& blocks.len() == entries.len()
            &&& forall|i: int|
                0 <= i < entries.len() ==> entry_is_usable(#[trigger] entries[i]) && sid_block(
                    entries[i],
                ) == Ok::<SidBlockView, Seq<char>>(blocks[i])
        },
        None => exists|i: int| 0 <= i < entries.len() && !entry_is_usable(#[trigger] entries[i]),
    }
}

/// Reads a GTID set into the blocks of a dump request, one for each entry. An empty or blank set
/// gives none, which means that no position is known; an entry that cannot be read fails.
pub fn parse_gtid_set(gtid_set: &str) -> (blocks: Result<Vec<SidBlock>, String>)
    ensures
        set_reads_as(
            gtid_set@,
            match blocks {
                Ok(blocks) => Some(block_views(blocks@)),
                Err(_) => None,
            },
        ),
        blocks matches Err(reason) ==> reason@ == bad_set_text(gtid_set@),
{
    let trimmed = text::trim(gtid_set);
    let parts = text::split_on(trimmed.as_str(), ',');
    let ghost views = text::texts(parts@);
    let ghost entries = set_entries(views);
    let mut blocks: Vec<SidBlock> = Vec::new();
    let mut i: usize = 0;
    proof {
        reveal_strlit("");
        assert(views.take(0) =~= Seq::<Seq<char>>::empty());
    }
    while i < parts.len()
        invariant
            i <= parts@.len(),
            ""@.len() == 0,
            views == text::texts(parts@),
            views == text::split(text::trimmed(gtid_set@), ','),
            entries == set_entries(views),
            blocks@.len() == set_entries(views.take(i as int)).len(),
            forall|k: int|
                0 <= k < blocks@.len() ==> entry_is_usable(
                    #[trigger] set_entries(views.take(i as int))[k],
                ) && sid_block(set_entries(views.take(i as int))[k]) == Ok::<
                    SidBlockView,
                    Seq<char>,
                >(blocks@[k]@),
        decreases parts.len() - i,
    {
        let entry = text::trim(parts[i].as_str());
        let ghost done = set_entries(views.take(i as int));
        proof {
            assert(views.take(i + 1).drop_last() =~= views.take(i as int));
            assert(views.take(i + 1).last() == parts@[i as int]@);
            if entry@.len() == 0 {
                assert(entry@ =~= ""@);
            }
            lemma_set_entries_prefix(views, i + 1);
        }
        if !text::same_text(entry.as_str(), "") {
            proof {
                assert(set_entries(views.take(i + 1)) == done.push(entry@));
                assert(done.push(entry@)[done.len() as int] == entry@);
                assert(entries[done.len() as int] == entry@);
                if !entry_is_usable(entry@) {
                    assert forall|k: int| 0 <= k < done.len() implies entry_is_usable(
                        #[trigger] entries[k],
                    ) by {
                        assert(done[k] == done.push(entry@)[k]);
                    }
                    lemma_first_unusable(entries, 0, done.len() as int);
                }
            }
            let lead = text::join3("invalid GTID '", entry.as_str(), "': ");
            if has_last_number(entry.as_str()) {
                return Err(text::join2(lead.as_str(), "number too large"));
            }
            match read_sid(entry.as_str()) {
                Ok(block) => {
                    blocks.push(block);
                },
                Err(error) => {
                    return Err(text::join2(lead.as_str(), error.as_str()));
                },
            }
        }
        i = i + 1;
    }
    proof {
        assert(views.take(i as int) =~= views);
    }
    Ok(blocks)
}

proof fn lemma_first_unusable(entries: Seq<Seq<char>>, from: int, place: int)
    requires
        0 <= from <= place < entries.len(),
        !entry_is_usable(entries[place]),
        forall|k: int| from <= k < place ==> entry_is_usable(#[trigger] entries[k]),
    ensures
        first_unusable(entries, from) == place,
    decreases place - from,
{
    if from < place {
        assert(entry_is_usable(entries[from]));
        lemma_first_unusable(entries, from + 1, place);
    }
}

proof fn lemma_set_entries_prefix(entries: Seq<Seq<char>>, len: int)
    requires
        0 <= len <= entries.len(),
    ensures
        set_entries(entries.take(len)).len() <= set_entries(entries).len(),
        forall|k: int|
            0 <= k < set_entries(entries.take(len)).len() ==> set_entries(entries)[k]
                == #[trigger] set_entries(entries.take(len))[k],
    decreases entries.len(),
{
    if len == entries.len() {
        assert(entries.take(len) =~= entries);
    } else {
        lemma_set_entries_prefix(entries.drop_last(), len);
        assert(entries.drop_last().take(len) =~= entries.take(len));
    }
}

} // verus!
