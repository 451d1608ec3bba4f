//! What a stream has executed: how a MariaDB position moves on, how identities are written, and
//! where an event sits between two watermarks.
use vstd::prelude::*;
use crate::bytes;
use crate::capabilities::DatabaseAuthMode;
use crate::incremental::table::{BracketPosition, SegmentPosition, StreamPosition};
use crate::mysql::config::MysqlSourceConfig;
use crate::mysql::connection;
use crate::mysql::connection::ConnectionMode;
use crate::mysql::gtid;
use crate::mysql::gtid::{Run, SourceView};
use crate::mysql::place_laws;
use crate::mysql::stream;
use crate::mysql::values;
use crate::mysql::visibility;
use crate::mysql::visibility::MysqlPosition;
use crate::text;

verus! {

// MariaDB positions

/// A position's domain is what stands before its first dash.
pub proof fn domain_stands_first(domain: Seq<char>, rest: Seq<char>)
    requires
        domain.len() > 0,
        !domain.contains('-'),
        !text::is_space(domain[0]),
        rest.len() > 0,
        !text::is_space(rest.last()),
    ensures
        gtid::domain_of(domain + "-"@ + rest) == domain,
{
    reveal_strlit("-");
    let whole = domain + "-"@ + rest;
    assert(whole =~= domain + seq!['-'] + rest);
    assert(whole[0] == domain[0]);
    assert(whole.last() == rest.last());
    text::trimmed_is_itself(whole);
    text::split_before_separator(domain, '-', rest);
}

proof fn lemma_domain_place(entries: Seq<Seq<char>>, domain: Seq<char>)
    ensures
        0 <= gtid::domain_place(entries, domain) <= entries.len(),
        gtid::domain_place(entries, domain) < entries.len() ==> gtid::domain_of(
            entries[gtid::domain_place(entries, domain)],
        ) == domain,
        forall|i: int|
            0 <= i < gtid::domain_place(entries, domain) ==> gtid::domain_of(#[trigger] entries[i])
                != domain,
    decreases entries.len(),
{
    if entries.len() > 0 && gtid::domain_of(entries[0]) != domain {
        let less = entries.drop_first();
        lemma_domain_place(less, domain);
        assert forall|i: int| 0 <= i < gtid::domain_place(entries, domain) implies gtid::domain_of(
            #[trigger] entries[i],
        ) != domain by {
            if i > 0 {
                assert(less[i - 1] == entries[i]);
            }
        }
    }
}

/// A commit moves the position of its own domain on and leaves those of other domains as they are.
/// A domain that had no position gets one.
pub proof fn commit_moves_only_its_domain(entries: Seq<Seq<char>>, one: Seq<char>)
    requires
        forall|i: int, j: int|
            0 <= i < j < entries.len() ==> gtid::domain_of(#[trigger] entries[i])
                != gtid::domain_of(#[trigger] entries[j]),
    ensures
        gtid::moved_on(entries, one).contains(one),
        forall|i: int|
            0 <= i < entries.len() && gtid::domain_of(#[trigger] entries[i]) != gtid::domain_of(one)
                ==> gtid::moved_on(entries, one)[i] == entries[i],
        forall|i: int|
            0 <= i < entries.len() && gtid::domain_of(#[trigger] entries[i]) == gtid::domain_of(one)
                ==> gtid::moved_on(entries, one)[i] == one && gtid::moved_on(entries, one).len()
                == entries.len(),
        (forall|i: int|
            0 <= i < entries.len() ==> gtid::domain_of(#[trigger] entries[i]) != gtid::domain_of(
                one,
            )) ==> gtid::moved_on(entries, one) == entries.push(one),
{
    let domain = gtid::domain_of(one);
    let place = gtid::domain_place(entries, domain);
    lemma_domain_place(entries, domain);
    let next = gtid::moved_on(entries, one);
    if place < entries.len() {
        assert(next[place] == one);
        assert forall|i: int|
            0 <= i < entries.len() && gtid::domain_of(#[trigger] entries[i]) == domain implies i
            == place by {
            if i < place {
                assert(gtid::domain_of(entries[i]) != gtid::domain_of(entries[place]));
            } else if place < i {
                assert(gtid::domain_of(entries[place]) != gtid::domain_of(entries[i]));
            }
        }
    } else {
        assert(next[entries.len() as int] == one);
    }
}

/// Positions by domain go into the executed set with the commit's moved on; where nothing had been
/// executed, the commit's is all there is. A commit without an identity leaves the set as it is.
pub proof fn mariadb_commit_moves_the_set_on(current: Seq<char>, one: Seq<char>)
    requires
        gtid::read_set(one) is None,
    ensures
        text::trimmed(current).len() == 0 ==> stream::set_after(current, Some(one)) == one,
        text::trimmed(current).len() > 0 ==> stream::set_after(current, Some(one)) == text::joined(
            gtid::moved_on(text::split(current, ','), one),
            ","@,
        ),
        stream::set_after(current, None) == current,
{
}

/// A MariaDB transaction is named by its domain, its server and its number in the sequence. The
/// event's body holds the number in its first eight bytes and the domain in the next four, the
/// lowest byte first; a shorter body names none.
pub proof fn mariadb_transaction_is_named_by_domain_server_and_number(
    server_id: u32,
    number: Seq<u8>,
    domain: Seq<u8>,
    rest: Seq<u8>,
)
    requires
        number.len() == 8,
        domain.len() == 4,
    ensures
        rest.len() >= 1 ==> gtid::mariadb_gtid(server_id, number + domain + rest) == Some(
            text::decimal_text(bytes::little_endian(domain)) + "-"@ + text::decimal_text(
                server_id as nat,
            ) + "-"@ + text::decimal_text(bytes::little_endian(number)),
        ),
        gtid::mariadb_gtid(server_id, number + domain) is None,
{
    let data = number + domain + rest;
    assert(data.subrange(0, 8) =~= number);
    assert(data.subrange(8, 12) =~= domain);
}

/// A server's identity is written as its sixteen bytes in hexadecimal digits, parted by dashes
/// behind the fourth, the sixth, the eighth and the tenth.
pub proof fn identity_is_written_in_five_groups(sid: Seq<u8>)
    requires
        sid.len() == 16,
    ensures
        gtid::uuid_text(sid, 16) == values::hex_pairs(sid.subrange(0, 4)) + "-"@
            + values::hex_pairs(sid.subrange(4, 6)) + "-"@ + values::hex_pairs(
            sid.subrange(6, 8),
        ) + "-"@ + values::hex_pairs(sid.subrange(8, 10)) + "-"@ + values::hex_pairs(
            sid.subrange(10, 16),
        ),
{
    assert(gtid::uuid_text(sid, 0) =~= Seq::<char>::empty());
    lemma_group(sid, 0, 4);
    lemma_group(sid, 4, 6);
    lemma_group(sid, 6, 8);
    lemma_group(sid, 8, 10);
    lemma_group(sid, 10, 16);
}

proof fn lemma_group(sid: Seq<u8>, from: int, to: int)
    requires
        sid.len() == 16,
        (from == 0 && to == 4) || (from == 4 && to == 6) || (from == 6 && to == 8) || (from == 8
            && to == 10) || (from == 10 && to == 16),
    ensures
        gtid::uuid_text(sid, to as nat) == gtid::uuid_text(sid, from as nat) + (if from == 0 {
            Seq::<char>::empty()
        } else {
            "-"@
        }) + values::hex_pairs(sid.subrange(from, to)),
{
    lemma_group_part(sid, from, to, to);
}

proof fn lemma_group_part(sid: Seq<u8>, from: int, to: int, end: int)
    requires
        sid.len() == 16,
        (from == 0 && to == 4) || (from == 4 && to == 6) || (from == 6 && to == 8) || (from == 8
            && to == 10) || (from == 10 && to == 16),
        from < end <= to,
    ensures
        gtid::uuid_text(sid, end as nat) == gtid::uuid_text(sid, from as nat) + (if from == 0 {
            Seq::<char>::empty()
        } else {
            "-"@
        }) + values::hex_pairs(sid.subrange(from, end)),
    decreases end - from,
{
    let lead = if from == 0 {
        Seq::<char>::empty()
    } else {
        "-"@
    };
    let part = sid.subrange(from, end);
    assert(part.drop_last() =~= sid.subrange(from, end - 1));
    assert(part.last() == sid[end - 1]);
    if end - 1 > from {
        lemma_group_part(sid, from, to, end - 1);
        assert(gtid::uuid_text(sid, end as nat) =~= gtid::uuid_text(sid, from as nat) + lead
            + values::hex_pairs(part));
    } else {
        assert(values::hex_pairs(part.drop_last()) =~= Seq::<char>::empty());
        assert(gtid::uuid_text(sid, end as nat) =~= gtid::uuid_text(sid, from as nat) + lead
            + values::hex_pairs(part));
    }
}

// Between watermarks

/// Where the executed sets are known, they alone tell where an event sits: before both watermarks
/// where the lower one had executed all that the stream had with the event, past both where the
/// higher one had not, and between them otherwise.
pub proof fn executed_sets_tell_where_an_event_sits(
    position: MysqlPosition,
    low: MysqlPosition,
    high: MysqlPosition,
    with_it: Seq<SourceView>,
    before: Seq<SourceView>,
    after: Seq<SourceView>,
)
    requires
        visibility::executed_view(position.executed) == Some(with_it),
        visibility::executed_view(low.executed) == Some(before),
        visibility::executed_view(high.executed) == Some(after),
        gtid::canonical(with_it),
        gtid::canonical(before),
        gtid::canonical(after),
    ensures
        ({
            let seen_low = forall|sid: Seq<char>, gno: int|
                gtid::in_set(with_it, sid, gno) ==> #[trigger] gtid::in_set(before, sid, gno);
            let seen_high = forall|sid: Seq<char>, gno: int|
                gtid::in_set(with_it, sid, gno) ==> #[trigger] gtid::in_set(after, sid, gno);
            let place = visibility::bracket(position, low, high);
            &&& !seen_high ==> place == BracketPosition::After
            &&& seen_high && !seen_low ==> place == BracketPosition::Inside
            &&& seen_high && seen_low ==> place == BracketPosition::Before
        }),
{
    visibility::covering_is_containment(before, with_it);
    visibility::covering_is_containment(after, with_it);
}

/// Places in segmented logs order by their files' numbers, and within a file by position.
pub proof fn segments_order_by_number(a: SegmentPosition, b: SegmentPosition)
    ensures
        a.rank() < b.rank() <==> (a.file < b.file || (a.file == b.file && a.position
            < b.position)),
        a.rank() == b.rank() <==> a == b,
{
    if a.file < b.file {
        assert((b.file - a.file) * 0x1_0000_0000_0000_0000 >= 0x1_0000_0000_0000_0000)
            by (nonlinear_arith)
            requires
                b.file - a.file >= 1,
        ;
    }
    if b.file < a.file {
        assert((a.file - b.file) * 0x1_0000_0000_0000_0000 >= 0x1_0000_0000_0000_0000)
            by (nonlinear_arith)
            requires
                a.file - b.file >= 1,
        ;
    }
}

/// A numbered log file and a position in it are a place with that number and position.
pub proof fn numbered_file_is_a_segment(base: Seq<char>, number: u64, position: u64)
    ensures
        visibility::segment(place_laws::numbered(base, number), position) == Some(
            SegmentPosition { file: number, position },
        ),
{
    place_laws::numbered_file_has_its_number(base, number);
}

// Connections

/// A short-lived token makes every connection a new one. Any other secret is pooled, and fetched
/// when a connection is made where it is fetched at all.
pub proof fn only_tokens_take_new_connections(settings: MysqlSourceConfig)
    ensures
        connection::mode_of(settings) == ConnectionMode::PerConnection <==> settings.auth_mode
            == DatabaseAuthMode::AwsIamToken,
        settings.auth_mode != DatabaseAuthMode::AwsIamToken ==> (connection::mode_of(settings)
            == ConnectionMode::PooledDeferred <==> settings.password is Deferred),
{
}

// Dump requests

/// The blocks of a set are those of its entries, one each and in order; blank entries count for
/// nothing.
pub proof fn set_is_read_entry_by_entry(
    entries: Seq<Seq<char>>,
    entry: Seq<char>,
)
    ensures
        gtid::set_entries(Seq::empty()).len() == 0,
        text::trimmed(entry).len() == 0 ==> gtid::set_entries(entries.push(entry))
            == gtid::set_entries(entries),
        text::trimmed(entry).len() > 0 ==> gtid::set_entries(entries.push(entry))
            == gtid::set_entries(entries).push(text::trimmed(entry)),
{
    assert(entries.push(entry).drop_last() =~= entries);
}

/// An interval that ends at the largest number cannot be asked for, whatever zeros or sign that
/// number is written with: its end, one past it, is no number.
pub proof fn largest_number_cannot_be_asked_for(
    before: Seq<char>,
    from: Seq<char>,
    zeros: nat,
    signed: bool,
)
    requires
        !from.contains(':'),
    ensures
        !gtid::entry_is_usable(
            before + ":"@ + (from + "-"@ + ((if signed {
                "+"@
            } else {
                Seq::empty()
            }) + Seq::new(zeros, |i: int| '0') + "18446744073709551615"@)),
        ),
{
    reveal_strlit(":");
    reveal_strlit("-");
    reveal_strlit("+");
    reveal_strlit("18446744073709551615");
    let last = "18446744073709551615"@;
    let padding = Seq::new(zeros, |i: int| '0');
    let sign = if signed {
        "+"@
    } else {
        Seq::<char>::empty()
    };
    let end = sign + padding + last;
    let interval = from + "-"@ + end;
    let entry = before + ":"@ + interval;
    assert(forall|i: int| 0 <= i < end.len() ==> #[trigger] end[i] != '-' && end[i] != ':');
    assert(interval =~= from + seq!['-'] + end);
    text::split_after_separator(from, '-', end);
    assert(text::split(interval, '-').last() == end);
    lemma_without_zeros(zeros, last);
    if signed {
        assert(end[0] == '+');
        assert(end.drop_first() =~= padding + last);
    } else {
        assert(end =~= padding + last);
        assert(end[0] != '+');
    }
    assert(gtid::ends_at_last_number(interval));
    assert forall|i: int| 0 <= i < interval.len() implies interval[i] != ':' by {
        if i < from.len() {
            assert(from.contains(from[i]));
        } else if i > from.len() {
            assert(interval[i] == end[i - from.len() - 1]);
        }
    }
    assert(entry =~= before + seq![':'] + interval);
    text::split_after_separator(before, ':', interval);
    text::split_parts(before, ':');
    let parts = text::split(entry, ':');
    assert(parts[parts.len() - 1] == interval);
    assert(gtid::names_last_number(entry));
}

proof fn lemma_without_zeros(zeros: nat, last: Seq<char>)
    requires
        last.len() > 0,
        last[0] != '0',
    ensures
        gtid::without_zeros(Seq::new(zeros, |i: int| '0') + last) == last,
    decreases zeros,
{
    let whole = Seq::new(zeros, |i: int| '0') + last;
    if zeros == 0 {
        assert(whole =~= last);
    } else {
        lemma_without_zeros((zeros - 1) as nat, last);
        assert(whole.drop_first() =~= Seq::new((zeros - 1) as nat, |i: int| '0') + last);
        assert(whole[0] == '0');
    }
}

// Sets of intervals

/// An interval is written as its first and its last number with a dash between them, or as its only
/// number, and read back as that interval. One that ends before it starts is none.
pub proof fn interval_is_its_first_and_last_number(first: u64, last: u64)
    ensures
        first != last ==> gtid::run_text(Run { from: first, to: last }) == text::decimal_text(
            first as nat,
        ) + "-"@ + text::decimal_text(last as nat),
        gtid::run_text(Run { from: first, to: first }) == text::decimal_text(first as nat),
        gtid::read_run(text::decimal_text(first as nat)) == Some(Run { from: first, to: first }),
        first <= last ==> gtid::read_run(
            text::decimal_text(first as nat) + "-"@ + text::decimal_text(last as nat),
        ) == Some(Run { from: first, to: last }),
        first > last ==> gtid::read_run(
            text::decimal_text(first as nat) + "-"@ + text::decimal_text(last as nat),
        ) is None,
{
    reveal_strlit("-");
    let low = text::decimal_text(first as nat);
    let high = text::decimal_text(last as nat);
    text::decimal_is_digits(first as nat);
    text::decimal_is_digits(last as nat);
    text::number_round_trip(first as nat, 10);
    text::number_round_trip(last as nat, 10);
    assert(!low.contains('-') && !high.contains('-'));
    text::split_without_separator(low, '-');
    text::split_after_separator(low, '-', high);
    let whole = low + "-"@ + high;
    assert(whole =~= low + seq!['-'] + high);
    let parts = text::split(whole, '-');
    assert(parts =~= seq![low, high]);
}

/// A set is written source by source with commas between them, each with its intervals behind
/// colons.
pub proof fn set_is_written_source_by_source(
    set: Seq<SourceView>,
    sid: Seq<char>,
    runs: Seq<Run>,
    run: Run,
)
    ensures
        gtid::runs_text(Seq::empty()).len() == 0,
        gtid::runs_text(runs.push(run)) == gtid::runs_text(runs) + ":"@ + gtid::run_text(run),
        gtid::set_text(Seq::empty()).len() == 0,
        gtid::set_text(seq![SourceView { sid, runs }]) == sid + gtid::runs_text(runs),
        set.len() > 0 ==> gtid::set_text(set.push(SourceView { sid, runs })) == gtid::set_text(set)
            + ","@ + sid + gtid::runs_text(runs),
{
    assert(runs.push(run).drop_last() =~= runs);
    assert(set.push(SourceView { sid, runs }).drop_last() =~= set);
}

/// A transaction is in a set exactly where one of its source's intervals reaches from it or before
/// it to it or past it.
pub proof fn transaction_is_in_an_interval(
    sid: Seq<char>,
    runs: Seq<Run>,
    run: Run,
    gno: int,
)
    ensures
        !gtid::in_runs(Seq::empty(), gno),
        gtid::in_runs(runs.push(run), gno) <==> (gtid::in_runs(runs, gno) || run.from <= gno
            <= run.to),
        !gtid::in_set(Seq::empty(), sid, gno),
{
    let more = runs.push(run);
    if gtid::in_runs(runs, gno) {
        let i = choose|i: int|
            0 <= i < runs.len() && (#[trigger] runs[i]).from <= gno <= runs[i].to;
        assert(more[i] == runs[i]);
    }
    if run.from <= gno <= run.to {
        assert(more[runs.len() as int] == run);
    }
    if gtid::in_runs(more, gno) {
        let i = choose|i: int|
            0 <= i < more.len() && (#[trigger] more[i]).from <= gno <= more[i].to;
        if i < runs.len() {
            assert(runs[i] == more[i]);
        }
    }
}

} // verus!
