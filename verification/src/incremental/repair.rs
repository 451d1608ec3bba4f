//! Repair of partial live payloads from the chunk's own image of the row.
//!
//! A change may omit columns that it did not modify. Inside a chunk's bracket the driver knows
//! the row: the chunk read it, and every change since has passed through here. So an omitted
//! column's value is the one in that image, and a repaired event can stand in for the chunk row
//! that it supersedes.
use vstd::prelude::*;
use crate::event::{BeforeImage, BeforeView, Event, EventView};
use crate::json;
use crate::json::Json;
use crate::text;

verus! {

/// An image with each listed column that the shadow has, as the shadow has it.
pub open spec fn filled(
    image: Map<Seq<char>, Json>,
    columns: Seq<Seq<char>>,
    shadow: Map<Seq<char>, Json>,
) -> Map<Seq<char>, Json> {
    image.union_prefer_right(shadow.restrict(columns.to_set()))
}

/// The listed columns that the shadow lacks.
pub open spec fn unfilled(columns: Seq<Seq<char>>, shadow: Map<Seq<char>, Json>) -> Seq<Seq<char>> {
    columns.filter(|column: Seq<char>| !shadow.contains_key(column))
}

/// A before-image with its holes filled from the shadow.
pub open spec fn repaired_before(before: BeforeView, shadow: Map<Seq<char>, Json>) -> BeforeView {
    match before {
        BeforeView::Full { row: Json::Object(image), unavailable_columns } => BeforeView::Full {
            row: Json::Object(filled(image, unavailable_columns, shadow)),
            unavailable_columns: unfilled(unavailable_columns, shadow),
        },
        _ => before,
    }
}

/// The columns of a before-image that the shadow could not fill.
pub open spec fn unfilled_before(before: BeforeView, shadow: Map<Seq<char>, Json>) -> Seq<
    Seq<char>,
> {
    match before {
        BeforeView::Full { row: Json::Object(image), unavailable_columns } => unfilled(
            unavailable_columns,
            shadow,
        ),
        _ => Seq::empty(),
    }
}

/// An event with its missing columns filled from the shadow, on both images; a filled column is
/// no longer listed as unavailable.
pub open spec fn repaired(event: EventView, shadow: Map<Seq<char>, Json>) -> EventView {
    let before = repaired_before(event.before, shadow);
    match event.after {
        Some(Json::Object(image)) => EventView {
            before,
            after: Some(Json::Object(filled(image, event.unavailable_columns, shadow))),
            unavailable_columns: unfilled(event.unavailable_columns, shadow),
            ..event
        },
        _ => EventView { before, ..event },
    }
}

/// The columns of an event that the shadow could not fill.
pub open spec fn unfilled_columns(event: EventView, shadow: Map<Seq<char>, Json>) -> Seq<
    Seq<char>,
> {
    unfilled_before(event.before, shadow) + (match event.after {
        Some(Json::Object(image)) => unfilled(event.unavailable_columns, shadow),
        _ => Seq::empty(),
    })
}

/// The shadow after an event: the event's new values over what it held.
pub open spec fn refreshed(shadow: Map<Seq<char>, Json>, event: EventView) -> Map<Seq<char>, Json> {
    match event.after {
        Some(row) => shadow.union_prefer_right(row.members()),
        None => shadow,
    }
}

/// Fills the listed columns of an image from the shadow; gives back those that it lacks.
fn fill(image: &mut serde_json::Value, columns: &Vec<String>, shadow: &serde_json::Value) -> (left:
    Vec<String>)
    requires
        json::json(*old(image)) is Object,
    ensures
        json::json(*final(image)) == Json::Object(
            filled(
                json::json(*old(image)).members(),
                text::texts(columns@),
                json::json(*shadow).members(),
            ),
        ),
        text::texts(left@) == unfilled(text::texts(columns@), json::json(*shadow).members()),
{
    let ghost names = text::texts(columns@);
    let ghost source = json::json(*shadow).members();
    let ghost start = json::json(*image).members();
    let ghost lacks = |column: Seq<char>| !source.contains_key(column);
    let mut left: Vec<String> = Vec::new();
    let mut i: usize = 0;
    proof {
        reveal(Seq::filter);
        assert(names.take(0) =~= Seq::<Seq<char>>::empty());
        assert(start =~= filled(start, names.take(0), source));
    }
    while i < columns.len()
        invariant
            i <= columns@.len(),
            names == text::texts(columns@),
            source == json::json(*shadow).members(),
            lacks == (|column: Seq<char>| !source.contains_key(column)),
            json::json(*image) is Object,
            json::json(*image).members() == filled(start, names.take(i as int), source),
            text::texts(left@) == names.take(i as int).filter(lacks),
        decreases columns.len() - i,
    {
        let ghost name = names[i as int];
        let ghost done = names.take(i as int);
        let ghost before = text::texts(left@);
        proof {
            reveal(Seq::filter);
            assert(names.take(i + 1) =~= done.push(name));
            assert(done.push(name).drop_last() =~= done);
            assert forall|other: Seq<char>| #[trigger]
                done.push(name).to_set().contains(other) <==> (done.to_set().contains(other)
                    || other == name) by {
                if done.contains(other) {
                    let j = choose|j: int| 0 <= j < done.len() && done[j] == other;
                    assert(done.push(name)[j] == other);
                }
                if other == name {
                    assert(done.push(name)[done.len() as int] == other);
                }
            }
        }
        match json::member(shadow, columns[i].as_str()) {
            Some(value) => {
                json::set_member(image, columns[i].clone(), value.clone());
                proof {
                    assert(json::json(*image).members() =~= filled(
                        start,
                        done.push(name),
                        source,
                    ));
                }
            },
            None => {
                left.push(columns[i].clone());
                proof {
                    assert(text::texts(left@) =~= before.push(name));
                    assert(json::json(*image).members() =~= filled(
                        start,
                        done.push(name),
                        source,
                    ));
                }
            },
        }
        i = i + 1;
    }
    proof {
        assert(names.take(i as int) =~= names);
    }
    left
}

/// Fills an event's missing columns from the shadow image of its row, then brings the shadow up
/// to date with the event. Gives back the columns that the shadow could not supply.
///
/// The shadow is read before it is brought up to date: the holes of a before-image describe the
/// row prior to the event.
pub fn repair_event(shadow: &mut serde_json::Value, event: &mut Event) -> (missing: Vec<String>)
    requires
        json::json(*old(shadow)) is Object,
    ensures
        final(event)@ == repaired(old(event)@, json::json(*old(shadow)).members()),
        json::json(*final(shadow)) == Json::Object(
            refreshed(json::json(*old(shadow)).members(), final(event)@),
        ),
        text::texts(missing@) == unfilled_columns(
            old(event)@,
            json::json(*old(shadow)).members(),
        ),
{
    let mut missing: Vec<String> = Vec::new();
    let ghost start = event@;
    let ghost members = json::json(*shadow).members();
    proof {
        assert(text::texts(missing@) =~= Seq::<Seq<char>>::empty());
    }
    match &mut event.before {
        BeforeImage::Full { row, unavailable_columns } => {
            if json::is_object(row) {
                let left = fill(row, unavailable_columns, shadow);
                missing = text::clone_texts(&left);
                *unavailable_columns = left;
            }
        },
        _ => {},
    }
    proof {
        assert(event@.before == repaired_before(start.before, members));
    }
    match &mut event.after {
        Some(row) => {
            if json::is_object(row) {
                let left = fill(row, &event.unavailable_columns, shadow);
                let mut more = text::clone_texts(&left);
                let ghost first = text::texts(missing@);
                let ghost second = text::texts(more@);
                missing.append(&mut more);
                proof {
                    assert(text::texts(missing@) =~= first + second);
                }
                event.unavailable_columns = left;
            }
        },
        None => {},
    }
    proof {
        assert(text::texts(missing@) =~= unfilled_columns(start, members));
    }
    match &event.after {
        Some(row) => {
            json::set_members(shadow, row);
        },
        None => {},
    }
    missing
}

/// A repaired event lists no column as unavailable that its new row holds a value for, if it did
/// not before.
pub proof fn repair_never_contradicts_itself(event: EventView, shadow: Map<Seq<char>, Json>)
    requires
        forall|column: Seq<char>|
            event.unavailable_columns.contains(column) && event.after is Some
                ==> !event.after->0.members().contains_key(column),
    ensures
        ({
            let after = repaired(event, shadow);
            forall|column: Seq<char>|
                after.unavailable_columns.contains(column) && after.after is Some
                    ==> !after.after->0.members().contains_key(column)
        }),
{
    let after = repaired(event, shadow);
    assert forall|column: Seq<char>|
        after.unavailable_columns.contains(column) && after.after is Some implies !after.after->0.members().contains_key(
        column,
    ) by {
        if event.after matches Some(Json::Object(image)) {
            let lacks = |c: Seq<char>| !shadow.contains_key(c);
            event.unavailable_columns.lemma_filter_contains_rev(lacks, column);
            let place = choose|i: int|
                0 <= i < after.unavailable_columns.len() && after.unavailable_columns[i] == column;
            event.unavailable_columns.lemma_filter_pred(lacks, place);
            assert(lacks(after.unavailable_columns[place]));
            assert(event.unavailable_columns.contains(column));
        }
    }
}

/// Where the shadow holds every missing column, the repaired event misses none, and holds the
/// shadow's value for each.
pub proof fn repair_completes_the_event(event: EventView, shadow: Map<Seq<char>, Json>)
    requires
        event.after matches Some(row) && row is Object,
        forall|column: Seq<char>| #[trigger]
            event.unavailable_columns.contains(column) ==> shadow.contains_key(column),
    ensures
        repaired(event, shadow).unavailable_columns.len() == 0,
        forall|column: Seq<char>| #[trigger]
            event.unavailable_columns.contains(column) ==> repaired(
                event,
                shadow,
            ).after->0.members().contains_key(column) && repaired(
                event,
                shadow,
            ).after->0.members()[column] == shadow[column],
{
    let lacks = |c: Seq<char>| !shadow.contains_key(c);
    let columns = event.unavailable_columns;
    let left = columns.filter(lacks);
    if left.len() > 0 {
        columns.lemma_filter_pred(lacks, 0);
        assert(left.contains(left[0]));
        columns.lemma_filter_contains_rev(lacks, left[0]);
        assert(columns.contains(left[0]));
    }
    assert forall|column: Seq<char>| #[trigger] columns.contains(column) implies repaired(
        event,
        shadow,
    ).after->0.members().contains_key(column) && repaired(event, shadow).after->0.members()[column]
        == shadow[column] by {
        assert(columns.to_set().contains(column));
    }
}

} // verus!
