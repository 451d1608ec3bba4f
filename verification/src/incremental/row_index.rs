//! The place of each chunk row by its identity.
use vstd::prelude::*;

verus! {

/// The entries of a map from text to places.
pub uninterp spec fn places(map: ahash::AHashMap<String, usize>) -> Map<Seq<char>, usize>;

/// No entries.
pub open spec fn no_places() -> Map<Seq<char>, usize> {
    Map::empty()
}

/// `AHashMap::new` is empty.
#[verifier::external_body]
pub(crate) fn empty_index() -> (created: ahash::AHashMap<String, usize>)
    ensures
        places(created) == no_places(),
{
    ahash::AHashMap::new()
}

/// `AHashMap::insert` sets the entry of a key.
#[verifier::external_body]
pub(crate) fn set_place(map: &mut ahash::AHashMap<String, usize>, key: String, place: usize)
    ensures
        places(*final(map)) == places(*old(map)).insert(key@, place),
{
    map.insert(key, place);
}

/// `AHashMap::get` gives the entry of a key.
#[verifier::external_body]
pub(crate) fn place(map: &ahash::AHashMap<String, usize>, key: &str) -> (found: Option<usize>)
    ensures
        found == (if places(*map).contains_key(key@) {
            Some(places(*map)[key@])
        } else {
            None
        }),
{
    map.get(key).copied()
}

} // verus!
