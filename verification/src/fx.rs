//! The hash collections that the traversals keep their visited types in,
//! and what is taken for granted of them. Nothing here is proved: the
//! contracts say what the collections of the standard library, with the
//! hasher that the compiler uses, do with keys that are plain numbers.

use vstd::prelude::*;
use rustc_data_structures::fx::{FxHashMap, FxHashSet, FxHasher};

verus! {

/// The hasher of the compiler's hash collections.
#[verifier::external_type_specification]
#[verifier::external_body]
pub struct ExFxHasher(FxHasher);

/// The standard library's maker of hashers from their default value.
#[verifier::external_type_specification]
#[verifier::external_body]
#[verifier::reject_recursive_types(H)]
pub struct ExBuildHasherDefault<H>(std::hash::BuildHasherDefault<H>);

/// A set of types.
pub type SeenSet = FxHashSet<usize>;

/// What is known of some types.
pub type SeenMap = FxHashMap<usize, bool>;

/// The types that a set holds.
pub uninterp spec fn set_contents(s: SeenSet) -> Set<usize>;

/// The types that a map knows, each with what it knows of it.
pub uninterp spec fn map_contents(m: SeenMap) -> Map<usize, bool>;

/// The map that knows nothing.
pub open spec fn nothing_known() -> Map<usize, bool> {
    Map::empty()
}

/// Calls `FxHashSet::default`, which makes a hash set without elements: the
/// new set holds nothing.
#[verifier::external_body]
pub(crate) fn set_new() -> (r: SeenSet)
    ensures
        set_contents(r) == Set::<usize>::empty(),
{
    FxHashSet::default()
}

/// Calls `HashSet::insert`, which adds a value to the set and returns
/// whether the value was newly inserted: afterwards the set holds `t`
/// besides what it held, and the result says whether it did not hold `t`
/// before.
#[verifier::external_body]
pub(crate) fn set_insert(s: &mut SeenSet, t: usize) -> (r: bool)
    ensures
        set_contents(*final(s)) == set_contents(*old(s)).insert(t),
        r == !set_contents(*old(s)).contains(t),
{
    s.insert(t)
}

/// Calls `FxHashMap::default`, which makes a hash map without entries: the
/// new map knows nothing.
#[verifier::external_body]
pub(crate) fn map_new() -> (r: SeenMap)
    ensures
        map_contents(r) == nothing_known(),
{
    FxHashMap::default()
}

/// Calls `HashMap::get`, which returns the value that belongs to a key:
/// what the map knows of `t`, if it knows anything of it.
#[verifier::external_body]
pub(crate) fn map_get(m: &SeenMap, t: usize) -> (r: Option<bool>)
    ensures
        r == if map_contents(*m).dom().contains(t) {
            Some(map_contents(*m)[t])
        } else {
            None::<bool>
        },
{
    m.get(&t).copied()
}

/// Calls `HashMap::insert`, which puts a key with a value into the map and
/// replaces the value where the key was there: afterwards the map knows
/// `v` of `t`, and of any other type what it knew.
#[verifier::external_body]
pub(crate) fn map_insert(m: &mut SeenMap, t: usize, v: bool)
    ensures
        map_contents(*final(m)) == map_contents(*old(m)).insert(t, v),
{
    m.insert(t, v);
}

} // verus!
