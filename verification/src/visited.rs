//! A set of handles already dealt with during one step.

use vstd::prelude::*;

verus! {

/// A hash set of handles. The set itself is
/// `bevy::utils::hashbrown::HashSet<usize>`; nothing here looks inside it.
#[verifier::external_body]
pub struct Visited {
    inner: bevy::utils::hashbrown::HashSet<usize>,
}

/// The handles a set holds.
pub uninterp spec fn visited_members(set: &Visited) -> Set<usize>;

/// `HashSet::new`: the new set holds nothing.
#[verifier::external_body]
pub(crate) fn visited_new() -> (set: Visited)
    ensures
        visited_members(&set) == Set::<usize>::empty(),
{
    Visited { inner: bevy::utils::hashbrown::HashSet::new() }
}

/// `HashSet::contains`: whether the handle is a member; the set is not
/// changed.
#[verifier::external_body]
pub(crate) fn visited_contains(set: &Visited, handle: usize) -> (found: bool)
    ensures
        found == visited_members(set).contains(handle),
{
    set.inner.contains(&handle)
}

/// `HashSet::insert`: afterwards the handle is a member and every other
/// membership is as before; the result says whether the handle was new.
#[verifier::external_body]
pub(crate) fn visited_insert(set: &mut Visited, handle: usize) -> (fresh: bool)
    ensures
        visited_members(final(set)) == visited_members(old(set)).insert(handle),
        fresh == !visited_members(old(set)).contains(handle),
{
    set.inner.insert(handle)
}

} // verus!
