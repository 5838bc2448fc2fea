//! The set of bones claimed by at least one mask group.
use vstd::prelude::*;
use crate::bone_id::BoneId;
use bevy::platform::collections::HashSet;
use bevy::platform::hash::FixedHasher;

verus! {

/// bevy's `HashSet` (`bevy::platform::collections::HashSet`), opaque here.
#[verifier::external_type_specification]
#[verifier::external_body]
#[verifier::reject_recursive_types(T)]
#[verifier::reject_recursive_types(S)]
pub struct ExHashSet<T, S>(HashSet<T, S>);

/// The default hasher of bevy's `HashSet`, opaque here.
#[verifier::external_type_specification]
#[verifier::external_body]
pub struct ExFixedHasher(FixedHasher);

/// The ids held by a bevy hash set, as the wrappers below maintain them.
pub uninterp spec fn hash_set_ids(s: HashSet<u128>) -> Set<u128>;

/// Relies on `bevy::platform::collections::HashSet::new`: the set starts empty.
#[verifier::external_body]
fn new_id_set() -> (r: HashSet<u128>)
    ensures
        hash_set_ids(r) == Set::<u128>::empty(),
{
    HashSet::new()
}

/// Relies on `bevy::platform::collections::HashSet::insert`: the value is
/// added, and `true` comes back when it was not there before.
#[verifier::external_body]
fn insert_id(s: &mut HashSet<u128>, id: u128) -> (added: bool)
    ensures
        hash_set_ids(*final(s)) == hash_set_ids(*old(s)).insert(id),
        added == !hash_set_ids(*old(s)).contains(id),
{
    s.insert(id)
}

/// Relies on `bevy::platform::collections::HashSet::contains`.
#[verifier::external_body]
fn contains_id(s: &HashSet<u128>, id: u128) -> (r: bool)
    ensures
        r == hash_set_ids(*s).contains(id),
{
    s.contains(&id)
}

/// A set of bone ids: the bones that some mask group claims.
pub struct TargetSet {
    ids: HashSet<u128>,
}

impl View for TargetSet {
    type V = Set<BoneId>;

    closed spec fn view(&self) -> Set<BoneId> {
        hash_set_ids(self.ids)
    }
}

impl TargetSet {
    /// An empty set.
    pub fn new() -> (r: TargetSet)
        ensures
            r@ == Set::<BoneId>::empty(),
    {
        TargetSet { ids: new_id_set() }
    }

    /// Adds `id`; returns whether it was absent before.
    pub fn insert(&mut self, id: BoneId) -> (added: bool)
        ensures
            final(self)@ == old(self)@.insert(id),
            added == !old(self)@.contains(id),
    {
        insert_id(&mut self.ids, id)
    }

    /// Whether `id` is in the set.
    pub fn contains(&self, id: BoneId) -> (r: bool)
        ensures
            r == self@.contains(id),
    {
        contains_id(&self.ids, id)
    }
}

} // verus!
