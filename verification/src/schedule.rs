//! The set of the trees that were scheduled for a listing page, kept in a
//! concurrent set.
//!
//! The two functions that call the set are not proved: their contracts say
//! what the set does. The set is written through `&mut`: the contracts hold
//! where no other thread writes to it meanwhile.

use vstd::prelude::*;

verus! {

/// `dashmap::DashSet`: a set that many threads can write to.
#[verifier::external_type_specification]
#[verifier::external_body]
#[verifier::reject_recursive_types(K)]
#[verifier::reject_recursive_types(S)]
pub struct ExDashSet<K, S>(dashmap::DashSet<K, S>);

/// What a set holds: the identifiers in it.
pub uninterp spec fn members(set: dashmap::DashSet<Vec<u8>>) -> Set<Seq<u8>>;

/// `dashmap::DashSet::new`: a set that holds nothing.
#[verifier::external_body]
fn new_set() -> (set: dashmap::DashSet<Vec<u8>>)
    ensures
        members(set) == Set::<Seq<u8>>::empty(),
{
    dashmap::DashSet::new()
}

/// `dashmap::DashSet::insert`: the set holds `id` and what it held; `true`
/// is returned where it did not hold `id` before.
#[verifier::external_body]
fn insert(set: &mut dashmap::DashSet<Vec<u8>>, id: Vec<u8>) -> (fresh: bool)
    ensures
        fresh == !members(*old(set)).contains(id@),
        members(*final(set)) == members(*old(set)).insert(id@),
{
    set.insert(id)
}

/// The trees that were scheduled for a listing page.
pub struct Scheduled {
    trees: dashmap::DashSet<Vec<u8>>,
}

impl View for Scheduled {
    type V = Set<Seq<u8>>;

    closed spec fn view(&self) -> Set<Seq<u8>> {
        members(self.trees)
    }
}

impl Scheduled {
    /// No tree is scheduled.
    pub fn new() -> (scheduled: Scheduled)
        ensures
            scheduled@ == Set::<Seq<u8>>::empty(),
    {
        Scheduled { trees: new_set() }
    }

    /// Schedules a tree. `true` is returned where it was not scheduled
    /// before: each tree is new once.
    pub fn schedule(&mut self, id: &[u8]) -> (fresh: bool)
        ensures
            fresh == !old(self)@.contains(id@),
            final(self)@ == old(self)@.insert(id@),
    {
        insert(&mut self.trees, vstd::slice::slice_to_vec(id))
    }
}

} // verus!
