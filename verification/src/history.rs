//! The history walker: the revisions that can be reached from the chosen
//! references are recorded in `revs`.

use crate::error::Failure;
use crate::repo::{next_revision, push_glob, push_head, revwalk};
use crate::store::{Collections, Store};
use vstd::prelude::*;

verus! {

/// The references that a walk over the history starts from.
#[derive(Clone, Copy, Debug, PartialEq, Eq, Structural)]
pub enum RefSelection {
    /// Every reference of the repository.
    AllRefs,
    /// The current head only.
    Head,
}

/// The store after the revisions `ids` were recorded.
pub open spec fn add_revisions(state: Collections, ids: Seq<Seq<u8>>) -> Collections
    decreases ids.len(),
{
    if ids.len() == 0 {
        state
    } else {
        add_revisions(state, ids.drop_last()).add_revision(ids.last())
    }
}

/// Recording revisions removes none: what was recorded stays recorded, and
/// each of the new ones is recorded.
pub proof fn lemma_revisions_only_grow(state: Collections, ids: Seq<Seq<u8>>)
    ensures
        add_revisions(state, ids).rendered == state.rendered,
        add_revisions(state, ids).pending == state.pending,
        add_revisions(state, ids).dead_letter == state.dead_letter,
        forall|id: Seq<u8>|
            state.revs.dom().contains(id) ==> #[trigger] add_revisions(
                state,
                ids,
            ).revs.dom().contains(id),
        forall|i: int|
            0 <= i < ids.len() ==> add_revisions(state, ids).revs.dom().contains(#[trigger] ids[i]),
    decreases ids.len(),
{
    if ids.len() > 0 {
        lemma_revisions_only_grow(state, ids.drop_last());
        let before = add_revisions(state, ids.drop_last());
        assert forall|i: int| 0 <= i < ids.len() implies add_revisions(
            state,
            ids,
        ).revs.dom().contains(#[trigger] ids[i]) by {
            if i < ids.len() - 1 {
                assert(ids.drop_last()[i] == ids[i]);
                assert(before.revs.dom().contains(ids.drop_last()[i]));
            }
        }
    }
}

/// Records the revisions of the history that can be reached from the chosen
/// references, in the order in which the repository gives them. With a
/// `depth` above zero the walk ends after that many revisions; zero sets no
/// bound. The number of revisions that the walk gave is returned. Where the
/// store did not fail, the store is what recording some revisions, one after
/// the other, makes of it. Whatever happens, `rendered`, `pending` and
/// `dead_letter` keep what they hold.
pub fn serialized_revs_from_repo(
    repo: &git2::Repository,
    store: &mut Store,
    depth: usize,
    selection: RefSelection,
) -> (done: Result<usize, Failure>)
    ensures
        final(store)@.rendered == old(store)@.rendered,
        final(store)@.pending == old(store)@.pending,
        final(store)@.dead_letter == old(store)@.dead_letter,
        done matches Ok(found) ==> {
            &&& depth > 0 ==> found <= depth
            &&& exists|ids: Seq<Seq<u8>>|
                ids.len() == found && final(store)@ == #[trigger] add_revisions(old(store)@, ids)
        },
        done matches Err(failure) ==> (failure is Repository ==> exists|ids: Seq<Seq<u8>>|
            final(store)@ == #[trigger] add_revisions(old(store)@, ids)),
{
    let ghost mut ids: Seq<Seq<u8>> = Seq::empty();
    let mut walk = match revwalk(repo) {
        Ok(walk) => walk,
        Err(fault) => {
            assert(store@ == add_revisions(old(store)@, ids));
            return Err(Failure::repository(&fault));
        },
    };
    let pushed = match selection {
        RefSelection::AllRefs => push_glob(&mut walk, "*"),
        RefSelection::Head => push_head(&mut walk),
    };
    if let Err(fault) = pushed {
        assert(store@ == add_revisions(old(store)@, ids));
        return Err(Failure::repository(&fault));
    }
    let limit = if depth == 0 {
        usize::MAX
    } else {
        depth
    };
    let mut found: usize = 0;
    while found < limit
        invariant
            found <= limit,
            depth > 0 ==> limit == depth,
            ids.len() == found,
            store@ == add_revisions(old(store)@, ids),
            store@.rendered == old(store)@.rendered,
            store@.pending == old(store)@.pending,
            store@.dead_letter == old(store)@.dead_letter,
        decreases limit - found,
    {
        let id = match next_revision(&mut walk) {
            None => {
                break ;
            },
            Some(Ok(id)) => id,
            Some(Err(fault)) => {
                return Err(Failure::repository(&fault));
            },
        };
        if let Err(failure) = store.add_revision(id.as_slice()) {
            return Err(failure);
        }
        proof {
            let ghost longer = ids.push(id@);
            assert(longer.drop_last() =~= ids);
            ids = longer;
        }
        found += 1;
    }
    Ok(found)
}

} // verus!
