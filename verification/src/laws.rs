//! What holds of the store whatever a repository holds: no object is in two
//! states at once, and a dead-lettered object stays dead-lettered for as long
//! as the run lasts.

use crate::collection::no_entries;
use crate::merge::{is_plain_name, lemma_merge_is_idempotent};
use crate::queue::visit_all;
use crate::render::finish_all;
use crate::repo::TreeEntry;
use crate::store::Collections;
use vstd::prelude::*;

verus! {

/// At the start of a run no object is in two of `rendered`, `pending` and
/// `dead_letter`, whatever the store held before.
pub proof fn lemma_begin_run_is_exclusive(state: Collections)
    ensures
        state.begin_run().exclusive(),
{
    let begun = state.begin_run();
    assert forall|id: Seq<u8>| #[trigger] begun.occurrences(id) <= 1 by {
        assert(!no_entries().dom().contains(id));
    }
}

/// A new revision leaves every object in the state that it is in.
pub proof fn lemma_add_revision_keeps_exclusive(state: Collections, id: Seq<u8>)
    requires
        state.exclusive(),
    ensures
        state.add_revision(id).exclusive(),
{
    let after = state.add_revision(id);
    assert forall|other: Seq<u8>| #[trigger] after.occurrences(other) <= 1 by {
        assert(state.occurrences(other) <= 1);
    }
}

/// Enqueueing an object puts no object in two states.
pub proof fn lemma_enqueue_keeps_exclusive(
    state: Collections,
    id: Seq<u8>,
    name: Seq<u8>,
    resolvable: bool,
)
    requires
        state.exclusive(),
    ensures
        state.enqueue(id, name, resolvable).exclusive(),
{
    let after = state.enqueue(id, name, resolvable);
    assert forall|other: Seq<u8>| #[trigger] after.occurrences(other) <= 1 by {
        assert(state.occurrences(other) <= 1);
        assert(state.occurrences(id) <= 1);
    }
}

/// Ending the work on an object puts no object in two states.
pub proof fn lemma_finish_keeps_exclusive(
    state: Collections,
    id: Seq<u8>,
    artifact: Option<Seq<u8>>,
)
    requires
        state.exclusive(),
    ensures
        state.finish(id, artifact).exclusive(),
{
    let after = state.finish(id, artifact);
    assert forall|other: Seq<u8>| #[trigger] after.occurrences(other) <= 1 by {
        assert(state.occurrences(other) <= 1);
        assert(state.occurrences(id) <= 1);
    }
}

/// Looking at the entries of a tree puts no object in two states.
pub proof fn lemma_visit_all_keeps_exclusive(
    state: Collections,
    entries: Seq<TreeEntry>,
    resolvable: Seq<bool>,
)
    requires
        state.exclusive(),
    ensures
        visit_all(state, entries, resolvable).exclusive(),
    decreases entries.len(),
{
    if entries.len() > 0 {
        lemma_visit_all_keeps_exclusive(state, entries.drop_last(), resolvable);
        let before = visit_all(state, entries.drop_last(), resolvable);
        lemma_enqueue_keeps_exclusive(
            before,
            entries.last().id@,
            entries.last().name@,
            resolvable[entries.len() - 1],
        );
    }
}

/// Rendering puts no object in two states.
pub proof fn lemma_finish_all_keeps_exclusive(
    state: Collections,
    ids: Seq<Seq<u8>>,
    artifacts: Seq<Option<Seq<u8>>>,
)
    requires
        state.exclusive(),
    ensures
        finish_all(state, ids, artifacts).exclusive(),
    decreases ids.len(),
{
    if ids.len() > 0 {
        lemma_finish_all_keeps_exclusive(state, ids.drop_last(), artifacts);
        lemma_finish_keeps_exclusive(
            finish_all(state, ids.drop_last(), artifacts),
            ids.last(),
            artifacts[ids.len() - 1],
        );
    }
}

/// Whether an object is dead-lettered and nothing else.
pub open spec fn is_dead(state: Collections, id: Seq<u8>) -> bool {
    &&& state.dead_letter.dom().contains(id)
    &&& !state.pending.dom().contains(id)
    &&& !state.rendered.dom().contains(id)
}

/// A dead-lettered object is not enqueued again, whether it resolves by now
/// or not, and the enqueueing of another object leaves it dead-lettered.
pub proof fn lemma_enqueue_leaves_dead(
    state: Collections,
    dead: Seq<u8>,
    id: Seq<u8>,
    name: Seq<u8>,
    resolvable: bool,
)
    requires
        is_dead(state, dead),
    ensures
        is_dead(state.enqueue(id, name, resolvable), dead),
        id == dead ==> state.enqueue(id, name, resolvable) == state,
{
}

/// A dead-lettered object is never rendered: ending the work on it changes
/// nothing, and ending the work on another object leaves it dead-lettered.
pub proof fn lemma_finish_leaves_dead(
    state: Collections,
    dead: Seq<u8>,
    id: Seq<u8>,
    artifact: Option<Seq<u8>>,
)
    requires
        is_dead(state, dead),
    ensures
        is_dead(state.finish(id, artifact), dead),
        id == dead ==> state.finish(id, artifact) == state,
{
}

/// Once an object is dead-lettered, no later step of the run makes it pending
/// or rendered, whatever entries are looked at and whatever the repository
/// says of them then.
pub proof fn lemma_visit_all_leaves_dead(
    state: Collections,
    dead: Seq<u8>,
    entries: Seq<TreeEntry>,
    resolvable: Seq<bool>,
)
    requires
        is_dead(state, dead),
    ensures
        is_dead(visit_all(state, entries, resolvable), dead),
    decreases entries.len(),
{
    if entries.len() > 0 {
        lemma_visit_all_leaves_dead(state, dead, entries.drop_last(), resolvable);
        lemma_enqueue_leaves_dead(
            visit_all(state, entries.drop_last(), resolvable),
            dead,
            entries.last().id@,
            entries.last().name@,
            resolvable[entries.len() - 1],
        );
    }
}

/// Once an object is dead-lettered, no rendering of the run gives it a
/// rendered record.
pub proof fn lemma_finish_all_leaves_dead(
    state: Collections,
    dead: Seq<u8>,
    ids: Seq<Seq<u8>>,
    artifacts: Seq<Option<Seq<u8>>>,
)
    requires
        is_dead(state, dead),
    ensures
        is_dead(finish_all(state, ids, artifacts), dead),
    decreases ids.len(),
{
    if ids.len() > 0 {
        lemma_finish_all_leaves_dead(state, dead, ids.drop_last(), artifacts);
        lemma_finish_leaves_dead(
            finish_all(state, ids.drop_last(), artifacts),
            dead,
            ids.last(),
            artifacts[ids.len() - 1],
        );
    }
}

/// Merging a filename into a pending object twice stores what merging it once
/// stores.
pub proof fn lemma_record_twice_is_record_once(state: Collections, id: Seq<u8>, name: Seq<u8>)
    requires
        is_plain_name(name),
    ensures
        state.record(id, name, true).record(id, name, true) == state.record(id, name, true),
{
    let once = state.record(id, name, true);
    let twice = once.record(id, name, true);
    lemma_merge_is_idempotent(crate::collection::lookup(state.pending, id), name);
    assert(twice.pending =~= once.pending);
}

} // verus!
