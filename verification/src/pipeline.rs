//! A whole run, one stage after the other: the run begins, the history is
//! walked, the queue is built, and the pending objects are rendered. No stage
//! starts before the one before it has ended.

use crate::bytes::views;
use crate::collection::no_entries;
use crate::error::Failure;
use crate::history::{add_revisions, lemma_revisions_only_grow, serialized_revs_from_repo, RefSelection};
use crate::laws::{
    lemma_begin_run_is_exclusive, lemma_finish_all_keeps_exclusive,
    lemma_visit_all_keeps_exclusive,
};
use crate::queue::{
    answers, dead_ids, determine_oids_to_render, visit_all, Enqueued, QueueReport,
};
use crate::render::{finish_all, lists_keys, render_text_blobs, RenderReport};
use crate::repo::TreeEntry;
use crate::store::{Collections, Store};
use vstd::prelude::*;

verus! {

/// What a run did.
#[derive(Debug)]
pub struct RunReport {
    /// The number of revisions that the walk over the history gave.
    pub revisions: usize,
    /// What the queue builder did.
    pub queue: QueueReport,
    /// What the renderer did.
    pub render: RenderReport,
}

impl RunReport {
    /// Whether the store never failed on one revision or one object.
    pub open spec fn is_clean(self) -> bool {
        self.queue.failures@.len() == 0 && self.render.failures@.len() == 0
    }
}

/// The store after a run that recorded `revisions`, looked at `entries`, of
/// whose objects the repository said `resolvable`, and ended the work on
/// `ids` with `artifacts`.
pub open spec fn ran(
    state: Collections,
    revisions: Seq<Seq<u8>>,
    entries: Seq<TreeEntry>,
    resolvable: Seq<bool>,
    ids: Seq<Seq<u8>>,
    artifacts: Seq<Option<Seq<u8>>>,
) -> Collections {
    finish_all(
        visit_all(add_revisions(state.begin_run(), revisions), entries, resolvable),
        ids,
        artifacts,
    )
}

/// Recording revisions puts no object in two states.
pub proof fn lemma_add_revisions_keeps_exclusive(state: Collections, ids: Seq<Seq<u8>>)
    requires
        state.exclusive(),
    ensures
        add_revisions(state, ids).exclusive(),
{
    lemma_revisions_only_grow(state, ids);
    let after = add_revisions(state, ids);
    assert forall|id: Seq<u8>| #[trigger] after.occurrences(id) <= 1 by {
        assert(state.occurrences(id) <= 1);
    }
}

/// After a run, whatever it recorded, looked at and rendered, no object is in
/// two of `rendered`, `pending` and `dead_letter`.
pub proof fn lemma_ran_is_exclusive(
    state: Collections,
    revisions: Seq<Seq<u8>>,
    entries: Seq<TreeEntry>,
    resolvable: Seq<bool>,
    ids: Seq<Seq<u8>>,
    artifacts: Seq<Option<Seq<u8>>>,
)
    ensures
        ran(state, revisions, entries, resolvable, ids, artifacts).exclusive(),
{
    lemma_begin_run_is_exclusive(state);
    lemma_add_revisions_keeps_exclusive(state.begin_run(), revisions);
    let recorded = add_revisions(state.begin_run(), revisions);
    lemma_visit_all_keeps_exclusive(recorded, entries, resolvable);
    lemma_finish_all_keeps_exclusive(visit_all(recorded, entries, resolvable), ids, artifacts);
}

/// Runs once: empties `pending` and `dead_letter`, records the history,
/// builds the queue and renders what is pending. A failure of the store
/// before the queue is built, and a failure of the repository while the
/// history is walked, end the run. A run that ends so has rendered nothing;
/// where the repository ended it, the run has begun and recorded some
/// revisions, and nothing else. A run that comes to its end has recorded as
/// many revisions as its report says, whatever failed after that. Where the
/// store never failed, nothing is pending, no object is in two of
/// `rendered`, `pending` and `dead_letter`, the store is what the four
/// stages, one after the other, make of it, and the report lists the objects
/// that were dead-lettered.
pub fn run(repo: &git2::Repository, store: &mut Store, depth: usize, selection: RefSelection) -> (done:
    Result<RunReport, Failure>)
    ensures
        done matches Ok(report) ==> {
            &&& depth > 0 ==> report.revisions <= depth
            &&& exists|revisions: Seq<Seq<u8>>|
                {
                    &&& final(store)@.revs == (#[trigger] add_revisions(
                        old(store)@.begin_run(),
                        revisions,
                    )).revs
                    &&& revisions.len() == report.revisions
                }
        },
        done matches Ok(report) ==> (report.is_clean() ==> {
            &&& final(store)@.pending == no_entries()
            &&& final(store)@.exclusive()
            &&& exists|
                revisions: Seq<Seq<u8>>,
                entries: Seq<TreeEntry>,
                outcomes: Seq<Enqueued>,
                ids: Seq<Seq<u8>>,
                artifacts: Seq<Option<Seq<u8>>>,
            |
                {
                    &&& final(store)@ == #[trigger] ran(
                        old(store)@,
                        revisions,
                        entries,
                        answers(outcomes),
                        ids,
                        artifacts,
                    )
                    &&& revisions.len() == report.revisions
                    &&& outcomes.len() == entries.len()
                    &&& views(report.queue.dead_lettered@) == dead_ids(entries, outcomes)
                    &&& artifacts.len() == ids.len()
                    &&& report.render.rendered + report.render.binary + report.render.unrenderable
                        + report.render.unreadable@.len() == ids.len()
                }
        }),
        done matches Err(failure) ==> {
            &&& final(store)@.rendered == old(store)@.rendered
            &&& failure is Repository ==> exists|revisions: Seq<Seq<u8>>|
                final(store)@ == #[trigger] add_revisions(old(store)@.begin_run(), revisions)
        },
{
    if let Err(failure) = store.begin_run() {
        return Err(failure);
    }
    let ghost begun = store@;
    let revisions = match serialized_revs_from_repo(repo, store, depth, selection) {
        Ok(revisions) => revisions,
        Err(failure) => {
            return Err(failure);
        },
    };
    let ghost recorded = store@;
    let ghost listed = choose|listed: Seq<Seq<u8>>|
        listed.len() == revisions && recorded == #[trigger] add_revisions(begun, listed);
    let queue = match determine_oids_to_render(repo, store) {
        Ok(queue) => queue,
        Err(failure) => {
            return Err(failure);
        },
    };
    let ghost built = store@;
    let render = match render_text_blobs(repo, store) {
        Ok(render) => render,
        Err(failure) => {
            return Err(failure);
        },
    };
    proof {
        assert(store@.revs == add_revisions(old(store)@.begin_run(), listed).revs);
        if queue.failures@.len() == 0 && render.failures@.len() == 0 {
            let (entries, outcomes) = choose|entries: Seq<TreeEntry>, outcomes: Seq<Enqueued>|
                {
                    &&& built == #[trigger] visit_all(recorded, entries, answers(outcomes))
                    &&& outcomes.len() == entries.len()
                    &&& views(queue.dead_lettered@) == dead_ids(entries, outcomes)
                };
            let (ids, artifacts) = choose|ids: Seq<Seq<u8>>, artifacts: Seq<Option<Seq<u8>>>|
                {
                    &&& store@ == #[trigger] finish_all(built, ids, artifacts)
                    &&& lists_keys(ids, built.pending)
                    &&& artifacts.len() == ids.len()
                    &&& render.rendered + render.binary + render.unrenderable
                        + render.unreadable@.len() == ids.len()
                };
            assert(store@ == ran(
                old(store)@,
                listed,
                entries,
                answers(outcomes),
                ids,
                artifacts,
            ));
            lemma_ran_is_exclusive(
                old(store)@,
                listed,
                entries,
                answers(outcomes),
                ids,
                artifacts,
            );
        }
    }
    Ok(RunReport { revisions, queue, render })
}

} // verus!
