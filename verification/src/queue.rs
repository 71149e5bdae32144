//! The work queue builder: the entries of each revision's tree are looked at
//! one by one, and every object that is new to the store is recorded, as
//! pending where it resolves and as dead-lettered where it does not.

use crate::bytes::views;
use crate::collection::lists_entries;
use crate::error::Failure;
use crate::laws::lemma_visit_all_keeps_exclusive;
use crate::repo::{commit_entries, resolves, EntryKind, TreeEntry};
use crate::store::{Collections, Store};
use vstd::prelude::*;
use vstd::slice::slice_to_vec;

verus! {

/// What became of one entry.
#[derive(Clone, Copy, Debug, PartialEq, Eq, Structural)]
pub enum Enqueued {
    /// The entry is a tree: trees are not queued.
    Skipped,
    /// The object was rendered, pending or dead-lettered already.
    Known,
    /// The object resolves: it is pending now.
    Queued,
    /// The object does not resolve: it is dead-lettered now.
    DeadLettered,
}

impl Enqueued {
    /// What the repository said of the object: whether it resolves. (`true`
    /// where the repository was not asked.)
    pub open spec fn resolvable(self) -> bool {
        !(self is DeadLettered)
    }
}

/// What each of `outcomes` says of its object: whether it resolves.
pub open spec fn answers(outcomes: Seq<Enqueued>) -> Seq<bool> {
    Seq::new(outcomes.len(), |i: int| outcomes[i].resolvable())
}

/// The store after one entry was looked at: unchanged for a tree, else the
/// object is enqueued under the entry's name.
pub open spec fn visit(state: Collections, entry: TreeEntry, resolvable: bool) -> Collections {
    if entry.kind == EntryKind::Tree {
        state
    } else {
        state.enqueue(entry.id@, entry.name@, resolvable)
    }
}

/// What becomes of an entry that is looked at in `state`.
pub open spec fn outcome_of(state: Collections, entry: TreeEntry, resolvable: bool) -> Enqueued {
    if entry.kind == EntryKind::Tree {
        Enqueued::Skipped
    } else if state.knows(entry.id@) {
        Enqueued::Known
    } else if resolvable {
        Enqueued::Queued
    } else {
        Enqueued::DeadLettered
    }
}

/// The store after `entries` were looked at in their order, where
/// `resolvable[i]` is what the repository says of the object of `entries[i]`.
pub open spec fn visit_all(
    state: Collections,
    entries: Seq<TreeEntry>,
    resolvable: Seq<bool>,
) -> Collections
    decreases entries.len(),
{
    if entries.len() == 0 {
        state
    } else {
        visit(
            visit_all(state, entries.drop_last(), resolvable),
            entries.last(),
            resolvable[entries.len() - 1],
        )
    }
}

/// Only the answers for the entries that are looked at matter.
pub proof fn lemma_visit_all_reads_its_answers(
    state: Collections,
    entries: Seq<TreeEntry>,
    first: Seq<bool>,
    second: Seq<bool>,
)
    requires
        forall|i: int| 0 <= i < entries.len() ==> first[i] == second[i],
    ensures
        visit_all(state, entries, first) == visit_all(state, entries, second),
    decreases entries.len(),
{
    if entries.len() > 0 {
        lemma_visit_all_reads_its_answers(state, entries.drop_last(), first, second);
    }
}

/// Looking at two runs of entries one after the other is looking at their
/// concatenation.
pub proof fn lemma_visit_all_in_two_parts(
    state: Collections,
    entries: Seq<TreeEntry>,
    resolvable: Seq<bool>,
    more_entries: Seq<TreeEntry>,
    more_resolvable: Seq<bool>,
)
    requires
        resolvable.len() == entries.len(),
        more_resolvable.len() >= more_entries.len(),
    ensures
        visit_all(visit_all(state, entries, resolvable), more_entries, more_resolvable)
            == visit_all(state, entries + more_entries, resolvable + more_resolvable),
    decreases more_entries.len(),
{
    let all = entries + more_entries;
    let all_resolvable = resolvable + more_resolvable;
    if more_entries.len() == 0 {
        assert(all =~= entries);
        lemma_visit_all_reads_its_answers(state, entries, resolvable, all_resolvable);
    } else {
        lemma_visit_all_in_two_parts(
            state,
            entries,
            resolvable,
            more_entries.drop_last(),
            more_resolvable,
        );
        assert(all.drop_last() =~= entries + more_entries.drop_last());
        assert(all.last() == more_entries.last());
        assert(all_resolvable[all.len() - 1] == more_resolvable[more_entries.len() - 1]);
    }
}

/// The objects that were dead-lettered when `entries` were looked at, in the
/// order of the entries.
pub open spec fn dead_ids(entries: Seq<TreeEntry>, outcomes: Seq<Enqueued>) -> Seq<Seq<u8>>
    decreases entries.len(),
{
    if entries.len() == 0 {
        Seq::empty()
    } else if outcomes[entries.len() - 1] is DeadLettered {
        dead_ids(entries.drop_last(), outcomes).push(entries.last().id@)
    } else {
        dead_ids(entries.drop_last(), outcomes)
    }
}

/// Only the outcomes of the entries that were looked at matter.
pub proof fn lemma_dead_ids_reads_its_outcomes(
    entries: Seq<TreeEntry>,
    first: Seq<Enqueued>,
    second: Seq<Enqueued>,
)
    requires
        forall|i: int| 0 <= i < entries.len() ==> first[i] == second[i],
    ensures
        dead_ids(entries, first) == dead_ids(entries, second),
    decreases entries.len(),
{
    if entries.len() > 0 {
        lemma_dead_ids_reads_its_outcomes(entries.drop_last(), first, second);
    }
}

/// The objects dead-lettered by two runs of entries, one after the other, are
/// those of the first and then those of the second.
pub proof fn lemma_dead_ids_in_two_parts(
    entries: Seq<TreeEntry>,
    outcomes: Seq<Enqueued>,
    more_entries: Seq<TreeEntry>,
    more_outcomes: Seq<Enqueued>,
)
    requires
        outcomes.len() == entries.len(),
        more_outcomes.len() >= more_entries.len(),
    ensures
        dead_ids(entries + more_entries, outcomes + more_outcomes) == dead_ids(entries, outcomes)
            + dead_ids(more_entries, more_outcomes),
    decreases more_entries.len(),
{
    let all = entries + more_entries;
    let all_outcomes = outcomes + more_outcomes;
    if more_entries.len() == 0 {
        assert(all =~= entries);
        lemma_dead_ids_reads_its_outcomes(entries, outcomes, all_outcomes);
        assert(dead_ids(entries, outcomes) + Seq::<Seq<u8>>::empty() =~= dead_ids(
            entries,
            outcomes,
        ));
    } else {
        lemma_dead_ids_in_two_parts(entries, outcomes, more_entries.drop_last(), more_outcomes);
        assert(all.drop_last() =~= entries + more_entries.drop_last());
        assert(all.last() == more_entries.last());
        assert(all_outcomes[all.len() - 1] == more_outcomes[more_entries.len() - 1]);
        let before = dead_ids(entries, outcomes) + dead_ids(
            more_entries.drop_last(),
            more_outcomes,
        );
        assert(before.push(more_entries.last().id@) =~= dead_ids(entries, outcomes) + dead_ids(
            more_entries.drop_last(),
            more_outcomes,
        ).push(more_entries.last().id@));
    }
}

/// What one walk over a revision's tree saw and did: the entries in the order
/// of the walk, and what became of each.
#[derive(Debug)]
pub struct Walk {
    pub entries: Vec<TreeEntry>,
    pub outcomes: Vec<Enqueued>,
}

/// What the walks over all revisions did.
#[derive(Debug)]
pub struct QueueReport {
    /// The number of revisions whose walk came to its end.
    pub walked: usize,
    /// The failure of each walk that was given up.
    pub failures: Vec<Failure>,
    /// The objects that were dead-lettered.
    pub dead_lettered: Vec<Vec<u8>>,
}

/// Looks at one entry: a tree is skipped, a known object is left alone, and a
/// new object is recorded after the repository was asked whether it resolves.
/// The outcome says what the repository answered. Whatever happens, `revs`
/// and `rendered` keep what they hold.
pub fn enqueue_entry(repo: &git2::Repository, store: &mut Store, entry: &TreeEntry) -> (done:
    Result<Enqueued, Failure>)
    ensures
        final(store)@.revs == old(store)@.revs,
        final(store)@.rendered == old(store)@.rendered,
        done matches Ok(outcome) ==> {
            &&& outcome == outcome_of(old(store)@, *entry, outcome.resolvable())
            &&& final(store)@ == visit(old(store)@, *entry, outcome.resolvable())
        },
        done matches Err(failure) ==> failure is Store,
{
    if entry.kind == EntryKind::Tree {
        return Ok(Enqueued::Skipped);
    }
    match store.is_known(entry.id.as_slice()) {
        Ok(true) => {
            return Ok(Enqueued::Known);
        },
        Ok(false) => {},
        Err(failure) => {
            return Err(failure);
        },
    }
    let resolvable = resolves(repo, entry.id.as_slice());
    match store.record_entry(entry.id.as_slice(), entry.name.as_slice(), resolvable) {
        Ok(()) => if resolvable {
            Ok(Enqueued::Queued)
        } else {
            Ok(Enqueued::DeadLettered)
        },
        Err(failure) => Err(failure),
    }
}

/// Looks at `entries` in their order. The first failure of the store ends the
/// work. Whatever happens, `revs` and `rendered` keep what they hold.
pub fn enqueue_entries(repo: &git2::Repository, store: &mut Store, entries: &Vec<TreeEntry>) -> (done:
    Result<Vec<Enqueued>, Failure>)
    ensures
        final(store)@.revs == old(store)@.revs,
        final(store)@.rendered == old(store)@.rendered,
        done matches Ok(outcomes) ==> {
            &&& outcomes@.len() == entries@.len()
            &&& final(store)@ == visit_all(old(store)@, entries@, answers(outcomes@))
            &&& forall|k: int|
                0 <= k < entries@.len() ==> #[trigger] outcomes@[k] == outcome_of(
                    visit_all(old(store)@, entries@.take(k), answers(outcomes@)),
                    entries@[k],
                    outcomes@[k].resolvable(),
                )
        },
        done matches Err(failure) ==> failure is Store,
{
    let mut outcomes: Vec<Enqueued> = Vec::new();
    let mut i: usize = 0;
    proof {
        assert(entries@.take(0) =~= Seq::<TreeEntry>::empty());
    }
    while i < entries.len()
        invariant
            0 <= i <= entries@.len(),
            outcomes@.len() == i,
            store@.revs == old(store)@.revs,
            store@.rendered == old(store)@.rendered,
            store@ == visit_all(old(store)@, entries@.take(i as int), answers(outcomes@)),
            forall|k: int|
                0 <= k < i ==> #[trigger] outcomes@[k] == outcome_of(
                    visit_all(old(store)@, entries@.take(k), answers(outcomes@)),
                    entries@[k],
                    outcomes@[k].resolvable(),
                ),
        decreases entries@.len() - i,
    {
        let ghost before = outcomes@;
        let outcome = match enqueue_entry(repo, store, &entries[i]) {
            Ok(outcome) => outcome,
            Err(failure) => {
                return Err(failure);
            },
        };
        outcomes.push(outcome);
        proof {
            let seen = entries@.take(i as int);
            assert(entries@.take(i + 1).drop_last() =~= seen);
            assert(entries@.take(i + 1).last() == entries@[i as int]);
            lemma_visit_all_reads_its_answers(
                old(store)@,
                seen,
                answers(before),
                answers(outcomes@),
            );
            assert forall|k: int| 0 <= k < i + 1 implies #[trigger] outcomes@[k] == outcome_of(
                visit_all(old(store)@, entries@.take(k), answers(outcomes@)),
                entries@[k],
                outcomes@[k].resolvable(),
            ) by {
                lemma_visit_all_reads_its_answers(
                    old(store)@,
                    entries@.take(k),
                    answers(before),
                    answers(outcomes@),
                );
                if k < i {
                    assert(outcomes@[k] == before[k]);
                }
            }
        }
        i += 1;
    }
    proof {
        assert(entries@.take(i as int) =~= entries@);
    }
    Ok(outcomes)
}

/// Walks the tree of one revision and looks at each entry. A failure of the
/// repository or of the store ends the walk. Whatever happens, `revs` and
/// `rendered` keep what they hold.
pub fn walk_revision(repo: &git2::Repository, store: &mut Store, revision: &[u8]) -> (done: Result<
    Walk,
    Failure,
>)
    ensures
        final(store)@.revs == old(store)@.revs,
        final(store)@.rendered == old(store)@.rendered,
        done matches Ok(walk) ==> {
            &&& walk.outcomes@.len() == walk.entries@.len()
            &&& final(store)@ == visit_all(
                old(store)@,
                walk.entries@,
                answers(walk.outcomes@),
            )
            &&& forall|k: int|
                0 <= k < walk.entries@.len() ==> #[trigger] walk.outcomes@[k] == outcome_of(
                    visit_all(old(store)@, walk.entries@.take(k), answers(walk.outcomes@)),
                    walk.entries@[k],
                    walk.outcomes@[k].resolvable(),
                )
        },
        done matches Err(failure) ==> (failure is Repository ==> final(store)@ == old(store)@),
{
    let entries = match commit_entries(repo, revision) {
        Ok(entries) => entries,
        Err(fault) => {
            return Err(Failure::repository(&fault));
        },
    };
    match enqueue_entries(repo, store, &entries) {
        Ok(outcomes) => Ok(Walk { entries, outcomes }),
        Err(failure) => Err(failure),
    }
}

/// Adds the objects that a walk dead-lettered, in the order of its entries.
fn dead_lettered_of(walk: &Walk, found: &mut Vec<Vec<u8>>)
    requires
        walk.outcomes@.len() == walk.entries@.len(),
    ensures
        views(final(found)@) == views(old(found)@) + dead_ids(walk.entries@, walk.outcomes@),
{
    let mut k: usize = 0;
    proof {
        assert(walk.entries@.take(0) =~= Seq::<TreeEntry>::empty());
        assert(views(found@) =~= views(old(found)@) + dead_ids(
            walk.entries@.take(0),
            walk.outcomes@,
        ));
    }
    while k < walk.entries.len()
        invariant
            0 <= k <= walk.entries@.len(),
            walk.outcomes@.len() == walk.entries@.len(),
            views(found@) == views(old(found)@) + dead_ids(
                walk.entries@.take(k as int),
                walk.outcomes@,
            ),
        decreases walk.entries@.len() - k,
    {
        let ghost before = views(found@);
        proof {
            assert(walk.entries@.take(k + 1).drop_last() =~= walk.entries@.take(k as int));
            assert(walk.entries@.take(k + 1).last() == walk.entries@[k as int]);
        }
        if walk.outcomes[k] == Enqueued::DeadLettered {
            found.push(slice_to_vec(walk.entries[k].id.as_slice()));
            proof {
                assert(views(found@) =~= before.push(walk.entries@[k as int].id@));
                assert(views(found@) =~= views(old(found)@) + dead_ids(
                    walk.entries@.take(k + 1),
                    walk.outcomes@,
                ));
            }
        }
        k += 1;
    }
    proof {
        assert(walk.entries@.take(k as int) =~= walk.entries@);
    }
}

/// Walks the tree of every recorded revision. A walk that fails is given up
/// and noted; the walks of the other revisions go on: each revision is walked
/// or noted. Where no walk failed,
/// the store is what looking at some entries in some order makes of it, the
/// report lists the objects that were dead-lettered then, and no object is in
/// two of `rendered`, `pending` and `dead_letter` unless one was before.
/// Whatever happens, `revs` and `rendered` keep what they hold.
pub fn determine_oids_to_render(repo: &git2::Repository, store: &mut Store) -> (done: Result<
    QueueReport,
    Failure,
>)
    ensures
        final(store)@.revs == old(store)@.revs,
        final(store)@.rendered == old(store)@.rendered,
        done matches Ok(report) ==> exists|revisions: Seq<(Vec<u8>, Vec<u8>)>|
            #[trigger] lists_entries(revisions, old(store)@.revs) && report.walked
                + report.failures@.len() == revisions.len(),
        done matches Ok(report) ==> (report.failures@.len() == 0 ==> {
            &&& old(store)@.exclusive() ==> final(store)@.exclusive()
            &&& exists|entries: Seq<TreeEntry>, outcomes: Seq<Enqueued>|
                {
                    &&& final(store)@ == #[trigger] visit_all(
                        old(store)@,
                        entries,
                        answers(outcomes),
                    )
                    &&& outcomes.len() == entries.len()
                    &&& views(report.dead_lettered@) == dead_ids(entries, outcomes)
                }
        }),
        done matches Err(failure) ==> failure is Store && final(store)@ == old(store)@,
{
    let revisions = match store.revisions() {
        Ok(revisions) => revisions,
        Err(failure) => {
            return Err(failure);
        },
    };
    let mut report = QueueReport { walked: 0, failures: Vec::new(), dead_lettered: Vec::new() };
    let ghost mut seen: Seq<TreeEntry> = Seq::empty();
    let ghost mut outs: Seq<Enqueued> = Seq::empty();
    let mut i: usize = 0;
    proof {
        assert(views(report.dead_lettered@) =~= dead_ids(seen, outs));
    }
    while i < revisions.len()
        invariant
            0 <= i <= revisions@.len(),
            report.walked + report.failures@.len() == i,
            store@.revs == old(store)@.revs,
            store@.rendered == old(store)@.rendered,
            outs.len() == seen.len(),
            views(report.dead_lettered@) == dead_ids(seen, outs),
            report.failures@.len() == 0 ==> store@ == visit_all(old(store)@, seen, answers(outs)),
        decreases revisions@.len() - i,
    {
        match walk_revision(repo, store, revisions[i].0.as_slice()) {
            Ok(walk) => {
                proof {
                    let more = answers(walk.outcomes@);
                    assert(answers(outs + walk.outcomes@) =~= answers(outs) + more);
                    if report.failures@.len() == 0 {
                        lemma_visit_all_in_two_parts(
                            old(store)@,
                            seen,
                            answers(outs),
                            walk.entries@,
                            more,
                        );
                    }
                    lemma_dead_ids_in_two_parts(seen, outs, walk.entries@, walk.outcomes@);
                    seen = seen + walk.entries@;
                    outs = outs + walk.outcomes@;
                }
                dead_lettered_of(&walk, &mut report.dead_lettered);
                report.walked = report.walked + 1;
            },
            Err(failure) => {
                report.failures.push(failure);
            },
        }
        i += 1;
    }
    proof {
        assert(lists_entries(revisions@, old(store)@.revs));
        if report.failures@.len() == 0 {
            assert(store@ == visit_all(old(store)@, seen, answers(outs)));
            if old(store)@.exclusive() {
                lemma_visit_all_keeps_exclusive(old(store)@, seen, answers(outs));
            }
        }
    }
    Ok(report)
}

} // verus!
