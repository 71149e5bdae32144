//! Two runs in a row over a repository that did not change in between: the
//! second run renders nothing that the first did not render.
//!
//! A repository is taken for what it answers: the entries of its trees, in
//! the order of the walks; for each object, whether it resolves; and for each
//! object and its filenames, the artifact that is made of it, if any.

use crate::collection::no_entries;
use crate::merge::lemma_merge_into_nothing;
use crate::queue::{lemma_visit_all_reads_its_answers, visit_all};
use crate::render::{finish_all, lists_keys};
use crate::repo::{EntryKind, TreeEntry};
use crate::store::Collections;
use vstd::prelude::*;

verus! {

/// What the repository says of the object of each entry.
pub open spec fn answers_of(
    entries: Seq<TreeEntry>,
    resolvable: spec_fn(Seq<u8>) -> bool,
) -> Seq<bool> {
    Seq::new(entries.len(), |i: int| resolvable(entries[i].id@))
}

/// The store of a run when its queue is built: the run has begun, and every
/// entry was looked at.
pub open spec fn queued(
    state: Collections,
    entries: Seq<TreeEntry>,
    resolvable: spec_fn(Seq<u8>) -> bool,
) -> Collections {
    visit_all(state.begin_run(), entries, answers_of(entries, resolvable))
}

/// What is made of each of the objects in `order`, which are pending in
/// `state`.
pub open spec fn artifacts_of(
    state: Collections,
    order: Seq<Seq<u8>>,
    made: spec_fn(Seq<u8>, Seq<u8>) -> Option<Seq<u8>>,
) -> Seq<Option<Seq<u8>>> {
    Seq::new(order.len(), |i: int| made(order[i], state.pending[order[i]]))
}

/// The store after a whole run, in which the pending objects were rendered in
/// the order `order`.
pub open spec fn run(
    state: Collections,
    entries: Seq<TreeEntry>,
    resolvable: spec_fn(Seq<u8>) -> bool,
    made: spec_fn(Seq<u8>, Seq<u8>) -> Option<Seq<u8>>,
    order: Seq<Seq<u8>>,
) -> Collections {
    let built = queued(state, entries, resolvable);
    finish_all(built, order, artifacts_of(built, order, made))
}

/// Whether one of the entries that are no trees points at the object.
spec fn seen(entries: Seq<TreeEntry>, id: Seq<u8>) -> bool
    decreases entries.len(),
{
    entries.len() > 0 && (seen(entries.drop_last(), id) || (entries.last().kind != EntryKind::Tree
        && entries.last().id@ == id))
}

/// The name of the first entry that points at the object.
spec fn first_name(entries: Seq<TreeEntry>, id: Seq<u8>) -> Seq<u8>
    decreases entries.len(),
{
    if entries.len() == 0 {
        Seq::empty()
    } else if seen(entries.drop_last(), id) {
        first_name(entries.drop_last(), id)
    } else {
        entries.last().name@
    }
}

/// Whether the object is one of the first `n` of `order`.
spec fn among(order: Seq<Seq<u8>>, n: int, id: Seq<u8>) -> bool
    decreases n,
{
    n > 0 && (order[n - 1] == id || among(order, n - 1, id))
}

/// What was made of the object, where it is one of the first `n` of `order`.
spec fn artifact_at(
    order: Seq<Seq<u8>>,
    artifacts: Seq<Option<Seq<u8>>>,
    n: int,
    id: Seq<u8>,
) -> Option<Seq<u8>>
    decreases n,
{
    if n <= 0 {
        None
    } else if order[n - 1] == id {
        artifacts[n - 1]
    } else {
        artifact_at(order, artifacts, n - 1, id)
    }
}

/// What the store holds when the queue of a run is built: `rendered` is as it
/// was; the pending objects are those seen that were not rendered and that
/// resolve, each under the name of the first entry that points at it; the
/// dead-lettered objects are those seen that were not rendered and that do
/// not resolve.
proof fn lemma_queued(
    state: Collections,
    entries: Seq<TreeEntry>,
    resolvable: spec_fn(Seq<u8>) -> bool,
)
    ensures
        queued(state, entries, resolvable).rendered == state.rendered,
        queued(state, entries, resolvable).revs == state.revs,
        forall|id: Seq<u8>| #[trigger]
            queued(state, entries, resolvable).pending.dom().contains(id) <==> seen(entries, id)
                && !state.rendered.dom().contains(id) && resolvable(id),
        forall|id: Seq<u8>| #[trigger]
            queued(state, entries, resolvable).dead_letter.dom().contains(id) <==> seen(
                entries,
                id,
            ) && !state.rendered.dom().contains(id) && !resolvable(id),
        forall|id: Seq<u8>| #[trigger]
            queued(state, entries, resolvable).pending.dom().contains(id) ==> queued(
                state,
                entries,
                resolvable,
            ).pending[id] == first_name(entries, id),
    decreases entries.len(),
{
    let built = queued(state, entries, resolvable);
    if entries.len() == 0 {
        assert forall|id: Seq<u8>| !(#[trigger] built.pending.dom().contains(id)) by {
            assert(!no_entries().dom().contains(id));
        }
        assert forall|id: Seq<u8>| !(#[trigger] built.dead_letter.dom().contains(id)) by {
            assert(!no_entries().dom().contains(id));
        }
    } else {
        let fewer = entries.drop_last();
        let last = entries.last();
        lemma_queued(state, fewer, resolvable);
        lemma_visit_all_reads_its_answers(
            state.begin_run(),
            fewer,
            answers_of(entries, resolvable),
            answers_of(fewer, resolvable),
        );
        let before = queued(state, fewer, resolvable);
        assert(before == visit_all(state.begin_run(), fewer, answers_of(entries, resolvable)));
        assert(answers_of(entries, resolvable)[entries.len() - 1] == resolvable(last.id@));
        if last.kind != EntryKind::Tree && !before.knows(last.id@) {
            lemma_merge_into_nothing(last.name@);
            assert(!seen(fewer, last.id@));
        }
        assert forall|id: Seq<u8>| #[trigger]
            built.pending.dom().contains(id) <==> seen(entries, id) && !state.rendered.dom().contains(
                id,
            ) && resolvable(id) by {
            assert(before.pending.dom().contains(id) <==> seen(fewer, id)
                && !state.rendered.dom().contains(id) && resolvable(id));
            assert(before.dead_letter.dom().contains(id) <==> seen(fewer, id)
                && !state.rendered.dom().contains(id) && !resolvable(id));
        }
        assert forall|id: Seq<u8>| #[trigger]
            built.dead_letter.dom().contains(id) <==> seen(entries, id)
                && !state.rendered.dom().contains(id) && !resolvable(id) by {
            assert(before.pending.dom().contains(id) <==> seen(fewer, id)
                && !state.rendered.dom().contains(id) && resolvable(id));
            assert(before.dead_letter.dom().contains(id) <==> seen(fewer, id)
                && !state.rendered.dom().contains(id) && !resolvable(id));
        }
        assert forall|id: Seq<u8>| #[trigger]
            built.pending.dom().contains(id) implies built.pending[id] == first_name(
            entries,
            id,
        ) by {
            assert(before.pending.dom().contains(id) <==> seen(fewer, id)
                && !state.rendered.dom().contains(id) && resolvable(id));
            assert(before.dead_letter.dom().contains(id) <==> seen(fewer, id)
                && !state.rendered.dom().contains(id) && !resolvable(id));
            if before.pending.dom().contains(id) {
                assert(before.pending[id] == first_name(fewer, id));
            }
        }
    }
}

/// An object that is not among the first `n` has no artifact among them.
proof fn lemma_no_artifact_outside(
    order: Seq<Seq<u8>>,
    artifacts: Seq<Option<Seq<u8>>>,
    n: int,
    id: Seq<u8>,
)
    requires
        !among(order, n, id),
    ensures
        artifact_at(order, artifacts, n, id) is None,
    decreases n,
{
    if n > 0 {
        lemma_no_artifact_outside(order, artifacts, n - 1, id);
    }
}

/// In a list without repetition, no object behind the first `n` is among
/// them.
proof fn lemma_later_is_not_among(order: Seq<Seq<u8>>, n: int, later: int)
    requires
        0 <= n <= later < order.len(),
        forall|i: int, j: int| 0 <= i < j < order.len() ==> #[trigger] order[i] != #[trigger] order[j],
    ensures
        !among(order, n, order[later]),
    decreases n,
{
    if n > 0 {
        lemma_later_is_not_among(order, n - 1, later);
        assert(order[n - 1] != order[later]);
    }
}

/// Every object of the list is among its objects, at the place where it is.
proof fn lemma_listed_is_among(
    order: Seq<Seq<u8>>,
    artifacts: Seq<Option<Seq<u8>>>,
    n: int,
    at: int,
)
    requires
        0 <= at < n <= order.len(),
        forall|i: int, j: int| 0 <= i < j < order.len() ==> #[trigger] order[i] != #[trigger] order[j],
    ensures
        among(order, n, order[at]),
        artifact_at(order, artifacts, n, order[at]) == artifacts[at],
    decreases n,
{
    if at < n - 1 {
        lemma_listed_is_among(order, artifacts, n - 1, at);
        assert(order[at] != order[n - 1]);
    }
}

/// An object among the first `n` stands at one of the first `n` places.
proof fn lemma_among_has_place(order: Seq<Seq<u8>>, n: int, id: Seq<u8>) -> (at: int)
    requires
        among(order, n, id),
    ensures
        0 <= at < n,
        order[at] == id,
    decreases n,
{
    if order[n - 1] == id {
        n - 1
    } else {
        lemma_among_has_place(order, n - 1, id)
    }
}

/// What the store holds after the work on the first `n` of `order` was ended,
/// where `order` lists pending objects without repetition.
proof fn lemma_finished(
    state: Collections,
    order: Seq<Seq<u8>>,
    artifacts: Seq<Option<Seq<u8>>>,
    n: int,
)
    requires
        0 <= n <= order.len(),
        forall|i: int| 0 <= i < order.len() ==> state.pending.dom().contains(#[trigger] order[i]),
        forall|i: int, j: int| 0 <= i < j < order.len() ==> #[trigger] order[i] != #[trigger] order[j],
    ensures
        finish_all(state, order.take(n), artifacts).revs == state.revs,
        finish_all(state, order.take(n), artifacts).dead_letter == state.dead_letter,
        forall|id: Seq<u8>| #[trigger]
            finish_all(state, order.take(n), artifacts).pending.dom().contains(id)
                <==> state.pending.dom().contains(id) && !among(order, n, id),
        forall|id: Seq<u8>| #[trigger]
            finish_all(state, order.take(n), artifacts).rendered.dom().contains(id)
                <==> state.rendered.dom().contains(id) || artifact_at(order, artifacts, n, id)
                is Some,
        forall|id: Seq<u8>| #[trigger]
            finish_all(state, order.take(n), artifacts).rendered.dom().contains(id) ==> finish_all(
                state,
                order.take(n),
                artifacts,
            ).rendered[id] == match artifact_at(order, artifacts, n, id) {
                Some(bytes) => bytes,
                None => state.rendered[id],
            },
    decreases n,
{
    let after = finish_all(state, order.take(n), artifacts);
    if n == 0 {
        assert(order.take(0) =~= Seq::<Seq<u8>>::empty());
    } else {
        lemma_finished(state, order, artifacts, n - 1);
        let before = finish_all(state, order.take(n - 1), artifacts);
        let id_n = order[n - 1];
        assert(order.take(n).drop_last() =~= order.take(n - 1));
        assert(order.take(n).last() == id_n);
        assert(after == before.finish(id_n, artifacts[n - 1]));
        lemma_later_is_not_among(order, n - 1, n - 1);
        lemma_no_artifact_outside(order, artifacts, n - 1, id_n);
        assert(before.pending.dom().contains(id_n));
        assert forall|id: Seq<u8>| #[trigger]
            after.pending.dom().contains(id) <==> state.pending.dom().contains(id) && !among(
                order,
                n,
                id,
            ) by {
            assert(before.pending.dom().contains(id) <==> state.pending.dom().contains(id)
                && !among(order, n - 1, id));
        }
        assert forall|id: Seq<u8>| #[trigger]
            after.rendered.dom().contains(id) <==> state.rendered.dom().contains(id) || artifact_at(
                order,
                artifacts,
                n,
                id,
            ) is Some by {
            assert(before.rendered.dom().contains(id) <==> state.rendered.dom().contains(id)
                || artifact_at(order, artifacts, n - 1, id) is Some);
        }
        assert forall|id: Seq<u8>| #[trigger] after.rendered.dom().contains(id) implies after.rendered[id]
            == match artifact_at(order, artifacts, n, id) {
            Some(bytes) => bytes,
            None => state.rendered[id],
        } by {
            assert(before.rendered.dom().contains(id) <==> state.rendered.dom().contains(id)
                || artifact_at(order, artifacts, n - 1, id) is Some);
            if before.rendered.dom().contains(id) {
                assert(before.rendered[id] == match artifact_at(order, artifacts, n - 1, id) {
                    Some(bytes) => bytes,
                    None => state.rendered[id],
                });
            }
        }
    }
}

/// After a run, nothing is pending; and a rendered record is one that was
/// there before the run, or the artifact of an object that was pending in the
/// run.
pub proof fn lemma_run_renders_what_is_pending(
    state: Collections,
    entries: Seq<TreeEntry>,
    resolvable: spec_fn(Seq<u8>) -> bool,
    made: spec_fn(Seq<u8>, Seq<u8>) -> Option<Seq<u8>>,
    order: Seq<Seq<u8>>,
)
    requires
        lists_keys(order, queued(state, entries, resolvable).pending),
    ensures
        run(state, entries, resolvable, made, order).pending == no_entries(),
        run(state, entries, resolvable, made, order).dead_letter == queued(
            state,
            entries,
            resolvable,
        ).dead_letter,
        forall|id: Seq<u8>| #[trigger]
            run(state, entries, resolvable, made, order).rendered.dom().contains(id)
                <==> state.rendered.dom().contains(id) || (queued(
                state,
                entries,
                resolvable,
            ).pending.dom().contains(id) && made(
                id,
                queued(state, entries, resolvable).pending[id],
            ) is Some),
        forall|id: Seq<u8>| #[trigger]
            run(state, entries, resolvable, made, order).rendered.dom().contains(id) ==> run(
                state,
                entries,
                resolvable,
                made,
                order,
            ).rendered[id] == if queued(state, entries, resolvable).pending.dom().contains(id) {
                made(id, queued(state, entries, resolvable).pending[id])->0
            } else {
                state.rendered[id]
            },
{
    let built = queued(state, entries, resolvable);
    let artifacts = artifacts_of(built, order, made);
    let after = run(state, entries, resolvable, made, order);
    lemma_queued(state, entries, resolvable);
    lemma_finished(built, order, artifacts, order.len() as int);
    assert(order.take(order.len() as int) =~= order);
    assert forall|id: Seq<u8>| !(#[trigger] after.pending.dom().contains(id)) by {
        if built.pending.dom().contains(id) {
            let at = choose|i: int| 0 <= i < order.len() && #[trigger] order[i] == id;
            lemma_listed_is_among(order, artifacts, order.len() as int, at);
        }
    }
    assert(after.pending =~= no_entries());
    assert forall|id: Seq<u8>|
        artifact_at(order, artifacts, order.len() as int, id) == if built.pending.dom().contains(
            id,
        ) {
            made(id, built.pending[id])
        } else {
            None
        } by {
        if built.pending.dom().contains(id) {
            let at = choose|i: int| 0 <= i < order.len() && #[trigger] order[i] == id;
            lemma_listed_is_among(order, artifacts, order.len() as int, at);
        } else {
            if among(order, order.len() as int, id) {
                let at = lemma_among_has_place(order, order.len() as int, id);
                assert(built.pending.dom().contains(order[at]));
            }
            lemma_no_artifact_outside(order, artifacts, order.len() as int, id);
        }
    }
    assert forall|id: Seq<u8>| #[trigger]
        after.rendered.dom().contains(id) <==> state.rendered.dom().contains(id) || (
        built.pending.dom().contains(id) && made(id, built.pending[id]) is Some) by {
        assert(artifact_at(order, artifacts, order.len() as int, id) == if built.pending.dom().contains(
            id,
        ) {
            made(id, built.pending[id])
        } else {
            None
        });
    }
    assert forall|id: Seq<u8>| #[trigger] after.rendered.dom().contains(id) implies after.rendered[id]
        == if built.pending.dom().contains(id) {
        made(id, built.pending[id])->0
    } else {
        state.rendered[id]
    } by {
        assert(artifact_at(order, artifacts, order.len() as int, id) == if built.pending.dom().contains(
            id,
        ) {
            made(id, built.pending[id])
        } else {
            None
        });
        if built.pending.dom().contains(id) {
            assert(!state.rendered.dom().contains(id));
        }
    }
}

/// What is pending in the second of two runs over the same repository was
/// pending in the first, under the same filenames, and nothing could be made
/// of it.
pub proof fn lemma_second_queue_holds_what_was_left(
    state: Collections,
    entries: Seq<TreeEntry>,
    resolvable: spec_fn(Seq<u8>) -> bool,
    made: spec_fn(Seq<u8>, Seq<u8>) -> Option<Seq<u8>>,
    order: Seq<Seq<u8>>,
)
    requires
        lists_keys(order, queued(state, entries, resolvable).pending),
    ensures
        forall|id: Seq<u8>| #[trigger]
            queued(
                run(state, entries, resolvable, made, order),
                entries,
                resolvable,
            ).pending.dom().contains(id) ==> {
                &&& queued(state, entries, resolvable).pending.dom().contains(id)
                &&& queued(
                    run(state, entries, resolvable, made, order),
                    entries,
                    resolvable,
                ).pending[id] == queued(state, entries, resolvable).pending[id]
                &&& made(id, queued(state, entries, resolvable).pending[id]) is None
            },
{
    let first = queued(state, entries, resolvable);
    let after = run(state, entries, resolvable, made, order);
    let second = queued(after, entries, resolvable);
    lemma_run_renders_what_is_pending(state, entries, resolvable, made, order);
    lemma_queued(state, entries, resolvable);
    lemma_queued(after, entries, resolvable);
    assert forall|id: Seq<u8>| #[trigger] second.pending.dom().contains(id) implies {
        &&& first.pending.dom().contains(id)
        &&& second.pending[id] == first.pending[id]
        &&& made(id, first.pending[id]) is None
    } by {
        assert(!after.rendered.dom().contains(id));
        assert(first.pending.dom().contains(id));
    }
}

/// Two runs in a row over the same repository leave the same rendered
/// records: the second run adds none and changes none. The pending objects
/// may be rendered in any order, in one run and in the other.
pub proof fn lemma_second_run_renders_nothing_new(
    state: Collections,
    entries: Seq<TreeEntry>,
    resolvable: spec_fn(Seq<u8>) -> bool,
    made: spec_fn(Seq<u8>, Seq<u8>) -> Option<Seq<u8>>,
    order: Seq<Seq<u8>>,
    next_order: Seq<Seq<u8>>,
)
    requires
        lists_keys(order, queued(state, entries, resolvable).pending),
        lists_keys(
            next_order,
            queued(run(state, entries, resolvable, made, order), entries, resolvable).pending,
        ),
    ensures
        run(
            run(state, entries, resolvable, made, order),
            entries,
            resolvable,
            made,
            next_order,
        ).rendered == run(state, entries, resolvable, made, order).rendered,
{
    let after = run(state, entries, resolvable, made, order);
    let again = run(after, entries, resolvable, made, next_order);
    lemma_second_queue_holds_what_was_left(state, entries, resolvable, made, order);
    lemma_run_renders_what_is_pending(after, entries, resolvable, made, next_order);
    let first = queued(state, entries, resolvable);
    let second = queued(after, entries, resolvable);
    assert forall|id: Seq<u8>| #[trigger]
        again.rendered.dom().contains(id) == after.rendered.dom().contains(id) by {
        if second.pending.dom().contains(id) {
            assert(second.pending[id] == first.pending[id]);
            assert(made(id, first.pending[id]) is None);
        }
    }
    lemma_queued(after, entries, resolvable);
    assert forall|id: Seq<u8>| #[trigger] again.rendered.dom().contains(id) implies again.rendered[id]
        == after.rendered[id] by {
        assert(after.rendered.dom().contains(id));
        assert(!second.pending.dom().contains(id));
    }
    assert(again.rendered =~= after.rendered);
}

/// Where an artifact was made of every object that was pending in the first
/// run, the second of two runs over the same repository finds nothing to
/// enqueue. (An object of which nothing was made, such as one with binary
/// content, is enqueued by every run.)
pub proof fn lemma_second_run_enqueues_nothing(
    state: Collections,
    entries: Seq<TreeEntry>,
    resolvable: spec_fn(Seq<u8>) -> bool,
    made: spec_fn(Seq<u8>, Seq<u8>) -> Option<Seq<u8>>,
    order: Seq<Seq<u8>>,
)
    requires
        lists_keys(order, queued(state, entries, resolvable).pending),
        forall|id: Seq<u8>| #[trigger]
            queued(state, entries, resolvable).pending.dom().contains(id) ==> made(
                id,
                queued(state, entries, resolvable).pending[id],
            ) is Some,
    ensures
        queued(run(state, entries, resolvable, made, order), entries, resolvable).pending
            == no_entries(),
{
    let second = queued(run(state, entries, resolvable, made, order), entries, resolvable);
    lemma_second_queue_holds_what_was_left(state, entries, resolvable, made, order);
    assert forall|id: Seq<u8>| !(#[trigger] second.pending.dom().contains(id)) by {
        if second.pending.dom().contains(id) {
            assert(made(id, queued(state, entries, resolvable).pending[id]) is None);
        }
    }
    assert(second.pending =~= no_entries());
}

} // verus!
