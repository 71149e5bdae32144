//! The renderer: every pending object leaves `pending`, and each one whose
//! content is text gets its artifact as rendered record.

use crate::bytes::views;
use crate::collection::{key_before, lemma_key_before_differs, lists_entries, no_entries};
use crate::error::Failure;
use crate::laws::lemma_finish_all_keeps_exclusive;
use crate::merge::{filenames, split_filenames};
use crate::page::{ambiguous_extensions, artifact_of, has_ambiguous_extensions, render_artifact};
use crate::repo::{read_blob, Blob};
use crate::store::{Collections, Store};
use vstd::prelude::*;

verus! {

/// What was made of the content of a blob.
#[derive(Debug)]
pub enum Rendering {
    /// The content is binary: nothing is made of it.
    Binary,
    /// The highlighter gave no markup.
    Unrenderable,
    /// The artifact, and whether the filenames of the blob have different
    /// extensions, of which only the first could hint at the language.
    Rendered { artifact: Vec<u8>, ambiguous: bool },
}

/// What became of one pending object.
#[derive(Debug)]
pub enum BlobOutcome {
    /// The object was not pending: nothing was done.
    NotPending,
    /// The repository could not give the content: the object left `pending`
    /// without a rendered record.
    Unreadable(Failure),
    /// The content is binary: the object left `pending` without a rendered
    /// record.
    Binary,
    /// The highlighter gave no markup: the object left `pending` without a
    /// rendered record.
    Unrenderable,
    /// The object left `pending` and has a rendered record. `ambiguous` says
    /// whether its filenames have different extensions.
    Rendered { ambiguous: bool },
}

/// The artifact that is made of what the repository gave for a blob that was
/// seen under `names`: none where it gave no content, and none for binary
/// content.
pub open spec fn produced(read: Result<Blob, Failure>, names: Seq<u8>) -> Option<Seq<u8>> {
    match read {
        Ok(blob) => if blob.binary {
            None
        } else {
            artifact_of(blob.content@, names)
        },
        Err(_) => None,
    }
}

/// What becomes of an object for which the repository gave `read`.
pub open spec fn outcome_for(was_pending: bool, read: Result<Blob, Failure>, names: Seq<u8>) -> BlobOutcome {
    if !was_pending {
        BlobOutcome::NotPending
    } else {
        match read {
            Err(failure) => BlobOutcome::Unreadable(failure),
            Ok(blob) => if blob.binary {
                BlobOutcome::Binary
            } else if artifact_of(blob.content@, names) is None {
                BlobOutcome::Unrenderable
            } else {
                BlobOutcome::Rendered {
                    ambiguous: has_ambiguous_extensions(filenames(names)),
                }
            },
        }
    }
}

/// The store after the work on each of `ids` was ended in their order, where
/// `artifacts[i]` is what was made of `ids[i]`.
pub open spec fn finish_all(
    state: Collections,
    ids: Seq<Seq<u8>>,
    artifacts: Seq<Option<Seq<u8>>>,
) -> Collections
    decreases ids.len(),
{
    if ids.len() == 0 {
        state
    } else {
        finish_all(state, ids.drop_last(), artifacts).finish(ids.last(), artifacts[ids.len() - 1])
    }
}

/// Only the artifacts of the objects that are finished matter.
pub proof fn lemma_finish_all_reads_its_artifacts(
    state: Collections,
    ids: Seq<Seq<u8>>,
    first: Seq<Option<Seq<u8>>>,
    second: Seq<Option<Seq<u8>>>,
)
    requires
        forall|i: int| 0 <= i < ids.len() ==> first[i] == second[i],
    ensures
        finish_all(state, ids, first) == finish_all(state, ids, second),
    decreases ids.len(),
{
    if ids.len() > 0 {
        lemma_finish_all_reads_its_artifacts(state, ids.drop_last(), first, second);
    }
}

/// Renders the content of a blob that was seen under the filenames of the
/// list `names`. Binary content is not rendered. The first filename hints at
/// the language.
pub fn render_content(content: &[u8], binary: bool, names: &[u8]) -> (rendering: Rendering)
    ensures
        match rendering {
            Rendering::Binary => binary,
            Rendering::Unrenderable => !binary && artifact_of(content@, names@) is None,
            Rendering::Rendered { artifact, ambiguous } => {
                &&& !binary
                &&& artifact_of(content@, names@) == Some(artifact@)
                &&& ambiguous == has_ambiguous_extensions(filenames(names@))
            },
        },
{
    if binary {
        return Rendering::Binary;
    }
    let split = split_filenames(names);
    proof {
        assert(views(split@) =~= filenames(names@));
    }
    match render_artifact(content, &split) {
        Some(artifact) => {
            let ambiguous = ambiguous_extensions(&split);
            Rendering::Rendered { artifact, ambiguous }
        },
        None => Rendering::Unrenderable,
    }
}

/// Ends the work on an object for which the repository gave `read` and which
/// was seen under the filenames of the list `names`: the object leaves
/// `pending`, and where its content is text that the highlighter takes, the
/// artifact becomes its rendered record. An object that is not pending is
/// left alone. Whatever happens, `revs` and `dead_letter` keep what they
/// hold.
pub fn finish_blob(store: &mut Store, id: &[u8], names: &[u8], read: Result<Blob, Failure>) -> (done:
    Result<BlobOutcome, Failure>)
    ensures
        final(store)@.revs == old(store)@.revs,
        final(store)@.dead_letter == old(store)@.dead_letter,
        done matches Ok(outcome) ==> {
            &&& outcome == outcome_for(old(store)@.pending.dom().contains(id@), read, names@)
            &&& final(store)@ == old(store)@.finish(id@, produced(read, names@))
        },
        done matches Err(failure) ==> failure is Store,
{
    match read {
        Err(failure) => match store.finish(id, None) {
            Ok(true) => Ok(BlobOutcome::Unreadable(failure)),
            Ok(false) => Ok(BlobOutcome::NotPending),
            Err(failure) => Err(failure),
        },
        Ok(blob) => match render_content(blob.content.as_slice(), blob.binary, names) {
            Rendering::Binary => match store.finish(id, None) {
                Ok(true) => Ok(BlobOutcome::Binary),
                Ok(false) => Ok(BlobOutcome::NotPending),
                Err(failure) => Err(failure),
            },
            Rendering::Unrenderable => match store.finish(id, None) {
                Ok(true) => Ok(BlobOutcome::Unrenderable),
                Ok(false) => Ok(BlobOutcome::NotPending),
                Err(failure) => Err(failure),
            },
            Rendering::Rendered { artifact, ambiguous } => match store.finish(
                id,
                Some(artifact.as_slice()),
            ) {
                Ok(true) => Ok(BlobOutcome::Rendered { ambiguous }),
                Ok(false) => Ok(BlobOutcome::NotPending),
                Err(failure) => Err(failure),
            },
        },
    }
}

/// Renders one object: where it is pending, its content is read from the
/// repository and the work on it is ended as [`finish_blob`] says. Whatever
/// happens, `revs` and `dead_letter` keep what they hold.
pub fn render_text_blob(repo: &git2::Repository, store: &mut Store, id: &[u8]) -> (done: Result<
    BlobOutcome,
    Failure,
>)
    ensures
        final(store)@.revs == old(store)@.revs,
        final(store)@.dead_letter == old(store)@.dead_letter,
        done matches Ok(outcome) ==> {
            &&& (outcome is NotPending) == !old(store)@.pending.dom().contains(id@)
            &&& exists|read: Result<Blob, Failure>|
                {
                    &&& outcome == #[trigger] outcome_for(
                        old(store)@.pending.dom().contains(id@),
                        read,
                        old(store)@.pending[id@],
                    )
                    &&& final(store)@ == old(store)@.finish(
                        id@,
                        produced(read, old(store)@.pending[id@]),
                    )
                }
        },
        done matches Err(failure) ==> failure is Store,
{
    let names = match store.pending_filenames(id) {
        Ok(Some(names)) => names,
        Ok(None) => {
            proof {
                let read: Result<Blob, Failure> = arbitrary();
                assert(BlobOutcome::NotPending == outcome_for(
                    false,
                    read,
                    old(store)@.pending[id@],
                ));
            }
            return Ok(BlobOutcome::NotPending);
        },
        Err(failure) => {
            return Err(failure);
        },
    };
    let read = match read_blob(repo, id) {
        Ok(blob) => Ok(blob),
        Err(fault) => Err(Failure::repository(&fault)),
    };
    let ghost given = read;
    match finish_blob(store, id, names.as_slice(), read) {
        Ok(outcome) => {
            proof {
                assert(outcome == outcome_for(true, given, old(store)@.pending[id@]));
            }
            Ok(outcome)
        },
        Err(failure) => Err(failure),
    }
}

/// Whether `ids` lists the keys of a collection: each key once, and no other.
pub open spec fn lists_keys(ids: Seq<Seq<u8>>, entries: Map<Seq<u8>, Seq<u8>>) -> bool {
    &&& forall|i: int| 0 <= i < ids.len() ==> entries.dom().contains(#[trigger] ids[i])
    &&& forall|key: Seq<u8>| #[trigger]
        entries.dom().contains(key) ==> exists|i: int| 0 <= i < ids.len() && #[trigger] ids[i] == key
    &&& forall|i: int, j: int| 0 <= i < j < ids.len() ==> #[trigger] ids[i] != #[trigger] ids[j]
}

/// The keys of a listing, in its order.
pub open spec fn keys_of(pairs: Seq<(Vec<u8>, Vec<u8>)>) -> Seq<Seq<u8>> {
    Seq::new(pairs.len(), |i: int| pairs[i].0@)
}

/// The keys of a listing of a collection list the keys of the collection.
pub proof fn lemma_keys_of_listing(pairs: Seq<(Vec<u8>, Vec<u8>)>, entries: Map<Seq<u8>, Seq<u8>>)
    requires
        lists_entries(pairs, entries),
    ensures
        lists_keys(keys_of(pairs), entries),
{
    let ids = keys_of(pairs);
    assert forall|i: int| 0 <= i < ids.len() implies entries.dom().contains(#[trigger] ids[i]) by {
        assert(entries.dom().contains(pairs[i].0@));
    }
    assert forall|key: Seq<u8>| #[trigger] entries.dom().contains(key) implies exists|i: int|
        0 <= i < ids.len() && #[trigger] ids[i] == key by {
        let i = choose|i: int| 0 <= i < pairs.len() && #[trigger] pairs[i].0@ == key;
        assert(ids[i] == key);
    }
    assert forall|i: int, j: int| 0 <= i < j < ids.len() implies #[trigger] ids[i]
        != #[trigger] ids[j] by {
        lemma_key_before_differs(pairs[i].0@, pairs[j].0@);
    }
}

/// Without its first pair, a listing lists what the collection holds without
/// the key of that pair.
pub proof fn lemma_listing_without_first(
    pairs: Seq<(Vec<u8>, Vec<u8>)>,
    entries: Map<Seq<u8>, Seq<u8>>,
)
    requires
        pairs.len() > 0,
        lists_entries(pairs, entries),
    ensures
        entries.dom().contains(pairs[0].0@),
        entries[pairs[0].0@] == pairs[0].1@,
        lists_entries(pairs.skip(1), entries.remove(pairs[0].0@)),
{
    let rest = pairs.skip(1);
    let first = pairs[0].0@;
    let fewer = entries.remove(first);
    assert(entries.dom().contains(pairs[0].0@));
    assert forall|i: int| 0 <= i < rest.len() implies fewer.dom().contains(#[trigger] rest[i].0@)
        && fewer[rest[i].0@] == rest[i].1@ by {
        assert(rest[i] == pairs[i + 1]);
        assert(entries.dom().contains(pairs[i + 1].0@));
        lemma_key_before_differs(pairs[0].0@, pairs[i + 1].0@);
    }
    assert forall|key: Seq<u8>| #[trigger] fewer.dom().contains(key) implies exists|i: int|
        0 <= i < rest.len() && #[trigger] rest[i].0@ == key by {
        assert(entries.dom().contains(key));
        let i = choose|i: int| 0 <= i < pairs.len() && #[trigger] pairs[i].0@ == key;
        assert(i != 0);
        assert(rest[i - 1] == pairs[i]);
        assert(rest[i - 1].0@ == key);
    }
    assert forall|i: int, j: int| 0 <= i < j < rest.len() implies key_before(
        #[trigger] rest[i].0@,
        #[trigger] rest[j].0@,
    ) by {
        assert(rest[i] == pairs[i + 1]);
        assert(rest[j] == pairs[j + 1]);
        assert(key_before(pairs[i + 1].0@, pairs[j + 1].0@));
    }
}

/// What the renderer did with the pending objects.
#[derive(Debug)]
pub struct RenderReport {
    /// The number of objects that have a rendered record now.
    pub rendered: usize,
    /// The number of objects whose content is binary.
    pub binary: usize,
    /// The number of objects of which the highlighter made nothing.
    pub unrenderable: usize,
    /// What the repository said of each object whose content it could not
    /// give.
    pub unreadable: Vec<Failure>,
    /// The rendered objects whose filenames have different extensions.
    pub ambiguous: Vec<Vec<u8>>,
    /// The failure of the store for each object that it failed on.
    pub failures: Vec<Failure>,
}

/// Renders every pending object. A failure of the store on one object is
/// noted, and the work goes on with the next. Where the store never failed,
/// nothing is pending at the end, and the store is what ending the work on
/// each pending object, once, makes of it. Whatever happens, `revs` and
/// `dead_letter` keep what they hold.
pub fn render_text_blobs(repo: &git2::Repository, store: &mut Store) -> (done: Result<
    RenderReport,
    Failure,
>)
    ensures
        final(store)@.revs == old(store)@.revs,
        final(store)@.dead_letter == old(store)@.dead_letter,
        done matches Ok(report) ==> (report.failures@.len() == 0 ==> {
            &&& final(store)@.pending == no_entries()
            &&& old(store)@.exclusive() ==> final(store)@.exclusive()
            &&& exists|ids: Seq<Seq<u8>>, artifacts: Seq<Option<Seq<u8>>>|
                {
                    &&& final(store)@ == #[trigger] finish_all(old(store)@, ids, artifacts)
                    &&& lists_keys(ids, old(store)@.pending)
                    &&& artifacts.len() == ids.len()
                    &&& report.rendered + report.binary + report.unrenderable
                        + report.unreadable@.len() == ids.len()
                }
        }),
        done matches Err(failure) ==> failure is Store && final(store)@ == old(store)@,
{
    let pending = match store.pending_entries() {
        Ok(pending) => pending,
        Err(failure) => {
            return Err(failure);
        },
    };
    let mut report = RenderReport {
        rendered: 0,
        binary: 0,
        unrenderable: 0,
        unreadable: Vec::new(),
        ambiguous: Vec::new(),
        failures: Vec::new(),
    };
    let ghost ids = keys_of(pending@);
    let ghost mut artifacts: Seq<Option<Seq<u8>>> = Seq::empty();
    let mut i: usize = 0;
    proof {
        lemma_keys_of_listing(pending@, old(store)@.pending);
        assert(ids.take(0) =~= Seq::<Seq<u8>>::empty());
        assert(pending@.skip(0) =~= pending@);
    }
    while i < pending.len()
        invariant
            0 <= i <= pending@.len(),
            ids == keys_of(pending@),
            artifacts.len() == i,
            report.rendered + report.binary + report.unrenderable + report.unreadable@.len() <= i,
            report.failures@.len() == 0 ==> report.rendered + report.binary + report.unrenderable
                + report.unreadable@.len() == i,
            store@.revs == old(store)@.revs,
            store@.dead_letter == old(store)@.dead_letter,
            report.failures@.len() == 0 ==> {
                &&& store@ == finish_all(old(store)@, ids.take(i as int), artifacts)
                &&& lists_entries(pending@.skip(i as int), store@.pending)
            },
        decreases pending@.len() - i,
    {
        let id = pending[i].0.as_slice();
        let names = pending[i].1.as_slice();
        let read = match read_blob(repo, id) {
            Ok(blob) => Ok(blob),
            Err(fault) => Err(Failure::repository(&fault)),
        };
        let ghost made = produced(read, names@);
        let ghost before = store@;
        let ghost earlier = artifacts;
        proof {
            artifacts = artifacts.push(made);
        }
        match finish_blob(store, id, names, read) {
            Ok(outcome) => {
                proof {
                    if report.failures@.len() == 0 {
                        let rest = pending@.skip(i as int);
                        assert(rest[0] == pending@[i as int]);
                        lemma_listing_without_first(rest, before.pending);
                        assert(rest.skip(1) =~= pending@.skip(i + 1));
                        assert(ids.take(i + 1).drop_last() =~= ids.take(i as int));
                        assert(ids.take(i + 1).last() == id@);
                        lemma_finish_all_reads_its_artifacts(
                            old(store)@,
                            ids.take(i as int),
                            earlier,
                            artifacts,
                        );
                        match made {
                            Some(bytes) => {
                                assert(store@.pending =~= before.pending.remove(id@));
                            },
                            None => {
                                assert(store@.pending =~= before.pending.remove(id@));
                            },
                        }
                    }
                }
                match outcome {
                    BlobOutcome::NotPending => {},
                    BlobOutcome::Unreadable(failure) => {
                        report.unreadable.push(failure);
                    },
                    BlobOutcome::Binary => {
                        report.binary = report.binary + 1;
                    },
                    BlobOutcome::Unrenderable => {
                        report.unrenderable = report.unrenderable + 1;
                    },
                    BlobOutcome::Rendered { ambiguous } => {
                        report.rendered = report.rendered + 1;
                        if ambiguous {
                            report.ambiguous.push(pending[i].0.clone());
                        }
                    },
                }
            },
            Err(failure) => {
                report.failures.push(failure);
            },
        }
        i += 1;
    }
    proof {
        if report.failures@.len() == 0 {
            assert(ids.take(i as int) =~= ids);
            assert(pending@.skip(i as int).len() == 0);
            assert(store@.pending.dom() =~= Set::<Seq<u8>>::empty());
            assert(store@.pending =~= no_entries());
            assert(store@ == finish_all(old(store)@, ids, artifacts));
            if old(store)@.exclusive() {
                lemma_finish_all_keeps_exclusive(old(store)@, ids, artifacts);
            }
        }
    }
    Ok(report)
}

} // verus!
