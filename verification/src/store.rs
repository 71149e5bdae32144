//! The durable state of a run: four collections keyed by object identifier,
//! and the steps that move an identifier from one to another.
//!
//! `revs` holds the revisions found in the history, `rendered` the artifact
//! of each object that was rendered, `pending` the filenames of each object
//! that waits to be rendered, and `dead_letter` the objects that could not be
//! resolved. The last two belong to one run: a run begins by emptying them.

use crate::collection::{
    clear, contains_key, get, insert, list, lists_entries, lookup, merge, merges_filenames,
    no_entries, open_tree, remove, set_merge_operator, stored_entries,
};
use crate::error::Failure;
use crate::merge::merged;
use vstd::prelude::*;

verus! {

/// The byte stored under a key whose presence is all that is recorded.
pub const SENTINEL: u8 = 0;

/// The value stored under a revision and under a dead-lettered object.
pub open spec fn sentinel() -> Seq<u8> {
    seq![SENTINEL]
}

/// What the four collections hold.
#[verifier::ext_equal]
pub struct Collections {
    pub revs: Map<Seq<u8>, Seq<u8>>,
    pub rendered: Map<Seq<u8>, Seq<u8>>,
    pub pending: Map<Seq<u8>, Seq<u8>>,
    pub dead_letter: Map<Seq<u8>, Seq<u8>>,
}

impl Collections {
    /// In how many of `rendered`, `pending` and `dead_letter` an object is.
    pub open spec fn occurrences(self, id: Seq<u8>) -> nat {
        let rendered: nat = if self.rendered.dom().contains(id) {
            1
        } else {
            0
        };
        let pending: nat = if self.pending.dom().contains(id) {
            1
        } else {
            0
        };
        let dead: nat = if self.dead_letter.dom().contains(id) {
            1
        } else {
            0
        };
        rendered + pending + dead
    }

    /// Whether an object is rendered, pending or dead-lettered.
    pub open spec fn knows(self, id: Seq<u8>) -> bool {
        self.rendered.dom().contains(id) || self.pending.dom().contains(id)
            || self.dead_letter.dom().contains(id)
    }

    /// No object is in more than one of `rendered`, `pending` and
    /// `dead_letter`.
    pub open spec fn exclusive(self) -> bool {
        forall|id: Seq<u8>| #[trigger] self.occurrences(id) <= 1
    }

    /// The start of a run: nothing is pending, nothing is dead-lettered.
    pub open spec fn begin_run(self) -> Collections {
        Collections {
            pending: no_entries(),
            dead_letter: no_entries(),
            ..self
        }
    }

    /// One more revision. A revision that is there already changes nothing.
    pub open spec fn add_revision(self, id: Seq<u8>) -> Collections {
        Collections { revs: self.revs.insert(id, sentinel()), ..self }
    }

    /// An object seen under `name` is recorded without asking whether it is
    /// known: dead-lettered where it does not resolve, else `name` is merged
    /// into its pending filenames.
    pub open spec fn record(self, id: Seq<u8>, name: Seq<u8>, resolvable: bool) -> Collections {
        if resolvable {
            Collections {
                pending: self.pending.insert(id, merged(lookup(self.pending, id), name)),
                ..self
            }
        } else {
            Collections { dead_letter: self.dead_letter.insert(id, sentinel()), ..self }
        }
    }

    /// An object seen under `name` is enqueued: nothing changes where the
    /// object is known, else it is recorded.
    pub open spec fn enqueue(self, id: Seq<u8>, name: Seq<u8>, resolvable: bool) -> Collections {
        if self.knows(id) {
            self
        } else {
            self.record(id, name, resolvable)
        }
    }

    /// A pending object leaves `pending`; where an artifact was made of it,
    /// the artifact is its rendered record. An object that is not pending
    /// changes nothing.
    pub open spec fn finish(self, id: Seq<u8>, artifact: Option<Seq<u8>>) -> Collections {
        if !self.pending.dom().contains(id) {
            self
        } else {
            match artifact {
                Some(bytes) => Collections {
                    pending: self.pending.remove(id),
                    rendered: self.rendered.insert(id, bytes),
                    ..self
                },
                None => Collections { pending: self.pending.remove(id), ..self },
            }
        }
    }
}

/// The four collections of one database. A store has its database for its
/// own: two stores of one database would share what they hold, and what this
/// file says of one would hold only while the other is not written to.
pub struct Store {
    database: sled::Db,
    revs: sled::Tree,
    rendered: sled::Tree,
    pending: sled::Tree,
    dead_letter: sled::Tree,
}

impl View for Store {
    type V = Collections;

    closed spec fn view(&self) -> Collections {
        Collections {
            revs: stored_entries(self.revs),
            rendered: stored_entries(self.rendered),
            pending: stored_entries(self.pending),
            dead_letter: stored_entries(self.dead_letter),
        }
    }
}

/// What an optional artifact holds, as a value of the model.
pub open spec fn artifact_view(artifact: Option<&[u8]>) -> Option<Seq<u8>> {
    match artifact {
        Some(bytes) => Some(bytes@),
        None => None,
    }
}

impl Store {
    /// The filename reducer is the merge operator of `pending`.
    #[verifier::type_invariant]
    spec fn well_formed(&self) -> bool {
        merges_filenames(self.pending)
    }

    /// Opens the four collections of a database, making those that it lacks.
    /// Nothing is known of what they hold.
    pub fn open(database: sled::Db) -> (opened: Result<Store, Failure>)
        ensures
            opened matches Err(failure) ==> failure is Store,
    {
        let revs = match open_tree(&database, "revs") {
            Ok(tree) => tree,
            Err(fault) => {
                return Err(Failure::store(&fault));
            },
        };
        let rendered = match open_tree(&database, "oids") {
            Ok(tree) => tree,
            Err(fault) => {
                return Err(Failure::store(&fault));
            },
        };
        let mut pending = match open_tree(&database, "oids_todo") {
            Ok(tree) => tree,
            Err(fault) => {
                return Err(Failure::store(&fault));
            },
        };
        let dead_letter = match open_tree(&database, "oids_dlq") {
            Ok(tree) => tree,
            Err(fault) => {
                return Err(Failure::store(&fault));
            },
        };
        set_merge_operator(&mut pending);
        Ok(Store { database, revs, rendered, pending, dead_letter })
    }

    /// Begins a run: empties `pending` and `dead_letter`. Whatever happens,
    /// `revs` and `rendered` keep what they hold.
    pub fn begin_run(&mut self) -> (done: Result<(), Failure>)
        ensures
            final(self)@.revs == old(self)@.revs,
            final(self)@.rendered == old(self)@.rendered,
            done is Ok ==> final(self)@ == old(self)@.begin_run(),
            done matches Err(failure) ==> failure is Store,
    {
        proof {
            use_type_invariant(&*self);
        }
        if let Err(fault) = clear(&mut self.pending) {
            return Err(Failure::store(&fault));
        }
        if let Err(fault) = clear(&mut self.dead_letter) {
            return Err(Failure::store(&fault));
        }
        Ok(())
    }

    /// Records a revision of the history.
    pub fn add_revision(&mut self, id: &[u8]) -> (done: Result<(), Failure>)
        ensures
            final(self)@.rendered == old(self)@.rendered,
            final(self)@.pending == old(self)@.pending,
            final(self)@.dead_letter == old(self)@.dead_letter,
            done is Ok ==> final(self)@ == old(self)@.add_revision(id@),
            done matches Err(failure) ==> failure is Store,
    {
        proof {
            use_type_invariant(&*self);
        }
        let value = [SENTINEL];
        assert(value@ =~= sentinel());
        match insert(&mut self.revs, id, value.as_slice()) {
            Ok(()) => Ok(()),
            Err(fault) => Err(Failure::store(&fault)),
        }
    }

    /// The revisions recorded so far, each once.
    pub fn revisions(&self) -> (listed: Result<Vec<(Vec<u8>, Vec<u8>)>, Failure>)
        ensures
            listed matches Ok(pairs) ==> lists_entries(pairs@, self@.revs),
            listed matches Err(failure) ==> failure is Store,
    {
        match list(&self.revs) {
            Ok(pairs) => Ok(pairs),
            Err(fault) => Err(Failure::store(&fault)),
        }
    }

    /// The pending objects with their filenames, each object once.
    pub fn pending_entries(&self) -> (listed: Result<Vec<(Vec<u8>, Vec<u8>)>, Failure>)
        ensures
            listed matches Ok(pairs) ==> lists_entries(pairs@, self@.pending),
            listed matches Err(failure) ==> failure is Store,
    {
        match list(&self.pending) {
            Ok(pairs) => Ok(pairs),
            Err(fault) => Err(Failure::store(&fault)),
        }
    }

    /// The rendered objects with their artifacts, each object once.
    pub fn rendered_entries(&self) -> (listed: Result<Vec<(Vec<u8>, Vec<u8>)>, Failure>)
        ensures
            listed matches Ok(pairs) ==> lists_entries(pairs@, self@.rendered),
            listed matches Err(failure) ==> failure is Store,
    {
        match list(&self.rendered) {
            Ok(pairs) => Ok(pairs),
            Err(fault) => Err(Failure::store(&fault)),
        }
    }

    /// The dead-lettered objects, each once.
    pub fn dead_letter_entries(&self) -> (listed: Result<Vec<(Vec<u8>, Vec<u8>)>, Failure>)
        ensures
            listed matches Ok(pairs) ==> lists_entries(pairs@, self@.dead_letter),
            listed matches Err(failure) ==> failure is Store,
    {
        match list(&self.dead_letter) {
            Ok(pairs) => Ok(pairs),
            Err(fault) => Err(Failure::store(&fault)),
        }
    }

    /// The artifact of a rendered object, if it has one.
    pub fn rendered_artifact(&self, id: &[u8]) -> (found: Result<Option<Vec<u8>>, Failure>)
        ensures
            found matches Ok(value) ==> match value {
                Some(bytes) => lookup(self@.rendered, id@) == Some(bytes@),
                None => lookup(self@.rendered, id@) is None,
            },
            found matches Err(failure) ==> failure is Store,
    {
        match get(&self.rendered, id) {
            Ok(value) => Ok(value),
            Err(fault) => Err(Failure::store(&fault)),
        }
    }

    /// The filenames of a pending object, if it is pending.
    pub fn pending_filenames(&self, id: &[u8]) -> (found: Result<Option<Vec<u8>>, Failure>)
        ensures
            found matches Ok(value) ==> match value {
                Some(bytes) => lookup(self@.pending, id@) == Some(bytes@),
                None => lookup(self@.pending, id@) is None,
            },
            found matches Err(failure) ==> failure is Store,
    {
        match get(&self.pending, id) {
            Ok(value) => Ok(value),
            Err(fault) => Err(Failure::store(&fault)),
        }
    }

    /// Whether an object is rendered, pending or dead-lettered, asked in that
    /// order.
    pub fn is_known(&self, id: &[u8]) -> (found: Result<bool, Failure>)
        ensures
            found matches Ok(known) ==> known == self@.knows(id@),
            found matches Err(failure) ==> failure is Store,
    {
        match contains_key(&self.rendered, id) {
            Ok(true) => {
                return Ok(true);
            },
            Ok(false) => {},
            Err(fault) => {
                return Err(Failure::store(&fault));
            },
        }
        match contains_key(&self.pending, id) {
            Ok(true) => {
                return Ok(true);
            },
            Ok(false) => {},
            Err(fault) => {
                return Err(Failure::store(&fault));
            },
        }
        match contains_key(&self.dead_letter, id) {
            Ok(known) => Ok(known),
            Err(fault) => Err(Failure::store(&fault)),
        }
    }

    /// Records an object seen under `name` without asking whether it is
    /// known: dead-letters it where it does not resolve, else merges `name`
    /// into its pending filenames. Whatever happens, `revs` and `rendered`
    /// keep what they hold.
    pub fn record_entry(&mut self, id: &[u8], name: &[u8], resolvable: bool) -> (done: Result<(), Failure>)
        ensures
            final(self)@.revs == old(self)@.revs,
            final(self)@.rendered == old(self)@.rendered,
            done is Ok ==> final(self)@ == old(self)@.record(id@, name@, resolvable),
            done matches Err(failure) ==> failure is Store,
    {
        proof {
            use_type_invariant(&*self);
        }
        if resolvable {
            match merge(&mut self.pending, id, name) {
                Ok(()) => Ok(()),
                Err(fault) => Err(Failure::store(&fault)),
            }
        } else {
            let value = [SENTINEL];
            assert(value@ =~= sentinel());
            match insert(&mut self.dead_letter, id, value.as_slice()) {
                Ok(()) => Ok(()),
                Err(fault) => Err(Failure::store(&fault)),
            }
        }
    }

    /// Ends the work on an object: where it is pending, it leaves `pending`,
    /// and the artifact, where one was made, becomes its rendered record.
    /// An object that is not pending is left alone, and `false` is returned.
    /// Whatever happens, `revs` and `dead_letter` keep what they hold.
    pub fn finish(&mut self, id: &[u8], artifact: Option<&[u8]>) -> (done: Result<bool, Failure>)
        ensures
            final(self)@.revs == old(self)@.revs,
            final(self)@.dead_letter == old(self)@.dead_letter,
            done matches Ok(was_pending) ==> {
                &&& was_pending == old(self)@.pending.dom().contains(id@)
                &&& final(self)@ == old(self)@.finish(id@, artifact_view(artifact))
            },
            done matches Err(failure) ==> failure is Store,
    {
        proof {
            use_type_invariant(&*self);
        }
        match contains_key(&self.pending, id) {
            Ok(true) => {},
            Ok(false) => {
                return Ok(false);
            },
            Err(fault) => {
                return Err(Failure::store(&fault));
            },
        }
        if let Err(fault) = remove(&mut self.pending, id) {
            return Err(Failure::store(&fault));
        }
        match artifact {
            Some(bytes) => match insert(&mut self.rendered, id, bytes) {
                Ok(()) => Ok(true),
                Err(fault) => Err(Failure::store(&fault)),
            },
            None => Ok(true),
        }
    }
}

} // verus!
