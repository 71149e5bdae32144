//! The tree assembler: what the listing page of a tree shows, and which
//! trees below it get a listing page of their own. A tree is scheduled once,
//! however many trees hold it.

use crate::error::Failure;
use crate::highlight::{decode_lossy, lossy_text};
use crate::oid::{ObjectId, OID_LENGTH};
use crate::repo::{read_blob, tree_entries, EntryKind, TreeEntry};
use crate::schedule::Scheduled;
use crate::tree_object::{texts, RenderableTreeObject};
use vstd::prelude::*;

verus! {

/// A copy of the names.
fn copy_of_names(names: &Vec<String>) -> (copy: Vec<String>)
    ensures
        texts(copy@) == texts(names@),
{
    let mut copy: Vec<String> = Vec::new();
    let mut k: usize = 0;
    while k < names.len()
        invariant
            0 <= k <= names@.len(),
            copy@.len() == k,
            forall|j: int| 0 <= j < k ==> copy@[j]@ == names@[j]@,
        decreases names@.len() - k,
    {
        copy.push(names[k].clone());
        k += 1;
    }
    assert(texts(copy@) =~= texts(names@));
    copy
}

/// Whether an entry is shown on a listing page: its identifier has the
/// length of an identifier, and it is a tree, or a blob whose content could
/// be read.
pub open spec fn is_shown(entry: TreeEntry, binary: Option<bool>) -> bool {
    entry.id@.len() == OID_LENGTH && (entry.kind == EntryKind::Tree || (entry.kind
        == EntryKind::Blob && binary is Some))
}

/// Whether an entry is a tree that gets a listing page of its own.
pub open spec fn is_subtree(entry: TreeEntry) -> bool {
    entry.id@.len() == OID_LENGTH && entry.kind == EntryKind::Tree
}

/// Whether `object` shows `entry` below the directories `topology`, where
/// `binary` says whether the content of a blob is binary.
pub open spec fn shows(
    object: RenderableTreeObject,
    entry: TreeEntry,
    binary: Option<bool>,
    topology: Seq<String>,
) -> bool {
    &&& object.spec_oid()@ == entry.id@
    &&& object.spec_name() == lossy_text(entry.name@)
    &&& object.spec_topography() == texts(topology)
    &&& (object is Tree) == (entry.kind == EntryKind::Tree)
    &&& (object is BinaryFile) == (entry.kind == EntryKind::Blob && binary == Some(true))
    &&& (object is TextFile) == (entry.kind == EntryKind::Blob && binary == Some(false))
}

/// Whether `object` is what a listing shows of `entry` below the directories
/// `topology`, where `binary` is what the repository said of its content: a
/// tree is shown as a tree, a blob whose content could be read as a file, and
/// nothing else is shown.
pub open spec fn lists(
    object: Option<RenderableTreeObject>,
    entry: TreeEntry,
    binary: Option<bool>,
    topology: Seq<String>,
) -> bool {
    match object {
        Some(object) => is_shown(entry, binary) && shows(object, entry, binary, topology),
        None => !is_shown(entry, binary),
    }
}

/// What the repository said of the content of the entry at `at`; `None`
/// where it said nothing of that entry.
pub open spec fn answer_at(binary: Seq<Option<bool>>, at: int) -> Option<bool> {
    if 0 <= at < binary.len() {
        binary[at]
    } else {
        None
    }
}

/// What a listing page shows of one entry of a tree that `topology` leads to.
/// `binary` says whether the content of a blob is binary, and is `None`
/// where the content could not be read. A tree is shown as a tree and is
/// scheduled; the second part of the result says whether it was new. A blob
/// is shown as a text file or as a binary file. Nothing else is shown.
pub fn renderable_tree_object(
    entry: &TreeEntry,
    binary: Option<bool>,
    subtrees: &mut Scheduled,
    topology: &Vec<String>,
) -> (shown: (Option<RenderableTreeObject>, bool))
    ensures
        shown.0 is Some == is_shown(*entry, binary),
        shown.0 matches Some(object) ==> shows(object, *entry, binary, topology@),
        shown.1 == (is_subtree(*entry) && !old(subtrees)@.contains(entry.id@)),
        final(subtrees)@ == if is_subtree(*entry) {
            old(subtrees)@.insert(entry.id@)
        } else {
            old(subtrees)@
        },
{
    let oid = match ObjectId::from_bytes(entry.id.as_slice()) {
        Some(oid) => oid,
        None => {
            return (None, false);
        },
    };
    match entry.kind {
        EntryKind::Tree => {
            let fresh = subtrees.schedule(entry.id.as_slice());
            let object = RenderableTreeObject::Tree {
                oid,
                name: decode_lossy(entry.name.as_slice()),
                topography: copy_of_names(topology),
            };
            (Some(object), fresh)
        },
        EntryKind::Blob => match binary {
            Some(true) => {
                let object = RenderableTreeObject::BinaryFile {
                    oid,
                    name: decode_lossy(entry.name.as_slice()),
                    topography: copy_of_names(topology),
                };
                (Some(object), false)
            },
            Some(false) => {
                let object = RenderableTreeObject::TextFile {
                    oid,
                    name: decode_lossy(entry.name.as_slice()),
                    topography: copy_of_names(topology),
                };
                (Some(object), false)
            },
            None => (None, false),
        },
        EntryKind::Other => (None, false),
    }
}

/// Whether the entry at `at` is a tree that a listing schedules: a tree that
/// was not scheduled before the listing, and that no earlier entry of the
/// listing points at.
pub open spec fn is_fresh(scheduled: Set<Seq<u8>>, entries: Seq<TreeEntry>, at: int) -> bool {
    &&& is_subtree(entries[at])
    &&& !scheduled.contains(entries[at].id@)
    &&& forall|j: int| 0 <= j < at && is_subtree(#[trigger] entries[j]) ==> entries[j].id@ != entries[at].id@
}

/// What the listing page of one tree shows, and the trees below it that are
/// new.
#[derive(Debug)]
pub struct TreeListing {
    /// The entries of the tree, in its order.
    pub entries: Vec<TreeEntry>,
    /// For each entry, what the repository said of its content: whether it is
    /// binary. `None` for an entry that is no blob, and for a blob whose
    /// content could not be read.
    pub binary: Vec<Option<bool>>,
    /// What the page shows of each entry; `None` for an entry that is not
    /// shown.
    pub objects: Vec<Option<RenderableTreeObject>>,
    /// For each entry, whether it is a tree that was scheduled by this
    /// listing, and so has no listing page yet.
    pub fresh: Vec<bool>,
}

/// Whether a listing is the listing of its entries, made when `scheduled`
/// were the trees scheduled: each entry is shown as `lists` says of it and of
/// what the repository said of its content, and a tree is fresh where it was
/// not scheduled before, neither by another listing nor by an earlier entry
/// of this one.
pub open spec fn is_listing(
    listing: TreeListing,
    scheduled: Set<Seq<u8>>,
    topology: Seq<String>,
) -> bool {
    &&& listing.objects@.len() == listing.entries@.len()
    &&& listing.fresh@.len() == listing.entries@.len()
    &&& forall|i: int|
        0 <= i < listing.entries@.len() ==> lists(
            #[trigger] listing.objects@[i],
            listing.entries@[i],
            answer_at(listing.binary@, i),
            topology,
        )
    &&& forall|i: int|
        0 <= i < listing.entries@.len() ==> #[trigger] listing.fresh@[i] == is_fresh(
            scheduled,
            listing.entries@,
            i,
        )
}

/// The trees that are scheduled after a listing of `entries`: those that
/// were, and every tree among the entries.
pub open spec fn scheduled_after(scheduled: Set<Seq<u8>>, entries: Seq<TreeEntry>) -> Set<Seq<u8>> {
    Set::new(
        |id: Seq<u8>|
            scheduled.contains(id) || exists|i: int|
                0 <= i < entries.len() && is_subtree(#[trigger] entries[i]) && entries[i].id@ == id,
    )
}

/// Whether a blob of the repository is binary, told to the assembler for each
/// entry. The repository is asked of blobs only: the answer is `None` for an
/// entry that is no blob, and for a blob that could not be read.
fn binary_of(repo: &git2::Repository, entry: &TreeEntry) -> (binary: Option<bool>)
    ensures
        entry.kind != EntryKind::Blob ==> binary is None,
{
    match entry.kind {
        EntryKind::Blob => match read_blob(repo, entry.id.as_slice()) {
            Ok(blob) => Some(blob.binary),
            Err(_) => None,
        },
        _ => None,
    }
}

/// The listing of `entries`, which `topology` leads to, where `binary` holds
/// what the repository said of the content of each: every entry is shown as
/// [`renderable_tree_object`] says, and each tree among them is scheduled.
pub fn listing_of(
    entries: Vec<TreeEntry>,
    binary: Vec<Option<bool>>,
    topology: &Vec<String>,
    subtrees: &mut Scheduled,
) -> (listing: TreeListing)
    ensures
        listing.entries@ == entries@,
        listing.binary@ == binary@,
        is_listing(listing, old(subtrees)@, topology@),
        final(subtrees)@ == scheduled_after(old(subtrees)@, entries@),
{
    let mut objects: Vec<Option<RenderableTreeObject>> = Vec::new();
    let mut fresh: Vec<bool> = Vec::new();
    let mut i: usize = 0;
    while i < entries.len()
        invariant
            0 <= i <= entries@.len(),
            objects@.len() == i,
            fresh@.len() == i,
            forall|k: int|
                0 <= k < i ==> lists(
                    #[trigger] objects@[k],
                    entries@[k],
                    answer_at(binary@, k),
                    topology@,
                ),
            forall|k: int|
                0 <= k < i ==> #[trigger] fresh@[k] == is_fresh(old(subtrees)@, entries@, k),
            forall|id: Seq<u8>|
                subtrees@.contains(id) <==> old(subtrees)@.contains(id) || exists|k: int|
                    0 <= k < i && is_subtree(#[trigger] entries@[k]) && entries@[k].id@ == id,
        decreases entries@.len() - i,
    {
        let ghost before = subtrees@;
        let answer = if i < binary.len() {
            binary[i]
        } else {
            None
        };
        let (object, new) = renderable_tree_object(&entries[i], answer, subtrees, topology);
        objects.push(object);
        fresh.push(new);
        proof {
            assert forall|id: Seq<u8>|
                subtrees@.contains(id) <==> old(subtrees)@.contains(id) || exists|k: int|
                    0 <= k < i + 1 && is_subtree(#[trigger] entries@[k]) && entries@[k].id@
                        == id by {
                if subtrees@.contains(id) && !before.contains(id) {
                    assert(is_subtree(entries@[i as int]) && entries@[i as int].id@ == id);
                }
                if before.contains(id) && !old(subtrees)@.contains(id) {
                    let k = choose|k: int|
                        0 <= k < i && is_subtree(#[trigger] entries@[k]) && entries@[k].id@ == id;
                    assert(0 <= k < i + 1 && is_subtree(entries@[k]) && entries@[k].id@ == id);
                }
            }
            assert forall|k: int| 0 <= k < i + 1 implies #[trigger] fresh@[k] == is_fresh(
                old(subtrees)@,
                entries@,
                k,
            ) by {
                if k == i {
                    let id = entries@[k].id@;
                    if is_subtree(entries@[k]) && before.contains(id) && !old(subtrees)@.contains(
                        id,
                    ) {
                        let j = choose|j: int|
                            0 <= j < i && is_subtree(#[trigger] entries@[j]) && entries@[j].id@
                                == id;
                        assert(is_subtree(entries@[j]) && entries@[j].id@ == id);
                        assert(!is_fresh(old(subtrees)@, entries@, k));
                    }
                    if new {
                        assert forall|j: int| 0 <= j < k && is_subtree(entries@[j]) implies entries@[j].id@
                            != id by {
                            if entries@[j].id@ == id {
                                assert(before.contains(id));
                            }
                        }
                    }
                }
            }
        }
        i += 1;
    }
    proof {
        assert(subtrees@ =~= scheduled_after(old(subtrees)@, entries@));
    }
    TreeListing { entries, binary, objects, fresh }
}

/// Lists one tree that `topology` leads to: the repository gives the entries
/// of the tree itself and says of each blob among them whether its content
/// is binary, and the listing is the one that [`listing_of`] makes of that.
/// A failure of the repository to give the entries changes nothing.
pub fn list_tree(
    repo: &git2::Repository,
    tree: &[u8],
    topology: &Vec<String>,
    subtrees: &mut Scheduled,
) -> (done: Result<TreeListing, Failure>)
    ensures
        done matches Ok(listing) ==> {
            &&& is_listing(listing, old(subtrees)@, topology@)
            &&& final(subtrees)@ == scheduled_after(old(subtrees)@, listing.entries@)
            &&& listing.binary@.len() == listing.entries@.len()
            &&& forall|i: int|
                0 <= i < listing.entries@.len() && listing.entries@[i].kind != EntryKind::Blob
                    ==> #[trigger] listing.binary@[i] is None
        },
        done matches Err(failure) ==> failure is Repository && final(subtrees)@ == old(subtrees)@,
{
    let entries = match tree_entries(repo, tree) {
        Ok(entries) => entries,
        Err(fault) => {
            return Err(Failure::repository(&fault));
        },
    };
    let mut binary: Vec<Option<bool>> = Vec::new();
    let mut i: usize = 0;
    while i < entries.len()
        invariant
            0 <= i <= entries@.len(),
            binary@.len() == i,
            forall|k: int|
                0 <= k < i && entries@[k].kind != EntryKind::Blob ==> #[trigger] binary@[k]
                    is None,
        decreases entries@.len() - i,
    {
        binary.push(binary_of(repo, &entries[i]));
        i += 1;
    }
    Ok(listing_of(entries, binary, topology, subtrees))
}

} // verus!
