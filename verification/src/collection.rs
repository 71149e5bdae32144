//! One durable collection: an ordered map from keys to values, kept by sled.
//!
//! Nothing in this file is proved: each function calls sled, and its contract
//! says what sled does. A collection is written through `&mut`: the contracts
//! hold where no other handle writes to the same collection meanwhile. The
//! functions that write are taken to return always: what goes wrong in sled
//! comes back as an error.

use crate::merge::{concatenate_merge, merged};
use vstd::prelude::*;

verus! {

/// `sled::Tree`: the handle of one collection.
#[verifier::external_type_specification]
#[verifier::external_body]
pub struct ExTree(sled::Tree);

/// `sled::Db`: the handle of a database, which holds collections by name.
#[verifier::external_type_specification]
#[verifier::external_body]
pub struct ExDb(sled::Db);

/// `sled::Error`: why a read or a write failed.
#[verifier::external_type_specification]
#[verifier::external_body]
pub struct ExStoreFault(sled::Error);

/// What a collection holds: the value stored under each key.
pub uninterp spec fn stored_entries(tree: sled::Tree) -> Map<Seq<u8>, Seq<u8>>;

/// Whether [`concatenate_merge`] is the collection's merge operator.
pub uninterp spec fn merges_filenames(tree: sled::Tree) -> bool;

/// What an empty collection holds.
pub open spec fn no_entries() -> Map<Seq<u8>, Seq<u8>> {
    Map::empty()
}

/// The value that a collection holds under `key`, if any.
pub open spec fn lookup(entries: Map<Seq<u8>, Seq<u8>>, key: Seq<u8>) -> Option<Seq<u8>> {
    if entries.dom().contains(key) {
        Some(entries[key])
    } else {
        None
    }
}

/// The order of the keys of a collection: a key comes before another where
/// it is a proper prefix of the other, or where it has the lesser byte at the
/// first place at which the two differ.
pub open spec fn key_before(first: Seq<u8>, second: Seq<u8>) -> bool
    decreases first.len(),
{
    if second.len() == 0 {
        false
    } else if first.len() == 0 {
        true
    } else if first[0] != second[0] {
        first[0] < second[0]
    } else {
        key_before(first.skip(1), second.skip(1))
    }
}

/// A key that comes before another is another key.
pub proof fn lemma_key_before_differs(first: Seq<u8>, second: Seq<u8>)
    requires
        key_before(first, second),
    ensures
        first != second,
    decreases first.len(),
{
    if first.len() > 0 && second.len() > 0 && first[0] == second[0] {
        lemma_key_before_differs(first.skip(1), second.skip(1));
        if first == second {
            assert(first.skip(1) == second.skip(1));
        }
    }
}

/// Whether `pairs` lists what a collection holds: each key with its value, in
/// the order of the keys, and no other.
pub open spec fn lists_entries(
    pairs: Seq<(Vec<u8>, Vec<u8>)>,
    entries: Map<Seq<u8>, Seq<u8>>,
) -> bool {
    &&& forall|i: int|
        0 <= i < pairs.len() ==> entries.dom().contains(#[trigger] pairs[i].0@) && entries[pairs[i].0@]
            == pairs[i].1@
    &&& forall|key: Seq<u8>| #[trigger]
        entries.dom().contains(key) ==> exists|i: int|
            0 <= i < pairs.len() && #[trigger] pairs[i].0@ == key
    &&& forall|i: int, j: int|
        0 <= i < j < pairs.len() ==> key_before(#[trigger] pairs[i].0@, #[trigger] pairs[j].0@)
}

/// `sled::Db::open_tree`: the collection of that name, made where the
/// database had none. Nothing is claimed of what it holds.
#[verifier::external_body]
pub(crate) fn open_tree(db: &sled::Db, name: &str) -> (opened: Result<sled::Tree, sled::Error>) {
    db.open_tree(name)
}

/// `sled::Tree::set_merge_operator`, handed [`concatenate_merge`]: from then
/// on it is the collection's merge operator. What the collection holds stays.
#[verifier::external_body]
pub(crate) fn set_merge_operator(tree: &mut sled::Tree)
    ensures
        merges_filenames(*final(tree)),
        stored_entries(*final(tree)) == stored_entries(*old(tree)),
{
    tree.set_merge_operator(concatenate_merge);
}

/// `sled::Tree::contains_key`: where the read succeeds, whether the
/// collection holds a value under `key`.
#[verifier::external_body]
pub(crate) fn contains_key(tree: &sled::Tree, key: &[u8]) -> (found: Result<bool, sled::Error>)
    ensures
        found matches Ok(present) ==> present == stored_entries(*tree).dom().contains(key@),
{
    tree.contains_key(key)
}

/// `sled::Tree::get`: where the read succeeds, the value that the collection
/// holds under `key`, if any.
#[verifier::external_body]
pub(crate) fn get(tree: &sled::Tree, key: &[u8]) -> (found: Result<Option<Vec<u8>>, sled::Error>)
    ensures
        found matches Ok(value) ==> match value {
            Some(bytes) => lookup(stored_entries(*tree), key@) == Some(bytes@),
            None => lookup(stored_entries(*tree), key@) is None,
        },
{
    tree.get(key).map(|value| value.map(|bytes| bytes.to_vec()))
}

/// `sled::Tree::insert`: where the write succeeds, `key` holds `value` and
/// every other key holds what it held. The merge operator stays.
#[verifier::external_body]
pub(crate) fn insert(tree: &mut sled::Tree, key: &[u8], value: &[u8]) -> (done: Result<
    (),
    sled::Error,
>)
    ensures
        merges_filenames(*final(tree)) == merges_filenames(*old(tree)),
        done is Ok ==> stored_entries(*final(tree)) == stored_entries(*old(tree)).insert(
            key@,
            value@,
        ),
    no_unwind
{
    tree.insert(key, value).map(|_| ())
}

/// `sled::Tree::remove`: where the write succeeds, `key` holds nothing and
/// every other key holds what it held. The merge operator stays.
#[verifier::external_body]
pub(crate) fn remove(tree: &mut sled::Tree, key: &[u8]) -> (done: Result<(), sled::Error>)
    ensures
        merges_filenames(*final(tree)) == merges_filenames(*old(tree)),
        done is Ok ==> stored_entries(*final(tree)) == stored_entries(*old(tree)).remove(key@),
    no_unwind
{
    tree.remove(key).map(|_| ())
}

/// `sled::Tree::merge` on a collection whose merge operator is
/// [`concatenate_merge`]: where the write succeeds, `key` holds the list that
/// the operator makes of what `key` held and `name`, and every other key
/// holds what it held. The merge operator stays.
#[verifier::external_body]
pub(crate) fn merge(tree: &mut sled::Tree, key: &[u8], name: &[u8]) -> (done: Result<
    (),
    sled::Error,
>)
    requires
        merges_filenames(*old(tree)),
    ensures
        merges_filenames(*final(tree)),
        done is Ok ==> stored_entries(*final(tree)) == stored_entries(*old(tree)).insert(
            key@,
            merged(lookup(stored_entries(*old(tree)), key@), name@),
        ),
    no_unwind
{
    tree.merge(key, name).map(|_| ())
}

/// `sled::Tree::clear`: where every write succeeds, the collection holds
/// nothing. The merge operator stays.
#[verifier::external_body]
pub(crate) fn clear(tree: &mut sled::Tree) -> (done: Result<(), sled::Error>)
    ensures
        merges_filenames(*final(tree)) == merges_filenames(*old(tree)),
        done is Ok ==> stored_entries(*final(tree)) == no_entries(),
    no_unwind
{
    tree.clear()
}

/// `sled::Tree::iter`, read to its end: where every read succeeds, the keys
/// of the collection with their values, in the order of the keys.
#[verifier::external_body]
pub(crate) fn list(tree: &sled::Tree) -> (listed: Result<Vec<(Vec<u8>, Vec<u8>)>, sled::Error>)
    ensures
        listed matches Ok(pairs) ==> lists_entries(pairs@, stored_entries(*tree)),
{
    tree.iter().map(|item| item.map(|(key, value)| (key.to_vec(), value.to_vec()))).collect()
}

} // verus!
