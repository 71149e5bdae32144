//! The list of filenames kept for a pending object, and the reducer that
//! merges one more filename into it.
//!
//! A list is stored as the filenames joined by a separator byte. A list
//! always holds at least one filename: the empty list of bytes holds the
//! empty filename.

use crate::bytes::{append_bytes, range_is};
use vstd::prelude::*;
use vstd::slice::slice_to_vec;

verus! {

/// The byte that stands between two filenames of a stored list.
pub const SEPARATOR: u8 = 0;

/// The filenames of a stored list, in the order in which they were merged:
/// the runs of bytes between separators.
pub open spec fn filenames(list: Seq<u8>) -> Seq<Seq<u8>>
    decreases list.len(),
{
    if list.len() == 0 {
        seq![Seq::<u8>::empty()]
    } else {
        let before = filenames(list.drop_last());
        if list.last() == SEPARATOR {
            before.push(Seq::<u8>::empty())
        } else {
            before.update(before.len() - 1, before.last().push(list.last()))
        }
    }
}

/// The stored list that a merge starts from: the value found under the key,
/// or the list without bytes where the key was absent.
pub open spec fn current_list(old_value: Option<Seq<u8>>) -> Seq<u8> {
    match old_value {
        Some(list) => list,
        None => Seq::<u8>::empty(),
    }
}

/// The stored list after `name` was merged into `old_value`: unchanged where
/// the list holds `name` already, else with `name` behind a separator (and
/// without the separator where the list had no bytes).
pub open spec fn merged(old_value: Option<Seq<u8>>, name: Seq<u8>) -> Seq<u8> {
    let current = current_list(old_value);
    if filenames(current).contains(name) {
        current
    } else if current.len() == 0 {
        name
    } else {
        current.push(SEPARATOR) + name
    }
}

/// What a borrowed old value holds, as a value of the model.
pub open spec fn stored(old_value: Option<&[u8]>) -> Option<Seq<u8>> {
    match old_value {
        Some(list) => Some(list@),
        None => None,
    }
}

/// No byte of `name` is the separator.
pub open spec fn is_plain_name(name: Seq<u8>) -> bool {
    forall|i: int| 0 <= i < name.len() ==> name[i] != SEPARATOR
}

/// A list always holds at least one filename.
pub proof fn lemma_filenames_nonempty(list: Seq<u8>)
    ensures
        filenames(list).len() >= 1,
    decreases list.len(),
{
    if list.len() > 0 {
        lemma_filenames_nonempty(list.drop_last());
    }
}

/// The filenames that are complete in a prefix of a list (all but the last of
/// the prefix) are the first filenames of the whole list.
pub proof fn lemma_filenames_of_prefix(list: Seq<u8>, i: int)
    requires
        0 <= i <= list.len(),
    ensures
        filenames(list.take(i)).len() <= filenames(list).len(),
        forall|k: int|
            0 <= k < filenames(list.take(i)).len() - 1 ==> filenames(list)[k] == filenames(
                list.take(i),
            )[k],
    decreases list.len(),
{
    lemma_filenames_nonempty(list.take(i));
    if i == list.len() {
        assert(list.take(i) =~= list);
    } else {
        let shorter = list.drop_last();
        assert(shorter.take(i) =~= list.take(i));
        lemma_filenames_of_prefix(shorter, i);
        lemma_filenames_nonempty(shorter);
    }
}

/// A name without a separator, stored alone, is a list of that one filename.
pub proof fn lemma_filenames_of_plain_name(name: Seq<u8>)
    requires
        is_plain_name(name),
    ensures
        filenames(name) == seq![name],
    decreases name.len(),
{
    if name.len() == 0 {
        assert(name =~= Seq::<u8>::empty());
    } else {
        lemma_filenames_of_plain_name(name.drop_last());
        assert(name.drop_last().push(name.last()) =~= name);
        assert(filenames(name) =~= seq![name]);
    }
}

/// A name without a separator, written behind a list and a separator, is one
/// more filename of the list, behind those that it had.
pub proof fn lemma_filenames_of_appended(list: Seq<u8>, name: Seq<u8>)
    requires
        is_plain_name(name),
    ensures
        filenames(list.push(SEPARATOR) + name) == filenames(list).push(name),
    decreases name.len(),
{
    let joined = list.push(SEPARATOR) + name;
    if name.len() == 0 {
        assert(joined =~= list.push(SEPARATOR));
        assert(joined.drop_last() =~= list);
        assert(name =~= Seq::<u8>::empty());
    } else {
        let shorter = name.drop_last();
        lemma_filenames_of_appended(list, shorter);
        assert(joined.drop_last() =~= list.push(SEPARATOR) + shorter);
        assert(joined.last() == name.last());
        assert(shorter.push(name.last()) =~= name);
        assert(filenames(joined) =~= filenames(list).push(name));
    }
}

/// What a merge does to the filenames of a list: a name that the list holds
/// changes nothing, and a new name comes last. (A list without bytes holds
/// the empty filename, which a first name takes the place of.)
pub proof fn lemma_filenames_of_merged(old_value: Option<Seq<u8>>, name: Seq<u8>)
    requires
        is_plain_name(name),
    ensures
        filenames(merged(old_value, name)) == if filenames(current_list(old_value)).contains(
            name,
        ) {
            filenames(current_list(old_value))
        } else if current_list(old_value).len() == 0 {
            seq![name]
        } else {
            filenames(current_list(old_value)).push(name)
        },
{
    let current = current_list(old_value);
    if filenames(current).contains(name) {
    } else if current.len() == 0 {
        lemma_filenames_of_plain_name(name);
    } else {
        lemma_filenames_of_appended(current, name);
    }
}

/// After a merge the list holds the merged name.
pub proof fn lemma_merged_lists_name(old_value: Option<Seq<u8>>, name: Seq<u8>)
    requires
        is_plain_name(name),
    ensures
        filenames(merged(old_value, name)).contains(name),
{
    lemma_filenames_of_merged(old_value, name);
    let current = current_list(old_value);
    if filenames(current).contains(name) {
    } else if current.len() == 0 {
        assert(seq![name][0] == name);
    } else {
        let after = filenames(current).push(name);
        assert(after[after.len() - 1] == name);
    }
}

/// Merging a filename twice stores what merging it once stores.
pub proof fn lemma_merge_is_idempotent(old_value: Option<Seq<u8>>, name: Seq<u8>)
    requires
        is_plain_name(name),
    ensures
        merged(Some(merged(old_value, name)), name) == merged(old_value, name),
{
    lemma_merged_lists_name(old_value, name);
}

/// A merge into an absent value, or into a list without bytes, stores the
/// name alone.
pub proof fn lemma_merge_into_nothing(name: Seq<u8>)
    ensures
        merged(None, name) == name,
        merged(Some(Seq::<u8>::empty()), name) == name,
{
    assert(filenames(Seq::<u8>::empty()) =~= seq![Seq::<u8>::empty()]);
    if name.len() == 0 {
        assert(name =~= Seq::<u8>::empty());
    }
}

/// Whether a stored list holds `name` among its filenames.
pub fn lists_filename(list: &[u8], name: &[u8]) -> (found: bool)
    ensures
        found == filenames(list@).contains(name@),
{
    let mut start: usize = 0;
    let mut i: usize = 0;
    proof {
        assert(list@.take(0) =~= Seq::<u8>::empty());
        assert(list@.subrange(0, 0) =~= Seq::<u8>::empty());
    }
    while i < list.len()
        invariant
            0 <= start <= i <= list@.len(),
            filenames(list@.take(i as int)).len() >= 1,
            filenames(list@.take(i as int)).last() == list@.subrange(start as int, i as int),
            forall|k: int|
                0 <= k < filenames(list@.take(i as int)).len() - 1 ==> filenames(
                    list@.take(i as int),
                )[k] != name@,
        decreases list@.len() - i,
    {
        let ghost before = filenames(list@.take(i as int));
        proof {
            assert(list@.take(i + 1).drop_last() =~= list@.take(i as int));
            assert(list@.take(i + 1).last() == list@[i as int]);
        }
        if list[i] == SEPARATOR {
            if range_is(list, start, i, name) {
                proof {
                    let after = filenames(list@.take(i + 1));
                    assert(after == before.push(Seq::<u8>::empty()));
                    lemma_filenames_of_prefix(list@, i + 1);
                    let at = before.len() - 1;
                    assert(filenames(list@)[at] == after[at]);
                    assert(after[at] == name@);
                }
                return true;
            }
            start = i + 1;
            proof {
                assert(list@.subrange(start as int, i + 1) =~= Seq::<u8>::empty());
            }
        } else {
            proof {
                assert(list@.subrange(start as int, i + 1) =~= list@.subrange(
                    start as int,
                    i as int,
                ).push(list@[i as int]));
            }
        }
        i += 1;
    }
    proof {
        assert(list@.take(i as int) =~= list@);
    }
    let last_is = range_is(list, start, i, name);
    proof {
        let all = filenames(list@);
        if last_is {
            assert(all[all.len() - 1] == name@);
        } else {
            assert forall|k: int| 0 <= k < all.len() implies all[k] != name@ by {
                if k == all.len() - 1 {
                    assert(all[k] == all.last());
                }
            }
        }
    }
    last_is
}

/// The filenames of a stored list, in their order.
pub fn split_filenames(list: &[u8]) -> (names: Vec<Vec<u8>>)
    ensures
        names@.len() == filenames(list@).len(),
        names@.len() >= 1,
        forall|k: int| 0 <= k < names@.len() ==> (#[trigger] names@[k])@ == filenames(list@)[k],
{
    let mut names: Vec<Vec<u8>> = Vec::new();
    let mut current: Vec<u8> = Vec::new();
    let mut i: usize = 0;
    proof {
        assert(list@.take(0) =~= Seq::<u8>::empty());
    }
    while i < list.len()
        invariant
            0 <= i <= list@.len(),
            filenames(list@.take(i as int)).len() == names@.len() + 1,
            forall|k: int|
                0 <= k < names@.len() ==> (#[trigger] names@[k])@ == filenames(
                    list@.take(i as int),
                )[k],
            current@ == filenames(list@.take(i as int)).last(),
        decreases list@.len() - i,
    {
        proof {
            assert(list@.take(i + 1).drop_last() =~= list@.take(i as int));
            assert(list@.take(i + 1).last() == list@[i as int]);
        }
        if list[i] == SEPARATOR {
            names.push(current);
            current = Vec::new();
        } else {
            current.push(list[i]);
        }
        i += 1;
    }
    proof {
        assert(list@.take(i as int) =~= list@);
    }
    names.push(current);
    names
}

/// The reducer of the pending collection: merges the filename `merged_bytes`
/// into the list stored under a key. The list is returned unchanged where it
/// holds the filename already; else the filename is added behind a separator.
/// The result is never `None`: a merge never deletes the key.
pub fn concatenate_merge(_key: &[u8], old_value: Option<&[u8]>, merged_bytes: &[u8]) -> (new_value:
    Option<Vec<u8>>)
    ensures
        new_value matches Some(list) && list@ == merged(stored(old_value), merged_bytes@),
{
    let mut ret: Vec<u8> = match old_value {
        Some(ov) => slice_to_vec(ov),
        None => Vec::new(),
    };
    if lists_filename(ret.as_slice(), merged_bytes) {
        return Some(ret);
    }
    if ret.len() > 0 {
        ret.push(SEPARATOR);
    }
    append_bytes(&mut ret, merged_bytes);
    Some(ret)
}

} // verus!
