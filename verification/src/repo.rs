//! What the library reads from a repository, as plain values.
//!
//! Nothing in this file is proved: each function calls git2. What a
//! repository holds is not known here, so no function claims anything of
//! what it returns.

use vstd::prelude::*;

verus! {

/// `git2::Repository`: the handle of a repository. A handle belongs to the
/// thread that opened it.
#[verifier::external_type_specification]
#[verifier::external_body]
pub struct ExRepository(git2::Repository);

/// `git2::Error`: why the repository could not give what was asked of it.
#[verifier::external_type_specification]
#[verifier::external_body]
pub struct ExRepositoryFault(git2::Error);

/// `git2::Revwalk`: a walk over the history of a repository.
#[verifier::external_type_specification]
#[verifier::external_body]
pub struct ExRevwalk<'repo>(git2::Revwalk<'repo>);

/// `git2::Oid`: the repository's own form of an identifier, which a walk
/// over the history gives.
#[verifier::external_type_specification]
#[verifier::external_body]
pub struct ExOid(git2::Oid);

/// What an entry of a tree points at.
#[derive(Clone, Copy, Debug, PartialEq, Eq, Structural)]
pub enum EntryKind {
    /// A tree: a directory.
    Tree,
    /// A blob: the content of a file.
    Blob,
    /// Anything else, such as the commit of a submodule.
    Other,
}

/// One entry of a tree: what it points at, the identifier of that object and
/// the name that the tree gives it.
#[derive(Debug)]
pub struct TreeEntry {
    pub kind: EntryKind,
    pub id: Vec<u8>,
    pub name: Vec<u8>,
}

/// The content of a blob, and whether the repository takes it for binary.
#[derive(Debug)]
pub struct Blob {
    pub content: Vec<u8>,
    pub binary: bool,
}

/// `git2::Repository::find_object`, asked for an object of any kind under
/// the identifier that `git2::Oid::from_bytes` makes of `id`: whether an
/// object was found.
#[verifier::external_body]
pub(crate) fn resolves(repo: &git2::Repository, id: &[u8]) -> (found: bool) {
    git2::Oid::from_bytes(id).and_then(|oid| repo.find_object(oid, None)).is_ok()
}

/// `git2::Tree::walk` in pre-order over the tree of the commit that
/// `git2::Repository::find_commit` finds: each entry that the walk visits, in
/// the order of the walk.
#[verifier::external_body]
pub(crate) fn commit_entries(repo: &git2::Repository, commit: &[u8]) -> (walked: Result<
    Vec<TreeEntry>,
    git2::Error,
>) {
    let tree = repo.find_commit(git2::Oid::from_bytes(commit)?)?.tree()?;
    let mut entries = Vec::new();
    tree.walk(git2::TreeWalkMode::PreOrder, |_, entry| {
        let kind = match entry.kind() {
            Some(git2::ObjectType::Tree) => EntryKind::Tree,
            Some(git2::ObjectType::Blob) => EntryKind::Blob,
            _ => EntryKind::Other,
        };
        entries.push(TreeEntry { kind, id: entry.id().as_bytes().to_vec(), name: entry.name_bytes().to_vec() });
        git2::TreeWalkResult::Ok
    })?;
    Ok(entries)
}

/// `git2::Tree::iter` over the tree that `git2::Repository::find_tree` finds:
/// the entries of the tree itself, in its order.
#[verifier::external_body]
pub(crate) fn tree_entries(repo: &git2::Repository, tree: &[u8]) -> (listed: Result<
    Vec<TreeEntry>,
    git2::Error,
>) {
    let tree = repo.find_tree(git2::Oid::from_bytes(tree)?)?;
    let mut entries = Vec::new();
    for entry in tree.iter() {
        let kind = match entry.kind() {
            Some(git2::ObjectType::Tree) => EntryKind::Tree,
            Some(git2::ObjectType::Blob) => EntryKind::Blob,
            _ => EntryKind::Other,
        };
        entries.push(TreeEntry { kind, id: entry.id().as_bytes().to_vec(), name: entry.name_bytes().to_vec() });
    }
    Ok(entries)
}

/// `git2::Object::peel_to_blob` on the object that
/// `git2::Repository::find_object` finds: what `git2::Blob::content` and
/// `git2::Blob::is_binary` say of the blob.
#[verifier::external_body]
pub(crate) fn read_blob(repo: &git2::Repository, id: &[u8]) -> (read: Result<Blob, git2::Error>) {
    let blob = repo.find_object(git2::Oid::from_bytes(id)?, None)?.peel_to_blob()?;
    Ok(Blob { content: blob.content().to_vec(), binary: blob.is_binary() })
}

/// `git2::Repository::revwalk`: a walk over the history that starts nowhere
/// yet.
#[verifier::external_body]
pub(crate) fn revwalk<'repo>(repo: &'repo git2::Repository) -> (walk: Result<
    git2::Revwalk<'repo>,
    git2::Error,
>) {
    repo.revwalk()
}

/// `git2::Revwalk::push_glob`: the walk also starts from the references that
/// match `glob`.
#[verifier::external_body]
pub(crate) fn push_glob(walk: &mut git2::Revwalk<'_>, glob: &str) -> (done: Result<
    (),
    git2::Error,
>) {
    walk.push_glob(glob)
}

/// `git2::Revwalk::push_head`: the walk also starts from the current head.
#[verifier::external_body]
pub(crate) fn push_head(walk: &mut git2::Revwalk<'_>) -> (done: Result<(), git2::Error>) {
    walk.push_head()
}

/// `git2::Revwalk::next`: the identifier of the next revision of the walk,
/// as bytes; `None` at the end of the walk.
#[verifier::external_body]
pub(crate) fn next_revision(walk: &mut git2::Revwalk<'_>) -> (next: Option<
    Result<Vec<u8>, git2::Error>,
>) {
    walk.next().map(|found| found.map(|oid| oid.as_bytes().to_vec()))
}

} // verus!
