//! What a listing page shows of a tree: its entries, each with its name, the
//! directories that lead to it, and the links to its own page.

use crate::oid::{generate_oid_link, generate_tree_link, hex, ObjectId};
use vstd::prelude::*;
use vstd::string::StringExecFns;

verus! {

/// One entry of a tree, as a listing page shows it. `topography` holds the
/// names of the directories that lead from the root of the listed tree to the
/// entry, the outermost first.
#[derive(Debug, PartialEq, Eq, Hash)]
pub enum RenderableTreeObject {
    /// A tree below the listed tree.
    Tree { oid: ObjectId, name: String, topography: Vec<String> },
    /// A file whose content is text.
    TextFile { oid: ObjectId, name: String, topography: Vec<String> },
    /// A file whose content is binary.
    BinaryFile { oid: ObjectId, name: String, topography: Vec<String> },
}

/// The names under which a tree is known; almost always a commit's tree.
#[derive(Debug)]
pub enum TreeAlias {
    /// The head of a branch, such as "main".
    Head(String),
    /// A tag, such as "v1.0.0".
    Tag(String),
}

/// What each of the texts holds.
pub open spec fn texts(names: Seq<String>) -> Seq<Seq<char>> {
    Seq::new(names.len(), |i: int| names[i]@)
}

/// The directories as a path: each name behind a slash.
pub open spec fn path_below(directories: Seq<Seq<char>>) -> Seq<char>
    decreases directories.len(),
{
    if directories.len() == 0 {
        Seq::empty()
    } else {
        path_below(directories.drop_last()) + "/"@ + directories.last()
    }
}

/// The path of an entry called `name` that `directories` lead to, below the
/// page of the tree `tree`.
pub open spec fn relative_path(
    tree: Seq<u8>,
    directories: Seq<Seq<char>>,
    name: Seq<char>,
) -> Seq<char> {
    "tree/"@ + hex(tree) + path_below(directories) + "/"@ + name
}

impl RenderableTreeObject {
    /// The identifier of the object.
    pub open spec fn spec_oid(self) -> ObjectId {
        match self {
            RenderableTreeObject::Tree { oid, .. } => oid,
            RenderableTreeObject::TextFile { oid, .. } => oid,
            RenderableTreeObject::BinaryFile { oid, .. } => oid,
        }
    }

    /// The name of the entry.
    pub open spec fn spec_name(self) -> Seq<char> {
        match self {
            RenderableTreeObject::Tree { name, .. } => name@,
            RenderableTreeObject::TextFile { name, .. } => name@,
            RenderableTreeObject::BinaryFile { name, .. } => name@,
        }
    }

    /// The directories that lead to the entry.
    pub open spec fn spec_topography(self) -> Seq<Seq<char>> {
        match self {
            RenderableTreeObject::Tree { topography, .. } => texts(topography@),
            RenderableTreeObject::TextFile { topography, .. } => texts(topography@),
            RenderableTreeObject::BinaryFile { topography, .. } => texts(topography@),
        }
    }

    /// The link to the page of the object itself: the listing page of a tree,
    /// the rendered page of a text file, and none for a binary file.
    pub fn link(&self) -> (link: Option<String>)
        ensures
            match self {
                RenderableTreeObject::Tree { oid, .. } => link matches Some(text) && text@
                    == "/tree/"@ + hex(oid@),
                RenderableTreeObject::TextFile { oid, .. } => link matches Some(text) && text@
                    == "/oid/"@ + hex(oid@) + ".html"@,
                RenderableTreeObject::BinaryFile { .. } => link is None,
            },
    {
        match self {
            RenderableTreeObject::Tree { oid, .. } => Some(generate_tree_link(oid)),
            RenderableTreeObject::TextFile { oid, .. } => Some(generate_oid_link(oid)),
            RenderableTreeObject::BinaryFile { .. } => None,
        }
    }

    /// The path of the entry below the page of the tree `tree`: the word
    /// `tree`, the identifier of that tree, the directories that lead to the
    /// entry and the entry's name, with a slash between each two. A binary
    /// file has none.
    pub fn relative_link(&self, tree: &ObjectId) -> (link: Option<String>)
        ensures
            match self {
                RenderableTreeObject::BinaryFile { .. } => link is None,
                _ => link matches Some(text) && text@ == relative_path(
                    tree@,
                    self.spec_topography(),
                    self.spec_name(),
                ),
            },
    {
        match self {
            RenderableTreeObject::Tree { name, topography, .. } => Some(
                path_of(tree, topography, name.as_str()),
            ),
            RenderableTreeObject::TextFile { name, topography, .. } => Some(
                path_of(tree, topography, name.as_str()),
            ),
            RenderableTreeObject::BinaryFile { .. } => None,
        }
    }

    /// The name of the entry.
    pub fn name(&self) -> (name: &str)
        ensures
            name@ == self.spec_name(),
    {
        match self {
            RenderableTreeObject::Tree { name, .. } => name.as_str(),
            RenderableTreeObject::TextFile { name, .. } => name.as_str(),
            RenderableTreeObject::BinaryFile { name, .. } => name.as_str(),
        }
    }
}

/// The path of an entry called `name` that `directories` lead to, below the
/// page of the tree `tree`.
fn path_of(tree: &ObjectId, directories: &Vec<String>, name: &str) -> (path: String)
    ensures
        path@ == relative_path(tree@, texts(directories@), name@),
{
    let mut path = String::from_str("tree/");
    path.append(tree.to_hex().as_str());
    let mut k: usize = 0;
    proof {
        assert(texts(directories@).take(0) =~= Seq::<Seq<char>>::empty());
        assert(path@ =~= "tree/"@ + hex(tree@) + path_below(texts(directories@).take(0)));
    }
    while k < directories.len()
        invariant
            0 <= k <= directories@.len(),
            path@ == "tree/"@ + hex(tree@) + path_below(texts(directories@).take(k as int)),
        decreases directories@.len() - k,
    {
        path.append("/");
        path.append(directories[k].as_str());
        proof {
            let seen = texts(directories@).take(k + 1);
            assert(seen.drop_last() =~= texts(directories@).take(k as int));
            assert(seen.last() == directories@[k as int]@);
            assert(path@ =~= "tree/"@ + hex(tree@) + path_below(seen));
        }
        k += 1;
    }
    proof {
        assert(texts(directories@).take(k as int) =~= texts(directories@));
    }
    path.append("/");
    path.append(name);
    path
}

} // verus!
