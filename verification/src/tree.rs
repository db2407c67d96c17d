//! The mathematical model of a directory tree and of the three filesystem
//! operations that a mirror run relies on.

use vstd::prelude::*;

verus! {

/// The name of one file or directory, as the bytes by which the platform
/// writes it. A name need not be Unicode, and nothing here looks inside one.
pub type Name = Seq<u8>;

/// A path below a root, as the names of its components from the root down.
/// The empty path is the root itself.
pub type RelPath = Seq<Name>;

/// What stands at a path.
pub enum Node {
    Directory,
    File(Seq<u8>),
}

/// A tree below one root: what stands at each path that exists.
pub type Tree = Map<RelPath, Node>;

/// The path of the root.
pub open spec fn root() -> RelPath {
    Seq::empty()
}

/// The path one level up. Nothing is above the root, which stands for its
/// own parent.
pub open spec fn parent(path: RelPath) -> RelPath {
    if path.len() > 0 {
        path.drop_last()
    } else {
        path
    }
}

/// Something stands at `path`.
pub open spec fn exists_at(tree: Tree, path: RelPath) -> bool {
    tree.dom().contains(path)
}

/// A directory stands at `path`.
pub open spec fn is_dir_at(tree: Tree, path: RelPath) -> bool {
    tree.dom().contains(path) && tree[path] is Directory
}

/// A file stands at `path`.
pub open spec fn is_file_at(tree: Tree, path: RelPath) -> bool {
    tree.dom().contains(path) && tree[path] is File
}

/// A tree as a filesystem holds one below a directory: the root is a
/// directory, and whatever has a name stands in a directory.
pub open spec fn well_formed(tree: Tree) -> bool {
    &&& is_dir_at(tree, root())
    &&& forall|path: RelPath| #[trigger]
        tree.dom().contains(path) && path.len() > 0 ==> is_dir_at(tree, parent(path))
}

/// Recursive directory creation succeeds at `path`: neither the path nor
/// any of its ancestors is taken by a file.
pub open spec fn can_create_dirs(tree: Tree, path: RelPath) -> bool {
    forall|ancestor: RelPath| #[trigger]
        ancestor.is_prefix_of(path) && tree.dom().contains(ancestor) ==> {
            tree[ancestor] is Directory
        }
}

/// The tree after a successful recursive directory creation at `path`:
/// a directory now stands at the path and at each ancestor where nothing
/// stood, and all that stood before is as it was.
pub open spec fn create_dirs(tree: Tree, path: RelPath) -> Tree {
    Map::new(
        |p: RelPath| tree.dom().contains(p) || p.is_prefix_of(path),
        |p: RelPath|
            if tree.dom().contains(p) {
                tree[p]
            } else {
                Node::Directory
            },
    )
}

/// Copying the file at `path` of `source` to the same path of `destination`
/// succeeds: there is such a file, its destination is no directory, and the
/// directory that is to hold it exists. The root has no such directory, so
/// nothing can be copied onto it.
pub open spec fn can_copy(source: Tree, destination: Tree, path: RelPath) -> bool {
    &&& path.len() > 0
    &&& is_file_at(source, path)
    &&& is_dir_at(destination, parent(path))
    &&& !is_dir_at(destination, path)
}

/// The destination after a successful copy: the file's bytes stand at
/// `path`, whatever stood there before.
pub open spec fn copy_file(source: Tree, destination: Tree, path: RelPath) -> Tree {
    destination.insert(path, source[path])
}

/// `source` laid over `destination`: every path of `source` as `source` has
/// it, every other path of `destination` as it was.
pub open spec fn overlay(destination: Tree, source: Tree) -> Tree {
    destination.union_prefer_right(source)
}

/// Wherever both trees have a path, both have a directory there or both
/// have a file.
pub open spec fn same_kinds(destination: Tree, source: Tree) -> bool {
    forall|path: RelPath| #[trigger]
        destination.dom().contains(path) && source.dom().contains(path) ==> {
            destination[path] is Directory <==> source[path] is Directory
        }
}

/// In a well-formed tree every path that leads to an existing one is a
/// directory, and so is the path itself unless it is the whole of it.
pub proof fn lemma_ancestors_are_directories(tree: Tree, path: RelPath, ancestor: RelPath)
    requires
        well_formed(tree),
        tree.dom().contains(path),
        ancestor.is_prefix_of(path),
        ancestor != path,
    ensures
        is_dir_at(tree, ancestor),
    decreases path.len(),
{
    if path.len() > 0 {
        let up = parent(path);
        assert(is_dir_at(tree, up));
        if ancestor != up {
            assert(ancestor.is_prefix_of(up)) by {
                if ancestor.len() == path.len() {
                    assert(ancestor =~= path);
                }
                assert(ancestor =~= up.subrange(0, ancestor.len() as int));
            }
            lemma_ancestors_are_directories(tree, up, ancestor);
        }
    } else {
        assert(ancestor =~= path);
    }
}

} // verus!
