//! A snapshot of the directories and files under the content root, as the
//! tree builder hands it over.

use vstd::prelude::*;
use crate::time::UtcTime;

verus! {

/// The views of a list of values, one for one.
pub open spec fn views<T: View>(items: Seq<T>) -> Seq<T::V> {
    Seq::new(items.len(), |i: int| items[i]@)
}

/// What the tree keeps of a file.
#[derive(Clone, Copy, Debug, PartialEq, Eq, Structural)]
pub struct FileMeta {
    /// When the file was last modified.
    pub modified: UtcTime,
}

/// A file of a directory, under its name.
#[derive(Debug)]
pub struct FileEntry {
    pub name: String,
    pub meta: FileMeta,
}

/// A subdirectory of a directory, under its name.
#[derive(Debug)]
pub struct DirEntry {
    pub name: String,
    pub tree: DirTree,
}

/// A directory: its subdirectories and files, each under a name that no
/// other entry of its kind has, and its own place.
#[derive(Debug)]
pub struct DirTree {
    pub directories: Vec<DirEntry>,
    pub files: Vec<FileEntry>,
    /// The directory's absolute path.
    pub absolute_path: String,
    /// The directory's path from the content root, the root's own name included.
    pub relative_path: String,
}

/// What a listing shows of a directory.
#[derive(Debug)]
pub struct DirContent {
    /// When the directory was last modified.
    pub modified: UtcTime,
    pub title: String,
    pub relative_path: String,
}

/// A file entry as plain values.
pub ghost struct FileEntryView {
    pub name: Seq<char>,
    pub modified: UtcTime,
}

/// A subdirectory entry as plain values.
pub ghost struct DirEntryView {
    pub name: Seq<char>,
    pub tree: DirTreeView,
}

/// A directory tree as plain values.
pub ghost struct DirTreeView {
    pub directories: Seq<DirEntryView>,
    pub files: Seq<FileEntryView>,
    pub absolute_path: Seq<char>,
    pub relative_path: Seq<char>,
}

impl View for FileEntry {
    type V = FileEntryView;

    open spec fn view(&self) -> FileEntryView {
        FileEntryView { name: self.name@, modified: self.meta.modified }
    }
}

/// The plain values of a directory tree.
pub open spec fn tree_view(tree: DirTree) -> DirTreeView
    decreases tree, 1nat,
{
    DirTreeView {
        directories: entries_view(tree.directories@),
        files: views(tree.files@),
        absolute_path: tree.absolute_path@,
        relative_path: tree.relative_path@,
    }
}

/// The plain values of a list of subdirectory entries.
pub open spec fn entries_view(entries: Seq<DirEntry>) -> Seq<DirEntryView>
    decreases entries, 0nat,
{
    if entries.len() == 0 {
        Seq::empty()
    } else {
        entries_view(entries.drop_last()).push(
            DirEntryView { name: entries.last().name@, tree: tree_view(entries.last().tree) },
        )
    }
}

impl View for DirTree {
    type V = DirTreeView;

    open spec fn view(&self) -> DirTreeView {
        tree_view(*self)
    }
}

impl View for DirEntry {
    type V = DirEntryView;

    open spec fn view(&self) -> DirEntryView {
        DirEntryView { name: self.name@, tree: self.tree@ }
    }
}

/// The view of a list of subdirectory entries holds the view of each.
pub proof fn entries_view_is_pointwise(entries: Seq<DirEntry>)
    ensures
        entries_view(entries) == views(entries),
    decreases entries.len(),
{
    if entries.len() > 0 {
        entries_view_is_pointwise(entries.drop_last());
    }
    assert(entries_view(entries) =~= views(entries));
}

impl DirTreeView {
    /// No two subdirectories share a name and no two files do, here and in
    /// every directory below.
    pub open spec fn names_are_unique(self) -> bool
        decreases self,
    {
        &&& forall|i: int, j: int|
            0 <= i < j < self.directories.len() ==> self.directories[i].name
                != self.directories[j].name
        &&& forall|i: int, j: int|
            0 <= i < j < self.files.len() ==> self.files[i].name != self.files[j].name
        &&& forall|i: int|
            0 <= i < self.directories.len() ==> (#[trigger] self.directories[i]).tree.names_are_unique()
    }
}

/// The number of directories in a list of entries, with all that lie below them.
pub open spec fn directories_in(entries: Seq<DirEntryView>) -> nat
    decreases entries,
{
    if entries.len() == 0 {
        0
    } else {
        directories_in(entries.drop_last()) + 1 + directories_in(entries.last().tree.directories)
    }
}

} // verus!
