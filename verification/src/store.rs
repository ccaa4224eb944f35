//! A snapshot of the content directory: what stands at each path, read once
//! and handed to the builders as plain values.
//!
//! The snapshot is a list. Two spellings that differ only in repeated or
//! trailing separators name the same place, and of several entries for one
//! place the first counts.

use vstd::prelude::*;
use crate::meta::{
    ContentMeta, ContentMetaView, MenuItemMeta, MenuItemMetaView, decoded_content, decoded_menu,
};
use crate::paths::{normalize, normalized, same_place};
use crate::text::{chars_of, ends_with, has_suffix};
use crate::time::UtcTime;
use crate::tree::views;

verus! {

/// What stands at one path.
#[derive(Debug)]
pub enum Node {
    /// A directory.
    Directory,
    /// A file with the time of its creation and its text. The text matters
    /// for content files only.
    File { created: UtcTime, text: String },
    /// A `.content_meta` sidecar, as the decoder left it: the metadata, or the
    /// decoder's words on why it found none.
    ContentSidecar(Result<ContentMeta, String>),
    /// A `.menu_meta` sidecar, as the decoder left it.
    MenuSidecar(Result<MenuItemMeta, String>),
}

/// A node as plain values.
pub ghost enum NodeView {
    Directory,
    File { created: UtcTime, text: Seq<char> },
    ContentSidecar(Result<ContentMetaView, Seq<char>>),
    MenuSidecar(Result<MenuItemMetaView, Seq<char>>),
}

impl View for Node {
    type V = NodeView;

    open spec fn view(&self) -> NodeView {
        match *self {
            Node::Directory => NodeView::Directory,
            Node::File { created, text } => NodeView::File { created, text: text@ },
            Node::ContentSidecar(decoded) => NodeView::ContentSidecar(decoded_content(decoded)),
            Node::MenuSidecar(decoded) => NodeView::MenuSidecar(decoded_menu(decoded)),
        }
    }
}

/// How a file is to be read into the snapshot.
#[derive(Clone, Copy, Debug, PartialEq, Eq, Structural)]
pub enum Reading {
    /// As text.
    Text,
    /// Through the decoder of content metadata.
    ContentSidecar,
    /// Through the decoder of menu metadata.
    MenuSidecar,
}

/// How the file of the given name is to be read: a name that ends in
/// `.content_meta` or `.menu_meta` calls for the decoder of its kind, any
/// other name for the text.
pub open spec fn reading_of(name: Seq<char>) -> Reading {
    if ends_with(name, ".content_meta"@) {
        Reading::ContentSidecar
    } else if ends_with(name, ".menu_meta"@) {
        Reading::MenuSidecar
    } else {
        Reading::Text
    }
}

/// How the file of the given name is to be read.
pub fn how_to_read(name: &str) -> (r: Reading)
    ensures
        r == reading_of(name@),
{
    let chars = chars_of(name);
    if has_suffix(&chars, &chars_of(".content_meta")) {
        Reading::ContentSidecar
    } else if has_suffix(&chars, &chars_of(".menu_meta")) {
        Reading::MenuSidecar
    } else {
        Reading::Text
    }
}

/// One path of the snapshot and what stands there.
#[derive(Debug)]
pub struct Entry {
    pub path: String,
    pub node: Node,
}

/// An entry as plain values.
pub ghost struct EntryView {
    pub path: Seq<char>,
    pub node: NodeView,
}

impl View for Entry {
    type V = EntryView;

    open spec fn view(&self) -> EntryView {
        EntryView { path: self.path@, node: self.node@ }
    }
}

/// The snapshot of a content directory.
#[derive(Debug)]
pub struct ContentStore {
    pub entries: Vec<Entry>,
}

impl View for ContentStore {
    type V = Seq<EntryView>;

    open spec fn view(&self) -> Seq<EntryView> {
        views(self.entries@)
    }
}

/// Entry `at` is an entry for the place that `path` names.
pub open spec fn stands_at(store: Seq<EntryView>, path: Seq<char>, at: int) -> bool {
    0 <= at < store.len() && same_place(store[at].path, path)
}

/// Entry `at` is the first entry for the place that `path` names.
pub open spec fn first_at(store: Seq<EntryView>, path: Seq<char>, at: int) -> bool {
    stands_at(store, path, at) && forall|j: int| 0 <= j < at ==> !stands_at(store, path, j)
}

/// The position of the entry that counts for `path`, if the snapshot has one.
pub open spec fn lookup(store: Seq<EntryView>, path: Seq<char>) -> Option<int> {
    if exists|at: int| stands_at(store, path, at) {
        Some(choose|at: int| first_at(store, path, at))
    } else {
        None
    }
}

/// What stands at `path`, if anything does.
pub open spec fn node_at(store: Seq<EntryView>, path: Seq<char>) -> Option<NodeView> {
    match lookup(store, path) {
        Some(at) => Some(store[at].node),
        None => None,
    }
}

/// Something stands at `path`.
pub open spec fn exists_at(store: Seq<EntryView>, path: Seq<char>) -> bool {
    lookup(store, path) is Some
}

/// A directory stands at `path`.
pub open spec fn directory_at(store: Seq<EntryView>, path: Seq<char>) -> bool {
    node_at(store, path) == Some(NodeView::Directory)
}

/// The first entry for a place is the one that `lookup` gives.
pub proof fn lookup_is_first(store: Seq<EntryView>, path: Seq<char>, at: int)
    requires
        first_at(store, path, at),
    ensures
        lookup(store, path) == Some(at),
{
    let chosen = choose|k: int| first_at(store, path, k);
    assert(first_at(store, path, chosen));
    if chosen < at {
        assert(!stands_at(store, path, chosen));
    }
    if at < chosen {
        assert(!stands_at(store, path, at));
    }
}

/// What `lookup` gives is a position of the snapshot whose entry names the place.
pub proof fn lookup_is_sound(store: Seq<EntryView>, path: Seq<char>)
    ensures
        match lookup(store, path) {
            Some(at) => first_at(store, path, at),
            None => forall|j: int| !stands_at(store, path, j),
        },
{
    if exists|at: int| stands_at(store, path, at) {
        let some = choose|at: int| stands_at(store, path, at);
        least_standing(store, path, some);
    }
}

/// Below any entry for a place there is a first one.
proof fn least_standing(store: Seq<EntryView>, path: Seq<char>, at: int)
    requires
        stands_at(store, path, at),
    ensures
        exists|k: int| first_at(store, path, k),
    decreases at,
{
    if exists|j: int| 0 <= j < at && stands_at(store, path, j) {
        let j = choose|j: int| 0 <= j < at && stands_at(store, path, j);
        least_standing(store, path, j);
    } else {
        assert(first_at(store, path, at));
    }
}

impl ContentStore {
    /// A snapshot that holds nothing.
    pub fn new() -> (store: ContentStore)
        ensures
            store@ == Seq::<EntryView>::empty(),
    {
        let store = ContentStore { entries: Vec::new() };
        assert(store@ =~= Seq::<EntryView>::empty());
        store
    }

    /// Adds an entry at the end of the snapshot.
    pub fn insert(&mut self, path: String, node: Node)
        ensures
            final(self)@ == old(self)@.push(EntryView { path: path@, node: node@ }),
    {
        self.entries.push(Entry { path, node });
        assert(self@ =~= old(self)@.push(EntryView { path: path@, node: node@ }));
    }

    /// The number of entries.
    pub fn len(&self) -> (n: usize)
        ensures
            n == self@.len(),
    {
        self.entries.len()
    }

    /// The position of the entry that counts for `path`.
    pub fn find(&self, path: &str) -> (r: Option<usize>)
        ensures
            lookup(self@, path@) == match r {
                Some(at) => Some(at as int),
                None => None,
            },
            r matches Some(at) ==> at < self.entries.len(),
    {
        let wanted = normalize(path);
        let mut at: usize = 0;
        while at < self.entries.len()
            invariant
                at <= self.entries.len(),
                wanted@ == normalized(path@),
                forall|j: int| 0 <= j < at ==> !stands_at(self@, path@, j),
            decreases self.entries.len() - at,
        {
            let spelled = normalize(self.entries[at].path.as_str());
            if spelled == wanted {
                proof {
                    assert(self@[at as int].path == self.entries@[at as int].path@);
                    assert(first_at(self@, path@, at as int));
                    lookup_is_first(self@, path@, at as int);
                }
                return Some(at);
            }
            assert(self@[at as int].path == self.entries@[at as int].path@);
            at = at + 1;
        }
        proof {
            lookup_is_sound(self@, path@);
        }
        None
    }

    /// Whether anything stands at `path`.
    pub fn holds(&self, path: &str) -> (r: bool)
        ensures
            r == exists_at(self@, path@),
    {
        self.find(path).is_some()
    }

    /// Whether a directory stands at `path`.
    pub fn is_dir(&self, path: &str) -> (r: bool)
        ensures
            r == directory_at(self@, path@),
    {
        match self.find(path) {
            Some(at) => {
                assert(self@[at as int].node == self.entries@[at as int].node@);
                match self.entries[at].node {
                    Node::Directory => true,
                    _ => false,
                }
            },
            None => false,
        }
    }
}

} // verus!
