//! The navigation menu: one entry for every directory below the content root.

use vstd::prelude::*;
use crate::config::{SiteConfig, SiteConfigView};
use crate::error::ContentError;
use crate::meta::{
    MenuItemMeta, MenuItemMetaView, default_menu_meta, menu_meta_of, read_menu_meta_file,
};
use crate::paths::{strip_content_prefix, stripped_of_prefix};
use crate::store::{ContentStore, EntryView, Node, NodeView, node_at};
use crate::text::append;
use crate::tree::{
    DirEntryView, DirTree, DirTreeView, directories_in, entries_view_is_pointwise, views,
};

verus! {

/// The menu entry of one directory.
#[derive(Debug)]
pub struct MenuItem {
    pub menu_meta: MenuItemMeta,
    /// How many files lie directly in the directory.
    pub number_of_files: u32,
    /// The directory's path below the content root.
    pub relative_path: String,
    /// The entries of the directory's subdirectories.
    pub children: Vec<MenuEntry>,
}

/// A menu item under the name of its directory.
#[derive(Debug)]
pub struct MenuEntry {
    pub name: String,
    pub item: MenuItem,
}

/// A menu item as plain values.
pub ghost struct MenuItemView {
    pub menu_meta: MenuItemMetaView,
    pub number_of_files: u32,
    pub relative_path: Seq<char>,
    pub children: Seq<MenuEntryView>,
}

/// A named menu item as plain values.
pub ghost struct MenuEntryView {
    pub name: Seq<char>,
    pub item: MenuItemView,
}

/// The plain values of a menu item.
pub open spec fn item_view(item: MenuItem) -> MenuItemView
    decreases item, 1nat,
{
    MenuItemView {
        menu_meta: item.menu_meta@,
        number_of_files: item.number_of_files,
        relative_path: item.relative_path@,
        children: menu_view(item.children@),
    }
}

/// The plain values of a list of named menu items.
pub open spec fn menu_view(entries: Seq<MenuEntry>) -> Seq<MenuEntryView>
    decreases entries, 0nat,
{
    if entries.len() == 0 {
        Seq::empty()
    } else {
        menu_view(entries.drop_last()).push(
            MenuEntryView { name: entries.last().name@, item: item_view(entries.last().item) },
        )
    }
}

impl View for MenuItem {
    type V = MenuItemView;

    open spec fn view(&self) -> MenuItemView {
        item_view(*self)
    }
}

impl View for MenuEntry {
    type V = MenuEntryView;

    open spec fn view(&self) -> MenuEntryView {
        MenuEntryView { name: self.name@, item: self.item@ }
    }
}

/// The view of a list of named menu items holds the view of each.
pub proof fn menu_view_is_pointwise(entries: Seq<MenuEntry>)
    ensures
        menu_view(entries) == views(entries),
    decreases entries.len(),
{
    if entries.len() > 0 {
        menu_view_is_pointwise(entries.drop_last());
    }
    assert(menu_view(entries) =~= views(entries));
}

/// What a caller gets when it asks for a menu, as plain values.
pub open spec fn menu_outcome(r: Result<Vec<MenuEntry>, ContentError>) -> Result<
    Seq<MenuEntryView>,
    ContentError,
> {
    match r {
        Ok(menus) => Ok(views(menus@)),
        Err(fault) => Err(fault),
    }
}

/// What a caller gets when it asks for menu metadata, as plain values.
pub open spec fn menu_meta_outcome(r: Result<MenuItemMeta, ContentError>) -> Result<
    MenuItemMetaView,
    ContentError,
> {
    match r {
        Ok(meta) => Ok(meta@),
        Err(fault) => Err(fault),
    }
}

/// A menu item that stands for no directory.
pub open spec fn default_menu_item() -> MenuItemView {
    MenuItemView {
        menu_meta: default_menu_meta(),
        number_of_files: 0,
        relative_path: "Default"@,
        children: Seq::empty(),
    }
}

impl Default for MenuItem {
    fn default() -> (item: MenuItem)
        ensures
            item@ == default_menu_item(),
    {
        MenuItem {
            menu_meta: MenuItemMeta::default(),
            number_of_files: 0,
            relative_path: String::from_str("Default"),
            children: Vec::new(),
        }
    }
}

/// A copy of a menu item, with copies of all items below it.
fn copy_item(item: &MenuItem) -> (copy: MenuItem)
    ensures
        copy@ == item@,
    decreases item,
{
    let mut children: Vec<MenuEntry> = Vec::new();
    let mut i: usize = 0;
    proof {
        menu_view_is_pointwise(item.children@);
    }
    while i < item.children.len()
        invariant
            i <= item.children.len(),
            children@.len() == i,
            forall|k: int| 0 <= k < i ==> children@[k]@ == item.children@[k]@,
        decreases item.children.len() - i,
    {
        let child = &item.children[i];
        children.push(MenuEntry { name: child.name.clone(), item: copy_item(&child.item) });
        i = i + 1;
    }
    proof {
        menu_view_is_pointwise(children@);
        assert(views(children@) =~= views(item.children@));
    }
    MenuItem {
        menu_meta: item.menu_meta.clone(),
        number_of_files: item.number_of_files,
        relative_path: item.relative_path.clone(),
        children,
    }
}

impl Clone for MenuItem {
    fn clone(&self) -> (copy: MenuItem)
        ensures
            copy@ == self@,
    {
        copy_item(self)
    }
}

impl Clone for MenuEntry {
    fn clone(&self) -> (copy: MenuEntry)
        ensures
            copy@ == self@,
    {
        MenuEntry { name: self.name.clone(), item: copy_item(&self.item) }
    }
}

/// A count as the menu shows it: the count itself as far as 32 bits hold it.
pub open spec fn shown_count(n: nat) -> u32 {
    if n > u32::MAX {
        u32::MAX
    } else {
        n as u32
    }
}

/// The path of a directory's menu sidecar: the directory's path with
/// `.menu_meta` behind it.
pub open spec fn menu_sidecar_path(directory: Seq<char>) -> Seq<char> {
    directory + ".menu_meta"@
}

/// The menu metadata of a directory: the default where no sidecar stands,
/// what the decoded sidecar stands for where one does, and a fault where
/// something else stands in the sidecar's place.
pub open spec fn menu_meta_for(store: Seq<EntryView>, directory: Seq<char>) -> Result<
    MenuItemMetaView,
    ContentError,
> {
    match node_at(store, menu_sidecar_path(directory)) {
        None => Ok(default_menu_meta()),
        Some(NodeView::MenuSidecar(decoded)) => Ok(menu_meta_of(decoded)),
        Some(_) => Err(ContentError::UnreadableSidecar),
    }
}

/// The menu item of a directory, with the items of all directories below it.
pub open spec fn menu_item_of(
    config: SiteConfigView,
    store: Seq<EntryView>,
    tree: DirTreeView,
) -> Result<MenuItemView, ContentError>
    decreases tree, 1nat,
{
    match menu_meta_for(store, tree.absolute_path) {
        Err(fault) => Err(fault),
        Ok(menu_meta) => match menus_of(config, store, tree.directories) {
            Err(fault) => Err(fault),
            Ok(children) => Ok(
                MenuItemView {
                    menu_meta,
                    number_of_files: shown_count(tree.files.len()),
                    relative_path: stripped_of_prefix(tree.relative_path, config.base_dir),
                    children,
                },
            ),
        },
    }
}

/// The menu items of a list of directories, each under its directory's name
/// and in the directories' order. The first fault met, going through the list
/// and into each directory before the next, is the result.
pub open spec fn menus_of(
    config: SiteConfigView,
    store: Seq<EntryView>,
    entries: Seq<DirEntryView>,
) -> Result<Seq<MenuEntryView>, ContentError>
    decreases entries, 0nat,
{
    if entries.len() == 0 {
        Ok(Seq::empty())
    } else {
        match menus_of(config, store, entries.drop_last()) {
            Err(fault) => Err(fault),
            Ok(before) => match menu_item_of(config, store, entries.last().tree) {
                Err(fault) => Err(fault),
                Ok(item) => Ok(before.push(MenuEntryView { name: entries.last().name, item })),
            },
        }
    }
}

/// The menu of a directory tree: the items of its subdirectories. A base
/// directory without its trailing separator is a fault of the configuration
/// and comes before any other.
pub open spec fn menu_of(config: SiteConfigView, store: Seq<EntryView>, tree: DirTreeView) -> Result<
    Seq<MenuEntryView>,
    ContentError,
> {
    if !config.base_dir_is_closed() {
        Err(ContentError::Configuration)
    } else {
        menus_of(config, store, tree.directories)
    }
}

/// A menu mirrors a list of directories: it has one item for each, under the
/// same name and at the same position, and so has every item for the
/// directories below its own.
pub open spec fn mirrors(menus: Seq<MenuEntryView>, entries: Seq<DirEntryView>) -> bool
    decreases entries,
{
    &&& menus.len() == entries.len()
    &&& forall|i: int|
        0 <= i < entries.len() ==> (#[trigger] menus[i]).name == entries[i].name && mirrors(
            menus[i].item.children,
            entries[i].tree.directories,
        )
}

/// Every menu that is built mirrors the directories it was built from: one
/// item for each directory at every level, none left out and none twice.
pub proof fn menus_mirror_directories(
    config: SiteConfigView,
    store: Seq<EntryView>,
    entries: Seq<DirEntryView>,
)
    ensures
        menus_of(config, store, entries) matches Ok(menus) ==> mirrors(menus, entries),
    decreases entries, 0nat,
{
    if entries.len() > 0 {
        let init = entries.drop_last();
        menus_mirror_directories(config, store, init);
        menus_mirror_directories(config, store, entries.last().tree.directories);
        if let Ok(menus) = menus_of(config, store, entries) {
            let before = menus_of(config, store, init).unwrap();
            assert forall|i: int| 0 <= i < entries.len() implies (#[trigger] menus[i]).name
                == entries[i].name && mirrors(
                menus[i].item.children,
                entries[i].tree.directories,
            ) by {
                if i < init.len() {
                    assert(menus[i] == before[i]);
                    assert(init[i] == entries[i]);
                } else {
                    let item = menu_item_of(config, store, entries.last().tree).unwrap();
                    assert(menus[i] == MenuEntryView { name: entries.last().name, item });
                    assert(menus_of(config, store, entries.last().tree.directories) == Ok::<
                        _,
                        ContentError,
                    >(item.children));
                }
            }
        }
    }
}

/// The number of items in a menu, at every depth.
pub open spec fn items_in(menus: Seq<MenuEntryView>) -> nat
    decreases menus,
{
    if menus.len() == 0 {
        0
    } else {
        items_in(menus.drop_last()) + 1 + items_in(menus.last().item.children)
    }
}

/// No two items of the menu share a name, nor do two items below one item,
/// at any depth.
pub open spec fn has_distinct_names(menus: Seq<MenuEntryView>) -> bool
    decreases menus,
{
    &&& forall|i: int, j: int|
        0 <= i < j < menus.len() ==> (#[trigger] menus[i]).name != (#[trigger] menus[j]).name
    &&& forall|i: int|
        0 <= i < menus.len() ==> has_distinct_names((#[trigger] menus[i]).item.children)
}

/// A menu that mirrors a list of directories has as many items as there are
/// directories, counted at every depth.
pub proof fn mirrored_menu_counts_directories(menus: Seq<MenuEntryView>, entries: Seq<DirEntryView>)
    requires
        mirrors(menus, entries),
    ensures
        items_in(menus) == directories_in(entries),
    decreases entries,
{
    if entries.len() > 0 {
        let init = entries.drop_last();
        let first = menus.drop_last();
        assert forall|i: int| 0 <= i < init.len() implies (#[trigger] first[i]).name == init[i].name
            && mirrors(first[i].item.children, init[i].tree.directories) by {
            assert(first[i] == menus[i]);
            assert(init[i] == entries[i]);
        }
        mirrored_menu_counts_directories(first, init);
        let last = menus.len() - 1;
        assert(menus[last].name == entries[last].name);
        mirrored_menu_counts_directories(menus.last().item.children, entries.last().tree.directories);
    }
}

/// A menu that mirrors directories whose names are unique has unique names.
pub proof fn mirrored_menu_has_distinct_names(menus: Seq<MenuEntryView>, tree: DirTreeView)
    requires
        tree.names_are_unique(),
        mirrors(menus, tree.directories),
    ensures
        has_distinct_names(menus),
    decreases tree,
{
    assert forall|i: int, j: int| 0 <= i < j < menus.len() implies (#[trigger] menus[i]).name != (
    #[trigger] menus[j]).name by {
        assert(menus[i].name == tree.directories[i].name);
        assert(menus[j].name == tree.directories[j].name);
    }
    assert forall|i: int| 0 <= i < menus.len() implies has_distinct_names(
        (#[trigger] menus[i]).item.children,
    ) by {
        assert(tree.directories[i].tree.names_are_unique());
        mirrored_menu_has_distinct_names(menus[i].item.children, tree.directories[i].tree);
    }
}

/// The menu of a tree mirrors the tree: one item for every directory below
/// the root, under the directory's name, at every level.
pub proof fn menu_mirrors_tree(config: SiteConfigView, store: Seq<EntryView>, tree: DirTreeView)
    ensures
        menu_of(config, store, tree) matches Ok(menus) ==> mirrors(menus, tree.directories),
{
    menus_mirror_directories(config, store, tree.directories);
}

/// The menu metadata of the directory at `meta_path_raw`: see `menu_meta_for`.
pub fn add_menu_metadata(store: &ContentStore, meta_path_raw: &String) -> (r: Result<
    MenuItemMeta,
    ContentError,
>)
    ensures
        menu_meta_outcome(r) == menu_meta_for(store@, meta_path_raw@),
{
    let meta_path = append(meta_path_raw.as_str(), ".menu_meta");
    match store.find(meta_path.as_str()) {
        None => Ok(MenuItemMeta::default()),
        Some(at) => {
            assert(store@[at as int].node == store.entries@[at as int].node@);
            match &store.entries[at].node {
                Node::MenuSidecar(decoded) => Ok(read_menu_meta_file(decoded)),
                _ => Err(ContentError::UnreadableSidecar),
            }
        },
    }
}

/// The menu items of the subdirectories of `dir_tree`.
fn menus_below(config: &SiteConfig, store: &ContentStore, dir_tree: &DirTree) -> (r: Result<
    Vec<MenuEntry>,
    ContentError,
>)
    ensures
        match r {
            Ok(menus) => menus_of(config@, store@, dir_tree@.directories) == Ok::<_, ContentError>(
                views(menus@),
            ),
            Err(fault) => menus_of(config@, store@, dir_tree@.directories) == Err::<
                Seq<MenuEntryView>,
                _,
            >(fault),
        },
    decreases dir_tree,
{
    let mut menus: Vec<MenuEntry> = Vec::new();
    let mut i: usize = 0;
    proof {
        entries_view_is_pointwise(dir_tree.directories@);
        assert(dir_tree@.directories.take(0) =~= Seq::<DirEntryView>::empty());
        assert(views(menus@) =~= Seq::<MenuEntryView>::empty());
    }
    while i < dir_tree.directories.len()
        invariant
            i <= dir_tree.directories.len(),
            menus@.len() == i,
            dir_tree@.directories == views(dir_tree.directories@),
            menus_of(config@, store@, dir_tree@.directories.take(i as int)) == Ok::<_, ContentError>(
                views(menus@),
            ),
        decreases dir_tree.directories.len() - i,
    {
        let entry = &dir_tree.directories[i];
        let value = &entry.tree;
        proof {
            let done = dir_tree@.directories.take(i + 1);
            assert(done.drop_last() =~= dir_tree@.directories.take(i as int));
            assert(done.last() == entry@);
            entries_view_is_pointwise(value.directories@);
            unfinished_menu_stays_unfinished(
                config@,
                store@,
                dir_tree@.directories,
                i + 1,
            );
        }
        let ghost done = dir_tree@.directories.take(i + 1);
        let menu_meta = match add_menu_metadata(store, &value.absolute_path) {
            Ok(meta) => meta,
            Err(fault) => {
                proof {
                    assert(menu_item_of(config@, store@, value@) == Err::<MenuItemView, _>(fault));
                    assert(menus_of(config@, store@, done) == Err::<Seq<MenuEntryView>, _>(fault));
                }
                return Err(fault);
            },
        };
        let children = match menus_below(config, store, value) {
            Ok(children) => children,
            Err(fault) => {
                proof {
                    assert(menu_item_of(config@, store@, value@) == Err::<MenuItemView, _>(fault));
                    assert(menus_of(config@, store@, done) == Err::<Seq<MenuEntryView>, _>(fault));
                }
                return Err(fault);
            },
        };
        let number_of_files: u32 = if value.files.len() > u32::MAX as usize {
            u32::MAX
        } else {
            value.files.len() as u32
        };
        let item = MenuItem {
            menu_meta,
            number_of_files,
            relative_path: strip_content_prefix(
                value.relative_path.as_str(),
                config.base_dir.as_str(),
            ),
            children,
        };
        proof {
            menu_view_is_pointwise(item.children@);
            assert(value@.files.len() == value.files@.len());
        }
        let ghost before = menus@;
        menus.push(MenuEntry { name: entry.name.clone(), item });
        proof {
            assert(menu_item_of(config@, store@, value@) == Ok::<_, ContentError>(
                menus@[i as int].item@,
            ));
            assert(views(menus@) =~= views(before).push(menus@[i as int]@));
            assert(menus_of(config@, store@, done) == Ok::<_, ContentError>(views(menus@)));
        }
        i = i + 1;
    }
    proof {
        assert(dir_tree@.directories.take(i as int) =~= dir_tree@.directories);
    }
    Ok(menus)
}

/// A fault in the menu of the first directories of a list is the fault of
/// the whole list.
proof fn unfinished_menu_stays_unfinished(
    config: SiteConfigView,
    store: Seq<EntryView>,
    entries: Seq<DirEntryView>,
    n: int,
)
    requires
        0 <= n <= entries.len(),
    ensures
        menus_of(config, store, entries.take(n)) matches Err(fault) ==> menus_of(
            config,
            store,
            entries,
        ) == Err::<Seq<MenuEntryView>, _>(fault),
    decreases entries.len() - n,
{
    if n < entries.len() {
        assert(entries.take(n + 1).drop_last() =~= entries.take(n));
        unfinished_menu_stays_unfinished(config, store, entries, n + 1);
    } else {
        assert(entries.take(n) =~= entries);
    }
}

/// The menu of a directory tree: for every directory below the root one item
/// under the directory's name, with the directory's metadata, the number of
/// its files, its path below the content root and the items of its own
/// subdirectories.
pub fn tree_to_menus(config: &SiteConfig, store: &ContentStore, dir_tree: &DirTree) -> (r: Result<
    Vec<MenuEntry>,
    ContentError,
>)
    ensures
        menu_outcome(r) == menu_of(config@, store@, dir_tree@),
{
    if !config.base_dir_is_closed() {
        return Err(ContentError::Configuration);
    }
    menus_below(config, store, dir_tree)
}

} // verus!
