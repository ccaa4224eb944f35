//! Pages: a content file with its metadata and the pages that its content
//! list takes in, resolved against a snapshot of the content directory.

use vstd::prelude::*;
use crate::config::{SiteConfig, SiteConfigView};
use crate::error::ContentError;
use crate::meta::{
    ContentMeta, ContentMetaView, content_meta_of, default_content_meta, read_content_meta_file,
};
use crate::paths::{
    child_name, entry_path, entry_path_of, file_name, file_stem, has_content_extension,
    has_sidecar_extension, is_child_of, is_content_path, is_sidecar_path, last_segment,
    localpath_to_webpath, path_file_stem, sidecar_path, sidecar_path_for, web_path,
};
use crate::render::markdown_html;
use crate::sort::{
    arranged, keys_of, stable_order, stable_order_is_stable, stable_sort_by_key, values_of,
};
use crate::store::{
    ContentStore, EntryView, Node, NodeView, directory_at, exists_at, lookup, lookup_is_sound,
    node_at,
};
use crate::text::{append, chars_of, cut};
use crate::time::UtcTime;
use crate::tree::views;

verus! {

/// A page as the renderer gets it.
#[derive(Debug)]
pub struct PageContent {
    pub markdown: MDContent,
}

/// What a content file resolves to.
#[derive(Debug)]
pub struct MDContent {
    /// When the content file was created.
    pub created: UtcTime,
    /// The stem of the content file's name.
    pub title: String,
    /// The page's public web path.
    pub path: String,
    /// The content rendered as HTML.
    pub body: String,
    /// The pages of the content list, by ascending weight.
    pub list: Vec<PageContent>,
    pub meta: ContentMeta,
}

/// A page as plain values.
pub ghost struct PageView {
    pub created: UtcTime,
    pub title: Seq<char>,
    pub path: Seq<char>,
    pub body: Seq<char>,
    pub list: Seq<PageView>,
    pub meta: ContentMetaView,
}

/// The plain values of a page.
pub open spec fn page_view(page: PageContent) -> PageView
    decreases page, 1nat,
{
    PageView {
        created: page.markdown.created,
        title: page.markdown.title@,
        path: page.markdown.path@,
        body: page.markdown.body@,
        list: pages_view(page.markdown.list@),
        meta: page.markdown.meta@,
    }
}

/// The plain values of a list of pages.
pub open spec fn pages_view(pages: Seq<PageContent>) -> Seq<PageView>
    decreases pages, 0nat,
{
    if pages.len() == 0 {
        Seq::empty()
    } else {
        pages_view(pages.drop_last()).push(page_view(pages.last()))
    }
}

impl View for PageContent {
    type V = PageView;

    open spec fn view(&self) -> PageView {
        page_view(*self)
    }
}

impl View for MDContent {
    type V = PageView;

    open spec fn view(&self) -> PageView {
        PageView {
            created: self.created,
            title: self.title@,
            path: self.path@,
            body: self.body@,
            list: pages_view(self.list@),
            meta: self.meta@,
        }
    }
}

/// The view of a list of pages holds the view of each.
pub proof fn pages_view_is_pointwise(pages: Seq<PageContent>)
    ensures
        pages_view(pages) == views(pages),
    decreases pages.len(),
{
    if pages.len() > 0 {
        pages_view_is_pointwise(pages.drop_last());
    }
    assert(pages_view(pages) =~= views(pages));
}

/// The page that stands for no content: titled and filled with `None`, at
/// the root, created at the epoch, with default metadata.
pub open spec fn default_page() -> PageView {
    PageView {
        created: UtcTime { secs: 0, nanos: 0 },
        title: "None"@,
        path: "/"@,
        body: "None"@,
        list: Seq::empty(),
        meta: default_content_meta(),
    }
}

impl Default for MDContent {
    fn default() -> (content: MDContent)
        ensures
            content@ == default_page(),
    {
        MDContent {
            created: UtcTime::epoch(),
            title: String::from_str("None"),
            path: String::from_str("/"),
            body: String::from_str("None"),
            list: Vec::new(),
            meta: ContentMeta::default(),
        }
    }
}

impl Default for PageContent {
    fn default() -> (page: PageContent)
        ensures
            page@ == default_page(),
    {
        PageContent { markdown: MDContent::default() }
    }
}

/// The path of a page's sidecar.
pub open spec fn content_sidecar_path(place: Seq<char>) -> Seq<char> {
    sidecar_path(place, ".content_meta"@)
}

/// What the content file at `place` gives a page, before its metadata and its
/// list: the default page where `place` does not name a content file; else
/// the file's creation time, the stem of its name, its web path and its text
/// rendered, or a fault where no file stands there.
pub open spec fn page_content(config: SiteConfigView, store: Seq<EntryView>, place: Seq<char>) -> Result<
    PageView,
    ContentError,
> {
    if !is_content_path(place) {
        Ok(default_page())
    } else {
        match node_at(store, place) {
            Some(NodeView::File { created, text }) => match web_path(place, config.base_dir) {
                Some(path) => Ok(
                    PageView {
                        created,
                        title: file_stem(file_name(place)),
                        path,
                        body: markdown_html(text),
                        list: Seq::empty(),
                        meta: default_content_meta(),
                    },
                ),
                None => Err(ContentError::PathFormat),
            },
            _ => Err(ContentError::MissingContent),
        }
    }
}

/// The metadata of the page at `place`: the default where no sidecar stands,
/// what the decoded sidecar stands for where one does, and a fault where
/// something else stands in the sidecar's place.
pub open spec fn page_meta(store: Seq<EntryView>, place: Seq<char>) -> Result<
    ContentMetaView,
    ContentError,
> {
    match node_at(store, content_sidecar_path(place)) {
        None => Ok(default_content_meta()),
        Some(NodeView::ContentSidecar(decoded)) => Ok(content_meta_of(decoded)),
        Some(_) => Err(ContentError::UnreadableSidecar),
    }
}

/// The HTML of the content file at `path`. That no file stands there is a fault.
pub fn read_markdown_from_path(store: &ContentStore, path: &str) -> (r: Result<String, ContentError>)
    ensures
        match r {
            Ok(html) => node_at(store@, path@) matches Some(NodeView::File { text, .. })
                && html@ == markdown_html(text),
            Err(fault) => fault == ContentError::MissingContent && !(node_at(store@, path@) matches Some(
                NodeView::File { .. },
            )),
        },
{
    match store.find(path) {
        None => Err(ContentError::MissingContent),
        Some(at) => {
            assert(store@[at as int].node == store.entries@[at as int].node@);
            match &store.entries[at].node {
                Node::File { created, text } => Ok(markdown::to_html(text.as_str())),
                _ => Err(ContentError::MissingContent),
            }
        },
    }
}

/// Whether the sidecar with the given suffix stands beside `this_path`.
pub fn check_path_alternatives(store: &ContentStore, this_path: &str, extension: &str) -> (r: bool)
    ensures
        r == exists_at(store@, sidecar_path(this_path@, extension@)),
{
    let sidecar = sidecar_path_for(this_path, extension);
    store.holds(sidecar.as_str())
}

/// Whether the content directory holds the page `potential_content`, given
/// without its `.md`.
pub fn does_content_exist(config: &SiteConfig, store: &ContentStore, potential_content: &str) -> (r:
    bool)
    ensures
        r == exists_at(store@, config@.local_path() + potential_content@ + ".md"@),
{
    let root = config.content_root();
    let raw_path = append(root.as_str(), potential_content);
    let file = append(raw_path.as_str(), ".md");
    store.holds(file.as_str())
}

/// Whether the content directory holds the directory `potential_content`.
pub fn does_directory_exist(config: &SiteConfig, store: &ContentStore, potential_content: &str) -> (r:
    bool)
    ensures
        r == directory_at(store@, config@.local_path() + potential_content@),
{
    let root = config.content_root();
    let raw_path = append(root.as_str(), potential_content);
    store.is_dir(raw_path.as_str())
}

/// What the content file at `place` gives a page: see `page_content`.
fn read_page_content(config: &SiteConfig, store: &ContentStore, place: &str) -> (r: Result<
    MDContent,
    ContentError,
>)
    ensures
        match r {
            Ok(content) => page_content(config@, store@, place@) == Ok::<_, ContentError>(content@),
            Err(fault) => page_content(config@, store@, place@) == Err::<PageView, _>(fault),
        },
{
    if !has_content_extension(place) {
        return Ok(MDContent::default());
    }
    match store.find(place) {
        None => Err(ContentError::MissingContent),
        Some(at) => {
            assert(store@[at as int].node == store.entries@[at as int].node@);
            match &store.entries[at].node {
                Node::File { created, text } => {
                    let path = match localpath_to_webpath(place, config.base_dir.as_str()) {
                        Ok(path) => path,
                        Err(fault) => {
                            return Err(fault);
                        },
                    };
                    let content = MDContent {
                        created: *created,
                        title: path_file_stem(place),
                        path,
                        body: markdown::to_html(text.as_str()),
                        list: Vec::new(),
                        meta: ContentMeta::default(),
                    };
                    Ok(content)
                },
                _ => Err(ContentError::MissingContent),
            }
        },
    }
}

/// The metadata of the page at `place`: see `page_meta`.
fn read_page_meta(store: &ContentStore, place: &str) -> (r: Result<ContentMeta, ContentError>)
    ensures
        match r {
            Ok(meta) => page_meta(store@, place@) == Ok::<_, ContentError>(meta@),
            Err(fault) => page_meta(store@, place@) == Err::<ContentMetaView, _>(fault),
        },
{
    let sidecar = sidecar_path_for(place, ".content_meta");
    match store.find(sidecar.as_str()) {
        None => Ok(ContentMeta::default()),
        Some(at) => {
            assert(store@[at as int].node == store.entries@[at as int].node@);
            match &store.entries[at].node {
                Node::ContentSidecar(decoded) => Ok(read_content_meta_file(decoded)),
                _ => Err(ContentError::UnreadableSidecar),
            }
        },
    }
}

/// What a caller gets when it asks for a page, as plain values.
pub open spec fn page_outcome(r: Result<PageContent, ContentError>) -> Result<PageView, ContentError> {
    match r {
        Ok(page) => Ok(page@),
        Err(fault) => Err(fault),
    }
}

/// What a caller gets when it asks for a list of pages, as plain values.
pub open spec fn pages_outcome(r: Result<Vec<PageContent>, ContentError>) -> Result<
    Seq<PageView>,
    ContentError,
> {
    match r {
        Ok(pages) => Ok(views(pages@)),
        Err(fault) => Err(fault),
    }
}

/// How many entries of the snapshot are not being resolved.
pub open spec fn free_count(busy: Seq<bool>) -> nat
    decreases busy.len(),
{
    if busy.len() == 0 {
        0
    } else {
        free_count(busy.drop_last()) + if busy.last() {
            0nat
        } else {
            1nat
        }
    }
}

/// Marking a free entry leaves one free entry fewer.
pub proof fn marking_takes_one(busy: Seq<bool>, at: int)
    requires
        0 <= at < busy.len(),
        !busy[at],
    ensures
        free_count(busy.update(at, true)) + 1 == free_count(busy),
    decreases busy.len(),
{
    let marked = busy.update(at, true);
    if at == busy.len() - 1 {
        assert(marked.drop_last() =~= busy.drop_last());
    } else {
        assert(marked.drop_last() =~= busy.drop_last().update(at, true));
        marking_takes_one(busy.drop_last(), at);
    }
}

/// The weights of a list of pages.
pub open spec fn weights(pages: Seq<PageView>) -> Seq<int> {
    Seq::new(pages.len(), |i: int| pages[i].meta.weight as int)
}

/// The creation times of a list of pages, as keys of their order.
pub open spec fn creation_keys(pages: Seq<PageView>) -> Seq<int> {
    Seq::new(pages.len(), |i: int| pages[i].created.order_key())
}

/// The pages by ascending weight, pages of equal weight in the given order.
pub open spec fn sorted_by_weight(pages: Seq<PageView>) -> Seq<PageView> {
    arranged(pages, stable_order(weights(pages)))
}

/// The pages by ascending creation time, pages of one instant in the given order.
pub open spec fn sorted_by_creation(pages: Seq<PageView>) -> Seq<PageView> {
    arranged(pages, stable_order(creation_keys(pages)))
}

/// The page at `path`, a path below the content root, while the entries
/// marked in `busy` are being resolved: what its content file gives, its
/// metadata, and the pages of its content list by ascending weight.
pub open spec fn resolve_page(
    config: SiteConfigView,
    store: Seq<EntryView>,
    path: Seq<char>,
    busy: Seq<bool>,
) -> Result<PageView, ContentError>
    decreases free_count(busy), 1nat, 0nat,
    when busy.len() == store.len()
{
    let place = config.local_path() + path;
    match page_content(config, store, place) {
        Err(fault) => Err(fault),
        Ok(page) => match page_meta(store, place) {
            Err(fault) => Err(fault),
            Ok(meta) => match resolve_list(config, store, meta.content_list, busy) {
                Err(fault) => Err(fault),
                Ok(pages) => Ok(PageView { meta, list: sorted_by_weight(pages), ..page }),
            },
        },
    }
}

/// The pages that a content list names, in the list's order. A name at which
/// nothing stands, or a directory, is passed over. A name that leads to an
/// entry that is being resolved is a fault, and so is any fault of a page on
/// the way; the first one met is the result.
pub open spec fn resolve_list(
    config: SiteConfigView,
    store: Seq<EntryView>,
    items: Seq<Seq<char>>,
    busy: Seq<bool>,
) -> Result<Seq<PageView>, ContentError>
    decreases free_count(busy), 0nat, items.len(),
    when busy.len() == store.len()
{
    if items.len() == 0 {
        Ok(Seq::empty())
    } else {
        match resolve_list(config, store, items.drop_last(), busy) {
            Err(fault) => Err(fault),
            Ok(before) => {
                let item = items.last();
                match lookup(store, config.local_path() + item) {
                    None => Ok(before),
                    Some(at) => if store[at].node is Directory {
                        Ok(before)
                    } else if busy[at] {
                        Err(ContentError::CyclicReference)
                    } else {
                        proof {
                            lookup_is_sound(store, config.local_path() + item);
                            marking_takes_one(busy, at);
                        }
                        match resolve_page(config, store, item, busy.update(at, true)) {
                            Err(fault) => Err(fault),
                            Ok(page) => Ok(before.push(page)),
                        }
                    },
                }
            },
        }
    }
}

/// The marks at the start of resolving the page at `place`: the entry at
/// `place`, if there is one, and no other.
pub open spec fn busy_with(store: Seq<EntryView>, place: Seq<char>) -> Seq<bool> {
    Seq::new(store.len(), |i: int| lookup(store, place) == Some(i))
}

/// No entry is marked.
pub open spec fn all_free(store: Seq<EntryView>) -> Seq<bool> {
    Seq::new(store.len(), |i: int| false)
}

/// The page at `path`, a path below the content root.
pub open spec fn page_of(config: SiteConfigView, store: Seq<EntryView>, path: Seq<char>) -> Result<
    PageView,
    ContentError,
> {
    resolve_page(config, store, path, busy_with(store, config.local_path() + path))
}

/// The pages of a content list, by ascending weight.
pub open spec fn content_list_of(
    config: SiteConfigView,
    store: Seq<EntryView>,
    items: Seq<Seq<char>>,
) -> Result<Seq<PageView>, ContentError> {
    match resolve_list(config, store, items, all_free(store)) {
        Err(fault) => Err(fault),
        Ok(pages) => Ok(sorted_by_weight(pages)),
    }
}

/// A fault among the first pages of a content list is the fault of the whole list.
proof fn unfinished_list_stays_unfinished(
    config: SiteConfigView,
    store: Seq<EntryView>,
    items: Seq<Seq<char>>,
    busy: Seq<bool>,
    n: int,
)
    requires
        0 <= n <= items.len(),
        busy.len() == store.len(),
    ensures
        resolve_list(config, store, items.take(n), busy) matches Err(fault) ==> resolve_list(
            config,
            store,
            items,
            busy,
        ) == Err::<Seq<PageView>, _>(fault),
    decreases items.len() - n,
{
    if n < items.len() {
        assert(items.take(n + 1).drop_last() =~= items.take(n));
        unfinished_list_stays_unfinished(config, store, items, busy, n + 1);
    } else {
        assert(items.take(n) =~= items);
    }
}

/// Arranging pages and taking their plain values can be done in either order.
proof fn views_of_arranged(pages: Seq<PageContent>, order: Seq<int>)
    requires
        forall|i: int| 0 <= i < order.len() ==> 0 <= #[trigger] order[i] < pages.len(),
    ensures
        views(arranged(pages, order)) == arranged(views(pages), order),
{
    assert(views(arranged(pages, order)) =~= arranged(views(pages), order));
}

/// The pages of a keyed list by ascending key, pages of equal keys in the
/// given order.
fn sort_pages(keyed: Vec<(i128, PageContent)>) -> (sorted: Vec<PageContent>)
    ensures
        views(sorted@) == arranged(views(values_of(keyed@)), stable_order(keys_of(keyed@))),
{
    let ghost keys = keys_of(keyed@);
    let ghost values = values_of(keyed@);
    let sorted = stable_sort_by_key(keyed);
    proof {
        stable_order_is_stable(keys);
        views_of_arranged(values, stable_order(keys));
    }
    sorted
}

/// The page at `this_path` while the entries marked in `busy` are being
/// resolved: see `resolve_page`.
fn resolve(config: &SiteConfig, store: &ContentStore, this_path: &str, busy: &mut Vec<bool>) -> (r:
    Result<PageContent, ContentError>)
    requires
        old(busy)@.len() == store@.len(),
    ensures
        final(busy)@ == old(busy)@,
        match r {
            Ok(page) => resolve_page(config@, store@, this_path@, old(busy)@) == Ok::<_, ContentError>(
                page@,
            ),
            Err(fault) => resolve_page(config@, store@, this_path@, old(busy)@) == Err::<PageView, _>(
                fault,
            ),
        },
    decreases free_count(old(busy)@), 1nat,
{
    let root = config.content_root();
    let place = append(root.as_str(), this_path);
    let mut content = match read_page_content(config, store, place.as_str()) {
        Ok(content) => content,
        Err(fault) => {
            return Err(fault);
        },
    };
    let meta = match read_page_meta(store, place.as_str()) {
        Ok(meta) => meta,
        Err(fault) => {
            return Err(fault);
        },
    };
    let keyed = match resolve_each(config, store, &meta.content_list, busy) {
        Ok(keyed) => keyed,
        Err(fault) => {
            return Err(fault);
        },
    };
    let ghost before = content@;
    content.list = sort_pages(keyed);
    content.meta = meta;
    proof {
        pages_view_is_pointwise(content.list@);
    }
    let page = PageContent { markdown: content };
    assert(page@ == PageView { meta: meta@, list: views(content.list@), ..before });
    Ok(page)
}

/// The pages that a content list names, each with its weight as key: see
/// `resolve_list`.
fn resolve_each(
    config: &SiteConfig,
    store: &ContentStore,
    items: &Vec<String>,
    busy: &mut Vec<bool>,
) -> (r: Result<Vec<(i128, PageContent)>, ContentError>)
    requires
        old(busy)@.len() == store@.len(),
    ensures
        final(busy)@ == old(busy)@,
        match r {
            Ok(keyed) => resolve_list(config@, store@, items.deep_view(), old(busy)@) == Ok::<
                _,
                ContentError,
            >(views(values_of(keyed@))) && keys_of(keyed@) == weights(views(values_of(keyed@))),
            Err(fault) => resolve_list(config@, store@, items.deep_view(), old(busy)@) == Err::<
                Seq<PageView>,
                _,
            >(fault),
        },
    decreases free_count(old(busy)@), 0nat,
{
    let root = config.content_root();
    let mut keyed: Vec<(i128, PageContent)> = Vec::new();
    let ghost names = items.deep_view();
    let mut i: usize = 0;
    proof {
        assert(names.take(0) =~= Seq::<Seq<char>>::empty());
        assert(views(values_of(keyed@)) =~= Seq::<PageView>::empty());
        assert(keys_of(keyed@) =~= weights(views(values_of(keyed@))));
    }
    while i < items.len()
        invariant
            i <= items.len(),
            names == items.deep_view(),
            root@ == config@.local_path(),
            busy@ == old(busy)@,
            busy@.len() == store@.len(),
            resolve_list(config@, store@, names.take(i as int), busy@) == Ok::<_, ContentError>(
                views(values_of(keyed@)),
            ),
            keys_of(keyed@) == weights(views(values_of(keyed@))),
        decreases items.len() - i,
    {
        let item = &items[i];
        let place = append(root.as_str(), item.as_str());
        let ghost done = names.take(i + 1);
        proof {
            assert(done.drop_last() =~= names.take(i as int));
            assert(done.last() == item@);
            unfinished_list_stays_unfinished(config@, store@, names, busy@, i + 1);
            lookup_is_sound(store@, place@);
        }
        match store.find(place.as_str()) {
            None => {},
            Some(at) => {
                assert(store@[at as int].node == store.entries@[at as int].node@);
                let is_directory = match &store.entries[at].node {
                    Node::Directory => true,
                    _ => false,
                };
                if !is_directory {
                    if busy[at] {
                        assert(resolve_list(config@, store@, done, busy@) == Err::<Seq<PageView>, _>(
                            ContentError::CyclicReference,
                        ));
                        return Err(ContentError::CyclicReference);
                    }
                    let ghost marks = busy@;
                    proof {
                        marking_takes_one(marks, at as int);
                    }
                    busy.set(at, true);
                    let resolved = resolve(config, store, item.as_str(), busy);
                    busy.set(at, false);
                    assert(busy@ =~= marks);
                    match resolved {
                        Err(fault) => {
                            assert(resolve_list(config@, store@, done, busy@) == Err::<
                                Seq<PageView>,
                                _,
                            >(fault));
                            return Err(fault);
                        },
                        Ok(page) => {
                            let ghost before = keyed@;
                            let key: i128 = page.markdown.meta.weight as i128;
                            keyed.push((key, page));
                            proof {
                                assert(views(values_of(keyed@)) =~= views(values_of(before)).push(
                                    page@,
                                ));
                                let old_keys = keys_of(before);
                                let old_weights = weights(views(values_of(before)));
                                assert forall|k: int| 0 <= k < keyed@.len() implies keys_of(
                                    keyed@,
                                )[k] == weights(views(values_of(keyed@)))[k] by {
                                    if k < before.len() {
                                        assert(old_keys[k] == old_weights[k]);
                                        assert(keyed@[k] == before[k]);
                                    } else {
                                        assert(page@.meta.weight == page.markdown.meta.weight);
                                    }
                                }
                                assert(keys_of(keyed@) =~= weights(views(values_of(keyed@))));
                            }
                        },
                    }
                }
            },
        }
        i = i + 1;
    }
    proof {
        assert(names.take(i as int) =~= names);
    }
    Ok(keyed)
}

/// The page at `this_path`, a path below the content root: what its content
/// file gives, its metadata, and the pages of its content list, each resolved
/// in the same way and all of them by ascending weight.
///
/// A path that does not name a content file gives the default page with the
/// metadata of its sidecar. Faults: no file stands at a content path; a
/// sidecar's place holds something else; a content list leads back to a page
/// that is being resolved.
pub fn read_single_page(config: &SiteConfig, store: &ContentStore, this_path: String) -> (r: Result<
    PageContent,
    ContentError,
>)
    ensures
        page_outcome(r) == page_of(config@, store@, this_path@),
{
    page_at(config, store, this_path.as_str())
}

/// The pages that a content list names, by ascending weight, pages of equal
/// weight in the list's order. A name at which nothing stands, or a
/// directory, is passed over and the others are still resolved.
pub fn read_content_list(config: &SiteConfig, store: &ContentStore, list_o_content: &Vec<String>) -> (r:
    Result<Vec<PageContent>, ContentError>)
    ensures
        pages_outcome(r) == content_list_of(config@, store@, list_o_content.deep_view()),
{
    let mut busy = no_marks(store);
    match resolve_each(config, store, list_o_content, &mut busy) {
        Err(fault) => Err(fault),
        Ok(keyed) => Ok(sort_pages(keyed)),
    }
}

/// The entry is one that a directory listing takes up: it lies directly in
/// the directory, is no directory itself, and is no sidecar.
pub open spec fn is_listed(entry: EntryView, dir: Seq<char>) -> bool {
    &&& is_child_of(entry.path, dir)
    &&& !(entry.node is Directory)
    &&& !is_sidecar_path(last_segment(entry.path))
}

/// The stem of an entry's name.
pub open spec fn stem_of(entry: EntryView) -> Seq<char> {
    file_stem(file_name(last_segment(entry.path)))
}

/// The stems of the entries at the given positions.
pub open spec fn stems_at(store: Seq<EntryView>, positions: Seq<int>) -> Seq<Seq<char>> {
    Seq::new(positions.len(), |k: int| stem_of(store[positions[k]]))
}

/// The positions, among the first `n` entries, of those that a listing of
/// `dir` keeps: each listed entry whose stem no kept entry before it has.
pub open spec fn kept(store: Seq<EntryView>, dir: Seq<char>, n: int) -> Seq<int>
    decreases n,
{
    if n <= 0 {
        Seq::empty()
    } else {
        let before = kept(store, dir, n - 1);
        if is_listed(store[n - 1], dir) && !stems_at(store, before).contains(stem_of(store[n - 1])) {
            before.push(n - 1)
        } else {
            before
        }
    }
}

/// The path below the content root of the entry `name` of the directory
/// `raw_dir`, itself a path below the content root `root`.
pub open spec fn page_path_in(root: Seq<char>, raw_dir: Seq<char>, name: Seq<char>) -> Seq<char> {
    entry_path(root + raw_dir, name).skip(root.len() as int)
}

/// The paths below the content root of the entries at the given positions.
pub open spec fn page_paths(
    config: SiteConfigView,
    store: Seq<EntryView>,
    raw_dir: Seq<char>,
    positions: Seq<int>,
) -> Seq<Seq<char>> {
    Seq::new(
        positions.len(),
        |k: int| page_path_in(config.local_path(), raw_dir, last_segment(store[positions[k]].path)),
    )
}

/// The pages at the given paths, each resolved on its own, in the given
/// order; the first fault met is the result.
pub open spec fn pages_at(config: SiteConfigView, store: Seq<EntryView>, paths: Seq<Seq<char>>) -> Result<
    Seq<PageView>,
    ContentError,
>
    decreases paths.len(),
{
    if paths.len() == 0 {
        Ok(Seq::empty())
    } else {
        match pages_at(config, store, paths.drop_last()) {
            Err(fault) => Err(fault),
            Ok(before) => match page_of(config, store, paths.last()) {
                Err(fault) => Err(fault),
                Ok(page) => Ok(before.push(page)),
            },
        }
    }
}

/// The pages of the directory `raw_dir`, a path below the content root: one
/// page for each entry that the listing keeps, by ascending creation time. A
/// fault where no directory stands at the path.
pub open spec fn directory_pages(config: SiteConfigView, store: Seq<EntryView>, raw_dir: Seq<char>) -> Result<
    Seq<PageView>,
    ContentError,
> {
    let dir = config.local_path() + raw_dir;
    if !directory_at(store, dir) {
        Err(ContentError::MissingDirectory)
    } else {
        match pages_at(
            config,
            store,
            page_paths(config, store, raw_dir, kept(store, dir, store.len() as int)),
        ) {
            Err(fault) => Err(fault),
            Ok(pages) => Ok(sorted_by_creation(pages)),
        }
    }
}

/// A fault among the first pages of a list of paths is the fault of the whole list.
proof fn unfinished_pages_stay_unfinished(
    config: SiteConfigView,
    store: Seq<EntryView>,
    paths: Seq<Seq<char>>,
    n: int,
)
    requires
        0 <= n <= paths.len(),
    ensures
        pages_at(config, store, paths.take(n)) matches Err(fault) ==> pages_at(config, store, paths)
            == Err::<Seq<PageView>, _>(fault),
    decreases paths.len() - n,
{
    if n < paths.len() {
        assert(paths.take(n + 1).drop_last() =~= paths.take(n));
        unfinished_pages_stay_unfinished(config, store, paths, n + 1);
    } else {
        assert(paths.take(n) =~= paths);
    }
}

/// Whether `text` is one of the strings of `list`.
fn is_among(list: &Vec<String>, text: &String) -> (r: bool)
    ensures
        r == list.deep_view().contains(text@),
{
    let mut i: usize = 0;
    while i < list.len()
        invariant
            i <= list.len(),
            forall|k: int| 0 <= k < i ==> list@[k]@ != text@,
        decreases list.len() - i,
    {
        if list[i] == *text {
            assert(list.deep_view()[i as int] == text@);
            return true;
        }
        i = i + 1;
    }
    assert forall|k: int| 0 <= k < list.deep_view().len() implies list.deep_view()[k] != text@ by {
        assert(list.deep_view()[k] == list@[k]@);
    }
    false
}

/// The page at `this_path`: see `page_of`.
fn page_at(config: &SiteConfig, store: &ContentStore, this_path: &str) -> (r: Result<
    PageContent,
    ContentError,
>)
    ensures
        match r {
            Ok(page) => page_of(config@, store@, this_path@) == Ok::<_, ContentError>(page@),
            Err(fault) => page_of(config@, store@, this_path@) == Err::<PageView, _>(fault),
        },
{
    let root = config.content_root();
    let place = append(root.as_str(), this_path);
    let mut busy = marks_for(store, place.as_str());
    resolve(config, store, this_path, &mut busy)
}

/// The paths below the content root of the entries that a listing of
/// `raw_dir` keeps.
fn listed_paths(config: &SiteConfig, store: &ContentStore, raw_dir: &str) -> (paths: Vec<String>)
    ensures
        paths.deep_view() == page_paths(
            config@,
            store@,
            raw_dir@,
            kept(store@, config@.local_path() + raw_dir@, store@.len() as int),
        ),
{
    let root = config.content_root();
    let root_len = chars_of(root.as_str()).len();
    let dir = append(root.as_str(), raw_dir);
    let mut seen: Vec<String> = Vec::new();
    let mut paths: Vec<String> = Vec::new();
    let ghost mut positions: Seq<int> = Seq::empty();
    let mut i: usize = 0;
    proof {
        assert(seen.deep_view() =~= stems_at(store@, positions));
        assert(paths.deep_view() =~= page_paths(config@, store@, raw_dir@, positions));
    }
    while i < store.entries.len()
        invariant
            i <= store.entries.len(),
            store@.len() == store.entries@.len(),
            root@ == config@.local_path(),
            root_len == root@.len(),
            dir@ == root@ + raw_dir@,
            positions == kept(store@, dir@, i as int),
            seen.deep_view() == stems_at(store@, positions),
            paths.deep_view() == page_paths(config@, store@, raw_dir@, positions),
        decreases store.entries.len() - i,
    {
        let entry = &store.entries[i];
        assert(store@[i as int] == entry@);
        let is_directory = match &entry.node {
            Node::Directory => true,
            _ => false,
        };
        if !is_directory {
            match child_name(entry.path.as_str(), dir.as_str()) {
                None => {},
                Some(name) => {
                    if !has_sidecar_extension(name.as_str()) {
                        let stem = path_file_stem(name.as_str());
                        if !is_among(&seen, &stem) {
                            let whole = entry_path_of(dir.as_str(), name.as_str());
                            let total = chars_of(whole.as_str()).len();
                            let below = cut(whole.as_str(), root_len, total);
                            let ghost old_seen = seen.deep_view();
                            let ghost old_paths = paths.deep_view();
                            seen.push(stem);
                            paths.push(below);
                            proof {
                                assert(whole@.skip(root_len as int) =~= whole@.subrange(
                                    root_len as int,
                                    total as int,
                                ));
                                let next = positions.push(i as int);
                                assert(seen.deep_view() =~= old_seen.push(stem@));
                                assert(paths.deep_view() =~= old_paths.push(below@));
                                assert(seen.deep_view() =~= stems_at(store@, next));
                                assert(paths.deep_view() =~= page_paths(
                                    config@,
                                    store@,
                                    raw_dir@,
                                    next,
                                ));
                                positions = next;
                            }
                        }
                    }
                },
            }
        }
        i = i + 1;
    }
    paths
}

/// The pages of the directory `raw_dir`, a path below the content root, by
/// ascending creation time.
///
/// Every entry that lies directly in the directory and is neither a
/// directory nor a sidecar is resolved as a page of its own, but of several
/// entries with one stem only the first. Faults: no directory stands at the
/// path; a fault of one of the pages.
pub fn read_full_dir_sorted(config: &SiteConfig, store: &ContentStore, raw_dir: String) -> (r: Result<
    Vec<PageContent>,
    ContentError,
>)
    ensures
        pages_outcome(r) == directory_pages(config@, store@, raw_dir@),
{
    let root = config.content_root();
    let content_dir = append(root.as_str(), raw_dir.as_str());
    if !store.is_dir(content_dir.as_str()) {
        return Err(ContentError::MissingDirectory);
    }
    let paths = listed_paths(config, store, raw_dir.as_str());
    let ghost wanted = paths.deep_view();
    let mut keyed: Vec<(i128, PageContent)> = Vec::new();
    let mut i: usize = 0;
    proof {
        assert(wanted.take(0) =~= Seq::<Seq<char>>::empty());
        assert(views(values_of(keyed@)) =~= Seq::<PageView>::empty());
        assert(keys_of(keyed@) =~= creation_keys(views(values_of(keyed@))));
    }
    while i < paths.len()
        invariant
            i <= paths.len(),
            wanted == paths.deep_view(),
            directory_at(store@, config@.local_path() + raw_dir@),
            wanted == page_paths(
                config@,
                store@,
                raw_dir@,
                kept(store@, config@.local_path() + raw_dir@, store@.len() as int),
            ),
            pages_at(config@, store@, wanted.take(i as int)) == Ok::<_, ContentError>(
                views(values_of(keyed@)),
            ),
            keys_of(keyed@) == creation_keys(views(values_of(keyed@))),
        decreases paths.len() - i,
    {
        let ghost done = wanted.take(i + 1);
        proof {
            assert(done.drop_last() =~= wanted.take(i as int));
            assert(done.last() == paths@[i as int]@);
            unfinished_pages_stay_unfinished(config@, store@, wanted, i + 1);
        }
        match page_at(config, store, paths[i].as_str()) {
            Err(fault) => {
                assert(pages_at(config@, store@, done) == Err::<Seq<PageView>, _>(fault));
                return Err(fault);
            },
            Ok(page) => {
                let ghost before = keyed@;
                let key = page.markdown.created.sort_key();
                keyed.push((key, page));
                proof {
                    assert(views(values_of(keyed@)) =~= views(values_of(before)).push(page@));
                    let old_keys = keys_of(before);
                    let old_times = creation_keys(views(values_of(before)));
                    assert forall|k: int| 0 <= k < keyed@.len() implies keys_of(keyed@)[k]
                        == creation_keys(views(values_of(keyed@)))[k] by {
                        if k < before.len() {
                            assert(old_keys[k] == old_times[k]);
                            assert(keyed@[k] == before[k]);
                        } else {
                            assert(page@.created == page.markdown.created);
                        }
                    }
                    assert(keys_of(keyed@) =~= creation_keys(views(values_of(keyed@))));
                }
            },
        }
        i = i + 1;
    }
    proof {
        assert(wanted.take(i as int) =~= wanted);
    }
    Ok(sort_pages(keyed))
}

/// Resolving a content list passes the reference over: nothing stands at its
/// place below the content root, or a directory does.
pub open spec fn is_passed_over(config: SiteConfigView, store: Seq<EntryView>, item: Seq<char>) -> bool {
    match node_at(store, config.local_path() + item) {
        None => true,
        Some(node) => node is Directory,
    }
}

/// The references of a list that resolving passes over, in the list's order.
pub open spec fn directly_passed_over(
    config: SiteConfigView,
    store: Seq<EntryView>,
    items: Seq<Seq<char>>,
) -> Seq<Seq<char>>
    decreases items.len(),
{
    if items.len() == 0 {
        Seq::empty()
    } else {
        let before = directly_passed_over(config, store, items.drop_last());
        if is_passed_over(config, store, items.last()) {
            before.push(items.last())
        } else {
            before
        }
    }
}

/// The references that resolving the page at `path` passes over, at every
/// depth, in the order in which resolving meets them, while the entries
/// marked in `busy` are being resolved: those of the page's content list. A
/// page whose metadata cannot be had has none.
pub open spec fn passed_over_by_page(
    config: SiteConfigView,
    store: Seq<EntryView>,
    path: Seq<char>,
    busy: Seq<bool>,
) -> Seq<Seq<char>>
    decreases free_count(busy), 1nat, 0nat,
    when busy.len() == store.len()
{
    match page_meta(store, config.local_path() + path) {
        Err(_) => Seq::empty(),
        Ok(meta) => passed_over_in_list(config, store, meta.content_list, busy),
    }
}

/// The references that resolving a content list passes over, at every depth
/// and in the order in which resolving meets them: a reference of the list
/// itself where nothing or a directory stands at its place, and for a
/// reference that leads to a page, what resolving that page passes over. A
/// reference to an entry that is being resolved adds nothing.
pub open spec fn passed_over_in_list(
    config: SiteConfigView,
    store: Seq<EntryView>,
    items: Seq<Seq<char>>,
    busy: Seq<bool>,
) -> Seq<Seq<char>>
    decreases free_count(busy), 0nat, items.len(),
    when busy.len() == store.len()
{
    if items.len() == 0 {
        Seq::empty()
    } else {
        let before = passed_over_in_list(config, store, items.drop_last(), busy);
        let item = items.last();
        match lookup(store, config.local_path() + item) {
            None => before.push(item),
            Some(at) => if store[at].node is Directory {
                before.push(item)
            } else if busy[at] {
                before
            } else {
                proof {
                    lookup_is_sound(store, config.local_path() + item);
                    marking_takes_one(busy, at);
                }
                before + passed_over_by_page(config, store, item, busy.update(at, true))
            },
        }
    }
}

/// The references that resolving the pages at the given paths passes over,
/// page after page.
pub open spec fn passed_over_by_pages(
    config: SiteConfigView,
    store: Seq<EntryView>,
    paths: Seq<Seq<char>>,
) -> Seq<Seq<char>>
    decreases paths.len(),
{
    if paths.len() == 0 {
        Seq::empty()
    } else {
        passed_over_by_pages(config, store, paths.drop_last()) + passed_over_by_page(
            config,
            store,
            paths.last(),
            busy_with(store, config.local_path() + paths.last()),
        )
    }
}

/// The marks at the start of resolving the page at `place`: see `busy_with`.
fn marks_for(store: &ContentStore, place: &str) -> (busy: Vec<bool>)
    ensures
        busy@ == busy_with(store@, place@),
{
    let own = store.find(place);
    let mut busy: Vec<bool> = Vec::new();
    let mut i: usize = 0;
    while i < store.len()
        invariant
            i <= store@.len(),
            busy@.len() == i,
            lookup(store@, place@) == match own {
                Some(at) => Some(at as int),
                None => None,
            },
            forall|k: int| 0 <= k < i ==> busy@[k] == (lookup(store@, place@) == Some(k)),
        decreases store@.len() - i,
    {
        let mark = match own {
            Some(at) => at == i,
            None => false,
        };
        busy.push(mark);
        i = i + 1;
    }
    assert(busy@ =~= busy_with(store@, place@));
    busy
}

/// Marks for a snapshot of which no entry is being resolved.
fn no_marks(store: &ContentStore) -> (busy: Vec<bool>)
    ensures
        busy@ == all_free(store@),
{
    let mut busy: Vec<bool> = Vec::new();
    let mut i: usize = 0;
    while i < store.len()
        invariant
            i <= store@.len(),
            busy@.len() == i,
            forall|k: int| 0 <= k < i ==> !busy@[k],
        decreases store@.len() - i,
    {
        busy.push(false);
        i = i + 1;
    }
    assert(busy@ =~= all_free(store@));
    busy
}

/// Adds to `notes` the references that resolving the page at `this_path`
/// passes over: see `passed_over_by_page`.
fn note_page(
    config: &SiteConfig,
    store: &ContentStore,
    this_path: &str,
    busy: &mut Vec<bool>,
    notes: &mut Vec<String>,
)
    requires
        old(busy)@.len() == store@.len(),
    ensures
        final(busy)@ == old(busy)@,
        final(notes).deep_view() == old(notes).deep_view() + passed_over_by_page(
            config@,
            store@,
            this_path@,
            old(busy)@,
        ),
    decreases free_count(old(busy)@), 1nat,
{
    let root = config.content_root();
    let place = append(root.as_str(), this_path);
    match read_page_meta(store, place.as_str()) {
        Err(_) => {
            assert(notes.deep_view() =~= old(notes).deep_view() + Seq::<Seq<char>>::empty());
        },
        Ok(meta) => {
            note_list(config, store, &meta.content_list, busy, notes);
        },
    }
}

/// Adds to `notes` the references that resolving a content list passes over:
/// see `passed_over_in_list`.
fn note_list(
    config: &SiteConfig,
    store: &ContentStore,
    items: &Vec<String>,
    busy: &mut Vec<bool>,
    notes: &mut Vec<String>,
)
    requires
        old(busy)@.len() == store@.len(),
    ensures
        final(busy)@ == old(busy)@,
        final(notes).deep_view() == old(notes).deep_view() + passed_over_in_list(
            config@,
            store@,
            items.deep_view(),
            old(busy)@,
        ),
    decreases free_count(old(busy)@), 0nat,
{
    let root = config.content_root();
    let ghost names = items.deep_view();
    let ghost start = notes.deep_view();
    let mut i: usize = 0;
    proof {
        assert(names.take(0) =~= Seq::<Seq<char>>::empty());
        assert(notes.deep_view() =~= start + Seq::<Seq<char>>::empty());
    }
    while i < items.len()
        invariant
            i <= items.len(),
            names == items.deep_view(),
            start == old(notes).deep_view(),
            root@ == config@.local_path(),
            busy@ == old(busy)@,
            busy@.len() == store@.len(),
            notes.deep_view() == start + passed_over_in_list(
                config@,
                store@,
                names.take(i as int),
                busy@,
            ),
        decreases items.len() - i,
    {
        let item = &items[i];
        let place = append(root.as_str(), item.as_str());
        let ghost done = names.take(i + 1);
        let ghost before = passed_over_in_list(config@, store@, names.take(i as int), busy@);
        let ghost noted = notes.deep_view();
        proof {
            assert(done.drop_last() =~= names.take(i as int));
            assert(done.last() == item@);
            lookup_is_sound(store@, place@);
        }
        let passed = match store.find(place.as_str()) {
            None => true,
            Some(at) => {
                assert(store@[at as int].node == store.entries@[at as int].node@);
                let is_directory = match &store.entries[at].node {
                    Node::Directory => true,
                    _ => false,
                };
                if !is_directory && !busy[at] {
                    let ghost marks = busy@;
                    proof {
                        marking_takes_one(marks, at as int);
                    }
                    busy.set(at, true);
                    note_page(config, store, item.as_str(), busy, notes);
                    busy.set(at, false);
                    proof {
                        assert(busy@ =~= marks);
                        let below = passed_over_by_page(
                            config@,
                            store@,
                            item@,
                            marks.update(at as int, true),
                        );
                        assert(notes.deep_view() =~= start + (before + below));
                    }
                }
                is_directory
            },
        };
        if passed {
            notes.push(item.clone());
            proof {
                assert(notes.deep_view() =~= noted.push(item@));
                assert(notes.deep_view() =~= start + before.push(item@));
            }
        }
        i = i + 1;
    }
    proof {
        assert(names.take(i as int) =~= names);
    }
}

/// The references that resolving a content list passes over, at every depth
/// and in the order in which resolving meets them: each names a place at
/// which nothing stands, or a directory. Resolving drops them and goes on;
/// this is the list to tell the site's keeper of.
pub fn references_passed_over(
    config: &SiteConfig,
    store: &ContentStore,
    list_o_content: &Vec<String>,
) -> (notes: Vec<String>)
    ensures
        notes.deep_view() == passed_over_in_list(
            config@,
            store@,
            list_o_content.deep_view(),
            all_free(store@),
        ),
{
    let mut busy = no_marks(store);
    let mut notes: Vec<String> = Vec::new();
    assert(notes.deep_view() =~= Seq::<Seq<char>>::empty());
    note_list(config, store, list_o_content, &mut busy, &mut notes);
    assert(Seq::<Seq<char>>::empty() + passed_over_in_list(
        config@,
        store@,
        list_o_content.deep_view(),
        all_free(store@),
    ) =~= passed_over_in_list(config@, store@, list_o_content.deep_view(), all_free(store@)));
    notes
}

/// The references that resolving the page at `this_path` passes over, at
/// every depth and in the order in which resolving meets them.
pub fn references_passed_over_by_page(config: &SiteConfig, store: &ContentStore, this_path: &str) -> (notes:
    Vec<String>)
    ensures
        notes.deep_view() == passed_over_by_page(
            config@,
            store@,
            this_path@,
            busy_with(store@, config@.local_path() + this_path@),
        ),
{
    let root = config.content_root();
    let place = append(root.as_str(), this_path);
    let mut busy = marks_for(store, place.as_str());
    let mut notes: Vec<String> = Vec::new();
    assert(notes.deep_view() =~= Seq::<Seq<char>>::empty());
    let ghost wanted = passed_over_by_page(config@, store@, this_path@, busy@);
    note_page(config, store, this_path, &mut busy, &mut notes);
    assert(Seq::<Seq<char>>::empty() + wanted =~= wanted);
    notes
}

/// The references that resolving the pages of the directory `raw_dir` passes
/// over, page after page in the order of the listing.
pub fn references_passed_over_in_directory(config: &SiteConfig, store: &ContentStore, raw_dir: &str) -> (notes:
    Vec<String>)
    ensures
        notes.deep_view() == passed_over_by_pages(
            config@,
            store@,
            page_paths(
                config@,
                store@,
                raw_dir@,
                kept(store@, config@.local_path() + raw_dir@, store@.len() as int),
            ),
        ),
{
    let root = config.content_root();
    let paths = listed_paths(config, store, raw_dir);
    let ghost wanted = paths.deep_view();
    let mut notes: Vec<String> = Vec::new();
    let mut i: usize = 0;
    proof {
        assert(wanted.take(0) =~= Seq::<Seq<char>>::empty());
        assert(notes.deep_view() =~= Seq::<Seq<char>>::empty());
    }
    while i < paths.len()
        invariant
            i <= paths.len(),
            wanted == paths.deep_view(),
            root@ == config@.local_path(),
            notes.deep_view() == passed_over_by_pages(config@, store@, wanted.take(i as int)),
        decreases paths.len() - i,
    {
        let place = append(root.as_str(), paths[i].as_str());
        let mut busy = marks_for(store, place.as_str());
        proof {
            let done = wanted.take(i + 1);
            assert(done.drop_last() =~= wanted.take(i as int));
            assert(done.last() == paths@[i as int]@);
        }
        note_page(config, store, paths[i].as_str(), &mut busy, &mut notes);
        i = i + 1;
    }
    proof {
        assert(wanted.take(i as int) =~= wanted);
    }
    notes
}

} // verus!
