//! What holds of every page, list and listing that the engine resolves.

use vstd::prelude::*;
use crate::config::SiteConfigView;
use crate::error::ContentError;
use crate::meta::{ContentMetaView, default_content_meta, parse_fault_description};
use crate::page::{
    PageContent, PageView, all_free, busy_with, content_list_of, content_sidecar_path,
    creation_keys, directly_passed_over, directory_pages, free_count, is_listed, is_passed_over,
    kept, marking_takes_one, page_content, page_meta, page_of, page_path_in, page_paths, pages_at,
    pages_outcome, passed_over_in_list, resolve_list, resolve_page, sorted_by_creation,
    sorted_by_weight, stem_of, stems_at, weights,
};
use crate::paths::{
    child_is_at_entry_path, entry_path, is_content_path, last_segment, same_place, web_path,
};
use crate::sort::{arranged, is_stable_order, stable_order, stable_order_is_stable};
use crate::store::{EntryView, NodeView, lookup, lookup_is_sound, node_at};
use crate::text::{occurs_at, position, starts_with};

verus! {

/// The pages stand by ascending weight.
pub open spec fn in_weight_order(pages: Seq<PageView>) -> bool {
    forall|i: int, j: int|
        0 <= i < j < pages.len() ==> (#[trigger] pages[i]).meta.weight <= (
        #[trigger] pages[j]).meta.weight
}

/// The pages stand by ascending creation time.
pub open spec fn in_creation_order(pages: Seq<PageView>) -> bool {
    forall|i: int, j: int|
        0 <= i < j < pages.len() ==> (#[trigger] pages[i]).created.order_key() <= (
        #[trigger] pages[j]).created.order_key()
}

/// The list of the page stands by ascending weight, and so does the list of
/// every page in it, at every depth.
pub open spec fn lists_in_weight_order(page: PageView) -> bool
    decreases page,
{
    &&& in_weight_order(page.list)
    &&& forall|i: int| 0 <= i < page.list.len() ==> lists_in_weight_order(#[trigger] page.list[i])
}

/// The base directory occurs in every place below the content root, so every
/// such place has a web path.
pub proof fn place_has_web_path(config: SiteConfigView, path: Seq<char>)
    ensures
        web_path(config.local_path() + path, config.base_dir) is Some,
{
    let place = config.local_path() + path;
    let at = config.local_content_dir.len() as int;
    assert(place.subrange(at, at + config.base_dir.len()) =~= config.base_dir);
    assert(occurs_at(place, config.base_dir, at));
}

/// Sorting by weight puts the pages in weight order, pages of equal weight in
/// the order in which the content list named them: each page of the result is
/// the page at the position that the stable order of the weights gives.
pub proof fn weight_order_is_stable(pages: Seq<PageView>)
    ensures
        is_stable_order(stable_order(weights(pages)), weights(pages)),
        sorted_by_weight(pages) == arranged(pages, stable_order(weights(pages))),
        sorted_by_weight(pages).len() == pages.len(),
        in_weight_order(sorted_by_weight(pages)),
{
    let keys = weights(pages);
    let order = stable_order(keys);
    stable_order_is_stable(keys);
    let sorted = sorted_by_weight(pages);
    assert forall|i: int, j: int| 0 <= i < j < sorted.len() implies (#[trigger] sorted[i]).meta.weight
        <= (#[trigger] sorted[j]).meta.weight by {
        assert(keys[order[i]] <= keys[order[j]]);
    }
}

/// Sorting by creation time puts the pages in the order of their creation.
pub proof fn creation_order_is_stable(pages: Seq<PageView>)
    ensures
        is_stable_order(stable_order(creation_keys(pages)), creation_keys(pages)),
        sorted_by_creation(pages).len() == pages.len(),
        in_creation_order(sorted_by_creation(pages)),
{
    let keys = creation_keys(pages);
    let order = stable_order(keys);
    stable_order_is_stable(keys);
    let sorted = sorted_by_creation(pages);
    assert forall|i: int, j: int|
        0 <= i < j < sorted.len() implies (#[trigger] sorted[i]).created.order_key() <= (
    #[trigger] sorted[j]).created.order_key() by {
        assert(keys[order[i]] <= keys[order[j]]);
    }
}

/// Every page that is resolved has its list in weight order, and so has
/// every page in that list, at every depth.
pub proof fn resolved_lists_are_in_weight_order(
    config: SiteConfigView,
    store: Seq<EntryView>,
    path: Seq<char>,
    busy: Seq<bool>,
)
    requires
        busy.len() == store.len(),
    ensures
        resolve_page(config, store, path, busy) matches Ok(page) ==> lists_in_weight_order(page),
    decreases free_count(busy), 1nat, 0nat,
{
    let place = config.local_path() + path;
    if let Ok(page) = resolve_page(config, store, path, busy) {
        let meta = page_meta(store, place).unwrap();
        let pages = resolve_list(config, store, meta.content_list, busy).unwrap();
        listed_pages_are_in_weight_order(config, store, meta.content_list, busy);
        weight_order_is_stable(pages);
        let order = stable_order(weights(pages));
        assert(page.list == sorted_by_weight(pages));
        assert forall|i: int| 0 <= i < page.list.len() implies lists_in_weight_order(
            #[trigger] page.list[i],
        ) by {
            assert(0 <= order[i] < pages.len());
            assert(page.list[i] == pages[order[i]]);
        }
    }
}

/// Every page of a resolved content list has its lists in weight order.
pub proof fn listed_pages_are_in_weight_order(
    config: SiteConfigView,
    store: Seq<EntryView>,
    items: Seq<Seq<char>>,
    busy: Seq<bool>,
)
    requires
        busy.len() == store.len(),
    ensures
        resolve_list(config, store, items, busy) matches Ok(pages) ==> forall|k: int|
            0 <= k < pages.len() ==> lists_in_weight_order(#[trigger] pages[k]),
    decreases free_count(busy), 0nat, items.len(),
{
    if items.len() > 0 {
        listed_pages_are_in_weight_order(config, store, items.drop_last(), busy);
        if let Ok(pages) = resolve_list(config, store, items, busy) {
            let before = resolve_list(config, store, items.drop_last(), busy).unwrap();
            let item = items.last();
            lookup_is_sound(store, config.local_path() + item);
            match lookup(store, config.local_path() + item) {
                None => {},
                Some(at) => {
                    if !(store[at].node is Directory) && !busy[at] {
                        marking_takes_one(busy, at);
                        resolved_lists_are_in_weight_order(
                            config,
                            store,
                            item,
                            busy.update(at, true),
                        );
                        let page = resolve_page(config, store, item, busy.update(at, true)).unwrap();
                        assert(pages == before.push(page));
                        assert forall|k: int| 0 <= k < pages.len() implies lists_in_weight_order(
                            #[trigger] pages[k],
                        ) by {
                            if k < before.len() {
                                assert(pages[k] == before[k]);
                            }
                        }
                    }
                },
            }
        }
    }
}

/// A page that is asked for has its list in weight order at every depth.
pub proof fn pages_have_lists_in_weight_order(
    config: SiteConfigView,
    store: Seq<EntryView>,
    path: Seq<char>,
)
    ensures
        page_of(config, store, path) matches Ok(page) ==> lists_in_weight_order(page),
{
    resolved_lists_are_in_weight_order(
        config,
        store,
        path,
        busy_with(store, config.local_path() + path),
    );
}

/// A content list comes out in weight order, pages of equal weight in the
/// order in which the list named them.
pub proof fn content_lists_are_in_weight_order(
    config: SiteConfigView,
    store: Seq<EntryView>,
    items: Seq<Seq<char>>,
)
    ensures
        content_list_of(config, store, items) matches Ok(pages) ==> in_weight_order(pages),
{
    if let Ok(pages) = resolve_list(config, store, items, all_free(store)) {
        weight_order_is_stable(pages);
    }
}

/// The pages of a directory come out in the order of their creation.
pub proof fn directory_pages_are_in_creation_order(
    config: SiteConfigView,
    store: Seq<EntryView>,
    raw_dir: Seq<char>,
)
    ensures
        directory_pages(config, store, raw_dir) matches Ok(pages) ==> in_creation_order(pages),
{
    if let Ok(sorted) = directory_pages(config, store, raw_dir) {
        let dir = config.local_path() + raw_dir;
        let paths = page_paths(config, store, raw_dir, kept(store, dir, store.len() as int));
        let pages = pages_at(config, store, paths).unwrap();
        creation_order_is_stable(pages);
    }
}

/// Two listings of one directory against one snapshot come out the same, in
/// every value of every page.
pub proof fn directory_listing_is_repeatable(
    config: SiteConfigView,
    store: Seq<EntryView>,
    raw_dir: Seq<char>,
    first: Result<Vec<PageContent>, ContentError>,
    second: Result<Vec<PageContent>, ContentError>,
)
    requires
        pages_outcome(first) == directory_pages(config, store, raw_dir),
        pages_outcome(second) == directory_pages(config, store, raw_dir),
    ensures
        pages_outcome(first) == pages_outcome(second),
{
}

/// A content file without a sidecar resolves, and to a page with the default
/// metadata, unchanged, and an empty list.
pub proof fn page_without_sidecar_has_default_metadata(
    config: SiteConfigView,
    store: Seq<EntryView>,
    path: Seq<char>,
)
    requires
        is_content_path(config.local_path() + path),
        node_at(store, config.local_path() + path) matches Some(NodeView::File { .. }),
        node_at(store, content_sidecar_path(config.local_path() + path)) is None,
    ensures
        page_of(config, store, path) matches Ok(page) && page.meta == default_content_meta()
            && page.list == Seq::<PageView>::empty(),
{
    let place = config.local_path() + path;
    let busy = busy_with(store, place);
    place_has_web_path(config, path);
    assert(page_content(config, store, place) is Ok);
    assert(page_meta(store, place) == Ok::<_, ContentError>(default_content_meta()));
    let none = Seq::<PageView>::empty();
    assert(resolve_list(config, store, default_content_meta().content_list, busy) == Ok::<
        _,
        ContentError,
    >(none));
    assert(sorted_by_weight(none) =~= none);
}

/// A content file whose sidecar could not be decoded still resolves: to a
/// page whose description opens with `JSON Parse Error`, carries the
/// decoder's words and differs from the default, whose other metadata are the
/// defaults, and whose list is empty.
pub proof fn page_with_malformed_sidecar_is_degraded(
    config: SiteConfigView,
    store: Seq<EntryView>,
    path: Seq<char>,
    why: Seq<char>,
)
    requires
        is_content_path(config.local_path() + path),
        node_at(store, config.local_path() + path) matches Some(NodeView::File { .. }),
        node_at(store, content_sidecar_path(config.local_path() + path)) == Some(
            NodeView::ContentSidecar(Err(why)),
        ),
    ensures
        page_of(config, store, path) matches Ok(page) && page.meta == (ContentMetaView {
            description: parse_fault_description(why),
            ..default_content_meta()
        }) && page.list == Seq::<PageView>::empty(),
        starts_with(parse_fault_description(why), "JSON Parse Error"@),
        parse_fault_description(why) != default_content_meta().description,
{
    let place = config.local_path() + path;
    let busy = busy_with(store, place);
    place_has_web_path(config, path);
    assert(page_content(config, store, place) is Ok);
    let meta = ContentMetaView {
        description: parse_fault_description(why),
        ..default_content_meta()
    };
    assert(page_meta(store, place) == Ok::<_, ContentError>(meta));
    let none = Seq::<PageView>::empty();
    assert(resolve_list(config, store, meta.content_list, busy) == Ok::<_, ContentError>(none));
    assert(sorted_by_weight(none) =~= none);
    reveal_strlit("JSON Parse Error: ");
    reveal_strlit("JSON Parse Error");
    reveal_strlit("Default description value");
    let text = parse_fault_description(why);
    assert(text.subrange(0, 16) =~= "JSON Parse Error"@);
    assert(text[0] == 'J');
    assert(default_content_meta().description[0] == 'D');
}

/// The page that a listing resolves for an entry is that entry's: the path
/// that the listing hands to the resolver leads, from the content root, to
/// the place of the entry.
pub proof fn listed_page_is_the_entry(
    config: SiteConfigView,
    store: Seq<EntryView>,
    raw_dir: Seq<char>,
    at: int,
)
    requires
        0 <= at < store.len(),
        is_listed(store[at], config.local_path() + raw_dir),
    ensures
        same_place(
            config.local_path() + page_path_in(
                config.local_path(),
                raw_dir,
                last_segment(store[at].path),
            ),
            store[at].path,
        ),
{
    let root = config.local_path();
    let dir = root + raw_dir;
    let name = last_segment(store[at].path);
    child_is_at_entry_path(store[at].path, dir);
    let whole = entry_path(dir, name);
    assert(root + whole.skip(root.len() as int) =~= whole);
}

/// What a listing keeps: positions of listed entries, in ascending order, no
/// two with one stem; and no listed entry has a stem that none of the kept
/// entries has.
pub proof fn listing_keeps_one_entry_per_stem(store: Seq<EntryView>, dir: Seq<char>, n: int)
    requires
        0 <= n <= store.len(),
    ensures
        forall|k: int|
            0 <= k < kept(store, dir, n).len() ==> 0 <= #[trigger] kept(store, dir, n)[k] < n
                && is_listed(store[kept(store, dir, n)[k]], dir),
        forall|a: int, b: int|
            0 <= a < b < kept(store, dir, n).len() ==> #[trigger] kept(store, dir, n)[a]
                < #[trigger] kept(store, dir, n)[b] && stem_of(store[kept(store, dir, n)[a]])
                != stem_of(store[kept(store, dir, n)[b]]),
        forall|i: int|
            0 <= i < n && is_listed(#[trigger] store[i], dir) ==> stems_at(
                store,
                kept(store, dir, n),
            ).contains(stem_of(store[i])),
    decreases n,
{
    if n > 0 {
        listing_keeps_one_entry_per_stem(store, dir, n - 1);
        let before = kept(store, dir, n - 1);
        let after = kept(store, dir, n);
        let stems = stems_at(store, before);
        let last = n - 1;
        if is_listed(store[last], dir) && !stems.contains(stem_of(store[last])) {
            assert(after == before.push(last));
            assert forall|a: int, b: int| 0 <= a < b < after.len() implies #[trigger] after[a]
                < #[trigger] after[b] && stem_of(store[after[a]]) != stem_of(store[after[b]]) by {
                if b == after.len() - 1 {
                    assert(after[a] == before[a]);
                    assert(stems[a] == stem_of(store[before[a]]));
                } else {
                    assert(after[a] == before[a] && after[b] == before[b]);
                }
            }
            assert forall|i: int| 0 <= i < n && is_listed(#[trigger] store[i], dir) implies stems_at(
                store,
                after,
            ).contains(stem_of(store[i])) by {
                if i == last {
                    assert(stems_at(store, after)[after.len() - 1] == stem_of(store[last]));
                } else {
                    let k = choose|k: int| 0 <= k < stems.len() && stems[k] == stem_of(store[i]);
                    assert(stems_at(store, after)[k] == stem_of(store[i]));
                }
            }
        } else {
            assert(after == before);
            assert forall|i: int| 0 <= i < n && is_listed(#[trigger] store[i], dir) implies stems_at(
                store,
                after,
            ).contains(stem_of(store[i])) by {}
        }
    }
}

/// Every reference of a content list that resolves gives one page, and every
/// other one is passed over: the pages and the references passed over make up
/// the list.
pub proof fn pages_and_passed_over_make_up_the_list(
    config: SiteConfigView,
    store: Seq<EntryView>,
    items: Seq<Seq<char>>,
    busy: Seq<bool>,
)
    requires
        busy.len() == store.len(),
    ensures
        resolve_list(config, store, items, busy) matches Ok(pages) ==> pages.len()
            + directly_passed_over(config, store, items).len() == items.len(),
    decreases items.len(),
{
    if items.len() > 0 {
        pages_and_passed_over_make_up_the_list(config, store, items.drop_last(), busy);
        lookup_is_sound(store, config.local_path() + items.last());
    }
}

/// A content list of references that lead nowhere, or to directories,
/// resolves without a fault to no page at all, and every one of its
/// references is given back as passed over, in the list's order.
pub proof fn references_that_lead_nowhere_are_passed_over(
    config: SiteConfigView,
    store: Seq<EntryView>,
    items: Seq<Seq<char>>,
    busy: Seq<bool>,
)
    requires
        busy.len() == store.len(),
        forall|k: int| 0 <= k < items.len() ==> is_passed_over(config, store, #[trigger] items[k]),
    ensures
        resolve_list(config, store, items, busy) == Ok::<_, ContentError>(Seq::<PageView>::empty()),
        passed_over_in_list(config, store, items, busy) == items,
        directly_passed_over(config, store, items) == items,
    decreases items.len(),
{
    if items.len() > 0 {
        let init = items.drop_last();
        assert forall|k: int| 0 <= k < init.len() implies is_passed_over(
            config,
            store,
            #[trigger] init[k],
        ) by {
            assert(init[k] == items[k]);
        }
        references_that_lead_nowhere_are_passed_over(config, store, init, busy);
        assert(is_passed_over(config, store, items[items.len() - 1]));
        lookup_is_sound(store, config.local_path() + items.last());
        assert(init.push(items.last()) =~= items);
    } else {
        assert(items =~= Seq::<Seq<char>>::empty());
    }
}

/// Whatever a content list itself passes over is among the references that
/// resolving it gives back.
pub proof fn passed_over_holds_the_lists_own(
    config: SiteConfigView,
    store: Seq<EntryView>,
    items: Seq<Seq<char>>,
    busy: Seq<bool>,
    k: int,
)
    requires
        busy.len() == store.len(),
        0 <= k < items.len(),
        is_passed_over(config, store, items[k]),
    ensures
        passed_over_in_list(config, store, items, busy).contains(items[k]),
    decreases items.len(),
{
    let init = items.drop_last();
    let before = passed_over_in_list(config, store, init, busy);
    let whole = passed_over_in_list(config, store, items, busy);
    lookup_is_sound(store, config.local_path() + items.last());
    if k < items.len() - 1 {
        passed_over_holds_the_lists_own(config, store, init, busy, k);
        assert(init[k] == items[k]);
        let at = choose|at: int| 0 <= at < before.len() && before[at] == items[k];
        assert(whole[at] == before[at]);
    } else {
        assert(whole == before.push(items.last()));
        assert(whole[before.len() as int] == items[k]);
    }
}

} // verus!
