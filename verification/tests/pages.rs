use n4::config::SiteConfig;
use n4::error::ContentError;
use n4::meta::ContentMeta;
use n4::page::{
    check_path_alternatives, does_content_exist, does_directory_exist, read_content_list,
    read_full_dir_sorted, read_markdown_from_path, read_single_page, references_passed_over,
    references_passed_over_by_page, references_passed_over_in_directory, MDContent, PageContent,
};
use n4::store::{how_to_read, ContentStore, Node, Reading};
use n4::time::UtcTime;

fn config() -> SiteConfig {
    SiteConfig {
        prod_host: "https://example.org".to_string(),
        xml_priority: "0.64".to_string(),
        base_dir: "site/".to_string(),
        local_content_dir: "/srv/".to_string(),
    }
}

fn add_file(store: &mut ContentStore, path: &str, secs: i64, text: &str) {
    store.insert(
        path.to_string(),
        Node::File { created: UtcTime::from_secs(secs), text: text.to_string() },
    );
}

fn add_meta(store: &mut ContentStore, path: &str, weight: u32, list: &[&str]) {
    let mut meta = ContentMeta::default();
    meta.weight = weight;
    meta.content_list = list.iter().map(|s| s.to_string()).collect();
    store.insert(path.to_string(), Node::ContentSidecar(Ok(meta)));
}

fn site() -> ContentStore {
    let mut store = ContentStore::new();
    store.insert("/srv/site".to_string(), Node::Directory);
    add_file(&mut store, "/srv/site/index.md", 300, "# Hi Mercury!");
    store.insert("/srv/site/docs".to_string(), Node::Directory);
    add_file(&mut store, "/srv/site/docs/guide.md", 200, "Some *text*.");
    add_meta(&mut store, "/srv/site/docs/guide.content_meta", 5, &["/other"]);
    add_file(&mut store, "/srv/site/docs/intro.md", 100, "Intro");
    store
}

fn titles(pages: &Vec<PageContent>) -> Vec<&str> {
    pages.iter().map(|p| p.markdown.title.as_str()).collect()
}

fn assert_default_meta(meta: &ContentMeta) {
    assert_eq!(meta.content_icon, "/static/images/content_default_icon.svg");
    assert_eq!(meta.description, "Default description value");
    assert_eq!(meta.timestamp_override, None);
    assert_eq!(meta.weight, 100);
    assert_eq!(meta.author, "Gatewaynode");
    assert_eq!(meta.license, "cc-by-sa");
    assert!(meta.content_list.is_empty());
    assert_eq!(meta.content_type, "page");
    assert_eq!(meta.content_class, "basic-page");
}

#[test]
fn page_without_sidecar_has_default_metadata() {
    let page = read_single_page(&config(), &site(), "index.md".to_string()).unwrap();
    assert_default_meta(&page.markdown.meta);
    assert!(page.markdown.list.is_empty());
}

#[test]
fn page_fields_come_from_the_content_file() {
    let page = read_single_page(&config(), &site(), "index.md".to_string()).unwrap();
    assert_eq!(page.markdown.title, "index");
    assert_eq!(page.markdown.path, "/index");
    assert_eq!(page.markdown.body, "<h1>Hi Mercury!</h1>");
    assert_eq!(page.markdown.created, UtcTime { secs: 300, nanos: 0 });
}

#[test]
fn markdown_is_rendered_not_copied() {
    let page = read_single_page(&config(), &site(), "docs/guide.md".to_string()).unwrap();
    assert_eq!(page.markdown.body, "<p>Some <em>text</em>.</p>");
    assert_eq!(page.markdown.path, "/docs/guide");
    assert_eq!(
        read_markdown_from_path(&site(), "/srv/site/docs/intro.md").unwrap(),
        "<p>Intro</p>"
    );
    assert_eq!(
        read_markdown_from_path(&site(), "/srv/site/docs/none.md"),
        Err(ContentError::MissingContent)
    );
}

#[test]
fn end_to_end_missing_reference_is_dropped() {
    let store = site();
    let guide = read_single_page(&config(), &store, "docs/guide.md".to_string()).unwrap();
    assert_eq!(guide.markdown.title, "guide");
    assert_eq!(guide.markdown.meta.weight, 5);
    assert_eq!(guide.markdown.meta.content_list, vec!["/other".to_string()]);
    assert!(guide.markdown.list.is_empty());
    assert_eq!(
        references_passed_over_by_page(&config(), &store, "docs/guide.md"),
        vec!["/other".to_string()]
    );
    let index = read_single_page(&config(), &store, "index.md".to_string()).unwrap();
    assert_default_meta(&index.markdown.meta);
    assert!(index.markdown.list.is_empty());
    assert!(references_passed_over_by_page(&config(), &store, "index.md").is_empty());
}

#[test]
fn malformed_sidecar_degrades_the_page() {
    let mut store = site();
    store.insert(
        "/srv/site/index.content_meta".to_string(),
        Node::ContentSidecar(Err("key must be a string at line 1 column 2".to_string())),
    );
    let page = read_single_page(&config(), &store, "index.md".to_string()).unwrap();
    let meta = &page.markdown.meta;
    assert!(meta.description.contains("JSON Parse Error"));
    assert_eq!(meta.description, "JSON Parse Error: key must be a string at line 1 column 2");
    assert_eq!(meta.content_icon, "/static/images/content_default_icon.svg");
    assert_eq!(meta.weight, 100);
    assert_eq!(meta.author, "Gatewaynode");
    assert_eq!(meta.license, "cc-by-sa");
    assert!(meta.content_list.is_empty());
    assert_eq!(meta.content_type, "page");
    assert_eq!(meta.content_class, "basic-page");
    assert_eq!(page.markdown.title, "index");
}

#[test]
fn content_list_is_sorted_by_weight_with_stable_ties() {
    let mut store = ContentStore::new();
    add_file(&mut store, "/srv/site/top.md", 1, "top");
    add_meta(
        &mut store,
        "/srv/site/top.content_meta",
        1,
        &["a.md", "b.md", "c.md", "d.md", "e.md"],
    );
    for (name, weight) in [("a", 50u32), ("b", 10), ("c", 50), ("d", 10), ("e", 7)] {
        add_file(&mut store, &format!("/srv/site/{}.md", name), 1, name);
        add_meta(&mut store, &format!("/srv/site/{}.content_meta", name), weight, &[]);
    }
    let page = read_single_page(&config(), &store, "top.md".to_string()).unwrap();
    assert_eq!(titles(&page.markdown.list), vec!["e", "b", "d", "a", "c"]);
    let list = vec!["c.md".to_string(), "a.md".to_string(), "b.md".to_string()];
    let pages = read_content_list(&config(), &store, &list).unwrap();
    assert_eq!(titles(&pages), vec!["b", "c", "a"]);
}

#[test]
fn content_list_skips_directories_and_missing_files() {
    let mut store = site();
    add_meta(
        &mut store,
        "/srv/site/index.content_meta",
        1,
        &["docs", "docs/none.md", "docs/intro.md", "/docs/guide.md"],
    );
    let page = read_single_page(&config(), &store, "index.md".to_string()).unwrap();
    assert_eq!(titles(&page.markdown.list), vec!["guide", "intro"]);
    assert_eq!(page.markdown.list[0].markdown.path, "/docs/guide");
}

#[test]
fn content_lists_nest() {
    let mut store = ContentStore::new();
    add_file(&mut store, "/srv/site/a.md", 1, "a");
    add_meta(&mut store, "/srv/site/a.content_meta", 1, &["b.md"]);
    add_file(&mut store, "/srv/site/b.md", 1, "b");
    add_meta(&mut store, "/srv/site/b.content_meta", 1, &["c.md", "d.md"]);
    add_file(&mut store, "/srv/site/c.md", 1, "c");
    add_meta(&mut store, "/srv/site/c.content_meta", 9, &[]);
    add_file(&mut store, "/srv/site/d.md", 1, "d");
    add_meta(&mut store, "/srv/site/d.content_meta", 3, &[]);
    let a = read_single_page(&config(), &store, "a.md".to_string()).unwrap();
    assert_eq!(titles(&a.markdown.list), vec!["b"]);
    assert_eq!(titles(&a.markdown.list[0].markdown.list), vec!["d", "c"]);
}

#[test]
fn same_page_may_be_listed_twice() {
    let mut store = ContentStore::new();
    add_file(&mut store, "/srv/site/a.md", 1, "a");
    add_meta(&mut store, "/srv/site/a.content_meta", 1, &["b.md", "b.md"]);
    add_file(&mut store, "/srv/site/b.md", 1, "b");
    let a = read_single_page(&config(), &store, "a.md".to_string()).unwrap();
    assert_eq!(titles(&a.markdown.list), vec!["b", "b"]);
}

#[test]
fn cyclic_content_list_is_a_fault() {
    let mut store = ContentStore::new();
    add_file(&mut store, "/srv/site/a.md", 1, "a");
    add_meta(&mut store, "/srv/site/a.content_meta", 1, &["b.md"]);
    add_file(&mut store, "/srv/site/b.md", 1, "b");
    add_meta(&mut store, "/srv/site/b.content_meta", 1, &["a.md"]);
    add_file(&mut store, "/srv/site/self.md", 1, "self");
    add_meta(&mut store, "/srv/site/self.content_meta", 1, &["//self.md"]);
    assert_eq!(
        read_single_page(&config(), &store, "a.md".to_string()).unwrap_err(),
        ContentError::CyclicReference
    );
    assert_eq!(
        read_single_page(&config(), &store, "self.md".to_string()).unwrap_err(),
        ContentError::CyclicReference
    );
    assert_eq!(
        read_content_list(&config(), &store, &vec!["b.md".to_string()]).unwrap_err(),
        ContentError::CyclicReference
    );
}

#[test]
fn missing_content_file_is_a_fault() {
    assert_eq!(
        read_single_page(&config(), &site(), "docs/none.md".to_string()).unwrap_err(),
        ContentError::MissingContent
    );
    assert_eq!(
        read_single_page(&config(), &site(), "docs.md".to_string()).unwrap_err(),
        ContentError::MissingContent
    );
}

#[test]
fn other_extension_gives_the_default_page() {
    let mut store = site();
    add_file(&mut store, "/srv/site/docs/notes.txt", 50, "plain");
    add_meta(&mut store, "/srv/site/docs/notes.content_meta", 42, &[]);
    let page = read_single_page(&config(), &store, "docs/notes.txt".to_string()).unwrap();
    assert_eq!(page.markdown.title, "None");
    assert_eq!(page.markdown.body, "None");
    assert_eq!(page.markdown.path, "/");
    assert_eq!(page.markdown.created, UtcTime { secs: 0, nanos: 0 });
    assert_eq!(page.markdown.meta.weight, 42);
    let bare = read_single_page(&config(), &store, "docs/README".to_string()).unwrap();
    assert_eq!(bare.markdown.title, "None");
    assert_default_meta(&bare.markdown.meta);
}

#[test]
fn something_else_at_sidecar_path_is_a_fault() {
    let mut store = site();
    store.insert("/srv/site/index.content_meta".to_string(), Node::Directory);
    assert_eq!(
        read_single_page(&config(), &store, "index.md".to_string()).unwrap_err(),
        ContentError::UnreadableSidecar
    );
}

#[test]
fn directory_is_sorted_by_creation_time() {
    let pages = read_full_dir_sorted(&config(), &site(), "docs".to_string()).unwrap();
    assert_eq!(titles(&pages), vec!["intro", "guide"]);
    assert_eq!(pages[0].markdown.created, UtcTime { secs: 100, nanos: 0 });
    assert_eq!(pages[1].markdown.created, UtcTime { secs: 200, nanos: 0 });
    assert_eq!(pages[1].markdown.meta.weight, 5);
    assert_eq!(pages[0].markdown.path, "/docs/intro");
}

#[test]
fn directory_listing_is_repeatable() {
    let store = site();
    let first = read_full_dir_sorted(&config(), &store, "docs".to_string()).unwrap();
    let second = read_full_dir_sorted(&config(), &store, "docs".to_string()).unwrap();
    assert_eq!(format!("{:?}", first), format!("{:?}", second));
}

#[test]
fn directory_listing_leaves_out_sidecars_and_subdirectories() {
    let mut store = site();
    store.insert("/srv/site/docs/deep".to_string(), Node::Directory);
    add_file(&mut store, "/srv/site/docs/deep/far.md", 1, "far");
    let pages = read_full_dir_sorted(&config(), &store, "docs/".to_string()).unwrap();
    assert_eq!(titles(&pages), vec!["intro", "guide"]);
    let root = read_full_dir_sorted(&config(), &store, "".to_string()).unwrap();
    assert_eq!(titles(&root), vec!["index"]);
}

#[test]
fn directory_listing_keeps_first_entry_of_a_stem() {
    let mut store = site();
    add_file(&mut store, "/srv/site/docs/guide.png", 1, "");
    add_file(&mut store, "/srv/site/docs/logo.png", 150, "");
    let pages = read_full_dir_sorted(&config(), &store, "docs".to_string()).unwrap();
    assert_eq!(titles(&pages), vec!["None", "intro", "guide"]);
}

#[test]
fn directory_listing_with_equal_times_keeps_snapshot_order() {
    let mut store = ContentStore::new();
    store.insert("/srv/site/".to_string(), Node::Directory);
    add_file(&mut store, "/srv/site/b.md", 7, "b");
    add_file(&mut store, "/srv/site/a.md", 7, "a");
    add_file(&mut store, "/srv/site/c.md", 3, "c");
    let pages = read_full_dir_sorted(&config(), &store, "".to_string()).unwrap();
    assert_eq!(titles(&pages), vec!["c", "b", "a"]);
}

#[test]
fn listing_a_missing_directory_is_a_fault() {
    assert_eq!(
        read_full_dir_sorted(&config(), &site(), "nowhere".to_string()).unwrap_err(),
        ContentError::MissingDirectory
    );
    assert_eq!(
        read_full_dir_sorted(&config(), &site(), "index.md".to_string()).unwrap_err(),
        ContentError::MissingDirectory
    );
}

#[test]
fn listing_fails_with_the_fault_of_a_page() {
    let mut store = site();
    add_meta(&mut store, "/srv/site/docs/intro.content_meta", 1, &["docs/intro.md"]);
    assert_eq!(
        read_full_dir_sorted(&config(), &store, "docs".to_string()).unwrap_err(),
        ContentError::CyclicReference
    );
}

#[test]
fn existence_checks() {
    let store = site();
    assert!(does_content_exist(&config(), &store, "docs/guide"));
    assert!(does_content_exist(&config(), &store, "/docs//guide"));
    assert!(!does_content_exist(&config(), &store, "docs/none"));
    assert!(does_directory_exist(&config(), &store, "docs"));
    assert!(does_directory_exist(&config(), &store, "docs/"));
    assert!(does_directory_exist(&config(), &store, ""));
    assert!(!does_directory_exist(&config(), &store, "docs/guide.md"));
    assert!(!does_directory_exist(&config(), &store, "nowhere"));
    assert!(check_path_alternatives(&store, "/srv/site/docs/guide.md", ".content_meta"));
    assert!(!check_path_alternatives(&store, "/srv/site/index.md", ".content_meta"));
}

#[test]
fn first_entry_for_a_place_counts() {
    let mut store = ContentStore::new();
    add_file(&mut store, "/srv/site/a.md", 1, "first");
    add_file(&mut store, "/srv//site/a.md/", 2, "second");
    assert_eq!(store.len(), 2);
    assert_eq!(store.find("/srv/site//a.md"), Some(0));
    assert_eq!(store.find("/srv/site/b.md"), None);
    assert!(store.holds("/srv/site/a.md"));
    assert!(!store.is_dir("/srv/site/a.md"));
    let page = read_single_page(&config(), &store, "a.md".to_string()).unwrap();
    assert_eq!(page.markdown.body, "<p>first</p>");
}

#[test]
fn default_page_values() {
    let page = PageContent::default();
    assert_eq!(page.markdown.title, "None");
    assert_eq!(page.markdown.path, "/");
    assert_eq!(page.markdown.body, "None");
    assert_eq!(page.markdown.created, UtcTime::epoch());
    assert!(page.markdown.list.is_empty());
    assert_default_meta(&page.markdown.meta);
    assert_eq!(MDContent::default().title, "None");
}

#[test]
fn names_decide_how_files_are_read() {
    assert_eq!(how_to_read("guide.content_meta"), Reading::ContentSidecar);
    assert_eq!(how_to_read("docs.menu_meta"), Reading::MenuSidecar);
    assert_eq!(how_to_read("guide.md"), Reading::Text);
    assert_eq!(how_to_read("content_meta"), Reading::Text);
}

#[test]
fn missing_reference_is_given_back_as_passed_over() {
    let store = site();
    let list = vec!["/other".to_string()];
    assert!(read_content_list(&config(), &store, &list).unwrap().is_empty());
    assert_eq!(references_passed_over(&config(), &store, &list), vec!["/other".to_string()]);
}

#[test]
fn passed_over_references_come_in_the_order_of_resolving() {
    let mut store = site();
    add_file(&mut store, "/srv/site/a.md", 1, "a");
    add_meta(&mut store, "/srv/site/a.content_meta", 1, &["first", "b.md", "docs", "docs/intro.md"]);
    add_file(&mut store, "/srv/site/b.md", 1, "b");
    add_meta(&mut store, "/srv/site/b.content_meta", 1, &["gone.md", "docs/"]);
    let page = read_single_page(&config(), &store, "a.md".to_string()).unwrap();
    assert_eq!(titles(&page.markdown.list), vec!["b", "intro"]);
    assert_eq!(
        references_passed_over_by_page(&config(), &store, "a.md"),
        vec!["first".to_string(), "gone.md".to_string(), "docs/".to_string(), "docs".to_string()]
    );
    let list = vec!["b.md".to_string(), "index.md".to_string()];
    assert_eq!(
        references_passed_over(&config(), &store, &list),
        vec!["gone.md".to_string(), "docs/".to_string()]
    );
}

#[test]
fn reference_to_a_page_being_resolved_is_not_passed_over() {
    let mut store = ContentStore::new();
    add_file(&mut store, "/srv/site/a.md", 1, "a");
    add_meta(&mut store, "/srv/site/a.content_meta", 1, &["a.md", "none"]);
    assert_eq!(
        references_passed_over_by_page(&config(), &store, "a.md"),
        vec!["none".to_string()]
    );
}

#[test]
fn directory_listing_gives_back_what_its_pages_pass_over() {
    let mut store = site();
    add_meta(&mut store, "/srv/site/docs/intro.content_meta", 1, &["nowhere", "docs/guide.md"]);
    assert_eq!(
        references_passed_over_in_directory(&config(), &store, "docs"),
        vec!["/other".to_string(), "nowhere".to_string(), "/other".to_string()]
    );
    assert!(references_passed_over_in_directory(&config(), &store, "").is_empty());
}

#[test]
fn sidecar_of_a_file_named_only_md() {
    let mut store = ContentStore::new();
    add_meta(&mut store, "docs/.content_meta", 3, &[]);
    assert!(check_path_alternatives(&store, "docs/.md", ".content_meta"));
    assert!(!check_path_alternatives(&store, "docs/x.md", ".content_meta"));
}
