use n4::config::SiteConfig;
use n4::error::ContentError;
use n4::menu::{add_menu_metadata, tree_to_menus, MenuEntry, MenuItem};
use n4::meta::MenuItemMeta;
use n4::store::{ContentStore, Node};
use n4::time::UtcTime;
use n4::tree::{DirEntry, DirTree, FileEntry, FileMeta};

fn config() -> SiteConfig {
    SiteConfig {
        prod_host: "https://example.org".to_string(),
        xml_priority: "0.64".to_string(),
        base_dir: "site/".to_string(),
        local_content_dir: "/srv/".to_string(),
    }
}

fn file(name: &str) -> FileEntry {
    FileEntry { name: name.to_string(), meta: FileMeta { modified: UtcTime::from_secs(1) } }
}

fn dir(relative: &str, files: Vec<FileEntry>, directories: Vec<DirEntry>) -> DirTree {
    DirTree {
        directories,
        files,
        absolute_path: format!("/srv/{}", relative),
        relative_path: relative.to_string(),
    }
}

fn entry(name: &str, tree: DirTree) -> DirEntry {
    DirEntry { name: name.to_string(), tree }
}

fn sample_tree() -> DirTree {
    let deep = dir("site/docs/deep", vec![], vec![]);
    let docs = dir("site/docs", vec![file("a.md"), file("b.md")], vec![entry("deep", deep)]);
    let blog = dir("site/blog", vec![file("post.md")], vec![]);
    dir("site/", vec![file("index.md")], vec![entry("docs", docs), entry("blog", blog)])
}

fn count(menus: &Vec<MenuEntry>) -> usize {
    menus.iter().map(|m| 1 + count(&m.item.children)).sum()
}

#[test]
fn one_item_per_directory_at_every_level() {
    let menus = tree_to_menus(&config(), &ContentStore::new(), &sample_tree()).unwrap();
    assert_eq!(menus.len(), 2);
    assert_eq!(menus[0].name, "docs");
    assert_eq!(menus[1].name, "blog");
    assert_eq!(menus[0].item.children.len(), 1);
    assert_eq!(menus[0].item.children[0].name, "deep");
    assert!(menus[0].item.children[0].item.children.is_empty());
    assert!(menus[1].item.children.is_empty());
    assert_eq!(count(&menus), 3);
}

#[test]
fn items_carry_file_count_and_path() {
    let menus = tree_to_menus(&config(), &ContentStore::new(), &sample_tree()).unwrap();
    assert_eq!(menus[0].item.number_of_files, 2);
    assert_eq!(menus[0].item.relative_path, "/docs");
    assert_eq!(menus[0].item.children[0].item.number_of_files, 0);
    assert_eq!(menus[0].item.children[0].item.relative_path, "/docs/deep");
    assert_eq!(menus[1].item.number_of_files, 1);
    assert_eq!(menus[1].item.relative_path, "/blog");
}

#[test]
fn missing_sidecar_gives_default_menu_meta() {
    let menus = tree_to_menus(&config(), &ContentStore::new(), &sample_tree()).unwrap();
    let meta = &menus[0].item.menu_meta;
    assert_eq!(meta.menu_icon, "/static/images/menu_default_icon.svg");
    assert_eq!(meta.description, "Menu default description.");
    assert_eq!(meta.weight, 100);
    assert_eq!(meta.section_class, "section");
    assert_eq!(meta.section_template, "article");
}

#[test]
fn sidecar_metadata_is_taken_over() {
    let mut store = ContentStore::new();
    let mut given = MenuItemMeta::default();
    given.description = "The documents".to_string();
    given.weight = 7;
    store.insert("/srv/site/docs.menu_meta".to_string(), Node::MenuSidecar(Ok(given)));
    store.insert(
        "/srv/site/blog.menu_meta".to_string(),
        Node::MenuSidecar(Err("trailing comma at line 3 column 1".to_string())),
    );
    let menus = tree_to_menus(&config(), &store, &sample_tree()).unwrap();
    assert_eq!(menus[0].item.menu_meta.description, "The documents");
    assert_eq!(menus[0].item.menu_meta.weight, 7);
    assert_eq!(
        menus[1].item.menu_meta.description,
        "JSON Parse Error: trailing comma at line 3 column 1"
    );
    assert_eq!(menus[1].item.menu_meta.weight, 100);
    assert_eq!(menus[0].item.children[0].item.menu_meta.description, "Menu default description.");
}

#[test]
fn base_dir_without_separator_is_a_configuration_error() {
    let mut c = config();
    c.base_dir = "site".to_string();
    let r = tree_to_menus(&c, &ContentStore::new(), &sample_tree());
    assert_eq!(r.unwrap_err(), ContentError::Configuration);
}

#[test]
fn something_else_at_menu_sidecar_path_is_a_fault() {
    let mut store = ContentStore::new();
    store.insert("/srv/site/docs.menu_meta".to_string(), Node::Directory);
    let r = tree_to_menus(&config(), &store, &sample_tree());
    assert_eq!(r.unwrap_err(), ContentError::UnreadableSidecar);
    assert_eq!(
        add_menu_metadata(&store, &"/srv/site/docs".to_string()).unwrap_err(),
        ContentError::UnreadableSidecar
    );
}

#[test]
fn add_menu_metadata_looks_beside_the_directory() {
    let mut store = ContentStore::new();
    let mut given = MenuItemMeta::default();
    given.section_class = "wide".to_string();
    store.insert("/srv/site/docs.menu_meta".to_string(), Node::MenuSidecar(Ok(given)));
    assert_eq!(
        add_menu_metadata(&store, &"/srv/site/docs".to_string()).unwrap().section_class,
        "wide"
    );
    assert_eq!(
        add_menu_metadata(&store, &"/srv/site/blog".to_string()).unwrap().section_class,
        "section"
    );
}

#[test]
fn tree_without_directories_has_empty_menu() {
    let root = dir("site/", vec![file("index.md")], vec![]);
    assert!(tree_to_menus(&config(), &ContentStore::new(), &root).unwrap().is_empty());
}

#[test]
fn default_menu_item() {
    let item = MenuItem::default();
    assert_eq!(item.number_of_files, 0);
    assert_eq!(item.relative_path, "Default");
    assert!(item.children.is_empty());
    assert_eq!(item.menu_meta.weight, 100);
}

#[test]
fn menu_items_can_be_copied() {
    let menus = tree_to_menus(&config(), &ContentStore::new(), &sample_tree()).unwrap();
    let copy = menus[0].clone();
    assert_eq!(copy.name, "docs");
    assert_eq!(copy.item.number_of_files, 2);
    assert_eq!(copy.item.children[0].name, "deep");
    assert_eq!(copy.item.clone().relative_path, "/docs");
}

#[test]
fn relative_path_loses_the_text_of_the_base_prefix() {
    let odd = dir("sitemap/x", vec![], vec![]);
    let root = dir("site/", vec![], vec![entry("x", odd)]);
    let menus = tree_to_menus(&config(), &ContentStore::new(), &root).unwrap();
    assert_eq!(menus[0].item.relative_path, "map/x");
}
