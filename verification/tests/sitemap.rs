use n4::config::SiteConfig;
use n4::sitemap::{file_location, generate_sitemap, tree_to_sitemap, web_folder_of};
use n4::time::UtcTime;
use n4::tree::{DirEntry, DirTree, FileEntry, FileMeta};

fn config() -> SiteConfig {
    SiteConfig {
        prod_host: "https://example.org".to_string(),
        xml_priority: "0.64".to_string(),
        base_dir: "site/".to_string(),
        local_content_dir: "/srv/".to_string(),
    }
}

fn file(name: &str, secs: i64) -> FileEntry {
    FileEntry { name: name.to_string(), meta: FileMeta { modified: UtcTime::from_secs(secs) } }
}

fn dir(relative: &str, files: Vec<FileEntry>, directories: Vec<DirEntry>) -> DirTree {
    DirTree {
        directories,
        files,
        absolute_path: format!("/srv/{}", relative),
        relative_path: relative.to_string(),
    }
}

fn entry(name: &str, tree: DirTree) -> DirEntry {
    DirEntry { name: name.to_string(), tree }
}

#[test]
fn location_in_subdirectory_has_no_double_slash() {
    let tree = dir("site/docs/", vec![file("guide.md", 10), file("intro.md", 20)], vec![]);
    let map = tree_to_sitemap(&config(), &tree);
    assert_eq!(map.len(), 2);
    assert_eq!(map[0].location, "https://example.org/docs/guide.md");
    assert_eq!(map[1].location, "https://example.org/docs/intro.md");
    for e in &map {
        assert!(!e.location["https://".len()..].contains("//"));
    }
}

#[test]
fn location_at_content_root_has_no_folder() {
    let tree = dir("site/", vec![file("index.md", 10)], vec![]);
    let map = tree_to_sitemap(&config(), &tree);
    assert_eq!(map.len(), 1);
    assert_eq!(map[0].location, "https://example.org/index.md");
    let bare = dir("site", vec![file("index.md", 10)], vec![]);
    assert_eq!(tree_to_sitemap(&config(), &bare)[0].location, "https://example.org/index.md");
}

#[test]
fn entries_carry_lastmod_and_priority() {
    let tree = dir("site/", vec![file("index.md", 1_600_000_000)], vec![]);
    let map = tree_to_sitemap(&config(), &tree);
    assert_eq!(map[0].lastmod, UtcTime { secs: 1_600_000_000, nanos: 0 });
    assert_eq!(map[0].priority, "0.64");
}

#[test]
fn directory_files_come_before_subdirectories() {
    let deep = dir("site/a/deep", vec![file("d.md", 4)], vec![]);
    let a = dir("site/a", vec![file("a1.md", 2), file("a2.md", 3)], vec![entry("deep", deep)]);
    let b = dir("site/b", vec![file("b.md", 5)], vec![]);
    let empty = dir("site/empty", vec![], vec![]);
    let root = dir(
        "site/",
        vec![file("index.md", 1)],
        vec![entry("a", a), entry("empty", empty), entry("b", b)],
    );
    let map = generate_sitemap(&config(), &root);
    let locations: Vec<&str> = map.iter().map(|e| e.location.as_str()).collect();
    assert_eq!(
        locations,
        vec![
            "https://example.org/index.md",
            "https://example.org/a/a1.md",
            "https://example.org/a/a2.md",
            "https://example.org/a/deep/d.md",
            "https://example.org/b/b.md",
        ]
    );
}

#[test]
fn folder_segments_are_escaped() {
    assert_eq!(web_folder_of("site/q&a/<new>", "site/"), "q&amp;a/&lt;new&gt;");
    assert_eq!(web_folder_of("site/it's \"x\"", "site/"), "it&#x27;s &quot;x&quot;");
    assert_eq!(web_folder_of("site//docs//", "site/"), "docs");
    assert_eq!(web_folder_of("site/", "site/"), "");
}

#[test]
fn folder_of_unrelated_path_is_kept() {
    assert_eq!(web_folder_of("other/docs/", "site/"), "other/docs");
}

#[test]
fn location_formula() {
    assert_eq!(file_location("https://h", "docs", "a.md"), "https://h/docs/a.md");
    assert_eq!(file_location("https://h", "", "a.md"), "https://h/a.md");
}

#[test]
fn empty_tree_has_empty_sitemap() {
    let root = dir("site/", vec![], vec![entry("a", dir("site/a", vec![], vec![]))]);
    assert!(tree_to_sitemap(&config(), &root).is_empty());
}
