use n4::error::ContentError;
use n4::paths::{
    child_name, entry_path_of, has_content_extension, has_sidecar_extension,
    join_segments, localpath_to_webpath, normalize, path_extension, path_file_stem,
    sidecar_path_for, split_segments, strip_content_prefix,
};
use n4::text::{chars_of, append, cut, find, has_prefix, has_suffix, matches_at};

fn strings(items: &[&str]) -> Vec<String> {
    items.iter().map(|s| s.to_string()).collect()
}

#[test]
fn segments_drop_empty_parts() {
    assert_eq!(split_segments("/a//b/c/"), strings(&["a", "b", "c"]));
    assert_eq!(split_segments("a"), strings(&["a"]));
    assert_eq!(split_segments("///"), Vec::<String>::new());
    assert_eq!(split_segments(""), Vec::<String>::new());
}

#[test]
fn segments_keep_characters_beyond_ascii() {
    assert_eq!(split_segments("/työ/päivä.md"), strings(&["työ", "päivä.md"]));
}

#[test]
fn join_puts_one_separator_between() {
    assert_eq!(join_segments(&strings(&["a", "b", "c"])), "a/b/c");
    assert_eq!(join_segments(&strings(&["a"])), "a");
    assert_eq!(join_segments(&Vec::new()), "");
}

#[test]
fn normalize_keeps_leading_separator_only() {
    assert_eq!(normalize("/srv//site/docs/"), "/srv/site/docs");
    assert_eq!(normalize("docs//x.md"), "docs/x.md");
    assert_eq!(normalize("/"), "/");
    assert_eq!(normalize(""), "");
}

#[test]
fn strip_prefix_with_and_without_separator() {
    assert_eq!(strip_content_prefix("site/docs/", "site/"), "/docs/");
    assert_eq!(strip_content_prefix("site/docs/", "site"), "/docs/");
    assert_eq!(strip_content_prefix("site/docs", "site/"), "/docs");
    assert_eq!(strip_content_prefix("site", "site/"), "");
}

#[test]
fn strip_prefix_takes_the_text_of_the_prefix() {
    assert_eq!(strip_content_prefix("sitemap/x", "site/"), "map/x");
    assert_eq!(strip_content_prefix("sitemap/x", "site"), "map/x");
}

#[test]
fn strip_prefix_leaves_other_paths_unchanged() {
    assert_eq!(strip_content_prefix("other/docs", "site/"), "other/docs");
    assert_eq!(strip_content_prefix("a/site/docs", "site/"), "a/site/docs");
    assert_eq!(strip_content_prefix("docs/", "/"), "docs/");
}

#[test]
fn web_path_strips_root_and_extension() {
    assert_eq!(
        localpath_to_webpath("/srv/site/docs/guide.md", "site/").unwrap(),
        "/docs/guide"
    );
    assert_eq!(localpath_to_webpath("/srv/site/index.md", "site/").unwrap(), "/index");
    assert_eq!(localpath_to_webpath("/srv/site/", "site/").unwrap(), "/");
}

#[test]
fn web_path_has_single_separators() {
    assert_eq!(
        localpath_to_webpath("/srv/site//docs//guide.md", "site/").unwrap(),
        "/docs/guide"
    );
}

#[test]
fn web_path_uses_leftmost_occurrence_of_base() {
    assert_eq!(
        localpath_to_webpath("/site/site/a.md", "site/").unwrap(),
        "/site/a"
    );
}

#[test]
fn web_path_keeps_other_extensions() {
    assert_eq!(
        localpath_to_webpath("/srv/site/docs/notes.txt", "site/").unwrap(),
        "/docs/notes.txt"
    );
}

#[test]
fn web_path_fails_without_base_dir() {
    assert_eq!(
        localpath_to_webpath("/srv/other/guide.md", "site/"),
        Err(ContentError::PathFormat)
    );
}

#[test]
fn stem_and_extension_follow_last_dot() {
    assert_eq!(path_file_stem("/a/b/guide.md"), "guide");
    assert_eq!(path_extension("/a/b/guide.md"), Some("md".to_string()));
    assert_eq!(path_file_stem("archive.tar.gz"), "archive.tar");
    assert_eq!(path_extension("archive.tar.gz"), Some("gz".to_string()));
}

#[test]
fn hidden_files_and_bare_names_have_no_extension() {
    assert_eq!(path_file_stem("/a/.hidden"), ".hidden");
    assert_eq!(path_extension("/a/.hidden"), None);
    assert_eq!(path_file_stem("/a/README"), "README");
    assert_eq!(path_extension("/a/README"), None);
    assert_eq!(path_extension("/a.b/README"), None);
}

#[test]
fn content_and_sidecar_extensions() {
    assert!(has_content_extension("/a/guide.md"));
    assert!(!has_content_extension("/a/guide.mdx"));
    assert!(!has_content_extension("/a/guide"));
    assert!(has_sidecar_extension("guide.content_meta"));
    assert!(has_sidecar_extension("docs.menu_meta"));
    assert!(!has_sidecar_extension("guide.md"));
    assert!(!has_sidecar_extension("meta"));
}

#[test]
fn sidecar_path_replaces_extension() {
    assert_eq!(
        sidecar_path_for("/srv/site/docs/guide.md", ".content_meta"),
        "/srv/site/docs/guide.content_meta"
    );
    assert_eq!(
        sidecar_path_for("/srv/site.md/docs/guide.md", ".content_meta"),
        "/srv/site.md/docs/guide.content_meta"
    );
    assert_eq!(
        sidecar_path_for("/srv/site/README", ".content_meta"),
        "/srv/site/README.content_meta"
    );
    assert_eq!(
        sidecar_path_for("/srv/site/notes.txt", ".content_meta"),
        "/srv/site/notes.content_meta"
    );
}

#[test]
fn sidecar_path_of_a_file_named_only_by_its_extension() {
    assert_eq!(sidecar_path_for("docs/.md", ".content_meta"), "docs/.content_meta");
    assert_eq!(sidecar_path_for(".md", ".content_meta"), ".content_meta");
    assert_eq!(sidecar_path_for("docs/.hidden", ".content_meta"), "docs/.hidden.content_meta");
}

#[test]
fn child_name_needs_direct_parent() {
    assert_eq!(
        child_name("/srv/site/docs/a.md", "/srv/site/docs/"),
        Some("a.md".to_string())
    );
    assert_eq!(
        child_name("/srv/site//docs/a.md", "/srv/site/docs"),
        Some("a.md".to_string())
    );
    assert_eq!(child_name("/srv/site/docs/sub/a.md", "/srv/site/docs"), None);
    assert_eq!(child_name("/srv/site/docs", "/srv/site/docs"), None);
    assert_eq!(child_name("srv/site/docs/a.md", "/srv/site/docs"), None);
}

#[test]
fn entry_path_adds_separator_when_missing() {
    assert_eq!(entry_path_of("/srv/site/", "a.md"), "/srv/site/a.md");
    assert_eq!(entry_path_of("/srv/site", "a.md"), "/srv/site/a.md");
    assert_eq!(entry_path_of("", "a.md"), "a.md");
}

#[test]
fn text_search_finds_leftmost() {
    let text = chars_of("abcabc");
    assert_eq!(find(&text, &chars_of("bc")), Some(1));
    assert_eq!(find(&text, &chars_of("cb")), None);
    assert_eq!(find(&text, &chars_of("")), Some(0));
    assert_eq!(find(&chars_of(""), &chars_of("a")), None);
    assert!(matches_at(&text, &chars_of("abc"), 3));
    assert!(!matches_at(&text, &chars_of("abc"), 4));
    assert!(has_prefix(&text, &chars_of("abca")));
    assert!(has_suffix(&text, &chars_of("cabc")));
    assert!(!has_suffix(&text, &chars_of("ab")));
}

#[test]
fn text_cut_and_concat_count_characters() {
    assert_eq!(cut("päivä", 1, 3), "äi");
    assert_eq!(append("ab", "cd"), "abcd");
    assert_eq!(chars_of("äb"), vec!['ä', 'b']);
}
