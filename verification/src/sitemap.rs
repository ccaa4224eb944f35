//! The sitemap: one entry for every file of the directory tree.

use vstd::prelude::*;
use crate::config::{SiteConfig, SiteConfigView};
use crate::paths::{
    clean_segment, is_tidy, join, join_of_clean_is_tidy, join_segments, segments,
    segments_are_clean, split_segments, strip_content_prefix, stripped_of_prefix,
};
use crate::render::{escape_html, escaped_char, html_escaped};
use crate::time::UtcTime;
use crate::tree::{DirEntryView, DirTree, DirTreeView, FileEntryView, entries_view_is_pointwise, views};

verus! {

/// One line of the sitemap.
#[derive(Debug)]
pub struct SiteMapEntry {
    /// The absolute URL of the file.
    pub location: String,
    /// When the file was last modified.
    pub lastmod: UtcTime,
    pub priority: String,
}

/// A sitemap entry as plain values.
pub ghost struct SiteMapEntryView {
    pub location: Seq<char>,
    pub lastmod: UtcTime,
    pub priority: Seq<char>,
}

impl View for SiteMapEntry {
    type V = SiteMapEntryView;

    open spec fn view(&self) -> SiteMapEntryView {
        SiteMapEntryView {
            location: self.location@,
            lastmod: self.lastmod,
            priority: self.priority@,
        }
    }
}

/// Each segment escaped for HTML.
pub open spec fn escaped_segments(parts: Seq<Seq<char>>) -> Seq<Seq<char>> {
    Seq::new(parts.len(), |i: int| html_escaped(parts[i]))
}

/// The folder part of a file's URL: the directory's relative path without
/// the base prefix, its segments escaped and joined by single separators.
/// It neither begins nor ends with a separator.
pub open spec fn web_folder(relative_path: Seq<char>, base: Seq<char>) -> Seq<char> {
    join(escaped_segments(segments(stripped_of_prefix(relative_path, base))))
}

/// The URL of a file: host, folder and name with one separator between them,
/// and no folder part for a file at the content root.
pub open spec fn location_of(host: Seq<char>, folder: Seq<char>, name: Seq<char>) -> Seq<char> {
    if folder.len() > 0 {
        host + seq!['/'] + folder + seq!['/'] + name
    } else {
        host + seq!['/'] + name
    }
}

/// The sitemap entry of one file of a directory.
pub open spec fn entry_of(
    config: SiteConfigView,
    relative_path: Seq<char>,
    file: FileEntryView,
) -> SiteMapEntryView {
    SiteMapEntryView {
        location: location_of(
            config.prod_host,
            web_folder(relative_path, config.base_dir),
            file.name,
        ),
        lastmod: file.modified,
        priority: config.xml_priority,
    }
}

/// The entries of the files that lie directly in a directory, in their order.
pub open spec fn own_entries(config: SiteConfigView, tree: DirTreeView) -> Seq<SiteMapEntryView> {
    Seq::new(tree.files.len(), |i: int| entry_of(config, tree.relative_path, tree.files[i]))
}

/// The sitemap of a directory tree: the entries of the directory's own
/// files, then the sitemap of each subdirectory in turn.
pub open spec fn sitemap_of(config: SiteConfigView, tree: DirTreeView) -> Seq<SiteMapEntryView>
    decreases tree, 1nat,
{
    own_entries(config, tree) + sitemap_of_all(config, tree.directories)
}

/// The sitemaps of a list of subdirectories, one after the other.
pub open spec fn sitemap_of_all(config: SiteConfigView, entries: Seq<DirEntryView>) -> Seq<
    SiteMapEntryView,
>
    decreases entries, 0nat,
{
    if entries.len() == 0 {
        Seq::empty()
    } else {
        sitemap_of_all(config, entries.drop_last()) + sitemap_of(config, entries.last().tree)
    }
}

/// The number of files in a directory tree, at every depth.
pub open spec fn files_in(tree: DirTreeView) -> nat
    decreases tree, 1nat,
{
    tree.files.len() + files_in_all(tree.directories)
}

/// The number of files in a list of subdirectories, at every depth.
pub open spec fn files_in_all(entries: Seq<DirEntryView>) -> nat
    decreases entries, 0nat,
{
    if entries.len() == 0 {
        0
    } else {
        files_in_all(entries.drop_last()) + files_in(entries.last().tree)
    }
}

/// The sitemap has one entry for every file of the tree.
pub proof fn sitemap_has_one_entry_per_file(config: SiteConfigView, tree: DirTreeView)
    ensures
        sitemap_of(config, tree).len() == files_in(tree),
    decreases tree, 1nat,
{
    sitemap_lists_have_one_entry_per_file(config, tree.directories);
}

/// The sitemaps of a list of subdirectories have one entry for every file.
pub proof fn sitemap_lists_have_one_entry_per_file(config: SiteConfigView, entries: Seq<DirEntryView>)
    ensures
        sitemap_of_all(config, entries).len() == files_in_all(entries),
    decreases entries, 0nat,
{
    if entries.len() > 0 {
        sitemap_lists_have_one_entry_per_file(config, entries.drop_last());
        sitemap_has_one_entry_per_file(config, entries.last().tree);
    }
}

/// The folder part of the URLs of a directory's files.
pub fn web_folder_of(relative_path: &str, base_dir: &str) -> (folder: String)
    ensures
        folder@ == web_folder(relative_path@, base_dir@),
{
    let stripped = strip_content_prefix(relative_path, base_dir);
    let parts = split_segments(stripped.as_str());
    let mut escaped: Vec<String> = Vec::new();
    let mut i: usize = 0;
    while i < parts.len()
        invariant
            i <= parts.len(),
            escaped@.len() == i,
            forall|k: int| 0 <= k < i ==> escaped@[k]@ == html_escaped(parts@[k]@),
        decreases parts.len() - i,
    {
        escaped.push(escape_html(parts[i].as_str()));
        i = i + 1;
    }
    assert(escaped.deep_view() =~= escaped_segments(parts.deep_view()));
    join_segments(&escaped)
}

/// The URL of a file: see `location_of`.
pub fn file_location(host: &str, folder: &str, name: &str) -> (location: String)
    ensures
        location@ == location_of(host@, folder@, name@),
{
    proof {
        reveal_strlit("/");
        assert("/"@ =~= seq!['/']);
    }
    let mut location = String::from_str(host);
    location.append("/");
    if folder.unicode_len() > 0 {
        location.append(folder);
        location.append("/");
    }
    location.append(name);
    location
}

/// The sitemap of a directory tree: for every file one entry, the files of a
/// directory before those of its subdirectories, directory by directory.
pub fn tree_to_sitemap(config: &SiteConfig, dir_tree: &DirTree) -> (files: Vec<SiteMapEntry>)
    ensures
        views(files@) == sitemap_of(config@, dir_tree@),
    decreases dir_tree,
{
    let mut files: Vec<SiteMapEntry> = Vec::new();
    let folder = web_folder_of(dir_tree.relative_path.as_str(), config.base_dir.as_str());
    let mut i: usize = 0;
    while i < dir_tree.files.len()
        invariant
            i <= dir_tree.files.len(),
            files@.len() == i,
            dir_tree@.files == views(dir_tree.files@),
            folder@ == web_folder(dir_tree@.relative_path, config@.base_dir),
            views(files@) == own_entries(config@, dir_tree@).take(i as int),
        decreases dir_tree.files.len() - i,
    {
        let file = &dir_tree.files[i];
        let ghost before = files@;
        files.push(
            SiteMapEntry {
                location: file_location(
                    config.prod_host.as_str(),
                    folder.as_str(),
                    file.name.as_str(),
                ),
                lastmod: file.meta.modified,
                priority: config.xml_priority.clone(),
            },
        );
        proof {
            let wanted = own_entries(config@, dir_tree@);
            assert(dir_tree@.files[i as int] == file@);
            assert(files@[i as int]@ == wanted[i as int]);
            assert forall|k: int| 0 <= k < i implies #[trigger] files@[k]@ == wanted[k] by {
                assert(views(before)[k] == wanted.take(i as int)[k]);
            }
            assert(views(files@) =~= wanted.take(i + 1));
        }
        i = i + 1;
    }
    proof {
        assert(own_entries(config@, dir_tree@).take(i as int) =~= own_entries(config@, dir_tree@));
        entries_view_is_pointwise(dir_tree.directories@);
        assert(dir_tree@.directories.take(0) =~= Seq::<DirEntryView>::empty());
        assert(views(files@) =~= own_entries(config@, dir_tree@) + sitemap_of_all(
            config@,
            dir_tree@.directories.take(0),
        ));
    }
    let mut d: usize = 0;
    while d < dir_tree.directories.len()
        invariant
            d <= dir_tree.directories.len(),
            dir_tree@.directories == views(dir_tree.directories@),
            views(files@) == own_entries(config@, dir_tree@) + sitemap_of_all(
                config@,
                dir_tree@.directories.take(d as int),
            ),
        decreases dir_tree.directories.len() - d,
    {
        let mut below = tree_to_sitemap(config, &dir_tree.directories[d].tree);
        let ghost before = files@;
        let ghost added = below@;
        files.append(&mut below);
        proof {
            let done = dir_tree@.directories.take(d + 1);
            assert(done.drop_last() =~= dir_tree@.directories.take(d as int));
            assert(done.last().tree == dir_tree.directories@[d as int].tree@);
            assert(files@ =~= before + added);
            assert(views(files@) =~= views(before) + views(added));
        }
        d = d + 1;
    }
    proof {
        assert(dir_tree@.directories.take(d as int) =~= dir_tree@.directories);
    }
    files
}

/// The sitemap of the whole content directory, from its tree.
pub fn generate_sitemap(config: &SiteConfig, dir_tree: &DirTree) -> (sitemap: Vec<SiteMapEntry>)
    ensures
        views(sitemap@) == sitemap_of(config@, dir_tree@),
{
    tree_to_sitemap(config, dir_tree)
}

/// Escaping leaves no separator in a text and makes it no shorter.
pub proof fn escaped_text_has_no_separator(text: Seq<char>)
    ensures
        html_escaped(text).len() >= text.len(),
        forall|i: int| 0 <= i < html_escaped(text).len() ==> html_escaped(text)[i] != '/',
    decreases text.len(),
{
    if text.len() > 0 {
        escaped_text_has_no_separator(text.drop_last());
        let head = html_escaped(text.drop_last());
        let tail = escaped_char(text.last());
        assert(forall|k: int| 0 <= k < tail.len() ==> tail[k] != '/');
        assert forall|i: int| 0 <= i < html_escaped(text).len() implies html_escaped(text)[i]
            != '/' by {
            if i < head.len() {
                assert(html_escaped(text)[i] == head[i]);
            } else {
                assert(html_escaped(text)[i] == tail[i - head.len()]);
            }
        }
    }
}

/// The folder part of a URL is tidy, whatever the relative path and the base
/// directory: it has no empty segment, so no separator at either end and no
/// two side by side. Between host and file name a location therefore has
/// single separators only.
pub proof fn web_folder_is_tidy(relative_path: Seq<char>, base: Seq<char>)
    ensures
        is_tidy(web_folder(relative_path, base)),
        web_folder(relative_path, base).len() == 0 <==> segments(
            stripped_of_prefix(relative_path, base),
        ).len() == 0,
{
    let parts = segments(stripped_of_prefix(relative_path, base));
    segments_are_clean(stripped_of_prefix(relative_path, base));
    let escaped = escaped_segments(parts);
    assert forall|k: int| 0 <= k < escaped.len() implies clean_segment(#[trigger] escaped[k]) by {
        assert(clean_segment(parts[k]));
        escaped_text_has_no_separator(parts[k]);
    }
    join_of_clean_is_tidy(escaped);
}

} // verus!
