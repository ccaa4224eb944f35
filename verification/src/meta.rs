//! Sidecar metadata: what a `.content_meta` file says of a page and what a
//! `.menu_meta` file says of a directory, with the values that stand in when
//! the file is missing or cannot be decoded.

use vstd::prelude::*;
use crate::text::append;
use crate::time::UtcTime;

verus! {

/// What a content file's sidecar says of it.
#[derive(Debug)]
pub struct ContentMeta {
    pub content_icon: String,
    pub description: String,
    pub timestamp_override: Option<UtcTime>,
    /// The sort key among the pages of one content list: lower comes first.
    pub weight: u32,
    pub author: String,
    pub license: String,
    /// Paths, relative to the content root, of the pages that this page takes in.
    pub content_list: Vec<String>,
    pub content_type: String,
    pub content_class: String,
}

/// Content metadata as plain values.
pub ghost struct ContentMetaView {
    pub content_icon: Seq<char>,
    pub description: Seq<char>,
    pub timestamp_override: Option<UtcTime>,
    pub weight: u32,
    pub author: Seq<char>,
    pub license: Seq<char>,
    pub content_list: Seq<Seq<char>>,
    pub content_type: Seq<char>,
    pub content_class: Seq<char>,
}

impl View for ContentMeta {
    type V = ContentMetaView;

    open spec fn view(&self) -> ContentMetaView {
        ContentMetaView {
            content_icon: self.content_icon@,
            description: self.description@,
            timestamp_override: self.timestamp_override,
            weight: self.weight,
            author: self.author@,
            license: self.license@,
            content_list: self.content_list.deep_view(),
            content_type: self.content_type@,
            content_class: self.content_class@,
        }
    }
}

/// What a directory's sidecar says of its menu entry.
#[derive(Debug)]
pub struct MenuItemMeta {
    /// Path of an icon.
    pub menu_icon: String,
    /// Shown when the pointer rests on the entry.
    pub description: String,
    pub weight: u32,
    pub section_class: String,
    pub section_template: String,
}

/// Menu metadata as plain values.
pub ghost struct MenuItemMetaView {
    pub menu_icon: Seq<char>,
    pub description: Seq<char>,
    pub weight: u32,
    pub section_class: Seq<char>,
    pub section_template: Seq<char>,
}

impl View for MenuItemMeta {
    type V = MenuItemMetaView;

    open spec fn view(&self) -> MenuItemMetaView {
        MenuItemMetaView {
            menu_icon: self.menu_icon@,
            description: self.description@,
            weight: self.weight,
            section_class: self.section_class@,
            section_template: self.section_template@,
        }
    }
}

/// The description that a sidecar gets when it could not be decoded: a fixed
/// opening, then the decoder's own words.
pub open spec fn parse_fault_description(why: Seq<char>) -> Seq<char> {
    "JSON Parse Error: "@ + why
}

/// The content metadata of a page without a sidecar.
pub open spec fn default_content_meta() -> ContentMetaView {
    ContentMetaView {
        content_icon: "/static/images/content_default_icon.svg"@,
        description: "Default description value"@,
        timestamp_override: None,
        weight: 100,
        author: "Gatewaynode"@,
        license: "cc-by-sa"@,
        content_list: Seq::empty(),
        content_type: "page"@,
        content_class: "basic-page"@,
    }
}

/// The menu metadata of a directory without a sidecar.
pub open spec fn default_menu_meta() -> MenuItemMetaView {
    MenuItemMetaView {
        menu_icon: "/static/images/menu_default_icon.svg"@,
        description: "Menu default description."@,
        weight: 100,
        section_class: "section"@,
        section_template: "article"@,
    }
}

/// What the decoder made of a content sidecar, as plain values: the decoded
/// metadata, or the decoder's words on why there is none.
pub open spec fn decoded_content(decoded: Result<ContentMeta, String>) -> Result<
    ContentMetaView,
    Seq<char>,
> {
    match decoded {
        Ok(meta) => Ok(meta@),
        Err(why) => Err(why@),
    }
}

/// What the decoder made of a menu sidecar, as plain values.
pub open spec fn decoded_menu(decoded: Result<MenuItemMeta, String>) -> Result<
    MenuItemMetaView,
    Seq<char>,
> {
    match decoded {
        Ok(meta) => Ok(meta@),
        Err(why) => Err(why@),
    }
}

/// What a decoded content sidecar stands for: its value as it is, or the
/// default with the fault written into the description.
pub open spec fn content_meta_of(decoded: Result<ContentMetaView, Seq<char>>) -> ContentMetaView {
    match decoded {
        Ok(meta) => meta,
        Err(why) => ContentMetaView {
            description: parse_fault_description(why),
            ..default_content_meta()
        },
    }
}

/// What a decoded menu sidecar stands for: its value as it is, or the
/// default with the fault written into the description.
pub open spec fn menu_meta_of(decoded: Result<MenuItemMetaView, Seq<char>>) -> MenuItemMetaView {
    match decoded {
        Ok(meta) => meta,
        Err(why) => MenuItemMetaView {
            description: parse_fault_description(why),
            ..default_menu_meta()
        },
    }
}

/// A copy of a list of strings.
pub fn copy_strings(list: &Vec<String>) -> (copy: Vec<String>)
    ensures
        copy.deep_view() == list.deep_view(),
{
    let mut copy: Vec<String> = Vec::new();
    let mut i: usize = 0;
    while i < list.len()
        invariant
            i <= list.len(),
            copy@.len() == i,
            forall|k: int| 0 <= k < i ==> copy@[k]@ == list@[k]@,
        decreases list.len() - i,
    {
        copy.push(list[i].clone());
        i = i + 1;
    }
    assert(copy.deep_view() =~= list.deep_view());
    copy
}

impl Default for ContentMeta {
    fn default() -> (meta: ContentMeta)
        ensures
            meta@ == default_content_meta(),
    {
        let meta = ContentMeta {
            content_icon: String::from_str("/static/images/content_default_icon.svg"),
            description: String::from_str("Default description value"),
            timestamp_override: None,
            weight: 100,
            author: String::from_str("Gatewaynode"),
            license: String::from_str("cc-by-sa"),
            content_list: Vec::new(),
            content_type: String::from_str("page"),
            content_class: String::from_str("basic-page"),
        };
        assert(meta.content_list.deep_view() =~= Seq::<Seq<char>>::empty());
        meta
    }
}

impl Clone for ContentMeta {
    fn clone(&self) -> (copy: ContentMeta)
        ensures
            copy@ == self@,
    {
        ContentMeta {
            content_icon: self.content_icon.clone(),
            description: self.description.clone(),
            timestamp_override: self.timestamp_override,
            weight: self.weight,
            author: self.author.clone(),
            license: self.license.clone(),
            content_list: copy_strings(&self.content_list),
            content_type: self.content_type.clone(),
            content_class: self.content_class.clone(),
        }
    }
}

impl Default for MenuItemMeta {
    fn default() -> (meta: MenuItemMeta)
        ensures
            meta@ == default_menu_meta(),
    {
        MenuItemMeta {
            menu_icon: String::from_str("/static/images/menu_default_icon.svg"),
            description: String::from_str("Menu default description."),
            weight: 100,
            section_class: String::from_str("section"),
            section_template: String::from_str("article"),
        }
    }
}

impl Clone for MenuItemMeta {
    fn clone(&self) -> (copy: MenuItemMeta)
        ensures
            copy@ == self@,
    {
        MenuItemMeta {
            menu_icon: self.menu_icon.clone(),
            description: self.description.clone(),
            weight: self.weight,
            section_class: self.section_class.clone(),
            section_template: self.section_template.clone(),
        }
    }
}

/// The content metadata that a decoded sidecar stands for. A sidecar that
/// could not be decoded degrades the page and does not drop it: the page gets
/// the default metadata, with the fault in its description.
pub fn read_content_meta_file(decoded: &Result<ContentMeta, String>) -> (meta: ContentMeta)
    ensures
        meta@ == content_meta_of(decoded_content(*decoded)),
{
    match decoded {
        Ok(value) => value.clone(),
        Err(why) => {
            let mut meta = ContentMeta::default();
            meta.description = append("JSON Parse Error: ", why.as_str());
            meta
        },
    }
}

/// The menu metadata that a decoded sidecar stands for, by the same rule as
/// for content metadata.
pub fn read_menu_meta_file(decoded: &Result<MenuItemMeta, String>) -> (meta: MenuItemMeta)
    ensures
        meta@ == menu_meta_of(decoded_menu(*decoded)),
{
    match decoded {
        Ok(value) => value.clone(),
        Err(why) => {
            let mut meta = MenuItemMeta::default();
            meta.description = append("JSON Parse Error: ", why.as_str());
            meta
        },
    }
}

} // verus!
