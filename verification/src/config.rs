//! The site's configuration: loaded once, handed to every builder.

use vstd::prelude::*;
use crate::text::{append, chars_of, ends_with, has_suffix};

verus! {

/// The values that every builder needs.
#[derive(Debug)]
pub struct SiteConfig {
    /// Protocol and host of the published site, such as `https://example.org`.
    pub prod_host: String,
    /// The priority written into every sitemap entry.
    pub xml_priority: String,
    /// Name of the content directory, relative, with its trailing `/`.
    pub base_dir: String,
    /// Absolute path of the directory that holds the content directory.
    pub local_content_dir: String,
}

/// A site configuration as plain values.
pub ghost struct SiteConfigView {
    pub prod_host: Seq<char>,
    pub xml_priority: Seq<char>,
    pub base_dir: Seq<char>,
    pub local_content_dir: Seq<char>,
}

impl View for SiteConfig {
    type V = SiteConfigView;

    open spec fn view(&self) -> SiteConfigView {
        SiteConfigView {
            prod_host: self.prod_host@,
            xml_priority: self.xml_priority@,
            base_dir: self.base_dir@,
            local_content_dir: self.local_content_dir@,
        }
    }
}

impl SiteConfigView {
    /// The content root: the local content directory followed by the base
    /// directory.
    pub open spec fn local_path(self) -> Seq<char> {
        self.local_content_dir + self.base_dir
    }

    /// The base directory carries its trailing separator.
    pub open spec fn base_dir_is_closed(self) -> bool {
        ends_with(self.base_dir, seq!['/'])
    }

    /// The text of `robots.txt` for this site.
    pub open spec fn robot_food(self) -> Seq<char> {
        "User-agents: *\nAllow: *\n\nSitemap: "@ + self.prod_host + "/sitemap.xml"@
    }
}

impl SiteConfig {
    /// The configuration that a fresh installation starts from.
    pub open spec fn initial_view() -> SiteConfigView {
        SiteConfigView {
            prod_host: "https://localhost:8000"@,
            xml_priority: "0.64"@,
            base_dir: "/"@,
            local_content_dir: "/"@,
        }
    }

    /// The configuration that a fresh installation starts from.
    pub fn initial() -> (config: SiteConfig)
        ensures
            config@ == SiteConfig::initial_view(),
    {
        SiteConfig {
            prod_host: String::from_str("https://localhost:8000"),
            xml_priority: String::from_str("0.64"),
            base_dir: String::from_str("/"),
            local_content_dir: String::from_str("/"),
        }
    }

    /// The content root: the local content directory followed by the base
    /// directory.
    pub fn local_path(self) -> (path: String)
        ensures
            path@ == self@.local_path(),
    {
        append(self.local_content_dir.as_str(), self.base_dir.as_str())
    }

    /// The content root, for a configuration that stays in use.
    pub fn content_root(&self) -> (path: String)
        ensures
            path@ == self@.local_path(),
    {
        append(self.local_content_dir.as_str(), self.base_dir.as_str())
    }

    /// Whether the base directory carries its trailing separator.
    pub fn base_dir_is_closed(&self) -> (r: bool)
        ensures
            r == self@.base_dir_is_closed(),
    {
        let base = chars_of(self.base_dir.as_str());
        let sep = chars_of("/");
        proof {
            reveal_strlit("/");
            assert("/"@ =~= seq!['/']);
        }
        has_suffix(&base, &sep)
    }
}

/// The text of `robots.txt`: every agent is let in everywhere and pointed to
/// the sitemap of the production host.
pub fn generate_robot_food(config: &SiteConfig) -> (text: String)
    ensures
        text@ == config@.robot_food(),
{
    let mut text = String::from_str("User-agents: *\nAllow: *\n\nSitemap: ");
    text.append(config.prod_host.as_str());
    text.append("/sitemap.xml");
    text
}

} // verus!
