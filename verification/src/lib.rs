//! A flat-file content engine: pages, a navigation menu and a sitemap,
//! derived from a directory of Markdown files and their sidecar metadata.
//!
//! The engine reads no disk. It works on two snapshots that its caller takes:
//! a [`tree::DirTree`] of the directories and files, for the menu and the
//! sitemap, and a [`store::ContentStore`] of what stands at each path, for
//! pages and metadata.

pub mod text;
pub mod paths;
pub mod render;
pub mod time;
pub mod error;
pub mod config;
pub mod meta;
pub mod sort;
pub mod tree;
pub mod sitemap;
pub mod store;
pub mod menu;
pub mod page;
pub mod laws;
