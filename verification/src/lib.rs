//! A verified core for a static-site content pipeline.
//!
//! The library turns raw document text into a validated, cross-linked corpus:
//! it splits front matter from body text, expands the inline macros
//! (`latest`, `youtube`, and the file-embedding tag) outside fenced code
//! regions, renders markdown through a trusted call, builds the backlink
//! graph, and assembles the ordered document collection with a synthetic
//! archive entry.  All I/O stays with the caller: every function here maps
//! plain values to plain values and carries a contract.

pub mod corpus;
pub mod curly;
pub mod filters;
pub mod languages;
pub mod links;
pub mod loader;
pub mod model;
pub mod render;
pub mod tags;
pub mod text;

pub use corpus::{
    assemble_pages, check_unique_dates, check_unique_nicknames, collect_tags, get_pages_path,
    get_recent, resolve_author, select_drafts, select_todo_pages,
};
pub use curly::{check_for_invalid_curly_code, get_files_to_copy, process_liquid_tags};
pub use filters::{filter_words, topath, ToPath, ToPathFilter};
pub use languages::{language_for, read_languages};
pub use links::{collect_all_the_internal_links, collect_backlinks, find_links};
pub use loader::read_md_text;
pub use model::{
    Author, BuildError, Config, ConfigArchive, ConfigFrom, ConfigNavbar, ConfigNavbarLink,
    ConfigTag, Link, Page,
};
pub use render::{markdown_pages, render_content};
pub use tags::{
    process_liquid_include, process_liquid_tags_for_text, process_liquid_tags_youtube, FileEntry,
    IncludeTag, Item, LatestTag, YoutubeTag,
};
