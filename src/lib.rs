//! Builds syndication feeds (RSS 2.0, with Atom 1.0 and JSON Feed 1.1
//! renderings) from a tree of Markdown chapters with optional YAML front matter.
pub mod collect;
pub mod convert;
pub mod date;
pub mod feed;
pub mod front_matter;
pub mod lines;
pub mod paths;
pub mod preview;
pub mod text;

pub use collect::{collect_articles, is_chapter_path, SourceFile};
pub use convert::{
    rss_to_atom, rss_to_atom_page, rss_to_json_feed, rss_to_json_feed_page, AtomEntry, AtomFeed, AtomLink,
    JsonAuthor, JsonFeed, JsonFeedItem,
};
pub use date::{format_pub_date, parse_date, Stamp};
pub use feed::{build_feed, build_item, link_for, page_file_name, paginate, BuildResult, Channel, FeedPage, Guid, Item};
pub use front_matter::{parse_markdown_file, split_front_matter, Article, FrontMatter};
pub use preview::{html_first_paragraphs, make_preview, strip_leading_boilerplate, utf8_prefix};
