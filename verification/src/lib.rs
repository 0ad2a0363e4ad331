//! A technology news radar: it reads RSS and Atom feeds and Hacker News, keeps the articles
//! it has not processed before, has them ranked per category by an analysis step, and renders
//! the result as a Discord digest.
//!
//! Feed markup is scanned, not parsed as XML: blocks run from a start marker to the next end
//! marker, element text from the tag's closing `>` to the next closing tag. Every function
//! here states its result exactly over the character sequences of its inputs.

pub mod analysis;
pub mod digest;
pub mod feed;
pub mod session;
pub mod text;

pub use analysis::{build_articles_prompt, strip_json_code_fence, truncate_text};
pub use digest::{
    article_title, category_color, first_line_or_sentence, format_category_digest_description,
    format_digest_article_item, format_key_themes, sanitize_markdown_url,
};
pub use feed::{
    clean_text, collect_github_trending_placeholder, extract_atom_link, extract_attribute,
    extract_tag_text, find_blocks, parse_atom_entries, parse_feed_articles, parse_rss_items,
    rss_sources,
};
