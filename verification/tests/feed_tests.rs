use tech_radar::feed::{
    hacker_news_article, hacker_news_articles, hacker_news_story_selection, Article, HackerNewsItem,
    HACKER_NEWS_ITEM_LIMIT,
};
use tech_radar::{
    clean_text, collect_github_trending_placeholder, extract_atom_link, extract_attribute,
    extract_tag_text, find_blocks, parse_atom_entries, parse_feed_articles, parse_rss_items,
    rss_sources,
};

const RSS: &str = "<rss><channel><title>Feed</title>\
<item><title><![CDATA[First &amp; best]]></title><link>https://a.example/1</link>\
<description>Hello   world\n  again</description></item>\
<item><title>No link</title><description>x</description></item>\
<item><link> https://a.example/3 </link><content:encoded>Body &lt;b&gt;</content:encoded></item>\
</channel></rss>";

const ATOM: &str = "<feed><entry><title>Atom one</title>\
<link rel=\"self\" href=\"https://a.example/self\"/>\
<link rel=\"alternate\" href=\"https://a.example/alt\"/>\
<summary>Sum</summary></entry>\
<entry><title>Atom two</title><link href='https://a.example/two'/><content>C</content></entry>\
<entry><title>No link</title></entry></feed>";

fn urls(v: &[Article]) -> Vec<String> {
    v.iter().map(|a| a.url.clone()).collect()
}

#[test]
fn find_blocks_returns_each_delimited_block() {
    let b = find_blocks("x<a>1</a>y<a>2</a><a>3", "<a", "</a>");
    assert_eq!(b, vec!["<a>1</a>".to_string(), "<a>2</a>".to_string()]);
}

#[test]
fn find_blocks_without_markers_is_empty() {
    assert!(find_blocks("plain text", "<item", "</item>").is_empty());
    assert!(find_blocks("", "<item", "</item>").is_empty());
}

#[test]
fn extract_tag_text_takes_text_after_the_open_tag() {
    assert_eq!(extract_tag_text("<title lang=\"en\">Hi</title>", "title"), Some("Hi".to_string()));
    assert_eq!(extract_tag_text("<title>Hi", "title"), None);
    assert_eq!(extract_tag_text("<link></link>", "link"), Some(String::new()));
    assert_eq!(extract_tag_text("no tags", "title"), None);
}

#[test]
fn extract_attribute_prefers_double_quotes() {
    assert_eq!(extract_attribute("<link href=\"a\" x='b'", "href"), Some("a".to_string()));
    assert_eq!(extract_attribute("<link href='b'", "href"), Some("b".to_string()));
    assert_eq!(extract_attribute("<link href=\"unterminated href='b'", "href"), None);
    assert_eq!(extract_attribute("<link rel='x'", "href"), None);
}

#[test]
fn extract_atom_link_skips_other_relations() {
    let entry = "<link rel=\"self\" href=\"s\"/><link href=\"plain\"/>";
    assert_eq!(extract_atom_link(entry), Some("plain".to_string()));
    assert_eq!(extract_atom_link("<link rel='alternate' href='a'>"), Some("a".to_string()));
    assert_eq!(extract_atom_link("<link rel=\"self\" href=\"s\">"), None);
    assert_eq!(extract_atom_link("<link href=\"x\""), None);
}

#[test]
fn clean_text_decodes_and_collapses() {
    assert_eq!(clean_text("<![CDATA[  A &amp; B  ]]>"), "A & B");
    assert_eq!(clean_text("&quot;q&quot; &apos;s&apos; &lt;t&gt;"), "\"q\" 's' <t>");
    assert_eq!(clean_text("\t a\n\n b \u{a0}c "), "a b c");
    assert_eq!(clean_text(""), "");
    // Entities are decoded one after another, so a doubly escaped one ends up decoded.
    assert_eq!(clean_text("&amp;lt;"), "<");
}

#[test]
fn clean_text_is_single_spaced() {
    let r = clean_text("  one\t\ttwo \n three  ");
    assert_eq!(r, "one two three");
    assert!(!r.contains("  "));
    assert_eq!(r.trim(), r);
}

#[test]
fn parse_rss_items_keeps_items_with_links() {
    let a = parse_rss_items("Src", "https://feed", RSS);
    assert_eq!(a.len(), 2);
    assert_eq!(a[0].title, "First & best");
    assert_eq!(a[0].url, "https://a.example/1");
    assert_eq!(a[0].summary, "Hello world again");
    assert_eq!(a[0].source_name, "Src");
    assert_eq!(a[0].source_feed, "https://feed");
    assert_eq!(a[1].title, "Tanpa judul");
    assert_eq!(a[1].url, "https://a.example/3");
    assert_eq!(a[1].summary, "Body <b>");
}

#[test]
fn parse_atom_entries_reads_entry_links() {
    let a = parse_atom_entries("Src", "https://feed", ATOM);
    assert_eq!(urls(&a), vec!["https://a.example/alt".to_string(), "https://a.example/two".to_string()]);
    assert_eq!(a[0].title, "Atom one");
    assert_eq!(a[0].summary, "Sum");
    assert_eq!(a[1].summary, "C");
}

#[test]
fn parse_feed_articles_falls_back_to_atom() {
    assert_eq!(parse_feed_articles("S", "F", RSS).len(), 2);
    let a = parse_feed_articles("S", "F", ATOM);
    assert_eq!(a.len(), 2);
    assert!(a.iter().all(|x| x.source_name == "S" && x.source_feed == "F"));
    assert!(parse_feed_articles("S", "F", "<html></html>").is_empty());
}

#[test]
fn rss_sources_lists_five_feeds_in_order() {
    let s = rss_sources();
    let names: Vec<&str> = s.iter().map(|x| x.name).collect();
    assert_eq!(names, vec!["TLDR AI", "The Rundown AI", "The New Stack", "InfoQ", "Lenny's Newsletter"]);
    assert_eq!(s[0].url, "https://ai.tldr.tech/rss");
    assert_eq!(s[4].url, "https://www.lennysnewsletter.com/feed");
}

#[test]
fn github_trending_placeholder_is_empty() {
    assert!(collect_github_trending_placeholder().is_empty());
}

#[test]
fn hacker_news_article_fills_defaults() {
    let a = hacker_news_article(4242, None, None, None);
    assert_eq!(a.title, "Untitled Hacker News item");
    assert_eq!(a.url, "https://news.ycombinator.com/item?id=4242");
    assert_eq!(a.summary, "Hacker News top story with score 0.");
    assert_eq!(a.source_name, "Hacker News");
    assert_eq!(a.source_feed, "https://hacker-news.firebaseio.com/v0/topstories.json");
    let b = hacker_news_article(7, Some(" A  &amp; B ".to_string()), Some("https://x.y".to_string()), Some(1203));
    assert_eq!(b.title, "A & B");
    assert_eq!(b.url, "https://x.y");
    assert_eq!(b.summary, "Hacker News top story with score 1203.");
    assert_eq!(HACKER_NEWS_ITEM_LIMIT, 10);
}

#[test]
fn article_clone_keeps_fields() {
    let a = hacker_news_article(1, None, None, Some(5));
    let b = a.clone();
    assert_eq!(b.url, a.url);
    assert_eq!(b.summary, a.summary);
}

fn hn_item(title: &str) -> Option<HackerNewsItem> {
    Some(HackerNewsItem { title: Some(title.to_string()), url: None, score: Some(7) })
}

#[test]
fn hacker_news_selection_takes_the_first_ten() {
    let ids: Vec<u64> = (100..125).collect();
    assert_eq!(hacker_news_story_selection(&ids), (100..110).collect::<Vec<u64>>());
    assert_eq!(hacker_news_story_selection(&[3, 4]), vec![3, 4]);
}

#[test]
fn hacker_news_articles_one_per_selected_story() {
    let r = hacker_news_articles(Some(vec![5, 6]), vec![hn_item("A  b"), hn_item("C")]);
    assert_eq!(r.len(), 2);
    assert_eq!(r[0].title, "A b");
    assert_eq!(r[0].url, "https://news.ycombinator.com/item?id=5");
    assert_eq!(r[1].summary, "Hacker News top story with score 7.");
}

#[test]
fn hacker_news_articles_fail_as_a_whole() {
    assert!(hacker_news_articles(None, vec![]).is_empty());
    assert!(hacker_news_articles(Some(vec![5, 6]), vec![hn_item("A"), None]).is_empty());
    assert!(hacker_news_articles(Some(vec![5, 6]), vec![hn_item("A")]).is_empty());
    assert!(hacker_news_articles(Some(vec![]), vec![]).is_empty());
}
