use tech_radar::digest::{
    dedup_categorized_summary, discord_embeds_payload, discord_text_payload,
    format_discord_message, ArticleInfo, DiscordEmbed,
    CategorizedSummary, CategoryDigest, AGENTS_CATEGORY, AGENTS_COLOR_KEY,
};
use tech_radar::{
    article_title, category_color, first_line_or_sentence, format_category_digest_description,
    format_digest_article_item, format_key_themes, sanitize_markdown_url,
};

fn info(title: &str, url: &str, why: &str, strategic: &str) -> ArticleInfo {
    ArticleInfo {
        title: title.to_string(),
        source: "Src".to_string(),
        url: url.to_string(),
        why_this_matters: why.to_string(),
        strategic_implication: strategic.to_string(),
    }
}

fn digest(urls: &[&str]) -> CategoryDigest {
    CategoryDigest {
        summary: "Summary text".to_string(),
        key_themes: vec!["one".to_string()],
        articles: urls.iter().enumerate().map(|(i, u)| info(&format!("T{i}"), u, "Why.", "")).collect(),
    }
}

fn empty() -> CategoryDigest {
    CategoryDigest { summary: String::new(), key_themes: vec![], articles: vec![] }
}

fn summary() -> CategorizedSummary {
    CategorizedSummary {
        agentic_ai: digest(&["https://a/1", "https://a/2", "https://a/3"]),
        architecture_ai: digest(&["HTTPS://A/1/", "https://b/2", "https://b/3", "https://b/4"]),
        programming: digest(&["https://c/1", "https://c/2"]),
        tech_update: empty(),
        creator_insights: digest(&["https://d/1", "https://d/2", "https://d/3"]),
        certifications: digest(&["https://e/1", "https://e/2", "https://e/3"]),
    }
}

#[test]
fn first_line_or_sentence_cuts_at_line_and_full_stop() {
    assert_eq!(first_line_or_sentence("  First sentence. Second.\nNext line"), "First sentence");
    assert_eq!(first_line_or_sentence("No stop here\r\nsecond"), "No stop here");
    assert_eq!(first_line_or_sentence(".leading dot"), ".leading dot");
    assert_eq!(first_line_or_sentence("   "), "");
}

#[test]
fn article_title_uses_hook_for_creator_insights() {
    let a = info("  Title  ", "u", "Hook sentence. More.", "");
    assert_eq!(article_title(&a, true), "Hook sentence...");
    assert_eq!(article_title(&a, false), "Title");
    let long = info("T", "u", &"x".repeat(70), "");
    assert_eq!(article_title(&long, true), format!("{}...", "x".repeat(60)));
    let blank = info("   ", "u", "  ", "");
    assert_eq!(article_title(&blank, true), "Untitled update");
    assert_eq!(article_title(&blank, false), "Untitled update");
}

#[test]
fn sanitize_markdown_url_encodes_brackets() {
    assert_eq!(sanitize_markdown_url(" https://x.y/a_(b) "), "https://x.y/a_%28b%29");
    assert!(!sanitize_markdown_url("((()))").contains('('));
}

#[test]
fn format_digest_article_item_lines() {
    let a = info("Title", "https://x.y/(1)", "Because.", "Plan ahead");
    assert_eq!(
        format_digest_article_item(&a, false),
        "**Title** - [Read Article](https://x.y/%281%29)\nSource: Src\nWhy this matters: Because.\nStrategic implication: Plan ahead"
    );
    let b = ArticleInfo {
        title: "T".to_string(),
        source: " ".to_string(),
        url: "  ".to_string(),
        why_this_matters: String::new(),
        strategic_implication: "  ".to_string(),
    };
    assert_eq!(
        format_digest_article_item(&b, false),
        "**T**\nSource: Unknown source\nWhy this matters: Relevant to AI and engineering strategy."
    );
    let c = info("T", "u", "Hook. x", "");
    assert_eq!(format_digest_article_item(&c, true), "**Hook...** - [Read Thread](u)\nSource: Src\nWhy this matters: Hook. x");
}

#[test]
fn format_key_themes_takes_three() {
    let t: Vec<String> = vec![" a ", "", "b", "  ", "c", "d"].into_iter().map(String::from).collect();
    assert_eq!(format_key_themes(&t), "\u{2022} a\n\u{2022} b\n\u{2022} c");
    assert_eq!(format_key_themes(&[]), "\u{2022} No dominant themes identified");
    assert_eq!(format_key_themes(&[" ".to_string()]), "\u{2022} No dominant themes identified");
}

#[test]
fn format_category_digest_description_layout() {
    let d = digest(&["u1", "u2", "u3", "u4", "u5", "u6"]);
    let text = format_category_digest_description(&d, false);
    assert!(text.starts_with("\u{1F9E0} **Summary**\nSummary text\n\n\u{1F525} **Key Themes**\n\u{2022} one\n\n\u{1F4F0} **Top Updates**\n\n**T0** - [Read Article](u1)"));
    assert_eq!(text.matches("Read Article").count(), 5);
    assert!(!text.contains("(u6)"));
    let e = format_category_digest_description(&empty(), false);
    assert_eq!(e, "\u{1F9E0} **Summary**\nBelum ada ringkasan kategori yang cukup kuat.\n\n\u{1F525} **Key Themes**\n\u{2022} No dominant themes identified\n\n\u{1F4F0} **Top Updates**\n\n");
}

#[test]
fn category_color_table() {
    assert_eq!(category_color("Agentic AI"), 46_714);
    assert_eq!(category_color(AGENTS_COLOR_KEY), 46_714);
    assert_eq!(category_color(AGENTS_CATEGORY), 16_777_215);
    assert_eq!(category_color(""), 16_777_215);
    assert_eq!(category_color("Cloud Architecture"), 39_423);
    assert_eq!(category_color("Programming"), 10_182_117);
    assert_eq!(category_color("Tech Updates"), 15_817_653);
    assert_eq!(category_color("Creator Insights"), 16_763_904);
    assert_eq!(category_color("Certifications"), 16_777_215);
}

#[test]
fn dedup_leaves_out_repeated_urls_by_priority() {
    let d = dedup_categorized_summary(&summary());
    assert_eq!(d.agentic_ai.articles.len(), 3);
    // "HTTPS://A/1/" normalizes to the URL of an agents article, which has priority.
    let urls: Vec<&str> = d.architecture_ai.articles.iter().map(|a| a.url.as_str()).collect();
    assert_eq!(urls, vec!["https://b/2", "https://b/3", "https://b/4"]);
    assert_eq!(d.architecture_ai.summary, "Summary text");
    let mut same = summary();
    same.programming = digest(&["https://c/1", " https://c/1 ", "", "https://a/2"]);
    let d2 = dedup_categorized_summary(&same);
    let urls: Vec<&str> = d2.programming.articles.iter().map(|a| a.url.as_str()).collect();
    assert_eq!(urls, vec!["https://c/1", " https://c/1 ", ""]);
}

#[test]
fn repeats_within_one_category_are_all_rendered() {
    let mut s = summary();
    s.programming = digest(&["https://c/1", "https://c/1/", "https://c/2", "HTTPS://C/2"]);
    s.agentic_ai = digest(&["https://z/1", "https://z/1", "https://z/2"]);
    let embeds = format_discord_message(&s, false);
    let titles: Vec<&str> = embeds.iter().map(|e| e.title.as_str()).collect();
    assert_eq!(
        titles,
        vec![
            "\u{1F4F0} LINE TECH NEWS | AI Agents, Skills & Tools",
            "\u{1F4F0} LINE TECH NEWS | Cloud Architecture",
            "\u{1F4F0} LINE TECH NEWS | Programming",
            "\u{1F4F0} LINE TECH NEWS | Creator Insights",
        ]
    );
    assert_eq!(embeds[2].description.matches("Read Article").count(), 4);
    assert_eq!(embeds[0].description.matches("Read Article").count(), 3);
}

#[test]
fn discord_message_skips_small_categories_and_weekday_certifications() {
    let embeds = format_discord_message(&summary(), false);
    let titles: Vec<&str> = embeds.iter().map(|e| e.title.as_str()).collect();
    assert_eq!(
        titles,
        vec![
            "\u{1F4F0} LINE TECH NEWS | AI Agents, Skills & Tools",
            "\u{1F4F0} LINE TECH NEWS | Cloud Architecture",
            "\u{1F4F0} LINE TECH NEWS | Creator Insights",
        ]
    );
    assert_eq!(embeds[0].color, 46_714);
    assert_eq!(embeds[0].footer_text, "Tech Radar \u{2022} Morning Digest");
    assert_eq!(embeds[2].footer_text, "Tech Radar \u{2022} Creator Insights Digest");
    assert!(embeds[2].description.contains("Read Thread"));
    let monday = format_discord_message(&summary(), true);
    assert_eq!(monday.len(), 4);
    assert_eq!(monday[3].title, "\u{1F4F0} LINE TECH NEWS | Certifications");
    assert_eq!(monday[3].color, 16_777_215);
}

#[test]
fn digest_item_has_three_or_four_lines() {
    let a = info("Title", "https://x.y/1", "Because.", "");
    let item = format_digest_article_item(&a, false);
    assert!(item.starts_with(&format!("**{}**", article_title(&a, false))));
    assert_eq!(item.lines().count(), 3);
    assert!(item.lines().next().unwrap().ends_with("[Read Article](https://x.y/1)"));
    let b = info("Title", "", "Because.", "Act");
    let item = format_digest_article_item(&b, true);
    assert_eq!(item.lines().count(), 4);
    assert!(!item.contains("[Read Thread]("));
}

fn embed_value(e: &DiscordEmbed) -> serde_json::Value {
    let mut footer = serde_json::Map::new();
    footer.insert("text".to_string(), serde_json::Value::String(e.footer_text.clone()));
    let mut m = serde_json::Map::new();
    m.insert("title".to_string(), serde_json::Value::String(e.title.clone()));
    m.insert("color".to_string(), serde_json::Value::from(e.color));
    m.insert("description".to_string(), serde_json::Value::String(e.description.clone()));
    m.insert("footer".to_string(), serde_json::Value::Object(footer));
    serde_json::Value::Object(m)
}

#[test]
fn embeds_payload_is_the_json_serde_writes() {
    let e = DiscordEmbed {
        title: "\u{1F4F0} \"Q\" \\ x".to_string(),
        color: 46_714,
        description: "line\nnext\ttab\r\u{1}\u{8}\u{c}\u{1f}\u{7f} é".to_string(),
        footer_text: "Tech Radar \u{2022} Morning Digest".to_string(),
    };
    let f = DiscordEmbed { title: String::new(), color: 0, description: "/".to_string(), footer_text: "{}".to_string() };
    let embeds = vec![e, f];
    let mut outer = serde_json::Map::new();
    outer.insert(
        "embeds".to_string(),
        serde_json::Value::Array(embeds.iter().map(embed_value).collect()),
    );
    let expected = serde_json::to_string(&serde_json::Value::Object(outer)).unwrap();
    assert_eq!(discord_embeds_payload(&embeds), expected);
    assert_eq!(discord_embeds_payload(&[]), "{\"embeds\":[]}");
}

#[test]
fn text_payload_is_the_json_serde_writes() {
    let text = "✅ done — \"ok\"\n";
    let mut m = serde_json::Map::new();
    m.insert("content".to_string(), serde_json::Value::String(text.to_string()));
    let expected = serde_json::to_string(&serde_json::Value::Object(m)).unwrap();
    assert_eq!(discord_text_payload(text), expected);
    assert_eq!(discord_text_payload("a\u{0}"), "{\"content\":\"a\\u0000\"}");
}

#[test]
fn urls_match_on_scheme_and_host_case_only() {
    let mut s = summary();
    s.agentic_ai = digest(&["https://Example.COM/Path?Q=1", "https://z/2", "https://z/3"]);
    s.architecture_ai = digest(&[
        "HTTPS://example.com/Path?Q=1/",
        "https://example.com/path?q=1",
        "https://b/3",
        "https://b/4",
    ]);
    let d = dedup_categorized_summary(&s);
    let urls: Vec<&str> = d.architecture_ai.articles.iter().map(|a| a.url.as_str()).collect();
    assert_eq!(urls, vec!["https://example.com/path?q=1", "https://b/3", "https://b/4"]);
}

#[test]
fn categories_not_shown_take_no_urls() {
    let mut s = summary();
    s.agentic_ai = digest(&["https://b/2", "https://b/3"]);
    let d = dedup_categorized_summary(&s);
    assert_eq!(d.agentic_ai.articles.len(), 2);
    assert_eq!(d.architecture_ai.articles.len(), 4);
    let embeds = format_discord_message(&s, false);
    assert_eq!(embeds[0].title, "\u{1F4F0} LINE TECH NEWS | Cloud Architecture");
}
