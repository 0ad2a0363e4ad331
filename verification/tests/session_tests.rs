use tech_radar::feed::Article;
use tech_radar::session::{
    check_env_value, format_processed_urls, notice_text, parse_processed_urls,
    is_dry_run, skipped_processed_articles, run_step, select_new_articles, Action,
    Event, Notice, RunCounts, Stage, MAX_ARTICLES_PER_SESSION,
};

fn article(url: &str) -> Article {
    Article {
        source_name: "Src".to_string(),
        source_feed: "https://feed".to_string(),
        title: format!("Title {url}"),
        url: url.to_string(),
        summary: "Sum".to_string(),
    }
}

fn urls(v: &[Article]) -> Vec<String> {
    v.iter().map(|a| a.url.clone()).collect()
}

#[test]
fn select_new_articles_skips_processed_urls_in_order() {
    let collected = vec![article("https://a/1"), article("https://a/2"), article("https://a/3")];
    let processed = vec!["https://a/2".to_string()];
    let r = select_new_articles(&collected, &processed);
    assert_eq!(urls(&r), vec!["https://a/1".to_string(), "https://a/3".to_string()]);
    assert_eq!(r[1].title, "Title https://a/3");
}

#[test]
fn select_new_articles_stops_at_the_session_limit() {
    let collected: Vec<Article> = (0..45).map(|i| article(&format!("https://x/{i}"))).collect();
    let processed = vec!["https://x/0".to_string(), "https://x/5".to_string()];
    let r = select_new_articles(&collected, &processed);
    assert_eq!(r.len(), MAX_ARTICLES_PER_SESSION);
    assert_eq!(r[0].url, "https://x/1");
    assert_eq!(r[4].url, "https://x/6");
    assert_eq!(r[29].url, "https://x/31");
}

#[test]
fn select_new_articles_with_everything_processed_is_empty() {
    let collected = vec![article("https://a/1")];
    let processed = vec!["https://a/1".to_string()];
    assert!(select_new_articles(&collected, &processed).is_empty());
    assert!(select_new_articles(&Vec::new(), &processed).is_empty());
}

#[test]
fn select_new_articles_matches_urls_exactly() {
    let collected = vec![article("https://a/1/"), article("HTTPS://A/1")];
    let processed = vec!["https://a/1".to_string()];
    assert_eq!(select_new_articles(&collected, &processed).len(), 2);
}

#[test]
fn parse_processed_urls_trims_and_skips_blank_lines() {
    let r = parse_processed_urls("https://a/1\n  https://a/2  \r\n\n   \nhttps://a/3");
    assert_eq!(
        r,
        vec!["https://a/1".to_string(), "https://a/2".to_string(), "https://a/3".to_string()]
    );
    assert!(parse_processed_urls("").is_empty());
    assert!(parse_processed_urls("\n\n").is_empty());
    assert_eq!(parse_processed_urls("u\n"), vec!["u".to_string()]);
}

#[test]
fn check_env_value_accepts_a_set_value() {
    assert_eq!(
        check_env_value("OPENAI_API_KEY", Some(" key ".to_string())),
        Ok(" key ".to_string())
    );
}

#[test]
fn check_env_value_rejects_missing_or_blank() {
    let msg = "Variabel environment DISCORD_WEBHOOK_URL belum diisi.".to_string();
    assert_eq!(check_env_value("DISCORD_WEBHOOK_URL", None), Err(msg.clone()));
    assert_eq!(check_env_value("DISCORD_WEBHOOK_URL", Some("  \t".to_string())), Err(msg.clone()));
    assert_eq!(check_env_value("DISCORD_WEBHOOK_URL", Some(String::new())), Err(msg));
}

#[test]
fn notice_texts_are_the_fallback_messages() {
    assert_eq!(
        notice_text(Notice::NoNewArticles),
        "✅ Tech Radar test successful — workflow executed, but no new relevant updates were found."
    );
    assert_eq!(
        notice_text(Notice::NoCategoryQualified),
        "✅ Tech Radar test successful — workflow executed, but no category had at least 3 relevant updates."
    );
}

#[test]
fn run_with_nothing_new_sends_a_notice_and_ends() {
    let counts = RunCounts { collected: 7, filtered: 0, dry_run: false };
    let (s, a) = run_step(Stage::Selected, counts, Event::Begin);
    assert_eq!(s, Stage::NotifyingNoNews);
    assert_eq!(a, vec![Action::SendNotice(Notice::NoNewArticles)]);
    let (s, a) = run_step(s, counts, Event::Delivered);
    assert_eq!(s, Stage::Finished);
    assert_eq!(
        a,
        vec![
            Action::Report { collected: 7, filtered: 0, analyzed: 0, delivered: true },
            Action::Finish { ok: true },
        ]
    );
}

#[test]
fn run_with_news_delivers_then_records() {
    let counts = RunCounts { collected: 12, filtered: 4, dry_run: false };
    let (s, a) = run_step(Stage::Selected, counts, Event::Begin);
    assert_eq!((s, a), (Stage::Summarizing, vec![Action::Summarize]));
    let (s, a) = run_step(s, counts, Event::SummaryReady { embeds: 2 });
    assert_eq!((s, a), (Stage::Delivering, vec![Action::SendDigest]));
    let (s, a) = run_step(s, counts, Event::Delivered);
    assert_eq!(s, Stage::Recording);
    assert_eq!(
        a,
        vec![
            Action::Report { collected: 12, filtered: 4, analyzed: 4, delivered: true },
            Action::RecordProcessed,
        ]
    );
    let (s, a) = run_step(s, counts, Event::Recorded);
    assert_eq!((s, a), (Stage::Finished, vec![Action::Finish { ok: true }]));
}

#[test]
fn run_without_qualified_category_sends_notice_and_records() {
    let counts = RunCounts { collected: 3, filtered: 3, dry_run: false };
    let (s, a) = run_step(Stage::Summarizing, counts, Event::SummaryReady { embeds: 0 });
    assert_eq!(s, Stage::NotifyingNoCategory);
    assert_eq!(a, vec![Action::SendNotice(Notice::NoCategoryQualified)]);
    let (s, a) = run_step(s, counts, Event::Delivered);
    assert_eq!(s, Stage::Recording);
    assert_eq!(a[1], Action::RecordProcessed);
}

#[test]
fn run_failures_end_without_recording() {
    let counts = RunCounts { collected: 3, filtered: 2, dry_run: false };
    let (s, a) = run_step(Stage::Delivering, counts, Event::DeliveryFailed);
    assert_eq!(s, Stage::Finished);
    assert_eq!(
        a,
        vec![
            Action::Report { collected: 3, filtered: 2, analyzed: 2, delivered: false },
            Action::Finish { ok: false },
        ]
    );
    let (s, a) = run_step(Stage::Summarizing, counts, Event::SummaryFailed);
    assert_eq!((s, a), (Stage::Finished, vec![Action::Finish { ok: false }]));
    let (s, a) = run_step(Stage::Recording, counts, Event::RecordFailed);
    assert_eq!((s, a), (Stage::Finished, vec![Action::Finish { ok: false }]));
    let (s, a) = run_step(Stage::Finished, counts, Event::Begin);
    assert_eq!((s, a), (Stage::Finished, vec![Action::Finish { ok: false }]));
}

#[test]
fn format_processed_urls_writes_one_url_per_line() {
    let arts = vec![article("https://a/1"), article("https://a/2")];
    assert_eq!(format_processed_urls(&arts), "https://a/1\nhttps://a/2\n");
    assert_eq!(format_processed_urls(&[]), "");
}

#[test]
fn recorded_urls_read_back_and_are_not_selected_again() {
    let prev = "https://old/1\n".to_string();
    let run = vec![article("https://a/1"), article("https://a/2")];
    let record = format!("{prev}{}", format_processed_urls(&run));
    let processed = parse_processed_urls(&record);
    assert_eq!(
        processed,
        vec!["https://old/1".to_string(), "https://a/1".to_string(), "https://a/2".to_string()]
    );
    let later = vec![article("https://a/2"), article("https://b/1"), article("https://a/1")];
    assert_eq!(urls(&select_new_articles(&later, &processed)), vec!["https://b/1".to_string()]);
}

#[test]
fn skipped_articles_are_the_processed_ones_met_before_the_limit() {
    let mut collected: Vec<Article> = vec![article("https://p/0")];
    collected.extend((0..30).map(|i| article(&format!("https://n/{i}"))));
    collected.push(article("https://p/1"));
    let processed = vec!["https://p/0".to_string(), "https://p/1".to_string()];
    assert_eq!(urls(&skipped_processed_articles(&collected, &processed)), vec!["https://p/0".to_string()]);
    let short = vec![article("https://p/1"), article("https://n/0"), article("https://p/0")];
    assert_eq!(
        urls(&skipped_processed_articles(&short, &processed)),
        vec!["https://p/1".to_string(), "https://p/0".to_string()]
    );
}

#[test]
fn dry_run_is_asked_by_true_only() {
    assert!(is_dry_run(Some("true".to_string())));
    assert!(!is_dry_run(Some("TRUE".to_string())));
    assert!(!is_dry_run(Some("1".to_string())));
    assert!(!is_dry_run(None));
}

#[test]
fn dry_run_analyses_but_delivers_and_records_nothing() {
    let counts = RunCounts { collected: 12, filtered: 12, dry_run: true };
    let (s, a) = run_step(Stage::Selected, counts, Event::Begin);
    assert_eq!((s, a), (Stage::Summarizing, vec![Action::Summarize]));
    let (s, a) = run_step(s, counts, Event::SummaryReady { embeds: 3 });
    assert_eq!(s, Stage::Finished);
    assert_eq!(
        a,
        vec![
            Action::DryRunReport { collected: 12, filtered: 12, analyzed: 12, embeds: 3 },
            Action::Finish { ok: true },
        ]
    );
    let none = RunCounts { collected: 4, filtered: 0, dry_run: true };
    let (s, a) = run_step(Stage::Selected, none, Event::Begin);
    assert_eq!(s, Stage::Finished);
    assert_eq!(
        a,
        vec![
            Action::DryRunReport { collected: 4, filtered: 0, analyzed: 0, embeds: 0 },
            Action::Finish { ok: true },
        ]
    );
}
