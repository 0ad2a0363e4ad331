//! The morning digest: what the analysis step returns per category, and how it is rendered
//! into Discord embeds.

use vstd::prelude::*;
use vstd::string::StringExecFns;

use crate::session::{lemma_lines_of_line_break, lemma_lines_of_one, lines_from};
use crate::text::{
    ascii_lower, occurs_in,
    lemma_join_holds_each, lemma_occurs_within,
    append_decimal, decimal, occurs_at, lemma_concat_free, lemma_subrange_free, lemma_trim_free,
    append_chars, append_str, ascii_lowercase, ascii_lowercase_chars, char_views, chars_of,
    find_from, find_in, join, join_chars, keep_some, lemma_find_from, lemma_replace_char_free,
    replace_all, replace_str, string_views, strip_suffix_all, take_chars, take_first, to_string,
    trim, trim_chars, trim_str,
};

verus! {

/// One article as the analysis step ranks it.
pub struct ArticleInfo {
    pub title: String,
    pub source: String,
    pub url: String,
    pub why_this_matters: String,
    pub strategic_implication: String,
}

/// The text of an `ArticleInfo`'s fields.
pub struct ArticleInfoView {
    pub title: Seq<char>,
    pub source: Seq<char>,
    pub url: Seq<char>,
    pub why_this_matters: Seq<char>,
    pub strategic_implication: Seq<char>,
}

impl View for ArticleInfo {
    type V = ArticleInfoView;

    open spec fn view(&self) -> ArticleInfoView {
        ArticleInfoView {
            title: self.title@,
            source: self.source@,
            url: self.url@,
            why_this_matters: self.why_this_matters@,
            strategic_implication: self.strategic_implication@,
        }
    }
}

impl Clone for ArticleInfo {
    fn clone(&self) -> (r: Self)
        ensures
            r@ == self@,
    {
        ArticleInfo {
            title: self.title.clone(),
            source: self.source.clone(),
            url: self.url.clone(),
            why_this_matters: self.why_this_matters.clone(),
            strategic_implication: self.strategic_implication.clone(),
        }
    }
}

/// The first line of `t`, trimmed: `t.lines().next().unwrap_or(t).trim()`.
pub open spec fn first_line(t: Seq<char>) -> Seq<char> {
    trim(
        match find_from(t, seq!['\n'], 0) {
            Some(k) => t.take(k),
            None => t,
        },
    )
}

/// The first line of `value`, cut before its first full stop where one follows some text.
pub open spec fn first_line_or_sentence_of(value: Seq<char>) -> Seq<char> {
    let line = first_line(trim(value));
    match find_from(line, seq!['.'], 0) {
        Some(e) => if e > 0 {
            trim(line.take(e))
        } else {
            line
        },
        None => line,
    }
}

fn first_line_or_sentence_chars(value: &[char]) -> (v: Vec<char>)
    ensures
        v@ == first_line_or_sentence_of(value@),
{
    let t = trim_chars(value);
    let mut nl: Vec<char> = Vec::new();
    nl.push('\n');
    assert(nl@ =~= seq!['\n']);
    proof {
        lemma_find_from(t@, nl@, 0);
    }
    let line_raw = match find_in(t.as_slice(), nl.as_slice(), 0) {
        Some(k) => crate::text::sub_chars(t.as_slice(), 0, k),
        None => t,
    };
    proof {
        if let Some(k) = find_from(t@, seq!['\n'], 0) {
            assert(t@.subrange(0, k) =~= t@.take(k));
        }
    }
    let line = trim_chars(line_raw.as_slice());
    let mut dot: Vec<char> = Vec::new();
    dot.push('.');
    assert(dot@ =~= seq!['.']);
    proof {
        lemma_find_from(line@, dot@, 0);
    }
    match find_in(line.as_slice(), dot.as_slice(), 0) {
        Some(e) => {
            if e > 0 {
                let head = crate::text::sub_chars(line.as_slice(), 0, e);
                assert(line@.subrange(0, e as int) =~= line@.take(e as int));
                trim_chars(head.as_slice())
            } else {
                line
            }
        },
        None => line,
    }
}

/// The first line of `value`, cut before its first full stop where one follows some text.
pub fn first_line_or_sentence(value: &str) -> (r: String)
    ensures
        r@ == first_line_or_sentence_of(value@),
{
    let v = chars_of(value);
    let r = first_line_or_sentence_chars(v.as_slice());
    to_string(&r)
}

/// The heading of an article in the digest: for creator insights a hook of at most sixty
/// characters taken from why it matters, where that leaves any text; else the trimmed title,
/// or a placeholder for an empty one.
pub open spec fn article_heading(article: ArticleInfoView, is_creator_insights: bool) -> Seq<
    char,
> {
    let hook = take_chars(first_line_or_sentence_of(trim(article.why_this_matters)), 60);
    if is_creator_insights && trim(hook).len() > 0 {
        trim(hook) + "..."@
    } else if trim(article.title).len() == 0 {
        "Untitled update"@
    } else {
        trim(article.title)
    }
}

fn article_title_chars(article: &ArticleInfo, is_creator_insights: bool) -> (v: Vec<char>)
    ensures
        v@ == article_heading(article@, is_creator_insights),
{
    if is_creator_insights {
        let why = trim_str(article.why_this_matters.as_str());
        let source = first_line_or_sentence_chars(why.as_slice());
        let n: usize = if source.len() <= 60 {
            source.len()
        } else {
            60
        };
        let hook = crate::text::sub_chars(source.as_slice(), 0, n);
        assert(hook@ =~= take_chars(source@, 60));
        let h = trim_chars(hook.as_slice());
        if h.len() > 0 {
            let mut out = h;
            append_str(&mut out, "...");
            return out;
        }
    }
    let t = trim_str(article.title.as_str());
    if t.len() == 0 {
        chars_of("Untitled update")
    } else {
        t
    }
}

/// The heading of an article in the digest.
pub fn article_title(article: &ArticleInfo, is_creator_insights: bool) -> (r: String)
    ensures
        r@ == article_heading(article@, is_creator_insights),
{
    let v = article_title_chars(article, is_creator_insights);
    to_string(&v)
}

/// A link target that Markdown cannot misread: trimmed, with its round brackets
/// percent-encoded.
pub open spec fn markdown_url(url: Seq<char>) -> Seq<char> {
    replace_all(replace_all(trim(url), "("@, "%28"@), ")"@, "%29"@)
}

fn sanitize_markdown_url_chars(url: &[char]) -> (v: Vec<char>)
    ensures
        v@ == markdown_url(url@),
{
    proof {
        reveal_strlit("(");
        reveal_strlit(")");
    }
    let t = trim_chars(url);
    let a = replace_str(t.as_slice(), "(", "%28");
    replace_str(a.as_slice(), ")", "%29")
}

/// A link target that Markdown cannot misread.
pub fn sanitize_markdown_url(url: &str) -> (r: String)
    ensures
        r@ == markdown_url(url@),
{
    let u = chars_of(url);
    let v = sanitize_markdown_url_chars(u.as_slice());
    to_string(&v)
}

/// `s` trimmed, or `default` where nothing is left.
pub open spec fn trimmed_or(s: Seq<char>, default: Seq<char>) -> Seq<char> {
    if trim(s).len() == 0 {
        default
    } else {
        trim(s)
    }
}

fn trimmed_or_chars(s: &str, default: &str) -> (v: Vec<char>)
    ensures
        v@ == trimmed_or(s@, default@),
{
    let t = trim_str(s);
    if t.len() == 0 {
        chars_of(default)
    } else {
        t
    }
}

/// The link line of an article of the digest: its heading in bold, followed, where it has a
/// URL, by a link labelled by the kind of digest.
pub open spec fn digest_title_line(article: ArticleInfoView, is_creator_insights: bool) -> Seq<
    char,
> {
    let title = article_heading(article, is_creator_insights);
    let label = if is_creator_insights {
        "Read Thread"@
    } else {
        "Read Article"@
    };
    if trim(article.url).len() == 0 {
        "**"@ + title + "**"@
    } else {
        "**"@ + title + "** - ["@ + label + "]("@ + markdown_url(article.url) + ")"@
    }
}

/// One article of the digest: its heading (linked where it has a URL), its source, why it
/// matters and, where given, its strategic implication, one per line.
pub open spec fn digest_article_item(article: ArticleInfoView, is_creator_insights: bool) -> Seq<
    char,
> {
    let source = trimmed_or(article.source, "Unknown source"@);
    let why = trimmed_or(article.why_this_matters, "Relevant to AI and engineering strategy."@);
    let strategic = trim(article.strategic_implication);
    let title_line = digest_title_line(article, is_creator_insights);
    let base = title_line + "\nSource: "@ + source + "\nWhy this matters: "@ + why;
    if strategic.len() == 0 {
        base
    } else {
        base + "\nStrategic implication: "@ + strategic
    }
}

fn digest_article_item_chars(article: &ArticleInfo, is_creator_insights: bool) -> (v: Vec<char>)
    ensures
        v@ == digest_article_item(article@, is_creator_insights),
{
    let title = article_title_chars(article, is_creator_insights);
    let source = trimmed_or_chars(article.source.as_str(), "Unknown source");
    let why = trimmed_or_chars(
        article.why_this_matters.as_str(),
        "Relevant to AI and engineering strategy.",
    );
    let strategic = trim_str(article.strategic_implication.as_str());
    let url = trim_str(article.url.as_str());
    let mut out = chars_of("**");
    append_chars(&mut out, title.as_slice());
    if url.len() == 0 {
        append_str(&mut out, "**");
    } else {
        append_str(&mut out, "** - [");
        if is_creator_insights {
            append_str(&mut out, "Read Thread");
        } else {
            append_str(&mut out, "Read Article");
        }
        append_str(&mut out, "](");
        let u = chars_of(article.url.as_str());
        let m = sanitize_markdown_url_chars(u.as_slice());
        append_chars(&mut out, m.as_slice());
        append_str(&mut out, ")");
    }
    append_str(&mut out, "\nSource: ");
    append_chars(&mut out, source.as_slice());
    append_str(&mut out, "\nWhy this matters: ");
    append_chars(&mut out, why.as_slice());
    if strategic.len() > 0 {
        append_str(&mut out, "\nStrategic implication: ");
        append_chars(&mut out, strategic.as_slice());
    }
    out
}

/// One article of the digest, as Markdown.
pub fn format_digest_article_item(article: &ArticleInfo, is_creator_insights: bool) -> (r: String)
    ensures
        r@ == digest_article_item(article@, is_creator_insights),
{
    let v = digest_article_item_chars(article, is_creator_insights);
    to_string(&v)
}


/// The bullet line for a key theme, where it holds any text once trimmed.
pub open spec fn theme_bullet(theme: Seq<char>) -> Option<Seq<char>> {
    if trim(theme).len() > 0 {
        Some("\u{2022} "@ + trim(theme))
    } else {
        None
    }
}

/// The bullet lines of the first three key themes that hold any text.
pub open spec fn key_theme_lines(themes: Seq<Seq<char>>) -> Seq<Seq<char>> {
    take_first(keep_some(themes.map_values(|t: Seq<char>| theme_bullet(t))), 3)
}

/// The key themes as Markdown bullets, one per line, or a placeholder line where none holds
/// any text.
pub open spec fn key_themes_text(themes: Seq<Seq<char>>) -> Seq<char> {
    if key_theme_lines(themes).len() == 0 {
        "\u{2022} No dominant themes identified"@
    } else {
        join(key_theme_lines(themes), "\n"@)
    }
}

fn key_themes_chars(themes: &[String]) -> (v: Vec<char>)
    ensures
        v@ == key_themes_text(string_views(themes@)),
{
    let ghost bullets = string_views(themes@).map_values(|t: Seq<char>| theme_bullet(t));
    let mut all: Vec<Vec<char>> = Vec::new();
    let mut i: usize = 0;
    while i < themes.len()
        invariant
            i <= themes@.len(),
            bullets == string_views(themes@).map_values(|t: Seq<char>| theme_bullet(t)),
            char_views(all@) == keep_some(bullets.take(i as int)),
        decreases themes@.len() - i,
    {
        let t = trim_str(themes[i].as_str());
        assert(bullets.take(i + 1).drop_last() =~= bullets.take(i as int));
        assert(bullets.take(i + 1).last() == bullets[i as int]);
        if t.len() > 0 {
            let mut b = chars_of("\u{2022} ");
            append_chars(&mut b, t.as_slice());
            all.push(b);
        }
        i = i + 1;
        assert(char_views(all@) =~= keep_some(bullets.take(i as int)));
    }
    assert(bullets.take(i as int) =~= bullets);
    let mut lines: Vec<Vec<char>> = Vec::new();
    let mut k: usize = 0;
    while k < all.len() && k < 3
        invariant
            k <= all@.len(),
            k <= 3,
            char_views(lines@) == char_views(all@).take(k as int),
        decreases all@.len() - k,
    {
        let line = crate::text::sub_chars(all[k].as_slice(), 0, all[k].len());
        assert(all@[k as int]@.subrange(0, all@[k as int]@.len() as int) =~= all@[k as int]@);
        let ghost prev = char_views(lines@);
        lines.push(line);
        assert(char_views(lines@) =~= prev.push(all@[k as int]@));
        k = k + 1;
        assert(char_views(lines@) =~= char_views(all@).take(k as int));
    }
    assert(char_views(lines@) =~= take_first(char_views(all@), 3));
    if lines.len() == 0 {
        chars_of("\u{2022} No dominant themes identified")
    } else {
        let nl = chars_of("\n");
        join_chars(&lines, nl.as_slice())
    }
}

/// The key themes as Markdown bullets.
pub fn format_key_themes(themes: &[String]) -> (r: String)
    ensures
        r@ == key_themes_text(string_views(themes@)),
{
    let v = key_themes_chars(themes);
    to_string(&v)
}

/// What the analysis step says of one category.
pub struct CategoryDigest {
    pub summary: String,
    pub key_themes: Vec<String>,
    pub articles: Vec<ArticleInfo>,
}

/// The text of a `CategoryDigest`.
pub struct CategoryDigestView {
    pub summary: Seq<char>,
    pub key_themes: Seq<Seq<char>>,
    pub articles: Seq<ArticleInfoView>,
}

/// The views of the articles.
pub open spec fn info_views(v: Seq<ArticleInfo>) -> Seq<ArticleInfoView> {
    Seq::new(v.len(), |i: int| v[i]@)
}

impl View for CategoryDigest {
    type V = CategoryDigestView;

    open spec fn view(&self) -> CategoryDigestView {
        CategoryDigestView {
            summary: self.summary@,
            key_themes: string_views(self.key_themes@),
            articles: info_views(self.articles@),
        }
    }
}

/// The most articles that one category shows.
pub const MAX_ARTICLES_PER_CATEGORY: usize = 5;

/// The fewest articles that a category needs to be shown at all.
pub const MIN_ARTICLES_PER_CATEGORY: usize = 3;

/// The body of a category's embed: its summary (or a placeholder), its key themes and its
/// first five articles, under three headings.
pub open spec fn category_description(digest: CategoryDigestView, is_creator_insights: bool) -> Seq<
    char,
> {
    "\u{1F9E0} **Summary**\n"@ + trimmed_or(
        digest.summary,
        "Belum ada ringkasan kategori yang cukup kuat."@,
    ) + "\n\n\u{1F525} **Key Themes**\n"@ + key_themes_text(digest.key_themes)
        + "\n\n\u{1F4F0} **Top Updates**\n\n"@ + join(
        take_first(digest.articles, MAX_ARTICLES_PER_CATEGORY as nat).map_values(
            |a: ArticleInfoView| digest_article_item(a, is_creator_insights),
        ),
        "\n\n"@,
    )
}

fn category_description_chars(digest: &CategoryDigest, is_creator_insights: bool) -> (v: Vec<char>)
    ensures
        v@ == category_description(digest@, is_creator_insights),
{
    let summary = trimmed_or_chars(
        digest.summary.as_str(),
        "Belum ada ringkasan kategori yang cukup kuat.",
    );
    let themes = key_themes_chars(digest.key_themes.as_slice());
    let ghost shown = take_first(info_views(digest.articles@), MAX_ARTICLES_PER_CATEGORY as nat);
    let mut items: Vec<Vec<char>> = Vec::new();
    let mut i: usize = 0;
    while i < digest.articles.len() && i < MAX_ARTICLES_PER_CATEGORY
        invariant
            i <= digest.articles@.len(),
            i <= MAX_ARTICLES_PER_CATEGORY,
            shown == take_first(info_views(digest.articles@), MAX_ARTICLES_PER_CATEGORY as nat),
            char_views(items@) == shown.map_values(
                |a: ArticleInfoView| digest_article_item(a, is_creator_insights),
            ).take(i as int),
        decreases digest.articles@.len() - i,
    {
        let item = digest_article_item_chars(&digest.articles[i], is_creator_insights);
        assert(shown[i as int] == digest.articles@[i as int]@);
        let ghost prev = char_views(items@);
        items.push(item);
        assert(char_views(items@) =~= prev.push(item@));
        i = i + 1;
        assert(char_views(items@) =~= shown.map_values(
            |a: ArticleInfoView| digest_article_item(a, is_creator_insights),
        ).take(i as int));
    }
    assert(shown.map_values(|a: ArticleInfoView| digest_article_item(a, is_creator_insights)).take(
        i as int,
    ) =~= shown.map_values(|a: ArticleInfoView| digest_article_item(a, is_creator_insights)));
    let sep = chars_of("\n\n");
    let articles = join_chars(&items, sep.as_slice());
    let mut out = chars_of("\u{1F9E0} **Summary**\n");
    append_chars(&mut out, summary.as_slice());
    append_str(&mut out, "\n\n\u{1F525} **Key Themes**\n");
    append_chars(&mut out, themes.as_slice());
    append_str(&mut out, "\n\n\u{1F4F0} **Top Updates**\n\n");
    append_chars(&mut out, articles.as_slice());
    out
}

/// The body of a category's embed, as Markdown.
pub fn format_category_digest_description(digest: &CategoryDigest, is_creator_insights: bool) -> (r:
    String)
    ensures
        r@ == category_description(digest@, is_creator_insights),
{
    let v = category_description_chars(digest, is_creator_insights);
    to_string(&v)
}


/// The display name of the category that the analysis step files under `agentic_ai`.
pub const AGENTS_CATEGORY: &'static str = "AI Agents, Skills & Tools";

/// The name under which the agents category had its colour before it got its display name.
pub const AGENTS_COLOR_KEY: &'static str = "Agentic AI";

/// The embed colour of a category.
pub open spec fn color_of(name: Seq<char>) -> u32 {
    if name == AGENTS_COLOR_KEY@ {
        46_714
    } else if name == "Cloud Architecture"@ {
        39_423
    } else if name == "Programming"@ {
        10_182_117
    } else if name == "Tech Updates"@ {
        15_817_653
    } else if name == "Creator Insights"@ {
        16_763_904
    } else {
        16_777_215
    }
}

fn is_named(name: &[char], candidate: &str) -> (r: bool)
    ensures
        r == (name@ == candidate@),
{
    let c = chars_of(candidate);
    crate::text::chars_eq(name, c.as_slice())
}

/// The embed colour of a category; white for a name it does not know.
pub fn category_color(category_name: &str) -> (r: u32)
    ensures
        r == color_of(category_name@),
{
    let n = chars_of(category_name);
    if is_named(n.as_slice(), AGENTS_COLOR_KEY) {
        46_714
    } else if is_named(n.as_slice(), "Cloud Architecture") {
        39_423
    } else if is_named(n.as_slice(), "Programming") {
        10_182_117
    } else if is_named(n.as_slice(), "Tech Updates") {
        15_817_653
    } else if is_named(n.as_slice(), "Creator Insights") {
        16_763_904
    } else {
        16_777_215
    }
}

/// The first index at or after `k` of a `/`, `?` or `#` in `s`, or its length where none
/// follows.
pub open spec fn path_start(s: Seq<char>, k: int) -> int
    decreases s.len() - k,
{
    if k < 0 || k >= s.len() {
        s.len() as int
    } else if s[k] == '/' || s[k] == '?' || s[k] == '#' {
        k
    } else {
        path_start(s, k + 1)
    }
}

/// Where the scheme and host of a URL end: at the path, query or fragment that follows its
/// `://`; at its start where it has no `://`.
pub open spec fn host_end(s: Seq<char>) -> int {
    match find_from(s, "://"@, 0) {
        Some(i) => path_start(s, i + 3),
        None => 0,
    }
}

/// The URL by which articles count as the same: trimmed, without trailing slashes, with the
/// ASCII capitals of its scheme and host made small; its path, query and fragment unchanged.
pub open spec fn normalized_url(url: Seq<char>) -> Seq<char> {
    let t = strip_suffix_all(trim(url), "/"@);
    ascii_lowercase(t.take(host_end(t))) + t.skip(host_end(t))
}

fn normalized_url_chars(url: &str) -> (v: Vec<char>)
    ensures
        v@ == normalized_url(url@),
{
    let t = trim_str(url);
    let slash = chars_of("/");
    let s = crate::text::strip_suffix_chars(t.as_slice(), slash.as_slice());
    let sep = chars_of("://");
    proof {
        reveal_strlit("://");
        lemma_find_from(s@, sep@, 0);
    }
    assert(sep@.len() == 3);
    let e: usize = match find_in(s.as_slice(), sep.as_slice(), 0) {
        None => 0,
        Some(i) => {
            assert(occurs_at(s@, sep@, i as int));
            assert(i + 3 <= s@.len());
            let n = s.len();
            assert(i + 3 <= n);
            let mut k: usize = i + 3;
            while k < s.len() && !(s[k] == '/' || s[k] == '?' || s[k] == '#')
                invariant
                    i + 3 <= s@.len(),
                    i + 3 <= k <= s@.len(),
                    path_start(s@, i + 3) == path_start(s@, k as int),
                decreases s@.len() - k,
            {
                k = k + 1;
            }
            k
        },
    };
    assert(e as int == host_end(s@));
    let head = crate::text::sub_chars(s.as_slice(), 0, e);
    let mut out = ascii_lowercase_chars(head.as_slice());
    let tail = crate::text::sub_chars(s.as_slice(), e, s.len());
    append_chars(&mut out, tail.as_slice());
    assert(s@.subrange(0, e as int) =~= s@.take(e as int));
    assert(s@.subrange(e as int, s@.len() as int) =~= s@.skip(e as int));
    out
}

/// The article's normalized URL, where it is not empty.
pub open spec fn url_key(a: ArticleInfoView) -> Option<Seq<char>> {
    if normalized_url(a.url).len() > 0 {
        Some(normalized_url(a.url))
    } else {
        None
    }
}

/// The non-empty normalized URLs of the articles, in order.
pub open spec fn url_keys(arts: Seq<ArticleInfoView>) -> Seq<Seq<char>> {
    keep_some(arts.map_values(|a: ArticleInfoView| url_key(a)))
}

/// The article has a non-empty normalized URL that is among `seen`.
pub open spec fn is_repeat(a: ArticleInfoView, seen: Seq<Seq<char>>) -> bool {
    url_key(a) matches Some(k) && seen.contains(k)
}

/// The articles, in order, without those whose normalized URL is among `seen`. An article
/// with an empty URL is always kept, and articles of one category that share a URL all stay.
pub open spec fn dedup_infos(arts: Seq<ArticleInfoView>, seen: Seq<Seq<char>>) -> Seq<
    ArticleInfoView,
>
    decreases arts.len(),
{
    if arts.len() == 0 {
        seq![]
    } else {
        let kept = dedup_infos(arts.drop_last(), seen);
        if is_repeat(arts.last(), seen) {
            kept
        } else {
            kept.push(arts.last())
        }
    }
}

fn dedup_article_infos(arts: &Vec<ArticleInfo>, seen: &Vec<Vec<char>>) -> (r: Vec<ArticleInfo>)
    ensures
        info_views(r@) == dedup_infos(info_views(arts@), char_views(seen@)),
{
    let ghost src = info_views(arts@);
    let ghost seen0 = char_views(seen@);
    let mut kept: Vec<ArticleInfo> = Vec::new();
    let mut i: usize = 0;
    while i < arts.len()
        invariant
            i <= arts@.len(),
            src == info_views(arts@),
            seen0 == char_views(seen@),
            info_views(kept@) == dedup_infos(src.take(i as int), seen0),
        decreases arts@.len() - i,
    {
        assert(src.take(i + 1).drop_last() =~= src.take(i as int));
        assert(src.take(i + 1).last() == arts@[i as int]@);
        let key = normalized_url_chars(arts[i].url.as_str());
        if key.len() == 0 || !crate::text::contains_chars(seen, key.as_slice()) {
            let ghost prev = info_views(kept@);
            kept.push(arts[i].clone());
            assert(info_views(kept@) =~= prev.push(arts@[i as int]@));
        }
        i = i + 1;
    }
    assert(src.take(i as int) =~= src);
    kept
}

fn push_url_keys(seen: &mut Vec<Vec<char>>, arts: &Vec<ArticleInfo>)
    ensures
        char_views(final(seen)@) == char_views(old(seen)@) + url_keys(info_views(arts@)),
{
    let ghost src = info_views(arts@);
    let ghost seen0 = char_views(seen@);
    let mut i: usize = 0;
    while i < arts.len()
        invariant
            i <= arts@.len(),
            src == info_views(arts@),
            char_views(seen@) == seen0 + url_keys(src.take(i as int)),
        decreases arts@.len() - i,
    {
        proof {
            lemma_url_keys_push(src.take(i as int), src[i as int]);
            assert(src.take(i as int).push(src[i as int]) =~= src.take(i + 1));
        }
        let key = normalized_url_chars(arts[i].url.as_str());
        let ghost prev = char_views(seen@);
        if key.len() > 0 {
            seen.push(key);
            assert(char_views(seen@) =~= prev.push(normalized_url(src[i as int].url)));
        }
        i = i + 1;
        assert(char_views(seen@) =~= seen0 + url_keys(src.take(i as int)));
    }
    assert(src.take(i as int) =~= src);
}


/// What the analysis step returns: one digest per category.
pub struct CategorizedSummary {
    pub agentic_ai: CategoryDigest,
    pub architecture_ai: CategoryDigest,
    pub programming: CategoryDigest,
    pub tech_update: CategoryDigest,
    pub creator_insights: CategoryDigest,
    pub certifications: CategoryDigest,
}

/// The text of a `CategorizedSummary`.
pub struct CategorizedSummaryView {
    pub agentic_ai: CategoryDigestView,
    pub architecture_ai: CategoryDigestView,
    pub programming: CategoryDigestView,
    pub tech_update: CategoryDigestView,
    pub creator_insights: CategoryDigestView,
    pub certifications: CategoryDigestView,
}

impl View for CategorizedSummary {
    type V = CategorizedSummaryView;

    open spec fn view(&self) -> CategorizedSummaryView {
        CategorizedSummaryView {
            agentic_ai: self.agentic_ai@,
            architecture_ai: self.architecture_ai@,
            programming: self.programming@,
            tech_update: self.tech_update@,
            creator_insights: self.creator_insights@,
            certifications: self.certifications@,
        }
    }
}

/// `digest` with its articles replaced.
pub open spec fn with_articles(digest: CategoryDigestView, articles: Seq<ArticleInfoView>) -> CategoryDigestView {
    CategoryDigestView { summary: digest.summary, key_themes: digest.key_themes, articles }
}

/// The non-empty normalized URLs that a category shows: those of its articles where it keeps
/// enough of them to be shown, else none.
pub open spec fn shown_keys(arts: Seq<ArticleInfoView>) -> Seq<Seq<char>> {
    if arts.len() >= MIN_ARTICLES_PER_CATEGORY {
        url_keys(arts)
    } else {
        seq![]
    }
}

/// The summary with each article left out whose normalized URL a higher-priority category
/// shows, the categories taken in priority order: agents, cloud architecture, programming,
/// tech updates, creator insights, certifications. A category left with too few articles to
/// be shown takes no URL from those after it.
pub open spec fn dedup_summary(s: CategorizedSummaryView) -> CategorizedSummaryView {
    let a1 = dedup_infos(s.agentic_ai.articles, seq![]);
    let k1 = shown_keys(a1);
    let a2 = dedup_infos(s.architecture_ai.articles, k1);
    let k2 = k1 + shown_keys(a2);
    let a3 = dedup_infos(s.programming.articles, k2);
    let k3 = k2 + shown_keys(a3);
    let a4 = dedup_infos(s.tech_update.articles, k3);
    let k4 = k3 + shown_keys(a4);
    let a5 = dedup_infos(s.creator_insights.articles, k4);
    let k5 = k4 + shown_keys(a5);
    let a6 = dedup_infos(s.certifications.articles, k5);
    CategorizedSummaryView {
        agentic_ai: with_articles(s.agentic_ai, a1),
        architecture_ai: with_articles(s.architecture_ai, a2),
        programming: with_articles(s.programming, a3),
        tech_update: with_articles(s.tech_update, a4),
        creator_insights: with_articles(s.creator_insights, a5),
        certifications: with_articles(s.certifications, a6),
    }
}

fn copy_strings(v: &Vec<String>) -> (r: Vec<String>)
    ensures
        string_views(r@) == string_views(v@),
{
    let mut out: Vec<String> = Vec::new();
    let mut i: usize = 0;
    while i < v.len()
        invariant
            i <= v@.len(),
            string_views(out@) == string_views(v@).take(i as int),
        decreases v@.len() - i,
    {
        let ghost prev = string_views(out@);
        out.push(v[i].clone());
        i = i + 1;
        assert(string_views(out@) =~= prev.push(v@[i - 1]@));
        assert(string_views(out@) =~= string_views(v@).take(i as int));
    }
    assert(string_views(v@).take(i as int) =~= string_views(v@));
    out
}

fn dedup_digest(digest: &CategoryDigest, seen: &mut Vec<Vec<char>>) -> (r: CategoryDigest)
    ensures
        r@ == with_articles(digest@, dedup_infos(digest@.articles, char_views(old(seen)@))),
        char_views(final(seen)@) == char_views(old(seen)@) + shown_keys(r@.articles),
{
    let articles = dedup_article_infos(&digest.articles, seen);
    if articles.len() >= MIN_ARTICLES_PER_CATEGORY {
        push_url_keys(seen, &articles);
    } else {
        assert(char_views(seen@) + shown_keys(info_views(articles@)) =~= char_views(seen@));
    }
    CategoryDigest {
        summary: digest.summary.clone(),
        key_themes: copy_strings(&digest.key_themes),
        articles,
    }
}

/// The summary without repeated articles: each article whose normalized URL a higher-priority
/// category shows is left out.
pub fn dedup_categorized_summary(summary: &CategorizedSummary) -> (r: CategorizedSummary)
    ensures
        r@ == dedup_summary(summary@),
{
    let mut seen: Vec<Vec<char>> = Vec::new();
    assert(char_views(seen@) =~= Seq::<Seq<char>>::empty());
    let agentic_ai = dedup_digest(&summary.agentic_ai, &mut seen);
    let architecture_ai = dedup_digest(&summary.architecture_ai, &mut seen);
    let programming = dedup_digest(&summary.programming, &mut seen);
    let tech_update = dedup_digest(&summary.tech_update, &mut seen);
    let creator_insights = dedup_digest(&summary.creator_insights, &mut seen);
    let certifications = dedup_digest(&summary.certifications, &mut seen);
    CategorizedSummary {
        agentic_ai,
        architecture_ai,
        programming,
        tech_update,
        creator_insights,
        certifications,
    }
}

/// One Discord embed of the digest.
pub struct DiscordEmbed {
    pub title: String,
    pub color: u32,
    pub description: String,
    pub footer_text: String,
}

/// The text of a `DiscordEmbed`.
pub struct DiscordEmbedView {
    pub title: Seq<char>,
    pub color: u32,
    pub description: Seq<char>,
    pub footer_text: Seq<char>,
}

impl View for DiscordEmbed {
    type V = DiscordEmbedView;

    open spec fn view(&self) -> DiscordEmbedView {
        DiscordEmbedView {
            title: self.title@,
            color: self.color,
            description: self.description@,
            footer_text: self.footer_text@,
        }
    }
}

/// The views of the embeds.
pub open spec fn embed_views(v: Seq<DiscordEmbed>) -> Seq<DiscordEmbedView> {
    Seq::new(v.len(), |i: int| v[i]@)
}

/// The embed of a category, in the colour `color`, where it has at least the fewest articles
/// a category needs.
pub open spec fn category_embed(
    name: Seq<char>,
    color: u32,
    digest: CategoryDigestView,
    is_creator_insights: bool,
) -> Seq<DiscordEmbedView> {
    if digest.articles.len() < MIN_ARTICLES_PER_CATEGORY {
        seq![]
    } else {
        seq![
            DiscordEmbedView {
                title: "\u{1F4F0} LINE TECH NEWS | "@ + name,
                color,
                description: category_description(digest, is_creator_insights),
                footer_text: if is_creator_insights {
                    "Tech Radar \u{2022} Creator Insights Digest"@
                } else {
                    "Tech Radar \u{2022} Morning Digest"@
                },
            },
        ]
    }
}

/// The embeds of the digest: after repeated articles are left out, one per category that
/// still has at least three articles, in priority order; certifications only on Mondays. The
/// agents category keeps the colour of its former name.
pub open spec fn discord_embeds(s: CategorizedSummaryView, is_monday: bool) -> Seq<
    DiscordEmbedView,
> {
    let d = dedup_summary(s);
    category_embed(AGENTS_CATEGORY@, color_of(AGENTS_COLOR_KEY@), d.agentic_ai, false)
        + category_embed(
        "Cloud Architecture"@,
        color_of("Cloud Architecture"@),
        d.architecture_ai,
        false,
    ) + category_embed("Programming"@, color_of("Programming"@), d.programming, false)
        + category_embed("Tech Updates"@, color_of("Tech Updates"@), d.tech_update, false)
        + category_embed(
        "Creator Insights"@,
        color_of("Creator Insights"@),
        d.creator_insights,
        true,
    ) + if is_monday {
        category_embed("Certifications"@, color_of("Certifications"@), d.certifications, false)
    } else {
        seq![]
    }
}

fn push_category_embed(
    out: &mut Vec<DiscordEmbed>,
    name: &str,
    color: u32,
    digest: &CategoryDigest,
    is_creator_insights: bool,
)
    ensures
        embed_views(final(out)@) == embed_views(old(out)@) + category_embed(
            name@,
            color,
            digest@,
            is_creator_insights,
        ),
{
    if digest.articles.len() < MIN_ARTICLES_PER_CATEGORY {
        assert(embed_views(out@) + category_embed(name@, color, digest@, is_creator_insights)
            =~= embed_views(out@));
        return ;
    }
    let mut title = chars_of("\u{1F4F0} LINE TECH NEWS | ");
    append_str(&mut title, name);
    let description = category_description_chars(digest, is_creator_insights);
    let footer = if is_creator_insights {
        "Tech Radar \u{2022} Creator Insights Digest"
    } else {
        "Tech Radar \u{2022} Morning Digest"
    };
    let embed = DiscordEmbed {
        title: to_string(&title),
        color,
        description: to_string(&description),
        footer_text: String::from_str(footer),
    };
    let ghost prev = embed_views(out@);
    out.push(embed);
    assert(embed_views(out@) =~= prev + category_embed(name@, color, digest@, is_creator_insights));
}

/// The embeds of the digest, with certifications shown only when `is_monday` holds.
pub fn format_discord_message(summary: &CategorizedSummary, is_monday: bool) -> (r: Vec<
    DiscordEmbed,
>)
    ensures
        embed_views(r@) == discord_embeds(summary@, is_monday),
{
    let d = dedup_categorized_summary(summary);
    let mut out: Vec<DiscordEmbed> = Vec::new();
    assert(embed_views(out@) =~= Seq::<DiscordEmbedView>::empty());
    push_category_embed(&mut out, AGENTS_CATEGORY, category_color(AGENTS_COLOR_KEY), &d.agentic_ai, false);
    push_category_embed(
        &mut out,
        "Cloud Architecture",
        category_color("Cloud Architecture"),
        &d.architecture_ai,
        false,
    );
    push_category_embed(&mut out, "Programming", category_color("Programming"), &d.programming, false);
    push_category_embed(&mut out, "Tech Updates", category_color("Tech Updates"), &d.tech_update, false);
    push_category_embed(
        &mut out,
        "Creator Insights",
        category_color("Creator Insights"),
        &d.creator_insights,
        true,
    );
    if is_monday {
        push_category_embed(
            &mut out,
            "Certifications",
            category_color("Certifications"),
            &d.certifications,
            false,
        );
    }
    assert(embed_views(out@) =~= discord_embeds(summary@, is_monday));
    out
}


/// The JSON escape of one character inside a string, as `serde_json` writes it: quote and
/// backslash behind a backslash, the five usual control characters by their short escapes,
/// the other control characters below space as `\u00` and two small hex digits; every other
/// character as it is.
pub open spec fn json_escape(c: char) -> Seq<char> {
    let hex = seq!['0', '1', '2', '3', '4', '5', '6', '7', '8', '9', 'a', 'b', 'c', 'd', 'e', 'f'];
    if c == '"' {
        seq!['\\', '"']
    } else if c == '\\' {
        seq!['\\', '\\']
    } else if c == '\u{8}' {
        seq!['\\', 'b']
    } else if c == '\u{c}' {
        seq!['\\', 'f']
    } else if c == '\n' {
        seq!['\\', 'n']
    } else if c == '\r' {
        seq!['\\', 'r']
    } else if c == '\t' {
        seq!['\\', 't']
    } else if (c as u32) < 0x20 {
        seq!['\\', 'u', '0', '0', hex[(c as int) / 16], hex[(c as int) % 16]]
    } else {
        seq![c]
    }
}

/// A text as a JSON string: in quotes, each character escaped.
pub open spec fn json_quoted(s: Seq<char>) -> Seq<char> {
    seq!['"'] + join(s.map_values(|c: char| json_escape(c)), seq![]) + seq!['"']
}

/// `serde_json::to_string` of a string: it writes the text as a JSON string, in quotes with
/// each character escaped as `json_escape` says. For a string the call does not fail: it
/// writes into a growing buffer, which reports no error, so the error arm is never taken.
#[verifier::external_body]
fn json_string(s: &str) -> (r: String)
    ensures
        r@ == json_quoted(s@),
{
    match serde_json::to_string(s) {
        Ok(t) => t,
        Err(_) => String::new(),
    }
}

/// The JSON of one embed, as `serde_json` writes the object Discord expects: its members in
/// the order of their keys, with nothing between them.
pub open spec fn embed_json(e: DiscordEmbedView) -> Seq<char> {
    "{\"color\":"@ + decimal(e.color as nat) + ",\"description\":"@ + json_quoted(e.description)
        + ",\"footer\":{\"text\":"@ + json_quoted(e.footer_text) + "},\"title\":"@ + json_quoted(
        e.title,
    ) + "}"@
}

/// The body that delivers the embeds to a Discord webhook.
pub open spec fn embeds_payload(embeds: Seq<DiscordEmbedView>) -> Seq<char> {
    "{\"embeds\":["@ + join(embeds.map_values(|e: DiscordEmbedView| embed_json(e)), ","@)
        + "]}"@
}

/// The body that delivers a plain-text message to a Discord webhook.
pub open spec fn text_payload(content: Seq<char>) -> Seq<char> {
    "{\"content\":"@ + json_quoted(content) + "}"@
}

fn embed_json_chars(e: &DiscordEmbed) -> (v: Vec<char>)
    ensures
        v@ == embed_json(e@),
{
    let mut out = chars_of("{\"color\":");
    append_decimal(&mut out, e.color as u64);
    append_str(&mut out, ",\"description\":");
    append_str(&mut out, json_string(e.description.as_str()).as_str());
    append_str(&mut out, ",\"footer\":{\"text\":");
    append_str(&mut out, json_string(e.footer_text.as_str()).as_str());
    append_str(&mut out, "},\"title\":");
    append_str(&mut out, json_string(e.title.as_str()).as_str());
    append_str(&mut out, "}");
    assert(out@ =~= embed_json(e@));
    out
}

/// The body that delivers the embeds to a Discord webhook.
pub fn discord_embeds_payload(embeds: &[DiscordEmbed]) -> (r: String)
    ensures
        r@ == embeds_payload(embed_views(embeds@)),
{
    let ghost items = embed_views(embeds@).map_values(|e: DiscordEmbedView| embed_json(e));
    let mut parts: Vec<Vec<char>> = Vec::new();
    let mut i: usize = 0;
    while i < embeds.len()
        invariant
            i <= embeds@.len(),
            items == embed_views(embeds@).map_values(|e: DiscordEmbedView| embed_json(e)),
            char_views(parts@) == items.take(i as int),
        decreases embeds@.len() - i,
    {
        let part = embed_json_chars(&embeds[i]);
        let ghost prev = char_views(parts@);
        parts.push(part);
        i = i + 1;
        assert(char_views(parts@) =~= prev.push(items[i - 1]));
        assert(char_views(parts@) =~= items.take(i as int));
    }
    assert(items.take(i as int) =~= items);
    let comma = chars_of(",");
    let body = join_chars(&parts, comma.as_slice());
    let mut out = chars_of("{\"embeds\":[");
    append_chars(&mut out, body.as_slice());
    append_str(&mut out, "]}");
    to_string(&out)
}

/// The body that delivers the plain-text message `content` to a Discord webhook.
pub fn discord_text_payload(content: &str) -> (r: String)
    ensures
        r@ == text_payload(content@),
{
    let mut out = chars_of("{\"content\":");
    append_str(&mut out, json_string(content).as_str());
    append_str(&mut out, "}");
    to_string(&out)
}

proof fn lemma_url_keys_push(arts: Seq<ArticleInfoView>, a: ArticleInfoView)
    ensures
        url_keys(arts.push(a)) == url_keys(arts) + match url_key(a) {
            Some(k) => seq![k],
            None => seq![],
        },
{
    let m = arts.push(a).map_values(|x: ArticleInfoView| url_key(x));
    assert(m.drop_last() =~= arts.map_values(|x: ArticleInfoView| url_key(x)));
}

/// Leaving out repeats keeps exactly the articles whose normalized URL is not among `seen`,
/// in order: each kept article is one of `arts` and not a repeat, each article that is not a
/// repeat is kept, and no kept URL is among `seen`.
pub proof fn lemma_dedup_infos(arts: Seq<ArticleInfoView>, seen: Seq<Seq<char>>)
    ensures
        forall|j: int|
            0 <= j < dedup_infos(arts, seen).len() ==> arts.contains(
                #[trigger] dedup_infos(arts, seen)[j],
            ) && !is_repeat(dedup_infos(arts, seen)[j], seen),
        forall|i: int|
            0 <= i < arts.len() ==> dedup_infos(arts, seen).contains(#[trigger] arts[i])
                || is_repeat(arts[i], seen),
        forall|x: int|
            0 <= x < url_keys(dedup_infos(arts, seen)).len() ==> !seen.contains(
                #[trigger] url_keys(dedup_infos(arts, seen))[x],
            ),
    decreases arts.len(),
{
    if arts.len() == 0 {
        assert(url_keys(seq![]) =~= Seq::<Seq<char>>::empty());
    } else {
        let init = arts.drop_last();
        let a = arts.last();
        lemma_dedup_infos(init, seen);
        let kept = dedup_infos(init, seen);
        let all = dedup_infos(arts, seen);
        lemma_url_keys_push(kept, a);
        assert forall|j: int| 0 <= j < all.len() implies arts.contains(#[trigger] all[j])
            && !is_repeat(all[j], seen) by {
            if j < kept.len() {
                assert(all[j] == kept[j]);
                let t = choose|t: int| 0 <= t < init.len() && init[t] == kept[j];
                assert(arts[t] == init[t]);
            } else {
                assert(all[j] == a);
                assert(arts[arts.len() - 1] == a);
            }
        }
        assert forall|i: int| 0 <= i < arts.len() implies all.contains(#[trigger] arts[i])
            || is_repeat(arts[i], seen) by {
            if i < arts.len() - 1 {
                assert(init[i] == arts[i]);
                if kept.contains(arts[i]) {
                    let j = choose|j: int| 0 <= j < kept.len() && kept[j] == arts[i];
                    assert(all[j] == kept[j]);
                }
            } else if !is_repeat(a, seen) {
                assert(all[all.len() - 1] == a);
            }
        }
        assert forall|x: int| 0 <= x < url_keys(all).len() implies !seen.contains(
            #[trigger] url_keys(all)[x],
        ) by {
            if x < url_keys(kept).len() {
                if !is_repeat(a, seen) {
                    assert(url_keys(all)[x] == url_keys(kept)[x]);
                }
            }
        }
    }
}

/// URLs of distinct categories never meet: no URL in the first sequence is in the second.
pub open spec fn keys_apart(earlier: Seq<Seq<char>>, later: Seq<Seq<char>>) -> bool {
    forall|x: int, y: int|
        0 <= x < earlier.len() && 0 <= y < later.len() ==> #[trigger] earlier[x] != #[trigger] later[y]
}

/// No article shown under a category has the non-empty normalized URL of an article shown
/// under a higher-priority category.
pub proof fn lemma_digest_urls_distinct(s: CategorizedSummaryView)
    ensures
        ({
            let d = dedup_summary(s);
            let k1 = shown_keys(d.agentic_ai.articles);
            let k2 = shown_keys(d.architecture_ai.articles);
            let k3 = shown_keys(d.programming.articles);
            let k4 = shown_keys(d.tech_update.articles);
            let k5 = shown_keys(d.creator_insights.articles);
            let k6 = shown_keys(d.certifications.articles);
            &&& keys_apart(k1, k2)
            &&& keys_apart(k1 + k2, k3)
            &&& keys_apart(k1 + k2 + k3, k4)
            &&& keys_apart(k1 + k2 + k3 + k4, k5)
            &&& keys_apart(k1 + k2 + k3 + k4 + k5, k6)
        }),
{
    let d = dedup_summary(s);
    let k1 = shown_keys(d.agentic_ai.articles);
    let k2 = shown_keys(d.architecture_ai.articles);
    let k3 = shown_keys(d.programming.articles);
    let k4 = shown_keys(d.tech_update.articles);
    let k5 = shown_keys(d.creator_insights.articles);
    let k6 = shown_keys(d.certifications.articles);
    lemma_dedup_infos(s.architecture_ai.articles, k1);
    lemma_dedup_infos(s.programming.articles, k1 + k2);
    lemma_dedup_infos(s.tech_update.articles, k1 + k2 + k3);
    lemma_dedup_infos(s.creator_insights.articles, k1 + k2 + k3 + k4);
    lemma_dedup_infos(s.certifications.articles, k1 + k2 + k3 + k4 + k5);
    assert forall|x: int, y: int| 0 <= x < k1.len() && 0 <= y < k2.len() implies #[trigger] k1[x]
        != #[trigger] k2[y] by {
        assert(!k1.contains(url_keys(d.architecture_ai.articles)[y]));
    }
    assert forall|x: int, y: int|
        0 <= x < (k1 + k2).len() && 0 <= y < k3.len() implies #[trigger] (k1 + k2)[x]
        != #[trigger] k3[y] by {
        assert(!(k1 + k2).contains(url_keys(d.programming.articles)[y]));
    }
    assert forall|x: int, y: int|
        0 <= x < (k1 + k2 + k3).len() && 0 <= y < k4.len() implies #[trigger] (k1 + k2 + k3)[x]
        != #[trigger] k4[y] by {
        assert(!(k1 + k2 + k3).contains(url_keys(d.tech_update.articles)[y]));
    }
    assert forall|x: int, y: int|
        0 <= x < (k1 + k2 + k3 + k4).len() && 0 <= y < k5.len() implies #[trigger] (k1 + k2 + k3
            + k4)[x] != #[trigger] k5[y] by {
        assert(!(k1 + k2 + k3 + k4).contains(url_keys(d.creator_insights.articles)[y]));
    }
    assert forall|x: int, y: int|
        0 <= x < (k1 + k2 + k3 + k4 + k5).len() && 0 <= y < k6.len() implies #[trigger] (k1 + k2
            + k3 + k4 + k5)[x] != #[trigger] k6[y] by {
        assert(!(k1 + k2 + k3 + k4 + k5).contains(url_keys(d.certifications.articles)[y]));
    }
}

/// An article of the analysis is left out of the digest only where its non-empty normalized
/// URL is among those that the higher-priority categories show.
pub proof fn lemma_dedup_drops_only_repeats(arts: Seq<ArticleInfoView>, seen: Seq<Seq<char>>, i: int)
    requires
        0 <= i < arts.len(),
        !dedup_infos(arts, seen).contains(arts[i]),
    ensures
        url_key(arts[i]) matches Some(k) && seen.contains(k),
{
    lemma_dedup_infos(arts, seen);
}

/// Nothing is left out of the first category, however its articles repeat each other's URLs.
pub proof fn lemma_first_category_kept_whole(arts: Seq<ArticleInfoView>)
    ensures
        dedup_infos(arts, seq![]) == arts,
    decreases arts.len(),
{
    if arts.len() > 0 {
        lemma_first_category_kept_whole(arts.drop_last());
        assert(arts.drop_last().push(arts.last()) =~= arts);
    }
}

/// On a Monday the digest is the same as on another day, with the certifications category
/// added at the end where it qualifies.
pub proof fn lemma_certifications_only_on_mondays(s: CategorizedSummaryView)
    ensures
        discord_embeds(s, true) == discord_embeds(s, false) + category_embed(
            "Certifications"@,
            color_of("Certifications"@),
            dedup_summary(s).certifications,
            false,
        ),
{
    assert(discord_embeds(s, false) =~= discord_embeds(s, false) + Seq::<DiscordEmbedView>::empty());
}

/// Every embed of the digest belongs to a category that kept at least the fewest articles a
/// category needs, and shows at most the most a category shows.
pub proof fn lemma_embed_shows_qualified_category(
    name: Seq<char>,
    color: u32,
    digest: CategoryDigestView,
    is_creator_insights: bool,
)
    ensures
        category_embed(name, color, digest, is_creator_insights).len() > 0 <==> digest.articles.len()
            >= MIN_ARTICLES_PER_CATEGORY,
        take_first(digest.articles, MAX_ARTICLES_PER_CATEGORY as nat).len()
            <= MAX_ARTICLES_PER_CATEGORY,
{
}


proof fn lemma_first_line_or_sentence_free(v: Seq<char>)
    requires
        !v.contains('\n'),
    ensures
        !first_line_or_sentence_of(v).contains('\n'),
{
    let t = trim(v);
    lemma_trim_free(v, '\n');
    let raw = match find_from(t, seq!['\n'], 0) {
        Some(k) => t.take(k),
        None => t,
    };
    lemma_find_from(t, seq!['\n'], 0);
    if let Some(k) = find_from(t, seq!['\n'], 0) {
        lemma_subrange_free(t, 0, k, '\n');
        assert(t.take(k) =~= t.subrange(0, k));
    }
    lemma_trim_free(raw, '\n');
    let line = first_line(t);
    lemma_find_from(line, seq!['.'], 0);
    if let Some(e) = find_from(line, seq!['.'], 0) {
        lemma_subrange_free(line, 0, e, '\n');
        assert(line.take(e) =~= line.subrange(0, e));
        lemma_trim_free(line.take(e), '\n');
    }
}

proof fn lemma_heading_free(a: ArticleInfoView, is_creator_insights: bool)
    requires
        !a.title.contains('\n'),
        !a.why_this_matters.contains('\n'),
    ensures
        !article_heading(a, is_creator_insights).contains('\n'),
{
    reveal_strlit("...");
    reveal_strlit("Untitled update");
    lemma_trim_free(a.title, '\n');
    lemma_trim_free(a.why_this_matters, '\n');
    let f = first_line_or_sentence_of(trim(a.why_this_matters));
    lemma_first_line_or_sentence_free(trim(a.why_this_matters));
    let hook = take_chars(f, 60);
    if f.len() > 60 {
        lemma_subrange_free(f, 0, 60, '\n');
        assert(f.take(60) =~= f.subrange(0, 60));
    }
    lemma_trim_free(hook, '\n');
    assert(!"..."@.contains('\n'));
    assert(!"Untitled update"@.contains('\n'));
    lemma_concat_free(trim(hook), "..."@, '\n');
}

proof fn lemma_markdown_url_free(url: Seq<char>)
    requires
        !url.contains('\n'),
    ensures
        !markdown_url(url).contains('\n'),
{
    reveal_strlit("(");
    reveal_strlit(")");
    reveal_strlit("%28");
    reveal_strlit("%29");
    assert("("@ =~= seq!['(']);
    assert(")"@ =~= seq![')']);
    assert(!"%28"@.contains('\n'));
    assert(!"%29"@.contains('\n'));
    let t = trim(url);
    lemma_trim_free(url, '\n');
    lemma_replace_char_free(t, '(', "%28"@, '\n');
    lemma_replace_char_free(replace_all(t, seq!['('], "%28"@), ')', "%29"@, '\n');
}

proof fn lemma_title_line_free(article: ArticleInfoView, is_creator_insights: bool)
    requires
        !article.title.contains('\n'),
        !article.url.contains('\n'),
        !article.why_this_matters.contains('\n'),
    ensures
        !digest_title_line(article, is_creator_insights).contains('\n'),
        ({
            let head = "**"@ + article_heading(article, is_creator_insights) + "**"@;
            &&& digest_title_line(article, is_creator_insights).len() >= head.len()
            &&& digest_title_line(article, is_creator_insights).take(head.len() as int) == head
        }),
{
    reveal_strlit("**");
    reveal_strlit(" - [");
    reveal_strlit("Read Thread");
    reveal_strlit("Read Article");
    reveal_strlit("](");
    reveal_strlit(")");
    let c = is_creator_insights;
    let heading = article_heading(article, c);
    let head = "**"@ + heading + "**"@;
    let label = if c {
        "Read Thread"@
    } else {
        "Read Article"@
    };
    let m = markdown_url(article.url);
    lemma_heading_free(article, c);
    lemma_markdown_url_free(article.url);
    assert(!"**"@.contains('\n'));
    assert(!" - ["@.contains('\n'));
    assert(!"Read Thread"@.contains('\n'));
    assert(!"Read Article"@.contains('\n'));
    assert(!"]("@.contains('\n'));
    assert(!")"@.contains('\n'));
    lemma_concat_free("**"@, heading, '\n');
    lemma_concat_free("**"@ + heading, "**"@, '\n');
    if trim(article.url).len() > 0 {
        reveal_strlit("** - [");
        assert("** - ["@ =~= "**"@ + " - ["@);
        lemma_concat_free(head, " - ["@, '\n');
        lemma_concat_free(head + " - ["@, label, '\n');
        lemma_concat_free(head + " - ["@ + label, "]("@, '\n');
        lemma_concat_free(head + " - ["@ + label + "]("@, m, '\n');
        lemma_concat_free(head + " - ["@ + label + "]("@ + m, ")"@, '\n');
        assert(digest_title_line(article, c) =~= head + " - ["@ + label + "]("@ + m + ")"@);
        assert((head + " - ["@ + label + "]("@ + m + ")"@).take(head.len() as int) =~= head);
    } else {
        assert(head.take(head.len() as int) =~= head);
    }
}

proof fn lemma_body_lines_free(article: ArticleInfoView)
    requires
        !article.source.contains('\n'),
        !article.why_this_matters.contains('\n'),
        !article.strategic_implication.contains('\n'),
    ensures
        !("Source: "@ + trimmed_or(article.source, "Unknown source"@)).contains('\n'),
        !("Why this matters: "@ + trimmed_or(
            article.why_this_matters,
            "Relevant to AI and engineering strategy."@,
        )).contains('\n'),
        !("Strategic implication: "@ + trim(article.strategic_implication)).contains('\n'),
        "\nSource: "@ == seq!['\n'] + "Source: "@,
        "\nWhy this matters: "@ == seq!['\n'] + "Why this matters: "@,
        "\nStrategic implication: "@ == seq!['\n'] + "Strategic implication: "@,
{
    reveal_strlit("\nSource: ");
    reveal_strlit("Source: ");
    reveal_strlit("\nWhy this matters: ");
    reveal_strlit("Why this matters: ");
    reveal_strlit("\nStrategic implication: ");
    reveal_strlit("Strategic implication: ");
    reveal_strlit("Unknown source");
    reveal_strlit("Relevant to AI and engineering strategy.");
    lemma_trim_free(article.source, '\n');
    lemma_trim_free(article.why_this_matters, '\n');
    lemma_trim_free(article.strategic_implication, '\n');
    assert(!"Source: "@.contains('\n'));
    assert(!"Why this matters: "@.contains('\n'));
    assert(!"Strategic implication: "@.contains('\n'));
    assert(!"Unknown source"@.contains('\n'));
    assert(!"Relevant to AI and engineering strategy."@.contains('\n'));
    lemma_concat_free("Source: "@, trimmed_or(article.source, "Unknown source"@), '\n');
    lemma_concat_free(
        "Why this matters: "@,
        trimmed_or(article.why_this_matters, "Relevant to AI and engineering strategy."@),
        '\n',
    );
    lemma_concat_free("Strategic implication: "@, trim(article.strategic_implication), '\n');
    assert("\nSource: "@ =~= seq!['\n'] + "Source: "@);
    assert("\nWhy this matters: "@ =~= seq!['\n'] + "Why this matters: "@);
    assert("\nStrategic implication: "@ =~= seq!['\n'] + "Strategic implication: "@);
}

/// Where no field of an article holds a line break, its entry in the digest starts with its
/// heading in bold, and has three lines, four with a strategic implication: the link line
/// (with a "Read Thread" link for creator insights, "Read Article" otherwise, where it has a
/// URL), its source, why it matters and, where given, its strategic implication.
pub proof fn lemma_digest_item_layout(article: ArticleInfoView, is_creator_insights: bool)
    requires
        !article.title.contains('\n'),
        !article.source.contains('\n'),
        !article.url.contains('\n'),
        !article.why_this_matters.contains('\n'),
        !article.strategic_implication.contains('\n'),
    ensures
        ({
            let item = digest_article_item(article, is_creator_insights);
            let head = "**"@ + article_heading(article, is_creator_insights) + "**"@;
            let strategic = trim(article.strategic_implication);
            &&& item.len() >= head.len()
            &&& item.take(head.len() as int) == head
            &&& lines_from(item, 0).len() == if strategic.len() == 0 {
                3int
            } else {
                4int
            }
            &&& lines_from(item, 0)[0] == digest_title_line(article, is_creator_insights)
            &&& lines_from(item, 0)[1] == "Source: "@ + trimmed_or(article.source, "Unknown source"@)
            &&& lines_from(item, 0)[2] == "Why this matters: "@ + trimmed_or(
                article.why_this_matters,
                "Relevant to AI and engineering strategy."@,
            )
            &&& strategic.len() > 0 ==> lines_from(item, 0)[3] == "Strategic implication: "@
                + strategic
        }),
{
    let c = is_creator_insights;
    let head = "**"@ + article_heading(article, c) + "**"@;
    let title_line = digest_title_line(article, c);
    let line2 = "Source: "@ + trimmed_or(article.source, "Unknown source"@);
    let line3 = "Why this matters: "@ + trimmed_or(
        article.why_this_matters,
        "Relevant to AI and engineering strategy."@,
    );
    let strategic = trim(article.strategic_implication);
    let line4 = "Strategic implication: "@ + strategic;
    let nl = seq!['\n'];
    lemma_title_line_free(article, c);
    lemma_body_lines_free(article);
    let item = digest_article_item(article, c);
    if strategic.len() == 0 {
        assert(item == title_line + "\nSource: "@ + trimmed_or(article.source, "Unknown source"@)
            + "\nWhy this matters: "@ + trimmed_or(
            article.why_this_matters,
            "Relevant to AI and engineering strategy."@,
        ));
        assert(item =~= title_line + nl + (line2 + nl + line3));
        lemma_lines_of_line_break(title_line, line2 + nl + line3);
        lemma_lines_of_line_break(line2, line3);
        lemma_lines_of_one(line3);
    } else {
        assert(item =~= title_line + nl + (line2 + nl + (line3 + nl + line4)));
        lemma_lines_of_line_break(title_line, line2 + nl + (line3 + nl + line4));
        lemma_lines_of_line_break(line2, line3 + nl + line4);
        lemma_lines_of_line_break(line3, line4);
        lemma_lines_of_one(line4);
    }
    assert(item.take(head.len() as int) =~= title_line.take(head.len() as int));
}

proof fn lemma_path_start_bounds(s: Seq<char>, k: int)
    requires
        0 <= k <= s.len(),
    ensures
        k <= path_start(s, k) <= s.len(),
    decreases s.len() - k,
{
    if k < s.len() && !(s[k] == '/' || s[k] == '?' || s[k] == '#') {
        lemma_path_start_bounds(s, k + 1);
    }
}

proof fn lemma_host_end_bounds(t: Seq<char>)
    ensures
        0 <= host_end(t) <= t.len(),
{
    reveal_strlit("://");
    lemma_find_from(t, "://"@, 0);
    if let Some(i) = find_from(t, "://"@, 0) {
        lemma_path_start_bounds(t, i + 3);
    }
}

/// Normalizing a URL only trims it, drops its trailing slashes and makes ASCII capitals small
/// in its scheme and host: it keeps the length of the trimmed URL, each character stays or
/// becomes its small letter, and from the path on nothing changes.
pub proof fn lemma_normalized_url_changes_only_case(url: Seq<char>)
    ensures
        ({
            let t = strip_suffix_all(trim(url), "/"@);
            let n = normalized_url(url);
            &&& n.len() == t.len()
            &&& forall|i: int| 0 <= i < t.len() ==> n[i] == t[i] || n[i] == ascii_lower(#[trigger] t[i])
            &&& forall|i: int| host_end(t) <= i < t.len() ==> n[i] == #[trigger] t[i]
        }),
{
    let t = strip_suffix_all(trim(url), "/"@);
    lemma_host_end_bounds(t);
    let h = host_end(t);
    let n = normalized_url(url);
    assert(n == ascii_lowercase(t.take(h)) + t.skip(h));
    assert forall|i: int| 0 <= i < t.len() implies n[i] == t[i] || n[i] == ascii_lower(
        #[trigger] t[i],
    ) by {
        if i < h {
            assert(n[i] == ascii_lowercase(t.take(h))[i]);
        } else {
            assert(n[i] == t.skip(h)[i - h]);
        }
    }
    assert forall|i: int| h <= i < t.len() implies n[i] == #[trigger] t[i] by {
        assert(n[i] == t.skip(h)[i - h]);
    }
}

/// URLs that differ after their scheme and host, in path, query or fragment, or in length once
/// trimmed and stripped of trailing slashes, never count as the same article.
pub proof fn lemma_distinct_paths_distinct_urls(u: Seq<char>, v: Seq<char>, i: int)
    requires
        ({
            let tu = strip_suffix_all(trim(u), "/"@);
            let tv = strip_suffix_all(trim(v), "/"@);
            tu.len() != tv.len() || (host_end(tu) <= i < tu.len() && host_end(tv) <= i
                < tv.len() && tu[i] != tv[i])
        }),
    ensures
        normalized_url(u) != normalized_url(v),
{
    lemma_normalized_url_changes_only_case(u);
    lemma_normalized_url_changes_only_case(v);
    let tu = strip_suffix_all(trim(u), "/"@);
    let tv = strip_suffix_all(trim(v), "/"@);
    if tu.len() == tv.len() {
        assert(normalized_url(u)[i] == tu[i]);
        assert(normalized_url(v)[i] == tv[i]);
    }
}

/// The embed of a category as the digest shows it: titled by its name, in its colour, its
/// description laid out for creator insights or not, with the matching footer.
pub open spec fn shown_embed(name: Seq<char>, color: u32, digest: CategoryDigestView, creator: bool) -> DiscordEmbedView {
    DiscordEmbedView {
        title: "\u{1F4F0} LINE TECH NEWS | "@ + name,
        color,
        description: category_description(digest, creator),
        footer_text: if creator {
            "Tech Radar \u{2022} Creator Insights Digest"@
        } else {
            "Tech Radar \u{2022} Morning Digest"@
        },
    }
}

/// Whether a category keeps enough articles to be shown.
pub open spec fn qualifies(digest: CategoryDigestView) -> bool {
    digest.articles.len() >= MIN_ARTICLES_PER_CATEGORY
}

/// The digest has one embed per category that keeps enough articles (certifications only on
/// a Monday), and no other. Only the creator insights embed is laid out as creator insights,
/// with hooks, "Read Thread" links and its own footer; every other category lists its articles
/// under their titles with "Read Article" links and the morning footer. Each embed has its
/// category's colour, the agents category that of its former name.
pub proof fn lemma_embeds_by_category(s: CategorizedSummaryView, is_monday: bool)
    ensures
        ({
            let d = dedup_summary(s);
            let es = discord_embeds(s, is_monday);
            &&& es.len() == (if qualifies(d.agentic_ai) { 1int } else { 0 }) + (if qualifies(
                d.architecture_ai,
            ) {
                1int
            } else {
                0
            }) + (if qualifies(d.programming) {
                1int
            } else {
                0
            }) + (if qualifies(d.tech_update) {
                1int
            } else {
                0
            }) + (if qualifies(d.creator_insights) {
                1int
            } else {
                0
            }) + (if is_monday && qualifies(d.certifications) {
                1int
            } else {
                0
            })
            &&& qualifies(d.agentic_ai) ==> es.contains(
                shown_embed(AGENTS_CATEGORY@, 46_714, d.agentic_ai, false),
            )
            &&& qualifies(d.architecture_ai) ==> es.contains(
                shown_embed("Cloud Architecture"@, 39_423, d.architecture_ai, false),
            )
            &&& qualifies(d.programming) ==> es.contains(
                shown_embed("Programming"@, 10_182_117, d.programming, false),
            )
            &&& qualifies(d.tech_update) ==> es.contains(
                shown_embed("Tech Updates"@, 15_817_653, d.tech_update, false),
            )
            &&& qualifies(d.creator_insights) ==> es.contains(
                shown_embed("Creator Insights"@, 16_763_904, d.creator_insights, true),
            )
            &&& is_monday && qualifies(d.certifications) ==> es.contains(
                shown_embed("Certifications"@, 16_777_215, d.certifications, false),
            )
        }),
{
    reveal_strlit("Agentic AI");
    reveal_strlit("Cloud Architecture");
    reveal_strlit("Programming");
    reveal_strlit("Tech Updates");
    reveal_strlit("Creator Insights");
    reveal_strlit("Certifications");
    let d = dedup_summary(s);
    let e1 = category_embed(AGENTS_CATEGORY@, color_of(AGENTS_COLOR_KEY@), d.agentic_ai, false);
    let e2 = category_embed(
        "Cloud Architecture"@,
        color_of("Cloud Architecture"@),
        d.architecture_ai,
        false,
    );
    let e3 = category_embed("Programming"@, color_of("Programming"@), d.programming, false);
    let e4 = category_embed("Tech Updates"@, color_of("Tech Updates"@), d.tech_update, false);
    let e5 = category_embed(
        "Creator Insights"@,
        color_of("Creator Insights"@),
        d.creator_insights,
        true,
    );
    let e6: Seq<DiscordEmbedView> = if is_monday {
        category_embed("Certifications"@, color_of("Certifications"@), d.certifications, false)
    } else {
        seq![]
    };
    let es = discord_embeds(s, is_monday);
    assert(es == e1 + e2 + e3 + e4 + e5 + e6);
    assert("Cloud Architecture"@ != AGENTS_COLOR_KEY@);
    assert("Programming"@ != AGENTS_COLOR_KEY@ && "Programming"@ != "Cloud Architecture"@);
    assert("Tech Updates"@ != AGENTS_COLOR_KEY@ && "Tech Updates"@ != "Cloud Architecture"@
        && "Tech Updates"@ != "Programming"@);
    assert("Creator Insights"@ != AGENTS_COLOR_KEY@ && "Creator Insights"@ != "Cloud Architecture"@
        && "Creator Insights"@ != "Programming"@ && "Creator Insights"@ != "Tech Updates"@);
    assert("Certifications"@.len() == 14);
    assert("Certifications"@ != AGENTS_COLOR_KEY@);
    assert("Certifications"@ != "Cloud Architecture"@);
    assert("Certifications"@ != "Programming"@);
    assert("Certifications"@ != "Tech Updates"@);
    assert("Certifications"@ != "Creator Insights"@);
    let n1 = e1.len() as int;
    let n2 = n1 + e2.len();
    let n3 = n2 + e3.len();
    let n4 = n3 + e4.len();
    let n5 = n4 + e5.len();
    if qualifies(d.agentic_ai) {
        assert(es[0] == e1[0]);
    }
    if qualifies(d.architecture_ai) {
        assert(es[n1] == e2[0]);
    }
    if qualifies(d.programming) {
        assert(es[n2] == e3[0]);
    }
    if qualifies(d.tech_update) {
        assert(es[n3] == e4[0]);
    }
    if qualifies(d.creator_insights) {
        assert(es[n4] == e5[0]);
    }
    if is_monday && qualifies(d.certifications) {
        assert(es[n5] == e6[0]);
    }
}

/// A category's description shows the key themes exactly as `format_key_themes` renders the
/// digest's whole list of them: the rendering occurs in it, and so does each bullet line of
/// the first three themes that hold any text.
pub proof fn lemma_description_shows_key_themes(digest: CategoryDigestView, is_creator_insights: bool)
    ensures
        exists|k: int| #[trigger] occurs_at(
            category_description(digest, is_creator_insights),
            key_themes_text(digest.key_themes),
            k,
        ),
        forall|j: int|
            0 <= j < key_theme_lines(digest.key_themes).len() ==> #[trigger] occurs_in(
                category_description(digest, is_creator_insights),
                key_theme_lines(digest.key_themes)[j],
            ),
{
    let desc = category_description(digest, is_creator_insights);
    let kt = key_themes_text(digest.key_themes);
    let head = "\u{1F9E0} **Summary**\n"@ + trimmed_or(
        digest.summary,
        "Belum ada ringkasan kategori yang cukup kuat."@,
    ) + "\n\n\u{1F525} **Key Themes**\n"@;
    let tail = "\n\n\u{1F4F0} **Top Updates**\n\n"@ + join(
        take_first(digest.articles, MAX_ARTICLES_PER_CATEGORY as nat).map_values(
            |a: ArticleInfoView| digest_article_item(a, is_creator_insights),
        ),
        "\n\n"@,
    );
    assert(desc =~= head + kt + tail);
    assert(kt.subrange(0, kt.len() as int) =~= kt);
    assert(occurs_at(kt, kt, 0));
    lemma_occurs_within(head, kt, tail, kt, 0);
    assert(occurs_at(desc, kt, head.len() as int));
    let lines = key_theme_lines(digest.key_themes);
    assert forall|j: int| 0 <= j < lines.len() implies #[trigger] occurs_in(desc, lines[j]) by {
        lemma_join_holds_each(lines, "\n"@, j);
        assert(kt == join(lines, "\n"@));
        let k = choose|k: int| occurs_at(join(lines, "\n"@), lines[j], k);
        lemma_occurs_within(head, kt, tail, lines[j], k);
        assert(occurs_at(desc, lines[j], head.len() + k));
    }
}

/// A sanitized link target holds no round bracket.
pub proof fn lemma_markdown_url_has_no_brackets(url: Seq<char>)
    ensures
        !markdown_url(url).contains('('),
        !markdown_url(url).contains(')'),
{
    reveal_strlit("(");
    reveal_strlit(")");
    reveal_strlit("%28");
    reveal_strlit("%29");
    assert("("@ =~= seq!['(']);
    assert(")"@ =~= seq![')']);
    let t = trim(url);
    let a = replace_all(t, seq!['('], "%28"@);
    lemma_replace_char_free(t, '(', "%28"@, '(');
    lemma_replace_char_free(a, ')', "%29"@, '(');
    lemma_replace_char_free(a, ')', "%29"@, ')');
}

} // verus!
